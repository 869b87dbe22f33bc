//! Which of the things that a statement shows are wanted.

use vstd::prelude::*;

use crate::text::decimal;
use crate::text::push_decimal;

verus! {

#[derive(Debug)]
pub enum ShowLimit {
    Like { pattern: String },
    /// A condition, in words.
    Where { selection: String },
}

#[derive(Debug)]
pub struct ShowOptions {
    pub limit_option: Option<ShowLimit>,
    pub limit: Option<u64>,
}

pub open spec fn show_limit_text(l: ShowLimit) -> Seq<char> {
    match l {
        ShowLimit::Like { pattern } => "LIKE '"@ + pattern@ + "'"@,
        ShowLimit::Where { selection } => "WHERE "@ + selection@,
    }
}

pub open spec fn show_options_text(o: ShowOptions) -> Seq<char> {
    (match o.limit_option {
        Some(l) => show_limit_text(l),
        None => Seq::empty(),
    }) + (match o.limit {
        Some(n) => " LIMIT = '"@ + decimal(n as nat) + "'"@,
        None => Seq::empty(),
    })
}

impl ShowLimit {
    /// As it stands in a statement.
    pub fn to_text(&self) -> (r: String)
        ensures
            r@ == show_limit_text(*self),
    {
        let mut r = String::new();
        match self {
            ShowLimit::Like { pattern } => {
                r.append("LIKE '");
                r.append(pattern.as_str());
                r.append("'");
            },
            ShowLimit::Where { selection } => {
                r.append("WHERE ");
                r.append(selection.as_str());
            },
        }
        assert(r@ =~= show_limit_text(*self));
        r
    }
}

impl ShowOptions {
    /// As they stand in a statement.
    pub fn to_text(&self) -> (r: String)
        ensures
            r@ == show_options_text(*self),
    {
        let mut r = String::new();
        if let Some(limit_option) = &self.limit_option {
            let text = limit_option.to_text();
            r.append(text.as_str());
        }
        let ghost first = r@;
        if let Some(limit) = self.limit {
            r.append(" LIMIT = '");
            push_decimal(&mut r, limit);
            r.append("'");
        }
        assert(r@ =~= show_options_text(*self));
        r
    }
}

/// What is shown is limited by a pattern or by a condition, and then to a number of rows; each is
/// written down exactly where there is one.
pub proof fn limits_are_shown(o: ShowOptions)
    ensures
        ({
            let rows = match o.limit {
                Some(n) => " LIMIT = '"@ + decimal(n as nat) + "'"@,
                None => Seq::empty(),
            };
            match o.limit_option {
                Some(ShowLimit::Like { pattern }) => show_options_text(o) == "LIKE '"@ + pattern@ + "'"@ + rows,
                Some(ShowLimit::Where { selection }) => show_options_text(o) == "WHERE "@ + selection@ + rows,
                None => show_options_text(o) == rows,
            }
        }),
{
    assert(Seq::<char>::empty() + show_options_text(o) =~= show_options_text(o));
}

}
