//! Binding of statements: names, recursive queries and merges.

use vstd::prelude::*;

use crate::error::ErrorCode;
use crate::s_expr::rel_op_of;
use crate::s_expr::s_expr_view;
use crate::s_expr::s_expr_views;
use crate::s_expr::OperatorView;
use crate::s_expr::RelOp;
use crate::s_expr::RelOperator;
use crate::s_expr::SExpr;
use crate::s_expr::SExprView;
use crate::text::concat;
use crate::text::decimal;
use crate::text::decimal_text;
use crate::text::texts;
use crate::types::type_view;
use crate::types::type_views;
use crate::types::DataType;
use crate::types::TypeView;

verus! {

/// Ident name can not contain ' or "
/// Forbidden ' or " in UserName and RoleName, to prevent Meta injection problem
pub fn illegal_ident_name(ident_name: &str) -> (r: bool)
    ensures
        r == exists|i: int|
            0 <= i < ident_name@.len() && (#[trigger] ident_name@[i] == '\'' || ident_name@[i] == '"'),
{
    let n: usize = ident_name.unicode_len();
    let mut i: usize = 0;
    while i < n
        invariant
            i <= n,
            n == ident_name@.len(),
            forall|j: int| 0 <= j < i ==> #[trigger] ident_name@[j] != '\'' && ident_name@[j] != '"',
        decreases n - i,
    {
        let c = ident_name.get_char(i);
        if c == '\'' || c == '"' {
            assert(ident_name@[i as int] == '\'' || ident_name@[i as int] == '"');
            return true;
        }
        i += 1;
    }
    false
}

/// How many of its inputs are looked through for recursive scans.
pub open spec fn inputs_looked_at(op: RelOp) -> nat {
    match op {
        RelOp::Join | RelOp::UnionAll | RelOp::MaterializedCte => 2,
        RelOp::ProjectSet | RelOp::AsyncFunction | RelOp::Udf | RelOp::EvalScalar | RelOp::Filter => 1,
        _ => 0,
    }
}

/// Operators that need the whole of a result, which a recursive query never has.
pub open spec fn needs_whole_result(op: RelOp) -> bool {
    match op {
        RelOp::Sort | RelOp::Limit | RelOp::Aggregate | RelOp::Window | RelOp::MergeInto => true,
        _ => false,
    }
}

/// The name of an operator that needs the whole of a result.
pub open spec fn op_name(op: RelOp) -> Seq<char> {
    match op {
        RelOp::Sort => "Sort"@,
        RelOp::Limit => "Limit"@,
        RelOp::Aggregate => "Aggregate"@,
        RelOp::Window => "Window"@,
        _ => "MergeInto"@,
    }
}

/// Why a recursive query is refused.
pub enum CteFault {
    NotAllowed(RelOp),
    NoInput(nat),
}

/// The recursive scans that were found: their names, and the columns of the first that has any.
pub struct CteScans {
    pub names: Seq<Seq<char>>,
    pub types: Seq<TypeView>,
}

/// The recursive scans of an expression, added to those found before, and the first fault.
pub open spec fn cte_scans(e: SExprView, found: CteScans) -> (CteScans, Option<CteFault>)
    decreases e,
{
    let op = rel_op_of(e.plan);
    if needs_whole_result(op) {
        (found, Some(CteFault::NotAllowed(op)))
    } else if inputs_looked_at(op) > 0 {
        if e.children.len() == 0 {
            (found, Some(CteFault::NoInput(0)))
        } else {
            let first = cte_scans(e.children[0], found);
            if first.1 is Some || inputs_looked_at(op) == 1 {
                first
            } else if e.children.len() == 1 {
                (first.0, Some(CteFault::NoInput(1)))
            } else {
                cte_scans(e.children[1], first.0)
            }
        }
    } else {
        match e.plan {
            OperatorView::RecursiveCteScan(name, fields) => (
                CteScans {
                    names: found.names.push(name),
                    types: if found.types.len() == 0 {
                        fields
                    } else {
                        found.types
                    },
                },
                None,
            ),
            _ => (found, None),
        }
    }
}

pub open spec fn is_fault(r: Result<(), ErrorCode>, fault: Option<CteFault>) -> bool {
    match fault {
        None => r is Ok,
        Some(CteFault::NotAllowed(op)) => r matches Err(ErrorCode::SyntaxException(m)) && m@ == op_name(op)
            + " is not allowed in recursive cte"@,
        Some(CteFault::NoInput(i)) => r matches Err(ErrorCode::Internal(m)) && m@ == "Invalid children index: "@
            + decimal(i),
    }
}

fn not_allowed(op: RelOp) -> (r: ErrorCode)
    requires
        needs_whole_result(op),
    ensures
        is_fault(Err(r), Some(CteFault::NotAllowed(op))),
{
    let name = match op {
        RelOp::Sort => "Sort",
        RelOp::Limit => "Limit",
        RelOp::Aggregate => "Aggregate",
        RelOp::Window => "Window",
        _ => "MergeInto",
    };
    let m = concat(name, " is not allowed in recursive cte", "", "");
    proof {
        reveal_strlit("");
        assert(m@ =~= op_name(op) + " is not allowed in recursive cte"@);
    }
    ErrorCode::SyntaxException(m)
}

fn no_input(i: usize) -> (r: ErrorCode)
    ensures
        is_fault(Err(r), Some(CteFault::NoInput(i as nat))),
{
    let number = decimal_text(i as u64);
    let m = concat("Invalid children index: ", number.as_str(), "", "");
    proof {
        reveal_strlit("");
        assert(m@ =~= "Invalid children index: "@ + decimal(i as nat));
    }
    ErrorCode::Internal(m)
}

fn looked_at(op: RelOp) -> (r: usize)
    ensures
        r == inputs_looked_at(op),
{
    match op {
        RelOp::Join => 2,
        RelOp::UnionAll => 2,
        RelOp::MaterializedCte => 2,
        RelOp::ProjectSet => 1,
        RelOp::AsyncFunction => 1,
        RelOp::Udf => 1,
        RelOp::EvalScalar => 1,
        RelOp::Filter => 1,
        _ => 0,
    }
}

/// Find all recursive cte scans
pub fn count_r_cte_scan(expr: &SExpr, cte_scan_names: &mut Vec<String>, cte_types: &mut Vec<DataType>) -> (r: Result<
    (),
    ErrorCode,
>)
    ensures
        ({
            let found = CteScans { names: texts(old(cte_scan_names)@), types: type_views(old(cte_types)@) };
            let now = cte_scans(expr@, found);
            &&& texts(final(cte_scan_names)@) == now.0.names
            &&& type_views(final(cte_types)@) == now.0.types
            &&& is_fault(r, now.1)
        }),
    decreases expr,
{
    let op = expr.plan.rel_op();
    assert(expr@.children.len() == expr.children@.len());
    let whole = match op {
        RelOp::Sort => true,
        RelOp::Limit => true,
        RelOp::Aggregate => true,
        RelOp::Window => true,
        RelOp::MergeInto => true,
        _ => false,
    };
    if whole {
        // Each recursive step in a recursive query generates new rows, and these rows are used for
        // the next recursion. These operators need to operate on the entire result set, which is
        // incompatible with the way a recursive query incrementally builds the result set.
        return Err(not_allowed(op));
    }
    let inputs: usize = looked_at(op);
    if inputs > 0 {
        if expr.children.len() == 0 {
            return Err(no_input(0));
        }
        assert(s_expr_views(expr.children@)[0] == s_expr_view(expr.children@[0]));
        assert(decreases_to!(expr => expr.children));
        assert(decreases_to!(expr.children => expr.children[0]));
        match count_r_cte_scan(&expr.children[0], cte_scan_names, cte_types) {
            Err(e) => return Err(e),
            Ok(()) => {},
        }
        if inputs == 1 {
            return Ok(());
        }
        if expr.children.len() == 1 {
            return Err(no_input(1));
        }
        assert(s_expr_views(expr.children@)[1] == s_expr_view(expr.children@[1]));
        assert(decreases_to!(expr.children => expr.children[1]));
        return count_r_cte_scan(&expr.children[1], cte_scan_names, cte_types);
    }
    match &expr.plan {
        RelOperator::RecursiveCteScan(plan) => {
            let ghost names = texts(cte_scan_names@);
            cte_scan_names.push(plan.table_name.clone());
            assert(texts(cte_scan_names@) =~= names.push(plan.table_name@));
            if cte_types.len() == 0 {
                let mut i: usize = 0;
                while i < plan.fields.len()
                    invariant
                        i <= plan.fields@.len(),
                        cte_types@.len() == i,
                        forall|j: int| 0 <= j < i ==> type_view(#[trigger] cte_types@[j]) == type_view(plan.fields@[j]),
                    decreases plan.fields.len() - i,
                {
                    cte_types.push(plan.fields[i].clone());
                    i += 1;
                }
                assert(type_views(cte_types@) =~= type_views(plan.fields@));
            }
        },
        _ => {},
    }
    Ok(())
}

/// A name in a statement.
#[derive(Debug)]
pub struct Identifier {
    /// Where it stands.
    pub span: Option<(u32, u32)>,
    pub name: String,
    pub quote: Option<char>,
    pub is_hole: bool,
}

pub struct IdentifierView {
    pub span: Option<(u32, u32)>,
    pub name: Seq<char>,
    pub quote: Option<char>,
    pub is_hole: bool,
}

impl View for Identifier {
    type V = IdentifierView;

    open spec fn view(&self) -> IdentifierView {
        IdentifierView { span: self.span, name: self.name@, quote: self.quote, is_hole: self.is_hole }
    }
}

impl Clone for Identifier {
    fn clone(&self) -> (r: Self)
        ensures
            r@ == self@,
    {
        Identifier { span: self.span, name: self.name.clone(), quote: self.quote, is_hole: self.is_hole }
    }
}

/// What a name might have meant.
#[derive(Clone, Copy, Debug, PartialEq, Eq, Structural)]
pub enum NameResolutionSuggest {
    Quoted,
    Unqoted,
}

/// A table with all of its name.
#[derive(Debug)]
pub struct FullyTableIdentifier {
    /// What names are quoted with.
    pub default_ident_quote: char,
    pub catalog: Identifier,
    pub database: Identifier,
    pub table: Identifier,
}

/// A name that was not given.
pub open spec fn current_ident(name: Seq<char>, quote: char) -> IdentifierView {
    IdentifierView { span: None, name, quote: Some(quote), is_hole: false }
}

pub open spec fn given_or_current(given: Option<Identifier>, name: Seq<char>, quote: char) -> IdentifierView {
    match given {
        Some(ident) => ident@,
        None => current_ident(name, quote),
    }
}

fn or_current(given: &Option<Identifier>, name: &str, quote: char) -> (r: Identifier)
    ensures
        r@ == given_or_current(*given, name@, quote),
{
    match given {
        Some(ident) => ident.clone(),
        None => Identifier { span: None, name: name.to_owned(), quote: Some(quote), is_hole: false },
    }
}

/// All of the name of a table: the current catalog and the current database where none is given.
pub fn fully_table_identifier(
    catalog: &Option<Identifier>,
    database: &Option<Identifier>,
    table: &Identifier,
    current_catalog: &str,
    current_database: &str,
    default_ident_quote: char,
) -> (r: FullyTableIdentifier)
    ensures
        r.default_ident_quote == default_ident_quote,
        r.catalog@ == given_or_current(*catalog, current_catalog@, default_ident_quote),
        r.database@ == given_or_current(*database, current_database@, default_ident_quote),
        r.table@ == table@,
{
    FullyTableIdentifier {
        default_ident_quote,
        catalog: or_current(catalog, current_catalog, default_ident_quote),
        database: or_current(database, current_database, default_ident_quote),
        table: table.clone(),
    }
}

/// The name with other quotes.
pub open spec fn requoted(ident: IdentifierView, quote: Option<char>) -> IdentifierView {
    IdentifierView { quote, ..ident }
}

fn ident_with_quote(ident: &Identifier, quote: Option<char>) -> (r: Identifier)
    ensures
        r@ == requoted(ident@, quote),
{
    Identifier { span: ident.span, name: ident.name.clone(), quote, is_hole: ident.is_hole }
}

/// Names as they are shown.
#[derive(Debug)]
pub struct ShownNames {
    pub catalog: String,
    pub database: String,
    pub table: String,
    /// The name that might have been meant, where there is one.
    pub suggested: String,
}

/// The message that something was not found.
pub open spec fn not_found_message(what: Seq<char>, shown: Seq<char>, suggest: Option<NameResolutionSuggest>, suggested: Seq<
    char,
>) -> Seq<char> {
    match suggest {
        Some(NameResolutionSuggest::Quoted) => "Unknown "@ + what + " "@ + shown + " (unquoted). Did you mean "@
            + suggested + " (quoted)?"@,
        Some(NameResolutionSuggest::Unqoted) => "Unknown "@ + what + " "@ + shown + " (quoted). Did you mean "@
            + suggested + " (unquoted)?"@,
        None => "Unknown "@ + what + " "@ + shown + " ."@,
    }
}

fn not_found(what: &str, shown: &str, suggest: Option<NameResolutionSuggest>, suggested: &str) -> (r: String)
    ensures
        r@ == not_found_message(what@, shown@, suggest, suggested@),
{
    let mut m = String::new();
    m.append("Unknown ");
    m.append(what);
    m.append(" ");
    m.append(shown);
    match suggest {
        Some(NameResolutionSuggest::Quoted) => {
            m.append(" (unquoted). Did you mean ");
            m.append(suggested);
            m.append(" (quoted)?");
        },
        Some(NameResolutionSuggest::Unqoted) => {
            m.append(" (quoted). Did you mean ");
            m.append(suggested);
            m.append(" (unquoted)?");
        },
        None => {
            m.append(" .");
        },
    }
    assert(m@ =~= not_found_message(what@, shown@, suggest, suggested@));
    m
}

impl FullyTableIdentifier {
    pub fn new(default_ident_quote: char, catalog: Identifier, database: Identifier, table: Identifier) -> (r: Self)
        ensures
            r.default_ident_quote == default_ident_quote,
            r.catalog == catalog,
            r.database == database,
            r.table == table,
    {
        FullyTableIdentifier { default_ident_quote, catalog, database, table }
    }

    /// The name that might have been meant: with quotes where there were none, or without.
    pub fn suggested_ident(&self, ident: &Identifier, suggest: NameResolutionSuggest) -> (r: Identifier)
        ensures
            r@ == requoted(
                ident@,
                match suggest {
                    NameResolutionSuggest::Quoted => Some(self.default_ident_quote),
                    NameResolutionSuggest::Unqoted => None,
                },
            ),
    {
        match suggest {
            NameResolutionSuggest::Quoted => ident_with_quote(ident, Some(self.default_ident_quote)),
            NameResolutionSuggest::Unqoted => ident_with_quote(ident, None),
        }
    }

    /// The name for which a suggestion is sought: that of the database or of the table, whichever
    /// was not found; none for another error.
    pub fn suggestion_sought(&self, err: &ErrorCode) -> (r: Option<&Identifier>)
        ensures
            r == (match *err {
                ErrorCode::UnknownDatabase(_) => Some(&self.database),
                ErrorCode::UnknownTable(_) => Some(&self.table),
                _ => None,
            }),
    {
        match err {
            ErrorCode::UnknownDatabase(_) => Some(&self.database),
            ErrorCode::UnknownTable(_) => Some(&self.table),
            _ => None,
        }
    }

    /// An error, with a suggestion where a database or a table was not found, and where the error
    /// is. The suggestion is what was found for `suggestion_sought`, and `names.suggested` shows
    /// what `suggested_ident` makes of it.
    pub fn not_found_suggest_error(
        &self,
        err: ErrorCode,
        suggest: Option<NameResolutionSuggest>,
        names: &ShownNames,
    ) -> (r: (ErrorCode, Option<(u32, u32)>))
        ensures
            match err {
                ErrorCode::UnknownDatabase(_) => {
                    &&& (r.0 matches ErrorCode::UnknownDatabase(m) && m@ == not_found_message(
                        "database"@,
                        names.catalog@ + "."@ + names.database@,
                        suggest,
                        names.suggested@,
                    ))
                    &&& r.1 == self.database.span
                },
                ErrorCode::UnknownTable(_) => {
                    &&& (r.0 matches ErrorCode::UnknownTable(m) && m@ == not_found_message(
                        "table"@,
                        names.catalog@ + "."@ + names.database@ + "."@ + names.table@,
                        suggest,
                        names.suggested@,
                    ))
                    &&& r.1 == self.table.span
                },
                _ => r.0 == err && r.1 is None,
            },
    {
        match err {
            ErrorCode::UnknownDatabase(_) => {
                let shown = concat(names.catalog.as_str(), ".", names.database.as_str(), "");
                proof {
                    reveal_strlit("");
                    assert(shown@ =~= names.catalog@ + "."@ + names.database@);
                }
                let m = not_found("database", shown.as_str(), suggest, names.suggested.as_str());
                (ErrorCode::UnknownDatabase(m), self.database.span)
            },
            ErrorCode::UnknownTable(_) => {
                let database = concat(names.catalog.as_str(), ".", names.database.as_str(), ".");
                let shown = concat(database.as_str(), names.table.as_str(), "", "");
                proof {
                    reveal_strlit("");
                    assert(shown@ =~= names.catalog@ + "."@ + names.database@ + "."@ + names.table@);
                }
                let m = not_found("table", shown.as_str(), suggest, names.suggested.as_str());
                (ErrorCode::UnknownTable(m), self.table.span)
            },
            other => (other, None),
        }
    }
}

/// What is done with rows that match; `E` is an expression.
#[derive(Debug)]
pub enum MatchOperation<E> {
    Update { update_list: Vec<(String, E)>, is_star: bool },
    Delete,
}

#[derive(Debug)]
pub struct MatchedClause<E> {
    pub selection: Option<E>,
    pub operation: MatchOperation<E>,
}

#[derive(Debug)]
pub struct InsertOperation<E> {
    pub columns: Option<Vec<String>>,
    pub values: Vec<E>,
    pub is_star: bool,
}

#[derive(Debug)]
pub struct UnmatchedClause<E> {
    pub selection: Option<E>,
    pub insert_operation: InsertOperation<E>,
}

#[derive(Debug)]
pub enum MergeOption<E> {
    Match(MatchedClause<E>),
    Unmatch(UnmatchedClause<E>),
}

#[derive(Clone, Copy, Debug, PartialEq, Eq, Structural)]
pub enum MergeIntoType {
    InsertOnly,
    MatchedOnly,
    FullOperation,
}

/// The clauses for rows that match, in order.
pub open spec fn matched_of<E>(options: Seq<MergeOption<E>>) -> Seq<MatchedClause<E>>
    decreases options.len(),
{
    if options.len() == 0 {
        Seq::empty()
    } else {
        match options.last() {
            MergeOption::Match(c) => matched_of(options.drop_last()).push(c),
            MergeOption::Unmatch(_) => matched_of(options.drop_last()),
        }
    }
}

/// The clauses for rows that do not match, in order.
pub open spec fn unmatched_of<E>(options: Seq<MergeOption<E>>) -> Seq<UnmatchedClause<E>>
    decreases options.len(),
{
    if options.len() == 0 {
        Seq::empty()
    } else {
        match options.last() {
            MergeOption::Match(_) => unmatched_of(options.drop_last()),
            MergeOption::Unmatch(c) => unmatched_of(options.drop_last()).push(c),
        }
    }
}

pub open spec fn is_star_update<E>(c: MatchedClause<E>) -> bool {
    c.operation matches MatchOperation::Update { is_star, .. } && is_star
}

/// Some clause takes all columns as they are.
pub open spec fn has_star<E>(matched: Seq<MatchedClause<E>>, unmatched: Seq<UnmatchedClause<E>>) -> bool {
    ||| exists|i: int| 0 <= i < matched.len() && is_star_update(#[trigger] matched[i])
    ||| exists|i: int| 0 <= i < unmatched.len() && (#[trigger] unmatched[i]).insert_operation.is_star
}

/// The kind of a merge: which rows it is about.
pub open spec fn merge_type_of(matched_len: nat, unmatched_len: nat) -> Option<MergeIntoType> {
    if matched_len == 0 && unmatched_len > 0 {
        Some(MergeIntoType::InsertOnly)
    } else if unmatched_len == 0 && matched_len > 0 {
        Some(MergeIntoType::MatchedOnly)
    } else if unmatched_len > 0 && matched_len > 0 {
        Some(MergeIntoType::FullOperation)
    } else {
        None
    }
}

pub fn get_merge_type(matched_len: usize, unmatched_len: usize) -> (r: Result<MergeIntoType, ErrorCode>)
    ensures
        match merge_type_of(matched_len as nat, unmatched_len as nat) {
            Some(t) => r == Ok::<MergeIntoType, ErrorCode>(t),
            None => r matches Err(ErrorCode::SemanticError(m)) && m@
                == "we must have matched or unmatched clause at least one"@,
        },
{
    if matched_len == 0 && unmatched_len > 0 {
        Ok(MergeIntoType::InsertOnly)
    } else if unmatched_len == 0 && matched_len > 0 {
        Ok(MergeIntoType::MatchedOnly)
    } else if unmatched_len > 0 && matched_len > 0 {
        Ok(MergeIntoType::FullOperation)
    } else {
        Err(ErrorCode::SemanticError("we must have matched or unmatched clause at least one".to_owned()))
    }
}

/// The clauses of a merge, those for rows that match apart from the others.
pub fn split_merge_into_clauses<E>(merge_options: Vec<MergeOption<E>>) -> (r: Result<
    (Vec<MatchedClause<E>>, Vec<UnmatchedClause<E>>),
    ErrorCode,
>)
    ensures
        if merge_options@.len() == 0 {
            r matches Err(ErrorCode::BadArguments(m)) && m@
                == "at least one matched or unmatched clause for merge into"@
        } else {
            r matches Ok(split) && split.0@ == matched_of(merge_options@) && split.1@ == unmatched_of(merge_options@)
        },
{
    if merge_options.len() == 0 {
        return Err(ErrorCode::BadArguments("at least one matched or unmatched clause for merge into".to_owned()));
    }
    let ghost all = merge_options@;
    let total: usize = merge_options.len();
    let mut rest = merge_options;
    let mut match_clauses: Vec<MatchedClause<E>> = Vec::new();
    let mut unmatch_clauses: Vec<UnmatchedClause<E>> = Vec::new();
    let mut n: usize = 0;
    assert(all.take(0) =~= Seq::<MergeOption<E>>::empty());
    while n < total
        invariant
            n <= total,
            total == all.len(),
            rest@ == all.skip(n as int),
            match_clauses@ == matched_of(all.take(n as int)),
            unmatch_clauses@ == unmatched_of(all.take(n as int)),
        decreases total - n,
    {
        let option = rest.remove(0);
        proof {
            assert(all.skip(n as int)[0] == all[n as int]);
            assert(rest@ =~= all.skip(n + 1));
            assert(all.take(n + 1).drop_last() =~= all.take(n as int));
            assert(all.take(n + 1).last() == all[n as int]);
        }
        match option {
            MergeOption::Match(clause) => match_clauses.push(clause),
            MergeOption::Unmatch(clause) => unmatch_clauses.push(clause),
        }
        n += 1;
    }
    assert(all.take(n as int) =~= all);
    Ok((match_clauses, unmatch_clauses))
}

/// Whether some clause takes all columns as they are.
pub fn has_star_clause<E>(matched_clauses: &Vec<MatchedClause<E>>, unmatched_clauses: &Vec<UnmatchedClause<E>>) -> (r:
    bool)
    ensures
        r == has_star(matched_clauses@, unmatched_clauses@),
{
    let mut i: usize = 0;
    while i < matched_clauses.len()
        invariant
            i <= matched_clauses@.len(),
            forall|j: int| 0 <= j < i ==> !is_star_update(#[trigger] matched_clauses@[j]),
        decreases matched_clauses.len() - i,
    {
        if let MatchOperation::Update { is_star, .. } = &matched_clauses[i].operation {
            if *is_star {
                assert(is_star_update(matched_clauses@[i as int]));
                return true;
            }
        }
        i += 1;
    }
    let mut k: usize = 0;
    while k < unmatched_clauses.len()
        invariant
            k <= unmatched_clauses@.len(),
            forall|j: int| 0 <= j < matched_clauses@.len() ==> !is_star_update(#[trigger] matched_clauses@[j]),
            forall|j: int| 0 <= j < k ==> !(#[trigger] unmatched_clauses@[j]).insert_operation.is_star,
        decreases unmatched_clauses.len() - k,
    {
        if unmatched_clauses[k].insert_operation.is_star {
            assert(unmatched_clauses@[k as int].insert_operation.is_star);
            return true;
        }
        k += 1;
    }
    false
}

/// A merge, as far as its clauses tell.
#[derive(Debug)]
pub struct MergePlan<E> {
    pub matched_clauses: Vec<MatchedClause<E>>,
    pub unmatched_clauses: Vec<UnmatchedClause<E>>,
    pub has_star_clause: bool,
    pub merge_type: MergeIntoType,
}

/// What the clauses of a merge come to.
pub fn bind_merge_into<E>(merge_options: Vec<MergeOption<E>>) -> (r: Result<MergePlan<E>, ErrorCode>)
    ensures
        if merge_options@.len() == 0 {
            r matches Err(ErrorCode::BadArguments(m)) && m@
                == "at least one matched or unmatched clause for merge into"@
        } else {
            r matches Ok(plan) && {
                let matched = matched_of(merge_options@);
                let unmatched = unmatched_of(merge_options@);
                &&& plan.matched_clauses@ == matched
                &&& plan.unmatched_clauses@ == unmatched
                &&& plan.has_star_clause == has_star(matched, unmatched)
                &&& merge_type_of(matched.len(), unmatched.len()) == Some(plan.merge_type)
            }
        },
{
    proof {
        every_clause_is_kept(merge_options@);
    }
    let (matched_clauses, unmatched_clauses) = match split_merge_into_clauses(merge_options) {
        Ok(split) => split,
        Err(e) => return Err(e),
    };
    let merge_type = match get_merge_type(matched_clauses.len(), unmatched_clauses.len()) {
        Ok(t) => t,
        Err(e) => return Err(e),
    };
    let has_star_clause = has_star_clause(&matched_clauses, &unmatched_clauses);
    Ok(MergePlan { matched_clauses, unmatched_clauses, has_star_clause, merge_type })
}

/// Every clause is on one of the two sides, so a merge with a clause has a kind.
pub proof fn every_clause_is_kept<E>(options: Seq<MergeOption<E>>)
    ensures
        matched_of(options).len() + unmatched_of(options).len() == options.len(),
        options.len() > 0 ==> merge_type_of(matched_of(options).len(), unmatched_of(options).len()) is Some,
    decreases options.len(),
{
    if options.len() > 0 {
        every_clause_is_kept(options.drop_last());
    }
}

/// The clauses of a merge are parted by their kind, and those of a kind stay in their order.
pub proof fn clauses_stay_in_order<E>(options: Seq<MergeOption<E>>)
    ensures
        matched_of(options) == options.filter(|o: MergeOption<E>| o is Match).map_values(|o: MergeOption<E>| o->Match_0),
        unmatched_of(options) == options.filter(|o: MergeOption<E>| o is Unmatch).map_values(
            |o: MergeOption<E>| o->Unmatch_0,
        ),
    decreases options.len(),
{
    reveal(Seq::filter);
    let match_of = |o: MergeOption<E>| o->Match_0;
    let unmatch_of = |o: MergeOption<E>| o->Unmatch_0;
    let is_match = |o: MergeOption<E>| o is Match;
    let is_unmatch = |o: MergeOption<E>| o is Unmatch;
    if options.len() > 0 {
        let before = options.drop_last();
        clauses_stay_in_order(before);
        if options.last() is Match {
            assert(before.filter(is_match).push(options.last()).map_values(match_of) =~= before.filter(is_match).map_values(
                match_of,
            ).push(options.last()->Match_0));
        } else {
            assert(before.filter(is_unmatch).push(options.last()).map_values(unmatch_of) =~= before.filter(
                is_unmatch,
            ).map_values(unmatch_of).push(options.last()->Unmatch_0));
        }
    }
    assert(matched_of(options) =~= options.filter(is_match).map_values(match_of));
    assert(unmatched_of(options) =~= options.filter(is_unmatch).map_values(unmatch_of));
}

/// The kind of a merge is what clauses it has: it only inserts where all are for rows without a
/// match, it only changes rows where all are for rows with a match, and it does both where it has
/// both.
pub proof fn the_kind_of_a_merge_is_what_clauses_it_has(matched: nat, unmatched: nat)
    ensures
        merge_type_of(matched, unmatched) == Some(MergeIntoType::InsertOnly) <==> matched == 0 && unmatched != 0,
        merge_type_of(matched, unmatched) == Some(MergeIntoType::MatchedOnly) <==> matched != 0 && unmatched == 0,
        merge_type_of(matched, unmatched) == Some(MergeIntoType::FullOperation) <==> matched != 0 && unmatched != 0,
        merge_type_of(matched, unmatched) is None <==> matched == 0 && unmatched == 0,
{
}

/// A merge has a star where one of its clauses takes all columns.
pub proof fn a_star_is_found_in_any_clause<E>(matched: Seq<MatchedClause<E>>, unmatched: Seq<UnmatchedClause<E>>)
    ensures
        has_star(matched, unmatched) <==> (exists|i: int|
            0 <= i < matched.len() && ((#[trigger] matched[i]).operation matches MatchOperation::Update { is_star, .. }
                && is_star)) || (exists|i: int|
            0 <= i < unmatched.len() && (#[trigger] unmatched[i]).insert_operation.is_star),
{
    if exists|i: int|
        0 <= i < matched.len() && ((#[trigger] matched[i]).operation matches MatchOperation::Update { is_star, .. }
            && is_star) {
        let i = choose|i: int|
            0 <= i < matched.len() && ((#[trigger] matched[i]).operation matches MatchOperation::Update { is_star, .. }
                && is_star);
        assert(is_star_update(matched[i]));
    }
}

/// An operator that needs the whole result of its input is not allowed in a recursive expression,
/// and is named.
pub proof fn whole_results_are_not_allowed(e: SExprView, found: CteScans, r: Result<(), ErrorCode>)
    requires
        is_fault(r, cte_scans(e, found).1),
    ensures
        ({
            let op = rel_op_of(e.plan);
            let refused = |name: Seq<char>|
                r matches Err(ErrorCode::SyntaxException(m)) && m@ == name + " is not allowed in recursive cte"@;
            &&& op is Sort ==> refused("Sort"@)
            &&& op is Limit ==> refused("Limit"@)
            &&& op is Aggregate ==> refused("Aggregate"@)
            &&& op is Window ==> refused("Window"@)
            &&& op is MergeInto ==> refused("MergeInto"@)
            &&& op is Sort || op is Limit || op is Aggregate || op is Window || op is MergeInto ==> cte_scans(
                e,
                found,
            ).0 == found
        }),
{
    reveal_with_fuel(cte_scans, 2);
}

/// The scans of a recursive expression are sought in both inputs of a join, a union or a
/// materialized expression, the first input first, and in the one input of an operator that works
/// row by row.
pub proof fn scans_are_sought_in_the_inputs(e: SExprView, found: CteScans)
    ensures
        ({
            let op = rel_op_of(e.plan);
            let two = op is Join || op is UnionAll || op is MaterializedCte;
            let one = op is ProjectSet || op is AsyncFunction || op is Udf || op is EvalScalar || op is Filter;
            let first = cte_scans(e.children[0], found);
            &&& two && e.children.len() >= 2 && first.1 is None ==> cte_scans(e, found) == cte_scans(
                e.children[1],
                first.0,
            )
            &&& (two || one) && e.children.len() >= 1 && first.1 is Some ==> cte_scans(e, found) == first
            &&& one && e.children.len() >= 1 ==> cte_scans(e, found) == first
        }),
{
    reveal_with_fuel(cte_scans, 2);
}

/// A scan of a recursive expression is found by its name, and the types of the first one that is
/// found count.
pub proof fn a_scan_is_found_by_its_name(e: SExprView, found: CteScans)
    requires
        e.plan is RecursiveCteScan,
        !needs_whole_result(rel_op_of(e.plan)),
        inputs_looked_at(rel_op_of(e.plan)) == 0,
    ensures
        e.plan matches OperatorView::RecursiveCteScan(name, fields) && {
            let now = cte_scans(e, found);
            &&& now.1 is None
            &&& now.0.names == found.names.push(name)
            &&& found.types.len() == 0 ==> now.0.types == fields
            &&& found.types.len() > 0 ==> now.0.types == found.types
        },
{
    reveal_with_fuel(cte_scans, 2);
}

/// A name that is given is used as it is; for one that is not, the current one stands, quoted.
pub proof fn what_is_not_given_is_current(given: Option<Identifier>, name: Seq<char>, quote: char)
    ensures
        given matches Some(ident) ==> given_or_current(given, name, quote) == ident@,
        given is None ==> ({
            let ident = given_or_current(given, name, quote);
            ident.name == name && ident.quote == Some(quote) && ident.span is None && !ident.is_hole
        }),
{
}

/// A name that was given without quotes and is known only with them is suggested with quotes, and
/// the other way round.
pub proof fn the_other_spelling_is_suggested(what: Seq<char>, shown: Seq<char>, suggested: Seq<char>)
    ensures
        not_found_message(what, shown, Some(NameResolutionSuggest::Quoted), suggested) == "Unknown "@ + what + " "@ + shown
            + " (unquoted). Did you mean "@ + suggested + " (quoted)?"@,
        not_found_message(what, shown, Some(NameResolutionSuggest::Unqoted), suggested) == "Unknown "@ + what + " "@
            + shown + " (quoted). Did you mean "@ + suggested + " (unquoted)?"@,
        not_found_message(what, shown, None, suggested) == "Unknown "@ + what + " "@ + shown + " ."@,
{
}

/// Both inputs of a join, a union and a materialized expression are looked through, the one input
/// of the operators that hand rows on, and none of any other.
pub proof fn which_inputs_are_looked_through(op: RelOp)
    ensures
        op is Join || op is UnionAll || op is MaterializedCte <==> inputs_looked_at(op) == 2,
        op is ProjectSet || op is AsyncFunction || op is Udf || op is EvalScalar || op is Filter <==> inputs_looked_at(op)
            == 1,
        inputs_looked_at(op) <= 2,
{
}

}
