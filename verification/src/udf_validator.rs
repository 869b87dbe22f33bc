//! Definitions of functions in terms of others.

use vstd::prelude::*;

use crate::error::ErrorCode;
use crate::text::quote;
use crate::text::quoted;
use crate::text::same_text;
use crate::text::separated;
use crate::text::texts;

verus! {

/// A definition.
#[derive(Debug)]
pub enum UdfExpr {
    /// A column, or a parameter of the function.
    ColumnRef(String),
    FunctionCall { name: String, is_builtin: bool, arguments: Vec<UdfExpr> },
    /// Any other expression, by what it is made of.
    Other(Vec<UdfExpr>),
}

/// A character in lower case, where it is an ASCII letter.
pub open spec fn ascii_lower(c: char) -> char {
    if 'A' <= c <= 'Z' {
        (c as u32 + 32) as char
    } else {
        c
    }
}

/// Two texts that differ at most in the case of ASCII letters.
pub open spec fn same_ignoring_case(a: Seq<char>, b: Seq<char>) -> bool {
    a.len() == b.len() && forall|i: int| 0 <= i < a.len() ==> ascii_lower(#[trigger] a[i]) == ascii_lower(b[i])
}

/// The names of the columns in a definition.
pub open spec fn column_names(e: UdfExpr) -> Set<Seq<char>>
    decreases e,
{
    match e {
        UdfExpr::ColumnRef(name) => set![name@],
        UdfExpr::FunctionCall { arguments, .. } => column_names_in(arguments@),
        UdfExpr::Other(parts) => column_names_in(parts@),
    }
}

pub open spec fn column_names_in(s: Seq<UdfExpr>) -> Set<Seq<char>>
    decreases s,
{
    if s.len() == 0 {
        Set::empty()
    } else {
        column_names_in(s.subrange(0, s.len() - 1)).union(column_names(s[s.len() - 1]))
    }
}

/// A definition calls the function of a name, which is none of the built-in ones.
pub open spec fn calls(e: UdfExpr, own: Seq<char>) -> bool
    decreases e,
{
    match e {
        UdfExpr::ColumnRef(_) => false,
        UdfExpr::FunctionCall { name, is_builtin, arguments } => (!is_builtin && same_ignoring_case(own, name@))
            || calls_in(arguments@, own),
        UdfExpr::Other(parts) => calls_in(parts@, own),
    }
}

pub open spec fn calls_in(s: Seq<UdfExpr>, own: Seq<char>) -> bool
    decreases s,
{
    if s.len() == 0 {
        false
    } else {
        calls_in(s.subrange(0, s.len() - 1), own) || calls(s[s.len() - 1], own)
    }
}

/// Compares two texts but for the case of ASCII letters.
fn eq_ignore_ascii_case(a: &str, b: &str) -> (r: bool)
    ensures
        r == same_ignoring_case(a@, b@),
{
    let n: usize = a.unicode_len();
    if n != b.unicode_len() {
        return false;
    }
    let mut i: usize = 0;
    while i < n
        invariant
            i <= n,
            n == a@.len(),
            n == b@.len(),
            forall|j: int| 0 <= j < i ==> ascii_lower(#[trigger] a@[j]) == ascii_lower(b@[j]),
        decreases n - i,
    {
        if lower(a.get_char(i)) != lower(b.get_char(i)) {
            assert(ascii_lower(a@[i as int]) != ascii_lower(b@[i as int]));
            return false;
        }
        i += 1;
    }
    true
}

fn lower(c: char) -> (r: u32)
    ensures
        r == ascii_lower(c) as u32,
{
    if 'A' <= c && c <= 'Z' {
        c as u32 + 32
    } else {
        c as u32
    }
}

fn holds(v: &Vec<String>, text: &str) -> (r: bool)
    ensures
        r == texts(v@).contains(text@),
{
    let mut i: usize = 0;
    while i < v.len()
        invariant
            i <= v@.len(),
            forall|j: int| 0 <= j < i ==> (#[trigger] v@[j])@ != text@,
        decreases v.len() - i,
    {
        if same_text(v[i].as_str(), text) {
            assert(texts(v@)[i as int] == text@);
            return true;
        }
        i += 1;
    }
    proof {
        if texts(v@).contains(text@) {
            let j = choose|j: int| 0 <= j < v@.len() && texts(v@)[j] == text@;
            assert(v@[j]@ == text@);
        }
    }
    false
}

/// A list of the members of a set, each once.
pub open spec fn is_listing(list: Seq<Seq<char>>, s: Set<Seq<char>>) -> bool {
    list.no_duplicates() && list.to_set() == s
}

proof fn lemma_push_to_set(list: Seq<Seq<char>>, x: Seq<char>)
    ensures
        list.push(x).to_set() == list.to_set().insert(x),
{
    let now = list.push(x);
    assert forall|s: Seq<char>| list.to_set().insert(x).contains(s) implies now.to_set().contains(s) by {
        if list.contains(s) {
            let k = choose|k: int| 0 <= k < list.len() && list[k] == s;
            assert(now[k] == s);
        } else {
            assert(now[list.len() as int] == s);
        }
    }
    assert(now.to_set() =~= list.to_set().insert(x));
}

/// The texts that the other list does not hold, each once.
fn missing_from(candidates: &Vec<String>, other: &Vec<String>) -> (r: Vec<String>)
    ensures
        is_listing(texts(r@), texts(candidates@).to_set().difference(texts(other@).to_set())),
{
    let mut r: Vec<String> = Vec::new();
    let ghost all = texts(candidates@);
    let mut i: usize = 0;
    assert(texts(r@) =~= Seq::<Seq<char>>::empty());
    assert(texts(r@).to_set() =~= all.take(0).to_set().difference(texts(other@).to_set()));
    while i < candidates.len()
        invariant
            i <= candidates@.len(),
            all == texts(candidates@),
            texts(r@).no_duplicates(),
            texts(r@).to_set() == all.take(i as int).to_set().difference(texts(other@).to_set()),
        decreases candidates.len() - i,
    {
        let ghost before = texts(r@);
        let ghost x = candidates@[i as int]@;
        proof {
            assert(all.take(i + 1) =~= all.take(i as int).push(x));
            lemma_push_to_set(all.take(i as int), x);
            assert(texts(other@).to_set().contains(x) == texts(other@).contains(x));
            assert(before.to_set().contains(x) == before.contains(x));
        }
        if !holds(other, candidates[i].as_str()) && !holds(&r, candidates[i].as_str()) {
            r.push(candidates[i].clone());
            proof {
                assert(texts(r@) =~= before.push(x));
                lemma_push_to_set(before, x);
                assert(texts(r@).to_set() =~= all.take(i + 1).to_set().difference(texts(other@).to_set()));
            }
        } else {
            assert(texts(r@).to_set() =~= all.take(i + 1).to_set().difference(texts(other@).to_set()));
        }
        i += 1;
    }
    assert(all.take(i as int) =~= all);
    r
}

pub open spec fn all_quoted(list: Seq<Seq<char>>) -> Seq<Seq<char>> {
    list.map_values(|s: Seq<char>| quoted(s))
}

/// Names in quotes, between braces.
pub open spec fn shown_set(list: Seq<Seq<char>>) -> Seq<char> {
    "{"@ + separated(all_quoted(list), ", "@) + "}"@
}

/// What is said of names, where there are any.
pub open spec fn complaint(words: Seq<char>, list: Seq<Seq<char>>) -> Seq<char> {
    if list.len() == 0 {
        Seq::empty()
    } else {
        words + shown_set(list)
    }
}

/// What is said of names that were given in quotes, where there are any.
pub open spec fn quoted_complaint(words: Seq<char>, quoted_names: Seq<Seq<char>>) -> Seq<char> {
    if quoted_names.len() == 0 {
        Seq::empty()
    } else {
        words + ("{"@ + separated(quoted_names, ", "@) + "}"@)
    }
}

/// What is said of names that were given in quotes, where there are any.
pub fn complain_of_quoted(words: &str, quoted_names: &Vec<String>) -> (r: String)
    ensures
        r@ == quoted_complaint(words@, texts(quoted_names@)),
{
    let mut r = String::new();
    if quoted_names.len() > 0 {
        let list = crate::text::join(quoted_names, ", ");
        r.append(words);
        r.append("{");
        r.append(list.as_str());
        r.append("}");
        assert(r@ =~= quoted_complaint(words@, texts(quoted_names@)));
    }
    assert(r@ =~= quoted_complaint(words@, texts(quoted_names@)));
    r
}

fn complain(words: &str, names: &Vec<String>) -> (r: String)
    ensures
        r@ == complaint(words@, texts(names@)),
{
    let mut quoted_names: Vec<String> = Vec::new();
    let ghost all = all_quoted(texts(names@));
    let mut i: usize = 0;
    assert(texts(quoted_names@) =~= all.take(0));
    while i < names.len()
        invariant
            i <= names@.len(),
            all == all_quoted(texts(names@)),
            texts(quoted_names@) == all.take(i as int),
        decreases names.len() - i,
    {
        let ghost before = texts(quoted_names@);
        let shown = quote(names[i].as_str());
        quoted_names.push(shown);
        proof {
            assert(texts(quoted_names@) =~= before.push(shown@));
            assert(all[i as int] == quoted(names@[i as int]@));
            assert(all.take(i + 1) =~= all.take(i as int).push(all[i as int]));
        }
        i += 1;
    }
    assert(all.take(i as int) =~= all);
    complain_of_quoted(words, &quoted_names)
}

#[derive(Debug)]
pub struct UDFValidator {
    pub name: String,
    pub parameters: Vec<String>,
    pub lambda_parameters: Vec<String>,
    /// The names in the definition, each once.
    pub expr_params: Vec<String>,
    pub has_recursive: bool,
}

/// The parameters of a function and of the lambdas in it.
pub open spec fn declared(v: UDFValidator) -> Set<Seq<char>> {
    texts(v.parameters@ + v.lambda_parameters@).to_set()
}

/// A definition that is refused, and why.
pub open spec fn is_refused(r: Result<(), ErrorCode>, undeclared: Set<Seq<char>>, unused: Set<Seq<char>>) -> bool {
    r matches Err(ErrorCode::SyntaxException(m)) && exists|a: Seq<Seq<char>>, b: Seq<Seq<char>>|
        #![trigger is_listing(a, undeclared), is_listing(b, unused)]
        is_listing(a, undeclared) && is_listing(b, unused) && m@ == complaint("Parameters are not declared: "@, a)
            + complaint("Parameters are not used: "@, b)
}

impl UDFValidator {
    /// Visits a definition.
    fn drive(&mut self, e: &UdfExpr)
        requires
            texts(old(self).expr_params@).no_duplicates(),
        ensures
            final(self).name == old(self).name,
            final(self).parameters == old(self).parameters,
            final(self).lambda_parameters == old(self).lambda_parameters,
            texts(final(self).expr_params@).no_duplicates(),
            texts(final(self).expr_params@).to_set() == texts(old(self).expr_params@).to_set().union(column_names(*e)),
            final(self).has_recursive == (old(self).has_recursive || calls(*e, old(self).name@)),
        decreases e,
    {
        match e {
            UdfExpr::ColumnRef(name) => {
                self.enter_column_ref(name);
            },
            UdfExpr::FunctionCall { name, is_builtin, arguments } => {
                self.enter_function_call(name, *is_builtin);
                self.drive_all(arguments);
            },
            UdfExpr::Other(parts) => {
                self.drive_all(parts);
            },
        }
    }

    fn drive_all(&mut self, parts: &Vec<UdfExpr>)
        requires
            texts(old(self).expr_params@).no_duplicates(),
        ensures
            final(self).name == old(self).name,
            final(self).parameters == old(self).parameters,
            final(self).lambda_parameters == old(self).lambda_parameters,
            texts(final(self).expr_params@).no_duplicates(),
            texts(final(self).expr_params@).to_set() == texts(old(self).expr_params@).to_set().union(
                column_names_in(parts@),
            ),
            final(self).has_recursive == (old(self).has_recursive || calls_in(parts@, old(self).name@)),
        decreases parts,
    {
        let ghost all = parts@;
        let ghost before = texts(self.expr_params@).to_set();
        let mut i: usize = 0;
        assert(all.subrange(0, 0) =~= Seq::<UdfExpr>::empty());
        assert(before.union(column_names_in(all.subrange(0, 0))) =~= before);
        while i < parts.len()
            invariant
                i <= parts@.len(),
                all == parts@,
                self.name == old(self).name,
                self.parameters == old(self).parameters,
                self.lambda_parameters == old(self).lambda_parameters,
                texts(self.expr_params@).no_duplicates(),
                before == texts(old(self).expr_params@).to_set(),
                texts(self.expr_params@).to_set() == before.union(column_names_in(all.subrange(0, i as int))),
                self.has_recursive == (old(self).has_recursive || calls_in(all.subrange(0, i as int), old(self).name@)),
            decreases parts.len() - i,
        {
            assert(decreases_to!(parts => parts[i as int]));
            self.drive(&parts[i]);
            proof {
                let now = all.subrange(0, i + 1);
                assert(now.subrange(0, now.len() - 1) =~= all.subrange(0, i as int));
                assert(now[now.len() - 1] == all[i as int]);
                assert(texts(self.expr_params@).to_set() =~= before.union(column_names_in(now)));
            }
            i += 1;
        }
        assert(all.subrange(0, i as int) =~= all);
    }

    fn enter_column_ref(&mut self, name: &String)
        requires
            texts(old(self).expr_params@).no_duplicates(),
        ensures
            final(self).name == old(self).name,
            final(self).parameters == old(self).parameters,
            final(self).lambda_parameters == old(self).lambda_parameters,
            final(self).has_recursive == old(self).has_recursive,
            texts(final(self).expr_params@).no_duplicates(),
            texts(final(self).expr_params@).to_set() == texts(old(self).expr_params@).to_set().union(set![name@]),
    {
        let ghost before = texts(self.expr_params@);
        if !holds(&self.expr_params, name.as_str()) {
            self.expr_params.push(name.clone());
            proof {
                assert(texts(self.expr_params@) =~= before.push(name@));
                lemma_push_to_set(before, name@);
                assert(before.to_set().insert(name@) =~= before.to_set().union(set![name@]));
            }
        } else {
            assert(before.to_set().contains(name@));
            assert(before.to_set().union(set![name@]) =~= before.to_set());
        }
    }

    fn enter_function_call(&mut self, name: &String, is_builtin: bool)
        ensures
            final(self).name == old(self).name,
            final(self).parameters == old(self).parameters,
            final(self).lambda_parameters == old(self).lambda_parameters,
            final(self).expr_params == old(self).expr_params,
            final(self).has_recursive == (old(self).has_recursive || (!is_builtin && same_ignoring_case(
                old(self).name@,
                name@,
            ))),
    {
        if !is_builtin && eq_ignore_ascii_case(self.name.as_str(), name.as_str()) {
            self.has_recursive = true;
        }
    }

    /// Whether a definition uses all parameters and nothing else, and does not call the function
    /// that it defines.
    pub fn verify_definition_expr(&mut self, definition_expr: &UdfExpr) -> (r: Result<(), ErrorCode>)
        ensures
            final(self).name == old(self).name,
            final(self).parameters == old(self).parameters,
            final(self).lambda_parameters == old(self).lambda_parameters,
            is_listing(texts(final(self).expr_params@), column_names(*definition_expr)),
            final(self).has_recursive == (old(self).has_recursive || calls(*definition_expr, old(self).name@)),
            if final(self).has_recursive {
                r matches Err(ErrorCode::SyntaxException(m)) && m@ == "Recursive UDF is not supported"@
            } else {
                let used = column_names(*definition_expr);
                let undeclared = used.difference(declared(*old(self)));
                let unused = declared(*old(self)).difference(used);
                &&& r is Ok <==> used == declared(*old(self))
                &&& r is Err ==> is_refused(r, undeclared, unused)
            },
    {
        self.expr_params = Vec::new();
        assert(texts(self.expr_params@) =~= Seq::<Seq<char>>::empty());
        self.drive(definition_expr);
        let ghost used = column_names(*definition_expr);
        assert(Set::<Seq<char>>::empty().union(used) =~= used);
        assert(Seq::<Seq<char>>::empty().to_set() =~= Set::<Seq<char>>::empty());
        if self.has_recursive {
            return Err(ErrorCode::SyntaxException("Recursive UDF is not supported".to_owned()));
        }
        let mut parameters = clone_texts(&self.parameters);
        let mut lambda_parameters = clone_texts(&self.lambda_parameters);
        let ghost own = parameters@;
        let ghost lambda = lambda_parameters@;
        parameters.append(&mut lambda_parameters);
        proof {
            let declared_texts = texts(self.parameters@ + self.lambda_parameters@);
            assert(parameters@ =~= own + lambda);
            assert(texts(own).len() == own.len() && texts(lambda).len() == lambda.len());
            assert forall|i: int| 0 <= i < declared_texts.len() implies texts(parameters@)[i] == declared_texts[i] by {
                if i < own.len() {
                    assert(texts(own)[i] == texts(self.parameters@)[i]);
                } else {
                    assert(texts(lambda)[i - own.len()] == texts(self.lambda_parameters@)[i - own.len()]);
                }
            }
        }
        assert(texts(parameters@) =~= texts(self.parameters@ + self.lambda_parameters@));
        let params_not_declared = missing_from(&self.expr_params, &parameters);
        let params_not_used = missing_from(&parameters, &self.expr_params);
        let ghost a = texts(params_not_declared@);
        let ghost b = texts(params_not_used@);
        let ghost undeclared = used.difference(declared(*old(self)));
        let ghost unused = declared(*old(self)).difference(used);
        proof {
            lemma_empty_listing(a, undeclared);
            lemma_empty_listing(b, unused);
            if undeclared =~= Set::<Seq<char>>::empty() && unused =~= Set::<Seq<char>>::empty() {
                assert forall|s: Seq<char>| used.contains(s) <==> declared(*old(self)).contains(s) by {
                    assert(!undeclared.contains(s));
                    assert(!unused.contains(s));
                }
                assert(used =~= declared(*old(self)));
            } else if used == declared(*old(self)) {
                assert(undeclared =~= Set::<Seq<char>>::empty());
                assert(unused =~= Set::<Seq<char>>::empty());
            }
        }
        if params_not_declared.len() == 0 && params_not_used.len() == 0 {
            return Ok(());
        }
        let first = complain("Parameters are not declared: ", &params_not_declared);
        let second = complain("Parameters are not used: ", &params_not_used);
        let mut m = String::new();
        m.append(first.as_str());
        m.append(second.as_str());
        proof {
            assert(m@ =~= complaint("Parameters are not declared: "@, a) + complaint("Parameters are not used: "@, b));
            assert(is_listing(a, undeclared) && is_listing(b, unused));
        }
        Err(ErrorCode::SyntaxException(m))
    }
}

fn clone_texts(v: &Vec<String>) -> (r: Vec<String>)
    ensures
        texts(r@) == texts(v@),
{
    let mut r: Vec<String> = Vec::new();
    let mut i: usize = 0;
    while i < v.len()
        invariant
            i <= v@.len(),
            r@.len() == i,
            forall|j: int| 0 <= j < i ==> (#[trigger] r@[j])@ == v@[j]@,
        decreases v.len() - i,
    {
        r.push(v[i].clone());
        i += 1;
    }
    assert(texts(r@) =~= texts(v@));
    r
}

proof fn lemma_empty_listing(list: Seq<Seq<char>>, s: Set<Seq<char>>)
    requires
        is_listing(list, s),
    ensures
        list.len() == 0 <==> s =~= Set::<Seq<char>>::empty(),
{
    if list.len() == 0 {
        assert(list.to_set() =~= Set::<Seq<char>>::empty());
    } else {
        assert(list.contains(list[0]));
        assert(s.contains(list[0]));
    }
}

/// The names that an expression uses are those that its parts use.
pub proof fn names_of_all_parts_are_used(parts: Seq<UdfExpr>, name: Seq<char>)
    ensures
        column_names_in(parts).contains(name) <==> exists|i: int|
            0 <= i < parts.len() && column_names(#[trigger] parts[i]).contains(name),
    decreases parts.len(),
{
    if parts.len() > 0 {
        let before = parts.subrange(0, parts.len() - 1);
        names_of_all_parts_are_used(before, name);
        assert(column_names_in(parts) == column_names_in(before).union(column_names(parts[parts.len() - 1])));
        if column_names_in(before).contains(name) {
            let i = choose|i: int| 0 <= i < before.len() && column_names(#[trigger] before[i]).contains(name);
            assert(parts[i] == before[i]);
        }
        if exists|i: int| 0 <= i < parts.len() && column_names(#[trigger] parts[i]).contains(name) {
            let i = choose|i: int| 0 <= i < parts.len() && column_names(#[trigger] parts[i]).contains(name);
            if i < before.len() {
                assert(before[i] == parts[i]);
            }
        }
    }
}

/// A column is used by its name, and a call or another expression uses what its parts use.
pub proof fn expressions_use_names(e: UdfExpr, name: Seq<char>)
    ensures
        column_names(e).contains(name) <==> match e {
            UdfExpr::ColumnRef(column) => column@ == name,
            UdfExpr::FunctionCall { arguments, .. } => exists|i: int|
                0 <= i < arguments@.len() && column_names(#[trigger] arguments@[i]).contains(name),
            UdfExpr::Other(parts) => exists|i: int|
                0 <= i < parts@.len() && column_names(#[trigger] parts@[i]).contains(name),
        },
{
    reveal_with_fuel(column_names, 2);
    match e {
        UdfExpr::ColumnRef(_) => {},
        UdfExpr::FunctionCall { arguments, .. } => names_of_all_parts_are_used(arguments@, name),
        UdfExpr::Other(parts) => names_of_all_parts_are_used(parts@, name),
    }
}

/// One of many expressions makes a call where one of them does.
pub proof fn calls_of_all_parts_are_made(parts: Seq<UdfExpr>, own: Seq<char>)
    ensures
        calls_in(parts, own) <==> exists|i: int| 0 <= i < parts.len() && calls(#[trigger] parts[i], own),
    decreases parts.len(),
{
    if parts.len() > 0 {
        let before = parts.subrange(0, parts.len() - 1);
        calls_of_all_parts_are_made(before, own);
        if calls_in(before, own) {
            let i = choose|i: int| 0 <= i < before.len() && calls(#[trigger] before[i], own);
            assert(parts[i] == before[i]);
        }
        if exists|i: int| 0 <= i < parts.len() && calls(#[trigger] parts[i], own) {
            let i = choose|i: int| 0 <= i < parts.len() && calls(#[trigger] parts[i], own);
            if i < before.len() {
                assert(before[i] == parts[i]);
            }
        }
    }
}

/// A function calls itself where it is called by its name, in any case, and no built-in function is
/// meant; or where a part of the expression does.
pub proof fn a_function_is_called_by_its_name(e: UdfExpr, own: Seq<char>)
    ensures
        e is ColumnRef ==> !calls(e, own),
        e matches UdfExpr::Other(parts) ==> (calls(e, own) <==> exists|i: int|
            0 <= i < parts@.len() && calls(#[trigger] parts@[i], own)),
        e matches UdfExpr::FunctionCall { name, is_builtin, arguments } ==> {
            let within = exists|i: int| 0 <= i < arguments@.len() && calls(#[trigger] arguments@[i], own);
            &&& within ==> calls(e, own)
            &&& name@ == own && !is_builtin ==> calls(e, own)
            &&& (is_builtin || name@.len() != own.len()) && !within ==> !calls(e, own)
        },
{
    reveal_with_fuel(calls, 2);
    match e {
        UdfExpr::ColumnRef(_) => {},
        UdfExpr::FunctionCall { arguments, .. } => calls_of_all_parts_are_made(arguments@, own),
        UdfExpr::Other(parts) => calls_of_all_parts_are_made(parts@, own),
    }
}

/// What a function declares are its parameters and those of its lambdas.
pub proof fn parameters_are_declared(v: UDFValidator, name: Seq<char>)
    ensures
        declared(v).contains(name) <==> (exists|i: int| 0 <= i < v.parameters@.len() && (#[trigger] v.parameters@[i])@ == name)
            || (exists|i: int|
            0 <= i < v.lambda_parameters@.len() && (#[trigger] v.lambda_parameters@[i])@ == name),
{
    let all = v.parameters@ + v.lambda_parameters@;
    let names = texts(all);
    assert(declared(v).contains(name) <==> names.contains(name));
    if names.contains(name) {
        let i = choose|i: int| 0 <= i < names.len() && names[i] == name;
        if i < v.parameters@.len() {
            assert(v.parameters@[i]@ == name);
        } else {
            assert(v.lambda_parameters@[i - v.parameters@.len()]@ == name);
        }
    }
    if exists|i: int| 0 <= i < v.parameters@.len() && (#[trigger] v.parameters@[i])@ == name {
        let i = choose|i: int| 0 <= i < v.parameters@.len() && (#[trigger] v.parameters@[i])@ == name;
        assert(names[i] == name);
    }
    if exists|i: int| 0 <= i < v.lambda_parameters@.len() && (#[trigger] v.lambda_parameters@[i])@ == name {
        let i = choose|i: int| 0 <= i < v.lambda_parameters@.len() && (#[trigger] v.lambda_parameters@[i])@ == name;
        assert(names[v.parameters@.len() + i] == name);
    }
}

/// A definition is refused for the parameters that are not declared, and then for those that are
/// not used; each list names every such parameter once, and an empty one is left out.
pub proof fn a_refusal_names_every_parameter(
    r: Result<(), ErrorCode>,
    undeclared: Set<Seq<char>>,
    unused: Set<Seq<char>>,
)
    requires
        is_refused(r, undeclared, unused),
    ensures
        r matches Err(ErrorCode::SyntaxException(m)) && exists|a: Seq<Seq<char>>, b: Seq<Seq<char>>|
            #![trigger all_quoted(a), all_quoted(b)]
            {
                &&& a.no_duplicates() && (forall|x: Seq<char>| #[trigger] a.contains(x) <==> undeclared.contains(x))
                &&& b.no_duplicates() && (forall|x: Seq<char>| #[trigger] b.contains(x) <==> unused.contains(x))
                &&& m@ == (if a.len() == 0 {
                    Seq::<char>::empty()
                } else {
                    "Parameters are not declared: "@ + ("{"@ + separated(all_quoted(a), ", "@) + "}"@)
                }) + (if b.len() == 0 {
                    Seq::<char>::empty()
                } else {
                    "Parameters are not used: "@ + ("{"@ + separated(all_quoted(b), ", "@) + "}"@)
                })
            },
{
    if let Err(ErrorCode::SyntaxException(m)) = r {
        let (a, b) = choose|a: Seq<Seq<char>>, b: Seq<Seq<char>>|
            #![trigger is_listing(a, undeclared), is_listing(b, unused)]
            is_listing(a, undeclared) && is_listing(b, unused) && m@ == complaint("Parameters are not declared: "@, a)
                + complaint("Parameters are not used: "@, b);
        assert forall|x: Seq<char>| #[trigger] a.contains(x) <==> undeclared.contains(x) by {
            assert(a.to_set().contains(x) == a.contains(x));
        }
        assert forall|x: Seq<char>| #[trigger] b.contains(x) <==> unused.contains(x) by {
            assert(b.to_set().contains(x) == b.contains(x));
        }
        assert(all_quoted(a).len() >= 0 && all_quoted(b).len() >= 0);
    }
}

}
