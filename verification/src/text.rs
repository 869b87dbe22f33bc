//! Text that is put together piece by piece.

use vstd::prelude::*;

use crate::order::Order;

verus! {

pub open spec fn digit(d: nat) -> char {
    if d == 0 {
        '0'
    } else if d == 1 {
        '1'
    } else if d == 2 {
        '2'
    } else if d == 3 {
        '3'
    } else if d == 4 {
        '4'
    } else if d == 5 {
        '5'
    } else if d == 6 {
        '6'
    } else if d == 7 {
        '7'
    } else if d == 8 {
        '8'
    } else {
        '9'
    }
}

/// The decimal digits of a number, without leading zeros.
pub open spec fn decimal(n: nat) -> Seq<char>
    decreases n,
{
    if n < 10 {
        seq![digit(n)]
    } else {
        decimal(n / 10).push(digit(n % 10))
    }
}

/// The decimal form of an integer, with a minus sign before a negative one.
pub open spec fn signed_decimal(n: int) -> Seq<char> {
    if n < 0 {
        seq!['-'] + decimal((-n) as nat)
    } else {
        decimal(n as nat)
    }
}

fn digit_text(d: u64) -> (r: &'static str)
    requires
        d < 10,
    ensures
        r@ == seq![digit(d as nat)],
{
    proof {
        reveal_strlit("0");
        reveal_strlit("1");
        reveal_strlit("2");
        reveal_strlit("3");
        reveal_strlit("4");
        reveal_strlit("5");
        reveal_strlit("6");
        reveal_strlit("7");
        reveal_strlit("8");
        reveal_strlit("9");
    }
    let r = if d == 0 {
        "0"
    } else if d == 1 {
        "1"
    } else if d == 2 {
        "2"
    } else if d == 3 {
        "3"
    } else if d == 4 {
        "4"
    } else if d == 5 {
        "5"
    } else if d == 6 {
        "6"
    } else if d == 7 {
        "7"
    } else if d == 8 {
        "8"
    } else {
        "9"
    };
    assert(r@ =~= seq![digit(d as nat)]);
    r
}

/// Appends the decimal form of a number.
pub fn push_decimal(buf: &mut String, n: u64)
    ensures
        final(buf)@ == old(buf)@ + decimal(n as nat),
    decreases n,
{
    if n < 10 {
        buf.append(digit_text(n));
    } else {
        push_decimal(buf, n / 10);
        buf.append(digit_text(n % 10));
        assert(buf@ =~= old(buf)@ + decimal(n as nat));
    }
}

/// Appends the decimal form of an integer.
pub fn push_signed_decimal(buf: &mut String, n: i64)
    ensures
        final(buf)@ == old(buf)@ + signed_decimal(n as int),
{
    if n < 0 {
        proof {
            reveal_strlit("-");
        }
        buf.append("-");
        assert("-"@ =~= seq!['-']);
        let magnitude: u64 = if n == i64::MIN {
            0x8000_0000_0000_0000
        } else {
            (-n) as u64
        };
        push_decimal(buf, magnitude);
        assert(buf@ =~= old(buf)@ + signed_decimal(n as int));
    } else {
        push_decimal(buf, n as u64);
    }
}

/// The decimal form of a number.
pub fn decimal_text(n: u64) -> (r: String)
    ensures
        r@ == decimal(n as nat),
{
    let mut r = String::new();
    push_decimal(&mut r, n);
    assert(r@ =~= decimal(n as nat));
    r
}

/// The pieces one after the other with a separator between them.
pub open spec fn separated(parts: Seq<Seq<char>>, separator: Seq<char>) -> Seq<char>
    decreases parts.len(),
{
    if parts.len() == 0 {
        Seq::empty()
    } else if parts.len() == 1 {
        parts[0]
    } else {
        separated(parts.drop_last(), separator) + separator + parts.last()
    }
}

pub open spec fn texts(v: Seq<String>) -> Seq<Seq<char>> {
    v.map_values(|s: String| s@)
}

/// The texts one after the other with a separator between them.
pub fn join(parts: &Vec<String>, separator: &str) -> (r: String)
    ensures
        r@ == separated(texts(parts@), separator@),
{
    let mut r = String::new();
    let ghost all = texts(parts@);
    let mut i: usize = 0;
    assert(all.take(0) =~= Seq::<Seq<char>>::empty());
    assert(r@ =~= separated(all.take(0), separator@));
    while i < parts.len()
        invariant
            i <= parts.len(),
            all == texts(parts@),
            r@ == separated(all.take(i as int), separator@),
        decreases parts.len() - i,
    {
        let ghost before = r@;
        if i > 0 {
            r.append(separator);
        }
        r.append(parts[i].as_str());
        proof {
            let next = all.take(i + 1);
            assert(next.drop_last() =~= all.take(i as int));
            assert(next.last() == parts@[i as int]@);
            if i == 0 {
                assert(next =~= seq![parts@[0]@]);
                assert(r@ =~= parts@[0]@);
            } else {
                assert(r@ =~= before + separator@ + parts@[i as int]@);
            }
        }
        i += 1;
    }
    assert(all.take(i as int) =~= all);
    r
}

/// Whether two texts are the same.
pub fn same_text(a: &str, b: &str) -> (r: bool)
    ensures
        r == (a@ == b@),
{
    let x = a.to_owned();
    let y = b.to_owned();
    x == y
}

/// Texts are ordered by their first difference; a proper prefix comes first.
pub open spec fn text_order(a: Seq<char>, b: Seq<char>) -> Order
    decreases a.len(),
{
    if a.len() == 0 {
        if b.len() == 0 {
            Order::Equal
        } else {
            Order::Less
        }
    } else if b.len() == 0 {
        Order::Greater
    } else if a[0] < b[0] {
        Order::Less
    } else if a[0] > b[0] {
        Order::Greater
    } else {
        text_order(a.skip(1), b.skip(1))
    }
}

pub open spec fn text_le(a: Seq<char>, b: Seq<char>) -> bool {
    text_order(a, b) != Order::Greater
}

pub open spec fn texts_sorted(s: Seq<Seq<char>>) -> bool {
    forall|i: int, j: int| #![trigger s[i], s[j]] 0 <= i < j < s.len() ==> text_le(s[i], s[j])
}

pub proof fn lemma_text_order_laws(a: Seq<char>, b: Seq<char>, c: Seq<char>)
    ensures
        text_le(a, a),
        text_le(a, b) || text_le(b, a),
        text_le(a, b) && text_le(b, c) ==> text_le(a, c),
        text_order(a, b) == Order::Greater <==> text_order(b, a) == Order::Less,
        text_order(a, b) == Order::Equal <==> a == b,
    decreases a.len() + b.len() + c.len(),
{
    if a.len() > 0 && b.len() > 0 && c.len() > 0 {
        lemma_text_order_laws(a.skip(1), b.skip(1), c.skip(1));
    } else if a.len() > 0 && b.len() > 0 {
        lemma_text_order_laws(a.skip(1), b.skip(1), c);
    } else if a.len() > 0 {
        lemma_text_order_laws(a.skip(1), b, c);
    }
    if a.len() > 0 && b.len() > 0 && a[0] == b[0] && a.skip(1) == b.skip(1) {
        assert(a =~= seq![a[0]] + a.skip(1));
        assert(b =~= seq![b[0]] + b.skip(1));
    }
    if a.len() == 0 && b.len() == 0 {
        assert(a =~= b);
    }
}

/// The order of two texts.
pub fn compare_text(a: &str, b: &str) -> (r: Order)
    ensures
        r == text_order(a@, b@),
{
    let n: usize = a.unicode_len();
    let m: usize = b.unicode_len();
    let mut i: usize = 0;
    assert(a@.skip(0) =~= a@);
    assert(b@.skip(0) =~= b@);
    while i < n && i < m
        invariant
            i <= n,
            i <= m,
            n == a@.len(),
            m == b@.len(),
            text_order(a@, b@) == text_order(a@.skip(i as int), b@.skip(i as int)),
        decreases n - i,
    {
        let x = a.get_char(i);
        let y = b.get_char(i);
        if x < y {
            return Order::Less;
        }
        if x > y {
            return Order::Greater;
        }
        assert(a@.skip(i as int).skip(1) =~= a@.skip(i + 1));
        assert(b@.skip(i as int).skip(1) =~= b@.skip(i + 1));
        i += 1;
    }
    if i < n {
        Order::Greater
    } else if i < m {
        Order::Less
    } else {
        Order::Equal
    }
}

/// The texts in order.
pub open spec fn sorted_texts(s: Seq<Seq<char>>) -> Seq<Seq<char>> {
    choose|t: Seq<Seq<char>>| is_sorting(s, t)
}

/// The second list holds the texts of the first, in order.
pub open spec fn is_sorting(s: Seq<Seq<char>>, t: Seq<Seq<char>>) -> bool {
    texts_sorted(t) && t.to_multiset() == s.to_multiset()
}

/// The texts in order.
pub fn sort_texts(v: Vec<String>) -> (r: Vec<String>)
    ensures
        texts(r@) == sorted_texts(texts(v@)),
        is_sorting(texts(v@), texts(r@)),
{
    let mut r: Vec<String> = Vec::new();
    let ghost all = texts(v@);
    let mut i: usize = 0;
    assert(texts(r@) =~= all.take(0));
    while i < v.len()
        invariant
            i <= v.len(),
            all == texts(v@),
            r@.len() == i,
            texts_sorted(texts(r@)),
            texts(r@).to_multiset() == all.take(i as int).to_multiset(),
        decreases v.len() - i,
    {
        let item = v[i].clone();
        let ghost before = texts(r@);
        let mut at: usize = r.len();
        while at > 0 && matches!(compare_text(r[at - 1].as_str(), item.as_str()), Order::Greater)
            invariant
                at <= r@.len(),
                before == texts(r@),
                texts_sorted(before),
                forall|j: int| at <= j < before.len() ==> text_order(#[trigger] before[j], item@) == Order::Greater,
            decreases at,
        {
            at -= 1;
        }
        r.insert(at, item);
        proof {
            let now = texts(r@);
            assert(now =~= before.insert(at as int, item@));
            vstd::seq_lib::to_multiset_insert(before, at as int, item@);
            assert(all.take(i + 1) =~= all.take(i as int).push(item@));
            all.take(i as int).to_multiset_ensures();
            assert forall|a: int, b: int| #![trigger now[a], now[b]] 0 <= a < b < now.len() implies text_le(now[a], now[b]) by {
                if b == at {
                    assert(now[a] == before[a]);
                    assert(text_le(before[at - 1], item@));
                    if a < at - 1 {
                        assert(text_le(before[a], before[at - 1]));
                        lemma_text_order_laws(before[a], before[at - 1], item@);
                    }
                } else if a == at {
                    assert(now[b] == before[b - 1]);
                    lemma_text_order_laws(before[b - 1], item@, item@);
                    lemma_text_order_laws(item@, before[b - 1], item@);
                } else {
                    let x = if a < at { a } else { a - 1 };
                    let y = if b < at { b } else { b - 1 };
                    assert(now[a] == before[x] && now[b] == before[y]);
                }
            }
        }
        i += 1;
    }
    proof {
        assert(all.take(i as int) =~= all);
        assert(is_sorting(all, texts(r@)));
        sorted_texts_are_unique(texts(r@), sorted_texts(all));
    }
    r
}

/// Sorted texts are determined by what they hold.
pub proof fn sorted_texts_are_unique(a: Seq<Seq<char>>, b: Seq<Seq<char>>)
    requires
        texts_sorted(a),
        texts_sorted(b),
        a.to_multiset() == b.to_multiset(),
    ensures
        a == b,
    decreases a.len(),
{
    a.to_multiset_ensures();
    b.to_multiset_ensures();
    if a.len() > 0 {
        assert(b.len() == a.len());
        assert(a.contains(a[0]));
        assert(b.contains(b[0]));
        assert(a.to_multiset().count(b[0]) > 0);
        assert(b.to_multiset().count(a[0]) > 0);
        let i = choose|i: int| 0 <= i < a.len() && a[i] == b[0];
        let j = choose|j: int| 0 <= j < b.len() && b[j] == a[0];
        lemma_text_order_laws(a[0], b[0], a[0]);
        if i > 0 {
            assert(text_le(a[0], a[i]));
        }
        if j > 0 {
            assert(text_le(b[0], b[j]));
        }
        lemma_text_order_laws(b[0], a[0], b[0]);
        assert(a[0] == b[0]);
        assert(a.remove(0).to_multiset() =~= b.remove(0).to_multiset());
        sorted_texts_are_unique(a.remove(0), b.remove(0));
        assert(a =~= seq![a[0]] + a.remove(0));
        assert(b =~= seq![b[0]] + b.remove(0));
    } else {
        assert(b.len() == 0);
        assert(a =~= b);
    }
}

pub open spec fn is_digit(c: char) -> bool {
    '0' <= c <= '9'
}

pub open spec fn digit_value(c: char) -> nat {
    (c as nat - '0' as nat) as nat
}

/// The number that decimal digits stand for.
pub open spec fn digits_value(s: Seq<char>) -> nat
    decreases s.len(),
{
    if s.len() == 0 {
        0
    } else {
        digits_value(s.drop_last()) * 10 + digit_value(s.last())
    }
}

pub open spec fn all_digits(s: Seq<char>) -> bool {
    s.len() > 0 && forall|i: int| 0 <= i < s.len() ==> is_digit(#[trigger] s[i])
}

/// A text without the plus sign that a number may start with.
pub open spec fn unsigned_part(s: Seq<char>) -> Seq<char> {
    if s.len() > 1 && s[0] == '+' {
        s.skip(1)
    } else {
        s
    }
}

/// The number that a text stands for, where it is one and no greater than `max`.
pub open spec fn parsed(s: Seq<char>, max: nat) -> Option<nat> {
    let digits = unsigned_part(s);
    if all_digits(digits) && digits_value(digits) <= max {
        Some(digits_value(digits))
    } else {
        None
    }
}

proof fn lemma_digits_grow(s: Seq<char>, n: int)
    requires
        0 <= n <= s.len(),
    ensures
        digits_value(s.take(n)) <= digits_value(s),
    decreases s.len() - n,
{
    if n < s.len() {
        lemma_digits_grow(s, n + 1);
        assert(s.take(n + 1).drop_last() =~= s.take(n));
    } else {
        assert(s.take(n) =~= s);
    }
}

/// The number that a text stands for, where it is one and no greater than `max`.
pub fn parse_number(s: &str, max: u64) -> (r: Option<u64>)
    ensures
        match r {
            Some(n) => parsed(s@, max as nat) == Some(n as nat),
            None => parsed(s@, max as nat) is None,
        },
{
    let n: usize = s.unicode_len();
    let start: usize = if n > 1 && s.get_char(0) == '+' {
        1
    } else {
        0
    };
    let ghost digits = unsigned_part(s@);
    assert(start == 0 ==> s@.skip(0) =~= s@);
    assert(digits == s@.skip(start as int));
    if n == start {
        return None;
    }
    let mut value: u64 = 0;
    let mut i: usize = start;
    assert(digits.take(0) =~= Seq::<char>::empty());
    while i < n
        invariant
            start <= i <= n,
            n == s@.len(),
            digits == unsigned_part(s@),
            digits == s@.skip(start as int),
            value == digits_value(digits.take(i - start)),
            value <= max,
            forall|j: int| 0 <= j < i - start ==> is_digit(#[trigger] digits[j]),
        decreases n - i,
    {
        let c = s.get_char(i);
        assert(digits[i - start] == c);
        if c < '0' || c > '9' {
            return None;
        }
        let d: u64 = (c as u32 - '0' as u32) as u64;
        proof {
            assert(digits.take(i - start + 1).drop_last() =~= digits.take(i - start));
            lemma_digits_grow(digits, i - start + 1);
        }
        let next: u128 = value as u128 * 10 + d as u128;
        if next > max as u128 {
            return None;
        }
        value = next as u64;
        i += 1;
    }
    assert(digits.take(i - start) =~= digits);
    Some(value)
}

/// The decimal form of a number stands for that number.
pub proof fn decimal_is_parsed_back(n: nat, max: nat)
    requires
        n <= max,
    ensures
        parsed(decimal(n), max) == Some(n),
{
    lemma_decimal_digits(n);
    assert(decimal(n)[0] != '+');
}

proof fn lemma_decimal_digits(n: nat)
    ensures
        all_digits(decimal(n)),
        digits_value(decimal(n)) == n,
    decreases n,
{
    if n < 10 {
        assert(decimal(n).drop_last() =~= Seq::<char>::empty());
        reveal_with_fuel(digits_value, 2);
    } else {
        lemma_decimal_digits(n / 10);
        assert(decimal(n).drop_last() =~= decimal(n / 10));
        assert(digits_value(decimal(n)) == digits_value(decimal(n / 10)) * 10 + digit_value(digit(n % 10)));
    }
}

/// A text as a string literal, in quotes and with what needs it escaped.
pub uninterp spec fn quoted(s: Seq<char>) -> Seq<char>;

/// Formats a text with `core::fmt::Debug` for `str`. The result depends on the text alone: it is
/// the text between double quotes, with escapes. How each character is escaped is not stated.
#[verifier::external_body]
pub(crate) fn quote(s: &str) -> (r: String)
    ensures
        r@ == quoted(s@),
{
    format!("{:?}", s)
}

/// Joins four texts into one.
pub fn concat(a: &str, b: &str, c: &str, d: &str) -> (r: String)
    ensures
        r@ == a@ + b@ + c@ + d@,
{
    let mut r = String::new();
    r.append(a);
    r.append(b);
    r.append(c);
    r.append(d);
    assert(r@ =~= a@ + b@ + c@ + d@);
    r
}

/// There is an order of any texts.
pub proof fn lemma_sorting_exists(s: Seq<Seq<char>>)
    ensures
        is_sorting(s, sorted_texts(s)),
    decreases s.len(),
{
    let t = lemma_sort(s);
    assert(is_sorting(s, t));
}

proof fn lemma_sort(s: Seq<Seq<char>>) -> (t: Seq<Seq<char>>)
    ensures
        is_sorting(s, t),
    decreases s.len(),
{
    if s.len() == 0 {
        s
    } else {
        let before = lemma_sort(s.drop_last());
        let x = s.last();
        let at = lemma_place(before, x, before.len() as int);
        let t = before.insert(at, x);
        vstd::seq_lib::to_multiset_insert(before, at, x);
        s.drop_last().to_multiset_ensures();
        assert(s =~= s.drop_last().push(x));
        assert forall|i: int, j: int| #![trigger t[i], t[j]] 0 <= i < j < t.len() implies text_le(t[i], t[j]) by {
            let a = if i < at { i } else { i - 1 };
            let b = if j < at { j } else { j - 1 };
            if i != at {
                assert(t[i] == before[a]);
            }
            if j != at {
                assert(t[j] == before[b]);
            }
        }
        t
    }
}

/// Where a text goes among sorted ones: what is before it does not come after it, and what is
/// behind it does not come before it.
proof fn lemma_place(s: Seq<Seq<char>>, x: Seq<char>, n: int) -> (at: int)
    requires
        texts_sorted(s),
        0 <= n <= s.len(),
        forall|i: int| n <= i < s.len() ==> text_le(x, #[trigger] s[i]),
    ensures
        0 <= at <= s.len(),
        forall|i: int| 0 <= i < at ==> text_le(#[trigger] s[i], x),
        forall|i: int| at <= i < s.len() ==> text_le(x, #[trigger] s[i]),
    decreases n,
{
    if n == 0 {
        0
    } else if text_le(s[n - 1], x) {
        assert forall|i: int| 0 <= i < n implies text_le(#[trigger] s[i], x) by {
            if i < n - 1 {
                assert(text_le(s[i], s[n - 1]));
                lemma_text_order_laws(s[i], s[n - 1], x);
            }
        }
        n
    } else {
        lemma_text_order_laws(s[n - 1], x, x);
        lemma_place(s, x, n - 1)
    }
}

/// The first character in which two texts differ decides their order; where one begins with the
/// other, the shorter comes first; only the same texts are equal.
pub proof fn the_first_character_that_differs_decides(a: Seq<char>, b: Seq<char>, k: int)
    requires
        0 <= k <= a.len(),
        k <= b.len(),
        forall|i: int| 0 <= i < k ==> #[trigger] a[i] == b[i],
    ensures
        k < a.len() && k < b.len() && a[k] < b[k] ==> text_order(a, b) == Order::Less,
        k < a.len() && k < b.len() && a[k] > b[k] ==> text_order(a, b) == Order::Greater,
        k == a.len() && k < b.len() ==> text_order(a, b) == Order::Less,
        k < a.len() && k == b.len() ==> text_order(a, b) == Order::Greater,
        k == a.len() && k == b.len() ==> text_order(a, b) == Order::Equal,
    decreases k,
{
    if k > 0 {
        assert(a[0] == b[0]);
        assert forall|i: int| 0 <= i < k - 1 implies #[trigger] a.skip(1)[i] == b.skip(1)[i] by {
            assert(a[i + 1] == b[i + 1]);
        }
        the_first_character_that_differs_decides(a.skip(1), b.skip(1), k - 1);
    }
}

/// The decimal form of a number ends with its last digit, before which the form of the rest stands;
/// a number of one digit is that digit.
pub proof fn decimals_are_written_digit_by_digit(n: nat)
    ensures
        decimal(n).len() >= 1,
        decimal(n).last() as int == '0' as int + (n % 10) as int,
        n < 10 ==> decimal(n).len() == 1,
        n >= 10 ==> decimal(n).drop_last() == decimal(n / 10),
{
    if n >= 10 {
        assert(decimal(n).drop_last() =~= decimal(n / 10));
    }
}

/// A negative number is written with a minus sign before what it would be without.
pub proof fn negative_numbers_have_a_minus_sign(n: int)
    ensures
        n >= 0 ==> signed_decimal(n) == decimal(n as nat),
        n < 0 ==> signed_decimal(n).len() >= 2 && signed_decimal(n)[0] == '-' && signed_decimal(n).skip(1) == decimal(
            (-n) as nat,
        ),
{
    decimals_are_written_digit_by_digit(if n < 0 { (-n) as nat } else { n as nat });
    if n < 0 {
        assert(signed_decimal(n).skip(1) =~= decimal((-n) as nat));
    }
}

/// A number is read only from digits, with a plus sign before them or without one, and only as far
/// as it is not too large.
pub proof fn only_digits_are_read(s: Seq<char>, max: nat)
    ensures
        parsed(s, max) matches Some(n) ==> n <= max && s.len() > 0 && forall|i: int|
            0 < i < s.len() ==> '0' <= #[trigger] s[i] <= '9',
        parsed(s, max) is Some ==> ('0' <= s[0] <= '9' || (s[0] == '+' && s.len() > 1)),
{
    if parsed(s, max) is Some {
        let digits = unsigned_part(s);
        if s.len() > 1 && s[0] == '+' {
            assert forall|i: int| 0 < i < s.len() implies '0' <= #[trigger] s[i] <= '9' by {
                assert(is_digit(digits[i - 1]));
            }
        } else {
            assert(is_digit(digits[0]));
            assert forall|i: int| 0 < i < s.len() implies '0' <= #[trigger] s[i] <= '9' by {
                assert(is_digit(digits[i]));
            }
        }
    }
}

/// Texts are put together in their order with the separator between any two of them, and nowhere
/// else.
pub proof fn separators_stand_between(parts: Seq<Seq<char>>, more: Seq<Seq<char>>, separator: Seq<char>)
    ensures
        parts.len() == 1 ==> separated(parts, separator) == parts[0],
        parts.len() > 0 && more.len() > 0 ==> separated(parts + more, separator) == separated(parts, separator)
            + separator + separated(more, separator),
        separated(Seq::empty(), separator).len() == 0,
    decreases more.len(),
{
    if parts.len() > 0 && more.len() > 0 {
        let before = more.drop_last();
        assert((parts + more).drop_last() =~= parts + before);
        assert((parts + more).last() == more.last());
        if before.len() == 0 {
            assert(parts + before =~= parts);
            assert(separated(more, separator) == more[0]);
        } else {
            separators_stand_between(parts, before, separator);
            assert(separated(parts + more, separator) =~= separated(parts, separator) + separator + (separated(
                before,
                separator,
            ) + separator + more.last()));
        }
    }
}

}
