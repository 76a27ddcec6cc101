//! Text helpers: joining, decimal rendering and decimal parsing.
//!
//! Every contract here is stated over `Seq<char>`, the view of a string.

use vstd::prelude::*;
use vstd::string::*;

verus! {

/// The character sequences of a list of strings, in order.
pub open spec fn views(list: Seq<String>) -> Seq<Seq<char>> {
    Seq::new(list.len(), |i: int| list[i]@)
}

/// All parts written one after another, with nothing between them.
pub open spec fn concat_all(parts: Seq<Seq<char>>) -> Seq<char>
    decreases parts.len(),
{
    if parts.len() == 0 {
        Seq::empty()
    } else {
        concat_all(parts.drop_last()) + parts.last()
    }
}

/// All parts written one after another, with `sep` between neighbours.
pub open spec fn join_with(parts: Seq<Seq<char>>, sep: Seq<char>) -> Seq<char>
    decreases parts.len(),
{
    if parts.len() == 0 {
        Seq::empty()
    } else if parts.len() == 1 {
        parts[0]
    } else {
        join_with(parts.drop_last(), sep) + sep + parts.last()
    }
}

/// `count` copies of `item`.
pub open spec fn repeated(item: Seq<char>, count: nat) -> Seq<Seq<char>> {
    Seq::new(count, |i: int| item)
}

/// Appending a string appends its characters to the views.
pub proof fn lemma_views_push(list: Seq<String>, s: String)
    ensures
        views(list.push(s)) == views(list).push(s@),
{
    assert(views(list.push(s)) =~= views(list).push(s@));
}

/// Concatenates the strings of `parts` in order.
pub fn concat_strings(parts: &Vec<String>) -> (out: String)
    ensures
        out@ == concat_all(views(parts@)),
{
    let mut out = String::new();
    let mut i: usize = 0;
    while i < parts.len()
        invariant
            i <= parts.len(),
            out@ == concat_all(views(parts@).take(i as int)),
        decreases parts.len() - i,
    {
        proof {
            let v = views(parts@);
            assert(v.take(i + 1).drop_last() =~= v.take(i as int));
        }
        out.append(parts[i].as_str());
        i += 1;
    }
    proof {
        assert(views(parts@).take(parts.len() as int) =~= views(parts@));
    }
    out
}

/// Joins the strings of `parts` in order, with `sep` between neighbours.
pub fn join_strings(parts: &Vec<String>, sep: &str) -> (out: String)
    ensures
        out@ == join_with(views(parts@), sep@),
{
    let mut out = String::new();
    let mut i: usize = 0;
    while i < parts.len()
        invariant
            i <= parts.len(),
            out@ == join_with(views(parts@).take(i as int), sep@),
        decreases parts.len() - i,
    {
        proof {
            let v = views(parts@);
            assert(v.take(i + 1).drop_last() =~= v.take(i as int));
        }
        if i > 0 {
            out.append(sep);
        }
        out.append(parts[i].as_str());
        i += 1;
    }
    proof {
        assert(views(parts@).take(parts.len() as int) =~= views(parts@));
    }
    out
}

/// Whether `list` holds a string with the same characters as `item`.
pub fn contains_text(list: &Vec<String>, item: &String) -> (found: bool)
    ensures
        found == views(list@).contains(item@),
{
    let mut i: usize = 0;
    while i < list.len()
        invariant
            i <= list.len(),
            forall|j: int| 0 <= j < i ==> views(list@)[j] != item@,
        decreases list.len() - i,
    {
        if list[i] == *item {
            assert(views(list@)[i as int] == item@);
            return true;
        }
        i += 1;
    }
    false
}

/// The decimal digit for `d`, which lies in `0..10`.
pub open spec fn digit_char(d: int) -> char {
    if d == 0 {
        '0'
    } else if d == 1 {
        '1'
    } else if d == 2 {
        '2'
    } else if d == 3 {
        '3'
    } else if d == 4 {
        '4'
    } else if d == 5 {
        '5'
    } else if d == 6 {
        '6'
    } else if d == 7 {
        '7'
    } else if d == 8 {
        '8'
    } else {
        '9'
    }
}

/// The decimal numeral of `n`: no sign, no leading zero except for zero itself.
pub open spec fn decimal(n: nat) -> Seq<char>
    decreases n,
{
    if n < 10 {
        seq![digit_char(n as int)]
    } else {
        decimal(n / 10).push(digit_char((n % 10) as int))
    }
}

/// The decimal numeral of `i`, with a leading `-` when it is negative.
pub open spec fn signed_decimal(i: int) -> Seq<char> {
    if i < 0 {
        seq!['-'] + decimal((-i) as nat)
    } else {
        decimal(i as nat)
    }
}

fn digit_text(d: u128) -> (s: &'static str)
    requires
        d < 10,
    ensures
        s@ == seq![digit_char(d as int)],
{
    proof {
        reveal_strlit("0123456789");
    }
    let all = "0123456789";
    let at = d as usize;
    let s = all.substring_ascii(at, at + 1);
    assert(s@ =~= seq![digit_char(d as int)]);
    s
}

/// Renders `n` as a decimal numeral.
pub fn decimal_string(n: u128) -> (out: String)
    ensures
        out@ == decimal(n as nat),
    decreases n,
{
    if n < 10 {
        String::from_str(digit_text(n))
    } else {
        let mut out = decimal_string(n / 10);
        out.append(digit_text(n % 10));
        assert(out@ =~= decimal(n as nat));
        out
    }
}

/// Renders `i` as a decimal numeral, with a leading `-` when it is negative.
pub fn signed_decimal_string(i: i64) -> (out: String)
    ensures
        out@ == signed_decimal(i as int),
{
    if i < 0 {
        proof {
            reveal_strlit("-");
        }
        let magnitude: u128 = (-(i as i128)) as u128;
        let digits = decimal_string(magnitude);
        let mut out = String::from_str("-");
        out.append(digits.as_str());
        assert(out@ =~= signed_decimal(i as int));
        out
    } else {
        decimal_string(i as u128)
    }
}

/// Whether `c` is one of the ten decimal digits.
pub open spec fn is_digit(c: char) -> bool {
    '0' <= c <= '9'
}

/// The number that the decimal digit `c` stands for.
pub open spec fn digit_value(c: char) -> nat {
    (c as u32 - '0' as u32) as nat
}

/// Whether every character of `s` is a decimal digit.
pub open spec fn all_digits(s: Seq<char>) -> bool {
    forall|i: int| 0 <= i < s.len() ==> is_digit(#[trigger] s[i])
}

/// The number that a sequence of decimal digits stands for.
pub open spec fn digits_value(s: Seq<char>) -> nat
    decreases s.len(),
{
    if s.len() == 0 {
        0
    } else {
        digits_value(s.drop_last()) * 10 + digit_value(s.last())
    }
}

/// The number that `s` stands for as an unsigned decimal literal: an
/// optional `+`, then one or more decimal digits and nothing else.
pub open spec fn parsed_count(s: Seq<char>) -> Option<nat> {
    let digits = if s.len() > 0 && s[0] == '+' {
        s.drop_first()
    } else {
        s
    };
    if digits.len() > 0 && all_digits(digits) {
        Some(digits_value(digits))
    } else {
        None
    }
}

/// `parsed_count`, limited to what a `usize` holds.
pub open spec fn parsed_usize(s: Seq<char>) -> Option<usize> {
    match parsed_count(s) {
        Some(n) => if n <= usize::MAX {
            Some(n as usize)
        } else {
            None
        },
        None => None,
    }
}

proof fn lemma_digits_value_monotonic(s: Seq<char>, n: int)
    requires
        0 <= n <= s.len(),
    ensures
        digits_value(s.take(n)) <= digits_value(s),
    decreases s.len() - n,
{
    if n == s.len() {
        assert(s.take(n) =~= s);
    } else {
        lemma_digits_value_monotonic(s, n + 1);
        assert(s.take(n + 1).drop_last() =~= s.take(n));
    }
}

/// Reads an unsigned decimal literal: an optional `+`, then digits only.
/// Anything else, and a number that a `usize` cannot hold, gives `None`.
pub fn parse_usize(s: &str) -> (out: Option<usize>)
    ensures
        out == parsed_usize(s@),
{
    let mut value: usize = 0;
    let mut seen = false;
    let mut signed = false;
    let ghost digits: Seq<char> = Seq::empty();
    for c in it: s.chars()
        invariant
            it.seq() == s@,
            signed ==> s@.len() > 0 && s@[0] == '+',
            !signed && it.index() > 0 ==> s@[0] != '+',
            digits == s@.take(it.index() as int).skip(if signed { 1int } else { 0int }),
            seen == (digits.len() > 0),
            it.index() == digits.len() + if signed { 1int } else { 0int },
            all_digits(digits),
            value == digits_value(digits),
    {
        let ghost at = it.index() as int;
        if c == '+' && !signed && !seen {
            signed = true;
            proof {
                digits = Seq::empty();
                assert(s@.take(at + 1).skip(1) =~= digits);
            }
        } else if '0' <= c && c <= '9' {
            let d = (c as u32 - '0' as u32) as usize;
            let ghost next = digits.push(c);
            proof {
                assert(next.drop_last() =~= digits);
                assert(next =~= s@.take(at + 1).skip(if signed { 1int } else { 0int }));
                let whole = s@.skip(if signed { 1int } else { 0int });
                assert(whole.take(next.len() as int) =~= next);
                if all_digits(whole) {
                    lemma_digits_value_monotonic(whole, next.len() as int);
                }
                if signed {
                    assert(s@.drop_first() =~= whole);
                } else {
                    assert(s@ =~= whole);
                }
            }
            if value > (usize::MAX - d) / 10 {
                return None;
            }
            value = value * 10 + d;
            seen = true;
            proof {
                digits = next;
            }
        } else {
            proof {
                let whole = s@.skip(if signed { 1int } else { 0int });
                assert(whole[at - if signed { 1int } else { 0int }] == c);
                if signed {
                    assert(s@.drop_first() =~= whole);
                } else {
                    assert(s@ =~= whole);
                }
            }
            return None;
        }
    }
    proof {
        let whole = s@.skip(if signed { 1int } else { 0int });
        assert(s@.take(s@.len() as int) =~= s@);
        assert(digits =~= whole);
        if signed {
            assert(s@.drop_first() =~= whole);
        } else {
            assert(s@ =~= whole);
        }
    }
    if !seen {
        None
    } else {
        Some(value)
    }
}

} // verus!
