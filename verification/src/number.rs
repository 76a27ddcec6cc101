//! Which texts count as numbers: those that `f64` reads, told by their
//! spelling alone.

use crate::text::{all_digits, is_digit, views};
use vstd::prelude::*;
use vstd::string::*;

verus! {

/// How many decimal digits `s` begins with.
pub open spec fn leading_digits(s: Seq<char>) -> nat
    decreases s.len(),
{
    if s.len() > 0 && is_digit(s[0]) {
        1 + leading_digits(s.drop_first())
    } else {
        0
    }
}

/// `s` without its sign, if it begins with `+` or `-`.
pub open spec fn unsigned(s: Seq<char>) -> Seq<char> {
    if s.len() > 0 && (s[0] == '+' || s[0] == '-') {
        s.drop_first()
    } else {
        s
    }
}

/// Whether `s` spells a word, each letter in either case.
pub open spec fn is_word(s: Seq<char>, lower: Seq<char>, upper: Seq<char>) -> bool {
    s.len() == lower.len() && forall|i: int|
        0 <= i < s.len() ==> #[trigger] s[i] == lower[i] || s[i] == upper[i]
}

/// Whether `s` is an exponent: `e` or `E`, an optional sign, and one digit
/// or more.
pub open spec fn is_exponent(s: Seq<char>) -> bool {
    &&& s.len() > 0
    &&& s[0] == 'e' || s[0] == 'E'
    &&& unsigned(s.drop_first()).len() > 0
    &&& all_digits(unsigned(s.drop_first()))
}

/// Whether `s` is a decimal number: digits with at most one point among
/// them, at least one digit in all, and an optional exponent behind them.
pub open spec fn is_decimal_number(s: Seq<char>) -> bool {
    let whole = leading_digits(s);
    let rest = s.skip(whole as int);
    if rest.len() > 0 && rest[0] == '.' {
        let fraction = leading_digits(rest.drop_first());
        let tail = rest.skip(1 + fraction as int);
        whole + fraction > 0 && (tail.len() == 0 || is_exponent(tail))
    } else {
        whole > 0 && (rest.len() == 0 || is_exponent(rest))
    }
}

/// Whether `s` is spelled as a floating-point number: an optional sign, then
/// a decimal number or one of `inf`, `infinity` and `nan` in any case.
pub open spec fn float_literal(s: Seq<char>) -> bool {
    ||| is_decimal_number(unsigned(s))
    ||| is_word(unsigned(s), "inf"@, "INF"@)
    ||| is_word(unsigned(s), "infinity"@, "INFINITY"@)
    ||| is_word(unsigned(s), "nan"@, "NAN"@)
}

/// The texts of `values` that are spelled as numbers, in their order.
pub open spec fn float_literals(values: Seq<Seq<char>>) -> Seq<Seq<char>>
    decreases values.len(),
{
    if values.len() == 0 {
        Seq::empty()
    } else if float_literal(values.last()) {
        float_literals(values.drop_last()).push(values.last())
    } else {
        float_literals(values.drop_last())
    }
}

/// Every text of `float_literals` is spelled as a number.
pub proof fn lemma_float_literals_hold(values: Seq<Seq<char>>)
    ensures
        forall|i: int|
            0 <= i < float_literals(values).len() ==> float_literal(
                #[trigger] float_literals(values)[i],
            ),
    decreases values.len(),
{
    if values.len() > 0 {
        let init = float_literals(values.drop_last());
        lemma_float_literals_hold(values.drop_last());
        assert forall|i: int| 0 <= i < float_literals(values).len() implies float_literal(
            #[trigger] float_literals(values)[i],
        ) by {
            if i < init.len() {
                assert(float_literal(init[i]));
            }
        }
    }
}

/// Where none of `values` is spelled as a number, `float_literals` is empty.
pub proof fn lemma_no_float_literals(values: Seq<Seq<char>>)
    requires
        forall|i: int| 0 <= i < values.len() ==> !float_literal(#[trigger] values[i]),
    ensures
        float_literals(values).len() == 0,
    decreases values.len(),
{
    if values.len() > 0 {
        assert(!float_literal(values[values.len() - 1]));
        assert forall|i: int| 0 <= i < values.drop_last().len() implies !float_literal(
            #[trigger] values.drop_last()[i],
        ) by {
            assert(values.drop_last()[i] == values[i]);
        }
        lemma_no_float_literals(values.drop_last());
    }
}

/// Where exactly one of `values` is spelled as a number, `float_literals`
/// holds that one alone.
pub proof fn lemma_one_float_literal(values: Seq<Seq<char>>, at: int)
    requires
        0 <= at < values.len(),
        float_literal(values[at]),
        forall|i: int| 0 <= i < values.len() && i != at ==> !float_literal(#[trigger] values[i]),
    ensures
        float_literals(values) == seq![values[at]],
    decreases values.len(),
{
    let init = values.drop_last();
    if at == values.len() - 1 {
        assert forall|i: int| 0 <= i < init.len() implies !float_literal(#[trigger] init[i]) by {
            assert(init[i] == values[i]);
        }
        lemma_no_float_literals(init);
        assert(float_literals(values) =~= seq![values[at]]);
    } else {
        assert(!float_literal(values[values.len() - 1]));
        assert forall|i: int| 0 <= i < init.len() && i != at implies !float_literal(
            #[trigger] init[i],
        ) by {
            assert(init[i] == values[i]);
        }
        assert(init[at] == values[at]);
        lemma_one_float_literal(init, at);
    }
}

proof fn lemma_leading_digits(s: Seq<char>)
    ensures
        leading_digits(s) <= s.len(),
        leading_digits(s) == s.len() <==> all_digits(s),
        leading_digits(s) < s.len() ==> !is_digit(s[leading_digits(s) as int]),
    decreases s.len(),
{
    if s.len() > 0 && is_digit(s[0]) {
        let rest = s.drop_first();
        lemma_leading_digits(rest);
        if all_digits(rest) {
            assert forall|i: int| 0 <= i < s.len() implies is_digit(#[trigger] s[i]) by {
                if i > 0 {
                    assert(rest[i - 1] == s[i]);
                }
            }
        }
        if all_digits(s) {
            assert forall|i: int| 0 <= i < rest.len() implies is_digit(#[trigger] rest[i]) by {
                assert(rest[i] == s[i + 1]);
            }
        }
        if leading_digits(s) < s.len() {
            assert(s[leading_digits(s) as int] == rest[leading_digits(rest) as int]);
        }
    } else if s.len() > 0 {
        assert(!is_digit(s[0]));
    }
}

fn chars_of(text: &str) -> (chars: Vec<char>)
    ensures
        chars@ == text@,
{
    let mut chars: Vec<char> = Vec::new();
    for c in it: text.chars()
        invariant
            it.seq() == text@,
            chars@ == text@.take(it.index() as int),
    {
        chars.push(c);
    }
    chars
}

fn count_digits(s: &Vec<char>, from: usize) -> (count: usize)
    requires
        from <= s@.len(),
    ensures
        count == leading_digits(s@.skip(from as int)),
        from + count <= s@.len(),
{
    let total = s.len();
    let mut count: usize = 0;
    while from + count < total && '0' <= s[from + count] && s[from + count] <= '9'
        invariant
            total == s@.len(),
            from + count <= s@.len(),
            leading_digits(s@.skip(from as int)) == count + leading_digits(
                s@.skip(from + count),
            ),
        decreases s@.len() - from - count,
    {
        proof {
            assert(s@.skip(from + count).drop_first() =~= s@.skip(from + count + 1));
        }
        count += 1;
    }
    count
}

fn exponent_at(s: &Vec<char>, from: usize) -> (found: bool)
    requires
        from <= s@.len(),
    ensures
        found == is_exponent(s@.skip(from as int)),
{
    if from >= s.len() || (s[from] != 'e' && s[from] != 'E') {
        return false;
    }
    let ghost tail = s@.skip(from as int).drop_first();
    proof {
        assert(tail =~= s@.skip(from + 1));
    }
    let mut at = from + 1;
    if at < s.len() && (s[at] == '+' || s[at] == '-') {
        at += 1;
        proof {
            assert(tail.drop_first() =~= s@.skip(at as int));
        }
    }
    let digits = count_digits(s, at);
    proof {
        lemma_leading_digits(s@.skip(at as int));
    }
    digits > 0 && at + digits == s.len()
}

fn decimal_number_at(s: &Vec<char>, from: usize) -> (found: bool)
    requires
        from <= s@.len(),
    ensures
        found == is_decimal_number(s@.skip(from as int)),
{
    let ghost body = s@.skip(from as int);
    let total = s.len();
    let whole = count_digits(s, from);
    let mut at = from + whole;
    proof {
        assert(body.skip(whole as int) =~= s@.skip(at as int));
    }
    if at < s.len() && s[at] == '.' {
        let fraction = count_digits(s, at + 1);
        proof {
            assert(s@.skip(at as int).drop_first() =~= s@.skip(at + 1));
            assert(s@.skip(at as int).skip(1 + fraction) =~= s@.skip(at + 1 + fraction));
        }
        at = at + 1 + fraction;
        whole + fraction > 0 && (at == total || exponent_at(s, at))
    } else {
        whole > 0 && (at == total || exponent_at(s, at))
    }
}

fn word_at(s: &Vec<char>, from: usize, lower: &str, upper: &str) -> (found: bool)
    requires
        from <= s@.len(),
        lower@.len() == upper@.len(),
    ensures
        found == is_word(s@.skip(from as int), lower@, upper@),
{
    let length = lower.unicode_len();
    let total = s.len();
    if total - from != length {
        return false;
    }
    let ghost body = s@.skip(from as int);
    let mut i: usize = 0;
    while i < length
        invariant
            i <= length,
            length == lower@.len(),
            length == upper@.len(),
            total == s@.len(),
            from + length == total,
            body == s@.skip(from as int),
            forall|k: int| 0 <= k < i ==> #[trigger] body[k] == lower@[k] || body[k] == upper@[k],
        decreases length - i,
    {
        let c = s[from + i];
        if c != lower.get_char(i) && c != upper.get_char(i) {
            assert(body[i as int] == c);
            return false;
        }
        i += 1;
    }
    true
}

/// Whether `text` is spelled as a floating-point number.
pub fn is_float_literal(text: &str) -> (found: bool)
    ensures
        found == float_literal(text@),
{
    let s = chars_of(text);
    let from: usize = if s.len() > 0 && (s[0] == '+' || s[0] == '-') {
        1
    } else {
        0
    };
    proof {
        assert(s@.skip(from as int) =~= unsigned(text@));
        reveal_strlit("inf");
        reveal_strlit("INF");
        reveal_strlit("infinity");
        reveal_strlit("INFINITY");
        reveal_strlit("nan");
        reveal_strlit("NAN");
    }
    decimal_number_at(&s, from) || word_at(&s, from, "inf", "INF") || word_at(
        &s,
        from,
        "infinity",
        "INFINITY",
    ) || word_at(&s, from, "nan", "NAN")
}

/// The strings of `values` that are spelled as numbers, in their order.
pub fn numeric_operands(values: &Vec<String>) -> (operands: Vec<String>)
    ensures
        views(operands@) == float_literals(views(values@)),
{
    let mut operands: Vec<String> = Vec::new();
    let mut i: usize = 0;
    proof {
        assert(views(values@).take(0) =~= Seq::<Seq<char>>::empty());
        assert(views(operands@) =~= float_literals(views(values@).take(0)));
    }
    while i < values.len()
        invariant
            i <= values@.len(),
            views(operands@) == float_literals(views(values@).take(i as int)),
        decreases values@.len() - i,
    {
        proof {
            let v = views(values@);
            assert(v.take(i + 1).drop_last() =~= v.take(i as int));
            assert(v.take(i + 1).last() == values@[i as int]@);
        }
        if is_float_literal(values[i].as_str()) {
            let ghost before = operands@;
            operands.push(values[i].clone());
            proof {
                assert(views(operands@) =~= views(before).push(values@[i as int]@));
            }
        }
        i += 1;
    }
    proof {
        assert(views(values@).take(values@.len() as int) =~= views(values@));
    }
    operands
}

} // verus!
