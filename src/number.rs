use vstd::prelude::*;
use vstd::string::*;

verus! {

/// The value a numeric lexeme denotes.
pub enum NumberValue {
    /// A 32-bit signed integer.
    Int(int),
    /// A floating-point literal, kept as its decimal text.
    Float(Seq<char>),
}

pub open spec fn is_digit(c: char) -> bool {
    '0' <= c && c <= '9'
}

pub open spec fn digit_value(c: char) -> int {
    (c as u32) as int - ('0' as u32) as int
}

/// The decimal value of a run of digits, most significant first.
pub open spec fn digits_value(t: Seq<char>) -> int
    decreases t.len(),
{
    if t.len() == 0 {
        0
    } else {
        digits_value(t.drop_last()) * 10 + digit_value(t.last())
    }
}

pub open spec fn all_digits(t: Seq<char>) -> bool {
    forall|k: int| 0 <= k < t.len() ==> is_digit(#[trigger] t[k])
}

/// The number of periods in `t`.
pub open spec fn dot_count(t: Seq<char>) -> nat
    decreases t.len(),
{
    if t.len() == 0 {
        0
    } else {
        dot_count(t.drop_last()) + if t.last() == '.' { 1nat } else { 0nat }
    }
}

/// Digits around exactly one period, with at least one digit.
pub open spec fn float_text(t: Seq<char>) -> bool {
    &&& t.len() >= 2
    &&& dot_count(t) == 1
    &&& forall|k: int| 0 <= k < t.len() ==> is_digit(#[trigger] t[k]) || t[k] == '.'
}

/// Non-empty digits whose value fits in an `i32`.
pub open spec fn int_text(t: Seq<char>) -> bool {
    &&& t.len() >= 1
    &&& all_digits(t)
    &&& digits_value(t) <= i32::MAX
}

/// What a numeric lexeme reads as: a period selects a float, its absence a
/// 32-bit integer; `None` when the text is not a valid literal of that form.
pub open spec fn number_value(t: Seq<char>) -> Option<NumberValue> {
    if dot_count(t) > 0 {
        if float_text(t) {
            Some(NumberValue::Float(t))
        } else {
            None
        }
    } else if int_text(t) {
        Some(NumberValue::Int(digits_value(t)))
    } else {
        None
    }
}

pub proof fn lemma_digits_value_nonneg(t: Seq<char>)
    requires
        all_digits(t),
    ensures
        digits_value(t) >= 0,
    decreases t.len(),
{
    if t.len() > 0 {
        assert(is_digit(t[t.len() - 1]));
        lemma_digits_value_nonneg(t.drop_last());
    }
}

pub proof fn lemma_no_dots(t: Seq<char>)
    requires
        dot_count(t) == 0,
    ensures
        forall|k: int| 0 <= k < t.len() ==> t[k] != '.',
    decreases t.len(),
{
    if t.len() > 0 {
        lemma_no_dots(t.drop_last());
        assert forall|k: int| 0 <= k < t.len() implies t[k] != '.' by {
            if k < t.len() - 1 {
                assert(t[k] == t.drop_last()[k]);
            }
        }
    }
}

/// The value of a digit run never falls as digits are appended.
pub proof fn lemma_digits_value_grows(t: Seq<char>, n: int)
    requires
        all_digits(t),
        0 <= n <= t.len(),
    ensures
        digits_value(t.subrange(0, n)) <= digits_value(t),
    decreases t.len() - n,
{
    if n < t.len() {
        let p = t.subrange(0, n + 1);
        assert(p.drop_last() =~= t.subrange(0, n));
        assert(is_digit(p.last()));
        assert(all_digits(t.subrange(0, n)));
        lemma_digits_value_nonneg(t.subrange(0, n));
        lemma_digits_value_grows(t, n + 1);
    } else {
        assert(t.subrange(0, n) =~= t);
    }
}

/// Reads `text` as a numeric literal by the rule of `number_value`.
pub fn read_number(text: &str) -> (r: Option<NumberRead>)
    ensures
        match number_value(text@) {
            None => r is None,
            Some(NumberValue::Int(v)) => r matches Some(NumberRead::Int(x)) && x == v,
            Some(NumberValue::Float(_)) => r == Some(NumberRead::Float),
        },
{
    let n = text.unicode_len();
    let mut dots: usize = 0;
    let mut shape_ok = true;
    let mut i: usize = 0;
    while i < n
        invariant
            n == text@.len(),
            i <= n,
            dots == dot_count(text@.subrange(0, i as int)),
            dots <= i,
            shape_ok == forall|k: int|
                0 <= k < i ==> is_digit(#[trigger] text@[k]) || text@[k] == '.',
        decreases n - i,
    {
        let c = text.get_char(i);
        proof {
            let p = text@.subrange(0, i + 1);
            assert(p.drop_last() =~= text@.subrange(0, i as int));
        }
        if c == '.' {
            dots = dots + 1;
        } else if !('0' <= c && c <= '9') {
            shape_ok = false;
        }
        i = i + 1;
    }
    assert(text@.subrange(0, n as int) =~= text@);
    if dots > 0 {
        if dots == 1 && shape_ok && n >= 2 {
            return Some(NumberRead::Float);
        }
        return None;
    }
    if n == 0 || !shape_ok {
        return None;
    }
    proof {
        lemma_no_dots(text@);
    }
    assert(all_digits(text@));
    let mut value: i64 = 0;
    let mut j: usize = 0;
    while j < n
        invariant
            n == text@.len(),
            j <= n,
            all_digits(text@),
            dot_count(text@) == 0,
            value == digits_value(text@.subrange(0, j as int)),
            0 <= value <= i32::MAX,
        decreases n - j,
    {
        let c = text.get_char(j);
        proof {
            let p = text@.subrange(0, j + 1);
            assert(p.drop_last() =~= text@.subrange(0, j as int));
            assert(is_digit(c));
        }
        let d = (c as u32 - '0' as u32) as i64;
        value = value * 10 + d;
        j = j + 1;
        assert(value == digits_value(text@.subrange(0, j as int)));
        if value > i32::MAX as i64 {
            proof {
                lemma_digits_value_grows(text@, j as int);
            }
            return None;
        }
    }
    assert(text@.subrange(0, n as int) =~= text@);
    Some(NumberRead::Int(value as i32))
}

/// The outcome of reading a numeric lexeme that is valid.
#[derive(Debug, Clone, Copy, PartialEq, Eq, Structural)]
pub enum NumberRead {
    Int(i32),
    /// A float; its decimal text is the lexeme itself.
    Float,
}

} // verus!
