//! The number tokens of the mesh and material formats: signed decimal
//! indices, which are read to their value, and real-number literals, which
//! are recognised and kept as text.
use crate::text::{decimal, signed_decimal, slice_of, string_of, Span};
use vstd::prelude::*;

verus! {

broadcast use vstd::string::group_string_axioms;

/// Why a token is no index.
#[derive(Clone, Copy, Debug, PartialEq, Eq, Structural)]
pub enum IntError {
    /// The token is empty.
    Empty,
    /// The token holds a character that is no digit, or is a lone sign.
    InvalidDigit,
    /// The value is above `isize::MAX`.
    PosOverflow,
    /// The value is below `isize::MIN`.
    NegOverflow,
}

/// Why a token is no real-number literal.
#[derive(Clone, Copy, Debug, PartialEq, Eq, Structural)]
pub enum FloatError {
    /// The token is empty.
    Empty,
    /// The token is not of the literal grammar.
    Invalid,
}

/// Whether `c` is one of the digits `0` to `9`.
pub open spec fn is_digit(c: char) -> bool {
    0x30 <= c as u32 <= 0x39
}

/// Whether `c` is a plus or a minus sign.
pub open spec fn is_sign(c: char) -> bool {
    c == '+' || c == '-'
}

/// The value of the digit character `c`.
pub open spec fn digit_value(c: char) -> int {
    c as u32 - 0x30
}

/// Reads `digits` from the left onto the value `acc` read so far. Each digit
/// moves the value one decimal place and is added to it, or taken from it
/// where the number is negative. The first character that is no digit, or
/// the first step that leaves the range of `isize`, ends the reading.
pub open spec fn accumulate(digits: Seq<char>, acc: int, negative: bool) -> Result<int, IntError>
    decreases digits.len(),
{
    if digits.len() == 0 {
        Ok(acc)
    } else if !is_digit(digits[0]) {
        Err(IntError::InvalidDigit)
    } else {
        let next = if negative {
            acc * 10 - digit_value(digits[0])
        } else {
            acc * 10 + digit_value(digits[0])
        };
        if next > isize::MAX {
            Err(IntError::PosOverflow)
        } else if next < isize::MIN {
            Err(IntError::NegOverflow)
        } else {
            accumulate(digits.drop_first(), next, negative)
        }
    }
}

/// The value of the index token `s`: an optional sign and then decimal
/// digits, at least one, whose value lies in the range of `isize`.
pub open spec fn parse_int_spec(s: Seq<char>) -> Result<int, IntError> {
    if s.len() == 0 {
        Err(IntError::Empty)
    } else if s.len() == 1 && is_sign(s[0]) {
        Err(IntError::InvalidDigit)
    } else if s[0] == '+' {
        accumulate(s.skip(1), 0, false)
    } else if s[0] == '-' {
        accumulate(s.skip(1), 0, true)
    } else {
        accumulate(s, 0, false)
    }
}

/// A value that was read lies in the range of `isize`.
pub proof fn lemma_accumulate_in_range(digits: Seq<char>, acc: int, negative: bool)
    requires
        isize::MIN <= acc <= isize::MAX,
    ensures
        accumulate(digits, acc, negative) matches Ok(v) ==> isize::MIN <= v <= isize::MAX,
    decreases digits.len(),
{
    if digits.len() > 0 && is_digit(digits[0]) {
        let next = if negative {
            acc * 10 - digit_value(digits[0])
        } else {
            acc * 10 + digit_value(digits[0])
        };
        if isize::MIN <= next <= isize::MAX {
            lemma_accumulate_in_range(digits.drop_first(), next, negative);
        }
    }
}

/// Reading a text with one more digit at its end is reading the text and
/// then the digit.
pub proof fn lemma_accumulate_push(digits: Seq<char>, c: char, acc: int, negative: bool)
    requires
        is_digit(c),
    ensures
        accumulate(digits.push(c), acc, negative) == match accumulate(digits, acc, negative) {
            Ok(v) => accumulate(seq![c], v, negative),
            Err(e) => Err(e),
        },
    decreases digits.len(),
{
    let longer = digits.push(c);
    if digits.len() == 0 {
        assert(longer =~= seq![c]);
    } else {
        assert(longer[0] == digits[0]);
        assert(longer.drop_first() =~= digits.drop_first().push(c));
        if is_digit(digits[0]) {
            let next = if negative {
                acc * 10 - digit_value(digits[0])
            } else {
                acc * 10 + digit_value(digits[0])
            };
            if isize::MIN <= next <= isize::MAX {
                lemma_accumulate_push(digits.drop_first(), c, next, negative);
            }
        }
    }
}

/// The digits of `m` spell `m`, or its negative where the number is read as
/// a negative one.
pub proof fn lemma_accumulate_decimal(m: nat, negative: bool)
    requires
        negative ==> m <= -isize::MIN,
        !negative ==> m <= isize::MAX,
    ensures
        accumulate(decimal(m), 0, negative) == Ok::<int, IntError>(
            if negative {
                -(m as int)
            } else {
                m as int
            },
        ),
    decreases m,
{
    let last = crate::text::digit_char((m % 10) as int);
    assert(is_digit(last) && digit_value(last) == m % 10);
    if m < 10 {
        assert(decimal(m) =~= seq![last]);
        lemma_accumulate_single(last, 0, negative);
    } else {
        lemma_accumulate_decimal(m / 10, negative);
        lemma_accumulate_push(decimal(m / 10), last, 0, negative);
        lemma_accumulate_single(
            last,
            if negative {
                -((m / 10) as int)
            } else {
                (m / 10) as int
            },
            negative,
        );
    }
}

/// Reading one digit onto the value `acc`.
pub proof fn lemma_accumulate_single(c: char, acc: int, negative: bool)
    requires
        is_digit(c),
    ensures
        accumulate(seq![c], acc, negative) == {
            let next = if negative {
                acc * 10 - digit_value(c)
            } else {
                acc * 10 + digit_value(c)
            };
            if next > isize::MAX {
                Err::<int, IntError>(IntError::PosOverflow)
            } else if next < isize::MIN {
                Err::<int, IntError>(IntError::NegOverflow)
            } else {
                Ok::<int, IntError>(next)
            }
        },
{
    let s = seq![c];
    assert(s.len() == 1 && s[0] == c);
    assert(s.drop_first() =~= Seq::<char>::empty());
    let next = if negative {
        acc * 10 - digit_value(c)
    } else {
        acc * 10 + digit_value(c)
    };
    assert(accumulate(Seq::<char>::empty(), next, negative) == Ok::<int, IntError>(next));
}

/// A whole number that is written out and read back is itself.
pub proof fn lemma_decimal_round_trip(n: int)
    requires
        isize::MIN <= n <= isize::MAX,
    ensures
        parse_int_spec(signed_decimal(n)) == Ok::<int, IntError>(n),
{
    if n < 0 {
        let m = (-n) as nat;
        lemma_accumulate_decimal(m, true);
        lemma_decimal_starts_with_digit(m);
        let s = signed_decimal(n);
        assert(s[0] == '-');
        assert(s.skip(1) =~= decimal(m));
    } else {
        lemma_accumulate_decimal(n as nat, false);
        lemma_decimal_starts_with_digit(n as nat);
    }
}

/// A number written out has a digit or more, and digits only.
pub proof fn lemma_decimal_starts_with_digit(m: nat)
    ensures
        decimal(m).len() >= 1,
        forall|i: int| 0 <= i < decimal(m).len() ==> is_digit(#[trigger] decimal(m)[i]),
    decreases m,
{
    let last = crate::text::digit_char((m % 10) as int);
    assert(is_digit(last));
    if m >= 10 {
        lemma_decimal_starts_with_digit(m / 10);
    }
}

/// Reads the index token `s`.
pub fn parse_int(s: &[char]) -> (r: Result<isize, IntError>)
    ensures
        match r {
            Ok(v) => parse_int_spec(s@) == Ok::<int, IntError>(v as int),
            Err(e) => parse_int_spec(s@) == Err::<int, IntError>(e),
        },
{
    if s.len() == 0 {
        return Err(IntError::Empty);
    }
    if s.len() == 1 && (s[0] == '+' || s[0] == '-') {
        return Err(IntError::InvalidDigit);
    }
    let negative = s[0] == '-';
    let mut i: usize = if s[0] == '+' || s[0] == '-' {
        1
    } else {
        0
    };
    let mut acc: isize = 0;
    proof {
        assert(s@.skip(0) =~= s@);
    }
    while i < s.len()
        invariant
            i <= s@.len(),
            parse_int_spec(s@) == accumulate(s@.skip(i as int), acc as int, negative),
            negative ==> acc <= 0,
            !negative ==> acc >= 0,
        decreases s@.len() - i,
    {
        let c = s[i];
        let u: u32 = c as u32;
        proof {
            assert(s@.skip(i as int).drop_first() =~= s@.skip(i as int + 1));
            assert(s@.skip(i as int)[0] == c);
        }
        if u < 0x30 || u > 0x39 {
            return Err(IntError::InvalidDigit);
        }
        let d: isize = (u - 0x30) as isize;
        let shifted = acc.checked_mul(10);
        let next = match shifted {
            Some(m) => if negative {
                m.checked_sub(d)
            } else {
                m.checked_add(d)
            },
            None => None,
        };
        match next {
            Some(v) => {
                acc = v;
            },
            None => {
                if negative {
                    return Err(IntError::NegOverflow);
                } else {
                    return Err(IntError::PosOverflow);
                }
            },
        }
        i = i + 1;
    }
    Ok(acc)
}

/// The position of the first character at or after `from` that is no digit;
/// the length of `s` where every one of them is a digit.
pub open spec fn digit_run(s: Seq<char>, from: int) -> int
    decreases s.len() - from,
{
    if 0 <= from < s.len() && is_digit(s[from]) {
        digit_run(s, from + 1)
    } else {
        from
    }
}

/// Whether `c` is the lower-case letter `letter` or its capital.
pub open spec fn same_letter(c: char, letter: char) -> bool {
    c == letter || c as u32 + 0x20 == letter as u32
}

/// Whether `s` spells the lower-case word `word`, capitals allowed.
pub open spec fn spells(s: Seq<char>, word: Seq<char>) -> bool {
    &&& s.len() == word.len()
    &&& forall|i: int| 0 <= i < s.len() ==> same_letter(s[i], #[trigger] word[i])
}

/// Whether `s` names infinity or not-a-number.
pub open spec fn is_special(s: Seq<char>) -> bool {
    spells(s, "inf"@) || spells(s, "infinity"@) || spells(s, "nan"@)
}

/// Whether an exponent starts at `b` and runs to the end of `s`: the letter
/// `e`, an optional sign, and digits, at least one.
pub open spec fn is_exponent_at(s: Seq<char>, b: int) -> bool {
    let k = if b + 1 < s.len() && is_sign(s[b + 1]) {
        b + 2
    } else {
        b + 1
    };
    &&& 0 <= b < s.len()
    &&& (s[b] == 'e' || s[b] == 'E')
    &&& k < s.len()
    &&& digit_run(s, k) == s.len()
}

/// Whether `s` is an unsigned decimal number: digits with at most one point
/// among them, at least one digit in all, and then an optional exponent.
pub open spec fn is_number(s: Seq<char>) -> bool {
    let a = digit_run(s, 0);
    let has_point = a < s.len() && s[a] == '.';
    let b = if has_point {
        digit_run(s, a + 1)
    } else {
        a
    };
    let digits = if has_point {
        b - 1
    } else {
        a
    };
    &&& digits > 0
    &&& (b == s.len() || is_exponent_at(s, b))
}

/// Whether `s` is a real-number literal: an optional sign, and then a special
/// name or a decimal number.
pub open spec fn is_float_literal(s: Seq<char>) -> bool {
    let body = if s.len() > 0 && is_sign(s[0]) {
        s.skip(1)
    } else {
        s
    };
    is_special(body) || is_number(body)
}

/// What checking the token `s` against the literal grammar gives.
pub open spec fn check_float_spec(s: Seq<char>) -> Result<(), FloatError> {
    if s.len() == 0 {
        Err(FloatError::Empty)
    } else if is_float_literal(s) {
        Ok(())
    } else {
        Err(FloatError::Invalid)
    }
}

fn scan_digits(s: &[char], from: usize) -> (r: usize)
    requires
        from <= s@.len(),
    ensures
        from <= r <= s@.len(),
        r == digit_run(s@, from as int),
{
    let mut i: usize = from;
    while i < s.len() && 0x30 <= s[i] as u32 && s[i] as u32 <= 0x39
        invariant
            from <= i <= s@.len(),
            digit_run(s@, from as int) == digit_run(s@, i as int),
        decreases s@.len() - i,
    {
        i = i + 1;
    }
    i
}

fn spells_word(s: &[char], word: &str) -> (r: bool)
    ensures
        r == spells(s@, word@),
{
    let mut i: usize = 0;
    for c in it: word.chars()
        invariant
            i == it.index(),
            it.seq() == word@,
            i <= s@.len(),
            forall|k: int| 0 <= k < i ==> same_letter(s@[k], #[trigger] word@[k]),
    {
        if i >= s.len() {
            return false;
        }
        let x = s[i];
        if !(x == c || x as u32 as u64 + 0x20 == c as u32 as u64) {
            assert(!same_letter(s@[i as int], word@[i as int]));
            return false;
        }
        i = i + 1;
    }
    i == s.len()
}

fn check_number(s: &[char]) -> (r: bool)
    ensures
        r == is_number(s@),
{
    let a = scan_digits(s, 0);
    let has_point = a < s.len() && s[a] == '.';
    let b = if has_point {
        scan_digits(s, a + 1)
    } else {
        a
    };
    let digits = if has_point {
        b - 1
    } else {
        a
    };
    if digits == 0 {
        return false;
    }
    if b == s.len() {
        return true;
    }
    let e = s[b];
    if !(e == 'e' || e == 'E') {
        return false;
    }
    let k = if b + 1 < s.len() && (s[b + 1] == '+' || s[b + 1] == '-') {
        b + 2
    } else {
        b + 1
    };
    if k >= s.len() {
        return false;
    }
    scan_digits(s, k) == s.len()
}

/// Checks the token `s` against the grammar of real-number literals.
pub fn check_float(s: &[char]) -> (r: Result<(), FloatError>)
    ensures
        r == check_float_spec(s@),
{
    if s.len() == 0 {
        return Err(FloatError::Empty);
    }
    let from: usize = if s[0] == '+' || s[0] == '-' {
        1
    } else {
        0
    };
    let body = slice_of(s, Span { start: from, end: s.len() });
    proof {
        assert(s@.subrange(from as int, s@.len() as int) =~= s@.skip(from as int));
        assert(s@.skip(0) =~= s@);
    }
    if spells_word(body, "inf") || spells_word(body, "infinity") || spells_word(body, "nan")
        || check_number(body) {
        Ok(())
    } else {
        Err(FloatError::Invalid)
    }
}

/// A real number as it is written: the text of a literal.
#[derive(Debug)]
pub struct Number {
    pub text: String,
}

impl View for Number {
    type V = Seq<char>;

    open spec fn view(&self) -> Seq<char> {
        self.text@
    }
}

impl Clone for Number {
    fn clone(&self) -> (r: Self)
        ensures
            r@ == self@,
    {
        Number { text: self.text.clone() }
    }
}

impl Number {
    /// The text is of the literal grammar.
    pub open spec fn wf(&self) -> bool {
        is_float_literal(self@)
    }

    /// The number that the token `s` writes, where it is a literal.
    pub fn parse(s: &[char]) -> (r: Result<Number, FloatError>)
        ensures
            match r {
                Ok(n) => check_float_spec(s@) == Ok::<(), FloatError>(()) && n@ == s@ && n.wf(),
                Err(e) => check_float_spec(s@) == Err::<(), FloatError>(e),
            },
    {
        match check_float(s) {
            Ok(()) => Ok(Number { text: string_of(s) }),
            Err(e) => Err(e),
        }
    }

    /// The number zero.
    pub fn zero() -> (r: Number)
        ensures
            r@ == "0"@,
            r.wf(),
    {
        let r = Number { text: "0".to_owned() };
        proof {
            lemma_zero_and_one_are_literals();
        }
        r
    }

    /// The number one.
    pub fn one() -> (r: Number)
        ensures
            r@ == "1"@,
            r.wf(),
    {
        let r = Number { text: "1".to_owned() };
        proof {
            lemma_zero_and_one_are_literals();
        }
        r
    }
}

/// The texts `0` and `1` are real-number literals.
pub proof fn lemma_zero_and_one_are_literals()
    ensures
        is_float_literal("0"@),
        is_float_literal("1"@),
{
    reveal_strlit("0");
    reveal_strlit("1");
    let z = "0"@;
    let o = "1"@;
    assert(z.len() == 1 && z[0] == '0');
    assert(o.len() == 1 && o[0] == '1');
    assert(digit_run(z, 1) == 1);
    assert(digit_run(z, 0) == 1);
    assert(digit_run(o, 1) == 1);
    assert(digit_run(o, 0) == 1);
    assert(is_number(z));
    assert(is_number(o));
}

} // verus!
