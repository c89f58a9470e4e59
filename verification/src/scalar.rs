//! Real numbers as they travel between nodes: decimal literals.
//!
//! The library never computes with a real. It recognises one, keeps its
//! text, and writes it back; what the number is worth is for the embedding
//! program to say.

use crate::ascii::{
    DOT, LOWER_A, LOWER_E, LOWER_F, LOWER_I, LOWER_N, LOWER_T, LOWER_Y, LOWER_Z, MINUS, NINE, PLUS,
    UPPER_A, UPPER_Z, ZERO,
};
use vstd::prelude::*;

verus! {

pub open spec fn is_digit(b: u8) -> bool {
    ZERO <= b <= NINE
}

pub open spec fn is_sign(b: u8) -> bool {
    b == PLUS || b == MINUS
}

/// The lower-case form of an ASCII letter; any other byte unchanged.
pub open spec fn lower(b: u8) -> u8 {
    if UPPER_A <= b <= UPPER_Z {
        (b + 32) as u8
    } else {
        b
    }
}

/// Whether every byte of `s` from `lo` up to `hi` is a digit.
pub open spec fn digits_in(s: Seq<u8>, lo: int, hi: int) -> bool {
    forall|i: int| lo <= i < hi ==> is_digit(#[trigger] s[i])
}

/// Whether `s` from `lo` to its end spells `word`, letter case aside.
pub open spec fn word_at(s: Seq<u8>, lo: int, word: Seq<u8>) -> bool {
    &&& s.len() - lo == word.len()
    &&& forall|i: int| 0 <= i < word.len() ==> lower(#[trigger] s[lo + i]) == word[i]
}

/// `digit+`, `digit+ '.' digit*` or `digit* '.' digit+`, from `lo` up to `hi`.
pub open spec fn mantissa_in(s: Seq<u8>, lo: int, hi: int) -> bool {
    ||| lo < hi && digits_in(s, lo, hi)
    ||| exists|dot: int|
        lo <= dot < hi && hi - lo > 1 && #[trigger] s[dot] == DOT && digits_in(s, lo, dot)
            && digits_in(s, dot + 1, hi)
}

/// `sign? digit+`, from `lo` up to `hi`.
pub open spec fn exponent_in(s: Seq<u8>, lo: int, hi: int) -> bool {
    let digits = if lo < hi && is_sign(s[lo]) {
        lo + 1
    } else {
        lo
    };
    digits < hi && digits_in(s, digits, hi)
}

/// A mantissa, or a mantissa, the letter `e` and an exponent, from `lo` up to
/// `hi`.
pub open spec fn number_in(s: Seq<u8>, lo: int, hi: int) -> bool {
    ||| mantissa_in(s, lo, hi)
    ||| exists|e: int|
        lo <= e < hi && lower(#[trigger] s[e]) == LOWER_E && mantissa_in(s, lo, e) && exponent_in(
            s,
            e + 1,
            hi,
        )
}

pub open spec fn word_inf() -> Seq<u8> {
    seq![LOWER_I, LOWER_N, LOWER_F]
}

pub open spec fn word_infinity() -> Seq<u8> {
    seq![LOWER_I, LOWER_N, LOWER_F, LOWER_I, LOWER_N, LOWER_I, LOWER_T, LOWER_Y]
}

pub open spec fn word_nan() -> Seq<u8> {
    seq![LOWER_N, LOWER_A, LOWER_N]
}

/// Where the body of a literal starts: behind its sign, if it has one.
pub open spec fn body_start(s: Seq<u8>) -> int {
    if s.len() > 0 && is_sign(s[0]) {
        1
    } else {
        0
    }
}

/// The literals of real numbers: an optional sign, then `inf`, `infinity` or
/// `nan` in any letter case, or a decimal number with an optional exponent.
pub open spec fn is_real_literal(s: Seq<u8>) -> bool {
    ||| word_at(s, body_start(s), word_inf())
    ||| word_at(s, body_start(s), word_infinity())
    ||| word_at(s, body_start(s), word_nan())
    ||| number_in(s, body_start(s), s.len() as int)
}

/// The literal `0`.
pub open spec fn literal_zero() -> Seq<u8> {
    seq![ZERO]
}

/// The bytes that a real literal can hold.
pub open spec fn is_literal_byte(b: u8) -> bool {
    ||| is_digit(b)
    ||| is_sign(b)
    ||| b == DOT
    ||| LOWER_A <= lower(b) <= LOWER_Z
}

/// A real literal is not empty and holds digits, signs, dots and letters
/// only: no bracket and no separator of the wire grammar.
pub proof fn lemma_literal_bytes(s: Seq<u8>)
    requires
        is_real_literal(s),
    ensures
        s.len() > 0,
        forall|i: int| 0 <= i < s.len() ==> is_literal_byte(#[trigger] s[i]),
{
    let lo = body_start(s);
    let hi = s.len() as int;
    if word_at(s, lo, word_inf()) || word_at(s, lo, word_infinity()) || word_at(
        s,
        lo,
        word_nan(),
    ) {
        let word = if word_at(s, lo, word_inf()) {
            word_inf()
        } else if word_at(s, lo, word_infinity()) {
            word_infinity()
        } else {
            word_nan()
        };
        assert forall|i: int| 0 <= i < s.len() implies is_literal_byte(#[trigger] s[i]) by {
            if i >= lo {
                assert(lower(s[lo + (i - lo)]) == word[i - lo]);
            }
        }
    } else {
        assert(number_in(s, lo, hi));
        assert forall|i: int| 0 <= i < s.len() implies is_literal_byte(#[trigger] s[i]) by {
            if i >= lo {
                lemma_number_bytes(s, lo, hi, i);
            }
        }
    }
}

proof fn lemma_mantissa_bytes(s: Seq<u8>, lo: int, hi: int, i: int)
    requires
        mantissa_in(s, lo, hi),
        lo <= i < hi,
    ensures
        is_digit(s[i]) || s[i] == DOT,
{
}

proof fn lemma_number_bytes(s: Seq<u8>, lo: int, hi: int, i: int)
    requires
        number_in(s, lo, hi),
        0 <= lo <= i < hi <= s.len(),
    ensures
        is_literal_byte(s[i]),
{
    if mantissa_in(s, lo, hi) {
        lemma_mantissa_bytes(s, lo, hi, i);
    } else {
        let e = choose|e: int|
            lo <= e < hi && lower(#[trigger] s[e]) == LOWER_E && mantissa_in(s, lo, e)
                && exponent_in(s, e + 1, hi);
        if i < e {
            lemma_mantissa_bytes(s, lo, e, i);
        }
    }
}

/// The end of the run of digits of `s` that starts at `from`.
fn scan_digits(s: &[u8], from: usize) -> (end: usize)
    requires
        from <= s.len(),
    ensures
        from <= end <= s.len(),
        digits_in(s@, from as int, end as int),
        end < s.len() ==> !is_digit(s@[end as int]),
{
    let mut end: usize = from;
    while end < s.len() && ZERO <= s[end] && s[end] <= NINE
        invariant
            from <= end <= s.len(),
            digits_in(s@, from as int, end as int),
        decreases s.len() - end,
    {
        end += 1;
    }
    end
}

fn to_lower(b: u8) -> (l: u8)
    ensures
        l == lower(b),
{
    if UPPER_A <= b && b <= UPPER_Z {
        b + 32
    } else {
        b
    }
}

/// Whether `s` from `lo` to its end spells `word`, letter case aside.
fn spells(s: &[u8], lo: usize, word: &[u8]) -> (ok: bool)
    requires
        lo <= s.len(),
    ensures
        ok == word_at(s@, lo as int, word@),
{
    if s.len() - lo != word.len() {
        return false;
    }
    let mut i: usize = 0;
    while i < word.len()
        invariant
            lo <= s.len(),
            s.len() - lo == word.len(),
            i <= word.len(),
            forall|j: int| 0 <= j < i ==> lower(#[trigger] s@[lo + j]) == word@[j],
        decreases word.len() - i,
    {
        if to_lower(s[lo + i]) != word[i] {
            return false;
        }
        i += 1;
    }
    true
}

/// Whether `s` is the literal of a real number.
pub fn recognise(s: &[u8]) -> (ok: bool)
    ensures
        ok == is_real_literal(s@),
{
    let hi: usize = s.len();
    let lo: usize = if hi > 0 && (s[0] == PLUS || s[0] == MINUS) {
        1
    } else {
        0
    };
    let inf: [u8; 3] = [LOWER_I, LOWER_N, LOWER_F];
    let infinity: [u8; 8] = [LOWER_I, LOWER_N, LOWER_F, LOWER_I, LOWER_N, LOWER_I, LOWER_T, LOWER_Y];
    let nan: [u8; 3] = [LOWER_N, LOWER_A, LOWER_N];
    assert(inf@ =~= word_inf());
    assert(infinity@ =~= word_infinity());
    assert(nan@ =~= word_nan());
    if spells(s, lo, inf.as_slice()) || spells(s, lo, infinity.as_slice()) || spells(
        s,
        lo,
        nan.as_slice(),
    ) {
        return true;
    }
    let whole: usize = scan_digits(s, lo);
    let dotted: bool = whole < hi && s[whole] == DOT;
    let end: usize = if dotted {
        scan_digits(s, whole + 1)
    } else {
        whole
    };
    let sound: bool = if dotted {
        end - lo > 1
    } else {
        end > lo
    };
    proof {
        lemma_mantissa_extent(s@, lo as int, whole as int, end as int);
    }
    if !sound {
        return false;
    }
    if end == hi {
        return true;
    }
    if to_lower(s[end]) != LOWER_E {
        return false;
    }
    let signed: bool = end + 1 < hi && (s[end + 1] == PLUS || s[end + 1] == MINUS);
    let digits: usize = if signed {
        end + 2
    } else {
        end + 1
    };
    let last: usize = scan_digits(s, digits);
    let ok: bool = last > digits && last == hi;
    proof {
        if ok {
            assert(exponent_in(s@, end + 1, hi as int));
            assert(mantissa_in(s@, lo as int, end as int));
            assert(lower(s@[end as int]) == LOWER_E);
        } else {
            assert(!exponent_in(s@, end + 1, hi as int));
        }
    }
    ok
}

/// Where a mantissa that starts at `lo` can end. With `whole` the end of the
/// digits from `lo`, and `end` the end of the digits behind the dot at
/// `whole`, or `whole` itself where no dot stands there: a mantissa from `lo`
/// ends at `end` or before a byte that is a digit or the dot, and no number
/// from `lo` has its `e` before `end`.
proof fn lemma_mantissa_extent(s: Seq<u8>, lo: int, whole: int, end: int)
    requires
        0 <= lo <= whole <= end <= s.len(),
        digits_in(s, lo, whole),
        whole < s.len() ==> !is_digit(s[whole]),
        whole < s.len() && s[whole] == DOT ==> digits_in(s, whole + 1, end) && whole < end && (end
            < s.len() ==> !is_digit(s[end])),
        !(whole < s.len() && s[whole] == DOT) ==> end == whole,
    ensures
        forall|m: int| lo <= m <= s.len() && #[trigger] mantissa_in(s, lo, m) ==> m <= end,
        mantissa_in(s, lo, end) <==> (if whole < s.len() && s[whole] == DOT {
            end - lo > 1
        } else {
            end > lo
        }),
        forall|i: int| lo <= i < end ==> is_digit(#[trigger] s[i]) || s[i] == DOT,
        forall|h: int|
            end <= h <= s.len() && #[trigger] number_in(s, lo, h) ==> mantissa_in(s, lo, end) && (h
                == end || (lower(s[end]) == LOWER_E && exponent_in(s, end + 1, h))),
{
    let dotted = whole < s.len() && s[whole] == DOT;
    assert forall|m: int| lo <= m <= s.len() && #[trigger] mantissa_in(s, lo, m) implies m
        <= end by {
        if lo < m && digits_in(s, lo, m) {
            if m > whole {
                assert(is_digit(s[whole]));
            }
        } else {
            let dot = choose|dot: int|
                lo <= dot < m && m - lo > 1 && #[trigger] s[dot] == DOT && digits_in(s, lo, dot)
                    && digits_in(s, dot + 1, m);
            if dot > whole {
                assert(is_digit(s[whole]));
            }
            if dot < whole {
                assert(is_digit(s[dot]));
            }
            if m > end {
                assert(is_digit(s[end]));
            }
        }
    }
    if dotted {
        if end - lo > 1 {
            assert(s[whole] == DOT);
        }
        if mantissa_in(s, lo, end) {
            if lo < end && digits_in(s, lo, end) {
                assert(is_digit(s[whole]));
            }
        }
    } else {
        if mantissa_in(s, lo, end) && !(lo < end && digits_in(s, lo, end)) {
            let dot = choose|dot: int|
                lo <= dot < end && end - lo > 1 && #[trigger] s[dot] == DOT && digits_in(
                    s,
                    lo,
                    dot,
                ) && digits_in(s, dot + 1, end);
            assert(is_digit(s[dot]));
        }
    }
    assert forall|i: int| lo <= i < end implies is_digit(#[trigger] s[i]) || s[i] == DOT by {
        if i > whole {
            assert(digits_in(s, whole + 1, end));
        }
    }
    assert forall|h: int| end <= h <= s.len() && #[trigger] number_in(s, lo, h) implies mantissa_in(
        s,
        lo,
        end,
    ) && (h == end || (lower(s[end]) == LOWER_E && exponent_in(s, end + 1, h))) by {
        if mantissa_in(s, lo, h) {
            assert(h <= end);
        } else {
            let e = choose|e: int|
                lo <= e < h && lower(#[trigger] s[e]) == LOWER_E && mantissa_in(s, lo, e)
                    && exponent_in(s, e + 1, h);
            assert(e <= end);
            if e < end {
                assert(is_digit(s[e]) || s[e] == DOT);
            }
        }
    }
}

/// A real number, kept as the literal that denotes it.
#[derive(Debug)]
pub struct Scalar {
    text: Vec<u8>,
}

impl View for Scalar {
    type V = Seq<u8>;

    closed spec fn view(&self) -> Seq<u8> {
        self.text@
    }
}

impl Scalar {
    /// The text is the literal of a real number.
    pub open spec fn wf(&self) -> bool {
        is_real_literal(self@)
    }

    /// The scalar that `text` denotes, if it is the literal of a real number.
    pub fn parse(text: &[u8]) -> (scalar: Option<Scalar>)
        ensures
            scalar is Some <==> is_real_literal(text@),
            scalar is Some ==> scalar.unwrap()@ == text@,
    {
        if recognise(text) {
            let mut owned: Vec<u8> = Vec::new();
            owned.extend_from_slice(text);
            assert(owned@ =~= text@);
            Some(Scalar { text: owned })
        } else {
            None
        }
    }

    /// The literal.
    pub fn as_bytes(&self) -> (text: &[u8])
        ensures
            text@ == self@,
    {
        self.text.as_slice()
    }

    /// A scalar with the same literal.
    pub fn duplicate(&self) -> (copy: Scalar)
        ensures
            copy@ == self@,
    {
        let mut text: Vec<u8> = Vec::new();
        text.extend_from_slice(self.text.as_slice());
        assert(text@ =~= self.text@);
        Scalar { text }
    }

    /// Zero, written `0`.
    pub fn zero() -> (scalar: Scalar)
        ensures
            scalar@ == literal_zero(),
            scalar.wf(),
    {
        let text: Vec<u8> = vec![ZERO];
        assert(text@ =~= seq![ZERO]);
        assert(digits_in(text@, 0, 1));
        assert(mantissa_in(text@, 0, 1));
        Scalar { text }
    }

}

} // verus!
