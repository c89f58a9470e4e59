//! Byte strings: stripping, splitting at a separator, and unsigned decimal
//! numbers.

use crate::ascii::{NINE, PLUS, ZERO};
use crate::scalar::{digits_in, is_digit};
use vstd::prelude::*;

verus! {

/// Whether `s` holds the byte `d`.
pub open spec fn holds(s: Seq<u8>, d: u8) -> bool {
    exists|i: int| 0 <= i < s.len() && s[i] == d
}

/// The pieces into which the occurrences of `d` cut `s`: one more than there
/// are occurrences, so at least one, and empty where two occurrences touch or
/// one stands at either end.
pub open spec fn split(s: Seq<u8>, d: u8) -> Seq<Seq<u8>>
    decreases s.len(),
{
    if s.len() == 0 {
        seq![Seq::<u8>::empty()]
    } else if s.last() == d {
        split(s.drop_last(), d).push(Seq::<u8>::empty())
    } else {
        let pieces = split(s.drop_last(), d);
        pieces.drop_last().push(pieces.last().push(s.last()))
    }
}

/// The texts of a vector of byte strings.
pub open spec fn texts(v: Seq<Vec<u8>>) -> Seq<Seq<u8>> {
    Seq::new(v.len(), |i: int| v[i]@)
}

/// The number that the digits of `s` denote in base ten.
pub open spec fn decimal_value(s: Seq<u8>) -> nat
    decreases s.len(),
{
    if s.len() == 0 {
        0
    } else {
        decimal_value(s.drop_last()) * 10 + (s.last() - ZERO) as nat
    }
}

/// The digits of `n` in base ten, without leading zeros.
pub open spec fn decimal_digits(n: nat) -> Seq<u8>
    decreases n,
{
    if n < 10 {
        seq![(ZERO + n) as u8]
    } else {
        decimal_digits(n / 10).push((ZERO + n % 10) as u8)
    }
}

/// The digits of an unsigned literal: all of it but a leading `+`.
pub open spec fn unsigned_digits(s: Seq<u8>) -> Seq<u8> {
    if s.len() > 0 && s[0] == PLUS {
        s.skip(1)
    } else {
        s
    }
}

/// The number that `s` denotes, if `s` is an optional `+` and then one digit
/// or more, and the number is at most `max`.
pub open spec fn parse_unsigned(s: Seq<u8>, max: nat) -> Option<nat> {
    let digits = unsigned_digits(s);
    if digits.len() > 0 && digits_in(digits, 0, digits.len() as int) && decimal_value(digits)
        <= max {
        Some(decimal_value(digits))
    } else {
        None
    }
}

/// A string without the separator is its own single piece.
pub proof fn lemma_split_plain(s: Seq<u8>, d: u8)
    requires
        !holds(s, d),
    ensures
        split(s, d) == seq![s],
    decreases s.len(),
{
    if s.len() == 0 {
        assert(s =~= Seq::<u8>::empty());
    } else {
        assert(s.last() == s[s.len() - 1]);
        assert(!holds(s.drop_last(), d)) by {
            if holds(s.drop_last(), d) {
                let i = choose|i: int| 0 <= i < s.drop_last().len() && s.drop_last()[i] == d;
                assert(s[i] == d);
            }
        }
        lemma_split_plain(s.drop_last(), d);
        let pieces = split(s.drop_last(), d);
        assert(pieces.drop_last() =~= Seq::<Seq<u8>>::empty());
        assert(pieces.last().push(s.last()) =~= s);
        assert(pieces.drop_last().push(s) =~= seq![s]);
    }
}

/// Behind a separator, a string without the separator is one more piece.
pub proof fn lemma_split_join(head: Seq<u8>, d: u8, tail: Seq<u8>)
    requires
        !holds(tail, d),
    ensures
        split(head + seq![d] + tail, d) == split(head, d).push(tail),
    decreases tail.len(),
{
    let whole = head + seq![d] + tail;
    if tail.len() == 0 {
        assert(whole.drop_last() =~= head);
        assert(tail =~= Seq::<u8>::empty());
    } else {
        assert(tail.last() == tail[tail.len() - 1]);
        assert(!holds(tail.drop_last(), d)) by {
            if holds(tail.drop_last(), d) {
                let i = choose|i: int| 0 <= i < tail.drop_last().len() && tail.drop_last()[i] == d;
                assert(tail[i] == d);
            }
        }
        lemma_split_join(head, d, tail.drop_last());
        assert(whole.drop_last() =~= head + seq![d] + tail.drop_last());
        assert(whole.last() == tail.last());
        let pieces = split(whole.drop_last(), d);
        assert(pieces.drop_last() =~= split(head, d));
        assert(pieces.last().push(tail.last()) =~= tail);
    }
}

/// The digits of `n` are digits, at least one, and denote `n`.
pub proof fn lemma_decimal_roundtrip(n: nat)
    ensures
        decimal_digits(n).len() > 0,
        digits_in(decimal_digits(n), 0, decimal_digits(n).len() as int),
        decimal_value(decimal_digits(n)) == n,
    decreases n,
{
    if n < 10 {
        let s = seq![(ZERO + n) as u8];
        assert(s.drop_last() =~= Seq::<u8>::empty());
        assert(decimal_value(s.drop_last()) == 0);
    } else {
        lemma_decimal_roundtrip(n / 10);
        let s = decimal_digits(n);
        assert(s.drop_last() =~= decimal_digits(n / 10));
        assert forall|i: int| 0 <= i < s.len() implies is_digit(#[trigger] s[i]) by {
            if i < s.len() - 1 {
                assert(s[i] == decimal_digits(n / 10)[i]);
            }
        }
    }
}

/// The digits of a number at most `max` parse back to it.
pub proof fn lemma_unsigned_roundtrip(n: nat, max: nat)
    requires
        n <= max,
    ensures
        parse_unsigned(decimal_digits(n), max) == Some(n),
{
    lemma_decimal_roundtrip(n);
    assert(is_digit(decimal_digits(n)[0]));
}

/// The value of the digits read so far never exceeds that of all of them.
proof fn lemma_decimal_monotone(s: Seq<u8>, i: int)
    requires
        0 <= i <= s.len(),
        digits_in(s, 0, s.len() as int),
    ensures
        decimal_value(s.take(i)) <= decimal_value(s),
    decreases s.len() - i,
{
    if i < s.len() {
        lemma_decimal_monotone(s, i + 1);
        assert(s.take(i + 1).drop_last() =~= s.take(i));
        assert(is_digit(s[i]));
    } else {
        assert(s.take(i) =~= s);
    }
}

/// The pieces into which the occurrences of `d` cut `s`.
pub fn split_all(s: &[u8], d: u8) -> (pieces: Vec<Vec<u8>>)
    ensures
        texts(pieces@) == split(s@, d),
        pieces@.len() > 0,
{
    let mut pieces: Vec<Vec<u8>> = Vec::new();
    let mut current: Vec<u8> = Vec::new();
    let mut i: usize = 0;
    while i < s.len()
        invariant
            i <= s.len(),
            texts(pieces@).push(current@) == split(s@.take(i as int), d),
        decreases s.len() - i,
    {
        proof {
            assert(s@.take(i + 1).drop_last() =~= s@.take(i as int));
            assert(s@.take(i + 1).last() == s@[i as int]);
            assert(texts(pieces@).push(current@).drop_last() =~= texts(pieces@));
        }
        if s[i] == d {
            let ghost before = texts(pieces@).push(current@);
            pieces.push(current);
            current = Vec::new();
            assert(texts(pieces@) =~= before);
        } else {
            current.push(s[i]);
        }
        i += 1;
    }
    assert(s@.take(i as int) =~= s@);
    let ghost before = texts(pieces@).push(current@);
    pieces.push(current);
    assert(texts(pieces@) =~= before);
    pieces
}

/// `s` without its last byte, if that is a carriage return.
pub open spec fn without_return(s: Seq<u8>) -> Seq<u8> {
    if s.len() > 0 && s.last() == 13 {
        s.drop_last()
    } else {
        s
    }
}

/// The lines of `s`: what stands before each line feed, less a carriage
/// return that ends it, and what stands behind the last line feed, if
/// anything does.
pub open spec fn lines(s: Seq<u8>) -> Seq<Seq<u8>> {
    let pieces = split(s, 10);
    let ended = Seq::new((pieces.len() - 1) as nat, |i: int| without_return(pieces[i]));
    if pieces.last().len() == 0 {
        ended
    } else {
        ended.push(pieces.last())
    }
}

/// The lines of `s`.
pub fn split_lines(s: &[u8]) -> (out: Vec<Vec<u8>>)
    ensures
        texts(out@) == lines(s@),
{
    let mut pieces: Vec<Vec<u8>> = split_all(s, 10);
    let ghost all = texts(pieces@);
    let last: Vec<u8> = pieces.pop().unwrap();
    assert(texts(pieces@) =~= all.drop_last());
    assert(last@ == all.last());
    let mut i: usize = 0;
    while i < pieces.len()
        invariant
            i <= pieces@.len(),
            pieces@.len() == all.len() - 1,
            forall|j: int| 0 <= j < i ==> (#[trigger] pieces@[j])@ == without_return(all[j]),
            forall|j: int| i <= j < pieces@.len() ==> (#[trigger] pieces@[j])@ == all[j],
        decreases pieces@.len() - i,
    {
        let n: usize = pieces[i].len();
        if n > 0 && pieces[i][n - 1] == 13 {
            let ghost before = pieces@;
            pieces[i].pop();
            assert(forall|j: int| 0 <= j < pieces@.len() && j != i ==> pieces@[j] == before[j]);
        }
        i += 1;
    }
    let ghost ended = texts(pieces@);
    assert(ended =~= Seq::new((all.len() - 1) as nat, |i: int| without_return(all[i])));
    if last.len() > 0 {
        pieces.push(last);
        assert(texts(pieces@) =~= ended.push(all.last()));
    }
    pieces
}

/// The number that `s` denotes, if it denotes one that is at most `max`.
pub fn read_unsigned(s: &[u8], max: u64) -> (value: Option<u64>)
    ensures
        match value {
            Some(v) => parse_unsigned(s@, max as nat) == Some(v as nat),
            None => parse_unsigned(s@, max as nat) is None,
        },
{
    let start: usize = if s.len() > 0 && s[0] == PLUS {
        1
    } else {
        0
    };
    let ghost digits = unsigned_digits(s@);
    assert(digits =~= s@.subrange(start as int, s.len() as int));
    if start == s.len() {
        return None;
    }
    let mut value: u64 = 0;
    let mut i: usize = start;
    while i < s.len()
        invariant
            start <= i <= s.len(),
            digits == unsigned_digits(s@),
            digits == s@.subrange(start as int, s.len() as int),
            digits_in(digits, 0, i - start),
            value == decimal_value(digits.take(i - start)),
            value <= max,
        decreases s.len() - i,
    {
        let byte: u8 = s[i];
        assert(digits[i - start] == s@[i as int]);
        if byte < ZERO || byte > NINE {
            proof {
                assert(!is_digit(digits[i - start]));
            }
            return None;
        }
        let digit: u64 = (byte - ZERO) as u64;
        proof {
            assert(digits.take(i + 1 - start).drop_last() =~= digits.take(i - start));
            assert(digits.take(i + 1 - start).last() == byte);
        }
        if digit > max || value > (max - digit) / 10 {
            proof {
                assert(decimal_value(digits.take(i + 1 - start)) == value * 10 + digit);
                assert(value * 10 + digit > max);
                if digits_in(digits, 0, digits.len() as int) {
                    lemma_decimal_monotone(digits, i + 1 - start);
                }
            }
            return None;
        }
        value = value * 10 + digit;
        i += 1;
    }
    assert(digits.take(i - start) =~= digits);
    Some(value)
}

/// Appends the digits of `n` to `out`.
pub fn write_unsigned(n: u64, out: &mut Vec<u8>)
    ensures
        final(out)@ == old(out)@ + decimal_digits(n as nat),
    decreases n,
{
    if n >= 10 {
        write_unsigned(n / 10, out);
    }
    out.push(ZERO + (n % 10) as u8);
    assert(final(out)@ =~= old(out)@ + decimal_digits(n as nat));
}

/// Appends the bytes of `s` to `out`.
pub fn write_bytes(s: &[u8], out: &mut Vec<u8>)
    ensures
        final(out)@ == old(out)@ + s@,
{
    out.extend_from_slice(s);
    assert(final(out)@ =~= old(out)@ + s@);
}

/// Whether `s` starts with `keyword`.
pub open spec fn starts_with(s: Seq<u8>, keyword: Seq<u8>) -> bool {
    s.len() >= keyword.len() && s.take(keyword.len() as int) == keyword
}

/// Whether `s` starts with `keyword`.
pub fn has_prefix(s: &[u8], keyword: &[u8]) -> (ok: bool)
    ensures
        ok == starts_with(s@, keyword@),
{
    if s.len() < keyword.len() {
        return false;
    }
    let mut i: usize = 0;
    while i < keyword.len()
        invariant
            i <= keyword.len() <= s.len(),
            forall|j: int| 0 <= j < i ==> s@[j] == keyword@[j],
        decreases keyword.len() - i,
    {
        if s[i] != keyword[i] {
            assert(s@.take(keyword@.len() as int)[i as int] != keyword@[i as int]);
            return false;
        }
        i += 1;
    }
    assert(s@.take(keyword@.len() as int) =~= keyword@);
    true
}

/// The bytes of `s` from `from` up to `to`.
pub fn middle(s: &[u8], from: usize, to: usize) -> (part: Vec<u8>)
    requires
        from <= to <= s.len(),
    ensures
        part@ == s@.subrange(from as int, to as int),
{
    let mut part: Vec<u8> = Vec::new();
    let mut i: usize = from;
    while i < to
        invariant
            from <= i <= to <= s.len(),
            part@ == s@.subrange(from as int, i as int),
        decreases to - i,
    {
        part.push(s[i]);
        assert(part@ =~= s@.subrange(from as int, i + 1));
        i += 1;
    }
    part
}

/// The bytes of `s` from `from` on.
pub fn tail(s: &[u8], from: usize) -> (rest: Vec<u8>)
    requires
        from <= s.len(),
    ensures
        rest@ == s@.skip(from as int),
{
    let mut rest: Vec<u8> = Vec::new();
    let mut i: usize = from;
    while i < s.len()
        invariant
            from <= i <= s.len(),
            rest@ == s@.subrange(from as int, i as int),
        decreases s.len() - i,
    {
        rest.push(s[i]);
        assert(rest@ =~= s@.subrange(from as int, i + 1));
        i += 1;
    }
    assert(rest@ =~= s@.skip(from as int));
    rest
}


/// Whether `a` and `b` are the same bytes.
pub fn same_bytes(a: &[u8], b: &[u8]) -> (same: bool)
    ensures
        same == (a@ == b@),
{
    if a.len() != b.len() {
        return false;
    }
    let mut i: usize = 0;
    while i < a.len()
        invariant
            i <= a.len(),
            a.len() == b.len(),
            forall|j: int| 0 <= j < i ==> a@[j] == b@[j],
        decreases a.len() - i,
    {
        if a[i] != b[i] {
            return false;
        }
        i += 1;
    }
    assert(a@ =~= b@);
    true
}

} // verus!
