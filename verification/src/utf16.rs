//! UTF-16 code-unit encoding and decoding.
//!
//! The specification functions here give the mathematical meaning of the
//! encoding: a sequence of Unicode scalar values maps to a sequence of
//! 16-bit code units (one unit for scalar values below `0x10000`, a
//! surrogate pair for the rest), and decoding maps the units back,
//! substituting the replacement character for every ill-formed unit.

use vstd::prelude::*;

verus! {

/// The Unicode replacement character, substituted for ill-formed input.
pub const REPLACEMENT_CHARACTER: char = '\u{FFFD}';

/// A unit in the range reserved for the first half of a surrogate pair.
pub open spec fn is_high_surrogate(u: u16) -> bool {
    0xD800 <= u <= 0xDBFF
}

/// A unit in the range reserved for the second half of a surrogate pair.
pub open spec fn is_low_surrogate(u: u16) -> bool {
    0xDC00 <= u <= 0xDFFF
}

/// Any unit in the surrogate range; such a unit never encodes a scalar
/// value on its own.
pub open spec fn is_surrogate(u: u16) -> bool {
    0xD800 <= u <= 0xDFFF
}

/// The scalar value encoded by a well-formed surrogate pair.
pub open spec fn combined_scalar(hi: u16, lo: u16) -> int {
    0x10000 + (hi - 0xD800) * 0x400 + (lo - 0xDC00)
}

/// The UTF-16 encoding of a single scalar value.
pub open spec fn encode_char(c: char) -> Seq<u16> {
    if (c as u32) < 0x10000 {
        seq![(c as u32) as u16]
    } else {
        seq![
            ((c as u32 - 0x10000) / 0x400 + 0xD800) as u16,
            ((c as u32 - 0x10000) % 0x400 + 0xDC00) as u16,
        ]
    }
}

/// The UTF-16 encoding of a sequence of scalar values.
pub open spec fn encode_utf16(s: Seq<char>) -> Seq<u16>
    decreases s.len(),
{
    if s.len() == 0 {
        Seq::empty()
    } else {
        encode_char(s[0]) + encode_utf16(s.drop_first())
    }
}

/// The decoding of a sequence of 16-bit code units: each well-formed
/// unit or surrogate pair yields its scalar value, and each ill-formed
/// unit yields one replacement character.
pub open spec fn decode_utf16(s: Seq<u16>) -> Seq<char>
    decreases s.len(),
{
    if s.len() == 0 {
        Seq::empty()
    } else if !is_surrogate(s[0]) {
        seq![(s[0] as u32) as char] + decode_utf16(s.drop_first())
    } else if is_high_surrogate(s[0]) && s.len() >= 2 && is_low_surrogate(s[1]) {
        seq![(combined_scalar(s[0], s[1]) as u32) as char] + decode_utf16(s.skip(2))
    } else {
        seq![REPLACEMENT_CHARACTER] + decode_utf16(s.drop_first())
    }
}

/// Encoding distributes over concatenation of scalar-value sequences.
pub proof fn lemma_encode_utf16_concat(a: Seq<char>, b: Seq<char>)
    ensures
        encode_utf16(a + b) == encode_utf16(a) + encode_utf16(b),
    decreases a.len(),
{
    if a.len() == 0 {
        assert(a + b =~= b);
        assert(encode_utf16(a) + encode_utf16(b) =~= encode_utf16(b));
    } else {
        lemma_encode_utf16_concat(a.drop_first(), b);
        assert((a + b).drop_first() =~= a.drop_first() + b);
        assert(encode_char(a[0]) + (encode_utf16(a.drop_first()) + encode_utf16(b))
            =~= (encode_char(a[0]) + encode_utf16(a.drop_first())) + encode_utf16(b));
    }
}

/// Encoding one more scalar value appends its units.
pub proof fn lemma_encode_utf16_push(s: Seq<char>, i: int)
    requires
        0 <= i < s.len(),
    ensures
        encode_utf16(s.take(i + 1)) == encode_utf16(s.take(i)) + encode_char(s[i]),
{
    let one = seq![s[i]];
    assert(s.take(i + 1) =~= s.take(i) + one);
    lemma_encode_utf16_concat(s.take(i), one);
    assert(one.drop_first() =~= Seq::<char>::empty());
    assert(encode_utf16(Seq::<char>::empty()) =~= Seq::<u16>::empty());
    assert(encode_utf16(one) =~= encode_char(s[i]) + Seq::<u16>::empty());
    assert(encode_char(s[i]) + Seq::<u16>::empty() =~= encode_char(s[i]));
}

/// Encodes a sequence of scalar values as UTF-16 code units.
pub fn encode_units(chars: &Vec<char>) -> (r: Vec<u16>)
    ensures
        r@ == encode_utf16(chars@),
{
    let mut out: Vec<u16> = Vec::new();
    let mut i: usize = 0;
    while i < chars.len()
        invariant
            i <= chars.len(),
            out@ == encode_utf16(chars@.take(i as int)),
        decreases chars.len() - i,
    {
        let c = chars[i];
        let v: u32 = c as u32;
        if v < 0x10000 {
            out.push(v as u16);
        } else {
            let d: u32 = v - 0x10000;
            out.push((d / 0x400 + 0xD800) as u16);
            out.push((d % 0x400 + 0xDC00) as u16);
        }
        proof {
            lemma_encode_utf16_push(chars@, i as int);
        }
        i = i + 1;
    }
    proof {
        assert(chars@.take(chars@.len() as int) =~= chars@);
    }
    out
}

/// Relies on `char::from_u32` of core: it returns `None` exactly for
/// surrogate values and values above the greatest scalar value, and
/// otherwise the scalar value itself.
pub assume_specification[ char::from_u32 ](i: u32) -> (r: Option<char>)
    ensures
        (r is Some) <==> (i < 0xD800 || (0xDFFF < i && i <= 0x10FFFF)),
        r is Some ==> (r->0 as u32) == i,
;

/// Decodes the first `count` units of a buffer, substituting the
/// replacement character for each ill-formed unit.
pub fn decode_units(units: &Vec<u16>, count: usize) -> (r: Vec<char>)
    requires
        count <= units@.len(),
    ensures
        r@ == decode_utf16(units@.take(count as int)),
{
    let ghost whole: Seq<u16> = units@.take(count as int);
    let mut out: Vec<char> = Vec::new();
    let mut i: usize = 0;
    proof {
        assert(whole.skip(0) =~= whole);
        assert(Seq::<char>::empty() + decode_utf16(whole) =~= decode_utf16(whole));
    }
    while i < count
        invariant
            i <= count,
            count <= units@.len(),
            whole == units@.take(count as int),
            decode_utf16(whole) == out@ + decode_utf16(whole.skip(i as int)),
        decreases count - i,
    {
        let ghost rest: Seq<u16> = whole.skip(i as int);
        proof {
            assert(rest[0] == units@[i as int]);
        }
        let u = units[i];
        if u < 0xD800 || u > 0xDFFF {
            let c = char::from_u32(u as u32).unwrap();
            out.push(c);
            proof {
                vstd::utf8::char_u32_cast(c, u as u32);
                assert(rest.drop_first() =~= whole.skip(i + 1));
            }
            i = i + 1;
        } else if u <= 0xDBFF && i + 1 < count && 0xDC00 <= units[i + 1] && units[i + 1]
            <= 0xDFFF {
            let lo = units[i + 1];
            let cp: u32 = 0x10000 + ((u as u32) - 0xD800) * 0x400 + ((lo as u32) - 0xDC00);
            let c = char::from_u32(cp).unwrap();
            out.push(c);
            proof {
                assert(rest[1] == units@[i + 1]);
                assert(cp == combined_scalar(u, lo));
                vstd::utf8::char_u32_cast(c, cp);
                assert(rest.skip(2) =~= whole.skip(i + 2));
            }
            i = i + 2;
        } else {
            out.push(REPLACEMENT_CHARACTER);
            proof {
                assert(rest.drop_first() =~= whole.skip(i + 1));
            }
            i = i + 1;
        }
    }
    proof {
        assert(whole.skip(count as int) =~= Seq::<u16>::empty());
        assert(out@ + Seq::<char>::empty() =~= out@);
    }
    out
}

/// Each scalar value encodes to one or two units, so an encoding is
/// never more than twice as long as its source, and never shorter.
pub proof fn lemma_encode_utf16_len_bound(s: Seq<char>)
    ensures
        s.len() <= encode_utf16(s).len() <= 2 * s.len(),
    decreases s.len(),
{
    if s.len() > 0 {
        lemma_encode_utf16_len_bound(s.drop_first());
    }
}

/// The encoding of a non-empty sequence whose last scalar value is not
/// NUL is non-empty and does not end in a zero unit: only NUL encodes
/// to a zero unit.
pub proof fn lemma_encode_utf16_last_nonzero(s: Seq<char>)
    requires
        s.len() > 0,
        s.last() != '\0',
    ensures
        encode_utf16(s).len() > 0,
        encode_utf16(s).last() != 0,
    decreases s.len(),
{
    let c = s[0];
    let v = c as u32;
    vstd::utf8::char_is_scalar(c);
    if s.len() == 1 {
        assert(c == s.last());
        if v < 0x10000 {
            if v == 0 {
                vstd::utf8::char_u32_cast(c, v);
                assert(c == '\0');
            }
            assert(encode_utf16(s.drop_first()) =~= Seq::<u16>::empty());
            assert(encode_utf16(s) =~= encode_char(c) + Seq::<u16>::empty());
            assert(encode_utf16(s).last() == (v as u16));
        } else {
            assert(encode_utf16(s.drop_first()) =~= Seq::<u16>::empty());
            assert(encode_utf16(s) =~= encode_char(c) + Seq::<u16>::empty());
            assert(encode_utf16(s).last() == encode_char(c)[1]);
            assert(encode_char(c)[1] >= 0xDC00);
        }
    } else {
        let rest = s.drop_first();
        assert(rest.last() == s.last());
        lemma_encode_utf16_last_nonzero(rest);
        assert(encode_utf16(s).last() == encode_utf16(rest).last());
    }
}

/// Decoding an encoded sequence followed by any suffix of units yields
/// the original scalar values followed by the decoding of the suffix:
/// an encoded sequence never ends in a unit that could pair with the
/// first unit of the suffix.
pub proof fn lemma_decode_encode_with_suffix(s: Seq<char>, suffix: Seq<u16>)
    ensures
        decode_utf16(encode_utf16(s) + suffix) == s + decode_utf16(suffix),
    decreases s.len(),
{
    if s.len() == 0 {
        assert(encode_utf16(s) + suffix =~= suffix);
        assert(s + decode_utf16(suffix) =~= decode_utf16(suffix));
    } else {
        let c = s[0];
        let v = c as u32;
        let e = encode_char(c);
        let rest = encode_utf16(s.drop_first());
        vstd::utf8::char_is_scalar(c);
        lemma_decode_encode_with_suffix(s.drop_first(), suffix);
        assert(encode_utf16(s) + suffix =~= e + (rest + suffix));
        let w = e + (rest + suffix);
        if v < 0x10000 {
            assert(w[0] == (v as u16));
            assert(!is_surrogate(w[0]));
            vstd::utf8::char_u32_cast(c, v);
            assert(w.drop_first() =~= rest + suffix);
            assert(seq![c] + (s.drop_first() + decode_utf16(suffix)) =~= s + decode_utf16(
                suffix,
            ));
        } else {
            let d = v - 0x10000;
            assert(0 <= d <= 0xFFFFF);
            vstd::arithmetic::div_mod::lemma_fundamental_div_mod(d as int, 0x400);
            assert(d / 0x400 <= 0x3FF) by (nonlinear_arith)
                requires
                    0 <= d <= 0xFFFFF,
            ;
            let hi = (d / 0x400 + 0xD800) as u16;
            let lo = (d % 0x400 + 0xDC00) as u16;
            assert(w[0] == hi && w[1] == lo);
            assert(is_high_surrogate(hi) && is_low_surrogate(lo));
            assert(combined_scalar(hi, lo) == v);
            vstd::utf8::char_u32_cast(c, v);
            assert(w.skip(2) =~= rest + suffix);
            assert(seq![c] + (s.drop_first() + decode_utf16(suffix)) =~= s + decode_utf16(
                suffix,
            ));
        }
    }
}

/// Round trip of the codec: decoding an encoded sequence of scalar
/// values yields that sequence again.
pub proof fn lemma_decode_encode(s: Seq<char>)
    ensures
        decode_utf16(encode_utf16(s)) == s,
{
    lemma_decode_encode_with_suffix(s, Seq::<u16>::empty());
    assert(encode_utf16(s) + Seq::<u16>::empty() =~= encode_utf16(s));
    assert(s + decode_utf16(Seq::<u16>::empty()) =~= s);
}

/// An encoded sequence followed by one lone high surrogate decodes to
/// the original scalar values followed by exactly one replacement
/// character.
pub proof fn lemma_decode_lone_high_surrogate(s: Seq<char>, u: u16)
    requires
        is_high_surrogate(u),
    ensures
        decode_utf16(encode_utf16(s).push(u)) == s.push(REPLACEMENT_CHARACTER),
{
    let one = seq![u];
    lemma_decode_encode_with_suffix(s, one);
    assert(encode_utf16(s).push(u) =~= encode_utf16(s) + one);
    assert(one.drop_first() =~= Seq::<u16>::empty());
    assert(decode_utf16(Seq::<u16>::empty()) =~= Seq::<char>::empty());
    assert(decode_utf16(one) =~= seq![REPLACEMENT_CHARACTER] + Seq::<char>::empty());
    assert(seq![REPLACEMENT_CHARACTER] + Seq::<char>::empty() =~= seq![REPLACEMENT_CHARACTER]);
    assert(s + seq![REPLACEMENT_CHARACTER] =~= s.push(REPLACEMENT_CHARACTER));
}

/// Collects the scalar values of a text slice.
pub fn chars_of(text: &str) -> (r: Vec<char>)
    ensures
        r@ == text@,
{
    broadcast use vstd::string::axiom_spec_iter;

    let mut out: Vec<char> = Vec::new();
    for c in it: text.chars()
        invariant
            it.seq() == text@,
            out@.len() == it.index(),
            forall|i: int| 0 <= i < it.index() ==> out@[i] == text@[i],
    {
        out.push(c);
    }
    proof {
        assert(out@ =~= text@);
    }
    out
}

/// Encodes a text slice as UTF-16 code units.
pub fn encode_text(text: &str) -> (r: Vec<u16>)
    ensures
        r@ == encode_utf16(text@),
{
    let chars = chars_of(text);
    encode_units(&chars)
}

/// Relies on the `FromIterator<char>` impl of `String`: collecting
/// scalar values yields the string of exactly those values, in order.
#[verifier::external_body]
fn string_from_chars(chars: Vec<char>) -> (r: String)
    ensures
        r@ == chars@,
{
    chars.into_iter().collect()
}

/// Decodes the first `count` units of a buffer into text, substituting
/// the replacement character for each ill-formed unit.
pub fn decode_to_string(units: &Vec<u16>, count: usize) -> (r: String)
    requires
        count <= units@.len(),
    ensures
        r@ == decode_utf16(units@.take(count as int)),
{
    let chars = decode_units(units, count);
    string_from_chars(chars)
}

} // verus!
