//! Binary-stable payload codec for provider responses.
//!
//! The callback handler serialises every provider response into a byte
//! payload before sending it back over the reply slot. The encoding is a
//! fixed, canonical one — little-endian length prefixes, four bytes per
//! character — so the same value always yields the same bytes, across
//! processes. Decoding is its exact inverse: decoding a payload and
//! re-encoding the value reproduces the payload byte for byte.

use vstd::prelude::*;

verus! {

/// A little-endian byte of a 64-bit value.
pub open spec fn u64_byte(n: u64, j: int) -> u8 {
    (n >> (8 * j) as u64) as u8
}

/// The eight little-endian bytes of a 64-bit value.
pub open spec fn enc_u64(n: u64) -> Seq<u8> {
    seq![
        u64_byte(n, 0),
        u64_byte(n, 1),
        u64_byte(n, 2),
        u64_byte(n, 3),
        u64_byte(n, 4),
        u64_byte(n, 5),
        u64_byte(n, 6),
        u64_byte(n, 7),
    ]
}

/// The 64-bit value whose little-endian bytes are `b[i..i+8]`.
pub open spec fn dec_u64(b: Seq<u8>, i: int) -> u64 {
    (b[i] as u64) | ((b[i + 1] as u64) << 8) | ((b[i + 2] as u64) << 16) | ((b[i + 3] as u64)
        << 24) | ((b[i + 4] as u64) << 32) | ((b[i + 5] as u64) << 40) | ((b[i + 6] as u64) << 48)
        | ((b[i + 7] as u64) << 56)
}

/// Decoding the eight little-endian bytes of `n` gives `n` back.
pub proof fn lemma_u64_roundtrip(n: u64)
    ensures
        dec_u64(enc_u64(n), 0) == n,
{
    assert(((n >> 0u64) as u8 as u64) | (((n >> 8u64) as u8 as u64) << 8) | (((n >> 16u64) as u8
        as u64) << 16) | (((n >> 24u64) as u8 as u64) << 24) | (((n >> 32u64) as u8 as u64) << 32)
        | (((n >> 40u64) as u8 as u64) << 40) | (((n >> 48u64) as u8 as u64) << 48) | (((n
        >> 56u64) as u8 as u64) << 56) == n) by (bit_vector);
}

/// Re-encoding the value decoded from any eight bytes reproduces those
/// bytes: the eight-byte encoding is canonical.
pub proof fn lemma_u64_canonical(x0: u8, x1: u8, x2: u8, x3: u8, x4: u8, x5: u8, x6: u8, x7: u8)
    ensures
        enc_u64(
            (x0 as u64) | ((x1 as u64) << 8) | ((x2 as u64) << 16) | ((x3 as u64) << 24) | ((
            x4 as u64) << 32) | ((x5 as u64) << 40) | ((x6 as u64) << 48) | ((x7 as u64) << 56),
        ) == seq![x0, x1, x2, x3, x4, x5, x6, x7],
{
    let n = (x0 as u64) | ((x1 as u64) << 8) | ((x2 as u64) << 16) | ((x3 as u64) << 24) | ((
    x4 as u64) << 32) | ((x5 as u64) << 40) | ((x6 as u64) << 48) | ((x7 as u64) << 56);
    assert((n >> 0u64) as u8 == x0 && (n >> 8u64) as u8 == x1 && (n >> 16u64) as u8 == x2 && (n
        >> 24u64) as u8 == x3 && (n >> 32u64) as u8 == x4 && (n >> 40u64) as u8 == x5 && (n
        >> 48u64) as u8 == x6 && (n >> 56u64) as u8 == x7) by (bit_vector)
        requires
            n == (x0 as u64) | ((x1 as u64) << 8) | ((x2 as u64) << 16) | ((x3 as u64) << 24) | ((
            x4 as u64) << 32) | ((x5 as u64) << 40) | ((x6 as u64) << 48) | ((x7 as u64) << 56),
    ;
    assert(enc_u64(n) =~= seq![x0, x1, x2, x3, x4, x5, x6, x7]);
}

/// Append the eight little-endian bytes of `n`.
pub fn push_u64(out: &mut Vec<u8>, n: u64)
    ensures
        final(out)@ == old(out)@ + enc_u64(n),
{
    let ghost before = out@;
    out.push((n >> 0) as u8);
    out.push((n >> 8) as u8);
    out.push((n >> 16) as u8);
    out.push((n >> 24) as u8);
    out.push((n >> 32) as u8);
    out.push((n >> 40) as u8);
    out.push((n >> 48) as u8);
    out.push((n >> 56) as u8);
    proof {
        assert(out@ =~= before + enc_u64(n));
    }
}

/// A little-endian byte of a 32-bit value.
pub open spec fn u32_byte(n: u32, j: int) -> u8 {
    (n >> (8 * j) as u32) as u8
}

/// The four little-endian bytes of a 32-bit value.
pub open spec fn enc_u32(n: u32) -> Seq<u8> {
    seq![u32_byte(n, 0), u32_byte(n, 1), u32_byte(n, 2), u32_byte(n, 3)]
}

/// The 32-bit value whose little-endian bytes are `b[i..i+4]`.
pub open spec fn dec_u32(b: Seq<u8>, i: int) -> u32 {
    (b[i] as u32) | ((b[i + 1] as u32) << 8) | ((b[i + 2] as u32) << 16) | ((b[i + 3] as u32)
        << 24)
}

/// Decoding the four little-endian bytes of `n` gives `n` back.
pub proof fn lemma_u32_roundtrip(n: u32)
    ensures
        dec_u32(enc_u32(n), 0) == n,
{
    assert(((n >> 0u32) as u8 as u32) | (((n >> 8u32) as u8 as u32) << 8) | (((n >> 16u32) as u8
        as u32) << 16) | (((n >> 24u32) as u8 as u32) << 24) == n) by (bit_vector);
}

/// The four-byte encoding is canonical.
pub proof fn lemma_u32_canonical(x0: u8, x1: u8, x2: u8, x3: u8)
    ensures
        enc_u32(
            (x0 as u32) | ((x1 as u32) << 8) | ((x2 as u32) << 16) | ((x3 as u32) << 24),
        ) == seq![x0, x1, x2, x3],
{
    let n = (x0 as u32) | ((x1 as u32) << 8) | ((x2 as u32) << 16) | ((x3 as u32) << 24);
    assert((n >> 0u32) as u8 == x0 && (n >> 8u32) as u8 == x1 && (n >> 16u32) as u8 == x2 && (n
        >> 24u32) as u8 == x3) by (bit_vector)
        requires
            n == (x0 as u32) | ((x1 as u32) << 8) | ((x2 as u32) << 16) | ((x3 as u32) << 24),
    ;
    assert(enc_u32(n) =~= seq![x0, x1, x2, x3]);
}

/// Reading eight bytes that are the encoding of `n` yields `n`.
pub proof fn lemma_dec_u64_frame(b: Seq<u8>, i: int, n: u64)
    requires
        0 <= i,
        i + 8 <= b.len(),
        b.subrange(i, i + 8) =~= enc_u64(n),
    ensures
        dec_u64(b, i) == n,
{
    assert forall|k: int| 0 <= k < 8 implies b[i + k] == enc_u64(n)[k] by {
        assert(b.subrange(i, i + 8)[k] == b[i + k]);
    }
    lemma_u64_roundtrip(n);
}

/// Re-encoding the value read from any eight bytes reproduces them.
pub proof fn lemma_enc_of_dec_u64(b: Seq<u8>, i: int)
    requires
        0 <= i,
        i + 8 <= b.len(),
    ensures
        enc_u64(dec_u64(b, i)) =~= b.subrange(i, i + 8),
{
    lemma_u64_canonical(b[i], b[i + 1], b[i + 2], b[i + 3], b[i + 4], b[i + 5], b[i + 6], b[i + 7]);
}

/// Reading four bytes that are the encoding of `n` yields `n`.
pub proof fn lemma_dec_u32_frame(b: Seq<u8>, i: int, n: u32)
    requires
        0 <= i,
        i + 4 <= b.len(),
        b.subrange(i, i + 4) =~= enc_u32(n),
    ensures
        dec_u32(b, i) == n,
{
    assert forall|k: int| 0 <= k < 4 implies b[i + k] == enc_u32(n)[k] by {
        assert(b.subrange(i, i + 4)[k] == b[i + k]);
    }
    lemma_u32_roundtrip(n);
}

/// Re-encoding the value read from any four bytes reproduces them.
pub proof fn lemma_enc_of_dec_u32(b: Seq<u8>, i: int)
    requires
        0 <= i,
        i + 4 <= b.len(),
    ensures
        enc_u32(dec_u32(b, i)) =~= b.subrange(i, i + 4),
{
    lemma_u32_canonical(b[i], b[i + 1], b[i + 2], b[i + 3]);
}

/// What `char::from_u32` returns: the character with that scalar value,
/// or nothing when the value is a surrogate or beyond the last scalar.
pub open spec fn spec_char_from_u32(v: u32) -> Option<char> {
    if v < 0xD800 || (0xE000 <= v && v <= 0x10FFFF) {
        Some(v as char)
    } else {
        None
    }
}

/// Relies on char::from_u32: `Some` exactly for Unicode scalar values —
/// everything below the surrogate range, and the range from the end of
/// the surrogates to the largest scalar — and the identity on them.
pub assume_specification[ char::from_u32 ](v: u32) -> (r: Option<char>)
    ensures
        r == spec_char_from_u32(v),
;

/// Relies on String::push: appends the given character to the string.
pub assume_specification[ String::push ](s: &mut String, c: char)
    ensures
        final(s)@ == old(s)@.push(c),
;

/// A character's scalar value decodes back to the character.
pub proof fn lemma_char_roundtrip(c: char)
    ensures
        spec_char_from_u32(c as u32) == Some(c),
{
}

/// The four-byte encoding of one character: its scalar value.
pub open spec fn enc_char(c: char) -> Seq<u8> {
    enc_u32(c as u32)
}

/// The characters of `s`, four bytes each.
pub open spec fn enc_chars(s: Seq<char>) -> Seq<u8>
    decreases s.len(),
{
    if s.len() == 0 {
        Seq::empty()
    } else {
        enc_char(s[0]) + enc_chars(s.drop_first())
    }
}

/// A string: its character count, followed by its characters.
pub open spec fn enc_str(s: Seq<char>) -> Seq<u8> {
    enc_u64(s.len() as u64) + enc_chars(s)
}

/// A byte blob: its length, followed by its bytes.
pub open spec fn enc_bytes(v: Seq<u8>) -> Seq<u8> {
    enc_u64(v.len() as u64) + v
}

/// The strings of `l`, one after the other.
pub open spec fn enc_strs(l: Seq<Seq<char>>) -> Seq<u8>
    decreases l.len(),
{
    if l.len() == 0 {
        Seq::empty()
    } else {
        enc_str(l[0]) + enc_strs(l.drop_first())
    }
}

/// A list of strings: its length, followed by its strings.
pub open spec fn enc_str_list(l: Seq<Seq<char>>) -> Seq<u8> {
    enc_u64(l.len() as u64) + enc_strs(l)
}

/// Encoded characters take four bytes each.
pub proof fn lemma_enc_chars_len(s: Seq<char>)
    ensures
        enc_chars(s).len() == 4 * s.len(),
    decreases s.len(),
{
    if s.len() > 0 {
        lemma_enc_chars_len(s.drop_first());
    }
}

/// Decode `count` characters starting at `i`.
pub open spec fn dec_chars(b: Seq<u8>, i: int, count: nat) -> Option<(Seq<char>, int)>
    decreases count,
{
    if count == 0 {
        Some((Seq::empty(), i))
    } else if 0 <= i && i + 4 <= b.len() {
        match spec_char_from_u32(dec_u32(b, i)) {
            Some(c) => match dec_chars(b, i + 4, (count - 1) as nat) {
                Some(pair) => Some((seq![c] + pair.0, pair.1)),
                None => None,
            },
            None => None,
        }
    } else {
        None
    }
}

/// Decode a length-prefixed string starting at `i`.
pub open spec fn dec_str_at(b: Seq<u8>, i: int) -> Option<(Seq<char>, int)> {
    if 0 <= i && i + 8 <= b.len() {
        dec_chars(b, i + 8, dec_u64(b, i) as nat)
    } else {
        None
    }
}

/// Decode a length-prefixed byte blob starting at `i`.
pub open spec fn dec_bytes_at(b: Seq<u8>, i: int) -> Option<(Seq<u8>, int)> {
    if 0 <= i && i + 8 <= b.len() {
        let n = dec_u64(b, i) as int;
        if i + 8 + n <= b.len() {
            Some((b.subrange(i + 8, i + 8 + n), i + 8 + n))
        } else {
            None
        }
    } else {
        None
    }
}

/// Decode `count` length-prefixed strings starting at `i`.
pub open spec fn dec_strs(b: Seq<u8>, i: int, count: nat) -> Option<(Seq<Seq<char>>, int)>
    decreases count,
{
    if count == 0 {
        Some((Seq::empty(), i))
    } else {
        match dec_str_at(b, i) {
            Some(pair) => match dec_strs(b, pair.1, (count - 1) as nat) {
                Some(rest) => Some((seq![pair.0] + rest.0, rest.1)),
                None => None,
            },
            None => None,
        }
    }
}

/// Decode a length-prefixed list of strings starting at `i`.
pub open spec fn dec_str_list_at(b: Seq<u8>, i: int) -> Option<(Seq<Seq<char>>, int)> {
    if 0 <= i && i + 8 <= b.len() {
        dec_strs(b, i + 8, dec_u64(b, i) as nat)
    } else {
        None
    }
}

/// Reading characters that are the encoding of `s` yields `s`.
pub proof fn lemma_dec_chars_frame(b: Seq<u8>, i: int, s: Seq<char>)
    requires
        0 <= i,
        i + 4 * s.len() <= b.len(),
        b.subrange(i, i + 4 * s.len()) =~= enc_chars(s),
    ensures
        dec_chars(b, i, s.len()) == Some((s, i + 4 * s.len())),
    decreases s.len(),
{
    if s.len() > 0 {
        let rest = s.drop_first();
        lemma_enc_chars_len(rest);
        assert(b.subrange(i, i + 4 * s.len()) == enc_chars(s));
        assert(b.subrange(i, i + 4) =~= enc_chars(s).subrange(0, 4));
        assert(enc_chars(s).subrange(0, 4) =~= enc_char(s[0]));
        lemma_dec_u32_frame(b, i, s[0] as u32);
        lemma_char_roundtrip(s[0]);
        assert(b.subrange(i + 4, i + 4 + 4 * rest.len() as int) =~= enc_chars(s).subrange(
            4,
            4 + 4 * rest.len() as int,
        ));
        assert(enc_chars(s).subrange(4, 4 + 4 * rest.len() as int) =~= enc_chars(rest));
        lemma_dec_chars_frame(b, i + 4, rest);
        assert(seq![s[0]] + rest =~= s);
    }
}

/// Re-encoding decoded characters reproduces their bytes.
pub proof fn lemma_enc_of_dec_chars(b: Seq<u8>, i: int, count: nat)
    requires
        0 <= i <= b.len(),
        dec_chars(b, i, count) is Some,
    ensures
        ({
            let pair = dec_chars(b, i, count)->Some_0;
            &&& pair.0.len() == count
            &&& pair.1 == i + 4 * count
            &&& 0 <= i <= pair.1 <= b.len()
            &&& enc_chars(pair.0) =~= b.subrange(i, pair.1)
        }),
    decreases count,
{
    let pair = dec_chars(b, i, count)->Some_0;
    if count == 0 {
        assert(enc_chars(pair.0) =~= b.subrange(i, i));
    } else {
        let c = spec_char_from_u32(dec_u32(b, i))->Some_0;
        lemma_enc_of_dec_chars(b, i + 4, (count - 1) as nat);
        let rest = dec_chars(b, i + 4, (count - 1) as nat)->Some_0;
        assert(c as u32 == dec_u32(b, i));
        lemma_enc_of_dec_u32(b, i);
        assert((seq![c] + rest.0).drop_first() =~= rest.0);
        assert((seq![c] + rest.0)[0] == c);
        assert(enc_chars(pair.0) =~= enc_char(c) + enc_chars(rest.0));
        assert(enc_chars(pair.0) =~= b.subrange(i, pair.1));
    }
}

/// Reading a string that is the encoding of `s` yields `s`.
pub proof fn lemma_dec_str_frame(b: Seq<u8>, i: int, s: Seq<char>)
    requires
        0 <= i,
        s.len() < 0x1_0000_0000_0000_0000,
        i + 8 + 4 * s.len() <= b.len(),
        b.subrange(i, i + 8 + 4 * s.len()) =~= enc_str(s),
    ensures
        dec_str_at(b, i) == Some((s, i + 8 + 4 * s.len() as int)),
{
    lemma_enc_chars_len(s);
    assert(b.subrange(i, i + 8 + 4 * s.len()) == enc_str(s));
    assert(b.subrange(i, i + 8) =~= enc_str(s).subrange(0, 8));
    assert(enc_str(s).subrange(0, 8) =~= enc_u64(s.len() as u64));
    lemma_dec_u64_frame(b, i, s.len() as u64);
    assert(dec_u64(b, i) as nat == s.len());
    assert(b.subrange(i + 8, i + 8 + 4 * s.len()) =~= enc_str(s).subrange(8, 8 + 4 * s.len() as int));
    assert(enc_str(s).subrange(8, 8 + 4 * s.len() as int) =~= enc_chars(s));
    lemma_dec_chars_frame(b, i + 8, s);
}

/// Re-encoding a decoded string reproduces its bytes.
pub proof fn lemma_enc_of_dec_str(b: Seq<u8>, i: int)
    requires
        dec_str_at(b, i) is Some,
    ensures
        ({
            let pair = dec_str_at(b, i)->Some_0;
            &&& pair.0.len() < 0x1_0000_0000_0000_0000
            &&& 0 <= i <= i + 8 <= pair.1 <= b.len()
            &&& enc_str(pair.0) =~= b.subrange(i, pair.1)
        }),
{
    let n = dec_u64(b, i);
    lemma_enc_of_dec_chars(b, i + 8, n as nat);
    let pair = dec_str_at(b, i)->Some_0;
    assert(pair.0.len() as u64 == n);
    lemma_enc_of_dec_u64(b, i);
    assert(enc_str(pair.0) =~= b.subrange(i, i + 8) + b.subrange(i + 8, pair.1));
    assert(b.subrange(i, i + 8) + b.subrange(i + 8, pair.1) =~= b.subrange(i, pair.1));
}

/// Reading a blob that is the encoding of `v` yields `v`.
pub proof fn lemma_dec_bytes_frame(b: Seq<u8>, i: int, v: Seq<u8>)
    requires
        0 <= i,
        v.len() < 0x1_0000_0000_0000_0000,
        i + 8 + v.len() <= b.len(),
        b.subrange(i, i + 8 + v.len()) =~= enc_bytes(v),
    ensures
        dec_bytes_at(b, i) == Some((v, i + 8 + v.len())),
{
    assert(b.subrange(i, i + 8 + v.len()) == enc_bytes(v));
    assert(b.subrange(i, i + 8) =~= enc_bytes(v).subrange(0, 8));
    assert(enc_bytes(v).subrange(0, 8) =~= enc_u64(v.len() as u64));
    lemma_dec_u64_frame(b, i, v.len() as u64);
    assert(b.subrange(i + 8, i + 8 + v.len()) =~= enc_bytes(v).subrange(8, 8 + v.len() as int));
    assert(enc_bytes(v).subrange(8, 8 + v.len() as int) =~= v);
}

/// Re-encoding a decoded blob reproduces its bytes.
pub proof fn lemma_enc_of_dec_bytes(b: Seq<u8>, i: int)
    requires
        dec_bytes_at(b, i) is Some,
    ensures
        ({
            let pair = dec_bytes_at(b, i)->Some_0;
            &&& pair.0.len() < 0x1_0000_0000_0000_0000
            &&& 0 <= i <= i + 8 <= pair.1 <= b.len()
            &&& enc_bytes(pair.0) =~= b.subrange(i, pair.1)
        }),
{
    lemma_enc_of_dec_u64(b, i);
    let pair = dec_bytes_at(b, i)->Some_0;
    assert(enc_bytes(pair.0) =~= b.subrange(i, i + 8) + b.subrange(i + 8, pair.1));
    assert(b.subrange(i, i + 8) + b.subrange(i + 8, pair.1) =~= b.subrange(i, pair.1));
}

/// Reading strings that are the encoding of `l` yields `l`.
pub proof fn lemma_dec_strs_frame(b: Seq<u8>, i: int, l: Seq<Seq<char>>)
    requires
        0 <= i,
        forall|t: int| 0 <= t < l.len() ==> #[trigger] l[t].len() < 0x1_0000_0000_0000_0000,
        i + enc_strs(l).len() <= b.len(),
        b.subrange(i, i + enc_strs(l).len()) =~= enc_strs(l),
    ensures
        dec_strs(b, i, l.len()) == Some((l, i + enc_strs(l).len())),
    decreases l.len(),
{
    if l.len() > 0 {
        let first = l[0];
        let rest = l.drop_first();
        let flen = enc_str(first).len() as int;
        lemma_enc_chars_len(first);
        assert(b.subrange(i, i + enc_strs(l).len()) == enc_strs(l));
        assert(b.subrange(i, i + flen) =~= enc_strs(l).subrange(0, flen));
        assert(enc_strs(l).subrange(0, flen) =~= enc_str(first));
        lemma_dec_str_frame(b, i, first);
        assert(b.subrange(i + flen, i + flen + enc_strs(rest).len()) =~= enc_strs(l).subrange(
            flen,
            flen + enc_strs(rest).len(),
        ));
        assert(enc_strs(l).subrange(flen, flen + enc_strs(rest).len()) =~= enc_strs(rest));
        lemma_dec_strs_frame(b, i + flen, rest);
        assert(seq![first] + rest =~= l);
    }
}

/// Re-encoding decoded strings reproduces their bytes.
pub proof fn lemma_enc_of_dec_strs(b: Seq<u8>, i: int, count: nat)
    requires
        0 <= i <= b.len(),
        dec_strs(b, i, count) is Some,
    ensures
        ({
            let pair = dec_strs(b, i, count)->Some_0;
            &&& pair.0.len() == count
            &&& (forall|t: int|
                0 <= t < count ==> #[trigger] pair.0[t].len() < 0x1_0000_0000_0000_0000)
            &&& 0 <= i <= pair.1 <= b.len()
            &&& enc_strs(pair.0) =~= b.subrange(i, pair.1)
        }),
    decreases count,
{
    let pair = dec_strs(b, i, count)->Some_0;
    if count == 0 {
        assert(enc_strs(pair.0) =~= b.subrange(i, i));
    } else {
        lemma_enc_of_dec_str(b, i);
        let first = dec_str_at(b, i)->Some_0;
        lemma_enc_of_dec_strs(b, first.1, (count - 1) as nat);
        let rest = dec_strs(b, first.1, (count - 1) as nat)->Some_0;
        assert((seq![first.0] + rest.0).drop_first() =~= rest.0);
        assert((seq![first.0] + rest.0)[0] == first.0);
        assert(enc_strs(pair.0) =~= enc_str(first.0) + enc_strs(rest.0));
        assert(enc_str(first.0) + enc_strs(rest.0) =~= b.subrange(i, first.1) + b.subrange(
            first.1,
            pair.1,
        ));
        assert(b.subrange(i, first.1) + b.subrange(first.1, pair.1) =~= b.subrange(i, pair.1));
    }
}

/// Splitting a character run: decoding `k + m` characters decodes `k`,
/// then `m` more from where the first run ended.
pub proof fn lemma_dec_chars_split(b: Seq<u8>, i: int, k: nat, m: nat)
    ensures
        dec_chars(b, i, k + m) == match dec_chars(b, i, k) {
            Some(first) => match dec_chars(b, first.1, m) {
                Some(second) => Some((first.0 + second.0, second.1)),
                None => None,
            },
            None => None,
        },
    decreases k,
{
    if k == 0 {
        if dec_chars(b, i, m) is Some {
            let p = dec_chars(b, i, m)->Some_0;
            assert(Seq::<char>::empty() + p.0 =~= p.0);
        }
    } else {
        if 0 <= i && i + 4 <= b.len() && spec_char_from_u32(dec_u32(b, i)) is Some {
            let c = spec_char_from_u32(dec_u32(b, i))->Some_0;
            lemma_dec_chars_split(b, i + 4, (k - 1) as nat, m);
            assert((k + m - 1) as nat == (k - 1) as nat + m);
            if dec_chars(b, i + 4, (k - 1) as nat) is Some {
                let first = dec_chars(b, i + 4, (k - 1) as nat)->Some_0;
                if dec_chars(b, first.1, m) is Some {
                    let second = dec_chars(b, first.1, m)->Some_0;
                    assert(seq![c] + (first.0 + second.0) =~= (seq![c] + first.0) + second.0);
                }
            }
        }
    }
}

/// Splitting a string run: decoding `k + m` strings decodes `k`, then
/// `m` more from where the first run ended.
pub proof fn lemma_dec_strs_split(b: Seq<u8>, i: int, k: nat, m: nat)
    ensures
        dec_strs(b, i, k + m) == match dec_strs(b, i, k) {
            Some(first) => match dec_strs(b, first.1, m) {
                Some(second) => Some((first.0 + second.0, second.1)),
                None => None,
            },
            None => None,
        },
    decreases k,
{
    if k == 0 {
        if dec_strs(b, i, m) is Some {
            let p = dec_strs(b, i, m)->Some_0;
            assert(Seq::<Seq<char>>::empty() + p.0 =~= p.0);
        }
    } else {
        if dec_str_at(b, i) is Some {
            let head = dec_str_at(b, i)->Some_0;
            lemma_dec_strs_split(b, head.1, (k - 1) as nat, m);
            assert((k + m - 1) as nat == (k - 1) as nat + m);
            if dec_strs(b, head.1, (k - 1) as nat) is Some {
                let first = dec_strs(b, head.1, (k - 1) as nat)->Some_0;
                if dec_strs(b, first.1, m) is Some {
                    let second = dec_strs(b, first.1, m)->Some_0;
                    assert(seq![head.0] + (first.0 + second.0) =~= (seq![head.0] + first.0)
                        + second.0);
                }
            }
        }
    }
}

/// Appending one character appends its four bytes.
pub proof fn lemma_enc_chars_snoc(s: Seq<char>, c: char)
    ensures
        enc_chars(s.push(c)) == enc_chars(s) + enc_char(c),
    decreases s.len(),
{
    if s.len() == 0 {
        assert(s.push(c).drop_first() =~= Seq::<char>::empty());
        assert(s.push(c)[0] == c);
        assert(enc_chars(s.push(c)) == enc_char(c) + enc_chars(Seq::<char>::empty()));
        assert(enc_chars(s.push(c)) =~= enc_chars(s) + enc_char(c));
    } else {
        assert(s.push(c).drop_first() =~= s.drop_first().push(c));
        lemma_enc_chars_snoc(s.drop_first(), c);
        assert(s.push(c)[0] == s[0]);
        assert(enc_chars(s.push(c)) == enc_char(s[0]) + (enc_chars(s.drop_first()) + enc_char(c)));
        assert(enc_chars(s) == enc_char(s[0]) + enc_chars(s.drop_first()));
        assert(enc_char(s[0]) + (enc_chars(s.drop_first()) + enc_char(c)) =~= (enc_char(s[0])
            + enc_chars(s.drop_first())) + enc_char(c));
    }
}

/// Appending one string appends its encoding.
pub proof fn lemma_enc_strs_snoc(l: Seq<Seq<char>>, s: Seq<char>)
    ensures
        enc_strs(l.push(s)) == enc_strs(l) + enc_str(s),
    decreases l.len(),
{
    if l.len() == 0 {
        assert(l.push(s).drop_first() =~= Seq::<Seq<char>>::empty());
        assert(l.push(s)[0] == s);
        assert(enc_strs(l.push(s)) == enc_str(s) + enc_strs(Seq::<Seq<char>>::empty()));
        assert(enc_strs(l.push(s)) =~= enc_strs(l) + enc_str(s));
    } else {
        assert(l.push(s).drop_first() =~= l.drop_first().push(s));
        lemma_enc_strs_snoc(l.drop_first(), s);
        assert(l.push(s)[0] == l[0]);
        assert(enc_strs(l.push(s)) == enc_str(l[0]) + (enc_strs(l.drop_first()) + enc_str(s)));
        assert(enc_strs(l) == enc_str(l[0]) + enc_strs(l.drop_first()));
        assert(enc_str(l[0]) + (enc_strs(l.drop_first()) + enc_str(s)) =~= (enc_str(l[0])
            + enc_strs(l.drop_first())) + enc_str(s));
    }
}

/// Read the 64-bit value at `i`.
pub fn read_u64(b: &Vec<u8>, i: usize) -> (r: u64)
    requires
        i + 8 <= b@.len(),
    ensures
        r == dec_u64(b@, i as int),
{
    let len: usize = b.len();
    proof {
        assert(i + 8 <= len);
    }
    (b[i] as u64) | ((b[i + 1] as u64) << 8) | ((b[i + 2] as u64) << 16) | ((b[i + 3] as u64)
        << 24) | ((b[i + 4] as u64) << 32) | ((b[i + 5] as u64) << 40) | ((b[i + 6] as u64) << 48)
        | ((b[i + 7] as u64) << 56)
}

/// Read the 32-bit value at `i`.
pub fn read_u32(b: &Vec<u8>, i: usize) -> (r: u32)
    requires
        i + 4 <= b@.len(),
    ensures
        r == dec_u32(b@, i as int),
{
    let len: usize = b.len();
    proof {
        assert(i + 4 <= len);
    }
    (b[i] as u32) | ((b[i + 1] as u32) << 8) | ((b[i + 2] as u32) << 16) | ((b[i + 3] as u32)
        << 24)
}

/// One provider response, as the callback handler serialises it.
pub enum ResponseValue {
    /// The content digest an image reference resolves to.
    Digest(String),
    /// A fetched manifest document.
    Manifest(Vec<u8>),
    /// A manifest together with its referenced config blob.
    ManifestAndConfig(Vec<u8>, Vec<u8>),
    /// A successful signature verification: matched digest and claims.
    Verification { digest: String, claims: Vec<String> },
    /// The addresses a hostname resolves to.
    Lookup(Vec<String>),
    /// A fetched cluster resource or resource list, as a document.
    Resource(Vec<u8>),
    /// The plural name of a resource kind.
    PluralName(String),
    /// Whether the subject may perform the operation.
    CanI(bool),
    /// Whether a list result has changed since the given instant.
    HasChanged(bool),
}

/// The mathematical value of a [`ResponseValue`].
pub ghost enum ResponseValueView {
    Digest(Seq<char>),
    Manifest(Seq<u8>),
    ManifestAndConfig(Seq<u8>, Seq<u8>),
    Verification { digest: Seq<char>, claims: Seq<Seq<char>> },
    Lookup(Seq<Seq<char>>),
    Resource(Seq<u8>),
    PluralName(Seq<char>),
    CanI(bool),
    HasChanged(bool),
}

/// The strings of a vector, as character sequences.
pub open spec fn strs_view(v: Seq<String>) -> Seq<Seq<char>> {
    Seq::new(v.len(), |i: int| v[i]@)
}

impl View for ResponseValue {
    type V = ResponseValueView;

    open spec fn view(&self) -> ResponseValueView {
        match self {
            ResponseValue::Digest(d) => ResponseValueView::Digest(d@),
            ResponseValue::Manifest(m) => ResponseValueView::Manifest(m@),
            ResponseValue::ManifestAndConfig(m, c) => ResponseValueView::ManifestAndConfig(m@, c@),
            ResponseValue::Verification { digest, claims } => ResponseValueView::Verification {
                digest: digest@,
                claims: strs_view(claims@),
            },
            ResponseValue::Lookup(ips) => ResponseValueView::Lookup(strs_view(ips@)),
            ResponseValue::Resource(r) => ResponseValueView::Resource(r@),
            ResponseValue::PluralName(p) => ResponseValueView::PluralName(p@),
            ResponseValue::CanI(b) => ResponseValueView::CanI(*b),
            ResponseValue::HasChanged(b) => ResponseValueView::HasChanged(*b),
        }
    }
}

/// Reading a list that is the encoding of `l` yields `l`.
pub proof fn lemma_dec_str_list_frame(b: Seq<u8>, i: int, l: Seq<Seq<char>>)
    requires
        0 <= i,
        l.len() < 0x1_0000_0000_0000_0000,
        forall|t: int| 0 <= t < l.len() ==> #[trigger] l[t].len() < 0x1_0000_0000_0000_0000,
        i + 8 + enc_strs(l).len() <= b.len(),
        b.subrange(i, i + 8 + enc_strs(l).len()) =~= enc_str_list(l),
    ensures
        dec_str_list_at(b, i) == Some((l, i + 8 + enc_strs(l).len() as int)),
{
    assert(b.subrange(i, i + 8 + enc_strs(l).len()) == enc_str_list(l));
    assert(b.subrange(i, i + 8) =~= enc_str_list(l).subrange(0, 8));
    assert(enc_str_list(l).subrange(0, 8) =~= enc_u64(l.len() as u64));
    lemma_dec_u64_frame(b, i, l.len() as u64);
    assert(b.subrange(i + 8, i + 8 + enc_strs(l).len()) =~= enc_str_list(l).subrange(
        8,
        8 + enc_strs(l).len() as int,
    ));
    assert(enc_str_list(l).subrange(8, 8 + enc_strs(l).len() as int) =~= enc_strs(l));
    lemma_dec_strs_frame(b, i + 8, l);
}

/// Re-encoding a decoded list reproduces its bytes.
pub proof fn lemma_enc_of_dec_str_list(b: Seq<u8>, i: int)
    requires
        dec_str_list_at(b, i) is Some,
    ensures
        ({
            let pair = dec_str_list_at(b, i)->Some_0;
            &&& pair.0.len() < 0x1_0000_0000_0000_0000
            &&& (forall|t: int|
                0 <= t < pair.0.len() ==> #[trigger] pair.0[t].len() < 0x1_0000_0000_0000_0000)
            &&& 0 <= i <= i + 8 <= pair.1 <= b.len()
            &&& enc_str_list(pair.0) =~= b.subrange(i, pair.1)
        }),
{
    let n = dec_u64(b, i);
    lemma_enc_of_dec_strs(b, i + 8, n as nat);
    let pair = dec_str_list_at(b, i)->Some_0;
    assert(pair.0.len() as u64 == n);
    lemma_enc_of_dec_u64(b, i);
    assert(enc_str_list(pair.0) =~= b.subrange(i, i + 8) + b.subrange(i + 8, pair.1));
    assert(b.subrange(i, i + 8) + b.subrange(i + 8, pair.1) =~= b.subrange(i, pair.1));
}

/// The one-byte encoding of a boolean.
pub open spec fn enc_bool(b: bool) -> Seq<u8> {
    if b {
        seq![1u8]
    } else {
        seq![0u8]
    }
}

/// The payload a response value serialises to: a tag byte, then the
/// variant's fields in order.
pub open spec fn spec_encode_response(v: ResponseValueView) -> Seq<u8> {
    match v {
        ResponseValueView::Digest(d) => seq![1u8] + enc_str(d),
        ResponseValueView::Manifest(m) => seq![2u8] + enc_bytes(m),
        ResponseValueView::ManifestAndConfig(m, c) => seq![3u8] + enc_bytes(m) + enc_bytes(c),
        ResponseValueView::Verification { digest, claims } => seq![4u8] + enc_str(digest)
            + enc_str_list(claims),
        ResponseValueView::Lookup(ips) => seq![5u8] + enc_str_list(ips),
        ResponseValueView::Resource(r) => seq![6u8] + enc_bytes(r),
        ResponseValueView::PluralName(p) => seq![7u8] + enc_str(p),
        ResponseValueView::CanI(b) => seq![8u8] + enc_bool(b),
        ResponseValueView::HasChanged(b) => seq![9u8] + enc_bool(b),
    }
}

/// The value a payload decodes to, if any: the payload must carry a known
/// tag, well-formed fields, and nothing after them.
pub open spec fn spec_decode_response(b: Seq<u8>) -> Option<ResponseValueView> {
    if b.len() < 1 {
        None
    } else if b[0] == 1 {
        match dec_str_at(b, 1) {
            Some(p) => if p.1 == b.len() {
                Some(ResponseValueView::Digest(p.0))
            } else {
                None
            },
            None => None,
        }
    } else if b[0] == 2 {
        match dec_bytes_at(b, 1) {
            Some(p) => if p.1 == b.len() {
                Some(ResponseValueView::Manifest(p.0))
            } else {
                None
            },
            None => None,
        }
    } else if b[0] == 3 {
        match dec_bytes_at(b, 1) {
            Some(p) => match dec_bytes_at(b, p.1) {
                Some(q) => if q.1 == b.len() {
                    Some(ResponseValueView::ManifestAndConfig(p.0, q.0))
                } else {
                    None
                },
                None => None,
            },
            None => None,
        }
    } else if b[0] == 4 {
        match dec_str_at(b, 1) {
            Some(p) => match dec_str_list_at(b, p.1) {
                Some(q) => if q.1 == b.len() {
                    Some(ResponseValueView::Verification { digest: p.0, claims: q.0 })
                } else {
                    None
                },
                None => None,
            },
            None => None,
        }
    } else if b[0] == 5 {
        match dec_str_list_at(b, 1) {
            Some(p) => if p.1 == b.len() {
                Some(ResponseValueView::Lookup(p.0))
            } else {
                None
            },
            None => None,
        }
    } else if b[0] == 6 {
        match dec_bytes_at(b, 1) {
            Some(p) => if p.1 == b.len() {
                Some(ResponseValueView::Resource(p.0))
            } else {
                None
            },
            None => None,
        }
    } else if b[0] == 7 {
        match dec_str_at(b, 1) {
            Some(p) => if p.1 == b.len() {
                Some(ResponseValueView::PluralName(p.0))
            } else {
                None
            },
            None => None,
        }
    } else if b[0] == 8 {
        if b.len() == 2 && (b[1] == 0 || b[1] == 1) {
            Some(ResponseValueView::CanI(b[1] == 1))
        } else {
            None
        }
    } else if b[0] == 9 {
        if b.len() == 2 && (b[1] == 0 || b[1] == 1) {
            Some(ResponseValueView::HasChanged(b[1] == 1))
        } else {
            None
        }
    } else {
        None
    }
}

/// Every variable-length field of the value fits its length prefix.
/// Values built from in-memory strings and vectors always do.
pub open spec fn encodable(v: ResponseValueView) -> bool {
    match v {
        ResponseValueView::Digest(d) => d.len() < 0x1_0000_0000_0000_0000,
        ResponseValueView::Manifest(m) => m.len() < 0x1_0000_0000_0000_0000,
        ResponseValueView::ManifestAndConfig(m, c) => m.len() < 0x1_0000_0000_0000_0000 && c.len()
            < 0x1_0000_0000_0000_0000,
        ResponseValueView::Verification { digest, claims } => digest.len()
            < 0x1_0000_0000_0000_0000 && claims.len() < 0x1_0000_0000_0000_0000 && (forall|t: int|
            0 <= t < claims.len() ==> #[trigger] claims[t].len() < 0x1_0000_0000_0000_0000),
        ResponseValueView::Lookup(ips) => ips.len() < 0x1_0000_0000_0000_0000 && (forall|t: int|
            0 <= t < ips.len() ==> #[trigger] ips[t].len() < 0x1_0000_0000_0000_0000),
        ResponseValueView::Resource(r) => r.len() < 0x1_0000_0000_0000_0000,
        ResponseValueView::PluralName(p) => p.len() < 0x1_0000_0000_0000_0000,
        ResponseValueView::CanI(_) => true,
        ResponseValueView::HasChanged(_) => true,
    }
}

/// Deserialising a serialised value gives the value back: the codec loses
/// nothing.
#[verifier::rlimit(100)]
pub proof fn lemma_deserialise_of_serialise(v: ResponseValueView)
    requires
        encodable(v),
    ensures
        spec_decode_response(spec_encode_response(v)) == Some(v),
{
    let b = spec_encode_response(v);
    match v {
        ResponseValueView::Digest(d) => {
            lemma_enc_chars_len(d);
            let flen = 8 + 4 * d.len() as int;
            assert(b.subrange(1, 1 + flen) =~= enc_str(d));
            lemma_dec_str_frame(b, 1, d);
        },
        ResponseValueView::Manifest(m) => {
            let flen = 8 + m.len() as int;
            assert(b.subrange(1, 1 + flen) =~= enc_bytes(m));
            lemma_dec_bytes_frame(b, 1, m);
        },
        ResponseValueView::ManifestAndConfig(m, c) => {
            let f1 = 8 + m.len() as int;
            let f2 = 8 + c.len() as int;
            assert(b.subrange(1, 1 + f1) =~= enc_bytes(m));
            lemma_dec_bytes_frame(b, 1, m);
            assert(b.subrange(1 + f1, 1 + f1 + f2) =~= enc_bytes(c));
            lemma_dec_bytes_frame(b, 1 + f1, c);
        },
        ResponseValueView::Verification { digest, claims } => {
            lemma_enc_chars_len(digest);
            let f1 = 8 + 4 * digest.len() as int;
            let f2 = 8 + enc_strs(claims).len() as int;
            assert(b.subrange(1, 1 + f1) =~= enc_str(digest));
            lemma_dec_str_frame(b, 1, digest);
            assert(b.subrange(1 + f1, 1 + f1 + f2) =~= enc_str_list(claims));
            lemma_dec_str_list_frame(b, 1 + f1, claims);
        },
        ResponseValueView::Lookup(ips) => {
            let flen = 8 + enc_strs(ips).len() as int;
            assert(b.subrange(1, 1 + flen) =~= enc_str_list(ips));
            lemma_dec_str_list_frame(b, 1, ips);
        },
        ResponseValueView::Resource(r) => {
            let flen = 8 + r.len() as int;
            assert(b.subrange(1, 1 + flen) =~= enc_bytes(r));
            lemma_dec_bytes_frame(b, 1, r);
        },
        ResponseValueView::PluralName(p) => {
            lemma_enc_chars_len(p);
            let flen = 8 + 4 * p.len() as int;
            assert(b.subrange(1, 1 + flen) =~= enc_str(p));
            lemma_dec_str_frame(b, 1, p);
        },
        ResponseValueView::CanI(x) => {
            assert(b.len() == 2 && b[0] == 8);
        },
        ResponseValueView::HasChanged(x) => {
            assert(b.len() == 2 && b[0] == 9);
        },
    }
}

/// Serialising a deserialised payload reproduces the payload byte for
/// byte: the encoding is canonical, so equal values always serialise to
/// identical bytes, across processes.
pub proof fn lemma_serialise_of_deserialise(b: Seq<u8>)
    requires
        spec_decode_response(b) is Some,
    ensures
        spec_encode_response(spec_decode_response(b)->Some_0) == b,
{
    let v = spec_decode_response(b)->Some_0;
    if b[0] == 1 || b[0] == 7 {
        let p = dec_str_at(b, 1)->Some_0;
        lemma_enc_of_dec_str(b, 1);
        assert(spec_encode_response(v) =~= b);
    } else if b[0] == 2 || b[0] == 6 {
        let p = dec_bytes_at(b, 1)->Some_0;
        lemma_enc_of_dec_bytes(b, 1);
        assert(spec_encode_response(v) =~= b);
    } else if b[0] == 3 {
        let p = dec_bytes_at(b, 1)->Some_0;
        lemma_enc_of_dec_bytes(b, 1);
        let q = dec_bytes_at(b, p.1)->Some_0;
        lemma_enc_of_dec_bytes(b, p.1);
        assert(spec_encode_response(v) =~= (seq![3u8] + enc_bytes(p.0)) + enc_bytes(q.0));
        assert(spec_encode_response(v) =~= b);
    } else if b[0] == 4 {
        let p = dec_str_at(b, 1)->Some_0;
        lemma_enc_of_dec_str(b, 1);
        let q = dec_str_list_at(b, p.1)->Some_0;
        lemma_enc_of_dec_str_list(b, p.1);
        assert(spec_encode_response(v) =~= (seq![4u8] + enc_str(p.0)) + enc_str_list(q.0));
        assert(spec_encode_response(v) =~= b);
    } else if b[0] == 5 {
        let p = dec_str_list_at(b, 1)->Some_0;
        lemma_enc_of_dec_str_list(b, 1);
        assert(spec_encode_response(v) =~= b);
    } else {
        assert(b[0] == 8 || b[0] == 9);
        assert(spec_encode_response(v) =~= b);
    }
}

/// Append a length-prefixed string: character count, then four bytes per
/// character.
pub fn push_str_bytes(out: &mut Vec<u8>, s: &String)
    ensures
        final(out)@ == old(out)@ + enc_str(s@),
{
    let n = s.as_str().unicode_len();
    push_u64(out, n as u64);
    let ghost base = out@;
    let mut i: usize = 0;
    while i < n
        invariant
            i <= n,
            n == s@.len(),
            out@ == base + enc_chars(s@.take(i as int)),
        decreases n - i,
    {
        let c = s.as_str().get_char(i);
        let v: u32 = c as u32;
        out.push((v >> 0) as u8);
        out.push((v >> 8) as u8);
        out.push((v >> 16) as u8);
        out.push((v >> 24) as u8);
        proof {
            assert(s@.take(i as int).push(s@[i as int]) =~= s@.take(i + 1));
            lemma_enc_chars_snoc(s@.take(i as int), s@[i as int]);
            assert(out@ =~= base + enc_chars(s@.take(i + 1)));
        }
        i = i + 1;
    }
    proof {
        assert(s@.take(n as int) =~= s@);
        assert(out@ =~= old(out)@ + enc_str(s@));
    }
}

/// Append a length-prefixed byte blob.
pub fn push_bytes_blob(out: &mut Vec<u8>, v: &Vec<u8>)
    ensures
        final(out)@ == old(out)@ + enc_bytes(v@),
{
    push_u64(out, v.len() as u64);
    let ghost base = out@;
    let mut i: usize = 0;
    while i < v.len()
        invariant
            i <= v@.len(),
            out@ == base + v@.take(i as int),
        decreases v@.len() - i,
    {
        out.push(v[i]);
        proof {
            assert(out@ =~= base + v@.take(i + 1));
        }
        i = i + 1;
    }
    proof {
        assert(v@.take(v@.len() as int) =~= v@);
        assert(out@ =~= old(out)@ + enc_bytes(v@));
    }
}

/// Append a length-prefixed list of strings.
pub fn push_str_list(out: &mut Vec<u8>, l: &Vec<String>)
    ensures
        final(out)@ == old(out)@ + enc_str_list(strs_view(l@)),
{
    push_u64(out, l.len() as u64);
    let ghost base = out@;
    let mut i: usize = 0;
    while i < l.len()
        invariant
            i <= l@.len(),
            out@ == base + enc_strs(strs_view(l@).take(i as int)),
        decreases l@.len() - i,
    {
        push_str_bytes(out, &l[i]);
        proof {
            assert(strs_view(l@).take(i as int).push(l@[i as int]@) =~= strs_view(l@).take(i + 1));
            lemma_enc_strs_snoc(strs_view(l@).take(i as int), l@[i as int]@);
            assert(out@ =~= base + enc_strs(strs_view(l@).take(i + 1)));
        }
        i = i + 1;
    }
    proof {
        assert(strs_view(l@).take(l@.len() as int) =~= strs_view(l@));
        assert(strs_view(l@).len() == l@.len());
        assert(out@ =~= old(out)@ + enc_str_list(strs_view(l@)));
    }
}

/// Serialise a provider response into its payload bytes.
pub fn encode_response(v: &ResponseValue) -> (r: Vec<u8>)
    ensures
        r@ == spec_encode_response(v@),
{
    let mut out: Vec<u8> = Vec::new();
    match v {
        ResponseValue::Digest(d) => {
            out.push(1);
            push_str_bytes(&mut out, d);
            proof {
                assert(out@ =~= seq![1u8] + enc_str(d@));
            }
        },
        ResponseValue::Manifest(m) => {
            out.push(2);
            push_bytes_blob(&mut out, m);
            proof {
                assert(out@ =~= seq![2u8] + enc_bytes(m@));
            }
        },
        ResponseValue::ManifestAndConfig(m, c) => {
            out.push(3);
            push_bytes_blob(&mut out, m);
            push_bytes_blob(&mut out, c);
            proof {
                assert(out@ =~= seq![3u8] + enc_bytes(m@) + enc_bytes(c@));
            }
        },
        ResponseValue::Verification { digest, claims } => {
            out.push(4);
            push_str_bytes(&mut out, digest);
            push_str_list(&mut out, claims);
            proof {
                assert(out@ =~= seq![4u8] + enc_str(digest@) + enc_str_list(strs_view(claims@)));
            }
        },
        ResponseValue::Lookup(ips) => {
            out.push(5);
            push_str_list(&mut out, ips);
            proof {
                assert(out@ =~= seq![5u8] + enc_str_list(strs_view(ips@)));
            }
        },
        ResponseValue::Resource(r) => {
            out.push(6);
            push_bytes_blob(&mut out, r);
            proof {
                assert(out@ =~= seq![6u8] + enc_bytes(r@));
            }
        },
        ResponseValue::PluralName(p) => {
            out.push(7);
            push_str_bytes(&mut out, p);
            proof {
                assert(out@ =~= seq![7u8] + enc_str(p@));
            }
        },
        ResponseValue::CanI(x) => {
            out.push(8);
            out.push(if *x { 1 } else { 0 });
            proof {
                assert(out@ =~= seq![8u8] + enc_bool(*x));
            }
        },
        ResponseValue::HasChanged(x) => {
            out.push(9);
            out.push(if *x { 1 } else { 0 });
            proof {
                assert(out@ =~= seq![9u8] + enc_bool(*x));
            }
        },
    }
    out
}

/// Read a length-prefixed string at `i`.
pub fn read_str_at(b: &Vec<u8>, i: usize) -> (r: Option<(String, usize)>)
    requires
        i <= b@.len(),
    ensures
        match r {
            Some(p) => dec_str_at(b@, i as int) == Some((p.0@, p.1 as int)) && p.1 <= b@.len(),
            None => dec_str_at(b@, i as int) is None,
        },
{
    let len = b.len();
    if len - i < 8 {
        return None;
    }
    let n = read_u64(b, i);
    let mut s = String::new();
    let mut pos: usize = i + 8;
    let mut k: u64 = 0;
    while k < n
        invariant
            i + 8 <= pos <= len,
            len == b@.len(),
            n == dec_u64(b@, i as int),
            k <= n,
            dec_chars(b@, i + 8, n as nat) == (match dec_chars(b@, pos as int, (n - k) as nat) {
                Some(rest) => Some((s@ + rest.0, rest.1)),
                None => None,
            }),
        decreases n - k,
    {
        if len - pos < 4 {
            proof {
                assert(dec_chars(b@, pos as int, (n - k) as nat) is None);
            }
            return None;
        }
        let v = read_u32(b, pos);
        match char::from_u32(v) {
            Some(c) => {
                let ghost s_old = s@;
                s.push(c);
                proof {
                    let rem = (n - k) as nat;
                    if dec_chars(b@, pos + 4, (rem - 1) as nat) is Some {
                        let p = dec_chars(b@, pos + 4, (rem - 1) as nat)->Some_0;
                        assert(s_old + (seq![c] + p.0) =~= s_old.push(c) + p.0);
                    }
                }
                pos = pos + 4;
                k = k + 1;
            },
            None => {
                proof {
                    assert(dec_chars(b@, pos as int, (n - k) as nat) is None);
                }
                return None;
            },
        }
    }
    proof {
        assert(s@ + Seq::<char>::empty() =~= s@);
    }
    Some((s, pos))
}

/// Read a length-prefixed byte blob at `i`.
pub fn read_bytes_at(b: &Vec<u8>, i: usize) -> (r: Option<(Vec<u8>, usize)>)
    requires
        i <= b@.len(),
    ensures
        match r {
            Some(p) => dec_bytes_at(b@, i as int) == Some((p.0@, p.1 as int)) && p.1 <= b@.len(),
            None => dec_bytes_at(b@, i as int) is None,
        },
{
    let len = b.len();
    if len - i < 8 {
        return None;
    }
    let n = read_u64(b, i);
    let start = i + 8;
    if n > (len - start) as u64 {
        return None;
    }
    let count = n as usize;
    let mut out: Vec<u8> = Vec::new();
    let mut k: usize = 0;
    while k < count
        invariant
            k <= count,
            start + count <= len,
            len == b@.len(),
            out@ == b@.subrange(start as int, (start + k) as int),
        decreases count - k,
    {
        out.push(b[start + k]);
        proof {
            assert(out@ =~= b@.subrange(start as int, (start + k + 1) as int));
        }
        k = k + 1;
    }
    Some((out, start + count))
}

/// Read a length-prefixed list of strings at `i`.
pub fn read_str_list_at(b: &Vec<u8>, i: usize) -> (r: Option<(Vec<String>, usize)>)
    requires
        i <= b@.len(),
    ensures
        match r {
            Some(p) => dec_str_list_at(b@, i as int) == Some((strs_view(p.0@), p.1 as int)) && p.1
                <= b@.len(),
            None => dec_str_list_at(b@, i as int) is None,
        },
{
    let len = b.len();
    if len - i < 8 {
        return None;
    }
    let n = read_u64(b, i);
    let mut out: Vec<String> = Vec::new();
    let mut pos: usize = i + 8;
    let mut k: u64 = 0;
    while k < n
        invariant
            i + 8 <= pos <= len,
            len == b@.len(),
            n == dec_u64(b@, i as int),
            k <= n,
            dec_strs(b@, i + 8, n as nat) == (match dec_strs(b@, pos as int, (n - k) as nat) {
                Some(rest) => Some((strs_view(out@) + rest.0, rest.1)),
                None => None,
            }),
        decreases n - k,
    {
        match read_str_at(b, pos) {
            Some(pair) => {
                let ghost out_old = strs_view(out@);
                let ghost item = pair.0@;
                let next_pos = pair.1;
                out.push(pair.0);
                proof {
                    lemma_enc_of_dec_str(b@, pos as int);
                    assert(strs_view(out@) =~= out_old.push(item));
                    let rem = (n - k) as nat;
                    if dec_strs(b@, next_pos as int, (rem - 1) as nat) is Some {
                        let p = dec_strs(b@, next_pos as int, (rem - 1) as nat)->Some_0;
                        assert(out_old + (seq![item] + p.0) =~= out_old.push(item) + p.0);
                    }
                }
                pos = next_pos;
                k = k + 1;
            },
            None => {
                proof {
                    assert(dec_strs(b@, pos as int, (n - k) as nat) is None);
                }
                return None;
            },
        }
    }
    proof {
        assert(strs_view(out@) + Seq::<Seq<char>>::empty() =~= strs_view(out@));
    }
    Some((out, pos))
}

/// Deserialise a payload back into the provider response it encodes.
pub fn decode_response(b: &Vec<u8>) -> (r: Option<ResponseValue>)
    ensures
        match r {
            Some(v) => spec_decode_response(b@) == Some(v@),
            None => spec_decode_response(b@) is None,
        },
{
    let len = b.len();
    if len < 1 {
        return None;
    }
    let tag = b[0];
    if tag == 1 {
        match read_str_at(b, 1) {
            Some(p) => if p.1 == len {
                Some(ResponseValue::Digest(p.0))
            } else {
                None
            },
            None => None,
        }
    } else if tag == 2 {
        match read_bytes_at(b, 1) {
            Some(p) => if p.1 == len {
                Some(ResponseValue::Manifest(p.0))
            } else {
                None
            },
            None => None,
        }
    } else if tag == 3 {
        match read_bytes_at(b, 1) {
            Some(p) => match read_bytes_at(b, p.1) {
                Some(q) => if q.1 == len {
                    Some(ResponseValue::ManifestAndConfig(p.0, q.0))
                } else {
                    None
                },
                None => None,
            },
            None => None,
        }
    } else if tag == 4 {
        match read_str_at(b, 1) {
            Some(p) => match read_str_list_at(b, p.1) {
                Some(q) => if q.1 == len {
                    Some(ResponseValue::Verification { digest: p.0, claims: q.0 })
                } else {
                    None
                },
                None => None,
            },
            None => None,
        }
    } else if tag == 5 {
        match read_str_list_at(b, 1) {
            Some(p) => if p.1 == len {
                Some(ResponseValue::Lookup(p.0))
            } else {
                None
            },
            None => None,
        }
    } else if tag == 6 {
        match read_bytes_at(b, 1) {
            Some(p) => if p.1 == len {
                Some(ResponseValue::Resource(p.0))
            } else {
                None
            },
            None => None,
        }
    } else if tag == 7 {
        match read_str_at(b, 1) {
            Some(p) => if p.1 == len {
                Some(ResponseValue::PluralName(p.0))
            } else {
                None
            },
            None => None,
        }
    } else if tag == 8 {
        if len == 2 {
            let x = b[1];
            if x == 0 {
                Some(ResponseValue::CanI(false))
            } else if x == 1 {
                Some(ResponseValue::CanI(true))
            } else {
                None
            }
        } else {
            None
        }
    } else if tag == 9 {
        if len == 2 {
            let x = b[1];
            if x == 0 {
                Some(ResponseValue::HasChanged(false))
            } else if x == 1 {
                Some(ResponseValue::HasChanged(true))
            } else {
                None
            }
        } else {
            None
        }
    } else {
        None
    }
}

} // verus!
