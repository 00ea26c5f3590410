//! Wire-format primitives shared by every MQTT v3 control packet: two-byte
//! big-endian integers, the variable-byte remaining-length integer, and
//! length-prefixed byte fields. Each primitive has a spec-level encoder and
//! parser, executable counterparts proved against them, and round-trip
//! lemmas showing that parsing an encoding recovers the value.

use vstd::prelude::*;
use crate::protocol::DecodeError;

verus! {

/// Largest value the four-byte remaining-length varint can carry.
pub const MAX_REMAINING_LENGTH: u32 = 0x0FFF_FFFF;

/// `sub` occurs in `s` starting at index `i`.
#[verifier::opaque]
pub open spec fn seq_has_at(s: Seq<u8>, i: int, sub: Seq<u8>) -> bool {
    0 <= i && i + sub.len() <= s.len() && s.subrange(i, i + sub.len()) == sub
}

/// Occurrence of a concatenation splits into occurrences of the parts.
pub proof fn lemma_has_at_concat(s: Seq<u8>, i: int, a: Seq<u8>, b: Seq<u8>)
    requires
        seq_has_at(s, i, a + b),
    ensures
        seq_has_at(s, i, a),
        seq_has_at(s, i + a.len(), b),
{
    reveal(seq_has_at);
    assert(s.subrange(i, i + a.len()) =~= a) by {
        assert forall|k: int| 0 <= k < a.len() implies s.subrange(i, i + a.len())[k] == a[k] by {
            assert(s.subrange(i, i + (a + b).len())[k] == (a + b)[k]);
        }
    }
    assert(s.subrange(i + a.len(), i + a.len() + b.len()) =~= b) by {
        assert forall|k: int| 0 <= k < b.len() implies s.subrange(
            i + a.len(),
            i + a.len() + b.len(),
        )[k] == b[k] by {
            assert(s.subrange(i, i + (a + b).len())[a.len() + k] == (a + b)[a.len() + k]);
        }
    }
}

/// An occurrence lies within the bounds of `s`.
pub proof fn lemma_has_at_bounds(s: Seq<u8>, i: int, sub: Seq<u8>)
    requires
        seq_has_at(s, i, sub),
    ensures
        0 <= i,
        i + sub.len() <= s.len(),
{
    reveal(seq_has_at);
}

/// Byte of `s` inside an occurrence of `sub` equals the byte of `sub`.
pub proof fn lemma_has_at_index(s: Seq<u8>, i: int, sub: Seq<u8>, k: int)
    requires
        seq_has_at(s, i, sub),
        0 <= k < sub.len(),
    ensures
        s[i + k] == sub[k],
{
    reveal(seq_has_at);
    assert(s.subrange(i, i + sub.len())[k] == sub[k]);
}

/// Occurrence of a nine-part concatenation locates each part.
pub proof fn lemma_has_at_nine(
    s: Seq<u8>,
    i: int,
    f1: Seq<u8>,
    f2: Seq<u8>,
    f3: Seq<u8>,
    f4: Seq<u8>,
    f5: Seq<u8>,
    f6: Seq<u8>,
    f7: Seq<u8>,
    f8: Seq<u8>,
    f9: Seq<u8>,
)
    requires
        seq_has_at(s, i, f1 + f2 + f3 + f4 + f5 + f6 + f7 + f8 + f9),
    ensures
        seq_has_at(s, i, f1),
        seq_has_at(s, i + f1.len(), f2),
        seq_has_at(s, i + f1.len() + f2.len(), f3),
        seq_has_at(s, i + f1.len() + f2.len() + f3.len(), f4),
        seq_has_at(s, i + f1.len() + f2.len() + f3.len() + f4.len(), f5),
        seq_has_at(s, i + f1.len() + f2.len() + f3.len() + f4.len() + f5.len(), f6),
        seq_has_at(s, i + f1.len() + f2.len() + f3.len() + f4.len() + f5.len() + f6.len(), f7),
        seq_has_at(
            s,
            i + f1.len() + f2.len() + f3.len() + f4.len() + f5.len() + f6.len() + f7.len(),
            f8,
        ),
        seq_has_at(
            s,
            i + f1.len() + f2.len() + f3.len() + f4.len() + f5.len() + f6.len() + f7.len()
                + f8.len(),
            f9,
        ),
{
    lemma_has_at_concat(s, i, f1 + f2 + f3 + f4 + f5 + f6 + f7 + f8, f9);
    lemma_has_at_concat(s, i, f1 + f2 + f3 + f4 + f5 + f6 + f7, f8);
    lemma_has_at_concat(s, i, f1 + f2 + f3 + f4 + f5 + f6, f7);
    lemma_has_at_concat(s, i, f1 + f2 + f3 + f4 + f5, f6);
    lemma_has_at_concat(s, i, f1 + f2 + f3 + f4, f5);
    lemma_has_at_concat(s, i, f1 + f2 + f3, f4);
    lemma_has_at_concat(s, i, f1 + f2, f3);
    lemma_has_at_concat(s, i, f1, f2);
}

/// A packet built as header byte, length bytes and body locates its parts.
pub proof fn lemma_packet_frame(s: Seq<u8>, h: u8, rl: Seq<u8>, var: Seq<u8>)
    requires
        s == seq![h] + rl + var,
    ensures
        s.len() == 1 + rl.len() + var.len(),
        s[0] == h,
        seq_has_at(s, 1, rl),
        seq_has_at(s, 1 + rl.len() as int, var),
{
    assert(seq_has_at(s, 0, seq![h] + (rl + var))) by {
        reveal(seq_has_at);
        assert(s.subrange(0, s.len() as int) =~= s);
        assert(s =~= seq![h] + (rl + var));
    }
    lemma_has_at_concat(s, 0, seq![h], rl + var);
    lemma_has_at_concat(s, 1, rl, var);
    lemma_has_at_index(s, 0, seq![h], 0);
}

/// A chain of eleven appends equals the header, the length, and the
/// nine-part body, grouped the way the packet encoders state it.
pub proof fn lemma_concat_eleven(
    h: Seq<u8>,
    rl: Seq<u8>,
    f1: Seq<u8>,
    f2: Seq<u8>,
    f3: Seq<u8>,
    f4: Seq<u8>,
    f5: Seq<u8>,
    f6: Seq<u8>,
    f7: Seq<u8>,
    f8: Seq<u8>,
    f9: Seq<u8>,
)
    ensures
        Seq::<u8>::empty() + h + rl + f1 + f2 + f3 + f4 + f5 + f6 + f7 + f8 + f9 == h + rl + (f1
            + f2 + f3 + f4 + f5 + f6 + f7 + f8 + f9),
{
    assert(Seq::<u8>::empty() + h + rl + f1 + f2 + f3 + f4 + f5 + f6 + f7 + f8 + f9 =~= h + rl + (
    f1 + f2 + f3 + f4 + f5 + f6 + f7 + f8 + f9));
}

// ---------------------------------------------------------------------------
// Two-byte big-endian integers
// ---------------------------------------------------------------------------

/// Big-endian two-byte encoding of a 16-bit value.
pub open spec fn spec_u16_be(v: u16) -> Seq<u8> {
    seq![(v / 256) as u8, (v % 256) as u8]
}

/// Value of the two bytes of `s` at `i`, read big-endian; `None` when the
/// buffer is too short.
pub open spec fn spec_parse_u16(s: Seq<u8>, i: int) -> Option<u16> {
    if 0 <= i && i + 2 <= s.len() {
        Some((s[i] * 256 + s[i + 1]) as u16)
    } else {
        None
    }
}

/// Parsing a two-byte encoding recovers the value.
pub proof fn lemma_u16_round_trip(s: Seq<u8>, i: int, v: u16)
    requires
        seq_has_at(s, i, spec_u16_be(v)),
    ensures
        spec_parse_u16(s, i) == Some(v),
{
    lemma_has_at_bounds(s, i, spec_u16_be(v));
    lemma_has_at_index(s, i, spec_u16_be(v), 0);
    lemma_has_at_index(s, i, spec_u16_be(v), 1);
    assert((v / 256) * 256 + v % 256 == v) by (nonlinear_arith)
        requires v >= 0;
}

/// Reads a big-endian 16-bit value at `pos`.
pub fn read_u16(bytes: &Vec<u8>, pos: usize) -> (r: u16)
    requires
        pos + 2 <= bytes@.len(),
    ensures
        Some(r) == spec_parse_u16(bytes@, pos as int),
{
    let _ = bytes.len();
    let hi: u16 = bytes[pos] as u16;
    let lo: u16 = bytes[pos + 1] as u16;
    hi * 256 + lo
}

/// Appends one byte to `out`.
pub fn write_byte(out: &mut Vec<u8>, b: u8)
    ensures
        final(out)@ == old(out)@ + seq![b],
{
    out.push(b);
    assert(final(out)@ =~= old(out)@ + seq![b]);
}

/// Appending the empty sequence changes nothing.
pub proof fn lemma_add_empty(x: Seq<u8>)
    ensures
        x + Seq::<u8>::empty() == x,
{
    assert(x + Seq::<u8>::empty() =~= x);
}

/// A chain of five appends equals the header, the length, and the
/// three-part body, grouped the way the packet encoders state it.
pub proof fn lemma_concat_five(h: Seq<u8>, rl: Seq<u8>, f1: Seq<u8>, f2: Seq<u8>, f3: Seq<u8>)
    ensures
        Seq::<u8>::empty() + h + rl + f1 + f2 + f3 == h + rl + (f1 + f2 + f3),
{
    assert(Seq::<u8>::empty() + h + rl + f1 + f2 + f3 =~= h + rl + (f1 + f2 + f3));
}

/// Appends the big-endian encoding of `v` to `out`.
pub fn write_u16(out: &mut Vec<u8>, v: u16)
    ensures
        final(out)@ == old(out)@ + spec_u16_be(v),
{
    out.push((v / 256) as u8);
    out.push((v % 256) as u8);
    assert(final(out)@ =~= old(out)@ + spec_u16_be(v));
}

// ---------------------------------------------------------------------------
// Remaining length: the 1-4 byte varint of the fixed header
// ---------------------------------------------------------------------------

/// MQTT variable-byte encoding of a remaining length below 2^28: seven value
/// bits per byte, least significant group first, continuation bit 0x80 on
/// every byte but the last.
pub open spec fn spec_rl_encode(n: u32) -> Seq<u8> {
    if n < 0x80 {
        seq![n as u8]
    } else if n < 0x4000 {
        seq![(n % 128 + 128) as u8, (n / 128) as u8]
    } else if n < 0x20_0000 {
        seq![(n % 128 + 128) as u8, ((n / 128) % 128 + 128) as u8, (n / 16384) as u8]
    } else {
        seq![
            (n % 128 + 128) as u8,
            ((n / 128) % 128 + 128) as u8,
            ((n / 16384) % 128 + 128) as u8,
            (n / 2097152) as u8,
        ]
    }
}

/// Parses a remaining-length varint at `i`: the value and the number of
/// bytes consumed. `None` when the buffer ends inside the varint or the
/// fourth byte still has the continuation bit set.
pub open spec fn spec_rl_parse(s: Seq<u8>, i: int) -> Option<(u32, int)> {
    if i < 0 || i >= s.len() {
        None
    } else if s[i] < 128 {
        Some((s[i] as u32, 1))
    } else if i + 1 >= s.len() {
        None
    } else if s[i + 1] < 128 {
        Some((((s[i] - 128) + 128 * s[i + 1]) as u32, 2))
    } else if i + 2 >= s.len() {
        None
    } else if s[i + 2] < 128 {
        Some((((s[i] - 128) + 128 * (s[i + 1] - 128) + 16384 * s[i + 2]) as u32, 3))
    } else if i + 3 >= s.len() {
        None
    } else if s[i + 3] < 128 {
        Some(
            ((
            (s[i] - 128) + 128 * (s[i + 1] - 128) + 16384 * (s[i + 2] - 128) + 2097152 * s[i + 3]
            ) as u32, 4),
        )
    } else {
        None
    }
}

/// Parsing a remaining-length encoding recovers the value and its width.
pub proof fn lemma_rl_round_trip(s: Seq<u8>, i: int, n: u32)
    requires
        n <= MAX_REMAINING_LENGTH,
        seq_has_at(s, i, spec_rl_encode(n)),
    ensures
        spec_rl_parse(s, i) == Some((n, spec_rl_encode(n).len() as int)),
{
    let e = spec_rl_encode(n);
    lemma_has_at_bounds(s, i, e);
    if n < 0x80 {
        lemma_has_at_index(s, i, e, 0);
    } else if n < 0x4000 {
        lemma_has_at_index(s, i, e, 0);
        lemma_has_at_index(s, i, e, 1);
        assert(n % 128 + 128 * (n / 128) == n) by (nonlinear_arith)
            requires n >= 0;
        assert(n / 128 < 128) by (nonlinear_arith)
            requires n < 0x4000;
        assert(n / 128 >= 1) by (nonlinear_arith)
            requires n >= 0x80;
    } else if n < 0x20_0000 {
        lemma_has_at_index(s, i, e, 0);
        lemma_has_at_index(s, i, e, 1);
        lemma_has_at_index(s, i, e, 2);
        assert(n % 128 + 128 * ((n / 128) % 128) + 16384 * (n / 16384) == n) by (nonlinear_arith)
            requires n >= 0;
        assert(n / 16384 < 128) by (nonlinear_arith)
            requires n < 0x20_0000;
        assert(n / 16384 >= 1) by (nonlinear_arith)
            requires n >= 0x4000;
    } else {
        lemma_has_at_index(s, i, e, 0);
        lemma_has_at_index(s, i, e, 1);
        lemma_has_at_index(s, i, e, 2);
        lemma_has_at_index(s, i, e, 3);
        assert(n % 128 + 128 * ((n / 128) % 128) + 16384 * ((n / 16384) % 128) + 2097152 * (n
            / 2097152) == n) by (nonlinear_arith)
            requires n >= 0;
        assert(n / 2097152 < 128) by (nonlinear_arith)
            requires n <= 0x0FFF_FFFF;
        assert(n / 2097152 >= 1) by (nonlinear_arith)
            requires n >= 0x20_0000;
    }
}

/// What any parsed remaining length obeys: one to four bytes consumed, a
/// value the four-byte form can carry.
pub proof fn lemma_rl_parse_bounds(s: Seq<u8>, i: int, n: u32, l: int)
    requires
        spec_rl_parse(s, i) == Some((n, l)),
    ensures
        1 <= l <= 4,
        n <= MAX_REMAINING_LENGTH,
{
}

/// Appends the remaining-length encoding of `n` to `out`.
pub fn write_rl(out: &mut Vec<u8>, n: u32)
    requires
        n <= MAX_REMAINING_LENGTH,
    ensures
        final(out)@ == old(out)@ + spec_rl_encode(n),
{
    if n < 0x80 {
        out.push(n as u8);
    } else if n < 0x4000 {
        out.push((n % 128 + 128) as u8);
        out.push((n / 128) as u8);
        assert(n / 128 < 128) by (nonlinear_arith)
            requires n < 0x4000;
    } else if n < 0x20_0000 {
        out.push((n % 128 + 128) as u8);
        out.push((n / 128 % 128 + 128) as u8);
        out.push((n / 16384) as u8);
        assert(n / 16384 < 128) by (nonlinear_arith)
            requires n < 0x20_0000;
    } else {
        out.push((n % 128 + 128) as u8);
        out.push((n / 128 % 128 + 128) as u8);
        out.push((n / 16384 % 128 + 128) as u8);
        out.push((n / 2097152) as u8);
        assert(n / 2097152 < 128) by (nonlinear_arith)
            requires n <= 0x0FFF_FFFF;
    }
    assert(final(out)@ =~= old(out)@ + spec_rl_encode(n));
}

/// Reads a remaining-length varint at `pos`.
pub fn read_rl(bytes: &Vec<u8>, pos: usize) -> (r: Result<(u32, usize), DecodeError>)
    ensures
        match r {
            Ok((n, l)) => spec_rl_parse(bytes@, pos as int) == Some((n, l as int)) && 1 <= l <= 4
                && pos + l <= bytes@.len() && n <= MAX_REMAINING_LENGTH,
            Err(e) => e == DecodeError::MalformedLength && spec_rl_parse(bytes@, pos as int)
                is None,
        },
{
    if pos >= bytes.len() {
        return Err(DecodeError::MalformedLength);
    }
    let b0 = bytes[pos];
    if b0 < 128 {
        return Ok((b0 as u32, 1));
    }
    if pos + 1 >= bytes.len() {
        return Err(DecodeError::MalformedLength);
    }
    let b1 = bytes[pos + 1];
    if b1 < 128 {
        return Ok(((b0 - 128) as u32 + 128 * b1 as u32, 2));
    }
    if pos + 2 >= bytes.len() {
        return Err(DecodeError::MalformedLength);
    }
    let b2 = bytes[pos + 2];
    if b2 < 128 {
        return Ok(((b0 - 128) as u32 + 128 * (b1 - 128) as u32 + 16384 * b2 as u32, 3));
    }
    if pos + 3 >= bytes.len() {
        return Err(DecodeError::MalformedLength);
    }
    let b3 = bytes[pos + 3];
    if b3 < 128 {
        return Ok((
            (b0 - 128) as u32 + 128 * (b1 - 128) as u32 + 16384 * (b2 - 128) as u32 + 2097152
                * b3 as u32,
            4,
        ));
    }
    Err(DecodeError::MalformedLength)
}

// ---------------------------------------------------------------------------
// Length-prefixed byte fields
// ---------------------------------------------------------------------------

/// A byte field on the wire: two-byte big-endian length, then the bytes.
/// Meaningful when `b` has at most 0xFFFF bytes.
pub open spec fn spec_field_encode(b: Seq<u8>) -> Seq<u8> {
    spec_u16_be(b.len() as u16) + b
}

/// Parses a length-prefixed field at `i`: the bytes and the number of bytes
/// consumed, or `None` when the buffer is too short.
pub open spec fn spec_parse_field(s: Seq<u8>, i: int) -> Option<(Seq<u8>, int)> {
    match spec_parse_u16(s, i) {
        Some(l) => if i + 2 + l <= s.len() {
            Some((s.subrange(i + 2, i + 2 + l), 2 + l as int))
        } else {
            None
        },
        None => None,
    }
}

/// Parsing an encoded field recovers the bytes.
pub proof fn lemma_field_round_trip(s: Seq<u8>, i: int, b: Seq<u8>)
    requires
        b.len() <= 0xFFFF,
        seq_has_at(s, i, spec_field_encode(b)),
    ensures
        spec_parse_field(s, i) == Some((b, 2 + b.len() as int)),
{
    lemma_has_at_bounds(s, i, spec_field_encode(b));
    lemma_has_at_concat(s, i, spec_u16_be(b.len() as u16), b);
    lemma_u16_round_trip(s, i, b.len() as u16);
    assert(s.subrange(i + 2, i + 2 + b.len()) =~= b) by {
        assert forall|k: int| 0 <= k < b.len() implies s.subrange(i + 2, i + 2 + b.len())[k]
            == b[k] by {
            lemma_has_at_index(s, i + 2, b, k);
        }
    }
}

/// Appends each byte of `data` to `out`.
pub fn write_bytes(out: &mut Vec<u8>, data: &Vec<u8>)
    ensures
        final(out)@ == old(out)@ + data@,
{
    let mut k: usize = 0;
    while k < data.len()
        invariant
            k <= data@.len(),
            out@ == old(out)@ + data@.subrange(0, k as int),
        decreases data@.len() - k,
    {
        out.push(data[k]);
        assert(out@ =~= old(out)@ + data@.subrange(0, k + 1 as int));
        k = k + 1;
    }
    assert(data@.subrange(0, data@.len() as int) =~= data@);
}

/// Appends the length-prefixed encoding of `data` to `out`.
pub fn write_field(out: &mut Vec<u8>, data: &Vec<u8>)
    requires
        data@.len() <= 0xFFFF,
    ensures
        final(out)@ == old(out)@ + spec_field_encode(data@),
{
    write_u16(out, data.len() as u16);
    write_bytes(out, data);
    assert(final(out)@ =~= old(out)@ + spec_field_encode(data@));
}

/// Reads a length-prefixed field at `pos`; `MalformedPacket` when truncated.
pub fn read_field(bytes: &Vec<u8>, pos: usize) -> (r: Result<(Vec<u8>, usize), DecodeError>)
    requires
        pos <= bytes@.len(),
    ensures
        match r {
            Ok((data, l)) => spec_parse_field(bytes@, pos as int) == Some((data@, l as int))
                && pos + l <= bytes@.len(),
            Err(e) => e == DecodeError::MalformedPacket && spec_parse_field(bytes@, pos as int)
                is None,
        },
{
    if bytes.len() < 2 || pos > bytes.len() - 2 {
        return Err(DecodeError::MalformedPacket);
    }
    let l = read_u16(bytes, pos) as usize;
    if l > bytes.len() - (pos + 2) {
        return Err(DecodeError::MalformedPacket);
    }
    let mut data: Vec<u8> = Vec::new();
    let mut k: usize = 0;
    while k < l
        invariant
            k <= l,
            pos + 2 + l <= bytes@.len(),
            bytes@.len() <= usize::MAX,
            data@ == bytes@.subrange(pos + 2 as int, pos + 2 + k as int),
        decreases l - k,
    {
        data.push(bytes[pos + 2 + k]);
        assert(data@ =~= bytes@.subrange(pos + 2 as int, pos + 2 + (k + 1) as int));
        k = k + 1;
    }
    Ok((data, 2 + l))
}

} // verus!
