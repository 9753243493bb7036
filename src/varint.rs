use crate::error::{agrees, failure, DecodeError, ErrorKind};
use vstd::prelude::*;

verus! {

/// Weight of the seven-bit group at index `i`: 128 to the power `i`.
pub open spec fn group_weight(i: nat) -> nat
    decreases i,
{
    if i == 0 {
        1
    } else {
        128 * group_weight((i - 1) as nat)
    }
}

/// The varint of `v`: seven payload bits per byte, low-order group first, the
/// high bit set on every byte but the last.
pub open spec fn varint_bytes(v: nat) -> Seq<u8>
    decreases v,
{
    if v < 128 {
        seq![v as u8]
    } else {
        seq![(v % 128 + 128) as u8] + varint_bytes(v / 128)
    }
}

/// Wire form of a signed 32-bit value: the varint of its two's-complement bits.
pub open spec fn varint_bytes_signed(v: i32) -> Seq<u8> {
    varint_bytes((v as u32) as nat)
}

/// Reads on from group `i` of the varint at `pos`, the groups before it
/// having summed to `acc`. At most five groups fit a 32-bit value; bits past
/// the 32nd are dropped.
pub open spec fn parse_varint_from(s: Seq<u8>, pos: int, i: nat, acc: nat) -> Result<(u32, int), DecodeError>
    decreases 5 - i,
{
    if i >= 5 {
        Err(failure(ErrorKind::MalformedVarint, pos))
    } else if pos + i >= s.len() {
        Err(failure(ErrorKind::UnexpectedEndOfInput, pos))
    } else {
        let b = s[pos + i];
        let next = acc + (b % 128) as nat * group_weight(i);
        if b < 128 {
            Ok(((next % 0x1_0000_0000) as u32, pos + i + 1))
        } else {
            parse_varint_from(s, pos, i + 1, next)
        }
    }
}

/// The unsigned varint at `pos`, with the position after it.
pub open spec fn parse_varint(s: Seq<u8>, pos: int) -> Result<(u32, int), DecodeError> {
    parse_varint_from(s, pos, 0, 0)
}

/// The signed varint at `pos`: the unsigned one read as two's complement.
pub open spec fn parse_varint_signed(s: Seq<u8>, pos: int) -> Result<(i32, int), DecodeError> {
    match parse_varint(s, pos) {
        Ok((v, p)) => Ok((v as i32, p)),
        Err(e) => Err(e),
    }
}

proof fn lemma_group_weight_values()
    ensures
        group_weight(0) == 1,
        group_weight(1) == 128,
        group_weight(2) == 0x4000,
        group_weight(3) == 0x20_0000,
        group_weight(4) == 0x1000_0000,
        group_weight(5) == 0x8_0000_0000,
{
    reveal_with_fuel(group_weight, 6);
}

/// Reads the unsigned varint that starts at `pos`.
pub fn read_varint(buf: &[u8], pos: usize) -> (r: Result<(u32, usize), DecodeError>)
    requires
        pos <= buf@.len(),
    ensures
        agrees(r, parse_varint(buf@, pos as int)),
        r matches Ok((_, p)) ==> pos < p <= buf@.len(),
{
    proof {
        lemma_group_weight_values();
    }
    let mut i: usize = 0;
    let mut acc: u64 = 0;
    let mut weight: u64 = 1;
    loop
        invariant
            pos <= buf@.len(),
            i <= 4,
            weight == group_weight(i as nat),
            acc < weight,
            parse_varint(buf@, pos as int) == parse_varint_from(buf@, pos as int, i as nat, acc as nat),
        decreases 5 - i,
    {
        proof {
            lemma_group_weight_values();
        }
        if i >= buf.len() - pos {
            return Err(DecodeError::new(ErrorKind::UnexpectedEndOfInput, pos));
        }
        let b = buf[pos + i];
        let low: u64 = (b % 128) as u64;
        assert(low * weight <= 127 * weight) by (nonlinear_arith)
            requires
                low <= 127,
        ;
        assert(weight <= 0x1000_0000) by {
            if i == 0 {} else if i == 1 {} else if i == 2 {} else if i == 3 {} else {}
        }
        let next: u64 = acc + low * weight;
        if b < 128 {
            return Ok(((next % 0x1_0000_0000) as u32, pos + i + 1));
        }
        if i == 4 {
            assert(parse_varint_from(buf@, pos as int, 5, next as nat) == Err::<(u32, int), DecodeError>(
                failure(ErrorKind::MalformedVarint, pos as int),
            ));
            return Err(DecodeError::new(ErrorKind::MalformedVarint, pos));
        }
        assert(weight <= 0x20_0000) by {
            if i == 0 {} else if i == 1 {} else if i == 2 {} else {}
        }
        i = i + 1;
        weight = weight * 128;
        acc = next;
    }
}

/// Reads the signed varint that starts at `pos`.
pub fn read_varint_signed(buf: &[u8], pos: usize) -> (r: Result<(i32, usize), DecodeError>)
    requires
        pos <= buf@.len(),
    ensures
        agrees(r, parse_varint_signed(buf@, pos as int)),
        r matches Ok((_, p)) ==> pos < p <= buf@.len(),
{
    match read_varint(buf, pos) {
        Ok((v, p)) => Ok((v as i32, p)),
        Err(e) => Err(e),
    }
}

/// Appends the varint of `v`.
pub fn write_varint(out: &mut Vec<u8>, v: u32)
    ensures
        final(out)@ == old(out)@ + varint_bytes(v as nat),
{
    let ghost start = out@;
    let mut rest: u32 = v;
    loop
        invariant
            start == old(out)@,
            out@ + varint_bytes(rest as nat) == start + varint_bytes(v as nat),
        decreases rest,
    {
        if rest < 128 {
            let ghost before = out@;
            out.push(rest as u8);
            assert(out@ =~= before + varint_bytes(rest as nat));
            return;
        }
        let ghost before = out@;
        out.push((rest % 128 + 128) as u8);
        assert(out@ + varint_bytes((rest / 128) as nat) =~= before + varint_bytes(rest as nat));
        rest = rest / 128;
    }
}

/// Appends the varint of the two's-complement bits of `v`.
pub fn write_varint_signed(out: &mut Vec<u8>, v: i32)
    ensures
        final(out)@ == old(out)@ + varint_bytes_signed(v),
{
    write_varint(out, v as u32);
}

proof fn lemma_parse_encoded_groups(s: Seq<u8>, pos: int, i: nat, acc: nat, w: nat)
    requires
        0 <= pos,
        i + varint_bytes(w).len() <= 5,
        pos + i + varint_bytes(w).len() <= s.len(),
        s.subrange(pos + i, pos + i + varint_bytes(w).len()) == varint_bytes(w),
    ensures
        parse_varint_from(s, pos, i, acc) == Ok::<(u32, int), DecodeError>(
            (((acc + w * group_weight(i)) % 0x1_0000_0000) as u32, pos + i + varint_bytes(w).len()),
        ),
    decreases w,
{
    let enc = varint_bytes(w);
    assert(s[pos + i] == s.subrange(pos + i, pos + i + enc.len())[0]);
    if w >= 128 {
        let tail = varint_bytes(w / 128);
        let low = (w % 128) as nat;
        assert(s.subrange(pos + i + 1, pos + i + 1 + tail.len()) =~= tail) by {
            assert forall|j: int| 0 <= j < tail.len() implies s.subrange(
                pos + i + 1,
                pos + i + 1 + tail.len(),
            )[j] == tail[j] by {
                assert(s.subrange(pos + i, pos + i + enc.len())[j + 1] == enc[j + 1]);
            }
        }
        lemma_parse_encoded_groups(s, pos, i + 1, acc + low * group_weight(i), w / 128);
        let g = group_weight(i);
        assert(acc + low * g + (w / 128) * (128 * g) == acc + w * g) by (nonlinear_arith)
            requires
                w == 128 * (w / 128) + low,
        ;
    }
}

proof fn lemma_varint_len(v: nat, k: nat)
    requires
        1 <= k,
        v < group_weight(k),
    ensures
        varint_bytes(v).len() <= k,
    decreases k,
{
    if v >= 128 {
        if k == 1 {
            reveal_with_fuel(group_weight, 2);
        } else {
            let g = group_weight((k - 1) as nat);
            assert(v / 128 < g) by (nonlinear_arith)
                requires
                    v < 128 * g,
            ;
            lemma_varint_len(v / 128, (k - 1) as nat);
        }
    }
}

/// Decoding the varint of any 32-bit value, wherever it stands in the input,
/// gives the value back and ends right after its one to five bytes.
pub proof fn lemma_varint_round_trip(v: u32, s: Seq<u8>, pos: int)
    requires
        0 <= pos,
        pos + varint_bytes(v as nat).len() <= s.len(),
        s.subrange(pos, pos + varint_bytes(v as nat).len()) == varint_bytes(v as nat),
    ensures
        parse_varint(s, pos) == Ok::<(u32, int), DecodeError>((v, pos + varint_bytes(v as nat).len())),
        1 <= varint_bytes(v as nat).len() <= 5,
{
    lemma_group_weight_values();
    lemma_varint_len(v as nat, 5);
    lemma_parse_encoded_groups(s, pos, 0, 0, v as nat);
}

/// The same for signed values, carried as their two's-complement bits.
pub proof fn lemma_varint_signed_round_trip(v: i32, s: Seq<u8>, pos: int)
    requires
        0 <= pos,
        pos + varint_bytes_signed(v).len() <= s.len(),
        s.subrange(pos, pos + varint_bytes_signed(v).len()) == varint_bytes_signed(v),
    ensures
        parse_varint_signed(s, pos) == Ok::<(i32, int), DecodeError>((v, pos + varint_bytes_signed(v).len())),
        1 <= varint_bytes_signed(v).len() <= 5,
{
    lemma_varint_round_trip(v as u32, s, pos);
    assert((v as u32) as i32 == v) by (bit_vector);
}

} // verus!
