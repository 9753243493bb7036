use crate::error::{failure, DecodeError, DecodeLimits, ErrorKind};
use crate::varint::{lemma_varint_round_trip, parse_varint, read_varint, varint_bytes, write_varint};
use crate::wire::{lemma_split, WireFormat};
use vstd::prelude::*;

verus! {

/// The view of an optional value.
pub open spec fn view_opt<T: View>(o: Option<T>) -> Option<T::V> {
    match o {
        Some(x) => Some(x@),
        None => None,
    }
}

/// The views of a run of values.
pub open spec fn view_seq<T: View>(v: Seq<T>) -> Seq<T::V> {
    v.map_values(|x: T| x@)
}

/// An optional value on the wire: a marker byte, 0 for absent and 1 for
/// present, and the value right after a 1.
pub open spec fn encode_optional<T: WireFormat>(o: Option<T::V>) -> Seq<u8> {
    match o {
        None => seq![0u8],
        Some(v) => seq![1u8] + T::spec_encode(v),
    }
}

/// The optional value at `pos`. A marker other than 0 counts as present.
pub open spec fn parse_optional<T: WireFormat>(s: Seq<u8>, pos: int, lim: DecodeLimits) -> Result<
    (Option<T::V>, int),
    DecodeError,
> {
    if pos >= s.len() {
        Err(failure(ErrorKind::UnexpectedEndOfInput, pos))
    } else if s[pos] == 0 {
        Ok((None, pos + 1))
    } else {
        match T::spec_parse(s, pos + 1, lim) {
            Ok((v, p)) => Ok((Some(v), p)),
            Err(e) => Err(e),
        }
    }
}

/// A present value fits the limits.
pub open spec fn fits_optional<T: WireFormat>(o: Option<T::V>, lim: DecodeLimits) -> bool {
    match o {
        None => true,
        Some(v) => T::spec_fits(v, lim),
    }
}

/// Reads the optional value at `pos`.
pub fn read_optional<T: WireFormat>(buf: &[u8], pos: usize, lim: DecodeLimits) -> (r: Result<
    (Option<T>, usize),
    DecodeError,
>)
    requires
        pos <= buf@.len(),
    ensures
        match r {
            Ok((o, p)) => parse_optional::<T>(buf@, pos as int, lim) == Ok::<_, DecodeError>(
                (view_opt(o), p as int),
            ) && pos < p <= buf@.len(),
            Err(e) => parse_optional::<T>(buf@, pos as int, lim) == Err::<(Option<T::V>, int), _>(e),
        },
{
    if pos >= buf.len() {
        return Err(DecodeError::new(ErrorKind::UnexpectedEndOfInput, pos));
    }
    if buf[pos] == 0 {
        return Ok((None, pos + 1));
    }
    match T::read_into(buf, pos + 1, lim) {
        Ok((v, p)) => Ok((Some(v), p)),
        Err(e) => Err(e),
    }
}

/// Appends the optional value `o`.
pub fn write_optional<T: WireFormat>(out: &mut Vec<u8>, o: &Option<T>)
    requires
        fits_optional::<T>(view_opt(*o), DecodeLimits::spec_widest()),
    ensures
        final(out)@ == old(out)@ + encode_optional::<T>(view_opt(*o)),
{
    match o {
        None => {
            out.push(0u8);
            assert(final(out)@ =~= old(out)@ + encode_optional::<T>(view_opt(*o)));
        },
        Some(v) => {
            out.push(1u8);
            v.write_into(out);
            assert(final(out)@ =~= old(out)@ + encode_optional::<T>(view_opt(*o)));
        },
    }
}

/// Parsing the encoding of an optional value gives it back.
pub proof fn lemma_optional_round_trip<T: WireFormat>(
    o: Option<T::V>,
    s: Seq<u8>,
    pos: int,
    lim: DecodeLimits,
)
    requires
        0 <= pos,
        pos + encode_optional::<T>(o).len() <= s.len(),
        s.subrange(pos, pos + encode_optional::<T>(o).len()) == encode_optional::<T>(o),
        fits_optional::<T>(o, lim),
    ensures
        parse_optional::<T>(s, pos, lim) == Ok::<_, DecodeError>(
            (o, pos + encode_optional::<T>(o).len()),
        ),
        encode_optional::<T>(o).len() >= 1,
{
    let w = encode_optional::<T>(o);
    assert(s[pos] == s.subrange(pos, pos + w.len())[0]);
    if let Some(v) = o {
        lemma_split(s, pos, seq![1u8], T::spec_encode(v));
        T::lemma_round_trip(v, s, pos + 1, lim);
    }
}

/// The records of a sequence, one after another, with no count.
pub open spec fn encode_items<T: WireFormat>(vs: Seq<T::V>) -> Seq<u8>
    decreases vs.len(),
{
    if vs.len() == 0 {
        seq![]
    } else {
        T::spec_encode(vs[0]) + encode_items::<T>(vs.drop_first())
    }
}

/// A sequence on the wire: its count as a varint, then its records in order.
pub open spec fn encode_sequence<T: WireFormat>(vs: Seq<T::V>) -> Seq<u8> {
    varint_bytes(vs.len()) + encode_items::<T>(vs)
}

/// Parses `count` more records at `pos` after the ones already in `acc`.
pub open spec fn parse_items<T: WireFormat>(
    s: Seq<u8>,
    pos: int,
    count: nat,
    acc: Seq<T::V>,
    lim: DecodeLimits,
) -> Result<(Seq<T::V>, int), DecodeError>
    decreases count,
{
    if count == 0 {
        Ok((acc, pos))
    } else {
        match T::spec_parse(s, pos, lim) {
            Err(e) => Err(e),
            Ok((v, p)) => parse_items::<T>(s, p, (count - 1) as nat, acc.push(v), lim),
        }
    }
}

/// The sequence at `pos`. Every record takes at least one byte, so a count
/// over the bytes left is a truncation; one within them but over the limit
/// is refused before any record is read.
pub open spec fn parse_sequence<T: WireFormat>(s: Seq<u8>, pos: int, lim: DecodeLimits) -> Result<
    (Seq<T::V>, int),
    DecodeError,
> {
    match parse_varint(s, pos) {
        Err(e) => Err(e),
        Ok((n, p)) => if n > s.len() - p {
            Err(failure(ErrorKind::UnexpectedEndOfInput, pos))
        } else if n > lim.max_sequence_len {
            Err(failure(ErrorKind::LengthExceeded, pos))
        } else {
            parse_items::<T>(s, p, n as nat, seq![], lim)
        },
    }
}

/// The count and every record fit the limits.
pub open spec fn fits_sequence<T: WireFormat>(vs: Seq<T::V>, lim: DecodeLimits) -> bool {
    &&& vs.len() <= lim.max_sequence_len
    &&& forall|i: int| 0 <= i < vs.len() ==> T::spec_fits(#[trigger] vs[i], lim)
}

/// Reads the sequence at `pos`.
pub fn read_sequence<T: WireFormat>(buf: &[u8], pos: usize, lim: DecodeLimits) -> (r: Result<
    (Vec<T>, usize),
    DecodeError,
>)
    requires
        pos <= buf@.len(),
    ensures
        match r {
            Ok((v, p)) => parse_sequence::<T>(buf@, pos as int, lim) == Ok::<_, DecodeError>(
                (view_seq(v@), p as int),
            ) && pos < p <= buf@.len(),
            Err(e) => parse_sequence::<T>(buf@, pos as int, lim) == Err::<(Seq<T::V>, int), _>(e),
        },
{
    let (n, p) = match read_varint(buf, pos) {
        Ok(x) => x,
        Err(e) => return Err(e),
    };
    if n as usize > buf.len() - p {
        return Err(DecodeError::new(ErrorKind::UnexpectedEndOfInput, pos));
    }
    if n > lim.max_sequence_len {
        return Err(DecodeError::new(ErrorKind::LengthExceeded, pos));
    }
    let mut items: Vec<T> = Vec::new();
    let mut at: usize = p;
    let mut i: u32 = 0;
    assert(view_seq(items@) =~= Seq::<T::V>::empty());
    while i < n
        invariant
            pos < p <= at <= buf@.len(),
            i <= n,
            parse_sequence::<T>(buf@, pos as int, lim) == parse_items::<T>(
                buf@,
                at as int,
                (n - i) as nat,
                view_seq(items@),
                lim,
            ),
        decreases n - i,
    {
        match T::read_into(buf, at, lim) {
            Ok((v, q)) => {
                assert(view_seq(items@.push(v)) =~= view_seq(items@).push(v@));
                items.push(v);
                at = q;
                i = i + 1;
            },
            Err(e) => return Err(e),
        }
    }
    Ok((items, at))
}

proof fn lemma_encode_items_push<T: WireFormat>(vs: Seq<T::V>, x: T::V)
    ensures
        encode_items::<T>(vs.push(x)) == encode_items::<T>(vs) + T::spec_encode(x),
    decreases vs.len(),
{
    if vs.len() == 0 {
        assert(vs.push(x).drop_first() =~= Seq::<T::V>::empty());
        assert(vs.push(x)[0] == x);
        assert(encode_items::<T>(vs.push(x).drop_first()) == Seq::<u8>::empty());
        assert(encode_items::<T>(vs) == Seq::<u8>::empty());
        assert(encode_items::<T>(vs.push(x)) =~= encode_items::<T>(vs) + T::spec_encode(x));
    } else {
        assert(vs.push(x).drop_first() =~= vs.drop_first().push(x));
        lemma_encode_items_push::<T>(vs.drop_first(), x);
        assert(encode_items::<T>(vs.push(x)) =~= encode_items::<T>(vs) + T::spec_encode(x));
    }
}

/// Appends the sequence `items`.
pub fn write_sequence<T: WireFormat>(out: &mut Vec<u8>, items: &Vec<T>)
    requires
        fits_sequence::<T>(view_seq(items@), DecodeLimits::spec_widest()),
    ensures
        final(out)@ == old(out)@ + encode_sequence::<T>(view_seq(items@)),
{
    let ghost start = out@;
    write_varint(out, items.len() as u32);
    let ghost counted = out@;
    let mut i: usize = 0;
    assert(items@.subrange(0, 0) =~= Seq::<T>::empty());
    assert(view_seq(items@.subrange(0, 0)) =~= Seq::<T::V>::empty());
    while i < items.len()
        invariant
            start == old(out)@,
            counted == start + varint_bytes(items@.len()),
            fits_sequence::<T>(view_seq(items@), DecodeLimits::spec_widest()),
            i <= items@.len(),
            out@ == counted + encode_items::<T>(view_seq(items@.subrange(0, i as int))),
        decreases items@.len() - i,
    {
        assert(view_seq(items@)[i as int] == items@[i as int]@);
        items[i].write_into(out);
        proof {
            let done = view_seq(items@.subrange(0, i as int));
            assert(view_seq(items@.subrange(0, i + 1)) =~= done.push(items@[i as int]@));
            lemma_encode_items_push::<T>(done, items@[i as int]@);
        }
        i = i + 1;
    }
    assert(items@.subrange(0, i as int) =~= items@);
    assert(final(out)@ =~= old(out)@ + encode_sequence::<T>(view_seq(items@)));
}

proof fn lemma_items_round_trip<T: WireFormat>(
    vs: Seq<T::V>,
    acc: Seq<T::V>,
    s: Seq<u8>,
    pos: int,
    lim: DecodeLimits,
)
    requires
        0 <= pos,
        pos + encode_items::<T>(vs).len() <= s.len(),
        s.subrange(pos, pos + encode_items::<T>(vs).len()) == encode_items::<T>(vs),
        forall|i: int| 0 <= i < vs.len() ==> T::spec_fits(#[trigger] vs[i], lim),
    ensures
        parse_items::<T>(s, pos, vs.len(), acc, lim) == Ok::<_, DecodeError>(
            (acc + vs, pos + encode_items::<T>(vs).len()),
        ),
        encode_items::<T>(vs).len() >= vs.len(),
    decreases vs.len(),
{
    if vs.len() == 0 {
        assert(acc + vs =~= acc);
    } else {
        let head = T::spec_encode(vs[0]);
        let tail = vs.drop_first();
        lemma_split(s, pos, head, encode_items::<T>(tail));
        T::lemma_round_trip(vs[0], s, pos, lim);
        assert forall|i: int| 0 <= i < tail.len() implies T::spec_fits(#[trigger] tail[i], lim) by {
            assert(tail[i] == vs[i + 1]);
        }
        lemma_items_round_trip::<T>(tail, acc.push(vs[0]), s, pos + head.len(), lim);
        assert(acc.push(vs[0]) + tail =~= acc + vs);
    }
}

/// Parsing the encoding of a sequence gives the same records back, in the
/// same order, and ends right after the last one.
pub proof fn lemma_sequence_round_trip<T: WireFormat>(
    vs: Seq<T::V>,
    s: Seq<u8>,
    pos: int,
    lim: DecodeLimits,
)
    requires
        0 <= pos,
        pos + encode_sequence::<T>(vs).len() <= s.len(),
        s.subrange(pos, pos + encode_sequence::<T>(vs).len()) == encode_sequence::<T>(vs),
        fits_sequence::<T>(vs, lim),
    ensures
        parse_sequence::<T>(s, pos, lim) == Ok::<_, DecodeError>(
            (vs, pos + encode_sequence::<T>(vs).len()),
        ),
        encode_sequence::<T>(vs).len() >= 1,
{
    let count = varint_bytes(vs.len());
    lemma_split(s, pos, count, encode_items::<T>(vs));
    lemma_varint_round_trip(vs.len() as u32, s, pos);
    lemma_items_round_trip::<T>(vs, seq![], s, pos + count.len(), lim);
    assert(Seq::<T::V>::empty() + vs =~= vs);
}

} // verus!
