use crate::error::{agrees, failure, DecodeError, DecodeLimits, ErrorKind};
use crate::varint::{lemma_varint_round_trip, parse_varint, read_varint, varint_bytes, write_varint};
use vstd::prelude::*;
use vstd::utf8::{
    decode_utf8, encode_utf8, encode_utf8_decode_utf8, encode_utf8_valid_utf8, valid_utf8,
};

verus! {

/// A value whose wire layout is a fixed sequence of fields.
///
/// Each implementation gives a parser and an encoder over its view, an
/// executable reader and writer proved to agree with them, and a proof that
/// the parser undoes the encoder.
pub trait WireFormat: View + Sized {
    /// The value that starts at `pos`, with the position after it.
    spec fn spec_parse(s: Seq<u8>, pos: int, lim: DecodeLimits) -> Result<(Self::V, int), DecodeError>;

    /// The bytes of `v`.
    spec fn spec_encode(v: Self::V) -> Seq<u8>;

    /// Every length inside `v` is within `lim`, and `v` has the shape that
    /// the parser produces.
    spec fn spec_fits(v: Self::V, lim: DecodeLimits) -> bool;

    /// Reads the value that starts at `pos`.
    fn read_into(buf: &[u8], pos: usize, lim: DecodeLimits) -> (r: Result<(Self, usize), DecodeError>)
        requires
            pos <= buf@.len(),
        ensures
            agrees(r, Self::spec_parse(buf@, pos as int, lim)),
            r matches Ok((_, p)) ==> pos < p <= buf@.len(),
    ;

    /// Appends the bytes of this value.
    fn write_into(&self, out: &mut Vec<u8>)
        requires
            Self::spec_fits(self@, DecodeLimits::spec_widest()),
        ensures
            final(out)@ == old(out)@ + Self::spec_encode(self@),
    ;

    /// Parsing the encoding of `v`, wherever it stands, gives `v` back and
    /// ends right after it.
    proof fn lemma_round_trip(v: Self::V, s: Seq<u8>, pos: int, lim: DecodeLimits)
        requires
            0 <= pos,
            pos + Self::spec_encode(v).len() <= s.len(),
            s.subrange(pos, pos + Self::spec_encode(v).len()) == Self::spec_encode(v),
            Self::spec_fits(v, lim),
        ensures
            Self::spec_parse(s, pos, lim) == Ok::<(Self::V, int), DecodeError>(
                (v, pos + Self::spec_encode(v).len()),
            ),
            Self::spec_encode(v).len() >= 1,
    ;
}

/// Splits a window of `s` that holds `a + b` into its two parts.
pub proof fn lemma_split(s: Seq<u8>, pos: int, a: Seq<u8>, b: Seq<u8>)
    requires
        0 <= pos,
        pos + a.len() + b.len() <= s.len(),
        s.subrange(pos, pos + a.len() + b.len()) == a + b,
    ensures
        s.subrange(pos, pos + a.len()) == a,
        s.subrange(pos + a.len(), pos + a.len() + b.len()) == b,
{
    let w = s.subrange(pos, pos + a.len() + b.len());
    assert forall|j: int| 0 <= j < a.len() implies s.subrange(pos, pos + a.len())[j] == a[j] by {
        assert(w[j] == (a + b)[j]);
    }
    assert forall|j: int| 0 <= j < b.len() implies s.subrange(
        pos + a.len(),
        pos + a.len() + b.len(),
    )[j] == b[j] by {
        assert(w[a.len() + j] == (a + b)[a.len() + j]);
    }
    assert(s.subrange(pos, pos + a.len()) =~= a);
    assert(s.subrange(pos + a.len(), pos + a.len() + b.len()) =~= b);
}

/// Appends the bytes of `b`.
fn write_bytes(out: &mut Vec<u8>, b: &[u8])
    ensures
        final(out)@ == old(out)@ + b@,
{
    let ghost start = out@;
    let mut j: usize = 0;
    while j < b.len()
        invariant
            start == old(out)@,
            j <= b@.len(),
            out@ == start + b@.subrange(0, j as int),
        decreases b@.len() - j,
    {
        out.push(b[j]);
        j = j + 1;
        assert(out@ =~= start + b@.subrange(0, j as int));
    }
    assert(b@.subrange(0, j as int) =~= b@);
}

/// A copy of the `len` bytes at `from`.
fn copy_bytes(buf: &[u8], from: usize, len: usize) -> (r: Vec<u8>)
    requires
        from + len <= buf@.len(),
    ensures
        r@ == buf@.subrange(from as int, from + len),
{
    let mut r: Vec<u8> = Vec::new();
    let mut j: usize = 0;
    let total: usize = buf.len();
    while j < len
        invariant
            total == buf@.len(),
            from + len <= buf@.len(),
            j <= len,
            r@ == buf@.subrange(from as int, from + j),
        decreases len - j,
    {
        r.push(buf[from + j]);
        j = j + 1;
        assert(r@ =~= buf@.subrange(from as int, from + j));
    }
    r
}

/// Relies on `String::from_utf8`: it succeeds exactly on valid UTF-8, and the
/// string it returns holds those same bytes.
#[verifier::external_body]
fn utf8_text(b: Vec<u8>) -> (r: Option<String>)
    ensures
        r is Some <==> valid_utf8(b@),
        r matches Some(t) ==> encode_utf8(t@) == b@,
{
    String::from_utf8(b).ok()
}

/// A string's wire form: its UTF-8 byte length as a varint, then the bytes.
pub open spec fn encode_text(v: Seq<char>) -> Seq<u8> {
    varint_bytes(encode_utf8(v).len()) + encode_utf8(v)
}

/// The string at `pos`. A declared length past the end of the input is a
/// truncation; one within the input but over the limit is refused.
pub open spec fn parse_text(s: Seq<u8>, pos: int, lim: DecodeLimits) -> Result<(Seq<char>, int), DecodeError> {
    match parse_varint(s, pos) {
        Err(e) => Err(e),
        Ok((n, p)) => if n > s.len() - p {
            Err(failure(ErrorKind::UnexpectedEndOfInput, pos))
        } else if n > lim.max_string_len {
            Err(failure(ErrorKind::LengthExceeded, pos))
        } else if !valid_utf8(s.subrange(p, p + n)) {
            Err(failure(ErrorKind::InvalidUtf8, pos))
        } else {
            Ok((decode_utf8(s.subrange(p, p + n)), p + n))
        },
    }
}

impl WireFormat for String {
    open spec fn spec_parse(s: Seq<u8>, pos: int, lim: DecodeLimits) -> Result<(Seq<char>, int), DecodeError> {
        parse_text(s, pos, lim)
    }

    open spec fn spec_encode(v: Seq<char>) -> Seq<u8> {
        encode_text(v)
    }

    open spec fn spec_fits(v: Seq<char>, lim: DecodeLimits) -> bool {
        encode_utf8(v).len() <= lim.max_string_len
    }

    fn read_into(buf: &[u8], pos: usize, lim: DecodeLimits) -> (r: Result<(String, usize), DecodeError>) {
        let (n, p) = match read_varint(buf, pos) {
            Ok(x) => x,
            Err(e) => return Err(e),
        };
        if n as usize > buf.len() - p {
            return Err(DecodeError::new(ErrorKind::UnexpectedEndOfInput, pos));
        }
        if n > lim.max_string_len {
            return Err(DecodeError::new(ErrorKind::LengthExceeded, pos));
        }
        let bytes = copy_bytes(buf, p, n as usize);
        match utf8_text(bytes) {
            None => Err(DecodeError::new(ErrorKind::InvalidUtf8, pos)),
            Some(t) => {
                proof {
                    encode_utf8_decode_utf8(t@);
                }
                Ok((t, p + n as usize))
            },
        }
    }

    fn write_into(&self, out: &mut Vec<u8>) {
        let b = self.as_str().as_bytes();
        write_varint(out, b.len() as u32);
        write_bytes(out, b);
        assert(final(out)@ =~= old(out)@ + encode_text(self@));
    }

    proof fn lemma_round_trip(v: Seq<char>, s: Seq<u8>, pos: int, lim: DecodeLimits) {
        let b = encode_utf8(v);
        let len = varint_bytes(b.len());
        lemma_split(s, pos, len, b);
        lemma_varint_round_trip(b.len() as u32, s, pos);
        encode_utf8_valid_utf8(v);
        encode_utf8_decode_utf8(v);
    }
}

} // verus!
