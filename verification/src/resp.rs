//! RESP (REdis Serialization Protocol) values and their wire form.

use vstd::prelude::*;
use vstd::slice::{slice_index_get, slice_subrange, slice_to_vec};
use vstd::string::StringSliceAdditionalSpecFns;

verus! {

broadcast use vstd::std_specs::vec::group_vec_axioms, vstd::seq::group_seq_axioms;

/// One RESP value. Strings are byte sequences; the codec never inspects
/// their contents beyond the framing bytes.
#[derive(Debug, PartialEq, Eq)]
pub enum Data {
    SimpleString(Vec<u8>),
    Error(Vec<u8>),
    Integer(i64),
    Bulk(Vec<u8>),
    NullBulk,
    Array(Vec<Data>),
    NullArray,
}

/// The mathematical shape of a RESP value: byte payloads as sequences,
/// arrays as sequences of values.
#[verifier::ext_equal]
pub ghost enum Val {
    SimpleString(Seq<u8>),
    Error(Seq<u8>),
    Integer(int),
    Bulk(Seq<u8>),
    NullBulk,
    Array(Seq<Val>),
    NullArray,
}

pub open spec fn data_view(d: Data) -> Val
    decreases d,
{
    match d {
        Data::SimpleString(s) => Val::SimpleString(s@),
        Data::Error(s) => Val::Error(s@),
        Data::Integer(i) => Val::Integer(i as int),
        Data::Bulk(s) => Val::Bulk(s@),
        Data::NullBulk => Val::NullBulk,
        Data::Array(a) => Val::Array(elems_view(a@)),
        Data::NullArray => Val::NullArray,
    }
}

pub open spec fn elems_view(s: Seq<Data>) -> Seq<Val>
    decreases s,
{
    if s.len() == 0 {
        Seq::empty()
    } else {
        elems_view(s.drop_last()).push(data_view(s.last()))
    }
}

impl View for Data {
    type V = Val;

    open spec fn view(&self) -> Val {
        data_view(*self)
    }
}

/// Turn an ASCII message into its bytes.
pub fn ascii_bytes(s: &str) -> (r: Vec<u8>)
    ensures
        r@ == s.spec_bytes(),
{
    vstd::slice::slice_to_vec(s.as_bytes())
}

pub open spec fn ok_bytes() -> Seq<u8> {
    "OK".spec_bytes()
}

pub open spec fn pong_bytes() -> Seq<u8> {
    "PONG".spec_bytes()
}

impl Data {
    /// The `OK` reply.
    pub fn ok() -> (r: Data)
        ensures
            r@ == Val::SimpleString(ok_bytes()),
    {
        Data::SimpleString(ascii_bytes("OK"))
    }

    /// The `PONG` reply.
    pub fn pong() -> (r: Data)
        ensures
            r@ == Val::SimpleString(pong_bytes()),
    {
        Data::SimpleString(ascii_bytes("PONG"))
    }

    /// An error reply carrying the given ASCII message.
    pub fn error(msg: &str) -> (r: Data)
        ensures
            r@ == Val::Error(msg.spec_bytes()),
    {
        Data::Error(ascii_bytes(msg))
    }
}

// ------------------------------------------------------------------
// Encoding
// ------------------------------------------------------------------

pub const STAR: u8 = 42;

pub const DOLLAR: u8 = 36;

pub const COLON: u8 = 58;

pub const PLUS_BYTE: u8 = 43;

pub const MINUS_BYTE: u8 = 45;

pub const CR: u8 = 13;

pub const LF: u8 = 10;

pub open spec fn crlf() -> Seq<u8> {
    seq![CR, LF]
}

/// The `ERR ` prefix that every emitted error payload carries.
pub open spec fn err_prefix() -> Seq<u8> {
    seq![69u8, 82u8, 82u8, 32u8]
}

/// The wire form of one value standing as an element (or alone, for the
/// scalar kinds). A nested array contributes nothing: the server never
/// produces one, and the encoder mirrors that by skipping it.
pub open spec fn elem_encode(v: Val) -> Seq<u8> {
    match v {
        Val::SimpleString(s) => seq![PLUS_BYTE] + s + crlf(),
        Val::Error(s) => seq![MINUS_BYTE] + err_prefix() + s + crlf(),
        Val::Integer(i) => seq![COLON] + crate::num::dec_digits_signed(i) + crlf(),
        Val::Bulk(s) => seq![DOLLAR] + crate::num::dec_digits(s.len()) + crlf() + s + crlf(),
        Val::NullBulk => seq![DOLLAR, MINUS_BYTE, 49u8] + crlf(),
        Val::Array(_) => Seq::empty(),
        Val::NullArray => seq![STAR, MINUS_BYTE, 49u8] + crlf(),
    }
}

pub open spec fn encode_elems(vs: Seq<Val>) -> Seq<u8>
    decreases vs,
{
    if vs.len() == 0 {
        Seq::empty()
    } else {
        encode_elems(vs.drop_last()) + elem_encode(vs.last())
    }
}

/// The full wire form of one value: an array is a `*<len>` header then
/// its encoded elements; anything else is its element form.
pub open spec fn spec_encode(v: Val) -> Seq<u8> {
    match v {
        Val::Array(es) => seq![STAR] + crate::num::dec_digits(es.len()) + crlf() + encode_elems(
            es,
        ),
        _ => elem_encode(v),
    }
}

pub proof fn lemma_elems_view(s: Seq<Data>)
    ensures
        elems_view(s).len() == s.len(),
        forall|i: int| 0 <= i < s.len() ==> elems_view(s)[i] == data_view(#[trigger] s[i]),
    decreases s,
{
    if s.len() > 0 {
        lemma_elems_view(s.drop_last());
        assert(forall|i: int|
            0 <= i < s.len() - 1 ==> s.drop_last()[i] == #[trigger] s[i]);
        assert(elems_view(s)[s.len() - 1] == data_view(s.last()));
    }
}

/// Append `src` to `out`.
pub fn push_all(out: &mut Vec<u8>, src: &Vec<u8>)
    ensures
        final(out)@ == old(out)@ + src@,
{
    let mut i: usize = 0;
    while i < src.len()
        invariant
            i <= src.len(),
            out@ == old(out)@ + src@.subrange(0, i as int),
        decreases src.len() - i,
    {
        out.push(src[i]);
        proof {
            assert(old(out)@ + src@.subrange(0, i + 1) =~= (old(out)@ + src@.subrange(
                0,
                i as int,
            )).push(src@[i as int]));
        }
        i = i + 1;
    }
    proof {
        assert(src@.subrange(0, src@.len() as int) =~= src@);
    }
}

fn push_crlf(out: &mut Vec<u8>)
    ensures
        final(out)@ == old(out)@ + crlf(),
{
    out.push(CR);
    out.push(LF);
    proof {
        assert(out@ =~= old(out)@ + crlf());
    }
}

/// Encode one element. Scalars get their line form; a nested array is
/// skipped, as no reply of this server carries one.
fn encode_elem(data: &Data, out: &mut Vec<u8>)
    ensures
        final(out)@ == old(out)@ + elem_encode(data@),
{
    match data {
        Data::SimpleString(s) => {
            out.push(PLUS_BYTE);
            push_all(out, s);
            push_crlf(out);
            proof {
                assert(out@ =~= old(out)@ + elem_encode(data@));
            }
        },
        Data::Error(s) => {
            out.push(MINUS_BYTE);
            out.push(69);
            out.push(82);
            out.push(82);
            out.push(32);
            push_all(out, s);
            push_crlf(out);
            proof {
                assert(out@ =~= old(out)@ + elem_encode(data@));
            }
        },
        Data::Integer(i) => {
            out.push(COLON);
            crate::num::push_dec_i64(*i, out);
            push_crlf(out);
            proof {
                assert(out@ =~= old(out)@ + elem_encode(data@));
            }
        },
        Data::Bulk(s) => {
            out.push(DOLLAR);
            crate::num::push_dec_u64(s.len() as u64, out);
            push_crlf(out);
            push_all(out, s);
            push_crlf(out);
            proof {
                assert((s@.len() as u64) as nat == s@.len());
                assert(out@ =~= old(out)@ + elem_encode(data@));
            }
        },
        Data::NullBulk => {
            out.push(DOLLAR);
            out.push(MINUS_BYTE);
            out.push(49);
            push_crlf(out);
            proof {
                assert(out@ =~= old(out)@ + elem_encode(data@));
            }
        },
        Data::Array(_) => {
        },
        Data::NullArray => {
            out.push(STAR);
            out.push(MINUS_BYTE);
            out.push(49);
            push_crlf(out);
            proof {
                assert(out@ =~= old(out)@ + elem_encode(data@));
            }
        },
    }
}

/// Encode one RESP value to its exact wire bytes.
pub fn encode(data: &Data) -> (out: Vec<u8>)
    ensures
        out@ == spec_encode(data@),
{
    let mut out: Vec<u8> = Vec::new();
    match data {
        Data::Array(a) => {
            out.push(STAR);
            crate::num::push_dec_u64(a.len() as u64, &mut out);
            push_crlf(&mut out);
            proof {
                assert((a@.len() as u64) as nat == a@.len());
                lemma_elems_view(a@);
            }
            let ghost header = out@;
            let mut i: usize = 0;
            while i < a.len()
                invariant
                    i <= a.len(),
                    elems_view(a@).len() == a@.len(),
                    forall|j: int|
                        0 <= j < a@.len() ==> elems_view(a@)[j] == data_view(#[trigger] a@[j]),
                    out@ == header + encode_elems(elems_view(a@).subrange(0, i as int)),
                decreases a.len() - i,
            {
                encode_elem(&a[i], &mut out);
                proof {
                    let vs = elems_view(a@);
                    assert(vs.subrange(0, i + 1).drop_last() =~= vs.subrange(0, i as int));
                    assert(vs.subrange(0, i + 1).last() == data_view(a@[i as int]));
                }
                i = i + 1;
            }
            proof {
                assert(elems_view(a@).subrange(0, a@.len() as int) =~= elems_view(a@));
            }
            out
        },
        _ => {
            encode_elem(data, &mut out);
            out
        },
    }
}

// ------------------------------------------------------------------
// Decoding
// ------------------------------------------------------------------

/// How a decode attempt can fail. Running out of bytes is the
/// connection-closed condition, never a protocol error: the peer may
/// close at a frame boundary or mid-frame, and both read the same from
/// the buffered stream.
#[derive(Debug, PartialEq, Eq, Structural, Clone, Copy)]
pub enum DecodeError {
    ProtocolError,
    ConnectionClosed,
}

/// The largest declared bulk length the decoder accepts.
pub const MAX_BULK_LEN: i64 = 512000000;

/// The largest declared array length the decoder accepts.
pub const MAX_ARRAY_LEN: i64 = 1000;

/// The index of the first line feed at or after `pos`.
pub open spec fn find_lf(s: Seq<u8>, pos: int) -> Option<int>
    decreases s.len() - pos,
{
    if pos < 0 || pos >= s.len() {
        None
    } else if s[pos] == LF {
        Some(pos)
    } else {
        find_lf(s, pos + 1)
    }
}

/// One line, read up to and including CRLF: its payload (type byte
/// included, CRLF excluded) and the position after it. A line must span
/// at least four bytes and end in CR before the LF; a buffer with no
/// LF left is an ended stream.
pub open spec fn spec_read_line(s: Seq<u8>, pos: int) -> Result<(Seq<u8>, int), DecodeError> {
    match find_lf(s, pos) {
        None => Err(DecodeError::ConnectionClosed),
        Some(j) => {
            if j - pos + 1 < 4 {
                Err(DecodeError::ProtocolError)
            } else if s[j - 1] != CR {
                Err(DecodeError::ProtocolError)
            } else {
                Ok((s.subrange(pos, j - 1), j + 1))
            }
        },
    }
}

/// Decode one element whose header line has been read: bulk, integer,
/// simple string or error. An array header here is a protocol error;
/// arrays frame requests at the top level only.
pub open spec fn spec_decode_elem(s: Seq<u8>, line: Seq<u8>, p: int) -> Result<
    (Val, int),
    DecodeError,
> {
    let body = line.subrange(1, line.len() as int);
    if line[0] == DOLLAR {
        match crate::num::parse_i64_spec(body) {
            None => Err(DecodeError::ProtocolError),
            Some(n) => {
                if n > MAX_BULK_LEN {
                    Err(DecodeError::ProtocolError)
                } else if n < 1 {
                    Ok((Val::NullBulk, p))
                } else if p + n + 2 > s.len() {
                    Err(DecodeError::ConnectionClosed)
                } else if s[p + n] == CR && s[p + n + 1] == LF {
                    Ok((Val::Bulk(s.subrange(p, p + n)), p + n + 2))
                } else {
                    Err(DecodeError::ProtocolError)
                }
            },
        }
    } else if line[0] == COLON {
        match crate::num::parse_i64_spec(body) {
            None => Err(DecodeError::ProtocolError),
            Some(i) => Ok((Val::Integer(i as int), p)),
        }
    } else if line[0] == PLUS_BYTE {
        Ok((Val::SimpleString(body), p))
    } else if line[0] == MINUS_BYTE {
        Ok((Val::Error(body), p))
    } else {
        Err(DecodeError::ProtocolError)
    }
}

/// Decode `n` consecutive elements starting at `pos`.
pub open spec fn spec_decode_elems(s: Seq<u8>, pos: int, n: nat) -> Result<
    (Seq<Val>, int),
    DecodeError,
>
    decreases n,
{
    if n == 0 {
        Ok((Seq::empty(), pos))
    } else {
        match spec_read_line(s, pos) {
            Err(e) => Err(e),
            Ok((line, p)) => match spec_decode_elem(s, line, p) {
                Err(e) => Err(e),
                Ok((v, p2)) => match spec_decode_elems(s, p2, (n - 1) as nat) {
                    Err(e) => Err(e),
                    Ok((vs, p3)) => Ok((seq![v] + vs, p3)),
                },
            },
        }
    }
}

/// Decode one framed value starting at `pos`: either an array of
/// elements or a single element. Returns the value and the position of
/// the first byte after the frame.
pub open spec fn spec_decode(s: Seq<u8>, pos: int) -> Result<(Val, int), DecodeError> {
    match spec_read_line(s, pos) {
        Err(e) => Err(e),
        Ok((line, p)) => {
            if line[0] == STAR {
                match crate::num::parse_i64_spec(line.subrange(1, line.len() as int)) {
                    None => Err(DecodeError::ProtocolError),
                    Some(n) => {
                        if n > MAX_ARRAY_LEN {
                            Err(DecodeError::ProtocolError)
                        } else if n < 1 {
                            Ok((Val::NullArray, p))
                        } else {
                            match spec_decode_elems(s, p, n as nat) {
                                Err(e) => Err(e),
                                Ok((vs, p2)) => Ok((Val::Array(vs), p2)),
                            }
                        }
                    },
                }
            } else {
                spec_decode_elem(s, line, p)
            }
        },
    }
}

proof fn lemma_find_lf_advance(s: Seq<u8>, pos: int, i: int)
    requires
        0 <= pos <= i <= s.len(),
        forall|j: int| pos <= j < i ==> s[j] != LF,
    ensures
        find_lf(s, pos) == find_lf(s, i),
    decreases i - pos,
{
    if pos < i {
        lemma_find_lf_advance(s, pos + 1, i);
    }
}

/// Scan one line. On success, returns the end of the payload and the
/// position after the CRLF; the payload is `s[pos..payload_end]`.
fn read_line(s: &[u8], pos: usize) -> (r: Result<(usize, usize), DecodeError>)
    requires
        pos <= s@.len(),
    ensures
        match r {
            Ok((payload_end, newpos)) => {
                &&& pos <= payload_end <= s@.len()
                &&& newpos <= s@.len()
                &&& spec_read_line(s@, pos as int) == Ok::<_, DecodeError>(
                    (s@.subrange(pos as int, payload_end as int), newpos as int),
                )
            },
            Err(e) => spec_read_line(s@, pos as int) == Err::<(Seq<u8>, int), _>(e),
        },
{
    let len = s.len();
    let mut j = pos;
    while j < len && *slice_index_get(s, j) != LF
        invariant
            pos <= j <= len == s@.len(),
            forall|k: int| pos <= k < j ==> s@[k] != LF,
        decreases len - j,
    {
        j = j + 1;
    }
    proof {
        lemma_find_lf_advance(s@, pos as int, j as int);
    }
    if j == len {
        return Err(DecodeError::ConnectionClosed);
    }
    if j - pos + 1 < 4 {
        return Err(DecodeError::ProtocolError);
    }
    if *slice_index_get(s, j - 1) != CR {
        return Err(DecodeError::ProtocolError);
    }
    Ok((j - 1, j + 1))
}

/// Decode one element whose header line spans `s[lo..hi]` (type byte at
/// `lo`, CRLF already consumed), with the body starting at `p`.
fn decode_elem(s: &[u8], lo: usize, hi: usize, p: usize) -> (r: Result<(Data, usize), DecodeError>)
    requires
        lo <= hi <= s@.len(),
        hi - lo >= 2,
        p <= s@.len(),
    ensures
        match r {
            Ok((d, newpos)) => {
                &&& newpos <= s@.len()
                &&& spec_decode_elem(s@, s@.subrange(lo as int, hi as int), p as int) == Ok::<
                    _,
                    DecodeError,
                >((d@, newpos as int))
            },
            Err(e) => spec_decode_elem(s@, s@.subrange(lo as int, hi as int), p as int) == Err::<
                (Val, int),
                _,
            >(e),
        },
{
    let ghost line = s@.subrange(lo as int, hi as int);
    let first = *slice_index_get(s, lo);
    proof {
        assert(line[0] == first);
        assert(line.subrange(1, line.len() as int) =~= s@.subrange(lo + 1, hi as int));
    }
    if first == DOLLAR {
        match crate::num::parse_i64_range(s, lo + 1, hi) {
            None => Err(DecodeError::ProtocolError),
            Some(n) => {
                if n > MAX_BULK_LEN {
                    Err(DecodeError::ProtocolError)
                } else if n < 1 {
                    Ok((Data::NullBulk, p))
                } else {
                    let nn = n as usize;
                    if p >= s.len() || nn + 2 > s.len() - p {
                        Err(DecodeError::ConnectionClosed)
                    } else {
                        let cr = *slice_index_get(s, p + nn);
                        let lfb = *slice_index_get(s, p + nn + 1);
                        if cr == CR && lfb == LF {
                            let body = slice_to_vec(slice_subrange(s, p, p + nn));
                            Ok((Data::Bulk(body), p + nn + 2))
                        } else {
                            Err(DecodeError::ProtocolError)
                        }
                    }
                }
            },
        }
    } else if first == COLON {
        match crate::num::parse_i64_range(s, lo + 1, hi) {
            None => Err(DecodeError::ProtocolError),
            Some(i) => Ok((Data::Integer(i), p)),
        }
    } else if first == PLUS_BYTE {
        let body = slice_to_vec(slice_subrange(s, lo + 1, hi));
        Ok((Data::SimpleString(body), p))
    } else if first == MINUS_BYTE {
        let body = slice_to_vec(slice_subrange(s, lo + 1, hi));
        Ok((Data::Error(body), p))
    } else {
        Err(DecodeError::ProtocolError)
    }
}

/// Decode one framed value from `s` starting at `pos`. Returns the
/// value and the position just after its frame; `ConnectionClosed`
/// means the buffer ended before a whole frame did.
pub fn decode(s: &[u8], pos: usize) -> (r: Result<(Data, usize), DecodeError>)
    requires
        pos <= s@.len(),
    ensures
        match r {
            Ok((d, newpos)) => {
                &&& newpos <= s@.len()
                &&& spec_decode(s@, pos as int) == Ok::<_, DecodeError>((d@, newpos as int))
            },
            Err(e) => spec_decode(s@, pos as int) == Err::<(Val, int), _>(e),
        },
{
    let (hi, p) = match read_line(s, pos) {
        Ok(v) => v,
        Err(e) => {
            return Err(e);
        },
    };
    let ghost line = s@.subrange(pos as int, hi as int);
    let first = *slice_index_get(s, pos);
    proof {
        assert(line[0] == first);
        assert(line.subrange(1, line.len() as int) =~= s@.subrange(pos + 1, hi as int));
    }
    if first != STAR {
        return decode_elem(s, pos, hi, p);
    }
    let n = match crate::num::parse_i64_range(s, pos + 1, hi) {
        None => {
            return Err(DecodeError::ProtocolError);
        },
        Some(n) => n,
    };
    if n > MAX_ARRAY_LEN {
        return Err(DecodeError::ProtocolError);
    }
    if n < 1 {
        return Ok((Data::NullArray, p));
    }
    let count = n as usize;
    let mut elems: Vec<Data> = Vec::new();
    let mut cur = p;
    let mut i: usize = 0;
    while i < count
        invariant
            i <= count,
            cur <= s@.len(),
            elems@.len() == i,
            spec_decode(s@, pos as int) == (match spec_decode_elems(s@, p as int, count as nat) {
                Ok((vs, q)) => Ok::<_, DecodeError>((Val::Array(vs), q)),
                Err(e) => Err::<(Val, int), _>(e),
            }),
            spec_decode_elems(s@, p as int, count as nat) == (match spec_decode_elems(
                s@,
                cur as int,
                (count - i) as nat,
            ) {
                Ok((vs, q)) => Ok::<_, DecodeError>((elems_view(elems@) + vs, q)),
                Err(e) => Err::<(Seq<Val>, int), _>(e),
            }),
        decreases count - i,
    {
        let (ehi, ep) = match read_line(s, cur) {
            Ok(v) => v,
            Err(e) => {
                return Err(e);
            },
        };
        let (d, newpos) = match decode_elem(s, cur, ehi, ep) {
            Ok(v) => v,
            Err(e) => {
                return Err(e);
            },
        };
        proof {
            lemma_elems_view(elems@);
            lemma_elems_view(elems@.push(d));
        }
        let ghost pre_elems = elems@;
        elems.push(d);
        proof {
            let rest = (count - i) as nat;
            assert(spec_decode_elems(s@, cur as int, rest) == (match spec_decode_elems(
                s@,
                newpos as int,
                (rest - 1) as nat,
            ) {
                Ok((vs, q)) => Ok::<_, DecodeError>((seq![d@] + vs, q)),
                Err(e) => Err::<(Seq<Val>, int), _>(e),
            }));
            assert(elems@.drop_last() =~= pre_elems);
            assert(elems_view(elems@) =~= elems_view(pre_elems) + seq![d@]);
            match spec_decode_elems(s@, newpos as int, (rest - 1) as nat) {
                Ok((vs, q)) => {
                    assert(elems_view(pre_elems) + (seq![d@] + vs) =~= elems_view(elems@) + vs);
                },
                Err(_) => {},
            }
        }
        cur = newpos;
        i = i + 1;
    }
    proof {
        assert(spec_decode_elems(s@, cur as int, 0nat) == Ok::<_, DecodeError>(
            (Seq::<Val>::empty(), cur as int),
        ));
        assert(elems_view(elems@) + Seq::<Val>::empty() =~= elems_view(elems@));
    }
    Ok((Data::Array(elems), cur))
}

// ------------------------------------------------------------------
// The round trip
// ------------------------------------------------------------------

pub open spec fn lf_free(s: Seq<u8>) -> bool {
    forall|i: int| 0 <= i < s.len() ==> (#[trigger] s[i]) != LF
}

/// A value the wire can carry as one element: a scalar whose payload
/// the framing can hold. Simple strings and errors may not span
/// lines; a bulk is bounded by the length cap; an integer fits the
/// wire's width; arrays do not nest.
pub open spec fn wire_elem(v: Val) -> bool {
    match v {
        Val::SimpleString(s) => s.len() >= 1 && lf_free(s),
        Val::Error(m) => lf_free(m),
        Val::Integer(i) => i64::MIN <= i <= i64::MAX,
        Val::Bulk(b) => 1 <= b.len() <= MAX_BULK_LEN,
        Val::NullBulk => true,
        Val::Array(_) => false,
        Val::NullArray => true,
    }
}

/// What an element may be inside an array: the null array marker
/// frames only whole replies, never elements.
pub open spec fn wire_array_elem(v: Val) -> bool {
    wire_elem(v) && !(v is NullArray)
}

/// A value the wire can carry as one frame.
pub open spec fn wire_value(v: Val) -> bool {
    match v {
        Val::Array(es) => 1 <= es.len() <= MAX_ARRAY_LEN && forall|i: int|
            0 <= i < es.len() ==> wire_array_elem(#[trigger] es[i]),
        _ => wire_elem(v),
    }
}

/// What a value reads back as: itself, except that an emitted error
/// payload carries the `ERR ` stamp.
pub open spec fn canon_elem(v: Val) -> Val {
    match v {
        Val::Error(m) => Val::Error(err_prefix() + m),
        _ => v,
    }
}

pub open spec fn canon_elems(es: Seq<Val>) -> Seq<Val> {
    Seq::new(es.len(), |i: int| canon_elem(es[i]))
}

pub open spec fn canon(v: Val) -> Val {
    match v {
        Val::Array(es) => Val::Array(canon_elems(es)),
        _ => canon_elem(v),
    }
}

proof fn lemma_dec_val_one()
    ensures
        crate::num::dec_val(seq![49u8]) == 1,
{
    assert(seq![49u8].drop_last() =~= Seq::<u8>::empty());
    assert(crate::num::dec_val(Seq::<u8>::empty()) == 0);
    assert(seq![49u8].last() == 49u8);
}

proof fn lemma_find_lf_at(s: Seq<u8>, j: int)
    requires
        0 <= j < s.len(),
        s[j] == LF,
        forall|i: int| 0 <= i < j ==> (#[trigger] s[i]) != LF,
    ensures
        find_lf(s, 0) == Some(j),
{
    lemma_find_lf_advance(s, 0, j);
}

/// Reading the header line of an encoded element placed at `pos`
/// gives its payload back; dispatching on it gives the value back.
proof fn lemma_elem_decode(s: Seq<u8>, pos: int, v: Val)
    requires
        wire_elem(v),
        0 <= pos,
        pos + elem_encode(v).len() <= s.len(),
        s.subrange(pos, pos + elem_encode(v).len()) == elem_encode(v),
    ensures
        !(v is NullArray) ==> (spec_read_line(s, pos) matches Ok((line, p)) && spec_decode_elem(
            s,
            line,
            p,
        ) == Ok::<_, DecodeError>((canon_elem(v), pos + elem_encode(v).len()))),
        v is NullArray ==> spec_read_line(s, pos) == Ok::<_, DecodeError>(
            (seq![STAR, MINUS_BYTE, 49u8], pos + elem_encode(v).len()),
        ),
{
    let frame = elem_encode(v);
    assert(forall|i: int| 0 <= i < frame.len() ==> (#[trigger] s[pos + i]) == frame[i]) by {
        assert(forall|i: int|
            0 <= i < frame.len() ==> s.subrange(pos, pos + frame.len())[i] == #[trigger] frame[i]);
    }
    // The header line: everything up to the first CRLF.
    let header: Seq<u8> = match v {
        Val::SimpleString(p) => seq![PLUS_BYTE] + p,
        Val::Error(m) => seq![MINUS_BYTE] + err_prefix() + m,
        Val::Integer(i) => seq![COLON] + crate::num::dec_digits_signed(i),
        Val::Bulk(b) => seq![DOLLAR] + crate::num::dec_digits(b.len()),
        Val::NullBulk => seq![DOLLAR, MINUS_BYTE, 49u8],
        Val::NullArray => seq![STAR, MINUS_BYTE, 49u8],
        Val::Array(_) => Seq::empty(),
    };
    match v {
        Val::SimpleString(pl) => {
            assert(frame =~= header + crlf());
            assert(lf_free(header)) by {
                assert(forall|t: int| 1 <= t < header.len() ==> (#[trigger] header[t]) == pl[t
                    - 1]);
            }
        },
        Val::Error(m) => {
            assert(frame =~= header + crlf());
            assert(lf_free(header)) by {
                assert(forall|t: int| 5 <= t < header.len() ==> (#[trigger] header[t]) == m[t - 5]);
                assert(header[0] == MINUS_BYTE && header[1] == 69 && header[2] == 82 && header[3]
                    == 82 && header[4] == 32);
            }
        },
        Val::Integer(i) => {
            crate::num::lemma_dec_digits_signed_bytes(i);
            assert(frame =~= header + crlf());
            assert(lf_free(header)) by {
                assert(forall|t: int|
                    1 <= t < header.len() ==> (#[trigger] header[t])
                        == crate::num::dec_digits_signed(i)[t - 1]);
            }
        },
        Val::Bulk(b) => {
            crate::num::lemma_dec_digits_are_digits(b.len());
            assert(frame =~= header + crlf() + b + crlf());
            assert(lf_free(header)) by {
                assert(forall|t: int|
                    1 <= t < header.len() ==> (#[trigger] header[t]) == crate::num::dec_digits(
                        b.len(),
                    )[t - 1]);
            }
            let hc = header + crlf();
            assert forall|k: int| 0 <= k < hc.len() implies (#[trigger] frame[k]) == hc[k] by {
                assert(frame[k] == ((hc + b) + crlf())[k]);
                assert(((hc + b) + crlf())[k] == (hc + b)[k]);
                assert((hc + b)[k] == hc[k]);
            }
        },
        _ => {
            assert(frame =~= header + crlf());
            assert(lf_free(header));
        },
    }
    assert(frame[header.len() as int] == CR && frame[header.len() + 1int] == LF) by {
        let hc = header + crlf();
        assert(hc[header.len() as int] == CR && hc[header.len() + 1int] == LF);
    }
    let j = pos + header.len() + 1;
    assert(s[j] == LF);
    assert forall|i: int| pos <= i < j implies (#[trigger] s[i]) != LF by {
        assert(s[i] == frame[i - pos]);
        let hc = header + crlf();
        assert(frame[i - pos] == hc[i - pos]);
        if i - pos < header.len() {
            assert(hc[i - pos] == header[i - pos]);
        } else {
            assert(hc[i - pos] == CR);
        }
    }
    assert(find_lf(s, pos) == Some(j)) by {
        lemma_find_lf_advance(s, pos, j);
    }
    assert(header.len() >= 2);
    assert(s[j - 1] == CR);
    let line = s.subrange(pos, j - 1);
    assert(line =~= header);
    let p = j + 1;
    assert(spec_read_line(s, pos) == Ok::<_, DecodeError>((line, p)));
    let body = line.subrange(1, line.len() as int);
    match v {
        Val::SimpleString(pl) => {
            assert(line[0] == PLUS_BYTE);
            assert(body =~= pl);
        },
        Val::Error(m) => {
            assert(line[0] == MINUS_BYTE);
            assert(body =~= err_prefix() + m);
            assert(line[0] != DOLLAR && line[0] != COLON && line[0] != PLUS_BYTE);
        },
        Val::Integer(i) => {
            assert(line[0] == COLON);
            assert(body =~= crate::num::dec_digits_signed(i));
            crate::num::lemma_parse_of_digits_signed(i as i64);
            assert(crate::num::parse_i64_spec(body) == Some(i as i64));
        },
        Val::Bulk(b) => {
            assert(line[0] == DOLLAR);
            assert(body =~= crate::num::dec_digits(b.len()));
            let n = b.len() as i64;
            crate::num::lemma_parse_of_digits_signed(n);
            assert(crate::num::dec_digits_signed(n as int) == crate::num::dec_digits(b.len()));
            assert(crate::num::parse_i64_spec(body) == Some(n));
            assert(p + n + 2 == pos + frame.len());
            let hl = header.len() as int;
            let hc = header + crlf();
            assert(s[p + n] == CR && s[p + n + 1] == LF) by {
                assert(s[p + n] == frame[hl + 2 + b.len()]);
                assert(frame[hl + 2 + b.len()] == ((hc + b) + crlf())[hl + 2 + b.len()]);
                assert(((hc + b) + crlf())[hl + 2 + b.len()] == crlf()[0]);
                assert(s[p + n + 1] == frame[hl + 2 + b.len() + 1]);
                assert(frame[hl + 2 + b.len() + 1] == ((hc + b) + crlf())[hl + 2 + b.len() + 1]);
                assert(((hc + b) + crlf())[hl + 2 + b.len() + 1] == crlf()[1]);
            }
            assert forall|t: int| 0 <= t < n implies s.subrange(p, p + n)[t] == b[t] by {
                assert(s[p + t] == frame[hl + 2 + t]);
                assert(frame[hl + 2 + t] == ((hc + b) + crlf())[hl + 2 + t]);
                assert(((hc + b) + crlf())[hl + 2 + t] == (hc + b)[hl + 2 + t]);
                assert((hc + b)[hl + 2 + t] == b[t]);
            }
            assert(s.subrange(p, p + n) =~= b);
        },
        Val::NullBulk => {
            assert(line[0] == DOLLAR);
            assert(body =~= seq![MINUS_BYTE, 49u8]);
            assert(crate::num::parse_i64_spec(body) == Some((-1) as i64)) by {
                assert(body.subrange(1, 2) =~= seq![49u8]);
                lemma_dec_val_one();
            }
        },
        Val::NullArray => {
            assert(line =~= seq![STAR, MINUS_BYTE, 49u8]);
        },
        Val::Array(_) => {},
    }
    match v {
        Val::Integer(i) => {
            assert((i as i64) as int == i);
        },
        _ => {},
    }
}

proof fn lemma_encode_elems_first(es: Seq<Val>)
    requires
        es.len() > 0,
    ensures
        encode_elems(es) == elem_encode(es[0]) + encode_elems(es.skip(1)),
    decreases es,
{
    if es.len() == 1 {
        assert(es.drop_last() =~= Seq::<Val>::empty());
        assert(es.skip(1) =~= Seq::<Val>::empty());
        assert(encode_elems(es) =~= elem_encode(es[0]) + encode_elems(es.skip(1)));
    } else {
        lemma_encode_elems_first(es.drop_last());
        assert(es.drop_last()[0] == es[0]);
        assert(es.skip(1).drop_last() =~= es.drop_last().skip(1));
        assert(es.skip(1).last() == es.last());
        assert(encode_elems(es) == encode_elems(es.drop_last()) + elem_encode(es.last()));
        assert(encode_elems(es.skip(1)) == encode_elems(es.skip(1).drop_last()) + elem_encode(
            es.skip(1).last(),
        ));
        assert(encode_elems(es) =~= elem_encode(es[0]) + encode_elems(es.skip(1)));
    }
}

proof fn lemma_elems_decode(s: Seq<u8>, pos: int, es: Seq<Val>)
    requires
        forall|i: int| 0 <= i < es.len() ==> wire_array_elem(#[trigger] es[i]),
        0 <= pos,
        pos + encode_elems(es).len() <= s.len(),
        s.subrange(pos, pos + encode_elems(es).len()) == encode_elems(es),
    ensures
        spec_decode_elems(s, pos, es.len() as nat) == Ok::<_, DecodeError>(
            (canon_elems(es), pos + encode_elems(es).len()),
        ),
    decreases es.len(),
{
    if es.len() == 0 {
        assert(canon_elems(es) =~= Seq::<Val>::empty());
    } else {
        let head = es[0];
        let rest = es.skip(1);
        lemma_encode_elems_first(es);
        let hlen = elem_encode(head).len() as int;
        let total = encode_elems(es).len() as int;
        assert(forall|i: int|
            0 <= i < total ==> (#[trigger] s[pos + i]) == encode_elems(es)[i]) by {
            assert(forall|i: int|
                0 <= i < total ==> s.subrange(pos, pos + total)[i] == #[trigger] encode_elems(
                    es,
                )[i]);
        }
        assert forall|i: int| 0 <= i < hlen implies s.subrange(pos, pos + hlen)[i] == elem_encode(
            head,
        )[i] by {
            assert(s.subrange(pos, pos + hlen)[i] == s[pos + i]);
            assert(encode_elems(es)[i] == elem_encode(head)[i]);
        }
        assert(s.subrange(pos, pos + hlen) =~= elem_encode(head));
        lemma_elem_decode(s, pos, head);
        let after = pos + hlen;
        let rlen = encode_elems(rest).len() as int;
        assert forall|i: int| 0 <= i < rlen implies s.subrange(after, after + rlen)[i]
            == encode_elems(rest)[i] by {
            assert(s.subrange(after, after + rlen)[i] == s[pos + (hlen + i)]);
            assert(encode_elems(es)[hlen + i] == encode_elems(rest)[i]);
        }
        assert(s.subrange(after, after + rlen) =~= encode_elems(rest));
        lemma_elems_decode(s, after, rest);
        assert(seq![canon_elem(head)] + canon_elems(rest) =~= canon_elems(es));
        assert(!(head is NullArray));
        match spec_read_line(s, pos) {
            Ok((line, p)) => {
                assert(spec_decode_elem(s, line, p) == Ok::<_, DecodeError>(
                    (canon_elem(head), after),
                ));
            },
            Err(_) => {
                assert(false);
            },
        }
    }
}

/// The round trip: any value the wire can carry decodes from its own
/// encoding, back to itself but for the `ERR ` stamp on errors, with
/// the whole frame consumed.
pub proof fn lemma_round_trip(v: Val)
    requires
        wire_value(v),
    ensures
        spec_decode(spec_encode(v), 0) == Ok::<_, DecodeError>((canon(v), spec_encode(v).len() as int)),
{
    let s = spec_encode(v);
    match v {
        Val::Array(es) => {
            let header: Seq<u8> = seq![STAR] + crate::num::dec_digits(es.len());
            crate::num::lemma_dec_digits_are_digits(es.len());
            assert(s =~= header + crlf() + encode_elems(es));
            let j = header.len() as int + 1;
            assert(s[j] == LF && s[j - 1] == CR);
            assert(forall|i: int| 0 <= i < j ==> (#[trigger] s[i]) != LF) by {
                assert(forall|i: int| 1 <= i < header.len() ==> crate::num::is_digit(s[i]));
            }
            lemma_find_lf_at(s, j);
            let line = s.subrange(0, j - 1);
            assert(line =~= header);
            assert(spec_read_line(s, 0) == Ok::<_, DecodeError>((line, j + 1)));
            assert(line[0] == STAR);
            let body = line.subrange(1, line.len() as int);
            assert(body =~= crate::num::dec_digits(es.len()));
            let n = es.len() as i64;
            crate::num::lemma_parse_of_digits_signed(n);
            assert(crate::num::dec_digits_signed(n as int) == crate::num::dec_digits(es.len()));
            assert(crate::num::parse_i64_spec(body) == Some(n));
            let p = j + 1;
            assert(s.subrange(p, p + encode_elems(es).len()) =~= encode_elems(es));
            lemma_elems_decode(s, p, es);
        },
        Val::NullArray => {
            assert(s == elem_encode(v));
            assert(s.subrange(0, s.len() as int) =~= s);
            lemma_elem_decode(s, 0, v);
            let line = seq![STAR, MINUS_BYTE, 49u8];
            assert(line[0] == STAR);
            assert(line.subrange(1, line.len() as int) =~= seq![MINUS_BYTE, 49u8]);
            assert(crate::num::parse_i64_spec(seq![MINUS_BYTE, 49u8]) == Some((-1) as i64)) by {
                assert(seq![MINUS_BYTE, 49u8].subrange(1, 2) =~= seq![49u8]);
                lemma_dec_val_one();
            }
        },
        _ => {
            assert(s == elem_encode(v));
            assert(s.subrange(0, s.len() as int) =~= s);
            lemma_elem_decode(s, 0, v);
            match spec_read_line(s, 0) {
                Ok((line, p)) => {
                    assert(line[0] != STAR);
                },
                Err(_) => {
                    assert(false);
                },
            }
        },
    }
}

// ------------------------------------------------------------------
// The argument cursor
// ------------------------------------------------------------------

/// Copy a byte vector.
pub fn clone_bytes(v: &Vec<u8>) -> (r: Vec<u8>)
    ensures
        r@ == v@,
{
    slice_to_vec(v.as_slice())
}

/// Why a pull from the cursor failed: the element was not a scalar
/// string, or its payload was not an unsigned decimal.
#[derive(Debug, PartialEq, Eq, Structural, Clone, Copy)]
pub enum ArgError {
    NotScalar,
    NotInteger,
}

/// The payload of a scalar string element; anything else has none.
pub open spec fn arg_bytes(v: Val) -> Option<Seq<u8>> {
    match v {
        Val::Bulk(b) => Some(b),
        Val::SimpleString(b) => Some(b),
        _ => None,
    }
}

pub open spec fn ascii_upper_byte(b: u8) -> u8 {
    if 97 <= b <= 122 {
        (b - 32) as u8
    } else {
        b
    }
}

/// ASCII-uppercase a byte string; command names and option keywords are
/// matched this way.
pub open spec fn ascii_upper(s: Seq<u8>) -> Seq<u8> {
    Seq::new(s.len(), |i: int| ascii_upper_byte(s[i]))
}

/// ASCII-uppercase the bytes of `v`.
pub fn to_ascii_upper(v: &Vec<u8>) -> (r: Vec<u8>)
    ensures
        r@ == ascii_upper(v@),
{
    let mut out: Vec<u8> = Vec::new();
    let mut i: usize = 0;
    while i < v.len()
        invariant
            i <= v@.len(),
            out@ == ascii_upper(v@).subrange(0, i as int),
        decreases v@.len() - i,
    {
        let b = v[i];
        if 97 <= b && b <= 122 {
            out.push(b - 32);
        } else {
            out.push(b);
        }
        proof {
            assert(ascii_upper(v@).subrange(0, i + 1) =~= ascii_upper(v@).subrange(
                0,
                i as int,
            ).push(ascii_upper_byte(v@[i as int])));
        }
        i = i + 1;
    }
    proof {
        assert(ascii_upper(v@).subrange(0, v@.len() as int) =~= ascii_upper(v@));
    }
    out
}

/// A positional cursor over the elements of a decoded request array.
pub struct Parser {
    items: Vec<Data>,
    pos: usize,
}

impl Parser {
    /// The elements the cursor walks.
    pub closed spec fn args(&self) -> Seq<Val> {
        elems_view(self.items@)
    }

    /// How many elements have been pulled.
    pub closed spec fn at(&self) -> int {
        self.pos as int
    }

    pub closed spec fn wf(&self) -> bool {
        self.pos as int <= self.args().len() && self.args().len() == self.items@.len()
    }

    /// The cursor never stands past the end.
    pub proof fn lemma_at_in_range(&self)
        requires
            self.wf(),
        ensures
            self.at() <= self.args().len(),
    {
    }

    /// A cursor over a request: the value must be a non-empty array.
    pub fn new(data: Data) -> (r: Option<Parser>)
        ensures
            match r {
                Some(p) => {
                    &&& data@ matches Val::Array(es) && p.args() == es && es.len() > 0
                    &&& p.at() == 0
                    &&& p.wf()
                },
                None => !(data@ matches Val::Array(es) && es.len() > 0),
            },
    {
        match data {
            Data::Array(items) => {
                if items.len() == 0 {
                    proof {
                        lemma_elems_view(items@);
                    }
                    None
                } else {
                    proof {
                        lemma_elems_view(items@);
                    }
                    Some(Parser { items, pos: 0 })
                }
            },
            _ => None,
        }
    }

    /// Pull the next element as raw bytes. `None` is the end of the
    /// array; a non-scalar element is an error.
    pub fn next_bytes(&mut self) -> (r: Result<Option<Vec<u8>>, ArgError>)
        requires
            old(self).wf(),
        ensures
            final(self).wf(),
            final(self).args() == old(self).args(),
            old(self).at() >= old(self).args().len() ==> {
                &&& r == Ok::<Option<Vec<u8>>, ArgError>(None)
                &&& final(self).at() == old(self).at()
            },
            old(self).at() < old(self).args().len() ==> {
                &&& final(self).at() == old(self).at() + 1
                &&& match arg_bytes(old(self).args()[old(self).at()]) {
                    Some(b) => r matches Ok(Some(v)) && v@ == b,
                    None => r == Err::<Option<Vec<u8>>, ArgError>(ArgError::NotScalar),
                }
            },
    {
        proof {
            lemma_elems_view(self.items@);
        }
        if self.pos >= self.items.len() {
            return Ok(None);
        }
        let item = &self.items[self.pos];
        self.pos = self.pos + 1;
        match item {
            Data::Bulk(b) => Ok(Some(clone_bytes(b))),
            Data::SimpleString(b) => Ok(Some(clone_bytes(b))),
            _ => Err(ArgError::NotScalar),
        }
    }

    /// Pull the next element and parse it as an unsigned decimal.
    pub fn next_u64(&mut self) -> (r: Result<Option<u64>, ArgError>)
        requires
            old(self).wf(),
        ensures
            final(self).wf(),
            final(self).args() == old(self).args(),
            old(self).at() >= old(self).args().len() ==> {
                &&& r == Ok::<Option<u64>, ArgError>(None)
                &&& final(self).at() == old(self).at()
            },
            old(self).at() < old(self).args().len() ==> {
                &&& final(self).at() == old(self).at() + 1
                &&& match arg_bytes(old(self).args()[old(self).at()]) {
                    Some(b) => (match crate::num::parse_u64_spec(b) {
                        Some(n) => r == Ok::<Option<u64>, ArgError>(Some(n)),
                        None => r == Err::<Option<u64>, ArgError>(ArgError::NotInteger),
                    }),
                    None => r == Err::<Option<u64>, ArgError>(ArgError::NotScalar),
                }
            },
    {
        let b = match self.next_bytes() {
            Ok(Some(b)) => b,
            Ok(None) => {
                return Ok(None);
            },
            Err(e) => {
                return Err(e);
            },
        };
        match crate::num::parse_u64_range(b.as_slice(), 0, b.len()) {
            Some(n) => {
                proof {
                    assert(b@.subrange(0, b@.len() as int) =~= b@);
                }
                Ok(Some(n))
            },
            None => {
                proof {
                    assert(b@.subrange(0, b@.len() as int) =~= b@);
                }
                Err(ArgError::NotInteger)
            },
        }
    }

    /// Pull the next element as its ASCII-uppercased bytes; command
    /// names and option keywords are read this way.
    pub fn next_upper(&mut self) -> (r: Result<Option<Vec<u8>>, ArgError>)
        requires
            old(self).wf(),
        ensures
            final(self).wf(),
            final(self).args() == old(self).args(),
            old(self).at() >= old(self).args().len() ==> {
                &&& r == Ok::<Option<Vec<u8>>, ArgError>(None)
                &&& final(self).at() == old(self).at()
            },
            old(self).at() < old(self).args().len() ==> {
                &&& final(self).at() == old(self).at() + 1
                &&& match arg_bytes(old(self).args()[old(self).at()]) {
                    Some(b) => r matches Ok(Some(v)) && v@ == ascii_upper(b),
                    None => r == Err::<Option<Vec<u8>>, ArgError>(ArgError::NotScalar),
                }
            },
    {
        match self.next_bytes() {
            Ok(Some(b)) => Ok(Some(to_ascii_upper(&b))),
            Ok(None) => Ok(None),
            Err(e) => Err(e),
        }
    }
}

} // verus!
