//! A length-prefixed field list codec.
//!
//! Structured payloads (the server identity, channel updates) are
//! encoded as a flat list of byte fields, each prefixed by its 4-byte
//! big-endian length. The whole buffer is consumed; an empty buffer is
//! the empty list.

use vstd::prelude::*;
use vstd::slice::slice_subrange;

use crate::error::NetworkError;
use crate::framing::{u32_be_bytes, u32_from_be, u32_from_be_slice, u32_to_be};
use crate::framing::lemma_u32_be_round_trip;

verus! {

/// Largest byte length one field may have.
pub const MAX_FIELD_LEN: usize = 0xffff_ffff;

/// The encoding of a field list: each field's length, then its bytes.
pub open spec fn encode_fields(fs: Seq<Seq<u8>>) -> Seq<u8>
    decreases fs.len(),
{
    if fs.len() == 0 {
        Seq::empty()
    } else {
        u32_be_bytes(fs[0].len() as u32) + fs[0] + encode_fields(fs.drop_first())
    }
}

/// True when every field's length fits its 4-byte prefix.
pub open spec fn fields_encodable(fs: Seq<Seq<u8>>) -> bool {
    forall|i: int| 0 <= i < fs.len() ==> (#[trigger] fs[i]).len() <= MAX_FIELD_LEN
}

/// The parse of a byte buffer as a field list, consuming it whole.
pub open spec fn parse_fields(buf: Seq<u8>) -> Option<Seq<Seq<u8>>>
    decreases buf.len(),
{
    if buf.len() == 0 {
        Some(Seq::empty())
    } else if buf.len() >= 4 {
        let n = u32_from_be(buf.subrange(0, 4)) as int;
        if 4 + n <= buf.len() {
            match parse_fields(buf.subrange(4 + n, buf.len() as int)) {
                Some(rest) => Some(seq![buf.subrange(4, 4 + n)] + rest),
                None => None,
            }
        } else {
            None
        }
    } else {
        None
    }
}

/// Parsing the encoding of a field list yields the list back.
pub proof fn lemma_fields_round_trip(fs: Seq<Seq<u8>>)
    requires
        fields_encodable(fs),
    ensures
        parse_fields(encode_fields(fs)) == Some(fs),
    decreases fs.len(),
{
    if fs.len() == 0 {
        assert(parse_fields(encode_fields(fs)) == Some(Seq::<Seq<u8>>::empty()));
        assert(fs =~= Seq::<Seq<u8>>::empty());
    } else {
        let f0 = fs[0];
        let n = f0.len() as int;
        let tail = fs.drop_first();
        let buf = encode_fields(fs);
        lemma_u32_be_round_trip(f0.len() as u32);
        assert(buf.subrange(0, 4) =~= u32_be_bytes(f0.len() as u32));
        assert(buf.len() == 4 + n + encode_fields(tail).len());
        assert(buf.subrange(4, 4 + n) =~= f0);
        assert(buf.subrange(4 + n, buf.len() as int) =~= encode_fields(tail));
        assert(fields_encodable(tail)) by {
            assert(forall|i: int| 0 <= i < tail.len() ==> tail[i] == fs[i + 1]);
        }
        lemma_fields_round_trip(tail);
        assert(seq![f0] + tail =~= fs);
    }
}

/// Encodes a list of byte fields.
///
/// A field longer than its length prefix can carry is rejected.
pub fn encode_fields_vec(fs: &Vec<Vec<u8>>) -> (r: Result<Vec<u8>, NetworkError>)
    ensures
        r is Ok <==> fields_encodable(fs.deep_view()),
        r is Ok ==> r->Ok_0@ == encode_fields(fs.deep_view()),
{
    let ghost gfs = fs.deep_view();
    let mut out: Vec<u8> = Vec::new();
    let n = fs.len();
    let mut k: usize = 0;
    proof {
        assert(gfs.skip(0) =~= gfs);
    }
    while k < n
        invariant
            n == fs.len(),
            gfs == fs.deep_view(),
            gfs.len() == n,
            0 <= k <= n,
            forall|i: int| 0 <= i < k ==> (#[trigger] gfs[i]).len() <= MAX_FIELD_LEN,
            out@ + encode_fields(gfs.skip(k as int)) =~= encode_fields(gfs),
        decreases n - k,
    {
        proof {
            assert(gfs[k as int] =~= fs@[k as int]@);
        }
        if fs[k].len() > MAX_FIELD_LEN {
            return Err(NetworkError::Serialization(String::from_str("field too long")));
        }
        let mut len_bytes = u32_to_be(fs[k].len() as u32);
        out.append(&mut len_bytes);
        out.extend_from_slice(fs[k].as_slice());
        proof {
            let rest = gfs.skip(k as int);
            assert(rest[0] == gfs[k as int]);
            assert(rest.drop_first() =~= gfs.skip(k as int + 1));
            assert(encode_fields(rest) =~= u32_be_bytes(gfs[k as int].len() as u32) + gfs[k as int]
                + encode_fields(gfs.skip(k as int + 1)));
            assert(out@ + encode_fields(gfs.skip(k as int + 1)) =~= encode_fields(gfs));
        }
        k = k + 1;
    }
    proof {
        assert(gfs.skip(n as int) =~= Seq::<Seq<u8>>::empty());
        assert(out@ =~= encode_fields(gfs));
    }
    Ok(out)
}

/// Parses a byte buffer as a field list, consuming it whole.
///
/// Succeeds exactly when the buffer is a well-formed field list, and
/// then yields the fields.
pub fn parse_fields_vec(buf: &[u8]) -> (r: Result<Vec<Vec<u8>>, NetworkError>)
    ensures
        r is Ok <==> parse_fields(buf@) is Some,
        r is Ok ==> r->Ok_0.deep_view() == parse_fields(buf@)->0,
{
    let mut out: Vec<Vec<u8>> = Vec::new();
    let mut pos: usize = 0;
    let n = buf.len();
    proof {
        assert(buf@.skip(0) =~= buf@);
    }
    while pos < n
        invariant
            n == buf@.len(),
            0 <= pos <= n,
            parse_fields(buf@) is Some <==> parse_fields(buf@.skip(pos as int)) is Some,
            parse_fields(buf@) is Some ==> parse_fields(buf@)->0 =~~= out.deep_view()
                + parse_fields(buf@.skip(pos as int))->0,
        decreases n - pos,
    {
        let ghost rem = buf@.skip(pos as int);
        if n - pos < 4 {
            return Err(NetworkError::Serialization(String::from_str("truncated field header")));
        }
        let flen = u32_from_be_slice(slice_subrange(buf, pos, pos + 4)) as usize;
        proof {
            assert(buf@.subrange(pos as int, pos as int + 4) =~= rem.subrange(0, 4));
        }
        if flen > n - pos - 4 {
            return Err(NetworkError::Serialization(String::from_str("field out of range")));
        }
        let fslice = slice_subrange(buf, pos + 4, pos + 4 + flen);
        let mut field: Vec<u8> = Vec::new();
        field.extend_from_slice(fslice);
        proof {
            assert(field@ =~= rem.subrange(4, 4 + flen as int));
            assert(rem.subrange(4 + flen as int, rem.len() as int) =~= buf@.skip(
                pos as int + 4 + flen as int,
            ));
        }
        let ghost prev = out.deep_view();
        out.push(field);
        proof {
            let rest = buf@.skip(pos as int + 4 + flen as int);
            assert(parse_fields(rem) is Some <==> parse_fields(rest) is Some);
            assert(out.deep_view() =~~= prev + seq![field@]);
            if parse_fields(rest) is Some {
                assert(parse_fields(rem)->0 =~~= seq![rem.subrange(4, 4 + flen as int)]
                    + parse_fields(rest)->0);
                assert(parse_fields(buf@)->0 =~~= out.deep_view() + parse_fields(rest)->0);
            }
        }
        pos = pos + 4 + flen;
    }
    proof {
        assert(buf@.skip(n as int) =~= Seq::<u8>::empty());
        assert(parse_fields(buf@.skip(n as int)) == Some(Seq::<Seq<u8>>::empty()));
        assert(parse_fields(buf@) is Some);
        assert(parse_fields(buf@)->0 =~~= out.deep_view());
    }
    Ok(out)
}

} // verus!
