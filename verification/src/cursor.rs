//! The primitive cursor reader: fixed-width big-endian integers,
//! length-prefixed strings and length-prefixed byte blobs, read from a byte
//! slice while advancing a shared position.
//!
//! Each executable reader is specified against a spec-level counterpart
//! (`sr_*`) that consumes a byte sequence from the front and returns the
//! value together with the remaining suffix. The spec functions are the
//! single definition of the wire grammar's leaves.

use vstd::prelude::*;
use vstd::slice::{slice_subrange, slice_to_vec};
use vstd::utf8::{decode_utf8, valid_utf8};

use crate::error::DecodeError;

verus! {

/// The unsigned 16-bit value of two big-endian bytes.
pub open spec fn be_to_u16(a: u8, b: u8) -> u16 {
    ((a as int) * 0x100 + (b as int)) as u16
}

/// The signed 32-bit value of four big-endian bytes, as a mathematical
/// integer in `[-0x8000_0000, 0x7fff_ffff]` (two's complement).
pub open spec fn be_to_i32(a: u8, b: u8, c: u8, d: u8) -> int {
    let u = (a as int) * 0x100_0000 + (b as int) * 0x1_0000 + (c as int) * 0x100 + (d as int);
    if u >= 0x8000_0000 {
        u - 0x1_0000_0000
    } else {
        u
    }
}

/// Reads a big-endian `u16`: the value and the remaining bytes, or
/// `Truncated`.
pub open spec fn sr_u16(s: Seq<u8>) -> Result<(u16, Seq<u8>), DecodeError> {
    if s.len() < 2 {
        Err(DecodeError::Truncated)
    } else {
        Ok((be_to_u16(s[0], s[1]), s.skip(2)))
    }
}

/// Reads a big-endian `i32`: the value and the remaining bytes, or
/// `Truncated`.
pub open spec fn sr_i32(s: Seq<u8>) -> Result<(i32, Seq<u8>), DecodeError> {
    if s.len() < 4 {
        Err(DecodeError::Truncated)
    } else {
        Ok((be_to_i32(s[0], s[1], s[2], s[3]) as i32, s.skip(4)))
    }
}

/// Reads a string: a 2-byte unsigned length prefix, then that many bytes of
/// UTF-8. Fails with `Truncated` if the bytes are missing and `InvalidUtf8`
/// if they do not decode.
pub open spec fn sr_string(s: Seq<u8>) -> Result<(Seq<char>, Seq<u8>), DecodeError> {
    match sr_u16(s) {
        Err(e) => Err(e),
        Ok((n, r)) => if r.len() < n as int {
            Err(DecodeError::Truncated)
        } else if valid_utf8(r.take(n as int)) {
            Ok((decode_utf8(r.take(n as int)), r.skip(n as int)))
        } else {
            Err(DecodeError::InvalidUtf8)
        },
    }
}

/// Reads a blob: a 4-byte signed length prefix, then that many raw bytes.
/// A negative length is `MalformedCount`.
pub open spec fn sr_bytes(s: Seq<u8>) -> Result<(Seq<u8>, Seq<u8>), DecodeError> {
    match sr_i32(s) {
        Err(e) => Err(e),
        Ok((n, r)) => if n < 0 {
            Err(DecodeError::MalformedCount)
        } else if r.len() < n as int {
            Err(DecodeError::Truncated)
        } else {
            Ok((r.take(n as int), r.skip(n as int)))
        },
    }
}

/// Reads a nullable blob: as `sr_bytes`, but a length of `-1` denotes null
/// and yields an absent value.
pub open spec fn sr_bytes_opt(s: Seq<u8>) -> Result<(Option<Seq<u8>>, Seq<u8>), DecodeError> {
    match sr_i32(s) {
        Err(e) => Err(e),
        Ok((n, r)) => if n == -1 {
            Ok((None, r))
        } else if n < 0 {
            Err(DecodeError::MalformedCount)
        } else if r.len() < n as int {
            Err(DecodeError::Truncated)
        } else {
            Ok((Some(r.take(n as int)), r.skip(n as int)))
        },
    }
}

/// Reads a short blob: a 2-byte unsigned length prefix, then that many raw
/// bytes (the shape of a prepared-statement id).
pub open spec fn sr_short_bytes(s: Seq<u8>) -> Result<(Seq<u8>, Seq<u8>), DecodeError> {
    match sr_u16(s) {
        Err(e) => Err(e),
        Ok((n, r)) => if r.len() < n as int {
            Err(DecodeError::Truncated)
        } else {
            Ok((r.take(n as int), r.skip(n as int)))
        },
    }
}

/// Relies on `str::from_utf8`: it succeeds exactly on valid UTF-8 input,
/// and then returns the character sequence that vstd's `decode_utf8` gives
/// for those bytes.
#[verifier::external_body]
pub(crate) fn bytes_to_string(v: Vec<u8>) -> (r: Option<String>)
    ensures
        match r {
            Some(s) => valid_utf8(v@) && s@ == decode_utf8(v@),
            None => !valid_utf8(v@),
        },
{
    match core::str::from_utf8(&v) {
        Ok(s) => Some(s.to_owned()),
        Err(_) => None,
    }
}

/// Reads a big-endian `u16` at `*pos`, advancing the position.
pub fn read_u16(buf: &[u8], pos: &mut usize) -> (r: Result<u16, DecodeError>)
    requires
        *old(pos) <= buf@.len(),
    ensures
        *old(pos) <= *final(pos) <= buf@.len(),
        match r {
            Ok(v) => sr_u16(buf@.skip(*old(pos) as int)) == Ok::<_, DecodeError>((
                v,
                buf@.skip(*final(pos) as int),
            )),
            Err(e) => sr_u16(buf@.skip(*old(pos) as int)) == Err::<(u16, Seq<u8>), _>(e),
        },
{
    if buf.len() - *pos >= 2 {
        let a = buf[*pos];
        let b = buf[*pos + 1];
        *pos = *pos + 2;
        proof {
            assert(buf@.skip((*old(pos) + 2) as int) =~= buf@.skip(*old(pos) as int).skip(2));
        }
        Ok((a as u16) * 0x100 + (b as u16))
    } else {
        Err(DecodeError::Truncated)
    }
}

/// Reads a big-endian `i32` at `*pos`, advancing the position.
pub fn read_i32(buf: &[u8], pos: &mut usize) -> (r: Result<i32, DecodeError>)
    requires
        *old(pos) <= buf@.len(),
    ensures
        *old(pos) <= *final(pos) <= buf@.len(),
        match r {
            Ok(v) => sr_i32(buf@.skip(*old(pos) as int)) == Ok::<_, DecodeError>((
                v,
                buf@.skip(*final(pos) as int),
            )),
            Err(e) => sr_i32(buf@.skip(*old(pos) as int)) == Err::<(i32, Seq<u8>), _>(e),
        },
{
    if buf.len() - *pos >= 4 {
        let a = buf[*pos];
        let b = buf[*pos + 1];
        let c = buf[*pos + 2];
        let d = buf[*pos + 3];
        *pos = *pos + 4;
        let u: u32 = (a as u32) * 0x100_0000 + (b as u32) * 0x1_0000 + (c as u32) * 0x100 + (
        d as u32);
        let v: i32 = if u >= 0x8000_0000 {
            ((u as i64) - 0x1_0000_0000i64) as i32
        } else {
            u as i32
        };
        proof {
            assert(buf@.skip((*old(pos) + 4) as int) =~= buf@.skip(*old(pos) as int).skip(4));
            assert(v as int == be_to_i32(a, b, c, d));
        }
        Ok(v)
    } else {
        Err(DecodeError::Truncated)
    }
}

/// Reads a length-prefixed UTF-8 string at `*pos`, advancing the position.
pub fn read_string(buf: &[u8], pos: &mut usize) -> (r: Result<String, DecodeError>)
    requires
        *old(pos) <= buf@.len(),
    ensures
        *old(pos) <= *final(pos) <= buf@.len(),
        match r {
            Ok(v) => sr_string(buf@.skip(*old(pos) as int)) == Ok::<_, DecodeError>((
                v@,
                buf@.skip(*final(pos) as int),
            )),
            Err(e) => sr_string(buf@.skip(*old(pos) as int)) == Err::<(Seq<char>, Seq<u8>), _>(e),
        },
{
    let n = match read_u16(buf, pos) {
        Ok(n) => n,
        Err(e) => {
            return Err(e);
        },
    };
    if buf.len() - *pos < n as usize {
        return Err(DecodeError::Truncated);
    }
    let ghost mid = *pos;
    let bytes = slice_to_vec(slice_subrange(buf, *pos, *pos + n as usize));
    proof {
        assert(bytes@ =~= buf@.skip(mid as int).take(n as int));
        assert(buf@.skip((mid + n as usize) as int) =~= buf@.skip(mid as int).skip(n as int));
    }
    match bytes_to_string(bytes) {
        Some(s) => {
            *pos = *pos + n as usize;
            Ok(s)
        },
        None => Err(DecodeError::InvalidUtf8),
    }
}

/// Reads a length-prefixed blob at `*pos`, advancing the position.
pub fn read_bytes(buf: &[u8], pos: &mut usize) -> (r: Result<Vec<u8>, DecodeError>)
    requires
        *old(pos) <= buf@.len(),
    ensures
        *old(pos) <= *final(pos) <= buf@.len(),
        match r {
            Ok(v) => sr_bytes(buf@.skip(*old(pos) as int)) == Ok::<_, DecodeError>((
                v@,
                buf@.skip(*final(pos) as int),
            )),
            Err(e) => sr_bytes(buf@.skip(*old(pos) as int)) == Err::<(Seq<u8>, Seq<u8>), _>(e),
        },
{
    let n = match read_i32(buf, pos) {
        Ok(n) => n,
        Err(e) => {
            return Err(e);
        },
    };
    if n < 0 {
        return Err(DecodeError::MalformedCount);
    }
    if buf.len() - *pos < n as usize {
        return Err(DecodeError::Truncated);
    }
    let ghost mid = *pos;
    let bytes = slice_to_vec(slice_subrange(buf, *pos, *pos + n as usize));
    proof {
        assert(bytes@ =~= buf@.skip(mid as int).take(n as int));
        assert(buf@.skip((mid + n as usize) as int) =~= buf@.skip(mid as int).skip(n as int));
    }
    *pos = *pos + n as usize;
    Ok(bytes)
}

/// Reads a nullable length-prefixed blob at `*pos`, advancing the position;
/// the wire's `-1` length sentinel yields `None`.
pub fn read_bytes_opt(buf: &[u8], pos: &mut usize) -> (r: Result<Option<Vec<u8>>, DecodeError>)
    requires
        *old(pos) <= buf@.len(),
    ensures
        *old(pos) <= *final(pos) <= buf@.len(),
        match r {
            Ok(v) => sr_bytes_opt(buf@.skip(*old(pos) as int)) == Ok::<_, DecodeError>((
                match v {
                    Some(b) => Some(b@),
                    None => None,
                },
                buf@.skip(*final(pos) as int),
            )),
            Err(e) => sr_bytes_opt(buf@.skip(*old(pos) as int)) == Err::<
                (Option<Seq<u8>>, Seq<u8>),
                _,
            >(e),
        },
{
    let n = match read_i32(buf, pos) {
        Ok(n) => n,
        Err(e) => {
            return Err(e);
        },
    };
    if n == -1 {
        return Ok(None);
    }
    if n < 0 {
        return Err(DecodeError::MalformedCount);
    }
    if buf.len() - *pos < n as usize {
        return Err(DecodeError::Truncated);
    }
    let ghost mid = *pos;
    let bytes = slice_to_vec(slice_subrange(buf, *pos, *pos + n as usize));
    proof {
        assert(bytes@ =~= buf@.skip(mid as int).take(n as int));
        assert(buf@.skip((mid + n as usize) as int) =~= buf@.skip(mid as int).skip(n as int));
    }
    *pos = *pos + n as usize;
    Ok(Some(bytes))
}

/// Reads a blob with a 2-byte unsigned length prefix at `*pos`, advancing
/// the position.
pub fn read_short_bytes(buf: &[u8], pos: &mut usize) -> (r: Result<Vec<u8>, DecodeError>)
    requires
        *old(pos) <= buf@.len(),
    ensures
        *old(pos) <= *final(pos) <= buf@.len(),
        match r {
            Ok(v) => sr_short_bytes(buf@.skip(*old(pos) as int)) == Ok::<_, DecodeError>((
                v@,
                buf@.skip(*final(pos) as int),
            )),
            Err(e) => sr_short_bytes(buf@.skip(*old(pos) as int)) == Err::<(Seq<u8>, Seq<u8>), _>(
                e,
            ),
        },
{
    let n = match read_u16(buf, pos) {
        Ok(n) => n,
        Err(e) => {
            return Err(e);
        },
    };
    if buf.len() - *pos < n as usize {
        return Err(DecodeError::Truncated);
    }
    let ghost mid = *pos;
    let bytes = slice_to_vec(slice_subrange(buf, *pos, *pos + n as usize));
    proof {
        assert(bytes@ =~= buf@.skip(mid as int).take(n as int));
        assert(buf@.skip((mid + n as usize) as int) =~= buf@.skip(mid as int).skip(n as int));
    }
    *pos = *pos + n as usize;
    Ok(bytes)
}

} // verus!
