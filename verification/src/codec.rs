use vstd::prelude::*;
use vstd::bytes::*;
use vstd::slice::*;

use crate::errors::StoreError;

verus! {

/// The length-prefixed wire form of a byte string: its length as eight
/// little-endian bytes, then the bytes themselves.
pub open spec fn lp_bytes(s: Seq<u8>) -> Seq<u8> {
    spec_u64_to_le_bytes(s.len() as u64) + s
}

/// A length-prefixed field can be carved off the front of `s`.
pub open spec fn lp_ok(s: Seq<u8>) -> bool {
    &&& s.len() >= 8
    &&& s.len() >= 8 + spec_u64_from_le_bytes(s.subrange(0, 8))
}

/// The bytes of the length-prefixed field at the front of `s`.
pub open spec fn lp_val(s: Seq<u8>) -> Seq<u8> {
    s.subrange(8, 8 + spec_u64_from_le_bytes(s.subrange(0, 8)))
}

/// What follows the length-prefixed field at the front of `s`.
pub open spec fn lp_rest(s: Seq<u8>) -> Seq<u8> {
    s.skip(8 + spec_u64_from_le_bytes(s.subrange(0, 8)) as int)
}


/// An owned copy of a byte string.
pub fn bytes_clone(v: &Vec<u8>) -> (r: Vec<u8>)
    ensures
        r@ == v@,
{
    slice_to_vec(v.as_slice())
}

/// Byte-for-byte equality of two byte strings.
pub fn bytes_eq(a: &Vec<u8>, b: &Vec<u8>) -> (r: bool)
    ensures
        r == (a@ == b@),
{
    let n = a.len();
    if n != b.len() {
        return false;
    }
    let mut i: usize = 0;
    while i < n
        invariant
            i <= n,
            n == a@.len(),
            n == b@.len(),
            forall|j: int| 0 <= j < i ==> a@[j] == b@[j],
        decreases n - i,
    {
        if a[i] != b[i] {
            return false;
        }
        i += 1;
    }
    proof {
        assert(a@ =~= b@);
    }
    true
}

/// Appends `v` in little-endian to `out`.
pub fn push_u64(out: &mut Vec<u8>, v: u64)
    ensures
        final(out)@ == old(out)@ + spec_u64_to_le_bytes(v),
{
    let mut b = u64_to_le_bytes(v);
    out.append(&mut b);
}

/// Appends `v` in little-endian to `out`.
pub fn push_u32(out: &mut Vec<u8>, v: u32)
    ensures
        final(out)@ == old(out)@ + spec_u32_to_le_bytes(v),
{
    let mut b = u32_to_le_bytes(v);
    out.append(&mut b);
}

/// Appends the length-prefixed form of `s` to `out`.
pub fn push_lp(out: &mut Vec<u8>, s: &Vec<u8>)
    ensures
        final(out)@ == old(out)@ + lp_bytes(s@),
{
    push_u64(out, s.len() as u64);
    out.extend_from_slice(s.as_slice());
    proof {
        assert(out@ =~= old(out)@ + lp_bytes(s@));
    }
}

/// Reads eight little-endian bytes at `*pos` and advances the cursor; a
/// buffer too short to hold them is malformed.
pub fn read_u64(bytes: &[u8], pos: &mut usize) -> (r: Result<u64, StoreError>)
    ensures
        match r {
            Result::Ok(v) => {
                &&& *old(pos) + 8 <= bytes@.len()
                &&& *final(pos) == *old(pos) + 8
                &&& v == spec_u64_from_le_bytes(
                    bytes@.subrange(*old(pos) as int, *old(pos) + 8),
                )
            },
            Result::Err(e) => {
                &&& bytes@.len() < *old(pos) + 8
                &&& e == StoreError::FormatError
                &&& *final(pos) == *old(pos)
            },
        },
{
    let len = bytes.len();
    if *pos > len || len - *pos < 8 {
        return Result::Err(StoreError::FormatError);
    }
    let v = u64_from_le_bytes(slice_subrange(bytes, *pos, *pos + 8));
    *pos = *pos + 8;
    Result::Ok(v)
}

/// Reads four little-endian bytes at `*pos` and advances the cursor.
pub fn read_u32(bytes: &[u8], pos: &mut usize) -> (r: Result<u32, StoreError>)
    ensures
        match r {
            Result::Ok(v) => {
                &&& *old(pos) + 4 <= bytes@.len()
                &&& *final(pos) == *old(pos) + 4
                &&& v == spec_u32_from_le_bytes(
                    bytes@.subrange(*old(pos) as int, *old(pos) + 4),
                )
            },
            Result::Err(e) => {
                &&& bytes@.len() < *old(pos) + 4
                &&& e == StoreError::FormatError
                &&& *final(pos) == *old(pos)
            },
        },
{
    let len = bytes.len();
    if *pos > len || len - *pos < 4 {
        return Result::Err(StoreError::FormatError);
    }
    let v = u32_from_le_bytes(slice_subrange(bytes, *pos, *pos + 4));
    *pos = *pos + 4;
    Result::Ok(v)
}

/// Reads the single byte at `*pos` and advances the cursor.
pub fn read_u8(bytes: &[u8], pos: &mut usize) -> (r: Result<u8, StoreError>)
    ensures
        match r {
            Result::Ok(v) => {
                &&& *old(pos) + 1 <= bytes@.len()
                &&& *final(pos) == *old(pos) + 1
                &&& v == bytes@[*old(pos) as int]
            },
            Result::Err(e) => {
                &&& bytes@.len() < *old(pos) + 1
                &&& e == StoreError::FormatError
                &&& *final(pos) == *old(pos)
            },
        },
{
    let len = bytes.len();
    if *pos >= len {
        return Result::Err(StoreError::FormatError);
    }
    let v = *slice_index_get(bytes, *pos);
    *pos = *pos + 1;
    Result::Ok(v)
}

/// Copies `n` bytes out of the buffer at `*pos` and advances the cursor.
pub fn read_vec(bytes: &[u8], pos: &mut usize, n: usize) -> (r: Result<Vec<u8>, StoreError>)
    ensures
        match r {
            Result::Ok(v) => {
                &&& *old(pos) + n <= bytes@.len()
                &&& *final(pos) == *old(pos) + n
                &&& v@ == bytes@.subrange(*old(pos) as int, *old(pos) + n)
            },
            Result::Err(e) => {
                &&& bytes@.len() < *old(pos) + n
                &&& e == StoreError::FormatError
                &&& *final(pos) == *old(pos)
            },
        },
{
    let len = bytes.len();
    if *pos > len || len - *pos < n {
        return Result::Err(StoreError::FormatError);
    }
    let v = slice_to_vec(slice_subrange(bytes, *pos, *pos + n));
    *pos = *pos + n;
    Result::Ok(v)
}

/// Reads a length-prefixed byte string at `*pos` and advances the cursor
/// past the prefix and the bytes it announces.
pub fn read_lp(bytes: &[u8], pos: &mut usize) -> (r: Result<Vec<u8>, StoreError>)
    ensures
        match r {
            Result::Ok(v) => {
                let l = spec_u64_from_le_bytes(bytes@.subrange(*old(pos) as int, *old(pos) + 8));
                &&& *old(pos) + 8 <= bytes@.len()
                &&& l == v@.len()
                &&& *old(pos) + 8 + l <= bytes@.len()
                &&& *final(pos) == *old(pos) + 8 + l
                &&& v@ == bytes@.subrange(*old(pos) + 8, *old(pos) + 8 + l)
            },
            Result::Err(e) => {
                &&& e == StoreError::FormatError
                &&& (bytes@.len() < *old(pos) + 8 || bytes@.len() < *old(pos) + 8
                    + spec_u64_from_le_bytes(bytes@.subrange(*old(pos) as int, *old(pos) + 8)))
                &&& *final(pos) == if bytes@.len() < *old(pos) + 8 {
                    *old(pos) as int
                } else {
                    *old(pos) + 8
                }
            },
        },
{
    let l = match read_u64(bytes, pos) {
        Result::Ok(v) => v,
        Result::Err(e) => {
            return Result::Err(e);
        },
    };
    let len = bytes.len();
    if l > (len - *pos) as u64 {
        return Result::Err(StoreError::FormatError);
    }
    read_vec(bytes, pos, l as usize)
}

} // verus!
