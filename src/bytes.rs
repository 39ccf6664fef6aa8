use crate::error::Error;
use vstd::prelude::*;
use vstd::utf8::*;

verus! {

/// Little-endian 16-bit value of the two bytes of `d` at `p`.
pub open spec fn le_u16(d: Seq<u8>, p: int) -> int {
    d[p] as int + 256 * d[p + 1] as int
}

/// Little-endian 32-bit value of the four bytes of `d` at `p`.
pub open spec fn le_u32(d: Seq<u8>, p: int) -> int {
    le_u16(d, p) + 65536 * le_u16(d, p + 2)
}

/// Little-endian 64-bit value of the eight bytes of `d` at `p`.
pub open spec fn le_u64(d: Seq<u8>, p: int) -> int {
    le_u32(d, p) + 4294967296 * le_u32(d, p + 4)
}

/// Little-endian value of a field of width 1, 2, 4 or 8 bytes.
pub open spec fn le_width(d: Seq<u8>, p: int, w: int) -> int {
    if w == 1 {
        d[p] as int
    } else if w == 2 {
        le_u16(d, p)
    } else if w == 4 {
        le_u32(d, p)
    } else {
        le_u64(d, p)
    }
}

/// Whether `n` bytes starting at `p` lie inside `d`.
pub open spec fn fits(d: Seq<u8>, p: int, n: int) -> bool {
    0 <= p && 0 <= n && p + n <= d.len()
}

/// The 16-bit little-endian value at `p`.
pub fn get_u16(d: &[u8], p: usize) -> (r: u16)
    requires
        p + 2 <= d@.len(),
    ensures
        r == le_u16(d@, p as int),
{
    d[p] as u16 + 256 * (d[p + 1] as u16)
}

/// The 32-bit little-endian value at `p`.
pub fn get_u32(d: &[u8], p: usize) -> (r: u32)
    requires
        p + 4 <= d@.len(),
    ensures
        r == le_u32(d@, p as int),
{
    let _n = d.len();
    get_u16(d, p) as u32 + 65536 * (get_u16(d, p + 2) as u32)
}

/// The 64-bit little-endian value at `p`.
pub fn get_u64(d: &[u8], p: usize) -> (r: u64)
    requires
        p + 8 <= d@.len(),
    ensures
        r == le_u64(d@, p as int),
{
    let _n = d.len();
    get_u32(d, p) as u64 + 4294967296 * (get_u32(d, p + 4) as u64)
}

/// The little-endian value of width `w` (1, 2, 4 or 8 bytes) at `p`.
pub fn get_width(d: &[u8], p: usize, w: usize) -> (r: u64)
    requires
        w == 1 || w == 2 || w == 4 || w == 8,
        p + w <= d@.len(),
    ensures
        r == le_width(d@, p as int, w as int),
{
    if w == 1 {
        d[p] as u64
    } else if w == 2 {
        get_u16(d, p) as u64
    } else if w == 4 {
        get_u32(d, p) as u64
    } else {
        get_u64(d, p)
    }
}

/// Fails with `Io` unless `n` bytes starting at `p` lie inside `d`.
pub fn check_fits(d: &[u8], p: usize, n: usize) -> (r: Result<(), Error>)
    ensures
        r is Ok <==> fits(d@, p as int, n as int),
        r is Err ==> r == Err::<(), Error>(Error::Io),
        d@.len() <= usize::MAX,
{
    if p <= d.len() && n <= d.len() - p {
        Ok(())
    } else {
        Err(Error::Io)
    }
}

/// A copy of the `n` bytes of `d` starting at `p`.
pub fn copy_range(d: &[u8], p: usize, n: usize) -> (r: Vec<u8>)
    requires
        fits(d@, p as int, n as int),
    ensures
        r@ == d@.subrange(p as int, p + n),
{
    let _len = d.len();
    let mut r: Vec<u8> = Vec::with_capacity(n);
    let mut i: usize = 0;
    while i < n
        invariant
            fits(d@, p as int, n as int),
            d@.len() <= usize::MAX,
            i <= n,
            r@ == d@.subrange(p as int, p + i),
        decreases n - i,
    {
        r.push(d[p + i]);
        i += 1;
        assert(r@ =~= d@.subrange(p as int, p + i));
    }
    r
}

/// Whether the bytes of `d` at `p` are those of `sig`.
pub fn has_signature(d: &[u8], p: usize, sig: &[u8]) -> (r: bool)
    ensures
        r == (fits(d@, p as int, sig@.len() as int) && d@.subrange(p as int, p + sig@.len())
            == sig@),
{
    if p > d.len() || sig.len() > d.len() - p {
        return false;
    }
    let mut i: usize = 0;
    while i < sig.len()
        invariant
            fits(d@, p as int, sig@.len() as int),
            d@.len() <= usize::MAX,
            i <= sig@.len(),
            forall|j: int| 0 <= j < i ==> d@[p + j] == sig@[j],
        decreases sig@.len() - i,
    {
        if d[p + i] != sig[i] {
            assert(d@.subrange(p as int, p + sig@.len())[i as int] != sig@[i as int]);
            return false;
        }
        i += 1;
    }
    assert(d@.subrange(p as int, p + sig@.len()) =~= sig@);
    true
}

/// The characters that `b` encodes, where `b` is valid UTF-8.
/// Relies on `String::from_utf8`: it succeeds exactly on valid UTF-8, and the
/// string then holds the characters that the bytes encode.
#[verifier::external_body]
pub(crate) fn utf8_string(b: Vec<u8>) -> (r: Option<String>)
    ensures
        r is Some <==> valid_utf8(b@),
        r is Some ==> r->Some_0@ == decode_utf8(b@),
{
    String::from_utf8(b).ok()
}

/// The string that the bytes `b` encode, or `Utf8` where they are not valid UTF-8.
pub fn decode_name(b: Vec<u8>) -> (r: Result<String, Error>)
    ensures
        r is Ok <==> valid_utf8(b@),
        r is Ok ==> r->Ok_0@ == decode_utf8(b@),
        r is Err ==> r == Err::<String, Error>(Error::Utf8),
{
    match utf8_string(b) {
        Some(s) => Ok(s),
        None => Err(Error::Utf8),
    }
}

} // verus!

verus! {

/// No byte of `d` in `[a, b)` is zero.
pub open spec fn nul_free(d: Seq<u8>, a: int, b: int) -> bool {
    forall|j: int| a <= j < b ==> d[j] != 0
}

/// There is a zero byte at or after `a`.
pub open spec fn has_nul_from(d: Seq<u8>, a: int) -> bool {
    exists|k: int| a <= k < d.len() && d[k] == 0
}

/// The bytes from `start` up to the first zero byte after it, or `Io` where
/// no zero byte follows `start`.
pub fn read_cstr(d: &[u8], start: usize) -> (r: Result<Vec<u8>, Error>)
    ensures
        r is Ok <==> has_nul_from(d@, start as int),
        r is Ok ==> {
            let k = start + r->Ok_0@.len();
            &&& k < d@.len()
            &&& d@[k] == 0
            &&& nul_free(d@, start as int, k)
            &&& r->Ok_0@ == d@.subrange(start as int, k)
        },
        r is Err ==> r == Err::<Vec<u8>, Error>(Error::Io),
{
    let len = d.len();
    let mut k: usize = start;
    while k < len && d[k] != 0
        invariant
            len == d@.len(),
            start <= k,
            nul_free(d@, start as int, k as int),
        decreases len - k,
    {
        k += 1;
    }
    if k >= len {
        assert(!has_nul_from(d@, start as int)) by {
            if has_nul_from(d@, start as int) {
                let j = choose|j: int| start <= j < d@.len() && d@[j] == 0;
                assert(d@[j] != 0);
            }
        }
        return Err(Error::Io);
    }
    let r = copy_range(d, start, k - start);
    Ok(r)
}

} // verus!
