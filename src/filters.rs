use crate::error::Error;
use crate::filter_pipeline::{FilterPipeline, FilterType};
use vstd::arithmetic::div_mod::{lemma_fundamental_div_mod, lemma_fundamental_div_mod_converse};
use vstd::prelude::*;

verus! {

/// What inflating the zlib stream `b` gives: the decompressed bytes, or
/// nothing where `b` is not a complete, well-formed stream.
pub uninterp spec fn zlib_inflate(b: Seq<u8>) -> Option<Seq<u8>>;

/// Relies on `flate2::read::ZlibDecoder` read to its end: it inflates a zlib
/// (RFC 1950) stream, and fails on a corrupt or truncated one; the outcome
/// depends on the bytes alone.
#[verifier::external_body]
fn inflate(b: &[u8]) -> (r: Option<Vec<u8>>)
    ensures
        match r {
            Some(v) => zlib_inflate(b@) == Some(v@),
            None => zlib_inflate(b@) is None,
        },
{
    let mut out: Vec<u8> = Vec::new();
    let mut decoder = flate2::read::ZlibDecoder::new(b);
    match std::io::Read::read_to_end(&mut decoder, &mut out) {
        Ok(_) => Some(out),
        Err(_) => None,
    }
}

/// The bytes of `s` laid out by the shuffle filter for elements of `e`
/// bytes: byte `b` of element `i` moves to position `b * n + i`, where `n` is
/// the number of whole elements; trailing bytes stay in place.
pub open spec fn shuffled(s: Seq<u8>, e: nat) -> Seq<u8> {
    let n = (s.len() / e) as int;
    let w = e as int;
    Seq::new(s.len(), |k: int| if k < n * w { s[(k % n) * w + k / n] } else { s[k] })
}

/// The bytes of `s` with the shuffle filter undone for elements of `e` bytes:
/// byte `i * e + b` is taken from position `b * n + i`; bytes past the last
/// whole element are zero.
pub open spec fn unshuffled(s: Seq<u8>, e: nat) -> Seq<u8> {
    let n = (s.len() / e) as int;
    let w = e as int;
    Seq::new(s.len(), |k: int| if k < n * w { s[(k % w) * n + k / w] } else { 0u8 })
}

/// Where `k` is below `n * e`, `(k % e) * n + k / e` is too, and dividing it
/// by `n` gives back the two parts of `k`.
proof fn lemma_transpose_index(k: int, e: int, n: int)
    requires
        e > 0,
        n > 0,
        0 <= k < n * e,
    ensures
        0 <= (k % e) * n + k / e < n * e,
        ((k % e) * n + k / e) % n == k / e,
        ((k % e) * n + k / e) / n == k % e,
{
    lemma_fundamental_div_mod(k, e);
    let q = k / e;
    let r = k % e;
    assert(0 <= r < e);
    assert(0 <= q < n) by (nonlinear_arith)
        requires
            k == e * q + r,
            0 <= r < e,
            0 <= k < n * e,
    ;
    assert(0 <= r * n + q < n * e) by (nonlinear_arith)
        requires
            0 <= r < e,
            0 <= q < n,
    ;
    lemma_fundamental_div_mod_converse(r * n + q, n, r, q);
}

/// Undoing the shuffle filter restores what it was given, for a buffer made
/// of whole elements.
pub proof fn lemma_unshuffle_shuffle(s: Seq<u8>, e: nat)
    requires
        e > 0,
        s.len() % e == 0,
    ensures
        unshuffled(shuffled(s, e), e) == s,
{
    let n = s.len() / e;
    lemma_fundamental_div_mod(s.len() as int, e as int);
    assert(s.len() == n * e) by (nonlinear_arith)
        requires
            s.len() == e * n + 0,
    ;
    let t = shuffled(s, e);
    let u = unshuffled(t, e);
    assert forall|k: int| 0 <= k < s.len() implies u[k] == s[k] by {
        lemma_transpose_index(k, e as int, n as int);
        let j = (k % e as int) * n + k / e as int;
        lemma_transpose_index(j, n as int, e as int);
        assert(t[j] == s[(j % n as int) * e + j / n as int]);
        lemma_fundamental_div_mod(k, e as int);
        assert((k / e as int) * e + k % e as int == k) by (nonlinear_arith)
            requires
                k == e * (k / e as int) + k % e as int,
        ;
    }
    assert(u =~= s);
}

/// Undoes the shuffle filter on `buf`, whose elements are `e` bytes long.
pub fn unshuffle(buf: &Vec<u8>, e: usize) -> (r: Vec<u8>)
    requires
        e > 0,
    ensures
        r@ == unshuffled(buf@, e as nat),
{
    let len = buf.len();
    let n = len / e;
    assert(n * e <= len) by (nonlinear_arith)
        requires
            n == len / e,
            e > 0,
    ;
    let total = n * e;
    let mut r: Vec<u8> = Vec::with_capacity(len);
    let mut k: usize = 0;
    while k < len
        invariant
            len == buf@.len(),
            e > 0,
            n == len / e,
            total == n * e,
            total <= len,
            k <= len,
            r@.len() == k,
            forall|j: int| 0 <= j < k ==> r@[j] == unshuffled(buf@, e as nat)[j],
        decreases len - k,
    {
        if k < total {
            proof {
                lemma_transpose_index(k as int, e as int, n as int);
            }
            r.push(buf[(k % e) * n + k / e]);
        } else {
            r.push(0u8);
        }
        k += 1;
    }
    assert(r@ =~= unshuffled(buf@, e as nat));
    r
}

/// What undoing one filter does to the buffer `s`, for elements of `e` bytes.
pub open spec fn invert_filter(t: FilterType, s: Seq<u8>, e: nat) -> Result<Seq<u8>, Error> {
    match t {
        FilterType::ShuffleFilter => Ok(unshuffled(s, e)),
        FilterType::GzipDeflateFilter => match zlib_inflate(s) {
            Some(v) => Ok(v),
            None => Err(Error::Decompression),
        },
        _ => Err(Error::Unsupported),
    }
}

/// What undoing the filters `ts` does to `s`: the last filter is undone
/// first.
pub open spec fn invert_pipeline(ts: Seq<FilterType>, s: Seq<u8>, e: nat) -> Result<
    Seq<u8>,
    Error,
>
    decreases ts.len(),
{
    if ts.len() == 0 {
        Ok(s)
    } else {
        match invert_filter(ts.last(), s, e) {
            Ok(v) => invert_pipeline(ts.drop_last(), v, e),
            Err(x) => Err(x),
        }
    }
}

/// The filter types of a pipeline, in order.
pub open spec fn pipeline_types(fs: Seq<FilterPipeline>) -> Seq<FilterType> {
    fs.map_values(|f: FilterPipeline| f.filter_type)
}

/// Undoes one filter.
fn apply_inverse(t: FilterType, buf: Vec<u8>, e: usize) -> (r: Result<Vec<u8>, Error>)
    requires
        e > 0,
    ensures
        match r {
            Ok(v) => invert_filter(t, buf@, e as nat) == Ok::<Seq<u8>, Error>(v@),
            Err(x) => invert_filter(t, buf@, e as nat) == Err::<Seq<u8>, Error>(x),
        },
{
    match t {
        FilterType::ShuffleFilter => Ok(unshuffle(&buf, e)),
        FilterType::GzipDeflateFilter => match inflate(buf.as_slice()) {
            Some(v) => Ok(v),
            None => Err(Error::Decompression),
        },
        _ => Err(Error::Unsupported),
    }
}

/// Undoes the filters of a pipeline on one chunk, in reverse order of their
/// registration; `e` is the element size that the shuffle filter works with.
pub fn invert_filters(filters: &Vec<FilterPipeline>, buf: Vec<u8>, e: usize) -> (r: Result<
    Vec<u8>,
    Error,
>)
    requires
        e > 0,
    ensures
        match r {
            Ok(v) => invert_pipeline(pipeline_types(filters@), buf@, e as nat) == Ok::<
                Seq<u8>,
                Error,
            >(v@),
            Err(x) => invert_pipeline(pipeline_types(filters@), buf@, e as nat) == Err::<
                Seq<u8>,
                Error,
            >(x),
        },
{
    let ghost all = pipeline_types(filters@);
    let mut cur = buf;
    let mut i: usize = filters.len();
    assert(all.subrange(0, i as int) =~= all);
    while i > 0
        invariant
            e > 0,
            i <= filters@.len(),
            all == pipeline_types(filters@),
            invert_pipeline(all, buf@, e as nat) == invert_pipeline(
                all.subrange(0, i as int),
                cur@,
                e as nat,
            ),
        decreases i,
    {
        let ghost prefix = all.subrange(0, i as int);
        assert(prefix.last() == filters@[i - 1].filter_type);
        assert(prefix.drop_last() =~= all.subrange(0, i - 1));
        let next = apply_inverse(filters[i - 1].filter_type, cur, e);
        match next {
            Ok(v) => {
                cur = v;
            },
            Err(x) => {
                return Err(x);
            },
        }
        i -= 1;
    }
    assert(all.subrange(0, 0) =~= Seq::<FilterType>::empty());
    Ok(cur)
}

/// Undoing a shuffle-then-deflate pipeline restores the buffer that was
/// shuffled and then compressed, for any stream that inflates to the shuffled
/// bytes.
pub proof fn lemma_shuffle_deflate_round_trip(s: Seq<u8>, e: nat, compressed: Seq<u8>)
    requires
        e > 0,
        s.len() % e == 0,
        zlib_inflate(compressed) == Some(shuffled(s, e)),
    ensures
        invert_pipeline(
            seq![FilterType::ShuffleFilter, FilterType::GzipDeflateFilter],
            compressed,
            e,
        ) == Ok::<Seq<u8>, Error>(s),
{
    let ts = seq![FilterType::ShuffleFilter, FilterType::GzipDeflateFilter];
    assert(ts.last() == FilterType::GzipDeflateFilter);
    assert(ts.drop_last() =~= seq![FilterType::ShuffleFilter]);
    let one = seq![FilterType::ShuffleFilter];
    assert(one.drop_last() =~= Seq::<FilterType>::empty());
    lemma_unshuffle_shuffle(s, e);
    let v = shuffled(s, e);
    assert(invert_filter(FilterType::GzipDeflateFilter, compressed, e) == Ok::<Seq<u8>, Error>(v));
    assert(invert_pipeline(ts, compressed, e) == invert_pipeline(one, v, e));
    assert(invert_filter(FilterType::ShuffleFilter, v, e) == Ok::<Seq<u8>, Error>(s));
    assert(invert_pipeline(one, v, e) == invert_pipeline(Seq::<FilterType>::empty(), s, e));
}

} // verus!
