use vstd::arithmetic::div_mod::lemma_fundamental_div_mod;
use vstd::prelude::*;

verus! {

/// Product of the extents `s[k..]`.
pub open spec fn suffix_volume(s: Seq<int>, k: int) -> int
    decreases s.len() - k,
{
    if k >= s.len() || k < 0 {
        1
    } else {
        s[k] * suffix_volume(s, k + 1)
    }
}

/// Number of elements of an array of shape `s`.
pub open spec fn volume(s: Seq<int>) -> int {
    suffix_volume(s, 0)
}

/// The extents of a shape as integers.
pub open spec fn extents(s: Seq<usize>) -> Seq<int> {
    s.map_values(|x: usize| x as int)
}

/// Coordinate `k` of the element at row-major position `i` of an array of
/// shape `s`.
pub open spec fn coordinate(i: int, s: Seq<int>, k: int) -> int {
    (i / suffix_volume(s, k + 1)) % s[k]
}

/// Row-major position, in an array of shape `c`, of the coordinates `x[k..]`
/// against the later axes.
pub open spec fn offset_from(x: Seq<int>, c: Seq<int>, k: int) -> int
    decreases x.len() - k,
{
    if k >= x.len() || k < 0 {
        0
    } else {
        x[k] * suffix_volume(c, k + 1) + offset_from(x, c, k + 1)
    }
}

/// Row-major position of the coordinates `x` in an array of shape `c`.
pub open spec fn position(x: Seq<int>, c: Seq<int>) -> int {
    offset_from(x, c, 0)
}

/// The coordinates of the element at position `i` of the destination array
/// of shape `s`, relative to a chunk origin `o`.
pub open spec fn local_coordinates(i: int, s: Seq<int>, o: Seq<int>) -> Seq<int> {
    Seq::new(s.len(), |k: int| coordinate(i, s, k) - o[k])
}

/// The element at position `i` of an array of shape `s` lies in the chunk
/// with origin `o` and extents `c`.
pub open spec fn covered(i: int, s: Seq<int>, o: Seq<int>, c: Seq<int>) -> bool {
    forall|k: int| 0 <= k < s.len() ==> o[k] <= #[trigger] coordinate(i, s, k) < o[k] + c[k]
}

/// The array `dest` of shape `s` after the chunk `chunk` of extents `c` has
/// been written at origin `o`, clipped to the array: elements of `e` bytes.
pub open spec fn tiled(
    dest: Seq<u8>,
    s: Seq<int>,
    e: int,
    chunk: Seq<u8>,
    o: Seq<int>,
    c: Seq<int>,
) -> Seq<u8> {
    Seq::new(
        dest.len(),
        |j: int|
            {
                let i = j / e;
                if covered(i, s, o, c) {
                    chunk[position(local_coordinates(i, s, o), c) * e + j % e]
                } else {
                    dest[j]
                }
            },
    )
}

/// All extents are positive.
pub open spec fn all_positive(s: Seq<int>) -> bool {
    forall|k: int| 0 <= k < s.len() ==> s[k] > 0
}

proof fn lemma_suffix_positive(s: Seq<int>, k: int)
    requires
        all_positive(s),
    ensures
        suffix_volume(s, k) >= 1,
    decreases s.len() - k,
{
    if k >= 0 && k < s.len() {
        lemma_suffix_positive(s, k + 1);
        assert(s[k] * suffix_volume(s, k + 1) >= 1) by (nonlinear_arith)
            requires
                s[k] > 0,
                suffix_volume(s, k + 1) >= 1,
        ;
    }
}

proof fn lemma_suffix_monotone(s: Seq<int>, j: int, k: int)
    requires
        all_positive(s),
        0 <= j <= k,
    ensures
        suffix_volume(s, k) <= suffix_volume(s, j),
    decreases k - j,
{
    if j < k && j < s.len() {
        lemma_suffix_monotone(s, j + 1, k);
        lemma_suffix_positive(s, j + 1);
        assert(suffix_volume(s, j + 1) <= s[j] * suffix_volume(s, j + 1)) by (nonlinear_arith)
            requires
                s[j] >= 1,
                suffix_volume(s, j + 1) >= 1,
        ;
    }
}

/// Coordinates within the extents have a position below the volume.
proof fn lemma_offset_bound(x: Seq<int>, c: Seq<int>, k: int)
    requires
        x.len() == c.len(),
        0 <= k <= x.len(),
        forall|m: int| 0 <= m < x.len() ==> 0 <= #[trigger] x[m] < c[m],
    ensures
        0 <= offset_from(x, c, k) < suffix_volume(c, k),
    decreases x.len() - k,
{
    if k < x.len() {
        lemma_offset_bound(x, c, k + 1);
        let r = offset_from(x, c, k + 1);
        let v = suffix_volume(c, k + 1);
        assert(0 <= x[k] * v + r < c[k] * v) by (nonlinear_arith)
            requires
                0 <= x[k] < c[k],
                0 <= r < v,
        ;
    }
}

/// Some product of the extents `s[k..]` exceeds `usize`.
pub open spec fn suffix_overflows(s: Seq<int>) -> bool {
    exists|k: int| 0 <= k < s.len() && #[trigger] suffix_volume(s, k) > usize::MAX
}

/// The extents of `shape` with each coordinate's stride: `strides[k]` is the
/// product of the extents after axis `k`. `None` where the volume exceeds
/// `usize` for some suffix of the axes.
pub fn strides_of(shape: &Vec<usize>) -> (r: Option<(Vec<usize>, usize)>)
    ensures
        match r {
            Some((st, v)) => {
                &&& st@.len() == shape@.len()
                &&& forall|k: int|
                    0 <= k < st@.len() ==> st@[k] == suffix_volume(extents(shape@), k + 1)
                &&& v == volume(extents(shape@))
                &&& !suffix_overflows(extents(shape@))
            },
            None => suffix_overflows(extents(shape@)),
        },
{
    let n = shape.len();
    let ghost s = extents(shape@);
    let mut st: Vec<usize> = Vec::new();
    let mut k: usize = 0;
    while k < n
        invariant
            n == shape@.len(),
            s == extents(shape@),
            k <= n,
            st@.len() == k,
            forall|m: int| 0 <= m < k ==> st@[m] == 0,
        decreases n - k,
    {
        st.push(0);
        k += 1;
    }
    let mut acc: usize = 1;
    let mut k: usize = n;
    while k > 0
        invariant
            n == shape@.len(),
            s == extents(shape@),
            s.len() == n,
            k <= n,
            st@.len() == n,
            acc == suffix_volume(s, k as int),
            forall|m: int| k <= m < n ==> st@[m] == suffix_volume(s, m + 1),
        decreases k,
    {
        let x = shape[k - 1];
        st.set(k - 1, acc);
        if x != 0 && acc > usize::MAX / x {
            proof {
                assert(x * acc > usize::MAX) by (nonlinear_arith)
                    requires
                        x > 0,
                        acc > usize::MAX / x,
                ;
                assert(suffix_volume(s, k - 1) == x * acc);
            }
            return None;
        }
        proof {
            if x != 0 {
                assert(acc * x <= usize::MAX) by (nonlinear_arith)
                    requires
                        x > 0,
                        acc <= usize::MAX / x,
                ;
            }
            assert(suffix_volume(s, k - 1) == x * acc);
        }
        acc = acc * x;
        k -= 1;
    }
    assert forall|k: int| 0 <= k < s.len() implies !(#[trigger] suffix_volume(s, k) > usize::MAX) by {
        if k > 0 {
            assert(st@[k - 1] == suffix_volume(s, k));
        }
    }
    Some((st, acc))
}

/// A nonzero volume has no zero extent.
proof fn lemma_positive_volume(s: Seq<int>, k: int)
    requires
        forall|m: int| 0 <= m < s.len() ==> s[m] >= 0,
        0 <= k,
        suffix_volume(s, k) > 0,
    ensures
        forall|m: int| k <= m < s.len() ==> s[m] > 0,
    decreases s.len() - k,
{
    if k < s.len() {
        lemma_suffix_nonnegative(s, k + 1);
        if s[k] == 0 {
            assert(s[k] * suffix_volume(s, k + 1) == 0);
        }
        assert(suffix_volume(s, k + 1) > 0) by (nonlinear_arith)
            requires
                s[k] * suffix_volume(s, k + 1) > 0,
                s[k] >= 0,
        ;
        lemma_positive_volume(s, k + 1);
    }
}

proof fn lemma_suffix_nonnegative(s: Seq<int>, k: int)
    requires
        forall|m: int| 0 <= m < s.len() ==> s[m] >= 0,
    ensures
        suffix_volume(s, k) >= 0,
    decreases s.len() - k,
{
    if k >= 0 && k < s.len() {
        lemma_suffix_nonnegative(s, k + 1);
        assert(s[k] * suffix_volume(s, k + 1) >= 0) by (nonlinear_arith)
            requires
                s[k] >= 0,
                suffix_volume(s, k + 1) >= 0,
        ;
    }
}

/// A chunk origin as integers.
pub open spec fn origin_of(o: Seq<u64>) -> Seq<int> {
    o.map_values(|x: u64| x as int)
}

/// `st` holds the strides of the shape `s`.
pub open spec fn strides_ok(st: Seq<usize>, s: Seq<usize>) -> bool {
    &&& st.len() == s.len()
    &&& forall|k: int| 0 <= k < st.len() ==> st[k] == suffix_volume(extents(s), k + 1)
}

/// Writes the chunk `chunk` (extents `cshape`, elements of `e` bytes) into
/// `dest` (extents `shape`) at the origin `origin`, clipped to `dest`.
pub fn tile_chunk(
    dest: &mut Vec<u8>,
    shape: &Vec<usize>,
    strides: &Vec<usize>,
    e: usize,
    chunk: &Vec<u8>,
    origin: &Vec<u64>,
    cshape: &Vec<usize>,
    cstrides: &Vec<usize>,
)
    requires
        e > 0,
        old(dest)@.len() == volume(extents(shape@)) * e,
        strides_ok(strides@, shape@),
        strides_ok(cstrides@, cshape@),
        cshape@.len() == shape@.len(),
        origin@.len() >= shape@.len(),
        all_positive(extents(cshape@)),
        chunk@.len() == volume(extents(cshape@)) * e,
    ensures
        final(dest)@ == tiled(
            old(dest)@,
            extents(shape@),
            e as int,
            chunk@,
            origin_of(origin@),
            extents(cshape@),
        ),
{
    let ghost sv = extents(shape@);
    let ghost cv = extents(cshape@);
    let ghost ov = origin_of(origin@);
    let ghost target = tiled(old(dest)@, sv, e as int, chunk@, ov, cv);
    let n = shape.len();
    let total = dest.len();
    let clen = chunk.len();
    if total == 0 {
        assert(dest@ =~= target);
        return ;
    }
    proof {
        assert(volume(sv) > 0) by (nonlinear_arith)
            requires
                total == volume(sv) * e,
                total > 0,
                e > 0,
        ;
        assert forall|m: int| 0 <= m < sv.len() implies sv[m] >= 0 by {}
        lemma_positive_volume(sv, 0);
        lemma_suffix_positive(cv, 0);
    }
    let mut j: usize = 0;
    while j < total
        invariant
            e > 0,
            n == shape@.len(),
            sv == extents(shape@),
            cv == extents(cshape@),
            ov == origin_of(origin@),
            target == tiled(old(dest)@, sv, e as int, chunk@, ov, cv),
            total == dest@.len(),
            total == old(dest)@.len(),
            total == volume(sv) * e,
            strides_ok(strides@, shape@),
            strides_ok(cstrides@, cshape@),
            cshape@.len() == n,
            origin@.len() >= n,
            all_positive(sv),
            all_positive(cv),
            chunk@.len() == volume(cv) * e,
            clen == chunk@.len(),
            clen <= usize::MAX,
            j <= total,
            forall|m: int| 0 <= m < j ==> dest@[m] == target[m],
            forall|m: int| j <= m < total ==> dest@[m] == old(dest)@[m],
        decreases total - j,
    {
        let i = j / e;
        proof {
            assert(i < volume(sv)) by (nonlinear_arith)
                requires
                    j < total,
                    total == volume(sv) * e,
                    i == j / e,
                    e > 0,
            ;
        }
        let mut inside = true;
        let mut k: usize = 0;
        while k < n
            invariant
                n == shape@.len(),
                sv == extents(shape@),
                cv == extents(cshape@),
                ov == origin_of(origin@),
                strides_ok(strides@, shape@),
                cshape@.len() == n,
                origin@.len() >= n,
                all_positive(sv),
                k <= n,
                inside == (forall|m: int|
                    0 <= m < k ==> ov[m] <= #[trigger] coordinate(i as int, sv, m) < ov[m]
                        + cv[m]),
            decreases n - k,
        {
            proof {
                lemma_suffix_positive(sv, k + 1);
                assert(sv[k as int] == shape@[k as int]);
            }
            let x = (i / strides[k]) % shape[k];
            assert(x == coordinate(i as int, sv, k as int));
            let o = origin[k];
            if !((o as u128) <= (x as u128) && (x as u128) < (o as u128) + (cshape[k] as u128)) {
                inside = false;
            }
            k += 1;
        }
        if inside {
            let ghost x = local_coordinates(i as int, sv, ov);
            proof {
                assert forall|m: int| 0 <= m < x.len() implies 0 <= #[trigger] x[m] < cv[m] by {
                    assert(ov[m] <= coordinate(i as int, sv, m) < ov[m] + cv[m]);
                }
            }
            let mut local: usize = 0;
            let mut k: usize = n;
            while k > 0
                invariant
                    n == shape@.len(),
                    sv == extents(shape@),
                    cv == extents(cshape@),
                    ov == origin_of(origin@),
                    x == local_coordinates(i as int, sv, ov),
                    x.len() == n,
                    cv.len() == n,
                    forall|m: int| 0 <= m < x.len() ==> 0 <= #[trigger] x[m] < cv[m],
                    strides_ok(strides@, shape@),
                    strides_ok(cstrides@, cshape@),
                    all_positive(sv),
                    all_positive(cv),
                    cshape@.len() == n,
                    origin@.len() >= n,
                    k <= n,
                    local == offset_from(x, cv, k as int),
                    chunk@.len() == volume(cv) * e,
                    chunk@.len() <= usize::MAX,
                    e > 0,
                decreases k,
            {
                proof {
                    lemma_offset_bound(x, cv, k - 1);
                    lemma_suffix_monotone(cv, 0, k - 1);
                }
                proof {
                    lemma_suffix_positive(sv, k as int);
                    assert(sv[k - 1] == shape@[k - 1]);
                    assert(volume(cv) <= chunk@.len()) by (nonlinear_arith)
                        requires
                            chunk@.len() == volume(cv) * e,
                            e > 0,
                            volume(cv) >= 1,
                    ;
                    assert(cv[k - 1] == cshape@[k - 1]);
                }
                let c = (i / strides[k - 1]) % shape[k - 1];
                assert(c == coordinate(i as int, sv, k - 1));
                let d = (c as u64 - origin[k - 1]) as usize;
                assert(d == x[k - 1]);
                local = d * cstrides[k - 1] + local;
                k -= 1;
            }
            proof {
                lemma_offset_bound(x, cv, 0);
                assert(local * e <= chunk@.len()) by (nonlinear_arith)
                    requires
                        local < volume(cv),
                        chunk@.len() == volume(cv) * e,
                        e > 0,
                ;
                assert(local * e + j % e < chunk@.len()) by (nonlinear_arith)
                    requires
                        local < volume(cv),
                        j % e < e,
                        chunk@.len() == volume(cv) * e,
                        e > 0,
                ;
            }
            let v = chunk[local * e + j % e];
            dest.set(j, v);
        }
        j += 1;
    }
    assert(dest@ =~= target);
}

/// `o` is an origin of the regular chunk grid of extents `c` over an array
/// of shape `s`: on each axis a multiple of the chunk extent, inside the array.
pub open spec fn on_grid(o: Seq<int>, c: Seq<int>, s: Seq<int>) -> bool {
    &&& o.len() == s.len()
    &&& forall|k: int| 0 <= k < s.len() ==> #[trigger] o[k] % c[k] == 0 && 0 <= o[k] < s[k]
}

/// The coordinates `p` lie in the chunk region with origin `o` and extents `c`.
pub open spec fn in_region(p: Seq<int>, o: Seq<int>, c: Seq<int>) -> bool {
    forall|k: int| 0 <= k < p.len() ==> o[k] <= #[trigger] p[k] < o[k] + c[k]
}

/// The origin of the grid chunk that holds the coordinates `p`.
pub open spec fn grid_origin(p: Seq<int>, c: Seq<int>) -> Seq<int> {
    Seq::new(p.len(), |k: int| (p[k] / c[k]) * c[k])
}

proof fn lemma_grid_axis(p: int, c: int, s: int, o: int)
    requires
        c > 0,
        0 <= p < s,
    ensures
        ((p / c) * c) % c == 0,
        0 <= (p / c) * c <= p < (p / c) * c + c,
        o % c == 0 && o <= p < o + c ==> o == (p / c) * c,
{
    lemma_fundamental_div_mod(p, c);
    let q = p / c;
    assert(q >= 0) by (nonlinear_arith)
        requires
            p == c * q + p % c,
            0 <= p % c < c,
            p >= 0,
            c > 0,
    ;
    assert(q * c == c * q) by (nonlinear_arith);
    vstd::arithmetic::div_mod::lemma_fundamental_div_mod_converse(q * c, c, q, 0);
    if o % c == 0 && o <= p < o + c {
        lemma_fundamental_div_mod(o, c);
        let q2 = o / c;
        assert(q2 * c == c * q2) by (nonlinear_arith);
        vstd::arithmetic::div_mod::lemma_fundamental_div_mod_converse(p, c, q2, p - o);
    }
}

/// The chunks of the regular grid tile the array: every element lies in the
/// region of exactly one grid chunk.
pub proof fn lemma_chunk_grid_tiles(p: Seq<int>, c: Seq<int>, s: Seq<int>)
    requires
        p.len() == s.len(),
        c.len() == s.len(),
        all_positive(c),
        forall|k: int| 0 <= k < s.len() ==> 0 <= #[trigger] p[k] < s[k],
    ensures
        on_grid(grid_origin(p, c), c, s),
        in_region(p, grid_origin(p, c), c),
        forall|o: Seq<int>| on_grid(o, c, s) && in_region(p, o, c) ==> o == grid_origin(p, c),
{
    let g = grid_origin(p, c);
    assert forall|k: int| 0 <= k < s.len() implies #[trigger] g[k] % c[k] == 0 && 0 <= g[k] < s[k]
        && g[k] <= p[k] < g[k] + c[k] by {
        lemma_grid_axis(p[k], c[k], s[k], 0);
    }
    assert forall|o: Seq<int>| on_grid(o, c, s) && in_region(p, o, c) implies o == g by {
        assert forall|k: int| 0 <= k < o.len() implies o[k] == g[k] by {
            assert(o[k] % c[k] == 0);
            assert(o[k] <= p[k] < o[k] + c[k]);
            lemma_grid_axis(p[k], c[k], s[k], o[k]);
        }
        assert(o =~= g);
    }
}

/// The number of elements of an array of shape `shape`, or `None` where it
/// exceeds `usize`.
pub fn volume_of(shape: &Vec<usize>) -> (r: Option<usize>)
    ensures
        match r {
            Some(v) => v == volume(extents(shape@)),
            None => volume(extents(shape@)) > usize::MAX,
        },
{
    let n = shape.len();
    let ghost s = extents(shape@);
    let mut k: usize = 0;
    while k < n
        invariant
            n == shape@.len(),
            s == extents(shape@),
            k <= n,
            forall|m: int| 0 <= m < k ==> s[m] > 0,
        decreases n - k,
    {
        if shape[k] == 0 {
            proof {
                lemma_zero_extent(s, 0, k as int);
            }
            return Some(0);
        }
        k += 1;
    }
    assert(all_positive(s));
    let mut acc: usize = 1;
    let mut k: usize = n;
    while k > 0
        invariant
            n == shape@.len(),
            s == extents(shape@),
            s.len() == n,
            all_positive(s),
            k <= n,
            acc == suffix_volume(s, k as int),
        decreases k,
    {
        let x = shape[k - 1];
        assert(s[k - 1] == x);
        if acc > usize::MAX / x {
            proof {
                assert(x * acc > usize::MAX) by (nonlinear_arith)
                    requires
                        x > 0,
                        acc > usize::MAX / x,
                ;
                assert(suffix_volume(s, k - 1) == x * acc);
                lemma_suffix_monotone(s, 0, k - 1);
            }
            return None;
        }
        proof {
            assert(acc * x <= usize::MAX) by (nonlinear_arith)
                requires
                    x > 0,
                    acc <= usize::MAX / x,
            ;
            assert(suffix_volume(s, k - 1) == x * acc);
        }
        acc = acc * x;
        k -= 1;
    }
    Some(acc)
}

/// A zero extent at or after `j` makes the suffix product from `j` zero.
proof fn lemma_zero_extent(s: Seq<int>, j: int, k: int)
    requires
        0 <= j <= k < s.len(),
        s[k] == 0,
    ensures
        suffix_volume(s, j) == 0,
    decreases k - j,
{
    if j < k {
        lemma_zero_extent(s, j + 1, k);
        assert(s[j] * suffix_volume(s, j + 1) == 0);
    }
}

/// Every element of an array of shape `s` is covered by the grid chunk of
/// extents `c` whose origin is `grid_origin` of its coordinates, and by no
/// other chunk whose origin is on the grid: the chunks that the tiling
/// writes, where their origins are grid origins, partition the array.
pub proof fn lemma_tiling_partitions(i: int, s: Seq<int>, c: Seq<int>, o: Seq<int>)
    requires
        c.len() == s.len(),
        all_positive(c),
        forall|k: int| 0 <= k < s.len() ==> s[k] >= 0,
        0 <= i < volume(s),
        o.len() >= s.len(),
        forall|k: int| 0 <= k < s.len() ==> #[trigger] o[k] % c[k] == 0,
    ensures
        covered(
            i,
            s,
            grid_origin(Seq::new(s.len(), |k: int| coordinate(i, s, k)), c),
            c,
        ),
        covered(i, s, o, c) ==> forall|k: int|
            0 <= k < s.len() ==> o[k] == grid_origin(
                Seq::new(s.len(), |m: int| coordinate(i, s, m)),
                c,
            )[k],
{
    lemma_positive_volume(s, 0);
    let p = Seq::new(s.len(), |k: int| coordinate(i, s, k));
    let g = grid_origin(p, c);
    assert forall|k: int| 0 <= k < s.len() implies 0 <= #[trigger] p[k] < s[k] by {
        lemma_suffix_positive(s, k + 1);
    }
    lemma_chunk_grid_tiles(p, c, s);
    assert forall|k: int| 0 <= k < s.len() implies g[k] <= #[trigger] coordinate(i, s, k) < g[k]
        + c[k] by {
        assert(p[k] == coordinate(i, s, k));
    }
    if covered(i, s, o, c) {
        assert forall|k: int| 0 <= k < s.len() implies o[k] == g[k] by {
            assert(o[k] <= coordinate(i, s, k) < o[k] + c[k]);
            assert(p[k] == coordinate(i, s, k));
            lemma_grid_axis(p[k], c[k], s[k], o[k]);
        }
    }
}

} // verus!
