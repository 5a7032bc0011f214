use vstd::prelude::*;
use vstd::seq_lib::*;
use crate::state::Survey;
use crate::survey::{zone_dimensions, zone_dims_spec};

verus! {

/// Upper bound on any entry of a distance matrix, in millimeters.
pub const MAX_DIST: u64 = 100_000_000;

/// `d` is a square, symmetric matrix over `n` nodes with bounded entries.
pub open spec fn is_dist_matrix(d: Seq<Seq<u64>>, n: int) -> bool {
    &&& d.len() == n
    &&& forall|i: int| 0 <= i < n ==> #[trigger] d[i].len() == n
    &&& forall|i: int, j: int|
        0 <= i < n && 0 <= j < n ==> #[trigger] d[i][j] == d[j][i] && d[i][j] <= MAX_DIST
}

/// Every entry of `r` names one of `n` nodes.
pub open spec fn in_nodes(r: Seq<usize>, n: int) -> bool {
    forall|k: int| 0 <= k < r.len() ==> #[trigger] r[k] < n
}

/// Length of the open path that visits `r` in order.
pub open spec fn path_len(d: Seq<Seq<u64>>, r: Seq<usize>) -> int
    decreases r.len(),
{
    if r.len() < 2 {
        0
    } else {
        d[r[0] as int][r[1] as int] + path_len(d, r.drop_first())
    }
}

/// The nodes `0, 1, ..., n - 1` in order.
pub open spec fn node_range(n: nat) -> Seq<usize> {
    Seq::new(n, |i: int| i as usize)
}

/// `r` starts at node 0 and visits each of the `n` nodes once.
pub open spec fn is_tour(r: Seq<usize>, n: nat) -> bool {
    &&& r.len() == n
    &&& n > 0
    &&& r[0] == 0
    &&& r.to_multiset() == node_range(n).to_multiset()
    &&& in_nodes(r, n as int)
}

/// The matrix as a sequence of rows.
pub open spec fn matrix_view(m: &Vec<Vec<u64>>) -> Seq<Seq<u64>> {
    m@.map_values(|v: Vec<u64>| v@)
}

/// No reversal of a segment `r[i..=j]` with `1 <= i < j` shortens the path.
pub open spec fn is_two_opt_optimal(d: Seq<Seq<u64>>, r: Seq<usize>) -> bool {
    forall|i: int, j: int|
        1 <= i < j < r.len() ==> path_len(d, r) <= #[trigger] path_len(
            d,
            reverse_segment(r, i, j),
        )
}

/// From `c`, node `v` is at most as far as `x`, and strictly nearer when `x < v`.
pub open spec fn nearer_first(d: Seq<Seq<u64>>, c: usize, v: usize, x: usize) -> bool {
    d[c as int][v as int] <= d[c as int][x as int] && (x < v ==> d[c as int][v as int] < d[
        c as int][x as int])
}

/// Each node of `r` after the first is, among the nodes not visited before it, one
/// nearest to its predecessor, the lowest-numbered among equally near ones.
pub open spec fn is_nearest_neighbor_tour(d: Seq<Seq<u64>>, r: Seq<usize>) -> bool {
    forall|k: int, m: int|
        1 <= k <= m < r.len() ==> #[trigger] nearer_first(d, r[k - 1], r[k], r[m])
}

/// `r` with the segment `r[i..=j]` reversed.
pub open spec fn reverse_segment(r: Seq<usize>, i: int, j: int) -> Seq<usize> {
    Seq::new(r.len(), |k: int| if i <= k <= j { r[i + j - k] } else { r[k] })
}

proof fn lemma_path_len_nonneg(d: Seq<Seq<u64>>, r: Seq<usize>)
    ensures
        path_len(d, r) >= 0,
    decreases r.len(),
{
    if r.len() >= 2 {
        lemma_path_len_nonneg(d, r.drop_first());
    }
}

proof fn lemma_path_len_concat(d: Seq<Seq<u64>>, a: Seq<usize>, b: Seq<usize>)
    requires
        a.len() > 0,
        b.len() > 0,
    ensures
        path_len(d, a + b) == path_len(d, a) + d[a.last() as int][b[0] as int] + path_len(d, b),
    decreases a.len(),
{
    if a.len() == 1 {
        assert((a + b).drop_first() =~= b);
    } else {
        assert((a + b).drop_first() =~= a.drop_first() + b);
        lemma_path_len_concat(d, a.drop_first(), b);
    }
}

proof fn lemma_path_len_reverse(d: Seq<Seq<u64>>, n: int, s: Seq<usize>)
    requires
        is_dist_matrix(d, n),
        in_nodes(s, n),
    ensures
        path_len(d, s.reverse()) == path_len(d, s),
    decreases s.len(),
{
    if s.len() >= 2 {
        let t = s.drop_first();
        lemma_path_len_reverse(d, n, t);
        assert(s.reverse() =~= t.reverse() + seq![s[0]]);
        lemma_path_len_concat(d, t.reverse(), seq![s[0]]);
        assert(path_len(d, seq![s[0]]) == 0);
        assert(d[s[0] as int][s[1] as int] == d[s[1] as int][s[0] as int]);
    }
}

/// Reversing `r[i..=j]` changes the path length by the two edges at the segment's ends.
proof fn lemma_reverse_segment_len(d: Seq<Seq<u64>>, n: int, r: Seq<usize>, i: int, j: int)
    requires
        is_dist_matrix(d, n),
        in_nodes(r, n),
        1 <= i < j < r.len(),
    ensures
        j + 1 < r.len() ==> path_len(d, reverse_segment(r, i, j)) - path_len(d, r) == (
        d[r[i - 1] as int][r[j] as int] + d[r[i] as int][r[j + 1] as int]) - (d[r[i
            - 1] as int][r[i] as int] + d[r[j] as int][r[j + 1] as int]),
        j + 1 == r.len() ==> path_len(d, reverse_segment(r, i, j)) - path_len(d, r) == d[r[i
            - 1] as int][r[j] as int] - d[r[i - 1] as int][r[i] as int],
{
    let p = r.subrange(0, i);
    let seg = r.subrange(i, j + 1);
    let q = r.subrange(j + 1, r.len() as int);
    let rs = reverse_segment(r, i, j);
    lemma_path_len_reverse(d, n, seg);
    assert(seg.reverse() =~= rs.subrange(i, j + 1));
    lemma_path_len_concat(d, p, seg);
    lemma_path_len_concat(d, p, seg.reverse());
    if j + 1 < r.len() {
        assert(r =~= (p + seg) + q);
        assert(rs =~= (p + seg.reverse()) + q);
        lemma_path_len_concat(d, p + seg, q);
        lemma_path_len_concat(d, p + seg.reverse(), q);
    } else {
        assert(r =~= p + seg);
        assert(rs =~= p + seg.reverse());
    }
}

proof fn lemma_reverse_segment_perm(r: Seq<usize>, i: int, j: int)
    requires
        0 <= i <= j < r.len(),
    ensures
        reverse_segment(r, i, j).to_multiset() == r.to_multiset(),
{
    let p = r.subrange(0, i);
    let seg = r.subrange(i, j + 1);
    let q = r.subrange(j + 1, r.len() as int);
    let rs = reverse_segment(r, i, j);
    assert(r =~= (p + seg) + q);
    assert(rs =~= (p + seg.reverse()) + q);
    seg.lemma_reverse_to_multiset();
    lemma_multiset_commutative(p + seg, q);
    lemma_multiset_commutative(p + seg.reverse(), q);
    lemma_multiset_commutative(p, seg);
    lemma_multiset_commutative(p, seg.reverse());
}

/// Change in open-path length if `route[i..=j]` is reversed.
fn two_opt_delta(dist: &Vec<Vec<u64>>, route: &Vec<usize>, i: usize, j: usize) -> (r: i64)
    requires
        is_dist_matrix(matrix_view(dist), dist@.len() as int),
        in_nodes(route@, dist@.len() as int),
        1 <= i < j < route@.len(),
    ensures
        r == path_len(matrix_view(dist), reverse_segment(route@, i as int, j as int))
            - path_len(matrix_view(dist), route@),
{
    let ghost d = matrix_view(dist);
    proof {
        lemma_reverse_segment_len(d, dist@.len() as int, route@, i as int, j as int);
    }
    let a = route[i - 1];
    let b = route[i];
    let c = route[j];
    assert(d[a as int][c as int] == dist@[a as int]@[c as int]);
    assert(d[a as int][b as int] == dist@[a as int]@[b as int]);
    if j < route.len() - 1 {
        let dd = route[j + 1];
        assert(d[b as int][dd as int] == dist@[b as int]@[dd as int]);
        assert(d[c as int][dd as int] == dist@[c as int]@[dd as int]);
        (dist[a][c] as i64 + dist[b][dd] as i64) - (dist[a][b] as i64 + dist[c][dd] as i64)
    } else {
        dist[a][c] as i64 - dist[a][b] as i64
    }
}

/// Greedy nearest-neighbor tour over all nodes of `dist`, from node 0.
pub fn nearest_neighbor(dist: &Vec<Vec<u64>>) -> (route: Vec<usize>)
    requires
        is_dist_matrix(matrix_view(dist), dist@.len() as int),
        dist@.len() > 0,
    ensures
        is_tour(route@, dist@.len()),
        is_nearest_neighbor_tour(matrix_view(dist), route@),
{
    broadcast use group_to_multiset_ensures;
    broadcast use vstd::multiset::group_multiset_axioms;

    let ghost d = matrix_view(dist);
    let n = dist.len();
    let mut route: Vec<usize> = Vec::new();
    route.push(0);
    let mut remaining: Vec<usize> = Vec::new();
    let mut k: usize = 1;
    while k < n
        invariant
            1 <= k <= n,
            remaining@ =~= node_range(n as nat).subrange(1, k as int),
            route@ == seq![0usize],
        decreases n - k,
    {
        remaining.push(k);
        k = k + 1;
    }
    proof {
        assert(node_range(n as nat) =~= route@ + remaining@);
    }
    while remaining.len() > 0
        invariant
            d == matrix_view(dist),
            n == dist@.len(),
            is_dist_matrix(d, n as int),
            route@.len() > 0,
            route@[0] == 0,
            route@.len() + remaining@.len() == n,
            (route@ + remaining@).to_multiset() == node_range(n as nat).to_multiset(),
            in_nodes(route@, n as int),
            in_nodes(remaining@, n as int),
            forall|a: int, b: int| 0 <= a < b < remaining@.len() ==> remaining@[a] < remaining@[b],
            forall|k: int, m: int|
                1 <= k <= m < route@.len() ==> #[trigger] nearer_first(d, route@[k - 1], route@[k], route@[m]),
            forall|k: int, q: int|
                1 <= k < route@.len() && 0 <= q < remaining@.len() ==> #[trigger] nearer_first(
                    d,
                    route@[k - 1],
                    route@[k],
                    remaining@[q],
                ),
        decreases remaining@.len(),
    {
        let cur = route[route.len() - 1];
        assert(d[cur as int] == dist@[cur as int]@);
        let mut p: usize = 0;
        let mut best = dist[cur][remaining[0]];
        let mut q: usize = 1;
        while q < remaining.len()
            invariant
                d == matrix_view(dist),
                n == dist@.len(),
                is_dist_matrix(d, n as int),
                cur < n,
                d[cur as int] == dist@[cur as int]@,
                in_nodes(remaining@, n as int),
                p < q <= remaining@.len(),
                best == d[cur as int][remaining@[p as int] as int],
                forall|t: int| 0 <= t < q ==> best <= d[cur as int][#[trigger] remaining@[t] as int],
                forall|t: int| 0 <= t < p ==> best < d[cur as int][#[trigger] remaining@[t] as int],
            decreases remaining@.len() - q,
        {
            if dist[cur][remaining[q]] < best {
                best = dist[cur][remaining[q]];
                p = q;
            }
            q = q + 1;
        }
        let ghost old_route = route@;
        let ghost old_rem = remaining@;
        let v = remaining.remove(p);
        route.push(v);
        proof {
            assert(old_rem.contains(v)) by {
                assert(old_rem[p as int] == v);
            }
            to_multiset_contains(old_rem, v);
            assert(old_rem.to_multiset().contains(v));
            to_multiset_build(old_route, v);
            to_multiset_remove(old_rem, p as int);
            lemma_multiset_commutative(route@, remaining@);
            lemma_multiset_commutative(old_route, old_rem);
            assert((route@ + remaining@).to_multiset() =~= (old_route + old_rem).to_multiset());
            assert forall|k: int, m: int|
                1 <= k <= m < route@.len() implies #[trigger] nearer_first(
                d,
                route@[k - 1],
                route@[k],
                route@[m],
            ) by {
                if m == route@.len() - 1 {
                    if k < m {
                        assert(nearer_first(d, old_route[k - 1], old_route[k], old_rem[p as int]));
                    }
                } else {
                    assert(nearer_first(d, old_route[k - 1], old_route[k], old_route[m]));
                }
            }
            assert forall|k: int, t: int|
                1 <= k < route@.len() && 0 <= t < remaining@.len() implies #[trigger] nearer_first(
                d,
                route@[k - 1],
                route@[k],
                remaining@[t],
            ) by {
                let ot = if t < p { t } else { t + 1 };
                assert(remaining@[t] == old_rem[ot]);
                if k < route@.len() - 1 {
                    assert(nearer_first(d, old_route[k - 1], old_route[k], old_rem[ot]));
                } else {
                    assert(d[cur as int][old_rem[ot] as int] >= best);
                    if ot < p {
                        assert(d[cur as int][old_rem[ot] as int] > best);
                    }
                }
            }
        }
    }
    proof {
        assert(route@ + remaining@ =~= route@);
    }
    route
}

/// A copy of `route` with `route[i..=j]` reversed.
fn reversed_segment(route: &Vec<usize>, i: usize, j: usize) -> (r: Vec<usize>)
    requires
        i <= j < route@.len(),
    ensures
        r@ == reverse_segment(route@, i as int, j as int),
{
    let mut r: Vec<usize> = Vec::new();
    let mut k: usize = 0;
    while k < route.len()
        invariant
            i <= j < route@.len(),
            k <= route@.len(),
            r@ =~= reverse_segment(route@, i as int, j as int).subrange(0, k as int),
        decreases route@.len() - k,
    {
        if i <= k && k <= j {
            r.push(route[j - (k - i)]);
        } else {
            r.push(route[k]);
        }
        k = k + 1;
    }
    r
}

/// The 2-opt move at `(i, j)`: `r` with `r[i..=j]` reversed if that shortens the path,
/// else `r` itself.
pub open spec fn two_opt_move(d: Seq<Seq<u64>>, r: Seq<usize>, i: int, j: int) -> Seq<usize> {
    if path_len(d, reverse_segment(r, i, j)) - path_len(d, r) < 0 {
        reverse_segment(r, i, j)
    } else {
        r
    }
}

/// The rest of a sweep from the pair `(i, j)` on: the moves at `(i, j)`, `(i, j + 1)`,
/// ... to the end of the row, then the rows `i + 1`, ... in turn, each from `j = i + 1`.
pub open spec fn sweep_from(d: Seq<Seq<u64>>, r: Seq<usize>, i: int, j: int) -> Seq<usize>
    decreases r.len() - i, r.len() - j,
{
    if i < 1 || i >= r.len() - 1 {
        r
    } else if j >= r.len() {
        sweep_from(d, r, i + 1, i + 2)
    } else {
        sweep_from(d, two_opt_move(d, r, i, j), i, j + 1)
    }
}

/// One full 2-opt sweep over all pairs `1 <= i < j < r.len()`, in ascending order.
pub open spec fn sweep(d: Seq<Seq<u64>>, r: Seq<usize>) -> Seq<usize> {
    sweep_from(d, r, 1, 2)
}

/// The tour after `k` sweeps from `r`.
pub open spec fn sweeps(d: Seq<Seq<u64>>, r: Seq<usize>, k: nat) -> Seq<usize>
    decreases k,
{
    if k == 0 {
        r
    } else {
        sweep(d, sweeps(d, r, (k - 1) as nat))
    }
}

/// `r` is what repeated sweeps from `start` reach and keep: a tour that a sweep leaves
/// as it is.
pub open spec fn is_two_opt_result(d: Seq<Seq<u64>>, start: Seq<usize>, r: Seq<usize>) -> bool {
    exists|k: nat| #[trigger] sweeps(d, start, k) == r && sweep(d, r) == r
}

proof fn lemma_sweeps_stay(d: Seq<Seq<u64>>, start: Seq<usize>, k1: nat, k2: nat)
    requires
        k1 <= k2,
        sweep(d, sweeps(d, start, k1)) == sweeps(d, start, k1),
    ensures
        sweeps(d, start, k2) == sweeps(d, start, k1),
    decreases k2,
{
    if k2 > k1 {
        lemma_sweeps_stay(d, start, k1, (k2 - 1) as nat);
    }
}

/// Two results of repeated sweeps from one tour are the same tour.
proof fn lemma_two_opt_result_unique(d: Seq<Seq<u64>>, start: Seq<usize>, a: Seq<usize>, b: Seq<usize>)
    requires
        is_two_opt_result(d, start, a),
        is_two_opt_result(d, start, b),
    ensures
        a == b,
{
    let ka = choose|k: nat| #[trigger] sweeps(d, start, k) == a && sweep(d, a) == a;
    let kb = choose|k: nat| #[trigger] sweeps(d, start, k) == b && sweep(d, b) == b;
    if ka <= kb {
        lemma_sweeps_stay(d, start, ka, kb);
    } else {
        lemma_sweeps_stay(d, start, kb, ka);
    }
}

/// Improves an open tour from node 0 by 2-opt: repeated sweeps over all segments
/// `[i..=j]` with `1 <= i < j`, reversing each one whose reversal shortens the path,
/// until a sweep changes nothing.
pub fn two_opt(dist: &Vec<Vec<u64>>, route: &mut Vec<usize>)
    requires
        is_dist_matrix(matrix_view(dist), dist@.len() as int),
        is_tour(old(route)@, dist@.len()),
    ensures
        is_tour(final(route)@, dist@.len()),
        path_len(matrix_view(dist), final(route)@) <= path_len(matrix_view(dist), old(route)@),
        is_two_opt_optimal(matrix_view(dist), final(route)@),
        is_two_opt_result(matrix_view(dist), old(route)@, final(route)@),
{
    let ghost d = matrix_view(dist);
    let ghost n = dist@.len();
    let ghost start = route@;
    let ghost mut rounds: nat = 0;
    let len = route.len();
    let mut improved = true;
    proof {
        lemma_path_len_nonneg(d, route@);
    }
    while improved
        invariant
            d == matrix_view(dist),
            n == dist@.len(),
            is_dist_matrix(d, n as int),
            is_tour(route@, n),
            len == route@.len(),
            path_len(d, route@) <= path_len(d, start),
            path_len(d, route@) >= 0,
            !improved ==> is_two_opt_optimal(d, route@),
            route@ == sweeps(d, start, rounds),
            !improved ==> sweep(d, route@) == route@,
        decreases path_len(d, route@) + if improved { 1int } else { 0int },
    {
        let ghost sweep_start = route@;
        improved = false;
        let mut i: usize = 1;
        while i < len - 1
            invariant
                d == matrix_view(dist),
                n == dist@.len(),
                is_dist_matrix(d, n as int),
                is_tour(route@, n),
                len == route@.len(),
                1 <= i,
                path_len(d, route@) <= path_len(d, sweep_start),
                path_len(d, route@) >= 0,
                improved ==> path_len(d, route@) < path_len(d, sweep_start),
                !improved ==> route@ == sweep_start,
                !improved ==> forall|a: int, b: int|
                    1 <= a < i && a < b < len ==> path_len(d, route@) <= #[trigger] path_len(
                        d,
                        reverse_segment(route@, a, b),
                    ),
                sweep_from(d, route@, i as int, i as int + 1) == sweep(d, sweep_start),
            decreases len - i,
        {
            let mut j: usize = i + 1;
            while j < len
                invariant
                    d == matrix_view(dist),
                    n == dist@.len(),
                    is_dist_matrix(d, n as int),
                    is_tour(route@, n),
                    len == route@.len(),
                    1 <= i < len,
                    i < j <= len,
                    path_len(d, route@) <= path_len(d, sweep_start),
                    path_len(d, route@) >= 0,
                    improved ==> path_len(d, route@) < path_len(d, sweep_start),
                    !improved ==> route@ == sweep_start,
                    !improved ==> forall|a: int, b: int|
                        ((1 <= a < i && a < b < len) || (a == i && i < b < j)) ==> path_len(
                            d,
                            route@,
                        ) <= #[trigger] path_len(d, reverse_segment(route@, a, b)),
                    sweep_from(d, route@, i as int, j as int) == sweep(d, sweep_start),
                decreases len - j,
            {
                let ghost before = route@;
                let delta = two_opt_delta(dist, route, i, j);
                if delta < 0 {
                    let next = reversed_segment(route, i, j);
                    proof {
                        lemma_reverse_segment_perm(route@, i as int, j as int);
                        assert(in_nodes(next@, n as int)) by {
                            assert forall|k: int| 0 <= k < next@.len() implies #[trigger] next@[k]
                                < n by {
                                if i <= k <= j {
                                    assert(route@[i + j - k] < n);
                                } else {
                                    assert(route@[k] < n);
                                }
                            }
                        }
                        lemma_path_len_nonneg(d, next@);
                    }
                    *route = next;
                    improved = true;
                }
                proof {
                    assert(route@ == two_opt_move(d, before, i as int, j as int));
                    assert(sweep_from(d, before, i as int, j as int) == sweep_from(
                        d,
                        route@,
                        i as int,
                        j as int + 1,
                    ));
                }
                j = j + 1;
            }
            proof {
                assert(sweep_from(d, route@, i as int, len as int) == sweep_from(
                    d,
                    route@,
                    i as int + 1,
                    i as int + 2,
                ));
            }
            i = i + 1;
        }
        proof {
            assert(sweep_from(d, route@, i as int, i as int + 1) == route@);
            rounds = rounds + 1;
            assert(sweeps(d, start, rounds) == sweep(d, sweeps(d, start, (rounds - 1) as nat)));
        }
    }
    proof {
        assert(sweeps(d, start, rounds) == route@ && sweep(d, route@) == route@);
    }
}

/// Largest coordinate, in millimeters, of a point inside any zone.
pub const MAX_COORD: i64 = 10_000_000;

/// `r` is the integer square root of `n`, rounded down.
pub open spec fn is_floor_sqrt(n: int, r: int) -> bool {
    r >= 0 && r * r <= n < (r + 1) * (r + 1)
}

proof fn lemma_floor_sqrt_unique(n: int, a: int, b: int)
    requires
        is_floor_sqrt(n, a),
        is_floor_sqrt(n, b),
    ensures
        a == b,
{
    if a < b {
        assert((a + 1) * (a + 1) <= b * b) by (nonlinear_arith)
            requires
                0 <= a + 1 <= b,
        ;
    } else if b < a {
        assert((b + 1) * (b + 1) <= a * a) by (nonlinear_arith)
            requires
                0 <= b + 1 <= a,
        ;
    }
}

/// Integer square root, rounded down.
pub fn isqrt(n: u64) -> (r: u64)
    ensures
        is_floor_sqrt(n as int, r as int),
{
    let mut lo: u64 = 0;
    let mut hi: u64 = 0x1_0000_0000;
    assert(n < hi * hi) by (nonlinear_arith)
        requires
            hi == 0x1_0000_0000,
            n <= 0xFFFF_FFFF_FFFF_FFFF,
    ;
    while hi - lo > 1
        invariant
            lo < hi <= 0x1_0000_0000,
            lo * lo <= n,
            n < hi * hi,
        decreases hi - lo,
    {
        let mid = lo + (hi - lo) / 2;
        assert(mid * mid <= 0xFFFF_FFFF_FFFF_FFFF) by (nonlinear_arith)
            requires
                mid < 0x1_0000_0000,
        ;
        if mid * mid <= n {
            lo = mid;
        } else {
            hi = mid;
        }
    }
    lo
}

/// Squared distance between points `i` and `j`.
pub open spec fn sq_dist(xs: Seq<i64>, ys: Seq<i64>, i: int, j: int) -> int {
    (xs[i] - xs[j]) * (xs[i] - xs[j]) + (ys[i] - ys[j]) * (ys[i] - ys[j])
}

/// Every coordinate lies in `[0, MAX_COORD]`.
pub open spec fn coords_in_range(v: Seq<i64>) -> bool {
    forall|k: int| 0 <= k < v.len() ==> 0 <= #[trigger] v[k] <= MAX_COORD
}

/// Distance between points `i` and `j`, rounded down.
fn point_dist(xs: &Vec<i64>, ys: &Vec<i64>, i: usize, j: usize) -> (r: u64)
    requires
        xs@.len() == ys@.len(),
        i < xs@.len(),
        j < xs@.len(),
        coords_in_range(xs@),
        coords_in_range(ys@),
    ensures
        is_floor_sqrt(sq_dist(xs@, ys@, i as int, j as int), r as int),
        r <= MAX_DIST,
{
    let dx = xs[i] - xs[j];
    let dy = ys[i] - ys[j];
    assert(0 <= dx * dx <= MAX_COORD * MAX_COORD) by (nonlinear_arith)
        requires
            -MAX_COORD <= dx <= MAX_COORD,
    ;
    assert(0 <= dy * dy <= MAX_COORD * MAX_COORD) by (nonlinear_arith)
        requires
            -MAX_COORD <= dy <= MAX_COORD,
    ;
    let sq = (dx * dx + dy * dy) as u64;
    let r = isqrt(sq);
    assert(r <= MAX_DIST) by (nonlinear_arith)
        requires
            r * r <= sq,
            sq <= 2 * MAX_COORD * MAX_COORD,
            r >= 0,
    ;
    r
}

/// The integer square root of `n`, rounded down.
pub open spec fn floor_sqrt(n: int) -> int {
    choose|r: int| is_floor_sqrt(n, r)
}

/// The matrix of distances, rounded down, between the given points.
pub open spec fn dist_spec(xs: Seq<i64>, ys: Seq<i64>) -> Seq<Seq<u64>> {
    Seq::new(
        xs.len(),
        |i: int| Seq::new(xs.len(), |j: int| floor_sqrt(sq_dist(xs, ys, i, j)) as u64),
    )
}

/// The full matrix of distances between the given points.
pub fn distance_matrix(xs: &Vec<i64>, ys: &Vec<i64>) -> (d: Vec<Vec<u64>>)
    requires
        xs@.len() == ys@.len(),
        coords_in_range(xs@),
        coords_in_range(ys@),
    ensures
        is_dist_matrix(matrix_view(&d), xs@.len() as int),
        matrix_view(&d) == dist_spec(xs@, ys@),
        forall|i: int, j: int|
            0 <= i < xs@.len() && 0 <= j < xs@.len() ==> is_floor_sqrt(
                sq_dist(xs@, ys@, i, j),
                #[trigger] matrix_view(&d)[i][j] as int,
            ),
{
    let n = xs.len();
    let mut d: Vec<Vec<u64>> = Vec::new();
    let mut i: usize = 0;
    while i < n
        invariant
            n == xs@.len(),
            xs@.len() == ys@.len(),
            coords_in_range(xs@),
            coords_in_range(ys@),
            i <= n,
            d@.len() == i,
            forall|a: int| 0 <= a < i ==> #[trigger] d@[a]@.len() == n,
            forall|a: int, b: int|
                0 <= a < i && 0 <= b < n ==> is_floor_sqrt(sq_dist(xs@, ys@, a, b), #[trigger] d@[a]@[b] as int)
                    && d@[a]@[b] <= MAX_DIST,
        decreases n - i,
    {
        let mut row: Vec<u64> = Vec::new();
        let mut j: usize = 0;
        while j < n
            invariant
                n == xs@.len(),
                xs@.len() == ys@.len(),
                coords_in_range(xs@),
                coords_in_range(ys@),
                i < n,
                j <= n,
                row@.len() == j,
                forall|b: int| 0 <= b < j ==> is_floor_sqrt(sq_dist(xs@, ys@, i as int, b), #[trigger] row@[b] as int)
                    && row@[b] <= MAX_DIST,
            decreases n - j,
        {
            let e = point_dist(xs, ys, i, j);
            row.push(e);
            j = j + 1;
        }
        d.push(row);
        i = i + 1;
    }
    proof {
        let m = matrix_view(&d);
        assert forall|a: int, b: int| 0 <= a < n && 0 <= b < n implies #[trigger] m[a][b] == m[b][a]
            && m[a][b] <= MAX_DIST by {
            assert(m[a] == d@[a]@);
            assert(m[b] == d@[b]@);
            assert(sq_dist(xs@, ys@, a, b) == sq_dist(xs@, ys@, b, a)) by (nonlinear_arith);
            lemma_floor_sqrt_unique(sq_dist(xs@, ys@, a, b), d@[a]@[b] as int, d@[b]@[a] as int);
        }
        assert forall|a: int| 0 <= a < n implies #[trigger] m[a].len() == n by {
            assert(m[a] == d@[a]@);
        }
        assert forall|a: int, b: int| 0 <= a < n && 0 <= b < n implies is_floor_sqrt(
            sq_dist(xs@, ys@, a, b),
            #[trigger] m[a][b] as int,
        ) by {
            assert(m[a] == d@[a]@);
        }
        let ds = dist_spec(xs@, ys@);
        assert forall|a: int| 0 <= a < n implies #[trigger] m[a] =~= ds[a] by {
            assert(m[a] == d@[a]@);
            assert forall|b: int| 0 <= b < n implies m[a][b] == ds[a][b] by {
                let q = sq_dist(xs@, ys@, a, b);
                assert(is_floor_sqrt(q, m[a][b] as int));
                let c = floor_sqrt(q);
                assert(is_floor_sqrt(q, c));
                lemma_floor_sqrt_unique(q, c, m[a][b] as int);
            }
        }
        assert(m =~= ds);
    }
    d
}

proof fn lemma_tour_facts(r: Seq<usize>, n: nat)
    requires
        is_tour(r, n),
        n <= usize::MAX + 1,
    ensures
        r.no_duplicates(),
        forall|x: usize| r.contains(x) <==> x < n,
{
    broadcast use vstd::multiset::group_multiset_axioms;

    let nr = node_range(n);
    assert forall|a: int, b: int| 0 <= a < nr.len() && 0 <= b < nr.len() && a != b implies nr[a]
        != nr[b] by {}
    assert(nr.no_duplicates());
    nr.lemma_multiset_has_no_duplicates();
    assert forall|x: usize| r.to_multiset().contains(x) implies r.to_multiset().count(x) == 1 by {}
    r.lemma_multiset_has_no_duplicates_conv();
    assert forall|x: usize| r.contains(x) <==> x < n by {
        to_multiset_contains(r, x);
        to_multiset_contains(nr, x);
        if x < n {
            assert(nr[x as int] == x);
        }
    }
}

/// Scale of a normalized player coordinate: `POS_SCALE` stands for 1.
pub const POS_SCALE: u32 = 1_000_000;

/// `v` clamped to `[lo, hi]`.
pub open spec fn clamp_spec(v: int, lo: int, hi: int) -> int {
    if v < lo {
        lo
    } else if v > hi {
        hi
    } else {
        v
    }
}

/// The player's coordinate in millimeters, from its normalized value in millionths
/// along an axis `extent_m` meters long.
pub open spec fn player_mm(pos: int, extent_m: int) -> int {
    pos * extent_m / 1000
}

/// A survey's absolute coordinate in millimeters: the player's coordinate plus the
/// offset in meters, clamped to the zone.
pub open spec fn survey_mm(player: int, offset_m: int, extent_m: int) -> int {
    clamp_spec(player + offset_m * 1000, 0, extent_m * 1000)
}

/// Indices among the first `k` of `s` of the surveys not yet found, ascending.
pub open spec fn unvisited_prefix(s: Seq<Survey>, k: int) -> Seq<usize>
    decreases k,
{
    if k <= 0 {
        Seq::empty()
    } else if !s[k - 1].found {
        unvisited_prefix(s, k - 1).push((k - 1) as usize)
    } else {
        unvisited_prefix(s, k - 1)
    }
}

/// Indices of the surveys not yet found, ascending.
pub open spec fn unvisited_indices(s: Seq<Survey>) -> Seq<usize> {
    unvisited_prefix(s, s.len() as int)
}

/// `r` holds each index of an unvisited survey exactly once, and nothing else.
pub open spec fn is_unvisited_permutation(s: Seq<Survey>, r: Seq<usize>) -> bool {
    &&& r.no_duplicates()
    &&& forall|x: usize| r.contains(x) <==> (x < s.len() && !s[x as int].found)
}

/// Node `k` of the route graph along one axis, in millimeters: node 0 is the player,
/// node `t + 1` the `t`-th unvisited survey.
pub open spec fn node_coord(s: Seq<Survey>, pos: u32, extent_m: int, k: int, east: bool) -> i64 {
    let p = player_mm(pos as int, extent_m);
    if k == 0 {
        p as i64
    } else {
        let sv = s[unvisited_indices(s)[k - 1] as int];
        survey_mm(p, if east { sv.dx as int } else { sv.dy as int }, extent_m) as i64
    }
}

/// East coordinates of the route graph's nodes.
pub open spec fn node_xs(s: Seq<Survey>, pos: (u32, u32), zone: Seq<char>) -> Seq<i64> {
    Seq::new(
        unvisited_indices(s).len() + 1,
        |k: int| node_coord(s, pos.0, zone_dims_spec(zone).0 as int, k, true),
    )
}

/// South coordinates of the route graph's nodes.
pub open spec fn node_ys(s: Seq<Survey>, pos: (u32, u32), zone: Seq<char>) -> Seq<i64> {
    Seq::new(
        unvisited_indices(s).len() + 1,
        |k: int| node_coord(s, pos.1, zone_dims_spec(zone).1 as int, k, false),
    )
}

/// The survey indices that a tour of the route graph visits after the player.
pub open spec fn tour_indices(s: Seq<Survey>, route: Seq<usize>) -> Seq<usize> {
    Seq::new((route.len() - 1) as nat, |t: int| unvisited_indices(s)[route[t + 1] - 1])
}

/// `r` is what the route optimizer owes for these surveys with two or more unvisited:
/// the survey part of the tour that repeated 2-opt sweeps reach from the nearest-neighbor
/// tour from the player, distances between node positions rounded down to millimeters.
/// That tour cannot be shortened by 2-opt and is no longer than the nearest-neighbor one.
pub open spec fn is_optimized_route(
    s: Seq<Survey>,
    pos: (u32, u32),
    zone: Seq<char>,
    r: Seq<usize>,
) -> bool {
    let d = dist_spec(node_xs(s, pos, zone), node_ys(s, pos, zone));
    let n = unvisited_indices(s).len() + 1;
    exists|nn: Seq<usize>, route: Seq<usize>|
        {
            &&& is_tour(nn, n)
            &&& is_nearest_neighbor_tour(d, nn)
            &&& is_tour(route, n)
            &&& is_two_opt_optimal(d, route)
            &&& path_len(d, route) <= path_len(d, nn)
            &&& is_two_opt_result(d, nn, route)
            &&& r == tour_indices(s, route)
        }
}

/// `r` is a route that the optimizer may return: each unvisited survey once; the one
/// possible order where there is at most one; an optimized route otherwise.
pub open spec fn is_route_for(s: Seq<Survey>, pos: (u32, u32), zone: Seq<char>, r: Seq<usize>) -> bool {
    &&& is_unvisited_permutation(s, r)
    &&& unvisited_indices(s).len() <= 1 ==> r == unvisited_indices(s)
    &&& unvisited_indices(s).len() >= 2 ==> is_optimized_route(s, pos, zone, r)
}

/// Compute an optimized visit order for unvisited surveys, as indices into `surveys`:
/// nearest-neighbor from the player's position, then 2-opt, over an open path.
/// `player_pos` is normalized, in millionths (`POS_SCALE` stands for 1).
pub fn find_path(player_pos: (u32, u32), surveys: &[Survey], zone: &str) -> (r: Vec<usize>)
    requires
        player_pos.0 <= POS_SCALE,
        player_pos.1 <= POS_SCALE,
    ensures
        is_route_for(surveys@, player_pos, zone@, r@),
{
    let (zw, zh) = zone_dimensions(zone);
    let zw_mm = zw as i64 * 1000;
    let zh_mm = zh as i64 * 1000;
    assert(zw <= 3000 && zh <= 3000);
    assert(player_pos.0 * zw <= 3_000_000_000 && player_pos.1 * zh <= 3_000_000_000) by (nonlinear_arith)
        requires
            player_pos.0 <= 1_000_000,
            player_pos.1 <= 1_000_000,
            zw <= 3000,
            zh <= 3000,
    ;
    let px = player_pos.0 as i64 * zw as i64 / 1000;
    let py = player_pos.1 as i64 * zh as i64 / 1000;
    assert(0 <= px <= zw_mm) by (nonlinear_arith)
        requires
            px == player_pos.0 * zw / 1000,
            zw_mm == zw * 1000,
            0 <= player_pos.0 <= 1_000_000,
            0 <= zw,
    ;
    assert(0 <= py <= zh_mm) by (nonlinear_arith)
        requires
            py == player_pos.1 * zh / 1000,
            zh_mm == zh * 1000,
            0 <= player_pos.1 <= 1_000_000,
            0 <= zh,
    ;
    let mut idx: Vec<usize> = Vec::new();
    let mut xs: Vec<i64> = Vec::new();
    let mut ys: Vec<i64> = Vec::new();
    xs.push(px);
    ys.push(py);
    let mut i: usize = 0;
    while i < surveys.len()
        invariant
            zw <= 3000,
            zh <= 3000,
            zw_mm == zw * 1000,
            zh_mm == zh * 1000,
            0 <= px <= zw_mm,
            0 <= py <= zh_mm,
            i <= surveys@.len(),
            idx@ == unvisited_prefix(surveys@, i as int),
            xs@.len() == idx@.len() + 1,
            ys@.len() == idx@.len() + 1,
            coords_in_range(xs@),
            coords_in_range(ys@),
            forall|a: int, b: int| 0 <= a < b < idx@.len() ==> idx@[a] < idx@[b],
            forall|t: int| 0 <= t < idx@.len() ==> idx@[t] < i,
            forall|x: usize| idx@.contains(x) <==> (x < i && !surveys@[x as int].found),
            (zw, zh) == zone_dims_spec(zone@),
            px == player_mm(player_pos.0 as int, zw as int),
            py == player_mm(player_pos.1 as int, zh as int),
            xs@[0] == px,
            ys@[0] == py,
            forall|t: int| 0 <= t < idx@.len() ==> #[trigger] xs@[t + 1] == survey_mm(px as int, surveys@[idx@[t] as int].dx as int, zw as int),
            forall|t: int| 0 <= t < idx@.len() ==> #[trigger] ys@[t + 1] == survey_mm(py as int, surveys@[idx@[t] as int].dy as int, zh as int),
        decreases surveys@.len() - i,
    {
        if !surveys[i].found {
            let sx = px + surveys[i].dx as i64 * 1000;
            let sy = py + surveys[i].dy as i64 * 1000;
            let cx = if sx < 0 { 0 } else if sx > zw_mm { zw_mm } else { sx };
            let cy = if sy < 0 { 0 } else if sy > zh_mm { zh_mm } else { sy };
            let ghost before = idx@;
            idx.push(i);
            xs.push(cx);
            ys.push(cy);
            proof {
                assert forall|x: usize| idx@.contains(x) <==> (x < i + 1 && !surveys@[x as int].found) by {
                    if x == i {
                        assert(!surveys@[i as int].found);
                        assert(idx@[idx@.len() - 1] == x);
                    } else if idx@.contains(x) {
                        let t = choose|t: int| 0 <= t < idx@.len() && idx@[t] == x;
                        assert(t < before.len());
                        assert(before[t] == x);
                        assert(before.contains(x));
                    } else if x < i && !surveys@[x as int].found {
                        assert(before.contains(x));
                        let t = choose|t: int| 0 <= t < before.len() && before[t] == x;
                        assert(idx@[t] == x);
                    }
                }
            }
        }
        i = i + 1;
    }
    let n = idx.len();
    if n == 0 {
        proof {
            assert(idx@ == unvisited_indices(surveys@));
            assert forall|x: usize| !(x < surveys@.len() && !surveys@[x as int].found) by {
                assert(!idx@.contains(x));
            }
        }
        let r: Vec<usize> = Vec::new();
        assert(r@ =~= idx@);
        return r;
    }
    if n == 1 {
        let mut r: Vec<usize> = Vec::new();
        r.push(idx[0]);
        proof {
            assert(r@ =~= idx@);
            assert forall|x: usize| r@.contains(x) <==> (x < surveys@.len() && !surveys@[x as int].found) by {
                if idx@.contains(x) {
                    assert(r@[0] == x);
                }
            }
        }
        return r;
    }
    let nodes = xs.len();
    assert(nodes == n + 1);
    proof {
        assert(idx@ == unvisited_indices(surveys@));
        assert forall|k: int| 1 <= k < xs@.len() implies xs@[k] == node_xs(surveys@, player_pos, zone@)[k]
            && ys@[k] == node_ys(surveys@, player_pos, zone@)[k] by {
            let t = k - 1;
            assert(xs@[t + 1] == survey_mm(px as int, surveys@[idx@[t] as int].dx as int, zw as int));
            assert(ys@[t + 1] == survey_mm(py as int, surveys@[idx@[t] as int].dy as int, zh as int));
        }
        assert(xs@ =~= node_xs(surveys@, player_pos, zone@));
        assert(ys@ =~= node_ys(surveys@, player_pos, zone@));
    }
    let dist = distance_matrix(&xs, &ys);
    let nn = nearest_neighbor(&dist);
    let ghost nn_route = nn@;
    let mut route = nn;
    two_opt(&dist, &mut route);
    proof {
        lemma_tour_facts(route@, (n + 1) as nat);
    }
    let mut r: Vec<usize> = Vec::new();
    let mut k: usize = 1;
    while k < route.len()
        invariant
            is_tour(route@, (n + 1) as nat),
            n + 1 <= usize::MAX,
            idx@.len() == n,
            1 <= k <= route@.len(),
            r@.len() == k - 1,
            forall|t: int| 0 <= t < k - 1 ==> #[trigger] r@[t] == idx@[route@[t + 1] - 1],
        decreases route@.len() - k,
    {
        let node = route[k];
        if node == 0 {
            proof {
                lemma_tour_facts(route@, (n + 1) as nat);
                assert(route@[0] == route@[k as int]);
            }
        }
        r.push(idx[node - 1]);
        k = k + 1;
    }
    proof {
        assert forall|a: int, b: int| 0 <= a < r@.len() && 0 <= b < r@.len() && a != b implies r@[a] != r@[b] by {
            assert(route@[a + 1] != 0 && route@[b + 1] != 0) by {
                assert(route@[0] != route@[a + 1]);
                assert(route@[0] != route@[b + 1]);
            }
            let ia = route@[a + 1] - 1;
            let ib = route@[b + 1] - 1;
            assert(route@[a + 1] != route@[b + 1]);
            if ia < ib {
                assert(idx@[ia] < idx@[ib]);
            } else {
                assert(idx@[ib] < idx@[ia]);
            }
        }
        assert forall|x: usize| r@.contains(x) <==> (x < surveys@.len() && !surveys@[x as int].found) by {
            if r@.contains(x) {
                let t = choose|t: int| 0 <= t < r@.len() && r@[t] == x;
                assert(route@[0] != route@[t + 1]);
                assert(idx@.contains(x)) by {
                    assert(idx@[route@[t + 1] - 1] == x);
                }
            }
            if x < surveys@.len() && !surveys@[x as int].found {
                assert(idx@.contains(x));
                let t = choose|t: int| 0 <= t < idx@.len() && idx@[t] == x;
                assert(route@.contains((t + 1) as usize));
                let m = choose|m: int| 0 <= m < route@.len() && route@[m] == (t + 1) as usize;
                assert(m != 0);
                assert(r@[m - 1] == x);
            }
        }
        assert(r@ =~= tour_indices(surveys@, route@));
        assert(is_optimized_route(surveys@, player_pos, zone@, r@));
    }
    r
}


proof fn lemma_nn_prefix(d: Seq<Seq<u64>>, n: nat, a: Seq<usize>, b: Seq<usize>, k: int)
    requires
        n <= usize::MAX + 1,
        is_tour(a, n),
        is_tour(b, n),
        is_nearest_neighbor_tour(d, a),
        is_nearest_neighbor_tour(d, b),
        0 <= k <= n,
    ensures
        forall|j: int| 0 <= j < k ==> a[j] == b[j],
    decreases k,
{
    if k > 1 {
        lemma_nn_prefix(d, n, a, b, k - 1);
        let i = k - 1;
        lemma_tour_facts(a, n);
        lemma_tour_facts(b, n);
        assert(b.contains(a[i]));
        let m = choose|m: int| 0 <= m < b.len() && b[m] == a[i];
        if m < i {
            assert(a[m] == b[m]);
        }
        assert(a.contains(b[i]));
        let m2 = choose|m: int| 0 <= m < a.len() && a[m] == b[i];
        if m2 < i {
            assert(a[m2] == b[m2]);
        }
        assert(nearer_first(d, a[i - 1], a[i], a[m2]));
        assert(nearer_first(d, b[i - 1], b[i], b[m]));
    }
}

/// A nearest-neighbor tour is unique.
proof fn lemma_nn_unique(d: Seq<Seq<u64>>, n: nat, a: Seq<usize>, b: Seq<usize>)
    requires
        n <= usize::MAX + 1,
        is_tour(a, n),
        is_tour(b, n),
        is_nearest_neighbor_tour(d, a),
        is_nearest_neighbor_tour(d, b),
    ensures
        a == b,
{
    lemma_nn_prefix(d, n, a, b, n as int);
    assert(a =~= b);
}

proof fn lemma_unvisited_agree(s: Seq<Survey>, t: Seq<Survey>, k: int)
    requires
        s.len() == t.len(),
        s.len() <= usize::MAX,
        0 <= k <= s.len(),
        forall|i: int| 0 <= i < s.len() ==> #[trigger] s[i].found == t[i].found,
    ensures
        unvisited_prefix(s, k) == unvisited_prefix(t, k),
        unvisited_prefix(s, k).len() <= k,
        forall|q: int| 0 <= q < unvisited_prefix(s, k).len() ==> #[trigger] unvisited_prefix(s, k)[q] < k
            && !s[unvisited_prefix(s, k)[q] as int].found,
    decreases k,
{
    if k > 0 {
        lemma_unvisited_agree(s, t, k - 1);
        assert(s[k - 1].found == t[k - 1].found);
        let p = unvisited_prefix(s, k - 1);
        let c = unvisited_prefix(s, k);
        assert forall|q: int| 0 <= q < c.len() implies #[trigger] c[q] < k && !s[c[q] as int].found by {
            if q < p.len() {
                assert(c[q] == p[q]);
                assert(p[q] < k - 1 && !s[p[q] as int].found);
            } else {
                assert(c[q] == (k - 1) as usize);
            }
        }
    }
}

/// The route depends only on the player's position, the zone, which surveys are still
/// unvisited and their offsets: one input always gives one route, and found surveys and
/// resource names play no part in it.
pub proof fn lemma_route_determined(
    s: Seq<Survey>,
    t: Seq<Survey>,
    pos: (u32, u32),
    zone: Seq<char>,
    r1: Seq<usize>,
    r2: Seq<usize>,
)
    requires
        s.len() <= usize::MAX,
        s.len() == t.len(),
        forall|i: int|
            0 <= i < s.len() ==> #[trigger] s[i].found == t[i].found && (!s[i].found ==> s[i].dx
                == t[i].dx && s[i].dy == t[i].dy),
        is_route_for(s, pos, zone, r1),
        is_route_for(t, pos, zone, r2),
    ensures
        r1 == r2,
{
    lemma_unvisited_agree(s, t, s.len() as int);
    let u = unvisited_indices(s);
    assert(u == unvisited_indices(t));
    if u.len() >= 2 {
        let n = (u.len() + 1) as nat;
        assert forall|k: int| 0 <= k < n implies node_xs(s, pos, zone)[k] == node_xs(t, pos, zone)[k]
            && node_ys(s, pos, zone)[k] == node_ys(t, pos, zone)[k] by {
            if k > 0 {
                assert(u[k - 1] < s.len() && !s[u[k - 1] as int].found);
            }
        }
        assert(node_xs(s, pos, zone) =~= node_xs(t, pos, zone));
        assert(node_ys(s, pos, zone) =~= node_ys(t, pos, zone));
        let d = dist_spec(node_xs(s, pos, zone), node_ys(s, pos, zone));
        let (nn1, ro1) = choose|nn: Seq<usize>, route: Seq<usize>|
            {
                &&& is_tour(nn, n)
                &&& is_nearest_neighbor_tour(d, nn)
                &&& is_tour(route, n)
                &&& is_two_opt_optimal(d, route)
                &&& path_len(d, route) <= path_len(d, nn)
                &&& is_two_opt_result(d, nn, route)
                &&& r1 == tour_indices(s, route)
            };
        let (nn2, ro2) = choose|nn: Seq<usize>, route: Seq<usize>|
            {
                &&& is_tour(nn, n)
                &&& is_nearest_neighbor_tour(d, nn)
                &&& is_tour(route, n)
                &&& is_two_opt_optimal(d, route)
                &&& path_len(d, route) <= path_len(d, nn)
                &&& is_two_opt_result(d, nn, route)
                &&& r2 == tour_indices(t, route)
            };
        lemma_nn_unique(d, n, nn1, nn2);
        lemma_two_opt_result_unique(d, nn1, ro1, ro2);
        assert(tour_indices(s, ro1) =~= tour_indices(t, ro2));
    }
}

} // verus!
