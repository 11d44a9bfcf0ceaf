use vstd::prelude::*;

use crate::distance::{dist2_spec, euclidean_distance_squared};
use crate::point::{abs_bounded, Point, COORD_LIMIT, DIM_LIMIT};

verus! {

/// One stored entry as the specifications see it: the point's coordinates
/// and the caller-chosen item.
pub open spec fn entry_view(e: (Point, usize)) -> (Seq<i64>, usize) {
    (e.0@, e.1)
}

/// The stored entries as the specifications see them, in insertion order.
pub open spec fn entries_view(s: Seq<(Point, usize)>) -> Seq<(Seq<i64>, usize)> {
    s.map_values(|e: (Point, usize)| entry_view(e))
}

/// Every stored entry has the query's dimension and representable
/// coordinates, so distance computations on it are exact.
pub open spec fn entries_compatible(entries: Seq<(Seq<i64>, usize)>, q: Seq<i64>) -> bool {
    forall|j: int|
        0 <= j < entries.len() ==> (#[trigger] entries[j]).0.len() == q.len() && abs_bounded(
            entries[j].0,
            COORD_LIMIT as int,
        )
}

/// Entry `j` is at minimal squared distance from `q` among all entries.
pub open spec fn is_min_at(entries: Seq<(Seq<i64>, usize)>, q: Seq<i64>, j: int) -> bool {
    &&& 0 <= j < entries.len()
    &&& forall|i: int|
        0 <= i < entries.len() ==> dist2_spec(q, (#[trigger] entries[i]).0) >= dist2_spec(
            q,
            entries[j].0,
        )
}

/// Entry `j` is the first entry, in insertion order, at minimal squared
/// distance from `q`.
pub open spec fn is_first_min_at(entries: Seq<(Seq<i64>, usize)>, q: Seq<i64>, j: int) -> bool {
    &&& is_min_at(entries, q, j)
    &&& forall|i: int|
        0 <= i < j ==> dist2_spec(q, (#[trigger] entries[i]).0) > dist2_spec(q, entries[j].0)
}

/// Only one entry can be the first minimum.
pub proof fn lemma_first_min_unique(entries: Seq<(Seq<i64>, usize)>, q: Seq<i64>, j1: int, j2: int)
    requires
        is_first_min_at(entries, q, j1),
        is_first_min_at(entries, q, j2),
    ensures
        j1 == j2,
{
    if j1 < j2 {
        assert(dist2_spec(q, entries[j1].0) > dist2_spec(q, entries[j2].0));
        assert(dist2_spec(q, entries[j1].0) <= dist2_spec(q, entries[j2].0));
    }
    if j2 < j1 {
        assert(dist2_spec(q, entries[j2].0) > dist2_spec(q, entries[j1].0));
        assert(dist2_spec(q, entries[j2].0) <= dist2_spec(q, entries[j1].0));
    }
}

/// A nearest-neighbor index over points paired with caller-chosen `usize`
/// items, supporting nearest, k-nearest and radius queries. The items are
/// opaque identifiers; they carry no meaning to the structure.
pub trait NearestNeighbors: Sized {
    /// The stored entries, in insertion order.
    spec fn contents(&self) -> Seq<(Seq<i64>, usize)>;

    /// What the nearest-entry query promises about its result, beyond the
    /// guarantees shared by every implementation.
    spec fn nearest_one_post(&self, q: Seq<i64>, r: Option<usize>) -> bool;

    /// What the k-nearest query promises about its result.
    spec fn nearest_k_post(&self, q: Seq<i64>, k: nat, r: Seq<usize>) -> bool;

    /// What the radius query promises about its result.
    spec fn within_radius_post(&self, q: Seq<i64>, radius: int, r: Seq<usize>) -> bool;

    /// Constructs an empty structure.
    fn new() -> (s: Self)
        ensures
            s.contents() == Seq::<(Seq<i64>, usize)>::empty(),
    ;

    /// Adds a point with its item.
    fn add(&mut self, point: Point, item: usize)
        requires
            point.in_range(),
            1 <= point@.len() <= DIM_LIMIT,
            entries_compatible(old(self).contents(), point@),
        ensures
            final(self).contents() == old(self).contents().push((point@, item)),
    ;

    /// The item of an entry at minimal squared distance from `point`, or
    /// `None` exactly when the structure is empty.
    fn nearest_one(&self, point: &Point) -> (r: Option<usize>)
        requires
            point.in_range(),
            1 <= point@.len() <= DIM_LIMIT,
            entries_compatible(self.contents(), point@),
        ensures
            (r is Some) <==> self.contents().len() > 0,
            r is Some ==> exists|j: int|
                is_min_at(self.contents(), point@, j) && r == Some((#[trigger] self.contents()[j]).1),
            self.nearest_one_post(point@, r),
    ;

    /// The items of the `k` entries closest to `point`, closest first.
    fn nearest_k(&self, point: &Point, k: usize) -> (r: Vec<usize>)
        requires
            point.in_range(),
            1 <= point@.len() <= DIM_LIMIT,
            entries_compatible(self.contents(), point@),
        ensures
            r@.len() == vstd::math::min(k as int, self.contents().len() as int),
            self.nearest_k_post(point@, k as nat, r@),
    ;

    /// The items of all entries within distance `radius` of `point`.
    fn within_radius(&self, point: &Point, radius: i64) -> (r: Vec<usize>)
        requires
            point.in_range(),
            1 <= point@.len() <= DIM_LIMIT,
            entries_compatible(self.contents(), point@),
            0 <= radius <= 0x7fffffff,
        ensures
            self.within_radius_post(point@, radius as int, r@),
    ;
}

/// Scans for the first entry at minimal squared distance from `point`.
fn scan_first_min(points: &Vec<(Point, usize)>, point: &Point) -> (r: usize)
    requires
        points@.len() > 0,
        point.in_range(),
        1 <= point@.len() <= DIM_LIMIT,
        entries_compatible(entries_view(points@), point@),
    ensures
        is_first_min_at(entries_view(points@), point@, r as int),
{
    let ghost entries = entries_view(points@);
    let n = points.len();
    let mut best: usize = 0;
    proof {
        assert(entries[0].0 == points@[0].0@);
    }
    let mut best_d = euclidean_distance_squared(point, &points[0].0);
    let mut i: usize = 1;
    while i < n
        invariant
            1 <= i <= n,
            0 <= best < i,
            n == points@.len(),
            point.in_range(),
            1 <= point@.len() <= DIM_LIMIT,
            entries_compatible(entries, point@),
            entries == entries_view(points@),
            best_d == dist2_spec(point@, entries[best as int].0),
            forall|j: int|
                0 <= j < i ==> dist2_spec(point@, (#[trigger] entries[j]).0) >= best_d,
            forall|j: int| 0 <= j < best ==> dist2_spec(point@, (#[trigger] entries[j]).0) > best_d,
        decreases n - i,
    {
        proof {
            assert(entries[i as int].0 == points@[i as int].0@);
        }
        let d = euclidean_distance_squared(point, &points[i].0);
        if d < best_d {
            best = i;
            best_d = d;
        }
        i = i + 1;
    }
    best
}

/// A nearest-neighbor structure that scans all stored points linearly:
/// exact, with ties broken toward the earliest insertion.
pub struct LinearNearestNeighbors {
    /// The stored points with their items, in insertion order.
    pub points: Vec<(Point, usize)>,
}

impl NearestNeighbors for LinearNearestNeighbors {
    open spec fn contents(&self) -> Seq<(Seq<i64>, usize)> {
        entries_view(self.points@)
    }

    /// Among equally close entries, the linear scan returns the item of
    /// the first-inserted one.
    open spec fn nearest_one_post(&self, q: Seq<i64>, r: Option<usize>) -> bool {
        r matches Some(it) ==> exists|j: int|
            #[trigger] is_first_min_at(self.contents(), q, j) && self.contents()[j].1 == it
    }

    /// The result is exactly the first `k` items of the stable ordering of
    /// the entries by squared distance from `q`.
    open spec fn nearest_k_post(&self, q: Seq<i64>, k: nat, r: Seq<usize>) -> bool {
        r == nearest_k_ids(self.contents(), q, k)
    }

    /// The result is exactly the items of the entries within `radius`,
    /// in insertion order.
    open spec fn within_radius_post(&self, q: Seq<i64>, radius: int, r: Seq<usize>) -> bool {
        r == within_ids(self.contents(), q, radius)
    }

    fn new() -> (s: Self) {
        let s = LinearNearestNeighbors { points: Vec::new() };
        proof {
            assert(s.contents() =~= Seq::<(Seq<i64>, usize)>::empty());
        }
        s
    }

    fn add(&mut self, point: Point, item: usize) {
        self.points.push((point, item));
        proof {
            assert(self.contents() =~= old(self).contents().push((point@, item)));
        }
    }

    fn nearest_one(&self, point: &Point) -> (r: Option<usize>) {
        if self.points.len() == 0 {
            return None;
        }
        let j = scan_first_min(&self.points, point);
        proof {
            assert(self.contents()[j as int].1 == self.points@[j as int].1);
            assert(is_min_at(self.contents(), point@, j as int));
            assert(is_first_min_at(self.contents(), point@, j as int));
        }
        Some(self.points[j].1)
    }

    fn nearest_k(&self, point: &Point, k: usize) -> (r: Vec<usize>) {
        nearest_k_scan(&self.points, point, k)
    }

    fn within_radius(&self, point: &Point, radius: i64) -> (r: Vec<usize>) {
        within_radius_scan(&self.points, point, radius)
    }
}

/// The items of the `k` entries closest to `q`: repeatedly extract the
/// first entry at minimal distance. This equals taking the first `k` items
/// of a stable sort of the entries by squared distance.
pub open spec fn nearest_k_ids(entries: Seq<(Seq<i64>, usize)>, q: Seq<i64>, k: nat) -> Seq<usize>
    decreases k,
{
    if k == 0 || entries.len() == 0 {
        Seq::empty()
    } else {
        let j = choose|j: int| is_first_min_at(entries, q, j);
        seq![entries[j].1] + nearest_k_ids(entries.remove(j), q, (k - 1) as nat)
    }
}

/// The entry lies within distance `radius` of `q`.
pub open spec fn rad_pred(q: Seq<i64>, radius: int) -> spec_fn((Seq<i64>, usize)) -> bool {
    |e: (Seq<i64>, usize)| dist2_spec(q, e.0) <= radius * radius
}

/// The item of an entry.
pub open spec fn item_of() -> spec_fn((Seq<i64>, usize)) -> usize {
    |e: (Seq<i64>, usize)| e.1
}

/// The items of the entries within distance `radius` of `q`, in insertion
/// order.
pub open spec fn within_ids(entries: Seq<(Seq<i64>, usize)>, q: Seq<i64>, radius: int) -> Seq<
    usize,
> {
    entries.filter(rad_pred(q, radius)).map_values(item_of())
}

/// A first minimum exists in every nonempty entry sequence.
pub proof fn lemma_first_min_exists(entries: Seq<(Seq<i64>, usize)>, q: Seq<i64>)
    requires
        entries.len() > 0,
    ensures
        exists|j: int| is_first_min_at(entries, q, j),
    decreases entries.len(),
{
    if entries.len() == 1 {
        assert(is_first_min_at(entries, q, 0));
    } else {
        let sub = entries.drop_last();
        lemma_first_min_exists(sub, q);
        let j = choose|j: int| is_first_min_at(sub, q, j);
        let last = entries.len() - 1;
        if dist2_spec(q, entries[last].0) < dist2_spec(q, entries[j].0) {
            assert forall|i: int| 0 <= i < last implies dist2_spec(
                q,
                (#[trigger] entries[i]).0,
            ) > dist2_spec(q, entries[last].0) by {
                assert(entries[i] == sub[i]);
                assert(dist2_spec(q, (#[trigger] sub[i]).0) >= dist2_spec(q, sub[j].0));
            }
            assert(is_first_min_at(entries, q, last));
        } else {
            assert forall|i: int| 0 <= i < entries.len() implies dist2_spec(
                q,
                (#[trigger] entries[i]).0,
            ) >= dist2_spec(q, entries[j].0) by {
                if i < last {
                    assert(entries[i] == sub[i]);
                    assert(dist2_spec(q, (#[trigger] sub[i]).0) >= dist2_spec(q, sub[j].0));
                }
            }
            assert forall|i: int| 0 <= i < j implies dist2_spec(
                q,
                (#[trigger] entries[i]).0,
            ) > dist2_spec(q, entries[j].0) by {
                assert(entries[i] == sub[i]);
                assert(dist2_spec(q, (#[trigger] sub[i]).0) > dist2_spec(q, sub[j].0));
            }
            assert(is_first_min_at(entries, q, j));
        }
    }
}

/// Computes `nearest_k_ids` by repeated extraction from a working copy.
fn nearest_k_scan(points: &Vec<(Point, usize)>, point: &Point, k: usize) -> (r: Vec<usize>)
    requires
        point.in_range(),
        1 <= point@.len() <= DIM_LIMIT,
        entries_compatible(entries_view(points@), point@),
    ensures
        r@.len() == vstd::math::min(k as int, points@.len() as int),
        r@ == nearest_k_ids(entries_view(points@), point@, k as nat),
{
    let ghost full = entries_view(points@);
    let mut pool: Vec<(Point, usize)> = Vec::new();
    let mut i: usize = 0;
    while i < points.len()
        invariant
            i <= points@.len(),
            pool@.len() == i,
            forall|j: int| 0 <= j < i ==> entries_view(pool@)[j] == entries_view(points@)[j],
        decreases points@.len() - i,
    {
        let (p, it) = (points[i].0.clone(), points[i].1);
        pool.push((p, it));
        i = i + 1;
    }
    proof {
        assert(entries_view(pool@) =~= full);
    }
    let mut out: Vec<usize> = Vec::new();
    let mut taken: usize = 0;
    while taken < k && pool.len() > 0
        invariant
            taken <= k,
            point.in_range(),
            1 <= point@.len() <= DIM_LIMIT,
            entries_compatible(entries_view(pool@), point@),
            out@.len() == taken,
            out@.len() + pool@.len() == full.len(),
            out@ + nearest_k_ids(entries_view(pool@), point@, (k - taken) as nat) == nearest_k_ids(
                full,
                point@,
                k as nat,
            ),
        decreases pool@.len(),
    {
        let ghost pre = entries_view(pool@);
        let ghost out_pre = out@;
        let j = scan_first_min(&pool, point);
        out.push(pool[j].1);
        pool.remove(j);
        proof {
            lemma_first_min_exists(pre, point@);
            let jj = choose|x: int| is_first_min_at(pre, point@, x);
            lemma_first_min_unique(pre, point@, j as int, jj);
            assert(nearest_k_ids(pre, point@, (k - taken) as nat) == seq![pre[j as int].1]
                + nearest_k_ids(pre.remove(j as int), point@, (k - taken - 1) as nat));
            assert(out@ =~= out_pre.push(pre[j as int].1));
            assert(out@ + nearest_k_ids(pre.remove(j as int), point@, (k - taken - 1) as nat)
                =~= out_pre + nearest_k_ids(pre, point@, (k - taken) as nat));
            assert(entries_view(pool@) =~= pre.remove(j as int));
            assert(entries_compatible(entries_view(pool@), point@)) by {
                assert forall|x: int|
                    0 <= x < entries_view(pool@).len() implies (#[trigger] entries_view(
                    pool@,
                )[x]).0.len() == point@.len() && abs_bounded(
                    entries_view(pool@)[x].0,
                    COORD_LIMIT as int,
                ) by {
                    if x < j {
                        assert(pre.remove(j as int)[x] == pre[x]);
                    } else {
                        assert(pre.remove(j as int)[x] == pre[x + 1]);
                    }
                }
            }
        }
        taken = taken + 1;
    }
    proof {
        if taken == k || pool@.len() == 0 {
            assert(nearest_k_ids(entries_view(pool@), point@, (k - taken) as nat)
                =~= Seq::<usize>::empty());
            assert(out@ + Seq::<usize>::empty() =~= out@);
        }
    }
    out
}

/// Computes `within_ids` by one scan in insertion order.
fn within_radius_scan(points: &Vec<(Point, usize)>, point: &Point, radius: i64) -> (r: Vec<usize>)
    requires
        point.in_range(),
        1 <= point@.len() <= DIM_LIMIT,
        entries_compatible(entries_view(points@), point@),
        0 <= radius <= 0x7fffffff,
    ensures
        r@ == within_ids(entries_view(points@), point@, radius as int),
{
    let ghost full = entries_view(points@);
    let ghost pred = rad_pred(point@, radius as int);
    let n = points.len();
    let mut out: Vec<usize> = Vec::new();
    let mut i: usize = 0;
    proof {
        reveal_with_fuel(Seq::filter, 2);
        assert(full.take(0) =~= Seq::<(Seq<i64>, usize)>::empty());
    }
    while i < n
        invariant
            i <= n,
            n == points@.len(),
            point.in_range(),
            1 <= point@.len() <= DIM_LIMIT,
            entries_compatible(full, point@),
            full == entries_view(points@),
            0 <= radius <= 0x7fffffff,
            pred == rad_pred(point@, radius as int),
            out@ == full.take(i as int).filter(pred).map_values(item_of()),
        decreases n - i,
    {
        proof {
            let ri = radius as int;
            assert(0 <= ri * ri <= 0x3fffffff00000001) by (nonlinear_arith)
                requires
                    0 <= ri <= 0x7fffffff,
            ;
            assert(full[i as int].0 == points@[i as int].0@);
            assert(full[i as int].1 == points@[i as int].1);
        }
        let d = euclidean_distance_squared(point, &points[i].0);
        let keep = d <= radius * radius;
        proof {
            reveal_with_fuel(Seq::filter, 2);
            let pre = full.take(i as int);
            let post = full.take(i as int + 1);
            assert(post.drop_last() =~= pre);
            assert(post.last() == full[i as int]);
            assert(keep == pred(full[i as int]));
            if keep {
                assert(post.filter(pred) == pre.filter(pred).push(full[i as int]));
                assert(post.filter(pred).map_values(item_of()) =~= pre.filter(pred).map_values(
                    item_of(),
                ).push(full[i as int].1));
            } else {
                assert(post.filter(pred) == pre.filter(pred));
            }
        }
        if keep {
            out.push(points[i].1);
        }
        i = i + 1;
    }
    proof {
        assert(full.take(n as int) =~= full);
    }
    out
}


/// Largest coordinate magnitude the kiddo-backed grid accepts: the shift
/// into unsigned axes and the exactness of the grid's widened 32-bit
/// integer distance accumulator both rest on this bound.
pub const KD_COORD_LIMIT: i64 = 16383;

/// Squared Euclidean distance over shifted (unsigned) coordinates.
pub open spec fn dist2_u16(a: Seq<u16>, b: Seq<u16>) -> int
    decreases a.len(),
{
    if a.len() == 0 {
        0
    } else {
        dist2_u16(a.drop_last(), b.drop_last()) + (a.last() - b.last()) * (a.last() - b.last())
    }
}

/// The coordinates of `s`, shifted into the grid's unsigned axis range.
pub open spec fn shift_seq(s: Seq<i64>) -> Seq<u16> {
    s.map_values(|c: i64| (c + KD_COORD_LIMIT) as u16)
}

/// `p` fits the grid: two axes, all coordinates within the grid bound.
pub open spec fn kd_fits(p: Seq<i64>) -> bool {
    &&& p.len() == 2
    &&& abs_bounded(p, KD_COORD_LIMIT as int)
}

/// Every shifted coordinate stays within the range on which the grid's
/// distance accumulator is exact.
pub open spec fn kd_in_axis_range(s: Seq<u16>) -> bool {
    forall|i: int| 0 <= i < s.len() ==> #[trigger] s[i] <= 2 * KD_COORD_LIMIT
}

/// The stored entries shifted into the grid's coordinates.
pub open spec fn kd_shifted(entries: Seq<(Seq<i64>, usize)>) -> Seq<(Seq<u16>, usize)> {
    entries.map_values(|e: (Seq<i64>, usize)| (shift_seq(e.0), e.1))
}

/// Shifting both points by the same offset preserves squared distances.
pub proof fn lemma_dist2_shift(a: Seq<i64>, b: Seq<i64>)
    requires
        a.len() == b.len(),
        abs_bounded(a, KD_COORD_LIMIT as int),
        abs_bounded(b, KD_COORD_LIMIT as int),
    ensures
        dist2_u16(shift_seq(a), shift_seq(b)) == dist2_spec(a, b),
    decreases a.len(),
{
    if a.len() > 0 {
        let a0 = a.drop_last();
        let b0 = b.drop_last();
        assert(abs_bounded(a0, KD_COORD_LIMIT as int));
        assert(abs_bounded(b0, KD_COORD_LIMIT as int));
        lemma_dist2_shift(a0, b0);
        assert(shift_seq(a).drop_last() =~= shift_seq(a0));
        assert(shift_seq(b).drop_last() =~= shift_seq(b0));
        assert(shift_seq(a).last() == (a.last() + KD_COORD_LIMIT) as u16);
        assert(shift_seq(b).last() == (b.last() + KD_COORD_LIMIT) as u16);
        assert((a.last() + KD_COORD_LIMIT) as u16 == a.last() + KD_COORD_LIMIT);
        assert((b.last() + KD_COORD_LIMIT) as u16 == b.last() + KD_COORD_LIMIT);
    }
}

#[verifier::external_body]
/// kiddo's mutable k-d tree over two u16 axes, carried opaquely.
pub struct KdGrid {
    tree: kiddo::MutableKdTree<u16, 2>,
}

pub uninterp spec fn kd_contents(t: KdGrid) -> Seq<(Seq<u16>, usize)>;

/// Relies on kiddo's `KdTree::default`, which builds an empty tree.
#[verifier::external_body]
fn kd_new() -> (t: KdGrid)
    ensures
        kd_contents(t) == Seq::<(Seq<u16>, usize)>::empty(),
{
    KdGrid { tree: Default::default() }
}

/// Relies on kiddo's `KdTree::add`: on success the point and its item are
/// stored; kiddo refuses an insertion only by returning a construction
/// error (an unsplittable bucket), and nothing is promised of the grid's
/// contents after a refusal.
#[verifier::external_body]
fn kd_add(t: &mut KdGrid, coords: &Vec<u16>, item: usize) -> (ok: bool)
    requires
        coords@.len() == 2,
        item <= 0xffffffff,
    ensures
        ok ==> kd_contents(*final(t)) == kd_contents(*old(t)).push((coords@, item)),
{
    let arr: [u16; 2] = [coords[0], coords[1]];
    t.tree.add(&arr, item as u32).is_ok()
}

/// Relies on kiddo's exact nearest-neighbour query,
/// `query(..).nearest_one().execute()` with the squared-Euclidean metric:
/// each u16 coordinate is widened to a 32-bit integer accumulator
/// (`FixedI32<U0>`), so for coordinates within the grid's range the
/// squared distance is computed exactly, and the returned item belongs to
/// a stored entry at minimal squared distance from the query. Which of
/// several equally close entries is returned is not specified.
#[verifier::external_body]
fn kd_nearest(t: &KdGrid, coords: &Vec<u16>) -> (item: usize)
    requires
        coords@.len() == 2,
        kd_contents(*t).len() > 0,
        kd_in_axis_range(coords@),
        forall|i: int|
            0 <= i < kd_contents(*t).len() ==> (#[trigger] kd_contents(*t)[i]).0.len() == 2
                && kd_in_axis_range(kd_contents(*t)[i].0),
    ensures
        exists|j: int|
            0 <= j < kd_contents(*t).len() && (#[trigger] kd_contents(*t)[j]).1 == item && forall|
                i: int,
            |
                0 <= i < kd_contents(*t).len() ==> dist2_u16(
                    coords@,
                    (#[trigger] kd_contents(*t)[i]).0,
                ) >= dist2_u16(coords@, kd_contents(*t)[j].0),
{
    let arr: [u16; 2] = [coords[0], coords[1]];
    let best = t.tree.query(&arr).nearest_one::<
        kiddo::SquaredEuclidean<fixed::FixedI32<fixed::types::extra::U0>>,
    >().execute();
    best.item as usize
}

/// Decides `kd_fits(p@)`.
fn kd_fits_exec(p: &Point) -> (r: bool)
    ensures
        r == kd_fits(p@),
{
    let c = p.coords();
    if c.len() != 2 {
        return false;
    }
    let r = -KD_COORD_LIMIT <= c[0] && c[0] <= KD_COORD_LIMIT && -KD_COORD_LIMIT <= c[1] && c[1]
        <= KD_COORD_LIMIT;
    proof {
        if r {
            assert forall|i: int|
                0 <= i < p@.len() implies -(KD_COORD_LIMIT as int) <= #[trigger] p@[i] && p@[i]
                <= KD_COORD_LIMIT as int by {
                assert(i == 0 || i == 1);
            }
        }
    }
    r
}

/// Shifts a configuration into the grid's unsigned axes.
fn shift_point(p: &Point) -> (r: Vec<u16>)
    requires
        kd_fits(p@),
    ensures
        r@ == shift_seq(p@),
{
    let c = p.coords();
    let n = c.len();
    let mut out: Vec<u16> = Vec::new();
    let mut i: usize = 0;
    while i < n
        invariant
            i <= n,
            n == p@.len(),
            c@ == p@,
            kd_fits(p@),
            out@.len() == i,
            forall|j: int| 0 <= j < i ==> #[trigger] out@[j] == (p@[j] + KD_COORD_LIMIT) as u16,
        decreases n - i,
    {
        out.push((c[i] + KD_COORD_LIMIT) as u16);
        i = i + 1;
    }
    proof {
        assert(out@ =~= shift_seq(p@));
    }
    out
}

/// A nearest-neighbor structure backed by kiddo's balanced k-d tree for
/// its nearest-one queries, over two-dimensional configurations within the
/// grid's coordinate bound. An insertion-ordered mirror of the entries
/// answers the k-nearest and radius queries exactly and serves as the
/// fallback whenever an entry or a query leaves the grid's range.
pub struct KdTreeNearestNeighbors {
    points: Vec<(Point, usize)>,
    grid: KdGrid,
    grid_ok: bool,
}

impl KdTreeNearestNeighbors {
    /// While the grid is live, it holds exactly the stored entries, shifted
    /// into its unsigned axes, and every stored entry fits the grid.
    #[verifier::type_invariant]
    spec fn kd_inv(&self) -> bool {
        self.grid_ok ==> {
            &&& forall|i: int|
                0 <= i < entries_view(self.points@).len() ==> kd_fits(
                    (#[trigger] entries_view(self.points@)[i]).0,
                )
            &&& kd_contents(self.grid) == kd_shifted(entries_view(self.points@))
        }
    }
}

impl NearestNeighbors for KdTreeNearestNeighbors {
    closed spec fn contents(&self) -> Seq<(Seq<i64>, usize)> {
        entries_view(self.points@)
    }

    /// The grid returns the item of some entry at minimal squared
    /// distance; which of several equally close entries it is stays open.
    open spec fn nearest_one_post(&self, q: Seq<i64>, r: Option<usize>) -> bool {
        r matches Some(it) ==> exists|j: int|
            #[trigger] is_min_at(self.contents(), q, j) && self.contents()[j].1 == it
    }

    /// The result is exactly the first `k` items of the stable ordering of
    /// the entries by squared distance from `q`, as the mirror computes it.
    open spec fn nearest_k_post(&self, q: Seq<i64>, k: nat, r: Seq<usize>) -> bool {
        r == nearest_k_ids(self.contents(), q, k)
    }

    /// The result is exactly the items of the entries within `radius`, in
    /// insertion order, as the mirror computes it.
    open spec fn within_radius_post(&self, q: Seq<i64>, radius: int, r: Seq<usize>) -> bool {
        r == within_ids(self.contents(), q, radius)
    }

    fn new() -> (s: Self) {
        let grid = kd_new();
        let points: Vec<(Point, usize)> = Vec::new();
        proof {
            assert(entries_view(points@) =~= Seq::<(Seq<i64>, usize)>::empty());
            assert(kd_shifted(entries_view(points@)) =~= kd_contents(grid));
        }
        let s = KdTreeNearestNeighbors { points, grid, grid_ok: true };
        proof {
            assert(s.contents() =~= Seq::<(Seq<i64>, usize)>::empty());
        }
        s
    }

    fn add(&mut self, point: Point, item: usize) {
        proof {
            use_type_invariant(&*self);
        }
        let ghost pp = point@;
        let was_ok = self.grid_ok;
        self.grid_ok = false;
        let mut grid = kd_new();
        core::mem::swap(&mut self.grid, &mut grid);
        let fits = kd_fits_exec(&point);
        let small = (item as u64) <= 0xffffffff;
        let live: bool = if was_ok && fits && small {
            let shifted = shift_point(&point);
            kd_add(&mut grid, &shifted, item)
        } else {
            false
        };
        let mut points: Vec<(Point, usize)> = Vec::new();
        core::mem::swap(&mut self.points, &mut points);
        points.push((point, item));
        core::mem::swap(&mut self.points, &mut points);
        core::mem::swap(&mut self.grid, &mut grid);
        proof {
            assert(entries_view(self.points@) =~= entries_view(old(self).points@).push((pp, item)));
            if live {
                assert(kd_shifted(entries_view(self.points@)) =~= kd_shifted(
                    entries_view(old(self).points@),
                ).push((shift_seq(pp), item)));
            }
        }
        self.grid_ok = live;
    }

    fn nearest_one(&self, point: &Point) -> (r: Option<usize>) {
        proof {
            use_type_invariant(&*self);
        }
        if self.points.len() == 0 {
            return None;
        }
        let use_grid = self.grid_ok && kd_fits_exec(point);
        if use_grid {
            let shifted = shift_point(point);
            proof {
                let ents = entries_view(self.points@);
                let kdc = kd_contents(self.grid);
                assert forall|i: int|
                    0 <= i < kdc.len() implies (#[trigger] kdc[i]).0.len() == 2
                    && kd_in_axis_range(kdc[i].0) by {
                    assert(kdc[i] == (shift_seq(ents[i].0), ents[i].1));
                    assert(kd_fits(ents[i].0));
                    assert forall|m: int|
                        0 <= m < shift_seq(ents[i].0).len() implies #[trigger] shift_seq(
                        ents[i].0,
                    )[m] <= 2 * KD_COORD_LIMIT by {
                        assert(shift_seq(ents[i].0)[m] == (ents[i].0[m] + KD_COORD_LIMIT) as u16);
                    }
                }
                assert forall|m: int|
                    0 <= m < shifted@.len() implies #[trigger] shifted@[m] <= 2
                    * KD_COORD_LIMIT by {
                    assert(shifted@[m] == (point@[m] + KD_COORD_LIMIT) as u16);
                }
            }
            let item = kd_nearest(&self.grid, &shifted);
            proof {
                let ents = entries_view(self.points@);
                let kdc = kd_contents(self.grid);
                let j = choose|j: int|
                    0 <= j < kdc.len() && (#[trigger] kdc[j]).1 == item && forall|i: int|
                        0 <= i < kdc.len() ==> dist2_u16(shifted@, (#[trigger] kdc[i]).0)
                            >= dist2_u16(shifted@, kdc[j].0);
                assert(kdc[j] == (shift_seq(ents[j].0), ents[j].1));
                assert forall|i: int|
                    0 <= i < ents.len() implies dist2_spec(point@, (#[trigger] ents[i]).0)
                    >= dist2_spec(point@, ents[j].0) by {
                    assert(kdc[i] == (shift_seq(ents[i].0), ents[i].1));
                    assert(kd_fits(ents[i].0));
                    assert(kd_fits(ents[j].0));
                    lemma_dist2_shift(point@, ents[i].0);
                    lemma_dist2_shift(point@, ents[j].0);
                    assert(dist2_u16(shifted@, kdc[i].0) >= dist2_u16(shifted@, kdc[j].0));
                }
                assert(is_min_at(self.contents(), point@, j));
                assert((#[trigger] self.contents()[j]).1 == item);
            }
            Some(item)
        } else {
            let j = scan_first_min(&self.points, point);
            proof {
                assert(self.contents()[j as int].1 == self.points@[j as int].1);
                assert(is_min_at(self.contents(), point@, j as int));
            }
            Some(self.points[j].1)
        }
    }

    fn nearest_k(&self, point: &Point, k: usize) -> (r: Vec<usize>) {
        nearest_k_scan(&self.points, point, k)
    }

    fn within_radius(&self, point: &Point, radius: i64) -> (r: Vec<usize>) {
        within_radius_scan(&self.points, point, radius)
    }
}
} // verus!
