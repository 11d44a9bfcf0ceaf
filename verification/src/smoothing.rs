use vstd::prelude::*;

use crate::collision::ValidityChecker;
use crate::point::Point;
use crate::rrt::point_views;

verus! {

/// Every point of `s` is usable in a `dim`-dimensional space.
pub open spec fn points_wf(s: Seq<Point>, dim: nat) -> bool {
    forall|i: int| 0 <= i < s.len() ==> (#[trigger] s[i]).wf(dim)
}

/// Every consecutive pair of `s` forms an edge the checker admits.
pub open spec fn edges_ok<VC: ValidityChecker>(vc: &VC, s: Seq<Point>) -> bool {
    forall|j: int| 0 <= j < s.len() - 1 ==> #[trigger] vc.edge_ok(s[j]@, s[j + 1]@)
}

/// The waypoints the greedy scan commits while walking `views` from
/// position `i` with the last committed waypoint at position `anchor`:
/// whenever the direct edge from the anchor to `views[i]` fails, the
/// previous waypoint is committed and becomes the new anchor.
pub open spec fn shortcut_scan<VC: ValidityChecker>(
    vc: &VC,
    views: Seq<Seq<i64>>,
    i: int,
    anchor: int,
) -> Seq<Seq<i64>>
    decreases views.len() - i,
{
    if i < views.len() {
        if !vc.edge_ok(views[anchor], views[i]) {
            seq![views[i - 1]] + shortcut_scan(vc, views, i + 1, i - 1)
        } else {
            shortcut_scan(vc, views, i + 1, anchor)
        }
    } else {
        Seq::empty()
    }
}

/// The full result of the greedy left-to-right shortcutting scan over a
/// nonempty waypoint sequence: the first waypoint, then every waypoint the
/// scan commits, then the final waypoint.
pub open spec fn shortcut_spec<VC: ValidityChecker>(vc: &VC, views: Seq<Seq<i64>>) -> Seq<Seq<i64>>
    recommends
        views.len() >= 1,
{
    seq![views[0]] + shortcut_scan(vc, views, 1, 0) + seq![views[views.len() - 1]]
}

/// Smooth a path by attempting to connect nodes directly.
///
/// A single left-to-right scan keeps extending the edge from the last
/// committed point as far as the validity checker allows, backing off by one
/// step whenever the direct edge fails, and always ends the output at the
/// input's final point. Linear time, not globally optimal. The output is
/// exactly `shortcut_spec` of the input's waypoints.
///
/// For a non-trivial input path whose own consecutive edges are all valid,
/// the output starts and ends where the input does, is no longer than the
/// input, and all of its consecutive edges are valid.
pub fn fast_shortcutting<VC: ValidityChecker>(path: Vec<Point>, validity_checker: &VC) -> (r: Vec<
    Point,
>)
    requires
        validity_checker.inv(),
        path@.len() >= 1,
        points_wf(path@, validity_checker.dim()),
    ensures
        point_views(r@) == shortcut_spec(validity_checker, point_views(path@)),
        r@.len() >= 2,
        r@[0]@ == path@[0]@,
        r@[r@.len() - 1]@ == path@[path@.len() - 1]@,
        points_wf(r@, validity_checker.dim()),
        path@.len() >= 2 && edges_ok(validity_checker, path@) ==> r@.len() <= path@.len()
            && edges_ok(validity_checker, r@),
{
    let ghost v = point_views(path@);
    let ghost happy = path@.len() >= 2 && edges_ok(validity_checker, path@);
    let mut smoothed: Vec<Point> = Vec::new();
    smoothed.push(path[0].clone());
    let mut last_valid: usize = 0;
    let ghost mut anchor: int = 0;
    let mut i: usize = 1;
    proof {
        assert(point_views(smoothed@) =~= seq![v[0]]);
    }
    while i < path.len()
        invariant
            1 <= i <= path@.len(),
            validity_checker.inv(),
            points_wf(path@, validity_checker.dim()),
            v == point_views(path@),
            happy == (path@.len() >= 2 && edges_ok(validity_checker, path@)),
            smoothed@.len() >= 1,
            last_valid == smoothed@.len() - 1,
            0 <= anchor <= i - 1,
            anchor < path@.len(),
            smoothed@[smoothed@.len() - 1]@ == path@[anchor]@,
            smoothed@[0]@ == path@[0]@,
            points_wf(smoothed@, validity_checker.dim()),
            seq![v[0]] + shortcut_scan(validity_checker, v, 1, 0) == point_views(smoothed@)
                + shortcut_scan(validity_checker, v, i as int, anchor),
            happy ==> smoothed@.len() <= anchor + 1,
            happy ==> anchor <= path@.len() - 2,
            happy ==> edges_ok(validity_checker, smoothed@),
            happy ==> (anchor == i - 1 || validity_checker.edge_ok(path@[anchor]@, path@[i - 1]@)),
        decreases path@.len() - i,
    {
        let ghost pre_views = point_views(smoothed@);
        proof {
            assert(v[anchor] == path@[anchor]@);
            assert(v[i as int] == path@[i as int]@);
            assert(v[i - 1] == path@[i - 1]@);
        }
        if !validity_checker.is_edge_valid(&smoothed[last_valid], &path[i]) {
            proof {
                if happy {
                    let j: int = i as int - 1;
                    assert(validity_checker.edge_ok(path@[j]@, path@[j + 1]@));
                    assert(j + 1 == i as int);
                    assert(validity_checker.edge_ok(path@[i - 1]@, path@[i as int]@));
                    assert(anchor != i - 1);
                }
            }
            smoothed.push(path[i - 1].clone());
            last_valid = smoothed.len() - 1;
            proof {
                assert(shortcut_scan(validity_checker, v, i as int, anchor) == seq![v[i - 1]]
                    + shortcut_scan(validity_checker, v, i as int + 1, i - 1));
                assert(point_views(smoothed@) =~= pre_views + seq![v[i - 1]]);
                assert(pre_views + (seq![v[i - 1]] + shortcut_scan(
                    validity_checker,
                    v,
                    i as int + 1,
                    i - 1,
                )) =~= (pre_views + seq![v[i - 1]]) + shortcut_scan(
                    validity_checker,
                    v,
                    i as int + 1,
                    i - 1,
                ));
                anchor = i - 1;
            }
        } else {
            proof {
                assert(shortcut_scan(validity_checker, v, i as int, anchor) == shortcut_scan(
                    validity_checker,
                    v,
                    i as int + 1,
                    anchor,
                ));
            }
        }
        i = i + 1;
    }
    proof {
        assert(shortcut_scan(validity_checker, v, path@.len() as int, anchor)
            =~= Seq::<Seq<i64>>::empty());
        assert(point_views(smoothed@) + Seq::<Seq<i64>>::empty() =~= point_views(smoothed@));
        if happy {
            assert(validity_checker.edge_ok(path@[anchor]@, path@[path@.len() - 1]@));
        }
    }
    let ghost pre_views = point_views(smoothed@);
    smoothed.push(path[path.len() - 1].clone());
    proof {
        assert(point_views(smoothed@) =~= pre_views + seq![v[path@.len() - 1]]);
        assert((seq![v[0]] + shortcut_scan(validity_checker, v, 1, 0)) + seq![v[path@.len() - 1]]
            =~= point_views(smoothed@));
    }
    smoothed
}

} // verus!
