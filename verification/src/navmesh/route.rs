//! What a route over the navigation grid is, and what follows from it.

use crate::navmesh::components::NavmeshModel;
use crate::GridCoord;
use vstd::prelude::*;

verus! {

/// `v + 1`, or `v` where that would leave `usize`.
pub open spec fn spec_saturating_inc(v: usize) -> usize {
    if v < usize::MAX {
        (v + 1) as usize
    } else {
        v
    }
}

/// `v - 1`, or `0` where `v` is `0`.
pub open spec fn spec_saturating_dec(v: usize) -> usize {
    if v > 0 {
        (v - 1) as usize
    } else {
        v
    }
}

/// The tile above `node`.
pub open spec fn up(node: GridCoord) -> GridCoord {
    GridCoord { x: node.x, y: spec_saturating_inc(node.y) }
}

/// The tile below `node`; `node` itself on the bottom row.
pub open spec fn down(node: GridCoord) -> GridCoord {
    GridCoord { x: node.x, y: spec_saturating_dec(node.y) }
}

/// The tile left of `node`; `node` itself in the first column.
pub open spec fn left(node: GridCoord) -> GridCoord {
    GridCoord { x: spec_saturating_dec(node.x), y: node.y }
}

/// The tile right of `node`.
pub open spec fn right(node: GridCoord) -> GridCoord {
    GridCoord { x: spec_saturating_inc(node.x), y: node.y }
}

/// A search from `start` to `end` may enter `c`: it is a tile of the grid
/// that is walkable, or the destination, or the start.
pub open spec fn admissible(nav: NavmeshModel, start: GridCoord, end: GridCoord, c: GridCoord) -> bool {
    nav.contains(c) && (nav.tile(c).walkable || c == end || c == start)
}

/// `c` with the cost of entering it, if the search may enter it.
pub open spec fn keep_admissible(
    nav: NavmeshModel,
    start: GridCoord,
    end: GridCoord,
    c: GridCoord,
) -> Seq<(GridCoord, i32)> {
    if admissible(nav, start, end, c) {
        seq![(c, 0i32)]
    } else {
        Seq::empty()
    }
}

/// The successors of `node` in a search from `start` to `end`: its
/// admissible neighbours above, below, left and right, in that order, each at
/// cost zero.
pub open spec fn spec_successors(
    nav: NavmeshModel,
    start: GridCoord,
    end: GridCoord,
    node: GridCoord,
) -> Seq<(GridCoord, i32)> {
    keep_admissible(nav, start, end, up(node)) + keep_admissible(nav, start, end, down(node))
        + keep_admissible(nav, start, end, left(node)) + keep_admissible(
        nav,
        start,
        end,
        right(node),
    )
}

/// `to` is among the successors of `from`.
pub open spec fn is_successor(
    nav: NavmeshModel,
    start: GridCoord,
    end: GridCoord,
    from: GridCoord,
    to: GridCoord,
) -> bool {
    exists|cost: i32| spec_successors(nav, start, end, from).contains((to, cost))
}

/// `path` leads from `start` to `end`, each waypoint a successor of the one
/// before it.
pub open spec fn is_route(
    nav: NavmeshModel,
    start: GridCoord,
    end: GridCoord,
    path: Seq<GridCoord>,
) -> bool {
    &&& path.len() > 0
    &&& path[0] == start
    &&& path[path.len() - 1] == end
    &&& forall|i: int|
        0 <= i < path.len() - 1 ==> is_successor(nav, start, end, #[trigger] path[i], path[i + 1])
}

/// Some route leads from `start` to `end`.
pub open spec fn reachable(nav: NavmeshModel, start: GridCoord, end: GridCoord) -> bool {
    exists|path: Seq<GridCoord>| is_route(nav, start, end, path)
}

/// `a` and `b` share an edge.
pub open spec fn four_adjacent(a: GridCoord, b: GridCoord) -> bool {
    a.manhattan(b) == 1
}

/// Every tile of the grid that shares an edge with `c` is blocked.
pub open spec fn enclosed(nav: NavmeshModel, c: GridCoord) -> bool {
    forall|n: GridCoord| four_adjacent(n, c) ==> !#[trigger] nav.walkable(n)
}

/// Consecutive waypoints share an edge, every waypoint after the first is a
/// tile of the grid, and every waypoint strictly between the first and the
/// last is walkable.
pub open spec fn is_walk(nav: NavmeshModel, path: Seq<GridCoord>) -> bool {
    &&& forall|i: int| 0 <= i < path.len() - 1 ==> four_adjacent(#[trigger] path[i], path[i + 1])
    &&& forall|i: int| 0 < i < path.len() ==> nav.contains(#[trigger] path[i])
    &&& forall|i: int| 0 < i < path.len() - 1 ==> nav.walkable(#[trigger] path[i])
}

/// A successor is an admissible tile that is `from` itself or shares an
/// edge with it.
pub proof fn lemma_successor(
    nav: NavmeshModel,
    start: GridCoord,
    end: GridCoord,
    from: GridCoord,
    to: GridCoord,
)
    ensures
        is_successor(nav, start, end, from, to) <==> admissible(nav, start, end, to) && (to == up(
            from,
        ) || to == down(from) || to == left(from) || to == right(from)),
        is_successor(nav, start, end, from, to) ==> to == from || four_adjacent(from, to),
        is_successor(nav, start, end, from, to) ==> from.manhattan(to) <= 1,
        four_adjacent(from, to) && admissible(nav, start, end, to) ==> is_successor(
            nav,
            start,
            end,
            from,
            to,
        ),
{
    let all = spec_successors(nav, start, end, from);
    let a = keep_admissible(nav, start, end, up(from));
    let b = keep_admissible(nav, start, end, down(from));
    let c = keep_admissible(nav, start, end, left(from));
    let d = keep_admissible(nav, start, end, right(from));
    if is_successor(nav, start, end, from, to) {
        let cost = choose|cost: i32| all.contains((to, cost));
        let i = choose|i: int| 0 <= i < all.len() && all[i] == (to, cost);
        if i < a.len() {
            assert(all[i] == a[i]);
        } else if i < a.len() + b.len() {
            assert(all[i] == b[i - a.len()]);
        } else if i < a.len() + b.len() + c.len() {
            assert(all[i] == c[i - a.len() - b.len()]);
        } else {
            assert(all[i] == d[i - a.len() - b.len() - c.len()]);
        }
    }
    if admissible(nav, start, end, to) && (to == up(from) || to == down(from) || to == left(from)
        || to == right(from)) {
        if to == up(from) {
            assert(all[0] == (to, 0i32));
        } else if to == down(from) {
            assert(all[a.len() as int] == (to, 0i32));
        } else if to == left(from) {
            assert(all[(a.len() + b.len()) as int] == (to, 0i32));
        } else {
            assert(all[(a.len() + b.len() + c.len()) as int] == (to, 0i32));
        }
        assert(all.contains((to, 0i32)));
    }
}

/// The one-waypoint path is a route from a tile to itself.
pub proof fn lemma_trivial_route(nav: NavmeshModel, start: GridCoord)
    ensures
        is_route(nav, start, start, seq![start]),
        reachable(nav, start, start),
{
    assert(is_route(nav, start, start, seq![start]));
}

/// A route from a tile to itself that visits no tile twice is that tile
/// alone.
pub proof fn lemma_route_to_self(nav: NavmeshModel, start: GridCoord, path: Seq<GridCoord>)
    requires
        is_route(nav, start, start, path),
        path.no_duplicates(),
    ensures
        path == seq![start],
{
    if path.len() > 1 {
        assert(path[0] == path[path.len() - 1]);
    }
    assert(path =~= seq![start]);
}

/// A route that visits no tile twice moves one edge at a time, stays on the
/// grid after its first waypoint, and crosses walkable tiles only between its
/// first and its last waypoint.
pub proof fn lemma_route_is_walk(
    nav: NavmeshModel,
    start: GridCoord,
    end: GridCoord,
    path: Seq<GridCoord>,
)
    requires
        is_route(nav, start, end, path),
        path.no_duplicates(),
    ensures
        is_walk(nav, path),
{
    assert forall|i: int| 0 <= i < path.len() - 1 implies four_adjacent(
        #[trigger] path[i],
        path[i + 1],
    ) by {
        lemma_successor(nav, start, end, path[i], path[i + 1]);
    }
    assert forall|i: int| 0 < i < path.len() implies nav.contains(#[trigger] path[i]) by {
        assert(is_successor(nav, start, end, path[i - 1], path[i - 1 + 1]));
        lemma_successor(nav, start, end, path[i - 1], path[i]);
    }
    assert forall|i: int| 0 < i < path.len() - 1 implies nav.walkable(#[trigger] path[i]) by {
        assert(is_successor(nav, start, end, path[i - 1], path[i - 1 + 1]));
        lemma_successor(nav, start, end, path[i - 1], path[i]);
        assert(path[i] != path[0]);
        assert(path[i] != path[path.len() - 1]);
    }
}

/// The first `k + 1` waypoints of a route lead at most `k` edges away from
/// its start.
proof fn lemma_route_prefix_distance(
    nav: NavmeshModel,
    start: GridCoord,
    end: GridCoord,
    path: Seq<GridCoord>,
    k: int,
)
    requires
        is_route(nav, start, end, path),
        0 <= k < path.len(),
    ensures
        start.manhattan(path[k]) <= k,
    decreases k,
{
    if k > 0 {
        lemma_route_prefix_distance(nav, start, end, path, k - 1);
        assert(is_successor(nav, start, end, path[k - 1], path[k - 1 + 1]));
        lemma_successor(nav, start, end, path[k - 1], path[k]);
    }
}

/// A route has at least one waypoint more than the number of edges between
/// its ends.
pub proof fn lemma_route_length(
    nav: NavmeshModel,
    start: GridCoord,
    end: GridCoord,
    path: Seq<GridCoord>,
)
    requires
        is_route(nav, start, end, path),
    ensures
        path.len() >= start.manhattan(end) + 1,
{
    lemma_route_prefix_distance(nav, start, end, path, path.len() - 1);
}

/// The first place at or before `k` where `path` is at `end`.
proof fn lemma_first_arrival(path: Seq<GridCoord>, end: GridCoord, k: int) -> (first: int)
    requires
        0 <= k < path.len(),
        path[k] == end,
    ensures
        0 <= first <= k,
        path[first] == end,
        forall|i: int| 0 <= i < first ==> path[i] != end,
    decreases k,
{
    if exists|i: int| 0 <= i < k && path[i] == end {
        let i = choose|i: int| 0 <= i < k && path[i] == end;
        lemma_first_arrival(path, end, i)
    } else {
        k
    }
}

/// No route leads to a tile whose neighbours are all blocked, unless it
/// starts on that tile or on one of those neighbours.
pub proof fn lemma_enclosed_unreachable(nav: NavmeshModel, start: GridCoord, end: GridCoord)
    requires
        enclosed(nav, end),
        start != end,
        !four_adjacent(start, end),
    ensures
        !reachable(nav, start, end),
{
    if reachable(nav, start, end) {
        let path = choose|path: Seq<GridCoord>| is_route(nav, start, end, path);
        let first = lemma_first_arrival(path, end, path.len() - 1);
        let before = path[first - 1];
        assert(is_successor(nav, start, end, path[first - 1], path[first - 1 + 1]));
        lemma_successor(nav, start, end, before, end);
        assert(four_adjacent(before, end));
        if first - 1 > 0 {
            assert(is_successor(nav, start, end, path[first - 2], path[first - 2 + 1]));
            lemma_successor(nav, start, end, path[first - 2], before);
            assert(nav.walkable(before));
        }
    }
}

} // verus!
