//! The pathfinder: a search over the four-connected grid.

use crate::lemma_square_le;
use crate::navmesh::components::AnswerModel;
use crate::navmesh::components::Navmesh;
use crate::navmesh::components::NavmeshModel;
use crate::navmesh::components::PathfindAnswer;
use crate::navmesh::components::PathfindRequest;
use crate::navmesh::route::admissible;
use crate::navmesh::route::down;
use crate::navmesh::route::enclosed;
use crate::navmesh::route::four_adjacent;
use crate::navmesh::route::is_route;
use crate::navmesh::route::is_walk;
use crate::navmesh::route::keep_admissible;
use crate::navmesh::route::left;
use crate::navmesh::route::lemma_enclosed_unreachable;
use crate::navmesh::route::lemma_route_is_walk;
use crate::navmesh::route::lemma_route_length;
use crate::navmesh::route::lemma_route_to_self;
use crate::navmesh::route::lemma_trivial_route;
use crate::navmesh::route::reachable;
use crate::navmesh::route::spec_successors;
use crate::navmesh::route::up;
use crate::world::World;
use crate::world::WorldModel;
use crate::GridCoord;
use vstd::prelude::*;

verus! {

/// `root` is the largest integer whose square does not exceed `n`.
pub open spec fn is_floor_sqrt(root: int, n: int) -> bool {
    0 <= root && root * root <= n < (root + 1) * (root + 1)
}

/// `estimate` is the straight-line distance from `node` to `end`, rounded
/// down to a whole number of tiles and capped at `i32::MAX`.
pub open spec fn is_heuristic(node: GridCoord, end: GridCoord, estimate: i32) -> bool {
    let squared = node.spec_distance_squared(end) as int;
    if squared >= i32::MAX * i32::MAX {
        estimate == i32::MAX
    } else {
        is_floor_sqrt(estimate as int, squared)
    }
}

/// What the pathfinder owes for a search from `start` to `end`: a route that
/// visits no tile twice, or `None` where no route exists.
pub open spec fn is_path_answer(
    nav: NavmeshModel,
    start: GridCoord,
    end: GridCoord,
    found: Option<Seq<GridCoord>>,
) -> bool {
    match found {
        Some(path) => is_route(nav, start, end, path) && path.no_duplicates(),
        None => !reachable(nav, start, end),
    }
}

/// The largest integer whose square does not exceed `n`.
pub fn floor_sqrt(n: u64) -> (root: u64)
    ensures
        is_floor_sqrt(root as int, n as int),
        root < 0x1_0000_0000,
{
    let mut low: u64 = 0;
    let mut high: u64 = 0x1_0000_0000;
    while high - low > 1
        invariant
            low < high <= 0x1_0000_0000,
            low * low <= n,
            n < high * high,
        decreases high - low,
    {
        let middle: u64 = low + (high - low) / 2;
        proof {
            lemma_square_le(middle as int, 0xffff_ffff);
        }
        if middle * middle <= n {
            low = middle;
        } else {
            high = middle;
        }
    }
    low
}

/// The straight-line distance from `node` to `end` in whole tiles, by which
/// the search orders the tiles it has yet to visit.
pub fn heuristic(node: GridCoord, end: GridCoord) -> (estimate: i32)
    ensures
        is_heuristic(node, end, estimate),
{
    let dx: usize = if node.x >= end.x { node.x - end.x } else { end.x - node.x };
    let dy: usize = if node.y >= end.y { node.y - end.y } else { end.y - node.y };
    if dx > 0x7fff_ffff || dy > 0x7fff_ffff {
        proof {
            if dx > 0x7fff_ffff {
                lemma_square_le(0x7fff_ffff, dx as int);
            } else {
                lemma_square_le(0x7fff_ffff, dy as int);
            }
            lemma_square_le(0, dx as int);
            lemma_square_le(0, dy as int);
        }
        return i32::MAX;
    }
    proof {
        lemma_square_le(dx as int, 0x7fff_ffff);
        lemma_square_le(dy as int, 0x7fff_ffff);
    }
    let wide_dx: u64 = dx as u64;
    let wide_dy: u64 = dy as u64;
    let root: u64 = floor_sqrt(wide_dx * wide_dx + wide_dy * wide_dy);
    if root >= 0x7fff_ffff {
        proof {
            lemma_square_le(0x7fff_ffff, root as int);
        }
        i32::MAX
    } else {
        proof {
            lemma_square_le(root as int + 1, 0x7fff_ffff);
        }
        root as i32
    }
}

/// Whether the search has arrived: `node` is `end`.
pub fn is_destination(node: GridCoord, end: GridCoord) -> (arrived: bool)
    ensures
        arrived == (node == end),
{
    node == end
}

/// Whether a search from `start` to `end` may enter `c`.
pub fn is_admissible(navmesh: &Navmesh, start: GridCoord, end: GridCoord, c: GridCoord) -> (ok: bool)
    requires
        navmesh.wf(),
    ensures
        ok == admissible(navmesh@, start, end, c),
{
    if c.x < navmesh.tiles.len() && c.y < navmesh.tiles.len() {
        navmesh.tiles[c.x][c.y].walkable || c == end || c == start
    } else {
        false
    }
}

/// The successors of `node` in a search from `start` to `end`, each with the
/// cost of the move.
pub fn successors(navmesh: &Navmesh, start: GridCoord, end: GridCoord, node: GridCoord) -> (next:
    Vec<(GridCoord, i32)>)
    requires
        navmesh.wf(),
    ensures
        next@ == spec_successors(navmesh@, start, end, node),
{
    let above = GridCoord { x: node.x, y: if node.y < usize::MAX { node.y + 1 } else { node.y } };
    let below = GridCoord { x: node.x, y: if node.y > 0 { node.y - 1 } else { node.y } };
    let before = GridCoord { x: if node.x > 0 { node.x - 1 } else { node.x }, y: node.y };
    let after = GridCoord { x: if node.x < usize::MAX { node.x + 1 } else { node.x }, y: node.y };
    let mut next: Vec<(GridCoord, i32)> = Vec::new();
    if is_admissible(navmesh, start, end, above) {
        next.push((above, 0));
    }
    assert(next@ =~= keep_admissible(navmesh@, start, end, up(node)));
    if is_admissible(navmesh, start, end, below) {
        next.push((below, 0));
    }
    assert(next@ =~= keep_admissible(navmesh@, start, end, up(node)) + keep_admissible(
        navmesh@,
        start,
        end,
        down(node),
    ));
    if is_admissible(navmesh, start, end, before) {
        next.push((before, 0));
    }
    assert(next@ =~= keep_admissible(navmesh@, start, end, up(node)) + keep_admissible(
        navmesh@,
        start,
        end,
        down(node),
    ) + keep_admissible(navmesh@, start, end, left(node)));
    if is_admissible(navmesh, start, end, after) {
        next.push((after, 0));
    }
    assert(next@ =~= spec_successors(navmesh@, start, end, node));
    next
}

/// The path that `astar` of the pathfinding crate finds on a grid from
/// `start` to `end`, or `None`: among several routes the one that the order
/// of its search comes to, which is the same whenever the grid, the start
/// and the end are the same. The search draws on no seed, no clock and no
/// hash order: it keeps the tiles in the order in which it met them.
pub uninterp spec fn astar_path(nav: NavmeshModel, start: GridCoord, end: GridCoord) -> Option<
    Seq<GridCoord>,
>;

/// A path, if there is one, as plain values.
pub open spec fn spec_path(found: Option<Vec<GridCoord>>) -> Option<Seq<GridCoord>> {
    match found {
        Some(path) => Some(path@),
        None => None,
    }
}

/// The answer of the pathfinder to `request` on the grid `nav`.
pub open spec fn spec_answer(nav: NavmeshModel, request: PathfindRequest) -> AnswerModel {
    AnswerModel { path: astar_path(nav, request.start, request.end), entity: request.entity }
}

/// `astar` of the pathfinding crate, run from `start` with `successors` as
/// the graph, `heuristic` as the estimate and `is_destination` as the goal.
///
/// Trusted: a returned path starts at `start`, ends at `end`, moves from each
/// waypoint to one of its successors and holds no tile twice; `None` comes
/// back only where no such path exists; and what comes back is `astar_path`
/// of the grid, the start and the end.
#[verifier::external_body]
fn astar_route(navmesh: &Navmesh, start: GridCoord, end: GridCoord) -> (found: Option<
    Vec<GridCoord>,
>)
    requires
        navmesh.wf(),
    ensures
        found matches Some(path) ==> is_route(navmesh@, start, end, path@) && path@.no_duplicates(),
        found is None ==> !reachable(navmesh@, start, end),
        spec_path(found) == astar_path(navmesh@, start, end),
{
    let found = pathfinding::prelude::astar(
        &start,
        |node| successors(navmesh, start, end, *node),
        |node| heuristic(*node, end),
        |node| is_destination(*node, end),
    );
    found.map(|(path, _)| path)
}

/// Searches the grid for a path from `request.start` to `request.end`.
///
/// The path holds every tile visited, the start first and the end last. A
/// request whose start is its end is answered by that one tile. The grid is
/// read and not changed, and the same request on the same grid gets the same
/// answer.
pub fn get_pathing(request: PathfindRequest, navmesh: &Navmesh) -> (found: Option<Vec<GridCoord>>)
    requires
        navmesh.wf(),
    ensures
        spec_path(found) == astar_path(navmesh@, request.start, request.end),
        found is Some <==> reachable(navmesh@, request.start, request.end),
        found matches Some(path) ==> {
            &&& is_route(navmesh@, request.start, request.end, path@)
            &&& path@.no_duplicates()
            &&& is_walk(navmesh@, path@)
            &&& path@.len() >= request.start.manhattan(request.end) + 1
        },
        request.start == request.end ==> (found matches Some(path) && path@ == seq![request.start]),
        enclosed(navmesh@, request.end) && request.start != request.end && !four_adjacent(
            request.start,
            request.end,
        ) ==> found is None,
{
    let found = astar_route(navmesh, request.start, request.end);
    proof {
        if request.start == request.end {
            lemma_trivial_route(navmesh@, request.start);
        }
        if enclosed(navmesh@, request.end) && request.start != request.end && !four_adjacent(
            request.start,
            request.end,
        ) {
            lemma_enclosed_unreachable(navmesh@, request.start, request.end);
        }
        if found is Some {
            let path = found->Some_0@;
            lemma_route_is_walk(navmesh@, request.start, request.end, path);
            lemma_route_length(navmesh@, request.start, request.end, path);
            if request.start == request.end {
                lemma_route_to_self(navmesh@, request.start, path);
            }
        }
    }
    found
}

/// The pathfinder has answered the requests of `before`: `after` holds one
/// more answer for each request, in the order of the requests and behind the
/// answers that were there, each for the pawn that asked and with what the
/// pathfinder owes for its search; no request is left, and nothing else has
/// changed.
pub open spec fn answers_requests(before: WorldModel, after: WorldModel) -> bool {
    &&& after == (WorldModel { requests: Seq::empty(), answers: after.answers, ..before })
    &&& after.answers.len() == before.answers.len() + before.requests.len()
    &&& forall|k: int| 0 <= k < before.answers.len() ==> #[trigger] after.answers[k] == before.answers[k]
    &&& forall|k: int|
        0 <= k < before.requests.len() ==> {
            let request = #[trigger] before.requests[k];
            let answer = after.answers[before.answers.len() + k];
            answer == spec_answer(before.navmesh, request) && is_path_answer(
                before.navmesh,
                request.start,
                request.end,
                answer.path,
            )
        }
}

impl WorldModel {
    /// The world after the pathfinder has answered the requests in flight:
    /// behind the answers that were there stands the answer to each request,
    /// in the order of the requests, and no request is left.
    pub open spec fn listen_for_pathfinding_requests(self) -> WorldModel {
        WorldModel {
            requests: Seq::empty(),
            answers: self.answers + Seq::new(
                self.requests.len(),
                |k: int| spec_answer(self.navmesh, self.requests[k]),
            ),
            ..self
        }
    }
}

/// Answers every request for a path that is in flight.
pub fn listen_for_pathfinding_requests(world: &mut World)
    requires
        old(world).wf(),
    ensures
        final(world).wf(),
        final(world)@ == old(world)@.listen_for_pathfinding_requests(),
        answers_requests(old(world)@, final(world)@),
{
    let count = world.requests.len();
    let ghost answered = old(world)@.answers.len();
    let mut k: usize = 0;
    while k < count
        invariant
            k <= count,
            count == old(world)@.requests.len(),
            answered == old(world)@.answers.len(),
            world.navmesh.wf(),
            *world == (World { answers: world.answers, ..*old(world) }),
            world.answers.len() == answered + k,
            forall|n: int| 0 <= n < answered ==> (#[trigger] world.answers[n])@ == old(world)@.answers[n],
            forall|n: int|
                0 <= n < k ==> {
                    let request = #[trigger] old(world)@.requests[n];
                    let answer = world.answers[answered + n]@;
                    answer == spec_answer(old(world)@.navmesh, request) && is_path_answer(
                        old(world)@.navmesh,
                        request.start,
                        request.end,
                        answer.path,
                    )
                },
        decreases count - k,
    {
        let request = world.requests[k];
        let path = get_pathing(request, &world.navmesh);
        world.answers.push(PathfindAnswer { path, entity: request.entity });
        k += 1;
    }
    world.requests.clear();
    proof {
        assert(world@.pawns =~= old(world)@.pawns);
        assert(world@.requests =~= Seq::empty());
        assert(world@.answers =~= old(world)@.listen_for_pathfinding_requests().answers) by {
            assert forall|n: int| 0 <= n < count implies world@.answers[answered + n]
                == spec_answer(old(world)@.navmesh, old(world)@.requests[n]) by {
                assert(world.answers[answered + n]@ == spec_answer(
                    old(world)@.navmesh,
                    #[trigger] old(world)@.requests[n],
                ));
            }
        }
        old(world)@.lemma_answers_keep_wf(world@.answers);
        (WorldModel { answers: world@.answers, ..old(world)@ }).lemma_requests_keep_wf(
            Seq::empty(),
        );
    }
}

} // verus!
