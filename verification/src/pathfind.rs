//! Grid shortest-path search (A*) between two cells, aware of walls,
//! returning an ordered cell sequence or "no path".
//!
//! Cells are addressed internally by the flat index `y * width + x`.

use vstd::prelude::*;
use crate::map::MapData;
use crate::map::MAX_MAP_DIM;
use crate::vec2::Vec2i;
use crate::vec2::spec_manhattan;

verus! {

/// Two cells are adjacent when they are one orthogonal step apart.
pub open spec fn adjacent(a: Vec2i, b: Vec2i) -> bool {
    spec_manhattan(a, b) == 1
}

/// A wall-free walk on the map: at least one cell, every cell open,
/// consecutive cells adjacent.
pub open spec fn is_path(map: &MapData, p: Seq<Vec2i>) -> bool {
    &&& p.len() >= 1
    &&& forall|i: int| 0 <= i < p.len() ==> map.open_cell(#[trigger] p[i])
    &&& forall|i: int| 0 <= i < p.len() - 1 ==> adjacent(#[trigger] p[i], p[i + 1])
}

/// A wall-free walk from `start` to `target` inclusive.
pub open spec fn valid_path(map: &MapData, start: Vec2i, target: Vec2i, p: Seq<Vec2i>) -> bool {
    is_path(map, p) && p[0] == start && p[p.len() - 1] == target
}

/// The cell of flat index `i` on a grid `w` cells wide.
pub open spec fn cell_of(i: int, w: int) -> Vec2i {
    Vec2i { x: (i % w) as i32, y: (i / w) as i32 }
}

/// The flat index of cell `p` on a grid `w` cells wide.
pub open spec fn idx_of(p: Vec2i, w: int) -> int {
    p.y * w + p.x
}

/// Flat indices below `w * h` decode to on-grid cells and encode back.
proof fn lemma_cell_idx(w: int, h: int, i: int)
    requires
        1 <= w <= MAX_MAP_DIM,
        0 <= h <= MAX_MAP_DIM,
        0 <= i < w * h,
    ensures
        0 <= i % w < w,
        0 <= i / w < h,
        idx_of(cell_of(i, w), w) == i,
        cell_of(i, w).x == i % w,
        cell_of(i, w).y == i / w,
{
    assert(0 <= i % w < w && 0 <= i / w < h && (i / w) * w + i % w == i) by (nonlinear_arith)
        requires
            1 <= w,
            0 <= h,
            0 <= i < w * h,
    ;
}

/// On-grid cells encode to flat indices below `w * h` and decode back.
proof fn lemma_idx_cell(w: int, h: int, p: Vec2i)
    requires
        1 <= w <= MAX_MAP_DIM,
        0 <= h <= MAX_MAP_DIM,
        0 <= p.x < w,
        0 <= p.y < h,
    ensures
        0 <= idx_of(p, w) < w * h,
        cell_of(idx_of(p, w), w) == p,
{
    assert(0 <= p.y * w + p.x < w * h && (p.y * w + p.x) % w == p.x && (p.y * w + p.x) / w
        == p.y) by (nonlinear_arith)
        requires
            1 <= w,
            0 <= p.x < w,
            0 <= p.y < h,
    ;
}

/// How many entries of a boolean sequence are set.
spec fn count_true(s: Seq<bool>) -> int
    decreases s.len(),
{
    if s.len() == 0 {
        0
    } else {
        count_true(s.drop_last()) + if s.last() {
            1int
        } else {
            0int
        }
    }
}

proof fn lemma_count_true_le(s: Seq<bool>)
    ensures
        0 <= count_true(s) <= s.len(),
    decreases s.len(),
{
    if s.len() > 0 {
        lemma_count_true_le(s.drop_last());
    }
}

proof fn lemma_count_true_set(s: Seq<bool>, i: int)
    requires
        0 <= i < s.len(),
        !s[i],
    ensures
        count_true(s.update(i, true)) == count_true(s) + 1,
        count_true(s) < s.len(),
    decreases s.len(),
{
    if i == s.len() - 1 {
        assert(s.update(i, true).drop_last() =~= s.drop_last());
        assert(s.update(i, true).last());
    } else {
        lemma_count_true_set(s.drop_last(), i);
        assert(s.update(i, true).drop_last() =~= s.drop_last().update(i, true));
        assert(s.update(i, true).last() == s.last());
    }
    lemma_count_true_le(s.update(i, true));
}

/// A frontier entry of the search: a cell with its path cost so far (`g`)
/// and its heuristic total (`f = g + h`).
#[derive(Clone, Copy, Debug)]
struct Node {
    f: u64,
    g: u64,
    idx: usize,
}

/// The core bookkeeping invariant of the search: array shapes, the start
/// cell at cost zero, visited cells open, closed cells visited, parent
/// chains that step one closed cell back at a time, and cost bounds tied to
/// the number of closed cells.
spec fn search_inv(
    map: &MapData,
    start: Vec2i,
    gs: Seq<u64>,
    par: Seq<usize>,
    cl: Seq<bool>,
) -> bool {
    let w = map.width as int;
    let n = map.width * map.height;
    &&& gs.len() == n
    &&& par.len() == n
    &&& cl.len() == n
    &&& 0 <= idx_of(start, w) < n
    &&& gs[idx_of(start, w)] == 0
    &&& forall|i: int|
        0 <= i < n && #[trigger] gs[i] < u64::MAX ==> map.open_cell(cell_of(i, w))
    &&& forall|i: int| 0 <= i < n && #[trigger] cl[i] ==> gs[i] < u64::MAX
    &&& forall|i: int|
        0 <= i < n && gs[i] < u64::MAX && i != idx_of(start, w) ==> {
            &&& 0 <= #[trigger] par[i] < n
            &&& gs[par[i] as int] < u64::MAX
            &&& cl[par[i] as int]
            &&& gs[par[i] as int] + 1 == gs[i]
            &&& adjacent(cell_of(par[i] as int, w), cell_of(i, w))
        }
    &&& forall|i: int| 0 <= i < n && #[trigger] gs[i] < u64::MAX ==> gs[i] <= count_true(cl)
    &&& forall|i: int| 0 <= i < n && #[trigger] cl[i] ==> gs[i] < count_true(cl)
}

/// The heuristic: Manhattan distance from a cell to the target.
spec fn h_of(i: int, w: int, target: Vec2i) -> int {
    spec_manhattan(cell_of(i, w), target)
}

/// Every frontier entry names a visited on-grid cell, records a cost no
/// better than the current one, and carries `f = g + h`.
spec fn open_ok(map: &MapData, target: Vec2i, open_s: Seq<Node>, gs: Seq<u64>) -> bool {
    let w = map.width as int;
    let n = map.width * map.height;
    forall|j: int|
        0 <= j < open_s.len() ==> {
            &&& 0 <= #[trigger] open_s[j].idx < n
            &&& gs[open_s[j].idx as int] < u64::MAX
            &&& gs[open_s[j].idx as int] <= open_s[j].g
            &&& open_s[j].f == open_s[j].g + h_of(open_s[j].idx as int, w, target)
        }
}

/// Some frontier entry names flat index `i` with exactly cost `g`.
spec fn open_has_best(s: Seq<Node>, i: int, g: u64) -> bool {
    exists|j: int| 0 <= j < s.len() && s[j].idx == i && s[j].g == g
}

/// Every visited cell not yet closed still has a frontier entry carrying
/// its current (best) cost.
spec fn frontier_ok(n: int, open_s: Seq<Node>, gs: Seq<u64>, cl: Seq<bool>) -> bool {
    forall|i: int|
        0 <= i < n && #[trigger] gs[i] < u64::MAX && !(#[trigger] cl[i]) ==> open_has_best(
            open_s,
            i,
            gs[i],
        )
}

/// Every open neighbor of a closed cell has been visited, at a cost at
/// most one step beyond the closed cell's.
spec fn closure_ok(map: &MapData, gs: Seq<u64>, cl: Seq<bool>) -> bool {
    let w = map.width as int;
    let n = map.width * map.height;
    forall|i: int, b: Vec2i|
        0 <= i < n && #[trigger] cl[i] && #[trigger] map.open_cell(b) && adjacent(
            cell_of(i, w),
            b,
        ) ==> gs[idx_of(b, w)] < u64::MAX && gs[idx_of(b, w)] <= gs[i] + 1
}

/// Every closed cell's recorded cost undercuts every wall-free walk to it
/// from the start.
spec fn closed_opt(map: &MapData, start: Vec2i, gs: Seq<u64>, cl: Seq<bool>) -> bool {
    let w = map.width as int;
    let n = map.width * map.height;
    forall|c: int, q: Seq<Vec2i>|
        0 <= c < n && #[trigger] cl[c] && #[trigger] valid_path(map, start, cell_of(c, w), q)
            ==> q.len() - 1 >= gs[c]
}

/// Closed cells were expanded in nondecreasing `f` order: every closed
/// cell's `g + h` lies below every current frontier entry's `f`.
spec fn pop_bound(map: &MapData, target: Vec2i, gs: Seq<u64>, cl: Seq<bool>, open_s: Seq<Node>) -> bool {
    let w = map.width as int;
    let n = map.width * map.height;
    forall|c: int, j: int|
        0 <= c < n && #[trigger] cl[c] && 0 <= j < open_s.len() ==> gs[c] + h_of(c, w, target)
            <= #[trigger] open_s[j].f
}

/// The start cell is the first cell ever closed.
spec fn start_closed_first(map: &MapData, start: Vec2i, cl: Seq<bool>) -> bool {
    let w = map.width as int;
    let n = map.width * map.height;
    !cl[idx_of(start, w)] ==> forall|c: int| 0 <= c < n ==> !(#[trigger] cl[c])
}

/// Like `closure_ok`, but one newly closed cell is exempted while its
/// neighbors are still being expanded.
spec fn closure_ok_except(map: &MapData, gs: Seq<u64>, cl: Seq<bool>, u: int) -> bool {
    let w = map.width as int;
    let n = map.width * map.height;
    forall|i: int, b: Vec2i|
        0 <= i < n && i != u && #[trigger] cl[i] && #[trigger] map.open_cell(b) && adjacent(
            cell_of(i, w),
            b,
        ) ==> gs[idx_of(b, w)] < u64::MAX && gs[idx_of(b, w)] <= gs[i] + 1
}

/// Manhattan distance, and hence adjacency, is symmetric.
proof fn lemma_adjacent_sym(a: Vec2i, b: Vec2i)
    ensures
        spec_manhattan(a, b) == spec_manhattan(b, a),
{
}

/// An on-grid cell adjacent to the cell of index `u` is one of its four
/// orthogonal neighbors, whose flat index differs from `u` by one column
/// or one row.
proof fn lemma_neighbors_cover(w: int, h: int, u: int, b: Vec2i)
    requires
        1 <= w <= MAX_MAP_DIM,
        1 <= h <= MAX_MAP_DIM,
        0 <= u < w * h,
        0 <= b.x < w,
        0 <= b.y < h,
        adjacent(cell_of(u, w), b),
    ensures
        0 <= idx_of(b, w) < w * h,
        ({
            let cu = cell_of(u, w);
            ||| (b.x == cu.x + 1 && b.y == cu.y && idx_of(b, w) == u + 1)
            ||| (b.x == cu.x - 1 && b.y == cu.y && idx_of(b, w) == u - 1)
            ||| (b.x == cu.x && b.y == cu.y + 1 && idx_of(b, w) == u + w)
            ||| (b.x == cu.x && b.y == cu.y - 1 && idx_of(b, w) == u - w)
        }),
{
    lemma_cell_idx(w, h, u);
    lemma_idx_cell(w, h, b);
    let cu = cell_of(u, w);
    assert(spec_manhattan(cu, b) == 1);
    assert((b.y + 1) * w == b.y * w + w) by (nonlinear_arith);
    assert((b.y - 1) * w == b.y * w - w) by (nonlinear_arith);
}

/// The Manhattan distance obeys the triangle inequality.
proof fn lemma_manhattan_triangle(a: Vec2i, b: Vec2i, c: Vec2i)
    ensures
        spec_manhattan(a, c) <= spec_manhattan(a, b) + spec_manhattan(b, c),
{
}

/// Recording an improved cost `gu + 1` and parent `u` for the unclosed
/// neighbor `bi`, together with a matching frontier entry, preserves the
/// search invariants.
#[verifier::rlimit(100)]
proof fn lemma_relax_inv(
    map: &MapData,
    start: Vec2i,
    target: Vec2i,
    u: usize,
    gu: u64,
    bi: usize,
    gs0: Seq<u64>,
    par0: Seq<usize>,
    cl: Seq<bool>,
    open0: Seq<Node>,
    gs: Seq<u64>,
    par: Seq<usize>,
    open_s: Seq<Node>,
)
    requires
        map.wf(),
        map.width >= 1,
        search_inv(map, start, gs0, par0, cl),
        open_ok(map, target, open0, gs0),
        frontier_ok(map.width * map.height, open0, gs0, cl),
        pop_bound(map, target, gs0, cl, open0),
        closed_opt(map, start, gs0, cl),
        u < map.width * map.height,
        bi < map.width * map.height,
        u != bi,
        cl[u as int],
        !cl[bi as int],
        gs0[u as int] == gu,
        gu + 1 < gs0[bi as int],
        gu + 1 < u64::MAX,
        map.open_cell(cell_of(bi as int, map.width as int)),
        adjacent(cell_of(u as int, map.width as int), cell_of(bi as int, map.width as int)),
        forall|c: int|
            0 <= c < map.width * map.height && #[trigger] cl[c] ==> gs0[c] + h_of(
                c,
                map.width as int,
                target,
            ) <= gu + 1 + h_of(bi as int, map.width as int, target),
        gs == gs0.update(bi as int, (gu + 1) as u64),
        par == par0.update(bi as int, u),
        open_s.len() == open0.len() + 1,
        forall|j: int| 0 <= j < open0.len() ==> open_s[j] == open0[j],
        0 <= h_of(bi as int, map.width as int, target),
        gu + 1 + h_of(bi as int, map.width as int, target) <= u64::MAX,
        open_s[open_s.len() - 1] == (Node {
            f: (gu + 1 + h_of(bi as int, map.width as int, target)) as u64,
            g: (gu + 1) as u64,
            idx: bi,
        }),
    ensures
        search_inv(map, start, gs, par, cl),
        open_ok(map, target, open_s, gs),
        frontier_ok(map.width * map.height, open_s, gs, cl),
        pop_bound(map, target, gs, cl, open_s),
        closed_opt(map, start, gs, cl),
        gs[bi as int] < u64::MAX,
        gs[bi as int] <= gu + 1,
        forall|i: int| 0 <= i < map.width * map.height && i != bi ==> gs[i] == gs0[i],
{
    let w = map.width as int;
    let n = map.width * map.height;
    let si = idx_of(start, w);
    // The start cell keeps cost 0, so it is never the improved cell.
    assert(bi as int != si);
    assert forall|i: int| 0 <= i < n && #[trigger] gs[i] < u64::MAX implies map.open_cell(
        cell_of(i, w),
    ) by {
        if i != bi as int {
            assert(gs0[i] == gs[i]);
        }
    }
    assert forall|i: int| 0 <= i < n && #[trigger] cl[i] implies gs[i] < u64::MAX by {
        assert(i != bi as int);
        assert(gs0[i] < u64::MAX);
    }
    assert forall|i: int|
        0 <= i < n && gs[i] < u64::MAX && i != si implies ({
        &&& 0 <= #[trigger] par[i] < n
        &&& gs[par[i] as int] < u64::MAX
        &&& cl[par[i] as int]
        &&& gs[par[i] as int] + 1 == gs[i]
        &&& adjacent(cell_of(par[i] as int, w), cell_of(i, w))
    }) by {
        if i == bi as int {
            assert(par[i] == u);
            assert(gs[u as int] == gu);
        } else {
            assert(gs[i] == gs0[i]);
            assert(par[i] == par0[i]);
            let p = par0[i] as int;
            assert(cl[p]);
            assert(p != bi as int);
            assert(gs[p] == gs0[p]);
        }
    }
    assert forall|i: int| 0 <= i < n && #[trigger] gs[i] < u64::MAX implies gs[i] <= count_true(
        cl,
    ) by {
        if i != bi as int {
            assert(gs0[i] <= count_true(cl));
        } else {
            assert(gs0[u as int] < count_true(cl));
        }
    }
    assert forall|i: int| 0 <= i < n && #[trigger] cl[i] implies gs[i] < count_true(cl) by {
        assert(i != bi as int);
        assert(gs[i] == gs0[i]);
    }
    assert forall|j: int|
        0 <= j < open_s.len() implies (0 <= #[trigger] open_s[j].idx < n && gs[open_s[j].idx as int]
        < u64::MAX && gs[open_s[j].idx as int] <= open_s[j].g && open_s[j].f == open_s[j].g + h_of(
        open_s[j].idx as int,
        w,
        target,
    )) by {
        if j < open_s.len() - 1 {
            assert(open_s[j] == open0[j]);
            if open_s[j].idx as int != bi as int {
                assert(gs[open_s[j].idx as int] == gs0[open_s[j].idx as int]);
            } else {
                assert(gs0[bi as int] <= open0[j].g);
            }
        }
    }
    assert forall|i: int|
        0 <= i < n && #[trigger] gs[i] < u64::MAX && !(#[trigger] cl[i]) implies open_has_best(
        open_s,
        i,
        gs[i],
    ) by {
        if i == bi as int {
            assert(open_s[open_s.len() - 1].idx == bi && open_s[open_s.len() - 1].g == gs[i]);
        } else {
            assert(gs0[i] < u64::MAX);
            let j = choose|j: int|
                0 <= j < open0.len() && open0[j].idx == i && open0[j].g == gs0[i];
            assert(open_s[j].idx == i && open_s[j].g == gs[i]);
        }
    }
    assert forall|c: int, j: int|
        0 <= c < n && #[trigger] cl[c] && 0 <= j < open_s.len() implies gs[c] + h_of(c, w, target)
        <= #[trigger] open_s[j].f by {
        assert(gs[c] == gs0[c]);
        if j < open_s.len() - 1 {
            assert(open_s[j] == open0[j]);
        } else {
            assert(open_s[j].f == gu + 1 + h_of(bi as int, w, target));
        }
    }
    assert forall|c: int, q: Seq<Vec2i>|
        0 <= c < n && #[trigger] cl[c] && #[trigger] valid_path(map, start, cell_of(c, w), q)
        implies q.len() - 1 >= gs[c] by {
        assert(gs[c] == gs0[c]);
    }
}

/// Relaxes one neighbor `bi` of the cell `u` just closed with cost `gu`:
/// if `bi` is unclosed and the step improves its cost, record the better
/// cost and parent and push a frontier entry; otherwise change nothing.
/// Either way the neighbor ends up visited at a cost of at most `gu + 1`.
#[verifier::rlimit(100)]
fn consider_neighbor(
    map: &MapData,
    target: Vec2i,
    u: usize,
    gu: u64,
    bi: usize,
    g_score: &mut Vec<u64>,
    parent: &mut Vec<usize>,
    closed: &Vec<bool>,
    open: &mut Vec<Node>,
    start: Ghost<Vec2i>,
)
    requires
        map.wf(),
        map.width >= 1,
        search_inv(map, start@, old(g_score)@, old(parent)@, closed@),
        open_ok(map, target, old(open)@, old(g_score)@),
        frontier_ok(map.width * map.height, old(open)@, old(g_score)@, closed@),
        pop_bound(map, target, old(g_score)@, closed@, old(open)@),
        closed_opt(map, start@, old(g_score)@, closed@),
        u < map.width * map.height,
        bi < map.width * map.height,
        closed@[u as int],
        old(g_score)@[u as int] == gu,
        map.open_cell(cell_of(bi as int, map.width as int)),
        adjacent(cell_of(u as int, map.width as int), cell_of(bi as int, map.width as int)),
        forall|c: int|
            0 <= c < map.width * map.height && #[trigger] closed@[c] ==> old(g_score)@[c] + h_of(
                c,
                map.width as int,
                target,
            ) <= gu + h_of(u as int, map.width as int, target),
    ensures
        search_inv(map, start@, final(g_score)@, final(parent)@, closed@),
        open_ok(map, target, final(open)@, final(g_score)@),
        frontier_ok(map.width * map.height, final(open)@, final(g_score)@, closed@),
        pop_bound(map, target, final(g_score)@, closed@, final(open)@),
        closed_opt(map, start@, final(g_score)@, closed@),
        final(g_score)@[bi as int] < u64::MAX,
        final(g_score)@[bi as int] <= gu + 1,
        final(g_score)@[bi as int] <= old(g_score)@[bi as int],
        closed@[bi as int] ==> final(g_score)@[bi as int] == old(g_score)@[bi as int],
        forall|i: int|
            0 <= i < map.width * map.height && i != bi ==> final(g_score)@[i] == old(
                g_score,
            )@[i],
{
    let ghost w = map.width as int;
    let ghost n = map.width * map.height;
    let ghost si = idx_of(start@, w);
    proof {
        lemma_cell_idx(w, map.height as int, bi as int);
        lemma_cell_idx(w, map.height as int, u as int);
        assert(n <= MAX_MAP_DIM * MAX_MAP_DIM) by (nonlinear_arith)
            requires
                n == map.width * map.height,
                map.width <= MAX_MAP_DIM,
                map.height <= MAX_MAP_DIM,
        ;
        // The closed-cost bound keeps the improved cost within range.
        assert(gu < count_true(closed@));
        lemma_count_true_le(closed@);
        // Adjacent cells are distinct, so `u` and `bi` differ.
        if u == bi {
            assert(spec_manhattan(cell_of(u as int, w), cell_of(u as int, w)) == 0);
        }
        // One step changes the heuristic by at most one.
        lemma_manhattan_triangle(cell_of(u as int, w), cell_of(bi as int, w), target);
        assert(h_of(u as int, w, target) <= 1 + h_of(bi as int, w, target));
    }
    if !closed[bi] && gu + 1 < g_score[bi] {
        let tentative = gu + 1;
        let hval = cell_index_to_pos(bi, map.width).manhattan(target);
        let ghost gs0 = g_score@;
        let ghost par0 = parent@;
        let ghost open0 = open@;
        g_score.set(bi, tentative);
        parent.set(bi, u);
        open.push(Node { f: tentative + (hval as u64), g: tentative, idx: bi });
        proof {
            assert(g_score@ =~= gs0.update(bi as int, tentative));
            assert(parent@ =~= par0.update(bi as int, u));
            assert(hval == h_of(bi as int, w, target));
            assert forall|c: int|
                0 <= c < n && #[trigger] closed@[c] implies gs0[c] + h_of(c, w, target) <= gu + 1
                + h_of(bi as int, w, target) by {
                assert(gs0[c] + h_of(c, w, target) <= gu + h_of(u as int, w, target));
            }
            lemma_relax_inv(
                map,
                start@,
                target,
                u,
                gu,
                bi,
                gs0,
                par0,
                closed@,
                open0,
                g_score@,
                parent@,
                open@,
            );
        }
    } else {
        proof {
            if !closed@[bi as int] {
                // Not improved: the neighbor already carries a cost no worse
                // than this step, so it is visited.
                assert(g_score@[bi as int] <= gu + 1 < u64::MAX);
            } else {
                // A closed neighbor was expanded at an `f` no larger than
                // this cell's, so its cost also stays within one step.
                assert(g_score@[bi as int] + h_of(bi as int, w, target) <= gu + h_of(
                    u as int,
                    w,
                    target,
                ));
            }
        }
    }
}

/// The cell of a flat index, as executable code.
fn cell_index_to_pos(i: usize, w: usize) -> (r: Vec2i)
    requires
        1 <= w <= MAX_MAP_DIM,
        i < MAX_MAP_DIM * MAX_MAP_DIM,
    ensures
        r == cell_of(i as int, w as int),
{
    Vec2i { x: (i % w) as i32, y: (i / w) as i32 }
}

/// Expands the cell `u`, which has just been closed with cost `gu`:
/// relaxes its up-to-four orthogonal neighbors, after which every open
/// neighbor of every closed cell is visited again.
#[verifier::rlimit(100)]
fn expand_cell(
    map_data: &MapData,
    target: Vec2i,
    u: usize,
    gu: u64,
    g_score: &mut Vec<u64>,
    parent: &mut Vec<usize>,
    closed: &Vec<bool>,
    open: &mut Vec<Node>,
    start: Ghost<Vec2i>,
)
    requires
        map_data.wf(),
        map_data.width >= 1,
        map_data.height >= 1,
        search_inv(map_data, start@, old(g_score)@, old(parent)@, closed@),
        open_ok(map_data, target, old(open)@, old(g_score)@),
        frontier_ok(map_data.width * map_data.height, old(open)@, old(g_score)@, closed@),
        pop_bound(map_data, target, old(g_score)@, closed@, old(open)@),
        closed_opt(map_data, start@, old(g_score)@, closed@),
        closure_ok_except(map_data, old(g_score)@, closed@, u as int),
        u < map_data.width * map_data.height,
        closed@[u as int],
        old(g_score)@[u as int] == gu,
        forall|c: int|
            0 <= c < map_data.width * map_data.height && #[trigger] closed@[c] ==> old(
                g_score,
            )@[c] + h_of(c, map_data.width as int, target) <= gu + h_of(
                u as int,
                map_data.width as int,
                target,
            ),
    ensures
        search_inv(map_data, start@, final(g_score)@, final(parent)@, closed@),
        open_ok(map_data, target, final(open)@, final(g_score)@),
        frontier_ok(map_data.width * map_data.height, final(open)@, final(g_score)@, closed@),
        pop_bound(map_data, target, final(g_score)@, closed@, final(open)@),
        closed_opt(map_data, start@, final(g_score)@, closed@),
        closure_ok(map_data, final(g_score)@, closed@),
{
    let ghost wi = map_data.width as int;
    let ghost hi = map_data.height as int;
    let ghost n = map_data.width * map_data.height;
    let w = map_data.width;
    let h = map_data.height;
    proof {
        lemma_cell_idx(wi, hi, u as int);
        assert(n <= MAX_MAP_DIM * MAX_MAP_DIM) by (nonlinear_arith)
            requires
                n == map_data.width * map_data.height,
                map_data.width <= MAX_MAP_DIM,
                map_data.height <= MAX_MAP_DIM,
        ;
    }
    let ux = u % w;
    let uy = u / w;
    let ghost cu = cell_of(u as int, wi);
    proof {
        assert(cu.x == ux as int && cu.y == uy as int);
        assert(u as int == uy as int * wi + ux as int);
        assert((uy as int + 1) * wi == uy as int * wi + wi) by (nonlinear_arith);
        assert((uy as int - 1) * wi == uy as int * wi - wi) by (nonlinear_arith);
        assert(uy as int * wi >= 0) by (nonlinear_arith)
            requires
                uy as int >= 0,
                wi >= 1,
        ;
        if uy >= 1 {
            assert(uy as int * wi >= wi) by (nonlinear_arith)
                requires
                    uy as int >= 1,
                    wi >= 1,
            ;
        }
    }
    let ghost right_open: bool = ux + 1 < w && map_data.open_cell(
        Vec2i { x: (ux + 1) as i32, y: uy as i32 },
    );
    if ux + 1 < w {
        proof {
            lemma_idx_cell(wi, hi, Vec2i { x: (ux + 1) as i32, y: uy as i32 });
        }
        if !map_data.is_wall(ux + 1, uy) {
            consider_neighbor(
                map_data,
                target,
                u,
                gu,
                u + 1,
                g_score,
                parent,
                closed,
                open,
                start,
            );
        }
    }
    let ghost left_open: bool = ux >= 1 && map_data.open_cell(
        Vec2i { x: (ux - 1) as i32, y: uy as i32 },
    );
    if ux >= 1 {
        proof {
            lemma_idx_cell(wi, hi, Vec2i { x: (ux - 1) as i32, y: uy as i32 });
        }
        if !map_data.is_wall(ux - 1, uy) {
            consider_neighbor(
                map_data,
                target,
                u,
                gu,
                u - 1,
                g_score,
                parent,
                closed,
                open,
                start,
            );
        }
    }
    let ghost down_open: bool = uy + 1 < h && map_data.open_cell(
        Vec2i { x: ux as i32, y: (uy + 1) as i32 },
    );
    if uy + 1 < h {
        proof {
            lemma_idx_cell(wi, hi, Vec2i { x: ux as i32, y: (uy + 1) as i32 });
        }
        if !map_data.is_wall(ux, uy + 1) {
            consider_neighbor(
                map_data,
                target,
                u,
                gu,
                u + w,
                g_score,
                parent,
                closed,
                open,
                start,
            );
        }
    }
    let ghost up_open: bool = uy >= 1 && map_data.open_cell(
        Vec2i { x: ux as i32, y: (uy - 1) as i32 },
    );
    if uy >= 1 {
        proof {
            lemma_idx_cell(wi, hi, Vec2i { x: ux as i32, y: (uy - 1) as i32 });
        }
        if !map_data.is_wall(ux, uy - 1) {
            consider_neighbor(
                map_data,
                target,
                u,
                gu,
                u - w,
                g_score,
                parent,
                closed,
                open,
                start,
            );
        }
    }
    proof {
        // Every open neighbor of the newly closed cell is now visited at a
        // cost within one step, restoring the full closure invariant.
        assert forall|i: int, b: Vec2i|
            0 <= i < n && #[trigger] closed@[i] && #[trigger] map_data.open_cell(b) && adjacent(
                cell_of(i, wi),
                b,
            ) implies g_score@[idx_of(b, wi)] < u64::MAX && g_score@[idx_of(b, wi)] <= g_score@[i]
            + 1 by {
            assert(g_score@[i] == old(g_score)@[i]);
            if i == u as int {
                lemma_neighbors_cover(wi, hi, u as int, b);
                if b.x == cu.x + 1 && b.y == cu.y {
                    assert(right_open);
                } else if b.x == cu.x - 1 && b.y == cu.y {
                    assert(left_open);
                } else if b.x == cu.x && b.y == cu.y + 1 {
                    assert(down_open);
                } else {
                    assert(up_open);
                }
            } else {
                lemma_idx_cell(wi, hi, b);
                assert(old(g_score)@[idx_of(b, wi)] < u64::MAX);
                assert(g_score@[idx_of(b, wi)] <= old(g_score)@[idx_of(b, wi)]);
            }
        }
    }
}

/// Walks the parent chain back from the target and returns the path in
/// start-to-target order. Its length is the recorded cost plus one.
#[verifier::rlimit(100)]
fn reconstruct_path(
    map: &MapData,
    start: Vec2i,
    target: Vec2i,
    ti: usize,
    g_score: &Vec<u64>,
    parent: &Vec<usize>,
    closed: Ghost<Seq<bool>>,
) -> (r: Vec<Vec2i>)
    requires
        map.wf(),
        map.width >= 1,
        search_inv(map, start, g_score@, parent@, closed@),
        map.contains_pos(start),
        map.contains_pos(target),
        ti < map.width * map.height,
        ti == idx_of(target, map.width as int),
        g_score@[ti as int] < u64::MAX,
    ensures
        valid_path(map, start, target, r@),
        r@.len() == g_score@[ti as int] + 1,
{
    let w = map.width;
    let ghost wi = w as int;
    let ghost hi = map.height as int;
    let ghost n = map.width * map.height;
    let ghost si = idx_of(start, wi);
    proof {
        lemma_idx_cell(wi, hi, start);
        lemma_idx_cell(wi, hi, target);
        assert(n <= MAX_MAP_DIM * MAX_MAP_DIM) by (nonlinear_arith)
            requires
                n == map.width * map.height,
                map.width <= MAX_MAP_DIM,
                map.height <= MAX_MAP_DIM,
        ;
    }
    let start_i = (start.y as usize) * w + (start.x as usize);
    let mut rev: Vec<Vec2i> = Vec::new();
    rev.push(cell_index_to_pos(ti, w));
    let mut cur: usize = ti;
    while cur != start_i
        invariant
            map.wf(),
            map.width >= 1,
            w == map.width,
            wi == w as int,
            hi == map.height as int,
            n == map.width * map.height,
            n <= MAX_MAP_DIM * MAX_MAP_DIM,
            si == idx_of(start, wi),
            start_i == si,
            0 <= si < n,
            cell_of(si, wi) == start,
            search_inv(map, start, g_score@, parent@, closed@),
            cur < n,
            g_score@[cur as int] < u64::MAX,
            rev@.len() >= 1,
            rev@.len() == g_score@[ti as int] - g_score@[cur as int] + 1,
            rev@[0] == target,
            rev@.last() == cell_of(cur as int, wi),
            forall|k: int| 0 <= k < rev@.len() ==> map.open_cell(#[trigger] rev@[k]),
            forall|k: int| 0 <= k < rev@.len() - 1 ==> adjacent(#[trigger] rev@[k], rev@[k + 1]),
        decreases g_score@[cur as int],
    {
        let ghost prev = rev@;
        let ghost prev_cur = cur;
        proof {
            // `cur` is visited and differs from the start, so the parent
            // chain steps one closed cell back with one less cost.
            assert(cur as int != si);
            assert(g_score@[cur as int] < u64::MAX);
        }
        let p = parent[cur];
        proof {
            lemma_cell_idx(wi, hi, p as int);
            lemma_adjacent_sym(cell_of(p as int, wi), cell_of(cur as int, wi));
        }
        rev.push(cell_index_to_pos(p, w));
        cur = p;
        proof {
            assert(rev@ == prev.push(cell_of(p as int, wi)));
            assert forall|k: int| 0 <= k < rev@.len() implies map.open_cell(
                #[trigger] rev@[k],
            ) by {
                if k < prev.len() {
                    assert(rev@[k] == prev[k]);
                } else {
                    assert(rev@[k] == cell_of(p as int, wi));
                }
            }
            assert forall|k: int| 0 <= k < rev@.len() - 1 implies adjacent(
                #[trigger] rev@[k],
                rev@[k + 1],
            ) by {
                if k < prev.len() - 1 {
                    assert(rev@[k] == prev[k]);
                    assert(rev@[k + 1] == prev[k + 1]);
                } else {
                    assert(rev@[k] == prev.last());
                    assert(rev@[k + 1] == cell_of(p as int, wi));
                    assert(adjacent(cell_of(p as int, wi), cell_of(prev_cur as int, wi)));
                }
            }
        }
    }
    let ghost total = rev@.len();
    let mut out: Vec<Vec2i> = Vec::new();
    let mut j = rev.len();
    while j > 0
        invariant
            j <= total,
            total == rev@.len(),
            out@.len() == total - j,
            forall|k: int| 0 <= k < out@.len() ==> #[trigger] out@[k] == rev@[total - 1 - k],
        decreases j,
    {
        j = j - 1;
        let c = rev[j];
        out.push(c);
    }
    proof {
        assert(out@[0] == rev@[total - 1]);
        assert(out@[out@.len() - 1] == rev@[0]);
        assert forall|k: int| 0 <= k < out@.len() implies map.open_cell(#[trigger] out@[k]) by {
            assert(out@[k] == rev@[total - 1 - k]);
        }
        assert forall|k: int| 0 <= k < out@.len() - 1 implies adjacent(
            #[trigger] out@[k],
            out@[k + 1],
        ) by {
            assert(out@[k] == rev@[total - 1 - k]);
            assert(out@[k + 1] == rev@[total - 1 - (k + 1)]);
            assert(adjacent(rev@[total - 2 - k], rev@[total - 1 - k]));
            lemma_adjacent_sym(rev@[total - 2 - k], rev@[total - 1 - k]);
        }
    }
    out
}

/// No walk along open cells escapes the closed region once the search has
/// exhausted its frontier: every cell of `q` is visited and closed.
proof fn lemma_path_stays_closed(
    map: &MapData,
    gs: Seq<u64>,
    cl: Seq<bool>,
    start: Vec2i,
    q: Seq<Vec2i>,
    k: int,
)
    requires
        map.wf(),
        map.width >= 1,
        gs.len() == map.width * map.height,
        cl.len() == map.width * map.height,
        forall|i: int| 0 <= i < map.width * map.height && #[trigger] gs[i] < u64::MAX ==> cl[i],
        closure_ok(map, gs, cl),
        map.contains_pos(start),
        gs[idx_of(start, map.width as int)] < u64::MAX,
        is_path(map, q),
        q[0] == start,
        0 <= k < q.len(),
    ensures
        map.contains_pos(q[k]),
        0 <= idx_of(q[k], map.width as int) < map.width * map.height,
        gs[idx_of(q[k], map.width as int)] < u64::MAX,
        cl[idx_of(q[k], map.width as int)],
    decreases k,
{
    let wi = map.width as int;
    let hi = map.height as int;
    assert(map.open_cell(q[k]));
    lemma_idx_cell(wi, hi, q[k]);
    if k == 0 {
        assert(q[0] == start);
    } else {
        lemma_path_stays_closed(map, gs, cl, start, q, k - 1);
        let pi = idx_of(q[k - 1], wi);
        lemma_idx_cell(wi, hi, q[k - 1]);
        assert(adjacent(q[k - 1], q[k]));
        assert(cell_of(pi, wi) == q[k - 1]);
        assert(gs[idx_of(q[k], wi)] < u64::MAX);
    }
}

/// Bounds check as executable code over a cell value.
fn check_in_bounds(p: Vec2i, w: usize, h: usize) -> (r: bool)
    ensures
        r == (0 <= p.x < w && 0 <= p.y < h),
{
    p.x >= 0 && (p.x as usize) < w && p.y >= 0 && (p.y as usize) < h
}

/// An all-false sequence has no set entries.
proof fn lemma_count_all_false(s: Seq<bool>)
    requires
        forall|i: int| 0 <= i < s.len() ==> !(#[trigger] s[i]),
    ensures
        count_true(s) == 0,
    decreases s.len(),
{
    if s.len() > 0 {
        lemma_count_all_false(s.drop_last());
    }
}

/// Walking a path never changes the Manhattan distance between its ends
/// by more than one per step.
proof fn lemma_manhattan_along_path(q: Seq<Vec2i>, i: int, j: int)
    requires
        0 <= i <= j < q.len(),
        forall|k: int| 0 <= k < q.len() - 1 ==> adjacent(#[trigger] q[k], q[k + 1]),
    ensures
        spec_manhattan(q[i], q[j]) <= j - i,
    decreases j - i,
{
    if i < j {
        lemma_manhattan_along_path(q, i, j - 1);
        lemma_manhattan_triangle(q[i], q[j - 1], q[j]);
    }
}

/// Indexing a sequence with one entry removed.
proof fn lemma_remove_entries(s: Seq<Node>, i: int, j: int)
    requires
        0 <= i < s.len(),
        0 <= j < s.remove(i).len(),
    ensures
        s.remove(i)[j] == (if j < i {
            s[j]
        } else {
            s[j + 1]
        }),
{
}

/// The first cell of `q` not yet closed, scanning from index `lo`; the
/// walk's last cell is unclosed, so one exists.
proof fn find_first_unclosed(map: &MapData, cl: Seq<bool>, q: Seq<Vec2i>, lo: int) -> (m: int)
    requires
        map.wf(),
        map.width >= 1,
        cl.len() == map.width * map.height,
        is_path(map, q),
        1 <= lo < q.len(),
        forall|k: int|
            0 <= k < lo ==> cl[idx_of(#[trigger] q[k], map.width as int)],
        !cl[idx_of(q[q.len() - 1], map.width as int)],
    ensures
        lo <= m < q.len(),
        !cl[idx_of(q[m], map.width as int)],
        forall|k: int| 0 <= k < m ==> cl[idx_of(#[trigger] q[k], map.width as int)],
    decreases q.len() - lo,
{
    let w = map.width as int;
    assert(map.open_cell(q[lo]));
    lemma_idx_cell(w, map.height as int, q[lo]);
    if !cl[idx_of(q[lo], w)] {
        lo
    } else {
        assert(lo + 1 < q.len()) by {
            if lo == q.len() - 1 {
                assert(cl[idx_of(q[q.len() - 1], w)]);
            }
        }
        find_first_unclosed(map, cl, q, lo + 1)
    }
}

/// The cut argument of the search: when a cell `u` is about to be closed
/// through the minimal-`f` frontier entry, its recorded cost undercuts
/// every wall-free walk from the start to it.
#[verifier::rlimit(100)]
proof fn lemma_close_optimal(
    map: &MapData,
    start: Vec2i,
    target: Vec2i,
    gs: Seq<u64>,
    par: Seq<usize>,
    cl: Seq<bool>,
    open_s: Seq<Node>,
    u: int,
    e0: Node,
)
    requires
        map.wf(),
        map.width >= 1,
        search_inv(map, start, gs, par, cl),
        open_ok(map, target, open_s, gs),
        frontier_ok(map.width * map.height, open_s, gs, cl),
        pop_bound(map, target, gs, cl, open_s),
        closed_opt(map, start, gs, cl),
        closure_ok(map, gs, cl),
        start_closed_first(map, start, cl),
        map.open_cell(start),
        0 <= u < map.width * map.height,
        !cl[u],
        gs[u] < u64::MAX,
        e0.idx == u,
        exists|j: int| 0 <= j < open_s.len() && open_s[j] == e0,
        forall|k: int| 0 <= k < open_s.len() ==> e0.f <= #[trigger] open_s[k].f,
    ensures
        gs[u] == e0.g,
        forall|q: Seq<Vec2i>|
            valid_path(map, start, cell_of(u, map.width as int), q) ==> q.len() - 1 >= gs[u],
{
    let w = map.width as int;
    let hh = map.height as int;
    let n = map.width * map.height;
    let si = idx_of(start, w);
    lemma_idx_cell(w, hh, start);
    lemma_cell_idx(w, hh, u);
    let cu = cell_of(u, w);
    // The popped entry carries the cell's exact cost: its recorded cost is
    // no better than the entry's, and the cell's best entry bounds the
    // minimal f from above.
    let j0 = choose|j: int| 0 <= j < open_s.len() && open_s[j] == e0;
    assert(gs[u] <= e0.g && e0.f == e0.g + h_of(u, w, target));
    let jb = choose|j: int| 0 <= j < open_s.len() && open_s[j].idx == u && open_s[j].g == gs[u];
    assert(open_s[jb].f == gs[u] + h_of(u, w, target));
    assert(e0.f <= open_s[jb].f);
    assert(gs[u] == e0.g);
    assert forall|q: Seq<Vec2i>| valid_path(map, start, cu, q) implies q.len() - 1
        >= gs[u] by {
        if u == si {
            assert(gs[si] == 0);
        } else {
            // Some cell is closed: the chain of the visited non-start cell
            // `u` ends in a closed parent, so in particular the start is.
            assert(cl[si]) by {
                if !cl[si] {
                    assert(cl[par[u] as int]);
                }
            }
            assert(q[0] == start && idx_of(q[0], w) == si);
            assert(q[q.len() - 1] == cu && idx_of(q[q.len() - 1], w) == u);
            let m = find_first_unclosed(map, cl, q, 1);
            let x = q[m - 1];
            let y = q[m];
            assert(map.open_cell(x) && map.open_cell(y));
            lemma_idx_cell(w, hh, x);
            lemma_idx_cell(w, hh, y);
            let ix = idx_of(x, w);
            let iy = idx_of(y, w);
            assert(cl[ix] && !cl[iy]);
            // The prefix up to `x` is itself a wall-free walk, so the
            // closed cell `x` undercuts it.
            let qx = q.take(m);
            assert(valid_path(map, start, x, qx)) by {
                assert(qx.len() == m);
                assert(qx[0] == q[0]);
                assert(qx[m - 1] == q[m - 1]);
                assert forall|k: int| 0 <= k < qx.len() implies map.open_cell(
                    #[trigger] qx[k],
                ) by {
                    assert(qx[k] == q[k]);
                }
                assert forall|k: int| 0 <= k < qx.len() - 1 implies adjacent(
                    #[trigger] qx[k],
                    qx[k + 1],
                ) by {
                    assert(qx[k] == q[k] && qx[k + 1] == q[k + 1]);
                }
            }
            assert(cell_of(ix, w) == x);
            assert(qx.len() - 1 >= gs[ix]);
            // One closed step to `y` bounds its cost.
            assert(adjacent(q[m - 1], q[m]));
            assert(gs[iy] < u64::MAX && gs[iy] <= gs[ix] + 1);
            // The unclosed visited `y` still has its best frontier entry,
            // and the popped entry is minimal.
            let jy = choose|j: int|
                0 <= j < open_s.len() && open_s[j].idx == iy && open_s[j].g == gs[iy];
            assert(open_s[jy].f == gs[iy] + h_of(iy, w, target));
            assert(e0.f <= open_s[jy].f);
            // The heuristic changes by at most one per remaining step.
            lemma_manhattan_along_path(q, m, q.len() - 1);
            lemma_manhattan_triangle(y, cu, target);
            assert(cell_of(iy, w) == y);
            assert(h_of(iy, w, target) <= (q.len() - 1 - m) + h_of(u, w, target));
            assert(gs[u] + h_of(u, w, target) <= gs[iy] + h_of(iy, w, target));
            assert(gs[iy] <= m);
        }
    }
}

/// Dropping a stale frontier entry (one naming an already closed cell)
/// leaves every search invariant intact.
#[verifier::rlimit(100)]
proof fn lemma_skip_branch(
    map: &MapData,
    target: Vec2i,
    gs: Seq<u64>,
    cl: Seq<bool>,
    old_open: Seq<Node>,
    new_open: Seq<Node>,
    best: int,
)
    requires
        map.wf(),
        map.width >= 1,
        open_ok(map, target, old_open, gs),
        frontier_ok(map.width * map.height, old_open, gs, cl),
        pop_bound(map, target, gs, cl, old_open),
        0 <= best < old_open.len(),
        cl[old_open[best].idx as int],
        new_open == old_open.remove(best),
    ensures
        open_ok(map, target, new_open, gs),
        frontier_ok(map.width * map.height, new_open, gs, cl),
        pop_bound(map, target, gs, cl, new_open),
{
    let n = map.width * map.height;
    assert forall|j0: int|
        0 <= j0 < new_open.len() implies #[trigger] new_open[j0] == (if j0 < best {
        old_open[j0]
    } else {
        old_open[j0 + 1]
    }) by {
        lemma_remove_entries(old_open, best, j0);
    }
    assert forall|i: int|
        0 <= i < n && #[trigger] gs[i] < u64::MAX && !(#[trigger] cl[i]) implies open_has_best(
        new_open,
        i,
        gs[i],
    ) by {
        assert(i != old_open[best].idx as int);
        assert(open_has_best(old_open, i, gs[i]));
        let j0 = choose|j0: int|
            0 <= j0 < old_open.len() && old_open[j0].idx == i && old_open[j0].g == gs[i];
        if j0 < best {
            assert(new_open[j0] == old_open[j0]);
        } else {
            assert(j0 > best);
            assert(new_open[j0 - 1] == old_open[j0]);
        }
    }
}

/// Closing the cell named by the minimal frontier entry re-establishes
/// every search invariant, records an optimal cost for it, and leaves its
/// `f` value dominating both the remaining frontier and every closed
/// cell's cost.
#[verifier::rlimit(100)]
proof fn lemma_close_branch(
    map: &MapData,
    start: Vec2i,
    target: Vec2i,
    gs: Seq<u64>,
    par: Seq<usize>,
    pre_cl: Seq<bool>,
    cl2: Seq<bool>,
    old_open: Seq<Node>,
    new_open: Seq<Node>,
    best: int,
    e: Node,
    u: int,
    gu: u64,
)
    requires
        map.wf(),
        map.width >= 1,
        map.open_cell(start),
        search_inv(map, start, gs, par, pre_cl),
        open_ok(map, target, old_open, gs),
        frontier_ok(map.width * map.height, old_open, gs, pre_cl),
        closure_ok(map, gs, pre_cl),
        pop_bound(map, target, gs, pre_cl, old_open),
        closed_opt(map, start, gs, pre_cl),
        start_closed_first(map, start, pre_cl),
        0 <= count_true(pre_cl) <= map.width * map.height,
        0 <= best < old_open.len(),
        e == old_open[best],
        forall|k: int| 0 <= k < old_open.len() ==> e.f <= #[trigger] old_open[k].f,
        u == e.idx as int,
        !pre_cl[u],
        gs[u] == gu,
        cl2 == pre_cl.update(u, true),
        new_open == old_open.remove(best),
    ensures
        search_inv(map, start, gs, par, cl2),
        open_ok(map, target, new_open, gs),
        frontier_ok(map.width * map.height, new_open, gs, cl2),
        closure_ok_except(map, gs, cl2, u),
        pop_bound(map, target, gs, cl2, new_open),
        closed_opt(map, start, gs, cl2),
        start_closed_first(map, start, cl2),
        count_true(cl2) == count_true(pre_cl) + 1,
        count_true(pre_cl) < map.width * map.height,
        forall|c: int|
            0 <= c < map.width * map.height && #[trigger] cl2[c] ==> gs[c] + h_of(
                c,
                map.width as int,
                target,
            ) <= gu + h_of(u, map.width as int, target),
{
    let w = map.width as int;
    let n = map.width * map.height;
    lemma_close_optimal(map, start, target, gs, par, pre_cl, old_open, u, e);
    lemma_count_true_set(pre_cl, u);
    lemma_cell_idx(w, map.height as int, u);
    assert forall|j0: int|
        0 <= j0 < new_open.len() implies #[trigger] new_open[j0] == (if j0 < best {
        old_open[j0]
    } else {
        old_open[j0 + 1]
    }) by {
        lemma_remove_entries(old_open, best, j0);
    }
    // Search bookkeeping: the chain and cost bounds survive one more
    // closed cell.
    assert forall|i: int| 0 <= i < n && #[trigger] gs[i] < u64::MAX implies gs[i] <= count_true(
        cl2,
    ) by {
        assert(gs[i] <= count_true(pre_cl));
    }
    assert forall|i: int| 0 <= i < n && #[trigger] cl2[i] implies gs[i] < count_true(cl2) by {
        if i == u {
            assert(gs[i] <= count_true(pre_cl));
        } else {
            assert(pre_cl[i]);
            assert(gs[i] < count_true(pre_cl));
        }
    }
    // Unclosed visited cells other than `u` keep their best entries.
    assert forall|i: int|
        0 <= i < n && #[trigger] gs[i] < u64::MAX && !(#[trigger] cl2[i]) implies open_has_best(
        new_open,
        i,
        gs[i],
    ) by {
        assert(i != u);
        assert(!pre_cl[i]);
        assert(open_has_best(old_open, i, gs[i]));
        let j0 = choose|j0: int|
            0 <= j0 < old_open.len() && old_open[j0].idx == i && old_open[j0].g == gs[i];
        if j0 < best {
            assert(new_open[j0] == old_open[j0]);
        } else {
            assert(j0 > best);
            assert(new_open[j0 - 1] == old_open[j0]);
        }
    }
    // The exempt closure invariant: all previously closed cells keep it.
    assert forall|i: int, b: Vec2i|
        0 <= i < n && i != u && #[trigger] cl2[i] && #[trigger] map.open_cell(b) && adjacent(
            cell_of(i, w),
            b,
        ) implies gs[idx_of(b, w)] < u64::MAX && gs[idx_of(b, w)] <= gs[i] + 1 by {
        assert(pre_cl[i]);
    }
    // The new closed cell also undercuts every walk to it.
    assert forall|c: int, q: Seq<Vec2i>|
        0 <= c < n && #[trigger] cl2[c] && #[trigger] valid_path(map, start, cell_of(c, w), q)
        implies q.len() - 1 >= gs[c] by {
        if c != u {
            assert(pre_cl[c]);
        }
    }
    // Its f value sits below every remaining frontier entry, and every
    // closed cost is dominated by the popped f.
    assert(e.f == gu + h_of(u, w, target));
    assert forall|c: int, j1: int|
        0 <= c < n && #[trigger] cl2[c] && 0 <= j1 < new_open.len() implies gs[c] + h_of(
        c,
        w,
        target,
    ) <= #[trigger] new_open[j1].f by {
        let orig = if j1 < best {
            j1
        } else {
            j1 + 1
        };
        assert(new_open[j1] == old_open[orig]);
        if c == u {
            assert(e.f <= old_open[orig].f);
        } else {
            assert(pre_cl[c]);
        }
    }
    assert forall|c: int|
        0 <= c < n && #[trigger] cl2[c] implies gs[c] + h_of(c, w, target) <= gu + h_of(
        u,
        w,
        target,
    ) by {
        if c != u {
            assert(pre_cl[c]);
            assert(gs[c] + h_of(c, w, target) <= old_open[best].f);
        }
    }
    // The start is closed before anything else.
    if u != idx_of(start, w) && !pre_cl[idx_of(start, w)] {
        assert(pre_cl[par[u] as int]);
    }
}


/// Closes the cell named by the popped minimal entry `e` and expands its
/// neighbors; returns the reconstructed optimal path when that cell is
/// the target. The closed count grows by one.
#[verifier::rlimit(100)]
fn close_and_expand(
    map_data: &MapData,
    start: Vec2i,
    target: Vec2i,
    t_in: bool,
    ti: usize,
    e: Node,
    old_open: Ghost<Seq<Node>>,
    best: Ghost<int>,
    g_score: &mut Vec<u64>,
    parent: &mut Vec<usize>,
    closed: &mut Vec<bool>,
    open: &mut Vec<Node>,
) -> (r: Option<Vec<Vec2i>>)
    requires
        map_data.wf(),
        map_data.width >= 1,
        map_data.height >= 1,
        map_data.open_cell(start),
        t_in == map_data.contains_pos(target),
        t_in ==> ti == idx_of(target, map_data.width as int) && ti < map_data.width
            * map_data.height,
        search_inv(map_data, start, old(g_score)@, old(parent)@, old(closed)@),
        open_ok(map_data, target, old_open@, old(g_score)@),
        frontier_ok(map_data.width * map_data.height, old_open@, old(g_score)@, old(closed)@),
        closure_ok(map_data, old(g_score)@, old(closed)@),
        pop_bound(map_data, target, old(g_score)@, old(closed)@, old_open@),
        closed_opt(map_data, start, old(g_score)@, old(closed)@),
        start_closed_first(map_data, start, old(closed)@),
        0 <= count_true(old(closed)@) <= map_data.width * map_data.height,
        t_in ==> !old(closed)@[ti as int],
        0 <= best@ < old_open@.len(),
        e == old_open@[best@],
        forall|k: int| 0 <= k < old_open@.len() ==> e.f <= #[trigger] old_open@[k].f,
        old(open)@ == old_open@.remove(best@),
        !old(closed)@[e.idx as int],
        e.idx < map_data.width * map_data.height,
    ensures
        search_inv(map_data, start, final(g_score)@, final(parent)@, final(closed)@),
        open_ok(map_data, target, final(open)@, final(g_score)@),
        frontier_ok(
            map_data.width * map_data.height,
            final(open)@,
            final(g_score)@,
            final(closed)@,
        ),
        r is None ==> closure_ok(map_data, final(g_score)@, final(closed)@),
        pop_bound(map_data, target, final(g_score)@, final(closed)@, final(open)@),
        closed_opt(map_data, start, final(g_score)@, final(closed)@),
        start_closed_first(map_data, start, final(closed)@),
        count_true(final(closed)@) == count_true(old(closed)@) + 1,
        count_true(final(closed)@) <= map_data.width * map_data.height,
        r is None && t_in ==> !final(closed)@[ti as int],
        r matches Some(p) ==> valid_path(map_data, start, target, p@),
        r matches Some(p) ==> forall|q: Seq<Vec2i>|
            valid_path(map_data, start, target, q) ==> q.len() >= p@.len(),
{
    let ghost wi = map_data.width as int;
    let ghost hi = map_data.height as int;
    let ghost n = map_data.width * map_data.height;
    let u = e.idx;
    let gu = g_score[u];
    let ghost pre_closed = closed@;
    closed.set(u, true);
    proof {
        assert(closed@ =~= pre_closed.update(u as int, true));
        lemma_close_branch(
            map_data,
            start,
            target,
            g_score@,
            parent@,
            pre_closed,
            closed@,
            old_open@,
            open@,
            best@,
            e,
            u as int,
            gu,
        );
        lemma_cell_idx(wi, hi, u as int);
    }
    if t_in && u == ti {
        let p = reconstruct_path(map_data, start, target, ti, g_score, parent, Ghost(closed@));
        proof {
            lemma_idx_cell(wi, hi, target);
            assert(closed@[u as int]);
            assert(cell_of(u as int, map_data.width as int) == target);
            assert(closed_opt(map_data, start, g_score@, closed@));
            assert forall|q: Seq<Vec2i>|
                valid_path(map_data, start, target, q) implies q.len() >= p@.len() by {
                assert(valid_path(map_data, start, cell_of(u as int, map_data.width as int), q));
                assert(q.len() - 1 >= g_score@[u as int]);
            }
        }
        return Some(p);
    }
    expand_cell(map_data, target, u, gu, g_score, parent, closed, open, Ghost(start));
    None
}

/// One expansion step of the search: pops the earliest lowest-`f`
/// frontier entry and either closes and expands its cell — returning the
/// reconstructed path when that cell is the target — or drops it as
/// stale. Every search invariant is preserved, and either the closed
/// count grows or the frontier shrinks.
#[verifier::rlimit(100)]
fn search_step(
    map_data: &MapData,
    start: Vec2i,
    target: Vec2i,
    t_in: bool,
    ti: usize,
    g_score: &mut Vec<u64>,
    parent: &mut Vec<usize>,
    closed: &mut Vec<bool>,
    open: &mut Vec<Node>,
) -> (r: Option<Vec<Vec2i>>)
    requires
        map_data.wf(),
        map_data.width >= 1,
        map_data.height >= 1,
        map_data.open_cell(start),
        t_in == map_data.contains_pos(target),
        t_in ==> ti == idx_of(target, map_data.width as int) && ti < map_data.width
            * map_data.height,
        search_inv(map_data, start, old(g_score)@, old(parent)@, old(closed)@),
        open_ok(map_data, target, old(open)@, old(g_score)@),
        frontier_ok(map_data.width * map_data.height, old(open)@, old(g_score)@, old(closed)@),
        closure_ok(map_data, old(g_score)@, old(closed)@),
        pop_bound(map_data, target, old(g_score)@, old(closed)@, old(open)@),
        closed_opt(map_data, start, old(g_score)@, old(closed)@),
        start_closed_first(map_data, start, old(closed)@),
        0 <= count_true(old(closed)@) <= map_data.width * map_data.height,
        t_in ==> !old(closed)@[ti as int],
        old(open)@.len() > 0,
    ensures
        search_inv(map_data, start, final(g_score)@, final(parent)@, final(closed)@),
        open_ok(map_data, target, final(open)@, final(g_score)@),
        frontier_ok(
            map_data.width * map_data.height,
            final(open)@,
            final(g_score)@,
            final(closed)@,
        ),
        r is None ==> closure_ok(map_data, final(g_score)@, final(closed)@),
        pop_bound(map_data, target, final(g_score)@, final(closed)@, final(open)@),
        closed_opt(map_data, start, final(g_score)@, final(closed)@),
        start_closed_first(map_data, start, final(closed)@),
        0 <= count_true(final(closed)@) <= map_data.width * map_data.height,
        r is None && t_in ==> !final(closed)@[ti as int],
        r matches Some(p) ==> valid_path(map_data, start, target, p@),
        r matches Some(p) ==> forall|q: Seq<Vec2i>|
            valid_path(map_data, start, target, q) ==> q.len() >= p@.len(),
        r is None ==> ({
            ||| count_true(final(closed)@) > count_true(old(closed)@)
            ||| (count_true(final(closed)@) == count_true(old(closed)@) && final(open)@.len()
                < old(open)@.len())
        }),
{
    // Find the earliest lowest-f entry.
    let mut best: usize = 0;
    let mut j: usize = 1;
    while j < open.len()
        invariant
            open.len() > 0,
            best < j <= open.len(),
            forall|k: int| 0 <= k < j ==> open@[best as int].f <= #[trigger] open@[k].f,
        decreases open.len() - j,
    {
        if open[j].f < open[best].f {
            best = j;
        }
        j = j + 1;
    }
    let e = open[best];
    let ghost old_open = open@;
    open.remove(best);
    if !closed[e.idx] {
        close_and_expand(
            map_data,
            start,
            target,
            t_in,
            ti,
            e,
            Ghost(old_open),
            Ghost(best as int),
            g_score,
            parent,
            closed,
            open,
        )
    } else {
        proof {
            lemma_skip_branch(
                map_data,
                target,
                g_score@,
                closed@,
                old_open,
                open@,
                best as int,
            );
        }
        None
    }
}

/// A* path search from `start` toward `target` over the map's open cells.
///
/// Uses the Manhattan distance heuristic and expands the lowest `f`-cost
/// frontier entry first (the earliest entry on ties, so equal inputs give
/// equal outputs). Returns the full cell sequence from `start` to `target`
/// inclusive — of minimal length among all wall-free walks, the heuristic
/// being admissible on a 4-connected unweighted grid — or `None` exactly
/// when no wall-free walk connects the two cells.
#[verifier::rlimit(100)]
pub fn find_path(start: Vec2i, target: Vec2i, map_data: &MapData) -> (r: Option<Vec<Vec2i>>)
    requires
        map_data.wf(),
        map_data.open_cell(start),
    ensures
        r matches Some(p) ==> valid_path(map_data, start, target, p@),
        r matches Some(p) ==> forall|q: Seq<Vec2i>|
            valid_path(map_data, start, target, q) ==> q.len() >= p@.len(),
        r is None ==> forall|q: Seq<Vec2i>| !valid_path(map_data, start, target, q),
{
    let ghost wi = map_data.width as int;
    let ghost hi = map_data.height as int;
    if start.x == target.x && start.y == target.y {
        let mut p: Vec<Vec2i> = Vec::new();
        p.push(start);
        return Some(p);
    }
    let w = map_data.width;
    let h = map_data.height;
    proof {
        lemma_idx_cell(wi, hi, start);
        assert(w * h <= MAX_MAP_DIM * MAX_MAP_DIM) by (nonlinear_arith)
            requires
                w <= MAX_MAP_DIM,
                h <= MAX_MAP_DIM,
        ;
    }
    let n = w * h;
    let start_i = (start.y as usize) * w + (start.x as usize);
    let t_in = check_in_bounds(target, w, h);
    let ti: usize = if t_in {
        proof {
            lemma_idx_cell(wi, hi, target);
        }
        (target.y as usize) * w + (target.x as usize)
    } else {
        n
    };
    let mut g_score: Vec<u64> = vec![u64::MAX; n];
    let mut parent: Vec<usize> = vec![n; n];
    let mut closed: Vec<bool> = vec![false; n];
    let mut open: Vec<Node> = Vec::new();
    g_score.set(start_i, 0);
    let h0 = start.manhattan(target);
    open.push(Node { f: h0 as u64, g: 0, idx: start_i });
    proof {
        lemma_count_all_false(closed@);
        assert(open@[0].idx == start_i && open@[0].g == 0);
        assert(open@[0].f == 0 + h_of(start_i as int, wi, target));
        assert forall|i: int|
            0 <= i < n && #[trigger] g_score@[i] < u64::MAX && !(#[trigger] closed@[i])
                implies open_has_best(open@, i, g_score@[i]) by {
            assert(i == start_i as int);
            assert(open@[0].idx == i && open@[0].g == g_score@[i]);
        }
    }
    while open.len() > 0
        invariant
            map_data.wf(),
            w == map_data.width,
            h == map_data.height,
            1 <= w,
            1 <= h,
            wi == w as int,
            hi == h as int,
            n == w * h,
            map_data.open_cell(start),
            t_in == map_data.contains_pos(target),
            t_in ==> ti == idx_of(target, wi) && ti < n,
            search_inv(map_data, start, g_score@, parent@, closed@),
            open_ok(map_data, target, open@, g_score@),
            frontier_ok(n as int, open@, g_score@, closed@),
            closure_ok(map_data, g_score@, closed@),
            pop_bound(map_data, target, g_score@, closed@, open@),
            closed_opt(map_data, start, g_score@, closed@),
            start_closed_first(map_data, start, closed@),
            0 <= count_true(closed@) <= n,
            t_in ==> !closed@[ti as int],
        decreases n - count_true(closed@), open.len(),
    {
        match search_step(
            map_data,
            start,
            target,
            t_in,
            ti,
            &mut g_score,
            &mut parent,
            &mut closed,
            &mut open,
        ) {
            Some(p) => {
                return Some(p);
            },
            None => {},
        }
    }
    proof {
        // The frontier is exhausted, so every visited cell is closed; any
        // walk from the start stays among closed cells, yet the target was
        // never closed.
        assert forall|i: int| 0 <= i < n as int && #[trigger] g_score@[i] < u64::MAX
            implies closed@[i] by {
            if !closed@[i] {
                assert(open_has_best(open@, i, g_score@[i]));
            }
        }
        assert forall|q: Seq<Vec2i>| !valid_path(map_data, start, target, q) by {
            if valid_path(map_data, start, target, q) {
                lemma_path_stays_closed(map_data, g_score@, closed@, start, q, q.len() - 1);
                assert(map_data.open_cell(target));
                assert(closed@[idx_of(target, wi)]);
            }
        }
    }
    None
}

} // verus!
