//! Shortest-path search over the blocked-cell grid, used by the monster
//! AI to close on the player. The search runs backward from the goal over
//! open cells in the eight-neighborhood; the result is the open neighbor
//! of the start that the actor should step to, or nothing when no route
//! exists.

use vstd::prelude::*;

use crate::map::GameMap;
use crate::visibility_system::iabs;

verus! {

/// Column of flat cell `i`.
pub open spec fn col(m: GameMap, i: int) -> int {
    i % (m.width as int)
}

/// Row of flat cell `i`.
pub open spec fn row(m: GameMap, i: int) -> int {
    i / (m.width as int)
}

/// Flat cell `i` lies on the map.
pub open spec fn in_range(m: GameMap, i: int) -> bool {
    0 <= i < m.tiles@.len()
}

/// Flat cell `i` can be walked on.
pub open spec fn open_at(m: GameMap, i: int) -> bool {
    in_range(m, i) && !m.blocked@[i]
}

/// Two distinct cells within a king's move of each other.
pub open spec fn adjacent8(m: GameMap, a: int, b: int) -> bool {
    &&& in_range(m, a)
    &&& in_range(m, b)
    &&& a != b
    &&& iabs(col(m, a) - col(m, b)) <= 1
    &&& iabs(row(m, a) - row(m, b)) <= 1
}

/// A walk that starts at `g` and afterwards only crosses open cells, one
/// king's move at a time.
pub open spec fn valid_rev_path(m: GameMap, p: Seq<int>, g: int) -> bool {
    &&& p.len() >= 1
    &&& p[0] == g
    &&& in_range(m, g)
    &&& forall|i: int| 1 <= i < p.len() ==> open_at(m, #[trigger] p[i]) && adjacent8(m, p[i - 1], p[i])
}

/// Cell `t` can be reached from `g` over open cells.
pub open spec fn reaches(m: GameMap, g: int, t: int) -> bool {
    exists|p: Seq<int>| valid_rev_path(m, p, g) && p.last() == t
}

/// A route for an actor at `s`: some open neighbor of `s` from which the
/// goal is reachable.
pub open spec fn has_route(m: GameMap, s: int, g: int) -> bool {
    exists|t: int| adjacent8(m, s, t) && #[trigger] reaches(m, g, t)
}

/// Horizontal offset of direction `d`.
pub open spec fn dir_dx(d: int) -> int {
    if d == 0 || d == 1 || d == 2 {
        -1
    } else if d == 3 || d == 4 {
        0
    } else {
        1
    }
}

/// Vertical offset of direction `d`.
pub open spec fn dir_dy(d: int) -> int {
    if d == 0 || d == 3 || d == 5 {
        -1
    } else if d == 1 || d == 6 {
        0
    } else {
        1
    }
}

/// The neighbor of cell `i` in direction `d`, when it lies on the map.
pub open spec fn neighbor(m: GameMap, i: int, d: int) -> Option<int> {
    let nx = col(m, i) + dir_dx(d);
    let ny = row(m, i) + dir_dy(d);
    if 0 <= nx < m.width as int && 0 <= ny < m.height as int {
        Some(ny * (m.width as int) + nx)
    } else {
        Option::<int>::None
    }
}

/// Recover the coordinates of an in-range flat cell.
pub proof fn lemma_cell_decomp(m: GameMap, i: int)
    requires
        m.wf(),
        in_range(m, i),
    ensures
        i == row(m, i) * (m.width as int) + col(m, i),
        0 <= col(m, i) < m.width as int,
        0 <= row(m, i) < m.height as int,
{
    let w = m.width as int;
    let h = m.height as int;
    assert(i == (i / w) * w + i % w && 0 <= i % w < w && 0 <= i / w && i / w < h)
        by (nonlinear_arith)
        requires
            1 <= w,
            1 <= h,
            0 <= i < w * h,
    ;
}

proof fn lemma_recompose(m: GameMap, x: int, y: int)
    requires
        m.wf(),
        0 <= x < m.width as int,
        0 <= y < m.height as int,
    ensures
        in_range(m, y * (m.width as int) + x),
        col(m, y * (m.width as int) + x) == x,
        row(m, y * (m.width as int) + x) == y,
{
    let w = m.width as int;
    let h = m.height as int;
    assert((y * w + x) % w == x && (y * w + x) / w == y && 0 <= y * w + x && y * w + x < w * h)
        by (nonlinear_arith)
        requires
            1 <= w,
            1 <= h,
            0 <= x < w,
            0 <= y < h,
    ;
}

proof fn lemma_adjacent_has_dir(m: GameMap, a: int, b: int)
    requires
        m.wf(),
        adjacent8(m, a, b),
    ensures
        exists|d: int| 0 <= d < 8 && #[trigger] neighbor(m, a, d) == Some(b),
{
    lemma_cell_decomp(m, a);
    lemma_cell_decomp(m, b);
    let dx = col(m, b) - col(m, a);
    let dy = row(m, b) - row(m, a);
    let d: int = if dx == -1 && dy == -1 {
        0
    } else if dx == -1 && dy == 0 {
        1
    } else if dx == -1 && dy == 1 {
        2
    } else if dx == 0 && dy == -1 {
        3
    } else if dx == 0 && dy == 1 {
        4
    } else if dx == 1 && dy == -1 {
        5
    } else if dx == 1 && dy == 0 {
        6
    } else {
        7
    };
    if dx == 0 && dy == 0 {
        assert(a == b);
        assert(false);
    }
    lemma_recompose(m, col(m, b), row(m, b));
    assert(neighbor(m, a, d) == Some(b));
}

proof fn lemma_reaches_extend(m: GameMap, g: int, c: int, n: int)
    requires
        reaches(m, g, c),
        adjacent8(m, c, n),
        open_at(m, n),
    ensures
        reaches(m, g, n),
{
    let p = choose|p: Seq<int>| valid_rev_path(m, p, g) && p.last() == c;
    let q = p.push(n);
    assert(q.last() == n);
    assert(valid_rev_path(m, q, g)) by {
        assert(forall|i: int| 0 <= i < p.len() ==> q[i] == #[trigger] p[i]);
        assert(q[q.len() - 1] == n && q[q.len() - 2] == c);
    }
}

/// How many of the first `k` flags are set.
pub open spec fn count_true(s: Seq<bool>, k: int) -> int
    decreases k,
{
    if k <= 0 {
        0
    } else {
        count_true(s, k - 1) + (if s[k - 1] {
            1int
        } else {
            0int
        })
    }
}

proof fn lemma_count_true_bound(s: Seq<bool>, k: int)
    requires
        0 <= k,
    ensures
        count_true(s, k) <= k,
    decreases k,
{
    reveal_with_fuel(count_true, 3);
    if k > 0 {
        lemma_count_true_bound(s, k - 1);
        assert(count_true(s, k) == count_true(s, k - 1) + (if s[k - 1] {
            1int
        } else {
            0int
        }));
    }
}

proof fn lemma_count_true_update(s: Seq<bool>, x: int, k: int)
    requires
        0 <= x < s.len(),
        k <= s.len(),
        !s[x],
    ensures
        x < k ==> count_true(s.update(x, true), k) == count_true(s, k) + 1,
        x >= k ==> count_true(s.update(x, true), k) == count_true(s, k),
    decreases k,
{
    reveal_with_fuel(count_true, 3);
    if k > 0 {
        lemma_count_true_update(s, x, k - 1);
        let s2 = s.update(x, true);
        assert(count_true(s, k) == count_true(s, k - 1) + (if s[k - 1] {
            1int
        } else {
            0int
        }));
        assert(count_true(s2, k) == count_true(s2, k - 1) + (if s2[k - 1] {
            1int
        } else {
            0int
        }));
    }
}

/// The flag vector marks only cells from which the goal is reachable.
spec fn bfs_sound(m: GameMap, visited: Seq<bool>, g: int) -> bool {
    forall|x: int| 0 <= x < visited.len() && #[trigger] visited[x] ==> reaches(m, g, x)
}

/// Reachability reads only the grid's size, width and blocked bits, so
/// two maps that agree on those agree on every route.
pub proof fn lemma_reaches_agree(m1: GameMap, m2: GameMap, g: int, t: int)
    requires
        m1.tiles@.len() == m2.tiles@.len(),
        m1.width == m2.width,
        m1.blocked@ == m2.blocked@,
    ensures
        reaches(m1, g, t) == reaches(m2, g, t),
{
    assert forall|p: Seq<int>| valid_rev_path(m1, p, g) implies valid_rev_path(m2, p, g) by {
        assert forall|i: int| 1 <= i < p.len() implies open_at(m2, #[trigger] p[i]) && adjacent8(
            m2,
            p[i - 1],
            p[i],
        ) by {
            assert(open_at(m1, p[i]) && adjacent8(m1, p[i - 1], p[i]));
        }
    }
    assert forall|p: Seq<int>| valid_rev_path(m2, p, g) implies valid_rev_path(m1, p, g) by {
        assert forall|i: int| 1 <= i < p.len() implies open_at(m1, #[trigger] p[i]) && adjacent8(
            m1,
            p[i - 1],
            p[i],
        ) by {
            assert(open_at(m2, p[i]) && adjacent8(m2, p[i - 1], p[i]));
        }
    }
    if reaches(m1, g, t) {
        let p = choose|p: Seq<int>| valid_rev_path(m1, p, g) && p.last() == t;
        assert(valid_rev_path(m2, p, g));
    }
    if reaches(m2, g, t) {
        let p = choose|p: Seq<int>| valid_rev_path(m2, p, g) && p.last() == t;
        assert(valid_rev_path(m1, p, g));
    }
}

/// Route existence likewise depends only on size, width and blocked bits.
pub proof fn lemma_has_route_agree(m1: GameMap, m2: GameMap, s: int, g: int)
    requires
        m1.tiles@.len() == m2.tiles@.len(),
        m1.width == m2.width,
        m1.blocked@ == m2.blocked@,
    ensures
        has_route(m1, s, g) == has_route(m2, s, g),
{
    if has_route(m1, s, g) {
        let t = choose|t: int| adjacent8(m1, s, t) && #[trigger] reaches(m1, g, t);
        lemma_reaches_agree(m1, m2, g, t);
        assert(adjacent8(m2, s, t) && reaches(m2, g, t));
    }
    if has_route(m2, s, g) {
        let t = choose|t: int| adjacent8(m2, s, t) && #[trigger] reaches(m2, g, t);
        lemma_reaches_agree(m1, m2, g, t);
        assert(adjacent8(m1, s, t) && reaches(m1, g, t));
    }
}

/// Recover a cell index from in-bounds coordinates.
pub proof fn lemma_recompose_pub(m: GameMap, x: int, y: int)
    requires
        m.wf(),
        0 <= x < m.width as int,
        0 <= y < m.height as int,
    ensures
        in_range(m, y * (m.width as int) + x),
        col(m, y * (m.width as int) + x) == x,
        row(m, y * (m.width as int) + x) == y,
{
    lemma_recompose(m, x, y);
}

/// Find the next step for an actor at `start` heading for `goal`: an open
/// neighbor of `start` from which `goal` is reachable over open cells,
/// preferring one nearest the goal in search order. Returns nothing
/// exactly when no route exists.
#[verifier::rlimit(100)]
pub fn find_path_step(map: &GameMap, start: usize, goal: usize) -> (r: Option<usize>)
    requires
        map.wf(),
        in_range(*map, start as int),
        in_range(*map, goal as int),
        open_at(*map, goal as int),
    ensures
        match r {
            Some(step) => {
                &&& adjacent8(*map, start as int, step as int)
                &&& open_at(*map, step as int)
                &&& reaches(*map, goal as int, step as int)
            },
            None => !has_route(*map, start as int, goal as int),
        },
{
    let count = map.blocked.len();
    let width = map.width;
    let height = map.height;
    let mut visited: Vec<bool> = Vec::new();
    let mut dist: Vec<u32> = Vec::new();
    let mut i: usize = 0;
    while i < count
        invariant
            i <= count,
            visited@.len() == i,
            dist@.len() == i,
            forall|x: int| 0 <= x < i ==> !(#[trigger] visited@[x]),
        decreases count - i,
    {
        visited.push(false);
        dist.push(0);
        i = i + 1;
    }
    proof {
        assert(count_true(visited@, count as int) == 0) by {
            lemma_count_all_false(visited@, count as int);
        }
    }
    let mut queue: Vec<usize> = Vec::new();
    let mut head: usize = 0;
    let mut marked: usize = 1;
    let ghost visited_pre0 = visited@;
    visited[goal] = true;
    queue.push(goal);
    proof {
        lemma_count_true_update(visited_pre0, goal as int, count as int);
    }
    proof {
        assert(reaches(*map, goal as int, goal as int)) by {
            let p = seq![goal as int];
            assert(valid_rev_path(*map, p, goal as int));
            assert(p.last() == goal as int);
        }
        assert(queue@.len() == 1 && queue@[0] == goal);
        assert forall|x: int|
            0 <= x < count && #[trigger] visited@[x] implies queue@.contains(x as usize) by {
            if x == goal as int {
                assert(queue@[0] == goal);
            } else {
                assert(!visited_pre0[x]);
            }
        }
    }
    while head < queue.len()
        invariant
            map.wf(),
            count == map.tiles@.len(),
            count == map.blocked@.len(),
            width == map.width,
            height == map.height,
            visited@.len() == count,
            dist@.len() == count,
            head <= queue@.len(),
            queue@.len() <= count,
            marked == count_true(visited@, count as int),
            marked == queue@.len(),
            in_range(*map, goal as int),
            visited@[goal as int],
            forall|qi: int| 0 <= qi < queue@.len() ==> (#[trigger] queue@[qi] as int) < count,
            forall|qi: int| 0 <= qi < queue@.len() ==> visited@[queue@[qi] as int],
            forall|x: int|
                0 <= x < count && #[trigger] visited@[x] ==> queue@.contains(x as usize),
            bfs_sound(*map, visited@, goal as int),
            forall|x: int|
                0 <= x < count && #[trigger] visited@[x] ==> (open_at(*map, x) || x
                    == goal as int),
            forall|qi: int, d: int|
                0 <= qi < head && 0 <= d < 8 ==> (match #[trigger] neighbor(
                    *map,
                    queue@[qi] as int,
                    d,
                ) {
                    Some(nb) => open_at(*map, nb) ==> visited@[nb],
                    None => true,
                }),
        decreases count - head,
    {
        let cur = queue[head];
        head = head + 1;
        let mut d: usize = 0;
        while d < 8
            invariant
                map.wf(),
                count == map.tiles@.len(),
                count == map.blocked@.len(),
                width == map.width,
                height == map.height,
                visited@.len() == count,
                dist@.len() == count,
                head <= queue@.len(),
                queue@.len() <= count,
                marked == count_true(visited@, count as int),
                marked == queue@.len(),
                d <= 8,
                1 <= head,
                in_range(*map, goal as int),
                visited@[goal as int],
                cur == queue@[head - 1],
                (cur as int) < count,
                visited@[cur as int],
                forall|qi: int| 0 <= qi < queue@.len() ==> (#[trigger] queue@[qi] as int) < count,
                forall|qi: int| 0 <= qi < queue@.len() ==> visited@[queue@[qi] as int],
                forall|x: int|
                    0 <= x < count && #[trigger] visited@[x] ==> queue@.contains(x as usize),
                bfs_sound(*map, visited@, goal as int),
                forall|x: int|
                    0 <= x < count && #[trigger] visited@[x] ==> (open_at(*map, x) || x
                        == goal as int),
                forall|qi: int, d2: int|
                    0 <= qi < head - 1 && 0 <= d2 < 8 ==> (match #[trigger] neighbor(
                        *map,
                        queue@[qi] as int,
                        d2,
                    ) {
                        Some(nb) => open_at(*map, nb) ==> visited@[nb],
                        None => true,
                    }),
                forall|d2: int|
                    0 <= d2 < d ==> (match #[trigger] neighbor(*map, cur as int, d2) {
                        Some(nb) => open_at(*map, nb) ==> visited@[nb],
                        None => true,
                    }),
            decreases 8 - d,
        {
            let (dx, dy) = dir_offsets(d);
            proof {
                lemma_cell_decomp(*map, cur as int);
                assert(count as int <= 0x7fffffff * 0x7fffffff) by (nonlinear_arith)
                    requires
                        count as int == (width as int) * (height as int),
                        1 <= width as int <= 0x7fffffff,
                        1 <= height as int <= 0x7fffffff,
                ;
            }
            let cx = (cur as i64) % (width as i64);
            let cy = (cur as i64) / (width as i64);
            proof {
                assert(cx == col(*map, cur as int) && cy == row(*map, cur as int));
            }
            let nx = cx + (dx as i64);
            let ny = cy + (dy as i64);
            if nx >= 0 && nx < (width as i64) && ny >= 0 && ny < (height as i64) {
                proof {
                    lemma_recompose(*map, nx as int, ny as int);
                }
                let nidx = (ny as usize) * (width as usize) + (nx as usize);
                proof {
                    assert(nidx as int == ny as int * (width as int) + nx as int);
                    assert(neighbor(*map, cur as int, d as int) == Some(nidx as int));
                }
                if !map.blocked[nidx] && !visited[nidx] {
                    let ghost visited_pre = visited@;
                    let ghost queue_pre = queue@;
                    visited[nidx] = true;
                    let cur_dist = dist[cur];
                    if cur_dist < u32::MAX {
                        dist[nidx] = cur_dist + 1;
                    } else {
                        dist[nidx] = cur_dist;
                    }
                    queue.push(nidx);
                    proof {
                        lemma_count_true_update(visited_pre, nidx as int, count as int);
                        lemma_count_true_bound(visited@, count as int);
                    }
                    marked = marked + 1;
                    proof {
                        assert(queue@[head as int - 1] == cur);
                        assert(adjacent8(*map, cur as int, nidx as int)) by {
                            lemma_cell_decomp(*map, cur as int);
                        }
                        lemma_reaches_extend(*map, goal as int, cur as int, nidx as int);
                        assert forall|x: int|
                            0 <= x < count && #[trigger] visited@[x] implies queue@.contains(
                            x as usize,
                        ) by {
                            if x == nidx as int {
                                assert(queue@.last() == nidx);
                            } else {
                                assert(visited_pre[x]);
                                assert(queue_pre.contains(x as usize));
                                let qi = choose|qi: int|
                                    0 <= qi < queue_pre.len() && queue_pre[qi] == x as usize;
                                assert(queue@[qi] == x as usize);
                            }
                        }
                    }
                }
            }
            d = d + 1;
        }
    }
    // The search is exhausted: every visited cell is reachable, and every
    // reachable cell is visited. Pick the nearest visited neighbor of the
    // start cell.
    proof {
        assert(count == map.tiles@.len());
        assert forall|t: int|
            0 <= t < count && reaches(*map, goal as int, t) implies visited@[t] by {
            let p = choose|p: Seq<int>| valid_rev_path(*map, p, goal as int) && p.last() == t;
            lemma_bfs_complete(*map, visited@, queue@, goal as int, p);
        }
    }
    let mut best: Option<usize> = None;
    let mut best_dist: u32 = 0;
    proof {
        lemma_cell_decomp(*map, start as int);
        assert(count as int <= 0x7fffffff * 0x7fffffff) by (nonlinear_arith)
            requires
                count as int == (width as int) * (height as int),
                1 <= width as int <= 0x7fffffff,
                1 <= height as int <= 0x7fffffff,
        ;
    }
    let sx = (start as i64) % (width as i64);
    let sy = (start as i64) / (width as i64);
    proof {
        assert(sx == col(*map, start as int) && sy == row(*map, start as int));
    }
    let mut d: usize = 0;
    while d < 8
        invariant
            map.wf(),
            count == map.tiles@.len(),
            count == map.blocked@.len(),
            width == map.width,
            height == map.height,
            visited@.len() == count,
            dist@.len() == count,
            d <= 8,
            in_range(*map, start as int),
            in_range(*map, goal as int),
            sx == col(*map, start as int),
            sy == row(*map, start as int),
            bfs_sound(*map, visited@, goal as int),
            forall|x: int|
                0 <= x < count && #[trigger] visited@[x] ==> (open_at(*map, x) || x
                    == goal as int),
            forall|t: int| 0 <= t < count && reaches(*map, goal as int, t) ==> visited@[t],
            open_at(*map, goal as int),
            match best {
                Some(step) => {
                    &&& adjacent8(*map, start as int, step as int)
                    &&& open_at(*map, step as int)
                    &&& reaches(*map, goal as int, step as int)
                },
                None => forall|d2: int|
                    0 <= d2 < d ==> (match #[trigger] neighbor(*map, start as int, d2) {
                        Some(nb) => !visited@[nb],
                        None => true,
                    }),
            },
        decreases 8 - d,
    {
        let (dx, dy) = dir_offsets(d);
        proof {
            lemma_cell_decomp(*map, start as int);
        }
        let nx = sx + (dx as i64);
        let ny = sy + (dy as i64);
        if nx >= 0 && nx < (width as i64) && ny >= 0 && ny < (height as i64) {
            proof {
                lemma_recompose(*map, nx as int, ny as int);
            }
            let nidx = (ny as usize) * (width as usize) + (nx as usize);
            proof {
                assert(neighbor(*map, start as int, d as int) == Some(nidx as int));
            }
            if visited[nidx] {
                proof {
                    assert(nidx as int != start as int) by {
                        assert(dir_dx(d as int) != 0 || dir_dy(d as int) != 0);
                        lemma_cell_decomp(*map, start as int);
                    }
                    assert(adjacent8(*map, start as int, nidx as int));
                    assert(open_at(*map, nidx as int) || nidx as int == goal as int);
                }
                let nd = dist[nidx];
                match best {
                    None => {
                        best = Some(nidx);
                        best_dist = nd;
                    },
                    Some(_) => {
                        if nd < best_dist {
                            best = Some(nidx);
                            best_dist = nd;
                        }
                    },
                }
            }
        }
        d = d + 1;
    }
    proof {
        if best is None {
            assert forall|t: int|
                !(adjacent8(*map, start as int, t) && #[trigger] reaches(
                    *map,
                    goal as int,
                    t,
                )) by {
                if adjacent8(*map, start as int, t) && reaches(*map, goal as int, t) {
                    lemma_adjacent_has_dir(*map, start as int, t);
                    let dd = choose|dd: int| 0 <= dd < 8 && #[trigger] neighbor(*map, start as int, dd)
                        == Some(t);
                    assert(visited@[t]);
                }
            }
        }
    }
    best
}

/// The eight king-move offsets, by direction index.
fn dir_offsets(d: usize) -> (r: (i32, i32))
    requires
        d < 8,
    ensures
        r.0 as int == dir_dx(d as int),
        r.1 as int == dir_dy(d as int),
{
    if d == 0 {
        (-1, -1)
    } else if d == 1 {
        (-1, 0)
    } else if d == 2 {
        (-1, 1)
    } else if d == 3 {
        (0, -1)
    } else if d == 4 {
        (0, 1)
    } else if d == 5 {
        (1, -1)
    } else if d == 6 {
        (1, 0)
    } else {
        (1, 1)
    }
}

proof fn lemma_count_all_false(s: Seq<bool>, k: int)
    requires
        forall|x: int| 0 <= x < k ==> !(#[trigger] s[x]),
    ensures
        count_true(s, k) == 0,
    decreases k,
{
    reveal_with_fuel(count_true, 3);
    if k > 0 {
        lemma_count_all_false(s, k - 1);
        assert(count_true(s, k) == count_true(s, k - 1) + (if s[k - 1] {
            1int
        } else {
            0int
        }));
    }
}

proof fn lemma_bfs_complete(
    m: GameMap,
    visited: Seq<bool>,
    queue: Seq<usize>,
    g: int,
    p: Seq<int>,
)
    requires
        m.wf(),
        m.tiles@.len() <= usize::MAX,
        visited.len() == m.tiles@.len(),
        valid_rev_path(m, p, g),
        visited[g],
        forall|qi: int| 0 <= qi < queue.len() ==> (#[trigger] queue[qi] as int) < m.tiles@.len(),
        forall|x: int|
            0 <= x < visited.len() && #[trigger] visited[x] ==> queue.contains(x as usize),
        forall|qi: int, d: int|
            0 <= qi < queue.len() && 0 <= d < 8 ==> (match #[trigger] neighbor(
                m,
                queue[qi] as int,
                d,
            ) {
                Some(nb) => open_at(m, nb) ==> visited[nb],
                None => true,
            }),
    ensures
        visited[p.last()],
    decreases p.len(),
{
    if p.len() == 1 {
        assert(p.last() == g);
    } else {
        let q = p.subrange(0, p.len() - 1);
        assert(valid_rev_path(m, q, g)) by {
            assert(forall|i: int| 0 <= i < q.len() ==> q[i] == #[trigger] p[i]);
        }
        lemma_bfs_complete(m, visited, queue, g, q);
        let c = p[p.len() - 2];
        let t = p.last();
        assert(q.last() == c);
        assert(visited[c]);
        assert(adjacent8(m, c, t) && open_at(m, t));
        let cu = c as usize;
        assert(cu as int == c);
        assert(queue.contains(cu));
        let qi = choose|qi: int| 0 <= qi < queue.len() && queue[qi] == cu;
        lemma_adjacent_has_dir(m, c, t);
        let d = choose|d: int| 0 <= d < 8 && #[trigger] neighbor(m, c, d) == Some(t);
        assert(queue[qi] as int == c);
        assert(match neighbor(m, queue[qi] as int, d) {
            Some(nb) => open_at(m, nb) ==> visited[nb],
            None => true,
        });
    }
}

} // verus!
