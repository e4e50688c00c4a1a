//! Distance-field builders: multi-source wavefront expansion over a
//! grid map, 8-connected with unit step cost. Each builder returns a
//! map of the input geometry whose free cells reached by the wavefront
//! carry the step distance from the nearest seed, clamped to 255.
//! Obstacle cells stay marked Obstacle, and cells the wavefront never
//! reaches stay Uninitialized, which the planner treats as impassable.

use vstd::prelude::*;

use crate::geometry::Indices;
use crate::grid_map::{Cell, GridMap};

verus! {

/// Number of Uninitialized entries in a cell store; the wavefront's
/// termination measure.
pub open spec fn count_uninit(s: Seq<Cell<u8>>) -> nat
    decreases s.len(),
{
    if s.len() == 0 {
        0
    } else {
        count_uninit(s.drop_last()) + if s.last() is Uninitialized {
            1nat
        } else {
            0nat
        }
    }
}

proof fn lemma_count_uninit_update(s: Seq<Cell<u8>>, k: int, c: Cell<u8>)
    requires
        0 <= k < s.len(),
        s[k] is Uninitialized,
        !(c is Uninitialized),
    ensures
        count_uninit(s.update(k, c)) + 1 == count_uninit(s),
    decreases s.len(),
{
    let t = s.update(k, c);
    if k == s.len() - 1 {
        assert(t.drop_last() =~= s.drop_last());
    } else {
        lemma_count_uninit_update(s.drop_last(), k, c);
        assert(t.drop_last() =~= s.drop_last().update(k, c));
        assert(t.last() == s.last());
    }
}

/// The flat index is one of the seed cells.
pub open spec fn spec_is_seed(seeds: Seq<usize>, k: int) -> bool {
    exists|i: int| 0 <= i < seeds.len() && (#[trigger] seeds[i]) as int == k
}

/// Wavefront expansion from the given seed cells (flat indices). A seed
/// on a free cell is written as distance zero; a seed on an Obstacle
/// cell keeps its marking but still spreads distance one to its free
/// neighbors. Expansion writes each free cell at most once, so obstacle
/// markings and seed distances are preserved.
#[verifier::loop_isolation(false)]
fn build_distance_field(map: &GridMap<u8>, seeds: &Vec<usize>) -> (r: GridMap<u8>)
    requires
        map.wf(),
        forall|i: int| 0 <= i < seeds@.len() ==> (#[trigger] seeds@[i]) < map.cells@.len(),
    ensures
        r.wf(),
        r.same_geometry(map),
        r.cells@.len() == map.cells@.len(),
        forall|k: int|
            0 <= k < map.cells@.len() ==> ((#[trigger] r.cells@[k]) is Obstacle <==> map.cells@[k]
                is Obstacle),
        forall|i: int|
            0 <= i < seeds@.len() && !(map.cells@[seeds@[i] as int] is Obstacle)
                ==> (#[trigger] r.cells@[seeds@[i] as int]) == Cell::<u8>::Value(0),
        forall|k: int|
            0 <= k < map.cells@.len() && (#[trigger] r.cells@[k]) == Cell::<u8>::Value(0)
                ==> spec_is_seed(seeds@, k),
    {
    let n = map.cells.len();
    proof {
        crate::grid_map::lemma_cell_count_props(
            map.min_point.x as int,
            map.max_point.x as int,
            map.resolution as int,
        );
        crate::grid_map::lemma_cell_count_props(
            map.min_point.y as int,
            map.max_point.y as int,
            map.resolution as int,
        );
    }
    // Start from the obstacle mask of the input.
    let mut cells: Vec<Cell<u8>> = Vec::new();
    let mut k: usize = 0;
    while k < n
        invariant
            cells@.len() == k,
            k <= n,
            forall|j: int|
                0 <= j < k ==> ((#[trigger] cells@[j]) is Obstacle <==> map.cells@[j] is Obstacle),
            forall|j: int| 0 <= j < k ==> !((#[trigger] cells@[j]) is Value),
        decreases n - k,
    {
        match map.cells[k] {
            Cell::Obstacle => cells.push(Cell::Obstacle),
            _ => cells.push(Cell::Uninitialized),
        }
        k = k + 1;
    }
    // Enqueue every seed at distance zero.
    let mut queue: Vec<(usize, u8)> = Vec::new();
    let mut si: usize = 0;
    while si < seeds.len()
        invariant
            si <= seeds@.len(),
            cells@.len() == n,
            forall|j: int|
                0 <= j < n ==> ((#[trigger] cells@[j]) is Obstacle <==> map.cells@[j] is Obstacle),
            forall|j: int|
                0 <= j < n && (#[trigger] cells@[j]) is Value ==> cells@[j] == Cell::<u8>::Value(0),
            forall|j: int|
                0 <= j < si && !(map.cells@[seeds@[j] as int] is Obstacle)
                    ==> (#[trigger] cells@[seeds@[j] as int]) == Cell::<u8>::Value(0),
            forall|j: int|
                0 <= j < n && (#[trigger] cells@[j]) == Cell::<u8>::Value(0) ==> spec_is_seed(
                    seeds@,
                    j,
                ),
            forall|q: int| 0 <= q < queue@.len() ==> (#[trigger] queue@[q]).0 < n,
        decreases seeds@.len() - si,
    {
        let s = seeds[si];
        proof {
            assert(spec_is_seed(seeds@, s as int));
        }
        match cells[s] {
            Cell::Uninitialized => {
                cells.set(s, Cell::Value(0));
                queue.push((s, 0));
            },
            Cell::Obstacle => {
                queue.push((s, 0));
            },
            Cell::Value(_) => {},
        }
        si = si + 1;
    }
    // Breadth-first expansion: pop in order, write unwritten free
    // neighbors with the parent distance plus one, saturating at 255.
    let mut head: usize = 0;
    while head < queue.len()
        invariant
            cells@.len() == n,
            head <= queue@.len(),
            forall|j: int|
                0 <= j < n ==> ((#[trigger] cells@[j]) is Obstacle <==> map.cells@[j] is Obstacle),
            forall|j: int|
                0 <= j < seeds@.len() && !(map.cells@[seeds@[j] as int] is Obstacle)
                    ==> (#[trigger] cells@[seeds@[j] as int]) == Cell::<u8>::Value(0),
            forall|j: int|
                0 <= j < n && (#[trigger] cells@[j]) == Cell::<u8>::Value(0) ==> spec_is_seed(
                    seeds@,
                    j,
                ),
            forall|q: int| 0 <= q < queue@.len() ==> (#[trigger] queue@[q]).0 < n,
        decreases 9 * count_uninit(cells@) + queue@.len() - head,
    {
        let pair = queue[head];
        let cur = pair.0;
        let d = pair.1;
        head = head + 1;
        let nd: u8 = if d >= 255 {
            255
        } else {
            d + 1
        };
        proof {
            map.lemma_flat_indices_valid(cur as int);
        }
        let col: usize = cur % map.width;
        let row: usize = cur / map.width;
        let ghost cells_snap = cells@;
        let ghost qlen_snap = queue@.len();
        let mut dc: i64 = -1;
        while dc <= 1
            invariant
                -1 <= dc <= 2,
                cells@.len() == n,
                head <= queue@.len(),
                qlen_snap <= queue@.len(),
                9 * count_uninit(cells@) + queue@.len() <= 9 * count_uninit(cells_snap)
                    + qlen_snap,
                forall|j: int|
                    0 <= j < n ==> ((#[trigger] cells@[j]) is Obstacle <==> map.cells@[j]
                        is Obstacle),
                forall|j: int|
                    0 <= j < seeds@.len() && !(map.cells@[seeds@[j] as int] is Obstacle)
                        ==> (#[trigger] cells@[seeds@[j] as int]) == Cell::<u8>::Value(0),
                forall|j: int|
                    0 <= j < n && (#[trigger] cells@[j]) == Cell::<u8>::Value(0)
                        ==> spec_is_seed(seeds@, j),
                forall|q: int| 0 <= q < queue@.len() ==> (#[trigger] queue@[q]).0 < n,
            decreases 2 - dc,
        {
            let mut dr: i64 = -1;
            while dr <= 1
                invariant
                    -1 <= dc <= 1,
                    -1 <= dr <= 2,
                    cells@.len() == n,
                    head <= queue@.len(),
                    qlen_snap <= queue@.len(),
                    9 * count_uninit(cells@) + queue@.len() <= 9 * count_uninit(cells_snap)
                        + qlen_snap,
                    forall|j: int|
                        0 <= j < n ==> ((#[trigger] cells@[j]) is Obstacle <==> map.cells@[j]
                            is Obstacle),
                    forall|j: int|
                        0 <= j < seeds@.len() && !(map.cells@[seeds@[j] as int] is Obstacle)
                            ==> (#[trigger] cells@[seeds@[j] as int]) == Cell::<u8>::Value(0),
                    forall|j: int|
                        0 <= j < n && (#[trigger] cells@[j]) == Cell::<u8>::Value(0)
                            ==> spec_is_seed(seeds@, j),
                    forall|q: int| 0 <= q < queue@.len() ==> (#[trigger] queue@[q]).0 < n,
                decreases 2 - dr,
            {
                if !(dc == 0 && dr == 0) {
                    let ncol: i64 = col as i64 + dc;
                    let nrow: i64 = row as i64 + dr;
                    if 0 <= ncol && ncol < map.width as i64 && 0 <= nrow && nrow
                        < map.height as i64 {
                        proof {
                            assert(0 <= nrow * map.width as int + ncol < map.width as int
                                * map.height as int) by (nonlinear_arith)
                                requires
                                    0 <= ncol < map.width as int,
                                    0 <= nrow < map.height as int,
                            ;
                        }
                        let nk: usize = (nrow as usize) * map.width + (ncol as usize);
                        match cells[nk] {
                            Cell::Uninitialized => {
                                proof {
                                    lemma_count_uninit_update(
                                        cells@,
                                        nk as int,
                                        Cell::Value(nd),
                                    );
                                }
                                cells.set(nk, Cell::Value(nd));
                                queue.push((nk, nd));
                            },
                            _ => {},
                        }
                    }
                }
                dr = dr + 1;
            }
            dc = dc + 1;
        }
    }
    GridMap {
        min_point: map.min_point,
        max_point: map.max_point,
        resolution: map.resolution,
        width: map.width,
        height: map.height,
        cells,
    }
}

/// Distance field seeded at every Obstacle cell of the input: free
/// cells carry their step distance to the nearest obstacle. Obstacle
/// cells are marked Obstacle at exactly the indices of the input.
pub fn obstacle_distance_map(map: &GridMap<u8>) -> (r: GridMap<u8>)
    requires
        map.wf(),
    ensures
        r.wf(),
        r.same_geometry(map),
        r.cells@.len() == map.cells@.len(),
        forall|k: int|
            0 <= k < map.cells@.len() ==> ((#[trigger] r.cells@[k]) is Obstacle <==> map.cells@[k]
                is Obstacle),
        forall|k: int|
            0 <= k < map.cells@.len() ==> (#[trigger] r.cells@[k]) != Cell::<u8>::Value(0),
{
    let n = map.cells.len();
    let mut seeds: Vec<usize> = Vec::new();
    let mut k: usize = 0;
    while k < n
        invariant
            k <= n,
            n == map.cells@.len(),
            forall|i: int| 0 <= i < seeds@.len() ==> (#[trigger] seeds@[i]) < n,
            forall|i: int|
                0 <= i < seeds@.len() ==> map.cells@[(#[trigger] seeds@[i]) as int] is Obstacle,
        decreases n - k,
    {
        match map.cells[k] {
            Cell::Obstacle => seeds.push(k),
            _ => {},
        }
        k = k + 1;
    }
    let r = build_distance_field(map, &seeds);
    proof {
        assert forall|k: int|
            0 <= k < map.cells@.len() implies (#[trigger] r.cells@[k]) != Cell::<u8>::Value(0) by {
            if r.cells@[k] == Cell::<u8>::Value(0) {
                let i = choose|i: int|
                    0 <= i < seeds@.len() && (#[trigger] seeds@[i]) as int == k;
                assert(map.cells@[k] is Obstacle);
            }
        }
    }
    r
}

/// Distance field seeded at a single goal cell: a potential decreasing
/// toward the goal, whose cell carries distance zero. Obstacle cells
/// are marked Obstacle at exactly the indices of the input.
pub fn goal_distance_map(map: &GridMap<u8>, goal_indices: &Indices) -> (r: GridMap<u8>)
    requires
        map.wf(),
        map.contains_indices(*goal_indices),
        !(map.cells@[map.spec_flat_index(*goal_indices)] is Obstacle),
    ensures
        r.wf(),
        r.same_geometry(map),
        r.cells@.len() == map.cells@.len(),
        forall|k: int|
            0 <= k < map.cells@.len() ==> ((#[trigger] r.cells@[k]) is Obstacle <==> map.cells@[k]
                is Obstacle),
        r.cells@[map.spec_flat_index(*goal_indices)] == Cell::<u8>::Value(0),
        forall|k: int|
            0 <= k < map.cells@.len() && (#[trigger] r.cells@[k]) == Cell::<u8>::Value(0) ==> k
                == map.spec_flat_index(*goal_indices),
{
    let k = match map.to_index_by_indices(goal_indices) {
        Some(k) => k,
        None => 0,  // unreachable: the goal is on the raster
    };
    let mut seeds: Vec<usize> = Vec::new();
    seeds.push(k);
    let r = build_distance_field(map, &seeds);
    proof {
        assert(seeds@[0] == map.spec_flat_index(*goal_indices));
        assert(r.cells@[seeds@[0] as int] == Cell::<u8>::Value(0));
        assert forall|j: int|
            0 <= j < map.cells@.len() && (#[trigger] r.cells@[j]) == Cell::<u8>::Value(0)
                implies j == map.spec_flat_index(*goal_indices) by {
            let i = choose|i: int| 0 <= i < seeds@.len() && (#[trigger] seeds@[i]) as int == j;
        }
    }
    r
}

/// Distance field seeded at every cell of the supplied polyline: the
/// distance-to-path potential. Obstacle cells are marked Obstacle at
/// exactly the indices of the input.
pub fn path_distance_map(map: &GridMap<u8>, path_indices: &Vec<Indices>) -> (r: GridMap<u8>)
    requires
        map.wf(),
        forall|i: int|
            0 <= i < path_indices@.len() ==> map.contains_indices(#[trigger] path_indices@[i])
                && !(map.cells@[map.spec_flat_index(path_indices@[i])] is Obstacle),
    ensures
        r.wf(),
        r.same_geometry(map),
        r.cells@.len() == map.cells@.len(),
        forall|k: int|
            0 <= k < map.cells@.len() ==> ((#[trigger] r.cells@[k]) is Obstacle <==> map.cells@[k]
                is Obstacle),
        forall|i: int|
            0 <= i < path_indices@.len() ==> r.cells@[map.spec_flat_index(
                #[trigger] path_indices@[i],
            )] == Cell::<u8>::Value(0),
        forall|k: int|
            0 <= k < map.cells@.len() && (#[trigger] r.cells@[k]) == Cell::<u8>::Value(0) ==> (
            exists|i: int|
                0 <= i < path_indices@.len() && map.spec_flat_index(
                    #[trigger] path_indices@[i],
                ) == k),
{
    let m = path_indices.len();
    let mut seeds: Vec<usize> = Vec::new();
    let mut i: usize = 0;
    while i < m
        invariant
            i <= m,
            m == path_indices@.len(),
            map.wf(),
            forall|j: int|
                0 <= j < path_indices@.len() ==> map.contains_indices(
                    #[trigger] path_indices@[j],
                ) && !(map.cells@[map.spec_flat_index(path_indices@[j])] is Obstacle),
            seeds@.len() == i,
            forall|j: int|
                0 <= j < i ==> (#[trigger] seeds@[j]) == map.spec_flat_index(path_indices@[j]),
            forall|j: int| 0 <= j < seeds@.len() ==> (#[trigger] seeds@[j]) < map.cells@.len(),
        decreases m - i,
    {
        let idx = path_indices[i];
        let k = match map.to_index_by_indices(&idx) {
            Some(k) => k,
            None => 0,  // unreachable: every path cell is on the raster
        };
        seeds.push(k);
        i = i + 1;
    }
    let r = build_distance_field(map, &seeds);
    proof {
        assert forall|j: int| 0 <= j < path_indices@.len() implies r.cells@[map.spec_flat_index(
            #[trigger] path_indices@[j],
        )] == Cell::<u8>::Value(0) by {
            assert(seeds@[j] == map.spec_flat_index(path_indices@[j]));
            assert(r.cells@[seeds@[j] as int] == Cell::<u8>::Value(0));
        }
        assert forall|k: int|
            0 <= k < map.cells@.len() && (#[trigger] r.cells@[k]) == Cell::<u8>::Value(0)
                implies (exists|i: int|
                0 <= i < path_indices@.len() && map.spec_flat_index(
                    #[trigger] path_indices@[i],
                ) == k) by {
            let i = choose|i: int| 0 <= i < seeds@.len() && (#[trigger] seeds@[i]) as int == k;
            assert(map.spec_flat_index(path_indices@[i]) == k);
        }
    }
    r
}

} // verus!
