//! Hydrological analysis of a height grid: slope magnitude and D8
//! steepest-descent flow direction per cell, then drainage basins.
//!
//! Directions are numbered 1 to 8 in the scan order N, NE, E, SE, S, SW, W,
//! NW; 0 marks a sink. Odd directions are cardinal (distance 1), even ones
//! diagonal (distance the square root of 2).
use vstd::prelude::*;
use crate::grid::{col_of, row_of, index_of, lemma_index_join, lemma_index_split};
use crate::heightmap::{Heightmap, HeightmapFile};
use crate::terrain::ConfigError;
use crate::weather_map::WeatherMap;

verus! {

/// Column offset of direction `d`.
pub open spec fn dir_dx(d: int) -> int {
    if d == 2 || d == 3 || d == 4 {
        1
    } else if d == 6 || d == 7 || d == 8 {
        -1
    } else {
        0
    }
}

/// Row offset of direction `d` (rows grow southward).
pub open spec fn dir_dy(d: int) -> int {
    if d == 1 || d == 2 || d == 8 {
        -1
    } else if d == 4 || d == 5 || d == 6 {
        1
    } else {
        0
    }
}

/// Whether the neighbour of cell `(x, y)` in direction `d` lies on the grid.
pub open spec fn neighbour_in_bounds(width: int, height: int, x: int, y: int, d: int) -> bool {
    &&& 1 <= d <= 8
    &&& 0 <= x + dir_dx(d) < width
    &&& 0 <= y + dir_dy(d) < height
}

/// Height of cell `(x, y)` minus that of its neighbour in direction `d`.
pub open spec fn drop_to(hm: Heightmap, x: int, y: int, d: int) -> int {
    hm.data[index_of(x, y, hm.width as int)] - hm.data[index_of(
        x + dir_dx(d),
        y + dir_dy(d),
        hm.width as int,
    )]
}

/// Whether direction `d` leads strictly downhill from `(x, y)`.
pub open spec fn is_descent(hm: Heightmap, x: int, y: int, d: int) -> bool {
    neighbour_in_bounds(hm.width as int, hm.height as int, x, y, d) && drop_to(hm, x, y, d) > 0
}

/// Twice the square of the descent rate `drop / distance`: `2 * drop^2` for a
/// cardinal direction, `drop^2` for a diagonal one. For positive drops it
/// orders directions exactly as their descent rates do.
pub open spec fn descent_key(drop: int, d: int) -> int {
    if d % 2 == 1 {
        2 * (drop * drop)
    } else {
        drop * drop
    }
}

/// The steepest-descent rule: `f` is a direction of strictly greatest
/// positive descent rate, the first in scan order among equals; or 0 when
/// no neighbour lies strictly lower.
pub open spec fn is_flow_choice(hm: Heightmap, x: int, y: int, f: int) -> bool {
    if f == 0 {
        forall|d: int| 1 <= d <= 8 ==> !is_descent(hm, x, y, d)
    } else {
        &&& 1 <= f <= 8
        &&& is_descent(hm, x, y, f)
        &&& forall|d: int|
            1 <= d <= 8 && is_descent(hm, x, y, d) ==> descent_key(drop_to(hm, x, y, d), d)
                <= descent_key(drop_to(hm, x, y, f), f) && (d < f ==> descent_key(
                drop_to(hm, x, y, d),
                d,
            ) < descent_key(drop_to(hm, x, y, f), f))
    }
}

/// The slope rule: the largest absolute height difference to any neighbour
/// on the grid, 0 when there is none.
pub open spec fn is_slope(hm: Heightmap, x: int, y: int, s: int) -> bool {
    &&& s >= 0
    &&& forall|d: int|
        neighbour_in_bounds(hm.width as int, hm.height as int, x, y, d) ==> -s <= drop_to(
            hm,
            x,
            y,
            d,
        ) <= s
    &&& (s == 0 || exists|d: int|
        neighbour_in_bounds(hm.width as int, hm.height as int, x, y, d) && (drop_to(hm, x, y, d)
            == s || drop_to(hm, x, y, d) == -s))
}

/// Every height difference between neighbours fits a slope value.
pub open spec fn slopes_fit(hm: Heightmap) -> bool {
    forall|x: int, y: int, d: int|
        0 <= x < hm.width && 0 <= y < hm.height && neighbour_in_bounds(
            hm.width as int,
            hm.height as int,
            x,
            y,
            d,
        ) ==> -i16::MAX <= #[trigger] drop_to(hm, x, y, d) <= i16::MAX
}

fn dir_offset(dir: u8) -> (r: (i64, i64))
    requires
        1 <= dir <= 8,
    ensures
        r.0 == dir_dx(dir as int),
        r.1 == dir_dy(dir as int),
{
    match dir {
        1 => (0, -1),
        2 => (1, -1),
        3 => (1, 0),
        4 => (1, 1),
        5 => (0, 1),
        6 => (-1, 1),
        7 => (-1, 0),
        _ => (-1, -1),
    }
}

/// Slope and flow direction of cell `(x, y)`; `(0, 0)` off the grid.
pub fn calc_slope_and_flow(hm: &Heightmap, x: u32, y: u32) -> (r: (i16, u8))
    requires
        hm.wf(),
        slopes_fit(*hm),
    ensures
        x < hm.width && y < hm.height ==> is_slope(*hm, x as int, y as int, r.0 as int)
            && is_flow_choice(*hm, x as int, y as int, r.1 as int),
        !(x < hm.width && y < hm.height) ==> r == (0i16, 0u8),
{
    let center = match hm.get(x, y) {
        Some(h) => h,
        None => {
            return (0, 0);
        },
    };
    let ghost xi = x as int;
    let ghost yi = y as int;
    proof {
        lemma_index_join(xi, yi, hm.width as int, hm.height as int);
    }
    let mut best_flow: u8 = 0;
    let mut best_key: i64 = 0;
    let mut max_diff: i32 = 0;
    let ghost mut witness: int = 0;
    let mut dir: u8 = 1;
    while dir <= 8
        invariant
            hm.wf(),
            slopes_fit(*hm),
            x < hm.width,
            y < hm.height,
            xi == x,
            yi == y,
            0 <= index_of(xi, yi, hm.width as int) < hm.data.len(),
            center == hm.data[index_of(xi, yi, hm.width as int)],
            1 <= dir <= 9,
            0 <= max_diff <= i16::MAX,
            forall|d: int|
                1 <= d < dir && neighbour_in_bounds(hm.width as int, hm.height as int, xi, yi, d)
                    ==> -max_diff <= drop_to(*hm, xi, yi, d) <= max_diff,
            max_diff == 0 || (1 <= witness < dir && neighbour_in_bounds(
                hm.width as int,
                hm.height as int,
                xi,
                yi,
                witness,
            ) && (drop_to(*hm, xi, yi, witness) == max_diff || drop_to(*hm, xi, yi, witness)
                == -max_diff)),
            best_flow == 0 ==> best_key == 0,
            best_flow == 0 ==> forall|d: int| 1 <= d < dir ==> !is_descent(*hm, xi, yi, d),
            best_flow != 0 ==> {
                &&& 1 <= best_flow < dir
                &&& is_descent(*hm, xi, yi, best_flow as int)
                &&& best_key == descent_key(drop_to(*hm, xi, yi, best_flow as int), best_flow as int)
                &&& forall|d: int|
                    1 <= d < dir && is_descent(*hm, xi, yi, d) ==> descent_key(
                        drop_to(*hm, xi, yi, d),
                        d,
                    ) <= best_key && (d < best_flow ==> descent_key(drop_to(*hm, xi, yi, d), d)
                        < best_key)
            },
        decreases 9 - dir,
    {
        let (dx, dy) = dir_offset(dir);
        let nx: i64 = x as i64 + dx;
        let ny: i64 = y as i64 + dy;
        if nx >= 0 && ny >= 0 && nx < hm.width as i64 && ny < hm.height as i64 {
            let neighbour = match hm.get(nx as u32, ny as u32) {
                Some(h) => h,
                None => 0,
            };
            proof {
                assert(-i16::MAX <= drop_to(*hm, xi, yi, dir as int) <= i16::MAX);
            }
            let diff: i32 = center as i32 - neighbour as i32;
            assert(diff == drop_to(*hm, xi, yi, dir as int));
            let abs_diff: i32 = if diff < 0 {
                -diff
            } else {
                diff
            };
            if abs_diff > max_diff {
                max_diff = abs_diff;
                proof {
                    witness = dir as int;
                }
            }
            if diff > 0 {
                let d64: i64 = diff as i64;
                assert(1 <= d64 * d64 <= 0x4000_0000) by (nonlinear_arith)
                    requires 0 < d64 <= i16::MAX;
                let key: i64 = if dir % 2 == 1 {
                    2 * (d64 * d64)
                } else {
                    d64 * d64
                };
                if key > best_key {
                    best_key = key;
                    best_flow = dir;
                }
            }
        }
        dir = dir + 1;
    }
    (max_diff as i16, best_flow)
}

/// The cell that cell `i` drains into: its neighbour in its recorded flow
/// direction, or `None` for a sink, an unknown direction or a neighbour off
/// the grid.
pub open spec fn flow_target(flow: Seq<u8>, width: int, height: int, i: int) -> Option<int> {
    let d = flow[i] as int;
    let x = col_of(i, width) + dir_dx(d);
    let y = row_of(i, width) + dir_dy(d);
    if 1 <= d <= 8 && 0 <= x < width && 0 <= y < height {
        Some(index_of(x, y, width))
    } else {
        None
    }
}

/// Whether cell `i` ends every flow path through it.
pub open spec fn is_terminal(flow: Seq<u8>, width: int, height: int, i: int) -> bool {
    flow_target(flow, width, height, i) is None
}

/// The partial labelling kept while basins are resolved: ids below
/// `next_id`; a labelled cell drains into a cell with its own id; no two
/// labelled terminal cells share an id.
pub open spec fn basins_consistent(
    flow: Seq<u8>,
    basin: Seq<u32>,
    width: int,
    height: int,
    next_id: int,
) -> bool {
    &&& basin.len() == flow.len()
    &&& forall|j: int| 0 <= j < basin.len() ==> #[trigger] basin[j] < next_id
    &&& forall|j: int|
        0 <= j < basin.len() && basin[j] != 0 && (#[trigger] flow_target(
            flow,
            width,
            height,
            j,
        )) is Some ==> basin[flow_target(flow, width, height, j)->0] == basin[j]
    &&& forall|a: int, b: int|
        0 <= a < basin.len() && 0 <= b < basin.len() && a != b && is_terminal(
            flow,
            width,
            height,
            a,
        ) && is_terminal(flow, width, height, b) && #[trigger] basin[a] != 0
            && #[trigger] basin[b] != 0 ==> basin[a] != basin[b]
}

/// A finished basin grid: every cell has an id other than 0, every cell
/// shares the id of the cell it drains into, and distinct terminal cells
/// have distinct ids.
pub open spec fn basins_resolved(flow: Seq<u8>, basin: Seq<u32>, width: int, height: int) -> bool {
    &&& basin.len() == flow.len()
    &&& forall|j: int| 0 <= j < basin.len() ==> #[trigger] basin[j] != 0
    &&& forall|j: int|
        0 <= j < basin.len() && (#[trigger] flow_target(flow, width, height, j)) is Some
            ==> basin[flow_target(flow, width, height, j)->0] == basin[j]
    &&& forall|a: int, b: int|
        0 <= a < basin.len() && 0 <= b < basin.len() && a != b && is_terminal(
            flow,
            width,
            height,
            a,
        ) && is_terminal(flow, width, height, b) ==> #[trigger] basin[a] != #[trigger] basin[b]
}

/// A flow target lies on the grid.
pub proof fn lemma_target_in_grid(flow: Seq<u8>, width: int, height: int, i: int)
    requires
        width > 0,
        0 <= i < width * height,
        flow_target(flow, width, height, i) is Some,
    ensures
        0 <= flow_target(flow, width, height, i)->0 < width * height,
{
    let d = flow[i] as int;
    lemma_index_join(col_of(i, width) + dir_dx(d), row_of(i, width) + dir_dy(d), width, height);
}

fn target_of(flow: &Vec<u8>, width: u32, height: u32, i: usize) -> (r: Option<usize>)
    requires
        width > 0,
        flow.len() == width * height,
        i < flow.len(),
    ensures
        match r {
            Some(t) => flow_target(flow@, width as int, height as int, i as int) == Some(t as int),
            None => flow_target(flow@, width as int, height as int, i as int) is None,
        },
{
    let dir = flow[i];
    if dir == 0 || dir > 8 {
        return None;
    }
    proof {
        lemma_index_split(i as int, width as int, height as int);
    }
    let w = width as usize;
    let (dx, dy) = dir_offset(dir);
    let nx: i64 = (i % w) as i64 + dx;
    let ny: i64 = (i / w) as i64 + dy;
    if nx < 0 || ny < 0 || nx >= width as i64 || ny >= height as i64 {
        return None;
    }
    proof {
        lemma_index_join(nx as int, ny as int, width as int, height as int);
    }
    Some(ny as usize * w + nx as usize)
}

fn relabel_path(basin: &mut Vec<u32>, path: &Vec<usize>, mark: u32, id: u32)
    requires
        forall|m: int|
            0 <= m < path.len() ==> path[m] < old(basin).len() && old(basin)[path[m] as int]
                == mark,
    ensures
        final(basin).len() == old(basin).len(),
        forall|m: int| 0 <= m < path.len() ==> final(basin)[path[m] as int] == id,
        forall|j: int|
            0 <= j < final(basin).len() ==> #[trigger] final(basin)[j] == old(basin)[j] || (old(
                basin,
            )[j] == mark && final(basin)[j] == id),
{
    let mut k: usize = 0;
    while k < path.len()
        invariant
            basin.len() == old(basin).len(),
            k <= path.len(),
            forall|m: int|
                0 <= m < path.len() ==> path[m] < old(basin).len() && old(basin)[path[m] as int]
                    == mark,
            forall|m: int| 0 <= m < k ==> basin[path[m] as int] == id,
            forall|j: int|
                0 <= j < basin.len() ==> #[trigger] basin[j] == old(basin)[j] || (old(basin)[j]
                    == mark && basin[j] == id),
        decreases path.len() - k,
    {
        basin.set(path[k], id);
        k = k + 1;
    }
}

/// Labels the basin of `start` by walking its flow path. Cells on the walk
/// carry the id `mark` until the walk ends: at a labelled cell, whose id
/// they take; or at a terminal cell, or back on the walk itself, where
/// `mark` becomes a new basin id and `true` is returned.
fn resolve_from(
    basin: &mut Vec<u32>,
    flow: &Vec<u8>,
    width: u32,
    height: u32,
    start: usize,
    mark: u32,
) -> (allocated: bool)
    requires
        width > 0,
        flow.len() == width * height,
        mark >= 1,
        basins_consistent(flow@, old(basin)@, width as int, height as int, mark as int),
        start < flow.len(),
        old(basin)[start as int] == 0,
    ensures
        final(basin).len() == old(basin).len(),
        basins_consistent(
            flow@,
            final(basin)@,
            width as int,
            height as int,
            if allocated {
                mark + 1
            } else {
                mark as int
            },
        ),
        final(basin)[start as int] != 0,
        forall|j: int|
            0 <= j < old(basin).len() && old(basin)[j] != 0 ==> #[trigger] final(basin)[j] == old(
                basin,
            )[j],
{
    let ghost w = width as int;
    let ghost h = height as int;
    let ghost n = flow.len() as int;
    basin.set(start, mark);
    let mut path: Vec<usize> = Vec::new();
    path.push(start);
    let ghost mut seen: Set<int> = Set::empty().insert(start as int);
    let mut curr: usize = start;
    proof {
        assert(path[0] == start);
        assert forall|j: int|
            0 <= j < n && j != curr && basin[j] != 0 && (#[trigger] flow_target(
                flow@,
                w,
                h,
                j,
            )) is Some implies basin[flow_target(flow@, w, h, j)->0] == basin[j] by {
            lemma_target_in_grid(flow@, w, h, j);
        }
    }
    loop
        invariant
            old(basin).len() == n,
            basins_consistent(flow@, old(basin)@, width as int, height as int, mark as int),
            w == width,
            h == height,
            n == flow.len(),
            n == w * h,
            w > 0,
            mark >= 1,
            basin.len() == n,
            path.len() >= 1,
            path[0] == start,
            curr == path[path.len() - 1],
            curr < n,
            basin[start as int] == mark,
            forall|j: int| 0 <= j < n ==> #[trigger] basin[j] <= mark,
            forall|j: int| 0 <= j < n ==> (#[trigger] basin[j] == mark <==> seen.contains(j)),
            forall|j: int| seen.contains(j) ==> 0 <= j < n,
            seen.finite(),
            seen.len() == path.len(),
            forall|m: int| 0 <= m < path.len() ==> path[m] < n && basin[path[m] as int] == mark,
            forall|j: int| #[trigger] seen.contains(j) ==> path@.contains(j as usize),
            forall|j: int|
                #[trigger] seen.contains(j) && j != curr ==> flow_target(flow@, w, h, j) is Some,
            forall|j: int|
                0 <= j < n && j != curr && basin[j] != 0 && (#[trigger] flow_target(
                    flow@,
                    w,
                    h,
                    j,
                )) is Some ==> basin[flow_target(flow@, w, h, j)->0] == basin[j],
            forall|a: int, b: int|
                0 <= a < n && 0 <= b < n && a != b && is_terminal(flow@, w, h, a) && is_terminal(
                    flow@,
                    w,
                    h,
                    b,
                ) && #[trigger] basin[a] != 0 && #[trigger] basin[b] != 0 ==> basin[a]
                    != basin[b],
            forall|j: int|
                0 <= j < n && old(basin)[j] != 0 ==> #[trigger] basin[j] == old(basin)[j],
        decreases n - path.len(),
    {
        match target_of(flow, width, height, curr) {
            None => {
                return true;
            },
            Some(t) => {
                proof {
                    lemma_target_in_grid(flow@, w, h, curr as int);
                }
                let id = basin[t];
                if id == mark {
                    return true;
                }
                if id != 0 {
                    let ghost pre = basin@;
                    relabel_path(basin, &path, mark, id);
                    proof {
                        assert forall|j: int|
                            0 <= j < n && basin[j] != 0 && (#[trigger] flow_target(
                                flow@,
                                w,
                                h,
                                j,
                            )) is Some implies basin[flow_target(flow@, w, h, j)->0]
                            == basin[j] by {
                            let tj = flow_target(flow@, w, h, j)->0;
                            lemma_target_in_grid(flow@, w, h, j);
                            assert(basin[tj] == pre[tj] || (pre[tj] == mark && basin[tj] == id));
                            assert(basin[j] == pre[j] || (pre[j] == mark && basin[j] == id));
                            if pre[j] == mark {
                                assert(seen.contains(j));
                                let m = choose|m: int| 0 <= m < path.len() && path[m] == j as usize;
                                assert(basin[j] == id);
                            }
                            if pre[tj] == mark {
                                assert(seen.contains(tj));
                                let m = choose|m: int| 0 <= m < path.len() && path[m] == tj as usize;
                                assert(basin[tj] == id);
                            }
                        }
                        assert forall|a: int, b: int|
                            0 <= a < n && 0 <= b < n && a != b && is_terminal(flow@, w, h, a)
                                && is_terminal(flow@, w, h, b) && #[trigger] basin[a] != 0
                                && #[trigger] basin[b] != 0 implies basin[a] != basin[b] by {
                            assert(basin[a] == pre[a] || (pre[a] == mark && basin[a] == id));
                            assert(basin[b] == pre[b] || (pre[b] == mark && basin[b] == id));
                            if pre[a] == mark {
                                assert(seen.contains(a));
                            }
                            if pre[b] == mark {
                                assert(seen.contains(b));
                            }
                        }
                        assert forall|j: int| 0 <= j < n implies #[trigger] basin[j] < mark by {
                            assert(basin[j] == pre[j] || (pre[j] == mark && basin[j] == id));
                        }
                        assert(basin[start as int] == id);
                        assert forall|j: int| 0 <= j < n && old(basin)[j] != 0 implies #[trigger] basin[j]
                            == old(basin)[j] by {
                            assert(basin[j] == pre[j] || (pre[j] == mark && basin[j] == id));
                        }
                    }
                    return false;
                }
                let ghost prev_curr = curr as int;
                let ghost before = basin@;
                basin.set(t, mark);
                let ghost old_path = path@;
                path.push(t);
                proof {
                    seen = seen.insert(t as int);
                    vstd::set_lib::lemma_int_range(0, n);
                    vstd::set_lib::lemma_len_subset(seen, vstd::set_lib::set_int_range(0, n));
                    assert(path@.last() == t);
                    assert forall|j: int|
                        0 <= j < n && j != t && basin[j] != 0 && (#[trigger] flow_target(
                            flow@,
                            w,
                            h,
                            j,
                        )) is Some implies basin[flow_target(flow@, w, h, j)->0] == basin[j] by {
                        lemma_target_in_grid(flow@, w, h, j);
                        let tj = flow_target(flow@, w, h, j)->0;
                        if j != prev_curr {
                            assert(before[j] == basin[j]);
                            assert(before[tj] == before[j]);
                        }
                    }
                    assert forall|j: int| #[trigger] seen.contains(j) implies path@.contains(
                        j as usize,
                    ) by {
                        if j != t {
                            assert(old_path.contains(j as usize));
                            let m = choose|m: int| 0 <= m < old_path.len() && old_path[m] == j as usize;
                            assert(path[m] == j as usize);
                        } else {
                            assert(path[path.len() - 1] == j as usize);
                        }
                    }
                }
                curr = t;
            },
        }
    }
}

/// Whether the slope and flow recorded for cell `i` follow the slope rule and
/// the steepest-descent rule.
pub open spec fn cell_analyzed(hm: Heightmap, slope: i16, flow: u8, i: int) -> bool {
    let x = col_of(i, hm.width as int);
    let y = row_of(i, hm.width as int);
    is_slope(hm, x, y, slope as int) && is_flow_choice(hm, x, y, flow as int)
}

/// Resolves drainage basins over the flow layer of `map`, sweeping cells in
/// index order and allocating ids from 1 upward.
fn identify_basins(map: &mut WeatherMap, width: u32, height: u32)
    requires
        old(map).wf(),
        old(map).width == width,
        old(map).height == height,
        width * height <= u32::MAX,
        forall|j: int| 0 <= j < old(map).basin.len() ==> old(map).basin[j] == 0,
    ensures
        final(map).width == old(map).width,
        final(map).height == old(map).height,
        final(map).slope@ == old(map).slope@,
        final(map).flow@ == old(map).flow@,
        final(map).wf(),
        basins_resolved(final(map).flow@, final(map).basin@, width as int, height as int),
{
    let n = map.flow.len();
    if n == 0 {
        return;
    }
    let mut next_id: u64 = 1;
    let mut i: usize = 0;
    while i < n
        invariant
            map.wf(),
            map.width == width,
            map.height == height,
            map.slope@ == old(map).slope@,
            map.flow@ == old(map).flow@,
            n == map.flow.len(),
            n == width * height,
            n <= u32::MAX,
            width > 0,
            i <= n,
            1 <= next_id <= i + 1,
            basins_consistent(map.flow@, map.basin@, width as int, height as int, next_id as int),
            forall|j: int| 0 <= j < i ==> #[trigger] map.basin[j] != 0,
        decreases n - i,
    {
        if map.basin[i] == 0 {
            let ghost pre = map.basin@;
            let allocated = resolve_from(&mut map.basin, &map.flow, width, height, i, next_id as u32);
            if allocated {
                next_id = next_id + 1;
            }
            assert forall|j: int| 0 <= j < i + 1 implies #[trigger] map.basin[j] != 0 by {
                if j < i {
                    assert(pre[j] != 0);
                }
            }
        }
        i = i + 1;
    }
}

/// Computes slope, flow direction and basin id for every cell.
pub fn generate_weather_map(heightmap: &Heightmap) -> (r: WeatherMap)
    requires
        heightmap.wf(),
        heightmap.width * heightmap.height <= u32::MAX,
        slopes_fit(*heightmap),
    ensures
        r.wf(),
        r.width == heightmap.width,
        r.height == heightmap.height,
        forall|i: int|
            0 <= i < r.flow.len() ==> cell_analyzed(*heightmap, #[trigger] r.slope[i], r.flow[i], i),
        basins_resolved(r.flow@, r.basin@, r.width as int, r.height as int),
{
    let width = heightmap.width;
    let height = heightmap.height;
    let mut map = WeatherMap::new(width, height);
    let n = map.flow.len();
    let mut i: usize = 0;
    while i < n
        invariant
            map.wf(),
            map.width == width,
            map.height == height,
            n == map.flow.len(),
            n == width * height,
            width == heightmap.width,
            height == heightmap.height,
            heightmap.wf(),
            slopes_fit(*heightmap),
            i <= n,
            forall|j: int| 0 <= j < n ==> #[trigger] map.basin[j] == 0,
            forall|j: int|
                0 <= j < i ==> cell_analyzed(*heightmap, #[trigger] map.slope[j], map.flow[j], j),
        decreases n - i,
    {
        proof {
            lemma_index_split(i as int, width as int, height as int);
        }
        let x = (i % width as usize) as u32;
        let y = (i / width as usize) as u32;
        let (slope, flow) = calc_slope_and_flow(heightmap, x, y);
        let ghost prev = map;
        map.slope.set(i, slope);
        map.flow.set(i, flow);
        assert forall|j: int| 0 <= j < i + 1 implies cell_analyzed(
            *heightmap,
            #[trigger] map.slope[j],
            map.flow[j],
            j,
        ) by {
            if j < i {
                assert(map.slope[j] == prev.slope[j]);
                assert(map.flow[j] == prev.flow[j]);
            }
        }
        i = i + 1;
    }
    identify_basins(&mut map, width, height);
    map
}

/// Whether following flow targets `k` times from cell `i` arrives at `t`.
pub open spec fn reaches(flow: Seq<u8>, width: int, height: int, i: int, t: int, k: nat) -> bool
    decreases k,
{
    if k == 0 {
        i == t
    } else {
        match flow_target(flow, width, height, i) {
            Some(j) => reaches(flow, width, height, j, t, (k - 1) as nat),
            None => false,
        }
    }
}

/// `rank` falls strictly along every flow step, so the flow relation is a
/// forest whose roots are the terminal cells.
pub open spec fn flow_ranked(flow: Seq<u8>, width: int, height: int, rank: Seq<nat>) -> bool {
    &&& rank.len() == flow.len()
    &&& forall|i: int|
        0 <= i < flow.len() && (#[trigger] flow_target(flow, width, height, i)) is Some
            ==> rank[flow_target(flow, width, height, i)->0] < rank[i]
}

/// Whether the flow path from cell `i` ends at a terminal cell.
pub open spec fn drains_to_terminal(flow: Seq<u8>, width: int, height: int, i: int) -> bool {
    exists|t: int, k: nat|
        0 <= t < flow.len() && is_terminal(flow, width, height, t) && #[trigger] reaches(
            flow,
            width,
            height,
            i,
            t,
            k,
        )
}

proof fn lemma_drains_to_terminal(
    flow: Seq<u8>,
    width: int,
    height: int,
    rank: Seq<nat>,
    i: int,
) -> (r: (int, nat))
    requires
        width > 0,
        flow.len() == width * height,
        flow_ranked(flow, width, height, rank),
        0 <= i < flow.len(),
    ensures
        0 <= r.0 < flow.len(),
        is_terminal(flow, width, height, r.0),
        reaches(flow, width, height, i, r.0, r.1),
    decreases rank[i],
{
    match flow_target(flow, width, height, i) {
        None => (i, 0),
        Some(j) => {
            lemma_target_in_grid(flow, width, height, i);
            let (t, k) = lemma_drains_to_terminal(flow, width, height, rank, j);
            (t, k + 1)
        },
    }
}

proof fn lemma_reach_keeps_basin(
    flow: Seq<u8>,
    basin: Seq<u32>,
    width: int,
    height: int,
    i: int,
    t: int,
    k: nat,
)
    requires
        width > 0,
        flow.len() == width * height,
        basins_resolved(flow, basin, width, height),
        0 <= i < flow.len(),
        reaches(flow, width, height, i, t, k),
    ensures
        0 <= t < flow.len(),
        basin[i] == basin[t],
    decreases k,
{
    if k > 0 {
        let j = flow_target(flow, width, height, i)->0;
        lemma_target_in_grid(flow, width, height, i);
        lemma_reach_keeps_basin(flow, basin, width, height, j, t, (k - 1) as nat);
    }
}

/// Basin coverage: when the flow relation is acyclic, every cell drains to a
/// terminal cell, and a cell carries the basin id of a terminal cell exactly
/// when its flow path reaches that cell. With the distinct ids of terminal
/// cells, each sink is the one representative of its basin.
pub proof fn lemma_basins_follow_flow(
    flow: Seq<u8>,
    basin: Seq<u32>,
    width: int,
    height: int,
    rank: Seq<nat>,
)
    requires
        width > 0,
        flow.len() == width * height,
        basins_resolved(flow, basin, width, height),
        flow_ranked(flow, width, height, rank),
    ensures
        forall|i: int| 0 <= i < flow.len() ==> #[trigger] drains_to_terminal(flow, width, height, i),
        forall|i: int, t: int|
            0 <= i < flow.len() && 0 <= t < flow.len() && is_terminal(flow, width, height, t)
                ==> (#[trigger] basin[i] == #[trigger] basin[t] <==> exists|k: nat|
                reaches(flow, width, height, i, t, k)),
{
    assert forall|i: int| 0 <= i < flow.len() implies #[trigger] drains_to_terminal(
        flow,
        width,
        height,
        i,
    ) by {
        let (t, k) = lemma_drains_to_terminal(flow, width, height, rank, i);
    }
    assert forall|i: int, t: int|
        0 <= i < flow.len() && 0 <= t < flow.len() && is_terminal(
            flow,
            width,
            height,
            t,
        ) implies (#[trigger] basin[i] == #[trigger] basin[t] <==> exists|k: nat|
        reaches(flow, width, height, i, t, k)) by {
        let (s, ks) = lemma_drains_to_terminal(flow, width, height, rank, i);
        lemma_reach_keeps_basin(flow, basin, width, height, i, s, ks);
        if basin[i] == basin[t] {
            assert(s == t);
            assert(reaches(flow, width, height, i, t, ks));
        }
        if exists|k: nat| reaches(flow, width, height, i, t, k) {
            let k = choose|k: nat| reaches(flow, width, height, i, t, k);
            lemma_reach_keeps_basin(flow, basin, width, height, i, t, k);
        }
    }
}

/// Along every recorded flow step the height falls strictly, so the flow
/// layer of an analysis is acyclic, ranked by height.
pub proof fn lemma_analyzed_flow_descends(hm: Heightmap, slope: Seq<i16>, flow: Seq<u8>)
    requires
        hm.wf(),
        hm.width > 0,
        flow.len() == hm.data.len(),
        slope.len() == hm.data.len(),
        forall|i: int| 0 <= i < flow.len() ==> cell_analyzed(hm, #[trigger] slope[i], flow[i], i),
    ensures
        forall|i: int|
            0 <= i < flow.len() && (#[trigger] flow_target(
                flow,
                hm.width as int,
                hm.height as int,
                i,
            )) is Some ==> hm.data[flow_target(flow, hm.width as int, hm.height as int, i)->0]
                < hm.data[i],
        flow_ranked(
            flow,
            hm.width as int,
            hm.height as int,
            Seq::new(flow.len(), |i: int| (hm.data[i] + 32768) as nat),
        ),
{
    let w = hm.width as int;
    let h = hm.height as int;
    assert forall|i: int|
        0 <= i < flow.len() && (#[trigger] flow_target(flow, w, h, i)) is Some implies hm.data[flow_target(
        flow,
        w,
        h,
        i,
    )->0] < hm.data[i] by {
        lemma_index_split(i, w, h);
        assert(cell_analyzed(hm, slope[i], flow[i], i));
        let d = flow[i] as int;
        assert(is_descent(hm, col_of(i, w), row_of(i, w), d));
    }
    let rank = Seq::new(flow.len(), |i: int| (hm.data[i] + 32768) as nat);
    assert forall|i: int|
        0 <= i < flow.len() && (#[trigger] flow_target(flow, w, h, i)) is Some implies rank[flow_target(
        flow,
        w,
        h,
        i,
    )->0] < rank[i] by {
        lemma_target_in_grid(flow, w, h, i);
    }
}

/// Heights that are all in `0..=i16::MAX` leave every slope representable.
pub proof fn lemma_nonnegative_heights_fit(hm: Heightmap)
    requires
        hm.wf(),
        forall|i: int| 0 <= i < hm.data.len() ==> 0 <= #[trigger] hm.data[i],
    ensures
        slopes_fit(hm),
{
    let w = hm.width as int;
    let h = hm.height as int;
    assert forall|x: int, y: int, d: int|
        0 <= x < hm.width && 0 <= y < hm.height && neighbour_in_bounds(
            w,
            h,
            x,
            y,
            d,
        ) implies -i16::MAX <= #[trigger] drop_to(hm, x, y, d) <= i16::MAX by {
        lemma_index_join(x, y, w, h);
        lemma_index_join(x + dir_dx(d), y + dir_dy(d), w, h);
    }
}

/// Analyzes the elevation grid of a heightmap file. Zero dimensions, and a
/// cell count beyond `u32`, are refused before any pass runs.
pub fn analyze_heightmap(file: &HeightmapFile) -> (r: Result<WeatherMap, ConfigError>)
    requires
        file.wf(),
    ensures
        file.width == 0 || file.height == 0 ==> r == Err::<WeatherMap, ConfigError>(
            ConfigError::ZeroDimension,
        ),
        file.width > 0 && file.height > 0 && file.width * file.height > u32::MAX ==> r == Err::<
            WeatherMap,
            ConfigError,
        >(ConfigError::GridTooLarge),
        file.width > 0 && file.height > 0 && file.width * file.height <= u32::MAX ==> {
            &&& r is Ok
            &&& r->Ok_0.wf()
            &&& r->Ok_0.width == file.width
            &&& r->Ok_0.height == file.height
            &&& exists|hm: Heightmap|
                {
                    &&& hm.width == file.width
                    &&& hm.height == file.height
                    &&& hm.data@ == file.elevation@.map_values(|e: u8| e as i16)
                    &&& forall|i: int|
                        0 <= i < hm.data.len() ==> cell_analyzed(
                            hm,
                            #[trigger] r->Ok_0.slope[i],
                            r->Ok_0.flow[i],
                            i,
                        )
                }
            &&& basins_resolved(r->Ok_0.flow@, r->Ok_0.basin@, file.width as int, file.height as int)
        },
{
    if file.width == 0 || file.height == 0 {
        return Err(ConfigError::ZeroDimension);
    }
    if file.elevation.len() > u32::MAX as usize {
        return Err(ConfigError::GridTooLarge);
    }
    let hm = Heightmap::from_file(file);
    proof {
        lemma_nonnegative_heights_fit(hm);
        assert(hm.data@ =~= file.elevation@.map_values(|e: u8| e as i16));
    }
    let map = generate_weather_map(&hm);
    Ok(map)
}

} // verus!
