//! The maze engine. A grid arrives as one string of newline-separated
//! rows over the alphabet 'I' (start), 'X' (end), 'M' (monster, costs one
//! endurance to enter), ' ' (free); every other character is a wall.
//! `solve` enumerates all simple paths by exhaustive backtracking in the
//! direction order right, up, left, down, and picks the successful path
//! with the least endurance left, breaking ties by the shorter path.
//! `verify` replays a candidate path step by step, independently of the
//! search.

use vstd::prelude::*;

use crate::messages::{MonstrousMazeInput, MonstrousMazeOutput};
use crate::strutil::push_char;

verus! {

const START_CHARACTER: char = 'I';

const END_CHARACTER: char = 'X';

const MONSTER_CHARACTER: char = 'M';

const FREE_WAY_CHARACTER: char = ' ';

/// The grid string split at every newline, one row per piece.
pub open spec fn split_lines(s: Seq<char>) -> Seq<Seq<char>>
    decreases s.len(),
{
    if s.len() == 0 {
        seq![Seq::empty()]
    } else {
        let prev = split_lines(s.drop_last());
        if s.last() == '\n' {
            prev + seq![Seq::empty()]
        } else {
            prev.update(prev.len() - 1, prev.last().push(s.last()))
        }
    }
}

/// Splitting yields at least one row, never more rows than characters
/// plus one, and no row longer than the whole string.
pub proof fn lemma_split_lines_bounds(s: Seq<char>)
    ensures
        1 <= split_lines(s).len() <= s.len() + 1,
        forall|i: int|
            0 <= i < split_lines(s).len() ==> (#[trigger] split_lines(s)[i]).len() <= s.len(),
    decreases s.len(),
{
    if s.len() > 0 {
        lemma_split_lines_bounds(s.drop_last());
    }
}

/// The rows of a grid, as character sequences.
pub open spec fn grid_rows(g: &Grid) -> Seq<Seq<char>> {
    g.grid@.map_values(|r: String| r@)
}

/// The column bound of the grid: the byte length of its first row, as the
/// bounds check reads it through a usize.
pub open spec fn byte_width(rows: Seq<Seq<char>>) -> int
    recommends
        rows.len() >= 1,
{
    (vstd::utf8::encode_utf8(rows[0]).len() as usize) as int
}

/// Inside the bounds check: row index within the rows, column index within
/// the byte length of the first row.
pub open spec fn in_grid_spec(rows: Seq<Seq<char>>, p: (int, int)) -> bool
    recommends
        rows.len() >= 1,
{
    &&& 0 <= p.0 < rows.len()
    &&& 0 <= p.1 < byte_width(rows)
}

/// The character at a position, when the row exists and is long enough.
pub open spec fn cell_at(rows: Seq<Seq<char>>, p: (int, int)) -> Option<char> {
    if 0 <= p.0 < rows.len() && 0 <= p.1 < rows[p.0].len() {
        Some(rows[p.0][p.1])
    } else {
        None
    }
}

/// One of the four direction characters.
pub open spec fn is_direction(d: char) -> bool {
    d == '<' || d == '>' || d == '^' || d == 'v'
}

/// The position one step in the given direction.
pub open spec fn step_spec(p: (int, int), d: char) -> (int, int)
    recommends
        is_direction(d),
{
    if d == '<' {
        (p.0, p.1 - 1)
    } else if d == '>' {
        (p.0, p.1 + 1)
    } else if d == '^' {
        (p.0 - 1, p.1)
    } else {
        (p.0 + 1, p.1)
    }
}

/// The index of the last occurrence of `c0` in a row, 0 when absent.
pub open spec fn last_index_in(r: Seq<char>, c0: char) -> int
    decreases r.len(),
{
    if r.len() == 0 {
        0
    } else if r.last() == c0 {
        r.len() - 1
    } else {
        last_index_in(r.drop_last(), c0)
    }
}

/// The position of the last occurrence of `c0` in row-major scan order,
/// (0, 0) when the character does not occur at all.
pub open spec fn find_char_last(rows: Seq<Seq<char>>, c0: char) -> (int, int)
    decreases rows.len(),
{
    if rows.len() == 0 {
        (0, 0)
    } else if rows.last().contains(c0) {
        (rows.len() - 1, last_index_in(rows.last(), c0))
    } else {
        find_char_last(rows.drop_last(), c0)
    }
}

/// The last-occurrence index is a real occurrence when the character is
/// present, and is always within the row.
proof fn lemma_last_index_bounds(r: Seq<char>, c0: char)
    ensures
        0 <= last_index_in(r, c0),
        r.contains(c0) ==> last_index_in(r, c0) < r.len() && r[last_index_in(r, c0)] == c0,
        !r.contains(c0) ==> last_index_in(r, c0) == 0,
    decreases r.len(),
{
    if r.len() > 0 {
        lemma_last_index_bounds(r.drop_last(), c0);
        if r.last() != c0 && r.contains(c0) {
            let k = choose|k: int| 0 <= k < r.len() && r[k] == c0;
            assert(r.drop_last()[k] == c0);
            assert(r.drop_last().contains(c0));
        }
    }
}

/// The found position points at the character when it occurs, and lies
/// within the grid whenever the grid is non-empty.
pub proof fn lemma_find_char_bounds(rows: Seq<Seq<char>>, c0: char)
    ensures
        0 <= find_char_last(rows, c0).0,
        0 <= find_char_last(rows, c0).1,
        rows.len() >= 1 ==> find_char_last(rows, c0).0 < rows.len(),
        find_char_last(rows, c0).1 != 0 ==> find_char_last(rows, c0).0 < rows.len()
            && find_char_last(rows, c0).1 < rows[find_char_last(rows, c0).0].len(),
    decreases rows.len(),
{
    if rows.len() > 0 {
        lemma_find_char_bounds(rows.drop_last(), c0);
        lemma_last_index_bounds(rows.last(), c0);
    }
}

/// The maze challenge around its input.
#[derive(Debug)]
pub struct MonstrousMaze {
    pub input: MonstrousMazeInput,
}

/// The parsed grid: its rows, the start and end positions, and the
/// endurance budget.
pub struct Grid {
    pub grid: Vec<String>,
    pub start: (u64, u64),
    pub end: (u64, u64),
    pub endurance: u8,
}

/// One branch of the backtracking search: where it stands, the directions
/// taken so far, the cells already visited on this path, whether it has
/// reached the end, and how much endurance is left.
pub struct GridPossibleSolution {
    pub current_coordinates: (i64, i64),
    pub path_taken: String,
    pub visited_coordinates: Vec<(i64, i64)>,
    pub success: bool,
    pub endurance_left: i8,
}

/// The mathematical image of one search branch.
pub struct SolutionModel {
    pub pos: (int, int),
    pub path: Seq<char>,
    pub visited: Seq<(int, int)>,
    pub success: bool,
    pub endurance: int,
}

/// Coordinates as mathematical integer pairs.
pub open spec fn coords_model(v: Seq<(i64, i64)>) -> Seq<(int, int)> {
    v.map_values(|p: (i64, i64)| (p.0 as int, p.1 as int))
}

/// The mathematical image of a search branch value.
pub open spec fn sol_model(s: GridPossibleSolution) -> SolutionModel {
    SolutionModel {
        pos: (s.current_coordinates.0 as int, s.current_coordinates.1 as int),
        path: s.path_taken@,
        visited: coords_model(s.visited_coordinates@),
        success: s.success,
        endurance: s.endurance_left as int,
    }
}

/// The mathematical image of a vector of branches.
pub open spec fn models(v: Seq<GridPossibleSolution>) -> Seq<SolutionModel> {
    v.map_values(|g: GridPossibleSolution| sol_model(g))
}

/// A cell number unique to each in-bounds position.
pub open spec fn cell_id(rows: Seq<Seq<char>>, p: (int, int)) -> int {
    p.0 * byte_width(rows) + p.1
}

/// The cell numbers of the in-bounds positions among the visited ones.
pub open spec fn rect_ids(rows: Seq<Seq<char>>, vis: Seq<(int, int)>) -> Set<int>
    decreases vis.len(),
{
    if vis.len() == 0 {
        Set::empty()
    } else {
        let rest = rect_ids(rows, vis.drop_last());
        if in_grid_spec(rows, vis.last()) {
            rest.insert(cell_id(rows, vis.last()))
        } else {
            rest
        }
    }
}

/// The visited-cell numbers form a finite subset of the grid's cell
/// numbers, and an id occurs exactly for the in-bounds visited positions.
proof fn lemma_rect_ids_props(rows: Seq<Seq<char>>, vis: Seq<(int, int)>)
    ensures
        rect_ids(rows, vis).finite(),
        rect_ids(rows, vis).len() <= rows.len() * byte_width(rows),
        forall|x: int|
            rect_ids(rows, vis).contains(x) <==> exists|k: int|
                0 <= k < vis.len() && in_grid_spec(rows, #[trigger] vis[k]) && x == cell_id(
                    rows,
                    vis[k],
                ),
    decreases vis.len(),
{
    let ids = rect_ids(rows, vis);
    let w = byte_width(rows);
    let n = rows.len() as int;
    vstd::set_lib::lemma_int_range(0, n * w);
    if vis.len() == 0 {
        assert(ids.subset_of(vstd::set_lib::set_int_range(0, n * w)));
        vstd::set_lib::lemma_len_subset(ids, vstd::set_lib::set_int_range(0, n * w));
    } else {
        lemma_rect_ids_props(rows, vis.drop_last());
        let rest = rect_ids(rows, vis.drop_last());
        let p = vis.last();
        assert(forall|k: int| 0 <= k < vis.len() - 1 ==> vis.drop_last()[k] == vis[k]);
        if in_grid_spec(rows, p) {
            assert(0 <= p.0 * w + p.1 < n * w) by (nonlinear_arith)
                requires
                    0 <= p.0 < n,
                    0 <= p.1 < w,
            ;
            assert forall|x: int| ids.contains(x) implies exists|k: int|
                0 <= k < vis.len() && in_grid_spec(rows, #[trigger] vis[k]) && x == cell_id(
                    rows,
                    vis[k],
                ) by {
                if x == cell_id(rows, p) {
                    assert(in_grid_spec(rows, vis[vis.len() - 1]) && x == cell_id(
                        rows,
                        vis[vis.len() - 1],
                    ));
                } else {
                    let k = choose|k: int|
                        0 <= k < vis.drop_last().len() && in_grid_spec(
                            rows,
                            #[trigger] vis.drop_last()[k],
                        ) && x == cell_id(rows, vis.drop_last()[k]);
                    assert(in_grid_spec(rows, vis[k]) && x == cell_id(rows, vis[k]));
                }
            }
        } else {
            assert forall|x: int| ids.contains(x) implies exists|k: int|
                0 <= k < vis.len() && in_grid_spec(rows, #[trigger] vis[k]) && x == cell_id(
                    rows,
                    vis[k],
                ) by {
                let k = choose|k: int|
                    0 <= k < vis.drop_last().len() && in_grid_spec(
                        rows,
                        #[trigger] vis.drop_last()[k],
                    ) && x == cell_id(rows, vis.drop_last()[k]);
                assert(in_grid_spec(rows, vis[k]) && x == cell_id(rows, vis[k]));
            }
        }
        assert forall|x: int| ids.contains(x) implies vstd::set_lib::set_int_range(
            0,
            n * w,
        ).contains(x) by {
            let k = choose|k: int|
                0 <= k < vis.len() && in_grid_spec(rows, #[trigger] vis[k]) && x == cell_id(
                    rows,
                    vis[k],
                );
            assert(0 <= vis[k].0 * w + vis[k].1 < n * w) by (nonlinear_arith)
                requires
                    0 <= vis[k].0 < n,
                    0 <= vis[k].1 < w,
            ;
        }
        vstd::set_lib::lemma_len_subset(ids, vstd::set_lib::set_int_range(0, n * w));
    }
}

/// How much of the grid the search may still enter on this branch.
pub open spec fn search_measure(rows: Seq<Seq<char>>, vis: Seq<(int, int)>) -> int {
    rows.len() * byte_width(rows) - rect_ids(rows, vis).len()
}

/// Recording an in-bounds, not yet visited position shrinks the measure
/// by one; recording an out-of-bounds position leaves it unchanged.
proof fn lemma_measure_push(rows: Seq<Seq<char>>, vis: Seq<(int, int)>, p: (int, int))
    requires
        !vis.contains(p),
    ensures
        0 <= search_measure(rows, vis.push(p)),
        in_grid_spec(rows, p) ==> search_measure(rows, vis.push(p)) == search_measure(rows, vis)
            - 1,
        !in_grid_spec(rows, p) ==> search_measure(rows, vis.push(p)) == search_measure(rows, vis),
{
    lemma_rect_ids_props(rows, vis);
    lemma_rect_ids_props(rows, vis.push(p));
    assert(vis.push(p).drop_last() =~= vis);
    assert(vis.push(p).last() == p);
    if in_grid_spec(rows, p) {
        let w = byte_width(rows);
        if rect_ids(rows, vis).contains(cell_id(rows, p)) {
            let k = choose|k: int|
                0 <= k < vis.len() && in_grid_spec(rows, #[trigger] vis[k]) && cell_id(rows, p)
                    == cell_id(rows, vis[k]);
            let q = vis[k];
            assert(q == p) by (nonlinear_arith)
                requires
                    0 <= q.1 < w,
                    0 <= p.1 < w,
                    q.0 * w + q.1 == p.0 * w + p.1,
            ;
            assert(vis.contains(p));
            assert(false);
        }
        assert(rect_ids(rows, vis.push(p)) == rect_ids(rows, vis).insert(cell_id(rows, p)));
    }
}

/// The measure is never negative.
proof fn lemma_measure_nonneg(rows: Seq<Seq<char>>, vis: Seq<(int, int)>)
    ensures
        0 <= search_measure(rows, vis),
{
    lemma_rect_ids_props(rows, vis);
}

/// 0 at an in-bounds position, 2 outside: the secondary termination rank.
pub open spec fn pos_rank(rows: Seq<Seq<char>>, p: (int, int)) -> int {
    if in_grid_spec(rows, p) {
        0
    } else {
        2
    }
}

/// Whether a cell character can be entered at all.
pub open spec fn is_passable(ch: char) -> bool {
    ch == 'I' || ch == 'X' || ch == 'M' || ch == ' '
}

/// All terminal branches of the exhaustive search from state `s`: branches
/// that reached the end marker (successful) and branches that ran out of
/// endurance. A branch dies silently on a revisited cell, a wall, or the
/// edge of the grid. `None` arises only when the current position has no
/// character under it, which the caller treats as an empty yield.
pub open spec fn search_paths(rows: Seq<Seq<char>>, s: SolutionModel) -> Option<Seq<SolutionModel>>
    decreases search_measure(rows, s.visited), pos_rank(rows, s.pos),
    via search_paths_dec
{
    if s.visited.contains(s.pos) {
        Some(Seq::empty())
    } else if s.endurance <= 0 {
        Some(seq![s])
    } else {
        match cell_at(rows, s.pos) {
            None => None,
            Some(ch) => if is_passable(ch) {
                if ch == 'X' {
                    Some(
                        seq![
                            SolutionModel {
                                visited: s.visited.push(s.pos),
                                success: true,
                                ..s
                            },
                        ],
                    )
                } else {
                    let s2 = SolutionModel {
                        visited: s.visited.push(s.pos),
                        endurance: if ch == 'M' {
                            s.endurance - 1
                        } else {
                            s.endurance
                        },
                        ..s
                    };
                    Some(
                        explore_dir(rows, s2, '>') + explore_dir(rows, s2, '^') + explore_dir(
                            rows,
                            s2,
                            '<',
                        ) + explore_dir(rows, s2, 'v'),
                    )
                }
            } else {
                Some(Seq::empty())
            },
        }
    }
}

/// The terminal branches reached by stepping once in direction `d` and
/// searching on: empty when the step leaves the bounds or the search under
/// it yields nothing.
pub open spec fn explore_dir(rows: Seq<Seq<char>>, s: SolutionModel, d: char) -> Seq<SolutionModel>
    decreases search_measure(rows, s.visited), 1int,
    via explore_dir_dec
{
    let next = step_spec(s.pos, d);
    if in_grid_spec(rows, next) {
        match search_paths(
            rows,
            SolutionModel { pos: next, path: s.path.push(d), success: false, ..s },
        ) {
            Some(ps) => ps,
            None => Seq::empty(),
        }
    } else {
        Seq::empty()
    }
}

#[via_fn]
proof fn search_paths_dec(rows: Seq<Seq<char>>, s: SolutionModel) {
    lemma_measure_nonneg(rows, s.visited);
    if !s.visited.contains(s.pos) && s.endurance > 0 {
        lemma_measure_push(rows, s.visited, s.pos);
    }
}

#[via_fn]
proof fn explore_dir_dec(rows: Seq<Seq<char>>, s: SolutionModel, d: char) {
    lemma_measure_nonneg(rows, s.visited);
}

/// Whether the visited list already holds the given coordinates.
fn contains_coords(v: &Vec<(i64, i64)>, c: (i64, i64)) -> (r: bool)
    ensures
        r == coords_model(v@).contains((c.0 as int, c.1 as int)),
{
    let mut i: usize = 0;
    while i < v.len()
        invariant
            i <= v@.len(),
            forall|k: int| 0 <= k < i ==> coords_model(v@)[k] != (c.0 as int, c.1 as int),
        decreases v@.len() - i,
    {
        let p = v[i];
        if p.0 == c.0 && p.1 == c.1 {
            proof {
                assert(coords_model(v@)[i as int] == (c.0 as int, c.1 as int));
            }
            return true;
        }
        i = i + 1;
    }
    proof {
        if coords_model(v@).contains((c.0 as int, c.1 as int)) {
            let k = choose|k: int|
                0 <= k < coords_model(v@).len() && coords_model(v@)[k] == (
                    c.0 as int,
                    c.1 as int,
                );
            assert(false);
        }
    }
    false
}

/// A fresh copy of a visited list.
fn clone_coords(v: &Vec<(i64, i64)>) -> (r: Vec<(i64, i64)>)
    ensures
        r@ == v@,
{
    let mut r: Vec<(i64, i64)> = Vec::new();
    let mut i: usize = 0;
    while i < v.len()
        invariant
            i <= v@.len(),
            r@ =~= v@.take(i as int),
        decreases v@.len() - i,
    {
        r.push(v[i]);
        proof {
            assert(v@.take(i + 1) =~= v@.take(i as int).push(v@[i as int]));
        }
        i = i + 1;
    }
    proof {
        assert(v@.take(v@.len() as int) =~= v@);
    }
    r
}

/// The bounds check of the search: the row index within the rows, the
/// column index within the byte length of the first row.
fn is_coordinates_in_grid(coordinates: (i64, i64), grid: &Grid) -> (r: bool)
    requires
        grid.grid@.len() >= 1,
    ensures
        r == in_grid_spec(grid_rows(grid), (coordinates.0 as int, coordinates.1 as int)),
{
    let (line_index, column_index) = coordinates;
    let line_count = grid.grid.len();
    let column_count = grid.grid[0].as_str().len();
    proof {
        assert(grid_rows(grid)[0] == grid.grid@[0]@);
        assert(grid_rows(grid).len() == grid.grid@.len());
    }
    if line_index >= 0 && column_index >= 0 {
        let row_ok = (line_index as u64) < (line_count as u64);
        let col_ok = (column_index as u64) < (column_count as u64);
        row_ok && col_ok
    } else {
        false
    }
}

/// One step of the search: if the new coordinates are in bounds, search on
/// from there with the direction appended to the path, and collect every
/// terminal branch found.
fn move_in_maze(
    direction: char,
    new_coordinates: (i64, i64),
    grid_possible_solution: &GridPossibleSolution,
    grid: &Grid,
    all_paths: &mut Vec<GridPossibleSolution>,
)
    requires
        grid.wf(),
        (new_coordinates.0 as int, new_coordinates.1 as int) == step_spec(
            sol_model(*grid_possible_solution).pos,
            direction,
        ),
    ensures
        models(final (all_paths)@) == models(old(all_paths)@) + explore_dir(
            grid_rows(grid),
            sol_model(*grid_possible_solution),
            direction,
        ),
    decreases search_measure(grid_rows(grid), sol_model(*grid_possible_solution).visited), 1int,
{
    let ghost rows = grid_rows(grid);
    let ghost m = sol_model(*grid_possible_solution);
    proof {
        lemma_measure_nonneg(rows, m.visited);
    }
    if is_coordinates_in_grid(new_coordinates, grid) {
        let mut new_path = grid_possible_solution.path_taken.clone();
        push_char(&mut new_path, direction);
        let new_grid_possible_solution = GridPossibleSolution {
            current_coordinates: new_coordinates,
            path_taken: new_path,
            visited_coordinates: clone_coords(&grid_possible_solution.visited_coordinates),
            success: false,
            endurance_left: grid_possible_solution.endurance_left,
        };
        proof {
            assert(sol_model(new_grid_possible_solution) == SolutionModel {
                pos: step_spec(m.pos, direction),
                path: m.path.push(direction),
                success: false,
                ..m
            });
        }
        match search(grid, new_grid_possible_solution) {
            Some(mut paths) => {
                let ghost found = paths@;
                all_paths.append(&mut paths);
                proof {
                    assert(models(old(all_paths)@ + found) =~= models(old(all_paths)@) + models(
                        found,
                    ));
                }
            },
            None => {
            },
        }
    } else {
        proof {
            assert(models(old(all_paths)@) + explore_dir(rows, m, direction) =~= models(
                old(all_paths)@,
            ));
        }
    }
}

/// The exhaustive backtracking search from one state. Returns every
/// terminal branch, or nothing when the current position carries no
/// character.
fn search(grid: &Grid, sol: GridPossibleSolution) -> (r: Option<Vec<GridPossibleSolution>>)
    requires
        grid.wf(),
        sol_model(sol).visited.contains(sol_model(sol).pos) || sol.endurance_left <= 0 || 0
            <= sol.current_coordinates.0 < grid.grid@.len(),
    ensures
        match r {
            Some(v) => search_paths(grid_rows(grid), sol_model(sol)) == Some(models(v@)),
            None => search_paths(grid_rows(grid), sol_model(sol)) == None::<Seq<SolutionModel>>,
        },
    decreases search_measure(grid_rows(grid), sol_model(sol).visited),
        pos_rank(grid_rows(grid), sol_model(sol).pos),
{
    let ghost rows = grid_rows(grid);
    let ghost m0 = sol_model(sol);
    if contains_coords(&sol.visited_coordinates, sol.current_coordinates) {
        proof {
            assert(models(Seq::<GridPossibleSolution>::empty()) =~= Seq::<
                SolutionModel,
            >::empty());
        }
        return Some(Vec::new());
    }
    if sol.endurance_left <= 0 {
        let mut v: Vec<GridPossibleSolution> = Vec::new();
        v.push(sol);
        proof {
            assert(models(v@) =~= seq![m0]);
        }
        return Some(v);
    }
    let mut sol1 = sol;
    sol1.visited_coordinates.push(sol1.current_coordinates);
    proof {
        assert(coords_model(sol1.visited_coordinates@) =~= m0.visited.push(m0.pos));
        lemma_measure_push(rows, m0.visited, m0.pos);
    }
    let n_rows = grid.grid.len();
    proof {
        assert(0 <= sol1.current_coordinates.0 < grid.grid@.len());
        assert(grid.grid@.len() == n_rows as int);
        assert(rows.len() == grid.grid@.len());
    }
    let li = sol1.current_coordinates.0 as usize;
    let current_line: &String = &grid.grid[li];
    proof {
        assert(rows[li as int] == grid.grid@[li as int]@);
        assert(m0.pos.0 == li as int);
    }
    let line_len = current_line.as_str().unicode_len();
    let ci = sol1.current_coordinates.1;
    if !(ci >= 0 && (ci as u64) < (line_len as u64)) {
        proof {
            assert(!(0 <= m0.pos.1 < rows[m0.pos.0].len()));
            assert(cell_at(rows, m0.pos) is None);
        }
        return None;
    }
    let current_char = current_line.as_str().get_char(ci as usize);
    proof {
        assert(0 <= m0.pos.1 < rows[m0.pos.0].len());
        assert(current_char == rows[m0.pos.0][m0.pos.1]);
        assert(cell_at(rows, m0.pos) == Some(current_char));
    }
    if current_char == START_CHARACTER || current_char == END_CHARACTER || current_char
        == MONSTER_CHARACTER || current_char == FREE_WAY_CHARACTER {
        if current_char == END_CHARACTER {
            sol1.success = true;
            let mut paths: Vec<GridPossibleSolution> = Vec::new();
            paths.push(sol1);
            proof {
                assert(models(paths@) =~= seq![
                    SolutionModel { visited: m0.visited.push(m0.pos), success: true, ..m0 },
                ]);
            }
            return Some(paths);
        }
        if current_char == MONSTER_CHARACTER {
            sol1.endurance_left = sol1.endurance_left - 1;
        }
        let ghost s2 = sol_model(sol1);
        proof {
            assert(s2 == SolutionModel {
                visited: m0.visited.push(m0.pos),
                endurance: if current_char == 'M' {
                    m0.endurance - 1
                } else {
                    m0.endurance
                },
                ..m0
            });
        }
        let mut all_paths: Vec<GridPossibleSolution> = Vec::new();
        let c = sol1.current_coordinates;
        move_in_maze('>', (c.0, c.1 + 1), &sol1, grid, &mut all_paths);
        move_in_maze('^', (c.0 - 1, c.1), &sol1, grid, &mut all_paths);
        move_in_maze('<', (c.0, c.1 - 1), &sol1, grid, &mut all_paths);
        move_in_maze('v', (c.0 + 1, c.1), &sol1, grid, &mut all_paths);
        proof {
            assert(models(all_paths@) =~= explore_dir(rows, s2, '>') + explore_dir(rows, s2, '^')
                + explore_dir(rows, s2, '<') + explore_dir(rows, s2, 'v'));
        }
        Some(all_paths)
    } else {
        proof {
            assert(models(Seq::<GridPossibleSolution>::empty()) =~= Seq::<
                SolutionModel,
            >::empty());
        }
        Some(Vec::new())
    }
}

/// The exhaustive backtracking search from one state: every terminal
/// branch of the maze from there, or nothing when the current position
/// carries no character.
pub fn find_paths(grid: &mut Grid, grid_possible_solution: GridPossibleSolution) -> (r: Option<
    Vec<GridPossibleSolution>,
>)
    requires
        old(grid).wf(),
        sol_model(grid_possible_solution).visited.contains(sol_model(grid_possible_solution).pos)
            || grid_possible_solution.endurance_left <= 0 || 0
            <= grid_possible_solution.current_coordinates.0 < old(grid).grid@.len(),
    ensures
        *final (grid) == *old(grid),
        match r {
            Some(v) => search_paths(grid_rows(old(grid)), sol_model(grid_possible_solution))
                == Some(models(v@)),
            None => search_paths(grid_rows(old(grid)), sol_model(grid_possible_solution))
                == None::<Seq<SolutionModel>>,
        },
{
    search(grid, grid_possible_solution)
}

/// The mathematical images of a vector of branch references.
pub open spec fn ref_models(v: Seq<&GridPossibleSolution>) -> Seq<SolutionModel> {
    v.map_values(|g: &GridPossibleSolution| sol_model(*g))
}

/// Strictly preferable: less endurance left, or equally much and a
/// shorter path.
pub open spec fn better(a: SolutionModel, b: SolutionModel) -> bool {
    a.endurance < b.endurance || (a.endurance == b.endurance && a.path.len() < b.path.len())
}

/// The first branch, in order, that no later branch strictly beats.
pub open spec fn best_of(s: Seq<SolutionModel>) -> SolutionModel
    recommends
        s.len() >= 1,
    decreases s.len(),
{
    if s.len() <= 1 {
        s[0]
    } else {
        let rest = best_of(s.drop_first());
        if better(rest, s[0]) {
            rest
        } else {
            s[0]
        }
    }
}

/// Appending a candidate replaces the champion only when the candidate is
/// strictly better.
proof fn lemma_best_of_push(s: Seq<SolutionModel>, x: SolutionModel)
    requires
        s.len() >= 1,
    ensures
        best_of(s.push(x)) == (if better(x, best_of(s)) {
            x
        } else {
            best_of(s)
        }),
    decreases s.len(),
{
    if s.len() == 1 {
        assert(s.push(x).drop_first() =~= seq![x]);
        assert(best_of(seq![x]) == x);
        assert(s.push(x)[0] == s[0]);
    } else {
        lemma_best_of_push(s.drop_first(), x);
        assert(s.push(x).drop_first() =~= s.drop_first().push(x));
        assert(s.push(x)[0] == s[0]);
    }
}

/// Whether the input is small enough for the coordinate arithmetic, and
/// its endurance fits the budget counter.
pub open spec fn maze_input_wf(input: &MonstrousMazeInput) -> bool {
    &&& input.grid@.len() <= 0x1000_0000_0000_0000
    &&& input.endurance <= 127
}

/// Whether the search's starting position carries a character at all.
pub open spec fn maze_has_start(rows: Seq<Seq<char>>) -> bool {
    cell_at(rows, find_char_last(rows, 'I')) is Some
}

/// The replay of a candidate path: step by step from the start, failing
/// on an exhausted budget, a character that is no direction, a step out
/// of bounds, a missing character, or a wall; succeeding exactly when a
/// step lands on the end marker with endurance left.
pub open spec fn replay_ok(
    rows: Seq<Seq<char>>,
    end: (int, int),
    pos: (int, int),
    endurance: int,
    path: Seq<char>,
) -> bool
    decreases path.len(),
{
    if path.len() == 0 {
        false
    } else if endurance <= 0 {
        false
    } else if !is_direction(path[0]) {
        false
    } else {
        let next = step_spec(pos, path[0]);
        if !in_grid_spec(rows, next) {
            false
        } else {
            match cell_at(rows, next) {
                None => false,
                Some(ch) => if ch == 'M' {
                    replay_ok(rows, end, next, endurance - 1, path.drop_first())
                } else if ch == 'X' && next == end {
                    endurance > 0
                } else if ch != ' ' {
                    false
                } else {
                    replay_ok(rows, end, next, endurance, path.drop_first())
                },
            }
        }
    }
}

/// What the verifier accepts: the path, replayed independently over the
/// parsed grid, reaches the end marker with endurance left.
pub open spec fn maze_accepts(input: &MonstrousMazeInput, path: Seq<char>) -> bool {
    let rows = split_lines(input.grid@);
    replay_ok(
        rows,
        find_char_last(rows, 'X'),
        find_char_last(rows, 'I'),
        input.endurance as int,
        path,
    )
}

/// The branches the solver keeps: successful ones with a non-empty path.
pub open spec fn good_pred() -> spec_fn(SolutionModel) -> bool {
    |s: SolutionModel| s.success && s.path.len() > 0
}

/// The path the solver chooses: among all successful branches of the
/// exhaustive search with a non-empty path, the one with the least
/// endurance left, ties broken by the shorter path, earliest found wins;
/// empty when no branch succeeds or every branch dies.
pub open spec fn solve_model(grid: Seq<char>, endurance: u8) -> Seq<char> {
    let rows = split_lines(grid);
    let init = SolutionModel {
        pos: find_char_last(rows, 'I'),
        path: Seq::empty(),
        visited: Seq::empty(),
        success: false,
        endurance: endurance as int,
    };
    match search_paths(rows, init) {
        None => Seq::empty(),
        Some(sols) => if sols.len() == 0 {
            Seq::empty()
        } else if forall|k: int| 0 <= k < sols.len() ==> (#[trigger] sols[k]).endurance <= 0 {
            Seq::empty()
        } else {
            let good = sols.filter(good_pred());
            if good.len() == 0 {
                Seq::empty()
            } else {
                best_of(good).path
            }
        },
    }
}

/// Unfolds the solver's model on the branch where a best path exists.
proof fn lemma_solve_model_unfold(grid: Seq<char>, endurance: u8, sols: Seq<SolutionModel>)
    requires
        search_paths(
            split_lines(grid),
            SolutionModel {
                pos: find_char_last(split_lines(grid), 'I'),
                path: Seq::empty(),
                visited: Seq::empty(),
                success: false,
                endurance: endurance as int,
            },
        ) == Some(sols),
        sols.len() != 0,
        !(forall|k: int| 0 <= k < sols.len() ==> (#[trigger] sols[k]).endurance <= 0),
        sols.filter(good_pred()).len() != 0,
    ensures
        solve_model(grid, endurance) == best_of(sols.filter(good_pred())).path,
{
}

/// Picks the preferred branch: least endurance left, ties broken by the
/// shorter path, the earliest such branch winning. None only on an empty
/// vector.
pub fn get_best_path(filtered_possible_solutions: Vec<&GridPossibleSolution>) -> (r: Option<
    &GridPossibleSolution,
>)
    ensures
        match r {
            Some(b) => filtered_possible_solutions@.len() > 0 && sol_model(*b) == best_of(
                ref_models(filtered_possible_solutions@),
            ),
            None => filtered_possible_solutions@.len() == 0,
        },
{
    let n = filtered_possible_solutions.len();
    if n == 0 {
        return None;
    }
    let mut best: &GridPossibleSolution = filtered_possible_solutions[0];
    proof {
        assert(ref_models(filtered_possible_solutions@.take(1)) =~= seq![sol_model(*best)]);
    }
    let mut i: usize = 1;
    while i < n
        invariant
            1 <= i <= n,
            n == filtered_possible_solutions@.len(),
            sol_model(*best) == best_of(ref_models(filtered_possible_solutions@.take(i as int))),
            ref_models(filtered_possible_solutions@.take(i as int)).len() >= 1,
        decreases n - i,
    {
        let cand = filtered_possible_solutions[i];
        let is_better: bool = if cand.endurance_left == best.endurance_left {
            cand.path_taken.as_str().unicode_len() < best.path_taken.as_str().unicode_len()
        } else {
            cand.endurance_left < best.endurance_left
        };
        proof {
            assert(is_better == better(sol_model(*cand), sol_model(*best)));
            lemma_best_of_push(
                ref_models(filtered_possible_solutions@.take(i as int)),
                sol_model(*cand),
            );
            assert(ref_models(filtered_possible_solutions@.take(i + 1)) =~= ref_models(
                filtered_possible_solutions@.take(i as int),
            ).push(sol_model(*cand)));
        }
        if is_better {
            best = cand;
        }
        i = i + 1;
    }
    proof {
        assert(filtered_possible_solutions@.take(n as int) =~= filtered_possible_solutions@);
    }
    Some(best)
}

impl MonstrousMaze {
    /// The engine's display name.
    pub fn name() -> (r: String)
        ensures
            r@ == "MonstrousMaze"@,
    {
        String::from_str("MonstrousMaze")
    }

    /// Wraps an input as a challenge.
    pub fn new(input: MonstrousMazeInput) -> (r: Self)
        ensures
            r.input == input,
    {
        MonstrousMaze { input }
    }

    /// Runs the exhaustive search from the start marker and returns the
    /// chosen path, or an empty path when the maze has no surviving
    /// solution.
    #[verifier::rlimit(40)]
    pub fn solve(&self) -> (r: MonstrousMazeOutput)
        requires
            maze_input_wf(&self.input),
            maze_has_start(split_lines(self.input.grid@)),
        ensures
            r.path@ == solve_model(self.input.grid@, self.input.endurance),
    {
        let final_output = MonstrousMazeOutput { path: String::new() };
        let mut grid: Grid = Grid::new(self.input.clone());
        let ghost rows = grid_rows(&grid);
        proof {
            lemma_find_char_bounds(rows, 'I');
        }
        let grid_possible_solution = GridPossibleSolution {
            path_taken: String::new(),
            current_coordinates: (grid.start.0 as i64, grid.start.1 as i64),
            visited_coordinates: Vec::new(),
            success: false,
            endurance_left: grid.endurance as i8,
        };
        let ghost init = SolutionModel {
            pos: find_char_last(rows, 'I'),
            path: Seq::empty(),
            visited: Seq::empty(),
            success: false,
            endurance: self.input.endurance as int,
        };
        proof {
            assert(coords_model(Seq::<(i64, i64)>::empty()) =~= Seq::<(int, int)>::empty());
            assert(sol_model(grid_possible_solution) == init);
            assert(search_paths(rows, init) is Some) by {
                assert(!init.visited.contains(init.pos));
            }
        }
        let possible_solutions = find_paths(&mut grid, grid_possible_solution);
        match possible_solutions {
            Some(solutions) => {
                let ghost sols = models(solutions@);
                if solutions.len() == 0 {
                    return final_output;
                }
                let mut all_dead = true;
                let mut i: usize = 0;
                while i < solutions.len()
                    invariant
                        i <= solutions@.len(),
                        sols == models(solutions@),
                        all_dead == (forall|k: int|
                            0 <= k < i ==> (#[trigger] sols[k]).endurance <= 0),
                    decreases solutions@.len() - i,
                {
                    if solutions[i].endurance_left > 0 {
                        all_dead = false;
                        proof {
                            assert(sols[i as int].endurance > 0);
                        }
                    }
                    i = i + 1;
                }
                if all_dead {
                    return final_output;
                }
                let mut successful_paths: Vec<&GridPossibleSolution> = Vec::new();
                let mut i: usize = 0;
                while i < solutions.len()
                    invariant
                        i <= solutions@.len(),
                        sols == models(solutions@),
                        ref_models(successful_paths@) == sols.take(i as int).filter(good_pred()),
                    decreases solutions@.len() - i,
                {
                    let sol_ref = &solutions[i];
                    let ghost pre = successful_paths@;
                    if sol_ref.success && !sol_ref.path_taken.as_str().is_empty() {
                        successful_paths.push(sol_ref);
                    }
                    proof {
                        reveal(Seq::filter);
                        assert(sols.take(i + 1).drop_last() =~= sols.take(i as int));
                        assert(sols.take(i + 1).last() == sol_model(solutions@[i as int]));
                        if good_pred()(sol_model(solutions@[i as int])) {
                            assert(ref_models(successful_paths@) =~= ref_models(pre).push(
                                sol_model(solutions@[i as int]),
                            ));
                        } else {
                            assert(ref_models(successful_paths@) =~= ref_models(pre));
                        }
                    }
                    i = i + 1;
                }
                proof {
                    assert(sols.take(sols.len() as int) =~= sols);
                }
                if successful_paths.len() == 0 {
                    return final_output;
                }
                let best_path = get_best_path(successful_paths);
                match best_path {
                    Some(best) => {
                        proof {
                            let rows_s = split_lines(self.input.grid@);
                            assert(rows_s == rows);
                            assert(search_paths(rows_s, init) == Some(sols));
                            assert(sols.len() != 0);
                            assert(!(forall|k: int|
                                0 <= k < sols.len() ==> (#[trigger] sols[k]).endurance <= 0));
                            assert(sols.filter(good_pred()).len() != 0);
                            lemma_solve_model_unfold(self.input.grid@, self.input.endurance, sols);
                        }
                        MonstrousMazeOutput { path: best.path_taken.clone() }
                    },
                    None => final_output,
                }
            },
            None => {
                proof {
                    assert(false);
                }
                final_output
            },
        }
    }

    /// Replays the submitted path step by step over the parsed grid,
    /// independently of the search: it succeeds only when a step lands
    /// exactly on the end marker with endurance left.
    pub fn verify(&self, answer: &MonstrousMazeOutput) -> (r: bool)
        requires
            maze_input_wf(&self.input),
        ensures
            r == maze_accepts(&self.input, answer.path@),
    {
        if answer.path.as_str().is_empty() {
            return false;
        }
        let mut endurance_left: i8 = self.input.endurance as i8;
        let grid: Grid = Grid::new(self.input.clone());
        let ghost rows = grid_rows(&grid);
        let ghost end_m = find_char_last(rows, 'X');
        proof {
            lemma_find_char_bounds(rows, 'I');
            lemma_find_char_bounds(rows, 'X');
        }
        let mut current_coordinates: (i64, i64) = (grid.start.0 as i64, grid.start.1 as i64);
        proof {
            assert(answer.path@.skip(0) =~= answer.path@);
            assert((current_coordinates.0 as int, current_coordinates.1 as int)
                == find_char_last(rows, 'I'));
        }
        let n = answer.path.as_str().unicode_len();
        let mut i: usize = 0;
        while i < n
            invariant
                i <= n,
                n == answer.path@.len(),
                rows == grid_rows(&grid),
                grid.wf(),
                end_m == find_char_last(rows, 'X'),
                (grid.end.0 as int, grid.end.1 as int) == end_m,
                0 <= end_m.0 < rows.len(),
                0 <= end_m.1,
                end_m.1 == 0 || end_m.1 < rows[end_m.0].len(),
                0 <= current_coordinates.0 < rows.len(),
                0 <= current_coordinates.1,
                current_coordinates.1 == 0 || current_coordinates.1
                    < rows[current_coordinates.0 as int].len(),
                0 <= endurance_left,
                maze_accepts(&self.input, answer.path@) == replay_ok(
                    rows,
                    end_m,
                    (current_coordinates.0 as int, current_coordinates.1 as int),
                    endurance_left as int,
                    answer.path@.skip(i as int),
                ),
            decreases n - i,
        {
            let ghost remaining = answer.path@.skip(i as int);
            proof {
                assert(remaining.len() > 0);
                assert(remaining[0] == answer.path@[i as int]);
                assert(remaining.drop_first() =~= answer.path@.skip(i + 1));
            }
            if endurance_left <= 0 {
                return false;
            }
            let character = answer.path.as_str().get_char(i);
            let next_coordinates: (i64, i64);
            match character {
                '<' => {
                    next_coordinates = (current_coordinates.0, current_coordinates.1 - 1);
                },
                '>' => {
                    next_coordinates = (current_coordinates.0, current_coordinates.1 + 1);
                },
                '^' => {
                    next_coordinates = (current_coordinates.0 - 1, current_coordinates.1);
                },
                'v' => {
                    next_coordinates = (current_coordinates.0 + 1, current_coordinates.1);
                },
                _ => {
                    return false;
                },
            }
            proof {
                assert((next_coordinates.0 as int, next_coordinates.1 as int) == step_spec(
                    (current_coordinates.0 as int, current_coordinates.1 as int),
                    character,
                ));
            }
            if is_coordinates_in_grid(next_coordinates, &grid) {
                current_coordinates = next_coordinates;
                let n_rows = grid.grid.len();
                let li = current_coordinates.0 as usize;
                let current_line: &String = &grid.grid[li];
                proof {
                    assert(rows[li as int] == grid.grid@[li as int]@);
                }
                let line_len = current_line.as_str().unicode_len();
                if !((current_coordinates.1 as u64) < (line_len as u64)) {
                    proof {
                        assert(cell_at(
                            rows,
                            (current_coordinates.0 as int, current_coordinates.1 as int),
                        ) is None);
                    }
                    return false;
                }
                let current_char = current_line.as_str().get_char(current_coordinates.1 as usize);
                proof {
                    assert(cell_at(
                        rows,
                        (current_coordinates.0 as int, current_coordinates.1 as int),
                    ) == Some(current_char));
                }
                if current_char == MONSTER_CHARACTER {
                    endurance_left = endurance_left - 1;
                } else if current_char == END_CHARACTER && current_coordinates.0 == (grid.end.0
                    as i64) && current_coordinates.1 == (grid.end.1 as i64) {
                    return endurance_left > 0;
                } else if current_char != FREE_WAY_CHARACTER {
                    return false;
                }
            } else {
                return false;
            }
            i = i + 1;
        }
        proof {
            assert(answer.path@.skip(n as int).len() == 0);
        }
        false
    }
}

/// A grid as the game means it: the start marker is where the scan finds
/// it, and each marker occurs only once.
pub open spec fn well_marked(rows: Seq<Seq<char>>) -> bool {
    &&& cell_at(rows, find_char_last(rows, 'I')) == Some('I')
    &&& forall|p: (int, int)| cell_at(rows, p) == Some('I') ==> p == find_char_last(rows, 'I')
    &&& forall|p: (int, int)| cell_at(rows, p) == Some('X') ==> p == find_char_last(rows, 'X')
}

/// The first-or-equal champion is one of the candidates.
proof fn lemma_best_of_mem(s: Seq<SolutionModel>)
    requires
        s.len() >= 1,
    ensures
        s.contains(best_of(s)),
    decreases s.len(),
{
    if s.len() > 1 {
        lemma_best_of_mem(s.drop_first());
        if better(best_of(s.drop_first()), s[0]) {
            let j = choose|j: int|
                0 <= j < s.drop_first().len() && s.drop_first()[j] == best_of(s.drop_first());
            assert(s[j + 1] == best_of(s));
        } else {
            assert(s[0] == best_of(s));
        }
    } else {
        assert(s[0] == best_of(s));
    }
}

/// Law: the chosen branch is never beaten: no candidate has strictly less
/// endurance left, nor equally little endurance and a shorter path.
pub proof fn lemma_best_of_minimal(s: Seq<SolutionModel>)
    requires
        s.len() >= 1,
    ensures
        forall|i: int| 0 <= i < s.len() ==> !better(#[trigger] s[i], best_of(s)),
    decreases s.len(),
{
    if s.len() > 1 {
        lemma_best_of_minimal(s.drop_first());
        assert forall|i: int| 0 <= i < s.len() implies !better(#[trigger] s[i], best_of(s)) by {
            if i > 0 {
                assert(s.drop_first()[i - 1] == s[i]);
            }
        }
    }
}

/// Every successful branch that stepping in direction `d` yields replays
/// from the state's own position: the appended directions walk to the end
/// marker within the endurance that was left.
proof fn lemma_explore_success_replays(rows: Seq<Seq<char>>, s2: SolutionModel, d: char, k: int)
    requires
        well_marked(rows),
        is_direction(d),
        forall|p: (int, int)| cell_at(rows, p) == Some('I') ==> s2.visited.contains(p),
        0 <= k < explore_dir(rows, s2, d).len(),
        explore_dir(rows, s2, d)[k].success,
    ensures
        explore_dir(rows, s2, d)[k].path.len() > s2.path.len(),
        explore_dir(rows, s2, d)[k].path.take(s2.path.len() as int) == s2.path,
        replay_ok(
            rows,
            find_char_last(rows, 'X'),
            s2.pos,
            s2.endurance,
            explore_dir(rows, s2, d)[k].path.skip(s2.path.len() as int),
        ),
    decreases search_measure(rows, s2.visited), 1int,
{
    lemma_measure_nonneg(rows, s2.visited);
    let b = explore_dir(rows, s2, d)[k];
    let next = step_spec(s2.pos, d);
    let end = find_char_last(rows, 'X');
    assert(in_grid_spec(rows, next));
    let child = SolutionModel { pos: next, path: s2.path.push(d), success: false, ..s2 };
    let sols = search_paths(rows, child);
    assert(sols is Some && sols == Some(explore_dir(rows, s2, d)));
    lemma_search_success_replays(rows, child, explore_dir(rows, s2, d), k);
    assert(b.path.take(child.path.len() as int) == child.path);
    assert(b.path.take(s2.path.len() as int) =~= child.path.take(s2.path.len() as int));
    assert(child.path.take(s2.path.len() as int) =~= s2.path);
    let suffix = b.path.skip(s2.path.len() as int);
    assert(suffix.len() > 0);
    assert(suffix[0] == b.path[s2.path.len() as int]);
    assert(b.path[s2.path.len() as int] == child.path[s2.path.len() as int]) by {
        assert(b.path.take(child.path.len() as int)[s2.path.len() as int] == b.path[s2.path.len() as int]);
    }
    assert(suffix[0] == d);
    assert(suffix.drop_first() =~= b.path.skip(child.path.len() as int));
    if cell_at(rows, child.pos) == Some('X') {
        assert(child.pos == end);
        assert(b.path == child.path);
        assert(suffix.len() == 1);
        assert(replay_ok(rows, end, s2.pos, s2.endurance, suffix));
    } else {
        assert(cell_at(rows, child.pos) is Some);
        let ch = choose|ch: char| cell_at(rows, child.pos) == Some(ch);
        assert(cell_at(rows, child.pos) == Some(ch));
        if !is_passable(ch) {
            assert(explore_dir(rows, s2, d).len() == 0);
            assert(false);
        }
        if ch == 'I' {
            assert(child.pos == find_char_last(rows, 'I'));
            assert(s2.visited.contains(child.pos));
            assert(child.visited.contains(child.pos));
            assert(explore_dir(rows, s2, d).len() == 0);
            assert(false);
        }
        assert(ch == 'M' || ch == ' ');
        if ch == 'M' {
            assert(replay_ok(rows, end, next, s2.endurance - 1, suffix.drop_first()));
        } else {
            assert(replay_ok(rows, end, next, s2.endurance, suffix.drop_first()));
        }
        assert(replay_ok(rows, end, s2.pos, s2.endurance, suffix));
    }
}

/// Every successful branch of the search from a state replays from that
/// state: its appended directions walk to the end marker.
proof fn lemma_search_success_replays(
    rows: Seq<Seq<char>>,
    s: SolutionModel,
    sols: Seq<SolutionModel>,
    k: int,
)
    requires
        well_marked(rows),
        !s.success,
        search_paths(rows, s) == Some(sols),
        0 <= k < sols.len(),
        sols[k].success,
        forall|p: (int, int)|
            cell_at(rows, p) == Some('I') ==> s.visited.contains(p) || p == s.pos,
    ensures
        s.endurance > 0,
        cell_at(rows, s.pos) is Some,
        sols[k].path.len() >= s.path.len(),
        sols[k].path.take(s.path.len() as int) == s.path,
        cell_at(rows, s.pos) == Some('X') ==> s.pos == find_char_last(rows, 'X') && sols[k].path
            == s.path,
        cell_at(rows, s.pos) != Some('X') ==> sols[k].path.len() > s.path.len() && replay_ok(
            rows,
            find_char_last(rows, 'X'),
            s.pos,
            s.endurance - (if cell_at(rows, s.pos) == Some('M') {
                1int
            } else {
                0int
            }),
            sols[k].path.skip(s.path.len() as int),
        ),
    decreases search_measure(rows, s.visited), pos_rank(rows, s.pos),
{
    lemma_measure_nonneg(rows, s.visited);
    if s.visited.contains(s.pos) {
        assert(false);
    }
    if s.endurance <= 0 {
        assert(sols[k] == s);
        assert(false);
    }
    lemma_measure_push(rows, s.visited, s.pos);
    match cell_at(rows, s.pos) {
        None => {
            assert(false);
        },
        Some(ch) => {
            if !is_passable(ch) {
                assert(false);
            }
            if ch == 'X' {
                assert(sols[k].path == s.path);
                assert(s.pos == find_char_last(rows, 'X'));
                assert(sols[k].path.take(s.path.len() as int) =~= s.path);
            } else {
                let s2 = SolutionModel {
                    visited: s.visited.push(s.pos),
                    endurance: if ch == 'M' {
                        s.endurance - 1
                    } else {
                        s.endurance
                    },
                    ..s
                };
                assert forall|p: (int, int)|
                    cell_at(rows, p) == Some('I') implies s2.visited.contains(p) by {
                    if s.visited.contains(p) {
                        let j = choose|j: int| 0 <= j < s.visited.len() && s.visited[j] == p;
                        assert(s2.visited[j] == p);
                    } else {
                        assert(p == s.pos);
                        assert(s2.visited[s.visited.len() as int] == p);
                    }
                }
                let e1 = explore_dir(rows, s2, '>');
                let e2 = explore_dir(rows, s2, '^');
                let e3 = explore_dir(rows, s2, '<');
                let e4 = explore_dir(rows, s2, 'v');
                assert(sols == e1 + e2 + e3 + e4);
                if k < e1.len() {
                    assert(sols[k] == e1[k]);
                    lemma_explore_success_replays(rows, s2, '>', k);
                } else if k < e1.len() + e2.len() {
                    assert(sols[k] == e2[k - e1.len()]);
                    lemma_explore_success_replays(rows, s2, '^', k - e1.len());
                } else if k < e1.len() + e2.len() + e3.len() {
                    assert(sols[k] == e3[k - e1.len() - e2.len()]);
                    lemma_explore_success_replays(rows, s2, '<', k - e1.len() - e2.len());
                } else {
                    assert(sols[k] == e4[k - e1.len() - e2.len() - e3.len()]);
                    lemma_explore_success_replays(rows, s2, 'v', k - e1.len() - e2.len() - e3.len());
                }
            }
        },
    }
}

/// Law: a non-empty path the solver returns is accepted by the verifier:
/// on a grid whose markers occur once each, the chosen path, replayed
/// independently, reaches the end marker with endurance left.
pub proof fn lemma_solve_path_verifies(input: &MonstrousMazeInput)
    requires
        maze_input_wf(input),
        well_marked(split_lines(input.grid@)),
        solve_model(input.grid@, input.endurance).len() > 0,
    ensures
        maze_accepts(input, solve_model(input.grid@, input.endurance)),
{
    let rows = split_lines(input.grid@);
    let init = SolutionModel {
        pos: find_char_last(rows, 'I'),
        path: Seq::empty(),
        visited: Seq::empty(),
        success: false,
        endurance: input.endurance as int,
    };
    let path = solve_model(input.grid@, input.endurance);
    assert(search_paths(rows, init) is Some) by {
        assert(!init.visited.contains(init.pos));
    }
    let sols = search_paths(rows, init).unwrap();
    let good = sols.filter(good_pred());
    assert(good.len() >= 1);
    assert(path == best_of(good).path);
    let best = best_of(good);
    lemma_best_of_mem(good);
    let j = choose|j: int| 0 <= j < good.len() && good[j] == best;
    assert(good_pred()(best)) by {
        sols.lemma_filter_pred(good_pred(), j);
    }
    assert(sols.contains(best)) by {
        sols.lemma_filter_contains_rev(good_pred(), best);
    }
    let k = choose|k: int| 0 <= k < sols.len() && sols[k] == best;
    lemma_search_success_replays(rows, init, sols, k);
    assert(best.path.len() > 0);
    assert(cell_at(rows, init.pos) == Some('I'));
    assert(cell_at(rows, init.pos) != Some('X'));
    assert(best.path.skip(0) =~= best.path);
    assert(replay_ok(rows, find_char_last(rows, 'X'), init.pos, input.endurance as int, best.path));
}

/// Splits the grid string at every newline.
fn split_grid_string(s: &String) -> (r: Vec<String>)
    ensures
        r@.map_values(|t: String| t@) == split_lines(s@),
        r@.len() >= 1,
{
    let n = s.as_str().unicode_len();
    let mut rows: Vec<String> = Vec::new();
    let mut cur = String::new();
    let mut i: usize = 0;
    while i < n
        invariant
            i <= n,
            n == s@.len(),
            rows@.map_values(|t: String| t@).push(cur@) =~= split_lines(s@.take(i as int)),
        decreases n - i,
    {
        let c = s.as_str().get_char(i);
        let ghost prefix = s@.take(i as int);
        let ghost rows_pre = rows@.map_values(|t: String| t@);
        if c == '\n' {
            rows.push(cur);
            cur = String::new();
        } else {
            push_char(&mut cur, c);
        }
        proof {
            assert(s@.take(i + 1).drop_last() =~= prefix);
            assert(s@.take(i + 1).last() == c);
            let whole = split_lines(s@.take(i + 1));
            if c == '\n' {
                assert(whole =~= split_lines(prefix) + seq![Seq::<char>::empty()]);
                assert(rows@.map_values(|t: String| t@) =~= rows_pre.push(
                    split_lines(prefix).last(),
                )) by {
                    assert(rows@ =~= rows@.drop_last().push(rows@.last()));
                }
                assert(rows@.map_values(|t: String| t@).push(cur@) =~= whole);
            } else {
                assert(whole =~= split_lines(prefix).update(
                    split_lines(prefix).len() - 1,
                    split_lines(prefix).last().push(c),
                ));
                assert(rows@.map_values(|t: String| t@).push(cur@) =~= whole);
            }
        }
        i = i + 1;
    }
    proof {
        assert(s@.take(n as int) =~= s@);
    }
    rows.push(cur);
    proof {
        assert(rows@.map_values(|t: String| t@) =~= split_lines(s@));
    }
    rows
}

/// The last position where a character occurs, scanning rows downward and
/// columns rightward; (0, 0) when it is absent.
fn find_coordinates_by_char(grid: &Vec<String>, char_to_find: char) -> (r: (u64, u64))
    ensures
        (r.0 as int, r.1 as int) == find_char_last(
            grid@.map_values(|t: String| t@),
            char_to_find,
        ),
{
    let ghost rows = grid@.map_values(|t: String| t@);
    let mut coords: (u64, u64) = (0, 0);
    let mut i: usize = 0;
    while i < grid.len()
        invariant
            i <= grid@.len(),
            rows == grid@.map_values(|t: String| t@),
            (coords.0 as int, coords.1 as int) == find_char_last(rows.take(i as int), char_to_find),
            coords.0 as int <= i,
        decreases grid@.len() - i,
    {
        let line = &grid[i];
        let m = line.as_str().unicode_len();
        let mut j: usize = 0;
        while j < m
            invariant
                j <= m,
                i < grid@.len(),
                m == rows[i as int].len(),
                rows == grid@.map_values(|t: String| t@),
                line@ == rows[i as int],
                coords.0 as int <= i,
                (coords.0 as int, coords.1 as int) == (if rows[i as int].take(j as int).contains(
                    char_to_find,
                ) {
                    (i as int, last_index_in(rows[i as int].take(j as int), char_to_find))
                } else {
                    find_char_last(rows.take(i as int), char_to_find)
                }),
            decreases m - j,
        {
            let c = line.as_str().get_char(j);
            let ghost rowpre = rows[i as int].take(j as int);
            if c == char_to_find {
                coords = (i as u64, j as u64);
            }
            proof {
                let rownext = rows[i as int].take(j + 1);
                assert(rownext.drop_last() =~= rowpre);
                assert(rownext.last() == c);
                if c == char_to_find {
                    assert(rownext.contains(char_to_find)) by {
                        assert(rownext[j as int] == char_to_find);
                    }
                    assert(last_index_in(rownext, char_to_find) == j);
                } else {
                    if rowpre.contains(char_to_find) {
                        let k = choose|k: int| 0 <= k < rowpre.len() && rowpre[k] == char_to_find;
                        assert(rownext[k] == char_to_find);
                        assert(rownext.contains(char_to_find));
                    }
                    if rownext.contains(char_to_find) {
                        let k = choose|k: int|
                            0 <= k < rownext.len() && rownext[k] == char_to_find;
                        assert(k < j);
                        assert(rowpre[k] == char_to_find);
                        assert(rowpre.contains(char_to_find));
                    }
                }
            }
            j = j + 1;
        }
        proof {
            assert(rows[i as int].take(m as int) =~= rows[i as int]);
            let pre = rows.take(i as int);
            let nxt = rows.take(i + 1);
            assert(nxt.drop_last() =~= pre);
            assert(nxt.last() == rows[i as int]);
        }
        i = i + 1;
    }
    proof {
        assert(rows.take(grid@.len() as int) =~= rows);
    }
    coords
}

impl Grid {
    /// Rows non-empty and every dimension small enough for the coordinate
    /// arithmetic of the search.
    pub open spec fn wf(&self) -> bool {
        let rows = grid_rows(self);
        &&& rows.len() >= 1
        &&& rows.len() <= 0x2000_0000_0000_0000
        &&& forall|i: int|
            0 <= i < rows.len() ==> (#[trigger] rows[i]).len() <= 0x2000_0000_0000_0000
    }

    /// Parses a maze input: splits the grid string into rows and locates
    /// the start and end markers.
    pub fn new(input: MonstrousMazeInput) -> (r: Grid)
        requires
            input.grid@.len() <= 0x1000_0000_0000_0000,
        ensures
            grid_rows(&r) == split_lines(input.grid@),
            (r.start.0 as int, r.start.1 as int) == find_char_last(split_lines(input.grid@), 'I'),
            (r.end.0 as int, r.end.1 as int) == find_char_last(split_lines(input.grid@), 'X'),
            r.endurance == input.endurance,
            r.wf(),
    {
        let split_grid = split_grid_string(&input.grid);
        let grid_start = Grid::find_start_coordinates(&split_grid);
        let grid_end = Grid::find_end_coordinates(&split_grid);
        let r = Grid {
            grid: split_grid,
            start: grid_start,
            end: grid_end,
            endurance: input.endurance,
        };
        proof {
            lemma_split_lines_bounds(input.grid@);
        }
        r
    }

    /// The position of the start marker, by the last-occurrence scan.
    fn find_start_coordinates(split_grid: &Vec<String>) -> (r: (u64, u64))
        ensures
            (r.0 as int, r.1 as int) == find_char_last(
                split_grid@.map_values(|t: String| t@),
                'I',
            ),
    {
        find_coordinates_by_char(split_grid, START_CHARACTER)
    }

    /// The position of the end marker, by the last-occurrence scan.
    fn find_end_coordinates(split_grid: &Vec<String>) -> (r: (u64, u64))
        ensures
            (r.0 as int, r.1 as int) == find_char_last(
                split_grid@.map_values(|t: String| t@),
                'X',
            ),
    {
        find_coordinates_by_char(split_grid, END_CHARACTER)
    }
}

} // verus!
