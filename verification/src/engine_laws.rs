//! Laws of the operations on a document: what they keep and what they
//! leave alone.

use crate::coordinate::{meta_path, path_child, root_path, valid_pair, valid_path, Path};
use crate::engine::{
    all_valid, applied, band_index, band_query, can_define, can_grow, defined, frontier,
    frontier_band, frontier_stays_in_grid, grid_cells_are_valid, grows, grows_too_far, holds_text,
    inserted, instance_at, mirrors_parent, moved, nested, new_cells, owner_of, planted, rules_of,
    selected_answer, session_grown, session_moved, session_nested, session_retexted, shifted,
    with_leaves, Axis,
};
use crate::grammar::{grid_cells, GrammarView};
use crate::session::{
    answers, cell_stored, cells_of, child_at, grids_consistent, parent_stored, resync,
    sound_session, store_wf, SessionView, Store,
};
use crate::table::{insert_keeps_wf, remove_keeps_wf};
use vstd::prelude::*;

verus! {

/// The address `k` is one of the cells `cells` inside `parent`.
pub open spec fn is_new_leaf(parent: Path, cells: Seq<(u32, u32)>, k: Path) -> bool {
    k.len() == parent.len() + 1 && k.drop_last() == parent && cells.contains(k.last())
}

/// What the store holds at `k` after fresh leaves were put inside
/// `parent`: a leaf where `k` is one of the new cells, and what it held
/// before where it is none.
pub proof fn leaves_at(s: Store, parent: Path, cells: Seq<(u32, u32)>, k: Path)
    ensures
        with_leaves(s, parent, cells).map.contains_key(k) == (s.map.contains_key(k) || is_new_leaf(
            parent,
            cells,
            k,
        )),
        is_new_leaf(parent, cells, k) ==> with_leaves(s, parent, cells).map[k]
            == GrammarView::leaf(),
        !is_new_leaf(parent, cells, k) ==> with_leaves(s, parent, cells).map[k] == s.map[k],
    decreases cells.len(),
{
    if cells.len() > 0 {
        let init = cells.drop_last();
        let c = cells.last();
        let at = path_child(parent, c);
        leaves_at(s, parent, init, k);
        assert(at.drop_last() =~= parent);
        assert(cells[cells.len() - 1] == c);
        if k == at {
            assert(cells.contains(k.last()));
        } else {
            if is_new_leaf(parent, cells, k) {
                let j = choose|j: int| 0 <= j < cells.len() && cells[j] == k.last();
                if j == cells.len() - 1 {
                    assert(k =~= parent.push(c));
                }
                assert(init[j] == k.last());
            }
            if is_new_leaf(parent, init, k) {
                let j = choose|j: int| 0 <= j < init.len() && init[j] == k.last();
                assert(cells[j] == k.last());
            }
        }
    }
}

/// Moving keeps the payload: the node that was at `a` is at `b`
/// afterwards, and unless `b` is `a` itself, nothing is at `a`. Every
/// other address holds what it held.
pub proof fn move_preserves_payload(s: Store, a: Path, b: Path)
    requires
        s.map.contains_key(a),
    ensures
        moved(s, a, b).map.contains_key(b),
        moved(s, a, b).map[b] == s.map[a],
        a != b ==> !moved(s, a, b).map.contains_key(a),
        forall|k: Path|
            k != a && k != b ==> (#[trigger] moved(s, a, b).map.contains_key(k)
                == s.map.contains_key(k)) && moved(s, a, b).map[k] == s.map[k],
{
}

/// Moving from an address that holds nothing changes nothing.
pub proof fn move_of_nothing(s: Store, a: Path, b: Path)
    requires
        !s.map.contains_key(a),
    ensures
        moved(s, a, b) == s,
{
}

/// Cell number `i` of the node at `a` is a valid pair, and the cell with
/// that pair inside `b` is stored and is not `a` itself.
pub open spec fn lands_well(s: Store, a: Path, b: Path, i: int) -> bool {
    let cell = cells_of(s.map[a])[i];
    valid_pair(cell) && s.map.contains_key(path_child(b, cell)) && path_child(b, cell) != a
}

/// The node above `a` is a stored grid that lists `a`.
pub open spec fn listed_above(s: Store, a: Path) -> bool {
    &&& a.len() > 1
    &&& s.map.contains_key(a.drop_last())
    &&& cells_of(s.map[a.drop_last()]).contains(a.last())
}

/// The condition under which moving the node at `a` to `b` leaves every
/// grid with all its cells: nothing is moved, or the node that goes to
/// `b` finds its cells there and no grid that stays lists `a`.
pub open spec fn move_keeps_cells(s: Store, a: Path, b: Path) -> bool {
    ||| !s.map.contains_key(a)
    ||| a == b
    ||| {
        &&& forall|i: int| 0 <= i < cells_of(s.map[a]).len() ==> #[trigger] lands_well(s, a, b, i)
        &&& listed_above(s, a) ==> a.drop_last() == b
    }
}

/// After a move every stored grid still has all the cells it lists,
/// exactly where the node that moved finds its cells at its new place and
/// no grid that stays lists the place it left.
pub proof fn move_keeps_grids(s: Store, a: Path, b: Path)
    requires
        store_wf(s),
        grids_consistent(s),
    ensures
        grids_consistent(moved(s, a, b)) <==> move_keeps_cells(s, a, b),
{
    let n = moved(s, a, b);
    if !s.map.contains_key(a) {
    } else if a == b {
        assert(n.map =~= s.map);
        assert forall|c: Path, i: int|
            n.map.contains_key(c) && 0 <= i < cells_of(n.map[c]).len() implies #[trigger] cell_stored(
            n,
            c,
            i,
        ) by {
            assert(cell_stored(s, c, i));
        }
    } else {
        if move_keeps_cells(s, a, b) {
            assert forall|c: Path, i: int|
                n.map.contains_key(c) && 0 <= i < cells_of(n.map[c]).len() implies #[trigger] cell_stored(
                n,
                c,
                i,
            ) by {
                if c == b {
                    assert(lands_well(s, a, b, i));
                    assert(child_at(n, c, i) == path_child(b, cells_of(s.map[a])[i]));
                } else {
                    assert(cell_stored(s, c, i));
                    let child = child_at(s, c, i);
                    assert(child.drop_last() =~= c);
                    if child == a {
                        assert(valid_path(c));
                        assert(a.last() == cells_of(s.map[c])[i]);
                        assert(cells_of(s.map[c]).contains(a.last()));
                        assert(a.drop_last() == c);
                        assert(listed_above(s, a));
                    }
                }
            }
        }
        if grids_consistent(n) {
            assert forall|i: int| 0 <= i < cells_of(s.map[a]).len() implies #[trigger] lands_well(
                s,
                a,
                b,
                i,
            ) by {
                assert(cell_stored(n, b, i));
                let child = path_child(b, cells_of(s.map[a])[i]);
                assert(child == child_at(n, b, i));
                assert(child.len() == b.len() + 1);
            }
            if listed_above(s, a) && a.drop_last() != b {
                let up = a.drop_last();
                let j = choose|j: int|
                    0 <= j < cells_of(s.map[up]).len() && cells_of(s.map[up])[j] == a.last();
                assert(up.len() == a.len() - 1);
                assert(n.map.contains_key(up));
                assert(cell_stored(n, up, j));
                assert(child_at(n, up, j) =~= a);
            }
        }
    }
}

proof fn band_is_beside_frontier(s: Store, active: Path, axis: Axis, j: int)
    requires
        store_wf(s),
        active.len() >= 1,
        0 <= j < frontier_band(s, active, axis).len(),
    ensures
        s.map.contains_key(frontier_band(s, active, axis)[j]),
        valid_path(frontier_band(s, active, axis)[j]),
        frontier_band(s, active, axis)[j].len() == active.len(),
        frontier_band(s, active, axis)[j].drop_last() == active.drop_last(),
        band_index(frontier_band(s, active, axis)[j], axis) == band_index(
            frontier(s, active, axis),
            axis,
        ),
{
    let f = frontier(s, active, axis);
    let band = frontier_band(s, active, axis);
    selected_answer(s.keys, band_query(f, axis));
    frontier_stays_in_grid(s, active, axis);
    assert(s.keys.contains(band[j]));
    assert(answers(band_query(f, axis), band[j]));
    assert(valid_path(band[j]));
    assert(band[j].drop_last() == f.drop_last());
    assert(band[j].drop_last().len() == band[j].len() - 1);
    assert(f.drop_last().len() == f.len() - 1);
}

/// The band in which growing puts its leaves: the grid of `active`, and
/// the index after that of the frontier.
pub open spec fn new_band(s: Store, active: Path, axis: Axis) -> (Path, u32) {
    (active.drop_last(), (band_index(frontier(s, active, axis), axis) + 1) as u32)
}

/// The cell `k` lies in the band `band` across the axis.
pub open spec fn in_band(k: Path, axis: Axis, band: (Path, u32)) -> bool {
    k.len() > 1 && k.drop_last() == band.0 && band_index(k, axis) == band.1
}

/// What growing adds are valid pairs, and the cells with these pairs
/// lie in the new band.
pub proof fn new_cells_are_in_band(s: Store, active: Path, axis: Axis, j: int)
    requires
        store_wf(s),
        active.len() > 1,
        !grows_too_far(s, active, axis),
        0 <= j < new_cells(s, active, axis).len(),
    ensures
        valid_pair(new_cells(s, active, axis)[j]),
        in_band(
            path_child(active.drop_last(), new_cells(s, active, axis)[j]),
            axis,
            new_band(s, active, axis),
        ),
{
    band_is_beside_frontier(s, active, axis, j);
    let k = frontier_band(s, active, axis)[j];
    assert(new_cells(s, active, axis)[j] == shifted(k, axis));
    assert(valid_pair(k.last()));
    let child = path_child(active.drop_last(), shifted(k, axis));
    assert(child.drop_last() =~= active.drop_last());
    assert(child.last() == shifted(k, axis));
}

/// Growing keeps the grids whole: where every stored grid had all the
/// cells it lists, it has them after a row or a column was added.
pub proof fn insert_keeps_grids(s: Store, active: Path, axis: Axis)
    requires
        store_wf(s),
        grids_consistent(s),
    ensures
        grids_consistent(inserted(s, active, axis)),
{
    let n = inserted(s, active, axis);
    if can_grow(s, active) && !grows_too_far(s, active, axis) {
        let parent = active.drop_last();
        let cells = new_cells(s, active, axis);
        let leaves = with_leaves(s, parent, cells);
        let before = cells_of(s.map[parent]);
        assert forall|c: Path, i: int|
            n.map.contains_key(c) && 0 <= i < cells_of(n.map[c]).len() implies #[trigger] cell_stored(
            n,
            c,
            i,
        ) by {
            leaves_at(s, parent, cells, c);
            if c == parent {
                assert(cells_of(n.map[c]) == before + cells);
                if i < before.len() {
                    assert(cell_stored(s, c, i));
                    assert(child_at(n, c, i) == child_at(s, c, i));
                    leaves_at(s, parent, cells, child_at(s, c, i));
                } else {
                    let j = i - before.len();
                    let child = path_child(parent, cells[j]);
                    new_cells_are_in_band(s, active, axis, j);
                    assert(child.drop_last() =~= parent);
                    assert(cells.contains(child.last()));
                    leaves_at(s, parent, cells, child);
                    assert(child_at(n, c, i) == child);
                }
            } else if is_new_leaf(parent, cells, c) {
            } else {
                assert(cell_stored(s, c, i));
                assert(child_at(n, c, i) == child_at(s, c, i));
                leaves_at(s, parent, cells, child_at(s, c, i));
            }
        }
    }
}

/// Growing touches one band and the grid around it: every address that
/// is neither the grid of `active` nor a cell of the new band holds after
/// a row or a column was added exactly what it held before.
pub proof fn insert_leaves_the_rest(s: Store, active: Path, axis: Axis, k: Path)
    requires
        store_wf(s),
        k != active.drop_last(),
        !in_band(k, axis, new_band(s, active, axis)),
    ensures
        inserted(s, active, axis).map.contains_key(k) == s.map.contains_key(k),
        inserted(s, active, axis).map[k] == s.map[k],
{
    if can_grow(s, active) && !grows_too_far(s, active, axis) {
        let parent = active.drop_last();
        let cells = new_cells(s, active, axis);
        leaves_at(s, parent, cells, k);
        if is_new_leaf(parent, cells, k) {
            let j = choose|j: int| 0 <= j < cells.len() && cells[j] == k.last();
            new_cells_are_in_band(s, active, axis, j);
            assert(k =~= path_child(parent, cells[j]));
        }
    }
}

/// Cell number `i` of the new grid has a stored cell with its pair beside
/// `coord`, or is the pair of `coord` itself.
pub open spec fn sibling_stored(s: Store, coord: Path, rows: u32, cols: u32, i: int) -> bool {
    let cell = grid_cells(rows as nat, cols as nat)[i];
    s.map.contains_key(path_child(coord.drop_last(), cell)) || cell == coord.last()
}

/// The condition under which making a grid at `coord` leaves every grid
/// with all its cells: no node above `coord` is rewritten, or every cell
/// of the new grid has its like beside `coord`.
pub open spec fn nesting_keeps_cells(s: Store, coord: Path, rows: u32, cols: u32) -> bool {
    mirrors_parent(s, coord) ==> forall|i: int|
        0 <= i < grid_cells(rows as nat, cols as nat).len() ==> #[trigger] sibling_stored(
            s,
            coord,
            rows,
            cols,
            i,
        )
}

/// After a grid was made at `coord` every stored grid has all the cells
/// it lists, exactly where the node above `coord`, which is given the
/// list of the new grid, has a cell for each pair of that list.
pub proof fn nesting_keeps_grids(s: Store, coord: Path, rows: u32, cols: u32)
    requires
        store_wf(s),
        grids_consistent(s),
        valid_path(coord),
        rows >= 1,
        cols >= 1,
    ensures
        grids_consistent(nested(s, coord, rows, cols)) <==> nesting_keeps_cells(
            s,
            coord,
            rows,
            cols,
        ),
{
    let n = nested(s, coord, rows, cols);
    let cells = grid_cells(rows as nat, cols as nat);
    let grid = GrammarView::grid(rows as nat, cols as nat);
    let leaves = with_leaves(s, coord, cells);
    let parent = coord.drop_last();
    crate::engine::grid_cells_are_valid(rows as nat, cols as nat);
    assert(cells_of(grid) == cells);
    if nesting_keeps_cells(s, coord, rows, cols) {
        assert forall|c: Path, i: int|
            n.map.contains_key(c) && 0 <= i < cells_of(n.map[c]).len() implies #[trigger] cell_stored(
            n,
            c,
            i,
        ) by {
            leaves_at(s, coord, cells, c);
            if c == coord {
                let child = path_child(coord, cells[i]);
                assert(child.drop_last() =~= coord);
                assert(cells.contains(child.last()));
                leaves_at(s, coord, cells, child);
                assert(child_at(n, c, i) == child);
            } else if mirrors_parent(s, coord) && c == parent {
                assert(sibling_stored(s, coord, rows, cols, i));
                let child = path_child(parent, cells[i]);
                assert(child_at(n, c, i) == child);
                leaves_at(s, coord, cells, child);
                if cells[i] == coord.last() {
                    assert(child =~= coord);
                }
            } else if is_new_leaf(coord, cells, c) {
            } else {
                assert(cell_stored(s, c, i));
                assert(child_at(n, c, i) == child_at(s, c, i));
                leaves_at(s, coord, cells, child_at(s, c, i));
            }
        }
    }
    if grids_consistent(n) && mirrors_parent(s, coord) {
        assert forall|i: int| 0 <= i < cells.len() implies #[trigger] sibling_stored(
            s,
            coord,
            rows,
            cols,
            i,
        ) by {
            leaves_at(s, coord, cells, parent);
            assert(n.map.contains_key(parent));
            assert(cells_of(n.map[parent]) == cells);
            assert(cell_stored(n, parent, i));
            let child = path_child(parent, cells[i]);
            assert(child == child_at(n, parent, i));
            leaves_at(s, coord, cells, child);
            if child == coord {
                assert(cells[i] == coord.last());
            }
        }
    }
}


/// A document that holds two leaves as its roots and nothing else
/// satisfies the invariants.
pub proof fn fresh_is_sound(v: SessionView)
    requires
        v.store == Store::empty().insert(root_path(), v.root).insert(meta_path(), v.meta),
        cells_of(v.root).len() == 0,
        cells_of(v.meta).len() == 0,
    ensures
        sound_session(v),
{
    assert(root_path()[0] != meta_path()[0]);
    assert forall|k: Path| v.store.map.contains_key(k) implies #[trigger] parent_stored(
        v.store,
        k,
    ) by {
        assert(k.len() == 1);
    }
}

/// Putting a node that lists no cells, at the top level or where the
/// parent is stored, keeps the invariants of the document.
pub proof fn put_keeps_sound(v: SessionView, k: Path, g: GrammarView)
    requires
        sound_session(v),
        cells_of(g).len() == 0,
        parent_stored(v.store, k),
    ensures
        sound_session(resync(v, v.store.insert(k, g), k == root_path(), k == meta_path())),
{
    let n = v.store.insert(k, g);
    assert forall|c: Path, i: int|
        n.map.contains_key(c) && 0 <= i < cells_of(n.map[c]).len() implies #[trigger] cell_stored(
        n,
        c,
        i,
    ) by {
        assert(cell_stored(v.store, c, i));
        assert(child_at(n, c, i) == child_at(v.store, c, i));
    }
    assert forall|c: Path| n.map.contains_key(c) implies #[trigger] parent_stored(n, c) by {
        if c != k {
            assert(parent_stored(v.store, c));
        }
    }
}

/// Fresh leaves inside a stored cell keep the invariants of the document.
pub proof fn leaves_keep_sound(v: SessionView, parent: Path, cells: Seq<(u32, u32)>)
    requires
        sound_session(v),
        v.store.map.contains_key(parent),
        parent.len() >= 1,
    ensures
        sound_session(resync(v, with_leaves(v.store, parent, cells), false, false)),
{
    let n = with_leaves(v.store, parent, cells);
    leaves_at(v.store, parent, cells, root_path());
    leaves_at(v.store, parent, cells, meta_path());
    assert forall|c: Path, i: int|
        n.map.contains_key(c) && 0 <= i < cells_of(n.map[c]).len() implies #[trigger] cell_stored(
        n,
        c,
        i,
    ) by {
        leaves_at(v.store, parent, cells, c);
        if !is_new_leaf(parent, cells, c) {
            assert(cell_stored(v.store, c, i));
            assert(child_at(n, c, i) == child_at(v.store, c, i));
            leaves_at(v.store, parent, cells, child_at(v.store, c, i));
        }
    }
    assert forall|c: Path| n.map.contains_key(c) implies #[trigger] parent_stored(n, c) by {
        leaves_at(v.store, parent, cells, c);
        if is_new_leaf(parent, cells, c) {
            leaves_at(v.store, parent, cells, parent);
        } else {
            assert(parent_stored(v.store, c));
            if c.len() > 1 {
                leaves_at(v.store, parent, cells, c.drop_last());
            }
        }
    }
}

/// Putting a grid together with a fresh leaf at each of its cells, at the
/// top level or where the parent is stored, keeps the invariants of the
/// document.
pub proof fn planted_keeps_sound(v: SessionView, at: Path, g: GrammarView)
    requires
        sound_session(v),
        parent_stored(v.store, at),
        at.len() >= 1,
        all_valid(cells_of(g)),
    ensures
        sound_session(planted(v, at, g)),
{
    let cells = cells_of(g);
    let mid = v.store.insert(at, g);
    let n = with_leaves(mid, at, cells);
    leaves_at(mid, at, cells, root_path());
    leaves_at(mid, at, cells, meta_path());
    assert(root_path()[0] != meta_path()[0]);
    assert forall|c: Path, i: int|
        n.map.contains_key(c) && 0 <= i < cells_of(n.map[c]).len() implies #[trigger] cell_stored(
        n,
        c,
        i,
    ) by {
        leaves_at(mid, at, cells, c);
        if is_new_leaf(at, cells, c) {
        } else if c == at {
            let child = path_child(at, cells[i]);
            assert(child.drop_last() =~= at);
            assert(cells.contains(child.last()));
            leaves_at(mid, at, cells, child);
            assert(child_at(n, c, i) == child);
        } else {
            assert(cell_stored(v.store, c, i));
            assert(child_at(n, c, i) == child_at(v.store, c, i));
            leaves_at(mid, at, cells, child_at(v.store, c, i));
        }
    }
    assert forall|c: Path| n.map.contains_key(c) implies #[trigger] parent_stored(n, c) by {
        leaves_at(mid, at, cells, c);
        if is_new_leaf(at, cells, c) {
            leaves_at(mid, at, cells, at);
        } else if c == at {
            if c.len() > 1 {
                leaves_at(mid, at, cells, c.drop_last());
            }
        } else {
            assert(parent_stored(v.store, c));
            if c.len() > 1 {
                leaves_at(mid, at, cells, c.drop_last());
            }
        }
    }
}

/// Growing keeps the invariants of the document.
pub proof fn grown_keeps_sound(v: SessionView, active: Path, axis: Axis)
    requires
        sound_session(v),
        store_wf(v.store),
    ensures
        sound_session(session_grown(v, active, axis)),
{
    insert_keeps_grids(v.store, active, axis);
    if grows(v.store, active, axis) {
        let parent = active.drop_last();
        let cells = new_cells(v.store, active, axis);
        let n = inserted(v.store, active, axis);
        assert(root_path()[0] != meta_path()[0]);
        leaves_at(v.store, parent, cells, root_path());
        leaves_at(v.store, parent, cells, meta_path());
        assert forall|c: Path| n.map.contains_key(c) implies #[trigger] parent_stored(n, c) by {
            leaves_at(v.store, parent, cells, c);
            if c != parent && !is_new_leaf(parent, cells, c) {
                assert(parent_stored(v.store, c));
            }
            if c == parent {
                assert(parent_stored(v.store, c));
            }
            if c.len() > 1 {
                leaves_at(v.store, parent, cells, c.drop_last());
            }
        }
    }
}

/// Changing the text of a leaf, or turning an input into a lookup or back,
/// keeps the invariants of the document.
pub proof fn retexted_keeps_sound(v: SessionView, c: Path, fresh: GrammarView)
    requires
        sound_session(v),
        cells_of(fresh).len() == 0,
    ensures
        sound_session(session_retexted(v, c, fresh)),
{
    if holds_text(v.store, c) {
        assert(parent_stored(v.store, c));
        put_keeps_sound(v, c, fresh);
    }
}


/// One of the first `n` rules has its instance at `k`.
pub open spec fn is_instance_place(
    owner: Path,
    rules: Seq<(Seq<char>, Path)>,
    n: int,
    k: Path,
) -> bool {
    exists|j: int| 0 <= j < n && #[trigger] instance_at(owner, rules[j].1) == k
}

/// What the store holds after rules were instantiated: the places of the
/// instances are stored, and every other address holds what it held.
pub proof fn applied_at(s: Store, owner: Path, rules: Seq<(Seq<char>, Path)>, n: int, k: Path)
    requires
        0 <= n <= rules.len(),
    ensures
        applied(s, owner, rules, n).map.contains_key(k) == (s.map.contains_key(k)
            || is_instance_place(owner, rules, n, k)),
        !is_instance_place(owner, rules, n, k) ==> applied(s, owner, rules, n).map[k] == s.map[k],
    decreases n,
{
    if n > 0 {
        applied_at(s, owner, rules, n - 1, k);
        let at = instance_at(owner, rules[n - 1].1);
        if is_instance_place(owner, rules, n - 1, k) {
            let j = choose|j: int| 0 <= j < n - 1 && #[trigger] instance_at(owner, rules[j].1) == k;
            assert(instance_at(owner, rules[j].1) == k);
        }
        if k == at {
            assert(instance_at(owner, rules[n - 1].1) == k);
        }
    }
}

/// Cell number `i` of the instance of rule `j` of the definition at
/// `defn` is stored after the definition was applied.
pub open spec fn instance_whole(s: Store, defn: Path, j: int, i: int) -> bool {
    cell_stored(
        defined(s, defn),
        instance_at(owner_of(s.map[defn]), rules_of(s.map[defn])[j].1),
        i,
    )
}

/// The condition under which applying the definition at `defn` leaves
/// every grid with all its cells: every instance that is a grid finds its
/// cells at its place.
pub open spec fn instances_whole(s: Store, defn: Path) -> bool {
    can_define(s, defn) ==> forall|j: int, i: int|
        0 <= j < rules_of(s.map[defn]).len() && 0 <= i < cells_of(
            defined(s, defn).map[instance_at(owner_of(s.map[defn]), rules_of(s.map[defn])[j].1)],
        ).len() ==> #[trigger] instance_whole(s, defn, j, i)
}

/// After a definition was applied every stored grid has all the cells it
/// lists, exactly where the instances that are grids have theirs.
pub proof fn defined_keeps_grids(s: Store, defn: Path)
    requires
        grids_consistent(s),
    ensures
        grids_consistent(defined(s, defn)) <==> instances_whole(s, defn),
{
    let n = defined(s, defn);
    if can_define(s, defn) {
        let owner = owner_of(s.map[defn]);
        let rules = rules_of(s.map[defn]);
        let count = rules.len() as int;
        if instances_whole(s, defn) {
            assert forall|c: Path, i: int|
                n.map.contains_key(c) && 0 <= i < cells_of(n.map[c]).len() implies #[trigger] cell_stored(
                n,
                c,
                i,
            ) by {
                applied_at(s, owner, rules, count, c);
                if is_instance_place(owner, rules, count, c) {
                    let j = choose|j: int|
                        0 <= j < count && #[trigger] instance_at(owner, rules[j].1) == c;
                    assert(instance_whole(s, defn, j, i));
                } else {
                    assert(cell_stored(s, c, i));
                    assert(child_at(n, c, i) == child_at(s, c, i));
                    applied_at(s, owner, rules, count, child_at(s, c, i));
                }
            }
        }
        if grids_consistent(n) {
            assert forall|j: int, i: int|
                0 <= j < rules.len() && 0 <= i < cells_of(
                    n.map[instance_at(owner, rules[j].1)],
                ).len() implies #[trigger] instance_whole(s, defn, j, i) by {
                let c = instance_at(owner, rules[j].1);
                applied_at(s, owner, rules, count, c);
                assert(cell_stored(n, c, i));
            }
        }
    }
}


/// Fresh leaves at valid pairs inside a valid address keep a store well
/// formed.
pub proof fn leaves_keep_wf(s: Store, parent: Path, cells: Seq<(u32, u32)>)
    requires
        store_wf(s),
        valid_path(parent),
        forall|i: int| 0 <= i < cells.len() ==> valid_pair(#[trigger] cells[i]),
    ensures
        store_wf(with_leaves(s, parent, cells)),
    decreases cells.len(),
{
    if cells.len() > 0 {
        let init = cells.drop_last();
        assert forall|i: int| 0 <= i < init.len() implies valid_pair(#[trigger] init[i]) by {
            assert(init[i] == cells[i]);
        }
        leaves_keep_wf(s, parent, init);
        let prev = with_leaves(s, parent, init);
        let at = path_child(parent, cells.last());
        insert_keeps_wf(prev, at, crate::grammar::GrammarView::leaf());
        assert(valid_pair(cells[cells.len() - 1]));
        assert(valid_path(at));
        let n = with_leaves(s, parent, cells);
        assert forall|k: Path| n.map.contains_key(k) implies #[trigger] valid_path(k) by {
            if k != at {
                assert(prev.map.contains_key(k));
            }
        }
    }
}

/// Growing keeps a store well formed.
pub proof fn grown_keeps_wf(s: Store, active: Path, axis: Axis)
    requires
        store_wf(s),
    ensures
        store_wf(inserted(s, active, axis)),
{
    if grows(s, active, axis) {
        let parent = active.drop_last();
        let cells = new_cells(s, active, axis);
        assert(valid_path(parent));
        assert forall|i: int| 0 <= i < cells.len() implies valid_pair(#[trigger] cells[i]) by {
            new_cells_are_in_band(s, active, axis, i);
        }
        leaves_keep_wf(s, parent, cells);
        let leaves = with_leaves(s, parent, cells);
        insert_keeps_wf(leaves, parent, crate::engine::grown(s.map[parent], cells));
        let n = inserted(s, active, axis);
        assert forall|k: Path| n.map.contains_key(k) implies #[trigger] valid_path(k) by {
            if k != parent {
                assert(leaves.map.contains_key(k));
            }
        }
    }
}

/// Making a grid at a valid address keeps a store well formed.
pub proof fn nested_keeps_wf(s: Store, coord: Path, rows: u32, cols: u32)
    requires
        store_wf(s),
        valid_path(coord),
    ensures
        store_wf(nested(s, coord, rows, cols)),
{
    if rows > 0 && cols > 0 {
        let cells = grid_cells(rows as nat, cols as nat);
        let grid = GrammarView::grid(rows as nat, cols as nat);
        let parent = coord.drop_last();
        grid_cells_are_valid(rows as nat, cols as nat);
        leaves_keep_wf(s, coord, cells);
        let leaves = with_leaves(s, coord, cells);
        let mirrored = if mirrors_parent(s, coord) {
            leaves.insert(parent, GrammarView { kind: grid.kind, ..s.map[parent] })
        } else {
            leaves
        };
        if mirrors_parent(s, coord) {
            insert_keeps_wf(leaves, parent, GrammarView { kind: grid.kind, ..s.map[parent] });
            assert(valid_path(parent));
            assert forall|k: Path| mirrored.map.contains_key(k) implies #[trigger] valid_path(
                k,
            ) by {
                if k != parent {
                    assert(leaves.map.contains_key(k));
                }
            }
        }
        insert_keeps_wf(mirrored, coord, grid);
        let n = nested(s, coord, rows, cols);
        assert forall|k: Path| n.map.contains_key(k) implies #[trigger] valid_path(k) by {
            if k != coord {
                assert(mirrored.map.contains_key(k));
            }
        }
    }
}

/// Making a grid keeps the invariants of the document where the address
/// is at the top level or has its parent stored, and the node above, which
/// is given the list of the new grid, has a cell for each pair of it.
pub proof fn nested_keeps_sound(v: SessionView, coord: Path, rows: u32, cols: u32)
    requires
        sound_session(v),
        store_wf(v.store),
        valid_path(coord),
        parent_stored(v.store, coord),
        nesting_keeps_cells(v.store, coord, rows, cols),
    ensures
        sound_session(session_nested(v, coord, rows, cols)),
{
    if rows > 0 && cols > 0 {
        let s = v.store;
        let cells = grid_cells(rows as nat, cols as nat);
        let parent = coord.drop_last();
        let n = nested(s, coord, rows, cols);
        nesting_keeps_grids(s, coord, rows, cols);
        assert(root_path()[0] != meta_path()[0]);
        leaves_at(s, coord, cells, root_path());
        leaves_at(s, coord, cells, meta_path());
        assert forall|c: Path| n.map.contains_key(c) implies #[trigger] parent_stored(n, c) by {
            leaves_at(s, coord, cells, c);
            if c.len() > 1 {
                leaves_at(s, coord, cells, c.drop_last());
                if c != coord && c != parent && !is_new_leaf(coord, cells, c) {
                    assert(parent_stored(s, c));
                }
                if c == parent {
                    assert(parent_stored(s, c));
                }
            }
        }
    }
}

/// No stored cell lies directly inside `a`.
pub open spec fn childless(s: Store, a: Path) -> bool {
    forall|k: Path| s.map.contains_key(k) && k.len() > 1 ==> #[trigger] k.drop_last() != a
}

/// A move from `a` to `b` that keeps the invariants of the document: it
/// keeps every grid whole, takes no root away, leaves no cell without its
/// parent, and puts the node where its parent is stored.
pub open spec fn move_keeps_shape(s: Store, a: Path, b: Path) -> bool {
    ||| !s.map.contains_key(a)
    ||| a == b
    ||| {
        &&& move_keeps_cells(s, a, b)
        &&& a != root_path()
        &&& a != meta_path()
        &&& childless(s, a)
        &&& parent_stored(s, b)
        &&& b.len() > 1 ==> b.drop_last() != a
    }
}

/// Moving to a valid address keeps a store well formed.
pub proof fn moved_keeps_wf(s: Store, a: Path, b: Path)
    requires
        store_wf(s),
        valid_path(b),
    ensures
        store_wf(moved(s, a, b)),
{
    if s.map.contains_key(a) {
        remove_keeps_wf(s, a);
        insert_keeps_wf(s.remove(a), b, s.map[a]);
        let n = moved(s, a, b);
        assert forall|k: Path| n.map.contains_key(k) implies #[trigger] valid_path(k) by {
            if k != b {
                assert(s.map.contains_key(k));
            }
        }
    }
}

/// A move that keeps the shape keeps the invariants of the document.
pub proof fn moved_keeps_sound(v: SessionView, a: Path, b: Path)
    requires
        sound_session(v),
        store_wf(v.store),
        move_keeps_shape(v.store, a, b),
    ensures
        sound_session(session_moved(v, a, b)),
{
    let s = v.store;
    let n = moved(s, a, b);
    assert(root_path()[0] != meta_path()[0]);
    move_keeps_grids(s, a, b);
    if s.map.contains_key(a) {
        if a == b {
            assert(n.map =~= s.map);
        }
        assert forall|c: Path| n.map.contains_key(c) implies #[trigger] parent_stored(n, c) by {
            if a == b {
                assert(parent_stored(s, c));
            } else if c == b {
                assert(parent_stored(s, b));
            } else {
                assert(parent_stored(s, c));
                if c.len() > 1 {
                    assert(c.drop_last() != a);
                }
            }
        }
    }
}

} // verus!
