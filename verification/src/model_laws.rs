//! Laws of the state of the application: what its transitions keep.

use crate::coordinate::{path_full_col, path_full_row, valid_path, Path};
use crate::engine::{
    grows, holds_text, is_text, nested, new_cells, session_moved, session_retexted, toggled,
    with_text, Axis,
};
use crate::engine_laws::{
    grown_keeps_sound, grown_keeps_wf, is_new_leaf, leaves_at, move_keeps_shape, moved_keeps_sound,
    moved_keeps_wf, nested_keeps_sound, nested_keeps_wf, nesting_keeps_cells, retexted_keeps_sound,
};
use crate::grammar::{grid_cells, DEFAULT_COL_WIDTH, DEFAULT_ROW_HEIGHT, GrammarView, Lookup};
use crate::model::{band_of, cell_bands, defaulted, key_bands, Action, Dims, ModelView};
use crate::session::{cells_of, parent_stored, sound_session, store_wf, SessionView, Store};
use crate::table::{insert_keeps_wf, insert_twice};
use vstd::prelude::*;

verus! {

/// The cell `k` is at the top level, or both its bands have a size.
pub open spec fn sized(rows: Dims, cols: Dims, k: Path) -> bool {
    k.len() > 1 ==> rows.map.contains_key(path_full_row(k)) && cols.map.contains_key(
        path_full_col(k),
    )
}

/// Every stored cell below the top level has a size for both its bands.
pub open spec fn all_sized(m: ModelView) -> bool {
    forall|k: Path|
        m.session().store.map.contains_key(k) ==> #[trigger] sized(m.row_heights, m.col_widths, k)
}

/// What holds of the state between actions, unless a move or a new grid
/// has broken it: there is a current document, its store is well formed
/// and satisfies the invariants of a document, and every stored cell has
/// its sizes.
pub open spec fn well_formed(m: ModelView) -> bool {
    &&& m.has_session()
    &&& store_wf(m.session().store)
    &&& sound_session(m.session())
    &&& all_sized(m)
}

/// Giving defaults takes no size away and gives one to each band named.
pub proof fn defaulted_has(t: Dims, bands: Seq<(Path, u32)>, v: u64, b: (Path, u32))
    ensures
        defaulted(t, bands, v).map.contains_key(b) == (t.map.contains_key(b) || bands.contains(b)),
        t.map.contains_key(b) ==> defaulted(t, bands, v).map[b] == t.map[b],
    decreases bands.len(),
{
    if bands.len() > 0 {
        let init = bands.drop_last();
        defaulted_has(t, init, v, b);
        assert(bands[bands.len() - 1] == bands.last());
        if init.contains(b) {
            let i = choose|i: int| 0 <= i < init.len() && init[i] == b;
            assert(bands[i] == b);
        }
        if bands.contains(b) && b != bands.last() {
            let i = choose|i: int| 0 <= i < bands.len() && bands[i] == b;
            assert(init[i] == b);
        }
    }
}

/// The bands of the stored cells hold the bands of each of them.
pub proof fn key_bands_has(keys: Seq<Path>, axis: Axis, k: Path)
    requires
        keys.contains(k),
        k.len() > 1,
    ensures
        key_bands(keys, axis).contains(band_of(k, axis)),
    decreases keys.len(),
{
    let all = key_bands(keys, axis);
    let init = keys.drop_last();
    let rest = key_bands(init, axis);
    let i = choose|i: int| 0 <= i < keys.len() && keys[i] == k;
    if i == keys.len() - 1 {
        assert(all[all.len() - 1] == band_of(k, axis));
    } else {
        assert(init[i] == k);
        key_bands_has(init, axis, k);
        let j = choose|j: int| 0 <= j < rest.len() && rest[j] == band_of(k, axis);
        assert(all[j] == band_of(k, axis));
    }
}

/// After defaults were given for the bands of the stored cells, every
/// stored cell has its sizes.
pub proof fn defaults_size_the_store(s: Store, rows: Dims, cols: Dims, k: Path)
    requires
        s.wf(),
        s.map.contains_key(k),
    ensures
        sized(
            defaulted(rows, key_bands(s.keys, Axis::Rows), DEFAULT_ROW_HEIGHT),
            defaulted(cols, key_bands(s.keys, Axis::Cols), DEFAULT_COL_WIDTH),
            k,
        ),
{
    if k.len() > 1 {
        key_bands_has(s.keys, Axis::Rows, k);
        key_bands_has(s.keys, Axis::Cols, k);
        defaulted_has(rows, key_bands(s.keys, Axis::Rows), DEFAULT_ROW_HEIGHT, path_full_row(k));
        defaulted_has(cols, key_bands(s.keys, Axis::Cols), DEFAULT_COL_WIDTH, path_full_col(k));
    }
}

/// Loading a document that is well formed and satisfies the invariants
/// leaves the state well formed.
pub proof fn loaded_is_well_formed(m: ModelView, payload: SessionView)
    requires
        m.has_session(),
        store_wf(payload.store),
        sound_session(payload),
    ensures
        well_formed(m.loaded(payload)),
{
    let n = m.loaded(payload);
    assert forall|k: Path| n.session().store.map.contains_key(k) implies #[trigger] sized(
        n.row_heights,
        n.col_widths,
        k,
    ) by {
        defaults_size_the_store(payload.store, m.row_heights, m.col_widths, k);
    }
}

/// Growing the grid of the active cell leaves the state well formed.
pub proof fn grown_is_well_formed(m: ModelView, axis: Axis)
    requires
        well_formed(m),
    ensures
        well_formed(m.grown(axis)),
{
    if m.active_cell is Some {
        let active = m.active_cell->0;
        let s = m.session().store;
        let n = m.grown(axis);
        grown_keeps_wf(s, active, axis);
        grown_keeps_sound(m.session(), active, axis);
        let parent = active.drop_last();
        let cells = if grows(s, active, axis) {
            new_cells(s, active, axis)
        } else {
            Seq::empty()
        };
        assert forall|k: Path| n.session().store.map.contains_key(k) implies #[trigger] sized(
            n.row_heights,
            n.col_widths,
            k,
        ) by {
            let rows = cell_bands(parent, cells, Axis::Rows);
            let cols = cell_bands(parent, cells, Axis::Cols);
            defaulted_has(m.row_heights, rows, DEFAULT_ROW_HEIGHT, path_full_row(k));
            defaulted_has(m.col_widths, cols, DEFAULT_COL_WIDTH, path_full_col(k));
            if s.map.contains_key(k) {
                assert(sized(m.row_heights, m.col_widths, k));
            } else {
                leaves_at(s, parent, cells, k);
                assert(is_new_leaf(parent, cells, k));
                let j = choose|j: int| 0 <= j < cells.len() && cells[j] == k.last();
                assert(rows[j] == path_full_row(k));
                assert(cols[j] == path_full_col(k));
            }
        }
    }
}

/// Giving a text leaf another text or kind leaves the state well formed.
pub proof fn retexted_is_well_formed(m: ModelView, c: Path, fresh: crate::grammar::GrammarView)
    requires
        well_formed(m),
        cells_of(fresh).len() == 0,
    ensures
        well_formed(m.with_session(session_retexted(m.session(), c, fresh))),
{
    let n = m.with_session(session_retexted(m.session(), c, fresh));
    let s = m.session().store;
    retexted_keeps_sound(m.session(), c, fresh);
    if holds_text(s, c) {
        insert_keeps_wf(s, c, fresh);
        assert forall|k: Path| n.session().store.map.contains_key(k) implies #[trigger] valid_path(
            k,
        ) by {
            assert(s.map.contains_key(k));
        }
    }
    assert forall|k: Path| n.session().store.map.contains_key(k) implies #[trigger] sized(
        n.row_heights,
        n.col_widths,
        k,
    ) by {
        assert(s.map.contains_key(k));
        assert(sized(m.row_heights, m.col_widths, k));
    }
}

/// The action neither moves a node nor makes a grid.
pub open spec fn keeps_shape(action: Action) -> bool {
    !(action is DoCompletion) && !(action is Lookup) && !(action is AddNestedGrid)
}

/// Every action that neither moves a node nor makes a grid leaves a well
/// formed state well formed.
pub proof fn after_keeps_well_formed(m: ModelView, action: Action)
    requires
        well_formed(m),
        keeps_shape(action),
        action matches Action::LoadSession(payload) ==> store_wf(payload@.store),
    ensures
        well_formed(m.after(action)),
{
    match action {
        Action::ChangeInput(c, text) => {
            let g = m.session().store.map[c@];
            if is_text(g) {
                retexted_is_well_formed(m, c@, with_text(g, text@));
            } else {
                retexted_is_well_formed(m, c@, crate::grammar::GrammarView::leaf());
                assert(!holds_text(m.session().store, c@));
            }
        },
        Action::ToggleLookup(c) => {
            let g = m.session().store.map[c@];
            if is_text(g) {
                retexted_is_well_formed(m, c@, toggled(g));
            } else {
                retexted_is_well_formed(m, c@, crate::grammar::GrammarView::leaf());
                assert(!holds_text(m.session().store, c@));
            }
        },
        Action::LoadSession(payload) => {
            if payload.sound() {
                loaded_is_well_formed(m, payload@);
            }
        },
        Action::SetSessionTitle(title) => {
            let n = m.after(action);
            assert forall|k: Path| n.session().store.map.contains_key(k) implies #[trigger] sized(
                n.row_heights,
                n.col_widths,
                k,
            ) by {
                assert(sized(m.row_heights, m.col_widths, k));
            }
        },
        Action::InsertRow => {
            grown_is_well_formed(m, Axis::Rows);
        },
        Action::InsertCol => {
            grown_is_well_formed(m, Axis::Cols);
        },
        Action::ReadDriverFiles(paths) => {
            let n = m.after(action);
            assert(n.session() == m.session());
            assert forall|k: Path| n.session().store.map.contains_key(k) implies #[trigger] sized(
                n.row_heights,
                n.col_widths,
                k,
            ) by {
                assert(sized(m.row_heights, m.col_widths, k));
            }
        },
        _ => {
            let n = m.after(action);
            assert(n.session() == m.session());
            assert forall|k: Path| n.session().store.map.contains_key(k) implies #[trigger] sized(
                n.row_heights,
                n.col_widths,
                k,
            ) by {
                assert(sized(m.row_heights, m.col_widths, k));
            }
        },
    }
}

/// What of the state is shown: all of it but the reads that are pending.
pub open spec fn shown(m: ModelView) -> ModelView {
    ModelView { tasks: Seq::empty(), ..m }
}

/// An answer that asks for no drawing is given only where what is shown
/// has not changed.
pub proof fn quiet_means_unchanged(m: ModelView, action: Action)
    requires
        m.has_session(),
        !m.reply(action).render,
    ensures
        shown(m.after(action)) == shown(m),
{
    let n = m.after(action);
    let s = m.session();
    match action {
        Action::ChangeInput(c, text) => {
            assert(n.sessions =~= m.sessions);
        },
        Action::Lookup(source, target) => {
            assert(n.sessions =~= m.sessions);
        },
        Action::InsertRow => {
            grown_is_quiet(m, Axis::Rows);
        },
        Action::InsertCol => {
            grown_is_quiet(m, Axis::Cols);
        },
        _ => {},
    }
}

proof fn grown_is_quiet(m: ModelView, axis: Axis)
    requires
        m.has_session(),
        crate::model::grow_outcome(m, axis) is Failed,
    ensures
        m.grown(axis) == m,
{
    let active = m.active_cell->0;
    let n = m.grown(axis);
    assert(n.sessions =~= m.sessions);
    assert(cell_bands(active.drop_last(), Seq::empty(), Axis::Rows) =~= Seq::empty());
    assert(cell_bands(active.drop_last(), Seq::empty(), Axis::Cols) =~= Seq::empty());
}

/// Setting the sizes of a cell twice is setting them once.
pub proof fn resize_is_idempotent(m: ModelView, coord: Path, h: u64, w: u64)
    ensures
        m.resized(coord, h, w).resized(coord, h, w) == m.resized(coord, h, w),
{
    insert_twice(m.row_heights, path_full_row(coord), h);
    insert_twice(m.col_widths, path_full_col(coord), w);
}

/// Making a grid leaves the state well formed where it keeps the
/// invariants of the document.
pub proof fn nested_is_well_formed(m: ModelView, coord: Path, rows: u32, cols: u32)
    requires
        well_formed(m),
        valid_path(coord),
        parent_stored(m.session().store, coord),
        nesting_keeps_cells(m.session().store, coord, rows, cols),
    ensures
        well_formed(m.nested(coord, rows, cols)),
{
    if rows > 0 && cols > 0 {
        let s = m.session().store;
        let n = m.nested(coord, rows, cols);
        let cells = grid_cells(rows as nat, cols as nat);
        nested_keeps_wf(s, coord, rows, cols);
        nested_keeps_sound(m.session(), coord, rows, cols);
        let h = crate::model::share(m.row_heights, path_full_row(coord), rows, DEFAULT_ROW_HEIGHT);
        let w = crate::model::share(m.col_widths, path_full_col(coord), cols, DEFAULT_COL_WIDTH);
        let rows_of = cell_bands(coord, cells, Axis::Rows);
        let cols_of = cell_bands(coord, cells, Axis::Cols);
        assert forall|k: Path| n.session().store.map.contains_key(k) implies #[trigger] sized(
            n.row_heights,
            n.col_widths,
            k,
        ) by {
            defaulted_has(m.row_heights, rows_of, h, path_full_row(k));
            defaulted_has(m.col_widths, cols_of, w, path_full_col(k));
            leaves_at(s, coord, cells, k);
            if s.map.contains_key(k) {
                assert(sized(m.row_heights, m.col_widths, k));
            } else if is_new_leaf(coord, cells, k) {
                let j = choose|j: int| 0 <= j < cells.len() && cells[j] == k.last();
                assert(rows_of[j] == path_full_row(k));
                assert(cols_of[j] == path_full_col(k));
            }
        }
    }
}

/// A move that keeps the shape, to a cell that has its sizes, leaves the
/// state well formed.
pub proof fn moved_is_well_formed(m: ModelView, a: Path, b: Path)
    requires
        well_formed(m),
        valid_path(b),
        move_keeps_shape(m.session().store, a, b),
        sized(m.row_heights, m.col_widths, b),
    ensures
        well_formed(m.with_session(session_moved(m.session(), a, b))),
{
    let s = m.session().store;
    let n = m.with_session(session_moved(m.session(), a, b));
    moved_keeps_wf(s, a, b);
    moved_keeps_sound(m.session(), a, b);
    assert forall|k: Path| n.session().store.map.contains_key(k) implies #[trigger] sized(
        n.row_heights,
        n.col_widths,
        k,
    ) by {
        if k != b {
            assert(s.map.contains_key(k));
            assert(sized(m.row_heights, m.col_widths, k));
        }
    }
}

/// The action keeps the shape of the document: it neither moves a node
/// nor makes a grid, or it does so where the invariants allow it.
pub open spec fn fits(m: ModelView, action: Action) -> bool {
    match action {
        Action::DoCompletion(source, dest) => move_keeps_shape(m.session().store, source@, dest@)
            && valid_path(dest@) && sized(m.row_heights, m.col_widths, dest@),
        Action::Lookup(source, target) => match target {
            Lookup::Cell(dest) => move_keeps_shape(m.session().store, source@, dest@)
                && valid_path(dest@) && sized(m.row_heights, m.col_widths, dest@),
            _ => true,
        },
        Action::AddNestedGrid(c, size) => valid_path(c@) && parent_stored(m.session().store, c@)
            && nesting_keeps_cells(m.session().store, c@, size.0, size.1),
        Action::LoadSession(payload) => store_wf(payload@.store),
        _ => true,
    }
}

/// Every action that fits leaves a well formed state well formed.
pub proof fn fitting_action_keeps_well_formed(m: ModelView, action: Action)
    requires
        well_formed(m),
        fits(m, action),
    ensures
        well_formed(m.after(action)),
{
    match action {
        Action::DoCompletion(source, dest) => {
            moved_is_well_formed(m, source@, dest@);
        },
        Action::Lookup(source, target) => {
            match target {
                Lookup::Cell(dest) => {
                    moved_is_well_formed(m, source@, dest@);
                },
                _ => {},
            }
        },
        Action::AddNestedGrid(c, size) => {
            nested_is_well_formed(m, c@, size.0, size.1);
        },
        _ => {
            after_keeps_well_formed(m, action);
        },
    }
}

} // verus!
