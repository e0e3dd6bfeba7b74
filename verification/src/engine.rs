//! The operations that change a document.

use crate::coordinate::{
    meta_path, path_child, path_col, path_full_col, path_full_row, path_row, path_sibling,
    root_path, valid_pair, Coordinate, Path,
};
use crate::error::Error;
use crate::grammar::{
    copy_rules, grid_cells, row_cells, rules_view, Grammar, GrammarView, Kind, KindView, Style,
};
use crate::session::{cells_of, resync, select, store_wf, Query, Session, SessionView, Store};
use crate::table::Key;
use vstd::prelude::*;

verus! {

/// The store after the node at `a` has gone to `b`: as it was where
/// nothing is stored at `a`.
pub open spec fn moved(s: Store, a: Path, b: Path) -> Store {
    if s.map.contains_key(a) {
        s.remove(a).insert(b, s.map[a])
    } else {
        s
    }
}

/// A node is a leaf that holds text: an input or a lookup.
pub open spec fn is_text(g: GrammarView) -> bool {
    g.kind is Input || g.kind is Lookup
}

/// An input turned into an empty lookup, a lookup into an empty input.
pub open spec fn toggled(g: GrammarView) -> GrammarView {
    match g.kind {
        KindView::Input(_) => GrammarView { kind: KindView::Lookup(Seq::empty(), None), ..g },
        KindView::Lookup(_, _) => GrammarView { kind: KindView::Input(Seq::empty()), ..g },
        _ => g,
    }
}

/// A text leaf with `text` as its input, or as its query.
pub open spec fn with_text(g: GrammarView, text: Seq<char>) -> GrammarView {
    match g.kind {
        KindView::Input(_) => GrammarView { kind: KindView::Input(text), ..g },
        KindView::Lookup(_, target) => GrammarView { kind: KindView::Lookup(text, target), ..g },
        _ => g,
    }
}

/// The store with `fresh` at `at` where the change applies.
pub open spec fn rewritten(s: Store, applies: bool, at: Path, fresh: GrammarView) -> Store {
    if applies {
        s.insert(at, fresh)
    } else {
        s
    }
}

/// The store with a fresh leaf at every cell of `cells` inside `parent`,
/// one after the other.
pub open spec fn with_leaves(s: Store, parent: Path, cells: Seq<(u32, u32)>) -> Store
    decreases cells.len(),
{
    if cells.len() == 0 {
        s
    } else {
        with_leaves(s, parent, cells.drop_last()).insert(
            path_child(parent, cells.last()),
            GrammarView::leaf(),
        )
    }
}

/// The direction in which a grid grows.
#[derive(Clone, Copy, Debug)]
pub enum Axis {
    /// A row is added below.
    Rows,
    /// A column is added to the right.
    Cols,
}

/// The index of a cell along the axis.
pub open spec fn band_index(p: Path, axis: Axis) -> u32 {
    match axis {
        Axis::Rows => path_row(p),
        Axis::Cols => path_col(p),
    }
}

/// The pair of the cell next to `p` along the axis.
pub open spec fn shifted(p: Path, axis: Axis) -> (u32, u32) {
    match axis {
        Axis::Rows => ((path_row(p) + 1) as u32, path_col(p)),
        Axis::Cols => (path_row(p), (path_col(p) + 1) as u32),
    }
}

/// The address of the cell next to `p` along the axis.
pub open spec fn next_cell(p: Path, axis: Axis) -> Path {
    path_sibling(p, shifted(p, axis))
}

/// The last cell reached from `p` by going along the axis over cells
/// that are stored.
pub open spec fn frontier(s: Store, p: Path, axis: Axis) -> Path
    decreases u32::MAX - band_index(p, axis),
{
    if band_index(p, axis) < u32::MAX && s.map.contains_key(next_cell(p, axis)) {
        frontier(s, next_cell(p, axis), axis)
    } else {
        p
    }
}

/// The question for the band of `p` across the axis.
pub open spec fn band_query(p: Path, axis: Axis) -> Query {
    match axis {
        Axis::Rows => Query::Row(path_full_row(p)),
        Axis::Cols => Query::Col(path_full_col(p)),
    }
}

/// The stored cells of the band at the frontier of `active`.
pub open spec fn frontier_band(s: Store, active: Path, axis: Axis) -> Seq<Path> {
    select(s.keys, band_query(frontier(s, active, axis), axis))
}

/// The pairs of the cells that growing adds: one next to each cell of the
/// band at the frontier.
pub open spec fn new_cells(s: Store, active: Path, axis: Axis) -> Seq<(u32, u32)> {
    let band = frontier_band(s, active, axis);
    Seq::new(band.len(), |i: int| shifted(band[i], axis))
}

/// The grid of `active` can grow: `active` has a parent, and a grid is
/// stored there.
pub open spec fn can_grow(s: Store, active: Path) -> bool {
    &&& active.len() > 1
    &&& s.map.contains_key(active.drop_last())
    &&& s.map[active.drop_last()].kind is Grid
}

/// Growing would need an index beyond the largest.
pub open spec fn grows_too_far(s: Store, active: Path, axis: Axis) -> bool {
    frontier_band(s, active, axis).len() > 0 && band_index(frontier(s, active, axis), axis)
        == u32::MAX
}

/// A grid node with `cells` appended to its list.
pub open spec fn grown(g: GrammarView, cells: Seq<(u32, u32)>) -> GrammarView {
    GrammarView { kind: KindView::Grid(cells_of(g) + cells), ..g }
}

/// The store after the grid of `active` has grown along the axis: as it
/// was where it cannot grow.
pub open spec fn inserted(s: Store, active: Path, axis: Axis) -> Store {
    if can_grow(s, active) && !grows_too_far(s, active, axis) {
        let parent = active.drop_last();
        let cells = new_cells(s, active, axis);
        with_leaves(s, parent, cells).insert(parent, grown(s.map[parent], cells))
    } else {
        s
    }
}

/// The document after the node at `a` has gone to `b`.
pub open spec fn session_moved(v: SessionView, a: Path, b: Path) -> SessionView {
    let did = v.store.map.contains_key(a);
    resync(v, moved(v.store, a, b), did && b == root_path(), did && b == meta_path())
}

/// A text leaf is stored at `c`.
pub open spec fn holds_text(s: Store, c: Path) -> bool {
    s.map.contains_key(c) && is_text(s.map[c])
}

/// The document with `fresh` at `c` where a text leaf is stored there: as
/// it was where none is.
pub open spec fn session_retexted(v: SessionView, c: Path, fresh: GrammarView) -> SessionView {
    let did = holds_text(v.store, c);
    resync(
        v,
        rewritten(v.store, did, c, fresh),
        did && c == root_path(),
        did && c == meta_path(),
    )
}

/// The document after the text leaf at `c` was turned from input to
/// lookup, or from lookup to input.
pub open spec fn session_toggled(v: SessionView, c: Path) -> SessionView {
    session_retexted(v, c, toggled(v.store.map[c]))
}

/// The document after the text leaf at `c` was given the text `text`.
pub open spec fn session_changed(v: SessionView, c: Path, text: Seq<char>) -> SessionView {
    session_retexted(v, c, with_text(v.store.map[c], text))
}

/// The grid of `active` grows along the axis.
pub open spec fn grows(s: Store, active: Path, axis: Axis) -> bool {
    can_grow(s, active) && !grows_too_far(s, active, axis)
}

/// The document after the grid of `active` has grown along the axis.
pub open spec fn session_grown(v: SessionView, active: Path, axis: Axis) -> SessionView {
    let did = grows(v.store, active, axis);
    resync(
        v,
        inserted(v.store, active, axis),
        did && active.drop_last() == root_path(),
        did && active.drop_last() == meta_path(),
    )
}

/// The document with the grid node `g` at `at` and a fresh leaf at every
/// cell that `g` lists.
pub open spec fn planted(v: SessionView, at: Path, g: GrammarView) -> SessionView {
    resync(
        v,
        with_leaves(v.store.insert(at, g), at, cells_of(g)),
        at == root_path(),
        at == meta_path(),
    )
}

/// Every pair of the list is valid.
pub open spec fn all_valid(cells: Seq<(u32, u32)>) -> bool {
    forall|i: int| 0 <= i < cells.len() ==> valid_pair(#[trigger] cells[i])
}

proof fn leaves_keep_roots(s: Store, parent: Path, cells: Seq<(u32, u32)>, k: Path)
    requires
        k.len() <= parent.len(),
    ensures
        with_leaves(s, parent, cells).map.contains_key(k) == s.map.contains_key(k),
        s.map.contains_key(k) ==> with_leaves(s, parent, cells).map[k] == s.map[k],
    decreases cells.len(),
{
    if cells.len() > 0 {
        leaves_keep_roots(s, parent, cells.drop_last(), k);
    }
}

impl Session {
    fn rewrite(&mut self, coord: &Coordinate, fresh: Option<Grammar>) -> (did: bool)
        ensures
            did == fresh is Some,
            final(self)@ == resync(
                old(self)@,
                rewritten(old(self).store(), fresh is Some, coord@, fresh->0@),
                fresh is Some && coord@ == root_path(),
                fresh is Some && coord@ == meta_path(),
            ),
            store_wf(final(self).store()),
    {
        match fresh {
            Some(g) => {
                self.put(coord.clone(), g);
                true
            },
            None => {
                self.witness();
                false
            },
        }
    }

    /// Moves the node at `source` to `dest`, in place of the node that was
    /// there, if any. Nothing changes where no node is stored at
    /// `source`; the result says whether one was. The cells below
    /// `source` stay where they are.
    pub fn move_grammar(&mut self, source: &Coordinate, dest: Coordinate) -> (did: bool)
        ensures
            did == old(self).store().map.contains_key(source@),
            final(self)@ == session_moved(old(self)@, source@, dest@),
            store_wf(final(self).store()),
            old(self).sound() && crate::engine_laws::move_keeps_shape(
                old(self).store(),
                source@,
                dest@,
            ) ==> final(self).sound(),
    {
        let ghost before = self.store();
        self.witness();
        proof {
            if self.sound() && crate::engine_laws::move_keeps_shape(self.store(), source@, dest@) {
                crate::engine_laws::moved_keeps_sound(self@, source@, dest@);
            }
        }
        match self.take(source) {
            Some(g) => {
                self.put(dest, g);
                true
            },
            None => {
                proof {
                    assert(before.remove(source@).map =~= before.map);
                }
                false
            },
        }
    }

    /// Turns the input at `coord` into an empty lookup, or the lookup into
    /// an empty input. Nothing changes where no text leaf is stored at
    /// `coord`; the result says whether one was.
    pub fn toggle_input_lookup(&mut self, coord: &Coordinate) -> (did: bool)
        ensures
            did == holds_text(old(self).store(), coord@),
            final(self)@ == session_toggled(old(self)@, coord@),
            store_wf(final(self).store()),
            old(self).sound() ==> final(self).sound(),
    {
        proof {
            if self.sound() && holds_text(self.store(), coord@) {
                crate::engine_laws::retexted_keeps_sound(
                    self@,
                    coord@,
                    toggled(self.store().map[coord@]),
                );
            }
        }
        let fresh = match self.get(coord) {
            Some(g) => match &g.kind {
                Kind::Input(_) => Some(
                    Grammar {
                        name: g.name.clone(),
                        style: g.style.clone(),
                        kind: Kind::Lookup(String::new(), None),
                    },
                ),
                Kind::Lookup(_, _) => Some(
                    Grammar {
                        name: g.name.clone(),
                        style: g.style.clone(),
                        kind: Kind::Input(String::new()),
                    },
                ),
                _ => None,
            },
            None => None,
        };
        self.rewrite(coord, fresh)
    }

    /// Sets the text of the input at `coord`, or the query of the lookup.
    /// Nothing changes where no text leaf is stored at `coord`; the
    /// result says whether one was.
    pub fn change_input(&mut self, coord: &Coordinate, text: String) -> (did: bool)
        ensures
            did == holds_text(old(self).store(), coord@),
            final(self)@ == session_changed(old(self)@, coord@, text@),
            store_wf(final(self).store()),
            old(self).sound() ==> final(self).sound(),
    {
        proof {
            if self.sound() && holds_text(self.store(), coord@) {
                crate::engine_laws::retexted_keeps_sound(
                    self@,
                    coord@,
                    with_text(self.store().map[coord@], text@),
                );
            }
        }
        let fresh = match self.get(coord) {
            Some(g) => match &g.kind {
                Kind::Input(_) => Some(
                    Grammar {
                        name: g.name.clone(),
                        style: g.style.clone(),
                        kind: Kind::Input(text),
                    },
                ),
                Kind::Lookup(_, target) => {
                    let copy = match target {
                        Some(t) => Some(t.clone()),
                        None => None,
                    };
                    Some(
                        Grammar {
                            name: g.name.clone(),
                            style: g.style.clone(),
                            kind: Kind::Lookup(text, copy),
                        },
                    )
                },
                _ => None,
            },
            None => None,
        };
        self.rewrite(coord, fresh)
    }

    fn put_leaves(&mut self, parent: &Coordinate, cells: &Vec<(u32, u32)>)
        requires
            forall|i: int| 0 <= i < cells@.len() ==> valid_pair(#[trigger] cells@[i]),
        ensures
            final(self)@ == resync(
                old(self)@,
                with_leaves(old(self).store(), parent@, cells@),
                false,
                false,
            ),
            store_wf(final(self).store()),
    {
        let ghost before = self.store();
        let mut i: usize = 0;
        proof {
            assert(cells@.take(0) =~= Seq::<(u32, u32)>::empty());
        }
        self.witness();
        parent.witness();
        while i < cells.len()
            invariant
                i <= cells.len(),
                parent@.len() >= 1,
                forall|j: int| 0 <= j < cells@.len() ==> valid_pair(#[trigger] cells@[j]),
                self@ == resync(
                    old(self)@,
                    with_leaves(before, parent@, cells@.take(i as int)),
                    false,
                    false,
                ),
                before == old(self).store(),
                store_wf(self.store()),
            decreases cells.len() - i,
        {
            proof {
                assert(cells@.take(i + 1).drop_last() =~= cells@.take(i as int));
                assert(cells@.take(i + 1).last() == cells@[i as int]);
            }
            match Coordinate::child_of(parent, cells[i]) {
                Ok(child) => {
                    proof {
                        assert(child@.len() >= 2);
                        assert(root_path().len() == 1);
                        assert(meta_path().len() == 1);
                    }
                    self.put(child, Grammar::default());
                },
                Err(_) => {},
            }
            i += 1;
        }
        proof {
            assert(cells@.take(cells.len() as int) =~= cells@);
        }
    }

    fn frontier_of(&self, start: &Coordinate, axis: Axis) -> (f: Coordinate)
        ensures
            f@ == frontier(self.store(), start@, axis),
    {
        let ghost s = self.store();
        let mut cur = start.clone();
        loop
            invariant
                s == self.store(),
                frontier(s, cur@, axis) == frontier(s, start@, axis),
            ensures
                cur@ == frontier(s, start@, axis),
            decreases u32::MAX - band_index(cur@, axis),
        {
            let next = match axis {
                Axis::Rows => cur.neighbor_below(),
                Axis::Cols => cur.neighbor_right(),
            };
            match next {
                Some(n) => {
                    assert(n@ == next_cell(cur@, axis));
                    if self.contains(&n) {
                        cur = n;
                    } else {
                        break;
                    }
                },
                None => {
                    break;
                },
            }
        }
        cur
    }
}


/// The frontier lies in the grid of the cell the walk began at, not before
/// that cell.
pub proof fn frontier_stays_in_grid(s: Store, p: Path, axis: Axis)
    requires
        p.len() >= 1,
    ensures
        frontier(s, p, axis).len() == p.len(),
        frontier(s, p, axis).drop_last() == p.drop_last(),
        band_index(frontier(s, p, axis), axis) >= band_index(p, axis),
    decreases u32::MAX - band_index(p, axis),
{
    if band_index(p, axis) < u32::MAX && s.map.contains_key(next_cell(p, axis)) {
        let n = next_cell(p, axis);
        assert(n.drop_last() =~= p.drop_last());
        assert(n.last() == shifted(p, axis));
        frontier_stays_in_grid(s, n, axis);
    }
}

/// The cells that a question selects are stored cells that answer it, and
/// every stored cell that answers it is selected.
pub proof fn selected_answer(keys: Seq<Path>, q: Query)
    ensures
        forall|i: int|
            0 <= i < select(keys, q).len() ==> keys.contains(#[trigger] select(keys, q)[i])
                && crate::session::answers(q, select(keys, q)[i]),
        forall|k: Path|
            keys.contains(k) && crate::session::answers(q, k) ==> #[trigger] select(
                keys,
                q,
            ).contains(k),
    decreases keys.len(),
{
    if keys.len() > 0 {
        let init = keys.drop_last();
        selected_answer(init, q);
        let sel = select(keys, q);
        let rest = select(init, q);
        assert forall|i: int| 0 <= i < sel.len() implies keys.contains(#[trigger] sel[i])
            && crate::session::answers(q, sel[i]) by {
            if i < rest.len() {
                assert(sel[i] == rest[i]);
                let j = choose|j: int| 0 <= j < init.len() && init[j] == rest[i];
                assert(keys[j] == rest[i]);
            } else {
                assert(sel[i] == keys.last());
                assert(keys[keys.len() - 1] == keys.last());
            }
        }
        assert forall|k: Path|
            keys.contains(k) && crate::session::answers(q, k) implies #[trigger] sel.contains(k) by {
            let j = choose|j: int| 0 <= j < keys.len() && keys[j] == k;
            if j < init.len() {
                assert(init[j] == k);
                assert(init.contains(k));
                assert(rest.contains(k));
                let t = choose|t: int| 0 <= t < rest.len() && rest[t] == k;
                assert(sel[t] == k);
            } else {
                assert(sel[sel.len() - 1] == k);
            }
        }
    }
}

impl Session {
    fn shift_band(band: &Vec<Coordinate>, axis: Axis, Ghost(s): Ghost<Store>, Ghost(active): Ghost<
        Path,
    >) -> (r: Option<Vec<(u32, u32)>>)
        requires
            active.len() >= 1,
            crate::session::paths_of(band@) == frontier_band(s, active, axis),
        ensures
            r is None <==> grows_too_far(s, active, axis),
            r is Some ==> r->0@ == new_cells(s, active, axis),
            r is Some ==> forall|i: int| 0 <= i < r->0@.len() ==> valid_pair(#[trigger] r->0@[i]),
    {
        let ghost f = frontier(s, active, axis);
        let ghost model = frontier_band(s, active, axis);
        let mut cells: Vec<(u32, u32)> = Vec::new();
        let mut i: usize = 0;
        proof {
            selected_answer(s.keys, band_query(f, axis));
        }
        while i < band.len()
            invariant
                i <= band.len(),
                f == frontier(s, active, axis),
                model == frontier_band(s, active, axis),
                crate::session::paths_of(band@) == model,
                forall|j: int|
                    0 <= j < model.len() ==> crate::session::answers(
                        band_query(f, axis),
                        #[trigger] model[j],
                    ),
                cells@.len() == i,
                forall|j: int| 0 <= j < i ==> #[trigger] cells@[j] == shifted(model[j], axis),
                forall|j: int| 0 <= j < i ==> valid_pair(#[trigger] cells@[j]),
                i > 0 ==> band_index(f, axis) < u32::MAX,
            decreases band.len() - i,
        {
            let m = &band[i];
            let rc = m.last();
            let row: u32 = rc.0;
            let col: u32 = rc.1;
            proof {
                assert(m@ == model[i as int]);
                assert(crate::session::answers(band_query(f, axis), model[i as int]));
                assert(band_index(m@, axis) == band_index(f, axis));
            }
            let cell = match axis {
                Axis::Rows => {
                    if row == u32::MAX {
                        return None;
                    }
                    (row + 1, col)
                },
                Axis::Cols => {
                    if col == u32::MAX {
                        return None;
                    }
                    (row, col + 1)
                },
            };
            cells.push(cell);
            i += 1;
        }
        proof {
            assert(cells@ =~= new_cells(s, active, axis));
        }
        Some(cells)
    }

    fn grow(&mut self, active: &Coordinate, axis: Axis) -> (r: Result<Option<Vec<(u32, u32)>>, Error>)
        ensures
            final(self)@ == session_grown(old(self)@, active@, axis),
            store_wf(final(self).store()),
            !can_grow(old(self).store(), active@) ==> r is Ok && r->Ok_0 is None,
            can_grow(old(self).store(), active@) && grows_too_far(old(self).store(), active@, axis)
                ==> r is Err && r->Err_0 is InvalidIndex,
            grows(old(self).store(), active@, axis) ==> r is Ok && r->Ok_0 is Some && r->Ok_0->0@
                == new_cells(old(self).store(), active@, axis),
            old(self).sound() ==> final(self).sound(),
    {
        let ghost s = self.store();
        self.witness();
        active.witness();
        proof {
            if self.sound() {
                crate::engine_laws::grown_keeps_sound(self@, active@, axis);
            }
        }
        let parent = match active.parent() {
            Some(p) => p,
            None => {
                return Ok(None);
            },
        };
        let (name, style, old_cells) = match self.get(&parent) {
            Some(g) => match &g.kind {
                Kind::Grid(cells) => (
                    g.name.clone(),
                    g.style.clone(),
                    crate::coordinate::copy_pairs(cells, cells.len()),
                ),
                _ => {
                    return Ok(None);
                },
            },
            None => {
                return Ok(None);
            },
        };
        proof {
            assert(can_grow(s, active@));
            assert(old_cells@ =~= cells_of(s.map[parent@]));
        }
        let f = self.frontier_of(active, axis);
        let band = match axis {
            Axis::Rows => self.row_members(&f.full_row()),
            Axis::Cols => self.column_members(&f.full_col()),
        };
        let cells = match Session::shift_band(&band, axis, Ghost(s), Ghost(active@)) {
            Some(cells) => cells,
            None => {
                return Err(Error::InvalidIndex);
            },
        };
        self.put_leaves(&parent, &cells);
        let mut all = old_cells;
        let mut i: usize = 0;
        while i < cells.len()
            invariant
                i <= cells.len(),
                all@ == cells_of(s.map[parent@]) + cells@.take(i as int),
            decreases cells.len() - i,
        {
            all.push(cells[i]);
            proof {
                assert(cells@.take(i + 1) =~= cells@.take(i as int).push(cells@[i as int]));
                assert(all@ =~= cells_of(s.map[parent@]) + cells@.take(i + 1));
            }
            i += 1;
        }
        proof {
            assert(cells@.take(cells.len() as int) =~= cells@);
            leaves_keep_roots(s, parent@, cells@, root_path());
            leaves_keep_roots(s, parent@, cells@, meta_path());
        }
        self.put(parent, Grammar { name, style, kind: Kind::Grid(all) });
        Ok(Some(cells))
    }

    /// Adds a row below the last stored cell under `active`: a fresh leaf
    /// below every stored cell of that cell's row, each appended to the
    /// list of the grid around `active`. Nothing changes where `active`
    /// has no parent or no grid is stored there; the result then holds no
    /// list. Where the row index cannot grow, the operation is refused.
    pub fn insert_row(&mut self, active: &Coordinate) -> (r: Result<Option<Vec<(u32, u32)>>, Error>)
        ensures
            final(self)@ == session_grown(old(self)@, active@, Axis::Rows),
            store_wf(final(self).store()),
            !can_grow(old(self).store(), active@) ==> r is Ok && r->Ok_0 is None,
            can_grow(old(self).store(), active@) && grows_too_far(
                old(self).store(),
                active@,
                Axis::Rows,
            ) ==> r is Err && r->Err_0 is InvalidIndex,
            grows(old(self).store(), active@, Axis::Rows) ==> r is Ok && r->Ok_0 is Some && r->Ok_0->0@
                == new_cells(old(self).store(), active@, Axis::Rows),
            old(self).sound() ==> final(self).sound(),
    {
        self.grow(active, Axis::Rows)
    }

    /// Adds a column to the right of the last stored cell beside
    /// `active`: a fresh leaf to the right of every stored cell of that
    /// cell's column, each appended to the list of the grid around
    /// `active`. Nothing changes where `active` has no parent or no grid
    /// is stored there; the result then holds no list. Where the column
    /// index cannot grow, the operation is refused.
    pub fn insert_col(&mut self, active: &Coordinate) -> (r: Result<Option<Vec<(u32, u32)>>, Error>)
        ensures
            final(self)@ == session_grown(old(self)@, active@, Axis::Cols),
            store_wf(final(self).store()),
            !can_grow(old(self).store(), active@) ==> r is Ok && r->Ok_0 is None,
            can_grow(old(self).store(), active@) && grows_too_far(
                old(self).store(),
                active@,
                Axis::Cols,
            ) ==> r is Err && r->Err_0 is InvalidIndex,
            grows(old(self).store(), active@, Axis::Cols) ==> r is Ok && r->Ok_0 is Some && r->Ok_0->0@
                == new_cells(old(self).store(), active@, Axis::Cols),
            old(self).sound() ==> final(self).sound(),
    {
        self.grow(active, Axis::Cols)
    }
}


/// Making a grid at `coord` also rewrites the node above it: `coord` has a
/// parent, and a node is stored there.
pub open spec fn mirrors_parent(s: Store, coord: Path) -> bool {
    coord.len() > 1 && s.map.contains_key(coord.drop_last())
}

/// The store after a grid of `rows` by `cols` fresh leaves has been made
/// at `coord`: a leaf at every cell, the kind of the grid given to the
/// node above `coord` as well, and the grid itself at `coord`. As it was
/// where a count is zero.
pub open spec fn nested(s: Store, coord: Path, rows: u32, cols: u32) -> Store {
    if rows == 0 || cols == 0 {
        s
    } else {
        let grid = GrammarView::grid(rows as nat, cols as nat);
        let leaves = with_leaves(s, coord, grid_cells(rows as nat, cols as nat));
        let parent = coord.drop_last();
        let mirrored = if mirrors_parent(s, coord) {
            leaves.insert(parent, GrammarView { kind: grid.kind, ..s.map[parent] })
        } else {
            leaves
        };
        mirrored.insert(coord, grid)
    }
}

/// The document after a grid of `rows` by `cols` was made at `coord`.
pub open spec fn session_nested(v: SessionView, coord: Path, rows: u32, cols: u32) -> SessionView {
    let did = rows > 0 && cols > 0;
    resync(
        v,
        nested(v.store, coord, rows, cols),
        did && nesting_touches(v.store, coord, root_path()),
        did && nesting_touches(v.store, coord, meta_path()),
    )
}

/// Making a grid at `coord` rewrites the node at `which`: it is `coord`,
/// or the stored node above it.
pub open spec fn nesting_touches(s: Store, coord: Path, which: Path) -> bool {
    coord == which || (mirrors_parent(s, coord) && coord.drop_last() == which)
}

/// The cells of a grid are valid pairs, within the counts of the grid.
pub proof fn grid_cells_are_valid(rows: nat, cols: nat)
    requires
        rows <= u32::MAX,
        cols <= u32::MAX,
    ensures
        grid_cells(rows, cols).len() == rows * cols,
        forall|i: int|
            0 <= i < grid_cells(rows, cols).len() ==> valid_pair(#[trigger] grid_cells(rows, cols)[i])
                && grid_cells(rows, cols)[i].0 <= rows && grid_cells(rows, cols)[i].1 <= cols,
    decreases rows,
{
    if rows > 0 {
        grid_cells_are_valid((rows - 1) as nat, cols);
        let before = grid_cells((rows - 1) as nat, cols);
        let row = row_cells(rows as u32, cols);
        assert(grid_cells(rows, cols) == before + row);
        assert(rows * cols == (rows - 1) * cols + cols) by (nonlinear_arith);
        assert forall|i: int| 0 <= i < grid_cells(rows, cols).len() implies valid_pair(
            #[trigger] grid_cells(rows, cols)[i],
        ) && grid_cells(rows, cols)[i].0 <= rows && grid_cells(rows, cols)[i].1 <= cols by {
            if i < before.len() {
                assert(grid_cells(rows, cols)[i] == before[i]);
            } else {
                assert(grid_cells(rows, cols)[i] == row[i - before.len()]);
            }
        }
    } else {
        assert(rows * cols == 0) by (nonlinear_arith)
            requires
                rows == 0,
        ;
    }
}

/// A node made after a template: the template's style and kind under a
/// name of its own.
pub open spec fn instance(name: Seq<char>, template: GrammarView) -> GrammarView {
    GrammarView { name, style: template.style, kind: template.kind }
}

/// Where the instance of a rule goes: to the cell inside `owner` that has
/// the pair the rule's template has in its own grid.
pub open spec fn instance_at(owner: Path, rule: Path) -> Path {
    path_child(owner, rule.last())
}

/// The store after the first `n` rules have been instantiated inside
/// `owner`, one after the other, each from the node that is stored at the
/// rule's address at that moment.
pub open spec fn applied(s: Store, owner: Path, rules: Seq<(Seq<char>, Path)>, n: int) -> Store
    decreases n,
{
    if n <= 0 {
        s
    } else {
        let prev = applied(s, owner, rules, n - 1);
        prev.insert(
            instance_at(owner, rules[n - 1].1),
            instance(rules[n - 1].0, prev.map[rules[n - 1].1]),
        )
    }
}

/// The first among the first `n` rules whose address holds no node.
pub open spec fn first_missing(s: Store, rules: Seq<(Seq<char>, Path)>, n: int) -> Option<Path>
    decreases n,
{
    if n <= 0 {
        None
    } else {
        match first_missing(s, rules, n - 1) {
            Some(p) => Some(p),
            None => if s.map.contains_key(rules[n - 1].1) {
                None
            } else {
                Some(rules[n - 1].1)
            },
        }
    }
}

/// The address that a definition belongs to.
pub open spec fn owner_of(g: GrammarView) -> Path {
    match g.kind {
        KindView::Defn(_, owner, _) => owner,
        _ => Seq::empty(),
    }
}

/// The rules of a definition.
pub open spec fn rules_of(g: GrammarView) -> Seq<(Seq<char>, Path)> {
    match g.kind {
        KindView::Defn(_, _, rules) => rules,
        _ => Seq::empty(),
    }
}

/// A definition is stored at `defn`, and a node at the address of each of
/// its rules.
pub open spec fn can_define(s: Store, defn: Path) -> bool {
    &&& s.map.contains_key(defn)
    &&& s.map[defn].kind is Defn
    &&& first_missing(s, rules_of(s.map[defn]), rules_of(s.map[defn]).len() as int) is None
}

/// The store after the definition at `defn` has been applied: as it was
/// where it cannot be.
pub open spec fn defined(s: Store, defn: Path) -> Store {
    if can_define(s, defn) {
        applied(
            s,
            owner_of(s.map[defn]),
            rules_of(s.map[defn]),
            rules_of(s.map[defn]).len() as int,
        )
    } else {
        s
    }
}

/// The document after the definition at `defn` has been applied.
pub open spec fn session_defined(v: SessionView, defn: Path) -> SessionView {
    resync(v, defined(v.store, defn), false, false)
}

proof fn missing_stays(s: Store, rules: Seq<(Seq<char>, Path)>, n: int, m: int)
    requires
        0 <= n <= m,
        first_missing(s, rules, n) is Some,
    ensures
        first_missing(s, rules, m) == first_missing(s, rules, n),
    decreases m - n,
{
    if n < m {
        missing_stays(s, rules, n, m - 1);
    }
}

proof fn none_missing(s: Store, rules: Seq<(Seq<char>, Path)>, n: int, j: int)
    requires
        0 <= j < n,
        first_missing(s, rules, n) is None,
    ensures
        s.map.contains_key(rules[j].1),
    decreases n,
{
    if j < n - 1 {
        none_missing(s, rules, n - 1, j);
    }
}

proof fn applied_keeps(s: Store, owner: Path, rules: Seq<(Seq<char>, Path)>, n: int, k: Path)
    requires
        s.map.contains_key(k),
    ensures
        applied(s, owner, rules, n).map.contains_key(k),
    decreases n,
{
    if n > 0 {
        applied_keeps(s, owner, rules, n - 1, k);
    }
}

impl Session {
    /// Makes a grid of `rows` by `cols` fresh leaves at `coord`, and hands
    /// back the address of its first cell. The node above `coord`, where
    /// one is stored, is given the kind of the new grid as well. A count
    /// of zero is refused, and nothing changes.
    pub fn add_nested_grid(&mut self, coord: &Coordinate, rows: u32, cols: u32) -> (r: Result<
        Coordinate,
        Error,
    >)
        ensures
            final(self)@ == session_nested(old(self)@, coord@, rows, cols),
            store_wf(final(self).store()),
            r is Err <==> rows == 0 || cols == 0,
            r is Err ==> r->Err_0 is InvalidIndex,
            r is Ok ==> r->Ok_0@ == path_child(coord@, (1u32, 1u32)),
            old(self).sound() && crate::session::parent_stored(old(self).store(), coord@)
                && crate::engine_laws::nesting_keeps_cells(old(self).store(), coord@, rows, cols)
                ==> final(self).sound(),
    {
        let ghost s = self.store();
        self.witness();
        coord.witness();
        proof {
            if self.sound() && crate::session::parent_stored(s, coord@)
                && crate::engine_laws::nesting_keeps_cells(s, coord@, rows, cols) {
                crate::engine_laws::nested_keeps_sound(self@, coord@, rows, cols);
            }
        }
        if rows == 0 || cols == 0 {
            self.witness();
            return Err(Error::InvalidIndex);
        }
        coord.witness();
        let grid = Grammar::as_grid(rows, cols);
        let first = match Coordinate::child_of(coord, (1, 1)) {
            Ok(c) => c,
            Err(e) => {
                return Err(e);
            },
        };
        proof {
            grid_cells_are_valid(rows as nat, cols as nat);
            assert(root_path()[0] != meta_path()[0]);
        }
        match &grid.kind {
            Kind::Grid(cells) => {
                self.put_leaves(coord, cells);
            },
            _ => {},
        }
        proof {
            if coord@.len() > 1 {
                leaves_keep_roots(
                    s,
                    coord@,
                    grid_cells(rows as nat, cols as nat),
                    coord@.drop_last(),
                );
            }
        }
        match coord.parent() {
            Some(parent) => {
                let fresh = match self.get(&parent) {
                    Some(above) => Some(
                        Grammar {
                            name: above.name.clone(),
                            style: above.style.clone(),
                            kind: grid.kind.clone(),
                        },
                    ),
                    None => None,
                };
                let _ = self.rewrite(&parent, fresh);
            },
            None => {},
        }
        self.put(coord.clone(), grid);
        Ok(first)
    }

    /// Applies the definition at `defn`: for each of its rules in turn, a
    /// node after the template stored at the rule's address goes, under
    /// the rule's name, to the cell inside the definition's owner that
    /// has the template's pair. The result is the number of rules; it is
    /// 0 where the node at `defn` is no definition. Where no node is
    /// stored at `defn`, or at the address of a rule, the operation is
    /// refused with that address, and nothing changes.
    pub fn apply_definition(&mut self, defn: &Coordinate) -> (r: Result<usize, Error>)
        ensures
            final(self)@ == session_defined(old(self)@, defn@),
            store_wf(final(self).store()),
            !old(self).store().map.contains_key(defn@) ==> r is Err && r->Err_0 is MissingCoordinate
                && r->Err_0->MissingCoordinate_0@ == defn@,
            old(self).store().map.contains_key(defn@) && !(old(self).store().map[defn@].kind is Defn)
                ==> r is Ok && r->Ok_0 == 0,
            old(self).store().map.contains_key(defn@) && old(self).store().map[defn@].kind is Defn
                ==> match first_missing(
                old(self).store(),
                rules_of(old(self).store().map[defn@]),
                rules_of(old(self).store().map[defn@]).len() as int,
            ) {
                Some(p) => r is Err && r->Err_0 is MissingCoordinate
                    && r->Err_0->MissingCoordinate_0@ == p,
                None => r is Ok && r->Ok_0 == rules_of(old(self).store().map[defn@]).len(),
            },
    {
        let ghost s = self.store();
        let (owner, rules) = match self.get(defn) {
            Some(g) => match &g.kind {
                Kind::Defn(_, owner, rules) => (owner.clone(), copy_rules(rules)),
                _ => {
                    return Ok(0);
                },
            },
            None => {
                return Err(Error::MissingCoordinate(defn.clone()));
            },
        };
        let ghost model = rules_view(rules@);
        proof {
            assert(model == rules_of(s.map[defn@]));
            assert(owner@ == owner_of(s.map[defn@]));
        }
        let mut i: usize = 0;
        while i < rules.len()
            invariant
                i <= rules.len(),
                s == self.store(),
                self@ == old(self)@,
                store_wf(s),
                s.map.contains_key(defn@),
                s.map[defn@].kind is Defn,
                model == rules_of(s.map[defn@]),
                model == rules_view(rules@),
                first_missing(s, model, i as int) is None,
            decreases rules.len() - i,
        {
            if !self.contains(&rules[i].1) {
                proof {
                    assert(first_missing(s, model, i + 1) == Some(rules@[i as int].1@));
                    missing_stays(s, model, i + 1, model.len() as int);
                }
                return Err(Error::MissingCoordinate(rules[i].1.clone()));
            }
            i += 1;
        }
        owner.witness();
        let mut j: usize = 0;
        while j < rules.len()
            invariant
                j <= rules.len(),
                owner@.len() >= 1,
                model == rules_view(rules@),
                first_missing(s, model, model.len() as int) is None,
                s == old(self).store(),
                self@ == resync(old(self)@, applied(s, owner@, model, j as int), false, false),
                store_wf(self.store()),
            decreases rules.len() - j,
        {
            let rule = &rules[j].1;
            proof {
                none_missing(s, model, model.len() as int, j as int);
                applied_keeps(s, owner@, model, j as int, rule@);
                assert(model[j as int] == (rules@[j as int].0@, rules@[j as int].1@));
            }
            let fresh = match self.get(rule) {
                Some(template) => Some(
                    Grammar {
                        name: rules[j].0.clone(),
                        style: template.style.clone(),
                        kind: template.kind.clone(),
                    },
                ),
                None => None,
            };
            match Coordinate::child_of(&owner, rule.last()) {
                Ok(at) => {
                    proof {
                        assert(at@.len() >= 2);
                        assert(root_path().len() == 1);
                        assert(meta_path().len() == 1);
                    }
                    let _ = self.rewrite(&at, fresh);
                },
                Err(_) => {},
            }
            j += 1;
        }
        Ok(rules.len())
    }
}


impl Session {
    /// Puts a grid node with the cells `cells` at `at`, and a fresh leaf
    /// at every one of these cells. A list that holds a zero index is
    /// refused, and nothing changes.
    pub fn put_grid(
        &mut self,
        at: &Coordinate,
        name: String,
        style: Style,
        cells: Vec<(u32, u32)>,
    ) -> (r: Result<(), Error>)
        ensures
            all_valid(cells@) ==> r is Ok && final(self)@ == planted(
                old(self)@,
                at@,
                GrammarView { name: name@, style: style@, kind: KindView::Grid(cells@) },
            ),
            !all_valid(cells@) ==> r is Err && r->Err_0 is InvalidIndex && final(self)@ == old(
                self,
            )@,
            store_wf(final(self).store()),
    {
        let mut i: usize = 0;
        self.witness();
        at.witness();
        while i < cells.len()
            invariant
                i <= cells.len(),
                self@ == old(self)@,
                store_wf(self.store()),
                forall|j: int| 0 <= j < i ==> valid_pair(#[trigger] cells@[j]),
            decreases cells.len() - i,
        {
            if cells[i].0 == 0 || cells[i].1 == 0 {
                return Err(Error::InvalidIndex);
            }
            i += 1;
        }
        let list = crate::coordinate::copy_pairs(&cells, cells.len());
        proof {
            assert(cells@.take(cells.len() as int) =~= cells@);
            assert(root_path()[0] != meta_path()[0]);
            leaves_keep_roots(
                self.store().insert(
                    at@,
                    GrammarView { name: name@, style: style@, kind: KindView::Grid(cells@) },
                ),
                at@,
                cells@,
                root_path(),
            );
            leaves_keep_roots(
                self.store().insert(
                    at@,
                    GrammarView { name: name@, style: style@, kind: KindView::Grid(cells@) },
                ),
                at@,
                cells@,
                meta_path(),
            );
        }
        self.put(at.clone(), Grammar { name, style, kind: Kind::Grid(list) });
        self.put_leaves(at, &cells);
        Ok(())
    }
}

} // verus!
