//! The state of the application, and the actions that change it.

use crate::coordinate::{
    meta_path, path_child, path_full_col, path_full_row, root_path, Col, Coordinate, Path, Row,
};
use crate::driver::{driver_split, picked, split_driver_files, texts_of};
use crate::engine::{
    grows, holds_text, new_cells, planted, session_changed, session_grown, session_moved,
    session_nested, session_toggled, Axis,
};
use crate::engine_laws::{fresh_is_sound, leaves_at, planted_keeps_sound, put_keeps_sound};
use crate::error::{Error, ErrorView};
use crate::grammar::{
    grid_cells, grid_pairs, DEFAULT_COL_WIDTH, DEFAULT_ROW_HEIGHT, Grammar, GrammarView, Kind,
    KindView, Lookup, Style, StyleView,
};
use crate::model_laws::{
    defaults_size_the_store, fits, fitting_action_keeps_well_formed, sized, well_formed,
};
use crate::session::{
    parent_stored, paths_of, resync, sound_session, store_wf, Query, Session, SessionView, Store,
};
use crate::table::{Key, Table, TableModel};
use vstd::prelude::*;

verus! {

/// The model of a table of heights or widths: the size of each band.
pub type Dims = TableModel<(Path, u32), u64>;

/// An entry of the side navigation.
#[derive(Debug)]
pub struct SideMenu {
    pub name: String,
    pub icon_path: String,
}

/// The model of an entry of the side navigation.
pub struct SideMenuView {
    pub name: Seq<char>,
    pub icon_path: Seq<char>,
}

impl View for SideMenu {
    type V = SideMenuView;

    open spec fn view(&self) -> SideMenuView {
        SideMenuView { name: self.name@, icon_path: self.icon_path@ }
    }
}

/// A file that was read: its name and its bytes.
#[derive(Debug)]
pub struct FileData {
    pub name: String,
    pub content: Vec<u8>,
}

/// The model of a file that was read.
pub struct FileDataView {
    pub name: Seq<char>,
    pub content: Seq<u8>,
}

impl View for FileData {
    type V = FileDataView;

    open spec fn view(&self) -> FileDataView {
        FileDataView { name: self.name@, content: self.content@ }
    }
}

/// A read that was asked for and has not come back yet.
#[derive(Debug)]
pub enum Pending {
    /// The file of a document.
    Session(String),
    /// The main file of a driver.
    DriverMain(String),
    /// Another file of a driver.
    DriverMisc(String),
}

/// The model of a pending read.
pub enum PendingView {
    Session(Seq<char>),
    DriverMain(Seq<char>),
    DriverMisc(Seq<char>),
}

impl View for Pending {
    type V = PendingView;

    open spec fn view(&self) -> PendingView {
        match self {
            Pending::Session(name) => PendingView::Session(name@),
            Pending::DriverMain(name) => PendingView::DriverMain(name@),
            Pending::DriverMisc(name) => PendingView::DriverMisc(name@),
        }
    }
}

/// The whole state of the application.
pub struct Model {
    pub view_root: Coordinate,
    pub first_select_cell: Option<Coordinate>,
    pub last_select_cell: Option<Coordinate>,
    pub active_cell: Option<Coordinate>,
    pub suggestions: Vec<Coordinate>,
    pub col_widths: Table<Col, u64>,
    pub row_heights: Table<Row, u64>,
    pub select_grammar: Vec<Coordinate>,
    pub sessions: Vec<Session>,
    pub current_session_index: usize,
    pub side_menus: Vec<SideMenu>,
    pub open_side_menu: Option<i32>,
    pub tasks: Vec<Pending>,
}

/// The model of the state of the application.
pub struct ModelView {
    pub view_root: Path,
    pub first_select_cell: Option<Path>,
    pub last_select_cell: Option<Path>,
    pub active_cell: Option<Path>,
    pub suggestions: Seq<Path>,
    pub col_widths: Dims,
    pub row_heights: Dims,
    pub select_grammar: Seq<Path>,
    pub sessions: Seq<SessionView>,
    pub current_session_index: usize,
    pub side_menus: Seq<SideMenuView>,
    pub open_side_menu: Option<i32>,
    pub tasks: Seq<PendingView>,
}

/// The model of an address that may be absent.
pub open spec fn path_of(c: Option<Coordinate>) -> Option<Path> {
    match c {
        Some(c) => Some(c@),
        None => None,
    }
}

/// The models of a list of documents.
pub open spec fn sessions_of(v: Seq<Session>) -> Seq<SessionView> {
    Seq::new(v.len(), |i: int| v[i]@)
}

/// The models of the entries of the side navigation.
pub open spec fn menus_of(v: Seq<SideMenu>) -> Seq<SideMenuView> {
    Seq::new(v.len(), |i: int| v[i]@)
}

/// The models of the pending reads.
pub open spec fn tasks_of(v: Seq<Pending>) -> Seq<PendingView> {
    Seq::new(v.len(), |i: int| v[i]@)
}

impl View for Model {
    type V = ModelView;

    open spec fn view(&self) -> ModelView {
        ModelView {
            view_root: self.view_root@,
            first_select_cell: path_of(self.first_select_cell),
            last_select_cell: path_of(self.last_select_cell),
            active_cell: path_of(self.active_cell),
            suggestions: paths_of(self.suggestions@),
            col_widths: self.col_widths@,
            row_heights: self.row_heights@,
            select_grammar: paths_of(self.select_grammar@),
            sessions: sessions_of(self.sessions@),
            current_session_index: self.current_session_index,
            side_menus: menus_of(self.side_menus@),
            open_side_menu: self.open_side_menu,
            tasks: tasks_of(self.tasks@),
        }
    }
}

impl ModelView {
    /// The state has a current document.
    pub open spec fn has_session(self) -> bool {
        self.current_session_index < self.sessions.len()
    }

    /// The current document.
    pub open spec fn session(self) -> SessionView {
        self.sessions[self.current_session_index as int]
    }

    /// The state with `s` as its current document.
    pub open spec fn with_session(self, s: SessionView) -> ModelView {
        ModelView { sessions: self.sessions.update(self.current_session_index as int, s), ..self }
    }
}

impl Model {
    /// The current document.
    pub fn get_session(&self) -> (s: &Session)
        requires
            self@.has_session(),
        ensures
            s@ == self@.session(),
    {
        &self.sessions[self.current_session_index]
    }

    /// The current document, to be changed in place.
    pub fn get_session_mut(&mut self) -> (s: &mut Session)
        requires
            old(self)@.has_session(),
        ensures
            s@ == old(self)@.session(),
            final(self)@.sessions == old(self)@.sessions.update(
                old(self).current_session_index as int,
                final(s)@,
            ),
            final(self)@ == (ModelView { sessions: final(self)@.sessions, ..old(self)@ }),
    {
        &mut self.sessions[self.current_session_index]
    }

    /// A copy of the current document.
    pub fn to_session(&self) -> (s: Session)
        requires
            self@.has_session(),
        ensures
            s@ == self@.session(),
    {
        self.get_session().clone()
    }

    /// Sets the title of the current document.
    pub fn set_session_title(&mut self, title: String)
        requires
            old(self)@.has_session(),
        ensures
            final(self)@ == old(self)@.with_session(
                SessionView { title: title@, ..old(self)@.session() },
            ),
    {
        let s = self.get_session_mut();
        s.title = title;
    }
}


/// The index of a pair along the axis.
pub open spec fn pair_index(rc: (u32, u32), axis: Axis) -> u32 {
    match axis {
        Axis::Rows => rc.0,
        Axis::Cols => rc.1,
    }
}

/// The band of a cell across the axis.
pub open spec fn band_of(k: Path, axis: Axis) -> (Path, u32) {
    match axis {
        Axis::Rows => path_full_row(k),
        Axis::Cols => path_full_col(k),
    }
}

/// The table with the size `v` for the band where it has none.
pub open spec fn with_default(t: Dims, band: (Path, u32), v: u64) -> Dims {
    if t.map.contains_key(band) {
        t
    } else {
        t.insert(band, v)
    }
}

/// The table with the size `v` for each of the bands that has none, one
/// after the other.
pub open spec fn defaulted(t: Dims, bands: Seq<(Path, u32)>, v: u64) -> Dims
    decreases bands.len(),
{
    if bands.len() == 0 {
        t
    } else {
        with_default(defaulted(t, bands.drop_last(), v), bands.last(), v)
    }
}

/// The bands across the axis of the cells `cells` inside `parent`.
pub open spec fn cell_bands(parent: Path, cells: Seq<(u32, u32)>, axis: Axis) -> Seq<(Path, u32)> {
    Seq::new(cells.len(), |i: int| (parent, pair_index(cells[i], axis)))
}

/// The bands across the axis of the addresses below the top level among
/// `keys`.
pub open spec fn key_bands(keys: Seq<Path>, axis: Axis) -> Seq<(Path, u32)>
    decreases keys.len(),
{
    if keys.len() == 0 {
        Seq::empty()
    } else {
        let rest = key_bands(keys.drop_last(), axis);
        if keys.last().len() > 1 {
            rest.push(band_of(keys.last(), axis))
        } else {
            rest
        }
    }
}

/// The size that each of `count` new bands gets inside a cell: an even
/// share of the size of the cell's own band where that is larger than the
/// baseline, the baseline otherwise.
pub open spec fn share(t: Dims, band: (Path, u32), count: u32, baseline: u64) -> u64 {
    if t.map.contains_key(band) && t.map[band] > baseline && count > 0 {
        t.map[band] / (count as u64)
    } else {
        baseline
    }
}

impl ModelView {
    /// The state with the sizes `h` and `w` for the bands of `coord`.
    pub open spec fn resized(self, coord: Path, h: u64, w: u64) -> ModelView {
        ModelView {
            row_heights: self.row_heights.insert(path_full_row(coord), h),
            col_widths: self.col_widths.insert(path_full_col(coord), w),
            ..self
        }
    }

    /// The state with baseline sizes for the bands of the cells `cells`
    /// inside `parent` that have none.
    pub open spec fn with_bands(
        self,
        parent: Path,
        cells: Seq<(u32, u32)>,
        h: u64,
        w: u64,
    ) -> ModelView {
        ModelView {
            row_heights: defaulted(self.row_heights, cell_bands(parent, cells, Axis::Rows), h),
            col_widths: defaulted(self.col_widths, cell_bands(parent, cells, Axis::Cols), w),
            ..self
        }
    }

    /// The state after the grid of the active cell has grown along the
    /// axis: as it was where no cell is active or the grid cannot grow.
    pub open spec fn grown(self, axis: Axis) -> ModelView {
        match self.active_cell {
            Some(active) => {
                let s = self.session();
                let cells = if grows(s.store, active, axis) {
                    new_cells(s.store, active, axis)
                } else {
                    Seq::empty()
                };
                self.with_session(session_grown(s, active, axis)).with_bands(
                    active.drop_last(),
                    cells,
                    DEFAULT_ROW_HEIGHT,
                    DEFAULT_COL_WIDTH,
                )
            },
            None => self,
        }
    }

    /// The state after a grid of `rows` by `cols` was made at `coord`:
    /// the first cell of the grid is active, its bands have their share
    /// of the size of `coord` where they had none, and `coord` has the
    /// size of a grid of baseline cells. As it was where a count is zero.
    pub open spec fn nested(self, coord: Path, rows: u32, cols: u32) -> ModelView {
        if rows == 0 || cols == 0 {
            self
        } else {
            let h = share(self.row_heights, path_full_row(coord), rows, DEFAULT_ROW_HEIGHT);
            let w = share(self.col_widths, path_full_col(coord), cols, DEFAULT_COL_WIDTH);
            let inner = ModelView {
                active_cell: Some(path_child(coord, (1u32, 1u32))),
                ..self.with_session(session_nested(self.session(), coord, rows, cols))
            };
            inner.with_bands(coord, grid_cells(rows as nat, cols as nat), h, w).resized(
                coord,
                (rows * DEFAULT_ROW_HEIGHT) as u64,
                (cols * DEFAULT_COL_WIDTH) as u64,
            )
        }
    }

    /// The state after the document `payload` was loaded: the current
    /// document keeps its title and has the roots and the store of the
    /// payload, and every band of a stored cell that had no size has the
    /// baseline.
    pub open spec fn loaded(self, payload: SessionView) -> ModelView {
        ModelView {
            row_heights: defaulted(
                self.row_heights,
                key_bands(payload.store.keys, Axis::Rows),
                DEFAULT_ROW_HEIGHT,
            ),
            col_widths: defaulted(
                self.col_widths,
                key_bands(payload.store.keys, Axis::Cols),
                DEFAULT_COL_WIDTH,
            ),
            ..self.with_session(SessionView { title: self.session().title, ..payload })
        }
    }
}

/// The models of a list of pairs of bands: the rows.
pub open spec fn rows_of(v: Seq<(Row, Col)>) -> Seq<(Path, u32)> {
    Seq::new(v.len(), |i: int| v[i].0@)
}

/// The models of a list of pairs of bands: the columns.
pub open spec fn cols_of(v: Seq<(Row, Col)>) -> Seq<(Path, u32)> {
    Seq::new(v.len(), |i: int| v[i].1@)
}

/// Giving a band the size it has changes nothing.
pub proof fn insert_same(t: Dims, band: (Path, u32))
    requires
        t.map.contains_key(band),
    ensures
        t.insert(band, t.map[band]) == t,
{
    assert(t.map.insert(band, t.map[band]) =~= t.map);
}

impl Model {
    /// The stored cells of the current document directly inside the grid
    /// at `parent`.
    pub fn query_parent(&self, parent: &Coordinate) -> (r: Vec<Coordinate>)
        requires
            self@.has_session(),
        ensures
            paths_of(r@) == crate::session::select(
                self@.session().store.keys,
                Query::Parent(parent@),
            ),
    {
        self.get_session().children_of(parent)
    }

    /// The stored cells of the current document in the band `col`.
    pub fn query_col(&self, col: &Col) -> (r: Vec<Coordinate>)
        requires
            self@.has_session(),
        ensures
            paths_of(r@) == crate::session::select(self@.session().store.keys, Query::Col(col@)),
    {
        self.get_session().column_members(col)
    }

    /// The stored cells of the current document in the band `row`.
    pub fn query_row(&self, row: &Row) -> (r: Vec<Coordinate>)
        requires
            self@.has_session(),
        ensures
            paths_of(r@) == crate::session::select(self@.session().store.keys, Query::Row(row@)),
    {
        self.get_session().row_members(row)
    }

    /// Sets the height of the row of `coord` and the width of its column,
    /// in place of the sizes they had, if any.
    pub fn resize(&mut self, coord: &Coordinate, height: u64, width: u64)
        ensures
            final(self)@ == old(self)@.resized(coord@, height, width),
    {
        self.row_heights.insert(coord.full_row(), height);
        self.col_widths.insert(coord.full_col(), width);
    }

    fn default_bands(&mut self, bands: Vec<(Row, Col)>, height: u64, width: u64)
        ensures
            final(self)@ == (ModelView {
                row_heights: defaulted(old(self)@.row_heights, rows_of(bands@), height),
                col_widths: defaulted(old(self)@.col_widths, cols_of(bands@), width),
                ..old(self)@
            }),
    {
        let ghost rows = rows_of(bands@);
        let ghost cols = cols_of(bands@);
        let mut i: usize = 0;
        proof {
            assert(rows.take(0) =~= Seq::<(Path, u32)>::empty());
            assert(cols.take(0) =~= Seq::<(Path, u32)>::empty());
        }
        while i < bands.len()
            invariant
                i <= bands.len(),
                rows == rows_of(bands@),
                cols == cols_of(bands@),
                self@ == (ModelView {
                    row_heights: defaulted(old(self)@.row_heights, rows.take(i as int), height),
                    col_widths: defaulted(old(self)@.col_widths, cols.take(i as int), width),
                    ..old(self)@
                }),
            decreases bands.len() - i,
        {
            proof {
                assert(rows.take(i + 1).drop_last() =~= rows.take(i as int));
                assert(cols.take(i + 1).drop_last() =~= cols.take(i as int));
                assert(rows.take(i + 1).last() == bands@[i as int].0@);
                assert(cols.take(i + 1).last() == bands@[i as int].1@);
            }
            if !self.row_heights.contains_key(&bands[i].0) {
                self.row_heights.insert(bands[i].0.clone(), height);
            }
            if !self.col_widths.contains_key(&bands[i].1) {
                self.col_widths.insert(bands[i].1.clone(), width);
            }
            i += 1;
        }
        proof {
            assert(rows.take(bands.len() as int) =~= rows);
            assert(cols.take(bands.len() as int) =~= cols);
        }
    }

    fn bands_inside(parent: &Coordinate, cells: &Vec<(u32, u32)>) -> (r: Vec<(Row, Col)>)
        ensures
            rows_of(r@) == cell_bands(parent@, cells@, Axis::Rows),
            cols_of(r@) == cell_bands(parent@, cells@, Axis::Cols),
    {
        let mut out: Vec<(Row, Col)> = Vec::new();
        let mut i: usize = 0;
        while i < cells.len()
            invariant
                i <= cells.len(),
                out@.len() == i,
                forall|j: int|
                    0 <= j < i ==> (#[trigger] out@[j]).0@ == (parent@, cells@[j].0) && out@[j].1@
                        == (parent@, cells@[j].1),
            decreases cells.len() - i,
        {
            out.push((Row::of(parent, cells[i].0), Col::of(parent, cells[i].1)));
            i += 1;
        }
        proof {
            assert(rows_of(out@) =~= cell_bands(parent@, cells@, Axis::Rows));
            assert(cols_of(out@) =~= cell_bands(parent@, cells@, Axis::Cols));
        }
        out
    }

    fn bands_of_keys(session: &Session) -> (r: Vec<(Row, Col)>)
        ensures
            rows_of(r@) == key_bands(session@.store.keys, Axis::Rows),
            cols_of(r@) == key_bands(session@.store.keys, Axis::Cols),
    {
        let n = session.grammars.len();
        let ghost keys = session@.store.keys;
        let mut out: Vec<(Row, Col)> = Vec::new();
        let mut i: usize = 0;
        proof {
            assert(keys.take(0) =~= Seq::<Path>::empty());
            assert(rows_of(out@) =~= Seq::<(Path, u32)>::empty());
            assert(cols_of(out@) =~= Seq::<(Path, u32)>::empty());
        }
        while i < n
            invariant
                i <= n == keys.len(),
                keys == session@.store.keys,
                rows_of(out@) == key_bands(keys.take(i as int), Axis::Rows),
                cols_of(out@) == key_bands(keys.take(i as int), Axis::Cols),
            decreases n - i,
        {
            let k = session.grammars.key_at(i);
            let ghost rows = rows_of(out@);
            let ghost cols = cols_of(out@);
            proof {
                assert(keys.take(i + 1).drop_last() =~= keys.take(i as int));
                assert(keys.take(i + 1).last() == keys[i as int]);
            }
            if k.depth() > 1 {
                out.push((k.full_row(), k.full_col()));
                proof {
                    assert(rows_of(out@) =~= rows.push(path_full_row(k@)));
                    assert(cols_of(out@) =~= cols.push(path_full_col(k@)));
                }
            }
            i += 1;
        }
        proof {
            assert(keys.take(n as int) =~= keys);
        }
        out
    }

    fn grow(&mut self, axis: Axis) -> (r: Outcome)
        requires
            old(self)@.has_session(),
        ensures
            final(self)@ == old(self)@.grown(axis),
            r@ == grow_outcome(old(self)@, axis),
    {
        let active = match &self.active_cell {
            Some(c) => c.clone(),
            None => {
                return Outcome::Unchanged;
            },
        };
        active.witness();
        let grown = match axis {
            Axis::Rows => self.get_session_mut().insert_row(&active),
            Axis::Cols => self.get_session_mut().insert_col(&active),
        };
        let (cells, outcome) = match grown {
            Ok(Some(cells)) => (cells, Outcome::Applied),
            Ok(None) => (Vec::new(), Outcome::Unchanged),
            Err(e) => (Vec::new(), Outcome::Failed(e)),
        };
        let bands = match active.parent() {
            Some(parent) => Model::bands_inside(&parent, &cells),
            None => {
                proof {
                    assert(cell_bands(active@.drop_last(), cells@, Axis::Rows) =~= Seq::empty());
                    assert(cell_bands(active@.drop_last(), cells@, Axis::Cols) =~= Seq::empty());
                }
                Vec::new()
            },
        };
        proof {
            if active@.len() == 1 {
                assert(rows_of(bands@) =~= Seq::empty());
                assert(cols_of(bands@) =~= Seq::empty());
            }
        }
        self.default_bands(bands, DEFAULT_ROW_HEIGHT, DEFAULT_COL_WIDTH);
        outcome
    }
}

/// How an action ended.
#[derive(Debug)]
pub enum Outcome {
    /// The document or the sizes were changed.
    Applied,
    /// There was nothing to change.
    Unchanged,
    /// The action was refused.
    Failed(Error),
}

/// The model of how an action ended.
pub enum OutcomeView {
    Applied,
    Unchanged,
    Failed(ErrorView),
}

impl View for Outcome {
    type V = OutcomeView;

    open spec fn view(&self) -> OutcomeView {
        match self {
            Outcome::Applied => OutcomeView::Applied,
            Outcome::Unchanged => OutcomeView::Unchanged,
            Outcome::Failed(e) => OutcomeView::Failed(e@),
        }
    }
}

/// How growing the grid of the active cell ends.
pub open spec fn grow_outcome(m: ModelView, axis: Axis) -> OutcomeView {
    match m.active_cell {
        Some(active) => if grows(m.session().store, active, axis) {
            OutcomeView::Applied
        } else if crate::engine::can_grow(m.session().store, active) {
            OutcomeView::Failed(ErrorView::InvalidIndex)
        } else {
            OutcomeView::Unchanged
        },
        None => OutcomeView::Unchanged,
    }
}


/// What the application is asked to do after an action: the work that
/// only it can do.
#[derive(Debug)]
pub enum Request {
    /// Nothing.
    Nothing,
    /// Write the message to the console.
    Log(String),
    /// Read the file of a document, and hand it back as a document to
    /// load.
    ReadSession(String),
    /// Read the files of a driver: the main file, and the others.
    ReadDriverFiles { main: usize, misc: Vec<usize> },
    /// Hand a file of a driver to the host.
    UploadDriverMiscFile(FileData),
    /// Attach the main file of a driver to the page.
    LoadDriverMainFile(FileData),
}

/// The model of what is asked of the application.
pub enum RequestView {
    Nothing,
    Log(Seq<char>),
    ReadSession(Seq<char>),
    ReadDriverFiles { main: usize, misc: Seq<usize> },
    UploadDriverMiscFile(FileDataView),
    LoadDriverMainFile(FileDataView),
}

impl View for Request {
    type V = RequestView;

    open spec fn view(&self) -> RequestView {
        match self {
            Request::Nothing => RequestView::Nothing,
            Request::Log(message) => RequestView::Log(message@),
            Request::ReadSession(name) => RequestView::ReadSession(name@),
            Request::ReadDriverFiles { main, misc } => RequestView::ReadDriverFiles {
                main: *main,
                misc: misc@,
            },
            Request::UploadDriverMiscFile(data) => RequestView::UploadDriverMiscFile(data@),
            Request::LoadDriverMainFile(data) => RequestView::LoadDriverMainFile(data@),
        }
    }
}

/// The answer to an action: whether what is shown has to be drawn again,
/// how the action ended, and what is asked of the application.
#[derive(Debug)]
pub struct Step {
    pub render: bool,
    pub outcome: Outcome,
    pub request: Request,
}

/// The model of the answer to an action.
pub struct StepView {
    pub render: bool,
    pub outcome: OutcomeView,
    pub request: RequestView,
}

impl View for Step {
    type V = StepView;

    open spec fn view(&self) -> StepView {
        StepView { render: self.render, outcome: self.outcome@, request: self.request@ }
    }
}

/// The actions that the application sends to the state.
pub enum Action {
    /// Do nothing.
    Noop,
    /// Set the text of an input, or the query of a lookup.
    ChangeInput(Coordinate, String),
    SetActiveCell(Coordinate),
    /// Move the node of the first cell to the second, and keep the sizes
    /// of the second.
    DoCompletion(Coordinate, Coordinate),
    SetActiveMenu(Option<i32>),
    /// Start to read the file of that name as a document.
    ReadSession(String),
    /// Load the document that was read.
    LoadSession(Session),
    SaveSession,
    SetSessionTitle(String),
    /// Start to read the files of a driver, given by their paths.
    ReadDriverFiles(Vec<String>),
    LoadDriverMainFile(FileData),
    UploadDriverMiscFile(FileData),
    /// Make a grid of so many rows and columns at the cell.
    AddNestedGrid(Coordinate, (u32, u32)),
    InsertRow,
    InsertCol,
    Alert(String),
    SetSelectedCells(Coordinate),
    /// Resolve the lookup at the cell.
    Lookup(Coordinate, Lookup),
    ToggleLookup(Coordinate),
    DefnUpdateName(Coordinate, String),
    DefnUpdateRule(Coordinate, Row),
    DefnAddRule(Coordinate),
}

/// An answer that asks nothing of the application.
pub open spec fn quiet(render: bool, outcome: OutcomeView) -> StepView {
    StepView { render, outcome, request: RequestView::Nothing }
}

/// Applied where something was done, unchanged where nothing was.
pub open spec fn done(did: bool) -> OutcomeView {
    if did {
        OutcomeView::Applied
    } else {
        OutcomeView::Unchanged
    }
}

/// The pending reads of the other files of a driver.
pub open spec fn misc_reads(paths: Seq<Seq<char>>, misc: Seq<usize>) -> Seq<PendingView> {
    Seq::new(misc.len(), |i: int| PendingView::DriverMisc(paths[misc[i] as int]))
}

impl ModelView {
    /// Both bands of `coord` have a size.
    pub open spec fn has_sizes(self, coord: Path) -> bool {
        self.row_heights.map.contains_key(path_full_row(coord)) && self.col_widths.map.contains_key(
            path_full_col(coord),
        )
    }

    /// The state with the reads of the files of a driver pending: those of
    /// the other files, then that of the main file. As it was where the
    /// paths do not hold exactly one main file.
    pub open spec fn with_driver_reads(self, paths: Seq<Seq<char>>) -> ModelView {
        match driver_split(paths) {
            Some((main, misc)) => ModelView {
                tasks: self.tasks + misc_reads(paths, misc) + seq![
                    PendingView::DriverMain(paths[main as int]),
                ],
                ..self
            },
            None => self,
        }
    }

    /// The state after an action.
    pub open spec fn after(self, action: Action) -> ModelView {
        match action {
            Action::ChangeInput(c, text) => self.with_session(
                session_changed(self.session(), c@, text@),
            ),
            Action::SetActiveCell(c) => ModelView {
                first_select_cell: Some(c@),
                last_select_cell: None,
                active_cell: Some(c@),
                ..self
            },
            Action::SetSelectedCells(c) => ModelView { last_select_cell: Some(c@), ..self },
            Action::DoCompletion(source, dest) => self.with_session(
                session_moved(self.session(), source@, dest@),
            ),
            Action::SetActiveMenu(menu) => ModelView { open_side_menu: menu, ..self },
            Action::ReadSession(name) => ModelView {
                tasks: self.tasks.push(PendingView::Session(name@)),
                ..self
            },
            Action::LoadSession(payload) => if payload.sound() {
                self.loaded(payload@)
            } else {
                self
            },
            Action::SetSessionTitle(title) => self.with_session(
                SessionView { title: title@, ..self.session() },
            ),
            Action::ReadDriverFiles(paths) => self.with_driver_reads(texts_of(paths@)),
            Action::AddNestedGrid(c, size) => self.nested(c@, size.0, size.1),
            Action::InsertRow => self.grown(Axis::Rows),
            Action::InsertCol => self.grown(Axis::Cols),
            Action::Lookup(source, target) => match target {
                Lookup::Cell(dest) => self.with_session(
                    session_moved(self.session(), source@, dest@),
                ),
                _ => self,
            },
            Action::ToggleLookup(c) => self.with_session(session_toggled(self.session(), c@)),
            _ => self,
        }
    }

    /// The answer to an action.
    pub open spec fn reply(self, action: Action) -> StepView {
        match action {
            Action::Alert(message) => StepView {
                render: false,
                outcome: OutcomeView::Unchanged,
                request: RequestView::Log(message@),
            },
            Action::ChangeInput(c, _) => quiet(
                holds_text(self.session().store, c@),
                done(holds_text(self.session().store, c@)),
            ),
            Action::SetActiveCell(_) => quiet(true, OutcomeView::Applied),
            Action::SetSelectedCells(_) => quiet(true, OutcomeView::Applied),
            Action::DoCompletion(source, dest) => quiet(
                true,
                if self.has_sizes(dest@) {
                    done(self.session().store.map.contains_key(source@))
                } else {
                    OutcomeView::Failed(ErrorView::MissingCoordinate(dest@))
                },
            ),
            Action::SetActiveMenu(_) => quiet(true, OutcomeView::Applied),
            Action::ReadSession(name) => StepView {
                render: false,
                outcome: OutcomeView::Applied,
                request: RequestView::ReadSession(name@),
            },
            Action::LoadSession(payload) => if payload.sound() {
                quiet(true, OutcomeView::Applied)
            } else {
                quiet(false, OutcomeView::Failed(ErrorView::InvariantViolation))
            },
            Action::SetSessionTitle(_) => quiet(true, OutcomeView::Applied),
            Action::ReadDriverFiles(paths) => match driver_split(texts_of(paths@)) {
                Some((main, misc)) => StepView {
                    render: false,
                    outcome: OutcomeView::Applied,
                    request: RequestView::ReadDriverFiles { main, misc },
                },
                None => quiet(false, OutcomeView::Failed(ErrorView::MalformedDriver)),
            },
            Action::UploadDriverMiscFile(data) => StepView {
                render: false,
                outcome: OutcomeView::Unchanged,
                request: RequestView::UploadDriverMiscFile(data@),
            },
            Action::LoadDriverMainFile(data) => StepView {
                render: true,
                outcome: OutcomeView::Unchanged,
                request: RequestView::LoadDriverMainFile(data@),
            },
            Action::AddNestedGrid(_, size) => if size.0 == 0 || size.1 == 0 {
                quiet(false, OutcomeView::Failed(ErrorView::InvalidIndex))
            } else {
                quiet(true, OutcomeView::Applied)
            },
            Action::InsertRow => quiet(
                !(grow_outcome(self, Axis::Rows) is Failed),
                grow_outcome(self, Axis::Rows),
            ),
            Action::InsertCol => quiet(
                !(grow_outcome(self, Axis::Cols) is Failed),
                grow_outcome(self, Axis::Cols),
            ),
            Action::Lookup(source, target) => match target {
                Lookup::Cell(_) => quiet(
                    self.session().store.map.contains_key(source@),
                    done(self.session().store.map.contains_key(source@)),
                ),
                _ => quiet(false, OutcomeView::Unchanged),
            },
            Action::ToggleLookup(c) => quiet(true, done(holds_text(self.session().store, c@))),
            _ => quiet(false, OutcomeView::Unchanged),
        }
    }
}

proof fn picked_in_range(paths: Seq<Seq<char>>, n: int, main: bool)
    requires
        0 <= n <= paths.len(),
        paths.len() <= usize::MAX,
    ensures
        forall|i: int| 0 <= i < picked(paths, n, main).len() ==> (#[trigger] picked(paths, n, main)[i]) < n,
    decreases n,
{
    if n > 0 {
        picked_in_range(paths, n - 1, main);
        let rest = picked(paths, n - 1, main);
        let all = picked(paths, n, main);
        assert forall|i: int| 0 <= i < all.len() implies (#[trigger] all[i]) < n by {
            if i < rest.len() {
                assert(all[i] == rest[i]);
            } else {
                assert(all[i] == (n - 1) as usize);
            }
        }
    }
}

fn quiet_step(render: bool, outcome: Outcome) -> (r: Step)
    ensures
        r@ == quiet(render, outcome@),
{
    Step { render, outcome, request: Request::Nothing }
}

fn done_if(did: bool) -> (r: Outcome)
    ensures
        r@ == done(did),
{
    if did {
        Outcome::Applied
    } else {
        Outcome::Unchanged
    }
}

impl Model {
    fn complete(&mut self, source: Coordinate, dest: Coordinate) -> (r: Outcome)
        requires
            old(self)@.has_session(),
        ensures
            final(self)@ == old(self)@.with_session(
                session_moved(old(self)@.session(), source@, dest@),
            ),
            r@ == if old(self)@.has_sizes(dest@) {
                done(old(self)@.session().store.map.contains_key(source@))
            } else {
                OutcomeView::Failed(ErrorView::MissingCoordinate(dest@))
            },
    {
        let did = self.get_session_mut().move_grammar(&source, dest.clone());
        let height = match self.row_heights.get(&dest.full_row()) {
            Some(h) => Some(*h),
            None => None,
        };
        let width = match self.col_widths.get(&dest.full_col()) {
            Some(w) => Some(*w),
            None => None,
        };
        match (height, width) {
            (Some(h), Some(w)) => {
                proof {
                    insert_same(self.row_heights@, path_full_row(dest@));
                    insert_same(self.col_widths@, path_full_col(dest@));
                }
                self.resize(&dest, h, w);
                done_if(did)
            },
            _ => Outcome::Failed(Error::MissingCoordinate(dest)),
        }
    }

    fn share_of(current: Option<&u64>, count: u32, baseline: u64) -> (r: u64)
        requires
            count > 0,
        ensures
            r == if current is Some && *current->0 > baseline {
                *current->0 / (count as u64)
            } else {
                baseline
            },
    {
        match current {
            Some(size) => if *size > baseline {
                *size / (count as u64)
            } else {
                baseline
            },
            None => baseline,
        }
    }

    fn nest(&mut self, coord: Coordinate, rows: u32, cols: u32) -> (r: Outcome)
        requires
            old(self)@.has_session(),
        ensures
            final(self)@ == old(self)@.nested(coord@, rows, cols),
            r@ == if rows == 0 || cols == 0 {
                OutcomeView::Failed(ErrorView::InvalidIndex)
            } else {
                OutcomeView::Applied
            },
    {
        if rows == 0 || cols == 0 {
            return Outcome::Failed(Error::InvalidIndex);
        }
        let height = Model::share_of(
            self.row_heights.get(&coord.full_row()),
            rows,
            DEFAULT_ROW_HEIGHT,
        );
        let width = Model::share_of(self.col_widths.get(&coord.full_col()), cols, DEFAULT_COL_WIDTH);
        match self.get_session_mut().add_nested_grid(&coord, rows, cols) {
            Ok(first) => {
                self.active_cell = Some(first);
            },
            Err(_) => {},
        }
        let cells = grid_pairs(rows, cols);
        let bands = Model::bands_inside(&coord, &cells);
        self.default_bands(bands, height, width);
        self.resize(&coord, (rows as u64) * DEFAULT_ROW_HEIGHT, (cols as u64) * DEFAULT_COL_WIDTH);
        Outcome::Applied
    }

    /// Puts the roots and the store of `session` in place of those of the
    /// current document, and gives every band of a stored cell that had
    /// no size the baseline. A document that does not satisfy the
    /// invariants of a store is refused, and nothing changes.
    pub fn load_session(&mut self, session: Session) -> (r: Outcome)
        requires
            old(self)@.has_session(),
        ensures
            final(self)@ == if session.sound() {
                old(self)@.loaded(session@)
            } else {
                old(self)@
            },
            r@ == if session.sound() {
                OutcomeView::Applied
            } else {
                OutcomeView::Failed(ErrorView::InvariantViolation)
            },
    {
        if !session.check() {
            return Outcome::Failed(Error::InvariantViolation);
        }
        let bands = Model::bands_of_keys(&session);
        let current = self.get_session_mut();
        current.root = session.root;
        current.meta = session.meta;
        current.grammars = session.grammars;
        self.default_bands(bands, DEFAULT_ROW_HEIGHT, DEFAULT_COL_WIDTH);
        Outcome::Applied
    }

    fn read_driver_files(&mut self, paths: Vec<String>) -> (r: Step)
        ensures
            final(self)@ == old(self)@.with_driver_reads(texts_of(paths@)),
            r@ == old(self)@.reply(Action::ReadDriverFiles(paths)),
    {
        let ghost model = texts_of(paths@);
        let (main, misc) = match split_driver_files(&paths) {
            Ok(found) => found,
            Err(e) => {
                return quiet_step(false, Outcome::Failed(e));
            },
        };
        proof {
            assert(model.len() == paths.len());
            picked_in_range(model, model.len() as int, true);
            picked_in_range(model, model.len() as int, false);
        }
        let ghost before = tasks_of(self.tasks@);
        let mut i: usize = 0;
        while i < misc.len()
            invariant
                i <= misc.len(),
                model == texts_of(paths@),
                forall|j: int| 0 <= j < misc@.len() ==> (#[trigger] misc@[j]) < paths@.len(),
                tasks_of(self.tasks@) == before + misc_reads(model, misc@.take(i as int)),
                self@ == (ModelView { tasks: tasks_of(self.tasks@), ..old(self)@ }),
            decreases misc.len() - i,
        {
            let at = misc[i];
            let ghost so_far = tasks_of(self.tasks@);
            self.tasks.push(Pending::DriverMisc(paths[at].clone()));
            proof {
                assert(model[at as int] == paths@[at as int]@);
                assert(tasks_of(self.tasks@) =~= so_far.push(
                    PendingView::DriverMisc(model[at as int]),
                ));
                assert(before + misc_reads(model, misc@.take(i + 1)) =~= (before + misc_reads(
                    model,
                    misc@.take(i as int),
                )).push(PendingView::DriverMisc(model[at as int])));
            }
            i += 1;
        }
        let ghost so_far = tasks_of(self.tasks@);
        self.tasks.push(Pending::DriverMain(paths[main].clone()));
        proof {
            assert(misc@.take(misc.len() as int) =~= misc@);
            assert(model[main as int] == paths@[main as int]@);
            assert(tasks_of(self.tasks@) =~= before + misc_reads(model, misc@) + seq![
                PendingView::DriverMain(model[main as int]),
            ]);
        }
        Step {
            render: false,
            outcome: Outcome::Applied,
            request: Request::ReadDriverFiles { main, misc },
        }
    }

    /// Takes one action to its end: changes the state as the action says,
    /// and answers whether what is shown may have changed, how the action
    /// ended, and what is left for the application to do.
    pub fn update(&mut self, action: Action) -> (r: Step)
        requires
            old(self)@.has_session(),
        ensures
            final(self)@ == old(self)@.after(action),
            r@ == old(self)@.reply(action),
            well_formed(old(self)@) && fits(old(self)@, action) ==> well_formed(final(self)@),
    {
        proof {
            if well_formed(self@) && fits(self@, action) {
                fitting_action_keeps_well_formed(self@, action);
            }
        }
        match action {
            Action::Noop => quiet_step(false, Outcome::Unchanged),
            Action::Alert(message) => Step {
                render: false,
                outcome: Outcome::Unchanged,
                request: Request::Log(message),
            },
            Action::ChangeInput(coord, text) => {
                let did = self.get_session_mut().change_input(&coord, text);
                quiet_step(did, done_if(did))
            },
            Action::SetActiveCell(coord) => {
                self.first_select_cell = Some(coord.clone());
                self.last_select_cell = None;
                self.active_cell = Some(coord);
                quiet_step(true, Outcome::Applied)
            },
            Action::SetSelectedCells(coord) => {
                self.last_select_cell = Some(coord);
                quiet_step(true, Outcome::Applied)
            },
            Action::DoCompletion(source, dest) => {
                let outcome = self.complete(source, dest);
                quiet_step(true, outcome)
            },
            Action::SetActiveMenu(menu) => {
                self.open_side_menu = menu;
                quiet_step(true, Outcome::Applied)
            },
            Action::ReadSession(name) => {
                let ghost before = tasks_of(self.tasks@);
                self.tasks.push(Pending::Session(name.clone()));
                proof {
                    assert(tasks_of(self.tasks@) =~= before.push(PendingView::Session(name@)));
                }
                Step { render: false, outcome: Outcome::Applied, request: Request::ReadSession(name) }
            },
            Action::LoadSession(payload) => {
                let outcome = self.load_session(payload);
                match outcome {
                    Outcome::Applied => quiet_step(true, outcome),
                    _ => quiet_step(false, outcome),
                }
            },
            Action::SaveSession => quiet_step(false, Outcome::Unchanged),
            Action::SetSessionTitle(title) => {
                self.set_session_title(title);
                quiet_step(true, Outcome::Applied)
            },
            Action::ReadDriverFiles(paths) => self.read_driver_files(paths),
            Action::UploadDriverMiscFile(data) => Step {
                render: false,
                outcome: Outcome::Unchanged,
                request: Request::UploadDriverMiscFile(data),
            },
            Action::LoadDriverMainFile(data) => Step {
                render: true,
                outcome: Outcome::Unchanged,
                request: Request::LoadDriverMainFile(data),
            },
            Action::AddNestedGrid(coord, size) => {
                let outcome = self.nest(coord, size.0, size.1);
                match outcome {
                    Outcome::Applied => quiet_step(true, outcome),
                    _ => quiet_step(false, outcome),
                }
            },
            Action::InsertRow => {
                let outcome = self.grow(Axis::Rows);
                match outcome {
                    Outcome::Failed(_) => quiet_step(false, outcome),
                    _ => quiet_step(true, outcome),
                }
            },
            Action::InsertCol => {
                let outcome = self.grow(Axis::Cols);
                match outcome {
                    Outcome::Failed(_) => quiet_step(false, outcome),
                    _ => quiet_step(true, outcome),
                }
            },
            Action::Lookup(source, target) => match target {
                Lookup::Cell(dest) => {
                    let did = self.get_session_mut().move_grammar(&source, dest);
                    quiet_step(did, done_if(did))
                },
                _ => quiet_step(false, Outcome::Unchanged),
            },
            Action::ToggleLookup(coord) => {
                let did = self.get_session_mut().toggle_input_lookup(&coord);
                quiet_step(true, done_if(did))
            },
            Action::DefnUpdateName(_, _) => quiet_step(false, Outcome::Unchanged),
            Action::DefnUpdateRule(_, _) => quiet_step(false, Outcome::Unchanged),
            Action::DefnAddRule(_) => quiet_step(false, Outcome::Unchanged),
        }
    }
}


/// The document with the node `g` at `k`.
pub open spec fn stored(v: SessionView, k: Path, g: GrammarView) -> SessionView {
    resync(v, v.store.insert(k, g), k == root_path(), k == meta_path())
}

/// A grid node with a name and the cells `cells`.
pub open spec fn named_grid(name: Seq<char>, cells: Seq<(u32, u32)>) -> GrammarView {
    GrammarView { name, style: StyleView::baseline(), kind: KindView::Grid(cells) }
}

/// The address of the definition that the first document holds.
pub open spec fn first_defn() -> Path {
    path_child(meta_path(), (3u32, 1u32))
}

/// The address of the rule of that definition.
pub open spec fn first_rule() -> Path {
    path_child(first_defn(), (1u32, 2u32))
}

/// The first document, before anything is stored below its roots.
pub open spec fn blank_session() -> SessionView {
    SessionView {
        title: "my session"@,
        root: GrammarView::leaf(),
        meta: GrammarView::leaf(),
        store: Store::empty().insert(root_path(), GrammarView::leaf()).insert(
            meta_path(),
            GrammarView::leaf(),
        ),
    }
}

/// The first document with its two grids: six cells in two columns under
/// the root, three cells in one column under the root of definitions.
pub open spec fn gridded_session() -> SessionView {
    planted(
        planted(
            blank_session(),
            root_path(),
            named_grid(
                "root"@,
                seq![
                    (1u32, 1u32),
                    (2u32, 1u32),
                    (3u32, 1u32),
                    (1u32, 2u32),
                    (2u32, 2u32),
                    (3u32, 2u32),
                ],
            ),
        ),
        meta_path(),
        named_grid("meta"@, seq![(1u32, 1u32), (2u32, 1u32), (3u32, 1u32)]),
    )
}

/// The first document with its two example grammars and its definition.
pub open spec fn defining_session() -> SessionView {
    stored(
        stored(
            stored(
                gridded_session(),
                path_child(meta_path(), (1u32, 1u32)),
                GrammarView::text("js grammar"@, "This is js"@),
            ),
            path_child(meta_path(), (2u32, 1u32)),
            GrammarView::text("java grammar"@, "This is java"@),
        ),
        first_defn(),
        GrammarView {
            name: "defn"@,
            style: StyleView::baseline(),
            kind: KindView::Defn(
                Seq::empty(),
                first_defn(),
                seq![(Seq::<char>::empty(), first_rule())],
            ),
        },
    )
}

/// The document that the application starts with: the definition has a
/// cell beside its rule, and the rule is a grid of four cells with a text
/// in the first.
pub open spec fn first_session() -> SessionView {
    stored(
        planted(
            stored(
                defining_session(),
                path_child(first_defn(), (1u32, 1u32)),
                GrammarView::leaf(),
            ),
            first_rule(),
            named_grid("root"@, seq![(1u32, 1u32), (2u32, 1u32), (1u32, 2u32), (2u32, 2u32)]),
        ),
        path_child(first_rule(), (1u32, 1u32)),
        GrammarView::text(Seq::empty(), "custom grammar"@),
    )
}

/// The heights that the application starts with, before the baseline is
/// given to the rows that have none.
pub open spec fn first_heights() -> Dims {
    Dims::empty().insert((root_path(), 1u32), 30u64).insert((root_path(), 2u32), 30u64).insert(
        (root_path(), 3u32),
        30u64,
    ).insert((meta_path(), 1u32), 180u64)
}

/// The widths that the application starts with, before the baseline is
/// given to the columns that have none.
pub open spec fn first_widths() -> Dims {
    Dims::empty().insert((root_path(), 1u32), 90u64).insert((root_path(), 2u32), 90u64).insert(
        (meta_path(), 1u32),
        180u64,
    ).insert((first_defn(), 1u32), 90u64).insert((first_defn(), 2u32), 180u64)
}

/// The entries of the side navigation.
pub open spec fn first_menus() -> Seq<SideMenuView> {
    seq![
        SideMenuView { name: "Home"@, icon_path: "assets/logo.png"@ },
        SideMenuView { name: "File Explorer"@, icon_path: "assets/folder_icon.png"@ },
        SideMenuView { name: "Settings"@, icon_path: "assets/settings_icon.png"@ },
        SideMenuView { name: "Info"@, icon_path: "assets/info_icon.png"@ },
    ]
}

impl ModelView {
    /// The state that the application starts with.
    pub open spec fn first() -> ModelView {
        ModelView {
            view_root: root_path(),
            first_select_cell: None,
            last_select_cell: None,
            active_cell: Some(path_child(root_path(), (1u32, 1u32))),
            suggestions: seq![
                path_child(meta_path(), (1u32, 1u32)),
                path_child(meta_path(), (2u32, 1u32)),
                first_defn(),
            ],
            col_widths: defaulted(
                first_widths(),
                key_bands(first_session().store.keys, Axis::Cols),
                DEFAULT_COL_WIDTH,
            ),
            row_heights: defaulted(
                first_heights(),
                key_bands(first_session().store.keys, Axis::Rows),
                DEFAULT_ROW_HEIGHT,
            ),
            select_grammar: Seq::empty(),
            sessions: seq![first_session()],
            current_session_index: 0,
            side_menus: first_menus(),
            open_side_menu: None,
            tasks: Seq::empty(),
        }
    }
}

fn cell(parent: &Coordinate, row: u32, col: u32) -> (c: Coordinate)
    requires
        row >= 1,
        col >= 1,
    ensures
        c@ == path_child(parent@, (row, col)),
{
    match Coordinate::child_of(parent, (row, col)) {
        Ok(c) => c,
        Err(_) => parent.clone(),
    }
}

fn side_menu(name: &str, icon_path: &str) -> (m: SideMenu)
    ensures
        m@ == (SideMenuView { name: name@, icon_path: icon_path@ }),
{
    SideMenu { name: name.to_owned(), icon_path: icon_path.to_owned() }
}

fn first_document() -> (s: Session)
    ensures
        s@ == first_session(),
        sound_session(s@),
        store_wf(s.store()),
{
    let root = Coordinate::root();
    let meta = Coordinate::meta();
    let a3 = cell(&meta, 3, 1);
    let b1 = cell(&a3, 1, 2);
    let mut s = Session::new("my session".to_owned(), Grammar::default(), Grammar::default());
    proof {
        fresh_is_sound(s@);
        assert(parent_stored(s@.store, root_path()));
        planted_keeps_sound(
            s@,
            root_path(),
            named_grid(
                "root"@,
                seq![
                    (1u32, 1u32),
                    (2u32, 1u32),
                    (3u32, 1u32),
                    (1u32, 2u32),
                    (2u32, 2u32),
                    (3u32, 2u32),
                ],
            ),
        );
    }
    let _ = s.put_grid(
        &root,
        "root".to_owned(),
        Style::default(),
        vec![(1, 1), (2, 1), (3, 1), (1, 2), (2, 2), (3, 2)],
    );
    proof {
        assert(parent_stored(s@.store, meta_path()));
        planted_keeps_sound(
            s@,
            meta_path(),
            named_grid("meta"@, seq![(1u32, 1u32), (2u32, 1u32), (3u32, 1u32)]),
        );
    }
    let _ = s.put_grid(&meta, "meta".to_owned(), Style::default(), vec![(1, 1), (2, 1), (3, 1)]);
    assert(s@ == gridded_session());
    proof {
        let a1 = path_child(meta_path(), (1u32, 1u32));
        assert(a1.drop_last() =~= meta_path());
        put_keeps_sound(s@, a1, GrammarView::text("js grammar"@, "This is js"@));
    }
    s.put(cell(&meta, 1, 1), Grammar::text("js grammar".to_owned(), "This is js".to_owned()));
    proof {
        let a2 = path_child(meta_path(), (2u32, 1u32));
        assert(a2.drop_last() =~= meta_path());
        put_keeps_sound(s@, a2, GrammarView::text("java grammar"@, "This is java"@));
    }
    s.put(cell(&meta, 2, 1), Grammar::text("java grammar".to_owned(), "This is java".to_owned()));
    let rules = vec![(String::new(), b1.clone())];
    proof {
        assert(crate::grammar::rules_view(rules@) =~= seq![(Seq::<char>::empty(), first_rule())]);
    }
    let defn = Grammar {
        name: "defn".to_owned(),
        style: Style::default(),
        kind: Kind::Defn(String::new(), a3.clone(), rules),
    };
    proof {
        assert(first_defn().drop_last() =~= meta_path());
        put_keeps_sound(s@, first_defn(), defn@);
    }
    s.put(a3.clone(), defn);
    assert(s@ == defining_session());
    proof {
        let a1 = path_child(first_defn(), (1u32, 1u32));
        assert(a1.drop_last() =~= first_defn());
        put_keeps_sound(s@, a1, GrammarView::leaf());
    }
    s.put(cell(&a3, 1, 1), Grammar::default());
    proof {
        assert(first_rule().drop_last() =~= first_defn());
        assert(parent_stored(s@.store, first_rule()));
        planted_keeps_sound(
            s@,
            first_rule(),
            named_grid("root"@, seq![(1u32, 1u32), (2u32, 1u32), (1u32, 2u32), (2u32, 2u32)]),
        );
    }
    let ghost before = s@;
    let _ = s.put_grid(&b1, "root".to_owned(), Style::default(), vec![(1, 1), (2, 1), (1, 2), (2, 2)]);
    proof {
        let g = named_grid("root"@, seq![(1u32, 1u32), (2u32, 1u32), (1u32, 2u32), (2u32, 2u32)]);
        let a1 = path_child(first_rule(), (1u32, 1u32));
        assert(a1.drop_last() =~= first_rule());
        leaves_at(before.store.insert(first_rule(), g), first_rule(), crate::session::cells_of(g), first_rule());
        put_keeps_sound(s@, a1, GrammarView::text(Seq::empty(), "custom grammar"@));
    }
    s.put(cell(&b1, 1, 1), Grammar::text(String::new(), "custom grammar".to_owned()));
    s
}

impl Model {
    /// The state that the application starts with: one document with a
    /// grid of six cells under the root and three example cells under the
    /// root of definitions, the first cell of the root active, and a size
    /// for every band of a stored cell.
    pub fn create() -> (m: Model)
        ensures
            m@ == ModelView::first(),
            well_formed(m@),
    {
        let root = Coordinate::root();
        let meta = Coordinate::meta();
        let a3 = cell(&meta, 3, 1);
        let session = first_document();
        let bands = Model::bands_of_keys(&session);
        let mut col_widths: Table<Col, u64> = Table::new();
        col_widths.insert(Col::of(&root, 1), 90);
        col_widths.insert(Col::of(&root, 2), 90);
        col_widths.insert(Col::of(&meta, 1), 180);
        col_widths.insert(Col::of(&a3, 1), 90);
        col_widths.insert(Col::of(&a3, 2), 180);
        let mut row_heights: Table<Row, u64> = Table::new();
        row_heights.insert(Row::of(&root, 1), 30);
        row_heights.insert(Row::of(&root, 2), 30);
        row_heights.insert(Row::of(&root, 3), 30);
        row_heights.insert(Row::of(&meta, 1), 180);
        let mut m = Model {
            view_root: Coordinate::root(),
            first_select_cell: None,
            last_select_cell: None,
            active_cell: Some(cell(&root, 1, 1)),
            suggestions: vec![cell(&meta, 1, 1), cell(&meta, 2, 1), cell(&meta, 3, 1)],
            col_widths,
            row_heights,
            select_grammar: Vec::new(),
            sessions: vec![session],
            current_session_index: 0,
            side_menus: vec![
                side_menu("Home", "assets/logo.png"),
                side_menu("File Explorer", "assets/folder_icon.png"),
                side_menu("Settings", "assets/settings_icon.png"),
                side_menu("Info", "assets/info_icon.png"),
            ],
            open_side_menu: None,
            tasks: Vec::new(),
        };
        proof {
            assert(m@.suggestions =~= ModelView::first().suggestions);
            assert(m@.select_grammar =~= Seq::<Path>::empty());
            assert(m@.sessions =~= seq![first_session()]);
            assert(m@.side_menus =~= first_menus());
            assert(m@.tasks =~= Seq::<PendingView>::empty());
        }
        m.default_bands(bands, DEFAULT_ROW_HEIGHT, DEFAULT_COL_WIDTH);
        proof {
            assert forall|k: Path| m@.session().store.map.contains_key(k) implies #[trigger] sized(
                m@.row_heights,
                m@.col_widths,
                k,
            ) by {
                defaults_size_the_store(first_session().store, first_heights(), first_widths(), k);
            }
        }
        m
    }
}

} // verus!
