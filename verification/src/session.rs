//! The document store: the grammar node of every address, and the
//! invariants that tie the nodes together.

use crate::address::{address_text, parse_address, CoordinateParser};
use crate::coordinate::{
    meta_path, path_child, path_full_col, path_full_row, path_parent, root_path, valid_pair,
    valid_path, Col, Coordinate, Path, Row,
};
use crate::error::Error;
use crate::grammar::{Grammar, GrammarView, Kind, KindView};
use crate::table::{Key, Table, TableModel};
use vstd::prelude::*;

verus! {

/// The model of a store: the stored addresses in the order of their
/// arrival, and the node at each.
pub type Store = TableModel<Path, GrammarView>;

/// The cells that a node lists: those of a grid, none for a leaf.
pub open spec fn cells_of(g: GrammarView) -> Seq<(u32, u32)> {
    match g.kind {
        KindView::Grid(cells) => cells,
        _ => Seq::empty(),
    }
}

/// The address of cell number `i` of the node at `c`.
pub open spec fn child_at(s: Store, c: Path, i: int) -> Path {
    path_child(c, cells_of(s.map[c])[i])
}

/// Cell number `i` of the node at `c` is a valid pair and is stored.
pub open spec fn cell_stored(s: Store, c: Path, i: int) -> bool {
    valid_pair(cells_of(s.map[c])[i]) && s.map.contains_key(child_at(s, c, i))
}

/// Every cell that a stored grid lists is a valid pair and is stored.
pub open spec fn grids_consistent(s: Store) -> bool {
    forall|c: Path, i: int|
        s.map.contains_key(c) && 0 <= i < cells_of(s.map[c]).len() ==> #[trigger] cell_stored(
            s,
            c,
            i,
        )
}

/// The address `k` is at the top level, or its parent is stored.
pub open spec fn parent_stored(s: Store, k: Path) -> bool {
    k.len() > 1 ==> s.map.contains_key(k.drop_last())
}

/// Every stored address below the top level has its parent stored.
pub open spec fn parents_present(s: Store) -> bool {
    forall|k: Path| s.map.contains_key(k) ==> #[trigger] parent_stored(s, k)
}

/// Every stored address is a valid path.
pub open spec fn keys_valid(s: Store) -> bool {
    forall|k: Path| s.map.contains_key(k) ==> #[trigger] valid_path(k)
}

/// What holds of every store: no address occurs twice, the addresses are
/// those with a node, and each is a valid path.
pub open spec fn store_wf(s: Store) -> bool {
    s.wf() && keys_valid(s)
}

/// What is asked of the store for the entry at `k` alone.
pub open spec fn entry_sound(s: Store, k: Path) -> bool {
    &&& parent_stored(s, k)
    &&& forall|i: int| 0 <= i < cells_of(s.map[k]).len() ==> #[trigger] cell_stored(s, k, i)
}

proof fn sound_store(t: &Table<Coordinate, Grammar>)
    requires
        t.sound(),
    ensures
        store_wf(t@),
{
    assert forall|k: Path| t@.map.contains_key(k) implies #[trigger] valid_path(k) by {
        assert(Coordinate::legal(k));
    }
}

/// The questions that select stored addresses.
pub enum Query {
    /// The cells directly inside the grid at the address.
    Parent(Path),
    /// The cells of a horizontal band, below the top level.
    Row((Path, u32)),
    /// The cells of a vertical band, below the top level.
    Col((Path, u32)),
}

/// Whether the address `k` answers the question.
pub open spec fn answers(q: Query, k: Path) -> bool {
    match q {
        Query::Parent(p) => path_parent(k) == Some(p),
        Query::Row(r) => k.len() > 1 && path_full_row(k) == r,
        Query::Col(c) => k.len() > 1 && path_full_col(k) == c,
    }
}

/// The addresses among `keys` that answer the question, in their order.
pub open spec fn select(keys: Seq<Path>, q: Query) -> Seq<Path>
    decreases keys.len(),
{
    if keys.len() == 0 {
        Seq::empty()
    } else {
        let rest = select(keys.drop_last(), q);
        if answers(q, keys.last()) {
            rest.push(keys.last())
        } else {
            rest
        }
    }
}

/// The models of a list of addresses.
pub open spec fn paths_of(v: Seq<Coordinate>) -> Seq<Path> {
    Seq::new(v.len(), |i: int| v[i]@)
}

/// A document: its title, its two root nodes, and the node of every
/// address.
pub struct Session {
    pub title: String,
    pub root: Grammar,
    pub meta: Grammar,
    pub grammars: Table<Coordinate, Grammar>,
}

/// The model of a document.
pub struct SessionView {
    pub title: Seq<char>,
    pub root: GrammarView,
    pub meta: GrammarView,
    pub store: Store,
}

impl View for Session {
    type V = SessionView;

    open spec fn view(&self) -> SessionView {
        SessionView {
            title: self.title@,
            root: self.root@,
            meta: self.meta@,
            store: self.grammars@,
        }
    }
}

/// The document with `store` as its store. A root node that was written
/// is the node that the store now holds at the address of that root; one
/// that was not is as it was.
pub open spec fn resync(
    v: SessionView,
    store: Store,
    root_written: bool,
    meta_written: bool,
) -> SessionView {
    SessionView {
        title: v.title,
        root: if root_written {
            store.map[root_path()]
        } else {
            v.root
        },
        meta: if meta_written {
            store.map[meta_path()]
        } else {
            v.meta
        },
        store,
    }
}

/// The two root nodes of the document are the nodes stored at the two
/// root addresses.
pub open spec fn roots_synced(v: SessionView) -> bool {
    &&& v.store.map.contains_key(root_path())
    &&& v.store.map[root_path()] == v.root
    &&& v.store.map.contains_key(meta_path())
    &&& v.store.map[meta_path()] == v.meta
}

/// The invariants of a document: the roots are stored, every cell that a
/// grid lists is stored, and every stored cell has its parent.
pub open spec fn sound_session(v: SessionView) -> bool {
    &&& roots_synced(v)
    &&& grids_consistent(v.store)
    &&& parents_present(v.store)
}

/// The models of a list of nodes under their textual addresses.
pub open spec fn entries_of(v: Seq<(String, Grammar)>) -> Seq<(Seq<char>, GrammarView)> {
    Seq::new(v.len(), |i: int| (v[i].0@, v[i].1@))
}

/// The store of the first `n` entries, each put under the address that
/// its text denotes, or the first segment among these texts that breaks
/// the grammar of addresses.
pub open spec fn assembled(entries: Seq<(Seq<char>, GrammarView)>, n: int) -> Result<
    Store,
    Seq<char>,
>
    decreases n,
{
    if n <= 0 {
        Ok(Store::empty())
    } else {
        match assembled(entries, n - 1) {
            Err(bad) => Err(bad),
            Ok(s) => match parse_address(entries[n - 1].0) {
                Ok(k) => Ok(s.insert(k, entries[n - 1].1)),
                Err(bad) => Err(bad),
            },
        }
    }
}

/// The entries that a store is written down as: each node under the text
/// of its address, in the order of the store.
pub open spec fn written(s: Store) -> Seq<(Seq<char>, GrammarView)> {
    Seq::new(s.keys.len(), |i: int| (address_text(s.keys[i]), s.map[s.keys[i]]))
}

proof fn assembly_stays_refused(entries: Seq<(Seq<char>, GrammarView)>, n: int, m: int)
    requires
        0 <= n <= m,
        assembled(entries, n) is Err,
    ensures
        assembled(entries, m) == assembled(entries, n),
    decreases m - n,
{
    if n < m {
        assembly_stays_refused(entries, n, m - 1);
    }
}

enum Probe<'a> {
    Parent(&'a Coordinate),
    Row(&'a Row),
    Col(&'a Col),
}

impl<'a> Probe<'a> {
    spec fn query(self) -> Query {
        match self {
            Probe::Parent(p) => Query::Parent(p@),
            Probe::Row(r) => Query::Row(r@),
            Probe::Col(c) => Query::Col(c@),
        }
    }

    fn accepts(&self, k: &Coordinate) -> (r: bool)
        ensures
            r == answers(self.query(), k@),
    {
        match self {
            Probe::Parent(p) => match k.parent() {
                Some(up) => up == **p,
                None => false,
            },
            Probe::Row(r) => k.depth() > 1 && k.full_row() == **r,
            Probe::Col(c) => k.depth() > 1 && k.full_col() == **c,
        }
    }
}

impl Session {
    /// The model of the store.
    pub open spec fn store(&self) -> Store {
        self.grammars@
    }

    /// The document satisfies its invariants.
    pub open spec fn sound(&self) -> bool {
        sound_session(self@)
    }

    /// A document that holds its two roots and nothing else.
    pub fn new(title: String, root: Grammar, meta: Grammar) -> (s: Session)
        ensures
            s@ == (SessionView {
                title: title@,
                root: root@,
                meta: meta@,
                store: Store::empty().insert(root_path(), root@).insert(meta_path(), meta@),
            }),
            store_wf(s.store()),
    {
        let mut grammars: Table<Coordinate, Grammar> = Table::new();
        grammars.insert(Coordinate::root(), root.clone());
        grammars.insert(Coordinate::meta(), meta.clone());
        Session { title, root, meta, grammars }
    }

    /// A document from its parts as they are written down: the nodes
    /// come under the texts of their addresses. The root nodes are taken
    /// as given, whatever the entries hold. A text that is no address is
    /// refused with its first bad segment.
    pub fn from_entries(
        title: String,
        root: Grammar,
        meta: Grammar,
        entries: &Vec<(String, Grammar)>,
    ) -> (r: Result<Session, Error>)
        ensures
            match assembled(entries_of(entries@), entries@.len() as int) {
                Ok(store) => r is Ok && r->Ok_0@ == (SessionView {
                    title: title@,
                    root: root@,
                    meta: meta@,
                    store,
                }) && store_wf(store),
                Err(bad) => r is Err && r->Err_0 is MalformedAddress
                    && r->Err_0->MalformedAddress_0@ == bad,
            },
    {
        let ghost model = entries_of(entries@);
        let mut grammars: Table<Coordinate, Grammar> = Table::new();
        let mut i: usize = 0;
        while i < entries.len()
            invariant
                i <= entries.len(),
                model == entries_of(entries@),
                grammars.sound(),
                assembled(model, i as int) == Ok::<Store, Seq<char>>(grammars@),
            decreases entries.len() - i,
        {
            proof {
                assert(model[i as int] == (entries@[i as int].0@, entries@[i as int].1@));
            }
            match CoordinateParser::parse(entries[i].0.as_str()) {
                Ok(k) => {
                    grammars.insert(k, entries[i].1.clone());
                },
                Err(e) => {
                    proof {
                        assembly_stays_refused(model, i + 1, model.len() as int);
                    }
                    return Err(e);
                },
            }
            i += 1;
        }
        proof {
            sound_store(&grammars);
        }
        Ok(Session { title, root, meta, grammars })
    }

    /// The nodes of the document under the texts of their addresses, in
    /// the order in which they were stored.
    pub fn entries(&self) -> (r: Vec<(String, Grammar)>)
        ensures
            entries_of(r@) == written(self.store()),
    {
        let n = self.grammars.len();
        let mut out: Vec<(String, Grammar)> = Vec::new();
        let mut i: usize = 0;
        while i < n
            invariant
                i <= n == self.store().keys.len(),
                out@.len() == i,
                forall|j: int|
                    0 <= j < i ==> (#[trigger] out@[j]).0@ == address_text(self.store().keys[j])
                        && out@[j].1@ == self.store().map[self.store().keys[j]],
            decreases n - i,
        {
            let k = self.grammars.key_at(i);
            let g = self.grammars.value_at(i);
            out.push((k.to_text(), g.clone()));
            i += 1;
        }
        proof {
            assert(entries_of(out@) =~= written(self.store()));
        }
        out
    }

    /// Does nothing; states that the store is well formed.
    pub fn witness(&self)
        ensures
            store_wf(self.store()),
    {
        self.grammars.witness();
        proof {
            sound_store(&self.grammars);
        }
    }

    /// The node at `coord`, if one is stored there.
    pub fn get(&self, coord: &Coordinate) -> (r: Option<&Grammar>)
        ensures
            r is Some <==> self.store().map.contains_key(coord@),
            r is Some ==> r->0@ == self.store().map[coord@],
            store_wf(self.store()),
    {
        let r = self.grammars.get(coord);
        proof {
            sound_store(&self.grammars);
        }
        r
    }

    /// Whether a node is stored at `coord`.
    pub fn contains(&self, coord: &Coordinate) -> (r: bool)
        ensures
            r == self.store().map.contains_key(coord@),
            store_wf(self.store()),
    {
        let r = self.grammars.contains_key(coord);
        proof {
            sound_store(&self.grammars);
        }
        r
    }

    /// Stores `g` at `coord`, in place of the node that was there, if any.
    /// A node stored at a root address becomes that root node as well.
    pub fn put(&mut self, coord: Coordinate, g: Grammar)
        ensures
            final(self)@ == resync(
                old(self)@,
                old(self).store().insert(coord@, g@),
                coord@ == root_path(),
                coord@ == meta_path(),
            ),
            store_wf(final(self).store()),
    {
        proof {
            assert(root_path()[0] != meta_path()[0]);
        }
        if coord.is_root() {
            self.root = g.clone();
        } else if coord.is_meta() {
            self.meta = g.clone();
        }
        self.grammars.insert(coord, g);
        proof {
            sound_store(&self.grammars);
        }
    }

    /// Takes the node at `coord` out of the store and hands it back. The
    /// root nodes of the document stay as they are.
    pub fn take(&mut self, coord: &Coordinate) -> (r: Option<Grammar>)
        ensures
            final(self)@ == resync(old(self)@, old(self).store().remove(coord@), false, false),
            store_wf(final(self).store()),
            r is Some <==> old(self).store().map.contains_key(coord@),
            r is Some ==> r->0@ == old(self).store().map[coord@],
    {
        let r = self.grammars.remove(coord);
        proof {
            sound_store(&self.grammars);
        }
        r
    }

    fn select(&self, probe: Probe) -> (r: Vec<Coordinate>)
        ensures
            paths_of(r@) == select(self.store().keys, probe.query()),
            store_wf(self.store()),
    {
        let n = self.grammars.len();
        let ghost keys = self.store().keys;
        let ghost q = probe.query();
        let mut out: Vec<Coordinate> = Vec::new();
        let mut i: usize = 0;
        assert(keys.take(0) =~= Seq::<Path>::empty());
        assert(paths_of(out@) =~= Seq::<Path>::empty());
        while i < n
            invariant
                i <= n == keys.len(),
                keys == self.store().keys,
                q == probe.query(),
                paths_of(out@) == select(keys.take(i as int), q),
            decreases n - i,
        {
            let k = self.grammars.key_at(i);
            let ghost before = paths_of(out@);
            proof {
                assert(keys.take(i + 1).drop_last() =~= keys.take(i as int));
                assert(keys.take(i + 1).last() == keys[i as int]);
            }
            if probe.accepts(k) {
                out.push(k.clone());
                proof {
                    assert(paths_of(out@) =~= before.push(keys[i as int]));
                }
            }
            i += 1;
        }
        proof {
            assert(keys.take(n as int) =~= keys);
            sound_store(&self.grammars);
        }
        out
    }

    /// The stored cells directly inside the grid at `parent`, in the order
    /// in which they were stored.
    pub fn children_of(&self, parent: &Coordinate) -> (r: Vec<Coordinate>)
        ensures
            paths_of(r@) == select(self.store().keys, Query::Parent(parent@)),
            store_wf(self.store()),
    {
        self.select(Probe::Parent(parent))
    }

    /// The stored cells of the band `row`, top-level addresses left out, in
    /// the order in which they were stored.
    pub fn row_members(&self, row: &Row) -> (r: Vec<Coordinate>)
        ensures
            paths_of(r@) == select(self.store().keys, Query::Row(row@)),
            store_wf(self.store()),
    {
        self.select(Probe::Row(row))
    }

    /// The stored cells of the band `col`, top-level addresses left out, in
    /// the order in which they were stored.
    pub fn column_members(&self, col: &Col) -> (r: Vec<Coordinate>)
        ensures
            paths_of(r@) == select(self.store().keys, Query::Col(col@)),
            store_wf(self.store()),
    {
        self.select(Probe::Col(col))
    }

    fn entry_is_sound(&self, i: usize) -> (ok: bool)
        requires
            i < self.store().keys.len(),
        ensures
            ok == entry_sound(self.store(), self.store().keys[i as int]),
    {
        let k = self.grammars.key_at(i);
        let g = self.grammars.value_at(i);
        let ghost s = self.store();
        proof {
            assert(s.keys.contains(s.keys[i as int]));
            assert(s.map.contains_key(k@));
            assert(g@ == s.map[k@]);
        }
        if k.depth() > 1 {
            match k.parent() {
                Some(up) => {
                    if !self.grammars.contains_key(&up) {
                        return false;
                    }
                },
                None => {},
            }
        }
        match &g.kind {
            Kind::Grid(cells) => {
                let mut t: usize = 0;
                while t < cells.len()
                    invariant
                        t <= cells.len(),
                        i < s.keys.len(),
                        s == self.store(),
                        k@ == s.keys[i as int],
                        s.map.contains_key(k@),
                        k@.len() > 1 ==> s.map.contains_key(k@.drop_last()),
                        cells@ == cells_of(s.map[k@]),
                        forall|j: int| 0 <= j < t ==> #[trigger] cell_stored(s, k@, j),
                    decreases cells.len() - t,
                {
                    match Coordinate::child_of(k, cells[t]) {
                        Ok(child) => {
                            assert(child@ == child_at(s, k@, t as int));
                            if !self.grammars.contains_key(&child) {
                                assert(!cell_stored(s, k@, t as int));
                                return false;
                            }
                        },
                        Err(_) => {
                            assert(!cell_stored(s, k@, t as int));
                            return false;
                        },
                    }
                    t += 1;
                }
                true
            },
            _ => true,
        }
    }

    /// Whether the document satisfies its invariants.
    pub fn check(&self) -> (ok: bool)
        ensures
            ok == self.sound(),
    {
        let root = Coordinate::root();
        let meta = Coordinate::meta();
        match self.grammars.get(&root) {
            Some(g) => {
                if !(*g == self.root) {
                    return false;
                }
            },
            None => {
                return false;
            },
        }
        match self.grammars.get(&meta) {
            Some(g) => {
                if !(*g == self.meta) {
                    return false;
                }
            },
            None => {
                return false;
            },
        }
        let n = self.grammars.len();
        let ghost s = self.store();
        let mut i: usize = 0;
        while i < n
            invariant
                i <= n == s.keys.len(),
                s == self.store(),
                s.wf(),
                forall|j: int| 0 <= j < i ==> entry_sound(s, #[trigger] s.keys[j]),
            decreases n - i,
        {
            if !self.entry_is_sound(i) {
                proof {
                    let k = s.keys[i as int];
                    assert(s.keys.contains(k));
                    assert(s.map.contains_key(k));
                    if grids_consistent(s) && parents_present(s) {
                        assert(parent_stored(s, k));
                        assert forall|t: int|
                            0 <= t < cells_of(s.map[k]).len() implies #[trigger] cell_stored(
                            s,
                            k,
                            t,
                        ) by {}
                        assert(false);
                    }
                }
                return false;
            }
            i += 1;
        }
        proof {
            assert forall|c: Path, t: int|
                s.map.contains_key(c) && 0 <= t < cells_of(s.map[c]).len() implies #[trigger] cell_stored(
                s,
                c,
                t,
            ) by {
                assert(s.keys.contains(c));
                let j = choose|j: int| 0 <= j < s.keys.len() && s.keys[j] == c;
                assert(entry_sound(s, s.keys[j]));
            }
            assert forall|k: Path| s.map.contains_key(k) implies #[trigger] parent_stored(s, k) by {
                assert(s.keys.contains(k));
                let j = choose|j: int| 0 <= j < s.keys.len() && s.keys[j] == k;
                assert(entry_sound(s, s.keys[j]));
            }
        }
        true
    }
}

impl Clone for Session {
    fn clone(&self) -> (r: Session)
        ensures
            r@ == self@,
            store_wf(r.store()),
    {
        let n = self.grammars.len();
        let ghost s = self.store();
        let mut grammars: Table<Coordinate, Grammar> = Table::new();
        let mut i: usize = 0;
        while i < n
            invariant
                i <= n == s.keys.len(),
                s == self.store(),
                s.wf(),
                grammars.sound(),
                grammars@.keys == s.keys.take(i as int),
                forall|k: Path| #[trigger] grammars@.map.contains_key(k) ==> s.map.contains_key(k) && grammars@.map[k] == s.map[k],
            decreases n - i,
        {
            let k = self.grammars.key_at(i).clone();
            let g = self.grammars.value_at(i).clone();
            proof {
                let key = s.keys[i as int];
                assert(s.keys.contains(key));
                if grammars@.map.contains_key(key) {
                    assert(grammars@.keys.contains(key));
                    let j = choose|j: int| 0 <= j < i && s.keys.take(i as int)[j] == key;
                    assert(s.keys[j] == key);
                    assert(false);
                }
                assert(s.keys.take(i + 1) =~= s.keys.take(i as int).push(key));
            }
            grammars.insert(k, g);
            i += 1;
        }
        proof {
            assert(s.keys.take(n as int) =~= s.keys);
            assert forall|k: Path| s.map.contains_key(k) implies grammars@.map.contains_key(k) by {
                assert(s.keys.contains(k));
                assert(grammars@.keys.contains(k));
            }
            assert(grammars@.map =~= s.map);
            sound_store(&grammars);
        }
        Session {
            title: self.title.clone(),
            root: self.root.clone(),
            meta: self.meta.clone(),
            grammars,
        }
    }
}

} // verus!
