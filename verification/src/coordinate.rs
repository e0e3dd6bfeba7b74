//! Hierarchical cell addresses and their algebra.

use crate::error::Error;
use crate::table::Key;
use vstd::prelude::*;
use vstd::std_specs::cmp::PartialEqSpecImpl;

verus! {

/// The mathematical model of an address: the `(row, col)` pairs from the top
/// level down to the cell.
pub type Path = Seq<(u32, u32)>;

/// A path is an address when it is non-empty and every index is at least 1.
pub open spec fn valid_path(p: Path) -> bool {
    &&& p.len() >= 1
    &&& forall|i: int| 0 <= i < p.len() ==> (#[trigger] p[i]).0 >= 1 && p[i].1 >= 1
}

/// The pair of a valid index: both components positive.
pub open spec fn valid_pair(rc: (u32, u32)) -> bool {
    rc.0 >= 1 && rc.1 >= 1
}

/// The address of the ordinary document root.
pub open spec fn root_path() -> Path {
    seq![(1u32, 1u32)]
}

/// The address of the reserved root under which definitions live.
pub open spec fn meta_path() -> Path {
    seq![(1u32, 2u32)]
}

/// The enclosing address, for every address below the top level.
pub open spec fn path_parent(p: Path) -> Option<Path> {
    if p.len() > 1 {
        Some(p.drop_last())
    } else {
        None
    }
}

/// The address of the cell `rc` inside the grid at `p`.
pub open spec fn path_child(p: Path, rc: (u32, u32)) -> Path {
    p.push(rc)
}

/// The address `p` with its last pair replaced by `rc`.
pub open spec fn path_sibling(p: Path, rc: (u32, u32)) -> Path {
    p.drop_last().push(rc)
}

/// The row index of the cell itself.
pub open spec fn path_row(p: Path) -> u32 {
    p.last().0
}

/// The column index of the cell itself.
pub open spec fn path_col(p: Path) -> u32 {
    p.last().1
}

/// The key of the horizontal band of `p`: everything but the last column.
pub open spec fn path_full_row(p: Path) -> (Path, u32) {
    (p.drop_last(), p.last().0)
}

/// The key of the vertical band of `p`: everything but the last row.
pub open spec fn path_full_col(p: Path) -> (Path, u32) {
    (p.drop_last(), p.last().1)
}

/// A hierarchical address: a non-empty path of positive `(row, col)` pairs.
#[derive(Debug)]
pub struct Coordinate {
    row_cols: Vec<(u32, u32)>,
}

/// The key of a horizontal band: the enclosing path and a row index.
#[derive(Debug)]
pub struct Row {
    prefix: Vec<(u32, u32)>,
    index: u32,
}

/// The key of a vertical band: the enclosing path and a column index.
#[derive(Debug)]
pub struct Col {
    prefix: Vec<(u32, u32)>,
    index: u32,
}

impl View for Coordinate {
    type V = Path;

    closed spec fn view(&self) -> Path {
        self.row_cols@
    }
}

impl View for Row {
    type V = (Path, u32);

    closed spec fn view(&self) -> (Path, u32) {
        (self.prefix@, self.index)
    }
}

impl View for Col {
    type V = (Path, u32);

    closed spec fn view(&self) -> (Path, u32) {
        (self.prefix@, self.index)
    }
}

pub(crate) fn copy_pairs(v: &Vec<(u32, u32)>, n: usize) -> (r: Vec<(u32, u32)>)
    requires
        n <= v.len(),
    ensures
        r@ == v@.take(n as int),
{
    let mut out: Vec<(u32, u32)> = Vec::new();
    let mut i: usize = 0;
    while i < n
        invariant
            i <= n <= v.len(),
            out@ == v@.take(i as int),
        decreases n - i,
    {
        out.push(v[i]);
        i += 1;
    }
    out
}

pub(crate) fn same_pairs(a: &Vec<(u32, u32)>, b: &Vec<(u32, u32)>) -> (r: bool)
    ensures
        r == (a@ == b@),
{
    if a.len() != b.len() {
        return false;
    }
    let mut i: usize = 0;
    while i < a.len()
        invariant
            i <= a.len(),
            a.len() == b.len(),
            a@.take(i as int) == b@.take(i as int),
        decreases a.len() - i,
    {
        if a[i].0 != b[i].0 || a[i].1 != b[i].1 {
            return false;
        }
        assert(a@.take(i + 1) == a@.take(i as int).push(a@[i as int]));
        assert(b@.take(i + 1) == b@.take(i as int).push(b@[i as int]));
        i += 1;
    }
    assert(a@.take(a.len() as int) == a@);
    assert(b@.take(b.len() as int) == b@);
    true
}

impl Coordinate {
    #[verifier::type_invariant]
    spec fn well_formed(&self) -> bool {
        valid_path(self.row_cols@)
    }

    /// The address of the ordinary document root.
    pub fn root() -> (r: Coordinate)
        ensures
            r@ == root_path(),
    {
        let mut v: Vec<(u32, u32)> = Vec::new();
        v.push((1, 1));
        Coordinate { row_cols: v }
    }

    /// The number of pairs on the path; at least 1.
    pub fn depth(&self) -> (n: usize)
        ensures
            n == self@.len(),
            n >= 1,
    {
        proof {
            use_type_invariant(self);
        }
        self.row_cols.len()
    }

    /// The enclosing address; none exactly for a top-level address.
    pub fn parent(&self) -> (r: Option<Coordinate>)
        ensures
            r is Some <==> self@.len() > 1,
            r is Some ==> Some(r->0@) == path_parent(self@),
            r is Some ==> r->0@.len() == self@.len() - 1,
    {
        proof {
            use_type_invariant(self);
        }
        let n = self.row_cols.len();
        if n == 1 {
            None
        } else {
            Some(Coordinate { row_cols: copy_pairs(&self.row_cols, n - 1) })
        }
    }

    /// The address of the reserved root of definitions.
    pub fn meta() -> (r: Coordinate)
        ensures
            r@ == meta_path(),
    {
        let mut v: Vec<(u32, u32)> = Vec::new();
        v.push((1, 2));
        Coordinate { row_cols: v }
    }

    /// Builds an address from its pairs. An empty list, or one that holds a
    /// zero index, is no address.
    pub fn new(row_cols: Vec<(u32, u32)>) -> (r: Result<Coordinate, Error>)
        ensures
            valid_path(row_cols@) ==> r is Ok && r->Ok_0@ == row_cols@,
            !valid_path(row_cols@) ==> r is Err && r->Err_0 is InvalidIndex,
    {
        if row_cols.len() == 0 {
            return Err(Error::InvalidIndex);
        }
        let mut i: usize = 0;
        while i < row_cols.len()
            invariant
                i <= row_cols.len(),
                forall|j: int| 0 <= j < i ==> valid_pair(#[trigger] row_cols@[j]),
            decreases row_cols.len() - i,
        {
            if row_cols[i].0 == 0 || row_cols[i].1 == 0 {
                return Err(Error::InvalidIndex);
            }
            i += 1;
        }
        Ok(Coordinate { row_cols })
    }

    /// The address of the cell `rc` inside the grid at `parent`. A zero
    /// index is refused.
    pub fn child_of(parent: &Coordinate, rc: (u32, u32)) -> (r: Result<Coordinate, Error>)
        ensures
            valid_pair(rc) ==> r is Ok && r->Ok_0@ == path_child(parent@, rc),
            !valid_pair(rc) ==> r is Err && r->Err_0 is InvalidIndex,
    {
        proof {
            use_type_invariant(parent);
        }
        if rc.0 == 0 || rc.1 == 0 {
            return Err(Error::InvalidIndex);
        }
        let mut v = copy_pairs(&parent.row_cols, parent.row_cols.len());
        v.push(rc);
        Ok(Coordinate { row_cols: v })
    }

    /// The pairs of the path, from the top level down.
    pub fn row_cols(&self) -> (r: Vec<(u32, u32)>)
        ensures
            r@ == self@,
            valid_path(r@),
    {
        proof {
            use_type_invariant(self);
        }
        copy_pairs(&self.row_cols, self.row_cols.len())
    }

    /// The last pair of the path: the cell's place in its own grid.
    pub fn last(&self) -> (rc: (u32, u32))
        ensures
            rc == self@.last(),
            valid_pair(rc),
    {
        proof {
            use_type_invariant(self);
        }
        self.row_cols[self.row_cols.len() - 1]
    }

    /// The row index of the cell in its own grid.
    pub fn row(&self) -> (r: u32)
        ensures
            r == path_row(self@),
            r >= 1,
    {
        self.last().0
    }

    /// The column index of the cell in its own grid.
    pub fn col(&self) -> (c: u32)
        ensures
            c == path_col(self@),
            c >= 1,
    {
        self.last().1
    }

    /// The key of the horizontal band the cell lies in.
    pub fn full_row(&self) -> (r: Row)
        ensures
            r@ == path_full_row(self@),
    {
        proof {
            use_type_invariant(self);
        }
        let n = self.row_cols.len();
        Row { prefix: copy_pairs(&self.row_cols, n - 1), index: self.row_cols[n - 1].0 }
    }

    /// The key of the vertical band the cell lies in.
    pub fn full_col(&self) -> (c: Col)
        ensures
            c@ == path_full_col(self@),
    {
        proof {
            use_type_invariant(self);
        }
        let n = self.row_cols.len();
        Col { prefix: copy_pairs(&self.row_cols, n - 1), index: self.row_cols[n - 1].1 }
    }

    fn with_last(&self, rc: (u32, u32)) -> (r: Coordinate)
        requires
            valid_pair(rc),
        ensures
            r@ == path_sibling(self@, rc),
    {
        proof {
            use_type_invariant(self);
        }
        let mut v = copy_pairs(&self.row_cols, self.row_cols.len() - 1);
        v.push(rc);
        Coordinate { row_cols: v }
    }

    /// The cell one column to the right in the same grid; none only where
    /// the column index cannot grow.
    pub fn neighbor_right(&self) -> (r: Option<Coordinate>)
        ensures
            r is Some <==> path_col(self@) < u32::MAX,
            r is Some ==> r->0@ == path_sibling(
                self@,
                (path_row(self@), (path_col(self@) + 1) as u32),
            ),
    {
        let (row, col) = self.last();
        if col == u32::MAX {
            None
        } else {
            Some(self.with_last((row, col + 1)))
        }
    }

    /// The cell one column to the left in the same grid; none in column 1.
    pub fn neighbor_left(&self) -> (r: Option<Coordinate>)
        ensures
            r is Some <==> path_col(self@) > 1,
            r is Some ==> r->0@ == path_sibling(
                self@,
                (path_row(self@), (path_col(self@) - 1) as u32),
            ),
    {
        let (row, col) = self.last();
        if col == 1 {
            None
        } else {
            Some(self.with_last((row, col - 1)))
        }
    }

    /// The cell one row up in the same grid; none in row 1.
    pub fn neighbor_above(&self) -> (r: Option<Coordinate>)
        ensures
            r is Some <==> path_row(self@) > 1,
            r is Some ==> r->0@ == path_sibling(
                self@,
                ((path_row(self@) - 1) as u32, path_col(self@)),
            ),
    {
        let (row, col) = self.last();
        if row == 1 {
            None
        } else {
            Some(self.with_last((row - 1, col)))
        }
    }

    /// The cell one row down in the same grid; none only where the row
    /// index cannot grow.
    pub fn neighbor_below(&self) -> (r: Option<Coordinate>)
        ensures
            r is Some <==> path_row(self@) < u32::MAX,
            r is Some ==> r->0@ == path_sibling(
                self@,
                ((path_row(self@) + 1) as u32, path_col(self@)),
            ),
    {
        let (row, col) = self.last();
        if row == u32::MAX {
            None
        } else {
            Some(self.with_last((row + 1, col)))
        }
    }

    /// Whether the address is the document root.
    pub fn is_root(&self) -> (r: bool)
        ensures
            r == (self@ == root_path()),
    {
        let r = self.row_cols.len() == 1 && self.row_cols[0].0 == 1 && self.row_cols[0].1 == 1;
        assert(r ==> self@ =~= root_path());
        r
    }

    /// Whether the address is the root of definitions.
    pub fn is_meta(&self) -> (r: bool)
        ensures
            r == (self@ == meta_path()),
    {
        let r = self.row_cols.len() == 1 && self.row_cols[0].0 == 1 && self.row_cols[0].1 == 2;
        assert(r ==> self@ =~= meta_path());
        r
    }
}

impl PartialEq for Coordinate {
    fn eq(&self, other: &Coordinate) -> (r: bool) {
        same_pairs(&self.row_cols, &other.row_cols)
    }
}

impl PartialEqSpecImpl for Coordinate {
    open spec fn obeys_eq_spec() -> bool {
        true
    }

    open spec fn eq_spec(&self, other: &Coordinate) -> bool {
        self@ == other@
    }
}

impl Row {
    /// The band of row `index` in the grid with the pairs `prefix`.
    pub fn new(prefix: Vec<(u32, u32)>, index: u32) -> (r: Row)
        ensures
            r@ == (prefix@, index),
    {
        Row { prefix, index }
    }

    /// The pairs of the grid that the band lies in.
    pub fn prefix(&self) -> (p: Vec<(u32, u32)>)
        ensures
            p@ == self@.0,
    {
        copy_pairs(&self.prefix, self.prefix.len())
    }

    /// The index of the band in its grid.
    pub fn index(&self) -> (i: u32)
        ensures
            i == self@.1,
    {
        self.index
    }

    /// The band of row `index` in the grid at `parent`.
    pub fn of(parent: &Coordinate, index: u32) -> (r: Row)
        ensures
            r@ == (parent@, index),
    {
        Row { prefix: copy_pairs(&parent.row_cols, parent.row_cols.len()), index }
    }
}

impl Col {
    /// The band of column `index` in the grid with the pairs `prefix`.
    pub fn new(prefix: Vec<(u32, u32)>, index: u32) -> (c: Col)
        ensures
            c@ == (prefix@, index),
    {
        Col { prefix, index }
    }

    /// The pairs of the grid that the band lies in.
    pub fn prefix(&self) -> (p: Vec<(u32, u32)>)
        ensures
            p@ == self@.0,
    {
        copy_pairs(&self.prefix, self.prefix.len())
    }

    /// The index of the band in its grid.
    pub fn index(&self) -> (i: u32)
        ensures
            i == self@.1,
    {
        self.index
    }

    /// The band of column `index` in the grid at `parent`.
    pub fn of(parent: &Coordinate, index: u32) -> (c: Col)
        ensures
            c@ == (parent@, index),
    {
        Col { prefix: copy_pairs(&parent.row_cols, parent.row_cols.len()), index }
    }
}

impl PartialEq for Row {
    fn eq(&self, other: &Row) -> (r: bool) {
        self.index == other.index && same_pairs(&self.prefix, &other.prefix)
    }
}

impl PartialEqSpecImpl for Row {
    open spec fn obeys_eq_spec() -> bool {
        true
    }

    open spec fn eq_spec(&self, other: &Row) -> bool {
        self@ == other@
    }
}

impl Clone for Row {
    fn clone(&self) -> (r: Row)
        ensures
            r@ == self@,
    {
        Row { prefix: copy_pairs(&self.prefix, self.prefix.len()), index: self.index }
    }
}

impl PartialEq for Col {
    fn eq(&self, other: &Col) -> (r: bool) {
        self.index == other.index && same_pairs(&self.prefix, &other.prefix)
    }
}

impl PartialEqSpecImpl for Col {
    open spec fn obeys_eq_spec() -> bool {
        true
    }

    open spec fn eq_spec(&self, other: &Col) -> bool {
        self@ == other@
    }
}

impl Clone for Col {
    fn clone(&self) -> (r: Col)
        ensures
            r@ == self@,
    {
        Col { prefix: copy_pairs(&self.prefix, self.prefix.len()), index: self.index }
    }
}

impl Key for Coordinate {
    open spec fn legal(k: Path) -> bool {
        valid_path(k)
    }

    fn same_key(&self, other: &Coordinate) -> (r: bool) {
        same_pairs(&self.row_cols, &other.row_cols)
    }

    fn witness(&self) {
        proof {
            use_type_invariant(self);
        }
    }
}

impl Key for Row {
    open spec fn legal(k: (Path, u32)) -> bool {
        true
    }

    fn same_key(&self, other: &Row) -> (r: bool) {
        self.index == other.index && same_pairs(&self.prefix, &other.prefix)
    }

    fn witness(&self) {
    }
}

impl Key for Col {
    open spec fn legal(k: (Path, u32)) -> bool {
        true
    }

    fn same_key(&self, other: &Col) -> (r: bool) {
        self.index == other.index && same_pairs(&self.prefix, &other.prefix)
    }

    fn witness(&self) {
    }
}

/// Every address below the top level has a parent, which is an address one
/// pair shorter.
pub proof fn parent_is_one_shorter(k: Path)
    requires
        valid_path(k),
        k.len() > 1,
    ensures
        path_parent(k) is Some,
        valid_path(path_parent(k)->0),
        path_parent(k)->0.len() == k.len() - 1,
{
}

/// A cell's parent is the grid it was addressed in, and its last pair is the
/// pair it was addressed by.
pub proof fn child_inverts(p: Path, rc: (u32, u32))
    requires
        valid_path(p),
        valid_pair(rc),
    ensures
        valid_path(path_child(p, rc)),
        path_parent(path_child(p, rc)) == Some(p),
        path_child(p, rc).last() == rc,
        path_full_row(path_child(p, rc)) == (p, rc.0),
        path_full_col(path_child(p, rc)) == (p, rc.1),
{
    assert(path_child(p, rc).drop_last() =~= p);
}

/// A neighbour lies in the same grid: it has the same parent, and differs
/// from the cell exactly where its last pair does.
pub proof fn sibling_shares_parent(p: Path, rc: (u32, u32))
    requires
        valid_path(p),
        valid_pair(rc),
    ensures
        valid_path(path_sibling(p, rc)),
        path_sibling(p, rc).len() == p.len(),
        path_parent(path_sibling(p, rc)) == path_parent(p),
        path_sibling(p, rc).last() == rc,
        (path_sibling(p, rc) == p) == (rc == p.last()),
{
    assert(path_sibling(p, rc).drop_last() =~= p.drop_last());
    if rc == p.last() {
        assert(path_sibling(p, rc) =~= p);
    }
}

impl Clone for Coordinate {
    fn clone(&self) -> (r: Coordinate)
        ensures
            r@ == self@,
    {
        proof {
            use_type_invariant(self);
        }
        Coordinate { row_cols: copy_pairs(&self.row_cols, self.row_cols.len()) }
    }
}

} // verus!
