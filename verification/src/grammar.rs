//! Grammar nodes: what a cell of the document holds.

use crate::coordinate::{copy_pairs, same_pairs, Col, Coordinate, Path, Row};
use vstd::prelude::*;
use vstd::std_specs::cmp::PartialEqSpecImpl;

verus! {

/// The height that a row has unless it was given another.
pub const DEFAULT_ROW_HEIGHT: u64 = 30;

/// The width that a column has unless it was given another.
pub const DEFAULT_COL_WIDTH: u64 = 90;

/// How a cell is presented. The document carries it and never reads it.
#[derive(Debug)]
pub struct Style {
    pub width: u64,
    pub height: u64,
    pub border_color: String,
    pub border_collapse: bool,
    pub font_weight: u32,
    pub font_color: String,
    pub display: bool,
}

/// The model of a presentation.
pub struct StyleView {
    pub width: u64,
    pub height: u64,
    pub border_color: Seq<char>,
    pub border_collapse: bool,
    pub font_weight: u32,
    pub font_color: Seq<char>,
    pub display: bool,
}

impl StyleView {
    /// The presentation of a fresh cell.
    pub open spec fn baseline() -> StyleView {
        StyleView {
            width: DEFAULT_COL_WIDTH,
            height: DEFAULT_ROW_HEIGHT,
            border_color: "grey"@,
            border_collapse: false,
            font_weight: 400,
            font_color: "black"@,
            display: true,
        }
    }
}

impl View for Style {
    type V = StyleView;

    open spec fn view(&self) -> StyleView {
        StyleView {
            width: self.width,
            height: self.height,
            border_color: self.border_color@,
            border_collapse: self.border_collapse,
            font_weight: self.font_weight,
            font_color: self.font_color@,
            display: self.display,
        }
    }
}

impl Default for Style {
    fn default() -> (r: Style)
        ensures
            r@ == StyleView::baseline(),
    {
        Style {
            width: DEFAULT_COL_WIDTH,
            height: DEFAULT_ROW_HEIGHT,
            border_color: "grey".to_owned(),
            border_collapse: false,
            font_weight: 400,
            font_color: "black".to_owned(),
            display: true,
        }
    }
}

impl Clone for Style {
    fn clone(&self) -> (r: Style)
        ensures
            r@ == self@,
    {
        Style {
            width: self.width,
            height: self.height,
            border_color: self.border_color.clone(),
            border_collapse: self.border_collapse,
            font_weight: self.font_weight,
            font_color: self.font_color.clone(),
            display: self.display,
        }
    }
}

impl PartialEq for Style {
    fn eq(&self, other: &Style) -> (r: bool) {
        self.width == other.width && self.height == other.height && self.border_color
            == other.border_color && self.border_collapse == other.border_collapse
            && self.font_weight == other.font_weight && self.font_color == other.font_color
            && self.display == other.display
    }
}

impl PartialEqSpecImpl for Style {
    open spec fn obeys_eq_spec() -> bool {
        true
    }

    open spec fn eq_spec(&self, other: &Style) -> bool {
        self@ == other@
    }
}

/// What a lookup has been resolved to.
#[derive(Debug)]
pub enum Lookup {
    Cell(Coordinate),
    Row(Row),
    Col(Col),
}

/// The model of what a lookup was resolved to.
pub enum LookupView {
    Cell(Path),
    Row((Path, u32)),
    Col((Path, u32)),
}

impl View for Lookup {
    type V = LookupView;

    open spec fn view(&self) -> LookupView {
        match self {
            Lookup::Cell(c) => LookupView::Cell(c@),
            Lookup::Row(r) => LookupView::Row(r@),
            Lookup::Col(c) => LookupView::Col(c@),
        }
    }
}

impl Clone for Lookup {
    fn clone(&self) -> (r: Lookup)
        ensures
            r@ == self@,
    {
        match self {
            Lookup::Cell(c) => Lookup::Cell(c.clone()),
            Lookup::Row(r) => Lookup::Row(r.clone()),
            Lookup::Col(c) => Lookup::Col(c.clone()),
        }
    }
}

impl PartialEq for Lookup {
    fn eq(&self, other: &Lookup) -> (r: bool) {
        match (self, other) {
            (Lookup::Cell(a), Lookup::Cell(b)) => a == b,
            (Lookup::Row(a), Lookup::Row(b)) => a == b,
            (Lookup::Col(a), Lookup::Col(b)) => a == b,
            _ => false,
        }
    }
}

impl PartialEqSpecImpl for Lookup {
    open spec fn obeys_eq_spec() -> bool {
        true
    }

    open spec fn eq_spec(&self, other: &Lookup) -> bool {
        self@ == other@
    }
}

/// The kinds of grammar node.
#[derive(Debug)]
pub enum Kind {
    /// A leaf that holds literal text.
    Input(String),
    /// A leaf that refers to another cell by a query, and what the query
    /// was resolved to.
    Lookup(String, Option<Lookup>),
    /// An inner node: the `(row, col)` pairs of its cells.
    Grid(Vec<(u32, u32)>),
    /// A definition: its label, the address it belongs to, and its named
    /// rules with the address of each rule's template.
    Defn(String, Coordinate, Vec<(String, Coordinate)>),
}

/// The model of the kind of a node.
pub enum KindView {
    Input(Seq<char>),
    Lookup(Seq<char>, Option<LookupView>),
    Grid(Seq<(u32, u32)>),
    Defn(Seq<char>, Path, Seq<(Seq<char>, Path)>),
}

/// The model of the rules of a definition.
pub open spec fn rules_view(rules: Seq<(String, Coordinate)>) -> Seq<(Seq<char>, Path)> {
    Seq::new(rules.len(), |i: int| (rules[i].0@, rules[i].1@))
}

/// The model of a resolved, or unresolved, lookup.
pub open spec fn target_view(target: Option<Lookup>) -> Option<LookupView> {
    match target {
        Some(t) => Some(t@),
        None => None,
    }
}

impl View for Kind {
    type V = KindView;

    open spec fn view(&self) -> KindView {
        match self {
            Kind::Input(value) => KindView::Input(value@),
            Kind::Lookup(query, target) => KindView::Lookup(query@, target_view(*target)),
            Kind::Grid(cells) => KindView::Grid(cells@),
            Kind::Defn(label, owner, rules) => KindView::Defn(label@, owner@, rules_view(rules@)),
        }
    }
}

pub(crate) fn copy_rules(rules: &Vec<(String, Coordinate)>) -> (r: Vec<(String, Coordinate)>)
    ensures
        rules_view(r@) == rules_view(rules@),
{
    let mut out: Vec<(String, Coordinate)> = Vec::new();
    let mut i: usize = 0;
    while i < rules.len()
        invariant
            i <= rules.len(),
            out@.len() == i,
            forall|j: int|
                0 <= j < i ==> (#[trigger] out@[j]).0@ == rules@[j].0@ && out@[j].1@
                    == rules@[j].1@,
        decreases rules.len() - i,
    {
        out.push((rules[i].0.clone(), rules[i].1.clone()));
        i += 1;
    }
    assert(rules_view(out@) =~= rules_view(rules@));
    out
}

fn same_rules(a: &Vec<(String, Coordinate)>, b: &Vec<(String, Coordinate)>) -> (r: bool)
    ensures
        r == (rules_view(a@) == rules_view(b@)),
{
    if a.len() != b.len() {
        assert(rules_view(a@).len() != rules_view(b@).len());
        return false;
    }
    let mut i: usize = 0;
    while i < a.len()
        invariant
            i <= a.len(),
            a.len() == b.len(),
            forall|j: int| 0 <= j < i ==> #[trigger] rules_view(a@)[j] == rules_view(b@)[j],
        decreases a.len() - i,
    {
        if !(a[i].0 == b[i].0 && a[i].1 == b[i].1) {
            assert(rules_view(a@)[i as int] != rules_view(b@)[i as int]);
            return false;
        }
        i += 1;
    }
    assert(rules_view(a@) =~= rules_view(b@));
    true
}

impl Clone for Kind {
    fn clone(&self) -> (r: Kind)
        ensures
            r@ == self@,
    {
        match self {
            Kind::Input(value) => Kind::Input(value.clone()),
            Kind::Lookup(query, target) => {
                let copy = match target {
                    Some(t) => Some(t.clone()),
                    None => None,
                };
                Kind::Lookup(query.clone(), copy)
            },
            Kind::Grid(cells) => {
                assert(cells@.take(cells.len() as int) =~= cells@);
                Kind::Grid(copy_pairs(cells, cells.len()))
            },
            Kind::Defn(label, owner, rules) => Kind::Defn(
                label.clone(),
                owner.clone(),
                copy_rules(rules),
            ),
        }
    }
}

impl PartialEq for Kind {
    fn eq(&self, other: &Kind) -> (r: bool) {
        match (self, other) {
            (Kind::Input(a), Kind::Input(b)) => *a == *b,
            (Kind::Lookup(q1, t1), Kind::Lookup(q2, t2)) => {
                let same_target = match (t1, t2) {
                    (Some(x), Some(y)) => x == y,
                    (None, None) => true,
                    _ => false,
                };
                *q1 == *q2 && same_target
            },
            (Kind::Grid(a), Kind::Grid(b)) => same_pairs(a, b),
            (Kind::Defn(l1, o1, r1), Kind::Defn(l2, o2, r2)) => *l1 == *l2 && o1 == o2
                && same_rules(r1, r2),
            _ => false,
        }
    }
}

impl PartialEqSpecImpl for Kind {
    open spec fn obeys_eq_spec() -> bool {
        true
    }

    open spec fn eq_spec(&self, other: &Kind) -> bool {
        self@ == other@
    }
}

/// A grammar node: the content of one cell.
#[derive(Debug)]
pub struct Grammar {
    pub name: String,
    pub style: Style,
    pub kind: Kind,
}

/// The model of a grammar node.
pub struct GrammarView {
    pub name: Seq<char>,
    pub style: StyleView,
    pub kind: KindView,
}

impl View for Grammar {
    type V = GrammarView;

    open spec fn view(&self) -> GrammarView {
        GrammarView { name: self.name@, style: self.style@, kind: self.kind@ }
    }
}

/// The cells of row `r` in a grid of `cols` columns, left to right.
pub open spec fn row_cells(r: u32, cols: nat) -> Seq<(u32, u32)> {
    Seq::new(cols, |j: int| (r, (j + 1) as u32))
}

/// The cells of a grid of `rows` rows and `cols` columns, row by row.
pub open spec fn grid_cells(rows: nat, cols: nat) -> Seq<(u32, u32)>
    decreases rows,
{
    if rows == 0 {
        Seq::empty()
    } else {
        grid_cells((rows - 1) as nat, cols) + row_cells(rows as u32, cols)
    }
}

impl GrammarView {
    /// The leaf that a fresh cell holds: an input without text.
    pub open spec fn leaf() -> GrammarView {
        GrammarView {
            name: Seq::empty(),
            style: StyleView::baseline(),
            kind: KindView::Input(Seq::empty()),
        }
    }

    /// A named leaf that holds the text `value`.
    pub open spec fn text(name: Seq<char>, value: Seq<char>) -> GrammarView {
        GrammarView { name, style: StyleView::baseline(), kind: KindView::Input(value) }
    }

    /// A grid node of `rows` rows and `cols` columns.
    pub open spec fn grid(rows: nat, cols: nat) -> GrammarView {
        GrammarView {
            name: Seq::empty(),
            style: StyleView::baseline(),
            kind: KindView::Grid(grid_cells(rows, cols)),
        }
    }
}

impl Default for Grammar {
    fn default() -> (r: Grammar)
        ensures
            r@ == GrammarView::leaf(),
    {
        Grammar { name: String::new(), style: Style::default(), kind: Kind::Input(String::new()) }
    }
}

impl Clone for Grammar {
    fn clone(&self) -> (r: Grammar)
        ensures
            r@ == self@,
    {
        Grammar { name: self.name.clone(), style: self.style.clone(), kind: self.kind.clone() }
    }
}

impl PartialEq for Grammar {
    fn eq(&self, other: &Grammar) -> (r: bool) {
        self.name == other.name && self.style == other.style && self.kind == other.kind
    }
}

impl PartialEqSpecImpl for Grammar {
    open spec fn obeys_eq_spec() -> bool {
        true
    }

    open spec fn eq_spec(&self, other: &Grammar) -> bool {
        self@ == other@
    }
}

impl Grammar {
    /// A named leaf that holds the text `value`.
    pub fn text(name: String, value: String) -> (r: Grammar)
        ensures
            r@ == GrammarView::text(name@, value@),
    {
        Grammar { name, style: Style::default(), kind: Kind::Input(value) }
    }

    /// A grid node whose cells are all pairs of a row from 1 to `rows` and
    /// a column from 1 to `cols`, row by row.
    pub fn as_grid(rows: u32, cols: u32) -> (r: Grammar)
        ensures
            r@ == GrammarView::grid(rows as nat, cols as nat),
    {
        Grammar {
            name: String::new(),
            style: Style::default(),
            kind: Kind::Grid(grid_pairs(rows, cols)),
        }
    }
}

/// All pairs of a row from 1 to `rows` and a column from 1 to `cols`, row
/// by row.
pub fn grid_pairs(rows: u32, cols: u32) -> (cells: Vec<(u32, u32)>)
    ensures
        cells@ == grid_cells(rows as nat, cols as nat),
{
    let mut cells: Vec<(u32, u32)> = Vec::new();
    let mut r: u32 = 0;
    while r < rows
        invariant
            r <= rows,
            cells@ == grid_cells(r as nat, cols as nat),
        decreases rows - r,
    {
        let ghost base = cells@;
        let mut c: u32 = 0;
        assert(base + row_cells((r + 1) as u32, 0) =~= base);
        while c < cols
            invariant
                c <= cols,
                r < rows,
                cells@ == base + row_cells((r + 1) as u32, c as nat),
            decreases cols - c,
        {
            cells.push((r + 1, c + 1));
            assert(cells@ =~= base + row_cells((r + 1) as u32, (c + 1) as nat));
            c += 1;
        }
        r += 1;
    }
    cells
}

} // verus!
