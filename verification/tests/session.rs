use metasheet::address::CoordinateParser;
use metasheet::coordinate::{Col, Coordinate, Row};
use metasheet::engine::Axis;
use metasheet::error::Error;
use metasheet::grammar::{Grammar, Kind, Lookup, Style};
use metasheet::session::Session;
use metasheet::table::Table;

fn c(text: &str) -> Coordinate {
    CoordinateParser::parse(text).unwrap()
}

fn blank() -> Session {
    Session::new("doc".to_string(), Grammar::default(), Grammar::default())
}

fn grid_kind(g: &Grammar) -> Vec<(u32, u32)> {
    match &g.kind {
        Kind::Grid(cells) => cells.clone(),
        other => panic!("no grid: {:?}", other),
    }
}

/// A document whose root is a grid of two rows and two columns, listed
/// column by column.
fn two_by_two() -> Session {
    let mut s = blank();
    s.put_grid(
        &Coordinate::root(),
        "root".to_string(),
        Style::default(),
        vec![(1, 1), (2, 1), (1, 2), (2, 2)],
    )
    .unwrap();
    s
}

fn keys(s: &Session) -> Vec<String> {
    (0..s.grammars.len()).map(|i| s.grammars.key_at(i).to_text()).collect()
}

#[test]
fn a_table_keeps_the_order_of_arrival() {
    let mut t: Table<Coordinate, u64> = Table::new();
    t.insert(c("root-B1"), 1);
    t.insert(c("root-A1"), 2);
    t.insert(c("root-B1"), 3);
    assert_eq!(t.len(), 2);
    assert_eq!(t.key_at(0), &c("root-B1"));
    assert_eq!(t.key_at(1), &c("root-A1"));
    assert_eq!(t.value_at(0), &3);
    assert_eq!(t.get(&c("root-A1")), Some(&2));
    assert_eq!(t.get(&c("root-C1")), None);
    assert!(t.contains_key(&c("root-B1")));
    assert_eq!(t.remove(&c("root-B1")), Some(3));
    assert_eq!(t.remove(&c("root-B1")), None);
    assert_eq!(t.len(), 1);
    assert_eq!(t.key_at(0), &c("root-A1"));
}

#[test]
fn a_new_document_holds_its_roots() {
    let s = blank();
    assert_eq!(keys(&s), vec!["root", "meta"]);
    assert_eq!(s.get(&Coordinate::root()), Some(&Grammar::default()));
    assert_eq!(s.get(&Coordinate::meta()), Some(&Grammar::default()));
    assert!(s.check());
    assert_eq!(s.title, "doc");
}

#[test]
fn default_leaf_is_an_empty_input() {
    let g = Grammar::default();
    assert_eq!(g.name, "");
    assert_eq!(g.kind, Kind::Input(String::new()));
    assert_eq!(g.style, Style::default());
    assert_eq!(g.style.width, 90);
    assert_eq!(g.style.height, 30);
}

#[test]
fn a_grid_lists_its_cells_row_by_row() {
    assert_eq!(grid_kind(&Grammar::as_grid(2, 3)), vec![(1, 1), (1, 2), (1, 3), (2, 1), (2, 2), (2, 3)]);
    assert_eq!(grid_kind(&Grammar::as_grid(1, 1)), vec![(1, 1)]);
    assert_eq!(grid_kind(&Grammar::as_grid(0, 3)), vec![]);
}

#[test]
fn text_leaf_holds_name_and_value() {
    let g = Grammar::text("n".to_string(), "v".to_string());
    assert_eq!(g.name, "n");
    assert_eq!(g.kind, Kind::Input("v".to_string()));
}

#[test]
fn grammars_compare_by_content() {
    let a = Grammar::text("n".to_string(), "v".to_string());
    assert_eq!(a.clone(), a);
    assert_ne!(a, Grammar::text("n".to_string(), "w".to_string()));
    assert_ne!(a, Grammar::text("m".to_string(), "v".to_string()));
    let l = Grammar {
        name: String::new(),
        style: Style::default(),
        kind: Kind::Lookup("q".to_string(), Some(Lookup::Cell(c("root-A1")))),
    };
    assert_eq!(l.clone(), l);
    let other = Grammar {
        name: String::new(),
        style: Style::default(),
        kind: Kind::Lookup("q".to_string(), Some(Lookup::Row(Row::of(&c("root"), 1)))),
    };
    assert_ne!(l, other);
    let col = Kind::Lookup("q".to_string(), Some(Lookup::Col(Col::of(&c("root"), 1))));
    assert_eq!(col.clone(), col);
    let d = Kind::Defn("d".to_string(), c("meta-A3"), vec![("r".to_string(), c("meta-A3-B1"))]);
    assert_eq!(d.clone(), d);
    assert_ne!(d, Kind::Defn("d".to_string(), c("meta-A3"), vec![]));
    assert_ne!(Grammar::as_grid(1, 2).kind, Grammar::as_grid(2, 1).kind);
}

#[test]
fn putting_a_root_keeps_the_root_node_in_step() {
    let mut s = blank();
    let g = Grammar::text("r".to_string(), "x".to_string());
    s.put(Coordinate::root(), g.clone());
    assert_eq!(s.root, g);
    assert_eq!(s.meta, Grammar::default());
    s.put(Coordinate::meta(), g.clone());
    assert_eq!(s.meta, g);
    assert!(s.check());
}

#[test]
fn put_grid_stores_a_leaf_for_every_cell() {
    let s = two_by_two();
    assert_eq!(keys(&s), vec!["root", "meta", "root-A1", "root-A2", "root-B1", "root-B2"]);
    assert_eq!(grid_kind(&s.root), vec![(1, 1), (2, 1), (1, 2), (2, 2)]);
    assert_eq!(s.get(&c("root-B2")), Some(&Grammar::default()));
    assert!(s.check());
}

#[test]
fn put_grid_refuses_a_zero_index() {
    let mut s = blank();
    let r = s.put_grid(&c("root"), "g".to_string(), Style::default(), vec![(1, 1), (0, 2)]);
    assert!(matches!(r, Err(Error::InvalidIndex)));
    assert_eq!(keys(&s), vec!["root", "meta"]);
    assert_eq!(s.root, Grammar::default());
}

#[test]
fn queries_keep_the_order_of_the_store() {
    let mut s = two_by_two();
    s.add_nested_grid(&c("root-A1"), 1, 2).unwrap();
    assert_eq!(
        s.children_of(&c("root")),
        vec![c("root-A1"), c("root-A2"), c("root-B1"), c("root-B2")]
    );
    assert_eq!(s.children_of(&c("root-A1")), vec![c("root-A1-A1"), c("root-A1-B1")]);
    assert_eq!(s.children_of(&c("root-B1")), vec![]);
    assert_eq!(s.row_members(&c("root-A2").full_row()), vec![c("root-A2"), c("root-B2")]);
    assert_eq!(s.column_members(&c("root-B1").full_col()), vec![c("root-B1"), c("root-B2")]);
    assert_eq!(s.column_members(&c("root-C1").full_col()), vec![]);
}

#[test]
fn band_queries_leave_the_top_level_out() {
    let s = two_by_two();
    assert_eq!(s.row_members(&c("root").full_row()), vec![]);
    assert_eq!(s.column_members(&c("root").full_col()), vec![]);
    assert_eq!(s.column_members(&c("meta").full_col()), vec![]);
}

#[test]
fn a_grid_without_its_cell_breaks_the_invariants() {
    let mut s = two_by_two();
    assert!(s.check());
    s.take(&c("root-B2"));
    assert!(!s.check());
}

#[test]
fn a_cell_without_its_parent_breaks_the_invariants() {
    let mut s = blank();
    s.put(c("root-A1-A1"), Grammar::default());
    assert!(!s.check());
    s.put(c("root-A1"), Grammar::default());
    assert!(s.check());
}

#[test]
fn a_stale_root_node_breaks_the_invariants() {
    let mut s = blank();
    s.root = Grammar::text("other".to_string(), String::new());
    assert!(!s.check());
    let mut t = blank();
    t.take(&Coordinate::meta());
    assert!(!t.check());
}

#[test]
fn a_grid_with_a_zero_index_breaks_the_invariants() {
    let mut s = blank();
    let g = Grammar { name: String::new(), style: Style::default(), kind: Kind::Grid(vec![(0, 1)]) };
    s.put(c("root"), g);
    assert!(!s.check());
}

#[test]
fn move_preserves_payload() {
    let mut s = two_by_two();
    let g = Grammar::text("moved".to_string(), "payload".to_string());
    s.put(c("root-A1"), g.clone());
    assert!(s.move_grammar(&c("root-A1"), c("root-C3")));
    assert_eq!(s.get(&c("root-C3")), Some(&g));
    assert_eq!(s.get(&c("root-A1")), None);
    assert_eq!(s.get(&c("root-B2")), Some(&Grammar::default()));
    assert_eq!(keys(&s), vec!["root", "meta", "root-A2", "root-B1", "root-B2", "root-C3"]);
}

#[test]
fn move_replaces_what_was_there() {
    let mut s = two_by_two();
    let g = Grammar::text("a".to_string(), "1".to_string());
    s.put(c("root-A1"), g.clone());
    s.put(c("root-B1"), Grammar::text("b".to_string(), "2".to_string()));
    assert!(s.move_grammar(&c("root-A1"), c("root-B1")));
    assert_eq!(s.get(&c("root-B1")), Some(&g));
    assert_eq!(s.grammars.len(), 5);
}

#[test]
fn move_from_nowhere_changes_nothing() {
    let mut s = two_by_two();
    let before = keys(&s);
    assert!(!s.move_grammar(&c("root-Z9"), c("root-A1")));
    assert_eq!(keys(&s), before);
    assert_eq!(s.get(&c("root-A1")), Some(&Grammar::default()));
}

#[test]
fn move_onto_itself_keeps_the_node() {
    let mut s = two_by_two();
    let g = Grammar::text("a".to_string(), "1".to_string());
    s.put(c("root-A1"), g.clone());
    assert!(s.move_grammar(&c("root-A1"), c("root-A1")));
    assert_eq!(s.get(&c("root-A1")), Some(&g));
    assert!(s.check());
}

#[test]
fn move_leaves_the_cells_below_behind() {
    let mut s = two_by_two();
    s.add_nested_grid(&c("root-A1"), 1, 1).unwrap();
    assert!(s.move_grammar(&c("root-A1"), c("root-C1")));
    assert!(s.contains(&c("root-A1-A1")));
    assert!(!s.contains(&c("root-C1-A1")));
    assert_eq!(grid_kind(s.get(&c("root-C1")).unwrap()), vec![(1, 1)]);
    assert!(!s.check());
}

#[test]
fn move_to_a_root_sets_the_root_node() {
    let mut s = two_by_two();
    let g = Grammar::text("a".to_string(), "1".to_string());
    s.put(c("root-B2"), g.clone());
    assert!(s.move_grammar(&c("root-B2"), c("meta")));
    assert_eq!(s.meta, g);
}

#[test]
fn insert_col_appends_to_the_last_column() {
    let mut s = two_by_two();
    let added = s.insert_col(&c("root-A1")).unwrap();
    assert_eq!(added, Some(vec![(1, 3), (2, 3)]));
    assert_eq!(grid_kind(&s.root), vec![(1, 1), (2, 1), (1, 2), (2, 2), (1, 3), (2, 3)]);
    assert_eq!(grid_kind(s.get(&c("root")).unwrap()), grid_kind(&s.root));
    assert_eq!(s.get(&c("root-C1")), Some(&Grammar::default()));
    assert_eq!(s.get(&c("root-C2")), Some(&Grammar::default()));
    assert_eq!(s.grammars.len(), 8);
    assert_eq!(s.root.name, "root");
    assert!(s.check());
}

#[test]
fn insert_row_appends_below_the_last_row() {
    let mut s = two_by_two();
    let marked = Grammar::text("keep".to_string(), "me".to_string());
    s.put(c("root-B1"), marked.clone());
    let added = s.insert_row(&c("root-B1")).unwrap();
    assert_eq!(added, Some(vec![(3, 1), (3, 2)]));
    assert_eq!(grid_kind(&s.root), vec![(1, 1), (2, 1), (1, 2), (2, 2), (3, 1), (3, 2)]);
    assert_eq!(
        keys(&s),
        vec!["root", "meta", "root-A1", "root-A2", "root-B1", "root-B2", "root-A3", "root-B3"]
    );
    assert_eq!(s.get(&c("root-B1")), Some(&marked));
    assert_eq!(s.get(&c("root-A1")), Some(&Grammar::default()));
    assert_eq!(s.get(&c("meta")), Some(&Grammar::default()));
    assert!(s.check());
}

#[test]
fn insert_stops_at_the_first_gap() {
    let mut s = two_by_two();
    s.put(c("root-A4"), Grammar::text("far".to_string(), String::new()));
    let added = s.insert_row(&c("root-A1")).unwrap();
    assert_eq!(added, Some(vec![(3, 1), (3, 2)]));
    assert!(s.contains(&c("root-A3")));
    assert_eq!(s.get(&c("root-A4")).unwrap().name, "far");
}

#[test]
fn insert_overwrites_a_cell_in_the_new_band() {
    let mut s = two_by_two();
    s.put(c("root-B3"), Grammar::text("old".to_string(), String::new()));
    let added = s.insert_row(&c("root-A1")).unwrap();
    assert_eq!(added, Some(vec![(3, 1), (3, 2)]));
    assert_eq!(s.get(&c("root-B3")), Some(&Grammar::default()));
}

#[test]
fn insert_at_the_top_level_changes_nothing() {
    let mut s = two_by_two();
    let before = keys(&s);
    assert_eq!(s.insert_row(&c("root")).unwrap(), None);
    assert_eq!(s.insert_col(&c("meta")).unwrap(), None);
    assert_eq!(keys(&s), before);
}

#[test]
fn insert_under_a_leaf_changes_nothing() {
    let mut s = two_by_two();
    let before = keys(&s);
    assert_eq!(s.insert_row(&c("root-A1-A1")).unwrap(), None);
    assert_eq!(s.insert_col(&c("root-D4-A1")).unwrap(), None);
    assert_eq!(keys(&s), before);
}

#[test]
fn insert_beyond_the_largest_index_is_refused() {
    let mut s = blank();
    s.put_grid(&c("root"), "r".to_string(), Style::default(), vec![(u32::MAX, 1), (1, u32::MAX)])
        .unwrap();
    let before = keys(&s);
    let low = Coordinate::new(vec![(1, 1), (u32::MAX, 1)]).unwrap();
    let right = Coordinate::new(vec![(1, 1), (1, u32::MAX)]).unwrap();
    assert!(matches!(s.insert_row(&low), Err(Error::InvalidIndex)));
    assert!(matches!(s.insert_col(&right), Err(Error::InvalidIndex)));
    assert_eq!(keys(&s), before);
    assert_eq!(s.insert_col(&low).unwrap(), Some(vec![(u32::MAX, 2)]));
}

#[test]
fn insert_with_an_unstored_active_cell() {
    let mut s = two_by_two();
    assert_eq!(s.insert_row(&c("root-E9")).unwrap(), Some(vec![]));
    assert_eq!(s.grammars.len(), 6);
    assert_eq!(grid_kind(&s.root), vec![(1, 1), (2, 1), (1, 2), (2, 2)]);
}

#[test]
fn nested_grid_creates_its_leaves() {
    let mut s = two_by_two();
    let first = s.add_nested_grid(&c("root-A1"), 2, 2).unwrap();
    assert_eq!(first, c("root-A1-A1"));
    assert_eq!(
        keys(&s),
        vec![
            "root", "meta", "root-A1", "root-A2", "root-B1", "root-B2", "root-A1-A1", "root-A1-B1",
            "root-A1-A2", "root-A1-B2"
        ]
    );
    for k in ["root-A1-A1", "root-A1-B1", "root-A1-A2", "root-A1-B2"] {
        assert_eq!(s.get(&c(k)), Some(&Grammar::default()));
    }
    assert_eq!(s.get(&c("root-A1")), Some(&Grammar::as_grid(2, 2)));
    assert!(s.check());
}

#[test]
fn nested_grid_gives_its_kind_to_the_parent() {
    let mut s = two_by_two();
    s.add_nested_grid(&c("root-A1"), 1, 3).unwrap();
    assert_eq!(grid_kind(&s.root), vec![(1, 1), (1, 2), (1, 3)]);
    assert_eq!(s.root.name, "root");
    assert_eq!(grid_kind(s.get(&c("root")).unwrap()), vec![(1, 1), (1, 2), (1, 3)]);
    assert!(!s.contains(&c("root-C1")));
    assert!(!s.check());
}

#[test]
fn nested_grid_at_a_root() {
    let mut s = blank();
    let first = s.add_nested_grid(&c("meta"), 2, 1).unwrap();
    assert_eq!(first, c("meta-A1"));
    assert_eq!(s.meta, Grammar::as_grid(2, 1));
    assert_eq!(s.root, Grammar::default());
    assert!(s.check());
}

#[test]
fn nested_grid_refuses_a_zero_count() {
    let mut s = two_by_two();
    let before = keys(&s);
    assert!(matches!(s.add_nested_grid(&c("root-A1"), 0, 2), Err(Error::InvalidIndex)));
    assert!(matches!(s.add_nested_grid(&c("root-A1"), 2, 0), Err(Error::InvalidIndex)));
    assert_eq!(keys(&s), before);
    assert_eq!(s.get(&c("root-A1")), Some(&Grammar::default()));
}

#[test]
fn toggle_switches_between_input_and_lookup() {
    let mut s = two_by_two();
    s.put(c("root-A1"), Grammar::text("n".to_string(), "text".to_string()));
    assert!(s.toggle_input_lookup(&c("root-A1")));
    let g = s.get(&c("root-A1")).unwrap();
    assert_eq!(g.kind, Kind::Lookup(String::new(), None));
    assert_eq!(g.name, "n");
    assert!(s.toggle_input_lookup(&c("root-A1")));
    assert_eq!(s.get(&c("root-A1")).unwrap().kind, Kind::Input(String::new()));
}

#[test]
fn toggle_leaves_other_nodes_alone() {
    let mut s = two_by_two();
    assert!(!s.toggle_input_lookup(&c("root")));
    assert!(!s.toggle_input_lookup(&c("root-Z1")));
    assert_eq!(grid_kind(&s.root), vec![(1, 1), (2, 1), (1, 2), (2, 2)]);
    assert_eq!(s.grammars.len(), 6);
}

#[test]
fn change_input_sets_text_or_query() {
    let mut s = two_by_two();
    assert!(s.change_input(&c("root-A1"), "hello".to_string()));
    assert_eq!(s.get(&c("root-A1")).unwrap().kind, Kind::Input("hello".to_string()));
    let target = Some(Lookup::Cell(c("root-B1")));
    s.put(
        c("root-A2"),
        Grammar {
            name: String::new(),
            style: Style::default(),
            kind: Kind::Lookup("old".to_string(), target.clone()),
        },
    );
    assert!(s.change_input(&c("root-A2"), "new".to_string()));
    assert_eq!(s.get(&c("root-A2")).unwrap().kind, Kind::Lookup("new".to_string(), target));
    assert!(!s.change_input(&c("root"), "x".to_string()));
    assert!(!s.change_input(&c("root-Q1"), "x".to_string()));
    assert!(!s.contains(&c("root-Q1")));
}

fn with_definition(rules: Vec<(String, Coordinate)>) -> Session {
    let mut s = two_by_two();
    s.add_nested_grid(&c("meta"), 3, 1).unwrap();
    s.put(
        c("meta-A3"),
        Grammar {
            name: "defn".to_string(),
            style: Style::default(),
            kind: Kind::Defn("d".to_string(), c("root-A1"), rules),
        },
    );
    s
}

#[test]
fn a_definition_is_applied_inside_its_owner() {
    let mut s = with_definition(vec![
        ("first".to_string(), c("meta-A1")),
        ("second".to_string(), c("meta-A2")),
    ]);
    s.put(c("meta-A1"), Grammar::text("t".to_string(), "one".to_string()));
    let mut wide = Style::default();
    wide.width = 300;
    s.put(c("meta-A2"), Grammar { name: "u".to_string(), style: wide.clone(), kind: Kind::Lookup("q".to_string(), None) });
    assert_eq!(s.apply_definition(&c("meta-A3")).unwrap(), 2);
    let one = s.get(&c("root-A1-A1")).unwrap();
    assert_eq!(one.name, "first");
    assert_eq!(one.kind, Kind::Input("one".to_string()));
    let two = s.get(&c("root-A1-A2")).unwrap();
    assert_eq!(two.name, "second");
    assert_eq!(two.style, wide);
    assert_eq!(two.kind, Kind::Lookup("q".to_string(), None));
    assert_eq!(s.get(&c("meta-A1")).unwrap().name, "t");
}

#[test]
fn a_definition_with_a_missing_rule_is_refused() {
    let mut s = with_definition(vec![
        ("first".to_string(), c("meta-A1")),
        ("gone".to_string(), c("meta-B7")),
        ("also".to_string(), c("meta-C7")),
    ]);
    let before = keys(&s);
    match s.apply_definition(&c("meta-A3")) {
        Err(Error::MissingCoordinate(at)) => assert_eq!(at, c("meta-B7")),
        other => panic!("{:?}", other),
    }
    assert_eq!(keys(&s), before);
    assert!(!s.contains(&c("root-A1-A1")));
}

#[test]
fn applying_where_nothing_is_stored_is_refused() {
    let mut s = two_by_two();
    match s.apply_definition(&c("meta-A3")) {
        Err(Error::MissingCoordinate(at)) => assert_eq!(at, c("meta-A3")),
        other => panic!("{:?}", other),
    }
}

#[test]
fn applying_what_is_no_definition_does_nothing() {
    let mut s = two_by_two();
    let before = keys(&s);
    assert_eq!(s.apply_definition(&c("root-A1")).unwrap(), 0);
    assert_eq!(s.apply_definition(&c("root")).unwrap(), 0);
    assert_eq!(keys(&s), before);
}

#[test]
fn a_definition_without_rules() {
    let mut s = with_definition(vec![]);
    let before = keys(&s);
    assert_eq!(s.apply_definition(&c("meta-A3")).unwrap(), 0);
    assert_eq!(keys(&s), before);
}

#[test]
fn a_copy_of_a_document_holds_the_same() {
    let mut s = two_by_two();
    s.put(c("root-A1"), Grammar::text("n".to_string(), "v".to_string()));
    let t = s.clone();
    assert_eq!(keys(&t), keys(&s));
    assert_eq!(t.get(&c("root-A1")), s.get(&c("root-A1")));
    assert_eq!(t.title, s.title);
    assert_eq!(t.root, s.root);
    assert_eq!(t.meta, s.meta);
    assert!(t.check());
}

#[test]
fn axis_is_a_plain_value() {
    let a = Axis::Rows;
    let b = a;
    assert!(matches!(a, Axis::Rows));
    assert!(matches!(b, Axis::Rows));
    assert!(matches!(Axis::Cols, Axis::Cols));
}

#[test]
fn a_document_is_read_from_its_entries() {
    let entries = vec![
        ("root".to_string(), Grammar::as_grid(1, 2)),
        ("meta".to_string(), Grammar::default()),
        ("root-b1".to_string(), Grammar::text("b".to_string(), "two".to_string())),
        ("root-A1".to_string(), Grammar::default()),
        ("root-B1".to_string(), Grammar::text("b".to_string(), "three".to_string())),
    ];
    let s = Session::from_entries(
        "t".to_string(),
        Grammar::as_grid(1, 2),
        Grammar::default(),
        &entries,
    )
    .unwrap();
    assert_eq!(keys(&s), vec!["root", "meta", "root-B1", "root-A1"]);
    assert_eq!(s.get(&c("root-B1")).unwrap().kind, Kind::Input("three".to_string()));
    assert_eq!(s.title, "t");
    assert!(s.check());
}

#[test]
fn entries_with_a_bad_address_are_refused() {
    let entries = vec![
        ("root".to_string(), Grammar::default()),
        ("root-A0".to_string(), Grammar::default()),
        ("nowhere".to_string(), Grammar::default()),
    ];
    let r = Session::from_entries("t".to_string(), Grammar::default(), Grammar::default(), &entries);
    match r {
        Err(Error::MalformedAddress(segment)) => assert_eq!(segment, "A0"),
        _ => panic!("a bad address was read"),
    }
}

#[test]
fn root_nodes_are_taken_as_given() {
    let entries = vec![("root".to_string(), Grammar::default())];
    let s = Session::from_entries(
        "t".to_string(),
        Grammar::text("other".to_string(), String::new()),
        Grammar::default(),
        &entries,
    )
    .unwrap();
    assert_eq!(s.root.name, "other");
    assert!(!s.check());
}

#[test]
fn entries_come_back_in_the_order_of_the_store() {
    let mut s = two_by_two();
    s.put(c("root-B1"), Grammar::text("n".to_string(), "v".to_string()));
    let entries = s.entries();
    let addresses: Vec<&str> = entries.iter().map(|e| e.0.as_str()).collect();
    assert_eq!(addresses, vec!["root", "meta", "root-A1", "root-A2", "root-B1", "root-B2"]);
    assert_eq!(entries[4].1, Grammar::text("n".to_string(), "v".to_string()));
    assert_eq!(entries[0].1, s.root);
    let back = Session::from_entries(s.title.clone(), s.root.clone(), s.meta.clone(), &entries)
        .unwrap();
    assert_eq!(keys(&back), keys(&s));
    assert_eq!(back.get(&c("root-B1")), s.get(&c("root-B1")));
    assert!(back.check());
}

#[test]
fn bands_are_made_of_a_prefix_and_an_index() {
    let r = Row::new(vec![(1, 1), (2, 2)], 7);
    assert_eq!(r.prefix(), vec![(1, 1), (2, 2)]);
    assert_eq!(r.index(), 7);
    assert_eq!(r, Row::of(&c("root-B2"), 7));
    assert_eq!(r, c("root-B2-C7").full_row());
    let col = Col::new(vec![(1, 2)], 3);
    assert_eq!(col.prefix(), vec![(1, 2)]);
    assert_eq!(col.index(), 3);
    assert_eq!(col, c("meta-C9").full_col());
    assert_eq!(c("root").full_row(), Row::new(vec![], 1));
    assert_eq!(c("meta").full_col(), Col::new(vec![], 2));
}
