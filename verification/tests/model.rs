use metasheet::address::CoordinateParser;
use metasheet::coordinate::{Col, Coordinate, Row};
use metasheet::error::Error;
use metasheet::grammar::{Grammar, Kind, Lookup, Style};
use metasheet::model::{Action, FileData, Model, Outcome, Pending, Request, Step};
use metasheet::session::Session;

fn c(text: &str) -> Coordinate {
    CoordinateParser::parse(text).unwrap()
}

fn keys(s: &Session) -> Vec<String> {
    (0..s.grammars.len()).map(|i| s.grammars.key_at(i).to_text()).collect()
}

fn grid_kind(g: &Grammar) -> Vec<(u32, u32)> {
    match &g.kind {
        Kind::Grid(cells) => cells.clone(),
        other => panic!("no grid: {:?}", other),
    }
}

fn height(m: &Model, at: &str) -> Option<u64> {
    m.row_heights.get(&c(at).full_row()).copied()
}

fn width(m: &Model, at: &str) -> Option<u64> {
    m.col_widths.get(&c(at).full_col()).copied()
}

fn quiet(step: &Step) -> bool {
    matches!(step.request, Request::Nothing)
}

#[test]
fn the_first_state_holds_the_example_document() {
    let m = Model::create();
    let s = m.get_session();
    assert_eq!(
        keys(s),
        vec![
            "root", "meta", "root-A1", "root-A2", "root-A3", "root-B1", "root-B2", "root-B3",
            "meta-A1", "meta-A2", "meta-A3", "meta-A3-A1", "meta-A3-B1", "meta-A3-B1-A1",
            "meta-A3-B1-A2", "meta-A3-B1-B1", "meta-A3-B1-B2"
        ]
    );
    assert_eq!(s.title, "my session");
    assert_eq!(s.root.name, "root");
    assert_eq!(grid_kind(&s.root), vec![(1, 1), (2, 1), (3, 1), (1, 2), (2, 2), (3, 2)]);
    assert_eq!(s.meta.name, "meta");
    assert_eq!(grid_kind(&s.meta), vec![(1, 1), (2, 1), (3, 1)]);
    assert_eq!(s.get(&c("root-B3")), Some(&Grammar::default()));
    assert_eq!(
        s.get(&c("meta-A1")),
        Some(&Grammar::text("js grammar".to_string(), "This is js".to_string()))
    );
    assert_eq!(
        s.get(&c("meta-A2")),
        Some(&Grammar::text("java grammar".to_string(), "This is java".to_string()))
    );
    let defn = s.get(&c("meta-A3")).unwrap();
    assert_eq!(defn.name, "defn");
    assert_eq!(
        defn.kind,
        Kind::Defn(String::new(), c("meta-A3"), vec![(String::new(), c("meta-A3-B1"))])
    );
    let rule = s.get(&c("meta-A3-B1")).unwrap();
    assert_eq!(rule.name, "root");
    assert_eq!(grid_kind(rule), vec![(1, 1), (2, 1), (1, 2), (2, 2)]);
    assert_eq!(
        s.get(&c("meta-A3-B1-A1")),
        Some(&Grammar::text(String::new(), "custom grammar".to_string()))
    );
    assert!(s.check());
}

#[test]
fn the_first_state_has_its_selection_and_menus() {
    let m = Model::create();
    assert_eq!(m.view_root, c("root"));
    assert_eq!(m.active_cell, Some(c("root-A1")));
    assert_eq!(m.first_select_cell, None);
    assert_eq!(m.last_select_cell, None);
    assert_eq!(m.suggestions, vec![c("meta-A1"), c("meta-A2"), c("meta-A3")]);
    assert!(m.select_grammar.is_empty());
    assert_eq!(m.sessions.len(), 1);
    assert_eq!(m.current_session_index, 0);
    assert_eq!(m.open_side_menu, None);
    assert!(m.tasks.is_empty());
    let names: Vec<&str> = m.side_menus.iter().map(|s| s.name.as_str()).collect();
    assert_eq!(names, vec!["Home", "File Explorer", "Settings", "Info"]);
    assert_eq!(m.side_menus[1].icon_path, "assets/folder_icon.png");
}

#[test]
fn the_first_state_has_a_size_for_every_band() {
    let m = Model::create();
    assert_eq!(width(&m, "root-A1"), Some(90));
    assert_eq!(width(&m, "root-B1"), Some(90));
    assert_eq!(width(&m, "meta-A1"), Some(180));
    assert_eq!(width(&m, "meta-A3-A1"), Some(90));
    assert_eq!(width(&m, "meta-A3-B1"), Some(180));
    assert_eq!(height(&m, "root-A1"), Some(30));
    assert_eq!(height(&m, "root-A3"), Some(30));
    assert_eq!(height(&m, "meta-A1"), Some(180));
    assert_eq!(height(&m, "meta-A2"), Some(30));
    assert_eq!(height(&m, "meta-A3-B1-B2"), Some(30));
    assert_eq!(width(&m, "meta-A3-B1-B2"), Some(90));
    let s = m.get_session();
    for k in keys(s) {
        if c(&k).depth() > 1 {
            assert!(height(&m, &k).is_some(), "{}", k);
            assert!(width(&m, &k).is_some(), "{}", k);
        }
    }
    assert_eq!(height(&m, "root"), None);
    assert_eq!(width(&m, "root-C1"), None);
}

#[test]
fn the_current_document_can_be_read_copied_and_changed() {
    let mut m = Model::create();
    m.get_session_mut().title = "renamed".to_string();
    assert_eq!(m.get_session().title, "renamed");
    let copy = m.to_session();
    m.get_session_mut().title = "again".to_string();
    assert_eq!(copy.title, "renamed");
    assert_eq!(keys(&copy), keys(m.get_session()));
}

#[test]
fn queries_ask_the_current_document() {
    let m = Model::create();
    assert_eq!(m.query_parent(&c("meta")), vec![c("meta-A1"), c("meta-A2"), c("meta-A3")]);
    assert_eq!(m.query_row(&Row::of(&c("root"), 2)), vec![c("root-A2"), c("root-B2")]);
    assert_eq!(
        m.query_col(&Col::of(&c("root"), 2)),
        vec![c("root-B1"), c("root-B2"), c("root-B3")]
    );
    assert_eq!(m.query_col(&Col::of(&c("root"), 3)), vec![]);
}

#[test]
fn noop_and_unfinished_actions_change_nothing() {
    let mut m = Model::create();
    for action in [
        Action::Noop,
        Action::SaveSession,
        Action::DefnUpdateName(c("meta-A3"), "n".to_string()),
        Action::DefnUpdateRule(c("meta-A3"), Row::of(&c("meta"), 1)),
        Action::DefnAddRule(c("meta-A3")),
    ] {
        let step = m.update(action);
        assert!(!step.render);
        assert!(matches!(step.outcome, Outcome::Unchanged));
        assert!(quiet(&step));
    }
    assert_eq!(m.get_session().grammars.len(), 17);
    assert_eq!(m.active_cell, Some(c("root-A1")));
}

#[test]
fn alert_asks_for_a_log_line() {
    let mut m = Model::create();
    let step = m.update(Action::Alert("look".to_string()));
    assert!(!step.render);
    assert!(matches!(step.request, Request::Log(ref s) if s == "look"));
}

#[test]
fn set_active_cell_starts_a_selection() {
    let mut m = Model::create();
    m.update(Action::SetSelectedCells(c("root-B2")));
    let step = m.update(Action::SetActiveCell(c("root-B1")));
    assert!(step.render);
    assert!(matches!(step.outcome, Outcome::Applied));
    assert_eq!(m.active_cell, Some(c("root-B1")));
    assert_eq!(m.first_select_cell, Some(c("root-B1")));
    assert_eq!(m.last_select_cell, None);
}

#[test]
fn set_selected_cells_ends_a_selection() {
    let mut m = Model::create();
    let step = m.update(Action::SetSelectedCells(c("root-B3")));
    assert!(step.render);
    assert_eq!(m.last_select_cell, Some(c("root-B3")));
    assert_eq!(m.active_cell, Some(c("root-A1")));
    assert_eq!(m.first_select_cell, None);
}

#[test]
fn set_active_menu_opens_and_closes() {
    let mut m = Model::create();
    assert!(m.update(Action::SetActiveMenu(Some(2))).render);
    assert_eq!(m.open_side_menu, Some(2));
    m.update(Action::SetActiveMenu(None));
    assert_eq!(m.open_side_menu, None);
}

#[test]
fn change_input_reaches_the_document() {
    let mut m = Model::create();
    let step = m.update(Action::ChangeInput(c("root-A2"), "typed".to_string()));
    assert!(step.render);
    assert!(matches!(step.outcome, Outcome::Applied));
    assert_eq!(m.get_session().get(&c("root-A2")).unwrap().kind, Kind::Input("typed".to_string()));
    let step = m.update(Action::ChangeInput(c("root"), "typed".to_string()));
    assert!(!step.render);
    assert!(matches!(step.outcome, Outcome::Unchanged));
    let step = m.update(Action::ChangeInput(c("root-Z9"), "typed".to_string()));
    assert!(matches!(step.outcome, Outcome::Unchanged));
    assert_eq!(m.get_session().grammars.len(), 17);
}

#[test]
fn toggle_lookup_reaches_the_document() {
    let mut m = Model::create();
    let step = m.update(Action::ToggleLookup(c("meta-A1")));
    assert!(step.render);
    assert!(matches!(step.outcome, Outcome::Applied));
    let g = m.get_session().get(&c("meta-A1")).unwrap();
    assert_eq!(g.kind, Kind::Lookup(String::new(), None));
    assert_eq!(g.name, "js grammar");
    let step = m.update(Action::ToggleLookup(c("meta")));
    assert!(step.render);
    assert!(matches!(step.outcome, Outcome::Unchanged));
}

#[test]
fn completion_moves_and_keeps_the_sizes() {
    let mut m = Model::create();
    let payload = m.get_session().get(&c("meta-A1")).unwrap().clone();
    let step = m.update(Action::DoCompletion(c("meta-A1"), c("root-B2")));
    assert!(step.render);
    assert!(matches!(step.outcome, Outcome::Applied));
    assert_eq!(m.get_session().get(&c("root-B2")), Some(&payload));
    assert_eq!(m.get_session().get(&c("meta-A1")), None);
    assert_eq!(height(&m, "root-B2"), Some(30));
    assert_eq!(width(&m, "root-B2"), Some(90));
    assert_eq!(m.row_heights.len(), 9);
}

#[test]
fn completion_without_sizes_fails() {
    let mut m = Model::create();
    let payload = m.get_session().get(&c("meta-A2")).unwrap().clone();
    let step = m.update(Action::DoCompletion(c("meta-A2"), c("root-C9")));
    assert!(step.render);
    match step.outcome {
        Outcome::Failed(Error::MissingCoordinate(at)) => assert_eq!(at, c("root-C9")),
        other => panic!("{:?}", other),
    }
    assert_eq!(m.get_session().get(&c("root-C9")), Some(&payload));
    assert_eq!(height(&m, "root-C9"), None);
}

#[test]
fn completion_from_nowhere() {
    let mut m = Model::create();
    let step = m.update(Action::DoCompletion(c("root-Z1"), c("root-A1")));
    assert!(matches!(step.outcome, Outcome::Unchanged));
    assert_eq!(m.get_session().get(&c("root-A1")), Some(&Grammar::default()));
}

#[test]
fn lookup_of_a_cell_moves_it() {
    let mut m = Model::create();
    let payload = m.get_session().get(&c("meta-A1")).unwrap().clone();
    let step = m.update(Action::Lookup(c("meta-A1"), Lookup::Cell(c("root-A3"))));
    assert!(step.render);
    assert!(matches!(step.outcome, Outcome::Applied));
    assert_eq!(m.get_session().get(&c("root-A3")), Some(&payload));
    assert!(!m.get_session().contains(&c("meta-A1")));
}

#[test]
fn lookup_of_a_band_does_nothing() {
    let mut m = Model::create();
    let step = m.update(Action::Lookup(c("meta-A1"), Lookup::Row(Row::of(&c("root"), 1))));
    assert!(!step.render);
    assert!(matches!(step.outcome, Outcome::Unchanged));
    let step = m.update(Action::Lookup(c("meta-Z1"), Lookup::Cell(c("root-A3"))));
    assert!(!step.render);
    assert!(matches!(step.outcome, Outcome::Unchanged));
    let step = m.update(Action::Lookup(c("meta-A1"), Lookup::Col(Col::of(&c("root"), 1))));
    assert!(matches!(step.outcome, Outcome::Unchanged));
    assert!(m.get_session().contains(&c("meta-A1")));
}

#[test]
fn nested_grid_on_a_leaf() {
    let mut m = Model::create();
    let step = m.update(Action::AddNestedGrid(c("root-B2"), (2, 2)));
    assert!(step.render);
    assert!(matches!(step.outcome, Outcome::Applied));
    assert_eq!(m.active_cell, Some(c("root-B2-A1")));
    let s = m.get_session();
    assert_eq!(s.grammars.len(), 21);
    assert_eq!(
        keys(s)[17..],
        ["root-B2-A1", "root-B2-B1", "root-B2-A2", "root-B2-B2"].map(String::from)
    );
    for k in ["root-B2-A1", "root-B2-B1", "root-B2-A2", "root-B2-B2"] {
        assert_eq!(s.get(&c(k)), Some(&Grammar::default()));
        assert_eq!(height(&m, k), Some(30));
        assert_eq!(width(&m, k), Some(90));
    }
    assert_eq!(s.get(&c("root-B2")), Some(&Grammar::as_grid(2, 2)));
    assert_eq!(height(&m, "root-B2"), Some(60));
    assert_eq!(width(&m, "root-B2"), Some(180));
    assert_eq!(height(&m, "root-A2"), Some(60));
    assert_eq!(width(&m, "root-B1"), Some(180));
}

#[test]
fn nested_grid_shares_a_larger_cell() {
    let mut m = Model::create();
    let step = m.update(Action::AddNestedGrid(c("meta-A1"), (3, 2)));
    assert!(matches!(step.outcome, Outcome::Applied));
    assert_eq!(height(&m, "meta-A1-A1"), Some(60));
    assert_eq!(height(&m, "meta-A1-A3"), Some(60));
    assert_eq!(width(&m, "meta-A1-A1"), Some(90));
    assert_eq!(width(&m, "meta-A1-B1"), Some(90));
    assert_eq!(height(&m, "meta-A1"), Some(90));
    assert_eq!(width(&m, "meta-A1"), Some(180));
}

#[test]
fn nested_grid_shares_in_whole_units() {
    let mut m = Model::create();
    m.resize(&c("root-A1"), 100, 100);
    m.update(Action::AddNestedGrid(c("root-A1"), (3, 7)));
    assert_eq!(height(&m, "root-A1-A1"), Some(33));
    assert_eq!(width(&m, "root-A1-A1"), Some(14));
    assert_eq!(height(&m, "root-A1"), Some(90));
    assert_eq!(width(&m, "root-A1"), Some(630));
}

#[test]
fn nested_grid_keeps_sizes_that_are_there() {
    let mut m = Model::create();
    m.resize(&c("root-A1-A1"), 77, 66);
    m.update(Action::AddNestedGrid(c("root-A1"), (2, 2)));
    assert_eq!(height(&m, "root-A1-A1"), Some(77));
    assert_eq!(width(&m, "root-A1-A1"), Some(66));
    assert_eq!(height(&m, "root-A1-B1"), Some(77));
    assert_eq!(height(&m, "root-A1-A2"), Some(30));
    assert_eq!(width(&m, "root-A1-B2"), Some(90));
}

#[test]
fn nested_grid_with_a_zero_count_is_refused() {
    let mut m = Model::create();
    let step = m.update(Action::AddNestedGrid(c("root-A1"), (0, 2)));
    assert!(!step.render);
    assert!(matches!(step.outcome, Outcome::Failed(Error::InvalidIndex)));
    assert_eq!(m.active_cell, Some(c("root-A1")));
    assert_eq!(m.get_session().grammars.len(), 17);
    assert_eq!(height(&m, "root-A1"), Some(30));
}

#[test]
fn insert_col_acts_on_the_active_cell() {
    let mut m = Model::create();
    let step = m.update(Action::InsertCol);
    assert!(step.render);
    assert!(matches!(step.outcome, Outcome::Applied));
    let s = m.get_session();
    assert_eq!(
        grid_kind(&s.root),
        vec![(1, 1), (2, 1), (3, 1), (1, 2), (2, 2), (3, 2), (1, 3), (2, 3), (3, 3)]
    );
    for k in ["root-C1", "root-C2", "root-C3"] {
        assert_eq!(s.get(&c(k)), Some(&Grammar::default()));
        assert_eq!(width(&m, k), Some(90));
        assert_eq!(height(&m, k), Some(30));
    }
    assert!(s.check());
}

#[test]
fn insert_row_acts_on_the_active_cell() {
    let mut m = Model::create();
    m.update(Action::SetActiveCell(c("meta-A3-B1-B1")));
    let step = m.update(Action::InsertRow);
    assert!(matches!(step.outcome, Outcome::Applied));
    let s = m.get_session();
    assert_eq!(
        grid_kind(s.get(&c("meta-A3-B1")).unwrap()),
        vec![(1, 1), (2, 1), (1, 2), (2, 2), (3, 1), (3, 2)]
    );
    assert_eq!(s.get(&c("meta-A3-B1")).unwrap().name, "root");
    assert_eq!(height(&m, "meta-A3-B1-A3"), Some(30));
    assert_eq!(s.grammars.len(), 19);
    assert_eq!(grid_kind(&s.root).len(), 6);
    assert!(s.check());
}

#[test]
fn insert_without_an_active_cell() {
    let mut m = Model::create();
    m.active_cell = None;
    let step = m.update(Action::InsertRow);
    assert!(step.render);
    assert!(matches!(step.outcome, Outcome::Unchanged));
    let step = m.update(Action::InsertCol);
    assert!(matches!(step.outcome, Outcome::Unchanged));
    assert_eq!(m.get_session().grammars.len(), 17);
}

#[test]
fn insert_at_a_root_does_nothing() {
    let mut m = Model::create();
    m.update(Action::SetActiveCell(c("root")));
    let step = m.update(Action::InsertRow);
    assert!(matches!(step.outcome, Outcome::Unchanged));
    assert_eq!(m.get_session().grammars.len(), 17);
    assert_eq!(m.row_heights.len(), 9);
}

#[test]
fn set_session_title_renames() {
    let mut m = Model::create();
    let step = m.update(Action::SetSessionTitle("notes".to_string()));
    assert!(step.render);
    assert_eq!(m.get_session().title, "notes");
    assert_eq!(m.get_session().grammars.len(), 17);
}

fn small_payload() -> Session {
    let mut s = Session::new("loaded".to_string(), Grammar::default(), Grammar::default());
    s.put_grid(&c("meta"), "m".to_string(), Style::default(), vec![(5, 4)]).unwrap();
    s
}

#[test]
fn load_session_replaces_the_document() {
    let mut m = Model::create();
    let step = m.update(Action::LoadSession(small_payload()));
    assert!(step.render);
    assert!(matches!(step.outcome, Outcome::Applied));
    let s = m.get_session();
    assert_eq!(keys(s), vec!["root", "meta", "meta-D5"]);
    assert_eq!(s.title, "my session");
    assert_eq!(s.root, Grammar::default());
    assert_eq!(grid_kind(&s.meta), vec![(5, 4)]);
    assert_eq!(height(&m, "meta-D5"), Some(30));
    assert_eq!(width(&m, "meta-D5"), Some(90));
    assert_eq!(width(&m, "meta-A1"), Some(180));
    assert!(s.check());
}

#[test]
fn load_session_refuses_a_missing_child() {
    let mut m = Model::create();
    m.update(Action::ChangeInput(c("root-A1"), "mine".to_string()));
    let mut payload = small_payload();
    payload.take(&c("meta-D5"));
    let step = m.update(Action::LoadSession(payload));
    assert!(!step.render);
    assert!(matches!(step.outcome, Outcome::Failed(Error::InvariantViolation)));
    let s = m.get_session();
    assert_eq!(s.grammars.len(), 17);
    assert_eq!(s.get(&c("root-A1")).unwrap().kind, Kind::Input("mine".to_string()));
    assert_eq!(s.root.name, "root");
    assert_eq!(m.row_heights.len(), 9);
    assert_eq!(height(&m, "meta-D5"), None);
}

#[test]
fn load_session_refuses_an_orphan() {
    let mut m = Model::create();
    let mut payload = small_payload();
    payload.put(c("root-A1-A1"), Grammar::default());
    let outcome = m.load_session(payload);
    assert!(matches!(outcome, Outcome::Failed(Error::InvariantViolation)));
    assert_eq!(m.get_session().grammars.len(), 17);
}

#[test]
fn read_session_registers_a_pending_read() {
    let mut m = Model::create();
    let step = m.update(Action::ReadSession("doc.json".to_string()));
    assert!(!step.render);
    assert!(matches!(step.request, Request::ReadSession(ref name) if name == "doc.json"));
    assert_eq!(m.tasks.len(), 1);
    assert!(matches!(m.tasks[0], Pending::Session(ref name) if name == "doc.json"));
    assert_eq!(m.get_session().grammars.len(), 17);
}

#[test]
fn read_driver_files_finds_the_main_file() {
    let mut m = Model::create();
    let paths = vec!["d/a.css".to_string(), "d/d.js".to_string(), "d/b.js".to_string()];
    let step = m.update(Action::ReadDriverFiles(paths));
    assert!(!step.render);
    assert!(matches!(step.outcome, Outcome::Applied));
    match step.request {
        Request::ReadDriverFiles { main, misc } => {
            assert_eq!(main, 1);
            assert_eq!(misc, vec![0, 2]);
        },
        other => panic!("{:?}", other),
    }
    assert_eq!(m.tasks.len(), 3);
    assert!(matches!(m.tasks[0], Pending::DriverMisc(ref p) if p == "d/a.css"));
    assert!(matches!(m.tasks[1], Pending::DriverMisc(ref p) if p == "d/b.js"));
    assert!(matches!(m.tasks[2], Pending::DriverMain(ref p) if p == "d/d.js"));
}

#[test]
fn read_driver_files_refuses_a_directory_without_main_file() {
    let mut m = Model::create();
    let step = m.update(Action::ReadDriverFiles(vec!["d/a.css".to_string()]));
    assert!(!step.render);
    assert!(matches!(step.outcome, Outcome::Failed(Error::MalformedDriver)));
    assert!(quiet(&step));
    assert!(m.tasks.is_empty());
}

#[test]
fn driver_files_are_handed_on() {
    let mut m = Model::create();
    let data = || FileData { name: "d.js".to_string(), content: vec![1, 2, 3] };
    let step = m.update(Action::UploadDriverMiscFile(data()));
    assert!(!step.render);
    assert!(
        matches!(step.request, Request::UploadDriverMiscFile(ref f) if f.name == "d.js" && f.content == vec![1, 2, 3])
    );
    let step = m.update(Action::LoadDriverMainFile(data()));
    assert!(step.render);
    assert!(
        matches!(step.request, Request::LoadDriverMainFile(ref f) if f.name == "d.js" && f.content == vec![1, 2, 3])
    );
    assert!(m.tasks.is_empty());
    assert_eq!(m.get_session().grammars.len(), 17);
}

#[test]
fn resize_overwrites_and_is_idempotent() {
    let mut m = Model::create();
    m.resize(&c("root-A1"), 45, 120);
    assert_eq!(height(&m, "root-A1"), Some(45));
    assert_eq!(width(&m, "root-A1"), Some(120));
    assert_eq!(height(&m, "root-B1"), Some(45));
    assert_eq!(width(&m, "root-A2"), Some(120));
    assert_eq!(width(&m, "root-B1"), Some(90));
    let rows = m.row_heights.len();
    let cols = m.col_widths.len();
    m.resize(&c("root-A1"), 45, 120);
    assert_eq!(height(&m, "root-A1"), Some(45));
    assert_eq!(width(&m, "root-A1"), Some(120));
    assert_eq!(m.row_heights.len(), rows);
    assert_eq!(m.col_widths.len(), cols);
}

#[test]
fn resize_of_a_root_keys_the_top_level() {
    let mut m = Model::create();
    m.resize(&c("root"), 500, 900);
    assert_eq!(height(&m, "root"), Some(500));
    assert_eq!(width(&m, "root"), Some(900));
    assert_eq!(height(&m, "meta"), Some(500));
    assert_eq!(width(&m, "meta"), None);
    assert_eq!(height(&m, "root-A1"), Some(30));
}
