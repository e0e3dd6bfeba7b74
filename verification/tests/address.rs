use metasheet::address::CoordinateParser;
use metasheet::coordinate::Coordinate;
use metasheet::error::Error;

fn coord(text: &str) -> Coordinate {
    CoordinateParser::parse(text).unwrap()
}

fn refused_segment(text: &str) -> String {
    match CoordinateParser::parse(text) {
        Err(Error::MalformedAddress(segment)) => segment,
        other => panic!("{:?} was read as {:?}", text, other),
    }
}

#[test]
fn parses_the_two_roots() {
    assert_eq!(coord("root"), Coordinate::root());
    assert_eq!(coord("meta"), Coordinate::meta());
    assert_eq!(coord("root").row_cols(), vec![(1, 1)]);
    assert_eq!(coord("meta").row_cols(), vec![(1, 2)]);
}

#[test]
fn parses_nested_address() {
    assert_eq!(coord("root-A3-B1").row_cols(), vec![(1, 1), (3, 1), (1, 2)]);
    let meta = Coordinate::meta();
    let expected =
        Coordinate::child_of(&Coordinate::child_of(&meta, (3, 1)).unwrap(), (1, 2)).unwrap();
    assert_eq!(coord("meta-A3-B1"), expected);
    assert_eq!(coord("meta-A3-B1").row_cols(), vec![(1, 2), (3, 1), (1, 2)]);
}

#[test]
fn last_segment_is_the_child_of_the_prefix() {
    for prefix in ["root", "meta", "root-A1", "meta-A3-B1"] {
        let text = format!("{}-C7", prefix);
        assert_eq!(coord(&text), Coordinate::child_of(&coord(prefix), (7, 3)).unwrap());
    }
}

#[test]
fn column_letters_count_from_one() {
    assert_eq!(coord("root-A1").row_cols(), vec![(1, 1), (1, 1)]);
    assert_eq!(coord("root-B1").row_cols(), vec![(1, 1), (1, 2)]);
    assert_eq!(coord("root-Z9").row_cols(), vec![(1, 1), (9, 26)]);
    assert_eq!(coord("root-AA10").row_cols(), vec![(1, 1), (10, 27)]);
    assert_eq!(coord("root-AZ1").row_cols(), vec![(1, 1), (1, 52)]);
    assert_eq!(coord("root-BA1").row_cols(), vec![(1, 1), (1, 53)]);
    assert_eq!(coord("root-ZZ1").row_cols(), vec![(1, 1), (1, 702)]);
    assert_eq!(coord("root-AAA1").row_cols(), vec![(1, 1), (1, 703)]);
}

#[test]
fn column_letters_ignore_case() {
    assert_eq!(coord("root-a3"), coord("root-A3"));
    assert_eq!(coord("root-aB12"), coord("root-AB12"));
}

#[test]
fn renders_what_it_parsed() {
    for text in ["root", "meta", "root-A1", "meta-A3-B1", "root-AA10-Z26", "root-ZZ4294967295"] {
        assert_eq!(coord(text).to_text(), text);
    }
}

#[test]
fn renders_in_upper_case() {
    assert_eq!(coord("root-a3-b1").to_text(), "root-A3-B1");
    assert_eq!(coord("meta-zz9").to_text(), "meta-ZZ9");
}

#[test]
fn parses_what_it_rendered() {
    let c = Coordinate::new(vec![(1, 2), (7, 28), (4294967295, 4294967295)]).unwrap();
    assert_eq!(c.to_text(), "meta-AB7-MWLQKWU4294967295");
    assert_eq!(coord(&c.to_text()), c);
}

#[test]
fn renders_an_unnamed_top_level_pair_as_a_cell() {
    let c = Coordinate::new(vec![(3, 2), (1, 1)]).unwrap();
    assert_eq!(c.to_text(), "B3-A1");
}

#[test]
fn largest_indices_are_read() {
    assert_eq!(coord("root-A4294967295").row_cols(), vec![(1, 1), (4294967295, 1)]);
    assert_eq!(coord("root-MWLQKWU1").row_cols(), vec![(1, 1), (1, 4294967295)]);
}

#[test]
fn indices_beyond_the_largest_are_refused() {
    assert_eq!(refused_segment("root-A4294967296"), "A4294967296");
    assert_eq!(refused_segment("root-MWLQKWV1"), "MWLQKWV1");
    assert_eq!(refused_segment("root-A99999999999999999999"), "A99999999999999999999");
}

#[test]
fn empty_text_is_refused() {
    assert_eq!(refused_segment(""), "");
}

#[test]
fn separators_at_the_ends_are_refused() {
    assert_eq!(refused_segment("root-"), "");
    assert_eq!(refused_segment("-root"), "");
    assert_eq!(refused_segment("root--A1"), "");
    assert_eq!(refused_segment("root-A1-"), "");
}

#[test]
fn zero_and_negative_indices_are_refused() {
    assert_eq!(refused_segment("root-A0"), "A0");
    assert_eq!(refused_segment("root-A01"), "A01");
    assert_eq!(refused_segment("root-A-1"), "A");
}

#[test]
fn row_before_column_is_refused() {
    assert_eq!(refused_segment("root-3A"), "3A");
    assert_eq!(refused_segment("root-A3B"), "A3B");
    assert_eq!(refused_segment("root-A1-1B"), "1B");
}

#[test]
fn segments_of_one_kind_are_refused() {
    assert_eq!(refused_segment("root-A"), "A");
    assert_eq!(refused_segment("root-7"), "7");
}

#[test]
fn a_cell_cannot_stand_first() {
    assert_eq!(refused_segment("A1"), "A1");
    assert_eq!(refused_segment("A1-B2"), "A1");
}

#[test]
fn names_are_read_as_written() {
    assert_eq!(refused_segment("ROOT-A1"), "ROOT");
    assert_eq!(refused_segment("Meta"), "Meta");
    assert_eq!(refused_segment("roots"), "roots");
    assert_eq!(refused_segment("root-meta"), "meta");
}

#[test]
fn the_first_bad_segment_is_named() {
    assert_eq!(refused_segment("root-A1-x-B0"), "x");
    assert_eq!(refused_segment("base-A0"), "base");
}

#[test]
fn other_characters_are_refused() {
    assert_eq!(refused_segment("root-A 1"), "A 1");
    assert_eq!(refused_segment("root-É1"), "É1");
    assert_eq!(refused_segment("root-A١"), "A١");
}
