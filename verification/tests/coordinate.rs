use metasheet::coordinate::{Col, Coordinate, Row};
use metasheet::error::Error;

fn at(pairs: &[(u32, u32)]) -> Coordinate {
    Coordinate::new(pairs.to_vec()).unwrap()
}

#[test]
fn an_address_needs_a_pair() {
    assert!(matches!(Coordinate::new(vec![]), Err(Error::InvalidIndex)));
}

#[test]
fn an_address_needs_positive_indices() {
    assert!(matches!(Coordinate::new(vec![(1, 1), (0, 2)]), Err(Error::InvalidIndex)));
    assert!(matches!(Coordinate::new(vec![(1, 0)]), Err(Error::InvalidIndex)));
    assert!(Coordinate::new(vec![(1, 1), (4, 2)]).is_ok());
}

#[test]
fn a_child_needs_positive_indices() {
    let root = Coordinate::root();
    assert!(matches!(Coordinate::child_of(&root, (0, 1)), Err(Error::InvalidIndex)));
    assert!(matches!(Coordinate::child_of(&root, (1, 0)), Err(Error::InvalidIndex)));
    assert_eq!(Coordinate::child_of(&root, (2, 3)).unwrap().row_cols(), vec![(1, 1), (2, 3)]);
}

#[test]
fn roots_have_no_parent() {
    assert!(Coordinate::root().parent().is_none());
    assert!(Coordinate::meta().parent().is_none());
    assert!(Coordinate::root().is_root());
    assert!(!Coordinate::root().is_meta());
    assert!(Coordinate::meta().is_meta());
    assert!(!at(&[(1, 1), (1, 1)]).is_root());
}

#[test]
fn a_parent_is_one_pair_shorter() {
    let c = at(&[(1, 2), (3, 1), (1, 2)]);
    let p = c.parent().unwrap();
    assert_eq!(p, at(&[(1, 2), (3, 1)]));
    assert_eq!(p.depth(), c.depth() - 1);
    assert_eq!(p.parent().unwrap(), Coordinate::meta());
    assert!(p.parent().unwrap().parent().is_none());
}

#[test]
fn a_child_knows_its_parent() {
    let p = at(&[(1, 1), (2, 2)]);
    let c = Coordinate::child_of(&p, (5, 6)).unwrap();
    assert_eq!(c.parent().unwrap(), p);
    assert_eq!(c.last(), (5, 6));
    assert_eq!(c.row(), 5);
    assert_eq!(c.col(), 6);
    assert_eq!(c.depth(), 3);
}

#[test]
fn neighbours_step_by_one() {
    let c = at(&[(1, 1), (4, 7)]);
    assert_eq!(c.neighbor_right().unwrap(), at(&[(1, 1), (4, 8)]));
    assert_eq!(c.neighbor_left().unwrap(), at(&[(1, 1), (4, 6)]));
    assert_eq!(c.neighbor_above().unwrap(), at(&[(1, 1), (3, 7)]));
    assert_eq!(c.neighbor_below().unwrap(), at(&[(1, 1), (5, 7)]));
}

#[test]
fn no_neighbour_before_the_first() {
    let c = at(&[(1, 1), (1, 1)]);
    assert!(c.neighbor_left().is_none());
    assert!(c.neighbor_above().is_none());
    assert!(c.neighbor_right().is_some());
    assert!(c.neighbor_below().is_some());
}

#[test]
fn no_neighbour_after_the_last() {
    let c = at(&[(1, 1), (u32::MAX, u32::MAX)]);
    assert!(c.neighbor_right().is_none());
    assert!(c.neighbor_below().is_none());
    assert_eq!(c.neighbor_left().unwrap(), at(&[(1, 1), (u32::MAX, u32::MAX - 1)]));
}

#[test]
fn bands_ignore_the_other_axis() {
    let a1 = at(&[(1, 1), (1, 1)]);
    let b1 = at(&[(1, 1), (1, 2)]);
    let a2 = at(&[(1, 1), (2, 1)]);
    assert_eq!(a1.full_row(), b1.full_row());
    assert_ne!(a1.full_row(), a2.full_row());
    assert_eq!(a1.full_col(), a2.full_col());
    assert_ne!(a1.full_col(), b1.full_col());
    assert_eq!(a1.full_row(), Row::of(&Coordinate::root(), 1));
    assert_eq!(b1.full_col(), Col::of(&Coordinate::root(), 2));
}

#[test]
fn bands_belong_to_one_grid() {
    let under_root = at(&[(1, 1), (1, 1)]);
    let under_meta = at(&[(1, 2), (1, 1)]);
    assert_ne!(under_root.full_row(), under_meta.full_row());
    assert_ne!(under_root.full_col(), under_meta.full_col());
}

#[test]
fn copies_are_equal() {
    let c = at(&[(1, 2), (3, 1)]);
    assert_eq!(c.clone(), c);
    assert_eq!(c.full_row().clone(), c.full_row());
    assert_eq!(c.full_col().clone(), c.full_col());
    assert_ne!(c, at(&[(1, 2), (3, 2)]));
    assert_ne!(c, at(&[(1, 2)]));
}
