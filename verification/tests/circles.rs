use fldemos::circles::{nearest_hit, CircleSet, Model};

#[test]
fn circle_set_inserts_and_replaces() {
    let mut s = CircleSet::new();
    s.insert((10, 20), 5);
    s.insert((30, 40), 7);
    s.insert((10, 20), 9);
    assert_eq!(s.len(), 2);
    assert_eq!(s.get((10, 20)), Some(9));
    assert_eq!(s.get((30, 40)), Some(7));
    assert_eq!(s.get((1, 1)), None);
}

#[test]
fn add_then_undo_and_redo() {
    let mut m = Model::build();
    assert!(!m.can_undo());
    assert!(!m.can_redo());
    m.save();
    m.set((5, 5), 20);
    assert!(m.can_undo());
    assert_eq!(m.circles().get((5, 5)), Some(20));
    m.undo();
    assert_eq!(m.circles().get((5, 5)), None);
    assert!(m.can_redo());
    m.redo();
    assert_eq!(m.circles().get((5, 5)), Some(20));
    assert!(!m.can_redo());
}

#[test]
fn adjusting_a_radius_is_undone_in_one_step() {
    let mut m = Model::build();
    m.save();
    m.set((1, 2), 20);
    m.save();
    m.set((1, 2), 30);
    m.set((1, 2), 35);
    assert_eq!(m.circles().get((1, 2)), Some(35));
    m.undo();
    assert_eq!(m.circles().get((1, 2)), Some(20));
}

#[test]
fn saving_drops_the_redo_history() {
    let mut m = Model::build();
    m.save();
    m.set((0, 0), 1);
    m.save();
    m.set((9, 9), 2);
    m.undo();
    m.undo();
    assert!(m.can_redo());
    m.save();
    assert!(!m.can_redo());
    assert_eq!(m.circles().len(), 0);
}

#[test]
fn nearest_hit_picks_the_closest_containing_circle() {
    assert_eq!(nearest_hit(&vec![]), None);
    let c = vec![((0, 0), 5, 6), ((10, 0), 8, 3), ((20, 0), 9, 2), ((30, 0), 4, 2)];
    assert_eq!(nearest_hit(&c), Some(((20, 0), 9)));
    let none = vec![((0, 0), 1, 2)];
    assert_eq!(nearest_hit(&none), None);
}
