use fldemos::playlist::{Gallery, Model};

fn list(n: usize) -> Vec<String> {
    (0..n).map(|k| format!("track{k}.mp3")).collect()
}

#[test]
fn next_and_previous_wrap_around() {
    let mut m = Model { list: list(3), curr: 0 };
    m.inc();
    assert_eq!(m.curr, 1);
    m.inc();
    m.inc();
    assert_eq!(m.curr, 0);
    m.dec();
    assert_eq!(m.curr, 2);
}

#[test]
fn empty_list_stays_put() {
    let mut m = Model::new();
    m.inc();
    m.dec();
    assert_eq!(m.curr, 0);
}

#[test]
fn choice_ignores_positions_past_the_end() {
    let mut m = Model { list: list(2), curr: 1 };
    m.choice(5);
    assert_eq!(m.curr, 1);
    m.choice(0);
    assert_eq!(m.curr, 0);
}

#[test]
fn remove_moves_to_the_next_track() {
    let mut m = Model { list: list(3), curr: 1 };
    m.remove();
    assert_eq!(m.list, vec!["track0.mp3", "track2.mp3"]);
    assert_eq!(m.curr, 0);
    let mut last = Model { list: list(1), curr: 0 };
    last.remove();
    assert!(last.list.is_empty());
    assert_eq!(last.curr, 0);
}

#[test]
fn gallery_moves_and_scales() {
    let mut g = Gallery::new();
    assert!(g.empty());
    g.temp = list(4);
    g.dec();
    assert_eq!(g.curr, 3);
    g.choice(1, false);
    assert_eq!(g.curr, 3);
    g.choice(1, true);
    assert_eq!(g.curr, 1);
    g.size = 50;
    assert_eq!(g.scaled(301), 150);
    assert_eq!(g.scaled(-301), -150);
    g.remove();
    assert_eq!(g.temp.len(), 3);
    assert_eq!(g.curr, 2);
}

use fldemos::playlist::Viewer;

#[test]
fn pager_starts_on_the_opened_picture() {
    let images = vec!["/p/a.png".to_string(), "/p/b.svg".to_string(), "/p/c.png".to_string()];
    let v = Viewer::load(images.clone(), "/p/c.png");
    assert_eq!(v.pos, 2);
    let w = Viewer::load(images, "/q/z.png");
    assert_eq!(w.pos, 0);
}

#[test]
fn pager_wraps_and_removes() {
    let mut v = Viewer::load(vec!["a".into(), "b".into()], "b");
    v.next();
    assert_eq!(v.pos, 0);
    v.prev();
    assert_eq!(v.pos, 1);
    assert!(v.remove());
    assert_eq!(v.images, vec!["a"]);
    assert_eq!(v.pos, 0);
    assert!(!v.remove());
    assert!(v.images.is_empty());
}
