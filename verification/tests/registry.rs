use fldemos::registry::Crud;

fn filled() -> Crud {
    let mut c = Crud::new();
    c.create("Hans", "Emil", "x", "", 0);
    c.create("Max", "Mustermann", "y", "", 0);
    c.create("Roman", "Tisch", "z", "", 0);
    c
}

#[test]
fn entries_are_listed_sorted_by_surname() {
    let mut c = filled();
    let lines = c.filter("", 0);
    assert_eq!(lines, vec!["Emil, Hans", "Mustermann, Max", "Tisch, Roman"]);
}

#[test]
fn filter_is_a_case_insensitive_prefix() {
    let mut c = filled();
    assert_eq!(c.filter("m", 0), vec!["Mustermann, Max"]);
    assert_eq!(c.filter("MU", 0), vec!["Mustermann, Max"]);
    assert_eq!(c.filter("r", 1), vec!["Tisch, Roman"]);
    assert_eq!(c.filter("q", 0), Vec::<String>::new());
}

#[test]
fn sorting_compares_bytes() {
    let mut c = Crud::new();
    c.create("a", "b", "", "", 0);
    c.create("a", "B", "", "", 0);
    c.create("a", "Ä", "", "", 0);
    assert_eq!(c.filter("", 0), vec!["B, a", "b, a", "Ä, a"]);
}

#[test]
fn select_reads_the_entry_at_that_position() {
    let mut c = filled();
    c.filter("", 0);
    assert_eq!(c.select(0), None);
    assert_eq!(
        c.select(2),
        Some(("Mustermann".to_string(), "Max".to_string(), "y".to_string()))
    );
}

#[test]
fn update_replaces_the_listed_entry() {
    let mut c = filled();
    let lines = c.update("Erika", "Musterfrau", "w", Some("Mustermann, Max"), "", 0);
    assert_eq!(lines, Some(vec!["Emil, Hans".to_string(), "Musterfrau, Erika".to_string(), "Tisch, Roman".to_string()]));
    assert_eq!(c.len(), 3);
}

#[test]
fn update_needs_both_names_and_a_selection() {
    let mut c = filled();
    assert_eq!(c.update("", "X", "", Some("Tisch, Roman"), "", 0), None);
    assert_eq!(c.update("X", "", "", Some("Tisch, Roman"), "", 0), None);
    assert_eq!(c.update("X", "Y", "", None, "", 0), None);
    assert_eq!(c.filter("", 0), vec!["Emil, Hans", "Mustermann, Max", "Tisch, Roman"]);
}

#[test]
fn delete_removes_the_listed_entry() {
    let mut c = filled();
    let lines = c.delete(Some("Emil, Hans"), "", 0);
    assert_eq!(lines, Some(vec!["Mustermann, Max".to_string(), "Tisch, Roman".to_string()]));
    assert_eq!(c.delete(None, "", 0), None);
    assert_eq!(c.len(), 2);
}

#[test]
fn listing_twice_gives_the_same_lines() {
    let mut c = Crud::new();
    c.create("b", "z", "", "", 0);
    c.create("a", "y", "", "", 0);
    c.create("c", "y", "", "", 0);
    let first = c.filter("", 0);
    let second = c.filter("", 0);
    assert_eq!(first, second);
    assert_eq!(first, vec!["y, a", "y, c", "z, b"]);
}
