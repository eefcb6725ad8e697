use linq_rs::tri::{and3, or3};

#[test]
fn the_kleene_truth_table_matches_sqlite_cell_by_cell() {
    let t = Some(true);
    let f = Some(false);
    let n: Option<bool> = None;

    // The cells SQLite was asked for directly.
    assert_eq!(and3(n, f), Some(false), "NULL AND FALSE is FALSE, not NULL");
    assert_eq!(and3(n, t), None, "NULL AND TRUE is NULL");
    assert_eq!(or3(n, t), Some(true), "NULL OR TRUE is TRUE, not NULL");
    assert_eq!(or3(n, f), None, "NULL OR FALSE is NULL");

    // Commutativity, which SQL also guarantees.
    assert_eq!(and3(f, n), Some(false));
    assert_eq!(or3(t, n), Some(true));

    // And the ordinary two-valued corners are unchanged.
    assert_eq!(and3(t, t), Some(true));
    assert_eq!(and3(t, f), Some(false));
    assert_eq!(or3(f, f), Some(false));
    assert_eq!(or3(t, f), Some(true));
}
