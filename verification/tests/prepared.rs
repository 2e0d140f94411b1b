use pgcache_writer::prepared::PreparedStatements;
use pgcache_writer::prepared::PREPARED_EVAL_CACHE_CAPACITY;

#[test]
fn a_kept_statement_is_found_again() {
    let mut s = PreparedStatements::new();
    assert_eq!(s.membership_get(10, 1), None);
    assert_eq!(s.membership_put(10, 1, 77), None);
    assert_eq!(s.membership_get(10, 1), Some(77));
    assert_eq!(s.membership_get(11, 1), None);
    assert_eq!(s.membership_put(10, 1, 78), Some(77), "the old one is released");
    assert_eq!(s.membership_drop(10, 1), Some(78));
    assert_eq!(s.membership_get(10, 1), None);
    assert_eq!(s.membership_drop(10, 1), None);
}

#[test]
fn the_least_recently_used_statement_goes_first() {
    let mut s = PreparedStatements::new();
    for i in 0..PREPARED_EVAL_CACHE_CAPACITY as u64 {
        assert_eq!(s.membership_put(10, i, 1000 + i), None);
    }
    assert_eq!(s.membership_get(10, 0), Some(1000), "used again");
    assert_eq!(s.membership_put(10, 9999, 1), Some(1001), "the oldest unused one");
    assert_eq!(s.membership_get(10, 1), None);
    assert_eq!(s.membership_get(10, 0), Some(1000));
}

#[test]
fn a_row_change_statement_of_another_epoch_is_not_used() {
    let mut s = PreparedStatements::new();
    assert_eq!(s.row_change_put(10, 3, 50), None);
    assert_eq!(s.row_change_get(10, 3), Some(50));
    assert_eq!(s.row_change_get(10, 4), None);
    assert_eq!(s.row_change_put(10, 4, 51), Some(50));
    assert_eq!(s.row_change_get(10, 4), Some(51));
    assert_eq!(s.row_change_drop(10), Some(51));
    assert_eq!(s.row_change_get(10, 4), None);
}

#[test]
fn a_changed_text_begins_another_epoch() {
    let mut s = PreparedStatements::new();
    let first = s.row_change_epoch(10, &"SELECT a".to_owned());
    s.row_change_put(10, first, 50);
    let again = s.row_change_epoch(10, &"SELECT a".to_owned());
    assert_eq!(s.row_change_get(10, again), Some(50));
    let other = s.row_change_epoch(10, &"SELECT a, b".to_owned());
    assert_ne!(other, first);
    assert_eq!(s.row_change_get(10, other), None);
    assert_eq!(s.row_change_epoch(11, &"SELECT a, b".to_owned()), 0);
}

#[test]
fn a_redefined_relation_loses_its_statements() {
    let mut s = PreparedStatements::new();
    s.membership_put(10, 1, 100);
    s.membership_put(11, 1, 101);
    s.membership_put(10, 2, 102);
    s.row_change_put(10, 0, 103);
    s.row_change_put(11, 0, 104);
    assert_eq!(s.relation_drop(10), vec![103, 102, 100]);
    assert_eq!(s.membership_get(10, 1), None);
    assert_eq!(s.membership_get(10, 2), None);
    assert_eq!(s.membership_get(11, 1), Some(101));
    assert_eq!(s.row_change_get(10, 0), None);
    assert_eq!(s.row_change_get(11, 0), Some(104));
}
