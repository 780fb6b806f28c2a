use badger_groups::histogram::{Histogram, MAX_DISTANCE, MAX_TOTAL, UNIT};
use badger_groups::profile::Profile;
use badger_groups::record::Badger;

fn table(items: &[&str]) -> Histogram {
    let mut h = Histogram::new();
    for item in items {
        h.insert(&item.to_string());
    }
    h
}

fn badger(name: &str, kind: &str) -> Badger {
    Badger {
        name: name.to_string(),
        gender: format!("gender-{}", kind),
        discipline: format!("discipline-{}", kind),
        seniority: format!("seniority-{}", kind),
        client: format!("client-{}", kind),
        team: format!("team-{}", kind),
    }
}

#[test]
fn new_histogram_is_empty() {
    let h = Histogram::new();
    assert_eq!(h.total(), 0);
    assert_eq!(h.distinct(), 0);
    assert_eq!(h.count(&"a".to_string()), 0);
}

#[test]
fn insert_counts_values_and_total() {
    let h = table(&["a", "b", "a", "c", "a"]);
    assert_eq!(h.total(), 5);
    assert_eq!(h.distinct(), 3);
    assert_eq!(h.count(&"a".to_string()), 3);
    assert_eq!(h.count(&"b".to_string()), 1);
    assert_eq!(h.count(&"c".to_string()), 1);
    assert_eq!(h.count(&"d".to_string()), 0);
}

#[test]
fn constants_agree() {
    assert_eq!(UNIT, 1_000_000);
    assert_eq!(MAX_DISTANCE, UNIT * MAX_TOTAL as i128);
}

#[test]
fn diff_with_itself_is_zero() {
    let h = table(&["a", "b", "b", "c", "c", "c"]);
    assert_eq!(h.diff(&h), 0);
    let same = table(&["c", "b", "a", "c", "b", "c"]);
    assert_eq!(h.diff(&same), 0);
    assert_eq!(same.diff(&h), 0);
}

#[test]
fn diff_of_empty_tables_is_zero() {
    assert_eq!(Histogram::new().diff(&Histogram::new()), 0);
}

#[test]
fn diff_of_unequal_cardinality_is_the_difference() {
    let one = table(&["a", "a", "a", "b"]);
    let other = table(&["x", "y", "z", "u", "v"]);
    assert_eq!(one.diff(&other), 3 * UNIT);
    assert_eq!(other.diff(&one), 3 * UNIT);
    assert_eq!(one.diff(&Histogram::new()), 2 * UNIT);
    assert_eq!(Histogram::new().diff(&one), 2 * UNIT);
}

#[test]
fn diff_of_overlapping_tables_ignores_shares_when_cardinality_differs() {
    let one = table(&["a", "b", "c"]);
    let other = table(&["a", "a"]);
    assert_eq!(one.diff(&other), 2 * UNIT);
}

#[test]
fn diff_sums_squared_share_differences() {
    // shares 1/2, 1/2 against 1/4, 3/4: 1/16 + 1/16
    let one = table(&["a", "b"]);
    let other = table(&["a", "b", "b", "b"]);
    assert_eq!(one.diff(&other), 125_000);
    assert_eq!(other.diff(&one), 125_000);
}

#[test]
fn diff_counts_absent_values_as_share_zero() {
    // a: 1/2 against 1/2, b: 1/2 against 0
    let one = table(&["a", "b"]);
    let other = table(&["a", "c"]);
    assert_eq!(one.diff(&other), 250_000);
}

#[test]
fn diff_rounds_down_to_a_millionth() {
    // shares 1/3, 2/3 against 2/3, 1/3: 2/9
    let one = table(&["a", "b", "b"]);
    let other = table(&["a", "a", "b"]);
    assert_eq!(one.diff(&other), 222_222);
}

#[test]
fn diff_uses_each_tables_own_total() {
    // shares 1/2, 1/2 against 2/4, 2/4
    let one = table(&["a", "b"]);
    let other = table(&["a", "a", "b", "b"]);
    assert_eq!(one.diff(&other), 0);
}

#[test]
fn new_profile_is_empty() {
    let p = Profile::new();
    assert_eq!(p.count, 0);
    assert_eq!(p.genders.total(), 0);
    assert_eq!(p.teams.distinct(), 0);
}

#[test]
fn profile_insert_counts_every_attribute() {
    let mut p = Profile::new();
    p.insert(&badger("ann", "x"));
    p.insert(&badger("bob", "y"));
    p.insert(&badger("cid", "x"));
    assert_eq!(p.count, 3);
    assert_eq!(p.genders.total(), 3);
    assert_eq!(p.genders.distinct(), 2);
    assert_eq!(p.genders.count(&"gender-x".to_string()), 2);
    assert_eq!(p.disciplines.count(&"discipline-y".to_string()), 1);
    assert_eq!(p.seniorities.count(&"seniority-x".to_string()), 2);
    assert_eq!(p.clients.count(&"client-y".to_string()), 1);
    assert_eq!(p.teams.count(&"team-x".to_string()), 2);
    assert_eq!(p.teams.count(&"gender-x".to_string()), 0);
}

#[test]
fn diff_sums_over_the_values_of_the_left_table_only() {
    // x: 1/2 against 1/4, y: 1/2 against 0
    let one = table(&["x", "y"]);
    // x: 1/4 against 1/2, z: 3/4 against 0
    let other = table(&["x", "z", "z", "z"]);
    assert_eq!(one.diff(&other), 312_500);
    assert_eq!(other.diff(&one), 625_000);
}
