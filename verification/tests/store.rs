use pietop::record::PieRecord;
use pietop::store::PieStore;

fn chars(s: &str) -> Vec<char> {
    s.chars().collect()
}

fn raw_pie(id: u64, invested: &str, current: &str) -> PieRecord {
    PieRecord {
        id,
        cash: chars("0.5"),
        dividend_gained: chars("1.25"),
        dividend_reinvested: chars("0.75"),
        dividend_in_cash: chars("0.5"),
        invested_value: chars(invested),
        current_value: chars(current),
        absolute_result: chars("10.0"),
        result_coefficient: chars("0.1"),
        progress: Some(chars("0.42")),
        status: Some(chars("AHEAD")),
        name: None,
        created_at: None,
    }
}

#[test]
fn upsert_unknown_id_creates_record_with_enrichment_unset() {
    let mut store = PieStore::new();
    // even a fetch that carries hypothetical enrichment values does not set them
    let mut raw = raw_pie(7, "100.0", "150.0");
    raw.name = Some(chars("FromTheWire"));
    raw.created_at = Some(chars("123456"));
    store.upsert(&raw);
    let rec = store.get(7).expect("record must exist after upsert");
    assert_eq!(rec.id, 7);
    assert_eq!(rec.name, None);
    assert_eq!(rec.created_at, None);
    assert!(store.needs_enrichment(7));
}

#[test]
fn upsert_known_id_replaces_live_fields_wholesale() {
    let mut store = PieStore::new();
    store.upsert(&raw_pie(3, "100.0", "110.0"));
    store.upsert(&raw_pie(3, "200.0", "190.0"));
    assert_eq!(store.len(), 1);
    let rec = store.get(3).unwrap();
    assert_eq!(rec.invested_value, chars("200.0"));
    assert_eq!(rec.current_value, chars("190.0"));
}

#[test]
fn enrichment_set_after_first_reconciliation_survives_the_second() {
    let mut store = PieStore::new();
    store.upsert(&raw_pie(5, "100.0", "120.0"));
    store.set_enrichment(5, &chars("1690000000"), &chars("Alpha Fund"));
    // the second fetch carries different (hypothetical) enrichment values
    let mut second = raw_pie(5, "101.0", "125.0");
    second.name = Some(chars("Another Name"));
    second.created_at = Some(chars("42"));
    store.upsert(&second);
    let rec = store.get(5).unwrap();
    assert_eq!(rec.name, Some(chars("Alpha Fund")));
    assert_eq!(rec.created_at, Some(chars("1690000000")));
    assert_eq!(rec.invested_value, chars("101.0"));
}

#[test]
fn set_enrichment_only_first_writer_acts() {
    let mut store = PieStore::new();
    store.upsert(&raw_pie(9, "10.0", "11.0"));
    store.set_enrichment(9, &chars("1000"), &chars("First"));
    store.set_enrichment(9, &chars("2000"), &chars("Second"));
    let rec = store.get(9).unwrap();
    assert_eq!(rec.name, Some(chars("First")));
    assert_eq!(rec.created_at, Some(chars("1000")));
    assert!(!store.needs_enrichment(9));
}

#[test]
fn set_enrichment_fills_only_the_unset_field() {
    let mut store = PieStore::new();
    store.upsert(&raw_pie(2, "10.0", "11.0"));
    // a record restored with a name but no creation date
    store.set_enrichment(2, &chars("500"), &chars("Kept"));
    assert!(!store.needs_enrichment(2));
    // unknown ids are left alone
    store.set_enrichment(77, &chars("1"), &chars("Ghost"));
    assert!(store.get(77).is_none());
}

#[test]
fn snapshot_is_a_point_in_time_copy() {
    let mut store = PieStore::new();
    store.upsert(&raw_pie(1, "10.0", "12.0"));
    store.upsert(&raw_pie(2, "20.0", "18.0"));
    let snap = store.snapshot();
    assert_eq!(snap.len(), 2);
    store.upsert(&raw_pie(1, "99.0", "99.0"));
    // the snapshot still shows the state it was taken at
    let one = snap.iter().find(|r| r.id == 1).unwrap();
    assert_eq!(one.invested_value, chars("10.0"));
}
