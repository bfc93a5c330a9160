use pietop::codec::{load_store, save_store};
use pietop::record::PieRecord;
use pietop::store::PieStore;

fn chars(s: &str) -> Vec<char> {
    s.chars().collect()
}

fn text(v: &[char]) -> String {
    v.iter().collect()
}

fn pie(id: u64, invested: &str, name: Option<&str>, created: Option<&str>) -> PieRecord {
    PieRecord {
        id,
        cash: chars("1.5"),
        dividend_gained: chars("0.1"),
        dividend_reinvested: chars("0.2"),
        dividend_in_cash: chars("0.3"),
        invested_value: chars(invested),
        current_value: chars("150.75"),
        absolute_result: chars("-3.5"),
        result_coefficient: chars("3.14e-2"),
        progress: None,
        status: Some(chars("ON TRACK")),
        name: name.map(chars),
        created_at: created.map(chars),
    }
}

fn build_store() -> PieStore {
    let mut store = PieStore::new();
    store.upsert(&pie(1, "100.0", None, None));
    store.upsert(&pie(42, "2.5e3", None, None));
    store.set_enrichment(42, &chars("1690000000"), &chars("Growth \"A\"\\B"));
    store
}

#[test]
fn save_then_load_returns_the_same_records() {
    let store = build_store();
    let saved = save_store(&store);
    let loaded = load_store(&saved).expect("own save must load");
    let mut before = store.snapshot();
    let mut after = loaded.snapshot();
    before.sort_by_key(|r| r.id);
    after.sort_by_key(|r| r.id);
    assert_eq!(before.len(), after.len());
    for (b, a) in before.iter().zip(after.iter()) {
        assert_eq!(b.id, a.id);
        assert_eq!(b.cash, a.cash);
        assert_eq!(b.dividend_gained, a.dividend_gained);
        assert_eq!(b.dividend_reinvested, a.dividend_reinvested);
        assert_eq!(b.dividend_in_cash, a.dividend_in_cash);
        assert_eq!(b.invested_value, a.invested_value);
        assert_eq!(b.current_value, a.current_value);
        assert_eq!(b.absolute_result, a.absolute_result);
        assert_eq!(b.result_coefficient, a.result_coefficient);
        assert_eq!(b.progress, a.progress);
        assert_eq!(b.status, a.status);
        assert_eq!(b.name, a.name);
        assert_eq!(b.created_at, a.created_at);
    }
}

#[test]
fn number_tokens_survive_persistence_verbatim() {
    let store = build_store();
    let saved = save_store(&store);
    let loaded = load_store(&saved).unwrap();
    let rec = loaded.snapshot().into_iter().find(|r| r.id == 42).unwrap();
    assert_eq!(rec.invested_value, chars("2.5e3"));
    assert_eq!(rec.result_coefficient, chars("3.14e-2"));
    assert_eq!(rec.created_at, Some(chars("1690000000")));
}

#[test]
fn saved_text_is_a_json_object_keyed_by_id() {
    let store = build_store();
    let saved = text(&save_store(&store));
    assert!(saved.starts_with('{'));
    assert!(saved.ends_with('}'));
    assert!(saved.contains("\"1\":{"));
    assert!(saved.contains("\"42\":{"));
    assert!(saved.contains("\"creationDate\"") == false);
    assert!(saved.contains("\"created_at\":1690000000"));
    assert!(saved.contains("\"name\":\"Growth \\\"A\\\"\\\\B\""));
}

#[test]
fn load_rejects_text_that_is_no_store() {
    assert!(load_store(&chars("not json at all")).is_none());
    assert!(load_store(&chars("[1,2,3]")).is_none());
    assert!(load_store(&chars("{\"1\":{\"id\":1}}")).is_none());
}

#[test]
fn load_rejects_two_records_with_one_id() {
    let store = {
        let mut s = PieStore::new();
        s.upsert(&pie(3, "10.0", None, None));
        s
    };
    let one = text(&save_store(&store));
    // repeat the single member inside the braces: two records, one id
    let dup = format!("{{{a},{a}}}", a = &one[1..one.len() - 1]);
    assert!(load_store(&dup.chars().collect()).is_none());
}

#[test]
fn empty_store_round_trips() {
    let store = PieStore::new();
    let saved = save_store(&store);
    assert_eq!(text(&saved), "{}");
    let loaded = load_store(&saved).expect("empty store must load");
    assert_eq!(loaded.snapshot().len(), 0);
}
