use pietop::engine::{apply_fetch_outcome, enrichment_candidates, reconcile};
use pietop::codec::save_store;
use pietop::record::PieRecord;
use pietop::store::PieStore;
use pietop::wire::{interpret_list_response, parse_pie_meta, FetchOutcome};

fn chars(s: &str) -> Vec<char> {
    s.chars().collect()
}

const PIE_A: &str = "{\"id\":11,\"cash\":0.5,\"dividendDetails\":{\"gained\":1.0,\"reinvested\":2.0,\"inCash\":3.0},\"result\":{\"priceAvgInvestedValue\":100.0,\"priceAvgValue\":150.0,\"priceAvgResult\":50.0,\"priceAvgResultCoef\":0.5},\"progress\":0.8,\"status\":\"AHEAD\"}";
const PIE_B: &str = "{\"id\":12,\"cash\":0.0,\"dividendDetails\":{\"gained\":0.0,\"reinvested\":0.0,\"inCash\":0.0},\"result\":{\"priceAvgInvestedValue\":200.0,\"priceAvgValue\":180.0,\"priceAvgResult\":-20.0,\"priceAvgResultCoef\":-0.1}}";

#[test]
fn rate_limit_is_soft_and_leaves_the_store_untouched() {
    let mut store = PieStore::new();
    store.upsert(&sample_pie(1));
    let before: String = save_store(&store).iter().collect();
    let outcome = interpret_list_response(429, &chars("anything"));
    assert!(matches!(outcome, FetchOutcome::RateLimited));
    apply_fetch_outcome(&mut store, &outcome);
    let after: String = save_store(&store).iter().collect();
    assert_eq!(before, after);
}

#[test]
fn non_success_status_is_an_http_error() {
    let outcome = interpret_list_response(500, &chars("{}"));
    assert!(matches!(outcome, FetchOutcome::HttpError(500)));
    let outcome = interpret_list_response(404, &chars(""));
    assert!(matches!(outcome, FetchOutcome::HttpError(404)));
}

#[test]
fn business_error_is_detected_by_content_inspection() {
    let body = chars("{\"errorMessage\":\"BusinessException\"}");
    assert!(matches!(
        interpret_list_response(200, &body),
        FetchOutcome::BusinessError
    ));
    // the broad marker: any body containing the word trips it
    let body = chars("[{\"error\":1}]");
    assert!(matches!(
        interpret_list_response(200, &body),
        FetchOutcome::BusinessError
    ));
}

#[test]
fn array_shape_parses_to_pies() {
    let body = chars(&format!("[{},{}]", PIE_A, PIE_B));
    match interpret_list_response(200, &body) {
        FetchOutcome::Pies(v) => {
            assert_eq!(v.len(), 2);
            assert_eq!(v[0].id, 11);
            assert_eq!(v[0].progress, Some(chars("0.8")));
            assert_eq!(v[0].status, Some(chars("AHEAD")));
            assert_eq!(v[1].id, 12);
            assert_eq!(v[1].progress, None);
            assert_eq!(v[1].result_coefficient, chars("-0.1"));
        }
        other => panic!("expected pies, got {:?}", outcome_name(&other)),
    }
}

#[test]
fn id_keyed_object_parses_to_the_same_records_as_the_array() {
    let array_body = chars(&format!("[{},{}]", PIE_A, PIE_B));
    let object_body = chars(&format!("{{\"11\":{},\"12\":{}}}", PIE_A, PIE_B));
    let from_array = match interpret_list_response(200, &array_body) {
        FetchOutcome::Pies(v) => v,
        _ => panic!("array shape must parse"),
    };
    let from_object = match interpret_list_response(200, &object_body) {
        FetchOutcome::Pies(v) => v,
        _ => panic!("object shape must parse"),
    };
    assert_eq!(from_array.len(), from_object.len());
    for (a, b) in from_array.iter().zip(from_object.iter()) {
        assert_eq!(a.id, b.id);
        assert_eq!(a.cash, b.cash);
        assert_eq!(a.invested_value, b.invested_value);
        assert_eq!(a.current_value, b.current_value);
        assert_eq!(a.progress, b.progress);
        assert_eq!(a.status, b.status);
    }
}

#[test]
fn unparseable_body_is_malformed() {
    assert!(matches!(
        interpret_list_response(200, &chars("not json")),
        FetchOutcome::Malformed
    ));
    assert!(matches!(
        interpret_list_response(200, &chars("12.5")),
        FetchOutcome::Malformed
    ));
    assert!(matches!(
        interpret_list_response(200, &chars("[{\"id\":1}]")),
        FetchOutcome::Malformed
    ));
}

#[test]
fn whitespace_on_the_wire_is_tolerated() {
    let body = chars(&format!(" [ {} , {} ] ", PIE_A, PIE_B));
    match interpret_list_response(200, &body) {
        FetchOutcome::Pies(v) => assert_eq!(v.len(), 2),
        _ => panic!("whitespace-laden array must parse"),
    }
}

#[test]
fn pie_meta_reads_creation_date_and_name() {
    let body = chars("{\"settings\":{\"creationDate\":1699999999,\"name\":\"My Fund\"}}");
    let (created, name) = parse_pie_meta(&body).expect("meta must parse");
    assert_eq!(created, chars("1699999999"));
    assert_eq!(name, chars("My Fund"));
    assert!(parse_pie_meta(&chars("{\"settings\":{}}")).is_none());
    assert!(parse_pie_meta(&chars("{}")).is_none());
}

#[test]
fn reconcile_and_candidates_drive_the_enrichment_step() {
    let mut store = PieStore::new();
    let body = chars(&format!("[{},{}]", PIE_A, PIE_B));
    let outcome = interpret_list_response(200, &body);
    apply_fetch_outcome(&mut store, &outcome);
    assert_eq!(store.len(), 2);
    let pies = match outcome {
        FetchOutcome::Pies(v) => v,
        _ => unreachable!(),
    };
    let ids = enrichment_candidates(&store, &pies);
    assert!(ids.contains(&11) && ids.contains(&12));
    store.set_enrichment(11, &chars("1000"), &chars("Eleven"));
    let ids = enrichment_candidates(&store, &pies);
    assert!(!ids.contains(&11) && ids.contains(&12));
    // the next cycle reconciles again without losing the enrichment
    reconcile(&mut store, &pies);
    let rec = store.get(11).unwrap();
    assert_eq!(rec.name, Some(chars("Eleven")));
}

fn sample_pie(id: u64) -> PieRecord {
    PieRecord {
        id,
        cash: chars("0.0"),
        dividend_gained: chars("0.0"),
        dividend_reinvested: chars("0.0"),
        dividend_in_cash: chars("0.0"),
        invested_value: chars("1.0"),
        current_value: chars("1.0"),
        absolute_result: chars("0.0"),
        result_coefficient: chars("0.0"),
        progress: None,
        status: None,
        name: None,
        created_at: None,
    }
}

fn outcome_name(o: &FetchOutcome) -> &'static str {
    match o {
        FetchOutcome::RateLimited => "rate limited",
        FetchOutcome::HttpError(_) => "http error",
        FetchOutcome::BusinessError => "business error",
        FetchOutcome::Malformed => "malformed",
        FetchOutcome::Pies(_) => "pies",
    }
}

#[test]
fn empty_array_response_is_an_empty_batch() {
    match interpret_list_response(204, &chars("[]")) {
        FetchOutcome::Pies(v) => assert!(v.is_empty()),
        _ => panic!("an empty listing is still a listing"),
    }
}

#[test]
fn object_keys_are_ignored_when_reading_pies() {
    // a flattened map carries the same pies under whatever keys
    let body = chars(&format!("{{\"anything\":{}}}", PIE_A));
    match interpret_list_response(200, &body) {
        FetchOutcome::Pies(v) => {
            assert_eq!(v.len(), 1);
            assert_eq!(v[0].id, 11);
        }
        _ => panic!("flattened map shape must parse"),
    }
}
