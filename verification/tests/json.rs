use pietop::json::{parse_json, render_json, Json};
use pietop::numeral::{digits_to_u64, u64_to_digits};

fn chars(s: &str) -> Vec<char> {
    s.chars().collect()
}

fn text(v: &[char]) -> String {
    v.iter().collect()
}

#[test]
fn render_then_parse_is_identity_on_a_nested_document() {
    let doc = Json::Obj(vec![
        (chars("a"), Json::Arr(vec![Json::Num(chars("1")), Json::Null, Json::Bool(true)])),
        (chars("quote\"and\\slash"), Json::Str(chars("he said \"hi\" \\ bye"))),
        (chars("empty"), Json::Obj(vec![])),
        (chars("n"), Json::Num(chars("-12.5e-3"))),
    ]);
    let rendered = render_json(&doc);
    let reparsed = parse_json(&rendered).expect("own rendering must parse");
    let rendered_again = render_json(&reparsed);
    assert_eq!(text(&rendered), text(&rendered_again));
    assert_eq!(
        text(&rendered),
        "{\"a\":[1,null,true],\"quote\\\"and\\\\slash\":\"he said \\\"hi\\\" \\\\ bye\",\"empty\":{},\"n\":-12.5e-3}"
    );
}

#[test]
fn parser_accepts_whitespace_and_rejects_trailing_text() {
    assert!(parse_json(&chars(" { \"k\" : [ 1 , 2 ] , \"b\" : false } ")).is_some());
    assert!(parse_json(&chars("{} trailing")).is_none());
    assert!(parse_json(&chars("")).is_none());
    assert!(parse_json(&chars("{\"k\":}")).is_none());
    assert!(parse_json(&chars("[1,")).is_none());
}

#[test]
fn strings_with_control_characters_are_rejected() {
    // a raw control character in a string is not renderable content
    let mut v = chars("\"ab");
    v.push('\u{0001}');
    v.push('"');
    assert!(parse_json(&v).is_none());
    // unsupported escapes are rejected rather than misread
    assert!(parse_json(&chars("\"a\\n\"")).is_none());
}

#[test]
fn numerals_round_trip_across_the_u64_range() {
    for v in [0u64, 1, 9, 10, 12345, u64::MAX] {
        let digits = u64_to_digits(v);
        assert_eq!(digits_to_u64(&digits), Some(v));
    }
    assert_eq!(text(&u64_to_digits(0)), "0");
    assert_eq!(text(&u64_to_digits(10700)), "10700");
    assert_eq!(digits_to_u64(&chars("18446744073709551615")), Some(u64::MAX));
    assert_eq!(digits_to_u64(&chars("18446744073709551616")), None);
    assert_eq!(digits_to_u64(&chars("")), None);
    assert_eq!(digits_to_u64(&chars("12a")), None);
    assert_eq!(digits_to_u64(&chars("-5")), None);
}
