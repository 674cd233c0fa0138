use registry_util::json::{can_respond, fixup, json_reply, json_response, respond_with, try_json_response, Json};
use registry_util::json_limits::{is_parseable, is_printable, number_text};

fn text(s: &str) -> String {
    s.to_string()
}

fn body_of(response: &registry_util::http::Response) -> String {
    String::from_utf8(response.body.clone()).unwrap()
}

#[test]
fn renames_krate_at_the_top_level() {
    let given = Json::Object(vec![(text("krate"), Json::U64(1)), (text("name"), Json::Null)]);
    match fixup(&given) {
        Json::Object(members) => {
            assert_eq!(members.len(), 2);
            assert_eq!(members[0].0, "crate");
            assert!(matches!(members[0].1, Json::U64(1)));
            assert_eq!(members[1].0, "name");
            assert!(matches!(members[1].1, Json::Null));
        }
        _ => panic!("an object stays an object"),
    }
}

#[test]
fn renames_krate_one_level_down() {
    let response = json_response("{\"version\":{\"krate\":\"serde\",\"num\":\"1.0.0\"}}");
    assert_eq!(body_of(&response), "{\"version\":{\"crate\":\"serde\",\"num\":\"1.0.0\"}}");
}

#[test]
fn json_response_renames_nested_keys() {
    let response = json_response("{\"a\":[{\"krate\":{\"krate\":1}},2],\"krate\":\"krate\"}");
    assert_eq!(response.status, (200, "OK"));
    let body = body_of(&response);
    assert_eq!(body, "{\"a\":[{\"crate\":{\"crate\":1}},2],\"crate\":\"krate\"}");
    assert_eq!(
        response.headers.get("Content-Type"),
        Some(&vec![text("application/json; charset=utf-8")])
    );
    assert_eq!(response.headers.get("Content-Length"), Some(&vec![body.len().to_string()]));
    assert_eq!(response.headers.entries().len(), 2);
}

#[test]
fn array_order_and_siblings_stay() {
    let response = json_response("[3,{\"krate\":1,\"b\":[true,null,\"x\"]},1,-2,1.5,\"krate\"]");
    assert_eq!(body_of(&response), "[3,{\"b\":[true,null,\"x\"],\"crate\":1},1,-2,1.5,\"krate\"]");
}

#[test]
fn a_value_without_krate_is_printed_as_it_was() {
    let text = "{\"crate\":{\"id\":\"foo\",\"keywords\":[]},\"n\":7}";
    assert_eq!(body_of(&json_response(text)), text);
}

#[test]
fn krate_replaces_a_crate_that_was_there() {
    let response = json_response("{\"crate\":1,\"krate\":2,\"z\":3}");
    assert_eq!(body_of(&response), "{\"crate\":2,\"z\":3}");
    let given = Json::Object(vec![
        (text("krate"), Json::U64(2)),
        (text("crate"), Json::U64(1)),
    ]);
    match fixup(&given) {
        Json::Object(members) => {
            assert_eq!(members.len(), 1);
            assert_eq!(members[0].0, "crate");
            assert!(matches!(members[0].1, Json::U64(2)));
        }
        _ => panic!("an object stays an object"),
    }
    assert_eq!(body_of(&respond_with(&given)), "{\"crate\":2}");
}

#[test]
fn scalars_pass_through() {
    assert!(matches!(fixup(&Json::Null), Json::Null));
    assert!(matches!(fixup(&Json::Boolean(true)), Json::Boolean(true)));
    assert!(matches!(fixup(&Json::I64(-4)), Json::I64(-4)));
    assert!(matches!(fixup(&Json::U64(4)), Json::U64(4)));
    match fixup(&Json::String(text("krate"))) {
        Json::String(s) => assert_eq!(s, "krate"),
        _ => panic!("a string stays a string"),
    }
    match fixup(&Json::Real(text("2.5"))) {
        Json::Real(s) => assert_eq!(s, "2.5"),
        _ => panic!("a real number stays one"),
    }
    assert_eq!(body_of(&respond_with(&Json::Real(text("2.5")))), "2.5");
    assert_eq!(body_of(&respond_with(&Json::Real(text("3")))), "3.0");
}

#[test]
fn renaming_twice_changes_nothing_more() {
    let once = json_response("{\"krate\":{\"krate\":[{\"krate\":1}]}}");
    let twice = json_response(&body_of(&once));
    assert_eq!(body_of(&once), "{\"crate\":{\"crate\":[{\"crate\":1}]}}");
    assert_eq!(body_of(&twice), body_of(&once));
}

#[test]
fn try_json_response_refuses_what_is_not_json() {
    assert!(try_json_response("{\"krate\":").is_none());
    assert!(try_json_response("").is_none());
    assert!(!can_respond("{\"krate\":"));
    let response = try_json_response("{\"krate\":1.5}").unwrap();
    assert_eq!(body_of(&response), "{\"crate\":1.5}");
}

#[test]
fn content_length_counts_bytes() {
    let response = json_reply("\"\u{e9}\"");
    assert_eq!(response.body.len(), 4);
    assert_eq!(response.headers.get("Content-Length"), Some(&vec![text("4")]));
    let empty = json_reply("");
    assert_eq!(empty.headers.get("Content-Length"), Some(&vec![text("0")]));
    assert!(empty.body.is_empty());
}

#[test]
fn a_long_text_with_short_keys_is_answered() {
    let member = "{\"krate\":\"serde\",\"id\":123456,\"description\":\"a framework\"}";
    let listing = format!("[{}]", vec![member; 2000].join(","));
    assert!(listing.len() > 70_000);
    assert!(is_parseable(&listing));
    let body = body_of(&try_json_response(&listing).unwrap());
    assert_eq!(body.matches("\"crate\":\"serde\"").count(), 2000);
    assert!(!body.contains("krate"));
    let long_value = format!("{{\"readme\":\"{}\"}}", "x".repeat(100_000));
    assert_eq!(body_of(&try_json_response(&long_value).unwrap()), long_value);
}

#[test]
fn a_comma_before_a_closing_brace_is_not_handed_to_the_parser() {
    for text in [
        "[{\"x\":{\"a\":1,},\"b\":2}]",
        "{\"a\":1,}",
        "{\"x\":{\"a\":1, \n\t\r}}",
        "[{\"x\":[{\"a\":1,}]}]",
        ",}",
    ] {
        assert!(!is_parseable(text), "{:?}", text);
        assert!(!can_respond(text), "{:?}", text);
        assert!(try_json_response(text).is_none(), "{:?}", text);
    }
    for text in ["{\"a\":\",}\"}", "[1,2]", "{\"a\":1,\"b\":{}}", "[\",\",{}]", "{\"a\":[1,{}]}"] {
        assert!(is_parseable(text), "{:?}", text);
        assert!(can_respond(text), "{:?}", text);
    }
    assert!(is_parseable("[1,]"));
    assert!(!can_respond("[1,]"));
}

#[test]
fn a_text_that_nests_too_deep_is_not_handed_to_the_parser() {
    let fits = format!("{}{}", "[".repeat(64), "]".repeat(64));
    assert!(is_parseable(&fits));
    assert_eq!(body_of(&try_json_response(&fits).unwrap()), fits);
    let over = format!("{}{}", "[".repeat(65), "]".repeat(65));
    assert!(!is_parseable(&over));
    assert!(try_json_response(&over).is_none());
    assert!(!is_parseable(&"[".repeat(40_000)));
    assert!(!is_parseable(&"{\"a\":".repeat(65)));
    let wide = format!("[{}[]]", "[[]],".repeat(10_000));
    assert!(is_parseable(&wide));
    assert!(can_respond(&wide));
    let in_string = format!("\"{}\"", "[".repeat(1000));
    assert!(is_parseable(&in_string));
}

#[test]
fn a_key_of_too_many_characters_is_not_handed_to_the_parser() {
    let fits = format!("{{\"{}\":1}}", "k".repeat(255));
    assert!(is_parseable(&fits));
    assert_eq!(body_of(&try_json_response(&fits).unwrap()), fits);
    let over = format!("{{\"{}\":1}}", "k".repeat(256));
    assert!(!is_parseable(&over));
    assert!(try_json_response(&over).is_none());
    let key = "k".repeat(40_000);
    assert!(try_json_response(&format!("{{\"{}\":{{\"{}\":1}}}}", key, key)).is_none());
    let wide = "\u{20ac}".repeat(21_846);
    assert!(try_json_response(&format!("{{\"{}\":1}}", wide)).is_none());
    let euro = format!("{{\"{}\":1}}", "\u{20ac}".repeat(255));
    assert_eq!(body_of(&try_json_response(&euro).unwrap()), euro);
    let spaced = format!("{{\"{}\" \n:1}}", "k".repeat(256));
    assert!(!is_parseable(&spaced));
    let escaped = format!("{{\"{}\":1}}", "\\\"".repeat(128));
    assert!(!is_parseable(&escaped));
}

#[test]
fn a_text_with_an_exponent_is_not_handed_to_the_parser() {
    for text in ["1e5", "[1E5]", "1.5e-3", "1e99999999999999999999", "{\"a\":2e+1}", "0e0"] {
        assert!(!is_parseable(text), "{:?}", text);
        assert!(try_json_response(text).is_none(), "{:?}", text);
    }
    for text in [
        "true",
        "[false,null]",
        "e",
        "\"1e5\"",
        "{\"cksum\":\"3e1234567890123e-9999999999\"}",
        "\"a\\\"1e12345678901\"",
        "12345678901234567890",
        "",
    ] {
        assert!(is_parseable(text), "{:?}", text);
    }
    assert!(!is_parseable("\"a\\\\\"1e1"));
    assert!(!is_parseable("[\"\",1e1]"));
    assert_eq!(
        body_of(&try_json_response("{\"cksum\":\"3e1234567890123\"}").unwrap()),
        "{\"cksum\":\"3e1234567890123\"}"
    );
}

#[test]
fn numbers_that_are_none_are_printed_as_null() {
    let odd = Json::Array(vec![Json::Real(text("inf")), Json::Real(text("-inf")), Json::Real(text("NaN"))]);
    assert_eq!(body_of(&respond_with(&odd)), "[null,null,null]");
}

#[test]
fn number_text_is_what_writes_a_number() {
    for text in ["0", "-0", "1", "15", "1.5", "-1.5", "0.000001", "100000000000000000000", "NaN", "inf", "-inf"] {
        assert!(number_text(text), "{:?}", text);
        assert!(text.parse::<f64>().is_ok(), "{:?}", text);
    }
    for text in ["", "-", ".", "1.", ".5", "-.5", "1..5", "1.5.2", "1e5", "+1", "abc", "1a", "nan", "Inf", "--1", "1-", " 1"] {
        assert!(!number_text(text), "{:?}", text);
    }
}

#[test]
fn a_value_is_printable_where_its_real_numbers_are() {
    assert!(is_printable(&Json::Real(text("2.5"))));
    assert!(!is_printable(&Json::Real(text("two"))));
    assert!(is_printable(&Json::String(text("two"))));
    let inside = Json::Array(vec![
        Json::Null,
        Json::Object(vec![(text("x"), Json::Array(vec![Json::Real(text("1.0.0"))]))]),
    ]);
    assert!(!is_printable(&inside));
    let fine = Json::Array(vec![
        Json::Null,
        Json::Object(vec![(text("krate"), Json::Array(vec![Json::Real(text("-7"))]))]),
    ]);
    assert!(is_printable(&fine));
    assert_eq!(body_of(&respond_with(&fine)), "[null,{\"crate\":[-7.0]}]");
}

#[test]
fn what_the_parser_reads_is_printable() {
    for given in ["1.5", "-0.0", "10000000000000000000.0", "0.0000001", "123456789.125", "[0.1,0.2,-3]"] {
        assert!(can_respond(given), "{:?}", given);
    }
    assert_eq!(body_of(&try_json_response("[0.1,0.25,-0.0,7.0]").unwrap()), "[0.1,0.25,-0.0,7.0]");
    assert!(!can_respond("{"));
    assert!(!can_respond("nul"));
}

#[test]
fn a_value_that_nests_too_deep_is_not_printable() {
    let mut deep = Json::Null;
    for _ in 0..64 {
        deep = Json::Array(vec![deep]);
    }
    assert!(is_printable(&deep));
    assert_eq!(body_of(&respond_with(&deep)), format!("{}null{}", "[".repeat(64), "]".repeat(64)));
    let deeper = Json::Object(vec![(text("krate"), deep)]);
    assert!(!is_printable(&deeper));
}
