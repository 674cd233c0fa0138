use registry_util::errors::CargoError;
use conduit::Method;
use registry_util::http::Request;
use registry_util::request::{in_reach, paginate, query_of, RequestUtils};
use registry_util::text_map::TextMap;

fn request(query: Option<&str>) -> Request {
    Request {
        method: Method::Get,
        path: "/crates".to_string(),
        query_string: query.map(|q| q.to_string()),
        headers: TextMap::new(),
        params: TextMap::new(),
        body: Vec::new(),
        commits: 0,
    }
}

fn with_accept(values: &[&str]) -> Request {
    let mut req = request(None);
    req.headers.insert("Accept".to_string(), values.iter().map(|v| v.to_string()).collect());
    req
}

fn message_of(result: Result<(i64, i64), CargoError>) -> String {
    match result {
        Err(CargoError::Human { message, response }) => {
            assert!(response.is_none());
            message
        }
        _ => panic!("a human error was expected"),
    }
}

#[test]
fn pagination_of_the_third_page() {
    let req = request(Some("page=3&per_page=20"));
    assert!(matches!((&req).pagination(10, 50), Ok((40, 20))));
}

#[test]
fn pagination_refuses_more_than_the_maximum() {
    let req = request(Some("per_page=100"));
    assert_eq!(message_of((&req).pagination(10, 50)), "cannot request more than 50 items");
}

#[test]
fn pagination_without_parameters() {
    let req = request(None);
    assert!(matches!((&req).pagination(10, 50), Ok((0, 10))));
    let empty = request(Some(""));
    assert!(matches!((&empty).pagination(10, 50), Ok((0, 10))));
}

#[test]
fn pagination_falls_back_on_what_is_no_number() {
    let req = request(Some("page=two&per_page=-5"));
    assert!(matches!((&req).pagination(10, 50), Ok((0, 10))));
    let req = request(Some("page=2&per_page="));
    assert!(matches!((&req).pagination(10, 50), Ok((10, 10))));
    let req = request(Some("page=99999999999999999999999&per_page=5"));
    assert!(matches!((&req).pagination(10, 50), Ok((0, 5))));
    let req = request(Some("page=%2B4&per_page=%35"));
    assert!(matches!((&req).pagination(10, 50), Ok((15, 5))));
}

#[test]
fn pagination_at_the_maximum_is_no_error() {
    let req = request(Some("page=2&per_page=50"));
    assert!(matches!((&req).pagination(10, 50), Ok((50, 50))));
    let req = request(Some("per_page=51"));
    assert_eq!(message_of((&req).pagination(10, 50)), "cannot request more than 50 items");
    let req = request(Some("page=7"));
    assert_eq!(message_of((&req).pagination(60, 50)), "cannot request more than 50 items");
    let req = request(Some("page=7&per_page=0"));
    assert!(matches!((&req).pagination(10, 50), Ok((0, 0))));
}

#[test]
fn page_zero_is_the_first_page() {
    let req = request(Some("page=0"));
    assert!(matches!((&req).pagination(10, 50), Ok((0, 10))));
    let req = request(Some("page=0&per_page=20"));
    assert!(matches!((&req).pagination(10, 50), Ok((0, 20))));
    let req = request(Some("page=1&per_page=20"));
    assert!(matches!((&req).pagination(10, 50), Ok((0, 20))));
    let req = request(Some("page=00&per_page=51"));
    assert_eq!(message_of((&req).pagination(10, 50)), "cannot request more than 50 items");
}

#[test]
fn pagination_takes_the_last_of_repeated_parameters() {
    let req = request(Some("page=2&page=5&per_page=10"));
    assert!(matches!((&req).pagination(10, 50), Ok((40, 10))));
}

#[test]
fn checked_pagination_knows_what_cannot_be_computed() {
    let req = request(Some("page=0"));
    assert!(matches!((&req).checked_pagination(10, 50), Some(Ok((0, 10)))));
    let req = request(Some("page=0&per_page=100"));
    let result = (&req).checked_pagination(10, 50).unwrap();
    assert_eq!(message_of(result), "cannot request more than 50 items");
    let req = request(Some("page=3&per_page=20"));
    assert!(matches!((&req).checked_pagination(10, 50), Some(Ok((40, 20)))));
    let huge = format!("page={}&per_page=2", u64::MAX);
    let req = request(Some(&huge));
    assert!((&req).checked_pagination(10, 50).is_none());
    let fits = format!("page={}&per_page=1", i64::MAX);
    let req = request(Some(&fits));
    assert!(matches!((&req).checked_pagination(10, 50), Some(Ok((o, 1))) if o == i64::MAX - 1));
}

#[test]
fn paginate_works_on_a_query_map() {
    let mut query: TextMap<String> = TextMap::new();
    query.insert("page".to_string(), "4".to_string());
    query.insert("per_page".to_string(), "25".to_string());
    assert!(in_reach(&query, 10, 100));
    assert!(matches!(paginate(&query, 10, 100), Ok((75, 25))));
    assert_eq!(message_of(paginate(&query, 10, 24)), "cannot request more than 24 items");
}

#[test]
fn query_decodes_and_keeps_the_last_value() {
    let req = request(Some("q=a+b&name=%23first&q=c%20d&empty&=x"));
    let query = (&req).query();
    assert_eq!(query.get("q"), Some(&"c d".to_string()));
    assert_eq!(query.get("name"), Some(&"#first".to_string()));
    assert_eq!(query.get("empty"), Some(&"".to_string()));
    assert_eq!(query.get(""), Some(&"x".to_string()));
    assert_eq!(query.get("missing"), None);
    assert_eq!(query.entries().len(), 4);
    assert!((&request(None)).query().entries().is_empty());
}

#[test]
fn query_of_lets_the_last_pair_win() {
    let pairs = vec![
        ("a".to_string(), "1".to_string()),
        ("b".to_string(), "2".to_string()),
        ("a".to_string(), "3".to_string()),
    ];
    let query = query_of(&pairs);
    assert_eq!(query.get("a"), Some(&"3".to_string()));
    assert_eq!(query.get("b"), Some(&"2".to_string()));
    assert_eq!(query.entries().len(), 2);
}

#[test]
fn wants_json_reads_the_accept_header() {
    assert!((&with_accept(&["text/html, application/json"])).wants_json());
    assert!(!(&request(None)).wants_json());
    assert!(!(&with_accept(&["text/html"])).wants_json());
}

#[test]
fn wants_json_looks_at_every_value_and_at_case() {
    assert!((&with_accept(&["text/html", "application/json"])).wants_json());
    assert!(!(&with_accept(&["application/JSON"])).wants_json());
    assert!(!(&with_accept(&[])).wants_json());
    assert!((&with_accept(&["json"])).wants_json());
    assert!(!(&with_accept(&["jso", "son"])).wants_json());
    let mut other = request(None);
    other.headers.insert("Content-Type".to_string(), vec!["application/json".to_string()]);
    assert!(!(&other).wants_json());
}

#[test]
fn redirect_points_to_the_url() {
    let req = request(None);
    let response = (&req).redirect("https://example.com/a?b=c".to_string());
    assert_eq!(response.status, (302, "Found"));
    assert_eq!(response.headers.get("Location"), Some(&vec!["https://example.com/a?b=c".to_string()]));
    assert_eq!(response.headers.entries().len(), 1);
    assert!(response.body.is_empty());
}

#[test]
fn json_of_a_request_shapes_the_text() {
    let req = request(None);
    let response = (&req).json("{\"krate\":{\"id\":1}}");
    assert_eq!(response.status, (200, "OK"));
    assert_eq!(String::from_utf8(response.body).unwrap(), "{\"crate\":{\"id\":1}}");
    assert!((&req).try_json("[1,").is_none());
    assert!((&req).try_json("[1]").is_some());
}
