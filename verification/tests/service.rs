use beer_service::config::parse_port;
use beer_service::json::{encode_records, parse_record};
use beer_service::record::Beer;
use beer_service::router::{handle, Method, Request};
use beer_service::store::Store;

fn req(method: Method, path: &str, body: &str) -> Request {
    Request { method, path: path.to_string(), body: body.to_string() }
}

#[test]
fn greeting_route() {
    let mut store = Store::new();
    let resp = handle(&mut store, &req(Method::Get, "/", ""));
    assert_eq!(resp.status, 200);
    assert_eq!(resp.body, "Habe die Ehre!");
    assert_eq!(store.len(), 0);
}

#[test]
fn empty_list() {
    let mut store = Store::new();
    let resp = handle(&mut store, &req(Method::Get, "/beers", ""));
    assert_eq!(resp.status, 200);
    assert_eq!(resp.body, "[]");
}

#[test]
fn insert_then_list() {
    let mut store = Store::new();
    let resp = handle(
        &mut store,
        &req(Method::Post, "/beers", "{\"brewery\":\"Weihenstephan\",\"name\":\"Hefeweissbier\"}"),
    );
    assert_eq!(resp.status, 201);
    assert_eq!(resp.body, "");
    let resp = handle(&mut store, &req(Method::Get, "/beers", ""));
    assert_eq!(resp.status, 200);
    assert_eq!(resp.body, "[{\"brewery\":\"Weihenstephan\",\"name\":\"Hefeweissbier\"}]");
}

#[test]
fn duplicate_insert_is_idempotent() {
    let mut store = Store::new();
    let body = "{\"brewery\":\"Weihenstephan\",\"name\":\"Hefeweissbier\"}";
    let resp = handle(&mut store, &req(Method::Post, "/beers", body));
    assert_eq!(resp.status, 201);
    let resp = handle(&mut store, &req(Method::Post, "/beers", body));
    assert_eq!(resp.status, 201);
    assert_eq!(store.len(), 1);
    let resp = handle(&mut store, &req(Method::Get, "/beers", ""));
    assert_eq!(resp.body, "[{\"brewery\":\"Weihenstephan\",\"name\":\"Hefeweissbier\"}]");
}

#[test]
fn distinct_records_coexist() {
    let mut store = Store::new();
    let resp = handle(&mut store, &req(Method::Post, "/beers", "{\"brewery\":\"A\",\"name\":\"X\"}"));
    assert_eq!(resp.status, 201);
    let resp = handle(&mut store, &req(Method::Post, "/beers", "{\"brewery\":\"A\",\"name\":\"Y\"}"));
    assert_eq!(resp.status, 201);
    assert_eq!(store.len(), 2);
    let resp = handle(&mut store, &req(Method::Get, "/beers", ""));
    assert_eq!(resp.body, "[{\"brewery\":\"A\",\"name\":\"X\"},{\"brewery\":\"A\",\"name\":\"Y\"}]");
}

#[test]
fn malformed_body_rejected() {
    let mut store = Store::new();
    let resp = handle(&mut store, &req(Method::Post, "/beers", "{\"brewery\":\"OnlyBrewery\"}"));
    assert_eq!(resp.status, 400);
    let resp = handle(&mut store, &req(Method::Get, "/beers", ""));
    assert_eq!(resp.status, 200);
    assert_eq!(resp.body, "[]");
}

#[test]
fn many_distinct_inserts_all_preserved() {
    let mut store = Store::new();
    let names = ["One", "Two", "Three", "Four", "Five"];
    for name in names.iter() {
        let body = format!("{{\"brewery\":\"B\",\"name\":\"{}\"}}", name);
        let resp = handle(&mut store, &req(Method::Post, "/beers", &body));
        assert_eq!(resp.status, 201);
    }
    assert_eq!(store.len(), 5);
    for (i, name) in names.iter().enumerate() {
        let beer = Beer::new("B".to_string(), name.to_string());
        assert!(store.contains(&beer));
        assert!(store.get(i) == &beer);
    }
}

#[test]
fn unknown_routes_not_found() {
    let mut store = Store::new();
    let resp = handle(&mut store, &req(Method::Get, "/nothing", ""));
    assert_eq!(resp.status, 404);
    let resp = handle(&mut store, &req(Method::Post, "/", "{\"brewery\":\"A\",\"name\":\"X\"}"));
    assert_eq!(resp.status, 404);
    let resp = handle(&mut store, &req(Method::Other, "/beers", ""));
    assert_eq!(resp.status, 404);
    assert_eq!(store.len(), 0);
}

#[test]
fn parse_accepts_either_field_order() {
    let b = parse_record("{\"name\":\"X\",\"brewery\":\"A\"}").unwrap();
    assert_eq!(b.brewery, "A");
    assert_eq!(b.name, "X");
}

#[test]
fn parse_accepts_whitespace() {
    let b = parse_record(" \t\r\n{ \"brewery\" : \"A\" , \"name\" : \"X\" } \n").unwrap();
    assert_eq!(b.brewery, "A");
    assert_eq!(b.name, "X");
}

#[test]
fn parse_handles_escapes() {
    let b = parse_record("{\"brewery\":\"A\\\"B\\\\C\\/\",\"name\":\"a\\nb\\tc\\rd\\be\\ff\"}")
        .unwrap();
    assert_eq!(b.brewery, "A\"B\\C/");
    assert_eq!(b.name, "a\nb\tc\rd\u{0008}e\u{000C}f");
}

#[test]
fn parse_handles_unicode_escapes() {
    let b = parse_record("{\"brewery\":\"Sp\\u00e4ten\",\"name\":\"X\"}").unwrap();
    assert_eq!(b.brewery, "Sp\u{00e4}ten");
    let b = parse_record("{\"brewery\":\"Sp\\u00E4ten\",\"name\":\"X\"}").unwrap();
    assert_eq!(b.brewery, "Sp\u{00e4}ten");
    let b = parse_record("{\"brewery\":\"A\",\"name\":\"\\ud83c\\udf7a\"}").unwrap();
    assert_eq!(b.name, "\u{1f37a}");
    let b = parse_record("{\"brewery\":\"A\",\"name\":\"\\u0041\"}").unwrap();
    assert_eq!(b.name, "A");
}

#[test]
fn parse_rejects_bad_unicode_escapes() {
    assert!(parse_record("{\"brewery\":\"A\",\"name\":\"\\u00g1\"}").is_none());
    assert!(parse_record("{\"brewery\":\"A\",\"name\":\"\\u00\"}").is_none());
    assert!(parse_record("{\"brewery\":\"A\",\"name\":\"\\udc00\"}").is_none());
    assert!(parse_record("{\"brewery\":\"A\",\"name\":\"\\ud83c\"}").is_none());
    assert!(parse_record("{\"brewery\":\"A\",\"name\":\"\\ud83cx\"}").is_none());
    assert!(parse_record("{\"brewery\":\"A\",\"name\":\"\\ud83c\\u0041\"}").is_none());
}

#[test]
fn encoded_control_chars_parse_back() {
    let mut store = Store::new();
    let posted = parse_record("{\"brewery\":\"A\",\"name\":\"x\\nb\"}").unwrap();
    store.add(posted.duplicate());
    let body = encode_records(&store);
    assert_eq!(body, "[{\"brewery\":\"A\",\"name\":\"x\\u000ab\"}]");
    let reposted = parse_record("{\"brewery\":\"A\",\"name\":\"x\\u000ab\"}").unwrap();
    assert!(reposted == posted);
    store.add(reposted);
    assert_eq!(store.len(), 1);
}

#[test]
fn parse_rejects_bad_bodies() {
    assert!(parse_record("").is_none());
    assert!(parse_record("not json").is_none());
    assert!(parse_record("{}").is_none());
    assert!(parse_record("{\"brewery\":\"A\"}").is_none());
    assert!(parse_record("{\"name\":\"X\"}").is_none());
    assert!(parse_record("{\"brewery\":\"A\",\"name\":\"X\"} trailing").is_none());
    assert!(parse_record("{\"brewery\":\"A\",\"name\":\"X\",\"extra\":\"Y\"}").is_none());
    assert!(parse_record("{\"brewery\":\"A\",\"name\":1}").is_none());
    assert!(parse_record("{\"brewery\":\"A\",\"name\":\"X\"").is_none());
    assert!(parse_record("{\"brewery\":\"A\",\"name\":\"bad\\zescape\"}").is_none());
    assert!(parse_record("[{\"brewery\":\"A\",\"name\":\"X\"}]").is_none());
}

#[test]
fn encode_escapes_fields() {
    let mut store = Store::new();
    store.add(Beer::new("A\"B\\C".to_string(), "x\ny".to_string()));
    let body = encode_records(&store);
    assert_eq!(body, "[{\"brewery\":\"A\\\"B\\\\C\",\"name\":\"x\\u000ay\"}]");
}

#[test]
fn store_operations() {
    let mut store = Store::new();
    assert_eq!(store.len(), 0);
    let a = Beer::new("A".to_string(), "X".to_string());
    assert!(!store.contains(&a));
    store.add(a.duplicate());
    assert!(store.contains(&a));
    assert_eq!(store.len(), 1);
    assert!(store.get(0) == &a);
    let b = Beer::new("A".to_string(), "Y".to_string());
    assert!(a != b);
    assert!(a == a.duplicate());
}

#[test]
fn port_parsing() {
    assert_eq!(parse_port("8080"), Some(8080));
    assert_eq!(parse_port("0"), Some(0));
    assert_eq!(parse_port("0080"), Some(80));
    assert_eq!(parse_port("+443"), Some(443));
    assert_eq!(parse_port("65535"), Some(65535));
    assert_eq!(parse_port("65536"), None);
    assert_eq!(parse_port("99999999999999999999"), None);
    assert_eq!(parse_port(""), None);
    assert_eq!(parse_port("+"), None);
    assert_eq!(parse_port("-1"), None);
    assert_eq!(parse_port("80a"), None);
    assert_eq!(parse_port(" 80"), None);
}
