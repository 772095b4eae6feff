use poi_cli::batch::{BatchSink, OutputRecord};
use poi_cli::json::{extract, JsonValue};
use poi_cli::profile::{get_content_type, RequestProfile};
use poi_cli::registry::{GeoCodingConfig, GeoCodingProfile};
use poi_cli::response::{extract_results, get_status_text, ResponseExt, ResponseProfile};
use poi_cli::{is_default, Error, ExtraArgs, ValidateConfig};

fn pairs(list: &[(&str, &str)]) -> Vec<(String, String)> {
    list.iter().map(|(k, v)| (k.to_string(), v.to_string())).collect()
}

fn simple_profile(body: Option<JsonValue>, headers: Vec<(String, String)>) -> RequestProfile {
    RequestProfile::new(
        "GET".to_string(),
        "http://example.com/geo".to_string(),
        None,
        headers,
        body,
    )
}

fn obj(entries: Vec<(&str, JsonValue)>) -> JsonValue {
    JsonValue::Object(entries.into_iter().map(|(k, v)| (k.to_string(), v)).collect())
}

fn text(s: &str) -> JsonValue {
    JsonValue::Text(s.to_string())
}

#[test]
fn merge_is_deterministic() {
    let profile = simple_profile(Some(obj(vec![("a", text("1"))])), Vec::new());
    let args = ExtraArgs::new_with_query(pairs(&[("city", "x")]));
    let (h1, q1, b1) = profile.generate(&args).unwrap();
    let (h2, q2, b2) = profile.generate(&args).unwrap();
    assert_eq!(h1, h2);
    assert_eq!(q1.to_json_text(), q2.to_json_text());
    assert_eq!(b1, b2);
}

#[test]
fn body_override_wins_over_default() {
    let profile = simple_profile(Some(obj(vec![("k", text("old"))])), Vec::new());
    let mut args = ExtraArgs::new();
    args.body = pairs(&[("k", "123")]);
    let (_h, _q, body) = profile.generate(&args).unwrap();
    assert_eq!(body, "{\"k\":123}");
}

#[test]
fn json_content_type_encodes_json() {
    let profile = simple_profile(Some(obj(vec![("a", text("1"))])), Vec::new());
    let args = ExtraArgs::new();
    let (headers, _q, body) = profile.generate(&args).unwrap();
    assert_eq!(body, "{\"a\":\"1\"}");
    // the default content type was inserted
    assert!(headers.iter().any(|(k, v)| k == "content-type" && v == "application/json"));
}

#[test]
fn form_content_type_encodes_form() {
    let profile = simple_profile(
        Some(obj(vec![("a", text("1"))])),
        pairs(&[("Content-Type", "application/x-www-form-urlencoded")]),
    );
    let args = ExtraArgs::new();
    let (_h, _q, body) = profile.generate(&args).unwrap();
    assert_eq!(body, "a=1");
}

#[test]
fn form_encoding_escapes_values() {
    let profile = simple_profile(
        Some(obj(vec![("a", text("x y&z"))])),
        pairs(&[("content-type", "application/x-www-form-urlencoded")]),
    );
    let (_h, _q, body) = profile.generate(&ExtraArgs::new()).unwrap();
    assert_eq!(body, "a=x+y%26z");
}

#[test]
fn unsupported_content_type_is_rejected() {
    let profile = simple_profile(
        Some(obj(vec![("a", text("1"))])),
        pairs(&[("Content-Type", "text/plain")]),
    );
    let err = profile.generate(&ExtraArgs::new()).unwrap_err();
    match &err {
        Error::UnsupportedContentType(v) => assert_eq!(v, "text/plain"),
        other => panic!("wrong error: {:?}", other),
    }
    assert_eq!(err.message(), "unsupported content type: text/plain");
}

#[test]
fn content_type_parameters_are_cut() {
    let headers = pairs(&[("Content-Type", "application/json; charset=utf-8")]);
    assert_eq!(get_content_type(&headers), Some("application/json".to_string()));
}

#[test]
fn malformed_body_override_names_its_key() {
    let profile = simple_profile(None, Vec::new());
    let mut args = ExtraArgs::new();
    args.body = pairs(&[("bad", "{not json")]);
    match profile.generate(&args).unwrap_err() {
        Error::MalformedOverride(k) => assert_eq!(k, "bad"),
        other => panic!("wrong error: {:?}", other),
    }
}

#[test]
fn invalid_header_override_is_rejected() {
    let profile = simple_profile(None, Vec::new());
    let mut args = ExtraArgs::new();
    args.headers = pairs(&[("bad name", "v")]);
    match profile.generate(&args).unwrap_err() {
        Error::InvalidHeaderName(k) => assert_eq!(k, "bad name"),
        other => panic!("wrong error: {:?}", other),
    }
}

#[test]
fn header_override_replaces_case_insensitively() {
    let profile = simple_profile(None, pairs(&[("Content-Type", "text/plain")]));
    let mut args = ExtraArgs::new();
    args.headers = pairs(&[("content-TYPE", "application/json")]);
    let (headers, _q, _b) = profile.generate(&args).unwrap();
    let cts: Vec<_> = headers
        .iter()
        .filter(|(k, _)| k.eq_ignore_ascii_case("content-type"))
        .collect();
    assert_eq!(cts.len(), 1);
    assert_eq!(cts[0].1, "application/json");
}

#[test]
fn extraction_is_total_and_lenient() {
    let v = obj(vec![("a", obj(vec![("b", JsonValue::Number("1".to_string()))]))]);
    assert_eq!(extract(&v, "a.b").to_json_text(), "1");
    assert_eq!(extract(&v, "a.missing").to_json_text(), "null");
    assert_eq!(extract(&v, "missing.deep.path").to_json_text(), "null");
    assert_eq!(extract(&JsonValue::Null, "anything").to_json_text(), "null");
    assert_eq!(extract(&v, "").to_json_text(), "null");
}

#[test]
fn extraction_indexes_arrays() {
    let v = obj(vec![(
        "items",
        JsonValue::Array(vec![text("zero"), text("one")]),
    )]);
    assert_eq!(extract(&v, "items.1").to_json_text(), "\"one\"");
    assert_eq!(extract(&v, "items.2").to_json_text(), "null");
    assert_eq!(extract(&v, "items.x").to_json_text(), "null");
}

#[test]
fn extraction_preserves_mapping_order() {
    let body = obj(vec![
        ("a", obj(vec![("b", JsonValue::Number("1".to_string()))])),
        ("c", JsonValue::Number("2".to_string())),
    ]);
    let profile = ResponseProfile::new(pairs(&[("a.b", "X"), ("c", "Y")]));
    let record = extract_results(&body, &profile);
    assert_eq!(record.to_json_text(), "{\"X\":1,\"Y\":2}");
}

#[test]
fn empty_mapping_passes_the_body_through() {
    let profile = ResponseProfile::new(Vec::new());
    let res = ResponseExt::new(Vec::new(), "{\"c\":2,\"a\":{\"b\":1}}".to_string());
    let record = res.get_results(&profile).unwrap();
    // serde_json's map orders object keys; the value is otherwise unchanged
    assert_eq!(record.to_json_text(), "{\"a\":{\"b\":1},\"c\":2}");
}

#[test]
fn non_json_response_is_a_hard_error() {
    let profile = ResponseProfile::new(Vec::new());
    let res = ResponseExt::new(Vec::new(), "not json".to_string());
    assert!(matches!(res.get_results(&profile), Err(Error::ResponseNotJson)));
    let res = ResponseExt::new(Vec::new(), "[1,2]".to_string());
    assert!(matches!(res.get_results(&profile), Err(Error::ResponseNotJson)));
}

#[test]
fn batch_rows_carry_only_their_own_address() {
    let profile = GeoCodingProfile::new(
        simple_profile(None, Vec::new()),
        ResponseProfile::new(Vec::new()),
    );
    let base = ExtraArgs::new();
    let rows = ["\u{5317}\u{4eac}\u{5e02}", "\u{4e0a}\u{6d77}\u{5e02}"];
    let suffix = "\u{4eba}\u{6c11}\u{653f}\u{5e9c}";
    let queries: Vec<String> = rows
        .iter()
        .map(|row| {
            let args = profile.args_with_city(&base, row);
            let (_h, q, _b) = profile.req.generate(&args).unwrap();
            q.to_json_text()
        })
        .collect();
    for (i, q) in queries.iter().enumerate() {
        let own = format!("{}{}", rows[i], suffix);
        let other = format!("{}{}", rows[1 - i], suffix);
        assert!(q.contains(&own));
        assert!(!q.contains(&other));
    }
}

#[test]
fn sink_writes_the_header_exactly_once() {
    let mut sink = BatchSink::new();
    let record = vec![
        ("name".to_string(), text("n")),
        ("score".to_string(), JsonValue::Number("7".to_string())),
    ];
    sink.write_result("\u{5730}\u{5740}", "row1", &record);
    sink.write_result("\u{5730}\u{5740}", "row2", &record);
    sink.write_result("\u{5730}\u{5740}", "row3", &record);
    let headers = sink
        .records
        .iter()
        .filter(|r| matches!(r, OutputRecord::Header(_)))
        .count();
    assert_eq!(headers, 1);
    assert_eq!(sink.records.len(), 4);
    match &sink.records[0] {
        OutputRecord::Header(fields) => {
            assert_eq!(fields, &vec!["\u{5730}\u{5740}", "name", "score"]);
        }
        _ => panic!("first record must be the header"),
    }
    match &sink.records[1] {
        OutputRecord::Data(fields) => {
            assert_eq!(fields, &vec!["row1", "n", "7"]);
        }
        _ => panic!("second record must be data"),
    }
}

#[test]
fn null_fields_render_empty_in_rows() {
    let mut sink = BatchSink::new();
    let record = vec![
        ("a".to_string(), JsonValue::Null),
        ("b".to_string(), obj(vec![("x", text("y"))])),
    ];
    sink.write_result("addr", "r", &record);
    match &sink.records[1] {
        OutputRecord::Data(fields) => {
            assert_eq!(fields, &vec!["r", "", "{\"x\":\"y\"}"]);
        }
        _ => panic!("expected a data record"),
    }
}

#[test]
fn validation_rejects_non_objects_and_bad_urls() {
    let good = simple_profile(None, Vec::new());
    assert!(good.validate().is_ok());

    let bad_params = RequestProfile::new(
        "GET".to_string(),
        "http://example.com".to_string(),
        Some(text("scalar")),
        Vec::new(),
        None,
    );
    assert!(matches!(bad_params.validate(), Err(Error::NotAnObject(_))));

    let bad_url = RequestProfile::new(
        "GET".to_string(),
        "not a url".to_string(),
        None,
        Vec::new(),
        None,
    );
    assert!(matches!(bad_url.validate(), Err(Error::InvalidUrl(_))));
}

#[test]
fn registry_validation_names_the_failing_profile() {
    let good = GeoCodingProfile::new(simple_profile(None, Vec::new()), ResponseProfile::new(Vec::new()));
    let bad = GeoCodingProfile::new(
        RequestProfile::new("GET".to_string(), "::".to_string(), None, Vec::new(), None),
        ResponseProfile::new(Vec::new()),
    );
    let config = GeoCodingConfig::new(vec![("ok".to_string(), good), ("broken".to_string(), bad)]);
    match config.validate() {
        Err(Error::ProfileInvalid(name)) => assert_eq!(name, "broken"),
        other => panic!("wrong result: {:?}", other),
    }
    assert!(config.get_profile("ok").is_some());
    assert!(config.get_profile("nowhere").is_none());
}

#[test]
fn get_url_carries_the_merged_query() {
    let profile = RequestProfile::new(
        "GET".to_string(),
        "http://example.com/geo".to_string(),
        Some(obj(vec![("key", text("abc"))])),
        Vec::new(),
        None,
    );
    let args = ExtraArgs::new_with_query(pairs(&[("address", "here")]));
    let url = profile.get_url(&args).unwrap();
    assert_eq!(url, "http://example.com/geo?key=abc&address=here");

    let bare = simple_profile(None, Vec::new());
    assert_eq!(bare.get_url(&ExtraArgs::new()).unwrap(), "http://example.com/geo");
}

#[test]
fn get_url_bracket_encodes_nested_params() {
    let profile = RequestProfile::new(
        "GET".to_string(),
        "http://example.com/geo".to_string(),
        Some(obj(vec![
            ("a", obj(vec![("b", JsonValue::Number("1".to_string()))])),
            ("c", text("x")),
        ])),
        Vec::new(),
        None,
    );
    let url = profile.get_url(&ExtraArgs::new()).unwrap();
    assert_eq!(url, "http://example.com/geo?a%5Bb%5D=1&c=x");
}

#[test]
fn get_url_flattens_arrays_and_null() {
    let profile = RequestProfile::new(
        "GET".to_string(),
        "http://example.com/geo".to_string(),
        Some(obj(vec![
            (
                "l",
                JsonValue::Array(vec![
                    JsonValue::Number("1".to_string()),
                    JsonValue::Number("2".to_string()),
                ]),
            ),
            ("n", JsonValue::Null),
        ])),
        Vec::new(),
        None,
    );
    let url = profile.get_url(&ExtraArgs::new()).unwrap();
    assert_eq!(url, "http://example.com/geo?l%5B0%5D=1&l%5B1%5D=2&n=");
}

#[test]
fn non_ascii_header_values_are_accepted() {
    let profile = simple_profile(None, Vec::new());
    let mut args = ExtraArgs::new();
    args.headers = pairs(&[("note", "caf\u{e9} \u{2014} ok")]);
    let (headers, _q, _b) = profile.generate(&args).unwrap();
    assert!(headers.iter().any(|(k, v)| k == "note" && v == "caf\u{e9} \u{2014} ok"));
}

#[test]
fn validation_reports_params_before_body() {
    let both_bad = RequestProfile::new(
        "GET".to_string(),
        "http://example.com".to_string(),
        Some(text("p")),
        Vec::new(),
        Some(text("b")),
    );
    match both_bad.validate() {
        Err(Error::NotAnObject(part)) => assert_eq!(part, "params"),
        other => panic!("wrong result: {:?}", other),
    }
}

#[test]
fn from_url_moves_the_query_into_params() {
    let profile = RequestProfile::from_url("http://example.com/geo?a=1").unwrap();
    assert!(profile.validate().is_ok());
    assert_eq!(profile.method, "GET");
    assert_eq!(profile.url, "http://example.com/geo");
    let params = profile.params.as_ref().unwrap();
    assert_eq!(params.to_json_text(), "{\"a\":1}");
    assert!(profile.body.is_none());
    assert!(profile.headers.is_empty());

    assert!(matches!(
        RequestProfile::from_url("definitely not a url"),
        Err(Error::InvalidUrl(_))
    ));
}

#[test]
fn status_text_and_small_helpers() {
    assert_eq!(get_status_text("HTTP/1.1", "200 OK"), "HTTP/1.1 200 OK");
    assert!(is_default(&0u32));
    assert!(!is_default(&1u32));
    let args = ExtraArgs::new_with_headers(pairs(&[("a", "b")]));
    assert_eq!(args.headers.len(), 1);
    assert!(args.query.is_empty() && args.body.is_empty());
}

#[test]
fn json_text_escapes_strings() {
    let v = obj(vec![("s", text("a\"b\\c\nd"))]);
    assert_eq!(v.to_json_text(), "{\"s\":\"a\\\"b\\\\c\\nd\"}");
    let ctl = text("\u{1}");
    assert_eq!(ctl.to_json_text(), "\"\\u0001\"");
}
