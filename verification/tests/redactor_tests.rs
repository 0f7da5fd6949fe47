use chirodactor::audit::AuditLog;
use chirodactor::registry::Registry;
use chirodactor::tokens::make_token;
use chirodactor::walk::{redact_document, Json};

fn obj(fields: Vec<(&str, Json)>) -> Json {
    Json::Object(fields.into_iter().map(|(k, v)| (k.to_string(), v)).collect())
}

fn s(x: &str) -> Json {
    Json::String(x.to_string())
}

fn num(x: &str) -> Json {
    Json::Number(x.to_string())
}

fn to_value(j: &Json) -> serde_json::Value {
    match j {
        Json::Null => serde_json::Value::Null,
        Json::Bool(b) => serde_json::Value::Bool(*b),
        Json::Number(t) => serde_json::Value::Number(t.parse().unwrap()),
        Json::String(t) => serde_json::Value::String(t.clone()),
        Json::Array(v) => serde_json::Value::Array(v.iter().map(to_value).collect()),
        Json::Object(fs) => {
            let mut m = serde_json::Map::new();
            for (k, v) in fs {
                m.insert(k.clone(), to_value(v));
            }
            serde_json::Value::Object(m)
        }
    }
}

#[test]
fn scenario_display_name_comma_flip() {
    let doc = obj(vec![("display_name", s("Smith, John"))]);
    let (out, log) = redact_document(doc);
    assert_eq!(out, obj(vec![("display_name", s("name__0000"))]));
    assert_eq!(
        log,
        vec!["key: display_name value: Smith, John -> \"name__0000\"".to_string()]
    );
}

#[test]
fn scenario_email_truncation() {
    let doc = obj(vec![("data_email", s("Jane.Doe@Example.com"))]);
    let (out, log) = redact_document(doc);
    assert_eq!(out, obj(vec![("data_email", s("email_0000"))]));
    assert_eq!(
        log,
        vec!["key: data_email value: Jane.Doe@Example.com -> \"email_0000\"".to_string()]
    );
}

#[test]
fn scenario_phone_normalization() {
    let doc = obj(vec![("sync_phone", s("+1 (555) 123-4567"))]);
    let (out, log) = redact_document(doc);
    assert_eq!(out, obj(vec![("sync_phone", s("phone_0000"))]));
    assert_eq!(
        log,
        vec!["key: sync_phone value: +1 (555) 123-4567 -> \"phone_0000\"".to_string()]
    );
}

#[test]
fn scenario_out_of_scope_unchanged() {
    let doc = obj(vec![("unrelated", s("hello"))]);
    let (out, log) = redact_document(doc);
    assert_eq!(out, obj(vec![("unrelated", s("hello"))]));
    assert_eq!(
        log,
        vec!["Unchanged field \"unrelated\" value: \"hello\"".to_string()]
    );
}

#[test]
fn scenario_shared_value_same_token() {
    let doc = obj(vec![
        ("data_a", s("+1 (555) 123-4567")),
        ("lookup_b", s("555.123.4567")),
    ]);
    let (out, _log) = redact_document(doc);
    assert_eq!(
        out,
        obj(vec![("data_a", s("phone_0000")), ("lookup_b", s("phone_0000"))])
    );
}

#[test]
fn registry_insert_idempotent() {
    let mut reg = Registry::new();
    let v = "5551234567".to_string();
    let first = reg.insert_if_absent(&v);
    let second = reg.insert_if_absent(&v);
    assert_eq!(first, 0);
    assert_eq!(first, second);
    let w = "janedoe".to_string();
    assert_eq!(reg.insert_if_absent(&w), 1);
    assert_eq!(reg.insert_if_absent(&v), 0);
}

#[test]
fn token_format() {
    assert_eq!(make_token("phone", 0), "phone_0000");
    assert_eq!(make_token("email", 7), "email_0007");
    assert_eq!(make_token("name_", 42), "name__0042");
    assert_eq!(make_token("dunno", 987), "dunno_0987");
    assert_eq!(make_token("number", 4321), "number_4321");
    assert_eq!(make_token("number", 12345), "number_12345");
}

#[test]
fn out_of_scope_number_logged_not_replaced() {
    let doc = obj(vec![("count", num("42"))]);
    let (out, log) = redact_document(doc);
    assert_eq!(out, obj(vec![("count", num("42"))]));
    assert_eq!(log, vec!["Unchanged field \"count\" value: 42".to_string()]);
}

#[test]
fn boolean_passthrough_lowercases_and_skips() {
    let doc = obj(vec![("data_flag", s("True")), ("sync_done", s("FALSE"))]);
    let (out, log) = redact_document(doc);
    assert_eq!(
        out,
        obj(vec![("data_flag", s("true")), ("sync_done", s("false"))])
    );
    assert!(log.is_empty());
}

#[test]
fn number_under_qualifying_key_becomes_string_token() {
    let doc = obj(vec![("lookup_count", num("42"))]);
    let (out, log) = redact_document(doc);
    assert_eq!(out, obj(vec![("lookup_count", s("number_0000"))]));
    assert_eq!(
        log,
        vec!["key: lookup_count value: 42 -> \"number_0000\"".to_string()]
    );
}

#[test]
fn ordinals_follow_first_insertion_order() {
    let doc = obj(vec![
        ("data_one", s("alpha")),
        ("data_two", s("beta")),
        ("data_three", s("alpha")),
    ]);
    let (out, _log) = redact_document(doc);
    assert_eq!(
        out,
        obj(vec![
            ("data_one", s("dunno_0000")),
            ("data_two", s("dunno_0001")),
            ("data_three", s("dunno_0000")),
        ])
    );
}

#[test]
fn log_is_sorted_and_deduplicated() {
    let doc = Json::Array(vec![
        obj(vec![("unrelated", s("zzz"))]),
        obj(vec![("unrelated", s("zzz"))]),
        obj(vec![("another", s("aaa"))]),
    ]);
    let (_out, log) = redact_document(doc);
    assert_eq!(
        log,
        vec![
            "Unchanged field \"another\" value: \"aaa\"".to_string(),
            "Unchanged field \"unrelated\" value: \"zzz\"".to_string(),
        ]
    );
}

#[test]
fn nested_structures_are_walked() {
    let doc = obj(vec![
        (
            "contacts",
            Json::Array(vec![
                obj(vec![("display_name", s("Smith, John")), ("age", num("3"))]),
                obj(vec![("display_name", s("smith,john"))]),
            ]),
        ),
        ("top", Json::Null),
    ]);
    let (out, log) = redact_document(doc);
    assert_eq!(
        out,
        obj(vec![
            (
                "contacts",
                Json::Array(vec![
                    obj(vec![("display_name", s("name__0000")), ("age", num("3"))]),
                    obj(vec![("display_name", s("name__0000"))]),
                ]),
            ),
            ("top", Json::Null),
        ])
    );
    assert_eq!(
        log,
        vec![
            "Unchanged field \"age\" value: 3".to_string(),
            "key: display_name value: Smith, John -> \"name__0000\"".to_string(),
            "key: display_name value: smith,john -> \"name__0000\"".to_string(),
        ]
    );
}

#[test]
fn name_heuristic_overrides_email() {
    let doc = obj(vec![("data_contact", s("Doe, Jane@x.com"))]);
    let (out, _log) = redact_document(doc);
    assert_eq!(out, obj(vec![("data_contact", s("name__0000"))]));
}

#[test]
fn whitespace_and_symbols_are_stripped() {
    let doc = obj(vec![("sync_note", s("\t A.B' (x) \t"))]);
    let (out, _log) = redact_document(doc);
    assert_eq!(out, obj(vec![("sync_note", s("dunno_0000"))]));
}

#[test]
fn eleven_digits_without_leading_one_is_not_a_phone() {
    let doc = obj(vec![("data_x", s("25551234567"))]);
    let (out, _log) = redact_document(doc);
    assert_eq!(out, obj(vec![("data_x", s("dunno_0000"))]));
}

#[test]
fn unchanged_string_is_quoted_with_escapes_in_log() {
    let doc = obj(vec![("plain", s("a\"b\\c"))]);
    let (_out, log) = redact_document(doc);
    assert_eq!(
        log,
        vec!["Unchanged field \"plain\" value: \"a\\\"b\\\\c\"".to_string()]
    );
}

#[test]
fn audit_log_orders_records_lexicographically() {
    let mut log = AuditLog::new();
    log.add("b line".to_string());
    log.add("a line".to_string());
    log.add("b line".to_string());
    log.add("c line".to_string());
    assert_eq!(
        log.into_lines(),
        vec!["a line".to_string(), "b line".to_string(), "c line".to_string()]
    );
}

#[test]
fn round_trip_output_is_valid_json() {
    let doc = obj(vec![
        ("display_name", s("Smith, John")),
        ("data_email", s("Jane.Doe@Example.com")),
        ("unrelated", s("hello")),
        ("lookup_count", num("42")),
        ("items", Json::Array(vec![Json::Bool(true), Json::Null])),
    ]);
    let (out, _log) = redact_document(doc);
    let text = serde_json::to_string_pretty(&to_value(&out)).unwrap();
    let reparsed: serde_json::Value = serde_json::from_str(&text).unwrap();
    assert_eq!(reparsed, to_value(&out));
    let again = serde_json::to_string(&reparsed).unwrap();
    let reparsed2: serde_json::Value = serde_json::from_str(&again).unwrap();
    assert_eq!(reparsed2, reparsed);
}
