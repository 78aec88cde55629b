use dwara_core::openapi::{
    extract_response_schemas, is_http_method, judge, lookup_candidates, normalize_content_type,
    parse_status, ResponseKey, ResponseToValidate, ResponseValidator, StatusPattern,
    ValidationError, ValidationResult,
};

fn value(text: &str) -> serde_json::Value {
    serde_json::from_str(text).unwrap()
}

const DOC: &str = r#"{
  "openapi": "3.0.0",
  "paths": {
    "/items": {
      "summary": "the items",
      "get": {
        "responses": {
          "200": {"content": {"application/json": {"schema": {
            "type": "object", "required": ["id"],
            "properties": {"id": {"type": "integer"}}}}}},
          "4XX": {"content": {"application/problem+json": {"schema": {
            "type": "object", "required": ["error"]}}}},
          "default": {"content": {"text/plain": {"schema": {"type": "string"}}}}
        }
      },
      "post": {
        "responses": {
          "201": {"content": {"application/xml": {"schema": {"type": "object"}}}},
          "204": {"description": "nothing"}
        }
      }
    }
  }
}"#;

fn response(method: &str, status: u16, ct: Option<&str>, body: Option<&str>) -> ResponseToValidate {
    ResponseToValidate {
        path: "/items".to_string(),
        method: method.to_string(),
        status,
        content_type: ct.map(|s| s.to_string()),
        body: body.map(value),
    }
}

#[test]
fn status_pattern_exact_matches() {
    assert!(StatusPattern::Exact(200).matches(200));
    assert!(!StatusPattern::Exact(200).matches(201));
}

#[test]
fn status_pattern_family_matches() {
    assert!(StatusPattern::Family(2).matches(200));
    assert!(StatusPattern::Family(2).matches(204));
    assert!(!StatusPattern::Family(2).matches(404));
}

#[test]
fn status_pattern_default_matches_all() {
    assert!(StatusPattern::Default.matches(200));
    assert!(StatusPattern::Default.matches(404));
    assert!(StatusPattern::Default.matches(500));
}

#[test]
fn parse_status_exact() {
    assert_eq!(
        parse_status("200", "/x", "get").unwrap(),
        StatusPattern::Exact(200)
    );
}

#[test]
fn parse_status_family() {
    assert_eq!(
        parse_status("2XX", "/x", "get").unwrap(),
        StatusPattern::Family(2)
    );
    assert_eq!(
        parse_status("4XX", "/x", "get").unwrap(),
        StatusPattern::Family(4)
    );
}

#[test]
fn parse_status_default() {
    assert_eq!(
        parse_status("default", "/x", "get").unwrap(),
        StatusPattern::Default
    );
}

#[test]
fn parse_status_invalid() {
    assert!(parse_status("abc", "/x", "get").is_err());
    assert_eq!(
        parse_status("abc", "/x", "get").unwrap_err(),
        "invalid status code 'abc' in get /x"
    );
    assert_eq!(
        parse_status("xXX", "/x", "get").unwrap_err(),
        "invalid wildcard status 'xXX' in get /x"
    );
    assert_eq!(
        parse_status("70000", "/x", "get").unwrap_err(),
        "invalid status code '70000' in get /x"
    );
}

#[test]
fn normalize_content_type_strips_params() {
    assert_eq!(
        normalize_content_type(Some("application/json; charset=utf-8")),
        Some("application/json".to_string())
    );
    assert_eq!(
        normalize_content_type(Some("application/json")),
        Some("application/json".to_string())
    );
    assert_eq!(normalize_content_type(None), None);
    assert_eq!(normalize_content_type(Some(" ; x")), None);
}

#[test]
fn extract_response_schemas_multiple_types() {
    let response = value(
        r#"{
        "content": {
            "application/json": {
                "schema": {"type": "object", "properties": {"id": {"type": "integer"}}}
            },
            "application/problem+json": {
                "schema": {"type": "object", "properties": {"error": {"type": "string"}}}
            },
            "text/plain": {
                "schema": {"type": "string"}
            }
        }
    }"#,
    );
    let schemas = extract_response_schemas(&response);
    assert_eq!(schemas.len(), 3);
    let cts: Vec<&str> = schemas.iter().map(|(c, _)| c.as_str()).collect();
    assert!(cts.contains(&"application/json"));
    assert!(cts.contains(&"application/problem+json"));
    assert!(cts.contains(&"text/plain"));
    assert_eq!(schemas[2].1, value(r#"{"type": "string"}"#));
}

#[test]
fn methods_are_known_in_any_case() {
    assert!(is_http_method("GET"));
    assert!(is_http_method("Patch"));
    assert!(!is_http_method("parameters"));
    assert!(!is_http_method("trace"));
}

#[test]
fn candidates_go_from_specific_to_general() {
    let keys = lookup_candidates("/p", "GET", 404, Some("text/plain"));
    assert_eq!(keys.len(), 18);
    let first = ResponseKey {
        path: "/p".to_string(),
        method: "GET".to_string(),
        status: StatusPattern::Exact(404),
        content_type: "text/plain".to_string(),
    };
    assert_eq!(keys[0], first);
    assert_eq!(keys[5].content_type, "");
    assert_eq!(keys[6].status, StatusPattern::Family(4));
    assert_eq!(keys[12].status, StatusPattern::Default);
    assert_eq!(keys[17].content_type, "");
    assert_eq!(lookup_candidates("/p", "GET", 404, None).len(), 18);
}

#[test]
fn conforming_bodies_are_valid() {
    let v = ResponseValidator::from_openapi(&value(DOC)).unwrap();
    assert_eq!(v.schema_count(), 4);
    assert!(!v.is_strict());
    let json = Some("application/json; charset=utf-8");
    assert_eq!(
        v.validate(&response("get", 200, json, Some(r#"{"id": 1}"#))),
        ValidationResult::Valid
    );
    assert_eq!(v.validate(&response("get", 200, json, None)), ValidationResult::Valid);
    match v.validate(&response("GET", 200, json, Some(r#"{"id": "x"}"#))) {
        ValidationResult::Invalid(e) => {
            assert_eq!(e.len(), 1);
            assert_eq!(e[0].path, "/id");
            assert!(!e[0].message.is_empty());
        }
        other => panic!("unexpected: {other:?}"),
    }
}

#[test]
fn wildcards_are_tried_after_the_exact_status() {
    let v = ResponseValidator::from_openapi(&value(DOC)).unwrap();
    let problem = Some("application/problem+json");
    assert_eq!(
        v.validate(&response("get", 404, problem, Some(r#"{"error": 1}"#))),
        ValidationResult::Valid
    );
    assert!(matches!(
        v.validate(&response("get", 404, problem, Some("{}"))),
        ValidationResult::Invalid(_)
    ));
    assert!(matches!(
        v.validate(&response("get", 503, Some("text/plain"), Some("5"))),
        ValidationResult::Invalid(_)
    ));
    assert_eq!(
        v.validate(&response("get", 503, Some("text/plain"), Some("\"down\""))),
        ValidationResult::Valid
    );
    assert!(v.has_schema("/items", "get", 200));
    assert!(v.has_schema("/items", "post", 201));
    assert!(!v.has_schema("/items", "post", 204));
    assert!(!v.has_schema("/other", "get", 200));
}

#[test]
fn xml_bodies_are_not_held_against_schemas() {
    let v = ResponseValidator::from_openapi(&value(DOC)).unwrap();
    assert_eq!(
        v.validate(&response("post", 201, Some("application/xml"), Some("5"))),
        ValidationResult::Valid
    );
}

#[test]
fn strict_mode_refuses_what_is_not_covered() {
    let open = ResponseValidator::from_openapi(&value(DOC)).unwrap();
    let strict = ResponseValidator::from_openapi_strict(&value(DOC), true).unwrap();
    let r = response("post", 500, Some("text/html"), None);
    assert_eq!(open.validate(&r), ValidationResult::NoSchema);
    assert_eq!(
        strict.validate(&r),
        ValidationResult::Invalid(vec![ValidationError {
            path: "/items".to_string(),
            message: "no schema for POST /items status 500 content_type Some(\"text/html\") \
                      (strict mode)"
                .to_string(),
        }])
    );
    assert_eq!(
        ResponseValidator::empty().validate(&r),
        ValidationResult::NoSchema
    );
}

#[test]
fn malformed_documents_are_errors() {
    let cases = vec![
        ("{}", "OpenAPI doc missing 'paths'"),
        (r#"{"paths": {"/a": 1}}"#, "path '/a' is not an object"),
        (r#"{"paths": {"/a": {"get": {}}}}"#, "operation get /a missing 'responses'"),
        (
            r#"{"paths": {"/a": {"get": {"responses": {"zz": {}}}}}}"#,
            "invalid status code 'zz' in get /a",
        ),
    ];
    for (doc, text) in cases {
        assert_eq!(ResponseValidator::from_openapi(&value(doc)).err().unwrap(), text);
    }
}

#[test]
fn faulty_schemas_are_errors() {
    let key = ResponseKey {
        path: "/a".to_string(),
        method: "GET".to_string(),
        status: StatusPattern::Exact(200),
        content_type: "application/json".to_string(),
    };
    let faulty = vec![(key.copy(), value(r#"{"type": 5}"#))];
    let e = ResponseValidator::from_schemas(faulty).err().unwrap();
    assert!(e.starts_with(
        "compile schema for ResponseKey { path: \"/a\", method: \"GET\", status: Exact(200), \
         content_type: \"application/json\" }: "
    ));
    assert_eq!(key.debug(), format!("{key:?}"));
    let fine = vec![(key, value("{}"))];
    assert_eq!(ResponseValidator::from_schemas(fine).unwrap().schema_count(), 1);
}

#[test]
fn no_errors_means_valid() {
    assert_eq!(judge(vec![]), ValidationResult::Valid);
    assert_eq!(
        judge(vec![("/a".to_string(), "m".to_string())]),
        ValidationResult::Invalid(vec![ValidationError {
            path: "/a".to_string(),
            message: "m".to_string(),
        }])
    );
}
