use dwara_core::json::{parse_json, Json};
use dwara_core::lifecycle::journey::{
    journey_dimension, Journey, JourneyConfig, JourneyRecorder, JourneyStep, JourneyStepResult,
    JOURNEY_BUFFER_CAP,
};
use dwara_core::lifecycle::portal::{
    extract_http_body, extract_title_version, file_stem, html_escape, load_file_spec,
    parse_http_url, render_portal_html, resolve_source, settle, spec_request, url_host,
    url_spec_from_response, DevPortal, DevPortalConfig, DevPortalSpec, DevPortalSpecSource,
    FetchFailure, LoadedSpec, HTTPS_NOTE,
};
use dwara_core::lifecycle::profiles::{
    apply_profile, merge_json, merge_yaml, EnvProfile, ProfileOverlay,
};
use dwara_core::text_map::TextMap;

fn step(phase: &str, result: JourneyStepResult, detail: Option<&str>) -> JourneyStep {
    JourneyStep {
        phase: phase.to_string(),
        duration_ms: "1.5".to_string(),
        result,
        detail: detail.map(|s| s.to_string()),
    }
}

#[test]
fn journeys_are_json_documents() {
    let mut j = Journey::new("req-1", 42);
    j.add_step(step("route_match", JourneyStepResult::Success, Some("r\"1")));
    j.add_timed_step("authn", "0.25".to_string(), JourneyStepResult::Failure, None);
    assert!(j.has_failure());
    let text = j.to_json().unwrap();
    assert_eq!(
        text,
        r#"{"request_id":"req-1","steps":[{"phase":"route_match","duration_ms":1.5,"result":"success","detail":"r\"1"},{"phase":"authn","duration_ms":0.25,"result":"failure"}],"timestamp_ms":42}"#
    );
    assert_eq!(parse_json(&text).unwrap(), j.to_value().unwrap());
    assert_eq!(journey_dimension(&j).unwrap(), ("_journey".to_string(), text));
    assert!(!Journey::new("x", 1).has_failure());
}

const HOUR: u64 = 3_600_000;

#[test]
fn recorder_keeps_recent_journeys() {
    let mut r = JourneyRecorder::new(JourneyConfig { enabled: true, retention_hours: 1 });
    assert!(r.enabled() && r.is_empty());
    assert_eq!(r.retention_hours(), 1);
    r.record(Journey::new("a", 0), 0);
    r.record(Journey::new("b", HOUR), HOUR);
    let ids = |v: Vec<Journey>| v.iter().map(|j| j.request_id.clone()).collect::<Vec<_>>();
    assert_eq!(ids(r.snapshot(HOUR)), vec!["b", "a"]);
    assert_eq!(ids(r.snapshot(HOUR + 1)), vec!["b"]);
    r.record(Journey::new("c", HOUR + 1), HOUR + 1);
    assert_eq!(r.len(), 2);
}

#[test]
fn disabled_recorder_keeps_nothing() {
    let mut r = JourneyRecorder::new(JourneyConfig { enabled: false, retention_hours: 1 });
    r.record(Journey::new("a", 0), 0);
    assert!(r.is_empty());
}

#[test]
fn recorder_is_bounded() {
    let mut r = JourneyRecorder::new(JourneyConfig { enabled: true, retention_hours: 1 });
    for i in 0..(JOURNEY_BUFFER_CAP as u64 + 5) {
        r.record(Journey::new("x", i), i);
    }
    assert_eq!(r.len(), JOURNEY_BUFFER_CAP);
    assert_eq!(r.snapshot(5_000)[0].timestamp_ms, JOURNEY_BUFFER_CAP as u64 + 4);
}

#[test]
fn profiles_are_selected_in_any_case() {
    assert_eq!(EnvProfile::from_env_var(" Dev "), Some(EnvProfile::Dev));
    assert_eq!(EnvProfile::from_env_var("STAGING"), Some(EnvProfile::Staging));
    assert_eq!(EnvProfile::from_env_var("prod"), Some(EnvProfile::Prod));
    assert_eq!(EnvProfile::from_env_var(""), None);
    assert_eq!(EnvProfile::from_env_var("test"), None);
    assert_eq!(EnvProfile::Staging.key(), "staging");
}

fn overlay() -> ProfileOverlay {
    let mut profile_overrides = TextMap::new();
    profile_overrides.insert("dev".to_string(), "routes: [x]\n".to_string());
    profile_overrides.insert("prod".to_string(), ": : :".to_string());
    ProfileOverlay { base_config: "a: 1\nroutes: [b, c]\n".to_string(), profile_overrides }
}

#[test]
fn patches_replace_top_level_keys() {
    let o = overlay();
    let a = apply_profile(&o, Some("dev")).unwrap();
    assert_eq!(a.profile, Some(EnvProfile::Dev));
    assert_eq!(a.config_yaml, "a: 1\nroutes:\n- x\n");
    let base = apply_profile(&o, None).unwrap();
    assert_eq!(base.config_yaml, o.base_config);
    assert_eq!(base.profile, None);
    let staging = apply_profile(&o, Some("staging")).unwrap();
    assert_eq!(staging.config_yaml, o.base_config);
    assert_eq!(staging.profile, Some(EnvProfile::Staging));
    assert!(apply_profile(&o, Some("prod")).unwrap_err().starts_with("profile patch parse failed: "));
    assert!(merge_yaml("[", "a: 1").unwrap_err().starts_with("base config parse failed: "));
}

#[test]
fn merging_is_shallow() {
    let v = |t: &str| serde_json::from_str::<serde_json::Value>(t).unwrap();
    assert_eq!(
        merge_json(&v(r#"{"m":{"x":1},"k":1}"#), &v(r#"{"b":2,"m":{"y":2}}"#)),
        v(r#"{"b":2,"k":1,"m":{"y":2}}"#)
    );
    assert_eq!(merge_json(&v("1"), &v(r#"{"a":1}"#)), v(r#"{"a":1}"#));
    assert_eq!(merge_json(&v(r#"{"a":1}"#), &v("null")), v("null"));
}

const DOC: &str = r#"{"info": {"title": "Pets & <co>", "version": "1.2"}}"#;

#[test]
fn file_documents_are_loaded() {
    let s = load_file_spec("/specs/pets.v1.json", None, Ok(DOC.to_string()));
    assert_eq!(s.name, "Pets & <co>");
    assert_eq!(s.version, "1.2");
    assert_eq!(s.error, None);
    assert!(s.doc.is_some());
    let named = load_file_spec("/specs/pets.json", Some("mine"), Ok("{}".to_string()));
    assert_eq!((named.name.as_str(), named.version.as_str()), ("mine", ""));
    let gone = load_file_spec("/specs/pets.v1.json", None, Err("gone".to_string()));
    assert_eq!(gone.name, "pets.v1");
    assert_eq!(gone.error, Some("read failed: gone".to_string()));
    let bad = load_file_spec("pets", None, Ok("{".to_string()));
    assert_eq!(bad.name, "pets");
    assert!(bad.error.unwrap().starts_with("parse failed: "));
}

#[test]
fn names_fall_back_to_paths_and_hosts() {
    assert_eq!(file_stem("a/b.c.json"), Some("b.c".to_string()));
    assert_eq!(file_stem("a/"), Some("".to_string()));
    assert_eq!(url_host("http://h:80/p"), Some("h".to_string()));
    assert_eq!(url_host("https://h/p"), Some("h".to_string()));
    assert_eq!(url_host("ftp://h"), None);
    assert_eq!(extract_title_version(&Json::Null), (None, None));
}

#[test]
fn http_urls_have_parts() {
    let parts = |h: &str, p: u16, r: &str| Ok((h.to_string(), p, r.to_string()));
    assert_eq!(parse_http_url("http://h:8080/a/b"), parts("h", 8080, "/a/b"));
    assert_eq!(parse_http_url("http://h"), parts("h", 80, "/"));
    assert_eq!(parse_http_url("ftp://h"), Err("not an http URL".to_string()));
    assert_eq!(parse_http_url("http://h:x/"), Err("invalid port".to_string()));
    let q = spec_request("http://h:1/openapi.json").unwrap();
    assert_eq!((q.host.as_str(), q.port), ("h", 1));
    assert_eq!(
        q.request,
        "GET /openapi.json HTTP/1.1\r\nHost: h\r\nConnection: close\r\nAccept: application/json\r\n\r\n"
    );
    assert_eq!(spec_request("https://h/").unwrap_err(), HTTPS_NOTE);
}

#[test]
fn bodies_follow_the_empty_line() {
    assert_eq!(extract_http_body(&b"H\r\n\r\nbody\r\n\r\n".to_vec()), Ok("body\r\n\r\n".to_string()));
    assert_eq!(extract_http_body(&b"H\r\n".to_vec()), Err("no header/body separator".to_string()));
    assert_eq!(extract_http_body(&vec![]), Err("no header/body separator".to_string()));
    let bad = extract_http_body(&b"\r\n\r\n\xff".to_vec()).unwrap_err();
    assert!(bad.starts_with("body not utf-8: "));
}

#[test]
fn fetched_documents_carry_their_names() {
    let raw = format!("HTTP/1.1 200 OK\r\n\r\n{DOC}").into_bytes();
    let f = url_spec_from_response("h", Ok(raw)).unwrap();
    assert_eq!((f.name.as_str(), f.version.as_str()), ("Pets & <co>", "1.2"));
    let plain = url_spec_from_response("h", Ok(b"\r\n\r\n{}".to_vec())).unwrap();
    assert_eq!(plain.name, "h");
    let fail = |f| url_spec_from_response("h", Err(f)).unwrap_err();
    assert_eq!(fail(FetchFailure::Connect("e".to_string())), "connect failed: e");
    assert_eq!(fail(FetchFailure::Write("e".to_string())), "write failed: e");
    assert_eq!(fail(FetchFailure::Read("e".to_string())), "read failed: e");
    assert!(url_spec_from_response("h", Ok(b"\r\n\r\n{".to_vec()))
        .unwrap_err()
        .starts_with("parse failed: "));
}

fn configured(name: Option<&str>, file: Option<&str>, url: Option<&str>) -> DevPortalSpec {
    DevPortalSpec {
        name: name.map(|s| s.to_string()),
        file: file.map(|s| s.to_string()),
        url: url.map(|s| s.to_string()),
    }
}

#[test]
fn files_win_over_urls() {
    let file = |p: &str| DevPortalSpecSource::File(p.to_string());
    assert_eq!(resolve_source(&configured(None, Some("f"), Some("u"))), file("f"));
    assert_eq!(
        resolve_source(&configured(None, None, Some("u"))),
        DevPortalSpecSource::Url("u".to_string())
    );
    assert_eq!(resolve_source(&configured(None, None, None)), file(""));
}

#[test]
fn portal_lists_every_document() {
    let config = DevPortalConfig {
        enabled: true,
        path: "/portal".to_string(),
        specs: vec![
            configured(None, Some("/pets.json"), None),
            configured(None, None, Some("http://api.test:1/x")),
        ],
    };
    let reads = vec![Ok(DOC.to_string()), Err("unused".to_string())];
    let portal = DevPortal::build(&config, reads);
    assert!(portal.enabled());
    assert_eq!(portal.path(), "/portal");
    assert_eq!(portal.file_specs().len(), 2);
    assert_eq!(portal.file_specs()[1].name, "");
    let page = portal.render_html(vec![Err("unused".to_string()), Err("no <answer>".to_string())]);
    assert!(page.contains("<td>Pets &amp; &lt;co&gt;</td>"));
    assert!(page.contains("<code>/pets.json</code>"));
    assert!(page.contains("<td>api.test</td>"));
    assert!(page.contains("<span class=\"error\">unavailable: no <answer></span>"));
    assert!(page.contains(
        "<a href=\"http://api.test:1/x\" target=\"_blank\">http://api.test:1/x</a>"
    ));
    assert!(page.starts_with(
        "<!DOCTYPE html>\n<html lang=\"en\">\n<head>\n<meta charset=\"utf-8\">\n<meta name="
    ));
    assert!(page.ends_with("</td>\n      </tr>\n</tbody>\n</table>\n</body>\n</html>\n"));
}

#[test]
fn portal_without_documents_says_so() {
    let page = render_portal_html(&vec![]);
    assert!(page.ends_with(
        "</thead>\n<tbody>\n      <tr><td colspan=\"4\" class=\"empty\">No APIs configured yet. \
         Add OpenAPI spec sources to the <code>lifecycle.portal.specs</code> config block.\
         </td></tr>\n</tbody>\n</table>\n</body>\n</html>\n"
    ));
}

#[test]
fn fetched_documents_replace_the_listing() {
    let listed = || LoadedSpec {
        source: DevPortalSpecSource::Url("http://h/x".to_string()),
        doc: None,
        name: "given".to_string(),
        version: String::new(),
        error: None,
    };
    let raw = format!("\r\n\r\n{DOC}").into_bytes();
    let ok = settle(listed(), url_spec_from_response("h", Ok(raw)));
    assert_eq!((ok.name.as_str(), ok.version.as_str()), ("Pets & <co>", "1.2"));
    assert!(ok.doc.is_some() && ok.error.is_none());
    let failed = settle(listed(), Err("e".to_string()));
    assert_eq!(failed.name, "given");
    assert_eq!(failed.error, Some("e".to_string()));
}

#[test]
fn escaped_text_is_inert() {
    assert_eq!(html_escape("<a href=\"x\">&amp;"), "&lt;a href=&quot;x&quot;&gt;&amp;amp;");
}
