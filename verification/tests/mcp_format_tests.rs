use sofa_registry::mcp_format::{
    check_health, contains_substring, format_cluster_health, format_listing, format_search, format_service_info,
    format_slot_table, Fetch, JsonBody, SlotTableJson, SlotsJson,
};

fn ok(body: &str) -> Fetch {
    Fetch::Answered { success: true, status: "200 OK".to_string(), body: Ok(body.to_string()) }
}

fn members(m: &[(&str, &str)]) -> JsonBody {
    JsonBody::Object { members: m.iter().map(|(k, v)| (k.to_string(), v.to_string())).collect() }
}

#[test]
fn listing_of_object() {
    let r = format_listing(&ok("{}"), &members(&[("a#d#G", "1"), ("b#d#G", "2")])).unwrap();
    assert_eq!(r, "Registered services:\n\n  a#d#G => 1\n  b#d#G => 2\n\nTotal entries: 2\n");
}

#[test]
fn listing_failures() {
    let failed = Fetch::Failed { error: "refused".to_string() };
    assert_eq!(format_listing(&failed, &JsonBody::Invalid).unwrap_err(), "Failed to connect to data server: refused");
    let bad = Fetch::Answered { success: false, status: "503 Service Unavailable".to_string(), body: Ok("down".to_string()) };
    assert_eq!(
        format_listing(&bad, &JsonBody::Invalid).unwrap(),
        "Data server returned HTTP 503 Service Unavailable. The registry may not be running.\nResponse: down"
    );
    let unread = Fetch::Answered { success: true, status: "200 OK".to_string(), body: Err("eof".to_string()) };
    assert_eq!(format_listing(&unread, &JsonBody::Invalid).unwrap_err(), "Failed to read response body: eof");
    assert_eq!(format_listing(&ok("raw"), &JsonBody::Invalid).unwrap(), "Registered services:\n\nraw");
    assert_eq!(
        format_listing(&ok("[1]"), &JsonBody::Other { pretty: "[\n  1\n]".to_string() }).unwrap(),
        "Registered services:\n\n[\n  1\n]"
    );
}

#[test]
fn search_is_case_insensitive() {
    let json = members(&[("Svc.Alpha", "1"), ("beta", "2"), ("ALPHAbet", "3")]);
    let r = format_search(Some("alpha"), &ok("{}"), &json).unwrap();
    assert_eq!(
        r,
        "Search results for pattern \"alpha\":\n\n  Svc.Alpha => 1\n  ALPHAbet => 3\n\n2 service(s) matched.\n"
    );
    let none = format_search(Some("zzz"), &ok("{}"), &json).unwrap();
    assert_eq!(none, "Search results for pattern \"zzz\":\n\n  (no matching services found)\n");
    assert_eq!(format_search(None, &ok("{}"), &json).unwrap_err(), "Missing required parameter: pattern");
    assert_eq!(format_search(Some("x"), &ok("raw"), &JsonBody::Invalid).unwrap(), "Search results for \"x\" (raw):\n\nraw");
}

#[test]
fn substring_search() {
    assert!(contains_substring("hello", "ell"));
    assert!(contains_substring("hello", ""));
    assert!(contains_substring("hello", "hello"));
    assert!(!contains_substring("hello", "hellos"));
    assert!(!contains_substring("", "a"));
}

#[test]
fn service_info_sections() {
    let r = format_service_info(
        Some("svc"),
        &ok("{}"),
        &Some("{\n  \"a\": 1\n}".to_string()),
        &Fetch::Failed { error: "timeout".to_string() },
        &None,
    )
    .unwrap();
    assert_eq!(
        r,
        "Service info for: svc\n\n== Publishers ==\n{\n  \"a\": 1\n}\n\n== Subscribers ==\nCould not reach session server: timeout\n"
    );
    let bad = Fetch::Answered { success: false, status: "404 Not Found".to_string(), body: Ok(String::new()) };
    let r = format_service_info(Some("svc"), &bad, &None, &ok("plain"), &None).unwrap();
    assert_eq!(
        r,
        "Service info for: svc\n\n== Publishers ==\nData server returned HTTP 404 Not Found\n\n\n== Subscribers ==\nplain"
    );
    assert_eq!(
        format_service_info(None, &bad, &None, &bad, &None).unwrap_err(),
        "Missing required parameter: data_id"
    );
}

#[test]
fn health_lines() {
    let mut out = String::new();
    check_health(&mut out, "http://m", &ok("OK"));
    assert_eq!(out, "  Status: HEALTHY (http://m)\n");
    let mut out = String::new();
    check_health(&mut out, "http://m", &ok("{\"status\":\"UP\"}"));
    assert_eq!(out, "  Status: HEALTHY (http://m)\n  Details: {\"status\":\"UP\"}\n");
    let mut out = String::new();
    let bad = Fetch::Answered { success: false, status: "500 Internal Server Error".to_string(), body: Ok("boom".to_string()) };
    check_health(&mut out, "http://d", &bad);
    assert_eq!(out, "  Status: UNHEALTHY (HTTP 500 Internal Server Error) at http://d\n  Response: boom\n");
    let mut out = String::new();
    check_health(&mut out, "http://s", &Fetch::Failed { error: "refused".to_string() });
    assert_eq!(out, "  Status: UNREACHABLE at http://s\n  Error: refused\n");
}

#[test]
fn cluster_health_report() {
    let r = format_cluster_health(
        "http://m",
        &ok("ok"),
        "http://d",
        &ok(""),
        "http://s",
        &Fetch::Failed { error: "e".to_string() },
        &ok("{}"),
        &Some("{\n  \"leader\": \"m1\"\n}".to_string()),
    );
    assert_eq!(
        r,
        "SOFARegistry Cluster Health\n\n== Meta Server ==\n  Status: HEALTHY (http://m)\n\n== Data Server ==\n  Status: HEALTHY (http://d)\n\n== Session Server ==\n  Status: UNREACHABLE at http://s\n  Error: e\n\n== Meta Leader ==\n  {\n  \"leader\": \"m1\"\n}\n"
    );
}

#[test]
fn slot_table_distribution() {
    let json = SlotTableJson::Object {
        epoch: Some("7".to_string()),
        slots: SlotsJson::Array {
            leaders: vec![Some("d1".to_string()), Some("d2".to_string()), None, Some("d1".to_string())],
        },
    };
    let r = format_slot_table(&ok("{}"), &json).unwrap();
    assert_eq!(
        r,
        "Slot Table:\n\n  Epoch: 7\n  Total slots: 4\n\n  Slot distribution by leader:\n    d1 => 2 slots\n    d2 => 1 slots\n"
    );
    let other = SlotTableJson::Object { epoch: None, slots: SlotsJson::Other { pretty: "{}".to_string() } };
    assert_eq!(format_slot_table(&ok("{}"), &other).unwrap(), "Slot Table:\n\n  Slots: {}\n");
    let missing = SlotTableJson::Object { epoch: None, slots: SlotsJson::Missing { whole: "{\n}".to_string() } };
    assert_eq!(format_slot_table(&ok("{}"), &missing).unwrap(), "Slot Table:\n\n{\n}");
    assert_eq!(format_slot_table(&ok("x"), &SlotTableJson::Invalid).unwrap(), "Slot table (raw):\n\nx");
    assert_eq!(
        format_slot_table(&Fetch::Failed { error: "no".to_string() }, &SlotTableJson::Invalid).unwrap_err(),
        "Failed to connect to meta server: no"
    );
}

#[test]
fn search_pattern_case_is_ignored() {
    let json = members(&[("Svc.Alpha", "1"), ("beta", "2")]);
    let r = format_search(Some("ALPHA"), &ok("{}"), &json).unwrap();
    assert_eq!(r, "Search results for pattern \"ALPHA\":\n\n  Svc.Alpha => 1\n\n1 service(s) matched.\n");
}
