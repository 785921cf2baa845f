use hibiscus_core::calendar::calendar_file_path;
use hibiscus_core::calendar::default_calendar_content;
use hibiscus_core::calendar::read_calendar_data;
use hibiscus_core::calendar::save_calendar_data;
use hibiscus_core::calendar::CalendarProbe;
use hibiscus_core::error::HibiscusError;
use hibiscus_core::json::parse_structured;
use hibiscus_core::json::serialize_structured;
use hibiscus_core::persist::SourceProbe;
use hibiscus_core::workspace_ops::discover_workspace;
use hibiscus_core::workspace_ops::join_path;
use hibiscus_core::workspace_ops::load_workspace;
use hibiscus_core::workspace_ops::save_workspace;
use hibiscus_core::workspace_ops::workspace_metadata_path;

#[test]
fn parse_accepts_json_and_rejects_noise() {
    let v = parse_structured("{\"a\": [1, 2, 3], \"b\": null}").unwrap();
    assert_eq!(v.get("a").unwrap().as_array().unwrap().len(), 3);
    assert!(matches!(
        parse_structured("{not json"),
        Err(HibiscusError::Serialization(_))
    ));
}

#[test]
fn structured_round_trip() {
    // for a JSON-representable value, serialize then parse is the identity
    let original = parse_structured(
        "{\"schema_version\":\"1\",\"workspace\":{\"id\":\"w1\",\"name\":\"Notes\",\"root\":\"/ws\"},\
         \"settings\":null,\"tree\":[{\"id\":\"a.txt\",\"name\":\"a.txt\",\"type\":\"file\",\
         \"path\":\"a.txt\",\"numbers\":[0,1,2.5,-7]}]}",
    )
    .unwrap();
    let text = serialize_structured(&original).unwrap();
    let reparsed = parse_structured(&text).unwrap();
    assert_eq!(reparsed, original);
    // and once more around, now from the pretty form
    let text2 = serialize_structured(&reparsed).unwrap();
    assert_eq!(text2, text);
}

#[test]
fn load_workspace_cases() {
    match load_workspace("ws/.hibiscus/workspace.json", SourceProbe::Missing) {
        Err(HibiscusError::FileNotFound(m)) => assert_eq!(m, "workspace.json not found"),
        other => panic!("expected a file-not-found error, got {:?}", other),
    }
    match load_workspace("ws/.hibiscus/workspace.json", SourceProbe::ReadFailed("denied".to_string())) {
        Err(HibiscusError::Io(m)) => assert_eq!(m, "Failed to read workspace.json: denied"),
        other => panic!("expected an io error, got {:?}", other),
    }
    let v = load_workspace(
        "ws/.hibiscus/workspace.json",
        SourceProbe::Content("{\"schema_version\": \"1\"}".to_string()),
    )
    .unwrap();
    assert_eq!(v.get("schema_version").unwrap().as_str(), Some("1"));
    assert!(matches!(
        load_workspace("ws/.hibiscus/workspace.json", SourceProbe::Content("{".to_string())),
        Err(HibiscusError::Serialization(_))
    ));
}

#[test]
fn save_workspace_names_the_temp_sibling() {
    let v = parse_structured("{\"x\": 1}").unwrap();
    let (machine, text) = save_workspace("ws/.hibiscus/workspace.json", &v).unwrap();
    assert_eq!(machine.target, "ws/.hibiscus/workspace.json");
    assert_eq!(machine.temp, "ws/.hibiscus/workspace.json.tmp");
    // the text handed to the write machine is the document's serialization
    assert_eq!(text, serialize_structured(&v).unwrap());
    assert_eq!(parse_structured(&text).unwrap(), v);
    assert!(matches!(
        save_workspace("../x.json", &v),
        Err(HibiscusError::PathValidation(_))
    ));
}

#[test]
fn discover_reports_the_exact_candidate() {
    let found = discover_workspace("/home/u/ws", true);
    assert!(found.found);
    assert_eq!(found.path.as_deref(), Some("/home/u/ws/.hibiscus/workspace.json"));

    let not_found = discover_workspace("/home/u/ws", false);
    assert!(!not_found.found);
    assert!(not_found.path.is_none());

    // a root with a trailing slash gets no doubled separator
    assert_eq!(workspace_metadata_path("ws/"), "ws/.hibiscus/workspace.json");
    assert_eq!(join_path("a", "b"), "a/b");
    assert_eq!(join_path("a/", "b"), "a/b");
}

#[test]
fn calendar_defaults_and_paths() {
    assert_eq!(calendar_file_path("/ws"), "/ws/.hibiscus/calendar.json");
    let v = read_calendar_data("/ws", CalendarProbe::Missing).unwrap();
    // the missing-file fallback is exactly the parsed default document
    assert_eq!(v, parse_structured(&default_calendar_content()).unwrap());
    assert_eq!(v.get("events").unwrap().as_array().unwrap().len(), 0);
    assert_eq!(v.get("tasks").unwrap().as_array().unwrap().len(), 0);
    assert_eq!(v.get("settings").unwrap().get("view").unwrap().as_str(), Some("month"));
    assert_eq!(
        v.get("settings").unwrap().get("startOfWeek").unwrap().as_str(),
        Some("monday")
    );

    match read_calendar_data("/ws", CalendarProbe::ReadFailed("denied".to_string())) {
        Err(HibiscusError::Io(m)) => assert_eq!(m, "Failed to read calendar.json: denied"),
        other => panic!("expected an io error, got {:?}", other),
    }

    let stored = read_calendar_data("/ws", CalendarProbe::Content("{\"events\":[1]}".to_string()))
        .unwrap();
    assert_eq!(stored.get("events").unwrap().as_array().unwrap().len(), 1);

    let (machine, text) = save_calendar_data("/ws", &stored).unwrap();
    assert_eq!(machine.target, "/ws/.hibiscus/calendar.json");
    assert_eq!(machine.temp, "/ws/.hibiscus/calendar.json.tmp");
    assert_eq!(parse_structured(&text).unwrap(), stored);
}
