use mihomo_tui::json::{get_member, get_string, parse_json, JsonValue};

#[test]
fn parse_json_reads_every_kind_of_value() {
    let v = parse_json(r#"{"b":[null,true,12,-3,1.5,"x"],"a":{"k":"v"}}"#).unwrap();
    match &v {
        JsonValue::Object(members) => {
            let keys: Vec<&str> = members.iter().map(|(k, _)| k.as_str()).collect();
            assert_eq!(keys, vec!["a", "b"]);
            match &members[1].1 {
                JsonValue::Array(items) => {
                    assert!(matches!(items[0], JsonValue::Null));
                    assert!(matches!(items[1], JsonValue::Bool(true)));
                    assert!(matches!(items[2], JsonValue::Number(Some(12))));
                    assert!(matches!(items[3], JsonValue::Number(None)));
                    assert!(matches!(items[4], JsonValue::Number(None)));
                    assert!(matches!(&items[5], JsonValue::Str(s) if s == "x"));
                }
                _ => panic!("expected an array"),
            }
        }
        _ => panic!("expected an object"),
    }
}

#[test]
fn parse_json_reports_errors() {
    let e = parse_json("{").err().unwrap();
    assert!(e.contains("EOF"));
}

#[test]
fn get_member_reads_objects_only() {
    let v = parse_json(r#"{"name":"HK","n":1}"#).unwrap();
    assert_eq!(get_string(get_member(&v, "name")), Some("HK".to_string()));
    assert_eq!(get_string(get_member(&v, "n")), None);
    assert!(get_member(&v, "missing").is_none());
    let a = parse_json("[1]").unwrap();
    assert!(get_member(&a, "name").is_none());
}
