use castbell::payload::{
    decoded_image, parse_data_uri, resolve_event_id, Alarm, AlarmPayload, SourceEvent, Trigger,
};
use serde_json::Value;

fn text_at(v: &Value, key: &str) -> Option<String> {
    v.get(key).and_then(Value::as_str).map(String::from)
}

fn payload_from(json: &str) -> AlarmPayload {
    let v: Value = serde_json::from_str(json).unwrap();
    let alarm = v.get("alarm").unwrap();
    let mut triggers = Vec::new();
    for t in alarm.get("triggers").and_then(Value::as_array).unwrap() {
        triggers.push(Trigger {
            event_id: text_at(t, "eventId"),
            source_event: t.get("sourceEvent").map(|s| SourceEvent { id: text_at(s, "id") }),
        });
    }
    AlarmPayload {
        alarm: Alarm { thumbnail: text_at(alarm, "thumbnail"), triggers },
    }
}

#[test]
fn parse_data_uri_ok() {
    // "AAAA" -> 3 zero bytes
    let bytes = parse_data_uri("data:image/jpeg;base64,AAAA").unwrap();
    assert_eq!(bytes, vec![0, 0, 0]);
}

#[test]
fn parse_data_uri_decodes() {
    assert_eq!(parse_data_uri("data:image/jpeg;base64,aGVsbG8=").unwrap(), b"hello".to_vec());
    assert_eq!(parse_data_uri("data:image/jpeg;base64,").unwrap(), Vec::<u8>::new());
}

#[test]
fn parse_data_uri_wrong_prefix() {
    assert!(parse_data_uri("data:image/png;base64,AAAA").is_err());
    assert!(parse_data_uri("https://ex/a.jpg").is_err());
    assert!(parse_data_uri("").is_err());
}

#[test]
fn parse_data_uri_bad_base64() {
    assert!(parse_data_uri("data:image/jpeg;base64,!@#$").is_err());
}

#[test]
fn parse_data_uri_says_what_is_wrong() {
    let prefix = parse_data_uri("data:image/png;base64,AAAA").unwrap_err();
    assert_eq!(prefix, "thumbnail is not a 'data:image/jpeg;base64,...' data uri");
    let unpadded = parse_data_uri("data:image/jpeg;base64,aGVsbG8").unwrap_err();
    assert!(unpadded.starts_with("base64 decode: "), "{unpadded}");
    assert_eq!(decoded_image(Err("odd".into())), Err("base64 decode: odd".to_string()));
    assert_eq!(decoded_image(Ok(vec![7])), Ok(vec![7]));
}

fn trig(eid: Option<&str>, sid: Option<&str>) -> Trigger {
    Trigger {
        event_id: eid.map(String::from),
        source_event: Some(SourceEvent {
            id: sid.map(String::from),
        }),
    }
}

#[test]
fn resolve_event_id_prefers_event_id() {
    let ts = vec![trig(Some("evt-1"), Some("src-1"))];
    assert_eq!(resolve_event_id(&ts).unwrap(), "evt-1");
}

#[test]
fn resolve_event_id_falls_back_to_source() {
    let ts = vec![trig(None, Some("src-1"))];
    assert_eq!(resolve_event_id(&ts).unwrap(), "src-1");
}

#[test]
fn resolve_event_id_missing_both() {
    let ts = vec![trig(None, None)];
    assert!(resolve_event_id(&ts).is_err());
}

#[test]
fn resolve_event_id_no_triggers() {
    assert!(resolve_event_id(&[]).is_err());
}

#[test]
fn resolve_event_id_looks_at_the_first_trigger_alone() {
    let ts = vec![trig(None, None), trig(Some("evt-2"), None)];
    assert_eq!(resolve_event_id(&ts).unwrap_err(), "trigger has no event id");
    let none = vec![Trigger { event_id: None, source_event: None }];
    assert_eq!(resolve_event_id(&none).unwrap_err(), "trigger has no event id");
    assert_eq!(resolve_event_id(&[]).unwrap_err(), "payload has no triggers");
}

#[test]
fn payload_roundtrip_from_real_shape() {
    let json = r#"{
        "alarm": {
            "name": "Ring - webhook",
            "triggers": [{
                "key": "ring",
                "eventId": "evt-abc-123",
                "sourceEvent": {"id": "evt-abc-123", "type": "ring"}
            }],
            "thumbnail": "data:image/jpeg;base64,AAAA"
        },
        "timestamp": 1787498999168
    }"#;
    let p = payload_from(json);
    assert_eq!(p.event_id().unwrap(), "evt-abc-123");
    assert_eq!(p.image_bytes().unwrap(), vec![0, 0, 0]);
}

#[test]
fn payload_without_thumbnail_deserializes() {
    let json = r#"{
        "alarm": {
            "name": "Ring - webhook",
            "triggers": [{"eventId": "evt-no-thumb"}]
        },
        "timestamp": 1
    }"#;
    let p = payload_from(json);
    assert_eq!(p.event_id().unwrap(), "evt-no-thumb");
    assert!(p.image_bytes().is_err());
    assert_eq!(p.image_bytes().unwrap_err(), "payload has no alarm.thumbnail");
}
