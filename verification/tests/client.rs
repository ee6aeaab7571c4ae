use castbell::client::{
    build_payload, data_uri, delivery, thumbnail_data_uri, Cli, Delivery, Json,
};
use castbell::payload::parse_data_uri;

fn cli(event_id: Option<&str>) -> Cli {
    Cli {
        url: Some("http://127.0.0.1:8080/doorbell-lr".into()),
        event_id: event_id.map(String::from),
        thumbnail: None,
        name: "Ring - webhook".into(),
        key: "ring".into(),
        print: false,
    }
}

fn to_value(j: &Json) -> serde_json::Value {
    match j {
        Json::Bool(b) => serde_json::Value::from(*b),
        Json::Number(n) => serde_json::Value::from(*n),
        Json::Text(t) => serde_json::Value::from(t.as_str()),
        Json::List(v) => serde_json::Value::from(v.iter().map(to_value).collect::<Vec<_>>()),
        Json::Object(m) => {
            let mut map = serde_json::Map::new();
            for (k, v) in m {
                map.insert(k.clone(), to_value(v));
            }
            serde_json::Value::from(map)
        }
    }
}

#[test]
fn client_payload_is_this_document() {
    let want = r#"{
        "alarm": {
            "name": "Ring - webhook",
            "sources": [{"device": "TESTDEVICE", "type": "include"}],
            "conditions": [{"condition": {"type": "is", "source": "ring"}}],
            "triggers": [{
                "key": "ring",
                "device": "TESTDEVICE",
                "eventId": "e1",
                "timestamp": 1787498999168,
                "sourceEvent": {
                    "camera": "6469c7a103d41003e40003ef",
                    "createdAt": "2026-08-23T15:29:58.076717150Z",
                    "device": "6469c7a103d41003e40003ef",
                    "id": "e1",
                    "locked": false,
                    "modelKey": "event",
                    "score": 0,
                    "smartDetectTypes": [],
                    "start": 1787498999168,
                    "type": "ring",
                    "pk": "e1",
                    "_pk": "e1"
                }
            }],
            "thumbnail": "data:x",
            "eventPath": "/protect/events/event/e1",
            "eventLocalLink": "https://192.168.1.1/protect/events/event/e1"
        },
        "timestamp": 1787498999168
    }"#;
    let got = to_value(&build_payload(&cli(Some("e1")), 1787498999168, "data:x"));
    assert_eq!(got, serde_json::from_str::<serde_json::Value>(want).unwrap());
}

#[test]
fn client_makes_an_id_from_the_time() {
    let got = to_value(&build_payload(&cli(None), 1787498999168, ""));
    let trigger = &got["alarm"]["triggers"][0];
    assert_eq!(trigger["eventId"], "test-event-1787498999168");
    assert_eq!(trigger["sourceEvent"]["_pk"], "test-event-1787498999168");
}

#[test]
fn client_thumbnail_is_encoded() {
    assert_eq!(thumbnail_data_uri(Some(b"hello".to_vec())), "data:image/jpeg;base64,aGVsbG8=");
    assert_eq!(thumbnail_data_uri(Some(Vec::new())), "data:image/jpeg;base64,");
    assert_eq!(data_uri("QQ=="), "data:image/jpeg;base64,QQ==");
}

#[test]
fn client_thumbnail_is_read_back() {
    let bytes: Vec<u8> = (0..=255).collect();
    assert_eq!(parse_data_uri(&thumbnail_data_uri(Some(bytes.clone()))), Ok(bytes));
    assert_eq!(
        parse_data_uri(&thumbnail_data_uri(None)),
        Ok(b"doorbell-test-thumbnail-not-a-real-jpeg".to_vec())
    );
}

#[test]
fn client_prints_sends_or_refuses() {
    let mut c = cli(None);
    assert_eq!(delivery(&c), Delivery::Post("http://127.0.0.1:8080/doorbell-lr".into()));
    c.url = None;
    assert_eq!(delivery(&c), Delivery::Refuse("--url is required (or use --print)".into()));
    c.print = true;
    assert_eq!(delivery(&c), Delivery::Print);
    c.url = Some("http://h".into());
    assert_eq!(delivery(&c), Delivery::Print);
}
