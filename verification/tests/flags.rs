use castbell::address::{write_ip, Ip};
use castbell::flags::{
    device_entry, parse_action, parse_action_kind, parse_device, parse_duration, parse_endpoint, Action,
};
use castbell::registry::Registry;
use castbell::time::Duration;

fn devices() -> Registry<String> {
    let mut d = Registry::new();
    d.insert("lr".into(), "192.168.1.50".into());
    d.insert("kit".into(), "192.168.1.51".into());
    d
}

#[test]
fn parse_device_ok() {
    assert_eq!(
        parse_device("lr:192.168.1.50").unwrap(),
        ("lr".into(), "192.168.1.50".into())
    );
}

#[test]
fn parse_device_bad_ip() {
    assert!(parse_device("lr:999.1.1.1").is_err());
    assert!(parse_device("lr").is_err());
    assert!(parse_device("lr:notanip").is_err());
}

#[test]
fn parse_device_writes_the_address_in_one_way() {
    assert_eq!(
        parse_device("lr:2001:0db8:0:0:0:0:0:1").unwrap(),
        ("lr".to_string(), "2001:db8::1".to_string())
    );
    assert_eq!(
        parse_device(":10.0.0.1").unwrap(),
        (String::new(), "10.0.0.1".to_string())
    );
}

#[test]
fn addresses_are_written_in_full_or_in_short() {
    assert_eq!(write_ip(&Ip::V4([10, 0, 0, 1])), "10.0.0.1");
    assert_eq!(write_ip(&Ip::V6([0x2001, 0xdb8, 0, 0, 0, 0, 0, 1])), "2001:db8::1");
    assert_eq!(write_ip(&Ip::V6([0, 0, 0, 0, 0, 0, 0, 0])), "::");
    assert!(parse_device("lr:010.0.0.1").is_err());
}

#[test]
fn parse_device_says_what_is_wrong() {
    assert_eq!(parse_device("lr").unwrap_err(), "bad --device 'lr', want alias:ip");
    assert_eq!(
        parse_device("lr:notanip").unwrap_err(),
        "bad ip 'notanip' in --device 'lr:notanip'"
    );
    assert!(parse_device("lr: 10.0.0.1").is_err());
    assert_eq!(
        device_entry("lr:x", "lr", "x", Some(Ip::V4([1, 20, 0, 255]))),
        Ok(("lr".to_string(), "1.20.0.255".to_string()))
    );
    assert_eq!(
        device_entry("lr:x", "lr", "x", None),
        Err("bad ip 'x' in --device 'lr:x'".to_string())
    );
}

#[test]
fn parse_action_kind_image_timed() {
    assert_eq!(
        parse_action_kind("thumbnail:30s").unwrap(),
        Action::TimedThumbnail(Duration::from_secs(30))
    );
    assert_eq!(
        parse_action_kind(" thumbnail:500ms ").unwrap(),
        Action::TimedThumbnail(Duration::from_millis(500))
    );
}

#[test]
fn parse_action_kind_image_timed_bad() {
    assert!(parse_action_kind("thumbnail:").is_err());
    assert!(parse_action_kind("thumbnail:abc").is_err());
    assert!(parse_action_kind("thumbnail:5").is_err());
}

#[test]
fn parse_action_kind_resume() {
    assert_eq!(parse_action_kind("resume").unwrap(), Action::Resume);
    assert_eq!(parse_action_kind(" resume ").unwrap(), Action::Resume);
}

#[test]
fn parse_action_kind_ok() {
    assert_eq!(parse_action_kind("doorbell").unwrap(), Action::Doorbell);
    assert_eq!(parse_action_kind(" thumbnail ").unwrap(), Action::Thumbnail);
    assert_eq!(parse_action_kind("livestream").unwrap(), Action::Livestream);
}

#[test]
fn parse_action_kind_sleep() {
    assert_eq!(
        parse_action_kind("sleep:2s").unwrap(),
        Action::Sleep(Duration::from_secs(2))
    );
    assert_eq!(
        parse_action_kind(" sleep:500ms ").unwrap(),
        Action::Sleep(Duration::from_millis(500))
    );
}

#[test]
fn parse_action_kind_sleep_bad() {
    assert!(parse_action_kind("sleep:").is_err());
    assert!(parse_action_kind("sleep:abc").is_err());
    assert!(parse_action_kind("sleep:2").is_err());
}

#[test]
fn parse_duration_units() {
    assert_eq!(parse_duration("0s").unwrap(), Duration::from_secs(0));
    assert_eq!(parse_duration("3s").unwrap(), Duration::from_secs(3));
    assert_eq!(parse_duration("750ms").unwrap(), Duration::from_millis(750));
}

#[test]
fn parse_duration_bad() {
    assert!(parse_duration("").is_err());
    assert!(parse_duration("2").is_err());
    assert!(parse_duration("abc").is_err());
    assert!(parse_duration("2m").is_err());
}

#[test]
fn parse_duration_edges() {
    assert_eq!(parse_duration("1500ms").unwrap(), Duration { secs: 1, nanos: 500_000_000 });
    assert_eq!(parse_duration("+7s").unwrap(), Duration::from_secs(7));
    assert_eq!(parse_duration("007s").unwrap(), Duration::from_secs(7));
    assert_eq!(parse_duration(" 2s\t").unwrap(), Duration::from_secs(2));
    assert!(parse_duration("2 s").is_err());
    assert_eq!(
        parse_duration("18446744073709551615s").unwrap(),
        Duration::from_secs(u64::MAX)
    );
    assert!(parse_duration("18446744073709551616s").is_err());
    assert!(parse_duration("-1s").is_err());
    assert!(parse_duration("ms").is_err());
    assert!(parse_duration("s").is_err());
    assert_eq!(
        parse_duration(" 2m ").unwrap_err(),
        "bad sleep duration '2m', want <n>ms or <n>s"
    );
}

#[test]
fn parse_action_kind_unknown() {
    assert!(parse_action_kind("door").is_err());
    assert!(parse_action_kind("").is_err());
    assert!(parse_action_kind("sleep").is_err());
}

#[test]
fn parse_endpoint_ok() {
    let (p, a) = parse_endpoint("/doorbell-lr:lr", &devices()).unwrap();
    assert_eq!(p, "/doorbell-lr");
    assert_eq!(a, vec!["lr".to_string()]);
}

#[test]
fn parse_endpoint_multi() {
    let (_, a) = parse_endpoint("/alert-all:lr, kit", &devices()).unwrap();
    assert_eq!(a, vec!["lr".to_string(), "kit".to_string()]);
}

#[test]
fn parse_endpoint_short_path() {
    assert!(parse_endpoint("/short:lr", &devices()).is_err());
}

#[test]
fn parse_endpoint_counts_characters() {
    assert!(parse_endpoint("/1234567:lr", &devices()).is_ok());
    assert!(parse_endpoint("/123456:lr", &devices()).is_err());
    assert!(parse_endpoint("/üüüüüü:lr", &devices()).is_err());
    assert!(parse_endpoint("/üüüüüüü:lr", &devices()).is_ok());
}

#[test]
fn parse_endpoint_unknown_device() {
    assert!(parse_endpoint("/doorbell-x:ghost", &devices()).is_err());
}

#[test]
fn parse_endpoint_names_the_first_unknown_device() {
    assert_eq!(
        parse_endpoint("/doorbell-x:lr,ghost,spook", &devices()).unwrap_err(),
        "endpoint '/doorbell-x' references unknown device 'ghost'"
    );
}

#[test]
fn parse_endpoint_empty_aliases() {
    assert!(parse_endpoint("/doorbell-x:,", &devices()).is_err());
}

#[test]
fn parse_endpoint_skips_empty_aliases() {
    let (_, a) = parse_endpoint("/doorbell-x:,lr,,kit,", &devices()).unwrap();
    assert_eq!(a, vec!["lr".to_string(), "kit".to_string()]);
    assert_eq!(
        parse_endpoint("/doorbell-x", &devices()).unwrap_err(),
        "bad --endpoint '/doorbell-x', want path:aliases"
    );
    assert_eq!(
        parse_endpoint("/short:lr", &devices()).unwrap_err(),
        "endpoint path '/short' must be >= 8 chars"
    );
    assert_eq!(
        parse_endpoint("/doorbell-x: , ", &devices()).unwrap_err(),
        "endpoint '/doorbell-x' has no devices"
    );
}

#[test]
fn parse_action_unknown_alias() {
    assert!(parse_action("ghost:doorbell", &devices()).is_err());
}

#[test]
fn parse_action_keeps_the_rest_for_the_kind() {
    assert_eq!(
        parse_action("lr:thumbnail:30s", &devices()).unwrap(),
        ("lr".to_string(), Action::TimedThumbnail(Duration::from_secs(30)))
    );
    assert!(parse_action("lr", &devices()).is_err());
    assert!(parse_action("lr:jump", &devices()).is_err());
}
