use castbell::address::{advertise_is_local, Url};
use castbell::config::{build, choose_doorbell, doorbell_cast_url, prepare, Cli, DoorbellSource};
use castbell::flags::Action;
use castbell::time::Duration;

/// Reads flags that each take one value.
fn cli(args: &[&str]) -> Cli {
    let mut c = Cli {
        listen: "127.0.0.1:8080".to_string(),
        device: Vec::new(),
        endpoint: Vec::new(),
        action: Vec::new(),
        doorbell_url: None,
        doorbell_file: None,
        livestream_url: None,
        advertise_url: None,
    };
    for pair in args.chunks(2) {
        let value = pair[1].to_string();
        match pair[0] {
            "--listen" => c.listen = value,
            "--device" => c.device.push(value),
            "--endpoint" => c.endpoint.push(value),
            "--action" => c.action.push(value),
            "--doorbell-url" => c.doorbell_url = Some(Url::parse(pair[1]).unwrap()),
            "--doorbell-file" => c.doorbell_file = Some(value),
            "--livestream-url" => c.livestream_url = Some(Url::parse(pair[1]).unwrap()),
            "--advertise-url" => c.advertise_url = Some(Url::parse(pair[1]).unwrap()),
            other => panic!("unknown flag {other}"),
        }
    }
    c
}

#[test]
fn build_ok() {
    let cfg = build(cli(&[
        "--device",
        "lr:192.168.1.50",
        "--endpoint",
        "/doorbell-lr:lr",
        "--action",
        "lr:doorbell",
        "--action",
        "lr:thumbnail",
        "--doorbell-url",
        "https://ex/d.mp3",
        "--advertise-url",
        "http://10.0.0.1:8080",
    ]), Ok(Vec::new()))
    .unwrap();
    assert_eq!(cfg.devices.get("lr").unwrap(), "192.168.1.50");
    assert_eq!(
        cfg.routes.get("/doorbell-lr").unwrap(),
        &vec!["lr".to_string()]
    );
    assert_eq!(
        cfg.actions.get("lr").unwrap(),
        &vec![Action::Doorbell, Action::Thumbnail]
    );
    assert_eq!(cfg.listen, "127.0.0.1:8080");
}

#[test]
fn build_missing_doorbell_source() {
    let err = build(cli(&[
        "--device",
        "lr:192.168.1.50",
        "--endpoint",
        "/doorbell-lr:lr",
        "--action",
        "lr:doorbell",
    ]), Ok(Vec::new()))
    .expect_err("should fail");
    assert!(err.contains("doorbell"));
}

#[test]
fn build_missing_advertise_url_for_thumbnail() {
    let err = build(cli(&[
        "--device",
        "lr:192.168.1.50",
        "--endpoint",
        "/doorbell-lr:lr",
        "--action",
        "lr:thumbnail",
    ]), Ok(Vec::new()))
    .expect_err("should fail");
    assert!(err.contains("advertise-url"));
}

#[test]
fn build_missing_advertise_url_for_timed_thumbnail() {
    let err = build(cli(&[
        "--device",
        "lr:192.168.1.50",
        "--endpoint",
        "/doorbell-lr:lr",
        "--action",
        "lr:thumbnail:30s",
    ]), Ok(Vec::new()))
    .expect_err("should fail");
    assert!(err.contains("advertise-url"));
}

#[test]
fn build_missing_livestream_url() {
    let err = build(cli(&[
        "--device",
        "lr:192.168.1.50",
        "--endpoint",
        "/doorbell-lr:lr",
        "--action",
        "lr:livestream",
    ]), Ok(Vec::new()))
    .expect_err("should fail");
    assert!(err.contains("livestream-url"));
}

#[test]
fn build_resume_not_last_rejected() {
    let err = build(cli(&[
        "--device",
        "lr:192.168.1.50",
        "--endpoint",
        "/doorbell-lr:lr",
        "--action",
        "lr:doorbell",
        "--action",
        "lr:resume",
        "--action",
        "lr:thumbnail",
        "--doorbell-url",
        "https://ex/d.mp3",
        "--advertise-url",
        "http://10.0.0.1:8080",
    ]), Ok(Vec::new()))
    .expect_err("should fail");
    assert!(err.contains("resume must be the last action"));
}

#[test]
fn build_resume_last_ok() {
    let cfg = build(cli(&[
        "--device",
        "lr:192.168.1.50",
        "--endpoint",
        "/doorbell-lr:lr",
        "--action",
        "lr:doorbell",
        "--action",
        "lr:sleep:2s",
        "--action",
        "lr:resume",
        "--doorbell-url",
        "https://ex/d.mp3",
    ]), Ok(Vec::new()))
    .unwrap();
    assert_eq!(cfg.actions.get("lr").unwrap().last(), Some(&Action::Resume));
}

#[test]
fn build_no_actions_ok() {
    // endpoint routes to a device with no actions: valid config.
    let cfg = build(cli(&[
        "--device",
        "lr:192.168.1.50",
        "--endpoint",
        "/doorbell-lr:lr",
    ]), Ok(Vec::new()))
    .unwrap();
    assert_eq!(cfg.actions.len(), 0);
}

#[test]
fn choose_doorbell_none() {
    assert!(choose_doorbell(None, None).unwrap().is_none());
}

#[test]
fn choose_doorbell_url() {
    let u = Url::parse("https://ex/d.mp3").unwrap();
    assert!(matches!(
        choose_doorbell(Some(u), None).unwrap(),
        Some(DoorbellSource::Url(_))
    ));
}

#[test]
fn choose_doorbell_file() {
    assert!(matches!(
        choose_doorbell(None, Some("a.mp3".to_string())).unwrap(),
        Some(DoorbellSource::File(_))
    ));
}

#[test]
fn choose_doorbell_both_rejected() {
    let u = Url::parse("https://ex/d.mp3").unwrap();
    assert!(choose_doorbell(Some(u), Some("a.mp3".to_string())).is_err());
}

#[test]
fn doorbell_cast_url_strips_slash() {
    let u = Url::parse("http://10.0.0.1:8080/").unwrap();
    assert_eq!(doorbell_cast_url(&u), "http://10.0.0.1:8080/doorbell.mp3");
}

#[test]
fn advertise_is_local_detects_loopback() {
    assert!(advertise_is_local(
        &Url::parse("http://127.0.0.1:8080").unwrap()
    ));
    assert!(advertise_is_local(
        &Url::parse("http://localhost:8080").unwrap()
    ));
    assert!(advertise_is_local(&Url::parse("http://[::1]:8080").unwrap()));
}

#[test]
fn advertise_is_local_false_for_lan() {
    assert!(!advertise_is_local(
        &Url::parse("http://192.168.1.10:8080").unwrap()
    ));
    assert!(!advertise_is_local(
        &Url::parse("http://10.0.0.1:8080").unwrap()
    ));
}

#[test]
fn build_with_doorbell_file() {
    let path = "/tmp/castbell_test_d.mp3";
    let cfg = build(cli(&[
        "--device",
        "lr:192.168.1.50",
        "--endpoint",
        "/doorbell-lr:lr",
        "--action",
        "lr:doorbell",
        "--doorbell-file",
        path,
        "--advertise-url",
        "http://10.0.0.1:8080",
    ]), Ok(b"ID3FAKE".to_vec()))
    .unwrap();
    assert_eq!(
        cfg.doorbell_url.as_deref(),
        Some("http://10.0.0.1:8080/doorbell.mp3")
    );
    assert_eq!(cfg.doorbell_bytes.as_deref(), Some(b"ID3FAKE".as_slice()));
}

#[test]
fn build_doorbell_file_without_advertise_fails() {
    let path = "/tmp/castbell_test_d2.mp3";
    let err = build(cli(&[
        "--device",
        "lr:192.168.1.50",
        "--endpoint",
        "/doorbell-lr:lr",
        "--action",
        "lr:doorbell",
        "--doorbell-file",
        path,
    ]), Ok(b"ID3FAKE".to_vec()))
    .expect_err("should fail");
    assert!(err.contains("advertise-url"));
}

#[test]
fn build_doorbell_url_and_file_mutually_exclusive() {
    let path = "/tmp/castbell_test_d3.mp3";
    let err = build(cli(&[
        "--device",
        "lr:192.168.1.50",
        "--endpoint",
        "/doorbell-lr:lr",
        "--action",
        "lr:doorbell",
        "--doorbell-url",
        "https://ex/d.mp3",
        "--doorbell-file",
        path,
        "--advertise-url",
        "http://10.0.0.1:8080",
    ]), Ok(b"ID3FAKE".to_vec()))
    .expect_err("should fail");
    assert!(err.contains("mutually exclusive"));
}

const BASE: &[&str] = &["--device", "lr:192.168.1.50", "--endpoint", "/doorbell-lr:lr"];

fn cli_with(more: &[&str]) -> Cli {
    let mut all = BASE.to_vec();
    all.extend_from_slice(more);
    cli(&all)
}

#[test]
fn build_says_what_is_missing() {
    let missing = |more: &[&str]| build(cli_with(more), Ok(Vec::new())).unwrap_err();
    assert_eq!(
        missing(&["--action", "lr:doorbell"]),
        "doorbell-url or doorbell-file required for doorbell actions"
    );
    assert_eq!(
        missing(&["--action", "lr:livestream"]),
        "--livestream-url required for livestream actions"
    );
    assert_eq!(
        missing(&["--action", "lr:thumbnail"]),
        "--advertise-url required for image actions"
    );
    assert_eq!(
        missing(&["--doorbell-file", "a.mp3"]),
        "--advertise-url required for --doorbell-file"
    );
    assert_eq!(
        missing(&["--doorbell-file", "a.mp3", "--doorbell-url", "https://ex/d.mp3"]),
        "--doorbell-url and --doorbell-file are mutually exclusive"
    );
    assert_eq!(
        missing(&["--action", "lr:resume", "--action", "lr:sleep:1s"]),
        "--action lr:resume must be the last action for device 'lr'"
    );
    assert_eq!(missing(&["--action", "lr:jump"]), "unknown action 'jump'");
    assert_eq!(missing(&["--device", "kit"]), "bad --device 'kit', want alias:ip");
    assert_eq!(
        missing(&["--endpoint", "/doorbell-kit:kit"]),
        "endpoint '/doorbell-kit' references unknown device 'kit'"
    );
}

#[test]
fn build_reports_a_file_that_cannot_be_read() {
    let e = build(
        cli_with(&["--doorbell-file", "a.mp3", "--advertise-url", "http://10.0.0.1"]),
        Err("no such file".into()),
    )
    .unwrap_err();
    assert_eq!(e, "read doorbell file 'a.mp3': no such file");
}

#[test]
fn a_file_is_read_only_where_it_is_wanted() {
    let d = prepare(cli_with(&["--doorbell-url", "https://ex/d.mp3"])).unwrap();
    assert!(!d.wants_file());
    let cfg = d.finish(Err("never read".into())).unwrap();
    assert_eq!(cfg.doorbell_url.as_deref(), Some("https://ex/d.mp3"));
    assert_eq!(cfg.doorbell_bytes, None);
    let d = prepare(cli_with(&["--doorbell-file", "a.mp3", "--advertise-url", "http://h"])).unwrap();
    assert!(d.wants_file());
    assert_eq!(
        d.finish(Ok(vec![1])).unwrap().doorbell_url.as_deref(),
        Some("http://h/doorbell.mp3")
    );
}

#[test]
fn build_lets_the_last_flag_win_and_keeps_action_order() {
    let cfg = build(
        cli(&[
            "--device",
            "lr:10.0.0.1",
            "--device",
            "kit:10.0.0.2",
            "--device",
            "lr:10.0.0.3",
            "--endpoint",
            "/doorbell-a:lr",
            "--endpoint",
            "/doorbell-a:kit,lr",
            "--action",
            "lr:sleep:1s",
            "--action",
            "kit:doorbell",
            "--action",
            "lr:livestream",
            "--action",
            "lr:sleep:1s",
            "--doorbell-url",
            "https://ex/d.mp3",
            "--livestream-url",
            "https://ex/s.m3u8",
            "--listen",
            "0.0.0.0:9",
        ]),
        Ok(Vec::new()),
    )
    .unwrap();
    assert_eq!(cfg.devices.len(), 2);
    assert_eq!(cfg.devices.get("lr").unwrap(), "10.0.0.3");
    assert_eq!(
        cfg.routes.get("/doorbell-a").unwrap(),
        &vec!["kit".to_string(), "lr".to_string()]
    );
    let pause = Action::Sleep(Duration::from_secs(1));
    assert_eq!(cfg.actions.get("lr").unwrap(), &vec![pause, Action::Livestream, pause]);
    assert_eq!(cfg.actions.get("kit").unwrap(), &vec![Action::Doorbell]);
    assert_eq!(cfg.livestream_url.unwrap().as_str(), "https://ex/s.m3u8");
    assert_eq!(cfg.listen, "0.0.0.0:9");
}

#[test]
fn urls_are_normalised_and_bad_ones_are_refused() {
    assert_eq!(Url::parse("HTTP://Ex.ORG:80/a/../b").unwrap().as_str(), "http://ex.org/b");
    assert_eq!(Url::parse("http://10.0.0.1:8080").unwrap().as_str(), "http://10.0.0.1:8080/");
    assert_eq!(Url::parse("no url").unwrap_err(), "relative URL without a base");
}

#[test]
fn doorbell_cast_url_strips_every_slash() {
    let u = Url::parse("http://h/cast//").unwrap();
    assert_eq!(doorbell_cast_url(&u), "http://h/cast/doorbell.mp3");
}

#[test]
fn advertise_is_local_knows_names_and_ranges() {
    let local = |s: &str| advertise_is_local(&Url::parse(s).unwrap());
    assert!(local("http://127.9.8.7/"));
    assert!(local("http://LOCALHOST/"));
    assert!(!local("http://localhost.example/"));
    assert!(!local("http://[::2]/"));
    assert!(!local("data:text/plain,x"));
}
