use castbell::address::Url;
use castbell::config::Config;
use castbell::flags::Action;
use castbell::media::ThumbnailCache;
use castbell::payload::{Alarm, AlarmPayload, SourceEvent, Trigger};
use castbell::registry::Registry;
use castbell::time::Duration;
use castbell::web::{
    collect_errors, doorbell, found_thumbnail, healthz, needs_thumbnail, thumbnail, thumbnail_url,
    Body, Response,
};
use castbell::webhook::{
    accept, conclude, dispatch, failures, jobs_for, list_text, snapshot, timed, try_dispatch,
    verdict, Outcome,
};

fn actions_map(pairs: &[(&str, &[Action])]) -> Registry<Vec<Action>> {
    let mut m = Registry::new();
    for (k, v) in pairs {
        m.insert((*k).to_string(), v.to_vec());
    }
    m
}

#[test]
fn needs_thumbnail_true_for_timed() {
    let actions = actions_map(&[(
        "lr",
        &[Action::TimedThumbnail(Duration::from_secs(30))],
    )]);
    assert!(needs_thumbnail(&["lr".to_string()], &actions));
}

#[test]
fn needs_thumbnail_true() {
    let actions = actions_map(&[("lr", &[Action::Thumbnail])]);
    assert!(needs_thumbnail(&["lr".to_string()], &actions));
}

#[test]
fn needs_thumbnail_false_when_only_doorbell() {
    let actions = actions_map(&[("lr", &[Action::Doorbell])]);
    assert!(!needs_thumbnail(&["lr".to_string()], &actions));
}

#[test]
fn needs_thumbnail_false_when_no_actions() {
    assert!(!needs_thumbnail(&["lr".to_string()], &Registry::new()));
}

#[test]
fn needs_thumbnail_any_in_route() {
    let actions = actions_map(&[("kit", &[Action::Thumbnail])]);
    assert!(needs_thumbnail(
        &["lr".to_string(), "kit".to_string()],
        &actions
    ));
}

#[test]
fn thumbnail_url_strips_trailing_slash() {
    let u = Url::parse("http://10.0.0.1:8080/").unwrap();
    assert_eq!(
        thumbnail_url(&u, "evt-1"),
        "http://10.0.0.1:8080/media/evt-1"
    );
}

#[test]
fn thumbnail_url_no_trailing_slash() {
    let u = Url::parse("http://10.0.0.1:8080").unwrap();
    assert_eq!(
        thumbnail_url(&u, "evt-1"),
        "http://10.0.0.1:8080/media/evt-1"
    );
}

#[test]
fn collect_errors_all_ok() {
    let r = vec![Ok(Ok(())), Ok(Ok(()))];
    assert!(collect_errors(r).is_empty());
}

#[test]
fn collect_errors_mixed() {
    let r = vec![
        Ok(Ok(())),
        Ok(Err("cast fail".into())),
        Err("join fail".into()),
    ];
    assert_eq!(collect_errors(r), vec!["cast fail", "join fail"]);
}

fn minimal_cfg() -> Config {
    let mut devices = Registry::new();
    devices.insert("lr".into(), "192.168.1.50".into());
    let mut routes = Registry::new();
    routes.insert("/doorbell-lr".to_string(), vec!["lr".to_string()]);
    Config {
        listen: "127.0.0.1:0".into(),
        advertise_url: None,
        devices,
        routes,
        actions: Registry::new(),
        doorbell_url: None,
        doorbell_bytes: None,
        livestream_url: None,
        thumbnails: ThumbnailCache::new(),
    }
}

fn text(status: u16, t: &str) -> Response {
    Response { status, body: Body::Text(t.into()) }
}

fn media(content_type: &str, bytes: &[u8]) -> Response {
    Response {
        status: 200,
        body: Body::Media { content_type: content_type.into(), bytes: bytes.to_vec() },
    }
}

fn alarm(id: &str, thumbnail: Option<&str>) -> AlarmPayload {
    AlarmPayload {
        alarm: Alarm {
            thumbnail: thumbnail.map(String::from),
            triggers: vec![Trigger {
                event_id: Some(id.into()),
                source_event: Some(SourceEvent { id: Some(id.into()) }),
            }],
        },
    }
}

#[test]
fn router_unknown_endpoint_404() {
    let cfg = minimal_cfg();
    assert_eq!(accept(&cfg, "/nope", Ok(())), Err(text(404, "not found")));
}

#[test]
fn router_healthz_200() {
    assert_eq!(healthz(), text(200, "ok"));
}

#[test]
fn router_media_missing_404() {
    let mut cfg = minimal_cfg();
    assert_eq!(thumbnail(&mut cfg, "ghost"), text(404, "expired or unknown"));
}

#[test]
fn router_known_endpoint_no_actions_200() {
    // Endpoint exists, device has no actions -> no cast spawned -> 200.
    let mut cfg = minimal_cfg();
    let aliases = accept(&cfg, "/doorbell-lr", Ok(())).unwrap();
    let alarm = alarm("e1", Some("data:image/jpeg;base64,AAAA"));
    let d = dispatch(&mut cfg, &aliases, Ok(alarm)).unwrap();
    assert!(d.jobs.is_empty());
    assert_eq!(d.event_id, None);
    assert_eq!(conclude(&Vec::new()), text(200, "ok"));
}

#[test]
fn router_bad_payload_400() {
    let mut cfg = minimal_cfg();
    let aliases = accept(&cfg, "/doorbell-lr", Ok(())).unwrap();
    let e = serde_json::from_str::<serde_json::Value>("not json").unwrap_err();
    let r = dispatch(&mut cfg, &aliases, Err(e.to_string())).unwrap_err();
    assert_eq!(r, text(400, &format!("bad payload: {e}")));
}

#[test]
fn router_serves_cached_image() {
    let mut cfg = minimal_cfg();
    cfg.thumbnails.insert("evt-1", vec![0xFF, 0xD8, 0xFF]);
    assert_eq!(thumbnail(&mut cfg, "evt-1"), media("image/jpeg", &[0xFF, 0xD8, 0xFF]));
}

#[test]
fn router_serves_doorbell_mp3() {
    let cfg = minimal_cfg();
    assert_eq!(doorbell(&cfg), text(404, "doorbell not configured"));

    // now configure bytes
    let mut cfg = minimal_cfg();
    cfg.doorbell_bytes = Some(vec![0x49, 0x44, 0x33]);
    assert_eq!(doorbell(&cfg), media("audio/mpeg", &[0x49, 0x44, 0x33]));
}

#[test]
fn found_thumbnail_answers_both_ways() {
    assert_eq!(found_thumbnail(Some(vec![1])), media("image/jpeg", &[1]));
    assert_eq!(found_thumbnail(None), text(404, "expired or unknown"));
}

#[test]
fn a_body_that_cannot_be_read_is_refused_first() {
    let cfg = minimal_cfg();
    assert_eq!(accept(&cfg, "/nope", Err("too long".into())), Err(text(400, "body: too long")));
}

/// Two devices with actions, and one without.
fn full_cfg() -> Config {
    let mut cfg = minimal_cfg();
    cfg.devices.insert("kit".into(), "192.168.1.51".into());
    cfg.devices.insert("idle".into(), "192.168.1.52".into());
    cfg.routes.insert(
        "/doorbell-all".into(),
        vec!["kit".into(), "idle".into(), "lr".into(), "kit".into()],
    );
    cfg.actions.insert("kit".into(), vec![Action::Doorbell, Action::Livestream]);
    cfg.actions.insert("lr".into(), vec![Action::Thumbnail]);
    cfg.doorbell_url = Some("https://ex/d.mp3".into());
    cfg.livestream_url = Some(Url::parse("https://ex/s.m3u8").unwrap());
    cfg.advertise_url = Some(Url::parse("http://10.0.0.1:8080").unwrap());
    cfg
}

#[test]
fn a_hit_runs_every_device_with_actions_and_serves_its_snapshot() {
    let mut cfg = full_cfg();
    let aliases = accept(&cfg, "/doorbell-all", Ok(())).unwrap();
    let alarm = alarm("e1", Some("data:image/jpeg;base64,aGVsbG8="));
    let d = dispatch(&mut cfg, &aliases, Ok(alarm)).unwrap();
    assert_eq!(d.event_id.as_deref(), Some("e1"));
    let seen: Vec<(&str, &str)> =
        d.jobs.iter().map(|j| (j.alias.as_str(), j.ip.as_str())).collect();
    assert_eq!(
        seen,
        vec![("kit", "192.168.1.51"), ("lr", "192.168.1.50"), ("kit", "192.168.1.51")]
    );
    for j in &d.jobs {
        assert_eq!(j.thumbnail.as_deref(), Some("http://10.0.0.1:8080/media/e1"));
        assert_eq!(j.doorbell, "https://ex/d.mp3");
        assert_eq!(j.livestream, "https://ex/s.m3u8");
    }
    assert_eq!(d.jobs[0].actions, vec![Action::Doorbell, Action::Livestream]);
    assert_eq!(thumbnail(&mut cfg, "e1"), media("image/jpeg", b"hello"));
    cfg.thumbnails.remove("e1");
    assert_eq!(thumbnail(&mut cfg, "e1"), text(404, "expired or unknown"));
}

#[test]
fn a_hit_that_needs_a_snapshot_is_refused_without_one() {
    let mut cfg = full_cfg();
    let lr = vec!["lr".to_string()];
    let no_id = AlarmPayload { alarm: Alarm { thumbnail: None, triggers: Vec::new() } };
    assert_eq!(
        dispatch(&mut cfg, &lr, Ok(no_id)).unwrap_err(),
        text(400, "payload has no triggers")
    );
    assert_eq!(
        dispatch(&mut cfg, &lr, Ok(alarm("e1", None))).unwrap_err(),
        text(400, "payload has no alarm.thumbnail")
    );
    assert_eq!(thumbnail(&mut cfg, "e1"), text(404, "expired or unknown"));
}

#[test]
fn a_bad_snapshot_is_refused_also_without_an_address() {
    let mut cfg = full_cfg();
    cfg.advertise_url = None;
    let both = vec!["kit".to_string(), "lr".to_string()];
    assert_eq!(
        dispatch(&mut cfg, &both, Ok(alarm("e1", None))).unwrap_err(),
        text(400, "payload has no alarm.thumbnail")
    );
    assert_eq!(
        try_dispatch(&mut cfg, &both, Err("odd".into())).unwrap().unwrap_err(),
        text(400, "bad payload: odd")
    );
    assert_eq!(
        try_dispatch(&mut cfg, &both, Ok(alarm("e1", Some("data:")))).unwrap().unwrap_err(),
        text(400, "thumbnail is not a 'data:image/jpeg;base64,...' data uri")
    );
    let good = alarm("e1", Some("data:image/jpeg;base64,AAAA"));
    assert!(try_dispatch(&mut cfg, &both, Ok(good)).is_none());
    assert_eq!(thumbnail(&mut cfg, "e1"), text(404, "expired or unknown"));
    let kit = vec!["kit".to_string()];
    let d = try_dispatch(&mut cfg, &kit, Ok(alarm("e1", None))).unwrap().unwrap();
    assert_eq!(d.jobs.len(), 1);
}

#[test]
fn a_hit_that_shows_no_snapshot_does_without() {
    let mut cfg = full_cfg();
    let kit = vec!["kit".to_string()];
    let bare = AlarmPayload { alarm: Alarm { thumbnail: None, triggers: Vec::new() } };
    let d = dispatch(&mut cfg, &kit, Ok(bare)).unwrap();
    assert_eq!(d.jobs.len(), 1);
    assert_eq!(d.jobs[0].thumbnail, None);
    assert_eq!(d.event_id, None);
}

#[test]
fn a_device_that_is_not_known_is_passed_over() {
    let mut cfg = full_cfg();
    cfg.actions.insert("ghost".into(), vec![Action::Doorbell]);
    cfg.actions.insert("idle".into(), Vec::new());
    let names = vec!["ghost".to_string(), "idle".to_string(), "kit".to_string()];
    let jobs = jobs_for(&cfg, &names, &None);
    assert_eq!(jobs.len(), 1);
    assert_eq!(jobs[0].alias, "kit");
    cfg.doorbell_url = None;
    cfg.livestream_url = None;
    let jobs = jobs_for(&cfg, &names, &Some("t".into()));
    assert_eq!((jobs[0].doorbell.as_str(), jobs[0].livestream.as_str()), ("", ""));
    assert_eq!(jobs[0].thumbnail.as_deref(), Some("t"));
}

#[test]
fn a_snapshot_takes_an_id_and_an_image() {
    assert_eq!(snapshot(Ok("e".into()), Ok(vec![1])), Ok(("e".to_string(), vec![1])));
    assert_eq!(snapshot(Err("id".into()), Err("image".into())), Err(text(400, "id")));
    assert_eq!(snapshot(Ok("e".into()), Err("image".into())), Err(text(400, "image")));
}

fn finished(result: Result<(), String>) -> Outcome {
    Outcome::Finished { alias: "lr".into(), ip: "10.0.0.1".into(), result }
}

#[test]
fn a_hit_succeeds_where_every_run_does() {
    assert_eq!(conclude(&vec![finished(Ok(())), finished(Ok(()))]), text(200, "ok"));
}

#[test]
fn a_hit_reports_the_runs_that_failed() {
    let outcomes = vec![
        finished(Err("load: \"no\"".into())),
        finished(Ok(())),
        Outcome::Lost("panicked".into()),
    ];
    assert_eq!(
        failures(&outcomes),
        vec!["lr (10.0.0.1): load: \"no\"", "task join: panicked"]
    );
    assert_eq!(
        conclude(&outcomes),
        text(500, "errors: [\"lr (10.0.0.1): load: \\\"no\\\"\", \"task join: panicked\"]")
    );
    assert_eq!(
        conclude(&outcomes),
        text(500, &format!("errors: {:?}", failures(&outcomes)))
    );
}

#[test]
fn a_list_is_written_in_brackets() {
    assert_eq!(list_text(&Vec::new()), "[]");
    assert_eq!(list_text(&vec!["a".to_string()]), "[a]");
    assert_eq!(list_text(&vec!["a".into(), "".into(), "c".into()]), "[a, , c]");
    assert_eq!(verdict(&vec!["'x'".to_string()]), text(500, "errors: ['x']"));
    assert_eq!(verdict(&Vec::new()), text(200, "ok"));
}

#[test]
fn a_run_that_takes_too_long_fails() {
    assert_eq!(timed(None), Err("cast timed out (20s)".to_string()));
    assert_eq!(timed(Some(Ok(()))), Ok(()));
    assert_eq!(timed(Some(Err("x".into()))), Err("x".to_string()));
}
