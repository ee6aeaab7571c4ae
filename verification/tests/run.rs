use castbell::cast::{App, AppId, LoadRequestData, MediaInformation, NamespaceUrn, StreamType};
use castbell::flags::Action;
use castbell::run::{CastRun, Command, MediaStatus, Reply, Step};
use castbell::time::Duration;

fn start(actions: &[Action]) -> (CastRun, Step) {
    CastRun::start("10.0.0.9", actions, "http://d.mp3", "http://s.m3u8", Some("http://i.jpg"))
}

fn app(app_id: AppId) -> App {
    App {
        app_id,
        app_type: String::new(),
        display_name: String::new(),
        icon_url: String::new(),
        is_idle_screen: false,
        launched_from_cloud: false,
        namespaces: vec![NamespaceUrn::Media],
        session_id: "session".into(),
        status_text: String::new(),
        transport_id: "transport".into(),
        universal_app_id: String::new(),
    }
}

fn playing() -> MediaInformation {
    MediaInformation {
        content_id: "http://radio".into(),
        content_type: "audio/aac".into(),
        stream_type: StreamType::Live,
        metadata: None,
        details: Some(3),
    }
}

fn loaded(r: &LoadRequestData) -> String {
    format!("{} {}", r.media.content_id, r.media.content_type)
}

fn name(step: &Step) -> String {
    match step {
        Step::Do(Command::Connect(ip)) => format!("connect {ip}"),
        Step::Do(Command::ReadStatus) => "status".into(),
        Step::Do(Command::JoinApp(a)) => format!("join {}", a.transport_id),
        Step::Do(Command::QueryMedia(a)) => format!("query {}", a.transport_id),
        Step::Do(Command::Launch(id)) => format!("launch {id:?}"),
        Step::Do(Command::OpenController) => "open".into(),
        Step::Do(Command::Load(r)) => format!("load {}", loaded(r)),
        Step::Do(Command::Sleep(d)) => format!("sleep {}.{}", d.secs, d.nanos),
        Step::Do(Command::Detach) => "detach".into(),
        Step::Do(Command::StopApp) => "stop".into(),
        Step::Do(Command::Relaunch(id)) => format!("relaunch {id:?}"),
        Step::Do(Command::OpenRelaunched) => "reopen".into(),
        Step::Do(Command::LoadRelaunched(r)) => {
            format!("reload {} at {:?}", loaded(r), r.current_time.map(f64::from_bits))
        }
        Step::Do(Command::Disconnect) => "disconnect".into(),
        Step::Ended(Ok(())) => "ok".into(),
        Step::Ended(Err(e)) => format!("error {e}"),
    }
}

fn fine(step: &Step) -> Reply {
    match step {
        Step::Do(Command::ReadStatus) => Reply::Apps(Some(vec![app(AppId::YouTube)])),
        Step::Do(Command::QueryMedia(_)) => Reply::Media(Some(vec![MediaStatus {
            media: Some(playing()),
            current_time: 12.5f64.to_bits(),
        }])),
        _ => Reply::Done,
    }
}

/// Drives a run to its end, with `replies` for the steps that they name.
fn drive(actions: &[Action], replies: Vec<(&str, Reply)>) -> Vec<String> {
    let mut replies = replies;
    let (mut run, mut step) = start(actions);
    let mut seen = vec![name(&step)];
    while !matches!(step, Step::Ended(_)) {
        let reply = match replies.iter().position(|(s, _)| *s == seen[seen.len() - 1]) {
            Some(i) => replies.remove(i).1,
            None => fine(&step),
        };
        step = run.advance(reply);
        seen.push(name(&step));
    }
    seen
}

fn failed(e: &str) -> Reply {
    Reply::Failed(e.into())
}

const SHORT: Action = Action::Doorbell;

#[test]
fn a_run_without_loads_touches_no_device() {
    assert_eq!(drive(&[], vec![]), vec!["ok"]);
    let (_, step) = CastRun::start("10.0.0.9", &[Action::Thumbnail], "", "", None);
    assert_eq!(name(&step), "ok");
}

#[test]
fn a_run_plays_its_plan_in_order_and_disconnects() {
    let pause = Action::Sleep(Duration::from_millis(1500));
    assert_eq!(
        drive(&[Action::Doorbell, pause, Action::Thumbnail, Action::Livestream], vec![]),
        vec![
            "connect 10.0.0.9",
            "launch DefaultMediaReceiver",
            "open",
            "load http://d.mp3 audio/mpeg",
            "sleep 1.500000000",
            "load http://i.jpg image/jpeg",
            "load http://s.m3u8 application/x-mpegurl",
            "disconnect",
            "ok",
        ]
    );
}

#[test]
fn a_resume_brings_back_what_was_playing() {
    assert_eq!(
        drive(&[Action::Doorbell, Action::Resume], vec![]),
        vec![
            "connect 10.0.0.9",
            "status",
            "join transport",
            "query transport",
            "launch DefaultMediaReceiver",
            "open",
            "load http://d.mp3 audio/mpeg",
            "relaunch YouTube",
            "reopen",
            "reload http://radio audio/aac at Some(12.5)",
            "disconnect",
            "ok",
        ]
    );
}

#[test]
fn a_timed_image_that_is_not_the_last_load_is_replaced() {
    let timed = Action::TimedThumbnail(Duration::from_secs(30));
    let pause = Action::Sleep(Duration::from_secs(2));
    assert_eq!(
        drive(&[timed, Action::Doorbell, pause, Action::Resume], vec![]),
        vec![
            "connect 10.0.0.9",
            "status",
            "join transport",
            "query transport",
            "launch DefaultMediaReceiver",
            "open",
            "load http://i.jpg image/jpeg",
            "load http://d.mp3 audio/mpeg",
            "sleep 2.0",
            "relaunch YouTube",
            "reopen",
            "reload http://radio audio/aac at Some(12.5)",
            "disconnect",
            "ok",
        ]
    );
    assert_eq!(
        drive(&[timed, pause, Action::TimedThumbnail(Duration::from_secs(5))], vec![]),
        vec![
            "connect 10.0.0.9",
            "launch DefaultMediaReceiver",
            "open",
            "load http://i.jpg image/jpeg",
            "sleep 2.0",
            "load http://i.jpg image/jpeg",
            "detach",
            "sleep 5.0",
            "stop",
            "disconnect",
            "ok",
        ]
    );
}

#[test]
fn a_timed_image_is_cleared_in_the_background() {
    let timed = Action::TimedThumbnail(Duration::from_secs(30));
    let pause = Action::Sleep(Duration::from_secs(2));
    assert_eq!(
        drive(&[Action::Doorbell, timed, pause, Action::Resume], vec![]),
        vec![
            "connect 10.0.0.9",
            "status",
            "join transport",
            "query transport",
            "launch DefaultMediaReceiver",
            "open",
            "load http://d.mp3 audio/mpeg",
            "load http://i.jpg image/jpeg",
            "detach",
            "sleep 30.0",
            "stop",
            "sleep 2.0",
            "relaunch YouTube",
            "reopen",
            "reload http://radio audio/aac at Some(12.5)",
            "disconnect",
            "ok",
        ]
    );
}

#[test]
fn nothing_is_resumed_where_nothing_was_playing() {
    let plain = vec![
        "launch DefaultMediaReceiver",
        "open",
        "load http://d.mp3 audio/mpeg",
        "disconnect",
        "ok",
    ];
    let tail = |replies: Vec<(&str, Reply)>| {
        let seen = drive(&[Action::Doorbell, Action::Resume], replies);
        seen[seen.len() - 5..].to_vec()
    };
    assert_eq!(tail(vec![("status", failed("x"))]), plain);
    assert_eq!(tail(vec![("status", Reply::Apps(None))]), plain);
    assert_eq!(tail(vec![("status", Reply::Apps(Some(vec![])))]), plain);
    assert_eq!(tail(vec![("join transport", failed("x"))]), plain);
    assert_eq!(tail(vec![("query transport", failed("x"))]), plain);
    assert_eq!(tail(vec![("query transport", Reply::Media(None))]), plain);
    assert_eq!(tail(vec![("query transport", Reply::Media(Some(vec![])))]), plain);
    let idle = MediaStatus { media: None, current_time: 0 };
    assert_eq!(tail(vec![("query transport", Reply::Media(Some(vec![idle])))]), plain);
}

#[test]
fn a_run_reports_what_failed() {
    let last = |actions: &[Action], at: &str| {
        let seen = drive(actions, vec![(at, failed("boom"))]);
        seen[seen.len() - 1].clone()
    };
    assert_eq!(last(&[SHORT], "connect 10.0.0.9"), "error connect 10.0.0.9: boom");
    assert_eq!(last(&[SHORT], "launch DefaultMediaReceiver"), "error launch app: boom");
    assert_eq!(last(&[SHORT], "open"), "error media controller: boom");
    assert_eq!(last(&[SHORT], "load http://d.mp3 audio/mpeg"), "error load: boom");
    assert_eq!(
        last(&[SHORT, Action::Resume], "relaunch YouTube"),
        "error resume launch app: boom"
    );
}

#[test]
fn a_receiver_that_does_not_take_the_media_back_is_no_failure() {
    let last = |at: &str| {
        let seen = drive(&[SHORT, Action::Resume], vec![(at, failed("boom"))]);
        seen[seen.len() - 2..].to_vec()
    };
    assert_eq!(last("reopen"), vec!["disconnect", "ok"]);
    assert_eq!(last("reload http://radio audio/aac at Some(12.5)"), vec!["disconnect", "ok"]);
}

#[test]
fn the_background_goes_on_where_something_fails() {
    let timed = Action::TimedThumbnail(Duration::from_secs(1));
    let seen = drive(
        &[timed, Action::Resume],
        vec![("stop", failed("boom")), ("relaunch YouTube", failed("boom"))],
    );
    assert_eq!(
        seen[seen.len() - 6..].to_vec(),
        vec!["detach", "sleep 1.0", "stop", "relaunch YouTube", "disconnect", "ok"]
    );
}
