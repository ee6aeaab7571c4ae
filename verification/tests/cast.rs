use castbell::cast::{
    build_resume_load, find_media_app, load_request_for, plan_loads, App, AppId, Image,
    MediaInformation, Metadata, MetadataKind, NamespaceUrn, PlannedLoad, StreamType,
};
use castbell::flags::Action;
use castbell::time::Duration;

#[test]
fn plan_doorbell_only() {
    let p = plan_loads(&[Action::Doorbell], "https://ex/d.mp3", "x", None);
    assert_eq!(
        p,
        vec![PlannedLoad::Doorbell {
            audio_url: "https://ex/d.mp3".into()
        }]
    );
}

#[test]
fn plan_image_only() {
    let p = plan_loads(&[Action::Thumbnail], "x", "x", Some("http://h/i.jpg"));
    assert_eq!(
        p,
        vec![PlannedLoad::Thumbnail {
            url: "http://h/i.jpg".into()
        }]
    );
}

#[test]
fn plan_image_only_no_url_is_empty() {
    let p = plan_loads(&[Action::Thumbnail], "x", "x", None);
    assert!(p.is_empty());
}

#[test]
fn plan_livestream_only() {
    let p = plan_loads(&[Action::Livestream], "x", "https://ex/s.m3u8", None);
    assert_eq!(
        p,
        vec![PlannedLoad::Livestream {
            url: "https://ex/s.m3u8".into()
        }]
    );
}

#[test]
fn plan_preserves_cli_order_doorbell_then_image() {
    // Order is exactly as given on the CLI; plan_loads does not reorder.
    let p = plan_loads(
        &[Action::Doorbell, Action::Thumbnail],
        "https://ex/d.mp3",
        "x",
        Some("http://h/i.jpg"),
    );
    assert_eq!(
        p,
        vec![
            PlannedLoad::Doorbell {
                audio_url: "https://ex/d.mp3".into()
            },
            PlannedLoad::Thumbnail {
                url: "http://h/i.jpg".into()
            },
        ]
    );
}

#[test]
fn plan_preserves_cli_order_image_then_doorbell() {
    let p = plan_loads(
        &[Action::Thumbnail, Action::Doorbell],
        "https://ex/d.mp3",
        "x",
        Some("http://h/i.jpg"),
    );
    assert_eq!(
        p,
        vec![
            PlannedLoad::Thumbnail {
                url: "http://h/i.jpg".into()
            },
            PlannedLoad::Doorbell {
                audio_url: "https://ex/d.mp3".into()
            },
        ]
    );
}

#[test]
fn plan_with_sleep_between() {
    // --action kitchen:doorbell --action kitchen:sleep:2s --action kitchen:image
    let p = plan_loads(
        &[
            Action::Doorbell,
            Action::Sleep(Duration::from_secs(2)),
            Action::Thumbnail,
        ],
        "https://ex/d.mp3",
        "x",
        Some("http://h/i.jpg"),
    );
    assert_eq!(
        p,
        vec![
            PlannedLoad::Doorbell {
                audio_url: "https://ex/d.mp3".into()
            },
            PlannedLoad::Sleep(Duration::from_secs(2)),
            PlannedLoad::Thumbnail {
                url: "http://h/i.jpg".into()
            },
        ]
    );
}

#[test]
fn plan_image_without_url_is_dropped() {
    let p = plan_loads(
        &[Action::Doorbell, Action::Thumbnail],
        "https://ex/d.mp3",
        "x",
        None,
    );
    assert_eq!(
        p,
        vec![PlannedLoad::Doorbell {
            audio_url: "https://ex/d.mp3".into()
        }]
    );
}

#[test]
fn plan_empty_actions() {
    assert!(plan_loads(&[], "x", "x", Some("i")).is_empty());
}

#[test]
fn load_request_doorbell_has_no_metadata() {
    let r = load_request_for(&PlannedLoad::Doorbell {
        audio_url: "https://ex/d.mp3".into(),
    });
    assert_eq!(r.media.content_id, "https://ex/d.mp3");
    assert_eq!(r.media.content_type, "audio/mpeg");
    assert!(matches!(r.media.stream_type, StreamType::Buffered));
    assert_eq!(r.autoplay, Some(true));
    assert!(r.media.metadata.is_none());
}

#[test]
fn load_request_image() {
    let r = load_request_for(&PlannedLoad::Thumbnail {
        url: "http://h/i.jpg".into(),
    });
    assert_eq!(r.media.content_id, "http://h/i.jpg");
    assert_eq!(r.media.content_type, "image/jpeg");
    assert!(matches!(r.media.stream_type, StreamType::Buffered));
    assert!(r.media.metadata.is_none());
}

#[test]
fn plan_image_timed() {
    let p = plan_loads(
        &[
            Action::Doorbell,
            Action::Sleep(Duration::from_secs(2)),
            Action::TimedThumbnail(Duration::from_secs(30)),
        ],
        "https://ex/d.mp3",
        "x",
        Some("http://h/i.jpg"),
    );
    assert_eq!(
        p,
        vec![
            PlannedLoad::Doorbell {
                audio_url: "https://ex/d.mp3".into()
            },
            PlannedLoad::Sleep(Duration::from_secs(2)),
            PlannedLoad::TimedThumbnail {
                url: "http://h/i.jpg".into(),
                display: Duration::from_secs(30)
            },
        ]
    );
}

#[test]
fn plan_image_timed_without_url_is_dropped() {
    let p = plan_loads(
        &[Action::TimedThumbnail(Duration::from_secs(30))],
        "x",
        "x",
        None,
    );
    assert!(p.is_empty());
}

#[test]
fn load_request_image_timed() {
    let r = load_request_for(&PlannedLoad::TimedThumbnail {
        url: "http://h/i.jpg".into(),
        display: Duration::from_secs(30),
    });
    assert_eq!(r.media.content_id, "http://h/i.jpg");
    assert_eq!(r.media.content_type, "image/jpeg");
    assert!(matches!(r.media.stream_type, StreamType::Buffered));
    assert_eq!(r.autoplay, Some(true));
}

#[test]
fn load_request_livestream() {
    let r = load_request_for(&PlannedLoad::Livestream {
        url: "https://ex/s.m3u8".into(),
    });
    assert_eq!(r.media.content_id, "https://ex/s.m3u8");
    assert_eq!(r.media.content_type, "application/x-mpegurl");
    assert!(matches!(r.media.stream_type, StreamType::Live));
}

fn app_with(app_id: AppId, namespaces: Vec<NamespaceUrn>) -> App {
    App {
        app_id,
        app_type: String::new(),
        display_name: String::new(),
        icon_url: String::new(),
        is_idle_screen: false,
        launched_from_cloud: false,
        namespaces,
        session_id: String::new(),
        status_text: String::new(),
        transport_id: String::new(),
        universal_app_id: String::new(),
    }
}

#[test]
fn plan_with_resume_last() {
    let p = plan_loads(
        &[
            Action::Doorbell,
            Action::Sleep(Duration::from_secs(2)),
            Action::Resume,
        ],
        "https://ex/d.mp3",
        "x",
        None,
    );
    assert_eq!(
        p,
        vec![
            PlannedLoad::Doorbell {
                audio_url: "https://ex/d.mp3".into()
            },
            PlannedLoad::Sleep(Duration::from_secs(2)),
            PlannedLoad::Resume,
        ]
    );
}

#[test]
fn plan_image_timed_then_resume() {
    let p = plan_loads(
        &[
            Action::Doorbell,
            Action::Sleep(Duration::from_secs(3)),
            Action::TimedThumbnail(Duration::from_secs(20)),
            Action::Resume,
        ],
        "https://ex/d.mp3",
        "x",
        Some("http://h/i.jpg"),
    );
    assert_eq!(
        p,
        vec![
            PlannedLoad::Doorbell {
                audio_url: "https://ex/d.mp3".into()
            },
            PlannedLoad::Sleep(Duration::from_secs(3)),
            PlannedLoad::TimedThumbnail {
                url: "http://h/i.jpg".into(),
                display: Duration::from_secs(20)
            },
            PlannedLoad::Resume,
        ]
    );
}

#[test]
fn find_media_app_prefers_default_receiver() {
    let apps = vec![
        app_with(AppId::YouTube, vec![NamespaceUrn::Media]),
        app_with(AppId::DefaultMediaReceiver, vec![NamespaceUrn::Connection]),
        app_with(
            AppId::DefaultMediaReceiver,
            vec![NamespaceUrn::Connection, NamespaceUrn::Media],
        ),
    ];
    let found = find_media_app(&apps).expect("found");
    assert_eq!(found.app_id, AppId::DefaultMediaReceiver);
}

#[test]
fn find_media_app_falls_back_to_custom_app() {
    // A custom receiver (e.g. BBC Sounds) with a Media namespace should be
    // captured when no Default Media Receiver is running.
    let apps = vec![app_with(
        AppId::Custom("BCCSounds".into()),
        vec![NamespaceUrn::Connection, NamespaceUrn::Media],
    )];
    let found = find_media_app(&apps).expect("found");
    assert_eq!(found.app_id, AppId::Custom("BCCSounds".into()));
}

#[test]
fn find_media_app_none_when_no_media_namespace() {
    let apps = vec![app_with(AppId::DefaultMediaReceiver, vec![])];
    assert!(find_media_app(&apps).is_none());
}

#[test]
fn find_media_app_none_when_empty() {
    assert!(find_media_app(&[]).is_none());
}

#[test]
fn build_resume_load_carries_media_and_seek() {
    let media = MediaInformation {
        content_id: "https://ex/stream.m3u8".into(),
        content_type: "application/x-mpegurl".into(),
        stream_type: StreamType::Live,
        metadata: None,
        details: None,
    };
    let req = build_resume_load(&media, 42.5f64.to_bits());
    assert_eq!(req.media.content_id, "https://ex/stream.m3u8");
    assert_eq!(req.media.content_type, "application/x-mpegurl");
    assert!(matches!(req.media.stream_type, StreamType::Live));
    assert_eq!(req.current_time.map(f64::from_bits), Some(42.5));
    assert_eq!(req.autoplay, Some(true));
}

#[test]
fn find_media_app_takes_the_first_of_its_kind_whole() {
    let mut first = app_with(AppId::DefaultMediaReceiver, vec![NamespaceUrn::Media]);
    first.transport_id = "web-1".into();
    first.session_id = "s-1".into();
    let mut second = app_with(AppId::DefaultMediaReceiver, vec![NamespaceUrn::Media]);
    second.transport_id = "web-2".into();
    let other = app_with(AppId::YouTube, vec![NamespaceUrn::Sse, NamespaceUrn::Media]);
    let found = find_media_app(&[other, first.clone(), second]).expect("found");
    assert_eq!(found, first);
    let named = app_with(AppId::Custom("X".into()), vec![NamespaceUrn::Custom("media".into())]);
    assert!(find_media_app(&[named]).is_none());
}

#[test]
fn load_request_starts_by_itself_and_at_the_start() {
    let loads = [
        PlannedLoad::Doorbell { audio_url: "a".into() },
        PlannedLoad::Thumbnail { url: "b".into() },
        PlannedLoad::TimedThumbnail { url: "c".into(), display: Duration::from_secs(1) },
        PlannedLoad::Livestream { url: "d".into() },
    ];
    for load in &loads {
        let r = load_request_for(load);
        assert_eq!(r.autoplay, Some(true));
        assert_eq!(r.current_time, None);
        assert_eq!(r.media.details, None);
    }
}

#[test]
fn build_resume_load_makes_the_metadata_generic() {
    let media = MediaInformation {
        content_id: "x".into(),
        content_type: "y".into(),
        stream_type: StreamType::Unspecified,
        metadata: Some(Metadata {
            kind: MetadataKind::Movie,
            title: Some("A Film".into()),
            subtitle: None,
            release_date: Some("1999".into()),
            images: Some(vec![Image { url: "http://p.jpg".into(), height: Some(9), width: None }]),
            poster_url: Some("http://q.jpg".into()),
        }),
        details: Some(7),
    };
    let req = build_resume_load(&media, 0);
    assert_eq!(req.current_time, Some(0));
    assert_eq!(req.media.content_id, "x");
    assert_eq!(req.media.content_type, "y");
    assert_eq!(req.media.stream_type, StreamType::Unspecified);
    assert_eq!(req.media.details, Some(7));
    let shown = req.media.metadata.unwrap();
    assert_eq!(shown.kind, MetadataKind::Generic);
    assert_eq!(shown, Metadata { kind: MetadataKind::Generic, ..media.metadata.unwrap() });
    assert_eq!(shown.title.as_deref(), Some("A Film"));
    assert_eq!(shown.images.unwrap()[0].url, "http://p.jpg");
}
