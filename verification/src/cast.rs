//! What is played on a device, and what can be resumed on it.
use crate::flags::Action;
use crate::text;
use crate::time::Duration;
use vstd::prelude::*;
use vstd::string::*;

verus! {

/// One step of a plan for a device.
#[derive(Clone, Debug, PartialEq, Eq)]
pub enum PlannedLoad {
    /// The doorbell sound.
    Doorbell { audio_url: String },
    /// The snapshot, until the device idles or the next load replaces it.
    Thumbnail { url: String },
    /// The snapshot, cleared after `display` by stopping the receiver app, which takes the device
    /// back to its idle screen. When this is not the last load it behaves like `Thumbnail`: the next
    /// load replaces it.
    TimedThumbnail { url: String, display: Duration },
    /// The live stream.
    Livestream { url: String },
    /// A wait before the next step.
    Sleep(Duration),
    /// Going back to what was playing before the run.
    Resume,
}

/// The model of a [`PlannedLoad`].
pub enum LoadView {
    Doorbell(Seq<char>),
    Thumbnail(Seq<char>),
    TimedThumbnail(Seq<char>, Duration),
    Livestream(Seq<char>),
    Sleep(Duration),
    Resume,
}

impl View for PlannedLoad {
    type V = LoadView;

    open spec fn view(&self) -> LoadView {
        match self {
            PlannedLoad::Doorbell { audio_url } => LoadView::Doorbell(audio_url@),
            PlannedLoad::Thumbnail { url } => LoadView::Thumbnail(url@),
            PlannedLoad::TimedThumbnail { url, display } => LoadView::TimedThumbnail(
                url@,
                *display,
            ),
            PlannedLoad::Livestream { url } => LoadView::Livestream(url@),
            PlannedLoad::Sleep(d) => LoadView::Sleep(*d),
            PlannedLoad::Resume => LoadView::Resume,
        }
    }
}

/// The URLs that a run plays from.
pub struct Sources {
    pub doorbell: Seq<char>,
    pub livestream: Seq<char>,
    pub thumbnail: Option<Seq<char>>,
}

/// The step that an action asks for; without a thumbnail there is nothing to show.
pub open spec fn load_of(a: Action, from: Sources) -> Option<LoadView> {
    match a {
        Action::Doorbell => Some(LoadView::Doorbell(from.doorbell)),
        Action::Thumbnail => match from.thumbnail {
            Some(url) => Some(LoadView::Thumbnail(url)),
            None => None,
        },
        Action::TimedThumbnail(d) => match from.thumbnail {
            Some(url) => Some(LoadView::TimedThumbnail(url, d)),
            None => None,
        },
        Action::Livestream => Some(LoadView::Livestream(from.livestream)),
        Action::Sleep(d) => Some(LoadView::Sleep(d)),
        Action::Resume => Some(LoadView::Resume),
    }
}

/// The plan for a list of actions: their steps, in the same order.
pub open spec fn plan_of(actions: Seq<Action>, from: Sources) -> Seq<LoadView> {
    actions.filter_map(|a: Action| load_of(a, from))
}

/// The view of a plan.
pub open spec fn plan_view(plan: Seq<PlannedLoad>) -> Seq<LoadView> {
    plan.map_values(|l: PlannedLoad| l@)
}

/// The URLs as the run is given them.
pub open spec fn sources(doorbell: &str, livestream: &str, thumbnail: Option<&str>) -> Sources {
    Sources {
        doorbell: doorbell@,
        livestream: livestream@,
        thumbnail: match thumbnail {
            Some(url) => Some(url@),
            None => None,
        },
    }
}

/// Turns the actions of a device into the steps to take, in the order given.
pub fn plan_loads(
    actions: &[Action],
    doorbell_url: &str,
    livestream_url: &str,
    thumbnail_url: Option<&str>,
) -> (plan: Vec<PlannedLoad>)
    ensures
        plan_view(plan@) == plan_of(
            actions@,
            sources(doorbell_url, livestream_url, thumbnail_url),
        ),
{
    let ghost from = sources(doorbell_url, livestream_url, thumbnail_url);
    let ghost f = |a: Action| load_of(a, from);
    let mut plan: Vec<PlannedLoad> = Vec::new();
    let mut i: usize = 0;
    assert(plan_view(plan@) =~= actions@.take(0).filter_map(f));
    while i < actions.len()
        invariant
            i <= actions.len(),
            from == sources(doorbell_url, livestream_url, thumbnail_url),
            f == (|a: Action| load_of(a, from)),
            plan_view(plan@) == actions@.take(i as int).filter_map(f),
        decreases actions.len() - i,
    {
        let a = actions[i];
        let ghost before = plan@;
        proof {
            actions@.lemma_filter_map_take_succ(f, i as int);
        }
        let load = match a {
            Action::Doorbell => Some(PlannedLoad::Doorbell { audio_url: doorbell_url.to_owned() }),
            Action::Thumbnail => match thumbnail_url {
                Some(url) => Some(PlannedLoad::Thumbnail { url: url.to_owned() }),
                None => None,
            },
            Action::TimedThumbnail(d) => match thumbnail_url {
                Some(url) => Some(
                    PlannedLoad::TimedThumbnail { url: url.to_owned(), display: d },
                ),
                None => None,
            },
            Action::Livestream => Some(PlannedLoad::Livestream { url: livestream_url.to_owned() }),
            Action::Sleep(d) => Some(PlannedLoad::Sleep(d)),
            Action::Resume => Some(PlannedLoad::Resume),
        };
        if let Some(l) = load {
            plan.push(l);
            assert(plan_view(plan@) =~= plan_view(before).push(l@));
        }
        i += 1;
    }
    assert(actions@.take(actions@.len() as int) =~= actions@);
    plan
}

/// How a receiver is to treat a piece of media.
#[derive(Clone, Copy, Debug, PartialEq, Eq, Structural)]
pub enum StreamType {
    Unspecified,
    Buffered,
    Live,
}

/// What a piece of media is, as receivers tell it apart to present it.
#[derive(Clone, Copy, Debug, PartialEq, Eq, Structural)]
pub enum MetadataKind {
    Generic,
    Movie,
    TvShow,
    MusicTrack,
    Photo,
    AudiobookChapter,
}

/// An image that goes with a piece of media.
#[derive(Debug, PartialEq, Eq)]
pub struct Image {
    pub url: String,
    pub height: Option<i32>,
    pub width: Option<i32>,
}

/// The model of an [`Image`].
pub struct ImageView {
    pub url: Seq<char>,
    pub height: Option<i32>,
    pub width: Option<i32>,
}

impl View for Image {
    type V = ImageView;

    open spec fn view(&self) -> ImageView {
        ImageView { url: self.url@, height: self.height, width: self.width }
    }
}

/// The views of images.
pub open spec fn image_views(images: Option<Vec<Image>>) -> Option<Seq<ImageView>> {
    match images {
        Some(v) => Some(v@.map_values(|i: Image| i@)),
        None => None,
    }
}

fn clone_images(images: &Option<Vec<Image>>) -> (r: Option<Vec<Image>>)
    ensures
        image_views(r) == image_views(*images),
{
    match images {
        Some(v) => {
            let mut copy: Vec<Image> = Vec::new();
            let mut i: usize = 0;
            while i < v.len()
                invariant
                    i <= v.len(),
                    copy@.map_values(|i: Image| i@) == v@.take(i as int).map_values(|i: Image| i@),
                decreases v.len() - i,
            {
                let ghost before = copy@;
                copy.push(Image { url: v[i].url.clone(), height: v[i].height, width: v[i].width });
                assert(copy@.map_values(|i: Image| i@) =~= before.map_values(|i: Image| i@).push(
                    v@[i as int]@,
                ));
                assert(v@.take(i + 1).map_values(|i: Image| i@) =~= v@.take(i as int).map_values(
                    |i: Image| i@,
                ).push(v@[i as int]@));
                i += 1;
            }
            assert(v@.take(v@.len() as int) =~= v@);
            Some(copy)
        },
        None => None,
    }
}

fn clone_text(t: &Option<String>) -> (r: Option<String>)
    ensures
        text::text_option(r) == text::text_option(*t),
{
    match t {
        Some(t) => Some(t.clone()),
        None => None,
    }
}

/// How a piece of media is presented: its kind, and what every kind can have.
#[derive(Debug, PartialEq, Eq)]
pub struct Metadata {
    pub kind: MetadataKind,
    pub title: Option<String>,
    pub subtitle: Option<String>,
    pub release_date: Option<String>,
    pub images: Option<Vec<Image>>,
    pub poster_url: Option<String>,
}

/// The model of a [`Metadata`].
pub struct MetadataView {
    pub kind: MetadataKind,
    pub title: Option<Seq<char>>,
    pub subtitle: Option<Seq<char>>,
    pub release_date: Option<Seq<char>>,
    pub images: Option<Seq<ImageView>>,
    pub poster_url: Option<Seq<char>>,
}

impl View for Metadata {
    type V = MetadataView;

    open spec fn view(&self) -> MetadataView {
        MetadataView {
            kind: self.kind,
            title: text::text_option(self.title),
            subtitle: text::text_option(self.subtitle),
            release_date: text::text_option(self.release_date),
            images: image_views(self.images),
            poster_url: text::text_option(self.poster_url),
        }
    }
}

impl Clone for Metadata {
    fn clone(&self) -> (r: Self)
        ensures
            r@ == self@,
    {
        Metadata {
            kind: self.kind,
            title: clone_text(&self.title),
            subtitle: clone_text(&self.subtitle),
            release_date: clone_text(&self.release_date),
            images: clone_images(&self.images),
            poster_url: clone_text(&self.poster_url),
        }
    }
}

/// A piece of media as a receiver knows it.
#[derive(Debug, PartialEq, Eq)]
pub struct MediaInformation {
    pub content_id: String,
    pub content_type: String,
    pub stream_type: StreamType,
    pub metadata: Option<Metadata>,
    /// The number under which the caller keeps whatever else a receiver said of this media, such
    /// as its tracks; `None` where there is nothing else.
    pub details: Option<u64>,
}

/// The model of a [`MediaInformation`].
pub struct MediaView {
    pub content_id: Seq<char>,
    pub content_type: Seq<char>,
    pub stream_type: StreamType,
    pub metadata: Option<MetadataView>,
    pub details: Option<u64>,
}

impl View for MediaInformation {
    type V = MediaView;

    open spec fn view(&self) -> MediaView {
        MediaView {
            content_id: self.content_id@,
            content_type: self.content_type@,
            stream_type: self.stream_type,
            metadata: match self.metadata {
                Some(m) => Some(m@),
                None => None,
            },
            details: self.details,
        }
    }
}

impl Clone for MediaInformation {
    fn clone(&self) -> (r: Self)
        ensures
            r@ == self@,
    {
        MediaInformation {
            content_id: self.content_id.clone(),
            content_type: self.content_type.clone(),
            stream_type: self.stream_type,
            metadata: match &self.metadata {
                Some(m) => Some(m.clone()),
                None => None,
            },
            details: self.details,
        }
    }
}

/// A request to load media. What is not here is left at its default.
#[derive(Debug, PartialEq, Eq)]
pub struct LoadRequestData {
    pub media: MediaInformation,
    /// Where to start, in seconds: the bits of a double precision number.
    pub current_time: Option<u64>,
    pub autoplay: Option<bool>,
}

/// The model of a [`LoadRequestData`].
pub struct RequestView {
    pub media: MediaView,
    pub current_time: Option<u64>,
    pub autoplay: Option<bool>,
}

impl View for LoadRequestData {
    type V = RequestView;

    open spec fn view(&self) -> RequestView {
        RequestView {
            media: self.media@,
            current_time: self.current_time,
            autoplay: self.autoplay,
        }
    }
}

/// A request that plays `url` from its start at once.
pub open spec fn fresh_request(
    url: Seq<char>,
    content_type: Seq<char>,
    stream_type: StreamType,
) -> RequestView {
    RequestView {
        media: MediaView {
            content_id: url,
            content_type,
            stream_type,
            metadata: None,
            details: None,
        },
        current_time: None,
        autoplay: Some(true),
    }
}

/// Whether a step loads media.
pub open spec fn is_media(l: LoadView) -> bool {
    !(l is Sleep) && !(l is Resume)
}

/// The request for a step that loads media.
pub open spec fn request_of(l: LoadView) -> RequestView
    recommends
        is_media(l),
{
    match l {
        LoadView::Doorbell(url) => fresh_request(url, "audio/mpeg"@, StreamType::Buffered),
        LoadView::Thumbnail(url) => fresh_request(url, "image/jpeg"@, StreamType::Buffered),
        LoadView::TimedThumbnail(url, _) => fresh_request(
            url,
            "image/jpeg"@,
            StreamType::Buffered,
        ),
        LoadView::Livestream(url) => fresh_request(
            url,
            "application/x-mpegurl"@,
            StreamType::Live,
        ),
        _ => arbitrary(),
    }
}

fn fresh_load(url: &String, content_type: &str, stream_type: StreamType) -> (r: LoadRequestData)
    ensures
        r@ == fresh_request(url@, content_type@, stream_type),
{
    LoadRequestData {
        media: MediaInformation {
            content_id: url.clone(),
            content_type: content_type.to_owned(),
            stream_type,
            metadata: None,
            details: None,
        },
        current_time: None,
        autoplay: Some(true),
    }
}

/// Builds the request for a step that loads media.
pub fn load_request_for(load: &PlannedLoad) -> (r: LoadRequestData)
    requires
        is_media(load@),
    ensures
        r@ == request_of(load@),
{
    match load {
        PlannedLoad::Doorbell { audio_url } => fresh_load(
            audio_url,
            "audio/mpeg",
            StreamType::Buffered,
        ),
        PlannedLoad::Thumbnail { url } => fresh_load(url, "image/jpeg", StreamType::Buffered),
        PlannedLoad::TimedThumbnail { url, display: _ } => fresh_load(
            url,
            "image/jpeg",
            StreamType::Buffered,
        ),
        PlannedLoad::Livestream { url } => fresh_load(
            url,
            "application/x-mpegurl",
            StreamType::Live,
        ),
        PlannedLoad::Sleep(_) | PlannedLoad::Resume => vstd::pervasive::unreached(),
    }
}

/// The media with its metadata, where it has any, made generic. The title and the poster stay, and
/// so does everything else.
pub open spec fn as_generic(media: MediaView) -> MediaView {
    MediaView {
        metadata: match media.metadata {
            Some(m) => Some(MetadataView { kind: MetadataKind::Generic, ..m }),
            None => None,
        },
        ..media
    }
}

/// The request that goes on with `media` at `current_time`, presented by its title and poster
/// whatever its kind was.
pub open spec fn resume_request(media: MediaView, current_time: u64) -> RequestView {
    RequestView {
        media: as_generic(media),
        current_time: Some(current_time),
        autoplay: Some(true),
    }
}

/// Builds the request that goes on with media that was playing before, at its last position. It
/// uses the generic kind of metadata with the title and the poster that the media had, so that the
/// device shows what goes on.
pub fn build_resume_load(media: &MediaInformation, current_time: u64) -> (r: LoadRequestData)
    ensures
        r@ == resume_request(media@, current_time),
{
    let copy = media.clone();
    let metadata = match copy.metadata {
        Some(m) => Some(Metadata { kind: MetadataKind::Generic, ..m }),
        None => None,
    };
    LoadRequestData {
        media: MediaInformation { metadata, ..copy },
        current_time: Some(current_time),
        autoplay: Some(true),
    }
}

/// An application that receivers can run.
#[derive(Debug, PartialEq, Eq)]
pub enum AppId {
    DefaultMediaReceiver,
    Backdrop,
    YouTube,
    Custom(String),
}

impl Clone for AppId {
    fn clone(&self) -> (r: Self)
        ensures
            r == *self,
    {
        match self {
            AppId::DefaultMediaReceiver => AppId::DefaultMediaReceiver,
            AppId::Backdrop => AppId::Backdrop,
            AppId::YouTube => AppId::YouTube,
            AppId::Custom(id) => AppId::Custom(id.clone()),
        }
    }
}

/// A protocol that an application speaks.
#[derive(Debug, PartialEq, Eq)]
pub enum NamespaceUrn {
    Cac,
    Connection,
    Custom(String),
    DebugOverlay,
    DeviceAuth,
    Heartbeat,
    Media,
    Multizone,
    Receiver,
    RemoteControl,
    Sse,
}

impl Clone for NamespaceUrn {
    fn clone(&self) -> (r: Self)
        ensures
            r == *self,
    {
        match self {
            NamespaceUrn::Cac => NamespaceUrn::Cac,
            NamespaceUrn::Connection => NamespaceUrn::Connection,
            NamespaceUrn::Custom(urn) => NamespaceUrn::Custom(urn.clone()),
            NamespaceUrn::DebugOverlay => NamespaceUrn::DebugOverlay,
            NamespaceUrn::DeviceAuth => NamespaceUrn::DeviceAuth,
            NamespaceUrn::Heartbeat => NamespaceUrn::Heartbeat,
            NamespaceUrn::Media => NamespaceUrn::Media,
            NamespaceUrn::Multizone => NamespaceUrn::Multizone,
            NamespaceUrn::Receiver => NamespaceUrn::Receiver,
            NamespaceUrn::RemoteControl => NamespaceUrn::RemoteControl,
            NamespaceUrn::Sse => NamespaceUrn::Sse,
        }
    }
}

/// An application that a receiver is running.
#[derive(Debug, PartialEq, Eq)]
pub struct App {
    pub app_id: AppId,
    pub app_type: String,
    pub display_name: String,
    pub icon_url: String,
    pub is_idle_screen: bool,
    pub launched_from_cloud: bool,
    pub namespaces: Vec<NamespaceUrn>,
    pub session_id: String,
    pub status_text: String,
    pub transport_id: String,
    pub universal_app_id: String,
}

/// The model of an [`App`].
pub struct AppView {
    pub app_id: AppId,
    pub app_type: String,
    pub display_name: String,
    pub icon_url: String,
    pub is_idle_screen: bool,
    pub launched_from_cloud: bool,
    pub namespaces: Seq<NamespaceUrn>,
    pub session_id: String,
    pub status_text: String,
    pub transport_id: String,
    pub universal_app_id: String,
}

impl View for App {
    type V = AppView;

    open spec fn view(&self) -> AppView {
        AppView {
            app_id: self.app_id,
            app_type: self.app_type,
            display_name: self.display_name,
            icon_url: self.icon_url,
            is_idle_screen: self.is_idle_screen,
            launched_from_cloud: self.launched_from_cloud,
            namespaces: self.namespaces@,
            session_id: self.session_id,
            status_text: self.status_text,
            transport_id: self.transport_id,
            universal_app_id: self.universal_app_id,
        }
    }
}

impl Clone for App {
    fn clone(&self) -> (r: Self)
        ensures
            r@ == self@,
    {
        let mut namespaces: Vec<NamespaceUrn> = Vec::new();
        let mut i: usize = 0;
        while i < self.namespaces.len()
            invariant
                i <= self.namespaces.len(),
                namespaces@ == self.namespaces@.take(i as int),
            decreases self.namespaces.len() - i,
        {
            namespaces.push(self.namespaces[i].clone());
            assert(namespaces@ =~= self.namespaces@.take(i + 1));
            i += 1;
        }
        assert(namespaces@ =~= self.namespaces@);
        App {
            app_id: self.app_id.clone(),
            app_type: self.app_type.clone(),
            display_name: self.display_name.clone(),
            icon_url: self.icon_url.clone(),
            is_idle_screen: self.is_idle_screen,
            launched_from_cloud: self.launched_from_cloud,
            namespaces,
            session_id: self.session_id.clone(),
            status_text: self.status_text.clone(),
            transport_id: self.transport_id.clone(),
            universal_app_id: self.universal_app_id.clone(),
        }
    }
}

/// Whether an application speaks the media protocol.
pub open spec fn speaks_media(app: AppView) -> bool {
    app.namespaces.contains(NamespaceUrn::Media)
}

/// Whether an application is the default media receiver and speaks the media protocol.
pub open spec fn is_default_player(app: AppView) -> bool {
    app.app_id == AppId::DefaultMediaReceiver && speaks_media(app)
}

/// The first application in a list that `wanted` holds of.
pub open spec fn first_app(apps: Seq<AppView>, wanted: spec_fn(AppView) -> bool) -> Option<AppView>
    decreases apps.len(),
{
    if apps.len() == 0 {
        None
    } else if wanted(apps[0]) {
        Some(apps[0])
    } else {
        first_app(apps.skip(1), wanted)
    }
}

/// The application whose media can be resumed: the first default media receiver that speaks the
/// media protocol, else the first application that does.
pub open spec fn media_app(apps: Seq<AppView>) -> Option<AppView> {
    match first_app(apps, |a: AppView| is_default_player(a)) {
        Some(a) => Some(a),
        None => first_app(apps, |a: AppView| speaks_media(a)),
    }
}

/// The view of a list of applications.
pub open spec fn app_views(apps: Seq<App>) -> Seq<AppView> {
    apps.map_values(|a: App| a@)
}

fn has_media(app: &App) -> (r: bool)
    ensures
        r == speaks_media(app@),
{
    let mut i: usize = 0;
    while i < app.namespaces.len()
        invariant
            i <= app.namespaces.len(),
            forall|j: int| 0 <= j < i ==> #[trigger] app.namespaces@[j] != NamespaceUrn::Media,
        decreases app.namespaces.len() - i,
    {
        if let NamespaceUrn::Media = app.namespaces[i] {
            assert(app@.namespaces[i as int] == NamespaceUrn::Media);
            return true;
        }
        i += 1;
    }
    false
}

/// Finds the running application whose media can be resumed.
pub fn find_media_app(apps: &[App]) -> (r: Option<App>)
    ensures
        match r {
            Some(a) => media_app(app_views(apps@)) == Some(a@),
            None => media_app(app_views(apps@)) is None,
        },
{
    let ghost views = app_views(apps@);
    let ghost default = |a: AppView| is_default_player(a);
    let ghost any = |a: AppView| speaks_media(a);
    let mut i: usize = 0;
    assert(views.skip(0) =~= views);
    while i < apps.len()
        invariant
            i <= apps.len(),
            views == app_views(apps@),
            default == (|a: AppView| is_default_player(a)),
            first_app(views, default) == first_app(views.skip(i as int), default),
        decreases apps.len() - i,
    {
        assert(views.skip(i as int)[0] == apps@[i as int]@);
        let is_default = match apps[i].app_id {
            AppId::DefaultMediaReceiver => true,
            _ => false,
        };
        if is_default && has_media(&apps[i]) {
            return Some(apps[i].clone());
        }
        assert(views.skip(i as int).skip(1) =~= views.skip(i + 1));
        i += 1;
    }
    let mut j: usize = 0;
    while j < apps.len()
        invariant
            j <= apps.len(),
            views == app_views(apps@),
            default == (|a: AppView| is_default_player(a)),
            any == (|a: AppView| speaks_media(a)),
            first_app(views, default) is None,
            first_app(views, any) == first_app(views.skip(j as int), any),
        decreases apps.len() - j,
    {
        assert(views.skip(j as int)[0] == apps@[j as int]@);
        if has_media(&apps[j]) {
            return Some(apps[j].clone());
        }
        assert(views.skip(j as int).skip(1) =~= views.skip(j + 1));
        j += 1;
    }
    None
}

proof fn lemma_first_app(apps: Seq<AppView>, wanted: spec_fn(AppView) -> bool)
    ensures
        match first_app(apps, wanted) {
            Some(a) => wanted(a) && apps.contains(a),
            None => forall|i: int| 0 <= i < apps.len() ==> !wanted(#[trigger] apps[i]),
        },
    decreases apps.len(),
{
    if apps.len() > 0 && !wanted(apps[0]) {
        let rest = apps.skip(1);
        lemma_first_app(rest, wanted);
        match first_app(rest, wanted) {
            Some(a) => {
                let i = choose|i: int| 0 <= i < rest.len() && rest[i] == a;
                assert(apps[i + 1] == a);
            },
            None => {
                assert forall|i: int| 0 <= i < apps.len() implies !wanted(#[trigger] apps[i]) by {
                    if i > 0 {
                        assert(rest[i - 1] == apps[i]);
                    }
                }
            },
        }
    } else if apps.len() > 0 {
        assert(apps[0] == apps[0]);
    }
}

/// What is resumed comes from a running application that speaks the media protocol, one is found
/// whenever there is one, and the default media receiver is preferred.
pub proof fn media_app_is_running_and_default_preferred(apps: Seq<AppView>)
    ensures
        match media_app(apps) {
            Some(a) => apps.contains(a) && speaks_media(a),
            None => forall|i: int| 0 <= i < apps.len() ==> !speaks_media(#[trigger] apps[i]),
        },
        forall|i: int|
            0 <= i < apps.len() && is_default_player(#[trigger] apps[i]) ==> (media_app(apps) matches Some(
                a,
            ) && a.app_id == AppId::DefaultMediaReceiver),
{
    lemma_first_app(apps, |a: AppView| is_default_player(a));
    lemma_first_app(apps, |a: AppView| speaks_media(a));
}

/// With a thumbnail to show, a plan has one step for each action, in the same order.
pub proof fn plan_keeps_every_action(actions: Seq<Action>, from: Sources)
    requires
        from.thumbnail is Some,
    ensures
        plan_of(actions, from) == actions.map_values(|a: Action| load_of(a, from)->0),
    decreases actions.len(),
{
    let f = |a: Action| load_of(a, from);
    let g = |a: Action| load_of(a, from)->0;
    reveal(Seq::filter_map);
    if actions.len() > 0 {
        let before = actions.drop_last();
        plan_keeps_every_action(before, from);
        assert(actions.map_values(g) =~= before.map_values(g).push(g(actions.last())));
    } else {
        assert(actions.filter_map(f) =~= actions.map_values(g));
    }
}

/// Without a thumbnail, a plan is that of the actions that show none: the others are left out, and
/// nothing else changes.
pub proof fn plan_without_thumbnail_drops_only_images(actions: Seq<Action>, from: Sources)
    requires
        from.thumbnail is None,
    ensures
        plan_of(actions, from) == actions.filter(
            |a: Action| !crate::config::needs(a, crate::config::Need::Thumbnail),
        ).map_values(|a: Action| load_of(a, from)->0),
    decreases actions.len(),
{
    let f = |a: Action| load_of(a, from);
    let g = |a: Action| load_of(a, from)->0;
    let keep = |a: Action| !crate::config::needs(a, crate::config::Need::Thumbnail);
    reveal(Seq::filter_map);
    reveal(Seq::filter);
    if actions.len() > 0 {
        let before = actions.drop_last();
        plan_without_thumbnail_drops_only_images(before, from);
        if keep(actions.last()) {
            assert(actions.filter(keep) == before.filter(keep).push(actions.last()));
            assert(before.filter(keep).push(actions.last()).map_values(g) =~= before.filter(
                keep,
            ).map_values(g).push(g(actions.last())));
        }
    } else {
        assert(actions.filter_map(f) =~= actions.filter(keep).map_values(g));
    }
}

/// With a snapshot to show, a plan has one step for each action, at the same place: it plays the
/// sound, the snapshot or the stream by its whole URL, for the time of the action where it has one,
/// waits for the time of the action, or resumes.
pub proof fn plan_does_what_the_actions_ask(actions: Seq<Action>, from: Sources, i: int)
    requires
        from.thumbnail is Some,
        0 <= i < actions.len(),
    ensures
        plan_of(actions, from).len() == actions.len(),
        plan_of(actions, from)[i] == match actions[i] {
            Action::Doorbell => LoadView::Doorbell(from.doorbell),
            Action::Thumbnail => LoadView::Thumbnail(from.thumbnail->0),
            Action::TimedThumbnail(d) => LoadView::TimedThumbnail(from.thumbnail->0, d),
            Action::Livestream => LoadView::Livestream(from.livestream),
            Action::Sleep(d) => LoadView::Sleep(d),
            Action::Resume => LoadView::Resume,
        },
{
    plan_keeps_every_action(actions, from);
}

/// Without a snapshot, each action gives its step but those that show it, which give none; and the
/// plan of two lists in a row is that of the first and that of the second.
pub proof fn plan_without_snapshot(a: Action, first: Seq<Action>, second: Seq<Action>, from: Sources)
    ensures
        plan_of(first + second, from) == plan_of(first, from) + plan_of(second, from),
        from.thumbnail is None ==> plan_of(seq![a], from) == match a {
            Action::Doorbell => seq![LoadView::Doorbell(from.doorbell)],
            Action::Thumbnail => seq![],
            Action::TimedThumbnail(_) => seq![],
            Action::Livestream => seq![LoadView::Livestream(from.livestream)],
            Action::Sleep(d) => seq![LoadView::Sleep(d)],
            Action::Resume => seq![LoadView::Resume],
        },
    decreases second.len(),
{
    let f = |a: Action| load_of(a, from);
    reveal_with_fuel(Seq::filter_map, 2);
    assert(seq![a].drop_last() =~= seq![]);
    assert(plan_of(seq![a], from) =~= match load_of(a, from) {
        Some(l) => seq![l],
        None => seq![],
    });
    if second.len() > 0 {
        plan_without_snapshot(a, first, second.drop_last(), from);
        assert((first + second).drop_last() =~= first + second.drop_last());
        assert(plan_of(first + second, from) =~= plan_of(first, from) + plan_of(second, from));
    } else {
        assert(first + second =~= first);
        assert(plan_of(first + second, from) =~= plan_of(first, from) + plan_of(second, from));
    }
}

/// What is sent to a device to play: the whole URL, with the type of the sound, the image or the
/// stream, from its start and at once, and nothing else.
pub proof fn requests_play_their_url(url: Seq<char>, d: Duration)
    ensures
        ({
            let plain = |r: RequestView|
                r.media.content_id == url && r.media.metadata is None && r.media.details is None
                    && r.current_time is None && r.autoplay == Some(true);
            let sound = request_of(LoadView::Doorbell(url));
            let image = request_of(LoadView::Thumbnail(url));
            let timed = request_of(LoadView::TimedThumbnail(url, d));
            let stream = request_of(LoadView::Livestream(url));
            &&& plain(sound) && sound.media.content_type == "audio/mpeg"@ && sound.media.stream_type
                == StreamType::Buffered
            &&& plain(image) && image.media.content_type == "image/jpeg"@ && image.media.stream_type
                == StreamType::Buffered
            &&& timed == image
            &&& plain(stream) && stream.media.content_type == "application/x-mpegurl"@
                && stream.media.stream_type == StreamType::Live
        }),
{
}

/// What is sent to resume media is that media: its whole address, its type and kind of stream, and
/// everything that goes with it, at the position it had; only the kind of its metadata, where it has
/// any, becomes generic, with the title and the poster it had.
pub proof fn resumed_media_is_the_media_that_played(media: MediaView, position: u64)
    ensures
        ({
            let r = resume_request(media, position);
            &&& r.current_time == Some(position)
            &&& r.autoplay == Some(true)
            &&& r.media.content_id == media.content_id
            &&& r.media.content_type == media.content_type
            &&& r.media.stream_type == media.stream_type
            &&& r.media.details == media.details
            &&& r.media.metadata is Some <==> media.metadata is Some
            &&& r.media.metadata matches Some(m) ==> {
                let before = media.metadata->0;
                &&& m.kind == MetadataKind::Generic
                &&& m.title == before.title
                &&& m.subtitle == before.subtitle
                &&& m.release_date == before.release_date
                &&& m.images == before.images
                &&& m.poster_url == before.poster_url
            }
        }),
{
}

/// The application that is found speaks the media namespace and runs. It is the first one that is the
/// default receiver and speaks it, where there is such a one, and else the first one that speaks it;
/// and one is found wherever one speaks it.
pub proof fn found_app_is_the_first_that_plays_media(apps: Seq<AppView>)
    ensures
        media_app(apps) is None <==> forall|i: int|
            0 <= i < apps.len() ==> !(#[trigger] apps[i]).namespaces.contains(NamespaceUrn::Media),
        media_app(apps) matches Some(found) ==> exists|i: int|
            0 <= i < apps.len() && found == #[trigger] apps[i] && apps[i].namespaces.contains(
                NamespaceUrn::Media,
            ) && (forall|j: int|
                0 <= j < i && (#[trigger] apps[j]).namespaces.contains(NamespaceUrn::Media)
                    ==> found.app_id == AppId::DefaultMediaReceiver && apps[j].app_id
                    != AppId::DefaultMediaReceiver) && (forall|j: int|
                0 <= j < apps.len() && (#[trigger] apps[j]).namespaces.contains(NamespaceUrn::Media)
                    && apps[j].app_id == AppId::DefaultMediaReceiver ==> found.app_id
                    == AppId::DefaultMediaReceiver),
{
    lemma_first_app_at(apps, |a: AppView| speaks_media(a));
    lemma_first_app_at(apps, |a: AppView| is_default_player(a));
    lemma_first_app(apps, |a: AppView| speaks_media(a));
    lemma_first_app(apps, |a: AppView| is_default_player(a));
    if media_app(apps) is None {
        assert forall|i: int| 0 <= i < apps.len() implies !(
        #[trigger] apps[i]).namespaces.contains(NamespaceUrn::Media) by {
            assert(!speaks_media(apps[i]));
        }
    }
}

proof fn lemma_first_app_at(apps: Seq<AppView>, wanted: spec_fn(AppView) -> bool)
    ensures
        first_app(apps, wanted) matches Some(a) ==> exists|i: int|
            0 <= i < apps.len() && a == #[trigger] apps[i] && wanted(apps[i]) && forall|j: int|
                0 <= j < i ==> !wanted(#[trigger] apps[j]),
    decreases apps.len(),
{
    if apps.len() > 0 {
        let rest = apps.skip(1);
        lemma_first_app_at(rest, wanted);
        if wanted(apps[0]) {
            assert(apps[0] == first_app(apps, wanted)->0);
        } else if let Some(a) = first_app(rest, wanted) {
            let i = choose|i: int|
                0 <= i < rest.len() && a == #[trigger] rest[i] && wanted(rest[i]) && forall|j: int|
                    0 <= j < i ==> !wanted(#[trigger] rest[j]);
            assert(apps[i + 1] == a);
            assert forall|j: int| 0 <= j < i + 1 implies !wanted(#[trigger] apps[j]) by {
                if j > 0 {
                    assert(!wanted(rest[j - 1]));
                }
            }
        }
    }
}

/// The model of a step, of a request and of an application is what their fields hold.
pub proof fn cast_types_are_their_fields(
    url: String,
    d: Duration,
    r: LoadRequestData,
    m: Metadata,
    i: Image,
    a: App,
)
    ensures
        (PlannedLoad::Doorbell { audio_url: url })@ == LoadView::Doorbell(url@),
        (PlannedLoad::Thumbnail { url })@ == LoadView::Thumbnail(url@),
        (PlannedLoad::TimedThumbnail { url, display: d })@ == LoadView::TimedThumbnail(url@, d),
        (PlannedLoad::Livestream { url })@ == LoadView::Livestream(url@),
        PlannedLoad::Sleep(d)@ == LoadView::Sleep(d),
        PlannedLoad::Resume@ == LoadView::Resume,
        r@.current_time == r.current_time,
        r@.autoplay == r.autoplay,
        r@.media.content_id == r.media.content_id@,
        r@.media.content_type == r.media.content_type@,
        r@.media.stream_type == r.media.stream_type,
        r@.media.details == r.media.details,
        r.media.metadata is None ==> r@.media.metadata is None,
        r.media.metadata matches Some(x) ==> r@.media.metadata == Some(x@),
        m@.kind == m.kind,
        m.title matches Some(t) ==> m@.title == Some(t@),
        m.subtitle matches Some(t) ==> m@.subtitle == Some(t@),
        m.release_date matches Some(t) ==> m@.release_date == Some(t@),
        m.poster_url matches Some(t) ==> m@.poster_url == Some(t@),
        m.images matches Some(v) ==> (m@.images matches Some(s) && s.len() == v@.len() && forall|
            k: int,
        |
            0 <= k < s.len() ==> #[trigger] s[k] == v@[k]@),
        i@.url == i.url@ && i@.height == i.height && i@.width == i.width,
        a@.app_id == a.app_id,
        a@.namespaces == a.namespaces@,
        a@.session_id == a.session_id,
        a@.transport_id == a.transport_id,
        a@.display_name == a.display_name,
        a@.app_type == a.app_type,
        a@.icon_url == a.icon_url,
        a@.is_idle_screen == a.is_idle_screen,
        a@.launched_from_cloud == a.launched_from_cloud,
        a@.status_text == a.status_text,
        a@.universal_app_id == a.universal_app_id,
{
}

/// The URLs of a run are those it is given, and the model of a plan and of a list of applications
/// is that of each step and each application, in order.
pub proof fn plans_and_sources_are_what_they_hold(
    doorbell: &str,
    livestream: &str,
    thumbnail: &str,
    plan: Seq<PlannedLoad>,
    apps: Seq<App>,
    i: int,
)
    requires
        0 <= i < plan.len(),
        0 <= i < apps.len(),
    ensures
        sources(doorbell, livestream, Some(thumbnail)) == (Sources {
            doorbell: doorbell@,
            livestream: livestream@,
            thumbnail: Some(thumbnail@),
        }),
        sources(doorbell, livestream, None) == (Sources {
            doorbell: doorbell@,
            livestream: livestream@,
            thumbnail: None,
        }),
        plan_view(plan).len() == plan.len(),
        plan_view(plan)[i] == plan[i]@,
        app_views(apps).len() == apps.len(),
        app_views(apps)[i] == apps[i]@,
{
}

} // verus!
