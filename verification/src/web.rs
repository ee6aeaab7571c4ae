//! What the server answers.
use crate::address;
use crate::address::Url;
use crate::config;
use crate::config::{some_action_needs, Config, ConfigView, Need};
use crate::flags::Action;
use crate::media;
use crate::registry::Registry;
use crate::text;
use vstd::prelude::*;
use vstd::string::*;

verus! {

/// The most bytes that a request may have in its body.
pub const MAX_BODY_BYTES: usize = 33_554_432;

/// How long a device has to take its commands, in seconds.
pub const CAST_TIMEOUT_SECS: u64 = 20;

/// What a response holds.
#[derive(Debug, PartialEq, Eq)]
pub enum Body {
    Text(String),
    Media { content_type: String, bytes: Vec<u8> },
}

/// A response.
#[derive(Debug, PartialEq, Eq)]
pub struct Response {
    /// The HTTP status.
    pub status: u16,
    pub body: Body,
}

/// The model of a [`Body`].
pub enum BodyView {
    Text(Seq<char>),
    Media(Seq<char>, Seq<u8>),
}

/// The model of a [`Response`].
pub struct ResponseView {
    pub status: u16,
    pub body: BodyView,
}

impl View for Response {
    type V = ResponseView;

    open spec fn view(&self) -> ResponseView {
        ResponseView {
            status: self.status,
            body: match self.body {
                Body::Text(t) => BodyView::Text(t@),
                Body::Media { content_type, bytes } => BodyView::Media(content_type@, bytes@),
            },
        }
    }
}

/// A response that holds a text.
pub open spec fn text_response(status: u16, t: Seq<char>) -> ResponseView {
    ResponseView { status, body: BodyView::Text(t) }
}

/// A response that holds media.
pub open spec fn media_response(content_type: Seq<char>, bytes: Seq<u8>) -> ResponseView {
    ResponseView { status: 200, body: BodyView::Media(content_type, bytes) }
}

fn respond(status: u16, t: String) -> (r: Response)
    ensures
        r@ == text_response(status, t@),
{
    Response { status, body: Body::Text(t) }
}

fn respond_media(content_type: &str, bytes: Vec<u8>) -> (r: Response)
    ensures
        r@ == media_response(content_type@, bytes@),
{
    Response { status: 200, body: Body::Media { content_type: content_type.to_owned(), bytes } }
}

/// The answer to a request for a path that is no endpoint.
pub fn not_found() -> (r: Response)
    ensures
        r@ == text_response(404, "not found"@),
{
    respond(404, "not found".to_owned())
}

/// The answer to a request that is no good, saying why.
pub fn refuse(why: String) -> (r: Response)
    ensures
        r@ == text_response(400, why@),
{
    respond(400, why)
}

/// The answer to a request that was taken but went wrong, saying how.
pub fn report(how: String) -> (r: Response)
    ensures
        r@ == text_response(500, how@),
{
    respond(500, how)
}

/// The answer to a health check.
pub fn healthz() -> (r: Response)
    ensures
        r@ == text_response(200, "ok"@),
{
    respond(200, "ok".to_owned())
}

/// The answer to a request for the doorbell sound.
pub fn doorbell(cfg: &Config) -> (r: Response)
    ensures
        r@ == match cfg@.doorbell_bytes {
            Some(bytes) => media_response("audio/mpeg"@, bytes),
            None => text_response(404, "doorbell not configured"@),
        },
{
    match &cfg.doorbell_bytes {
        Some(bytes) => {
            let copy: Vec<u8> = bytes.clone();
            assert(copy@ =~= bytes@);
            respond_media("audio/mpeg", copy)
        },
        None => respond(404, "doorbell not configured".to_owned()),
    }
}

/// The answer to a request for a thumbnail, going by what was found.
pub open spec fn thumbnail_response(found: Option<Seq<u8>>) -> ResponseView {
    match found {
        Some(bytes) => media_response("image/jpeg"@, bytes),
        None => text_response(404, "expired or unknown"@),
    }
}

/// The answer to a request for a thumbnail, going by what was found.
pub fn found_thumbnail(found: Option<Vec<u8>>) -> (r: Response)
    ensures
        r@ == thumbnail_response(text::bytes_option(found)),
{
    match found {
        Some(bytes) => respond_media("image/jpeg", bytes),
        None => respond(404, "expired or unknown".to_owned()),
    }
}

/// The answer to a request for the thumbnail of an event.
pub fn thumbnail(cfg: &mut Config, id: &str) -> (r: Response)
    ensures
        exists|now: crate::time::Instant|
            old(cfg).thumbnails.clock().reads(now) && now.since_start.wf() && r@
                == thumbnail_response(media::served(old(cfg)@.thumbnails, id@, now)) && final(cfg)@ == (ConfigView {
                thumbnails: #[trigger] media::after_lookup(old(cfg)@.thumbnails, id@, now),
                ..old(cfg)@
            }),
        final(cfg).thumbnails.clock() == old(cfg).thumbnails.clock(),
{
    let ghost stored = old(cfg)@.thumbnails;
    let found = cfg.thumbnails.get(id);
    let ghost now = choose|now: crate::time::Instant|
        old(cfg).thumbnails.clock().reads(now) && now.since_start.wf() && text::bytes_option(found)
            == media::served(stored, id@, now) && cfg.thumbnails@ == #[trigger] media::after_lookup(stored, id@, now);
    let r = found_thumbnail(found);
    assert(r@ == thumbnail_response(media::served(stored, id@, now)));
    assert(cfg@ == (ConfigView {
        thumbnails: media::after_lookup(stored, id@, now),
        ..old(cfg)@
    }));
    r
}

/// Whether a device of a route has an action that shows the snapshot.
pub open spec fn route_needs_thumbnail(
    aliases: Seq<Seq<char>>,
    actions: Map<Seq<char>, Seq<Action>>,
) -> bool {
    exists|i: int|
        0 <= i < aliases.len() && actions.contains_key(#[trigger] aliases[i]) && config::list_needs(
            actions[aliases[i]],
            Need::Thumbnail,
        )
}

/// Whether a device of a route has an action that shows the snapshot, for a time or not.
pub fn needs_thumbnail(aliases: &[String], actions: &Registry<Vec<Action>>) -> (r: bool)
    ensures
        r == route_needs_thumbnail(text::texts(aliases@), config::action_lists(*actions)),
{
    let ghost names = text::texts(aliases@);
    let ghost lists = config::action_lists(*actions);
    let mut i: usize = 0;
    while i < aliases.len()
        invariant
            i <= aliases.len(),
            names == text::texts(aliases@),
            lists == config::action_lists(*actions),
            forall|j: int|
                0 <= j < i ==> !(lists.contains_key(#[trigger] names[j]) && config::list_needs(
                    lists[names[j]],
                    Need::Thumbnail,
                )),
        decreases aliases.len() - i,
    {
        assert(names[i as int] == aliases@[i as int]@);
        if let Some(list) = actions.get(aliases[i].as_str()) {
            assert(lists.contains_key(names[i as int]));
            assert(lists[names[i as int]] == list@);
            if some_action_needs(list, Need::Thumbnail) {
                return true;
            }
        }
        i += 1;
    }
    false
}

/// The URL under which devices fetch the thumbnail of an event.
pub open spec fn thumbnail_address(base: Seq<char>, event_id: Seq<char>) -> Seq<char> {
    address::below(base, "/media/"@ + event_id)
}

/// Builds the URL under which devices fetch the thumbnail of an event.
pub fn thumbnail_url(advertise: &Url, event_id: &str) -> (r: String)
    ensures
        r@ == thumbnail_address(advertise@.href, event_id@),
{
    let base = text::strip_trailing(advertise.as_str(), '/');
    let r = text::join3(base, "/media/", event_id);
    assert(r@ =~= base@ + ("/media/"@ + event_id@));
    r
}

/// The view of what came of a task.
pub open spec fn task_view(r: Result<Result<(), String>, String>) -> Option<Seq<char>> {
    match r {
        Ok(Ok(())) => None,
        Ok(Err(e)) => Some(e@),
        Err(e) => Some(e@),
    }
}

/// Flattens what came of tasks into the texts of the errors, in order.
pub fn collect_errors(results: Vec<Result<Result<(), String>, String>>) -> (r: Vec<String>)
    ensures
        text::texts(r@) == results@.filter_map(|t: Result<Result<(), String>, String>| task_view(t)),
{
    let ghost f = |t: Result<Result<(), String>, String>| task_view(t);
    let mut out: Vec<String> = Vec::new();
    let mut i: usize = 0;
    assert(text::texts(out@) =~= results@.take(0).filter_map(f));
    while i < results.len()
        invariant
            i <= results.len(),
            f == (|t: Result<Result<(), String>, String>| task_view(t)),
            text::texts(out@) == results@.take(i as int).filter_map(f),
        decreases results.len() - i,
    {
        let ghost before = out@;
        proof {
            results@.lemma_filter_map_take_succ(f, i as int);
        }
        match &results[i] {
            Ok(Ok(())) => {},
            Ok(Err(e)) => {
                out.push(e.clone());
                assert(text::texts(out@) =~= text::texts(before).push(e@));
            },
            Err(e) => {
                out.push(e.clone());
                assert(text::texts(out@) =~= text::texts(before).push(e@));
            },
        }
        i += 1;
    }
    assert(results@.take(results@.len() as int) =~= results@);
    out
}

/// The URL of the snapshot of an event is the base URL, without the slashes it ends with, then
/// `/media/`, then the id of the event, all of it; so two events have two URLs.
pub proof fn snapshot_url_ends_with_the_whole_id(
    base: Seq<char>,
    slashes: Seq<char>,
    id: Seq<char>,
    other: Seq<char>,
)
    requires
        base.len() > 0 ==> base.last() != '/',
        forall|i: int| 0 <= i < slashes.len() ==> #[trigger] slashes[i] == '/',
    ensures
        thumbnail_address(base + slashes, id) == base + "/media/"@ + id,
        thumbnail_address(base + slashes, id) == thumbnail_address(base + slashes, other) ==> id
            == other,
{
    address::path_follows_its_base(base, slashes, "/media/"@ + id);
    address::path_follows_its_base(base, slashes, "/media/"@ + other);
    let front = base + "/media/"@;
    assert(base + ("/media/"@ + id) =~= front + id);
    assert(base + ("/media/"@ + other) =~= front + other);
    if front + id == front + other {
        assert((front + id).skip(front.len() as int) =~= id);
        assert((front + other).skip(front.len() as int) =~= other);
    }
}

/// A route needs the snapshot just where one of its devices has an action that shows it, for a time
/// or not.
pub proof fn snapshot_is_needed_where_it_is_shown(
    aliases: Seq<Seq<char>>,
    actions: Map<Seq<char>, Seq<Action>>,
)
    ensures
        route_needs_thumbnail(aliases, actions) <==> exists|i: int, k: int|
            0 <= i < aliases.len() && actions.contains_key(aliases[i]) && 0 <= k
                < actions[aliases[i]].len() && (#[trigger] actions[aliases[i]][k]
                == Action::Thumbnail || actions[aliases[i]][k] is TimedThumbnail),
{
    if route_needs_thumbnail(aliases, actions) {
        let i = choose|i: int|
            0 <= i < aliases.len() && actions.contains_key(#[trigger] aliases[i])
                && config::list_needs(actions[aliases[i]], Need::Thumbnail);
        let k = choose|k: int|
            0 <= k < actions[aliases[i]].len() && config::needs(
                #[trigger] actions[aliases[i]][k],
                Need::Thumbnail,
            );
        assert(actions[aliases[i]][k] == Action::Thumbnail
            || actions[aliases[i]][k] is TimedThumbnail);
    }
    if exists|i: int, k: int|
        0 <= i < aliases.len() && actions.contains_key(aliases[i]) && 0 <= k
            < actions[aliases[i]].len() && (#[trigger] actions[aliases[i]][k] == Action::Thumbnail
            || actions[aliases[i]][k] is TimedThumbnail) {
        let (i, k) = choose|i: int, k: int|
            0 <= i < aliases.len() && actions.contains_key(aliases[i]) && 0 <= k
                < actions[aliases[i]].len() && (#[trigger] actions[aliases[i]][k]
                == Action::Thumbnail || actions[aliases[i]][k] is TimedThumbnail);
        assert(config::needs(actions[aliases[i]][k], Need::Thumbnail));
        assert(actions.contains_key(aliases[i]));
    }
}

/// What responses say: a text with its status, or media with its type, whole, and success; the
/// snapshot that was found as an image, and one that was not as not found.
pub proof fn responses_say_what_they_are_given(
    status: u16,
    t: Seq<char>,
    content_type: Seq<char>,
    bytes: Seq<u8>,
    r: Response,
)
    ensures
        text_response(status, t).status == status,
        text_response(status, t).body == BodyView::Text(t),
        media_response(content_type, bytes).status == 200,
        media_response(content_type, bytes).body == BodyView::Media(content_type, bytes),
        thumbnail_response(Some(bytes)) == media_response("image/jpeg"@, bytes),
        thumbnail_response(None) == text_response(404, "expired or unknown"@),
        r@.status == r.status,
        r.body matches Body::Text(s) ==> r@.body == BodyView::Text(s@),
        r.body matches Body::Media { content_type: c, bytes: b } ==> r@.body == BodyView::Media(
            c@,
            b@,
        ),
{
}

/// Every task that failed gives its error, in order, and no other does.
pub proof fn every_error_is_collected(
    first: Seq<Result<Result<(), String>, String>>,
    second: Seq<Result<Result<(), String>, String>>,
    e: String,
)
    ensures
        ({
            let f = |t: Result<Result<(), String>, String>| task_view(t);
            &&& (first + second).filter_map(f) == first.filter_map(f) + second.filter_map(f)
            &&& seq![Ok::<Result<(), String>, String>(Ok(()))].filter_map(f) == Seq::<
                Seq<char>,
            >::empty()
            &&& seq![Ok::<Result<(), String>, String>(Err(e))].filter_map(f) == seq![e@]
            &&& seq![Err::<Result<(), String>, String>(e)].filter_map(f) == seq![e@]
        }),
    decreases second.len(),
{
    let f = |t: Result<Result<(), String>, String>| task_view(t);
    Seq::lemma_filter_map_singleton(Ok::<Result<(), String>, String>(Ok(())), f);
    Seq::lemma_filter_map_singleton(Ok::<Result<(), String>, String>(Err(e)), f);
    Seq::lemma_filter_map_singleton(Err::<Result<(), String>, String>(e), f);
    if second.len() > 0 {
        every_error_is_collected(first, second.drop_last(), e);
        assert((first + second).drop_last() =~= first + second.drop_last());
        assert((first + second).filter_map(f) =~= first.filter_map(f) + second.filter_map(f));
    } else {
        assert(first + second =~= first);
        assert((first + second).filter_map(f) =~= first.filter_map(f) + second.filter_map(f));
    }
}

} // verus!
