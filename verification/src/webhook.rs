//! A hit on an endpoint, from its body to its response.
//!
//! The server reads the body and asks [`accept`] whether the path is an endpoint; reads the alarm out
//! of the body and asks [`dispatch`] which devices to drive; drives them; and asks [`conclude`] what
//! to answer.
use crate::address::Url;
use crate::config;
use crate::config::{Config, ConfigView, Need};
use crate::flags::Action;
use crate::media;
use crate::payload;
use crate::payload::AlarmPayload;
use crate::text;
use crate::time::{Clock, Instant};
use crate::web;
use crate::web::{needs_thumbnail, not_found, thumbnail_url, Response, ResponseView};
use vstd::prelude::*;
use vstd::string::*;

verus! {

/// The aliases that a hit on `path` drives, where `body` says what came of reading the request.
pub open spec fn accepted(
    routes: Map<Seq<char>, Seq<Seq<char>>>,
    path: Seq<char>,
    body: Result<(), Seq<char>>,
) -> Result<Seq<Seq<char>>, ResponseView> {
    match body {
        Err(e) => Err(web::text_response(400, "body: "@ + e)),
        Ok(()) => if routes.contains_key(path) {
            Ok(routes[path])
        } else {
            Err(web::text_response(404, "not found"@))
        },
    }
}

/// The view of what came of reading a request.
pub open spec fn body_view(body: Result<(), String>) -> Result<(), Seq<char>> {
    match body {
        Ok(()) => Ok(()),
        Err(e) => Err(e@),
    }
}

/// Finds the devices of the endpoint that was hit, once the body was read.
pub fn accept(cfg: &Config, path: &str, body: Result<(), String>) -> (r: Result<
    Vec<String>,
    Response,
>)
    ensures
        match r {
            Ok(aliases) => accepted(cfg@.routes, path@, body_view(body)) == Ok::<
                Seq<Seq<char>>,
                ResponseView,
            >(text::texts(aliases@)),
            Err(resp) => accepted(cfg@.routes, path@, body_view(body)) == Err::<
                Seq<Seq<char>>,
                ResponseView,
            >(resp@),
        },
{
    if let Err(e) = body {
        return Err(web::refuse("body: ".to_owned().concat(e.as_str())));
    }
    match cfg.routes.get(path) {
        Some(aliases) => {
            assert(cfg@.routes.contains_key(path@));
            assert(cfg@.routes[path@] == text::texts(aliases@));
            let copy: Vec<String> = aliases.clone();
            assert(text::texts(copy@) =~= text::texts(aliases@));
            Ok(copy)
        },
        None => {
            assert(!cfg@.routes.contains_key(path@));
            Err(not_found())
        },
    }
}

/// The run of one device.
#[derive(Debug)]
pub struct Job {
    pub alias: String,
    pub ip: String,
    pub actions: Vec<Action>,
    pub doorbell: String,
    pub livestream: String,
    pub thumbnail: Option<String>,
}

/// The model of a [`Job`].
pub struct JobView {
    pub alias: Seq<char>,
    pub ip: Seq<char>,
    pub actions: Seq<Action>,
    pub doorbell: Seq<char>,
    pub livestream: Seq<char>,
    pub thumbnail: Option<Seq<char>>,
}

impl View for Job {
    type V = JobView;

    open spec fn view(&self) -> JobView {
        JobView {
            alias: self.alias@,
            ip: self.ip@,
            actions: self.actions@,
            doorbell: self.doorbell@,
            livestream: self.livestream@,
            thumbnail: text::text_option(self.thumbnail),
        }
    }
}

/// The run of one device; a device without actions, or one that is not known, has none.
pub open spec fn job_of(c: ConfigView, alias: Seq<char>, thumbnail: Option<Seq<char>>) -> Option<
    JobView,
> {
    if c.actions.contains_key(alias) && c.actions[alias].len() > 0 && c.devices.contains_key(
        alias,
    ) {
        Some(
            JobView {
                alias,
                ip: c.devices[alias],
                actions: c.actions[alias],
                doorbell: match c.doorbell_url {
                    Some(url) => url,
                    None => seq![],
                },
                livestream: match c.livestream_url {
                    Some(url) => url@.href,
                    None => seq![],
                },
                thumbnail,
            },
        )
    } else {
        None
    }
}

/// The runs of the devices of a route, in its order.
pub open spec fn jobs_of(
    c: ConfigView,
    aliases: Seq<Seq<char>>,
    thumbnail: Option<Seq<char>>,
) -> Seq<JobView> {
    aliases.filter_map(|a: Seq<char>| job_of(c, a, thumbnail))
}

/// The views of runs.
pub open spec fn job_views(jobs: Seq<Job>) -> Seq<JobView> {
    jobs.map_values(|j: Job| j@)
}

fn job_for(cfg: &Config, alias: &str, thumbnail: &Option<String>) -> (r: Option<Job>)
    ensures
        match r {
            Some(j) => job_of(cfg@, alias@, text::text_option(*thumbnail)) == Some(j@),
            None => job_of(cfg@, alias@, text::text_option(*thumbnail)) is None,
        },
{
    let actions = match cfg.actions.get(alias) {
        Some(list) => {
            assert(cfg@.actions.contains_key(alias@));
            assert(cfg@.actions[alias@] == list@);
            let copy: Vec<Action> = list.clone();
            assert(copy@ =~= list@);
            copy
        },
        None => {
            assert(!cfg@.actions.contains_key(alias@));
            return None;
        },
    };
    if actions.len() == 0 {
        return None;
    }
    let ip = match cfg.devices.get(alias) {
        Some(ip) => {
            assert(cfg@.devices.contains_key(alias@));
            assert(cfg@.devices[alias@] == ip@);
            ip.clone()
        },
        None => {
            assert(!cfg@.devices.contains_key(alias@));
            return None;
        },
    };
    let doorbell = match &cfg.doorbell_url {
        Some(url) => url.clone(),
        None => String::new(),
    };
    let livestream = match &cfg.livestream_url {
        Some(url) => url.as_str().to_owned(),
        None => String::new(),
    };
    let thumbnail = match thumbnail {
        Some(url) => Some(url.clone()),
        None => None,
    };
    Some(Job { alias: alias.to_owned(), ip, actions, doorbell, livestream, thumbnail })
}

/// The runs of the devices of a route, in its order.
pub fn jobs_for(cfg: &Config, aliases: &Vec<String>, thumbnail: &Option<String>) -> (r: Vec<Job>)
    ensures
        job_views(r@) == jobs_of(cfg@, text::texts(aliases@), text::text_option(*thumbnail)),
{
    let ghost names = text::texts(aliases@);
    let ghost shown = text::text_option(*thumbnail);
    let ghost f = |a: Seq<char>| job_of(cfg@, a, shown);
    let mut jobs: Vec<Job> = Vec::new();
    let mut i: usize = 0;
    assert(job_views(jobs@) =~= names.take(0).filter_map(f));
    while i < aliases.len()
        invariant
            i <= aliases.len(),
            names == text::texts(aliases@),
            shown == text::text_option(*thumbnail),
            f == (|a: Seq<char>| job_of(cfg@, a, shown)),
            job_views(jobs@) == names.take(i as int).filter_map(f),
        decreases aliases.len() - i,
    {
        let ghost before = jobs@;
        proof {
            names.lemma_filter_map_take_succ(f, i as int);
            assert(names[i as int] == aliases@[i as int]@);
        }
        if let Some(job) = job_for(cfg, aliases[i].as_str(), thumbnail) {
            jobs.push(job);
            assert(job_views(jobs@) =~= job_views(before).push(job@));
        }
        i += 1;
    }
    assert(names.take(names.len() as int) =~= names);
    jobs
}

/// The id and the bytes of a snapshot, or why there is none.
pub open spec fn image_or_refusal(
    event_id: Result<Seq<char>, Seq<char>>,
    image: Result<Seq<u8>, Seq<char>>,
) -> Result<(Seq<char>, Seq<u8>), ResponseView> {
    match (event_id, image) {
        (Err(e), _) => Err(web::text_response(400, e)),
        (Ok(_), Err(e)) => Err(web::text_response(400, e)),
        (Ok(id), Ok(bytes)) => Ok((id, bytes)),
    }
}

/// The id and the bytes of a snapshot, or the response that says why there is none.
pub fn snapshot(event_id: Result<String, String>, image: Result<Vec<u8>, String>) -> (r: Result<
    (String, Vec<u8>),
    Response,
>)
    ensures
        match r {
            Ok((id, bytes)) => image_or_refusal(
                text::text_result(event_id),
                text::bytes_result(image),
            ) == Ok::<(Seq<char>, Seq<u8>), ResponseView>((id@, bytes@)),
            Err(resp) => image_or_refusal(text::text_result(event_id), text::bytes_result(image))
                == Err::<(Seq<char>, Seq<u8>), ResponseView>(resp@),
        },
{
    match (event_id, image) {
        (Err(e), _) => Err(web::refuse(e)),
        (Ok(_), Err(e)) => Err(web::refuse(e)),
        (Ok(id), Ok(bytes)) => Ok((id, bytes)),
    }
}

/// What a hit sets going: the runs of devices, and the snapshot to serve to them.
pub struct DispatchView {
    pub jobs: Seq<JobView>,
    pub snapshot: Option<(Seq<char>, Seq<u8>)>,
}

/// The view of what came of reading an alarm.
pub open spec fn alarm_view(p: Result<AlarmPayload, String>) -> Result<AlarmPayload, Seq<char>> {
    match p {
        Ok(p) => Ok(p),
        Err(e) => Err(e@),
    }
}

/// What a hit sets going, or why it is refused. A snapshot is wanted only where a device shows it.
pub open spec fn dispatched(
    c: ConfigView,
    aliases: Seq<Seq<char>>,
    alarm: Result<AlarmPayload, Seq<char>>,
) -> Result<DispatchView, ResponseView> {
    match alarm {
        Err(e) => Err(web::text_response(400, "bad payload: "@ + e)),
        Ok(p) => if web::route_needs_thumbnail(aliases, c.actions) {
            match image_or_refusal(
                payload::event_id_of(p.alarm.triggers@),
                payload::alarm_image(p.alarm),
            ) {
                Err(resp) => Err(resp),
                Ok((id, bytes)) => Ok(
                    DispatchView {
                        jobs: jobs_of(
                            c,
                            aliases,
                            Some(web::thumbnail_address((c.advertise_url->0)@.href, id)),
                        ),
                        snapshot: Some((id, bytes)),
                    },
                ),
            }
        } else {
            Ok(DispatchView { jobs: jobs_of(c, aliases, None), snapshot: None })
        },
    }
}

/// What a hit sets going.
#[derive(Debug)]
pub struct Dispatch {
    pub jobs: Vec<Job>,
    /// The event whose snapshot was stored, and is to be evicted when its time is over.
    pub event_id: Option<String>,
}

/// The configuration with a snapshot stored as of `now`.
pub open spec fn with_snapshot(
    c: ConfigView,
    snapshot: Option<(Seq<char>, Seq<u8>)>,
    now: Instant,
) -> ConfigView {
    match snapshot {
        Some((id, bytes)) => ConfigView {
            thumbnails: c.thumbnails.insert(id, (now, bytes)),
            ..c
        },
        None => c,
    }
}

/// Whether there is an address to serve the snapshot from, where a hit has one to show.
pub open spec fn can_serve(
    c: ConfigView,
    aliases: Seq<Seq<char>>,
    alarm: Result<AlarmPayload, Seq<char>>,
) -> bool {
    dispatched(c, aliases, alarm) matches Ok(d) ==> (d.snapshot is Some ==> c.advertise_url is Some)
}

/// Decides what a hit sets going, once the alarm was read, and stores the snapshot that devices are
/// going to fetch.
pub fn dispatch(cfg: &mut Config, aliases: &Vec<String>, alarm: Result<AlarmPayload, String>) -> (r:
    Result<Dispatch, Response>)
    requires
        can_serve(old(cfg)@, text::texts(aliases@), alarm_view(alarm)),
    ensures
        match r {
            Ok(d) => exists|now: Instant| #[trigger]
                is_dispatch(
                    dispatched(old(cfg)@, text::texts(aliases@), alarm_view(alarm)),
                    d,
                    old(cfg)@,
                    final(cfg)@,
                    old(cfg).thumbnails.clock(),
                    now,
                ),
            Err(resp) => dispatched(old(cfg)@, text::texts(aliases@), alarm_view(alarm)) == Err::<
                DispatchView,
                ResponseView,
            >(resp@) && final(cfg)@ == old(cfg)@,
        },
        final(cfg).thumbnails.clock() == old(cfg).thumbnails.clock(),
{
    let ghost names = text::texts(aliases@);
    let ghost want = dispatched(old(cfg)@, names, alarm_view(alarm));
    let p = match alarm {
        Ok(p) => p,
        Err(e) => {
            return Err(web::refuse("bad payload: ".to_owned().concat(e.as_str())));
        },
    };
    if !needs_thumbnail(aliases.as_slice(), &cfg.actions) {
        let jobs = jobs_for(cfg, aliases, &None);
        let d = Dispatch { jobs, event_id: None };
        assert(is_dispatch(want, d, old(cfg)@, cfg@, old(cfg).thumbnails.clock(), arbitrary()));
        return Ok(d);
    }
    let id = match p.event_id() {
        Ok(id) => id,
        Err(e) => {
            return Err(web::refuse(e));
        },
    };
    let (id, bytes) = match snapshot(Ok(id), p.image_bytes()) {
        Ok(s) => s,
        Err(resp) => {
            return Err(resp);
        },
    };
    let url = match &cfg.advertise_url {
        Some(base) => thumbnail_url(base, id.as_str()),
        None => vstd::pervasive::unreached(),
    };
    let jobs = jobs_for(cfg, aliases, &Some(url));
    let ghost held = bytes@;
    cfg.thumbnails.insert(id.as_str(), bytes);
    let d = Dispatch { jobs, event_id: Some(id) };
    proof {
        let before = old(cfg)@.thumbnails;
        let now = choose|now: Instant|
            old(cfg).thumbnails.clock().reads(now) && now.since_start.wf() && cfg.thumbnails@
                == #[trigger] before.insert(id@, (now, held));
        assert(cfg@ == with_snapshot(old(cfg)@, Some((id@, held)), now));
        assert(is_dispatch(want, d, old(cfg)@, cfg@, old(cfg).thumbnails.clock(), now));
    }
    Ok(d)
}

/// Dispatches a hit; `None`, with nothing stored, where it has a snapshot to show and there is no
/// address to serve it from.
pub fn try_dispatch(
    cfg: &mut Config,
    aliases: &Vec<String>,
    alarm: Result<AlarmPayload, String>,
) -> (r: Option<Result<Dispatch, Response>>)
    ensures
        r is None <==> !can_serve(old(cfg)@, text::texts(aliases@), alarm_view(alarm)),
        match r {
            Some(Ok(d)) => exists|now: Instant| #[trigger]
                is_dispatch(
                    dispatched(old(cfg)@, text::texts(aliases@), alarm_view(alarm)),
                    d,
                    old(cfg)@,
                    final(cfg)@,
                    old(cfg).thumbnails.clock(),
                    now,
                ),
            Some(Err(resp)) => dispatched(old(cfg)@, text::texts(aliases@), alarm_view(alarm))
                == Err::<DispatchView, ResponseView>(resp@) && final(cfg)@ == old(cfg)@,
            None => final(cfg)@ == old(cfg)@,
        },
        final(cfg).thumbnails.clock() == old(cfg).thumbnails.clock(),
{
    if cfg.advertise_url.is_none() && needs_thumbnail(aliases.as_slice(), &cfg.actions) {
        if let Ok(p) = &alarm {
            if p.event_id().is_ok() && p.image_bytes().is_ok() {
                return None;
            }
        }
    }
    Some(dispatch(cfg, aliases, alarm))
}

/// Whether `d` is what was wanted, and the configuration went from `before` to `after` by storing
/// the snapshot as of `now`, a reading of `clock`.
pub open spec fn is_dispatch(
    want: Result<DispatchView, ResponseView>,
    d: Dispatch,
    before: ConfigView,
    after: ConfigView,
    clock: Clock,
    now: Instant,
) -> bool {
    &&& want is Ok
    &&& job_views(d.jobs@) == (want->Ok_0).jobs
    &&& text::text_option(d.event_id) == match (want->Ok_0).snapshot {
        Some((id, _)) => Some(id),
        None => None,
    }
    &&& after == with_snapshot(before, (want->Ok_0).snapshot, now)
    &&& (want->Ok_0).snapshot is Some ==> clock.reads(now) && now.since_start.wf()
}

/// What came of a run that was given [`web::CAST_TIMEOUT_SECS`] seconds; `None` where they ran out.
pub fn timed(run: Option<Result<(), String>>) -> (r: Result<(), String>)
    ensures
        match run {
            Some(done) => r == done,
            None => r is Err && r->Err_0@ == "cast timed out (20s)"@,
        },
{
    match run {
        Some(done) => done,
        None => Err("cast timed out (20s)".to_owned()),
    }
}

/// How the run of a device ended.
#[derive(Debug)]
pub enum Outcome {
    /// The run came to its end.
    Finished { alias: String, ip: String, result: Result<(), String> },
    /// The task that held the run broke off, and why.
    Lost(String),
}

/// What the response says of a run, where it failed.
pub open spec fn failure_of(o: Outcome) -> Option<Seq<char>> {
    match o {
        Outcome::Finished { alias, ip, result } => match result {
            Ok(()) => None,
            Err(e) => Some(alias@ + " ("@ + ip@ + "): "@ + e@),
        },
        Outcome::Lost(e) => Some("task join: "@ + e@),
    }
}

/// What the response says of the runs that failed, in order.
pub open spec fn failures_of(outcomes: Seq<Outcome>) -> Seq<Seq<char>> {
    outcomes.filter_map(|o: Outcome| failure_of(o))
}

/// Lists what is said of the runs that failed, in order.
pub fn failures(outcomes: &Vec<Outcome>) -> (r: Vec<String>)
    ensures
        text::texts(r@) == failures_of(outcomes@),
{
    let ghost f = |o: Outcome| failure_of(o);
    let mut out: Vec<String> = Vec::new();
    let mut i: usize = 0;
    assert(text::texts(out@) =~= outcomes@.take(0).filter_map(f));
    while i < outcomes.len()
        invariant
            i <= outcomes.len(),
            f == (|o: Outcome| failure_of(o)),
            text::texts(out@) == outcomes@.take(i as int).filter_map(f),
        decreases outcomes.len() - i,
    {
        let ghost before = out@;
        proof {
            outcomes@.lemma_filter_map_take_succ(f, i as int);
        }
        let failed = match &outcomes[i] {
            Outcome::Finished { alias, ip, result } => match result {
                Ok(()) => None,
                Err(e) => Some(
                    text::join5(alias.as_str(), " (", ip.as_str(), "): ", e.as_str()),
                ),
            },
            Outcome::Lost(e) => Some("task join: ".to_owned().concat(e.as_str())),
        };
        if let Some(why) = failed {
            out.push(why);
            assert(text::texts(out@) =~= text::texts(before).push(why@));
        }
        i += 1;
    }
    assert(outcomes@.take(outcomes@.len() as int) =~= outcomes@);
    out
}

/// What [`quote`] makes of a text.
pub uninterp spec fn quoted(t: Seq<char>) -> Seq<char>;

/// Writes a text in quotes, with escapes where they are due, by the `Debug` of [`str`].
///
/// The result depends on the text alone. Which characters are escaped, and how, is left open.
#[verifier::external_body]
fn quote(t: &str) -> (r: String)
    ensures
        r@ == quoted(t@),
{
    format!("{t:?}")
}

/// Texts with commas between them.
pub open spec fn separated(items: Seq<Seq<char>>) -> Seq<char>
    decreases items.len(),
{
    if items.len() == 0 {
        seq![]
    } else if items.len() == 1 {
        items[0]
    } else {
        separated(items.drop_last()) + ", "@ + items.last()
    }
}

/// A list in brackets, with commas between its items.
pub open spec fn bracketed(items: Seq<Seq<char>>) -> Seq<char> {
    "["@ + separated(items) + "]"@
}

/// Writes a list in brackets, with commas between its items.
pub fn list_text(items: &Vec<String>) -> (r: String)
    ensures
        r@ == bracketed(text::texts(items@)),
{
    let ghost all = text::texts(items@);
    let mut inner: String = String::new();
    let mut i: usize = 0;
    while i < items.len()
        invariant
            i <= items.len(),
            all == text::texts(items@),
            inner@ == separated(all.take(i as int)),
        decreases items.len() - i,
    {
        assert(all.take(i + 1).drop_last() =~= all.take(i as int));
        assert(all.take(i + 1).last() == items@[i as int]@);
        if i > 0 {
            inner.append(", ");
        }
        let ghost before = inner@;
        inner.append(items[i].as_str());
        assert(i == 0 ==> before =~= seq![]);
        assert(i == 0 ==> inner@ =~= items@[0]@);
        i += 1;
    }
    assert(all.take(all.len() as int) =~= all);
    text::join3("[", inner.as_str(), "]")
}

fn quote_all(items: &Vec<String>) -> (r: Vec<String>)
    ensures
        text::texts(r@) == text::texts(items@).map_values(|t: Seq<char>| quoted(t)),
{
    let ghost f = |t: Seq<char>| quoted(t);
    let mut out: Vec<String> = Vec::new();
    let mut i: usize = 0;
    while i < items.len()
        invariant
            i <= items.len(),
            f == (|t: Seq<char>| quoted(t)),
            text::texts(out@) == text::texts(items@.take(i as int)).map_values(f),
        decreases items.len() - i,
    {
        let ghost before = out@;
        let q = quote(items[i].as_str());
        out.push(q);
        assert(text::texts(out@) =~= text::texts(before).push(q@));
        assert(text::texts(items@.take(i + 1)) =~= text::texts(items@.take(i as int)).push(
            items@[i as int]@,
        ));
        assert(text::texts(items@.take(i + 1)).map_values(f) =~= text::texts(
            items@.take(i as int),
        ).map_values(f).push(q@));
        i += 1;
    }
    assert(items@.take(items@.len() as int) =~= items@);
    out
}

/// The response to a hit, going by what is said of the runs that failed, already in quotes.
pub open spec fn verdict_of(quotes: Seq<Seq<char>>) -> ResponseView {
    if quotes.len() == 0 {
        web::text_response(200, "ok"@)
    } else {
        web::text_response(500, "errors: "@ + bracketed(quotes))
    }
}

/// The response to a hit, going by what is said of the runs that failed, already in quotes.
pub fn verdict(quotes: &Vec<String>) -> (r: Response)
    ensures
        r@ == verdict_of(text::texts(quotes@)),
{
    if quotes.len() == 0 {
        web::healthz()
    } else {
        web::report("errors: ".to_owned().concat(list_text(quotes).as_str()))
    }
}

/// The response to a hit, going by how its runs ended.
pub open spec fn concluded(outcomes: Seq<Outcome>) -> ResponseView {
    verdict_of(failures_of(outcomes).map_values(|t: Seq<char>| quoted(t)))
}

/// The response to a hit, going by how its runs ended.
pub fn conclude(outcomes: &Vec<Outcome>) -> (r: Response)
    ensures
        r@ == concluded(outcomes@),
{
    verdict(&quote_all(&failures(outcomes)))
}

/// Whether a run succeeded.
pub open spec fn succeeded(o: Outcome) -> bool {
    o matches Outcome::Finished { result, .. } && result is Ok
}

proof fn lemma_failures_empty(outcomes: Seq<Outcome>)
    ensures
        failures_of(outcomes).len() == 0 <==> forall|i: int|
            0 <= i < outcomes.len() ==> succeeded(#[trigger] outcomes[i]),
    decreases outcomes.len(),
{
    if outcomes.len() > 0 {
        let rest = outcomes.drop_last();
        lemma_failures_empty(rest);
        assert(forall|i: int| 0 <= i < rest.len() ==> rest[i] == outcomes[i]);
        if failures_of(outcomes).len() == 0 {
            assert forall|i: int| 0 <= i < outcomes.len() implies succeeded(
                #[trigger] outcomes[i],
            ) by {
                if i < rest.len() {
                    assert(succeeded(rest[i]));
                }
            }
        } else if succeeded(outcomes.last()) {
            let i = choose|i: int| 0 <= i < rest.len() && !succeeded(#[trigger] rest[i]);
            assert(!succeeded(outcomes[i]));
        }
    }
}

/// A hit is answered with success if and only if the run of every device succeeded, and with a
/// server error otherwise.
pub proof fn success_means_every_run_succeeded(outcomes: Seq<Outcome>)
    ensures
        concluded(outcomes).status == 200 <==> forall|i: int|
            0 <= i < outcomes.len() ==> succeeded(#[trigger] outcomes[i]),
        concluded(outcomes).status == 200 || concluded(outcomes).status == 500,
{
    lemma_failures_empty(outcomes);
}

/// Whether a device of a configuration has something to do.
pub open spec fn has_actions(c: ConfigView, alias: Seq<char>) -> bool {
    c.actions.contains_key(alias) && c.actions[alias].len() > 0
}

proof fn lemma_jobs_of_known(c: ConfigView, aliases: Seq<Seq<char>>, thumbnail: Option<Seq<char>>)
    requires
        forall|i: int| 0 <= i < aliases.len() ==> c.devices.contains_key(#[trigger] aliases[i]),
    ensures
        jobs_of(c, aliases, thumbnail) == aliases.filter(
            |a: Seq<char>| has_actions(c, a),
        ).map_values(|a: Seq<char>| job_of(c, a, thumbnail)->0),
    decreases aliases.len(),
{
    let p = |a: Seq<char>| has_actions(c, a);
    let f = |a: Seq<char>| job_of(c, a, thumbnail)->0;
    reveal(Seq::filter);
    if aliases.len() > 0 {
        let rest = aliases.drop_last();
        assert(forall|i: int| 0 <= i < rest.len() ==> rest[i] == aliases[i]);
        assert(c.devices.contains_key(aliases[aliases.len() - 1]));
        lemma_jobs_of_known(c, rest, thumbnail);
        if p(aliases.last()) {
            assert(aliases.filter(p) == rest.filter(p).push(aliases.last()));
            assert(aliases.filter(p).map_values(f) =~= rest.filter(p).map_values(f).push(
                f(aliases.last()),
            ));
        }
    }
    assert(jobs_of(c, aliases, thumbnail) =~= aliases.filter(p).map_values(f));
}

/// A hit on an endpoint runs every device of the endpoint that has actions, and no other, in the
/// order in which the endpoint names them, each with its own address and actions.
pub proof fn every_device_with_actions_runs(
    c: ConfigView,
    path: Seq<char>,
    thumbnail: Option<Seq<char>>,
)
    requires
        config::valid(c),
        c.routes.contains_key(path),
    ensures
        jobs_of(c, c.routes[path], thumbnail) == c.routes[path].filter(
            |a: Seq<char>| has_actions(c, a),
        ).map_values(|a: Seq<char>| job_of(c, a, thumbnail)->0),
        forall|a: Seq<char>|
            #![trigger job_of(c, a, thumbnail)]
            c.routes[path].contains(a) && has_actions(c, a) ==> (job_of(c, a, thumbnail) matches Some(
                j,
            ) && j.alias == a && j.ip == c.devices[a] && j.actions == c.actions[a]),
{
    assert(config::valid_route(path, c.routes[path], c.devices.dom()));
    lemma_jobs_of_known(c, c.routes[path], thumbnail);
}

/// A hit on an endpoint of a valid configuration can be dispatched: where it needs a snapshot,
/// there is an address to serve it from.
pub proof fn valid_configuration_can_dispatch(
    c: ConfigView,
    aliases: Seq<Seq<char>>,
    alarm: Result<AlarmPayload, Seq<char>>,
)
    requires
        config::valid(c),
    ensures
        can_serve(c, aliases, alarm),
{
    if web::route_needs_thumbnail(aliases, c.actions) {
        let i = choose|i: int|
            0 <= i < aliases.len() && c.actions.contains_key(#[trigger] aliases[i])
                && config::list_needs(c.actions[aliases[i]], Need::Thumbnail);
        assert(c.actions.contains_key(aliases[i]));
    }
}

/// Dispatching a hit keeps the configuration valid.
pub proof fn dispatch_keeps_configuration_valid(
    c: ConfigView,
    snapshot: Option<(Seq<char>, Seq<u8>)>,
    now: Instant,
)
    requires
        config::valid(c),
    ensures
        config::valid(with_snapshot(c, snapshot, now)),
{
}

/// Every run that a hit sets going has the media that its actions play: the doorbell sound, the
/// livestream, and the snapshot of the alarm.
pub proof fn runs_have_their_media(
    c: ConfigView,
    aliases: Seq<Seq<char>>,
    alarm: Result<AlarmPayload, Seq<char>>,
    i: int,
)
    requires
        config::valid(c),
        dispatched(c, aliases, alarm) matches Ok(d) && 0 <= i < d.jobs.len(),
    ensures
        ({
            let j = (dispatched(c, aliases, alarm)->Ok_0).jobs[i];
            &&& config::list_needs(j.actions, Need::Doorbell) ==> c.doorbell_url == Some(j.doorbell)
            &&& config::list_needs(j.actions, Need::Livestream) ==> c.livestream_url is Some && (
            c.livestream_url->0)@.href == j.livestream
            &&& config::list_needs(j.actions, Need::Thumbnail) ==> j.thumbnail is Some
        }),
{
    let d = dispatched(c, aliases, alarm)->Ok_0;
    let thumbnail = if web::route_needs_thumbnail(aliases, c.actions) {
        Some(web::thumbnail_address((c.advertise_url->0)@.href, (d.snapshot->0).0))
    } else {
        None
    };
    let f = |a: Seq<char>| job_of(c, a, thumbnail);
    assert(d.jobs == aliases.filter_map(f));
    let j = d.jobs[i];
    assert(aliases.filter_map(f).contains(j));
    aliases.lemma_filter_map_contains(f, j);
    let a = choose|a: Seq<char>| #[trigger] aliases.contains(a) && f(a) == Some(j);
    assert(c.actions.contains_key(a));
    let k = choose|k: int| 0 <= k < aliases.len() && aliases[k] == a;
    assert(c.actions.contains_key(aliases[k]));
}

/// The snapshot of an alarm is served to devices, byte for byte, from when the hit was dispatched
/// until it is as old as the lifetime: it is stored under the id that ends the URL which every run
/// of the hit was handed.
pub proof fn snapshot_is_served_to_every_run(
    c: ConfigView,
    aliases: Seq<Seq<char>>,
    alarm: Result<AlarmPayload, Seq<char>>,
    at: Instant,
    now: Instant,
)
    requires
        dispatched(c, aliases, alarm) is Ok,
        web::route_needs_thumbnail(aliases, c.actions),
        !media::is_expired(at, now, media::lifetime()),
    ensures
        dispatched(c, aliases, alarm)->Ok_0.snapshot matches Some((id, bytes)) && {
            &&& media::served(
                with_snapshot(c, Some((id, bytes)), at).thumbnails,
                id,
                now,
            ) == Some(bytes)
            &&& forall|i: int|
                0 <= i < (dispatched(c, aliases, alarm)->Ok_0).jobs.len() ==> (
                #[trigger] (dispatched(c, aliases, alarm)->Ok_0).jobs[i]).thumbnail == Some(
                    web::thumbnail_address((c.advertise_url->0)@.href, id),
                )
        },
{
    let d = dispatched(c, aliases, alarm)->Ok_0;
    let (id, bytes) = d.snapshot->0;
    let url = Some(web::thumbnail_address((c.advertise_url->0)@.href, id));
    media::stored_is_served_until_expiry(c.thumbnails, id, bytes, at, now);
    let f = |a: Seq<char>| job_of(c, a, url);
    assert forall|i: int| 0 <= i < d.jobs.len() implies (#[trigger] d.jobs[i]).thumbnail == url by {
        assert(aliases.filter_map(f).contains(d.jobs[i]));
        aliases.lemma_filter_map_contains(f, d.jobs[i]);
    }
}

/// The snapshot of a hit is served for its whole time, although an earlier hit with the same event
/// id has its own snapshot evicted meanwhile.
pub proof fn snapshot_outlives_an_earlier_eviction(
    c: ConfigView,
    id: Seq<char>,
    first: Seq<u8>,
    first_at: Instant,
    second: Seq<u8>,
    second_at: Instant,
    evicted: Instant,
    now: Instant,
)
    requires
        evicted.since_start.as_nanos() <= now.since_start.as_nanos(),
        !media::is_expired(second_at, now, media::lifetime()),
    ensures
        ({
            let hit_once = with_snapshot(c, Some((id, first)), first_at);
            let hit_twice = with_snapshot(hit_once, Some((id, second)), second_at);
            let left = media::after_lookup(hit_twice.thumbnails, id, evicted);
            web::thumbnail_response(media::served(left, id, now)) == web::media_response(
                "image/jpeg"@,
                second,
            )
        }),
{
    media::eviction_spares_younger_bytes(
        c.thumbnails,
        id,
        (first_at, first),
        (second_at, second),
        evicted,
        now,
    );
}

/// A hit that is to show a snapshot is refused, with nothing run, where the alarm names no event or
/// holds no good image, whether or not there is an address to serve it from.
pub proof fn snapshot_must_be_good(c: ConfigView, aliases: Seq<Seq<char>>, p: AlarmPayload)
    requires
        web::route_needs_thumbnail(aliases, c.actions),
    ensures
        payload::event_id_of(p.alarm.triggers@) matches Err(e) ==> dispatched(c, aliases, Ok(p))
            == Err::<DispatchView, ResponseView>(web::text_response(400, e)),
        payload::event_id_of(p.alarm.triggers@) is Ok ==> (payload::alarm_image(p.alarm) matches Err(
            e,
        ) ==> dispatched(c, aliases, Ok(p)) == Err::<DispatchView, ResponseView>(
            web::text_response(400, e),
        )),
        payload::event_id_of(p.alarm.triggers@) is Err || payload::alarm_image(p.alarm) is Err
            ==> can_serve(c, aliases, Ok(p)),
{
}

/// A hit whose devices show no snapshot needs none: it is dispatched whatever the alarm holds, and
/// nothing is stored.
pub proof fn snapshot_is_optional(
    c: ConfigView,
    aliases: Seq<Seq<char>>,
    p: AlarmPayload,
    now: Instant,
)
    requires
        !web::route_needs_thumbnail(aliases, c.actions),
    ensures
        dispatched(c, aliases, Ok(p)) matches Ok(d) && d.snapshot is None && with_snapshot(
            c,
            d.snapshot,
            now,
        ) == c,
{
}

/// Only what is configured is an endpoint: a hit on a path of the configuration drives just the
/// devices of that path, and one on any other is answered that there is nothing; but a body that
/// could not be read is answered first.
pub proof fn only_configured_paths_are_endpoints(
    routes: Map<Seq<char>, Seq<Seq<char>>>,
    path: Seq<char>,
    e: Seq<char>,
)
    ensures
        routes.contains_key(path) ==> accepted(routes, path, Ok(())) == Ok::<
            Seq<Seq<char>>,
            ResponseView,
        >(routes[path]),
        !routes.contains_key(path) ==> (accepted(routes, path, Ok(())) matches Err(r) && r.status
            == 404 && r.body == web::BodyView::Text("not found"@)),
        accepted(routes, path, Err(e)) matches Err(r) && r.status == 400 && r.body
            == web::BodyView::Text("body: "@ + e),
{
}

proof fn lemma_jobs(c: ConfigView, aliases: Seq<Seq<char>>, thumbnail: Option<Seq<char>>)
    ensures
        jobs_of(c, aliases, thumbnail).map_values(|j: JobView| j.alias) == aliases.filter(
            |a: Seq<char>|
                c.actions.contains_key(a) && c.actions[a].len() > 0 && c.devices.contains_key(a),
        ),
    decreases aliases.len(),
{
    let name = |j: JobView| j.alias;
    let runs = |a: Seq<char>|
        c.actions.contains_key(a) && c.actions[a].len() > 0 && c.devices.contains_key(a);
    reveal(Seq::filter);
    if aliases.len() > 0 {
        let rest = aliases.drop_last();
        lemma_jobs(c, rest, thumbnail);
        let (jobs, before) = (jobs_of(c, aliases, thumbnail), jobs_of(c, rest, thumbnail));
        if runs(aliases.last()) {
            let last = job_of(c, aliases.last(), thumbnail)->0;
            assert(jobs =~= before + seq![last]);
            assert(jobs.map_values(name) =~= before.map_values(name).push(aliases.last()));
            assert(aliases.filter(runs) == rest.filter(runs).push(aliases.last()));
        } else {
            assert(jobs == before);
            assert(aliases.filter(runs) == rest.filter(runs));
        }
    } else {
        assert(jobs_of(c, aliases, thumbnail).map_values(name) =~= aliases.filter(runs));
    }
}

/// Whenever a hit is dispatched, with a snapshot or without, the devices that run are the devices of
/// the hit that have actions and a known address, all of them, in the order of the hit.
pub proof fn every_device_of_a_hit_runs(
    c: ConfigView,
    aliases: Seq<Seq<char>>,
    alarm: Result<AlarmPayload, Seq<char>>,
)
    ensures
        dispatched(c, aliases, alarm) matches Ok(d) ==> d.jobs.map_values(|j: JobView| j.alias)
            == aliases.filter(
            |a: Seq<char>|
                c.actions.contains_key(a) && c.actions[a].len() > 0 && c.devices.contains_key(a),
        ),
{
    if let Ok(d) = dispatched(c, aliases, alarm) {
        lemma_jobs(c, aliases, None);
        if let Some((id, _)) = d.snapshot {
            lemma_jobs(
                c,
                aliases,
                Some(web::thumbnail_address((c.advertise_url->0)@.href, id)),
            );
        }
    }
}

/// Each run of a hit goes to the address of its device, with all the actions of the device, and
/// plays from the doorbell and the stream of the configuration, whole.
pub proof fn runs_are_those_of_their_devices(
    c: ConfigView,
    aliases: Seq<Seq<char>>,
    alarm: Result<AlarmPayload, Seq<char>>,
    i: int,
)
    requires
        dispatched(c, aliases, alarm) matches Ok(d) && 0 <= i < d.jobs.len(),
    ensures
        ({
            let j = (dispatched(c, aliases, alarm)->Ok_0).jobs[i];
            &&& aliases.contains(j.alias)
            &&& c.devices.contains_key(j.alias) && j.ip == c.devices[j.alias]
            &&& c.actions.contains_key(j.alias) && j.actions == c.actions[j.alias]
            &&& c.doorbell_url matches Some(url) ==> j.doorbell == url
            &&& c.doorbell_url is None ==> j.doorbell.len() == 0
            &&& c.livestream_url matches Some(url) ==> j.livestream == url@.href
            &&& c.livestream_url is None ==> j.livestream.len() == 0
        }),
{
    let d = dispatched(c, aliases, alarm)->Ok_0;
    let thumbnail = match d.snapshot {
        Some((id, _)) => Some(web::thumbnail_address((c.advertise_url->0)@.href, id)),
        None => None,
    };
    let f = |a: Seq<char>| job_of(c, a, thumbnail);
    assert(d.jobs == aliases.filter_map(f));
    assert(aliases.filter_map(f).contains(d.jobs[i]));
    aliases.lemma_filter_map_contains(f, d.jobs[i]);
    let a = choose|a: Seq<char>| #[trigger] aliases.contains(a) && f(a) == Some(d.jobs[i]);
    assert(d.jobs[i].alias == a);
}

/// A hit stores a snapshot just where one of its devices shows it: the image of the alarm, all of it,
/// under the id of the event; and every run is handed the URL that is made of the base URL, without
/// the slashes at its end, `/media/` and that very id. Otherwise no run is handed one.
pub proof fn runs_are_handed_the_url_of_the_stored_snapshot(
    c: ConfigView,
    aliases: Seq<Seq<char>>,
    p: AlarmPayload,
    base: Seq<char>,
    slashes: Seq<char>,
    i: int,
)
    requires
        dispatched(c, aliases, Ok(p)) matches Ok(d) && 0 <= i < d.jobs.len(),
        base.len() > 0 ==> base.last() != '/',
        forall|k: int| 0 <= k < slashes.len() ==> #[trigger] slashes[k] == '/',
    ensures
        ({
            let d = dispatched(c, aliases, Ok(p))->Ok_0;
            &&& d.snapshot is Some <==> web::route_needs_thumbnail(aliases, c.actions)
            &&& d.snapshot is None ==> d.jobs[i].thumbnail is None
            &&& d.snapshot matches Some((id, bytes)) ==> {
                &&& payload::event_id_of(p.alarm.triggers@) == Ok::<Seq<char>, Seq<char>>(id)
                &&& payload::alarm_image(p.alarm) == Ok::<Seq<u8>, Seq<char>>(bytes)
                &&& (c.advertise_url->0)@.href == base + slashes ==> d.jobs[i].thumbnail == Some(
                    base + "/media/"@ + id,
                )
            }
        }),
{
    let d = dispatched(c, aliases, Ok(p))->Ok_0;
    let thumbnail = match d.snapshot {
        Some((id, _)) => Some(web::thumbnail_address((c.advertise_url->0)@.href, id)),
        None => None,
    };
    let f = |a: Seq<char>| job_of(c, a, thumbnail);
    assert(d.jobs == aliases.filter_map(f));
    assert(aliases.filter_map(f).contains(d.jobs[i]));
    aliases.lemma_filter_map_contains(f, d.jobs[i]);
    if let Some((id, _)) = d.snapshot {
        web::snapshot_url_ends_with_the_whole_id(base, slashes, id, id);
    }
}

/// Storing a snapshot puts it under its id as of its time, and changes nothing else.
pub proof fn storing_changes_nothing_else(
    c: ConfigView,
    id: Seq<char>,
    bytes: Seq<u8>,
    now: Instant,
)
    ensures
        ({
            let after = with_snapshot(c, Some((id, bytes)), now);
            &&& after.thumbnails == c.thumbnails.insert(id, (now, bytes))
            &&& after == (ConfigView { thumbnails: after.thumbnails, ..c })
        }),
        with_snapshot(c, None, now) == c,
{
}

/// An alarm that could not be read refuses its hit, with the reason.
pub proof fn unread_alarm_is_refused(c: ConfigView, aliases: Seq<Seq<char>>, e: Seq<char>)
    ensures
        dispatched(c, aliases, Err(e)) matches Err(r) && r.status == 400 && r.body
            == web::BodyView::Text("bad payload: "@ + e),
{
}

/// Every run that failed is reported, in order, with its device, its address and its error, all of
/// them; so is every task that was lost, and no run that succeeded.
pub proof fn every_failure_is_reported(
    first: Seq<Outcome>,
    second: Seq<Outcome>,
    alias: String,
    ip: String,
    e: String,
)
    ensures
        failures_of(first + second) == failures_of(first) + failures_of(second),
        failures_of(seq![Outcome::Finished { alias, ip, result: Ok(()) }]) == Seq::<
            Seq<char>,
        >::empty(),
        failures_of(seq![Outcome::Finished { alias, ip, result: Err(e) }]) == seq![
            alias@ + " ("@ + ip@ + "): "@ + e@,
        ],
        failures_of(seq![Outcome::Lost(e)]) == seq!["task join: "@ + e@],
    decreases second.len(),
{
    let f = |o: Outcome| failure_of(o);
    Seq::lemma_filter_map_singleton(Outcome::Finished { alias, ip, result: Ok(()) }, f);
    Seq::lemma_filter_map_singleton(Outcome::Finished { alias, ip, result: Err(e) }, f);
    Seq::lemma_filter_map_singleton(Outcome::Lost(e), f);
    if second.len() > 0 {
        every_failure_is_reported(first, second.drop_last(), alias, ip, e);
        assert((first + second).drop_last() =~= first + second.drop_last());
        assert(failures_of(first + second) =~= failures_of(first) + failures_of(second));
    } else {
        assert(first + second =~= first);
        assert(failures_of(first + second) =~= failures_of(first) + failures_of(second));
    }
}

/// The response to a hit with failures lists them all, each in quotes, with a comma and a space
/// between one and the next, in brackets.
pub proof fn report_lists_every_failure(
    outcomes: Seq<Outcome>,
    one: Seq<char>,
    items: Seq<Seq<char>>,
)
    ensures
        failures_of(outcomes).len() > 0 ==> concluded(outcomes).status == 500 && concluded(
            outcomes,
        ).body == web::BodyView::Text(
            "errors: "@ + ("["@ + separated(
                failures_of(outcomes).map_values(|t: Seq<char>| quoted(t)),
            ) + "]"@),
        ),
        failures_of(outcomes).len() == 0 ==> concluded(outcomes).status == 200 && concluded(
            outcomes,
        ).body == web::BodyView::Text("ok"@),
        separated(seq![]) == Seq::<char>::empty(),
        separated(seq![one]) == one,
        items.len() > 0 ==> separated(items + seq![one]) == separated(items) + ", "@ + one,
{
    if items.len() > 0 {
        assert((items + seq![one]).drop_last() =~= items);
    }
}

/// The model of a run of a device is what its fields hold.
pub proof fn job_is_its_fields(j: Job)
    ensures
        j@.alias == j.alias@,
        j@.ip == j.ip@,
        j@.actions == j.actions@,
        j@.doorbell == j.doorbell@,
        j@.livestream == j.livestream@,
        j.thumbnail is None ==> j@.thumbnail is None,
        j.thumbnail matches Some(t) ==> j@.thumbnail == Some(t@),
{
}

/// The runs that are dispatched are the ones that were decided on, one by one, and what was stored is
/// named by the id of its event.
pub proof fn dispatch_is_what_was_decided(
    want: DispatchView,
    d: Dispatch,
    before: ConfigView,
    after: ConfigView,
    clock: Clock,
    now: Instant,
)
    requires
        is_dispatch(Ok(want), d, before, after, clock, now),
    ensures
        d.jobs@.len() == want.jobs.len(),
        forall|i: int| 0 <= i < want.jobs.len() ==> (#[trigger] d.jobs@[i])@ == want.jobs[i],
        want.snapshot matches Some((id, bytes)) ==> (d.event_id matches Some(e) && e@ == id)
            && after == (ConfigView {
            thumbnails: before.thumbnails.insert(id, (now, bytes)),
            ..before
        }) && clock.reads(now),
        want.snapshot is None ==> d.event_id is None && after == before,
{
    assert forall|i: int| 0 <= i < want.jobs.len() implies (#[trigger] d.jobs@[i])@
        == want.jobs[i] by {
        assert(job_views(d.jobs@)[i] == d.jobs@[i]@);
    }
}

/// A snapshot is the id and the image, both whole, and is refused by the reason of the one that is
/// missing, the id first; and what came of reading a request or an alarm is taken as it is.
pub proof fn snapshots_take_both(
    id: Seq<char>,
    bytes: Seq<u8>,
    e: Seq<char>,
    image: Result<Seq<u8>, Seq<char>>,
    s: String,
    p: AlarmPayload,
)
    ensures
        image_or_refusal(Ok(id), Ok(bytes)) == Ok::<(Seq<char>, Seq<u8>), ResponseView>((id, bytes)),
        image_or_refusal(Err(e), image) matches Err(r) && r.status == 400 && r.body
            == web::BodyView::Text(e),
        image_or_refusal(Ok(id), Err(e)) matches Err(r) && r.status == 400 && r.body
            == web::BodyView::Text(e),
        body_view(Ok(())) == Ok::<(), Seq<char>>(()),
        body_view(Err(s)) == Err::<(), Seq<char>>(s@),
        alarm_view(Ok(p)) == Ok::<AlarmPayload, Seq<char>>(p),
        alarm_view(Err(s)) == Err::<AlarmPayload, Seq<char>>(s@),
{
}

} // verus!
