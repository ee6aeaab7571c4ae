//! The alarm that the test client sends to an endpoint.
use crate::payload;
use crate::text;
use vstd::prelude::*;
use vstd::string::*;

verus! {

/// A JSON document.
#[derive(Debug)]
pub enum Json {
    Bool(bool),
    Number(u64),
    Text(String),
    List(Vec<Json>),
    Object(Vec<(String, Json)>),
}

/// The model of a [`Json`]. An object holds its members in the order in which they were given.
pub enum JsonView {
    Bool(bool),
    Number(u64),
    Text(Seq<char>),
    List(Seq<JsonView>),
    Object(Seq<(Seq<char>, JsonView)>),
}

impl Json {
    pub open spec fn view(&self) -> JsonView
        decreases self,
    {
        match self {
            Json::Bool(b) => JsonView::Bool(*b),
            Json::Number(n) => JsonView::Number(*n),
            Json::Text(t) => JsonView::Text(t@),
            Json::List(items) => JsonView::List(
                Seq::new(
                    items@.len(),
                    |i: int|
                        if 0 <= i < items@.len() {
                            items@[i].view()
                        } else {
                            arbitrary()
                        },
                ),
            ),
            Json::Object(members) => JsonView::Object(
                Seq::new(
                    members@.len(),
                    |i: int|
                        if 0 <= i < members@.len() {
                            (members@[i].0@, members@[i].1.view())
                        } else {
                            arbitrary()
                        },
                ),
            ),
        }
    }
}

fn words(t: &str) -> (r: Json)
    ensures
        r@ == JsonView::Text(t@),
{
    Json::Text(t.to_owned())
}

fn list(items: Vec<Json>) -> (r: Json)
    ensures
        r@ == JsonView::List(items@.map_values(|j: Json| j@)),
{
    let r = Json::List(items);
    assert(r@->List_0 =~= items@.map_values(|j: Json| j@));
    r
}

fn object(members: Vec<(String, Json)>) -> (r: Json)
    ensures
        r@ == JsonView::Object(members@.map_values(|m: (String, Json)| (m.0@, m.1@))),
{
    let r = Json::Object(members);
    assert(r@->Object_0 =~= members@.map_values(|m: (String, Json)| (m.0@, m.1@)));
    r
}

fn member(key: &str, value: Json) -> (r: (String, Json))
    ensures
        (r.0@, r.1@) == (key@, value@),
{
    (key.to_owned(), value)
}

/// The flags of the test client.
#[derive(Debug)]
pub struct Cli {
    /// The endpoint to send the alarm to.
    pub url: Option<String>,
    /// The id of the event; by default one that is made from the time.
    pub event_id: Option<String>,
    /// The path of a JPEG image to send along; by default a stand-in that is no image is sent.
    pub thumbnail: Option<String>,
    /// The name of the alarm.
    pub name: String,
    /// The key of the trigger.
    pub key: String,
    /// Whether the alarm is printed in place of being sent.
    pub print: bool,
}

/// What the client does with the alarm.
#[derive(Debug, PartialEq, Eq)]
pub enum Delivery {
    Print,
    Post(String),
    Refuse(String),
}

/// Decides what the client does with the alarm.
pub fn delivery(cli: &Cli) -> (r: Delivery)
    ensures
        match r {
            Delivery::Print => cli.print,
            Delivery::Post(url) => !cli.print && cli.url is Some && url@ == (cli.url->0)@,
            Delivery::Refuse(why) => !cli.print && cli.url is None && why@
                == "--url is required (or use --print)"@,
        },
{
    if cli.print {
        return Delivery::Print;
    }
    match &cli.url {
        Some(url) => Delivery::Post(url.clone()),
        None => Delivery::Refuse("--url is required (or use --print)".to_owned()),
    }
}

/// What encoding bytes as base64, with the standard alphabet and padding, gives.
pub uninterp spec fn base64_encoded(bytes: Seq<u8>) -> Seq<char>;

/// Encodes with the `encode` of `base64::engine::general_purpose::STANDARD`, which panics where the
/// encoded text is too long to be held. The result depends on the bytes alone and is named
/// `base64_encoded`. The `decode` of the same engine gives the bytes back.
#[verifier::external_body]
fn encode_base64(bytes: &Vec<u8>) -> (r: String)
    requires
        encodable(bytes@.len()),
    ensures
        r@ == base64_encoded(bytes@),
        (payload::base64_decoded(r@) == Ok::<Seq<u8>, Seq<char>>(bytes@)),
{
    base64::Engine::encode(&base64::engine::general_purpose::STANDARD, bytes)
}

/// Whether bytes of that number have an encoding that can be held: every three bytes, begun or
/// complete, take four characters.
pub open spec fn encodable(len: nat) -> bool {
    len / 3 * 4 + 4 <= isize::MAX
}

/// The bytes that are sent where no image is given.
pub open spec fn stand_in() -> Seq<u8> {
    Seq::new(
        "doorbell-test-thumbnail-not-a-real-jpeg"@.len(),
        |i: int| "doorbell-test-thumbnail-not-a-real-jpeg"@[i] as u8,
    )
}

/// The bytes that are sent as the snapshot.
pub open spec fn snapshot_of(image: Option<Vec<u8>>) -> Seq<u8> {
    match image {
        Some(bytes) => bytes@,
        None => stand_in(),
    }
}

fn stand_in_bytes() -> (r: Vec<u8>)
    ensures
        r@ == stand_in(),
{
    proof {
        reveal_strlit("doorbell-test-thumbnail-not-a-real-jpeg");
    }
    let name = "doorbell-test-thumbnail-not-a-real-jpeg";
    let mut bytes: Vec<u8> = Vec::new();
    let mut i: usize = 0;
    while i < 39
        invariant
            i <= 39,
            name@ == "doorbell-test-thumbnail-not-a-real-jpeg"@,
            name@.len() == 39,
            name.is_ascii(),
            bytes@ == stand_in().take(i as int),
        decreases 39 - i,
    {
        bytes.push(name.get_ascii(i));
        assert(bytes@ =~= stand_in().take(i + 1));
        i += 1;
    }
    assert(bytes@ =~= stand_in());
    bytes
}

/// The data URI of a snapshot that was encoded.
pub fn data_uri(encoded: &str) -> (r: String)
    ensures
        r@ == payload::jpeg_prefix() + encoded@,
{
    "data:image/jpeg;base64,".to_owned().concat(encoded)
}

/// Turns the image that was read, or a stand-in, into a data URI. An endpoint reads the same bytes
/// out of it.
pub fn thumbnail_data_uri(image: Option<Vec<u8>>) -> (r: String)
    requires
        image matches Some(bytes) ==> encodable(bytes@.len()),
    ensures
        r@ == payload::jpeg_prefix() + base64_encoded(snapshot_of(image)),
        payload::data_uri_image(r@) == Ok::<Seq<u8>, Seq<char>>(snapshot_of(image)),
{
    let ghost want = snapshot_of(image);
    let bytes = match image {
        Some(bytes) => bytes,
        None => {
            proof {
                reveal_strlit("doorbell-test-thumbnail-not-a-real-jpeg");
            }
            stand_in_bytes()
        },
    };
    let encoded = encode_base64(&bytes);
    let r = data_uri(encoded.as_str());
    proof {
        let p = payload::jpeg_prefix();
        assert(r@.take(p.len() as int) =~= p);
        assert(r@.skip(p.len() as int) =~= encoded@);
    }
    r
}

/// The id of the event that the client sends.
pub open spec fn sent_id(cli: Cli, ts: u64) -> Seq<char> {
    match cli.event_id {
        Some(id) => id@,
        None => "test-event-"@ + text::decimal(ts as nat),
    }
}

fn id_to_send(cli: &Cli, ts: u64) -> (r: String)
    ensures
        r@ == sent_id(*cli, ts),
{
    match &cli.event_id {
        Some(id) => id.clone(),
        None => "test-event-".to_owned().concat(text::decimal_text(ts).as_str()),
    }
}

/// The source event of the trigger.
pub open spec fn source_event_of(id: Seq<char>, ts: u64) -> JsonView {
    JsonView::Object(
        seq![
            ("camera"@, JsonView::Text("6469c7a103d41003e40003ef"@)),
            ("createdAt"@, JsonView::Text("2026-08-23T15:29:58.076717150Z"@)),
            ("device"@, JsonView::Text("6469c7a103d41003e40003ef"@)),
            ("id"@, JsonView::Text(id)),
            ("locked"@, JsonView::Bool(false)),
            ("modelKey"@, JsonView::Text("event"@)),
            ("score"@, JsonView::Number(0)),
            ("smartDetectTypes"@, JsonView::List(seq![])),
            ("start"@, JsonView::Number(ts)),
            ("type"@, JsonView::Text("ring"@)),
            ("pk"@, JsonView::Text(id)),
            ("_pk"@, JsonView::Text(id)),
        ],
    )
}

fn source_event(id: &str, ts: u64) -> (r: Json)
    ensures
        r@ == source_event_of(id@, ts),
{
    let r = object(
        vec![
            member("camera", words("6469c7a103d41003e40003ef")),
            member("createdAt", words("2026-08-23T15:29:58.076717150Z")),
            member("device", words("6469c7a103d41003e40003ef")),
            member("id", words(id)),
            member("locked", Json::Bool(false)),
            member("modelKey", words("event")),
            member("score", Json::Number(0)),
            member("smartDetectTypes", list(Vec::new())),
            member("start", Json::Number(ts)),
            member("type", words("ring")),
            member("pk", words(id)),
            member("_pk", words(id)),
        ],
    );
    assert(r@->Object_0[7].1->List_0 =~= seq![]);
    assert(r@->Object_0 =~= source_event_of(id@, ts)->Object_0);
    r
}

/// The trigger of the alarm.
pub open spec fn trigger_of(key: Seq<char>, id: Seq<char>, ts: u64) -> JsonView {
    JsonView::Object(
        seq![
            ("key"@, JsonView::Text(key)),
            ("device"@, JsonView::Text("TESTDEVICE"@)),
            ("eventId"@, JsonView::Text(id)),
            ("timestamp"@, JsonView::Number(ts)),
            ("sourceEvent"@, source_event_of(id, ts)),
        ],
    )
}

fn trigger(key: &str, id: &str, ts: u64) -> (r: Json)
    ensures
        r@ == trigger_of(key@, id@, ts),
{
    let r = object(
        vec![
            member("key", words(key)),
            member("device", words("TESTDEVICE")),
            member("eventId", words(id)),
            member("timestamp", Json::Number(ts)),
            member("sourceEvent", source_event(id, ts)),
        ],
    );
    assert(r@->Object_0 =~= trigger_of(key@, id@, ts)->Object_0);
    r
}

/// The source that the alarm is about.
pub open spec fn source_view() -> JsonView {
    JsonView::Object(
        seq![
            ("device"@, JsonView::Text("TESTDEVICE"@)),
            ("type"@, JsonView::Text("include"@)),
        ],
    )
}

fn source() -> (r: Json)
    ensures
        r@ == source_view(),
{
    let r = object(vec![member("device", words("TESTDEVICE")), member("type", words("include"))]);
    assert(r@->Object_0 =~= source_view()->Object_0);
    r
}

/// The condition that the alarm goes by.
pub open spec fn condition_view() -> JsonView {
    JsonView::Object(
        seq![
            (
                "condition"@,
                JsonView::Object(
                    seq![
                        ("type"@, JsonView::Text("is"@)),
                        ("source"@, JsonView::Text("ring"@)),
                    ],
                ),
            ),
        ],
    )
}

fn condition() -> (r: Json)
    ensures
        r@ == condition_view(),
{
    let inner = object(vec![member("type", words("is")), member("source", words("ring"))]);
    assert(inner@->Object_0 =~= (condition_view()->Object_0[0].1)->Object_0);
    let r = object(vec![member("condition", inner)]);
    assert(r@->Object_0 =~= condition_view()->Object_0);
    r
}

/// Where the event is found in the console.
pub open spec fn event_path_of(id: Seq<char>) -> Seq<char> {
    "/protect/events/event/"@ + id
}

/// The alarm.
pub open spec fn alarm_of(
    name: Seq<char>,
    key: Seq<char>,
    id: Seq<char>,
    ts: u64,
    thumb: Seq<char>,
) -> JsonView {
    JsonView::Object(
        seq![
            ("name"@, JsonView::Text(name)),
            ("sources"@, JsonView::List(seq![source_view()])),
            ("conditions"@, JsonView::List(seq![condition_view()])),
            ("triggers"@, JsonView::List(seq![trigger_of(key, id, ts)])),
            ("thumbnail"@, JsonView::Text(thumb)),
            ("eventPath"@, JsonView::Text(event_path_of(id))),
            ("eventLocalLink"@, JsonView::Text("https://192.168.1.1"@ + event_path_of(id))),
        ],
    )
}

fn alarm(name: &str, key: &str, id: &str, ts: u64, thumb: &str) -> (r: Json)
    ensures
        r@ == alarm_of(name@, key@, id@, ts, thumb@),
{
    let event_path = "/protect/events/event/".to_owned().concat(id);
    let link = "https://192.168.1.1".to_owned().concat(event_path.as_str());
    let sources = list(vec![source()]);
    assert(sources@->List_0 =~= seq![source_view()]);
    let conditions = list(vec![condition()]);
    assert(conditions@->List_0 =~= seq![condition_view()]);
    let triggers = list(vec![trigger(key, id, ts)]);
    assert(triggers@->List_0 =~= seq![trigger_of(key@, id@, ts)]);
    let r = object(
        vec![
            member("name", words(name)),
            member("sources", sources),
            member("conditions", conditions),
            member("triggers", triggers),
            member("thumbnail", words(thumb)),
            member("eventPath", words(event_path.as_str())),
            member("eventLocalLink", words(link.as_str())),
        ],
    );
    assert(r@->Object_0 =~= alarm_of(name@, key@, id@, ts, thumb@)->Object_0);
    r
}

/// The document that the client sends, at a time in milliseconds since 1970.
pub open spec fn payload_of(cli: Cli, ts: u64, thumb: Seq<char>) -> JsonView {
    JsonView::Object(
        seq![
            ("alarm"@, alarm_of(cli.name@, cli.key@, sent_id(cli, ts), ts, thumb)),
            ("timestamp"@, JsonView::Number(ts)),
        ],
    )
}

/// Builds the document that the client sends, at a time in milliseconds since 1970, with a data URI
/// for the snapshot.
pub fn build_payload(cli: &Cli, ts: u64, thumb: &str) -> (r: Json)
    ensures
        r@ == payload_of(*cli, ts, thumb@),
{
    let id = id_to_send(cli, ts);
    let r = object(
        vec![
            member("alarm", alarm(cli.name.as_str(), cli.key.as_str(), id.as_str(), ts, thumb)),
            member("timestamp", Json::Number(ts)),
        ],
    );
    assert(r@->Object_0 =~= payload_of(*cli, ts, thumb@)->Object_0);
    r
}

/// The member of an object under a key.
pub open spec fn member_of(j: JsonView, key: Seq<char>) -> Option<JsonView> {
    match j {
        JsonView::Object(members) => first_member(members, key),
        _ => None,
    }
}

/// The first of some members under a key.
pub open spec fn first_member(members: Seq<(Seq<char>, JsonView)>, key: Seq<char>) -> Option<
    JsonView,
>
    decreases members.len(),
{
    if members.len() == 0 {
        None
    } else if members[0].0 == key {
        Some(members[0].1)
    } else {
        first_member(members.skip(1), key)
    }
}

proof fn lemma_first_member(members: Seq<(Seq<char>, JsonView)>, key: Seq<char>, k: int)
    requires
        0 <= k < members.len(),
        members[k].0 == key,
        forall|j: int|
            0 <= j < k ==> (#[trigger] members[j]).0.len() != key.len() || members[j].0[0] != key[0]
                || members[j].0[1] != key[1],
    ensures
        first_member(members, key) == Some(members[k].1),
    decreases k,
{
    if k > 0 {
        assert(members[0].0.len() != key.len() || members[0].0[0] != key[0] || members[0].0[1]
            != key[1]);
        lemma_first_member(members.skip(1), key, k - 1);
    }
}

/// The document that the client sends holds what an endpoint reads: the snapshot that it was given,
/// and one trigger, which names the event by the id that was asked for.
pub proof fn sent_alarm_names_event_and_snapshot(cli: Cli, ts: u64, thumb: Seq<char>)
    ensures
        member_of(payload_of(cli, ts, thumb), "alarm"@) matches Some(alarm) && {
            &&& member_of(alarm, "thumbnail"@) == Some(JsonView::Text(thumb))
            &&& member_of(alarm, "triggers"@) matches Some(JsonView::List(triggers))
            &&& triggers.len() == 1
            &&& member_of(triggers[0], "eventId"@) == Some(JsonView::Text(sent_id(cli, ts)))
        },
{
    reveal_strlit("name");
    reveal_strlit("sources");
    reveal_strlit("conditions");
    reveal_strlit("triggers");
    reveal_strlit("thumbnail");
    reveal_strlit("key");
    reveal_strlit("device");
    reveal_strlit("eventId");
    let id = sent_id(cli, ts);
    let document = payload_of(cli, ts, thumb);
    let alarm = alarm_of(cli.name@, cli.key@, id, ts, thumb);
    let trigger = trigger_of(cli.key@, id, ts);
    lemma_first_member(document->Object_0, "alarm"@, 0);
    lemma_first_member(alarm->Object_0, "triggers"@, 3);
    lemma_first_member(alarm->Object_0, "thumbnail"@, 4);
    lemma_first_member(trigger->Object_0, "eventId"@, 2);
}

/// The event is named as it was asked for, whole, and by the time where it was not.
pub proof fn sent_event_is_the_one_asked_for(cli: Cli, ts: u64)
    ensures
        cli.event_id matches Some(id) ==> sent_id(cli, ts) == id@,
        cli.event_id is None ==> sent_id(cli, ts) == "test-event-"@ + text::decimal(ts as nat),
{
}

/// The document that the client sends has the name and the key it was given, the time in every place
/// where one stands, and the id of the event wherever the event is named, all of them whole.
pub proof fn sent_alarm_says_what_was_asked(cli: Cli, ts: u64, thumb: Seq<char>)
    ensures
        member_of(payload_of(cli, ts, thumb), "timestamp"@) == Some(JsonView::Number(ts)),
        member_of(payload_of(cli, ts, thumb), "alarm"@) matches Some(alarm) && {
            let id = sent_id(cli, ts);
            let path = "/protect/events/event/"@ + id;
            &&& member_of(alarm, "name"@) == Some(JsonView::Text(cli.name@))
            &&& member_of(alarm, "eventPath"@) == Some(JsonView::Text(path))
            &&& member_of(alarm, "eventLocalLink"@) == Some(
                JsonView::Text("https://192.168.1.1"@ + path),
            )
            &&& member_of(alarm, "triggers"@) matches Some(JsonView::List(triggers))
            &&& triggers.len() == 1
            &&& member_of(triggers[0], "key"@) == Some(JsonView::Text(cli.key@))
            &&& member_of(triggers[0], "timestamp"@) == Some(JsonView::Number(ts))
            &&& member_of(triggers[0], "sourceEvent"@) matches Some(event)
            &&& member_of(event, "id"@) == Some(JsonView::Text(id))
            &&& member_of(event, "pk"@) == Some(JsonView::Text(id))
            &&& member_of(event, "_pk"@) == Some(JsonView::Text(id))
            &&& member_of(event, "start"@) == Some(JsonView::Number(ts))
        },
{
    let id = sent_id(cli, ts);
    let document = (payload_of(cli, ts, thumb))->Object_0;
    lemma_first_member(document, "alarm"@, 0);
    assert("alarm"@.len() != "timestamp"@.len()) by {
        reveal_strlit("alarm");
        reveal_strlit("timestamp");
    }
    lemma_first_member(document, "timestamp"@, 1);
    lemma_alarm_members(cli.name@, cli.key@, id, ts, thumb);
    lemma_trigger_members(cli.key@, id, ts);
    lemma_event_members(id, ts);
}

proof fn lemma_alarm_members(
    name: Seq<char>,
    key: Seq<char>,
    id: Seq<char>,
    ts: u64,
    thumb: Seq<char>,
)
    ensures
        ({
            let alarm = alarm_of(name, key, id, ts, thumb);
            &&& member_of(alarm, "name"@) == Some(JsonView::Text(name))
            &&& member_of(alarm, "triggers"@) == Some(
                JsonView::List(seq![trigger_of(key, id, ts)]),
            )
            &&& member_of(alarm, "eventPath"@) == Some(
                JsonView::Text("/protect/events/event/"@ + id),
            )
            &&& member_of(alarm, "eventLocalLink"@) == Some(
                JsonView::Text("https://192.168.1.1"@ + ("/protect/events/event/"@ + id)),
            )
        }),
{
    reveal_strlit("name");
    reveal_strlit("sources");
    reveal_strlit("conditions");
    reveal_strlit("triggers");
    reveal_strlit("thumbnail");
    reveal_strlit("eventPath");
    reveal_strlit("eventLocalLink");
    let alarm = (alarm_of(name, key, id, ts, thumb))->Object_0;
    assert("thumbnail"@[0] == 't' && "eventPath"@[0] == 'e');
    lemma_first_member(alarm, "name"@, 0);
    lemma_first_member(alarm, "triggers"@, 3);
    lemma_first_member(alarm, "eventPath"@, 5);
    lemma_first_member(alarm, "eventLocalLink"@, 6);
}

proof fn lemma_trigger_members(key: Seq<char>, id: Seq<char>, ts: u64)
    ensures
        ({
            let trigger = trigger_of(key, id, ts);
            &&& member_of(trigger, "key"@) == Some(JsonView::Text(key))
            &&& member_of(trigger, "timestamp"@) == Some(JsonView::Number(ts))
            &&& member_of(trigger, "sourceEvent"@) == Some(source_event_of(id, ts))
        }),
{
    reveal_strlit("key");
    reveal_strlit("device");
    reveal_strlit("eventId");
    reveal_strlit("timestamp");
    reveal_strlit("sourceEvent");
    let trigger = (trigger_of(key, id, ts))->Object_0;
    lemma_first_member(trigger, "key"@, 0);
    lemma_first_member(trigger, "timestamp"@, 3);
    lemma_first_member(trigger, "sourceEvent"@, 4);
}

proof fn lemma_event_members(id: Seq<char>, ts: u64)
    ensures
        ({
            let event = source_event_of(id, ts);
            &&& member_of(event, "id"@) == Some(JsonView::Text(id))
            &&& member_of(event, "pk"@) == Some(JsonView::Text(id))
            &&& member_of(event, "_pk"@) == Some(JsonView::Text(id))
            &&& member_of(event, "start"@) == Some(JsonView::Number(ts))
        }),
{
    reveal_strlit("camera");
    reveal_strlit("createdAt");
    reveal_strlit("device");
    reveal_strlit("id");
    reveal_strlit("locked");
    reveal_strlit("modelKey");
    reveal_strlit("score");
    reveal_strlit("smartDetectTypes");
    reveal_strlit("start");
    reveal_strlit("type");
    reveal_strlit("pk");
    reveal_strlit("_pk");
    let event = (source_event_of(id, ts))->Object_0;
    assert("score"@[1] == 'c' && "start"@[1] == 't' && "id"@[0] == 'i' && "pk"@[0] == 'p');
    lemma_first_member(event, "id"@, 3);
    lemma_first_member(event, "start"@, 8);
    lemma_first_member(event, "pk"@, 10);
    lemma_first_member(event, "_pk"@, 11);
}

/// The bytes that are sent are those of the image that was given, all of them.
pub proof fn sent_bytes_are_those_of_the_image(bytes: Vec<u8>)
    ensures
        snapshot_of(Some(bytes)) == bytes@,
{
}

/// The model of a document is what it holds: each text and number as it is, and each item and member
/// in its place.
pub proof fn document_is_what_it_holds(
    b: bool,
    n: u64,
    t: String,
    items: Vec<Json>,
    members: Vec<(String, Json)>,
    i: int,
)
    requires
        0 <= i < items@.len(),
        0 <= i < members@.len(),
    ensures
        Json::Bool(b)@ == JsonView::Bool(b),
        Json::Number(n)@ == JsonView::Number(n),
        Json::Text(t)@ == JsonView::Text(t@),
        Json::List(items)@ matches JsonView::List(s) && s.len() == items@.len() && s[i]
            == items@[i]@,
        Json::Object(members)@ matches JsonView::Object(s) && s.len() == members@.len() && s[i] == (
            members@[i].0@,
            members@[i].1@,
        ),
{
}

} // verus!
