//! The alarm that a hit on an endpoint brings, and the snapshot in it.
use crate::text;
use vstd::prelude::*;
use vstd::string::*;

verus! {

/// The body of a webhook request.
#[derive(Debug)]
pub struct AlarmPayload {
    pub alarm: Alarm,
}

#[derive(Debug)]
pub struct Alarm {
    /// A snapshot as a data URI. Some kinds of events have none.
    pub thumbnail: Option<String>,
    pub triggers: Vec<Trigger>,
}

#[derive(Debug)]
pub struct Trigger {
    pub event_id: Option<String>,
    pub source_event: Option<SourceEvent>,
}

#[derive(Debug)]
pub struct SourceEvent {
    pub id: Option<String>,
}

/// The id of an event: that of the first trigger, else that of its source event.
pub open spec fn event_id_of(triggers: Seq<Trigger>) -> Result<Seq<char>, Seq<char>> {
    if triggers.len() == 0 {
        Err("payload has no triggers"@)
    } else {
        match (triggers[0].event_id, triggers[0].source_event) {
            (Some(id), _) => Ok(id@),
            (None, Some(SourceEvent { id: Some(id) })) => Ok(id@),
            _ => Err("trigger has no event id"@),
        }
    }
}

/// Resolves the event id from the triggers.
pub fn resolve_event_id(triggers: &[Trigger]) -> (r: Result<String, String>)
    ensures
        text::text_result(r) == event_id_of(triggers@),
{
    if triggers.len() == 0 {
        return Err("payload has no triggers".to_owned());
    }
    let t = &triggers[0];
    if let Some(id) = &t.event_id {
        return Ok(id.clone());
    }
    if let Some(se) = &t.source_event {
        if let Some(id) = &se.id {
            return Ok(id.clone());
        }
    }
    Err("trigger has no event id".to_owned())
}

/// How the data URI of a JPEG image starts.
pub open spec fn jpeg_prefix() -> Seq<char> {
    "data:image/jpeg;base64,"@
}

/// What decoding `s` as base64, with the standard alphabet and canonical padding, gives: the bytes,
/// or the text of the decoder's error.
pub uninterp spec fn base64_decoded(s: Seq<char>) -> Result<Seq<u8>, Seq<char>>;

/// Decodes with the `decode` of `base64::engine::general_purpose::STANDARD`. The result depends on
/// the text alone and is named `base64_decoded`; nothing more is claimed.
#[verifier::external_body]
fn decode_base64(s: &str) -> (r: Result<Vec<u8>, String>)
    ensures
        text::bytes_result(r) == base64_decoded(s@),
{
    base64::Engine::decode(&base64::engine::general_purpose::STANDARD, s).map_err(|e| e.to_string())
}

/// The image in a data URI, once what follows the prefix was decoded.
pub open spec fn image_of(decoded: Result<Seq<u8>, Seq<char>>) -> Result<Seq<u8>, Seq<char>> {
    match decoded {
        Ok(b) => Ok(b),
        Err(e) => Err("base64 decode: "@ + e),
    }
}

/// The image in a data URI.
pub open spec fn data_uri_image(uri: Seq<char>) -> Result<Seq<u8>, Seq<char>> {
    match text::after_prefix(uri, jpeg_prefix()) {
        Some(b64) => image_of(base64_decoded(b64)),
        None => Err("thumbnail is not a 'data:image/jpeg;base64,...' data uri"@),
    }
}

/// The image in a data URI, once what follows the prefix was decoded.
pub fn decoded_image(decoded: Result<Vec<u8>, String>) -> (r: Result<Vec<u8>, String>)
    ensures
        text::bytes_result(r) == image_of(text::bytes_result(decoded)),
{
    match decoded {
        Ok(b) => Ok(b),
        Err(e) => Err("base64 decode: ".to_owned().concat(e.as_str())),
    }
}

/// Decodes a `data:image/jpeg;base64,...` URI into the bytes of the image.
pub fn parse_data_uri(uri: &str) -> (r: Result<Vec<u8>, String>)
    ensures
        text::bytes_result(r) == data_uri_image(uri@),
{
    match text::strip_prefix(uri, "data:image/jpeg;base64,") {
        Some(b64) => decoded_image(decode_base64(b64)),
        None => Err("thumbnail is not a 'data:image/jpeg;base64,...' data uri".to_owned()),
    }
}

/// The image in an alarm.
pub open spec fn alarm_image(alarm: Alarm) -> Result<Seq<u8>, Seq<char>> {
    match alarm.thumbnail {
        Some(uri) => data_uri_image(uri@),
        None => Err("payload has no alarm.thumbnail"@),
    }
}

impl AlarmPayload {
    /// The id of the event.
    pub fn event_id(&self) -> (r: Result<String, String>)
        ensures
            text::text_result(r) == event_id_of(self.alarm.triggers@),
    {
        resolve_event_id(self.alarm.triggers.as_slice())
    }

    /// The bytes of the snapshot.
    pub fn image_bytes(&self) -> (r: Result<Vec<u8>, String>)
        ensures
            text::bytes_result(r) == alarm_image(self.alarm),
    {
        match &self.alarm.thumbnail {
            Some(uri) => parse_data_uri(uri.as_str()),
            None => Err("payload has no alarm.thumbnail".to_owned()),
        }
    }
}

/// The event is that of the first trigger, by its own id, else by that of its source event; without
/// one, the alarm names no event. Further triggers do not count.
pub proof fn first_trigger_names_the_event(t: Trigger, more: Seq<Trigger>)
    ensures
        event_id_of(seq![t] + more) == event_id_of(seq![t]),
        t.event_id matches Some(id) ==> event_id_of(seq![t]) == Ok::<Seq<char>, Seq<char>>(id@),
        t.event_id is None ==> (t.source_event matches Some(se) ==> (se.id matches Some(id)
            ==> event_id_of(seq![t]) == Ok::<Seq<char>, Seq<char>>(id@))),
        t.event_id is None && (t.source_event is None || (t.source_event->0).id is None)
            ==> event_id_of(seq![t]) == Err::<Seq<char>, Seq<char>>("trigger has no event id"@),
        event_id_of(seq![]) == Err::<Seq<char>, Seq<char>>("payload has no triggers"@),
{
    assert((seq![t] + more)[0] == t);
}

/// The image of an alarm is what the text behind the prefix of its data URI decodes to, all of it;
/// another URI, and no URI, hold none.
pub proof fn image_is_what_the_uri_encodes(alarm: Alarm, encoded: Seq<char>)
    ensures
        data_uri_image("data:image/jpeg;base64,"@ + encoded) == match base64_decoded(encoded) {
            Ok(bytes) => Ok::<Seq<u8>, Seq<char>>(bytes),
            Err(e) => Err("base64 decode: "@ + e),
        },
        alarm.thumbnail matches Some(uri) ==> alarm_image(alarm) == data_uri_image(uri@),
        alarm.thumbnail is None ==> alarm_image(alarm) == Err::<Seq<u8>, Seq<char>>(
            "payload has no alarm.thumbnail"@,
        ),
        data_uri_image(encoded) is Ok ==> exists|rest: Seq<char>|
            encoded == #[trigger] ("data:image/jpeg;base64,"@ + rest) && base64_decoded(rest)
                == data_uri_image(encoded),
{
    text::affixes_come_off_whole("data:image/jpeg;base64,"@, encoded);
    text::affixes_come_off_whole(encoded, "data:image/jpeg;base64,"@);
}

} // verus!
