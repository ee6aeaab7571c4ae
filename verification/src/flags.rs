//! The values of the command line flags: durations, actions, endpoints and devices.
use crate::address;
use crate::address::{Ip, IpView};
use crate::registry::Registry;
use crate::text;
use crate::time::Duration;
use vstd::prelude::*;
use vstd::string::*;

verus! {

/// One step of what a device does when its endpoint is hit.
#[derive(Clone, Copy, Debug, PartialEq, Eq, Hash, Structural)]
pub enum Action {
    /// Play the doorbell sound.
    Doorbell,
    /// Show the snapshot until something replaces it.
    Thumbnail,
    /// Show the snapshot and clear it after the given time.
    TimedThumbnail(Duration),
    /// Play the live stream.
    Livestream,
    /// Wait before the next step.
    Sleep(Duration),
    /// Go back to what was playing before. Only valid as the last action of a device.
    Resume,
}

/// The result of a parse, with its texts as sequences of characters.
pub type Parsed<T> = Result<T, Seq<char>>;

/// What a human duration writes: `<n>ms` or `<n>s`, with white space around it.
pub open spec fn duration_of(given: Seq<char>) -> Parsed<Duration> {
    let s = text::trimmed(given);
    let bad = "bad sleep duration '"@ + s + "', want <n>ms or <n>s"@;
    match text::before_suffix(s, "ms"@) {
        Some(n) => match text::unsigned_number(n) {
            Some(k) => Ok(Duration { secs: k / 1000, nanos: ((k % 1000) * 1_000_000) as u32 }),
            None => Err(bad),
        },
        None => match text::before_suffix(s, "s"@) {
            Some(n) => match text::unsigned_number(n) {
                Some(k) => Ok(Duration { secs: k, nanos: 0 }),
                None => Err(bad),
            },
            None => Err(bad),
        },
    }
}

/// Whether `r` is the result `p`, text for text.
pub open spec fn same_result<T>(r: Result<T, String>, p: Parsed<T>) -> bool {
    match (r, p) {
        (Ok(a), Ok(b)) => a == b,
        (Err(e), Err(f)) => e@ == f,
        _ => false,
    }
}

/// Parses a human duration `<n>s` or `<n>ms`.
pub fn parse_duration(given: &str) -> (r: Result<Duration, String>)
    ensures
        same_result(r, duration_of(given@)),
{
    let s = text::trim(given);
    if let Some(n) = text::strip_suffix(s, "ms") {
        return match text::parse_u64(n) {
            Some(k) => Ok(Duration::from_millis(k)),
            None => Err(text::join3("bad sleep duration '", s, "', want <n>ms or <n>s")),
        };
    }
    if let Some(n) = text::strip_suffix(s, "s") {
        return match text::parse_u64(n) {
            Some(k) => Ok(Duration::from_secs(k)),
            None => Err(text::join3("bad sleep duration '", s, "', want <n>ms or <n>s")),
        };
    }
    Err(text::join3("bad sleep duration '", s, "', want <n>ms or <n>s"))
}

/// The action that a kind names.
pub open spec fn action_of(given: Seq<char>) -> Parsed<Action> {
    let s = text::trimmed(given);
    if text::after_prefix(s, "sleep:"@) is Some {
        match duration_of(text::after_prefix(s, "sleep:"@)->0) {
            Ok(d) => Ok(Action::Sleep(d)),
            Err(e) => Err(e),
        }
    } else if text::after_prefix(s, "thumbnail:"@) is Some {
        match duration_of(text::after_prefix(s, "thumbnail:"@)->0) {
            Ok(d) => Ok(Action::TimedThumbnail(d)),
            Err(e) => Err(e),
        }
    } else if s == "doorbell"@ {
        Ok(Action::Doorbell)
    } else if s == "thumbnail"@ {
        Ok(Action::Thumbnail)
    } else if s == "livestream"@ {
        Ok(Action::Livestream)
    } else if s == "resume"@ {
        Ok(Action::Resume)
    } else {
        Err("unknown action '"@ + s + "'"@)
    }
}

/// Parses an action kind: `doorbell`, `thumbnail`, `livestream` or `resume`, or `sleep:<dur>` or
/// `thumbnail:<dur>`.
pub fn parse_action_kind(given: &str) -> (r: Result<Action, String>)
    ensures
        same_result(r, action_of(given@)),
{
    let s = text::trim(given);
    if let Some(rest) = text::strip_prefix(s, "sleep:") {
        return match parse_duration(rest) {
            Ok(d) => Ok(Action::Sleep(d)),
            Err(e) => Err(e),
        };
    }
    if let Some(rest) = text::strip_prefix(s, "thumbnail:") {
        return match parse_duration(rest) {
            Ok(d) => Ok(Action::TimedThumbnail(d)),
            Err(e) => Err(e),
        };
    }
    if text::same_text(s, "doorbell") {
        Ok(Action::Doorbell)
    } else if text::same_text(s, "thumbnail") {
        Ok(Action::Thumbnail)
    } else if text::same_text(s, "livestream") {
        Ok(Action::Livestream)
    } else if text::same_text(s, "resume") {
        Ok(Action::Resume)
    } else {
        Err(text::join3("unknown action '", s, "'"))
    }
}

/// An alias and the action given for it.
pub type AliasAction = (Seq<char>, Action);

/// What `<alias>:<kind>` says, where `known` are the aliases of the devices.
pub open spec fn alias_action_of(s: Seq<char>, known: Set<Seq<char>>) -> Parsed<AliasAction> {
    match text::split_once(s, ':') {
        None => Err("bad --action '"@ + s + "', want alias:action"@),
        Some((alias, kind)) => if !known.contains(alias) {
            Err("action references unknown device '"@ + alias + "'"@)
        } else {
            match action_of(kind) {
                Ok(a) => Ok((alias, a)),
                Err(e) => Err(e),
            }
        },
    }
}

/// Parses `<alias>:<kind>`, with the alias one of the devices.
pub fn parse_action(s: &str, devices: &Registry<String>) -> (r: Result<(String, Action), String>)
    ensures
        match r {
            Ok((alias, action)) => alias_action_of(s@, devices@.dom()) == Ok::<AliasAction, Seq<char>>(
                (alias@, action),
            ),
            Err(e) => alias_action_of(s@, devices@.dom()) == Err::<AliasAction, Seq<char>>(e@),
        },
{
    let (alias, kind) = match split(s) {
        Some(p) => p,
        None => {
            return Err(text::join3("bad --action '", s, "', want alias:action"));
        },
    };
    if !devices.contains_key(alias) {
        return Err(text::join3("action references unknown device '", alias, "'"));
    }
    match parse_action_kind(kind) {
        Ok(a) => Ok((alias.to_owned(), a)),
        Err(e) => Err(e),
    }
}

/// Cuts a flag's value at its first colon.
fn split<'a>(s: &'a str) -> (r: Option<(&'a str, &'a str)>)
    ensures
        match r {
            Some((a, b)) => text::split_once(s@, ':') == Some((a@, b@)),
            None => text::split_once(s@, ':') is None,
        },
{
    text::cut_once(s, ':')
}

/// The least length of an endpoint path, in characters.
pub const MIN_PATH_CHARS: usize = 8;

/// The aliases in a list with commas: white space around an alias does not count, and neither do
/// empty items.
pub open spec fn alias_list(s: Seq<char>) -> Seq<Seq<char>> {
    text::split_all(s, ',').map_values(|a: Seq<char>| text::trimmed(a)).filter(
        |a: Seq<char>| a.len() > 0,
    )
}

/// The first of `aliases` that is not in `known`.
pub open spec fn first_unknown(aliases: Seq<Seq<char>>, known: Set<Seq<char>>) -> Option<Seq<char>>
    decreases aliases.len(),
{
    if aliases.len() == 0 {
        None
    } else if !known.contains(aliases[0]) {
        Some(aliases[0])
    } else {
        first_unknown(aliases.skip(1), known)
    }
}

/// A path and the aliases that it drives.
pub type PathAliases = (Seq<char>, Seq<Seq<char>>);

/// What `<path>:<alias,alias>` says, where `known` are the aliases of the devices.
pub open spec fn endpoint_of(s: Seq<char>, known: Set<Seq<char>>) -> Parsed<PathAliases> {
    match text::split_once(s, ':') {
        None => Err("bad --endpoint '"@ + s + "', want path:aliases"@),
        Some((path, list)) => {
            let aliases = alias_list(list);
            if path.len() < MIN_PATH_CHARS {
                Err("endpoint path '"@ + path + "' must be >= 8 chars"@)
            } else if aliases.len() == 0 {
                Err("endpoint '"@ + path + "' has no devices"@)
            } else {
                match first_unknown(aliases, known) {
                    Some(a) => Err(
                        "endpoint '"@ + path + "' references unknown device '"@ + a + "'"@,
                    ),
                    None => Ok((path, aliases)),
                }
            }
        },
    }
}

fn parse_alias_list(s: &str) -> (r: Vec<String>)
    ensures
        text::texts(r@) == alias_list(s@),
{
    let pieces = text::cut_all(s, ',');
    let ghost all = text::split_all(s@, ',').map_values(|a: Seq<char>| text::trimmed(a));
    let ghost keep = |a: Seq<char>| a.len() > 0;
    let mut out: Vec<String> = Vec::new();
    let mut i: usize = 0;
    assert(text::texts(out@) =~= all.take(0).filter(keep)) by {
        reveal(Seq::filter);
    }
    while i < pieces.len()
        invariant
            i <= pieces.len(),
            text::texts(pieces@) == text::split_all(s@, ','),
            all == text::split_all(s@, ',').map_values(|a: Seq<char>| text::trimmed(a)),
            keep == (|a: Seq<char>| a.len() > 0),
            text::texts(out@) == all.take(i as int).filter(keep),
        decreases pieces.len() - i,
    {
        let a = text::trim(pieces[i].as_str());
        let ghost before = out@;
        proof {
            assert(text::texts(pieces@)[i as int] == pieces@[i as int]@);
            assert(all[i as int] == a@);
            assert(all.take(i + 1).drop_last() =~= all.take(i as int));
            assert(all.take(i + 1).last() == a@);
            reveal(Seq::filter);
        }
        if !a.is_empty() {
            out.push(a.to_owned());
            assert(text::texts(out@) =~= text::texts(before).push(a@));
        }
        i += 1;
    }
    assert(all.take(all.len() as int) =~= all);
    out
}

/// Parses `<path>:<alias,alias>`, with every alias one of the devices.
pub fn parse_endpoint(s: &str, devices: &Registry<String>) -> (r: Result<
    (String, Vec<String>),
    String,
>)
    ensures
        match r {
            Ok((path, aliases)) => endpoint_of(s@, devices@.dom()) == Ok::<PathAliases, Seq<char>>(
                (path@, text::texts(aliases@)),
            ),
            Err(e) => endpoint_of(s@, devices@.dom()) == Err::<PathAliases, Seq<char>>(e@),
        },
{
    let (path, list) = match split(s) {
        Some(p) => p,
        None => {
            return Err(text::join3("bad --endpoint '", s, "', want path:aliases"));
        },
    };
    if path.unicode_len() < MIN_PATH_CHARS {
        return Err(text::join3("endpoint path '", path, "' must be >= 8 chars"));
    }
    let aliases = parse_alias_list(list);
    let ghost names = text::texts(aliases@);
    if aliases.len() == 0 {
        return Err(text::join3("endpoint '", path, "' has no devices"));
    }
    let mut i: usize = 0;
    assert(names.skip(0) =~= names);
    while i < aliases.len()
        invariant
            i <= aliases.len(),
            aliases.len() > 0,
            names == text::texts(aliases@),
            names == alias_list(list@),
            path@.len() >= MIN_PATH_CHARS,
            text::split_once(s@, ':') == Some((path@, list@)),
            first_unknown(names, devices@.dom()) == first_unknown(
                names.skip(i as int),
                devices@.dom(),
            ),
        decreases aliases.len() - i,
    {
        let a = aliases[i].as_str();
        assert(names.skip(i as int)[0] == a@);
        if !devices.contains_key(a) {
            return Err(
                text::join5("endpoint '", path, "' references unknown device '", a, "'"),
            );
        }
        assert(names.skip(i as int).skip(1) =~= names.skip(i + 1));
        i += 1;
    }
    Ok((path.to_owned(), aliases))
}

/// An alias and the address of its device.
pub type AliasIp = (Seq<char>, Seq<char>);

/// The device that the flag value `s` gives, once it was cut into `alias` and `ip`, and `ip` was
/// read as `address`.
pub open spec fn device_entry_of(
    s: Seq<char>,
    alias: Seq<char>,
    ip: Seq<char>,
    address: Option<IpView>,
) -> Parsed<AliasIp> {
    match address {
        Some(a) => Ok((alias, address::ip_text(a))),
        None => Err("bad ip '"@ + ip + "' in --device '"@ + s + "'"@),
    }
}

/// What `<alias>:<ip>` says.
pub open spec fn device_of(s: Seq<char>) -> Parsed<AliasIp> {
    match text::split_once(s, ':') {
        None => Err("bad --device '"@ + s + "', want alias:ip"@),
        Some((alias, ip)) => device_entry_of(s, alias, ip, address::ip_of(ip)),
    }
}

/// The device that the flag value `s` gives, once it was cut into `alias` and `ip`, and `ip` was
/// read as `address`.
pub fn device_entry(s: &str, alias: &str, ip: &str, address: Option<Ip>) -> (r: Result<
    (String, String),
    String,
>)
    ensures
        match r {
            Ok((a, i)) => device_entry_of(s@, alias@, ip@, address::ip_option(address)) == Ok::<
                AliasIp,
                Seq<char>,
            >((a@, i@)),
            Err(e) => device_entry_of(s@, alias@, ip@, address::ip_option(address)) == Err::<
                AliasIp,
                Seq<char>,
            >(e@),
        },
{
    match address {
        Some(a) => Ok((alias.to_owned(), address::write_ip(&a))),
        None => Err(text::join5("bad ip '", ip, "' in --device '", s, "'")),
    }
}

/// Parses `<alias>:<ip>` into the alias and the canonical text of the address.
pub fn parse_device(s: &str) -> (r: Result<(String, String), String>)
    ensures
        match r {
            Ok((alias, ip)) => device_of(s@) == Ok::<AliasIp, Seq<char>>((alias@, ip@)),
            Err(e) => device_of(s@) == Err::<AliasIp, Seq<char>>(e@),
        },
{
    let (alias, ip) = match split(s) {
        Some(p) => p,
        None => {
            return Err(text::join3("bad --device '", s, "', want alias:ip"));
        },
    };
    device_entry(s, alias, ip, address::read_ip(ip))
}

/// Whether a text is nothing but white space.
pub open spec fn is_blank(s: Seq<char>) -> bool {
    forall|i: int| 0 <= i < s.len() ==> text::is_white_space(#[trigger] s[i])
}

/// Whether a text has neither white space at its ends nor nothing in it.
pub open spec fn is_bare(s: Seq<char>) -> bool {
    s.len() > 0 && !text::is_white_space(s[0]) && !text::is_white_space(s.last())
}

proof fn lemma_number_is_bare(n: nat)
    ensures
        text::decimal(n).len() > 0,
        forall|i: int|
            0 <= i < text::decimal(n).len() ==> '0' <= #[trigger] text::decimal(n)[i] <= '9',
    decreases n,
{
    if n >= 10 {
        lemma_number_is_bare(n / 10);
    }
}

proof fn lemma_written_times(n: nat)
    ensures
        is_bare(text::decimal(n) + "s"@),
        is_bare(text::decimal(n) + "ms"@),
        text::before_suffix(text::decimal(n) + "s"@, "ms"@) is None,
        text::before_suffix(text::decimal(n) + "s"@, "s"@) == Some(text::decimal(n)),
        text::before_suffix(text::decimal(n) + "ms"@, "ms"@) == Some(text::decimal(n)),
{
    reveal_strlit("s");
    reveal_strlit("ms");
    let k = text::decimal(n);
    let (secs, millis) = (k + "s"@, k + "ms"@);
    lemma_number_is_bare(n);
    assert('0' <= k[0] <= '9');
    assert('0' <= k[k.len() - 1] <= '9');
    assert(!text::is_white_space(k[0]));
    assert(!text::is_white_space('s'));
    assert(secs[0] == k[0] && millis[0] == k[0]);
    assert("s"@[0] == 's' && "ms"@[0] == 'm' && "ms"@[1] == 's');
    assert(secs.last() == 's' && millis.last() == 's');
    text::affixes_come_off_whole(k, "s"@);
    text::affixes_come_off_whole(k, "ms"@);
    if "ms"@.is_suffix_of(secs) {
        assert(secs[secs.len() - 2] == k[k.len() - 1]);
        assert(secs.subrange(secs.len() - 2, secs.len() as int)[0] == 'm');
    }
}

/// A number of seconds, or of milliseconds, that fits 64 bits is read as just that time, whatever
/// white space stands around it.
pub proof fn written_durations_are_read(n: nat, front: Seq<char>, back: Seq<char>)
    requires
        n <= u64::MAX,
        is_blank(front),
        is_blank(back),
    ensures
        duration_of(front + (text::decimal(n) + "s"@) + back) matches Ok(d) && d.nanos
            < 1_000_000_000 && d.secs * 1_000_000_000 + d.nanos == n * 1_000_000_000,
        duration_of(front + (text::decimal(n) + "ms"@) + back) matches Ok(d) && d.nanos
            < 1_000_000_000 && d.secs * 1_000_000_000 + d.nanos == n * 1_000_000,
{
    lemma_written_times(n);
    text::trimming_takes_the_white_space_around(front, text::decimal(n) + "s"@, back);
    text::trimming_takes_the_white_space_around(front, text::decimal(n) + "ms"@, back);
    text::written_numbers_are_read_back(n);
}

/// A time is refused where its number does not fit 64 bits, and nothing is read as a time but a
/// number with one of the two units; the complaint names what was given.
pub proof fn other_durations_are_refused(n: nat, s: Seq<char>)
    ensures
        n > u64::MAX ==> duration_of(text::decimal(n) + "s"@) is Err,
        n > u64::MAX ==> duration_of(text::decimal(n) + "ms"@) is Err,
        duration_of(s) is Ok ==> exists|k: Seq<char>|
            (text::unsigned_number(k) is Some) && (text::trimmed(s) == #[trigger] (k + "s"@)
                || text::trimmed(s) == k + "ms"@),
        duration_of(s) matches Err(e) ==> e == "bad sleep duration '"@ + text::trimmed(s)
            + "', want <n>ms or <n>s"@,
{
    let t = text::trimmed(s);
    text::affixes_come_off_whole(t, "s"@);
    text::affixes_come_off_whole(t, "ms"@);
    if duration_of(s) is Ok {
        if let Some(k) = text::before_suffix(t, "ms"@) {
            assert(t == k + "ms"@);
            assert((k + "s"@).len() > k.len()) by {
                reveal_strlit("s");
            }
        } else {
            let k = text::before_suffix(t, "s"@)->0;
            assert(t == k + "s"@);
        }
    }
    if n > u64::MAX {
        let k = text::decimal(n);
        let none = Seq::<char>::empty();
        lemma_written_times(n);
        assert(none + (k + "s"@) + none =~= k + "s"@);
        assert(none + (k + "ms"@) + none =~= k + "ms"@);
        text::trimming_takes_the_white_space_around(none, k + "s"@, none);
        text::trimming_takes_the_white_space_around(none, k + "ms"@, none);
        text::written_numbers_are_read_back(n);
    }
}

proof fn lemma_timed_action(front: Seq<char>, time: Seq<char>, back: Seq<char>)
    requires
        is_blank(front),
        is_blank(back),
        is_bare(time),
    ensures
        action_of(front + ("thumbnail:"@ + time) + back) == match duration_of(time) {
            Ok(d) => Ok::<Action, Seq<char>>(Action::TimedThumbnail(d)),
            Err(e) => Err(e),
        },
        action_of(front + ("sleep:"@ + time) + back) == match duration_of(time) {
            Ok(d) => Ok::<Action, Seq<char>>(Action::Sleep(d)),
            Err(e) => Err(e),
        },
{
    reveal_strlit("thumbnail:");
    reveal_strlit("sleep:");
    let shown = "thumbnail:"@ + time;
    let slept = "sleep:"@ + time;
    assert(shown[0] == 't' && slept[0] == 's');
    assert(shown.last() == time.last() && slept.last() == time.last());
    text::trimming_takes_the_white_space_around(front, shown, back);
    text::trimming_takes_the_white_space_around(front, slept, back);
    text::affixes_come_off_whole("thumbnail:"@, time);
    text::affixes_come_off_whole("sleep:"@, time);
    assert("sleep:"@[0] == 's');
    assert(text::after_prefix(shown, "sleep:"@) is None);
}

/// `thumbnail:` with a number of seconds, or of milliseconds, is the image shown for just that
/// time, and `sleep:` with one is a wait of just that time.
pub proof fn timed_actions_take_their_time(n: nat, front: Seq<char>, back: Seq<char>)
    requires
        n <= u64::MAX,
        is_blank(front),
        is_blank(back),
    ensures
        action_of(front + ("thumbnail:"@ + (text::decimal(n) + "s"@)) + back) matches Ok(
            Action::TimedThumbnail(d),
        ) && d.nanos < 1_000_000_000 && d.secs * 1_000_000_000 + d.nanos == n * 1_000_000_000,
        action_of(front + ("thumbnail:"@ + (text::decimal(n) + "ms"@)) + back) matches Ok(
            Action::TimedThumbnail(d),
        ) && d.nanos < 1_000_000_000 && d.secs * 1_000_000_000 + d.nanos == n * 1_000_000,
        action_of(front + ("sleep:"@ + (text::decimal(n) + "s"@)) + back) matches Ok(
            Action::Sleep(d),
        ) && d.nanos < 1_000_000_000 && d.secs * 1_000_000_000 + d.nanos == n * 1_000_000_000,
        action_of(front + ("sleep:"@ + (text::decimal(n) + "ms"@)) + back) matches Ok(
            Action::Sleep(d),
        ) && d.nanos < 1_000_000_000 && d.secs * 1_000_000_000 + d.nanos == n * 1_000_000,
{
    let none = Seq::<char>::empty();
    let secs = text::decimal(n) + "s"@;
    let millis = text::decimal(n) + "ms"@;
    lemma_written_times(n);
    assert(none + secs + none =~= secs);
    assert(none + millis + none =~= millis);
    written_durations_are_read(n, none, none);
    lemma_timed_action(front, secs, back);
    lemma_timed_action(front, millis, back);
}

/// The four actions without a time are their words, with white space around them or not, and
/// nothing else is; what is no word and no word with a time is refused by name.
pub proof fn plain_actions_are_their_words(s: Seq<char>)
    ensures
        action_of(s) == Ok::<Action, Seq<char>>(Action::Doorbell) <==> text::trimmed(s)
            == "doorbell"@,
        action_of(s) == Ok::<Action, Seq<char>>(Action::Thumbnail) <==> text::trimmed(s)
            == "thumbnail"@,
        action_of(s) == Ok::<Action, Seq<char>>(Action::Livestream) <==> text::trimmed(s)
            == "livestream"@,
        action_of(s) == Ok::<Action, Seq<char>>(Action::Resume) <==> text::trimmed(s) == "resume"@,
        action_of(s) matches Ok(Action::TimedThumbnail(d)) ==> exists|t: Seq<char>|
            text::trimmed(s) == #[trigger] ("thumbnail:"@ + t) && duration_of(t) == Ok::<
                Duration,
                Seq<char>,
            >(d),
        action_of(s) matches Ok(Action::Sleep(d)) ==> exists|t: Seq<char>|
            text::trimmed(s) == #[trigger] ("sleep:"@ + t) && duration_of(t) == Ok::<
                Duration,
                Seq<char>,
            >(d),
        action_of(s) matches Err(e) ==> e == "unknown action '"@ + text::trimmed(s) + "'"@ || exists|
            t: Seq<char>,
        |
            (text::trimmed(s) == "sleep:"@ + t || text::trimmed(s) == "thumbnail:"@ + t)
                && #[trigger] duration_of(t) == Err::<Duration, Seq<char>>(e),
{
    reveal_strlit("doorbell");
    reveal_strlit("thumbnail");
    reveal_strlit("livestream");
    reveal_strlit("resume");
    reveal_strlit("thumbnail:");
    reveal_strlit("sleep:");
    let t = text::trimmed(s);
    text::affixes_come_off_whole(t, "sleep:"@);
    text::affixes_come_off_whole(t, "thumbnail:"@);
    assert("doorbell"@[0] == 'd' && "thumbnail"@[0] == 't' && "livestream"@[0] == 'l' && "resume"@[0]
        == 'r' && "sleep:"@[0] == 's' && "thumbnail:"@[0] == 't');
    assert("thumbnail"@.len() == 9 && "thumbnail:"@.len() == 10);
}

/// An action flag gives the alias before its first colon and the action behind it; it is refused
/// where the alias is not known, or the action is none.
pub proof fn action_flags_name_a_device_and_an_action(
    alias: Seq<char>,
    kind: Seq<char>,
    known: Set<Seq<char>>,
)
    requires
        !alias.contains(':'),
    ensures
        alias_action_of(alias + seq![':'] + kind, known) == match action_of(kind) {
            Ok(a) if known.contains(alias) => Ok::<AliasAction, Seq<char>>((alias, a)),
            Err(e) if known.contains(alias) => Err(e),
            _ => Err("action references unknown device '"@ + alias + "'"@),
        },
        alias_action_of(alias, known) == Err::<AliasAction, Seq<char>>(
            "bad --action '"@ + alias + "', want alias:action"@,
        ),
{
    text::cutting_once_undoes_joining(alias, ':', kind);
}

/// A list of aliases is taken apart at its commas. Each item that is not blank is an alias, without
/// the white space around it.
pub proof fn alias_lists_are_taken_apart(
    front: Seq<char>,
    alias: Seq<char>,
    back: Seq<char>,
    rest: Seq<char>,
)
    requires
        is_blank(front),
        is_blank(back),
        is_bare(alias) || alias.len() == 0,
        !(front + alias + back).contains(','),
    ensures
        alias_list(front + alias + back) == if alias.len() > 0 {
            seq![alias]
        } else {
            seq![]
        },
        alias_list(front + alias + back + seq![','] + rest) == alias_list(front + alias + back)
            + alias_list(rest),
{
    let item = front + alias + back;
    let trim = |a: Seq<char>| text::trimmed(a);
    let keep = |a: Seq<char>| a.len() > 0;
    text::trimming_takes_the_white_space_around(front, alias, back);
    text::cutting_all_undoes_joining(item, ',', rest);
    let one = seq![item].map_values(trim);
    let more = text::split_all(rest, ',').map_values(trim);
    assert(one =~= seq![alias]);
    assert((seq![item] + text::split_all(rest, ',')).map_values(trim) =~= one + more);
    Seq::filter_distributes_over_add(one, more, keep);
    reveal_with_fuel(Seq::filter, 2);
    assert(one.drop_last() =~= seq![]);
    assert(one.filter(keep) =~= if alias.len() > 0 {
        seq![alias]
    } else {
        seq![]
    });
}

/// An endpoint flag gives the path before its first colon, whole, and the aliases behind it, all of
/// them in order. It is accepted just where the path has eight characters or more, there is an
/// alias, and every alias is known.
pub proof fn endpoint_flags_name_a_path_and_devices(
    path: Seq<char>,
    list: Seq<char>,
    known: Set<Seq<char>>,
)
    requires
        !path.contains(':'),
    ensures
        endpoint_of(path + seq![':'] + list, known) is Ok <==> path.len() >= 8 && alias_list(
            list,
        ).len() > 0 && forall|i: int|
            0 <= i < alias_list(list).len() ==> known.contains(#[trigger] alias_list(list)[i]),
        endpoint_of(path + seq![':'] + list, known) matches Ok(e) ==> e == (path, alias_list(list)),
        endpoint_of(path, known) == Err::<PathAliases, Seq<char>>(
            "bad --endpoint '"@ + path + "', want path:aliases"@,
        ),
        path.len() < 8 ==> endpoint_of(path + seq![':'] + list, known) == Err::<
            PathAliases,
            Seq<char>,
        >("endpoint path '"@ + path + "' must be >= 8 chars"@),
        path.len() >= 8 && alias_list(list).len() == 0 ==> endpoint_of(
            path + seq![':'] + list,
            known,
        ) == Err::<PathAliases, Seq<char>>("endpoint '"@ + path + "' has no devices"@),
        path.len() >= 8 && alias_list(list).len() > 0 ==> (endpoint_of(
            path + seq![':'] + list,
            known,
        ) matches Err(e) ==> exists|i: int|
            0 <= i < alias_list(list).len() && !known.contains(#[trigger] alias_list(list)[i]) && (
            forall|j: int| 0 <= j < i ==> known.contains(#[trigger] alias_list(list)[j])) && e
                == "endpoint '"@ + path + "' references unknown device '"@ + alias_list(list)[i]
                + "'"@),
{
    text::cutting_once_undoes_joining(path, ':', list);
    lemma_first_unknown(alias_list(list), known);
}

proof fn lemma_first_unknown(aliases: Seq<Seq<char>>, known: Set<Seq<char>>)
    ensures
        first_unknown(aliases, known) is None <==> forall|i: int|
            0 <= i < aliases.len() ==> known.contains(#[trigger] aliases[i]),
        first_unknown(aliases, known) matches Some(a) ==> exists|i: int|
            0 <= i < aliases.len() && a == #[trigger] aliases[i] && !known.contains(aliases[i]) && (
            forall|j: int| 0 <= j < i ==> known.contains(#[trigger] aliases[j])),
    decreases aliases.len(),
{
    if aliases.len() > 0 {
        let rest = aliases.skip(1);
        lemma_first_unknown(rest, known);
        assert(forall|i: int| 0 <= i < rest.len() ==> rest[i] == aliases[i + 1]);
        if !known.contains(aliases[0]) {
            assert(aliases[0] == first_unknown(aliases, known)->0);
        } else if let Some(a) = first_unknown(rest, known) {
            let i = choose|i: int|
                0 <= i < rest.len() && a == #[trigger] rest[i] && !known.contains(rest[i]) && (
                forall|j: int| 0 <= j < i ==> known.contains(#[trigger] rest[j]));
            assert(a == aliases[i + 1]);
            assert forall|j: int| 0 <= j < i + 1 implies known.contains(#[trigger] aliases[j]) by {
                if j > 0 {
                    assert(known.contains(rest[j - 1]));
                }
            }
        } else {
            assert forall|i: int| 0 <= i < aliases.len() implies known.contains(
                #[trigger] aliases[i],
            ) by {
                if i > 0 {
                    assert(known.contains(rest[i - 1]));
                }
            }
        }
    }
}

/// A device flag gives the alias before its first colon, whole, and the address behind it, written
/// in the one way; it is refused where there is no address.
pub proof fn device_flags_name_an_address(alias: Seq<char>, ip: Seq<char>)
    requires
        !alias.contains(':'),
    ensures
        address::ip_of(ip) matches Some(a) ==> device_of(alias + seq![':'] + ip) == Ok::<
            AliasIp,
            Seq<char>,
        >((alias, address::ip_text(a))),
        address::ip_of(ip) is None ==> device_of(alias + seq![':'] + ip) == Err::<
            AliasIp,
            Seq<char>,
        >("bad ip '"@ + ip + "' in --device '"@ + (alias + seq![':'] + ip) + "'"@),
        device_of(alias) == Err::<AliasIp, Seq<char>>(
            "bad --device '"@ + alias + "', want alias:ip"@,
        ),
{
    text::cutting_once_undoes_joining(alias, ':', ip);
}

/// A result is the one that was owed just where both are the same value, or the same complaint.
pub proof fn same_results_are_equal(a: Action, e: String, p: Parsed<Action>)
    ensures
        same_result(Ok(a), p) <==> p == Ok::<Action, Seq<char>>(a),
        same_result(Err(e), p) <==> p == Err::<Action, Seq<char>>(e@),
{
}

} // verus!
