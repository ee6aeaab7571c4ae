//! From command line flags to the configuration of the server.
use crate::address;
use crate::address::Url;
use crate::flags;
use crate::flags::{Action, AliasAction, AliasIp, Parsed, PathAliases};
use crate::media::ThumbnailCache;
use crate::registry::Registry;
use crate::text;
use vstd::prelude::*;
use vstd::string::*;

verus! {

/// Where the doorbell sound comes from.
#[derive(Clone, Debug)]
pub enum DoorbellSource {
    Url(Url),
    /// The name of a local file.
    File(String),
}

/// Picks the doorbell source from two flags of which at most one may be set.
pub fn choose_doorbell(url: Option<Url>, file: Option<String>) -> (r: Result<
    Option<DoorbellSource>,
    String,
>)
    ensures
        match (url, file) {
            (None, None) => r == Ok::<Option<DoorbellSource>, String>(None),
            (Some(u), None) => r == Ok::<Option<DoorbellSource>, String>(
                Some(DoorbellSource::Url(u)),
            ),
            (None, Some(f)) => r == Ok::<Option<DoorbellSource>, String>(
                Some(DoorbellSource::File(f)),
            ),
            (Some(_), Some(_)) => r matches Err(e) && e@ == both_doorbells(),
        },
{
    match (url, file) {
        (None, None) => Ok(None),
        (Some(u), None) => Ok(Some(DoorbellSource::Url(u))),
        (None, Some(f)) => Ok(Some(DoorbellSource::File(f))),
        (Some(_), Some(_)) => {
            Err("--doorbell-url and --doorbell-file are mutually exclusive".to_owned())
        },
    }
}

/// The complaint about two doorbell sources.
pub open spec fn both_doorbells() -> Seq<char> {
    "--doorbell-url and --doorbell-file are mutually exclusive"@
}

/// The URL under which devices fetch the doorbell sound that this server serves.
pub fn doorbell_cast_url(advertise: &Url) -> (r: String)
    ensures
        r@ == address::below(advertise@.href, "/doorbell.mp3"@),
{
    text::strip_trailing(advertise.as_str(), '/').to_owned().concat("/doorbell.mp3")
}

/// The command line of the server.
#[derive(Debug)]
pub struct Cli {
    /// The socket address to listen on.
    pub listen: String,
    /// Each `<alias>:<ip>`.
    pub device: Vec<String>,
    /// Each `<path>:<alias,alias>`.
    pub endpoint: Vec<String>,
    /// Each `<alias>:<kind>`, in the order given.
    pub action: Vec<String>,
    pub doorbell_url: Option<Url>,
    /// A local sound file, served below the advertise URL.
    pub doorbell_file: Option<String>,
    pub livestream_url: Option<Url>,
    /// The base URL under which devices reach this server.
    pub advertise_url: Option<Url>,
}

/// The configuration of the server.
#[derive(Debug)]
pub struct Config {
    pub listen: String,
    pub advertise_url: Option<Url>,
    /// Address by alias.
    pub devices: Registry<String>,
    /// Aliases by path.
    pub routes: Registry<Vec<String>>,
    /// Actions by alias.
    pub actions: Registry<Vec<Action>>,
    /// The doorbell sound that devices are told to fetch.
    pub doorbell_url: Option<String>,
    /// The doorbell sound, where this server serves it.
    pub doorbell_bytes: Option<Vec<u8>>,
    pub livestream_url: Option<Url>,
    pub thumbnails: ThumbnailCache,
}

/// The addresses in a registry.
pub open spec fn addresses(r: Registry<String>) -> Map<Seq<char>, Seq<char>> {
    r@.map_values(|s: String| s@)
}

/// The routes in a registry.
pub open spec fn route_lists(r: Registry<Vec<String>>) -> Map<Seq<char>, Seq<Seq<char>>> {
    r@.map_values(|v: Vec<String>| text::texts(v@))
}

/// The actions in a registry.
pub open spec fn action_lists(r: Registry<Vec<Action>>) -> Map<Seq<char>, Seq<Action>> {
    r@.map_values(|v: Vec<Action>| v@)
}

/// What all the `--device` flags say, or what is wrong with the first bad one.
pub open spec fn all_devices(given: Seq<Seq<char>>) -> Parsed<Seq<AliasIp>>
    decreases given.len(),
{
    if given.len() == 0 {
        Ok(seq![])
    } else {
        match all_devices(given.drop_last()) {
            Err(e) => Err(e),
            Ok(before) => match flags::device_of(given.last()) {
                Err(e) => Err(e),
                Ok(d) => Ok(before.push(d)),
            },
        }
    }
}

/// What all the `--endpoint` flags say, or what is wrong with the first bad one.
pub open spec fn all_endpoints(given: Seq<Seq<char>>, known: Set<Seq<char>>) -> Parsed<
    Seq<PathAliases>,
>
    decreases given.len(),
{
    if given.len() == 0 {
        Ok(seq![])
    } else {
        match all_endpoints(given.drop_last(), known) {
            Err(e) => Err(e),
            Ok(before) => match flags::endpoint_of(given.last(), known) {
                Err(e) => Err(e),
                Ok(d) => Ok(before.push(d)),
            },
        }
    }
}

/// What all the `--action` flags say, or what is wrong with the first bad one.
pub open spec fn all_actions(given: Seq<Seq<char>>, known: Set<Seq<char>>) -> Parsed<
    Seq<AliasAction>,
>
    decreases given.len(),
{
    if given.len() == 0 {
        Ok(seq![])
    } else {
        match all_actions(given.drop_last(), known) {
            Err(e) => Err(e),
            Ok(before) => match flags::alias_action_of(given.last(), known) {
                Err(e) => Err(e),
                Ok(d) => Ok(before.push(d)),
            },
        }
    }
}

/// The map that a list of keys and values makes; of two values for a key the later one counts.
pub open spec fn last_wins<T>(pairs: Seq<(Seq<char>, T)>) -> Map<Seq<char>, T>
    decreases pairs.len(),
{
    if pairs.len() == 0 {
        Map::empty()
    } else {
        last_wins(pairs.drop_last()).insert(pairs.last().0, pairs.last().1)
    }
}

/// The actions given for `alias`, in the order given.
pub open spec fn actions_for(pairs: Seq<AliasAction>, alias: Seq<char>) -> Seq<Action>
    decreases pairs.len(),
{
    if pairs.len() == 0 {
        seq![]
    } else if pairs.last().0 == alias {
        actions_for(pairs.drop_last(), alias).push(pairs.last().1)
    } else {
        actions_for(pairs.drop_last(), alias)
    }
}

/// Whether an action is given for `alias`.
pub open spec fn mentions(pairs: Seq<AliasAction>, alias: Seq<char>) -> bool {
    exists|i: int| 0 <= i < pairs.len() && (#[trigger] pairs[i]).0 == alias
}

/// The actions by alias, each list in the order given.
pub open spec fn grouped(pairs: Seq<AliasAction>) -> Map<Seq<char>, Seq<Action>> {
    Map::new(|a: Seq<char>| mentions(pairs, a), |a: Seq<char>| actions_for(pairs, a))
}

/// Whether `resume` comes nowhere but last.
pub open spec fn resume_comes_last(list: Seq<Action>) -> bool {
    forall|i: int| 0 <= i < list.len() - 1 ==> #[trigger] list[i] != Action::Resume
}

/// The first alias, in the order of mention from the flag number `from` on, that has an action
/// behind a `resume`.
pub open spec fn misplaced_resume(pairs: Seq<AliasAction>, from: int) -> Option<Seq<char>>
    decreases pairs.len() - from,
{
    if from < 0 || from >= pairs.len() {
        None
    } else if !resume_comes_last(actions_for(pairs, pairs[from].0)) {
        Some(pairs[from].0)
    } else {
        misplaced_resume(pairs, from + 1)
    }
}

/// The devices, routes and actions that the flags give.
pub struct Parts {
    pub devices: Map<Seq<char>, Seq<char>>,
    pub routes: Map<Seq<char>, Seq<Seq<char>>>,
    pub actions: Map<Seq<char>, Seq<Action>>,
}

/// The devices, routes and actions that the flags give, or the first complaint about them.
pub open spec fn parts_of(
    device: Seq<Seq<char>>,
    endpoint: Seq<Seq<char>>,
    action: Seq<Seq<char>>,
) -> Parsed<Parts> {
    match all_devices(device) {
        Err(e) => Err(e),
        Ok(ds) => {
            let devices = last_wins(ds);
            match all_endpoints(endpoint, devices.dom()) {
                Err(e) => Err(e),
                Ok(es) => match all_actions(action, devices.dom()) {
                    Err(e) => Err(e),
                    Ok(pairs) => match misplaced_resume(pairs, 0) {
                        Some(a) => Err(
                            "--action "@ + a + ":resume must be the last action for device '"@ + a
                                + "'"@,
                        ),
                        None => Ok(
                            Parts { devices, routes: last_wins(es), actions: grouped(pairs) },
                        ),
                    },
                },
            }
        },
    }
}

fn read_devices(given: &Vec<String>) -> (r: Result<Registry<String>, String>)
    ensures
        match r {
            Ok(m) => all_devices(text::texts(given@)) matches Ok(ds) && addresses(m) == last_wins(
                ds,
            ),
            Err(e) => all_devices(text::texts(given@)) == Err::<Seq<AliasIp>, Seq<char>>(e@),
        },
{
    let ghost all = text::texts(given@);
    let mut m: Registry<String> = Registry::new();
    let mut i: usize = 0;
    let ghost mut done: Seq<AliasIp> = seq![];
    assert(all.take(0) =~= seq![]);
    assert(addresses(m) =~= last_wins(done));
    while i < given.len()
        invariant
            i <= given.len(),
            all == text::texts(given@),
            all_devices(all.take(i as int)) == Ok::<Seq<AliasIp>, Seq<char>>(done),
            addresses(m) == last_wins(done),
        decreases given.len() - i,
    {
        assert(all.take(i + 1).drop_last() =~= all.take(i as int));
        assert(all.take(i + 1).last() == given@[i as int]@);
        match flags::parse_device(given[i].as_str()) {
            Ok((alias, ip)) => {
                let ghost before = m;
                let ghost d = (alias@, ip@);
                m.insert(alias, ip);
                proof {
                    assert(done.push(d).drop_last() =~= done);
                    done = done.push(d);
                    assert(addresses(m) =~= addresses(before).insert(d.0, d.1));
                }
            },
            Err(e) => {
                proof {
                    lemma_devices_stop(all, i + 1);
                }
                return Err(e);
            },
        }
        i += 1;
    }
    assert(all.take(all.len() as int) =~= all);
    Ok(m)
}

proof fn lemma_devices_stop(all: Seq<Seq<char>>, k: int)
    requires
        0 <= k <= all.len(),
        all_devices(all.take(k)) is Err,
    ensures
        all_devices(all) == all_devices(all.take(k)),
    decreases all.len() - k,
{
    if k < all.len() {
        assert(all.take(k + 1).drop_last() =~= all.take(k));
        lemma_devices_stop(all, k + 1);
    } else {
        assert(all.take(k) =~= all);
    }
}

fn read_endpoints(given: &Vec<String>, devices: &Registry<String>) -> (r: Result<
    Registry<Vec<String>>,
    String,
>)
    ensures
        match r {
            Ok(m) => all_endpoints(text::texts(given@), devices@.dom()) matches Ok(es)
                && route_lists(m) == last_wins(es),
            Err(e) => all_endpoints(text::texts(given@), devices@.dom()) == Err::<
                Seq<PathAliases>,
                Seq<char>,
            >(e@),
        },
{
    let ghost all = text::texts(given@);
    let ghost known = devices@.dom();
    let mut m: Registry<Vec<String>> = Registry::new();
    let mut i: usize = 0;
    let ghost mut done: Seq<PathAliases> = seq![];
    assert(all.take(0) =~= seq![]);
    assert(route_lists(m) =~= last_wins(done));
    while i < given.len()
        invariant
            i <= given.len(),
            all == text::texts(given@),
            known == devices@.dom(),
            all_endpoints(all.take(i as int), known) == Ok::<Seq<PathAliases>, Seq<char>>(done),
            route_lists(m) == last_wins(done),
        decreases given.len() - i,
    {
        assert(all.take(i + 1).drop_last() =~= all.take(i as int));
        assert(all.take(i + 1).last() == given@[i as int]@);
        match flags::parse_endpoint(given[i].as_str(), devices) {
            Ok((path, aliases)) => {
                let ghost before = m;
                let ghost d = (path@, text::texts(aliases@));
                m.insert(path, aliases);
                proof {
                    assert(done.push(d).drop_last() =~= done);
                    done = done.push(d);
                    assert(route_lists(m) =~= route_lists(before).insert(d.0, d.1));
                }
            },
            Err(e) => {
                proof {
                    lemma_endpoints_stop(all, known, i + 1);
                }
                return Err(e);
            },
        }
        i += 1;
    }
    assert(all.take(all.len() as int) =~= all);
    Ok(m)
}

proof fn lemma_endpoints_stop(all: Seq<Seq<char>>, known: Set<Seq<char>>, k: int)
    requires
        0 <= k <= all.len(),
        all_endpoints(all.take(k), known) is Err,
    ensures
        all_endpoints(all, known) == all_endpoints(all.take(k), known),
    decreases all.len() - k,
{
    if k < all.len() {
        assert(all.take(k + 1).drop_last() =~= all.take(k));
        lemma_endpoints_stop(all, known, k + 1);
    } else {
        assert(all.take(k) =~= all);
    }
}

/// The views of a list of aliases with actions.
spec fn pair_views(v: Seq<(String, Action)>) -> Seq<AliasAction> {
    v.map_values(|p: (String, Action)| (p.0@, p.1))
}

fn read_actions(given: &Vec<String>, devices: &Registry<String>) -> (r: Result<
    Vec<(String, Action)>,
    String,
>)
    ensures
        match r {
            Ok(v) => all_actions(text::texts(given@), devices@.dom()) == Ok::<
                Seq<AliasAction>,
                Seq<char>,
            >(pair_views(v@)),
            Err(e) => all_actions(text::texts(given@), devices@.dom()) == Err::<
                Seq<AliasAction>,
                Seq<char>,
            >(e@),
        },
{
    let ghost all = text::texts(given@);
    let ghost known = devices@.dom();
    let mut v: Vec<(String, Action)> = Vec::new();
    let mut i: usize = 0;
    assert(all.take(0) =~= seq![]);
    assert(pair_views(v@) =~= seq![]);
    while i < given.len()
        invariant
            i <= given.len(),
            all == text::texts(given@),
            known == devices@.dom(),
            all_actions(all.take(i as int), known) == Ok::<Seq<AliasAction>, Seq<char>>(
                pair_views(v@),
            ),
        decreases given.len() - i,
    {
        assert(all.take(i + 1).drop_last() =~= all.take(i as int));
        assert(all.take(i + 1).last() == given@[i as int]@);
        match flags::parse_action(given[i].as_str(), devices) {
            Ok(p) => {
                let ghost before = v@;
                v.push(p);
                assert(pair_views(v@) =~= pair_views(before).push((p.0@, p.1)));
            },
            Err(e) => {
                proof {
                    lemma_actions_stop(all, known, i + 1);
                }
                return Err(e);
            },
        }
        i += 1;
    }
    assert(all.take(all.len() as int) =~= all);
    Ok(v)
}

proof fn lemma_actions_stop(all: Seq<Seq<char>>, known: Set<Seq<char>>, k: int)
    requires
        0 <= k <= all.len(),
        all_actions(all.take(k), known) is Err,
    ensures
        all_actions(all, known) == all_actions(all.take(k), known),
    decreases all.len() - k,
{
    if k < all.len() {
        assert(all.take(k + 1).drop_last() =~= all.take(k));
        lemma_actions_stop(all, known, k + 1);
    } else {
        assert(all.take(k) =~= all);
    }
}

proof fn lemma_grouped_push(pairs: Seq<AliasAction>, p: AliasAction)
    ensures
        grouped(pairs.push(p)) == grouped(pairs).insert(p.0, actions_for(pairs, p.0).push(p.1)),
{
    let after = pairs.push(p);
    assert(after.drop_last() =~= pairs);
    let left = grouped(after);
    let right = grouped(pairs).insert(p.0, actions_for(pairs, p.0).push(p.1));
    assert forall|a: Seq<char>| #[trigger] left.dom().contains(a) implies right.dom().contains(a) by {
        let i = choose|i: int| 0 <= i < after.len() && (#[trigger] after[i]).0 == a;
        if i < pairs.len() {
            assert(pairs[i] == after[i]);
        }
    }
    assert forall|a: Seq<char>| #[trigger] right.dom().contains(a) implies left.dom().contains(a) by {
        if a == p.0 {
            assert(after[pairs.len() as int] == p);
        } else {
            let i = choose|i: int| 0 <= i < pairs.len() && (#[trigger] pairs[i]).0 == a;
            assert(after[i] == pairs[i]);
        }
    }
    assert(left =~= right);
}

proof fn lemma_unmentioned(pairs: Seq<AliasAction>, alias: Seq<char>)
    requires
        !mentions(pairs, alias),
    ensures
        actions_for(pairs, alias) == Seq::<Action>::empty(),
    decreases pairs.len(),
{
    if pairs.len() > 0 {
        assert(pairs[pairs.len() - 1].0 != alias);
        assert forall|i: int| 0 <= i < pairs.drop_last().len() implies (
        #[trigger] pairs.drop_last()[i]).0 != alias by {
            assert(pairs.drop_last()[i] == pairs[i]);
        }
        lemma_unmentioned(pairs.drop_last(), alias);
    }
}

fn group_actions(pairs: &Vec<(String, Action)>) -> (m: Registry<Vec<Action>>)
    ensures
        action_lists(m) == grouped(pair_views(pairs@)),
{
    let ghost all = pair_views(pairs@);
    let mut m: Registry<Vec<Action>> = Registry::new();
    let mut i: usize = 0;
    assert(action_lists(m) =~= grouped(all.take(0)));
    while i < pairs.len()
        invariant
            i <= pairs.len(),
            all == pair_views(pairs@),
            action_lists(m) == grouped(all.take(i as int)),
        decreases pairs.len() - i,
    {
        let alias = pairs[i].0.clone();
        let action = pairs[i].1;
        let ghost before = m;
        let ghost done = all.take(i as int);
        let mut list = match m.remove(alias.as_str()) {
            Some(v) => v,
            None => Vec::new(),
        };
        proof {
            if before@.contains_key(alias@) {
                assert(action_lists(before).contains_key(alias@));
                assert(action_lists(before)[alias@] == list@);
                assert(grouped(done)[alias@] == actions_for(done, alias@));
            } else {
                assert(!action_lists(before).contains_key(alias@));
                assert(!grouped(done).contains_key(alias@));
                lemma_unmentioned(done, alias@);
                assert(list@ =~= actions_for(done, alias@));
            }
        }
        list.push(action);
        let ghost grown = list@;
        let ghost name = alias@;
        m.insert(alias, list);
        proof {
            assert(action_lists(m) =~= action_lists(before).insert(name, grown));
            lemma_grouped_push(done, (name, action));
            assert(all.take(i + 1) =~= done.push((name, action)));
        }
        i += 1;
    }
    assert(all.take(all.len() as int) =~= all);
    m
}

/// Whether `resume` comes nowhere but last in `list`.
fn resume_is_last(list: &Vec<Action>) -> (r: bool)
    ensures
        r == resume_comes_last(list@),
{
    let mut i: usize = 0;
    while i < list.len()
        invariant
            i <= list.len(),
            forall|j: int| 0 <= j < i && j < list.len() - 1 ==> #[trigger] list@[j] != Action::Resume,
        decreases list.len() - i,
    {
        if list[i] == Action::Resume && i != list.len() - 1 {
            assert(list@[i as int] == Action::Resume);
            return false;
        }
        i += 1;
    }
    true
}

fn find_misplaced_resume<'a>(
    pairs: &'a Vec<(String, Action)>,
    actions: &Registry<Vec<Action>>,
) -> (r: Option<&'a str>)
    requires
        action_lists(*actions) == grouped(pair_views(pairs@)),
    ensures
        match r {
            Some(a) => misplaced_resume(pair_views(pairs@), 0) == Some(a@),
            None => misplaced_resume(pair_views(pairs@), 0) is None,
        },
{
    let ghost all = pair_views(pairs@);
    let mut i: usize = 0;
    while i < pairs.len()
        invariant
            i <= pairs.len(),
            all == pair_views(pairs@),
            action_lists(*actions) == grouped(all),
            misplaced_resume(all, 0) == misplaced_resume(all, i as int),
        decreases pairs.len() - i,
    {
        let alias = pairs[i].0.as_str();
        assert(all[i as int].0 == alias@);
        assert(grouped(all).contains_key(alias@));
        assert(action_lists(*actions).contains_key(alias@));
        match actions.get(alias) {
            Some(list) => {
                assert(list@ == action_lists(*actions)[alias@]);
                if !resume_is_last(list) {
                    return Some(alias);
                }
            },
            None => {},
        }
        i += 1;
    }
    None
}

/// What an action can need beyond the device itself.
#[derive(Clone, Copy, Debug, PartialEq, Eq, Structural)]
pub enum Need {
    Doorbell,
    Livestream,
    Thumbnail,
}

/// Whether the action `a` needs `n`.
pub open spec fn needs(a: Action, n: Need) -> bool {
    match n {
        Need::Doorbell => a == Action::Doorbell,
        Need::Livestream => a == Action::Livestream,
        Need::Thumbnail => a == Action::Thumbnail || a is TimedThumbnail,
    }
}

/// Whether one of the actions in `list` needs `n`.
pub open spec fn list_needs(list: Seq<Action>, n: Need) -> bool {
    exists|i: int| 0 <= i < list.len() && needs(#[trigger] list[i], n)
}

/// Whether an action of any device needs `n`.
pub open spec fn any_needs(actions: Map<Seq<char>, Seq<Action>>, n: Need) -> bool {
    exists|a: Seq<char>| #[trigger] actions.contains_key(a) && list_needs(actions[a], n)
}

fn action_needs(a: Action, n: Need) -> (r: bool)
    ensures
        r == needs(a, n),
{
    match n {
        Need::Doorbell => a == Action::Doorbell,
        Need::Livestream => a == Action::Livestream,
        Need::Thumbnail => match a {
            Action::Thumbnail => true,
            Action::TimedThumbnail(_) => true,
            _ => false,
        },
    }
}

/// Whether one of the actions in `list` needs `n`.
pub fn some_action_needs(list: &Vec<Action>, n: Need) -> (r: bool)
    ensures
        r == list_needs(list@, n),
{
    let mut i: usize = 0;
    while i < list.len()
        invariant
            i <= list.len(),
            forall|j: int| 0 <= j < i ==> !needs(#[trigger] list@[j], n),
        decreases list.len() - i,
    {
        if action_needs(list[i], n) {
            return true;
        }
        i += 1;
    }
    false
}

fn some_device_needs(actions: &Registry<Vec<Action>>, n: Need) -> (r: bool)
    ensures
        r == any_needs(action_lists(*actions), n),
{
    let count = actions.len();
    let ghost keys = actions.keys();
    let ghost lists = action_lists(*actions);
    let mut i: usize = 0;
    while i < count
        invariant
            i <= count,
            count == keys.len(),
            keys == actions.keys(),
            lists == action_lists(*actions),
            forall|j: int| 0 <= j < i ==> !list_needs(lists[#[trigger] keys[j]], n),
        decreases count - i,
    {
        let list = actions.value(i);
        assert(lists.contains_key(keys[i as int]));
        assert(lists[keys[i as int]] == list@);
        if some_action_needs(list, n) {
            return true;
        }
        i += 1;
    }
    assert forall|a: Seq<char>| #[trigger] lists.contains_key(a) implies !list_needs(
        lists[a],
        n,
    ) by {
        assert(keys.to_set().contains(a));
        let j = choose|j: int| 0 <= j < keys.len() && keys[j] == a;
        assert(!list_needs(lists[keys[j]], n));
    }
    false
}

/// What the flags give before the doorbell file is read.
#[derive(Debug)]
pub struct Draft {
    listen: String,
    devices: Registry<String>,
    routes: Registry<Vec<String>>,
    actions: Registry<Vec<Action>>,
    doorbell: Option<DoorbellSource>,
    livestream_url: Option<Url>,
    advertise_url: Option<Url>,
}

/// The model of a [`Draft`].
pub struct DraftView {
    pub listen: Seq<char>,
    pub parts: Parts,
    pub doorbell: Option<DoorbellSource>,
    pub livestream_url: Option<Url>,
    pub advertise_url: Option<Url>,
}

impl View for Draft {
    type V = DraftView;

    closed spec fn view(&self) -> DraftView {
        DraftView {
            listen: self.listen@,
            parts: Parts {
                devices: addresses(self.devices),
                routes: route_lists(self.routes),
                actions: action_lists(self.actions),
            },
            doorbell: self.doorbell,
            livestream_url: self.livestream_url,
            advertise_url: self.advertise_url,
        }
    }
}

/// The model of a [`Config`].
pub struct ConfigView {
    pub listen: Seq<char>,
    pub advertise_url: Option<Url>,
    pub devices: Map<Seq<char>, Seq<char>>,
    pub routes: Map<Seq<char>, Seq<Seq<char>>>,
    pub actions: Map<Seq<char>, Seq<Action>>,
    pub doorbell_url: Option<Seq<char>>,
    pub doorbell_bytes: Option<Seq<u8>>,
    pub livestream_url: Option<Url>,
    pub thumbnails: crate::media::Stored,
}

impl View for Config {
    type V = ConfigView;

    open spec fn view(&self) -> ConfigView {
        ConfigView {
            listen: self.listen@,
            advertise_url: self.advertise_url,
            devices: addresses(self.devices),
            routes: route_lists(self.routes),
            actions: action_lists(self.actions),
            doorbell_url: text::text_option(self.doorbell_url),
            doorbell_bytes: text::bytes_option(self.doorbell_bytes),
            livestream_url: self.livestream_url,
            thumbnails: self.thumbnails@,
        }
    }
}

/// The complaint about a doorbell file without an advertise URL.
pub open spec fn file_needs_advertise() -> Seq<char> {
    "--advertise-url required for --doorbell-file"@
}

/// The doorbell source that two flags give.
pub open spec fn chosen_doorbell(url: Option<Url>, file: Option<String>) -> Parsed<
    Option<DoorbellSource>,
> {
    match (url, file) {
        (None, None) => Ok(None),
        (Some(u), None) => Ok(Some(DoorbellSource::Url(u))),
        (None, Some(f)) => Ok(Some(DoorbellSource::File(f))),
        (Some(_), Some(_)) => Err(both_doorbells()),
    }
}

/// What a command line gives before the doorbell file is read, or the first complaint.
pub open spec fn draft_of(cli: Cli) -> Parsed<DraftView> {
    match parts_of(
        text::texts(cli.device@),
        text::texts(cli.endpoint@),
        text::texts(cli.action@),
    ) {
        Err(e) => Err(e),
        Ok(parts) => match chosen_doorbell(cli.doorbell_url, cli.doorbell_file) {
            Err(e) => Err(e),
            Ok(doorbell) => if doorbell matches Some(DoorbellSource::File(_))
                && cli.advertise_url is None {
                Err(file_needs_advertise())
            } else {
                Ok(
                    DraftView {
                        listen: cli.listen@,
                        parts,
                        doorbell,
                        livestream_url: cli.livestream_url,
                        advertise_url: cli.advertise_url,
                    },
                )
            },
        },
    }
}

/// The effective doorbell URL and the bytes to serve, where `read` is what reading the file gave.
pub open spec fn doorbell_of(
    doorbell: Option<DoorbellSource>,
    advertise: Option<Url>,
    read: Parsed<Seq<u8>>,
) -> Parsed<(Option<Seq<char>>, Option<Seq<u8>>)> {
    match doorbell {
        None => Ok((None, None)),
        Some(DoorbellSource::Url(u)) => Ok((Some(u@.href), None)),
        Some(DoorbellSource::File(f)) => match (advertise, read) {
            (None, _) => Err(file_needs_advertise()),
            (Some(_), Err(e)) => Err("read doorbell file '"@ + f@ + "': "@ + e),
            (Some(a), Ok(bytes)) => Ok(
                (Some(address::below(a@.href, "/doorbell.mp3"@)), Some(bytes)),
            ),
        },
    }
}

/// The configuration that a draft gives, or the first thing that an action needs and lacks.
pub open spec fn finish_of(d: DraftView, read: Parsed<Seq<u8>>) -> Parsed<ConfigView> {
    match doorbell_of(d.doorbell, d.advertise_url, read) {
        Err(e) => Err(e),
        Ok((doorbell_url, doorbell_bytes)) => {
            let actions = d.parts.actions;
            if any_needs(actions, Need::Doorbell) && doorbell_url is None {
                Err("doorbell-url or doorbell-file required for doorbell actions"@)
            } else if any_needs(actions, Need::Livestream) && d.livestream_url is None {
                Err("--livestream-url required for livestream actions"@)
            } else if any_needs(actions, Need::Thumbnail) && d.advertise_url is None {
                Err("--advertise-url required for image actions"@)
            } else {
                Ok(
                    ConfigView {
                        listen: d.listen,
                        advertise_url: d.advertise_url,
                        devices: d.parts.devices,
                        routes: d.parts.routes,
                        actions,
                        doorbell_url,
                        doorbell_bytes,
                        livestream_url: d.livestream_url,
                        thumbnails: Map::empty(),
                    },
                )
            }
        },
    }
}

/// The configuration that a command line gives, or the first complaint about it; `read` is what
/// reading the doorbell file gave, and counts only where one is named.
pub open spec fn config_of(cli: Cli, read: Parsed<Seq<u8>>) -> Parsed<ConfigView> {
    match draft_of(cli) {
        Err(e) => Err(e),
        Ok(d) => finish_of(d, read),
    }
}

/// Checks everything about a command line that can be checked before the doorbell file is read.
pub fn prepare(cli: Cli) -> (r: Result<Draft, String>)
    ensures
        match r {
            Ok(d) => draft_of(cli) == Ok::<DraftView, Seq<char>>(d@),
            Err(e) => draft_of(cli) == Err::<DraftView, Seq<char>>(e@),
        },
{
    let devices = match read_devices(&cli.device) {
        Ok(m) => m,
        Err(e) => {
            return Err(e);
        },
    };
    assert(addresses(devices).dom() =~= devices@.dom());
    let routes = match read_endpoints(&cli.endpoint, &devices) {
        Ok(m) => m,
        Err(e) => {
            return Err(e);
        },
    };
    let pairs = match read_actions(&cli.action, &devices) {
        Ok(v) => v,
        Err(e) => {
            return Err(e);
        },
    };
    let actions = group_actions(&pairs);
    if let Some(alias) = find_misplaced_resume(&pairs, &actions) {
        return Err(
            text::join5(
                "--action ",
                alias,
                ":resume must be the last action for device '",
                alias,
                "'",
            ),
        );
    }
    let doorbell = match choose_doorbell(cli.doorbell_url, cli.doorbell_file) {
        Ok(d) => d,
        Err(e) => {
            return Err(e);
        },
    };
    if let Some(DoorbellSource::File(_)) = &doorbell {
        if cli.advertise_url.is_none() {
            return Err("--advertise-url required for --doorbell-file".to_owned());
        }
    }
    Ok(
        Draft {
            listen: cli.listen,
            devices,
            routes,
            actions,
            doorbell,
            livestream_url: cli.livestream_url,
            advertise_url: cli.advertise_url,
        },
    )
}

impl Draft {
    /// Whether the doorbell file has to be read.
    pub fn wants_file(&self) -> (r: bool)
        ensures
            r == (self@.doorbell matches Some(DoorbellSource::File(_))),
    {
        match &self.doorbell {
            Some(DoorbellSource::File(_)) => true,
            _ => false,
        }
    }

    /// Completes the configuration; `read` is what reading the doorbell file gave, and counts only
    /// where there is one.
    pub fn finish(self, read: Result<Vec<u8>, String>) -> (r: Result<Config, String>)
        ensures
            match r {
                Ok(c) => finish_of(self@, text::bytes_result(read)) == Ok::<ConfigView, Seq<char>>(c@),
                Err(e) => finish_of(self@, text::bytes_result(read)) == Err::<ConfigView, Seq<char>>(e@),
            },
            r matches Ok(c) ==> c.thumbnails.clock().is_started(),
    {
        let (doorbell_url, doorbell_bytes) = match &self.doorbell {
            None => (None, None),
            Some(DoorbellSource::Url(u)) => (Some(u.as_str().to_owned()), None),
            Some(DoorbellSource::File(f)) => {
                let base = match &self.advertise_url {
                    Some(a) => a,
                    None => {
                        return Err("--advertise-url required for --doorbell-file".to_owned());
                    },
                };
                match read {
                    Ok(bytes) => (Some(doorbell_cast_url(base)), Some(bytes)),
                    Err(e) => {
                        return Err(
                            text::join3("read doorbell file '", f.as_str(), "': ").concat(
                                e.as_str(),
                            ),
                        );
                    },
                }
            },
        };
        if some_device_needs(&self.actions, Need::Doorbell) && doorbell_url.is_none() {
            return Err("doorbell-url or doorbell-file required for doorbell actions".to_owned());
        }
        if some_device_needs(&self.actions, Need::Livestream) && self.livestream_url.is_none() {
            return Err("--livestream-url required for livestream actions".to_owned());
        }
        if some_device_needs(&self.actions, Need::Thumbnail) && self.advertise_url.is_none() {
            return Err("--advertise-url required for image actions".to_owned());
        }
        Ok(
            Config {
                listen: self.listen,
                advertise_url: self.advertise_url,
                devices: self.devices,
                routes: self.routes,
                actions: self.actions,
                doorbell_url,
                doorbell_bytes,
                livestream_url: self.livestream_url,
                thumbnails: ThumbnailCache::new(),
            },
        )
    }
}

/// Builds the configuration from a command line; `read` is what reading the doorbell file gave,
/// and counts only where one is named.
pub fn build(cli: Cli, read: Result<Vec<u8>, String>) -> (r: Result<Config, String>)
    ensures
        match r {
            Ok(c) => config_of(cli, text::bytes_result(read)) == Ok::<ConfigView, Seq<char>>(c@),
            Err(e) => config_of(cli, text::bytes_result(read)) == Err::<ConfigView, Seq<char>>(e@),
        },
        r matches Ok(c) ==> c.thumbnails.clock().is_started(),
{
    match prepare(cli) {
        Ok(d) => d.finish(read),
        Err(e) => Err(e),
    }
}

/// What holds of every configuration that the server runs with.
pub open spec fn valid(c: ConfigView) -> bool {
    // An endpoint has a path of at least eight characters and drives known devices, at least one.
    &&& forall|path: Seq<char>| #[trigger]
        c.routes.contains_key(path) ==> valid_route(path, c.routes[path], c.devices.dom())
    // Actions are those of known devices, and nothing comes behind a `resume`.
    &&& forall|alias: Seq<char>| #[trigger]
        c.actions.contains_key(alias) ==> c.devices.contains_key(alias) && c.actions[alias].len()
            > 0 && resume_comes_last(c.actions[alias])
    // What an action needs is there.
    &&& any_needs(c.actions, Need::Doorbell) ==> c.doorbell_url is Some
    &&& any_needs(c.actions, Need::Livestream) ==> c.livestream_url is Some
    &&& any_needs(c.actions, Need::Thumbnail) ==> c.advertise_url is Some
    // A sound that is served here is fetched from here.
    &&& c.doorbell_bytes is Some ==> c.advertise_url is Some && c.doorbell_url == Some(
        address::below((c.advertise_url->0)@.href, "/doorbell.mp3"@),
    )
}

/// A path that is long enough, and known devices, at least one.
pub open spec fn valid_route(
    path: Seq<char>,
    aliases: Seq<Seq<char>>,
    known: Set<Seq<char>>,
) -> bool {
    &&& path.len() >= flags::MIN_PATH_CHARS
    &&& aliases.len() > 0
    &&& forall|i: int| 0 <= i < aliases.len() ==> known.contains(#[trigger] aliases[i])
}

proof fn lemma_none_unknown(aliases: Seq<Seq<char>>, known: Set<Seq<char>>)
    requires
        flags::first_unknown(aliases, known) is None,
    ensures
        forall|i: int| 0 <= i < aliases.len() ==> known.contains(#[trigger] aliases[i]),
    decreases aliases.len(),
{
    if aliases.len() > 0 {
        let rest = aliases.skip(1);
        lemma_none_unknown(rest, known);
        assert forall|i: int| 0 <= i < aliases.len() implies known.contains(
            #[trigger] aliases[i],
        ) by {
            if i > 0 {
                assert(rest[i - 1] == aliases[i]);
            }
        }
    }
}

proof fn lemma_routes_valid(given: Seq<Seq<char>>, known: Set<Seq<char>>)
    requires
        all_endpoints(given, known) is Ok,
    ensures
        ({
            let routes = last_wins(all_endpoints(given, known)->Ok_0);
            forall|path: Seq<char>| #[trigger]
                routes.contains_key(path) ==> valid_route(path, routes[path], known)
        }),
    decreases given.len(),
{
    if given.len() > 0 {
        lemma_routes_valid(given.drop_last(), known);
        let before = all_endpoints(given.drop_last(), known)->Ok_0;
        let d = flags::endpoint_of(given.last(), known)->Ok_0;
        let routes = last_wins(all_endpoints(given, known)->Ok_0);
        assert(before.push(d).drop_last() =~= before);
        assert(routes == last_wins(before).insert(d.0, d.1));
        lemma_none_unknown(d.1, known);
        assert forall|path: Seq<char>| #[trigger] routes.contains_key(path) implies valid_route(
            path,
            routes[path],
            known,
        ) by {
            if path != d.0 {
                assert(last_wins(before).contains_key(path));
            }
        }
    }
}

proof fn lemma_actions_known(given: Seq<Seq<char>>, known: Set<Seq<char>>)
    requires
        all_actions(given, known) is Ok,
    ensures
        forall|i: int|
            0 <= i < (all_actions(given, known)->Ok_0).len() ==> known.contains(
                (#[trigger] (all_actions(given, known)->Ok_0)[i]).0,
            ),
    decreases given.len(),
{
    if given.len() > 0 {
        lemma_actions_known(given.drop_last(), known);
    }
}

proof fn lemma_resume_last(pairs: Seq<AliasAction>, from: int)
    requires
        0 <= from,
        misplaced_resume(pairs, from) is None,
    ensures
        forall|i: int|
            from <= i < pairs.len() ==> resume_comes_last(
                actions_for(pairs, (#[trigger] pairs[i]).0),
            ),
    decreases pairs.len() - from,
{
    if from < pairs.len() {
        lemma_resume_last(pairs, from + 1);
    }
}

proof fn lemma_mentioned(pairs: Seq<AliasAction>, i: int)
    requires
        0 <= i < pairs.len(),
    ensures
        actions_for(pairs, pairs[i].0).len() > 0,
    decreases pairs.len(),
{
    if i < pairs.len() - 1 {
        assert(pairs.drop_last()[i] == pairs[i]);
        lemma_mentioned(pairs.drop_last(), i);
    }
}

/// Every configuration that can be built is valid, and starts with no thumbnail stored.
pub proof fn built_configuration_is_valid(cli: Cli, read: Parsed<Seq<u8>>)
    requires
        config_of(cli, read) is Ok,
    ensures
        valid(config_of(cli, read)->Ok_0),
        (config_of(cli, read)->Ok_0).thumbnails == Map::<
            Seq<char>,
            (crate::time::Instant, Seq<u8>),
        >::empty(),
{
    let devices = last_wins(all_devices(text::texts(cli.device@))->Ok_0);
    let known = devices.dom();
    let action = text::texts(cli.action@);
    let pairs = all_actions(action, known)->Ok_0;
    let c = config_of(cli, read)->Ok_0;
    lemma_routes_valid(text::texts(cli.endpoint@), known);
    lemma_actions_known(action, known);
    lemma_resume_last(pairs, 0);
    assert forall|alias: Seq<char>| #[trigger] c.actions.contains_key(alias) implies known.contains(
        alias,
    ) && c.actions[alias].len() > 0 && resume_comes_last(c.actions[alias]) by {
        let i = choose|i: int| 0 <= i < pairs.len() && (#[trigger] pairs[i]).0 == alias;
        assert(known.contains(pairs[i].0));
        assert(resume_comes_last(actions_for(pairs, pairs[i].0)));
        lemma_mentioned(pairs, i);
    }
}

/// The doorbell sound comes from at most one source. That of a file is served from here, byte for
/// byte as it was read, and fetched from below the advertise URL; that of a URL is fetched from there,
/// and nothing is served.
pub proof fn doorbell_has_one_source(cli: Cli, read: Parsed<Seq<u8>>)
    requires
        config_of(cli, read) is Ok,
    ensures
        ({
            let c = config_of(cli, read)->Ok_0;
            match (cli.doorbell_url, cli.doorbell_file) {
                (None, None) => c.doorbell_url is None && c.doorbell_bytes is None,
                (Some(u), None) => c.doorbell_url == Some(u@.href) && c.doorbell_bytes is None,
                (None, Some(_)) => {
                    &&& read == Ok::<Seq<u8>, Seq<char>>(c.doorbell_bytes->0)
                    &&& c.doorbell_bytes is Some
                    &&& cli.advertise_url matches Some(base) && c.doorbell_url == Some(
                        address::below(base@.href, "/doorbell.mp3"@),
                    )
                },
                (Some(_), Some(_)) => false,
            }
        }),
{
}

/// The actions of a device are exactly those given for it, in the order of the flags.
pub proof fn actions_keep_flag_order(pairs: Seq<AliasAction>, alias: Seq<char>)
    ensures
        actions_for(pairs, alias) == pairs.filter(|p: AliasAction| p.0 == alias).map_values(
            |p: AliasAction| p.1,
        ),
    decreases pairs.len(),
{
    let pred = |p: AliasAction| p.0 == alias;
    let pick = |p: AliasAction| p.1;
    reveal(Seq::filter);
    if pairs.len() > 0 {
        let before = pairs.drop_last();
        actions_keep_flag_order(before, alias);
        if pairs.last().0 == alias {
            assert(pairs.filter(pred) == before.filter(pred).push(pairs.last()));
            assert(before.filter(pred).push(pairs.last()).map_values(pick) =~= before.filter(
                pred,
            ).map_values(pick).push(pairs.last().1));
        } else {
            assert(pairs.filter(pred) == before.filter(pred));
        }
    } else {
        assert(pairs.filter(pred).map_values(pick) =~= seq![]);
    }
}

proof fn lemma_last_wins<T>(pairs: Seq<(Seq<char>, T)>)
    ensures
        forall|k: Seq<char>| #[trigger]
            last_wins(pairs).contains_key(k) ==> exists|i: int|
                0 <= i < pairs.len() && (#[trigger] pairs[i]).0 == k,
        forall|i: int|
            0 <= i < pairs.len() ==> last_wins(pairs).contains_key((#[trigger] pairs[i]).0),
        forall|i: int|
            0 <= i < pairs.len() && (forall|j: int|
                i < j < pairs.len() ==> (#[trigger] pairs[j]).0 != pairs[i].0) ==> last_wins(pairs)[(
            #[trigger] pairs[i]).0] == pairs[i].1,
    decreases pairs.len(),
{
    if pairs.len() > 0 {
        let before = pairs.drop_last();
        lemma_last_wins(before);
        assert forall|k: Seq<char>| #[trigger] last_wins(pairs).contains_key(k) implies exists|i: int|
            0 <= i < pairs.len() && (#[trigger] pairs[i]).0 == k by {
            if k == pairs.last().0 {
                assert(pairs[pairs.len() - 1].0 == k);
            } else {
                assert(last_wins(before).contains_key(k));
                let i = choose|i: int| 0 <= i < before.len() && (#[trigger] before[i]).0 == k;
                assert(pairs[i].0 == k);
            }
        }
        assert forall|i: int| 0 <= i < pairs.len() implies last_wins(pairs).contains_key(
            (#[trigger] pairs[i]).0,
        ) by {
            if i < before.len() {
                assert(last_wins(before).contains_key(before[i].0));
            }
        }
        assert forall|i: int|
            0 <= i < pairs.len() && (forall|j: int|
                i < j < pairs.len() ==> (#[trigger] pairs[j]).0 != pairs[i].0) implies last_wins(
            pairs,
        )[(#[trigger] pairs[i]).0] == pairs[i].1 by {
            if i < before.len() {
                assert(pairs[pairs.len() - 1].0 != pairs[i].0);
                assert forall|j: int| i < j < before.len() implies (#[trigger] before[j]).0
                    != before[i].0 by {
                    assert(pairs[j].0 != pairs[i].0);
                }
                assert(before[i] == pairs[i]);
            }
        }
    }
}

proof fn lemma_all_devices(given: Seq<Seq<char>>)
    ensures
        all_devices(given) matches Ok(ds) ==> ds.len() == given.len() && forall|i: int|
            0 <= i < given.len() ==> flags::device_of(#[trigger] given[i]) == Ok::<
                AliasIp,
                Seq<char>,
            >(ds[i]),
        all_devices(given) matches Err(e) ==> exists|i: int|
            0 <= i < given.len() && flags::device_of(#[trigger] given[i]) == Err::<
                AliasIp,
                Seq<char>,
            >(e) && forall|j: int| 0 <= j < i ==> flags::device_of(#[trigger] given[j]) is Ok,
    decreases given.len(),
{
    if given.len() > 0 {
        let before = given.drop_last();
        lemma_all_devices(before);
        assert(forall|i: int| 0 <= i < before.len() ==> before[i] == given[i]);
        if let Err(e) = all_devices(before) {
            let i = choose|i: int|
                0 <= i < before.len() && flags::device_of(#[trigger] before[i]) == Err::<
                    AliasIp,
                    Seq<char>,
                >(e) && forall|j: int| 0 <= j < i ==> flags::device_of(#[trigger] before[j]) is Ok;
            assert(given[i] == before[i]);
            assert forall|j: int| 0 <= j < i implies flags::device_of(#[trigger] given[j]) is Ok by {
                assert(before[j] == given[j]);
            }
        } else {
            assert forall|j: int| 0 <= j < given.len() - 1 implies flags::device_of(
                #[trigger] given[j],
            ) == Ok::<AliasIp, Seq<char>>((all_devices(before)->Ok_0)[j]) by {
                assert(before[j] == given[j]);
            }
            assert(given[given.len() - 1] == given.last());
        }
    }
}

proof fn lemma_all_endpoints(given: Seq<Seq<char>>, known: Set<Seq<char>>)
    ensures
        all_endpoints(given, known) matches Ok(es) ==> es.len() == given.len() && forall|i: int|
            0 <= i < given.len() ==> flags::endpoint_of(#[trigger] given[i], known) == Ok::<
                PathAliases,
                Seq<char>,
            >(es[i]),
        all_endpoints(given, known) matches Err(e) ==> exists|i: int|
            0 <= i < given.len() && flags::endpoint_of(#[trigger] given[i], known) == Err::<
                PathAliases,
                Seq<char>,
            >(e) && forall|j: int|
                0 <= j < i ==> flags::endpoint_of(#[trigger] given[j], known) is Ok,
    decreases given.len(),
{
    if given.len() > 0 {
        let before = given.drop_last();
        lemma_all_endpoints(before, known);
        assert(forall|i: int| 0 <= i < before.len() ==> before[i] == given[i]);
        if let Err(e) = all_endpoints(before, known) {
            let i = choose|i: int|
                0 <= i < before.len() && flags::endpoint_of(#[trigger] before[i], known) == Err::<
                    PathAliases,
                    Seq<char>,
                >(e) && forall|j: int|
                    0 <= j < i ==> flags::endpoint_of(#[trigger] before[j], known) is Ok;
            assert(given[i] == before[i]);
            assert forall|j: int| 0 <= j < i implies flags::endpoint_of(
                #[trigger] given[j],
                known,
            ) is Ok by {
                assert(before[j] == given[j]);
            }
        } else {
            assert forall|j: int| 0 <= j < given.len() - 1 implies flags::endpoint_of(
                #[trigger] given[j],
                known,
            ) == Ok::<PathAliases, Seq<char>>((all_endpoints(before, known)->Ok_0)[j]) by {
                assert(before[j] == given[j]);
            }
            assert(given[given.len() - 1] == given.last());
        }
    }
}

proof fn lemma_all_actions(given: Seq<Seq<char>>, known: Set<Seq<char>>)
    ensures
        all_actions(given, known) matches Ok(ps) ==> ps.len() == given.len() && forall|i: int|
            0 <= i < given.len() ==> flags::alias_action_of(#[trigger] given[i], known) == Ok::<
                AliasAction,
                Seq<char>,
            >(ps[i]),
        all_actions(given, known) matches Err(e) ==> exists|i: int|
            0 <= i < given.len() && flags::alias_action_of(#[trigger] given[i], known) == Err::<
                AliasAction,
                Seq<char>,
            >(e) && forall|j: int|
                0 <= j < i ==> flags::alias_action_of(#[trigger] given[j], known) is Ok,
    decreases given.len(),
{
    if given.len() > 0 {
        let before = given.drop_last();
        lemma_all_actions(before, known);
        assert(forall|i: int| 0 <= i < before.len() ==> before[i] == given[i]);
        if let Err(e) = all_actions(before, known) {
            let i = choose|i: int|
                0 <= i < before.len() && flags::alias_action_of(#[trigger] before[i], known) == Err::<
                    AliasAction,
                    Seq<char>,
                >(e) && forall|j: int|
                    0 <= j < i ==> flags::alias_action_of(#[trigger] before[j], known) is Ok;
            assert(given[i] == before[i]);
            assert forall|j: int| 0 <= j < i implies flags::alias_action_of(
                #[trigger] given[j],
                known,
            ) is Ok by {
                assert(before[j] == given[j]);
            }
        } else {
            assert forall|j: int| 0 <= j < given.len() - 1 implies flags::alias_action_of(
                #[trigger] given[j],
                known,
            ) == Ok::<AliasAction, Seq<char>>((all_actions(before, known)->Ok_0)[j]) by {
                assert(before[j] == given[j]);
            }
            assert(given[given.len() - 1] == given.last());
        }
    }
}

/// The devices are exactly those that the `--device` flags name: every flag is read, every alias is
/// known, with the address of the last flag that names it, and no other is.
pub proof fn devices_are_those_of_the_flags(cli: Cli, read: Parsed<Seq<u8>>)
    requires
        config_of(cli, read) is Ok,
    ensures
        ({
            let devices = (config_of(cli, read)->Ok_0).devices;
            let flag = |i: int| flags::device_of(cli.device@[i]@);
            &&& forall|i: int|
                #![trigger cli.device@[i]]
                0 <= i < cli.device@.len() ==> flag(i) is Ok && devices.contains_key(
                    (flag(i)->Ok_0).0,
                )
            &&& forall|i: int|
                #![trigger cli.device@[i]]
                0 <= i < cli.device@.len() && (forall|j: int|
                    #![trigger cli.device@[j]]
                    i < j < cli.device@.len() ==> (flag(j)->Ok_0).0 != (flag(i)->Ok_0).0)
                    ==> devices[(flag(i)->Ok_0).0] == (flag(i)->Ok_0).1
            &&& forall|alias: Seq<char>| #[trigger]
                devices.contains_key(alias) ==> exists|i: int|
                    #![trigger cli.device@[i]]
                    0 <= i < cli.device@.len() && (flag(i)->Ok_0).0 == alias
        }),
{
    let given = text::texts(cli.device@);
    let ds = all_devices(given)->Ok_0;
    let devices = (config_of(cli, read)->Ok_0).devices;
    let flag = |i: int| flags::device_of(cli.device@[i]@);
    lemma_all_devices(given);
    lemma_last_wins(ds);
    assert forall|i: int| 0 <= i < ds.len() implies flag(i) == Ok::<AliasIp, Seq<char>>(
        #[trigger] ds[i],
    ) by {
        assert(given[i] == cli.device@[i]@);
    }
    assert forall|i: int|
        #![trigger cli.device@[i]]
        0 <= i < cli.device@.len() implies flag(i) is Ok && devices.contains_key(
        (flag(i)->Ok_0).0,
    ) by {
        assert(devices.contains_key(ds[i].0));
    }
    assert forall|i: int|
        #![trigger cli.device@[i]]
        0 <= i < cli.device@.len() && (forall|j: int|
            #![trigger cli.device@[j]]
            i < j < cli.device@.len() ==> (flag(j)->Ok_0).0 != (flag(i)->Ok_0).0) implies devices[(
    flag(i)->Ok_0).0] == (flag(i)->Ok_0).1 by {
        assert(flag(i)->Ok_0 == ds[i]);
        assert forall|j: int| i < j < ds.len() implies (#[trigger] ds[j]).0 != ds[i].0 by {
            let named = cli.device@[j];
        }
    }
    assert forall|alias: Seq<char>| #[trigger] devices.contains_key(alias) implies exists|i: int|
        #![trigger cli.device@[i]]
        0 <= i < cli.device@.len() && (flag(i)->Ok_0).0 == alias by {
        let i = choose|i: int| 0 <= i < ds.len() && (#[trigger] ds[i]).0 == alias;
        let named = cli.device@[i];
    }
}

/// The routes are exactly those that the `--endpoint` flags name: every flag is read against the
/// devices, every path is routed, to the devices of the last flag that names it, and no other is.
pub proof fn routes_are_those_of_the_flags(cli: Cli, read: Parsed<Seq<u8>>)
    requires
        config_of(cli, read) is Ok,
    ensures
        ({
            let c = config_of(cli, read)->Ok_0;
            let flag = |i: int| flags::endpoint_of(cli.endpoint@[i]@, c.devices.dom());
            &&& forall|i: int|
                #![trigger cli.endpoint@[i]]
                0 <= i < cli.endpoint@.len() ==> flag(i) is Ok && c.routes.contains_key(
                    (flag(i)->Ok_0).0,
                )
            &&& forall|i: int|
                #![trigger cli.endpoint@[i]]
                0 <= i < cli.endpoint@.len() && (forall|j: int|
                    #![trigger cli.endpoint@[j]]
                    i < j < cli.endpoint@.len() ==> (flag(j)->Ok_0).0 != (flag(i)->Ok_0).0)
                    ==> c.routes[(flag(i)->Ok_0).0] == (flag(i)->Ok_0).1
            &&& forall|path: Seq<char>| #[trigger]
                c.routes.contains_key(path) ==> exists|i: int|
                    #![trigger cli.endpoint@[i]]
                    0 <= i < cli.endpoint@.len() && (flag(i)->Ok_0).0 == path
        }),
{
    let c = config_of(cli, read)->Ok_0;
    let given = text::texts(cli.endpoint@);
    let es = all_endpoints(given, c.devices.dom())->Ok_0;
    let flag = |i: int| flags::endpoint_of(cli.endpoint@[i]@, c.devices.dom());
    lemma_all_endpoints(given, c.devices.dom());
    lemma_last_wins(es);
    assert forall|i: int| 0 <= i < es.len() implies flag(i) == Ok::<PathAliases, Seq<char>>(
        #[trigger] es[i],
    ) by {
        assert(given[i] == cli.endpoint@[i]@);
    }
    assert forall|i: int|
        #![trigger cli.endpoint@[i]]
        0 <= i < cli.endpoint@.len() implies flag(i) is Ok && c.routes.contains_key(
        (flag(i)->Ok_0).0,
    ) by {
        assert(c.routes.contains_key(es[i].0));
    }
    assert forall|i: int|
        #![trigger cli.endpoint@[i]]
        0 <= i < cli.endpoint@.len() && (forall|j: int|
            #![trigger cli.endpoint@[j]]
            i < j < cli.endpoint@.len() ==> (flag(j)->Ok_0).0 != (flag(i)->Ok_0).0) implies c.routes[(
    flag(i)->Ok_0).0] == (flag(i)->Ok_0).1 by {
        assert(flag(i)->Ok_0 == es[i]);
        assert forall|j: int| i < j < es.len() implies (#[trigger] es[j]).0 != es[i].0 by {
            let named = cli.endpoint@[j];
        }
    }
    assert forall|path: Seq<char>| #[trigger] c.routes.contains_key(path) implies exists|i: int|
        #![trigger cli.endpoint@[i]]
        0 <= i < cli.endpoint@.len() && (flag(i)->Ok_0).0 == path by {
        let i = choose|i: int| 0 <= i < es.len() && (#[trigger] es[i]).0 == path;
        let named = cli.endpoint@[i];
    }
}

/// The actions of a device are exactly those that the `--action` flags give it, in the order of the
/// flags, and every flag is read against the devices; a device without a flag has none.
pub proof fn actions_are_those_of_the_flags(cli: Cli, read: Parsed<Seq<u8>>, alias: Seq<char>)
    requires
        config_of(cli, read) is Ok,
    ensures
        ({
            let c = config_of(cli, read)->Ok_0;
            let flag = |i: int| flags::alias_action_of(cli.action@[i]@, c.devices.dom());
            forall|i: int|
                #![trigger cli.action@[i]]
                0 <= i < cli.action@.len() ==> flag(i) is Ok && c.actions.contains_key(
                    (flag(i)->Ok_0).0,
                )
        }),
        ({
            let c = config_of(cli, read)->Ok_0;
            let flag = |i: int| flags::alias_action_of(cli.action@[i]@, c.devices.dom());
            c.actions.contains_key(alias) ==> exists|i: int|
                #![trigger cli.action@[i]]
                0 <= i < cli.action@.len() && (flag(i)->Ok_0).0 == alias
        }),
        ({
            let c = config_of(cli, read)->Ok_0;
            let given = Seq::new(
                cli.action@.len(),
                |i: int| flags::alias_action_of(cli.action@[i]@, c.devices.dom())->Ok_0,
            );
            c.actions.contains_key(alias) ==> c.actions[alias] == given.filter(
                |p: AliasAction| p.0 == alias,
            ).map_values(|p: AliasAction| p.1)
        }),
{
    let c = config_of(cli, read)->Ok_0;
    let values = text::texts(cli.action@);
    let pairs = all_actions(values, c.devices.dom())->Ok_0;
    let flag = |i: int| flags::alias_action_of(cli.action@[i]@, c.devices.dom());
    let given = Seq::new(
        cli.action@.len(),
        |i: int| flags::alias_action_of(cli.action@[i]@, c.devices.dom())->Ok_0,
    );
    lemma_all_actions(values, c.devices.dom());
    assert forall|i: int| 0 <= i < pairs.len() implies flag(i) == Ok::<AliasAction, Seq<char>>(
        #[trigger] pairs[i],
    ) by {
        assert(values[i] == cli.action@[i]@);
    }
    assert(given =~= pairs) by {
        assert forall|i: int| 0 <= i < pairs.len() implies #[trigger] given[i] == pairs[i] by {
            assert(flag(i) == Ok::<AliasAction, Seq<char>>(pairs[i]));
        }
    }
    assert(c.actions == grouped(pairs));
    assert forall|i: int|
        #![trigger cli.action@[i]]
        0 <= i < cli.action@.len() implies flag(i) is Ok && c.actions.contains_key(
        (flag(i)->Ok_0).0,
    ) by {
        assert(flag(i)->Ok_0 == pairs[i]);
    }
    if c.actions.contains_key(alias) {
        let i = choose|i: int| 0 <= i < pairs.len() && (#[trigger] pairs[i]).0 == alias;
        let named = cli.action@[i];
        assert(flag(i)->Ok_0 == pairs[i]);
        actions_keep_flag_order(pairs, alias);
    }
}

/// What the command line says beside its lists is taken over as it is.
pub proof fn other_flags_are_taken_over(cli: Cli, read: Parsed<Seq<u8>>)
    requires
        config_of(cli, read) is Ok,
    ensures
        ({
            let c = config_of(cli, read)->Ok_0;
            &&& c.listen == cli.listen@
            &&& c.advertise_url == cli.advertise_url
            &&& c.livestream_url == cli.livestream_url
        }),
{
}

/// A configuration has what its actions need, and a `resume` is the last action of its device.
pub proof fn actions_have_what_they_need(
    cli: Cli,
    read: Parsed<Seq<u8>>,
    alias: Seq<char>,
    i: int,
)
    requires
        config_of(cli, read) matches Ok(c) && c.actions.contains_key(alias) && 0 <= i
            < c.actions[alias].len(),
    ensures
        ({
            let c = config_of(cli, read)->Ok_0;
            let a = c.actions[alias][i];
            &&& a == Action::Doorbell ==> c.doorbell_url is Some
            &&& a == Action::Livestream ==> c.livestream_url is Some
            &&& a == Action::Thumbnail || a is TimedThumbnail ==> c.advertise_url is Some
            &&& a == Action::Resume ==> i == c.actions[alias].len() - 1
            &&& c.devices.contains_key(alias)
        }),
{
    built_configuration_is_valid(cli, read);
    let c = config_of(cli, read)->Ok_0;
    let list = c.actions[alias];
    assert(c.actions.contains_key(alias));
    if i < list.len() - 1 {
        assert(list[i] != Action::Resume);
    }
}

/// The aliases that the `--device` flags name.
pub open spec fn named_devices(cli: Cli) -> Set<Seq<char>> {
    Set::new(
        |alias: Seq<char>|
            exists|i: int|
                #![trigger cli.device@[i]]
                0 <= i < cli.device@.len() && (flags::device_of(cli.device@[i]@) matches Ok(d) && d.0
                    == alias),
    )
}

/// Whether every `--device` flag can be read.
pub open spec fn devices_are_good(cli: Cli) -> bool {
    forall|i: int|
        #![trigger cli.device@[i]]
        0 <= i < cli.device@.len() ==> flags::device_of(cli.device@[i]@) is Ok
}

/// Whether every `--endpoint` flag can be read.
pub open spec fn endpoints_are_good(cli: Cli) -> bool {
    forall|i: int|
        #![trigger cli.endpoint@[i]]
        0 <= i < cli.endpoint@.len() ==> flags::endpoint_of(
            cli.endpoint@[i]@,
            named_devices(cli),
        ) is Ok
}

/// Whether every `--action` flag can be read.
pub open spec fn actions_are_good(cli: Cli) -> bool {
    forall|i: int|
        #![trigger cli.action@[i]]
        0 <= i < cli.action@.len() ==> flags::alias_action_of(
            cli.action@[i]@,
            named_devices(cli),
        ) is Ok
}

/// What the `--action` flag number `i` says.
pub open spec fn action_flag(cli: Cli, i: int) -> AliasAction {
    flags::alias_action_of(cli.action@[i]@, named_devices(cli))->Ok_0
}

proof fn lemma_good_devices(cli: Cli)
    requires
        devices_are_good(cli),
    ensures
        all_devices(text::texts(cli.device@)) is Ok,
        last_wins(all_devices(text::texts(cli.device@))->Ok_0).dom() == named_devices(cli),
{
    let given = text::texts(cli.device@);
    lemma_all_devices(given);
    assert(forall|j: int| 0 <= j < given.len() ==> #[trigger] given[j] == cli.device@[j]@);
    if let Err(e) = all_devices(given) {
        let i = choose|i: int|
            0 <= i < given.len() && flags::device_of(#[trigger] given[i]) == Err::<
                AliasIp,
                Seq<char>,
            >(e) && forall|j: int| 0 <= j < i ==> flags::device_of(#[trigger] given[j]) is Ok;
        assert(flags::device_of(cli.device@[i]@) is Ok);
    }
    let ds = all_devices(given)->Ok_0;
    lemma_last_wins(ds);
    assert forall|a: Seq<char>| last_wins(ds).dom().contains(a) <==> #[trigger] named_devices(
        cli,
    ).contains(a) by {
        if last_wins(ds).contains_key(a) {
            let i = choose|i: int| 0 <= i < ds.len() && (#[trigger] ds[i]).0 == a;
            assert(flags::device_of(given[i]) == Ok::<AliasIp, Seq<char>>(ds[i]));
            assert(flags::device_of(cli.device@[i]@) == Ok::<AliasIp, Seq<char>>(ds[i]));
        }
        if named_devices(cli).contains(a) {
            let i = choose|i: int|
                #![trigger cli.device@[i]]
                0 <= i < cli.device@.len() && (flags::device_of(cli.device@[i]@) matches Ok(d) && d.0
                    == a);
            assert(flags::device_of(given[i]) == Ok::<AliasIp, Seq<char>>(ds[i]));
            assert(last_wins(ds).contains_key(ds[i].0));
        }
    }
    assert(last_wins(ds).dom() =~= named_devices(cli));
}

proof fn lemma_good_endpoints(cli: Cli)
    requires
        endpoints_are_good(cli),
    ensures
        all_endpoints(text::texts(cli.endpoint@), named_devices(cli)) is Ok,
{
    let known = named_devices(cli);
    let given = text::texts(cli.endpoint@);
    lemma_all_endpoints(given, known);
    if let Err(e) = all_endpoints(given, known) {
        let i = choose|i: int|
            0 <= i < given.len() && flags::endpoint_of(#[trigger] given[i], known) == Err::<
                PathAliases,
                Seq<char>,
            >(e) && forall|j: int|
                0 <= j < i ==> flags::endpoint_of(#[trigger] given[j], known) is Ok;
        assert(given[i] == cli.endpoint@[i]@);
    }
}

proof fn lemma_good_actions(cli: Cli)
    requires
        actions_are_good(cli),
    ensures
        all_actions(text::texts(cli.action@), named_devices(cli)) matches Ok(ps) && ps.len()
            == cli.action@.len() && forall|i: int|
            0 <= i < ps.len() ==> #[trigger] ps[i] == action_flag(cli, i),
{
    let known = named_devices(cli);
    let given = text::texts(cli.action@);
    lemma_all_actions(given, known);
    if let Err(e) = all_actions(given, known) {
        let i = choose|i: int|
            0 <= i < given.len() && flags::alias_action_of(#[trigger] given[i], known) == Err::<
                AliasAction,
                Seq<char>,
            >(e) && forall|j: int|
                0 <= j < i ==> flags::alias_action_of(#[trigger] given[j], known) is Ok;
        assert(given[i] == cli.action@[i]@);
    }
    let ps = all_actions(given, known)->Ok_0;
    assert forall|i: int| 0 <= i < ps.len() implies #[trigger] ps[i] == action_flag(cli, i) by {
        assert(given[i] == cli.action@[i]@);
    }
}

/// The first device flag that cannot be read refuses the whole command line, with its complaint.
pub proof fn first_bad_device_is_reported(cli: Cli, read: Parsed<Seq<u8>>, i: int)
    requires
        0 <= i < cli.device@.len(),
        flags::device_of(cli.device@[i]@) is Err,
        forall|j: int| 0 <= j < i ==> flags::device_of((#[trigger] cli.device@[j])@) is Ok,
    ensures
        config_of(cli, read) == Err::<ConfigView, Seq<char>>(
            flags::device_of(cli.device@[i]@)->Err_0,
        ),
{
    let given = text::texts(cli.device@);
    lemma_all_devices(given);
    assert(forall|j: int| 0 <= j < given.len() ==> #[trigger] given[j] == cli.device@[j]@);
    assert(flags::device_of(given[i]) is Err);
    let e = all_devices(given)->Err_0;
    let k = choose|k: int|
        0 <= k < given.len() && flags::device_of(#[trigger] given[k]) == Err::<AliasIp, Seq<char>>(e)
            && forall|j: int| 0 <= j < k ==> flags::device_of(#[trigger] given[j]) is Ok;
    assert(cli.device@[k]@ == given[k]);
    assert(k == i);
}

/// Where the devices are good, the first endpoint flag that cannot be read refuses the whole command
/// line, with its complaint.
pub proof fn first_bad_endpoint_is_reported(cli: Cli, read: Parsed<Seq<u8>>, i: int)
    requires
        devices_are_good(cli),
        0 <= i < cli.endpoint@.len(),
        flags::endpoint_of(cli.endpoint@[i]@, named_devices(cli)) is Err,
        forall|j: int|
            0 <= j < i ==> flags::endpoint_of(
                (#[trigger] cli.endpoint@[j])@,
                named_devices(cli),
            ) is Ok,
    ensures
        config_of(cli, read) == Err::<ConfigView, Seq<char>>(
            flags::endpoint_of(cli.endpoint@[i]@, named_devices(cli))->Err_0,
        ),
{
    lemma_good_devices(cli);
    let known = named_devices(cli);
    let given = text::texts(cli.endpoint@);
    lemma_all_endpoints(given, known);
    assert(forall|j: int| 0 <= j < given.len() ==> #[trigger] given[j] == cli.endpoint@[j]@);
    assert(flags::endpoint_of(given[i], known) is Err);
    let e = all_endpoints(given, known)->Err_0;
    let k = choose|k: int|
        0 <= k < given.len() && flags::endpoint_of(#[trigger] given[k], known) == Err::<
            PathAliases,
            Seq<char>,
        >(e) && forall|j: int| 0 <= j < k ==> flags::endpoint_of(#[trigger] given[j], known) is Ok;
    assert(cli.endpoint@[k]@ == given[k]);
    assert(k == i);
}

/// Where the devices and the endpoints are good, the first action flag that cannot be read refuses
/// the whole command line, with its complaint.
pub proof fn first_bad_action_is_reported(cli: Cli, read: Parsed<Seq<u8>>, i: int)
    requires
        devices_are_good(cli),
        endpoints_are_good(cli),
        0 <= i < cli.action@.len(),
        flags::alias_action_of(cli.action@[i]@, named_devices(cli)) is Err,
        forall|j: int|
            0 <= j < i ==> flags::alias_action_of(
                (#[trigger] cli.action@[j])@,
                named_devices(cli),
            ) is Ok,
    ensures
        config_of(cli, read) == Err::<ConfigView, Seq<char>>(
            flags::alias_action_of(cli.action@[i]@, named_devices(cli))->Err_0,
        ),
{
    lemma_good_devices(cli);
    lemma_good_endpoints(cli);
    let known = named_devices(cli);
    let given = text::texts(cli.action@);
    lemma_all_actions(given, known);
    assert(forall|j: int| 0 <= j < given.len() ==> #[trigger] given[j] == cli.action@[j]@);
    assert(flags::alias_action_of(given[i], known) is Err);
    let e = all_actions(given, known)->Err_0;
    let k = choose|k: int|
        0 <= k < given.len() && flags::alias_action_of(#[trigger] given[k], known) == Err::<
            AliasAction,
            Seq<char>,
        >(e) && forall|j: int|
            0 <= j < k ==> flags::alias_action_of(#[trigger] given[j], known) is Ok;
    assert(cli.action@[k]@ == given[k]);
    assert(k == i);
}

proof fn lemma_listed_actions(pairs: Seq<AliasAction>, alias: Seq<char>)
    ensures
        forall|k: int|
            0 <= k < actions_for(pairs, alias).len() ==> exists|i: int|
                0 <= i < pairs.len() && #[trigger] pairs[i] == (
                    alias,
                    #[trigger] actions_for(pairs, alias)[k],
                ),
        forall|i: int|
            0 <= i < pairs.len() && (#[trigger] pairs[i]).0 == alias ==> actions_for(
                pairs,
                alias,
            ).contains(pairs[i].1),
    decreases pairs.len(),
{
    if pairs.len() > 0 {
        let before = pairs.drop_last();
        lemma_listed_actions(before, alias);
        let list = actions_for(pairs, alias);
        let front = actions_for(before, alias);
        assert forall|k: int| 0 <= k < list.len() implies exists|i: int|
            0 <= i < pairs.len() && #[trigger] pairs[i] == (alias, #[trigger] list[k]) by {
            if k < front.len() {
                assert(list[k] == front[k]);
                let i = choose|i: int|
                    0 <= i < before.len() && #[trigger] before[i] == (alias, front[k]);
                assert(pairs[i] == (alias, list[k]));
            } else {
                assert(pairs[pairs.len() - 1] == (alias, list[k]));
            }
        }
        assert forall|i: int| 0 <= i < pairs.len() && (#[trigger] pairs[i]).0 == alias implies list.contains(
        pairs[i].1) by {
            if i < before.len() {
                assert(before[i] == pairs[i]);
                let k = choose|k: int| 0 <= k < front.len() && front[k] == pairs[i].1;
                assert(list[k] == pairs[i].1);
            } else {
                assert(list[list.len() - 1] == pairs[i].1);
            }
        }
    }
}

proof fn lemma_no_resume_misplaced(pairs: Seq<AliasAction>, alias: Seq<char>)
    requires
        forall|i: int, j: int|
            0 <= i < j < pairs.len() && (#[trigger] pairs[i]).0 == (#[trigger] pairs[j]).0
                ==> pairs[i].1 != Action::Resume,
    ensures
        resume_comes_last(actions_for(pairs, alias)),
    decreases pairs.len(),
{
    if pairs.len() > 0 {
        let before = pairs.drop_last();
        assert forall|i: int, j: int|
            0 <= i < j < before.len() && (#[trigger] before[i]).0 == (
            #[trigger] before[j]).0 implies before[i].1 != Action::Resume by {
            assert(pairs[i].0 == pairs[j].0);
        }
        lemma_no_resume_misplaced(before, alias);
        lemma_listed_actions(before, alias);
        let front = actions_for(before, alias);
        let list = actions_for(pairs, alias);
        if pairs.last().0 == alias {
            assert forall|k: int| 0 <= k < list.len() - 1 implies #[trigger] list[k]
                != Action::Resume by {
                assert(list[k] == front[k]);
                let i = choose|i: int|
                    0 <= i < before.len() && #[trigger] before[i] == (alias, front[k]);
                assert(pairs[i].0 == pairs[pairs.len() - 1].0);
            }
        }
    }
}

proof fn lemma_none_misplaced(pairs: Seq<AliasAction>, from: int)
    requires
        0 <= from,
        forall|i: int|
            0 <= i < pairs.len() ==> resume_comes_last(
                actions_for(pairs, (#[trigger] pairs[i]).0),
            ),
    ensures
        misplaced_resume(pairs, from) is None,
    decreases pairs.len() - from,
{
    if from < pairs.len() {
        lemma_none_misplaced(pairs, from + 1);
        assert(resume_comes_last(actions_for(pairs, pairs[from].0)));
    }
}

proof fn lemma_needs(cli: Cli, pairs: Seq<AliasAction>, n: Need)
    requires
        pairs.len() == cli.action@.len(),
        forall|i: int| 0 <= i < pairs.len() ==> #[trigger] pairs[i] == action_flag(cli, i),
    ensures
        any_needs(grouped(pairs), n) <==> exists|i: int|
            0 <= i < cli.action@.len() && needs((#[trigger] action_flag(cli, i)).1, n),
{
    let actions = grouped(pairs);
    if any_needs(actions, n) {
        let a = choose|a: Seq<char>| #[trigger] actions.contains_key(a) && list_needs(actions[a], n);
        let k = choose|k: int| 0 <= k < actions[a].len() && needs(#[trigger] actions[a][k], n);
        lemma_listed_actions(pairs, a);
        let i = choose|i: int|
            0 <= i < pairs.len() && #[trigger] pairs[i] == (a, actions_for(pairs, a)[k]);
        assert(needs(action_flag(cli, i).1, n));
    }
    if exists|i: int| 0 <= i < cli.action@.len() && needs((#[trigger] action_flag(cli, i)).1, n) {
        let i = choose|i: int|
            0 <= i < cli.action@.len() && needs((#[trigger] action_flag(cli, i)).1, n);
        let a = pairs[i].0;
        lemma_listed_actions(pairs, a);
        let list = actions_for(pairs, a);
        let k = choose|k: int| 0 <= k < list.len() && list[k] == pairs[i].1;
        assert(needs(list[k], n));
        assert(actions.contains_key(a));
    }
}

/// A command line whose flags can all be read, with no action of a device behind its `resume` and
/// at most one doorbell, whose file was read and has a base URL to be served below, is accepted; but
/// for the first of these that is missing: a doorbell where one is to ring, a stream where one is to
/// be played, and a base URL where an image is to be shown.
pub proof fn good_command_line_is_accepted(cli: Cli, read: Parsed<Seq<u8>>)
    requires
        devices_are_good(cli),
        endpoints_are_good(cli),
        actions_are_good(cli),
        forall|i: int, j: int|
            0 <= i < j < cli.action@.len() && (#[trigger] action_flag(cli, i)).0 == (
            #[trigger] action_flag(cli, j)).0 ==> action_flag(cli, i).1 != Action::Resume,
        cli.doorbell_url is None || cli.doorbell_file is None,
        cli.doorbell_file is Some ==> cli.advertise_url is Some && read is Ok,
    ensures
        ({
            let given = |a: Action|
                exists|i: int| 0 <= i < cli.action@.len() && (#[trigger] action_flag(cli, i)).1 == a;
            let shown = exists|i: int|
                0 <= i < cli.action@.len() && ((#[trigger] action_flag(cli, i)).1
                    == Action::Thumbnail || action_flag(cli, i).1 is TimedThumbnail);
            if given(Action::Doorbell) && cli.doorbell_url is None && cli.doorbell_file is None {
                config_of(cli, read) == Err::<ConfigView, Seq<char>>(
                    "doorbell-url or doorbell-file required for doorbell actions"@,
                )
            } else if given(Action::Livestream) && cli.livestream_url is None {
                config_of(cli, read) == Err::<ConfigView, Seq<char>>(
                    "--livestream-url required for livestream actions"@,
                )
            } else if shown && cli.advertise_url is None {
                config_of(cli, read) == Err::<ConfigView, Seq<char>>(
                    "--advertise-url required for image actions"@,
                )
            } else {
                config_of(cli, read) is Ok
            }
        }),
{
    lemma_good_devices(cli);
    lemma_good_endpoints(cli);
    lemma_good_actions(cli);
    let pairs = all_actions(text::texts(cli.action@), named_devices(cli))->Ok_0;
    assert forall|i: int, j: int|
        0 <= i < j < pairs.len() && (#[trigger] pairs[i]).0 == (
        #[trigger] pairs[j]).0 implies pairs[i].1 != Action::Resume by {
        assert(action_flag(cli, i).0 == action_flag(cli, j).0);
    }
    assert forall|i: int| 0 <= i < pairs.len() implies resume_comes_last(
        actions_for(pairs, (#[trigger] pairs[i]).0),
    ) by {
        lemma_no_resume_misplaced(pairs, pairs[i].0);
    }
    lemma_none_misplaced(pairs, 0);
    lemma_needs(cli, pairs, Need::Doorbell);
    lemma_needs(cli, pairs, Need::Livestream);
    lemma_needs(cli, pairs, Need::Thumbnail);
    let shown = exists|i: int|
        0 <= i < cli.action@.len() && ((#[trigger] action_flag(cli, i)).1 == Action::Thumbnail
            || action_flag(cli, i).1 is TimedThumbnail);
    assert(shown <==> any_needs(grouped(pairs), Need::Thumbnail)) by {
        if shown {
            let i = choose|i: int|
                0 <= i < cli.action@.len() && ((#[trigger] action_flag(cli, i)).1
                    == Action::Thumbnail || action_flag(cli, i).1 is TimedThumbnail);
            assert(needs(action_flag(cli, i).1, Need::Thumbnail));
        }
        if any_needs(grouped(pairs), Need::Thumbnail) {
            let i = choose|i: int|
                0 <= i < cli.action@.len() && needs(
                    (#[trigger] action_flag(cli, i)).1,
                    Need::Thumbnail,
                );
            assert(action_flag(cli, i).1 == Action::Thumbnail || action_flag(
                cli,
                i,
            ).1 is TimedThumbnail);
        }
    }
    let rings = exists|i: int|
        0 <= i < cli.action@.len() && (#[trigger] action_flag(cli, i)).1 == Action::Doorbell;
    assert(rings <==> any_needs(grouped(pairs), Need::Doorbell));
    let streams = exists|i: int|
        0 <= i < cli.action@.len() && (#[trigger] action_flag(cli, i)).1 == Action::Livestream;
    assert(streams <==> any_needs(grouped(pairs), Need::Livestream));
}

/// What else refuses a command line whose flags can all be read: an action behind the `resume` of its
/// device, two doorbells, a doorbell file without a base URL to serve it below, and one that could
/// not be read.
pub proof fn unfit_command_line_is_refused(cli: Cli, read: Parsed<Seq<u8>>)
    requires
        devices_are_good(cli),
        endpoints_are_good(cli),
        actions_are_good(cli),
    ensures
        (exists|i: int, j: int|
            0 <= i < j < cli.action@.len() && (#[trigger] action_flag(cli, i)).0 == (
            #[trigger] action_flag(cli, j)).0 && action_flag(cli, i).1 == Action::Resume)
            ==> (config_of(cli, read) matches Err(e) && exists|k: int|
            0 <= k < cli.action@.len() && e == "--action "@ + (#[trigger] action_flag(cli, k)).0
                + ":resume must be the last action for device '"@ + action_flag(cli, k).0 + "'"@),
        cli.doorbell_url is Some && cli.doorbell_file is Some ==> config_of(cli, read) is Err,
        cli.doorbell_file is Some && cli.advertise_url is None ==> config_of(cli, read) is Err,
        cli.doorbell_file is Some && read is Err ==> config_of(cli, read) is Err,
{
    if exists|i: int, j: int|
        0 <= i < j < cli.action@.len() && (#[trigger] action_flag(cli, i)).0 == (
        #[trigger] action_flag(cli, j)).0 && action_flag(cli, i).1 == Action::Resume {
        let (i, j) = choose|i: int, j: int|
            0 <= i < j < cli.action@.len() && (#[trigger] action_flag(cli, i)).0 == (
            #[trigger] action_flag(cli, j)).0 && action_flag(cli, i).1 == Action::Resume;
        lemma_good_devices(cli);
        lemma_good_actions(cli);
        let pairs = all_actions(text::texts(cli.action@), named_devices(cli))->Ok_0;
        assert(pairs[i] == action_flag(cli, i) && pairs[j] == action_flag(cli, j));
        lemma_misplaced(pairs, i, j);
        if misplaced_resume(pairs, 0) is None {
            lemma_resume_last(pairs, 0);
            assert(resume_comes_last(actions_for(pairs, pairs[i].0)));
        }
        lemma_misplaced_is_given(pairs, 0);
        lemma_good_endpoints(cli);
        let k = choose|k: int|
            0 <= k < pairs.len() && (#[trigger] pairs[k]).0 == misplaced_resume(pairs, 0)->0;
        assert(pairs[k] == action_flag(cli, k));
    }
}

proof fn lemma_misplaced_is_given(pairs: Seq<AliasAction>, from: int)
    requires
        0 <= from,
    ensures
        misplaced_resume(pairs, from) matches Some(a) ==> exists|k: int|
            0 <= k < pairs.len() && (#[trigger] pairs[k]).0 == a,
    decreases pairs.len() - from,
{
    if from < pairs.len() {
        lemma_misplaced_is_given(pairs, from + 1);
        if !resume_comes_last(actions_for(pairs, pairs[from].0)) {
            assert(misplaced_resume(pairs, from) == Some(pairs[from].0));
        }
    }
}

proof fn lemma_misplaced(pairs: Seq<AliasAction>, i: int, j: int)
    requires
        0 <= i < j < pairs.len(),
        pairs[i].0 == pairs[j].0,
        pairs[i].1 == Action::Resume,
    ensures
        !resume_comes_last(actions_for(pairs, pairs[i].0)),
    decreases pairs.len(),
{
    let before = pairs.drop_last();
    let alias = pairs[i].0;
    let front = actions_for(before, alias);
    let list = actions_for(pairs, alias);
    if j < pairs.len() - 1 {
        lemma_misplaced(before, i, j);
        let k = choose|k: int| 0 <= k < front.len() - 1 && #[trigger] front[k] == Action::Resume;
        assert(list[k] == Action::Resume);
    } else {
        lemma_listed_actions(before, alias);
        assert(before[i] == pairs[i]);
        let k = choose|k: int| 0 <= k < front.len() && front[k] == Action::Resume;
        assert(list[k] == Action::Resume);
    }
}

/// The model of a configuration is what its fields hold.
pub proof fn configuration_is_its_fields(c: Config)
    ensures
        c@.listen == c.listen@,
        c@.advertise_url == c.advertise_url,
        c@.livestream_url == c.livestream_url,
        c@.thumbnails == c.thumbnails@,
        c.doorbell_url matches Some(u) ==> c@.doorbell_url == Some(u@),
        c.doorbell_url is None ==> c@.doorbell_url is None,
        c.doorbell_bytes matches Some(b) ==> c@.doorbell_bytes == Some(b@),
        c.doorbell_bytes is None ==> c@.doorbell_bytes is None,
        c@.devices.dom() == c.devices@.dom(),
        c@.routes.dom() == c.routes@.dom(),
        c@.actions.dom() == c.actions@.dom(),
        forall|a: Seq<char>| #[trigger]
            c.devices@.contains_key(a) ==> c@.devices[a] == c.devices@[a]@,
        forall|p: Seq<char>, i: int|
            #![trigger c.routes@[p]@[i]]
            c.routes@.contains_key(p) && 0 <= i < c.routes@[p]@.len() ==> c@.routes[p][i]
                == c.routes@[p]@[i]@,
        forall|p: Seq<char>| #[trigger]
            c.routes@.contains_key(p) ==> c@.routes[p].len() == c.routes@[p]@.len(),
        forall|a: Seq<char>| #[trigger]
            c.actions@.contains_key(a) ==> c@.actions[a] == c.actions@[a]@,
{
    assert(c@.devices.dom() =~= c.devices@.dom());
    assert(c@.routes.dom() =~= c.routes@.dom());
    assert(c@.actions.dom() =~= c.actions@.dom());
}

/// The doorbell file is read just where one is named, and the command line otherwise fits.
pub proof fn named_file_is_wanted(cli: Cli)
    ensures
        draft_of(cli) matches Ok(d) ==> (cli.doorbell_file is Some <==> d.doorbell matches Some(
            DoorbellSource::File(_),
        )),
        draft_of(cli) matches Ok(d) ==> (d.doorbell matches Some(DoorbellSource::File(f))
            ==> cli.doorbell_file == Some(f)),
        draft_of(cli) matches Ok(d) ==> (d.doorbell matches Some(DoorbellSource::Url(u))
            ==> cli.doorbell_url == Some(u)),
{
}

/// A doorbell file that could not be read is reported by its name and the reason.
pub proof fn unread_file_is_reported(cli: Cli, file: String, e: Seq<char>)
    requires
        draft_of(cli) is Ok,
        cli.doorbell_file == Some(file),
    ensures
        config_of(cli, Err(e)) == Err::<ConfigView, Seq<char>>(
            "read doorbell file '"@ + file@ + "': "@ + e,
        ),
{
}

} // verus!
