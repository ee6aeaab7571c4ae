//! IP addresses, and URLs and their hosts.
use crate::text;
use vstd::prelude::*;

verus! {

/// An IP address.
#[derive(Clone, Debug, PartialEq, Eq)]
pub enum Ip {
    /// The four octets of an IPv4 address.
    V4([u8; 4]),
    /// The eight segments of an IPv6 address.
    V6([u16; 8]),
}

/// The model of an [`Ip`].
pub enum IpView {
    V4(Seq<u8>),
    V6(Seq<u16>),
}

impl View for Ip {
    type V = IpView;

    open spec fn view(&self) -> IpView {
        match self {
            Ip::V4(a) => IpView::V4(a@),
            Ip::V6(a) => IpView::V6(a@),
        }
    }
}

/// The view of an address that may be missing.
pub open spec fn ip_option(a: Option<Ip>) -> Option<IpView> {
    match a {
        Some(ip) => Some(ip@),
        None => None,
    }
}

/// The address that a text writes; `None` where it writes none.
pub uninterp spec fn ip_of(s: Seq<char>) -> Option<IpView>;

/// Reads an address with the `from_str` of `core::net::IpAddr`, and takes out its octets or its
/// segments. The result depends on the text alone and is named `ip_of`; nothing more is claimed.
#[verifier::external_body]
pub(crate) fn read_ip(s: &str) -> (r: Option<Ip>)
    ensures
        ip_option(r) == ip_of(s@),
{
    match s.parse::<core::net::IpAddr>() {
        Ok(core::net::IpAddr::V4(a)) => Some(Ip::V4(a.octets())),
        Ok(core::net::IpAddr::V6(a)) => Some(Ip::V6(a.segments())),
        Err(_) => None,
    }
}

/// How the segments of an IPv6 address are written.
pub uninterp spec fn segments_text(segments: Seq<u16>) -> Seq<char>;

/// Writes an IPv6 address with the `Display` of `core::net::Ipv6Addr`. The result depends on the
/// segments alone and is named `segments_text`; which zeros are left out is not claimed.
#[verifier::external_body]
fn write_segments(segments: &[u16; 8]) -> (r: String)
    ensures
        r@ == segments_text(segments@),
{
    core::net::Ipv6Addr::from(*segments).to_string()
}

/// How the octets of an IPv4 address are written: in decimal, with dots between them.
pub open spec fn octets_text(a: Seq<u8>) -> Seq<char> {
    text::decimal(a[0] as nat) + "."@ + text::decimal(a[1] as nat) + "."@ + text::decimal(
        a[2] as nat,
    ) + "."@ + text::decimal(a[3] as nat)
}

/// How an address is written.
pub open spec fn ip_text(ip: IpView) -> Seq<char> {
    match ip {
        IpView::V4(a) => octets_text(a),
        IpView::V6(a) => segments_text(a),
    }
}

/// Writes an address.
pub fn write_ip(ip: &Ip) -> (r: String)
    ensures
        r@ == ip_text(ip@),
{
    match ip {
        Ip::V4(a) => {
            let front = text::join3(
                text::decimal_text(a[0] as u64).as_str(),
                ".",
                text::decimal_text(a[1] as u64).as_str(),
            );
            text::join5(
                front.as_str(),
                ".",
                text::decimal_text(a[2] as u64).as_str(),
                ".",
                text::decimal_text(a[3] as u64).as_str(),
            )
        },
        Ip::V6(a) => write_segments(a),
    }
}

/// The host of a URL.
#[derive(Clone, Debug)]
pub enum Host {
    Domain(String),
    /// The four octets of an IPv4 address.
    Ipv4([u8; 4]),
    /// The eight segments of an IPv6 address.
    Ipv6([u16; 8]),
}

/// The model of a [`Host`].
pub enum HostView {
    Domain(Seq<char>),
    Ipv4(Seq<u8>),
    Ipv6(Seq<u16>),
}

impl View for Host {
    type V = HostView;

    open spec fn view(&self) -> HostView {
        match self {
            Host::Domain(d) => HostView::Domain(d@),
            Host::Ipv4(a) => HostView::Ipv4(a@),
            Host::Ipv6(a) => HostView::Ipv6(a@),
        }
    }
}

/// An absolute URL: how it is written in full, and its host.
#[derive(Clone, Debug)]
pub struct Url {
    pub href: String,
    pub host: Option<Host>,
}

/// The model of a [`Url`].
pub struct UrlView {
    pub href: Seq<char>,
    pub host: Option<HostView>,
}

impl View for Url {
    type V = UrlView;

    open spec fn view(&self) -> UrlView {
        UrlView {
            href: self.href@,
            host: match self.host {
                Some(h) => Some(h@),
                None => None,
            },
        }
    }
}

/// What the URL standard's parser makes of `s`: the URL, or the text of its error.
pub uninterp spec fn url_of(s: Seq<char>) -> Result<UrlView, Seq<char>>;

/// Parses with `url::Url::parse` and takes out of the result what its `as_str` and `host` give.
/// All of it depends on the text alone and is named `url_of`; nothing more is claimed.
#[verifier::external_body]
fn read_url(s: &str) -> (r: Result<Url, String>)
    ensures
        match r {
            Ok(u) => url_of(s@) == Ok::<UrlView, Seq<char>>(u@),
            Err(e) => url_of(s@) == Err::<UrlView, Seq<char>>(e@),
        },
{
    let u = url::Url::parse(s).map_err(|e| e.to_string())?;
    let host = match u.host() {
        Some(url::Host::Domain(d)) => Some(Host::Domain(d.to_string())),
        Some(url::Host::Ipv4(a)) => Some(Host::Ipv4(a.octets())),
        Some(url::Host::Ipv6(a)) => Some(Host::Ipv6(a.segments())),
        None => None,
    };
    Ok(Url { href: u.as_str().to_string(), host })
}

impl Url {
    /// Parses an absolute URL.
    pub fn parse(s: &str) -> (r: Result<Url, String>)
        ensures
            match r {
                Ok(u) => url_of(s@) == Ok::<UrlView, Seq<char>>(u@),
                Err(e) => url_of(s@) == Err::<UrlView, Seq<char>>(e@),
            },
    {
        read_url(s)
    }

    /// The URL as it is written in full.
    pub fn as_str(&self) -> (r: &str)
        ensures
            r@ == self@.href,
    {
        self.href.as_str()
    }
}

/// Whether a host is the machine itself: `localhost`, an IPv4 address of `127.0.0.0/8`, or `::1`.
pub open spec fn host_is_local(host: Option<HostView>) -> bool {
    match host {
        Some(HostView::Domain(d)) => d == "localhost"@,
        Some(HostView::Ipv4(a)) => a[0] == 127,
        Some(HostView::Ipv6(a)) => a == seq![0u16, 0, 0, 0, 0, 0, 0, 1],
        None => false,
    }
}

/// Whether an advertise URL points at the machine itself, which another device cannot reach.
pub fn advertise_is_local(url: &Url) -> (r: bool)
    ensures
        r == host_is_local(url@.host),
{
    match &url.host {
        Some(Host::Domain(d)) => text::same_text(d.as_str(), "localhost"),
        Some(Host::Ipv4(a)) => a[0] == 127,
        Some(Host::Ipv6(a)) => {
            let r = a[0] == 0 && a[1] == 0 && a[2] == 0 && a[3] == 0 && a[4] == 0 && a[5] == 0
                && a[6] == 0 && a[7] == 1;
            proof {
                if r {
                    assert(a@ =~= seq![0u16, 0, 0, 0, 0, 0, 0, 1]);
                }
            }
            r
        },
        None => false,
    }
}

/// A path below a base URL; slashes at the end of the base do not count.
pub open spec fn below(base: Seq<char>, path: Seq<char>) -> Seq<char> {
    text::trim_end_char(base, '/') + path
}

/// A path goes right behind a base URL, the whole of it, whatever number of slashes the base ends
/// with.
pub proof fn path_follows_its_base(base: Seq<char>, slashes: Seq<char>, path: Seq<char>)
    requires
        base.len() > 0 ==> base.last() != '/',
        forall|i: int| 0 <= i < slashes.len() ==> #[trigger] slashes[i] == '/',
    ensures
        below(base + slashes, path) == base + path,
{
    text::stripping_takes_the_run_at_the_end(base, '/', slashes);
}

/// An IPv4 address is written with four numbers that a dot keeps apart: those of its octets, in
/// order.
pub proof fn octets_are_read_back(a: Seq<u8>)
    requires
        a.len() == 4,
    ensures
        ({
            let parts = text::split_all(ip_text(IpView::V4(a)), '.');
            parts.len() == 4 && forall|i: int|
                0 <= i < 4 ==> parts[i] == text::decimal(a[i] as nat) && text::unsigned_number(
                    #[trigger] parts[i],
                ) == Some(a[i] as u64)
        }),
{
    reveal_strlit(".");
    let d = |i: int| text::decimal(a[i] as nat);
    assert("."@ =~= seq!['.']);
    lemma_no_dot(a[0] as nat);
    lemma_no_dot(a[1] as nat);
    lemma_no_dot(a[2] as nat);
    lemma_no_dot(a[3] as nat);
    let third = d(2) + seq!['.'] + d(3);
    let second = d(1) + seq!['.'] + third;
    let whole = d(0) + seq!['.'] + second;
    assert(ip_text(IpView::V4(a)) =~= whole);
    text::cutting_all_undoes_joining(d(0), '.', second);
    text::cutting_all_undoes_joining(d(1), '.', third);
    text::cutting_all_undoes_joining(d(2), '.', d(3));
    text::cutting_all_undoes_joining(d(3), '.', seq![]);
    let parts = text::split_all(whole, '.');
    assert(parts =~= seq![d(0), d(1), d(2), d(3)]);
    assert forall|i: int| 0 <= i < 4 implies parts[i] == text::decimal(a[i] as nat)
        && text::unsigned_number(#[trigger] parts[i]) == Some(a[i] as u64) by {
        text::written_numbers_are_read_back(a[i] as nat);
    }
}

proof fn lemma_no_dot(n: nat)
    ensures
        !text::decimal(n).contains('.'),
    decreases n,
{
    if n >= 10 {
        lemma_no_dot(n / 10);
        let (front, all) = (text::decimal(n / 10), text::decimal(n));
        assert forall|i: int| 0 <= i < all.len() implies all[i] != '.' by {
            if i < front.len() {
                assert(front.contains(front[i]));
            }
        }
    }
}

/// The hosts that are this machine: the name `localhost`, every address that starts with the octet
/// 127, and the address whose segments are all zero but the last, which is one.
pub proof fn local_hosts(name: Seq<char>, octets: Seq<u8>, segments: Seq<u16>)
    requires
        segments.len() == 8,
    ensures
        host_is_local(Some(HostView::Domain(name))) <==> name == "localhost"@,
        host_is_local(Some(HostView::Ipv4(octets))) <==> octets[0] == 127,
        host_is_local(Some(HostView::Ipv6(segments))) <==> segments[7] == 1 && forall|i: int|
            0 <= i < 7 ==> #[trigger] segments[i] == 0,
        !host_is_local(None),
{
    let one = seq![0u16, 0, 0, 0, 0, 0, 0, 1];
    if segments[7] == 1 && forall|i: int| 0 <= i < 7 ==> #[trigger] segments[i] == 0 {
        assert(segments =~= one);
    }
    if segments == one {
        assert forall|i: int| 0 <= i < 7 implies #[trigger] segments[i] == 0 by {
            assert(one[i] == 0);
        }
    }
}

/// The model of a URL and of an address is what their fields hold.
pub proof fn addresses_are_their_fields(u: Url, octets: [u8; 4], segments: [u16; 8])
    ensures
        u@.href == u.href@,
        u.host is None ==> u@.host is None,
        u.host matches Some(Host::Domain(d)) ==> u@.host == Some(HostView::Domain(d@)),
        u.host matches Some(Host::Ipv4(a)) ==> u@.host == Some(HostView::Ipv4(a@)),
        u.host matches Some(Host::Ipv6(a)) ==> u@.host == Some(HostView::Ipv6(a@)),
        Ip::V4(octets)@ == IpView::V4(octets@),
        Ip::V6(segments)@ == IpView::V6(segments@),
{
}

} // verus!
