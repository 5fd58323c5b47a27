//! Passing events on to a consumer on the same machine.
//!
//! This is a side road. Recording, transcribing and storing do not depend on it, and
//! nothing about a consumer may make them wait. A full outbox drops what comes last and
//! counts it, a lost connection is retried further and further apart, and commands from
//! a consumer are run one after another out of a short queue.

use crate::loopback::{is_loopback, is_loopback_address};
use crate::text::{
    ascii_lower, begins_with, chars_of, decimal, decimal_text, opt_view, same, string_of,
    to_ascii_lower, trim, trimmed, views,
};
use std::collections::VecDeque;
use vstd::prelude::*;
use vstd::string::*;

verus! {

// ---------------------------------------------------------------------------
// Where to connect to
// ---------------------------------------------------------------------------

/// What is read of an address: its scheme and its host, without user and port.
#[derive(Debug, PartialEq, Eq)]
pub struct UriParts {
    pub scheme: Option<String>,
    pub host: Option<String>,
}

pub struct UriPartsView {
    pub scheme: Option<Seq<char>>,
    pub host: Option<Seq<char>>,
}

impl View for UriParts {
    type V = UriPartsView;

    open spec fn view(&self) -> UriPartsView {
        UriPartsView { scheme: opt_view(self.scheme), host: opt_view(self.host) }
    }
}

/// The scheme and the host of a text that is a URI.
pub uninterp spec fn uri_parts(text: Seq<char>) -> Option<UriPartsView>;

/// `http::Uri` read from a text, with `scheme_str` and `host` of the result. Whether the
/// text is a URI, and what its parts are, depends on the text alone. A scheme is the
/// beginning of the text, up to the case of its letters, and `://` follows it.
#[verifier::external_body]
fn parse_uri(text: &str) -> (r: Option<UriParts>)
    ensures
        opt_view(r) == uri_parts(text@),
        r matches Some(p) ==> p.scheme matches Some(s) ==> begins_with(
            ascii_lower(text@),
            ascii_lower(s@) + "://"@,
        ),
{
    let uri: tokio_tungstenite::tungstenite::http::Uri = text.parse().ok()?;
    Some(
        UriParts {
            scheme: uri.scheme_str().map(str::to_owned),
            host: uri.host().map(str::to_owned),
        },
    )
}

/// `s` without any `c` in front.
pub open spec fn without_leading(s: Seq<char>, c: char) -> Seq<char>
    decreases s.len(),
{
    if s.len() > 0 && s[0] == c {
        without_leading(s.skip(1), c)
    } else {
        s
    }
}

/// `s` without any `c` at the end.
pub open spec fn without_trailing(s: Seq<char>, c: char) -> Seq<char>
    decreases s.len(),
{
    if s.len() > 0 && s.last() == c {
        without_trailing(s.drop_last(), c)
    } else {
        s
    }
}

/// Whether a host is the machine itself.
pub open spec fn is_local_host(host: Seq<char>) -> bool {
    ascii_lower(host) == "localhost"@ || is_loopback(
        without_trailing(without_leading(host, '['), ']'),
    )
}

fn strip_brackets(host: &str) -> (r: String)
    ensures
        r@ == without_trailing(without_leading(host@, '['), ']'),
{
    let chars = chars_of(host);
    let n: usize = chars.len();
    let mut from: usize = 0;
    assert(chars@.subrange(0, n as int) =~= chars@);
    while from < n && chars[from] == '['
        invariant
            from <= n == chars@.len(),
            without_leading(chars@, '[') == without_leading(
                chars@.subrange(from as int, n as int),
                '[',
            ),
        decreases n - from,
    {
        assert(chars@.subrange(from as int, n as int)[0] == chars@[from as int]);
        assert(chars@.subrange(from as int, n as int).skip(1) =~= chars@.subrange(
            from + 1,
            n as int,
        ));
        from = from + 1;
    }
    let ghost rest = chars@.subrange(from as int, n as int);
    assert(from < n ==> rest[0] == chars@[from as int]);
    let mut to: usize = n;
    while to > from && chars[to - 1] == ']'
        invariant
            from <= to <= n == chars@.len(),
            rest == chars@.subrange(from as int, n as int),
            without_trailing(rest, ']') == without_trailing(
                chars@.subrange(from as int, to as int),
                ']',
            ),
        decreases to - from,
    {
        assert(chars@.subrange(from as int, to as int).last() == chars@[to - 1]);
        assert(chars@.subrange(from as int, to as int).drop_last() =~= chars@.subrange(
            from as int,
            to - 1,
        ));
        to = to - 1;
    }
    let ghost kept = chars@.subrange(from as int, to as int);
    assert(to > from ==> kept.last() == chars@[to - 1]);
    string_of(&chars, from, to)
}

/// `s` without its first `n` characters.
pub open spec fn beyond(s: Seq<char>, n: int) -> Seq<char> {
    if s.len() > n {
        s.skip(n)
    } else {
        Seq::empty()
    }
}

/// The address to connect to, or why not, where `parts` is what was read of `raw`: only
/// plain web sockets, and only on the machine itself.
pub open spec fn target(raw: Seq<char>, parts: Option<UriPartsView>) -> Result<
    Seq<char>,
    Seq<char>,
> {
    match parts {
        None => Err("解析不了的位址："@ + raw),
        Some(p) => {
            let is_ws = match p.scheme {
                Some(s) => ascii_lower(s) == "ws"@,
                None => false,
            };
            let host = match p.host {
                Some(h) => h,
                None => ""@,
            };
            if !is_ws {
                Err("目標必須是 ws:// 開頭的位址"@)
            } else if !is_local_host(host) {
                Err(
                    "目標必須是本機位址（localhost、127.0.0.1 或 [::1]），收到的主機是「"@ + host
                        + "」"@,
                )
            } else {
                Ok("ws://"@ + beyond(raw, 5))
            }
        },
    }
}

/// The address to connect to, or why not, once the parts of `raw` have been read.
pub fn check_target(raw: &str, parts: Option<UriParts>) -> (r: Result<String, String>)
    ensures
        (match r {
            Ok(t) => Ok(t@),
            Err(e) => Err(e@),
        }) == target(raw@, opt_view(parts)),
{
    let p: UriParts = match parts {
        Some(p) => p,
        None => {
            let mut words = "解析不了的位址：".to_owned();
            words.append(raw);
            return Err(words);
        },
    };
    let is_ws: bool = match &p.scheme {
        Some(s) => {
            let lower = to_ascii_lower(s.as_str());
            same(lower.as_str(), "ws")
        },
        None => false,
    };
    if !is_ws {
        return Err("目標必須是 ws:// 開頭的位址".to_owned());
    }
    let host: String = match p.host {
        Some(h) => h,
        None => "".to_owned(),
    };
    let lower = to_ascii_lower(host.as_str());
    let bare = strip_brackets(host.as_str());
    if !same(lower.as_str(), "localhost") && !is_loopback_address(bare.as_str()) {
        let mut words =
            "目標必須是本機位址（localhost、127.0.0.1 或 [::1]），收到的主機是「".to_owned();
        words.append(host.as_str());
        words.append("」");
        return Err(words);
    }
    let chars = chars_of(raw);
    let n: usize = chars.len();
    let rest: String = if n > 5 { string_of(&chars, 5, n) } else { String::new() };
    assert(rest@ =~= beyond(raw@, 5));
    let mut out = "ws://".to_owned();
    out.append(rest.as_str());
    Ok(out)
}

/// What a setting for the address comes to. Nothing, or nothing but white space, turns the
/// consumer off.
pub open spec fn wanted(raw: Option<Seq<char>>) -> Result<Option<Seq<char>>, Seq<char>> {
    match raw {
        None => Ok(None),
        Some(text) => if trimmed(text).len() == 0 {
            Ok(None)
        } else {
            match target(trimmed(text), uri_parts(trimmed(text))) {
                Ok(t) => Ok(Some(t)),
                Err(e) => Err(e),
            }
        },
    }
}

/// Checks a setting for the address. The consumer sends commands, so it has to be on this
/// machine; there is no encryption, so the encrypted scheme is refused at once rather than
/// failing in silence later. The scheme comes out in small letters.
pub fn normalize_url(raw: Option<&str>) -> (r: Result<Option<String>, String>)
    ensures
        (match r {
            Ok(t) => Ok(opt_view(t)),
            Err(e) => Err(e@),
        }) == wanted(opt_view(raw)),
        r matches Ok(Some(t)) ==> raw is Some && ascii_lower(t@) == ascii_lower(trimmed(raw->0@)),
{
    match raw {
        None => Ok(None),
        Some(text) => {
            let t = trim(text);
            if t.as_str().is_empty() {
                return Ok(None);
            }
            let parts = parse_uri(t.as_str());
            proof {
                if parts is Some {
                    lemma_only_the_scheme_changes(t@, parts->0@);
                }
            }
            match check_target(t.as_str(), parts) {
                Ok(target) => Ok(Some(target)),
                Err(e) => Err(e),
            }
        },
    }
}

/// An address that is accepted stays as it is, but for the case of its scheme.
proof fn lemma_only_the_scheme_changes(raw: Seq<char>, p: UriPartsView)
    requires
        p.scheme matches Some(s) ==> begins_with(ascii_lower(raw), ascii_lower(s) + "://"@),
    ensures
        target(raw, Some(p)) matches Ok(t) ==> ascii_lower(t) == ascii_lower(raw),
{
    if let Ok(t) = target(raw, Some(p)) {
        reveal_strlit("ws");
        reveal_strlit("ws://");
        reveal_strlit("://");
        let start = "ws"@ + "://"@;
        let lower = ascii_lower(raw);
        assert(start.len() == 5);
        assert forall|i: int| 0 <= i < 5 implies lower[i] == "ws://"@[i] by {
            assert(lower.take(5)[i] == start[i]);
        }
        assert(ascii_lower(t) =~= lower);
    }
}

/// Only addresses on this machine are ever connected to.
pub proof fn targets_are_local(raw: Seq<char>, parts: Option<UriPartsView>)
    ensures
        target(raw, parts) is Ok ==> {
            &&& parts matches Some(p)
            &&& p.scheme matches Some(s)
            &&& p.host matches Some(h)
            &&& ascii_lower(s) == "ws"@
            &&& is_local_host(h)
        },
        target(raw, parts) matches Ok(t) ==> begins_with(t, "ws://"@),
{
    if let Ok(t) = target(raw, parts) {
        assert(t.take("ws://"@.len() as int) =~= "ws://"@);
        if parts->0.host is None {
            lemma_no_host_is_not_local();
        }
    }
}

proof fn lemma_no_host_is_not_local()
    ensures
        !is_local_host(""@),
{
    reveal_strlit("");
    reveal_strlit("localhost");
    reveal_strlit("::");
    let e = ""@;
    assert(e =~= Seq::<char>::empty());
    assert(crate::loopback::split_on(e, '.') =~= seq![e]);
    assert(!crate::text::occurs_at(e, "::"@, 0));
    assert(crate::text::find_from(e, "::"@, 1) is None);
    assert(crate::text::find_from(e, "::"@, 0) is None);
    assert(ascii_lower(e).len() == 0);
    assert("localhost"@.len() == 9);
    assert(without_trailing(without_leading(e, '['), ']') == e);
    assert(crate::loopback::dotted(e) is None);
    assert(crate::loopback::groups(e, true) == Some(Seq::<nat>::empty()));
    assert(crate::loopback::eight_groups(e) is None);
}

// ---------------------------------------------------------------------------
// The outbox
// ---------------------------------------------------------------------------

/// How many batches wait at most.
pub const CAP: usize = 64;

/// The way to the consumer: whether it is on, where it leads, and what waits.
pub struct SinkHandle {
    url: Option<String>,
    connected: bool,
    dropped: u64,
    waiting: VecDeque<String>,
}

pub struct SinkView {
    pub url: Option<Seq<char>>,
    pub connected: bool,
    pub dropped: u64,
    pub waiting: Seq<Seq<char>>,
}

impl View for SinkHandle {
    type V = SinkView;

    closed spec fn view(&self) -> SinkView {
        SinkView {
            url: opt_view(self.url),
            connected: self.connected,
            dropped: self.dropped,
            waiting: views(self.waiting@),
        }
    }
}

impl SinkView {
    /// No more waits than may.
    pub open spec fn fits(self) -> bool {
        self.waiting.len() <= CAP
    }
}

impl Default for SinkHandle {
    fn default() -> (r: Self)
        ensures
            r@ == (SinkView { url: None, connected: false, dropped: 0, waiting: Seq::empty() }),
    {
        let r = SinkHandle {
            url: None,
            connected: false,
            dropped: 0,
            waiting: VecDeque::new(),
        };
        assert(r@.waiting =~= Seq::empty());
        r
    }
}

impl SinkHandle {
    /// Whether there is anywhere to send to.
    pub fn enabled(&self) -> (r: bool)
        ensures
            r == (self@.url is Some),
    {
        self.url.is_some()
    }

    /// Where to send to.
    pub fn url(&self) -> (r: Option<&str>)
        ensures
            opt_view(r) == self@.url,
    {
        match &self.url {
            Some(u) => Some(u.as_str()),
            None => None,
        }
    }

    /// How many batches were dropped.
    pub fn dropped(&self) -> (r: u64)
        ensures
            r == self@.dropped,
    {
        self.dropped
    }

    /// Whether a consumer is connected.
    pub fn connected(&self) -> (r: bool)
        ensures
            r == self@.connected,
    {
        self.connected
    }

    /// Puts a batch into the outbox. Where the outbox is full the batch is dropped and
    /// counted; where there is nowhere to send to nothing happens.
    pub fn try_send(&mut self, text: String)
        requires
            old(self)@.fits(),
        ensures
            final(self)@.fits(),
            final(self)@ == sent(old(self)@, text@),
    {
        if self.url.is_none() {
            return;
        }
        if self.waiting.len() < CAP {
            let ghost before = self.waiting@;
            let ghost v = text@;
            self.waiting.push_back(text);
            assert(views(self.waiting@) =~= views(before).push(v));
        } else {
            self.dropped = self.dropped.wrapping_add(1);
        }
    }

    /// Takes the batch that has waited longest.
    pub fn take(&mut self) -> (r: Option<String>)
        requires
            old(self)@.fits(),
        ensures
            final(self)@.fits(),
            old(self)@.waiting.len() == 0 ==> r is None && final(self)@ == old(self)@,
            old(self)@.waiting.len() > 0 ==> r is Some && r->0@ == old(self)@.waiting[0]
                && final(self)@ == (SinkView {
                waiting: old(self)@.waiting.skip(1),
                ..old(self)@
            }),
    {
        let ghost before = self.waiting@;
        let r = self.waiting.pop_front();
        proof {
            if before.len() > 0 {
                assert(views(self.waiting@) =~= views(before).skip(1));
                assert(views(before)[0] == before[0]@);
            } else {
                assert(views(self.waiting@) =~= views(before));
            }
        }
        r
    }

    /// A connection is being made: what has waited is stale and goes, since a snapshot is sent
    /// instead.
    pub fn drop_stale(&mut self)
        ensures
            final(self)@.fits(),
            final(self)@ == (SinkView { waiting: Seq::empty(), ..old(self)@ }),
    {
        self.waiting = VecDeque::new();
        assert(self@.waiting =~= Seq::empty());
    }

    /// A connection is up, and its consumer has been greeted: what comes from now on, and what
    /// has come since the stale batches went, is passed on.
    pub fn connect(&mut self)
        ensures
            final(self)@ == (SinkView { connected: true, ..old(self)@ }),
    {
        self.connected = true;
    }

    /// The connection is gone.
    pub fn disconnect(&mut self)
        ensures
            final(self)@ == (SinkView { connected: false, ..old(self)@ }),
    {
        self.connected = false;
    }

    /// Sets where to send to, or turns sending off: an address of nothing but white space is
    /// none.
    pub fn set_url(&mut self, url: Option<String>)
        ensures
            final(self)@ == (SinkView {
                url: match url {
                    Some(u) => if trimmed(u@).len() > 0 {
                        Some(trimmed(u@))
                    } else {
                        None
                    },
                    None => None,
                },
                ..old(self)@
            }),
    {
        self.url = match url {
            Some(u) => {
                let t = trim(u.as_str());
                if t.as_str().is_empty() {
                    None
                } else {
                    Some(t)
                }
            },
            None => None,
        };
    }
}

/// The outbox after a batch was put into it.
pub open spec fn sent(s: SinkView, text: Seq<char>) -> SinkView {
    if s.url is None {
        s
    } else if s.waiting.len() < CAP {
        SinkView { waiting: s.waiting.push(text), ..s }
    } else {
        SinkView { dropped: if s.dropped == u64::MAX { 0 } else { (s.dropped + 1) as u64 }, ..s }
    }
}

/// What is in the outbox stays there, in its order, whatever comes after it; and a batch is
/// either put in or counted.
pub proof fn the_oldest_batches_stay(s: SinkView, text: Seq<char>)
    requires
        s.fits(),
        s.dropped < u64::MAX,
    ensures
        begins_with_batches(sent(s, text).waiting, s.waiting),
        s.url is Some ==> sent(s, text).waiting.len() + sent(s, text).dropped == s.waiting.len()
            + s.dropped + 1,
        s.url is None ==> sent(s, text) == s,
{
    assert(sent(s, text).waiting.take(s.waiting.len() as int) =~= s.waiting);
}

pub open spec fn begins_with_batches(list: Seq<Seq<char>>, prefix: Seq<Seq<char>>) -> bool {
    prefix.len() <= list.len() && list.take(prefix.len() as int) == prefix
}

/// What is said first on a new connection.
pub fn hello(dropped: u64) -> (r: String)
    ensures
        r@ == "{\"kind\":\"sinkHello\",\"droppedSinceStart\":"@ + decimal(dropped as nat)
            + ",\"app\":\"openmeetnote\"}"@,
{
    let count = decimal_text(dropped as u128);
    let mut out = "{\"kind\":\"sinkHello\",\"droppedSinceStart\":".to_owned();
    out.append(count.as_str());
    out.append(",\"app\":\"openmeetnote\"}");
    out
}

// ---------------------------------------------------------------------------
// Connecting and connecting again
// ---------------------------------------------------------------------------

pub const BACKOFF_MIN_MS: u64 = 250;

pub const BACKOFF_MAX_MS: u64 = 5000;

/// How long a connection must have lasted for the next wait to be short again.
pub const STABLE_AFTER_MS: u64 = 10000;

/// How long to wait after having waited `cur` milliseconds: twice as long, up to a limit.
pub open spec fn doubled(cur: u64) -> u64 {
    if cur * 2 > BACKOFF_MAX_MS {
        BACKOFF_MAX_MS
    } else {
        (cur * 2) as u64
    }
}

/// How long to wait after having waited `cur` milliseconds.
pub fn next_backoff(cur: u64) -> (r: u64)
    ensures
        r == doubled(cur),
{
    if cur > BACKOFF_MAX_MS / 2 {
        BACKOFF_MAX_MS
    } else {
        cur * 2
    }
}

/// Why passing on ended.
#[derive(Debug, Clone, Copy, PartialEq, Eq, Structural)]
pub enum Exit {
    /// The program ends.
    Stop,
    /// The address was changed.
    UrlChanged,
    /// The connection was lost.
    Dropped,
}

/// What a write, with its limit of time and the address watched meanwhile, came to.
#[derive(Debug, Clone, Copy, PartialEq, Eq, Structural)]
pub enum WriteOutcome {
    Done,
    Failed,
    TimedOut,
    UrlChanged,
    HandleGone,
}

/// Whether passing on ends after a write.
pub fn after_write(outcome: WriteOutcome) -> (r: Option<Exit>)
    ensures
        r == match outcome {
            WriteOutcome::Done => None,
            WriteOutcome::Failed | WriteOutcome::TimedOut => Some(Exit::Dropped),
            WriteOutcome::UrlChanged => Some(Exit::UrlChanged),
            WriteOutcome::HandleGone => Some(Exit::Stop),
        },
{
    match outcome {
        WriteOutcome::Done => None,
        WriteOutcome::Failed | WriteOutcome::TimedOut => Some(Exit::Dropped),
        WriteOutcome::UrlChanged => Some(Exit::UrlChanged),
        WriteOutcome::HandleGone => Some(Exit::Stop),
    }
}

/// What happened to the task that keeps the connection.
#[derive(Debug, Clone, Copy, PartialEq, Eq, Structural)]
pub enum LinkEvent {
    /// The address was changed.
    UrlChanged,
    /// The program ends.
    HandleGone,
    /// The connection is up.
    Connected,
    /// The connection could not be made, or not in time.
    ConnectFailed,
    /// Passing on ended, `up_ms` after the connection was made.
    Ended { exit: Exit, up_ms: u64 },
    /// The wait is over.
    Slept,
}

/// What the task that keeps the connection is to do.
#[derive(Debug, Clone, Copy, PartialEq, Eq, Structural)]
pub enum LinkAction {
    /// Wait for an address.
    AwaitUrl,
    Connect,
    /// Pass events on.
    Forward,
    /// Wait for so many milliseconds.
    Sleep(u64),
    Stop,
}

/// The task that keeps the connection: how long it would wait next.
#[derive(Debug, Clone, Copy, PartialEq, Eq, Structural)]
pub struct Link {
    pub backoff_ms: u64,
}

/// What to do where there is nothing to wait for.
pub open spec fn fresh(has_target: bool) -> LinkAction {
    if has_target {
        LinkAction::Connect
    } else {
        LinkAction::AwaitUrl
    }
}

/// What follows an event: the state of the task and what it is to do.
pub open spec fn link_step(link: Link, event: LinkEvent, has_target: bool) -> (Link, LinkAction) {
    let reset = Link { backoff_ms: BACKOFF_MIN_MS };
    match event {
        LinkEvent::HandleGone => (link, LinkAction::Stop),
        LinkEvent::UrlChanged => (reset, fresh(has_target)),
        LinkEvent::Connected => (link, LinkAction::Forward),
        LinkEvent::ConnectFailed => (link, LinkAction::Sleep(link.backoff_ms)),
        LinkEvent::Slept => (Link { backoff_ms: doubled(link.backoff_ms) }, fresh(has_target)),
        LinkEvent::Ended { exit, up_ms } => match exit {
            Exit::Stop => (link, LinkAction::Stop),
            Exit::UrlChanged => (reset, fresh(has_target)),
            Exit::Dropped => if up_ms >= STABLE_AFTER_MS {
                (reset, LinkAction::Sleep(BACKOFF_MIN_MS))
            } else {
                (link, LinkAction::Sleep(link.backoff_ms))
            },
        },
    }
}

impl Link {
    /// Waits are between the shortest and the longest.
    pub open spec fn is_valid(self) -> bool {
        BACKOFF_MIN_MS <= self.backoff_ms <= BACKOFF_MAX_MS
    }

    /// A task that has not tried yet, and what it is to do.
    pub fn start(has_target: bool) -> (r: (Self, LinkAction))
        ensures
            r.0.is_valid(),
            r.0.backoff_ms == BACKOFF_MIN_MS,
            r.1 == fresh(has_target),
    {
        let action: LinkAction = if has_target { LinkAction::Connect } else { LinkAction::AwaitUrl };
        (Link { backoff_ms: BACKOFF_MIN_MS }, action)
    }

    /// What to do after an event. A failed connection is tried again after a wait, a changed
    /// address at once. Only a connection that has lasted makes the next wait short again: a
    /// consumer that accepts and closes at once would otherwise be tried in a tight loop.
    pub fn step(&mut self, event: LinkEvent, has_target: bool) -> (r: LinkAction)
        requires
            old(self).is_valid(),
        ensures
            final(self).is_valid(),
            (*final(self), r) == link_step(*old(self), event, has_target),
    {
        let again: LinkAction = if has_target { LinkAction::Connect } else { LinkAction::AwaitUrl };
        match event {
            LinkEvent::HandleGone => LinkAction::Stop,
            LinkEvent::UrlChanged => {
                self.backoff_ms = BACKOFF_MIN_MS;
                again
            },
            LinkEvent::Connected => LinkAction::Forward,
            LinkEvent::ConnectFailed => LinkAction::Sleep(self.backoff_ms),
            LinkEvent::Slept => {
                self.backoff_ms = next_backoff(self.backoff_ms);
                again
            },
            LinkEvent::Ended { exit, up_ms } => match exit {
                Exit::Stop => LinkAction::Stop,
                Exit::UrlChanged => {
                    self.backoff_ms = BACKOFF_MIN_MS;
                    again
                },
                Exit::Dropped => {
                    if up_ms >= STABLE_AFTER_MS {
                        self.backoff_ms = BACKOFF_MIN_MS;
                    }
                    LinkAction::Sleep(self.backoff_ms)
                },
            },
        }
    }
}

/// However a connection fails, the task goes on: it stops only where the program ends. And
/// after a failure it always waits, at least the shortest time and at most the longest.
pub proof fn only_the_end_stops_the_link(link: Link, event: LinkEvent, has_target: bool)
    requires
        link.is_valid(),
    ensures
        ({
            let (next, action) = link_step(link, event, has_target);
            &&& next.is_valid()
            &&& action is Stop <==> (event is HandleGone || (event matches LinkEvent::Ended {
                exit,
                ..
            } && exit is Stop))
            &&& action matches LinkAction::Sleep(ms) ==> BACKOFF_MIN_MS <= ms <= BACKOFF_MAX_MS
            &&& event is ConnectFailed ==> action is Sleep
        }),
{
}

/// Waits grow until they are as long as they get: twice as long each time, and from then on
/// always the longest.
pub proof fn waits_double_up_to_the_limit(ms: u64)
    requires
        BACKOFF_MIN_MS <= ms <= BACKOFF_MAX_MS,
    ensures
        ms <= doubled(ms) <= BACKOFF_MAX_MS,
        ms * 2 <= BACKOFF_MAX_MS ==> doubled(ms) == ms * 2,
        doubled(BACKOFF_MAX_MS) == BACKOFF_MAX_MS,
{
}

// ---------------------------------------------------------------------------
// Commands
// ---------------------------------------------------------------------------

/// How many commands wait at most.
pub const CMD_QUEUE: usize = 4;

/// What a consumer sent.
#[derive(Debug, PartialEq, Eq)]
pub struct Inbound {
    pub kind: String,
    pub id: u64,
    pub name: String,
}

/// What is answered to a command.
#[derive(Debug, PartialEq, Eq)]
pub struct CommandReply {
    pub id: u64,
    pub name: String,
    pub error: Option<String>,
}

/// What to do with what a consumer sent.
#[derive(Debug, PartialEq, Eq)]
pub enum FrameAction {
    /// Nothing.
    Ignore,
    /// Note that it could not be read. This is done once for each connection.
    Note,
    /// Answer at once.
    Answer(CommandReply),
    /// Run the command when its turn comes.
    Enqueue,
}

/// The commands of one connection that wait to be run, in the order in which they came.
pub struct CommandQueue {
    waiting: VecDeque<(u64, String)>,
    noted: bool,
}

pub struct CommandQueueView {
    pub waiting: Seq<(u64, Seq<char>)>,
    /// Whether it was noted that something could not be read.
    pub noted: bool,
}

pub open spec fn command_views(list: Seq<(u64, String)>) -> Seq<(u64, Seq<char>)> {
    Seq::new(list.len(), |i: int| (list[i].0, list[i].1@))
}

impl View for CommandQueue {
    type V = CommandQueueView;

    closed spec fn view(&self) -> CommandQueueView {
        CommandQueueView { waiting: command_views(self.waiting@), noted: self.noted }
    }
}

impl CommandQueueView {
    pub open spec fn fits(self) -> bool {
        self.waiting.len() <= CMD_QUEUE
    }
}

impl Default for CommandQueue {
    fn default() -> (r: Self)
        ensures
            r@ == (CommandQueueView { waiting: Seq::empty(), noted: false }),
    {
        let r = CommandQueue { waiting: VecDeque::new(), noted: false };
        assert(r@.waiting =~= Seq::empty());
        r
    }
}

impl CommandQueue {
    /// Takes in what a consumer sent, or that it could not be read. A command waits for its
    /// turn; where too many wait, or commands are not handled, it is answered at once, so that
    /// the consumer never waits for nothing.
    pub fn receive(&mut self, frame: Option<Inbound>, handled: bool) -> (r: FrameAction)
        requires
            old(self)@.fits(),
        ensures
            final(self)@.fits(),
            match frame {
                None => final(self)@ == (CommandQueueView { noted: true, ..old(self)@ }) && (if old(
                    self,
                )@.noted {
                    r is Ignore
                } else {
                    r is Note
                }),
                Some(f) => if f.kind@ != "command"@ {
                    r is Ignore && final(self)@ == old(self)@
                } else if !handled {
                    final(self)@ == old(self)@ && (r matches FrameAction::Answer(a) && a.id == f.id
                        && a.name@ == f.name@ && opt_view(a.error) == Some(
                        "命令處理器沒有設定"@,
                    ))
                } else if old(self)@.waiting.len() >= CMD_QUEUE {
                    final(self)@ == old(self)@ && (r matches FrameAction::Answer(a) && a.id == f.id
                        && a.name@ == f.name@ && opt_view(a.error) == Some("busy"@))
                } else {
                    r is Enqueue && final(self)@ == (CommandQueueView {
                        waiting: old(self)@.waiting.push((f.id, f.name@)),
                        ..old(self)@
                    })
                },
            },
    {
        let ghost before = self.waiting@;
        match frame {
            None => {
                if self.noted {
                    FrameAction::Ignore
                } else {
                    self.noted = true;
                    FrameAction::Note
                }
            },
            Some(f) => {
                if !same(f.kind.as_str(), "command") {
                    return FrameAction::Ignore;
                }
                if !handled {
                    return FrameAction::Answer(
                        CommandReply {
                            id: f.id,
                            name: f.name,
                            error: Some("命令處理器沒有設定".to_owned()),
                        },
                    );
                }
                if self.waiting.len() >= CMD_QUEUE {
                    return FrameAction::Answer(
                        CommandReply { id: f.id, name: f.name, error: Some("busy".to_owned()) },
                    );
                }
                let ghost v = (f.id, f.name@);
                self.waiting.push_back((f.id, f.name));
                assert(command_views(self.waiting@) =~= command_views(before).push(v));
                FrameAction::Enqueue
            },
        }
    }

    /// The command whose turn it is.
    pub fn take(&mut self) -> (r: Option<(u64, String)>)
        requires
            old(self)@.fits(),
        ensures
            final(self)@.fits(),
            old(self)@.waiting.len() == 0 ==> r is None && final(self)@ == old(self)@,
            old(self)@.waiting.len() > 0 ==> {
                &&& r matches Some(c)
                &&& (c.0, c.1@) == old(self)@.waiting[0]
                &&& final(self)@ == (CommandQueueView {
                    waiting: old(self)@.waiting.skip(1),
                    ..old(self)@
                })
            },
    {
        let ghost before = self.waiting@;
        let r = self.waiting.pop_front();
        proof {
            if before.len() > 0 {
                assert(command_views(self.waiting@) =~= command_views(before).skip(1));
                assert(command_views(before)[0] == (before[0].0, before[0].1@));
            } else {
                assert(command_views(self.waiting@) =~= command_views(before));
            }
        }
        r
    }
}

/// What is answered to a command that was run. `None` stands for a command that broke down
/// instead of giving a result.
pub fn reply(id: u64, name: String, outcome: Option<Result<(), String>>) -> (r: CommandReply)
    ensures
        r.id == id,
        r.name@ == name@,
        opt_view(r.error) == match outcome {
            Some(Ok(())) => None,
            Some(Err(e)) => Some(e@),
            None => Some("命令執行時發生未預期的錯誤"@),
        },
{
    let error: Option<String> = match outcome {
        Some(Ok(())) => None,
        Some(Err(e)) => Some(e),
        None => Some("命令執行時發生未預期的錯誤".to_owned()),
    };
    CommandReply { id, name, error }
}

} // verus!
