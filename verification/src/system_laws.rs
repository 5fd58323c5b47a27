//! What holds of the parts around a meeting: the consumer of its events, the settings of the
//! services, the files, the instants and the built-in planner.

use crate::citation::{lemma_first_index, quotable, text_digest};
use crate::cli_planner::{all_completed, completed, progress, AgentNameView};
use crate::clock::{calendar_date, every_day_has_a_date, utc_text};
use crate::config::{
    cli_option, env_key, fallback, first_line, named_files, presence, program_files, resolved,
    store_key, system_works, BackendOptionView, CliProbe, EnvAnswersView, FieldSource,
    KeychainAnswer, SecretPresence, VersionRun,
};
use crate::document::{BlockKind, BlockView, ContentView};
use crate::store::StoredSegmentView;
use crate::fixture::{fixture_draft, fixture_facts};
use crate::model::{ClaimKind, ProviderKind, StoredProvider};
use crate::sink::{
    is_local_host, link_step, sent, target, targets_are_local, wanted, without_leading,
    without_trailing, Exit, Link, LinkAction, LinkEvent, SinkView, UriPartsView,
};
use crate::text::{ascii_lower, decimal, padded, trimmed};
use vstd::prelude::*;

verus! {

// ---------------------------------------------------------------------------
// The consumer
// ---------------------------------------------------------------------------

/// A batch waits behind those that came before it. Where there is no room it is counted, and
/// where there is no consumer it is nothing.
pub proof fn batches_wait_in_their_order(s: SinkView, text: Seq<char>)
    requires
        s.fits(),
    ensures
        sent(s, text).url == s.url,
        s.url is None ==> sent(s, text) == s,
        s.url is Some && s.waiting.len() < 64 ==> sent(s, text).waiting == s.waiting.push(text)
            && sent(s, text).dropped == s.dropped,
        s.url is Some && s.waiting.len() == 64 ==> sent(s, text).waiting == s.waiting,
        s.url is Some && s.waiting.len() == 64 && s.dropped < u64::MAX ==> sent(s, text).dropped
            == s.dropped + 1,
{
}

/// What comes after each event: only a failure waits, first a quarter of a second and twice as
/// long after each wait, up to five seconds. A changed address and a connection that held for
/// ten seconds make the wait short again.
pub proof fn the_link_follows_its_events(link: Link, up_ms: u64, has_target: bool)
    requires
        link.is_valid(),
    ensures
        ({
            let again = if has_target {
                LinkAction::Connect
            } else {
                LinkAction::AwaitUrl
            };
            let short = Link { backoff_ms: 250 };
            let dropped = link_step(link, LinkEvent::Ended { exit: Exit::Dropped, up_ms }, has_target);
            &&& link_step(link, LinkEvent::HandleGone, has_target).1 == LinkAction::Stop
            &&& link_step(link, LinkEvent::Ended { exit: Exit::Stop, up_ms }, has_target).1
                == LinkAction::Stop
            &&& link_step(link, LinkEvent::Connected, has_target) == (link, LinkAction::Forward)
            &&& link_step(link, LinkEvent::UrlChanged, has_target) == (short, again)
            &&& link_step(link, LinkEvent::Ended { exit: Exit::UrlChanged, up_ms }, has_target) == (
                short,
                again,
            )
            &&& link_step(link, LinkEvent::ConnectFailed, has_target) == (
                link,
                LinkAction::Sleep(link.backoff_ms),
            )
            &&& up_ms < 10_000 ==> dropped == (link, LinkAction::Sleep(link.backoff_ms))
            &&& up_ms >= 10_000 ==> dropped == (short, LinkAction::Sleep(250))
            &&& link_step(link, LinkEvent::Slept, has_target).1 == again
            &&& link_step(link, LinkEvent::Slept, has_target).0.backoff_ms == if link.backoff_ms
                <= 2_500 {
                link.backoff_ms * 2
            } else {
                5_000
            }
        }),
{
}

/// An address is connected to exactly where it can be read, its scheme is that of plain web
/// sockets and its host is the machine itself. It is then kept but for the case of its scheme.
pub proof fn addresses_are_taken_as_they_are(raw: Seq<char>, parts: Option<UriPartsView>)
    ensures
        target(raw, parts) is Ok <==> (parts matches Some(p) && p.scheme matches Some(s)
            && p.host matches Some(h) && ascii_lower(s) == "ws"@ && is_local_host(h)),
        target(raw, parts) matches Ok(t) ==> t.take(5) == "ws://"@ && (raw.len() >= 5 ==> t.len()
            == raw.len() && t.skip(5) == raw.skip(5)),
{
    reveal_strlit("ws://");
    targets_are_local(raw, parts);
    if let Ok(t) = target(raw, parts) {
        assert(t.take(5) =~= "ws://"@);
        if raw.len() >= 5 {
            assert(t.skip(5) =~= raw.skip(5));
        }
    }
}

/// A setting without an address turns the consumer off.
pub proof fn no_address_is_no_consumer(raw: Option<Seq<char>>)
    ensures
        wanted(raw) == Ok::<Option<Seq<char>>, Seq<char>>(None) <==> (raw matches Some(t) ==> trimmed(
            t,
        ).len() == 0),
{
}

/// All of the given characters are taken from the beginning, and nothing behind them.
pub proof fn only_the_front_is_taken(s: Seq<char>, c: char) -> (n: int)
    ensures
        0 <= n <= s.len(),
        without_leading(s, c) == s.skip(n),
        forall|i: int| 0 <= i < n ==> #[trigger] s[i] == c,
        n < s.len() ==> s[n] != c,
    decreases s.len(),
{
    if s.len() > 0 && s[0] == c {
        let m = only_the_front_is_taken(s.skip(1), c);
        assert(s.skip(1).skip(m) =~= s.skip(m + 1));
        assert forall|i: int| 0 <= i < m + 1 implies #[trigger] s[i] == c by {
            if i > 0 {
                assert(s.skip(1)[i - 1] == s[i]);
            }
        }
        if m + 1 < s.len() {
            assert(s.skip(1)[m] == s[m + 1]);
        }
        m + 1
    } else {
        assert(s.skip(0) =~= s);
        0
    }
}

/// All of the given characters are taken from the end, and nothing before them.
pub proof fn only_the_end_is_taken(s: Seq<char>, c: char) -> (n: int)
    ensures
        0 <= n <= s.len(),
        without_trailing(s, c) == s.take(n),
        forall|i: int| n <= i < s.len() ==> #[trigger] s[i] == c,
        n > 0 ==> s[n - 1] != c,
    decreases s.len(),
{
    if s.len() > 0 && s.last() == c {
        let r = s.drop_last();
        let m = only_the_end_is_taken(r, c);
        assert(r.take(m) =~= s.take(m));
        assert forall|i: int| m <= i < s.len() implies #[trigger] s[i] == c by {
            if i < r.len() {
                assert(r[i] == s[i]);
            }
        }
        m
    } else {
        assert(s.take(s.len() as int) =~= s);
        s.len() as int
    }
}

// ---------------------------------------------------------------------------
// Settings
// ---------------------------------------------------------------------------

/// Each of the three fields comes from the environment where that says something, else from
/// what was set, else from the default, which only the provider has; and it says from which.
pub proof fn every_field_has_its_source(
    kind: ProviderKind,
    stored: StoredProvider,
    env: EnvAnswersView,
    keychain: KeychainAnswer,
    default_provider: Seq<char>,
)
    ensures
        ({
            let r = resolved(kind, stored, env, keychain, default_provider);
            &&& r.kind == kind
            &&& env.provider matches Some(v) ==> r.provider.value == v && r.provider.source
                == FieldSource::Environment
            &&& env.model matches Some(v) ==> r.model.value == v && r.model.source
                == FieldSource::Environment
            &&& env.base_url matches Some(v) ==> r.base_url.value == v && r.base_url.source
                == FieldSource::Environment
            &&& env.provider is None && stored.provider@.len() > 0 ==> r.provider.value
                == stored.provider@ && r.provider.source == FieldSource::Settings
            &&& env.model is None && stored.model@.len() > 0 ==> r.model.value == stored.model@
                && r.model.source == FieldSource::Settings
            &&& env.base_url is None && stored.base_url@.len() > 0 ==> r.base_url.value
                == stored.base_url@ && r.base_url.source == FieldSource::Settings
            &&& env.provider is None && stored.provider@.len() == 0 ==> r.provider.value
                == default_provider && r.provider.source == FieldSource::Default
            &&& env.model is None && stored.model@.len() == 0 ==> r.model.value.len() == 0
                && r.model.source == FieldSource::Default
            &&& env.base_url is None && stored.base_url@.len() == 0 ==> r.base_url.value.len() == 0
                && r.base_url.source == FieldSource::Default
            &&& r.secret == presence(env.secret, keychain)
        }),
{
    reveal_strlit("");
}

/// A secret is where it was found: the environment is looked at first, then the store.
pub proof fn secrets_are_where_they_were_found(keychain: KeychainAnswer)
    ensures
        presence(true, keychain) == SecretPresence::Environment,
        presence(false, KeychainAnswer::Present) == SecretPresence::Keychain,
        presence(false, KeychainAnswer::Missing) == SecretPresence::Missing,
        presence(false, KeychainAnswer::Unavailable) == SecretPresence::Unavailable,
{
}

/// The names under which a service's secret and its fields are looked for.
pub proof fn services_have_their_own_names(suffix: Seq<char>)
    ensures
        store_key(ProviderKind::Stt) == "stt-api-key"@,
        store_key(ProviderKind::Llm) == "llm-api-key"@,
        env_key(ProviderKind::Stt, suffix) == "OPENMEETNOTE_STT"@ + suffix,
        env_key(ProviderKind::Llm, suffix) == "OPENMEETNOTE_LLM"@ + suffix,
{
    reveal_strlit("stt");
    reveal_strlit("llm");
    reveal_strlit("-api-key");
    reveal_strlit("stt-api-key");
    reveal_strlit("llm-api-key");
    assert(store_key(ProviderKind::Stt) =~= "stt-api-key"@);
    assert(store_key(ProviderKind::Llm) =~= "llm-api-key"@);
}

/// Speech is never read by what the machine has, and summaries are written by it exactly where
/// it works.
pub proof fn the_default_always_works(backends: Seq<BackendOptionView>)
    ensures
        fallback(ProviderKind::Stt, backends) == "fixture"@,
        system_works(backends) ==> fallback(ProviderKind::Llm, backends) == "system"@,
        !system_works(backends) ==> fallback(ProviderKind::Llm, backends) == "fixture"@,
{
}

/// A program has one file for each ending, in the order of the endings, and none for an empty
/// one.
pub proof fn each_ending_is_one_file(name: Seq<char>, a: Seq<Seq<char>>, b: Seq<Seq<char>>, e: Seq<char>)
    ensures
        named_files(name, a + b) == named_files(name, a) + named_files(name, b),
        named_files(name, seq![e]) == if e.len() == 0 {
            Seq::<Seq<char>>::empty()
        } else {
            seq![name + e]
        },
        program_files(name, false, None) == seq![name],
    decreases b.len(),
{
    let one = seq![e];
    assert(one.drop_last() =~= Seq::empty());
    assert(named_files(name, one.drop_last()) =~= Seq::empty());
    assert(named_files(name, one) =~= if e.len() == 0 {
        Seq::<Seq<char>>::empty()
    } else {
        seq![name + e]
    });
    if b.len() == 0 {
        assert(a + b =~= a);
        assert(named_files(name, a) + named_files(name, b) =~= named_files(name, a));
    } else {
        each_ending_is_one_file(name, a, b.drop_last(), e);
        assert((a + b).drop_last() =~= a + b.drop_last());
        assert((a + b).last() == b.last());
        assert(named_files(name, a + b) =~= named_files(name, a) + named_files(name, b));
    }
}

/// The first line is all that stands before the first line break.
pub proof fn first_lines_end_at_the_break(a: Seq<char>, b: Seq<char>)
    requires
        forall|i: int| 0 <= i < a.len() ==> #[trigger] a[i] != '\n',
    ensures
        first_line(a) == a,
        first_line(a.push('\n') + b) == a,
{
    lemma_first_index(a, '\n', a.len() as int);
    assert(a.take(a.len() as int) =~= a);
    let s = a.push('\n') + b;
    assert forall|i: int| 0 <= i < a.len() implies s[i] != '\n' by {
        assert(s[i] == a[i]);
    }
    assert(s[a.len() as int] == '\n');
    lemma_first_index(s, '\n', a.len() as int);
    assert(s.take(a.len() as int) =~= a);
}

/// An agent works exactly where its program was found, could be run and said so. What is shown
/// is then its version, or where it is if it gave none.
pub proof fn agents_work_where_they_answer(name: AgentNameView, path: String, run: VersionRun)
    ensures
        !cli_option(name, CliProbe::Absent).available,
        ({
            let found = cli_option(name, CliProbe::Found { path, run });
            &&& found.id == name.id && found.label == name.label
            &&& found.available <==> (run matches VersionRun::Ended { success, .. } && success)
            &&& run matches VersionRun::Ended { success, stdout, .. } ==> (success ==> found.detail
                == if trimmed(first_line(stdout@)).len() > 0 {
                trimmed(first_line(stdout@))
            } else {
                path@
            })
        }),
{
}

// ---------------------------------------------------------------------------
// Planners
// ---------------------------------------------------------------------------

/// What an agent wrote is kept but for the two things that it is not trusted with: the digest is
/// that of the words it quotes, and nothing counts as checked.
pub proof fn answers_are_completed_not_changed(blocks: Seq<BlockView>, i: int, k: int)
    requires
        0 <= i < blocks.len(),
        0 <= k < blocks[i].source_refs.len(),
    ensures
        all_completed(blocks).len() == blocks.len(),
        ({
            let (b, c) = (blocks[i], all_completed(blocks)[i]);
            &&& c == completed(b)
            &&& c.kind == b.kind && c.claim_kind == b.claim_kind && c.content == b.content
            &&& c.source_refs.len() == b.source_refs.len()
            &&& c.source_refs[k].source_kind == b.source_refs[k].source_kind
            &&& c.source_refs[k].source_id == b.source_refs[k].source_id
            &&& c.source_refs[k].source_revision == b.source_refs[k].source_revision
            &&& c.source_refs[k].locator == b.source_refs[k].locator
            &&& c.source_refs[k].quoted_text == b.source_refs[k].quoted_text
            &&& c.source_refs[k].quoted_text_sha256 == text_digest(b.source_refs[k].quoted_text)
            &&& c.source_refs[k].validation_status == "unverified"@
        }),
{
}

/// A block without citations is kept as it is.
pub proof fn blocks_without_citations_are_kept(b: BlockView)
    requires
        b.source_refs.len() == 0,
    ensures
        completed(b) == b,
{
    assert(completed(b).source_refs =~= b.source_refs);
}

/// A line is reported where it says something and the last report is long enough ago, or there
/// was none.
pub proof fn lines_are_reported_apart(line: Seq<char>, ms: u64)
    ensures
        trimmed(line).len() == 0 ==> progress(line, None) is None && progress(line, Some(ms)) is None,
        trimmed(line).len() > 0 ==> progress(line, None) == Some(trimmed(line)),
        progress(line, Some(ms)) == if ms >= 200 {
            progress(line, None)
        } else {
            None
        },
{
}

/// The built-in planner states the segments as they are, in their order, each with a citation of
/// its beginning, and leaves out those that have nothing to quote.
pub proof fn the_built_in_planner_repeats_what_was_said(
    a: Seq<StoredSegmentView>,
    b: Seq<StoredSegmentView>,
    s: StoredSegmentView,
)
    ensures
        fixture_facts(a + b) == fixture_facts(a) + fixture_facts(b),
        ({
            let quote = if s.text.len() > 12 {
                s.text.take(12)
            } else {
                s.text
            };
            let facts = fixture_facts(seq![s]);
            &&& !quotable(quote) ==> facts.len() == 0
            &&& quotable(quote) ==> {
                &&& facts.len() == 1
                &&& facts[0].kind == BlockKind::Paragraph
                &&& facts[0].claim_kind == ClaimKind::Fact
                &&& facts[0].content == ContentView::Text { text: s.text }
                &&& facts[0].source_refs.len() == 1
                &&& facts[0].source_refs[0].source_kind == "transcript_segment"@
                &&& facts[0].source_refs[0].source_id == decimal(s.segment_id as nat)
                &&& facts[0].source_refs[0].source_revision == s.revision
                &&& facts[0].source_refs[0].locator == "0-"@ + decimal(quote.len())
                &&& facts[0].source_refs[0].quoted_text == quote
                &&& facts[0].source_refs[0].quoted_text_sha256 == text_digest(quote)
                &&& facts[0].source_refs[0].validation_status == "unverified"@
            }
        }),
    decreases b.len(),
{
    let one = seq![s];
    assert(one.drop_last() =~= Seq::empty());
    assert(fixture_facts(one.drop_last()) =~= Seq::empty());
    assert(one.last() == s);
    if b.len() == 0 {
        assert(a + b =~= a);
        assert(fixture_facts(a) + fixture_facts(b) =~= fixture_facts(a));
    } else {
        the_built_in_planner_repeats_what_was_said(a, b.drop_last(), s);
        assert((a + b).drop_last() =~= a + b.drop_last());
        assert((a + b).last() == b.last());
        assert(fixture_facts(a + b) =~= fixture_facts(a) + fixture_facts(b));
    }
}

/// The built-in planner leads with what it is and with the prompt, cut to forty characters, and
/// then states the first six segments.
pub proof fn the_built_in_planner_says_what_it_is(prompt: Seq<char>, segments: Seq<StoredSegmentView>)
    ensures
        ({
            let d = fixture_draft(prompt, segments);
            &&& d.len() >= 2
            &&& d[0].kind == BlockKind::Callout
            &&& d[1].kind == BlockKind::Heading
            &&& trimmed(prompt).len() > 0 ==> d[1].content == (ContentView::Heading {
                level: 1,
                text: if trimmed(prompt).len() > 40 {
                    trimmed(prompt).take(40)
                } else {
                    trimmed(prompt)
                },
            })
            &&& segments.len() <= 6 ==> d.skip(2) == fixture_facts(segments)
            &&& segments.len() > 6 ==> d.skip(2) == fixture_facts(segments.take(6))
        }),
{
    let d = fixture_draft(prompt, segments);
    if segments.len() <= 6 {
        assert(d.skip(2) =~= fixture_facts(segments));
    } else {
        assert(d.skip(2) =~= fixture_facts(segments.take(6)));
    }
}

// ---------------------------------------------------------------------------
// Instants
// ---------------------------------------------------------------------------

proof fn lemma_two_wide(n: nat)
    requires
        n < 100,
    ensures
        padded(n, 2).len() == 2,
{
    if n >= 10 {
        assert(decimal(n / 10).len() == 1);
    }
}

proof fn lemma_three_wide(n: nat)
    requires
        n < 1000,
    ensures
        padded(n, 3).len() == 3,
{
    if n >= 10 {
        lemma_two_wide(n / 10);
        assert(decimal(n).len() == decimal(n / 10).len() + 1);
    }
}

proof fn lemma_four_wide(n: nat)
    requires
        n < 10000,
    ensures
        padded(n, 4).len() == 4,
{
    if n >= 10 {
        lemma_three_wide(n / 10);
        assert(decimal(n).len() == decimal(n / 10).len() + 1);
    }
}

/// An instant is written as its date, then the hour, the minute, the second and the millisecond
/// of its day, each at its place.
pub proof fn instants_are_written_field_by_field(
    days: int,
    hour: nat,
    minute: nat,
    second: nat,
    ms: nat,
)
    requires
        hour < 24,
        minute < 60,
        second < 60,
        ms < 1000,
        0 <= calendar_date(days).0 < 10000,
    ensures
        ({
            let (y, m, d) = calendar_date(days);
            let s = utc_text((((days * 24 + hour) * 60 + minute) * 60 + second) * 1000 + ms);
            &&& s.len() == 24
            &&& s.subrange(0, 4) == padded(y as nat, 4) && s[4] == '-'
            &&& s.subrange(5, 7) == padded(m as nat, 2) && s[7] == '-'
            &&& s.subrange(8, 10) == padded(d as nat, 2) && s[10] == 'T'
            &&& s.subrange(11, 13) == padded(hour, 2) && s[13] == ':'
            &&& s.subrange(14, 16) == padded(minute, 2) && s[16] == ':'
            &&& s.subrange(17, 19) == padded(second, 2) && s[19] == '.'
            &&& s.subrange(20, 23) == padded(ms, 3) && s[23] == 'Z'
        }),
{
    let all = (((days * 24 + hour) * 60 + minute) * 60 + second) * 1000 + ms;
    let secs = ((days * 24 + hour) * 60 + minute) * 60 + second;
    let day = (hour * 60 + minute) * 60 + second;
    assert(all / 1000 == secs && all % 1000 == ms);
    assert(secs == days * 86400 + day);
    assert(0 <= day < 86400);
    assert(secs / 86400 == days && secs % 86400 == day);
    assert(day / 3600 == hour && (day % 3600) / 60 == minute && day % 60 == second);
    let (y, m, d) = calendar_date(days);
    every_day_has_a_date(days);
    lemma_four_wide(y as nat);
    lemma_two_wide(m as nat);
    lemma_two_wide(d as nat);
    lemma_two_wide(hour);
    lemma_two_wide(minute);
    lemma_two_wide(second);
    lemma_three_wide(ms);
    lemma_fields(
        padded(y as nat, 4),
        padded(m as nat, 2),
        padded(d as nat, 2),
        padded(hour, 2),
        padded(minute, 2),
        padded(second, 2),
        padded(ms, 3),
    );
}

proof fn lemma_fields(
    y: Seq<char>,
    m: Seq<char>,
    d: Seq<char>,
    h: Seq<char>,
    n: Seq<char>,
    s: Seq<char>,
    f: Seq<char>,
)
    requires
        y.len() == 4,
        m.len() == 2,
        d.len() == 2,
        h.len() == 2,
        n.len() == 2,
        s.len() == 2,
        f.len() == 3,
    ensures
        ({
            let date = (y.push('-') + m).push('-') + d;
            let hm = (date.push('T') + h).push(':') + n;
            let t = ((hm.push(':') + s).push('.') + f).push('Z');
            &&& t.len() == 24
            &&& t.subrange(0, 4) == y && t[4] == '-'
            &&& t.subrange(5, 7) == m && t[7] == '-'
            &&& t.subrange(8, 10) == d && t[10] == 'T'
            &&& t.subrange(11, 13) == h && t[13] == ':'
            &&& t.subrange(14, 16) == n && t[16] == ':'
            &&& t.subrange(17, 19) == s && t[19] == '.'
            &&& t.subrange(20, 23) == f && t[23] == 'Z'
        }),
{
}

} // verus!
