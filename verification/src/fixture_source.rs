//! A source of transcripts that plays a script, for a meeting without audio.

use crate::events::{TranscriptInput, TranscriptInputView, TranscriptSource};
use crate::model::Track;
use crate::session_model::BATCH_MS;
use crate::text::{chars_of, same, string_of, views, views_push};
use vstd::prelude::*;
use vstd::string::*;

verus! {

broadcast use views_push;

/// How many characters are spoken in one step of a tenth of a second: about the speed of
/// ordinary speech.
pub const CHARS_PER_TICK: usize = 1;

/// How many steps of silence stand between two lines: about two seconds.
pub const IDLE_TICKS_BETWEEN_UTTERANCES: u32 = 20;

/// How many lines the script has.
pub const SCRIPT_LINES: usize = 11;

/// How many steps one poll makes up for at most.
pub const MOST_STEPS: u64 = 8;

/// The number before that of the first segment.
pub const FIRST_SEGMENT_ID: u64 = 1000;

/// The speaker and the words of line `i` of the script.
pub open spec fn script_line(i: int) -> (Seq<char>, Seq<char>) {
    if i == 0 {
        ("s1"@, "首頁我們希望案例可以往上拉，現在要滑三屏才看得到。"@)
    } else if i == 1 {
        ("me"@, "了解。那案例頁本身要不要一起改版？"@)
    } else if i == 2 {
        ("s1"@, "要，但範圍我們想分開報價，設計、開發、維運各自拆開。"@)
    } else if i == 3 {
        ("s2"@, "維運的部分可以先給一個月費的區間嗎，我們內部要走預算。"@)
    } else if i == 4 {
        ("me"@, "可以，我列一份維運選配，含服務時段跟回應時間。SLA 我們下次再談細節。"@)
    } else if i == 5 {
        ("s1"@, "另外 CMS 我們現在用的是舊版，這次想一起換掉。"@)
    } else if i == 6 {
        ("s2"@, "搬遷的內容量大概是四百多頁，這部分責任要寫清楚。"@)
    } else if i == 7 {
        ("me"@, "那我在範圍書裡把內容搬遷單獨列一條，標明由誰負責。"@)
    } else if i == 8 {
        ("s1"@, "效能的部分有沒有一個驗收標準？"@)
    } else if i == 9 {
        ("me"@, "通常會用實際載入時間當門檻，這個可以寫進驗收條件。"@)
    } else {
        ("s2"@, "下次麻煩直接帶頁面清單來對，不要只有口頭描述。"@)
    }
}

fn line(i: usize) -> (r: (&'static str, &'static str))
    requires
        i < SCRIPT_LINES,
    ensures
        (r.0@, r.1@) == script_line(i as int),
{
    match i {
        0 => ("s1", "首頁我們希望案例可以往上拉，現在要滑三屏才看得到。"),
        1 => ("me", "了解。那案例頁本身要不要一起改版？"),
        2 => ("s1", "要，但範圍我們想分開報價，設計、開發、維運各自拆開。"),
        3 => ("s2", "維運的部分可以先給一個月費的區間嗎，我們內部要走預算。"),
        4 => ("me", "可以，我列一份維運選配，含服務時段跟回應時間。SLA 我們下次再談細節。"),
        5 => ("s1", "另外 CMS 我們現在用的是舊版，這次想一起換掉。"),
        6 => ("s2", "搬遷的內容量大概是四百多頁，這部分責任要寫清楚。"),
        7 => ("me", "那我在範圍書裡把內容搬遷單獨列一條，標明由誰負責。"),
        8 => ("s1", "效能的部分有沒有一個驗收標準？"),
        9 => ("me", "通常會用實際載入時間當門檻，這個可以寫進驗收條件。"),
        _ => ("s2", "下次麻煩直接帶頁面清單來對，不要只有口頭描述。"),
    }
}

/// A line that is being spoken.
struct Live {
    segment_id: u64,
    speaker_id: &'static str,
    full: Vec<char>,
    shown: usize,
}

/// A line that is being spoken, with how much of it has been.
pub struct LiveView {
    pub segment_id: u64,
    pub speaker_id: Seq<char>,
    pub full: Seq<char>,
    pub shown: nat,
}

impl View for Live {
    type V = LiveView;

    closed spec fn view(&self) -> LiveView {
        LiveView {
            segment_id: self.segment_id,
            speaker_id: self.speaker_id@,
            full: self.full@,
            shown: self.shown as nat,
        }
    }
}

/// Plays the script once, then is silent: a conversation that begins anew is nothing that a
/// real source would give.
pub struct FixtureSource {
    script_idx: usize,
    idle_ticks: u32,
    live: Option<Live>,
}

/// The next line of the script, the steps of silence since the last one, and the line that is
/// being spoken.
pub struct FixtureSourceView {
    pub script_idx: nat,
    pub idle_ticks: nat,
    pub live: Option<LiveView>,
}

impl View for FixtureSource {
    type V = FixtureSourceView;

    closed spec fn view(&self) -> FixtureSourceView {
        FixtureSourceView {
            script_idx: self.script_idx as nat,
            idle_ticks: self.idle_ticks as nat,
            live: match self.live {
                Some(l) => Some(l@),
                None => None,
            },
        }
    }
}

/// The track on which a speaker is heard: the user by the microphone, everybody else from the
/// system. That there is but one person at the far end does not follow.
pub open spec fn track_of(speaker_id: Seq<char>) -> Track {
    if speaker_id == "me"@ {
        Track::Mic
    } else {
        Track::System
    }
}

impl FixtureSourceView {
    /// The line that is being spoken, after one more step.
    pub open spec fn spoken(self, l: LiveView) -> nat {
        if l.shown + CHARS_PER_TICK < l.full.len() {
            (l.shown + CHARS_PER_TICK) as nat
        } else {
            l.full.len()
        }
    }

    /// One step: the state after it, and what it gives.
    pub open spec fn step(self) -> (FixtureSourceView, Seq<TranscriptInputView>) {
        match self.live {
            Some(l) => {
                let shown = self.spoken(l);
                let track = track_of(l.speaker_id);
                if shown == l.full.len() {
                    (
                        FixtureSourceView { live: None, ..self },
                        seq![
                            TranscriptInputView::Final {
                                segment_id: l.segment_id,
                                speaker_id: l.speaker_id,
                                text: l.full,
                                track,
                                audio_span: None,
                            },
                        ],
                    )
                } else {
                    (
                        FixtureSourceView { live: Some(LiveView { shown, ..l }), ..self },
                        seq![
                            TranscriptInputView::Partial {
                                segment_id: l.segment_id,
                                speaker_id: l.speaker_id,
                                text: l.full.take(shown as int),
                                track,
                            },
                        ],
                    )
                }
            },
            None => if self.script_idx >= SCRIPT_LINES {
                (self, seq![])
            } else if self.idle_ticks + 1 < IDLE_TICKS_BETWEEN_UTTERANCES {
                (FixtureSourceView { idle_ticks: self.idle_ticks + 1, ..self }, seq![])
            } else {
                let (speaker_id, full) = script_line(self.script_idx as int);
                (
                    FixtureSourceView {
                        script_idx: self.script_idx + 1,
                        idle_ticks: 0,
                        live: Some(
                            LiveView {
                                segment_id: (FIRST_SEGMENT_ID + self.script_idx + 1) as u64,
                                speaker_id,
                                full,
                                shown: 0,
                            },
                        ),
                    },
                    seq![],
                )
            },
        }
    }

    /// The state after `n` steps, and what they give in order.
    pub open spec fn played(self, n: nat) -> (FixtureSourceView, Seq<TranscriptInputView>)
        decreases n,
    {
        if n == 0 {
            (self, seq![])
        } else {
            let (mid, given) = self.played((n - 1) as nat);
            let (end, more) = mid.step();
            (end, given + more)
        }
    }
}

/// The steps that a poll makes: one for each window that has passed, at least one, and not
/// more than there is sense in making up for.
pub open spec fn steps_in(window_ms: u64) -> nat {
    let steps = window_ms / BATCH_MS;
    if steps < 1 {
        1
    } else if steps > MOST_STEPS {
        MOST_STEPS as nat
    } else {
        steps as nat
    }
}

/// Steps after the script has ended give nothing and change nothing.
proof fn lemma_silence(s: FixtureSourceView, done: nat, n: nat)
    requires
        done <= n,
        s.played(done).0.live is None,
        s.played(done).0.script_idx >= SCRIPT_LINES,
    ensures
        s.played(n) == s.played(done),
    decreases n,
{
    if done < n {
        lemma_silence(s, done, (n - 1) as nat);
        assert(s.played(n).1 =~= s.played(done).1);
    }
}

impl Default for FixtureSource {
    fn default() -> (r: Self)
        ensures
            r@ == (FixtureSourceView { script_idx: 0, idle_ticks: 0, live: None }),
    {
        FixtureSource { script_idx: 0, idle_ticks: 0, live: None }
    }
}

impl TranscriptSource for FixtureSource {
    fn poll(&mut self, window_ms: u64) -> (r: Vec<TranscriptInput>)
        ensures
            (final(self)@, views(r@)) == old(self)@.played(steps_in(window_ms)),
    {
        let ghost before = self@;
        let whole: u64 = window_ms / BATCH_MS;
        let steps: u64 = if whole < 1 {
            1
        } else if whole > MOST_STEPS {
            MOST_STEPS
        } else {
            whole
        };
        let mut out: Vec<TranscriptInput> = Vec::new();
        assert(views(out@) =~= seq![]);
        let mut done: u64 = 0;
        while done < steps
            invariant
                done <= steps,
                before == old(self)@,
                steps == steps_in(window_ms),
                (self@, views(out@)) == before.played(done as nat),
            decreases steps - done,
        {
            let ghost given = views(out@);
            let live = self.live.take();
            match live {
                Some(l) => {
                    let shown: usize = if l.shown < l.full.len() {
                        l.shown + CHARS_PER_TICK
                    } else {
                        l.full.len()
                    };
                    let text = string_of(&l.full, 0, shown);
                    let track = if same(l.speaker_id, "me") {
                        Track::Mic
                    } else {
                        Track::System
                    };
                    assert(l.full@.subrange(0, shown as int) =~= l.full@.take(shown as int));
                    if shown >= l.full.len() {
                        assert(l.full@.take(shown as int) =~= l.full@);
                        out.push(
                            TranscriptInput::Final {
                                segment_id: l.segment_id,
                                speaker_id: l.speaker_id.to_owned(),
                                text,
                                track,
                                audio_span: None,
                            },
                        );
                    } else {
                        out.push(
                            TranscriptInput::Partial {
                                segment_id: l.segment_id,
                                speaker_id: l.speaker_id.to_owned(),
                                text,
                                track,
                            },
                        );
                        self.live = Some(
                            Live {
                                segment_id: l.segment_id,
                                speaker_id: l.speaker_id,
                                full: l.full,
                                shown,
                            },
                        );
                    }
                    assert(views(out@) =~= given + before.played(done as nat).0.step().1);
                },
                None => {
                    assert(self@ == before.played(done as nat).0);
                    if self.script_idx >= SCRIPT_LINES {
                        proof {
                            lemma_silence(before, done as nat, steps as nat);
                        }
                        return out;
                    }
                    if self.idle_ticks < IDLE_TICKS_BETWEEN_UTTERANCES - 1 {
                        self.idle_ticks = self.idle_ticks + 1;
                    } else {
                        let said = line(self.script_idx);
                        self.idle_ticks = 0;
                        self.script_idx = self.script_idx + 1;
                        self.live = Some(
                            Live {
                                segment_id: FIRST_SEGMENT_ID + self.script_idx as u64,
                                speaker_id: said.0,
                                full: chars_of(said.1),
                                shown: 0,
                            },
                        );
                    }
                    assert(views(out@) =~= given + before.played(done as nat).0.step().1);
                },
            }
            done = done + 1;
        }
        out
    }
}

/// The silence before a line, then the line itself.
proof fn lemma_played_adds(s: FixtureSourceView, a: nat, b: nat)
    ensures
        s.played(a + b).0 == s.played(a).0.played(b).0,
        s.played(a + b).1 == s.played(a).1 + s.played(a).0.played(b).1,
    decreases b,
{
    if b == 0 {
        assert(s.played(a).1 + s.played(a).0.played(b).1 =~= s.played(a).1);
    } else {
        lemma_played_adds(s, a, (b - 1) as nat);
        assert(s.played(a + b).1 =~= s.played(a).1 + s.played(a).0.played(b).1);
    }
}

/// Polls of whole windows, few enough for one poll to make up for, give the same together as
/// one poll of all of them: falling behind loses nothing.
pub proof fn polls_add_up(s: FixtureSourceView, a: u64, b: u64)
    requires
        a >= 1,
        b >= 1,
        a + b <= MOST_STEPS,
    ensures
        ({
            let first = s.played(steps_in((a * BATCH_MS) as u64));
            let second = first.0.played(steps_in((b * BATCH_MS) as u64));
            let whole = s.played(steps_in(((a + b) * BATCH_MS) as u64));
            whole.0 == second.0 && whole.1 == first.1 + second.1
        }),
{
    lemma_played_adds(s, a as nat, b as nat);
    assert(steps_in((a * BATCH_MS) as u64) == a);
    assert(steps_in((b * BATCH_MS) as u64) == b);
    assert(steps_in(((a + b) * BATCH_MS) as u64) == a + b);
}

/// A line comes character by character under one number, and its last step gives the whole of
/// it as final.
pub proof fn lines_are_spoken_to_their_end(s: FixtureSourceView, n: nat)
    requires
        s.live matches Some(l) && l.shown == 0 && 0 < n <= l.full.len(),
    ensures
        ({
            let l = s.live->0;
            let (t, given) = s.played(n);
            let track = track_of(l.speaker_id);
            &&& given.len() == n
            &&& t.script_idx == s.script_idx
            &&& n < l.full.len() ==> t.live == Some(LiveView { shown: n, ..l }) && given.last()
                == (TranscriptInputView::Partial {
                segment_id: l.segment_id,
                speaker_id: l.speaker_id,
                text: l.full.take(n as int),
                track,
            })
            &&& n == l.full.len() ==> t.live is None && given.last() == (TranscriptInputView::Final {
                segment_id: l.segment_id,
                speaker_id: l.speaker_id,
                text: l.full,
                track,
                audio_span: None,
            })
        }),
    decreases n,
{
    if n > 1 {
        lines_are_spoken_to_their_end(s, (n - 1) as nat);
    } else {
        assert(s.played(0) == (s, Seq::<TranscriptInputView>::empty()));
    }
    let l = s.live->0;
    let (mid, given) = s.played((n - 1) as nat);
    assert(mid.live == Some(LiveView { shown: (n - 1) as nat, ..l }));
    assert(s.played(n).1.last() == mid.step().1.last());
}

/// After the last line there is silence, however long one waits.
pub proof fn the_script_is_played_once(s: FixtureSourceView, n: nat)
    requires
        s.live is None,
        s.script_idx >= SCRIPT_LINES,
    ensures
        s.played(n) == (s, Seq::<TranscriptInputView>::empty()),
{
    assert(s.played(0) == (s, Seq::<TranscriptInputView>::empty()));
    lemma_silence(s, 0, n);
}

} // verus!
