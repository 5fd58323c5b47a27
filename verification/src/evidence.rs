//! The evidence that a generation works from: how much of it fits, what is always
//! sent, and what has to be left out.
//!
//! Nothing is cut in silence. Where the room is too small the generation is refused
//! before the model is called, and what had to be left out is counted.

use crate::cursor::{
    notes_at, notes_through, segments_at, segments_through, speakers_at, speakers_through,
    what_comes_later_is_not_seen, SegmentRow, SegmentRowView, SpeakerRow, SpeakerRowView,
};
use crate::render::{display_names, pair_views, speaker_names};
use crate::store::{
    EvidenceText, EvidenceTextView, MeetingId, StoredNote, StoredNoteView, StoredRun, StoredRunView,
    StoredSegment, StoredSegmentView, StoredSpeaker, StoredSpeakerView,
};
use crate::text::{chars_of, decimal, decimal_text, join, joined, string_of, views};
use vstd::prelude::*;
use vstd::string::*;

verus! {

/// Why a generation fails.
#[derive(Debug, PartialEq, Eq)]
pub enum AgentError {
    /// The store could not be read.
    Store(String),
    /// The evidence does not fit the model. It is refused here, because a provider
    /// would cut it without a word.
    BudgetExceeded(String),
    /// What the provider reported.
    Provider(String),
}

pub enum AgentErrorView {
    Store(Seq<char>),
    BudgetExceeded(Seq<char>),
    Provider(Seq<char>),
}

impl View for AgentError {
    type V = AgentErrorView;

    open spec fn view(&self) -> AgentErrorView {
        match *self {
            AgentError::Store(s) => AgentErrorView::Store(s@),
            AgentError::BudgetExceeded(s) => AgentErrorView::BudgetExceeded(s@),
            AgentError::Provider(s) => AgentErrorView::Provider(s@),
        }
    }
}

impl AgentErrorView {
    pub open spec fn words(self) -> Seq<char> {
        match self {
            AgentErrorView::Store(s) => s,
            AgentErrorView::BudgetExceeded(s) => "本輪證據超出所選模型的能力："@ + s,
            AgentErrorView::Provider(s) => "Provider 回報錯誤："@ + s,
        }
    }
}

impl AgentError {
    /// The failure in words.
    pub fn message(&self) -> (r: String)
        ensures
            r@ == self@.words(),
    {
        match self {
            AgentError::Store(s) => s.clone(),
            AgentError::BudgetExceeded(s) => {
                let mut out = "本輪證據超出所選模型的能力：".to_owned();
                out.append(s.as_str());
                out
            },
            AgentError::Provider(s) => {
                let mut out = "Provider 回報錯誤：".to_owned();
                out.append(s.as_str());
                out
            },
        }
    }
}

/// The model of a result.
pub open spec fn result_view<T: View>(r: Result<T, AgentError>) -> Result<T::V, AgentErrorView> {
    match r {
        Ok(t) => Ok(t@),
        Err(e) => Err(e@),
    }
}

// ---------------------------------------------------------------------------
// Room for evidence
// ---------------------------------------------------------------------------

/// What the room for evidence is computed from.
#[derive(Debug, Clone, Copy, PartialEq, Eq, Structural)]
pub struct BudgetInputs {
    /// How much the model can take in.
    pub context_window: usize,
    /// What is kept free for its answer.
    pub output_reserve: usize,
    /// What is kept free because counts are estimates.
    pub safety_margin: usize,
    /// The least evidence that makes a generation worth while.
    pub minimum_evidence: usize,
}

/// The limits of an ordinary model.
pub open spec fn default_budget() -> BudgetInputs {
    BudgetInputs {
        context_window: 128_000,
        output_reserve: 8_000,
        safety_margin: 2_000,
        minimum_evidence: 4_000,
    }
}

impl Default for BudgetInputs {
    fn default() -> (r: Self)
        ensures
            r == default_budget(),
    {
        Self {
            context_window: 128_000,
            output_reserve: 8_000,
            safety_margin: 2_000,
            minimum_evidence: 4_000,
        }
    }
}

/// What is left of the context window for evidence.
pub open spec fn room_left(b: BudgetInputs, instruction_tokens: int) -> int {
    let fixed = b.output_reserve + b.safety_margin + instruction_tokens;
    if fixed >= b.context_window {
        0
    } else {
        b.context_window - fixed
    }
}

/// The room for evidence, refused where it is below the least that is worth while.
pub open spec fn allowance(b: BudgetInputs, instruction_tokens: int) -> Result<
    usize,
    AgentErrorView,
> {
    let left = room_left(b, instruction_tokens);
    if left < b.minimum_evidence {
        Err(
            AgentErrorView::BudgetExceeded(
                "扣除輸出保留、安全邊際與指令佔用之後只剩 "@ + decimal(left as nat)
                    + " token，低於下限 "@ + decimal(b.minimum_evidence as nat),
            ),
        )
    } else {
        Ok(left as usize)
    }
}

/// The room for evidence: what the window holds, less the answer, the margin and the
/// instructions that are really sent.
pub fn evidence_allowance(b: BudgetInputs, instruction_tokens: usize) -> (r: Result<
    usize,
    AgentError,
>)
    ensures
        (match r {
            Ok(n) => Ok(n),
            Err(e) => Err(e@),
        }) == allowance(b, instruction_tokens as int),
{
    let fixed: usize = b.output_reserve.saturating_add(b.safety_margin).saturating_add(
        instruction_tokens,
    );
    let left: usize = b.context_window.saturating_sub(fixed);
    assert(left == room_left(b, instruction_tokens as int));
    if left < b.minimum_evidence {
        let have = decimal_text(left as u128);
        let need = decimal_text(b.minimum_evidence as u128);
        let mut words = "扣除輸出保留、安全邊際與指令佔用之後只剩 ".to_owned();
        words.append(have.as_str());
        words.append(" token，低於下限 ");
        words.append(need.as_str());
        return Err(AgentError::BudgetExceeded(words));
    }
    Ok(left)
}

/// The room never exceeds the window, never shrinks when the instructions do, and
/// together with all that is deducted it stays inside the window.
pub proof fn allowance_respects_the_window(b: BudgetInputs, fewer: int, more: int)
    requires
        0 <= fewer <= more,
    ensures
        room_left(b, more) <= room_left(b, fewer) <= b.context_window,
        allowance(b, fewer) matches Ok(n) ==> b.minimum_evidence <= n && (n > 0 ==> n
            + b.output_reserve + b.safety_margin + fewer == b.context_window),
        allowance(b, more) is Ok ==> allowance(b, fewer) is Ok,
{
}

/// Instructions beyond what a machine word holds leave no room, like those that fill it.
pub proof fn lemma_capped_instructions(b: BudgetInputs, size: int)
    requires
        0 <= size,
    ensures
        allowance(b, capped(size) as int) == allowance(b, size),
{
}

/// Counts the tokens of a text, as the provider would.
pub trait Tokenizer: Send {
    /// How many tokens a text has.
    spec fn tokens(&self, text: Seq<char>) -> usize;

    fn count(&self, text: &str) -> (n: usize)
        ensures
            n == self.tokens(text@),
    ;
}

/// One token for each character: more than there are, so that evidence is cut early
/// rather than the call refused.
pub struct CharUpperBound;

impl Tokenizer for CharUpperBound {
    open spec fn tokens(&self, text: Seq<char>) -> usize {
        text.len() as usize
    }

    fn count(&self, text: &str) -> (n: usize) {
        text.unicode_len()
    }
}

// ---------------------------------------------------------------------------
// The index
// ---------------------------------------------------------------------------

/// What is read of a meeting for one generation: every version of everything that has been
/// recorded. Recording may go on meanwhile, so some of it may come after the cursor.
#[derive(Debug, PartialEq, Eq)]
pub struct ReadSnapshot {
    pub segments: Vec<SegmentRow>,
    pub notes: Vec<StoredNote>,
    pub speakers: Vec<SpeakerRow>,
    /// What can be cited.
    pub evidence: Vec<EvidenceText>,
    /// The generations so far.
    pub runs: Vec<StoredRun>,
}

pub struct ReadSnapshotView {
    pub segments: Seq<SegmentRowView>,
    pub notes: Seq<StoredNoteView>,
    pub speakers: Seq<SpeakerRowView>,
    pub evidence: Seq<EvidenceTextView>,
    pub runs: Seq<StoredRunView>,
}

impl View for ReadSnapshot {
    type V = ReadSnapshotView;

    open spec fn view(&self) -> ReadSnapshotView {
        ReadSnapshotView {
            segments: views(self.segments@),
            notes: views(self.notes@),
            speakers: views(self.speakers@),
            evidence: views(self.evidence@),
            runs: views(self.runs@),
        }
    }
}

/// A run of neighbouring segments, summed up by how it begins.
#[derive(Debug, PartialEq, Eq)]
pub struct OutlineChunk {
    pub first_segment_id: u64,
    pub last_segment_id: u64,
    pub meeting_start_ms: u64,
    pub meeting_end_ms: u64,
    pub summary: String,
}

pub struct OutlineChunkView {
    pub first_segment_id: u64,
    pub last_segment_id: u64,
    pub meeting_start_ms: u64,
    pub meeting_end_ms: u64,
    pub summary: Seq<char>,
}

impl View for OutlineChunk {
    type V = OutlineChunkView;

    open spec fn view(&self) -> OutlineChunkView {
        OutlineChunkView {
            first_segment_id: self.first_segment_id,
            last_segment_id: self.last_segment_id,
            meeting_start_ms: self.meeting_start_ms,
            meeting_end_ms: self.meeting_end_ms,
            summary: self.summary@,
        }
    }
}

impl Clone for OutlineChunk {
    fn clone(&self) -> (r: Self)
        ensures
            r == *self,
    {
        OutlineChunk {
            first_segment_id: self.first_segment_id,
            last_segment_id: self.last_segment_id,
            meeting_start_ms: self.meeting_start_ms,
            meeting_end_ms: self.meeting_end_ms,
            summary: self.summary.clone(),
        }
    }
}

/// A speaker and the name to show. Segments carry the one, readers want the other.
#[derive(Debug, PartialEq, Eq)]
pub struct SpeakerName {
    pub id: String,
    pub display: String,
}

pub struct SpeakerNameView {
    pub id: Seq<char>,
    pub display: Seq<char>,
}

impl View for SpeakerName {
    type V = SpeakerNameView;

    open spec fn view(&self) -> SpeakerNameView {
        SpeakerNameView { id: self.id@, display: self.display@ }
    }
}

impl Clone for SpeakerName {
    fn clone(&self) -> (r: Self)
        ensures
            r == *self,
    {
        SpeakerName { id: self.id.clone(), display: self.display.clone() }
    }
}

/// What is made once for a snapshot and shared by all rounds.
#[derive(Debug, PartialEq, Eq)]
pub struct EvidenceIndex {
    pub meeting_id: MeetingId,
    pub through_event_seq: u64,
    /// Sent in every round.
    pub outline: Vec<OutlineChunk>,
    /// Sent in every round, and never cut: a note can always be cited.
    pub notes: Vec<StoredNote>,
    pub speakers: Vec<SpeakerName>,
    /// Sent in full where there is room.
    pub segments: Vec<StoredSegment>,
}

pub struct EvidenceIndexView {
    pub meeting_id: MeetingId,
    pub through_event_seq: u64,
    pub outline: Seq<OutlineChunkView>,
    pub notes: Seq<StoredNoteView>,
    pub speakers: Seq<SpeakerNameView>,
    pub segments: Seq<StoredSegmentView>,
}

impl View for EvidenceIndex {
    type V = EvidenceIndexView;

    open spec fn view(&self) -> EvidenceIndexView {
        EvidenceIndexView {
            meeting_id: self.meeting_id,
            through_event_seq: self.through_event_seq,
            outline: views(self.outline@),
            notes: views(self.notes@),
            speakers: views(self.speakers@),
            segments: views(self.segments@),
        }
    }
}

/// How many segments one entry of the outline covers.
pub const OUTLINE_CHUNK_SEGMENTS: usize = 8;

/// How many characters the summary of an entry has at most, before the mark that it
/// was cut.
pub const OUTLINE_SUMMARY_CHARS: usize = 60;

/// The first `n` characters, marked where there were more.
pub open spec fn truncated(s: Seq<char>, n: int) -> Seq<char> {
    if s.len() > n {
        s.take(n).push('…')
    } else {
        s
    }
}

/// The first `n` characters, marked where there were more.
pub fn truncate_chars(s: &str, n: usize) -> (r: String)
    ensures
        r@ == truncated(s@, n as int),
{
    let chars = chars_of(s);
    if chars.len() > n {
        let mut out = string_of(&chars, 0, n);
        assert(chars@.subrange(0, n as int) =~= s@.take(n as int));
        out.push('…');
        out
    } else {
        s.to_owned()
    }
}

/// The texts of some segments.
pub open spec fn segment_texts(segments: Seq<StoredSegmentView>) -> Seq<Seq<char>> {
    Seq::new(segments.len(), |i: int| segments[i].text)
}

/// The entry of the outline for some segments.
pub open spec fn chunk_of(c: Seq<StoredSegmentView>) -> OutlineChunkView {
    OutlineChunkView {
        first_segment_id: c[0].segment_id,
        last_segment_id: c.last().segment_id,
        meeting_start_ms: c[0].meeting_start_ms,
        meeting_end_ms: c.last().meeting_end_ms,
        summary: truncated(joined(segment_texts(c), " "@), OUTLINE_SUMMARY_CHARS as int),
    }
}

/// Where the `k`-th entry of the outline of `n` segments begins.
pub open spec fn chunk_start(k: int, n: int) -> int {
    if k * OUTLINE_CHUNK_SEGMENTS < n {
        k * OUTLINE_CHUNK_SEGMENTS
    } else {
        n
    }
}

/// How many entries the outline of `n` segments has.
pub open spec fn chunk_count(n: int) -> int {
    (n + OUTLINE_CHUNK_SEGMENTS - 1) / (OUTLINE_CHUNK_SEGMENTS as int)
}

/// The outline: the segments in runs, one entry for each.
pub open spec fn outline_of(segments: Seq<StoredSegmentView>) -> Seq<OutlineChunkView> {
    let n = segments.len() as int;
    Seq::new(
        chunk_count(n) as nat,
        |k: int| chunk_of(segments.subrange(chunk_start(k, n), chunk_start(k + 1, n))),
    )
}

/// The speakers with the names to show.
pub open spec fn named_speakers(
    speakers: Seq<StoredSpeakerView>,
    segments: Seq<StoredSegmentView>,
) -> Seq<SpeakerNameView> {
    let names = display_names(speakers, segments);
    Seq::new(names.len(), |k: int| SpeakerNameView { id: names[k].0, display: names[k].1 })
}

/// The index of what held at the cursor.
pub open spec fn index_of(
    snapshot: ReadSnapshotView,
    meeting: MeetingId,
    through: u64,
) -> EvidenceIndexView {
    let segments = segments_at(snapshot.segments, through);
    EvidenceIndexView {
        meeting_id: meeting,
        through_event_seq: through,
        outline: outline_of(segments),
        notes: notes_at(snapshot.notes, through),
        speakers: named_speakers(speakers_at(snapshot.speakers, through), segments),
        segments,
    }
}

fn build_chunk(segments: &Vec<StoredSegment>, from: usize, to: usize) -> (r: OutlineChunk)
    requires
        from < to <= segments@.len(),
    ensures
        r@ == chunk_of(views(segments@).subrange(from as int, to as int)),
{
    let ghost c = views(segments@).subrange(from as int, to as int);
    let mut texts: Vec<String> = Vec::new();
    let mut i: usize = from;
    while i < to
        invariant
            from <= i <= to <= segments@.len(),
            c == views(segments@).subrange(from as int, to as int),
            views(texts@) == segment_texts(c).take(i - from),
        decreases to - i,
    {
        let ghost before = texts@;
        texts.push(segments[i].text.clone());
        assert(segment_texts(c)[i - from] == segments@[i as int].text@);
        i = i + 1;
        assert(views(texts@) =~= views(before).push(segments@[i - 1].text@));
        assert(views(texts@) =~= segment_texts(c).take(i - from));
    }
    assert(views(texts@) =~= segment_texts(c));
    let all = join(&texts, " ");
    let (first, last) = (&segments[from], &segments[to - 1]);
    OutlineChunk {
        first_segment_id: first.segment_id,
        last_segment_id: last.segment_id,
        meeting_start_ms: first.meeting_start_ms,
        meeting_end_ms: last.meeting_end_ms,
        summary: truncate_chars(all.as_str(), OUTLINE_SUMMARY_CHARS),
    }
}

fn build_outline(segments: &Vec<StoredSegment>) -> (r: Vec<OutlineChunk>)
    ensures
        views(r@) == outline_of(views(segments@)),
{
    let n: usize = segments.len();
    let ghost all = views(segments@);
    let mut out: Vec<OutlineChunk> = Vec::new();
    let mut at: usize = 0;
    let ghost mut k: int = 0;
    while at < n
        invariant
            n == segments@.len(),
            all == views(segments@),
            0 <= k,
            at == chunk_start(k, n as int),
            k <= chunk_count(n as int),
            at == n ==> k == chunk_count(n as int),
            views(out@) == outline_of(all).take(k),
        decreases n - at,
    {
        let to: usize = if n - at <= OUTLINE_CHUNK_SEGMENTS { n } else { at + OUTLINE_CHUNK_SEGMENTS };
        let ghost before = out@;
        let chunk = build_chunk(segments, at, to);
        let ghost v = chunk@;
        out.push(chunk);
        proof {
            assert(to == chunk_start(k + 1, n as int));
            assert(views(out@) =~= views(before).push(v));
            k = k + 1;
            assert(views(out@) =~= outline_of(all).take(k));
        }
        at = to;
    }
    assert(outline_of(all).take(k) =~= outline_of(all));
    out
}

fn copy_notes(list: &Vec<StoredNote>) -> (r: Vec<StoredNote>)
    ensures
        r@ == list@,
{
    let mut out: Vec<StoredNote> = Vec::new();
    let mut i: usize = 0;
    while i < list.len()
        invariant
            i <= list@.len(),
            out@ == list@.take(i as int),
        decreases list.len() - i,
    {
        out.push(list[i].clone());
        i = i + 1;
        assert(out@ =~= list@.take(i as int));
    }
    assert(list@.take(i as int) =~= list@);
    out
}

fn copy_outline(list: &Vec<OutlineChunk>) -> (r: Vec<OutlineChunk>)
    ensures
        r@ == list@,
{
    let mut out: Vec<OutlineChunk> = Vec::new();
    let mut i: usize = 0;
    while i < list.len()
        invariant
            i <= list@.len(),
            out@ == list@.take(i as int),
        decreases list.len() - i,
    {
        out.push(list[i].clone());
        i = i + 1;
        assert(out@ =~= list@.take(i as int));
    }
    assert(list@.take(i as int) =~= list@);
    out
}

fn copy_speakers(list: &Vec<SpeakerName>) -> (r: Vec<SpeakerName>)
    ensures
        r@ == list@,
{
    let mut out: Vec<SpeakerName> = Vec::new();
    let mut i: usize = 0;
    while i < list.len()
        invariant
            i <= list@.len(),
            out@ == list@.take(i as int),
        decreases list.len() - i,
    {
        out.push(list[i].clone());
        i = i + 1;
        assert(out@ =~= list@.take(i as int));
    }
    assert(list@.take(i as int) =~= list@);
    out
}

/// Makes the index of what held at the cursor. Speakers are called what they are called
/// everywhere.
pub fn build_index(store: &ReadSnapshot, meeting: MeetingId, through_event_seq: u64) -> (r:
    EvidenceIndex)
    ensures
        r@ == index_of(store@, meeting, through_event_seq),
{
    let segments = segments_through(store.segments.as_slice(), through_event_seq);
    let heard = speakers_through(store.speakers.as_slice(), through_event_seq);
    let names = speaker_names(heard.as_slice(), segments.as_slice());
    let ghost shown = named_speakers(views(heard@), views(segments@));
    let mut speakers: Vec<SpeakerName> = Vec::new();
    let mut i: usize = 0;
    while i < names.len()
        invariant
            i <= names@.len(),
            pair_views(names@) == display_names(views(heard@), views(segments@)),
            shown == named_speakers(views(heard@), views(segments@)),
            views(speakers@) == shown.take(i as int),
        decreases names.len() - i,
    {
        let ghost before = speakers@;
        let one = SpeakerName { id: names[i].0.clone(), display: names[i].1.clone() };
        let ghost v = one@;
        assert(pair_views(names@)[i as int] == (names@[i as int].0@, names@[i as int].1@));
        assert(v == shown[i as int]);
        speakers.push(one);
        i = i + 1;
        assert(views(speakers@) =~= views(before).push(v));
        assert(views(speakers@) =~= shown.take(i as int));
    }
    assert(names@.len() == pair_views(names@).len());
    assert(shown.take(i as int) =~= shown);
    EvidenceIndex {
        meeting_id: meeting,
        through_event_seq,
        outline: build_outline(&segments),
        notes: notes_through(store.notes.as_slice(), through_event_seq),
        speakers,
        segments,
    }
}

/// Recording goes on while a summary is made: whatever has come after the cursor, the summary
/// is made from the same index.
pub proof fn the_index_is_frozen(
    a: ReadSnapshotView,
    b: ReadSnapshotView,
    more_segments: Seq<SegmentRowView>,
    more_notes: Seq<StoredNoteView>,
    more_speakers: Seq<SpeakerRowView>,
    meeting: MeetingId,
    through: u64,
)
    requires
        b.segments == a.segments + more_segments,
        b.notes == a.notes + more_notes,
        b.speakers == a.speakers + more_speakers,
        forall|k: int|
            0 <= k < more_segments.len() ==> (#[trigger] more_segments[k]).created_event_seq
                > through,
        forall|k: int|
            0 <= k < more_notes.len() ==> (#[trigger] more_notes[k]).event_seq > through,
        forall|k: int|
            0 <= k < more_speakers.len() ==> (#[trigger] more_speakers[k]).first_event_seq > through,
    ensures
        index_of(b, meeting, through) == index_of(a, meeting, through),
{
    what_comes_later_is_not_seen(
        a.segments,
        more_segments,
        a.notes,
        more_notes,
        a.speakers,
        more_speakers,
        through,
    );
}

/// The outline leaves no segment out: its entries follow one another without a gap,
/// from the first segment to the last.
pub proof fn outline_covers_every_segment(segments: Seq<StoredSegmentView>, i: int)
    requires
        0 <= i < segments.len(),
    ensures
        ({
            let outline = outline_of(segments);
            let n = segments.len() as int;
            let k = i / 8;
            &&& 0 <= k < outline.len()
            &&& chunk_start(k, n) <= i < chunk_start(k + 1, n)
            &&& outline[k].first_segment_id == segments[chunk_start(k, n)].segment_id
            &&& outline[k].last_segment_id == segments[chunk_start(k + 1, n) - 1].segment_id
            &&& chunk_start(0, n) == 0
            &&& chunk_start(outline.len() as int, n) == n
            &&& outline[k].summary.len() <= OUTLINE_SUMMARY_CHARS + 1
        }),
{
}

// ---------------------------------------------------------------------------
// Packing
// ---------------------------------------------------------------------------

/// The evidence that is really sent.
#[derive(Debug, PartialEq, Eq)]
pub struct EvidencePack {
    pub outline: Vec<OutlineChunk>,
    pub notes: Vec<StoredNote>,
    pub speakers: Vec<SpeakerName>,
    /// The segments that are sent in full.
    pub segments: Vec<StoredSegment>,
    pub tokens_used: usize,
    /// How many segments are not sent in full for want of room. It is shown wherever
    /// it is not zero.
    pub segments_omitted: usize,
}

pub struct EvidencePackView {
    pub outline: Seq<OutlineChunkView>,
    pub notes: Seq<StoredNoteView>,
    pub speakers: Seq<SpeakerNameView>,
    pub segments: Seq<StoredSegmentView>,
    pub tokens_used: usize,
    pub segments_omitted: usize,
}

impl View for EvidencePack {
    type V = EvidencePackView;

    open spec fn view(&self) -> EvidencePackView {
        EvidencePackView {
            outline: views(self.outline@),
            notes: views(self.notes@),
            speakers: views(self.speakers@),
            segments: views(self.segments@),
            tokens_used: self.tokens_used,
            segments_omitted: self.segments_omitted,
        }
    }
}

/// The largest number that a machine word holds, where `n` is beyond it, and else `n`.
pub open spec fn capped(n: int) -> usize {
    if n <= usize::MAX {
        n as usize
    } else {
        usize::MAX
    }
}

/// The tokens of all the texts together.
pub open spec fn total_tokens<T: Tokenizer>(texts: Seq<Seq<char>>, tok: &T) -> int
    decreases texts.len(),
{
    if texts.len() == 0 {
        0
    } else {
        total_tokens(texts.drop_last(), tok) + tok.tokens(texts.last())
    }
}

/// The texts that are always sent: the outline, the notes and the names.
pub open spec fn mandatory_texts(index: EvidenceIndexView) -> Seq<Seq<char>> {
    Seq::new(index.outline.len(), |i: int| index.outline[i].summary) + Seq::new(
        index.notes.len(),
        |i: int| index.notes[i].text,
    ) + Seq::new(index.speakers.len(), |i: int| index.speakers[i].display)
}

/// The segments that fit into `room`, taken from the last one back, in their order.
/// What a meeting comes to is said towards its end.
pub open spec fn fitting<T: Tokenizer>(
    segments: Seq<StoredSegmentView>,
    room: int,
    tok: &T,
) -> Seq<StoredSegmentView>
    decreases segments.len(),
{
    if segments.len() == 0 {
        Seq::empty()
    } else {
        let cost = tok.tokens(segments.last().text);
        if cost <= room {
            fitting(segments.drop_last(), room - cost, tok).push(segments.last())
        } else {
            fitting(segments.drop_last(), room, tok)
        }
    }
}

/// The evidence that is sent, where `allowance` is the room for it.
pub open spec fn packed<T: Tokenizer>(index: EvidenceIndexView, allowance: usize, tok: &T) -> Result<
    EvidencePackView,
    AgentErrorView,
> {
    let mandatory = capped(total_tokens(mandatory_texts(index), tok));
    if mandatory > allowance {
        Err(
            AgentErrorView::BudgetExceeded(
                "大綱與人工筆記本身就需要 "@ + decimal(mandatory as nat)
                    + " token，超過可用的 "@ + decimal(allowance as nat)
                    + "。筆記不得被裁切，請改用 context 更大的模型"@,
            ),
        )
    } else {
        let segments = fitting(index.segments, allowance - mandatory, tok);
        Ok(
            EvidencePackView {
                outline: index.outline,
                notes: index.notes,
                speakers: index.speakers,
                segments,
                tokens_used: (mandatory + total_tokens(segment_texts(segments), tok)) as usize,
                segments_omitted: (index.segments.len() - segments.len()) as usize,
            },
        )
    }
}

proof fn lemma_total_push<T: Tokenizer>(texts: Seq<Seq<char>>, t: Seq<char>, tok: &T)
    ensures
        total_tokens(texts.push(t), tok) == total_tokens(texts, tok) + tok.tokens(t),
{
    assert(texts.push(t).drop_last() =~= texts);
}

/// Counts are never negative.
pub proof fn lemma_total_not_negative<T: Tokenizer>(texts: Seq<Seq<char>>, tok: &T)
    ensures
        0 <= total_tokens(texts, tok),
    decreases texts.len(),
{
    if texts.len() > 0 {
        lemma_total_not_negative(texts.drop_last(), tok);
    }
}

/// Counts what is always sent.
fn mandatory_tokens<T: Tokenizer>(index: &EvidenceIndex, tok: &T) -> (r: usize)
    ensures
        r == capped(total_tokens(mandatory_texts(index@), tok)),
{
    let ghost a = Seq::new(index@.outline.len(), |i: int| index@.outline[i].summary);
    let ghost b = Seq::new(index@.notes.len(), |i: int| index@.notes[i].text);
    let ghost c = Seq::new(index@.speakers.len(), |i: int| index@.speakers[i].display);
    let mut sum: usize = 0;
    let mut i: usize = 0;
    while i < index.outline.len()
        invariant
            i <= index.outline@.len(),
            a == Seq::new(index@.outline.len(), |i: int| index@.outline[i].summary),
            sum == capped(total_tokens(a.take(i as int), tok)),
        decreases index.outline.len() - i,
    {
        let n: usize = tok.count(index.outline[i].summary.as_str());
        proof {
            lemma_total_not_negative(a.take(i as int), tok);
            lemma_total_push(a.take(i as int), a[i as int], tok);
            assert(a.take(i + 1) =~= a.take(i as int).push(a[i as int]));
        }
        sum = sum.saturating_add(n);
        i = i + 1;
    }
    assert(a.take(i as int) =~= a);
    let mut j: usize = 0;
    assert(a + b.take(0) =~= a);
    while j < index.notes.len()
        invariant
            j <= index.notes@.len(),
            b == Seq::new(index@.notes.len(), |i: int| index@.notes[i].text),
            sum == capped(total_tokens(a + b.take(j as int), tok)),
        decreases index.notes.len() - j,
    {
        let n: usize = tok.count(index.notes[j].text.as_str());
        proof {
            let t = a + b.take(j as int);
            lemma_total_not_negative(t, tok);
            lemma_total_push(t, b[j as int], tok);
            assert(a + b.take(j + 1) =~= t.push(b[j as int]));
        }
        sum = sum.saturating_add(n);
        j = j + 1;
    }
    assert(b.take(j as int) =~= b);
    let mut k: usize = 0;
    assert(a + b + c.take(0) =~= a + b);
    while k < index.speakers.len()
        invariant
            k <= index.speakers@.len(),
            c == Seq::new(index@.speakers.len(), |i: int| index@.speakers[i].display),
            sum == capped(total_tokens(a + b + c.take(k as int), tok)),
        decreases index.speakers.len() - k,
    {
        let n: usize = tok.count(index.speakers[k].display.as_str());
        proof {
            let t = a + b + c.take(k as int);
            lemma_total_not_negative(t, tok);
            lemma_total_push(t, c[k as int], tok);
            assert(a + b + c.take(k + 1) =~= t.push(c[k as int]));
        }
        sum = sum.saturating_add(n);
        k = k + 1;
    }
    assert(c.take(k as int) =~= c);
    sum
}

pub proof fn lemma_fitting_bounds<T: Tokenizer>(
    segments: Seq<StoredSegmentView>,
    room: int,
    tok: &T,
)
    requires
        0 <= room,
    ensures
        0 <= total_tokens(segment_texts(fitting(segments, room, tok)), tok) <= room,
        fitting(segments, room, tok).len() <= segments.len(),
    decreases segments.len(),
{
    if segments.len() > 0 {
        let s = segments.last();
        let cost = tok.tokens(s.text);
        let rest = segments.drop_last();
        if cost <= room {
            lemma_fitting_bounds(rest, room - cost, tok);
            let f = fitting(rest, room - cost, tok);
            assert(segment_texts(f.push(s)) =~= segment_texts(f).push(s.text));
            lemma_total_push(segment_texts(f), s.text, tok);
        } else {
            lemma_fitting_bounds(rest, room, tok);
        }
    }
}

/// Takes the segments that fit into `room`, from the last one back: the segments in
/// their order, and the tokens they have.
fn take_fitting<T: Tokenizer>(segments: &Vec<StoredSegment>, room: usize, tok: &T) -> (r: (
    Vec<StoredSegment>,
    usize,
))
    ensures
        views(r.0@) == fitting(views(segments@), room as int, tok),
        r.1 == total_tokens(segment_texts(views(r.0@)), tok),
        r.1 <= room,
        r.0@.len() <= segments@.len(),
{
    let ghost all = views(segments@);
    let mut picked: Vec<usize> = Vec::new();
    let mut used: usize = 0;
    let mut i: usize = segments.len();
    assert(all.take(i as int) =~= all);
    assert(fitting(all, room as int, tok) =~= fitting(all.take(i as int), room as int, tok)
        + picks(all, picked@));
    while i > 0
        invariant
            i <= segments@.len(),
            all == views(segments@),
            used <= room,
            forall|j: int| 0 <= j < picked@.len() ==> 0 <= #[trigger] picked@[j] < all.len(),
            fitting(all, room as int, tok) == fitting(all.take(i as int), room - used, tok)
                + picks(all, picked@),
        decreases i,
    {
        i = i - 1;
        let cost: usize = tok.count(segments[i].text.as_str());
        let ghost before = picked@;
        assert(all.take(i + 1).drop_last() =~= all.take(i as int));
        assert(all.take(i + 1).last() == all[i as int]);
        if cost <= room - used {
            picked.push(i);
            proof {
                let f = fitting(all.take(i as int), room - used - cost, tok);
                assert(picks(all, picked@) =~= seq![all[i as int]] + picks(all, before)) by {
                    lemma_picks_push(all, before, i);
                }
                assert(f.push(all[i as int]) + picks(all, before) =~= f + picks(all, picked@));
            }
            used = used + cost;
        }
    }
    assert(all.take(0) =~= Seq::empty());
    assert(fitting(all, room as int, tok) =~= picks(all, picked@));
    let mut out: Vec<StoredSegment> = Vec::new();
    let mut j: usize = picked.len();
    while j > 0
        invariant
            j <= picked@.len(),
            all == views(segments@),
            forall|m: int| 0 <= m < picked@.len() ==> 0 <= #[trigger] picked@[m] < all.len(),
            views(out@) == picks(all, picked@).take(picked@.len() - j),
        decreases j,
    {
        j = j - 1;
        let ghost before = out@;
        assert(0 <= picked@[j as int] < all.len());
        out.push(segments[picked[j]].clone());
        assert(views(out@) =~= views(before).push(all[picked@[j as int] as int]));
        assert(views(out@) =~= picks(all, picked@).take(picked@.len() - j));
    }
    assert(picks(all, picked@).take(picked@.len() as int) =~= picks(all, picked@));
    proof {
        lemma_fitting_bounds(all, room as int, tok);
    }
    let mut total: usize = 0;
    let mut m: usize = 0;
    let ghost texts = segment_texts(views(out@));
    while m < out.len()
        invariant
            m <= out@.len(),
            texts == segment_texts(views(out@)),
            0 <= total_tokens(texts, tok) <= room,
            total == total_tokens(texts.take(m as int), tok),
        decreases out.len() - m,
    {
        let n: usize = tok.count(out[m].text.as_str());
        proof {
            assert(texts.take(m + 1).drop_last() =~= texts.take(m as int));
            lemma_total_grows(texts, m + 1, tok);
        }
        total = total + n;
        m = m + 1;
    }
    assert(texts.take(m as int) =~= texts);
    (out, total)
}

/// The segments at the picked places, the last pick first.
spec fn picks(all: Seq<StoredSegmentView>, picked: Seq<usize>) -> Seq<StoredSegmentView> {
    Seq::new(picked.len(), |j: int| all[picked[picked.len() - 1 - j] as int])
}

proof fn lemma_picks_push(all: Seq<StoredSegmentView>, picked: Seq<usize>, i: usize)
    ensures
        picks(all, picked.push(i)) == seq![all[i as int]] + picks(all, picked),
{
    assert(picks(all, picked.push(i)) =~= seq![all[i as int]] + picks(all, picked));
}

proof fn lemma_total_grows<T: Tokenizer>(texts: Seq<Seq<char>>, k: int, tok: &T)
    requires
        0 <= k <= texts.len(),
    ensures
        total_tokens(texts.take(k), tok) <= total_tokens(texts, tok),
    decreases texts.len() - k,
{
    if k == texts.len() {
        assert(texts.take(k) =~= texts);
    } else {
        lemma_total_grows(texts, k + 1, tok);
        assert(texts.take(k + 1).drop_last() =~= texts.take(k));
    }
}

/// Chooses the evidence to send. What is always sent comes first, and is never cut: if
/// it does not fit, nothing is sent.
pub fn pack_evidence<T: Tokenizer>(index: &EvidenceIndex, allowance: usize, tok: &T) -> (r: Result<
    EvidencePack,
    AgentError,
>)
    ensures
        result_view(r) == packed(index@, allowance, tok),
{
    let mandatory: usize = mandatory_tokens(index, tok);
    if mandatory > allowance {
        let need = decimal_text(mandatory as u128);
        let have = decimal_text(allowance as u128);
        let mut words = "大綱與人工筆記本身就需要 ".to_owned();
        words.append(need.as_str());
        words.append(" token，超過可用的 ");
        words.append(have.as_str());
        words.append("。筆記不得被裁切，請改用 context 更大的模型");
        return Err(AgentError::BudgetExceeded(words));
    }
    let (segments, used) = take_fitting(&index.segments, allowance - mandatory, tok);
    let omitted: usize = index.segments.len() - segments.len();
    Ok(
        EvidencePack {
            outline: copy_outline(&index.outline),
            notes: copy_notes(&index.notes),
            speakers: copy_speakers(&index.speakers),
            segments,
            tokens_used: mandatory + used,
            segments_omitted: omitted,
        },
    )
}

/// The notes, the outline and the names are always sent in full, the evidence stays
/// within the room, and every segment is either sent or counted as left out.
pub proof fn packing_is_never_silent<T: Tokenizer>(
    index: EvidenceIndexView,
    allowance: usize,
    tok: &T,
)
    requires
        index.segments.len() <= usize::MAX,
    ensures
        packed(index, allowance, tok) matches Ok(p) ==> {
            &&& p.notes == index.notes
            &&& p.outline == index.outline
            &&& p.speakers == index.speakers
            &&& p.tokens_used <= allowance
            &&& p.segments.len() + p.segments_omitted == index.segments.len()
        },
        packed(index, allowance, tok) is Err <==> capped(
            total_tokens(mandatory_texts(index), tok),
        ) > allowance,
{
    let mandatory = capped(total_tokens(mandatory_texts(index), tok));
    if mandatory <= allowance {
        lemma_fitting_bounds(index.segments, allowance - mandatory, tok);
    }
}

/// A segment is sent as it is in the index, and the order is kept: what is sent is the
/// index with some segments left out.
pub proof fn packing_keeps_the_order<T: Tokenizer>(
    segments: Seq<StoredSegmentView>,
    room: int,
    tok: &T,
    i: int,
    j: int,
)
    requires
        0 <= i < j < fitting(segments, room, tok).len(),
    ensures
        exists|a: int, b: int|
            0 <= a < b < segments.len() && fitting(segments, room, tok)[i] == #[trigger] segments[a]
                && fitting(segments, room, tok)[j] == #[trigger] segments[b],
    decreases segments.len(),
{
    if segments.len() > 0 {
        let rest = segments.drop_last();
        let cost = tok.tokens(segments.last().text);
        let next = if cost <= room {
            room - cost
        } else {
            room
        };
        let f = fitting(rest, next, tok);
        if j < f.len() {
            packing_keeps_the_order(rest, next, tok, i, j);
            let (a, b) = choose|a: int, b: int|
                0 <= a < b < rest.len() && f[i] == #[trigger] rest[a] && f[j] == #[trigger] rest[b];
            assert(segments[a] == rest[a] && segments[b] == rest[b]);
        } else {
            lemma_fitting_member(rest, next, tok, i);
            let a = choose|a: int| 0 <= a < rest.len() && f[i] == #[trigger] rest[a];
            assert(segments[a] == rest[a]);
            assert(segments[segments.len() - 1] == segments.last());
        }
    }
}

proof fn lemma_fitting_member<T: Tokenizer>(
    segments: Seq<StoredSegmentView>,
    room: int,
    tok: &T,
    i: int,
)
    requires
        0 <= i < fitting(segments, room, tok).len(),
    ensures
        exists|a: int|
            0 <= a < segments.len() && fitting(segments, room, tok)[i] == #[trigger] segments[a],
    decreases segments.len(),
{
    if segments.len() > 0 {
        let rest = segments.drop_last();
        let cost = tok.tokens(segments.last().text);
        let next = if cost <= room {
            room - cost
        } else {
            room
        };
        let f = fitting(rest, next, tok);
        if i < f.len() {
            lemma_fitting_member(rest, next, tok, i);
            let a = choose|a: int| 0 <= a < rest.len() && f[i] == #[trigger] rest[a];
            assert(segments[a] == rest[a]);
        } else {
            assert(segments[segments.len() - 1] == segments.last());
        }
    }
}

/// Where everything fits, nothing is left out.
pub proof fn packing_keeps_all_that_fits<T: Tokenizer>(
    segments: Seq<StoredSegmentView>,
    room: int,
    tok: &T,
)
    requires
        total_tokens(segment_texts(segments), tok) <= room,
    ensures
        fitting(segments, room, tok) == segments,
    decreases segments.len(),
{
    if segments.len() > 0 {
        let rest = segments.drop_last();
        assert(segment_texts(segments).drop_last() =~= segment_texts(rest));
        assert(segment_texts(segments).last() == segments.last().text);
        lemma_total_not_negative(segment_texts(rest), tok);
        packing_keeps_all_that_fits(rest, room - tok.tokens(segments.last().text), tok);
        assert(fitting(segments, room, tok) =~= segments);
    } else {
        assert(fitting(segments, room, tok) =~= segments);
    }
}

} // verus!
