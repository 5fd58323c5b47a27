//! Value types that the session, the store and the document all speak of.

use crate::text::same;
use vstd::prelude::*;

verus! {

/// Where a meeting stands in its life.
#[derive(Debug, Clone, Copy, PartialEq, Eq, Structural)]
pub enum MeetingState {
    Idle,
    Recording,
    Paused,
    Stopping,
    Finalizing,
    Completed,
    /// A meeting that did not end in the ordinary way: a crash, a forced close, or one
    /// that was found still recording at start-up. It is kept apart from `Completed`
    /// because its transcript may break off in the middle of a sentence.
    Failed,
}

impl MeetingState {
    /// The meeting is going on: notes, speaker confirmations and edits are taken.
    pub open spec fn is_live(self) -> bool {
        self is Recording || self is Paused
    }

    /// The meeting is going on: notes, speaker confirmations and edits are taken.
    pub fn accepts_document_work(self) -> (r: bool)
        ensures
            r == self.is_live(),
    {
        match self {
            MeetingState::Recording | MeetingState::Paused => true,
            _ => false,
        }
    }

    /// A summary snapshot may be made: while the meeting goes on, and once it has
    /// ended, which is when its content is complete.
    pub fn accepts_snapshot(self) -> (r: bool)
        ensures
            r == (self.is_live() || self is Completed),
    {
        match self {
            MeetingState::Completed => true,
            _ => self.accepts_document_work(),
        }
    }

    /// Speakers may be named. Who is who is often settled only after the meeting,
    /// so this stays open when recording has ended, also where it ended badly.
    pub fn accepts_speaker_naming(self) -> (r: bool)
        ensures
            r == !(self is Idle || self is Stopping),
    {
        match self {
            MeetingState::Idle | MeetingState::Stopping => false,
            _ => true,
        }
    }

    /// The word that stands for this value in stored form.
    pub open spec fn word(self) -> Seq<char> {
        match self {
            MeetingState::Idle => "idle"@,
            MeetingState::Recording => "recording"@,
            MeetingState::Paused => "paused"@,
            MeetingState::Stopping => "stopping"@,
            MeetingState::Finalizing => "finalizing"@,
            MeetingState::Completed => "completed"@,
            MeetingState::Failed => "failed"@,
        }
    }

    /// The value that the word `s` stands for.
    pub open spec fn from_word(s: Seq<char>) -> Option<Self> {
        if s == "idle"@ {
            Some(MeetingState::Idle)
        } else if s == "recording"@ {
            Some(MeetingState::Recording)
        } else if s == "paused"@ {
            Some(MeetingState::Paused)
        } else if s == "stopping"@ {
            Some(MeetingState::Stopping)
        } else if s == "finalizing"@ {
            Some(MeetingState::Finalizing)
        } else if s == "completed"@ {
            Some(MeetingState::Completed)
        } else if s == "failed"@ {
            Some(MeetingState::Failed)
        } else {
            None
        }
    }

    pub fn as_str(self) -> (r: &'static str)
        ensures
            r@ == self.word(),
    {
        match self {
            MeetingState::Idle => "idle",
            MeetingState::Recording => "recording",
            MeetingState::Paused => "paused",
            MeetingState::Stopping => "stopping",
            MeetingState::Finalizing => "finalizing",
            MeetingState::Completed => "completed",
            MeetingState::Failed => "failed",
        }
    }

    pub fn parse(s: &str) -> (r: Option<Self>)
        ensures
            r == Self::from_word(s@),
    {
        if same(s, "idle") {
            Some(MeetingState::Idle)
        } else if same(s, "recording") {
            Some(MeetingState::Recording)
        } else if same(s, "paused") {
            Some(MeetingState::Paused)
        } else if same(s, "stopping") {
            Some(MeetingState::Stopping)
        } else if same(s, "finalizing") {
            Some(MeetingState::Finalizing)
        } else if same(s, "completed") {
            Some(MeetingState::Completed)
        } else if same(s, "failed") {
            Some(MeetingState::Failed)
        } else {
            None
        }
    }
}

/// Every `MeetingState` is read back from the word that is written for it, and no other word
/// is read as it.
pub proof fn meeting_state_words_round_trip(x: MeetingState, s: Seq<char>)
    ensures
        MeetingState::from_word(x.word()) == Some(x),
        MeetingState::from_word(s) == Some(x) ==> s == x.word(),
{
    reveal_strlit("idle");
    reveal_strlit("recording");
    reveal_strlit("paused");
    reveal_strlit("stopping");
    reveal_strlit("finalizing");
    reveal_strlit("completed");
    reveal_strlit("failed");
    assert("idle"@.len() == 4);
    assert("recording"@.len() == 9);
    assert("paused"@.len() == 6);
    assert("stopping"@.len() == 8);
    assert("finalizing"@.len() == 10);
    assert("completed"@.len() == 9);
    assert("failed"@.len() == 6);
    assert("recording"@[0] == 'r');
    assert("completed"@[0] == 'c');
    assert("paused"@[0] == 'p');
    assert("failed"@[0] == 'f');
}

/// How well a part of the recorder works.
#[derive(Debug, Clone, Copy, PartialEq, Eq, Structural)]
pub enum Health {
    /// Nothing to report.
    Healthy,
    Degraded,
    Lost,
}

/// Where a version of a segment comes from. What the user wrote outranks the provider:
/// a later result of the provider does not replace it.
#[derive(Debug, Clone, Copy, PartialEq, Eq, Structural)]
pub enum Origin {
    Provider,
    User,
}

impl Origin {
    /// The word that stands for this value in stored form.
    pub open spec fn word(self) -> Seq<char> {
        match self {
            Origin::Provider => "provider"@,
            Origin::User => "user"@,
        }
    }

    /// The value that the word `s` stands for.
    pub open spec fn from_word(s: Seq<char>) -> Option<Self> {
        if s == "provider"@ {
            Some(Origin::Provider)
        } else if s == "user"@ {
            Some(Origin::User)
        } else {
            None
        }
    }

    pub fn as_str(self) -> (r: &'static str)
        ensures
            r@ == self.word(),
    {
        match self {
            Origin::Provider => "provider",
            Origin::User => "user",
        }
    }

    pub fn parse(s: &str) -> (r: Option<Self>)
        ensures
            r == Self::from_word(s@),
    {
        if same(s, "provider") {
            Some(Origin::Provider)
        } else if same(s, "user") {
            Some(Origin::User)
        } else {
            None
        }
    }
}

/// Every `Origin` is read back from the word that is written for it, and no other word
/// is read as it.
pub proof fn origin_words_round_trip(x: Origin, s: Seq<char>)
    ensures
        Origin::from_word(x.word()) == Some(x),
        Origin::from_word(s) == Some(x) ==> s == x.word(),
{
    reveal_strlit("provider");
    reveal_strlit("user");
    assert("provider"@.len() == 8);
    assert("user"@.len() == 4);
}

/// An audio track. It tells the local side from the remote side and no more: the
/// remote side need not be one person.
#[derive(Debug, Clone, Copy, PartialEq, Eq, Hash, Structural)]
pub enum Track {
    Mic,
    System,
}

/// The speaker under whom remote speech stands when the voice cannot be told apart.
///
/// It is no person but "remote, unsure who". So it is shown as such and not as a
/// numbered speaker, takes up no number, and cannot be named.
pub const UNKNOWN_REMOTE: &'static str = "remote";

impl Track {
    /// The word that stands for this value in stored form.
    pub open spec fn word(self) -> Seq<char> {
        match self {
            Track::Mic => "mic"@,
            Track::System => "system"@,
        }
    }

    /// The value that the word `s` stands for.
    pub open spec fn from_word(s: Seq<char>) -> Option<Self> {
        if s == "mic"@ {
            Some(Track::Mic)
        } else if s == "system"@ {
            Some(Track::System)
        } else {
            None
        }
    }

    pub fn as_str(self) -> (r: &'static str)
        ensures
            r@ == self.word(),
    {
        match self {
            Track::Mic => "mic",
            Track::System => "system",
        }
    }

    pub fn parse(s: &str) -> (r: Option<Self>)
        ensures
            r == Self::from_word(s@),
    {
        if same(s, "mic") {
            Some(Track::Mic)
        } else if same(s, "system") {
            Some(Track::System)
        } else {
            None
        }
    }
}

/// Every `Track` is read back from the word that is written for it, and no other word
/// is read as it.
pub proof fn track_words_round_trip(x: Track, s: Seq<char>)
    ensures
        Track::from_word(x.word()) == Some(x),
        Track::from_word(s) == Some(x) ==> s == x.word(),
{
    reveal_strlit("mic");
    reveal_strlit("system");
    assert("mic"@.len() == 3);
    assert("system"@.len() == 6);
}

/// The two time axes at the moment of an event.
#[derive(Debug, Clone, Copy, PartialEq, Eq, Default, Structural)]
pub struct Timeline {
    /// Meeting time, pauses and silence included: what notes and citations go by.
    pub meeting_time_ms: u64,
    /// Recorded audio only: the position inside the audio files.
    pub captured_audio_ms: u64,
}

impl Timeline {
    pub fn new(meeting_time_ms: u64, captured_audio_ms: u64) -> (r: Self)
        ensures
            r.meeting_time_ms == meeting_time_ms,
            r.captured_audio_ms == captured_audio_ms,
    {
        Self { meeting_time_ms, captured_audio_ms }
    }
}

/// What a block claims, whatever its structure is. There is no default on purpose: a
/// block that leaves it out is not valid.
#[derive(Debug, Clone, Copy, PartialEq, Eq, Structural)]
pub enum ClaimKind {
    Fact,
    Inference,
    Suggestion,
    Gap,
}

impl ClaimKind {
    /// The word that stands for this value in stored form.
    pub open spec fn word(self) -> Seq<char> {
        match self {
            ClaimKind::Fact => "fact"@,
            ClaimKind::Inference => "inference"@,
            ClaimKind::Suggestion => "suggestion"@,
            ClaimKind::Gap => "gap"@,
        }
    }

    /// The value that the word `s` stands for.
    pub open spec fn from_word(s: Seq<char>) -> Option<Self> {
        if s == "fact"@ {
            Some(ClaimKind::Fact)
        } else if s == "inference"@ {
            Some(ClaimKind::Inference)
        } else if s == "suggestion"@ {
            Some(ClaimKind::Suggestion)
        } else if s == "gap"@ {
            Some(ClaimKind::Gap)
        } else {
            None
        }
    }

    pub fn as_str(self) -> (r: &'static str)
        ensures
            r@ == self.word(),
    {
        match self {
            ClaimKind::Fact => "fact",
            ClaimKind::Inference => "inference",
            ClaimKind::Suggestion => "suggestion",
            ClaimKind::Gap => "gap",
        }
    }

    pub fn parse(s: &str) -> (r: Option<Self>)
        ensures
            r == Self::from_word(s@),
    {
        if same(s, "fact") {
            Some(ClaimKind::Fact)
        } else if same(s, "inference") {
            Some(ClaimKind::Inference)
        } else if same(s, "suggestion") {
            Some(ClaimKind::Suggestion)
        } else if same(s, "gap") {
            Some(ClaimKind::Gap)
        } else {
            None
        }
    }

    /// Whether a verifiable citation is owed: for facts, and for nothing else.
    ///
    /// An inference owes to be marked as one. Asking it for a verbatim source would
    /// push it towards posing as a fact.
    pub fn requires_citation(self) -> (r: bool)
        ensures
            r == (self is Fact),
    {
        self == ClaimKind::Fact
    }
}

/// Every `ClaimKind` is read back from the word that is written for it, and no other word
/// is read as it.
pub proof fn claim_kind_words_round_trip(x: ClaimKind, s: Seq<char>)
    ensures
        ClaimKind::from_word(x.word()) == Some(x),
        ClaimKind::from_word(s) == Some(x) ==> s == x.word(),
{
    reveal_strlit("fact");
    reveal_strlit("inference");
    reveal_strlit("suggestion");
    reveal_strlit("gap");
    assert("fact"@.len() == 4);
    assert("inference"@.len() == 9);
    assert("suggestion"@.len() == 10);
    assert("gap"@.len() == 3);
}

/// The two services that can be set up.
#[derive(Debug, Clone, Copy, PartialEq, Eq, Structural)]
pub enum ProviderKind {
    Stt,
    Llm,
}

impl ProviderKind {
    /// The word that stands for this value in stored form.
    pub open spec fn word(self) -> Seq<char> {
        match self {
            ProviderKind::Stt => "stt"@,
            ProviderKind::Llm => "llm"@,
        }
    }

    /// The value that the word `s` stands for.
    pub open spec fn from_word(s: Seq<char>) -> Option<Self> {
        if s == "stt"@ {
            Some(ProviderKind::Stt)
        } else if s == "llm"@ {
            Some(ProviderKind::Llm)
        } else {
            None
        }
    }

    pub fn as_str(self) -> (r: &'static str)
        ensures
            r@ == self.word(),
    {
        match self {
            ProviderKind::Stt => "stt",
            ProviderKind::Llm => "llm",
        }
    }

    pub fn parse(s: &str) -> (r: Option<Self>)
        ensures
            r == Self::from_word(s@),
    {
        if same(s, "stt") {
            Some(ProviderKind::Stt)
        } else if same(s, "llm") {
            Some(ProviderKind::Llm)
        } else {
            None
        }
    }

    /// What the names of this service's environment variables begin with.
    pub open spec fn prefix(self) -> Seq<char> {
        match self {
            ProviderKind::Stt => "OPENMEETNOTE_STT"@,
            ProviderKind::Llm => "OPENMEETNOTE_LLM"@,
        }
    }

    /// What the names of this service's environment variables begin with, such as
    /// in `OPENMEETNOTE_STT_PROVIDER`.
    pub fn env_prefix(self) -> (r: &'static str)
        ensures
            r@ == self.prefix(),
    {
        match self {
            ProviderKind::Stt => "OPENMEETNOTE_STT",
            ProviderKind::Llm => "OPENMEETNOTE_LLM",
        }
    }
}

/// Every `ProviderKind` is read back from the word that is written for it, and no other word
/// is read as it.
pub proof fn provider_kind_words_round_trip(x: ProviderKind, s: Seq<char>)
    ensures
        ProviderKind::from_word(x.word()) == Some(x),
        ProviderKind::from_word(s) == Some(x) ==> s == x.word(),
{
    reveal_strlit("stt");
    reveal_strlit("llm");
    assert("stt"@.len() == 3);
    assert("llm"@.len() == 3);
    assert("stt"@[0] == 's');
    assert("llm"@[0] == 'l');
}

/// The settings, none of them secret, that were saved for a service.
#[derive(Debug, Clone, PartialEq, Eq, Default)]
pub struct StoredProvider {
    pub provider: String,
    pub model: String,
    pub base_url: String,
    pub options: String,
}

} // verus!
