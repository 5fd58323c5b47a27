//! What the store of meetings holds, as plain values.
//!
//! The rows come from a database that this library never sees. A generation works
//! on a frozen view of one meeting, so all that the logic reads can be handed over
//! in these types.

use crate::document::{BlockContent, ContentView};
use crate::model::{ClaimKind, Origin, Track};
use crate::text::{copy_opt, opt_view, same, views};
use vstd::prelude::*;

verus! {

pub type MeetingId = i64;

/// A citation: which part of which source says so.
#[derive(Debug, PartialEq, Eq)]
pub struct SourceRef {
    pub source_kind: String,
    pub source_id: String,
    pub source_revision: u32,
    pub locator: String,
    pub quoted_text: String,
    pub quoted_text_sha256: String,
    pub validation_status: String,
}

pub struct SourceRefView {
    pub source_kind: Seq<char>,
    pub source_id: Seq<char>,
    pub source_revision: u32,
    pub locator: Seq<char>,
    pub quoted_text: Seq<char>,
    pub quoted_text_sha256: Seq<char>,
    pub validation_status: Seq<char>,
}

impl View for SourceRef {
    type V = SourceRefView;

    open spec fn view(&self) -> SourceRefView {
        SourceRefView {
            source_kind: self.source_kind@,
            source_id: self.source_id@,
            source_revision: self.source_revision,
            locator: self.locator@,
            quoted_text: self.quoted_text@,
            quoted_text_sha256: self.quoted_text_sha256@,
            validation_status: self.validation_status@,
        }
    }
}

impl Clone for SourceRef {
    fn clone(&self) -> (r: Self)
        ensures
            r == *self,
    {
        SourceRef {
            source_kind: self.source_kind.clone(),
            source_id: self.source_id.clone(),
            source_revision: self.source_revision,
            locator: self.locator.clone(),
            quoted_text: self.quoted_text.clone(),
            quoted_text_sha256: self.quoted_text_sha256.clone(),
            validation_status: self.validation_status.clone(),
        }
    }
}

/// A copy of a list of citations.
pub fn copy_refs(list: &Vec<SourceRef>) -> (r: Vec<SourceRef>)
    ensures
        r@ == list@,
{
    let mut out: Vec<SourceRef> = Vec::new();
    let mut i: usize = 0;
    while i < list.len()
        invariant
            i <= list@.len(),
            out@ == list@.take(i as int),
        decreases list.len() - i,
    {
        out.push(list[i].clone());
        i = i + 1;
        assert(out@ =~= list@.take(i as int));
    }
    assert(list@.take(i as int) =~= list@);
    out
}

/// A block of a document as a row: the content is JSON text.
#[derive(Debug, PartialEq, Eq)]
pub struct DocumentBlock {
    pub position: u32,
    pub kind: String,
    pub claim_kind: ClaimKind,
    pub content: String,
    pub source_refs: Vec<SourceRef>,
}

pub struct DocumentBlockView {
    pub position: u32,
    pub kind: Seq<char>,
    pub claim_kind: ClaimKind,
    pub content: Seq<char>,
    pub source_refs: Seq<SourceRefView>,
}

impl View for DocumentBlock {
    type V = DocumentBlockView;

    open spec fn view(&self) -> DocumentBlockView {
        DocumentBlockView {
            position: self.position,
            kind: self.kind@,
            claim_kind: self.claim_kind,
            content: self.content@,
            source_refs: views(self.source_refs@),
        }
    }
}

/// A segment of the transcript, in the version that holds at the cursor.
#[derive(Debug, PartialEq, Eq)]
pub struct StoredSegment {
    pub segment_id: u64,
    pub revision: u32,
    pub origin: Origin,
    pub speaker_id: Option<String>,
    pub text: String,
    pub track: Track,
    pub meeting_start_ms: u64,
    pub meeting_end_ms: u64,
    pub user_edited: bool,
}

pub struct StoredSegmentView {
    pub segment_id: u64,
    pub revision: u32,
    pub origin: Origin,
    pub speaker_id: Option<Seq<char>>,
    pub text: Seq<char>,
    pub track: Track,
    pub meeting_start_ms: u64,
    pub meeting_end_ms: u64,
    pub user_edited: bool,
}

impl View for StoredSegment {
    type V = StoredSegmentView;

    open spec fn view(&self) -> StoredSegmentView {
        StoredSegmentView {
            segment_id: self.segment_id,
            revision: self.revision,
            origin: self.origin,
            speaker_id: opt_view(self.speaker_id),
            text: self.text@,
            track: self.track,
            meeting_start_ms: self.meeting_start_ms,
            meeting_end_ms: self.meeting_end_ms,
            user_edited: self.user_edited,
        }
    }
}

impl Clone for StoredSegment {
    fn clone(&self) -> (r: Self)
        ensures
            r == *self,
    {
        StoredSegment {
            segment_id: self.segment_id,
            revision: self.revision,
            origin: self.origin,
            speaker_id: copy_opt(&self.speaker_id),
            text: self.text.clone(),
            track: self.track,
            meeting_start_ms: self.meeting_start_ms,
            meeting_end_ms: self.meeting_end_ms,
            user_edited: self.user_edited,
        }
    }
}

/// A speaker, as far as the store knows one.
#[derive(Debug, PartialEq, Eq)]
pub struct StoredSpeaker {
    pub speaker_id: String,
    pub ordinal: u32,
    pub proposed_name: Option<String>,
    pub confirmed_name: Option<String>,
    pub status: String,
}

pub struct StoredSpeakerView {
    pub speaker_id: Seq<char>,
    pub ordinal: u32,
    pub proposed_name: Option<Seq<char>>,
    pub confirmed_name: Option<Seq<char>>,
    pub status: Seq<char>,
}

impl View for StoredSpeaker {
    type V = StoredSpeakerView;

    open spec fn view(&self) -> StoredSpeakerView {
        StoredSpeakerView {
            speaker_id: self.speaker_id@,
            ordinal: self.ordinal,
            proposed_name: opt_view(self.proposed_name),
            confirmed_name: opt_view(self.confirmed_name),
            status: self.status@,
        }
    }
}

/// A note that the user took.
#[derive(Debug, PartialEq, Eq)]
pub struct StoredNote {
    pub note_id: u64,
    pub text: String,
    pub meeting_time_ms: u64,
    pub captured_audio_ms: u64,
    pub event_seq: u64,
}

pub struct StoredNoteView {
    pub note_id: u64,
    pub text: Seq<char>,
    pub meeting_time_ms: u64,
    pub captured_audio_ms: u64,
    pub event_seq: u64,
}

impl View for StoredNote {
    type V = StoredNoteView;

    open spec fn view(&self) -> StoredNoteView {
        StoredNoteView {
            note_id: self.note_id,
            text: self.text@,
            meeting_time_ms: self.meeting_time_ms,
            captured_audio_ms: self.captured_audio_ms,
            event_seq: self.event_seq,
        }
    }
}

impl Clone for StoredNote {
    fn clone(&self) -> (r: Self)
        ensures
            r == *self,
    {
        StoredNote {
            note_id: self.note_id,
            text: self.text.clone(),
            meeting_time_ms: self.meeting_time_ms,
            captured_audio_ms: self.captured_audio_ms,
            event_seq: self.event_seq,
        }
    }
}

/// One version of something that can be cited, with the event that made it.
#[derive(Debug, PartialEq, Eq)]
pub struct EvidenceText {
    pub source_kind: String,
    pub source_id: String,
    pub source_revision: u32,
    pub text: String,
    pub created_event_seq: u64,
}

pub struct EvidenceTextView {
    pub source_kind: Seq<char>,
    pub source_id: Seq<char>,
    pub source_revision: u32,
    pub text: Seq<char>,
    pub created_event_seq: u64,
}

impl View for EvidenceText {
    type V = EvidenceTextView;

    open spec fn view(&self) -> EvidenceTextView {
        EvidenceTextView {
            source_kind: self.source_kind@,
            source_id: self.source_id@,
            source_revision: self.source_revision,
            text: self.text@,
            created_event_seq: self.created_event_seq,
        }
    }
}

/// A block of an earlier version: its row, and what the JSON in it holds, or nothing
/// where the row is damaged.
#[derive(Debug, PartialEq, Eq)]
pub struct RunBlock {
    pub row: DocumentBlock,
    pub content: Option<BlockContent>,
}

pub struct RunBlockView {
    pub row: DocumentBlockView,
    pub content: Option<ContentView>,
}

impl View for RunBlock {
    type V = RunBlockView;

    open spec fn view(&self) -> RunBlockView {
        RunBlockView { row: self.row@, content: opt_view(self.content) }
    }
}

/// An earlier generation of a document and what came of it.
#[derive(Debug, PartialEq, Eq)]
pub struct StoredRun {
    pub run_id: i64,
    pub version_no: u32,
    pub status: String,
    pub blocks: Vec<RunBlock>,
}

pub struct StoredRunView {
    pub run_id: i64,
    pub version_no: u32,
    pub status: Seq<char>,
    pub blocks: Seq<RunBlockView>,
}

impl View for StoredRun {
    type V = StoredRunView;

    open spec fn view(&self) -> StoredRunView {
        StoredRunView {
            run_id: self.run_id,
            version_no: self.version_no,
            status: self.status@,
            blocks: views(self.blocks@),
        }
    }
}

/// Whether `e` is version `revision` of the source with this kind and name.
pub open spec fn is_source(
    e: EvidenceTextView,
    kind: Seq<char>,
    id: Seq<char>,
    revision: u32,
) -> bool {
    e.source_kind == kind && e.source_id == id && e.source_revision == revision
}

/// The version `revision` of the source with this kind and name.
pub open spec fn lookup(
    evidence: Seq<EvidenceTextView>,
    kind: Seq<char>,
    id: Seq<char>,
    revision: u32,
) -> Option<EvidenceTextView>
    decreases evidence.len(),
{
    if evidence.len() == 0 {
        None
    } else if is_source(evidence[0], kind, id, revision) {
        Some(evidence[0])
    } else {
        lookup(evidence.skip(1), kind, id, revision)
    }
}

/// Finds the version `revision` of the source with this kind and name.
pub fn find_evidence<'a>(evidence: &'a [EvidenceText], kind: &str, id: &str, revision: u32) -> (r:
    Option<&'a EvidenceText>)
    ensures
        opt_view(r) == lookup(views(evidence@), kind@, id@, revision),
{
    let mut i: usize = 0;
    assert(views(evidence@).skip(0) =~= views(evidence@));
    while i < evidence.len()
        invariant
            i <= evidence@.len(),
            lookup(views(evidence@), kind@, id@, revision) == lookup(
                views(evidence@).skip(i as int),
                kind@,
                id@,
                revision,
            ),
        decreases evidence.len() - i,
    {
        let e = &evidence[i];
        assert(views(evidence@).skip(i as int)[0] == e@);
        if e.source_revision == revision && same(e.source_kind.as_str(), kind) && same(
            e.source_id.as_str(),
            id,
        ) {
            return Some(e);
        }
        assert(views(evidence@).skip(i as int).skip(1) =~= views(evidence@).skip(i + 1));
        i = i + 1;
    }
    None
}

} // verus!
