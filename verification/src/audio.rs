//! Audio on its way: batches of samples out of the capture, and pieces of a recording.
//!
//! Nothing here looks at a sample. The two tracks stay apart, since what is local and what is
//! remote cannot be told from a mixture.

use crate::citation::{hex, sha256, sha256_hex};
use crate::model::Track;
use crate::text::{
    decimal, decimal_text, join, joined, opt_view, padded, push_padded, views, views_push,
};
use std::collections::VecDeque;
use vstd::prelude::*;
use vstd::string::*;

verus! {

broadcast use views_push;

/// How many samples there are in a second.
pub const SAMPLE_RATE: u32 = 16_000;

/// How many samples there are in a millisecond.
pub const SAMPLES_PER_MS: u64 = 16;

/// How many samples a batch has: a tenth of a second.
pub const CHUNK_FRAMES: usize = 1_600;

/// How many batches may wait: ten seconds. One that waits for longer helps nobody.
pub const CAPTURE_BACKLOG_CHUNKS: usize = 100;

/// How long each track has to say whether its device could be opened, in milliseconds. It is
/// long, since the system may first ask the user.
pub const START_TIMEOUT_MS: u64 = 60_000;

/// How long a piece of a recording is, in milliseconds.
pub const SEGMENT_MS: u64 = 60_000;

/// The milliseconds that so many samples last, rounded down.
pub open spec fn duration_ms(samples: nat) -> nat {
    samples * 1000 / (SAMPLE_RATE as nat)
}

fn duration(samples: u64) -> (r: u64)
    ensures
        r == duration_ms(samples as nat),
{
    samples / SAMPLES_PER_MS
}

// ---------------------------------------------------------------------------
// Devices
// ---------------------------------------------------------------------------

/// Why there is no audio.
#[derive(Debug, PartialEq, Eq)]
pub enum AudioError {
    NoDevice(String),
    Capture(String),
    Unsupported(String),
}

pub enum AudioErrorView {
    NoDevice(Seq<char>),
    Capture(Seq<char>),
    Unsupported(Seq<char>),
}

impl View for AudioError {
    type V = AudioErrorView;

    open spec fn view(&self) -> AudioErrorView {
        match *self {
            AudioError::NoDevice(s) => AudioErrorView::NoDevice(s@),
            AudioError::Capture(s) => AudioErrorView::Capture(s@),
            AudioError::Unsupported(s) => AudioErrorView::Unsupported(s@),
        }
    }
}

impl AudioErrorView {
    pub open spec fn words(self) -> Seq<char> {
        match self {
            AudioErrorView::NoDevice(s) => "找不到音訊裝置："@ + s,
            AudioErrorView::Capture(s) => "擷取失敗："@ + s,
            AudioErrorView::Unsupported(s) => s,
        }
    }
}

impl AudioError {
    /// The failure in words.
    pub fn message(&self) -> (r: String)
        ensures
            r@ == self@.words(),
    {
        match self {
            AudioError::NoDevice(s) => {
                let mut out = "找不到音訊裝置：".to_owned();
                out.append(s.as_str());
                out
            },
            AudioError::Capture(s) => {
                let mut out = "擷取失敗：".to_owned();
                out.append(s.as_str());
                out
            },
            AudioError::Unsupported(s) => s.clone(),
        }
    }

    /// What is said on a platform without capture.
    pub fn no_platform() -> (r: Self)
        ensures
            r@ == AudioErrorView::Unsupported(
                "這個平台沒有音訊擷取實作，目前只有 Windows 與 macOS。"@,
            ),
    {
        AudioError::Unsupported("這個平台沒有音訊擷取實作，目前只有 Windows 與 macOS。".to_owned())
    }
}

/// What is said of a format that cannot be read.
pub open spec fn format_words(bits: nat, channels: nat) -> Seq<char> {
    "系統音訊的格式不是小端 32-bit float（"@ + decimal(bits) + " bit、"@ + decimal(channels)
        + " 聲道），這一軌停止"@
}

/// Why a format cannot be read, if it cannot: samples are floating-point numbers with the lower
/// byte first. Anything else read as such would be noise, and noise would be transcribed.
pub fn format_refusal(float: bool, big_endian: bool, bits: u32, channels: u32) -> (r: Option<String>)
    ensures
        opt_view(r) == if float && !big_endian && channels > 0 {
            None
        } else {
            Some(format_words(bits as nat, channels as nat))
        },
{
    if float && !big_endian && channels > 0 {
        return None;
    }
    let b = decimal_text(bits as u128);
    let c = decimal_text(channels as u128);
    let mut words = "系統音訊的格式不是小端 32-bit float（".to_owned();
    words.append(b.as_str());
    words.append(" bit、");
    words.append(c.as_str());
    words.append(" 聲道），這一軌停止");
    Some(words)
}

/// What a track says of its device.
pub type TrackReady = Result<(), String>;

/// What is noted of a track that says nothing in time.
pub const NO_ANSWER: &'static str = "等待音訊裝置回應逾時（可能是權限對話框沒有被回答）";

/// Why a track did not start, by its answer or by there being none.
pub open spec fn failed_start(reply: Option<TrackReady>) -> Option<Seq<char>> {
    match reply {
        Some(Ok(_)) => None,
        Some(Err(e)) => Some(e@),
        None => Some(NO_ANSWER@),
    }
}

/// Why tracks did not start, in the order of the answers.
pub open spec fn failed_starts(replies: Seq<Option<TrackReady>>) -> Seq<Seq<char>>
    decreases replies.len(),
{
    if replies.len() == 0 {
        Seq::empty()
    } else {
        let before = failed_starts(replies.drop_last());
        match failed_start(replies.last()) {
            Some(e) => before.push(e),
            None => before,
        }
    }
}

/// Whether all tracks have started, by what each said in time, or nothing where it did not.
/// One that failed fails all of them: to record only the other would give the user something
/// else than what they believe to be recorded.
pub fn await_tracks(replies: Vec<Option<TrackReady>>) -> (r: Result<(), AudioError>)
    ensures
        match r {
            Ok(_) => failed_starts(replies@).len() == 0,
            Err(e) => failed_starts(replies@).len() > 0 && e@ == AudioErrorView::Capture(
                joined(failed_starts(replies@), "；"@),
            ),
        },
{
    let mut failures: Vec<String> = Vec::new();
    let mut i: usize = 0;
    assert(views(failures@) =~= failed_starts(replies@.take(0)));
    while i < replies.len()
        invariant
            i <= replies@.len(),
            views(failures@) == failed_starts(replies@.take(i as int)),
        decreases replies.len() - i,
    {
        assert(replies@.take(i + 1).drop_last() =~= replies@.take(i as int));
        assert(replies@.take(i + 1).last() == replies@[i as int]);
        match &replies[i] {
            Some(Ok(_)) => {},
            Some(Err(e)) => {
                failures.push(e.clone());
            },
            None => {
                failures.push(NO_ANSWER.to_owned());
            },
        }
        i = i + 1;
    }
    assert(replies@.take(i as int) =~= replies@);
    assert(views(failures@).len() == failures@.len());
    if failures.len() == 0 {
        Ok(())
    } else {
        Err(AudioError::Capture(join(&failures, "；")))
    }
}

proof fn lemma_failed_starts(replies: Seq<Option<TrackReady>>)
    ensures
        failed_starts(replies).len() == 0 <==> forall|i: int|
            0 <= i < replies.len() ==> (#[trigger] replies[i] matches Some(Ok(_))),
    decreases replies.len(),
{
    if replies.len() > 0 {
        let rest = replies.drop_last();
        lemma_failed_starts(rest);
        assert forall|i: int| 0 <= i < rest.len() implies rest[i] == #[trigger] replies[i] by {}
        let n = replies.len() - 1;
        assert(replies[n] == replies.last());
        if failed_starts(replies).len() == 0 {
            assert forall|i: int| 0 <= i < replies.len() implies (#[trigger] replies[i] matches Some(
                Ok(_),
            )) by {
                if i < n {
                    assert(rest[i] == replies[i]);
                }
            }
        } else if failed_starts(rest).len() > 0 {
            let i = choose|i: int| 0 <= i < rest.len() && !(#[trigger] rest[i] matches Some(Ok(_)));
            assert(replies[i] == rest[i]);
        }
    }
}

/// A capture has started exactly where every track has.
pub proof fn a_capture_needs_all_its_tracks(replies: Seq<Option<TrackReady>>)
    ensures
        failed_starts(replies).len() == 0 <==> forall|i: int|
            0 <= i < replies.len() ==> (#[trigger] replies[i] matches Some(Ok(_))),
{
    lemma_failed_starts(replies);
}

// ---------------------------------------------------------------------------
// Batches
// ---------------------------------------------------------------------------

/// A batch of samples of one track.
#[derive(Debug, PartialEq, Eq)]
pub struct Chunk<S> {
    pub track: Track,
    /// Where the batch stands in the recorded audio of its track. That is not meeting time:
    /// in a pause there is no audio.
    pub captured_start_ms: u64,
    pub samples: Vec<S>,
}

pub struct ChunkView<S> {
    pub track: Track,
    pub captured_start_ms: u64,
    pub samples: Seq<S>,
}

impl<S> View for Chunk<S> {
    type V = ChunkView<S>;

    open spec fn view(&self) -> ChunkView<S> {
        ChunkView {
            track: self.track,
            captured_start_ms: self.captured_start_ms,
            samples: self.samples@,
        }
    }
}

/// Where batches wait for their reader.
pub struct ChunkQueue<S> {
    limit: usize,
    chunks: VecDeque<Chunk<S>>,
    open: bool,
}

/// The batches that wait, how many may, and whether there is still a reader.
pub struct ChunkQueueView<S> {
    pub limit: nat,
    pub chunks: Seq<ChunkView<S>>,
    pub open: bool,
}

impl<S> View for ChunkQueue<S> {
    type V = ChunkQueueView<S>;

    closed spec fn view(&self) -> ChunkQueueView<S> {
        ChunkQueueView {
            limit: self.limit as nat,
            chunks: views(self.chunks@),
            open: self.open,
        }
    }
}

/// What becomes of a batch that is offered to a queue.
#[derive(Debug, Clone, Copy, PartialEq, Eq, Structural)]
pub enum Offer {
    Taken,
    Full,
    Closed,
}

impl<S> ChunkQueueView<S> {
    /// What becomes of one more batch.
    pub open spec fn offer_of(self) -> Offer {
        if !self.open {
            Offer::Closed
        } else if self.chunks.len() >= self.limit {
            Offer::Full
        } else {
            Offer::Taken
        }
    }

    /// The queue after one more batch was offered.
    pub open spec fn offered(self, c: ChunkView<S>) -> Self {
        if self.offer_of() is Taken {
            ChunkQueueView { chunks: self.chunks.push(c), ..self }
        } else {
            self
        }
    }

    /// How many more batches can be taken.
    pub open spec fn room(self) -> nat {
        if self.chunks.len() >= self.limit {
            0
        } else {
            (self.limit - self.chunks.len()) as nat
        }
    }
}

impl<S> ChunkQueue<S> {
    /// An empty queue for at most `limit` batches.
    pub fn new(limit: usize) -> (r: Self)
        ensures
            r@ == (ChunkQueueView::<S> { limit: limit as nat, chunks: Seq::empty(), open: true }),
    {
        let r = ChunkQueue { limit, chunks: VecDeque::new(), open: true };
        assert(r@.chunks =~= Seq::empty());
        r
    }

    /// Offers a batch. It never waits: whoever records would miss more than this batch.
    pub fn offer(&mut self, c: Chunk<S>) -> (r: Offer)
        ensures
            r == old(self)@.offer_of(),
            final(self)@ == old(self)@.offered(c@),
    {
        if !self.open {
            return Offer::Closed;
        }
        if self.chunks.len() >= self.limit {
            return Offer::Full;
        }
        let ghost before = self.chunks@;
        self.chunks.push_back(c);
        assert(views(self.chunks@) =~= views(before).push(c@));
        Offer::Taken
    }

    /// Takes the batch that has waited longest.
    pub fn take(&mut self) -> (r: Option<Chunk<S>>)
        ensures
            old(self)@.chunks.len() == 0 ==> r is None && final(self)@ == old(self)@,
            old(self)@.chunks.len() > 0 ==> {
                &&& r matches Some(c)
                &&& c@ == old(self)@.chunks[0]
                &&& final(self)@ == (ChunkQueueView::<S> {
                    chunks: old(self)@.chunks.skip(1),
                    ..old(self)@
                })
            },
    {
        let ghost before = self.chunks@;
        let r = self.chunks.pop_front();
        proof {
            if before.len() > 0 {
                assert(views(self.chunks@) =~= views(before).skip(1));
                assert(views(before)[0] == before[0]@);
            } else {
                assert(views(self.chunks@) =~= views(before));
            }
        }
        r
    }

    /// Says that there is no reader any more.
    pub fn close(&mut self)
        ensures
            final(self)@ == (ChunkQueueView::<S> { open: false, ..old(self)@ }),
    {
        self.open = false;
    }
}

/// Collects the samples of a track into batches.
pub struct Batcher<S> {
    track: Track,
    pending: Vec<S>,
    sent_frames: u64,
    dropped: u64,
}

/// The samples that do not fill a batch yet, how many went out, and how many batches there was
/// no room for.
pub struct BatcherView<S> {
    pub track: Track,
    pub pending: Seq<S>,
    pub sent_frames: nat,
    pub dropped: nat,
}

impl<S> View for Batcher<S> {
    type V = BatcherView<S>;

    closed spec fn view(&self) -> BatcherView<S> {
        BatcherView {
            track: self.track,
            pending: self.pending@,
            sent_frames: self.sent_frames as nat,
            dropped: self.dropped as nat,
        }
    }
}

/// Batch `i` of those that `all` fills, where so many samples went out before.
pub open spec fn batch<S>(track: Track, sent: nat, all: Seq<S>, i: int) -> ChunkView<S> {
    ChunkView {
        track,
        captured_start_ms: duration_ms((sent + i * CHUNK_FRAMES) as nat) as u64,
        samples: all.subrange(i * CHUNK_FRAMES, (i + 1) * CHUNK_FRAMES),
    }
}

/// The batches that `all` fills.
pub open spec fn batches<S>(track: Track, sent: nat, all: Seq<S>) -> Seq<ChunkView<S>> {
    Seq::new(all.len() / (CHUNK_FRAMES as nat), |i: int| batch(track, sent, all, i))
}

impl<S> BatcherView<S> {
    /// What every batcher keeps: a batch that was dropped had samples.
    pub open spec fn is_sound(self) -> bool {
        self.dropped <= self.sent_frames
    }

    /// Whether the count of samples has room for `n` more.
    pub open spec fn has_room(self, n: nat) -> bool {
        self.sent_frames + self.pending.len() + n <= u64::MAX
    }

    /// The batcher and the queue after some samples, and whether there is still a reader.
    pub open spec fn pushed(self, queue: ChunkQueueView<S>, samples: Seq<S>) -> (
        Self,
        ChunkQueueView<S>,
        bool,
    ) {
        let all = self.pending + samples;
        let full = batches(self.track, self.sent_frames, all);
        let n = full.len();
        if n == 0 {
            (BatcherView { pending: all, ..self }, queue, true)
        } else if !queue.open {
            (
                BatcherView {
                    pending: all.skip(CHUNK_FRAMES as int),
                    sent_frames: self.sent_frames + CHUNK_FRAMES as nat,
                    ..self
                },
                queue,
                false,
            )
        } else {
            let fit = if n <= queue.room() {
                n
            } else {
                queue.room()
            };
            (
                BatcherView {
                    pending: all.skip(n * CHUNK_FRAMES),
                    sent_frames: self.sent_frames + n * CHUNK_FRAMES as nat,
                    dropped: (self.dropped + n - fit) as nat,
                    ..self
                },
                ChunkQueueView { chunks: queue.chunks + full.take(fit as int), ..queue },
                true,
            )
        }
    }

    /// The batcher and the queue after what does not fill a batch was sent too.
    pub open spec fn flushed(self, queue: ChunkQueueView<S>) -> (Self, ChunkQueueView<S>) {
        if self.pending.len() == 0 {
            (self, queue)
        } else {
            let tail = ChunkView {
                track: self.track,
                captured_start_ms: duration_ms(self.sent_frames) as u64,
                samples: self.pending,
            };
            (
                BatcherView {
                    pending: Seq::empty(),
                    sent_frames: self.sent_frames + self.pending.len(),
                    dropped: if queue.offer_of() is Full {
                        self.dropped + 1
                    } else {
                        self.dropped
                    },
                    ..self
                },
                queue.offered(tail),
            )
        }
    }
}

/// The samples `from..to` of a list.
fn copy_samples<S: Copy>(list: &Vec<S>, from: usize, to: usize) -> (r: Vec<S>)
    requires
        from <= to <= list@.len(),
    ensures
        r@ == list@.subrange(from as int, to as int),
{
    let mut out: Vec<S> = Vec::new();
    let mut i: usize = from;
    while i < to
        invariant
            from <= i <= to <= list@.len(),
            out@ == list@.subrange(from as int, i as int),
        decreases to - i,
    {
        out.push(list[i]);
        i = i + 1;
        assert(out@ =~= list@.subrange(from as int, i as int));
    }
    out
}

/// Puts samples behind those of a list.
fn add_samples<S: Copy>(list: &mut Vec<S>, more: &[S])
    ensures
        final(list)@ == old(list)@ + more@,
{
    let mut i: usize = 0;
    assert(list@ =~= old(list)@ + more@.take(0));
    while i < more.len()
        invariant
            i <= more@.len(),
            list@ == old(list)@ + more@.take(i as int),
        decreases more.len() - i,
    {
        list.push(more[i]);
        i = i + 1;
        assert(list@ =~= old(list)@ + more@.take(i as int));
    }
    assert(more@.take(i as int) =~= more@);
}

impl<S: Copy> Batcher<S> {
    pub fn new(track: Track) -> (r: Self)
        ensures
            r@ == (BatcherView::<S> {
                track,
                pending: Seq::empty(),
                sent_frames: 0,
                dropped: 0,
            }),
            r@.is_sound(),
    {
        let r = Batcher { track, pending: Vec::new(), sent_frames: 0, dropped: 0 };
        assert(r@.pending =~= Seq::empty());
        r
    }

    /// How many batches there was no room for.
    pub fn dropped(&self) -> (r: u64)
        ensures
            r == self@.dropped,
    {
        self.dropped
    }

    /// Whether the count of samples has room for `n` more.
    pub fn has_room(&self, n: usize) -> (r: bool)
        ensures
            r == self@.has_room(n as nat),
    {
        let held: usize = self.pending.len();
        let most: u64 = u64::MAX - self.sent_frames;
        n as u128 + held as u128 <= most as u128
    }

    /// Sends one batch and says whether there is still a reader. Where it stands is counted in
    /// samples, not in time that has passed: that alone keeps to what was recorded.
    fn send(&mut self, samples: Vec<S>, queue: &mut ChunkQueue<S>) -> (r: bool)
        requires
            old(self)@.is_sound(),
            samples@.len() > 0,
            old(self)@.sent_frames + samples@.len() <= u64::MAX,
        ensures
            final(self)@.is_sound(),
            r == old(queue)@.open,
            final(queue)@ == old(queue)@.offered(
                ChunkView {
                    track: old(self)@.track,
                    captured_start_ms: duration_ms(old(self)@.sent_frames) as u64,
                    samples: samples@,
                },
            ),
            final(self)@ == (BatcherView::<S> {
                sent_frames: old(self)@.sent_frames + samples@.len(),
                dropped: if old(queue)@.offer_of() is Full {
                    old(self)@.dropped + 1
                } else {
                    old(self)@.dropped
                },
                ..old(self)@
            }),
    {
        let frames: u64 = samples.len() as u64;
        let chunk = Chunk {
            track: self.track,
            captured_start_ms: duration(self.sent_frames),
            samples,
        };
        self.sent_frames = self.sent_frames + frames;
        match queue.offer(chunk) {
            Offer::Taken => true,
            Offer::Full => {
                self.dropped = self.dropped + 1;
                true
            },
            Offer::Closed => false,
        }
    }

    /// Takes in samples and sends what fills a batch. Says whether there is still a reader: that
    /// there is none is the end of the meeting and no error.
    pub fn push(&mut self, samples: &[S], queue: &mut ChunkQueue<S>) -> (r: bool)
        requires
            old(self)@.is_sound(),
            old(self)@.has_room(samples@.len()),
        ensures
            final(self)@.is_sound(),
            (final(self)@, final(queue)@, r) == old(self)@.pushed(old(queue)@, samples@),
    {
        let ghost b0 = self@;
        let ghost q0 = queue@;
        let ghost all = b0.pending + samples@;
        let ghost full = batches(b0.track, b0.sent_frames, all);
        let mut held: Vec<S> = Vec::new();
        held.append(&mut self.pending);
        assert(held@ =~= b0.pending);
        add_samples(&mut held, samples);
        assert(held@ == all);
        let size: usize = held.len();
        let n: usize = size / CHUNK_FRAMES;
        let ghost fit: int = if n <= q0.room() {
            n as int
        } else {
            q0.room() as int
        };
        let mut i: usize = 0;
        assert(full.take(0) =~= Seq::empty());
        assert(queue@.chunks =~= q0.chunks + full.take(0));
        assert(self@.pending =~= Seq::empty());
        while i < n
            invariant
                i <= n,
                held@ == all,
                size == all.len(),
                n == all.len() / (CHUNK_FRAMES as nat),
                full == batches(b0.track, b0.sent_frames, all),
                b0.sent_frames + all.len() <= u64::MAX,
                fit == if n <= q0.room() {
                    n as int
                } else {
                    q0.room() as int
                },
                i > 0 ==> q0.open,
                self@.is_sound(),
                self@.track == b0.track,
                self@.pending =~= Seq::empty(),
                self@.sent_frames == b0.sent_frames + i * CHUNK_FRAMES,
                self@.dropped == b0.dropped + i - (if i <= fit {
                    i as int
                } else {
                    fit
                }),
                queue@.limit == q0.limit,
                queue@.open == q0.open,
                queue@.chunks == q0.chunks + full.take(
                    if i <= fit {
                        i as int
                    } else {
                        fit
                    },
                ),
                b0 == old(self)@,
                q0 == old(queue)@,
                all == b0.pending + samples@,
            decreases n - i,
        {
            assert((i + 1) * CHUNK_FRAMES <= all.len()) by (nonlinear_arith)
                requires
                    i < n,
                    n == all.len() as int / 1600,
                    CHUNK_FRAMES == 1600,
            ;
            let from: usize = i * CHUNK_FRAMES;
            let piece = copy_samples(&held, from, from + CHUNK_FRAMES);
            let ghost chunk = batch(b0.track, b0.sent_frames, all, i as int);
            assert(full[i as int] == chunk);
            let ghost taken = queue@.chunks;
            if !self.send(piece, queue) {
                self.pending = copy_samples(&held, CHUNK_FRAMES, held.len());
                assert(self@.pending =~= all.skip(CHUNK_FRAMES as int));
                return false;
            }
            i = i + 1;
            proof {
                if i <= fit {
                    assert(full.take(i as int) =~= full.take(i - 1).push(chunk));
                    assert(queue@.chunks =~= q0.chunks + full.take(i as int));
                }
            }
        }
        assert(n * CHUNK_FRAMES <= all.len()) by (nonlinear_arith)
            requires
                n == all.len() as int / 1600,
                CHUNK_FRAMES == 1600,
        ;
        self.pending = copy_samples(&held, n * CHUNK_FRAMES, held.len());
        assert(self@.pending =~= all.skip(n * CHUNK_FRAMES));
        proof {
            if n == 0 {
                assert(self@.pending =~= all);
                assert(queue@.chunks =~= q0.chunks);
            } else {
                assert((if n <= fit {
                    n as int
                } else {
                    fit
                }) == fit);
            }
        }
        true
    }

    /// Sends what does not fill a batch. This is for the end: those are the last words before
    /// it.
    pub fn flush(&mut self, queue: &mut ChunkQueue<S>)
        requires
            old(self)@.is_sound(),
            old(self)@.has_room(0),
        ensures
            final(self)@.is_sound(),
            (final(self)@, final(queue)@) == old(self)@.flushed(old(queue)@),
    {
        if self.pending.len() == 0 {
            return;
        }
        let mut tail: Vec<S> = Vec::new();
        let ghost all = self.pending@;
        tail.append(&mut self.pending);
        assert(tail@ =~= all);
        assert(self@.pending =~= Seq::empty());
        self.send(tail, queue);
    }
}

/// Where the batches of one take stand: each begins where the one before it ends, and each is
/// a tenth of a second.
pub proof fn batches_follow_one_another<S>(track: Track, sent: nat, all: Seq<S>, i: int)
    requires
        sent + all.len() <= u64::MAX,
        0 <= i < batches(track, sent, all).len(),
    ensures
        batches(track, sent, all)[i].captured_start_ms == duration_ms(sent) + 100 * i,
        batches(track, sent, all)[i].samples.len() == CHUNK_FRAMES,
{
    assert((i + 1) * CHUNK_FRAMES <= all.len()) by (nonlinear_arith)
        requires
            i < all.len() as int / 1600,
            CHUNK_FRAMES == 1600,
    ;
}

/// Every sample goes into the batches in its order, and what does not fill one stays for the
/// next: none is lost between the batches, and none comes twice.
pub proof fn batches_hold_every_sample<S>(b: BatcherView<S>, queue: ChunkQueueView<S>, samples: Seq<S>, k: int)
    requires
        queue.open,
        0 <= k < b.pending.len() + samples.len(),
    ensures
        ({
            let all = b.pending + samples;
            let full = batches(b.track, b.sent_frames, all);
            let after = b.pushed(queue, samples).0;
            if k < full.len() * CHUNK_FRAMES {
                all[k] == full[k / CHUNK_FRAMES as int].samples[k % CHUNK_FRAMES as int]
            } else {
                all[k] == after.pending[k - full.len() * CHUNK_FRAMES]
            }
        }),
        b.pushed(queue, samples).0.pending.len() < CHUNK_FRAMES,
{
    let all = b.pending + samples;
    let full = batches(b.track, b.sent_frames, all);
    let i = k / CHUNK_FRAMES as int;
    if k < full.len() * CHUNK_FRAMES {
        assert(0 <= i < full.len());
        assert(all.subrange(i * CHUNK_FRAMES, (i + 1) * CHUNK_FRAMES)[k % CHUNK_FRAMES as int]
            == all[k]);
    }
}

/// However far the reader falls behind, no more waits than there is room for, those that
/// waited stay, and every batch that finds no room is counted.
pub proof fn a_slow_reader_costs_batches_not_memory<S>(
    b: BatcherView<S>,
    queue: ChunkQueueView<S>,
    samples: Seq<S>,
)
    requires
        queue.chunks.len() <= queue.limit,
    ensures
        ({
            let (after, q, _) = b.pushed(queue, samples);
            let full = batches(b.track, b.sent_frames, b.pending + samples);
            &&& q.chunks.len() <= q.limit
            &&& q.chunks.take(queue.chunks.len() as int) == queue.chunks
            &&& queue.open ==> (q.chunks.len() - queue.chunks.len()) + (after.dropped - b.dropped)
                == full.len()
        }),
{
    let (after, q, _) = b.pushed(queue, samples);
    assert(q.chunks.take(queue.chunks.len() as int) =~= queue.chunks);
}

/// What is told of batches that found no room: at the first, and then each time that their
/// number has doubled.
pub open spec fn is_power_of_two(n: nat) -> bool
    decreases n,
{
    n == 1 || (n > 1 && n % 2 == 0 && is_power_of_two(n / 2))
}

fn power_of_two(n: u64) -> (r: bool)
    ensures
        r == is_power_of_two(n as nat),
    decreases n,
{
    if n == 1 {
        true
    } else if n > 1 && n % 2 == 0 {
        power_of_two(n / 2)
    } else {
        false
    }
}

/// What is told when `n` batches of a track have found no room.
pub open spec fn dropped_words(track: Track, n: nat) -> Seq<char> {
    track.word() + " 軌因下游積壓丟棄了 "@ + decimal(n) + " 批音訊（每批 100 ms）"@
}

/// What is told when batch number `n` of a track has found no room, if anything is.
pub fn drop_notice(track: Track, n: u64) -> (r: Option<String>)
    ensures
        opt_view(r) == if is_power_of_two(n as nat) {
            Some(dropped_words(track, n as nat))
        } else {
            None
        },
{
    if !power_of_two(n) {
        return None;
    }
    let count = decimal_text(n as u128);
    let mut words = track.as_str().to_owned();
    words.append(" 軌因下游積壓丟棄了 ");
    words.append(count.as_str());
    words.append(" 批音訊（每批 100 ms）");
    Some(words)
}

// ---------------------------------------------------------------------------
// Blocks for a resampler
// ---------------------------------------------------------------------------

/// Holds samples back until there are enough for a block of fixed length.
pub struct Carry<S> {
    held: Vec<S>,
}

impl<S> View for Carry<S> {
    type V = Seq<S>;

    closed spec fn view(&self) -> Seq<S> {
        self.held@
    }
}

/// The last block: the samples left, filled up with silence, and how many samples of what it
/// becomes at `SAMPLE_RATE` are sound and not filling.
#[derive(Debug, PartialEq, Eq)]
pub struct LastBlock<S> {
    pub samples: Vec<S>,
    pub keep: usize,
}

impl<S: Copy> Carry<S> {
    pub fn new() -> (r: Self)
        ensures
            r@ == Seq::<S>::empty(),
    {
        let r = Carry { held: Vec::new() };
        assert(r@ =~= Seq::empty());
        r
    }

    /// Takes in samples.
    pub fn add(&mut self, samples: &[S])
        ensures
            final(self)@ == old(self)@ + samples@,
    {
        add_samples(&mut self.held, samples);
    }

    /// Takes out a block of `frames` samples, if there are as many.
    pub fn next_block(&mut self, frames: usize) -> (r: Option<Vec<S>>)
        ensures
            match r {
                Some(block) => {
                    &&& frames <= old(self)@.len()
                    &&& block@ == old(self)@.take(frames as int)
                    &&& final(self)@ == old(self)@.skip(frames as int)
                },
                None => old(self)@.len() < frames && final(self)@ == old(self)@,
            },
    {
        if self.held.len() < frames {
            return None;
        }
        let block = copy_samples(&self.held, 0, frames);
        let rest = copy_samples(&self.held, frames, self.held.len());
        assert(block@ =~= self.held@.take(frames as int));
        assert(rest@ =~= self.held@.skip(frames as int));
        self.held = rest;
        Some(block)
    }

    /// Takes out what is left as a block of `frames` samples, filled up with `silence`, and
    /// says how much of it counts: what is filled in is no audio and must not move the time.
    pub fn last_block(&mut self, frames: usize, silence: S, in_rate: usize) -> (r: Option<LastBlock<S>>)
        requires
            in_rate > 0,
            old(self)@.len() * SAMPLE_RATE <= usize::MAX,
        ensures
            final(self)@ == Seq::<S>::empty(),
            match r {
                None => old(self)@.len() == 0,
                Some(b) => {
                    &&& old(self)@.len() > 0
                    &&& b.samples@ == Seq::new(
                        frames as nat,
                        |i: int|
                            if i < old(self)@.len() {
                                old(self)@[i]
                            } else {
                                silence
                            },
                    )
                    &&& b.keep == old(self)@.len() * SAMPLE_RATE / in_rate as int
                },
            },
    {
        let left: usize = self.held.len();
        if left == 0 {
            assert(self@ =~= Seq::empty());
            return None;
        }
        let ghost before = self.held@;
        let whole: usize = if left < frames {
            left
        } else {
            frames
        };
        let mut block = copy_samples(&self.held, 0, whole);
        self.held = Vec::new();
        assert(self@ =~= Seq::empty());
        while block.len() < frames
            invariant
                left == before.len(),
                whole <= block@.len() <= frames,
                whole == left || whole == frames,
                forall|i: int|
                    0 <= i < block@.len() ==> #[trigger] block@[i] == if i < left {
                        before[i]
                    } else {
                        silence
                    },
            decreases frames - block@.len(),
        {
            block.push(silence);
        }
        assert(block@ =~= Seq::new(
            frames as nat,
            |i: int|
                if i < before.len() {
                    before[i]
                } else {
                    silence
                },
        ));
        let rate: usize = SAMPLE_RATE as usize;
        Some(LastBlock { samples: block, keep: left * rate / in_rate })
    }
}

// ---------------------------------------------------------------------------
// The recording
// ---------------------------------------------------------------------------

/// A piece of the recording of one track, to be written to a file.
#[derive(Debug, PartialEq, Eq)]
pub struct AudioPiece<S> {
    pub track: Track,
    pub captured_start_ms: u64,
    pub captured_end_ms: u64,
    pub samples: Vec<S>,
}

pub struct AudioPieceView<S> {
    pub track: Track,
    pub captured_start_ms: u64,
    pub captured_end_ms: u64,
    pub samples: Seq<S>,
}

impl<S> View for AudioPiece<S> {
    type V = AudioPieceView<S>;

    open spec fn view(&self) -> AudioPieceView<S> {
        AudioPieceView {
            track: self.track,
            captured_start_ms: self.captured_start_ms,
            captured_end_ms: self.captured_end_ms,
            samples: self.samples@,
        }
    }
}

/// A piece of the recording that has been written.
#[derive(Debug, PartialEq, Eq)]
pub struct WrittenSegment {
    pub track: Track,
    pub path: String,
    pub captured_start_ms: u64,
    pub captured_end_ms: u64,
    pub checksum: String,
}

/// Collects the samples of a track into pieces.
pub struct TrackWriter<S> {
    track: Track,
    samples: Vec<S>,
    start_ms: u64,
    end_ms: u64,
    started: bool,
}

/// The samples of the piece that is being collected, where they begin and end, and whether
/// there are any yet.
pub struct TrackWriterView<S> {
    pub track: Track,
    pub samples: Seq<S>,
    pub start_ms: u64,
    pub end_ms: u64,
    pub started: bool,
}

impl<S> View for TrackWriter<S> {
    type V = TrackWriterView<S>;

    closed spec fn view(&self) -> TrackWriterView<S> {
        TrackWriterView {
            track: self.track,
            samples: self.samples@,
            start_ms: self.start_ms,
            end_ms: self.end_ms,
            started: self.started,
        }
    }
}

impl<S> TrackWriterView<S> {
    /// What every writer keeps.
    pub open spec fn is_sound(self) -> bool {
        &&& self.start_ms <= self.end_ms
        &&& !self.started ==> self.samples.len() == 0
    }

    /// The piece that is being collected.
    pub open spec fn piece(self) -> Option<AudioPieceView<S>> {
        if self.samples.len() == 0 {
            None
        } else {
            Some(
                AudioPieceView {
                    track: self.track,
                    captured_start_ms: self.start_ms,
                    captured_end_ms: self.end_ms,
                    samples: self.samples,
                },
            )
        }
    }

    /// The writer after its piece was handed out.
    pub open spec fn flushed(self) -> Self {
        TrackWriterView { samples: Seq::empty(), started: false, ..self }
    }

    /// Whether a batch does not go on where the last one ended: its device was opened anew.
    pub open spec fn breaks(self, c: ChunkView<S>) -> bool {
        self.started && c.captured_start_ms != self.end_ms
    }

    /// The writer after a batch that goes on where the last one ended.
    pub open spec fn joined_by(self, c: ChunkView<S>) -> Self {
        TrackWriterView {
            samples: self.samples + c.samples,
            start_ms: if self.started {
                self.start_ms
            } else {
                c.captured_start_ms
            },
            end_ms: (c.captured_start_ms + duration_ms(c.samples.len())) as u64,
            started: true,
            ..self
        }
    }

    /// Whether the piece is long enough.
    pub open spec fn is_full(self) -> bool {
        self.end_ms - self.start_ms >= SEGMENT_MS
    }

    /// The writer after a piece was looked at for its length, and the piece if it was full.
    pub open spec fn checked(self) -> (Self, Option<AudioPieceView<S>>) {
        if self.is_full() {
            (self.flushed(), self.piece())
        } else {
            (self, None)
        }
    }

    /// The writer after a batch, and the piece that it ends.
    pub open spec fn pushed(self, c: ChunkView<S>) -> (Self, Option<AudioPieceView<S>>) {
        if self.breaks(c) {
            let after = self.flushed().joined_by(c);
            if self.piece() is Some {
                (after, self.piece())
            } else {
                after.checked()
            }
        } else {
            self.joined_by(c).checked()
        }
    }
}

impl<S: Copy> TrackWriter<S> {
    pub fn new(track: Track) -> (r: Self)
        ensures
            r@ == (TrackWriterView::<S> {
                track,
                samples: Seq::empty(),
                start_ms: 0,
                end_ms: 0,
                started: false,
            }),
            r@.is_sound(),
    {
        let r = TrackWriter { track, samples: Vec::new(), start_ms: 0, end_ms: 0, started: false };
        assert(r@.samples =~= Seq::empty());
        r
    }

    /// Hands out what has been collected, if there is anything.
    pub fn flush(&mut self) -> (r: Option<AudioPiece<S>>)
        requires
            old(self)@.is_sound(),
        ensures
            final(self)@.is_sound(),
            final(self)@ == old(self)@.flushed(),
            opt_view(r) == old(self)@.piece(),
    {
        self.started = false;
        if self.samples.len() == 0 {
            assert(self@.samples =~= Seq::empty());
            return None;
        }
        let ghost before = self.samples@;
        let mut samples: Vec<S> = Vec::new();
        samples.append(&mut self.samples);
        assert(samples@ =~= before);
        assert(self@.samples =~= Seq::empty());
        Some(
            AudioPiece {
                track: self.track,
                captured_start_ms: self.start_ms,
                captured_end_ms: self.end_ms,
                samples,
            },
        )
    }

    /// Hands out the piece if it is long enough. `push` does so by itself; it is to be done
    /// once more where a piece that `push` handed out could not be written.
    pub fn check_length(&mut self) -> (r: Option<AudioPiece<S>>)
        requires
            old(self)@.is_sound(),
        ensures
            final(self)@.is_sound(),
            (final(self)@, opt_view(r)) == old(self)@.checked(),
    {
        if self.end_ms - self.start_ms >= SEGMENT_MS {
            self.flush()
        } else {
            None
        }
    }

    /// Takes in a batch and hands out the piece that it ends, if it ends one: the one before,
    /// where the batch does not go on from it, since a file that claims to cover both would
    /// claim to cover what is not there; or the one it fills.
    pub fn push(&mut self, chunk: &Chunk<S>) -> (r: Option<AudioPiece<S>>)
        requires
            old(self)@.is_sound(),
            chunk.captured_start_ms + duration_ms(chunk.samples@.len()) <= u64::MAX,
        ensures
            final(self)@.is_sound(),
            (final(self)@, opt_view(r)) == old(self)@.pushed(chunk@),
    {
        let chunk_ms: u64 = duration(chunk.samples.len() as u64);
        let flushed = if self.started && chunk.captured_start_ms != self.end_ms {
            self.flush()
        } else {
            None
        };
        if !self.started {
            self.start_ms = chunk.captured_start_ms;
            self.started = true;
        }
        add_samples(&mut self.samples, chunk.samples.as_slice());
        self.end_ms = chunk.captured_start_ms + chunk_ms;
        if flushed.is_some() {
            return flushed;
        }
        self.check_length()
    }
}

/// Nothing that was recorded is lost, doubled or put in another order: what is handed out and
/// what is still held is what was held and what has come.
pub proof fn pieces_hold_every_sample<S>(w: TrackWriterView<S>, c: ChunkView<S>)
    requires
        w.is_sound(),
    ensures
        match w.pushed(c) {
            (after, Some(p)) => p.samples + after.samples == w.samples + c.samples,
            (after, None) => after.samples == w.samples + c.samples,
        },
        match w.piece() {
            Some(p) => p.samples + w.flushed().samples == w.samples,
            None => w.samples.len() == 0,
        },
{
    let (after, p) = w.pushed(c);
    if let Some(p) = p {
        assert(p.samples + after.samples =~= w.samples + c.samples);
        assert(Seq::<S>::empty() + c.samples =~= c.samples);
    } else if w.breaks(c) {
        assert(Seq::<S>::empty() + c.samples =~= w.samples + c.samples);
        if w.flushed().joined_by(c).is_full() {
            assert(after.samples =~= w.samples + c.samples);
        }
    } else if w.joined_by(c).is_full() {
        assert(after.samples =~= w.samples + c.samples);
    }
    assert(w.samples + Seq::empty() =~= w.samples);
}

/// Whether what a writer holds lasts exactly from its beginning to its end.
pub open spec fn is_gapless<S>(w: TrackWriterView<S>) -> bool {
    w.started ==> w.samples.len() == SAMPLES_PER_MS * (w.end_ms - w.start_ms)
}

/// A piece lasts exactly as long as it says, whatever breaks there were: two stretches of
/// time never come into one piece. Batches of whole milliseconds are taken for granted.
pub proof fn pieces_never_bridge_a_break<S>(w: TrackWriterView<S>, c: ChunkView<S>)
    requires
        w.is_sound(),
        is_gapless(w),
        c.samples.len() % SAMPLES_PER_MS as nat == 0,
        c.captured_start_ms + duration_ms(c.samples.len()) <= u64::MAX,
    ensures
        is_gapless(w.pushed(c).0),
        w.pushed(c).1 matches Some(p) ==> p.samples.len() == SAMPLES_PER_MS * (p.captured_end_ms
            - p.captured_start_ms) && p.track == w.track,
        w.breaks(c) && w.samples.len() > 0 ==> w.pushed(c).1 == w.piece(),
{
}

/// A piece is handed out as soon as it is long enough, and not before, unless its device was
/// opened anew.
pub proof fn pieces_have_their_length<S>(w: TrackWriterView<S>, c: ChunkView<S>)
    requires
        w.is_sound(),
        c.samples.len() > 0,
        !w.breaks(c),
        c.captured_start_ms + duration_ms(c.samples.len()) <= u64::MAX,
    ensures
        w.pushed(c).1 is Some <==> w.joined_by(c).is_full(),
        w.pushed(c).1 matches Some(p) ==> p.captured_end_ms - p.captured_start_ms >= SEGMENT_MS,
{
}

/// The file of a piece: its track and where it begins, so that a listing is in order.
pub open spec fn file_name(track: Track, start_ms: u64) -> Seq<char> {
    track.word() + "-"@ + padded(start_ms as nat, 9) + ".wav"@
}

/// The file of a piece.
pub fn piece_file(track: Track, start_ms: u64) -> (r: String)
    ensures
        r@ == file_name(track, start_ms),
{
    let mut name = track.as_str().to_owned();
    name.append("-");
    push_padded(&mut name, start_ms, 9);
    name.append(".wav");
    name
}

/// The two bytes of a sample, the lower one first.
pub open spec fn sample_bytes(v: i16) -> Seq<u8> {
    let u: int = if v < 0 {
        v + 0x1_0000
    } else {
        v as int
    };
    seq![(u % 256) as u8, (u / 256) as u8]
}

/// The bytes of some samples.
pub open spec fn pcm(samples: Seq<i16>) -> Seq<u8>
    decreases samples.len(),
{
    if samples.len() == 0 {
        Seq::empty()
    } else {
        pcm(samples.drop_last()) + sample_bytes(samples.last())
    }
}

/// The bytes of some samples.
pub fn pcm_bytes(samples: &[i16]) -> (r: Vec<u8>)
    ensures
        r@ == pcm(samples@),
{
    let mut out: Vec<u8> = Vec::new();
    let mut i: usize = 0;
    assert(out@ =~= pcm(samples@.take(0)));
    while i < samples.len()
        invariant
            i <= samples@.len(),
            out@ == pcm(samples@.take(i as int)),
        decreases samples.len() - i,
    {
        let v: i16 = samples[i];
        let u: u32 = if v < 0 {
            (v as i32 + 0x1_0000) as u32
        } else {
            v as u32
        };
        let ghost before = out@;
        out.push((u % 256) as u8);
        out.push((u / 256) as u8);
        assert(out@ =~= before + sample_bytes(v));
        assert(samples@.take(i + 1).drop_last() =~= samples@.take(i as int));
        assert(samples@.take(i + 1).last() == v);
        i = i + 1;
    }
    assert(samples@.take(i as int) =~= samples@);
    out
}

/// The check sum of some samples. It is of the samples and not of the file: the same audio has
/// the same sum, however a file begins.
pub fn checksum(samples: &[i16]) -> (r: String)
    ensures
        r@ == hex(sha256(pcm(samples@))),
        r@.len() == 64,
{
    let bytes = pcm_bytes(samples);
    sha256_hex(bytes.as_slice())
}

/// What is noted of a piece once it has been written.
pub fn written<S>(piece: &AudioPiece<S>, path: String, checksum: String) -> (r: WrittenSegment)
    ensures
        r == (WrittenSegment {
            track: piece.track,
            path,
            captured_start_ms: piece.captured_start_ms,
            captured_end_ms: piece.captured_end_ms,
            checksum,
        }),
{
    WrittenSegment {
        track: piece.track,
        path,
        captured_start_ms: piece.captured_start_ms,
        captured_end_ms: piece.captured_end_ms,
        checksum,
    }
}

/// The recording of a meeting: one writer for each track that has been heard.
pub struct Recorder<S> {
    mic: TrackWriter<S>,
    system: TrackWriter<S>,
}

pub struct RecorderView<S> {
    pub mic: TrackWriterView<S>,
    pub system: TrackWriterView<S>,
}

impl<S> View for Recorder<S> {
    type V = RecorderView<S>;

    closed spec fn view(&self) -> RecorderView<S> {
        RecorderView { mic: self.mic@, system: self.system@ }
    }
}

impl<S> RecorderView<S> {
    /// What every recorder keeps.
    pub open spec fn is_sound(self) -> bool {
        &&& self.mic.is_sound()
        &&& self.system.is_sound()
        &&& self.mic.track is Mic
        &&& self.system.track is System
    }

    /// The writer of a track.
    pub open spec fn of(self, track: Track) -> TrackWriterView<S> {
        match track {
            Track::Mic => self.mic,
            Track::System => self.system,
        }
    }
}

impl<S: Copy> Recorder<S> {
    pub fn new() -> (r: Self)
        ensures
            r@.is_sound(),
            r@.mic.samples.len() == 0 && !r@.mic.started,
            r@.system.samples.len() == 0 && !r@.system.started,
    {
        Recorder { mic: TrackWriter::new(Track::Mic), system: TrackWriter::new(Track::System) }
    }

    /// Takes in a batch of either track. The other track is left alone.
    pub fn push(&mut self, chunk: &Chunk<S>) -> (r: Option<AudioPiece<S>>)
        requires
            old(self)@.is_sound(),
            chunk.captured_start_ms + duration_ms(chunk.samples@.len()) <= u64::MAX,
        ensures
            final(self)@.is_sound(),
            (final(self)@.of(chunk.track), opt_view(r)) == old(self)@.of(chunk.track).pushed(
                chunk@,
            ),
            chunk.track is Mic ==> final(self)@.system == old(self)@.system,
            chunk.track is System ==> final(self)@.mic == old(self)@.mic,
    {
        match chunk.track {
            Track::Mic => self.mic.push(chunk),
            Track::System => self.system.push(chunk),
        }
    }

    /// Hands out a piece of a track once more looked at for its length.
    pub fn check_length(&mut self, track: Track) -> (r: Option<AudioPiece<S>>)
        requires
            old(self)@.is_sound(),
        ensures
            final(self)@.is_sound(),
            (final(self)@.of(track), opt_view(r)) == old(self)@.of(track).checked(),
            track is Mic ==> final(self)@.system == old(self)@.system,
            track is System ==> final(self)@.mic == old(self)@.mic,
    {
        match track {
            Track::Mic => self.mic.check_length(),
            Track::System => self.system.check_length(),
        }
    }

    /// Hands out what both tracks still hold: the last words before the end.
    pub fn finish(&mut self) -> (r: Vec<AudioPiece<S>>)
        requires
            old(self)@.is_sound(),
        ensures
            final(self)@.is_sound(),
            final(self)@.mic == old(self)@.mic.flushed(),
            final(self)@.system == old(self)@.system.flushed(),
            views(r@) == (match old(self)@.mic.piece() {
                Some(p) => seq![p],
                None => seq![],
            }) + (match old(self)@.system.piece() {
                Some(p) => seq![p],
                None => seq![],
            }),
    {
        let mut out: Vec<AudioPiece<S>> = Vec::new();
        if let Some(p) = self.mic.flush() {
            out.push(p);
        }
        if let Some(p) = self.system.flush() {
            out.push(p);
        }
        assert(views(out@) =~= (match old(self)@.mic.piece() {
            Some(p) => seq![p],
            None => seq![],
        }) + (match old(self)@.system.piece() {
            Some(p) => seq![p],
            None => seq![],
        }));
        out
    }
}

} // verus!
