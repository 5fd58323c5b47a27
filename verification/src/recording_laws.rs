//! What a recording keeps of what was heard: its samples in order, its pieces in time, and what
//! is told where something was lost.
use crate::audio::{
    batches, dropped_words, duration_ms, failed_starts, file_name, is_power_of_two, pcm,
    sample_bytes, AudioErrorView, BatcherView, ChunkQueueView, ChunkView, RecorderView, TrackReady,
    TrackWriterView, NO_ANSWER,
};
use crate::model::Track;
use crate::parts::{lemma_stands, stands_in};
use crate::text::{begins_with, decimal, decimal_reads_back, digits_value, padded, zeros};
use vstd::prelude::*;

verus! {

/// Sixteen samples are a millisecond, and a part of one does not count.
pub proof fn sixteen_samples_are_a_millisecond(ms: nat, rest: nat)
    requires
        rest < 16,
    ensures
        duration_ms(16 * ms + rest) == ms,
{
}

// ---------------------------------------------------------------------------
// Samples as bytes
// ---------------------------------------------------------------------------

/// What is written of two stretches is what is written of each, the earlier one first.
pub proof fn samples_are_written_in_order(a: Seq<i16>, b: Seq<i16>)
    ensures
        pcm(a + b) == pcm(a) + pcm(b),
    decreases b.len(),
{
    if b.len() == 0 {
        assert(a + b =~= a);
        assert(pcm(a) + pcm(b) =~= pcm(a));
    } else {
        samples_are_written_in_order(a, b.drop_last());
        assert((a + b).drop_last() =~= a + b.drop_last());
        assert((a + b).last() == b.last());
        assert(pcm(a + b) =~= pcm(a) + pcm(b));
    }
}

/// Every sample is written as two bytes at its place, from which it is read back: the lower byte
/// first, negative numbers as what is missing to the whole range.
pub proof fn samples_read_back(samples: Seq<i16>, i: int)
    requires
        0 <= i < samples.len(),
    ensures
        pcm(samples).len() == 2 * samples.len(),
        ({
            let low = pcm(samples)[2 * i] as int;
            let high = pcm(samples)[2 * i + 1] as int;
            samples[i] == if high < 128 {
                high * 256 + low
            } else {
                high * 256 + low - 65536
            }
        }),
    decreases samples.len(),
{
    let rest = samples.drop_last();
    lemma_two_bytes_each(rest);
    if i < rest.len() {
        samples_read_back(rest, i);
    } else {
        let v = samples.last();
        let u: int = if v < 0 {
            v + 0x1_0000
        } else {
            v as int
        };
        assert(0 <= u < 65536);
        assert(u == (u / 256) * 256 + u % 256);
        assert(sample_bytes(v).len() == 2);
        assert(sample_bytes(v)[0] as int == u % 256);
        assert(sample_bytes(v)[1] as int == u / 256);
    }
}

proof fn lemma_two_bytes_each(samples: Seq<i16>)
    ensures
        pcm(samples).len() == 2 * samples.len(),
    decreases samples.len(),
{
    if samples.len() > 0 {
        lemma_two_bytes_each(samples.drop_last());
    }
}

// ---------------------------------------------------------------------------
// Pieces
// ---------------------------------------------------------------------------

/// A batch that goes on where the last one ended is added at the end. The piece is handed out
/// with it once it lasts a minute, and after that nothing is held.
pub proof fn pieces_grow_to_a_minute<S>(w: TrackWriterView<S>, c: ChunkView<S>)
    requires
        w.is_sound(),
        w.started ==> c.captured_start_ms == w.end_ms,
        c.samples.len() > 0,
        c.captured_start_ms + duration_ms(c.samples.len()) <= u64::MAX,
    ensures
        ({
            let (after, piece) = w.pushed(c);
            let from = if w.started {
                w.start_ms
            } else {
                c.captured_start_ms
            };
            let to = c.captured_start_ms + duration_ms(c.samples.len());
            &&& after.track == w.track
            &&& to - from >= 60_000 ==> {
                &&& piece matches Some(p)
                &&& p.track == w.track
                &&& p.captured_start_ms == from
                &&& p.captured_end_ms == to
                &&& p.samples == w.samples + c.samples
                &&& after.samples.len() == 0
                &&& !after.started
            }
            &&& to - from < 60_000 ==> {
                &&& piece is None
                &&& after.started
                &&& after.start_ms == from
                &&& after.end_ms == to
                &&& after.samples == w.samples + c.samples
            }
        }),
{
}

/// A batch that does not go on where the last one ended begins a piece of its own. What was held
/// is handed out as it was.
pub proof fn breaks_begin_a_new_piece<S>(w: TrackWriterView<S>, c: ChunkView<S>)
    requires
        w.is_sound(),
        w.started,
        w.samples.len() > 0,
        c.captured_start_ms != w.end_ms,
        c.captured_start_ms + duration_ms(c.samples.len()) <= u64::MAX,
    ensures
        ({
            let (after, piece) = w.pushed(c);
            &&& piece matches Some(p)
            &&& p.track == w.track
            &&& p.captured_start_ms == w.start_ms
            &&& p.captured_end_ms == w.end_ms
            &&& p.samples == w.samples
            &&& after.track == w.track
            &&& after.started
            &&& after.start_ms == c.captured_start_ms
            &&& after.end_ms == c.captured_start_ms + duration_ms(c.samples.len())
            &&& after.samples == c.samples
        }),
{
    assert(Seq::<S>::empty() + c.samples =~= c.samples);
}

/// At the end all that is held is handed out, however short it is.
pub proof fn the_last_words_are_handed_out<S>(w: TrackWriterView<S>)
    ensures
        w.flushed().samples.len() == 0,
        !w.flushed().started,
        w.flushed().track == w.track,
        w.samples.len() == 0 <==> w.piece() is None,
        w.piece() matches Some(p) ==> p.track == w.track && p.captured_start_ms == w.start_ms
            && p.captured_end_ms == w.end_ms && p.samples == w.samples,
{
}

/// Each track has its own writer.
pub proof fn tracks_are_kept_apart<S>(r: RecorderView<S>)
    requires
        r.is_sound(),
    ensures
        r.of(Track::Mic) == r.mic,
        r.of(Track::System) == r.system,
        r.mic.track is Mic,
        r.system.track is System,
{
}

/// The name of a piece's file says its track, then where it begins in at least nine digits, so
/// that two pieces never have one name.
pub proof fn pieces_have_their_own_files(a: Track, b: Track, from: u64, to: u64)
    ensures
        file_name(Track::Mic, from).take(4) == "mic-"@,
        file_name(Track::System, from).take(7) == "system-"@,
        file_name(a, from) == file_name(b, to) ==> a == b && from == to,
{
    reveal_strlit("mic");
    reveal_strlit("mic-");
    reveal_strlit("system");
    reveal_strlit("system-");
    reveal_strlit("-");
    reveal_strlit(".wav");
    assert(file_name(Track::Mic, from).take(4) =~= "mic-"@);
    assert(file_name(Track::System, from).take(7) =~= "system-"@);
    if file_name(a, from) == file_name(b, to) {
        let n = file_name(a, from);
        assert(file_name(Track::Mic, from)[0] == 'm' && file_name(Track::Mic, to)[0] == 'm');
        assert(file_name(Track::System, from)[0] == 's' && file_name(Track::System, to)[0] == 's');
        assert(a == b);
        let k = (a.word().len() + 1) as int;
        let (x, y) = (padded(from as nat, 9), padded(to as nat, 9));
        assert(n.len() == k + x.len() + 4);
        assert(n.len() == k + y.len() + 4);
        assert(n.subrange(k, n.len() - 4) =~= x);
        assert(n.subrange(k, n.len() - 4) =~= y);
        lemma_padded_apart(from as nat, to as nat, 9);
    }
}

proof fn lemma_padded_apart(a: nat, b: nat, width: nat)
    requires
        padded(a, width as int) == padded(b, width as int),
    ensures
        a == b,
{
    lemma_value_of_padded(a, width as int);
    lemma_value_of_padded(b, width as int);
}

proof fn lemma_value_of_padded(n: nat, width: int)
    ensures
        digits_value(padded(n, width)) == n,
{
    decimal_reads_back(n);
    let p = padded(n, width);
    let d = decimal(n);
    if p.len() > d.len() {
        assert(p =~= zeros(p.len() - d.len()) + d);
        lemma_zeros_in_front(p.len() - d.len(), d);
    } else {
        assert(p =~= d);
    }
}

proof fn lemma_zeros_in_front(k: int, s: Seq<char>)
    requires
        k >= 0,
    ensures
        digits_value(zeros(k) + s) == digits_value(s),
    decreases k + s.len(),
{
    let all = zeros(k) + s;
    if s.len() > 0 {
        lemma_zeros_in_front(k, s.drop_last());
        assert(all.drop_last() =~= zeros(k) + s.drop_last());
    } else if k > 0 {
        lemma_zeros_in_front(k - 1, s);
        assert(all.drop_last() =~= zeros(k - 1) + s);
        assert(all.last() == '0');
    } else {
        assert(all =~= s);
    }
}

// ---------------------------------------------------------------------------
// Starting and losing
// ---------------------------------------------------------------------------

/// Every track that did not start is told of with its own words, in the order of the tracks, and
/// no other: one that gave no answer in time among them.
pub proof fn every_failed_start_is_told(a: Seq<Option<TrackReady>>, b: Seq<Option<TrackReady>>, e: String)
    ensures
        failed_starts(a + b) == failed_starts(a) + failed_starts(b),
        failed_starts(seq![Some(Ok(()))]).len() == 0,
        failed_starts(seq![Some(Err(e))]) == seq![e@],
        failed_starts(seq![None]) == seq![NO_ANSWER@],
    decreases b.len(),
{
    if b.len() == 0 {
        assert(a + b =~= a);
        assert(failed_starts(a) + failed_starts(b) =~= failed_starts(a));
        lemma_one_start(Some(Ok(())));
        lemma_one_start(Some(Err(e)));
        lemma_one_start(None);
    } else {
        every_failed_start_is_told(a, b.drop_last(), e);
        assert((a + b).drop_last() =~= a + b.drop_last());
        assert((a + b).last() == b.last());
        assert(failed_starts(a + b) =~= failed_starts(a) + failed_starts(b));
    }
}

proof fn lemma_one_start(reply: Option<TrackReady>)
    ensures
        failed_starts(seq![reply]) == match reply {
            Some(Ok(_)) => Seq::<Seq<char>>::empty(),
            Some(Err(e)) => seq![e@],
            None => seq![NO_ANSWER@],
        },
{
    let all = seq![reply];
    assert(all.drop_last() =~= Seq::empty());
    assert(failed_starts(all.drop_last()) =~= Seq::empty());
    assert(failed_starts(all) =~= match reply {
        Some(Ok(_)) => Seq::<Seq<char>>::empty(),
        Some(Err(e)) => seq![e@],
        None => seq![NO_ANSWER@],
    });
}

/// The batches that found room are the first ones, each with the next tenth of a second of the
/// samples, on the batcher's track.
pub proof fn batches_are_queued_in_order<S>(
    b: BatcherView<S>,
    queue: ChunkQueueView<S>,
    samples: Seq<S>,
    k: int,
)
    requires
        queue.open,
        queue.chunks.len() <= k < b.pushed(queue, samples).1.chunks.len(),
    ensures
        ({
            let c = b.pushed(queue, samples).1.chunks[k];
            let i = k - queue.chunks.len();
            c.track == b.track && c.samples == (b.pending + samples).subrange(
                i * 1600,
                i * 1600 + 1600,
            )
        }),
{
    let full = batches(b.track, b.sent_frames, b.pending + samples);
    let i = k - queue.chunks.len();
    assert((i + 1) * 1600 == i * 1600 + 1600);
    assert(b.pushed(queue, samples).1.chunks[k] == full[i]);
}

/// What does not fill a batch goes out at the end as it is, with the time at which it begins, or
/// is counted where there is no room for it.
pub proof fn the_last_samples_are_sent<S>(b: BatcherView<S>, queue: ChunkQueueView<S>)
    requires
        b.pending.len() > 0,
    ensures
        ({
            let (after, q) = b.flushed(queue);
            &&& after.pending.len() == 0
            &&& after.track == b.track
            &&& after.sent_frames == b.sent_frames + b.pending.len()
            &&& queue.open && queue.chunks.len() < queue.limit ==> q.chunks == queue.chunks.push(
                ChunkView {
                    track: b.track,
                    captured_start_ms: duration_ms(b.sent_frames) as u64,
                    samples: b.pending,
                },
            ) && after.dropped == b.dropped
            &&& queue.open && queue.chunks.len() >= queue.limit ==> q == queue && after.dropped
                == b.dropped + 1
            &&& !queue.open ==> q == queue && after.dropped == b.dropped
        }),
{
}

/// Lost batches are told of at the first, and at a number that is twice one at which they were
/// told of, and at no other.
pub proof fn losses_are_told_when_they_double(n: nat)
    ensures
        is_power_of_two(1),
        !is_power_of_two(0),
        n > 0 ==> (is_power_of_two(2 * n) <==> is_power_of_two(n)),
        n > 0 ==> !is_power_of_two(2 * n + 1),
{
    if n > 0 {
        assert((2 * n) / 2 == n && (2 * n) % 2 == 0);
        assert((2 * n + 1) % 2 == 1);
    }
}

/// What is told of lost batches says the track and their number.
pub proof fn losses_are_told_by_number(track: Track, n: nat)
    ensures
        stands_in(decimal(n), dropped_words(track, n)),
        begins_with(dropped_words(track, n), track.word()),
{
    let a = track.word() + " 軌因下游積壓丟棄了 "@;
    lemma_stands(a, decimal(n), " 批音訊（每批 100 ms）"@);
    assert(dropped_words(track, n).take(track.word().len() as int) =~= track.word());
}

/// A failure keeps the words of the device.
pub proof fn device_failures_keep_their_words(s: Seq<char>)
    ensures
        stands_in(s, AudioErrorView::NoDevice(s).words()),
        stands_in(s, AudioErrorView::Capture(s).words()),
        AudioErrorView::Unsupported(s).words() == s,
{
    let e = Seq::<char>::empty();
    lemma_stands("找不到音訊裝置："@, s, e);
    lemma_stands("擷取失敗："@, s, e);
    assert("找不到音訊裝置："@ + s + e =~= "找不到音訊裝置："@ + s);
    assert("擷取失敗："@ + s + e =~= "擷取失敗："@ + s);
}

} // verus!
