//! Batches of samples and pieces of a recording.

use openmeetnote::audio::{
    await_tracks, checksum, drop_notice, format_refusal, pcm_bytes, piece_file, written, AudioError, Batcher, Carry,
    Chunk, ChunkQueue, Recorder, TrackWriter, CAPTURE_BACKLOG_CHUNKS, CHUNK_FRAMES, NO_ANSWER,
    SAMPLE_RATE,
};
use openmeetnote::model::Track;

fn batcher(track: Track) -> (Batcher<f32>, ChunkQueue<f32>) {
    (Batcher::new(track), ChunkQueue::new(CAPTURE_BACKLOG_CHUNKS))
}

#[test]
fn test_each_batch_carries_the_offset_of_the_audio_it_contains() {
    let (mut b, mut q) = batcher(Track::Mic);
    assert!(b.push(&vec![0.1; CHUNK_FRAMES * 3], &mut q));

    let chunks: Vec<Chunk<f32>> = std::iter::from_fn(|| q.take()).collect();
    assert_eq!(chunks.len(), 3);
    for (i, c) in chunks.iter().enumerate() {
        assert_eq!(c.samples.len(), CHUNK_FRAMES);
        assert_eq!(c.captured_start_ms, i as u64 * 100, "第 {i} 批的位置不對");
    }
}

#[test]
fn test_partial_batches_wait_instead_of_going_out_short() {
    let (mut b, mut q) = batcher(Track::System);
    assert!(b.push(&vec![0.2; CHUNK_FRAMES - 1], &mut q));
    assert!(q.take().is_none(), "不足一批就送出去了");
    assert!(b.push(&[0.2], &mut q));
    assert_eq!(q.take().expect("湊滿了該送").samples.len(), CHUNK_FRAMES);
}

#[test]
fn test_the_tail_left_over_at_stop_is_sent_instead_of_dropped() {
    let (mut b, mut q) = batcher(Track::Mic);
    assert!(b.push(&vec![0.3; CHUNK_FRAMES + 400], &mut q));
    let full = q.take().expect("滿的那一批該送");
    assert_eq!(full.samples.len(), CHUNK_FRAMES);
    assert!(q.take().is_none(), "尾巴不該在 flush 之前送出");

    b.flush(&mut q);
    let tail = q.take().expect("停止時尾巴要送出來");
    assert_eq!(tail.samples.len(), 400);
    assert_eq!(tail.captured_start_ms, 100, "尾巴的位置接不上前一批");
    b.flush(&mut q);
    assert!(q.take().is_none(), "flush 送出了空批次");
}

#[test]
fn test_a_closed_receiver_is_reported_as_done_not_as_an_error() {
    let (mut b, mut q) = batcher(Track::Mic);
    q.close();
    assert!(!b.push(&vec![0.0; CHUNK_FRAMES], &mut q), "接收端關閉時沒有回報收工");
}

#[test]
fn test_a_backed_up_queue_drops_batches_instead_of_growing_without_bound() {
    let mut q = ChunkQueue::new(2);
    let mut b = Batcher::new(Track::System);
    assert!(b.push(&vec![0.4; CHUNK_FRAMES * 20], &mut q), "丟批次不該當成收工");
    assert_eq!(b.dropped(), 18);
    assert_eq!(q.take().unwrap().samples.len(), CHUNK_FRAMES);
    assert!(b.has_room(usize::MAX / 2));
}

fn chunk(track: Track, start_ms: u64, ms: u64) -> Chunk<f32> {
    let n = (SAMPLE_RATE as u64 * ms / 1_000) as usize;
    Chunk { track, captured_start_ms: start_ms, samples: vec![0.5; n] }
}

#[test]
fn test_a_segment_lands_once_it_reaches_the_segment_length() {
    let mut w = TrackWriter::new(Track::Mic);
    assert!(w.push(&chunk(Track::Mic, 0, 30_000)).is_none());
    let seg = w.push(&chunk(Track::Mic, 30_000, 30_000)).expect("滿一段了卻沒有落地");
    assert_eq!((seg.captured_start_ms, seg.captured_end_ms), (0, 60_000));
    assert_eq!(seg.samples.len(), 960_000);
    assert!(w.check_length().is_none());
}

#[test]
fn test_a_device_restart_does_not_glue_two_time_ranges_into_one_file() {
    let mut w = TrackWriter::new(Track::System);
    assert!(w.push(&chunk(Track::System, 0, 5_000)).is_none());
    let seg = w.push(&chunk(Track::System, 90_000, 5_000)).expect("時間跳空之後該把前一段收掉");
    assert_eq!((seg.captured_start_ms, seg.captured_end_ms), (0, 5_000));
    let next = w.flush().unwrap();
    assert_eq!((next.captured_start_ms, next.captured_end_ms), (90_000, 95_000));
}

#[test]
fn test_the_tail_is_written_when_capture_stops() {
    let mut w = TrackWriter::new(Track::Mic);
    assert!(w.push(&chunk(Track::Mic, 0, 3_000)).is_none());
    let seg = w.flush().expect("收尾沒有寫出剩下的音訊");
    assert_eq!(seg.captured_end_ms, 3_000);
    assert!(w.flush().is_none());
}

#[test]
fn test_the_same_audio_always_gets_the_same_checksum() {
    let a = checksum(&[3276, 6553, 9830]);
    let b = checksum(&[3276, 6553, 9830]);
    let c = checksum(&[3276, 6553, 13107]);
    assert_eq!(a, b);
    assert_ne!(a, c);
    assert_eq!(a.len(), 64, "SHA-256 的十六進位長度");
}

#[test]
fn samples_become_bytes_with_the_lower_one_first() {
    for v in [0i16, 1, -1, 255, 256, i16::MAX, i16::MIN, -300] {
        assert_eq!(pcm_bytes(&[v]), v.to_le_bytes());
    }
    assert_eq!(pcm_bytes(&[1, -2]), [1, 0, 254, 255]);
}

#[test]
fn a_capture_starts_only_with_all_its_tracks() {
    assert_eq!(await_tracks(vec![Some(Ok(())), Some(Ok(()))]), Ok(()));
    let failed = await_tracks(vec![Some(Err("mic 軌：沒有權限".into())), None]).unwrap_err();
    assert_eq!(failed, AudioError::Capture(format!("mic 軌：沒有權限；{NO_ANSWER}")));
    assert_eq!(failed.message(), format!("擷取失敗：mic 軌：沒有權限；{NO_ANSWER}"));
    assert_eq!(AudioError::NoDevice("x".into()).message(), "找不到音訊裝置：x");
    let none = AudioError::no_platform().message();
    assert_eq!(none, "這個平台沒有音訊擷取實作，目前只有 Windows 與 macOS。");
}

#[test]
fn dropped_batches_are_told_of_at_powers_of_two() {
    let told: Vec<u64> = (0..=20).filter(|n| drop_notice(Track::Mic, *n).is_some()).collect();
    assert_eq!(told, [1, 2, 4, 8, 16]);
    assert_eq!(
        drop_notice(Track::System, 4).as_deref(),
        Some("system 軌因下游積壓丟棄了 4 批音訊（每批 100 ms）")
    );
}

#[test]
fn blocks_have_their_length_and_the_last_one_is_filled_up() {
    let mut c = Carry::new();
    c.add(&[1, 2, 3, 4, 5]);
    assert_eq!(c.next_block(3), Some(vec![1, 2, 3]));
    assert_eq!(c.next_block(3), None);
    let last = c.last_block(4, 0, 48_000).unwrap();
    assert_eq!(last.samples, [4, 5, 0, 0]);
    assert_eq!(last.keep, 0);
    assert!(c.last_block(4, 0, 48_000).is_none());
    c.add(&[7; 96]);
    assert_eq!(c.last_block(100, 0, 48_000).unwrap().keep, 32);
}

#[test]
fn the_tracks_of_a_recording_stay_apart() {
    let mut r = Recorder::new();
    assert!(r.push(&chunk(Track::Mic, 0, 2_000)).is_none());
    assert!(r.push(&chunk(Track::System, 100, 3_000)).is_none());
    assert!(r.check_length(Track::Mic).is_none());
    let pieces = r.finish();
    let spans: Vec<_> =
        pieces.iter().map(|p| (p.track, p.captured_start_ms, p.captured_end_ms)).collect();
    assert_eq!(spans, [(Track::Mic, 0, 2_000), (Track::System, 100, 3_100)]);
    assert!(r.finish().is_empty());
    assert_eq!(piece_file(Track::System, 100), "system-000000100.wav");
    let w = written(&pieces[1], "p".into(), "c".into());
    assert_eq!((w.captured_end_ms, w.path.as_str(), w.checksum.as_str()), (3_100, "p", "c"));
}

#[test]
fn only_floats_with_the_lower_byte_first_are_read() {
    assert_eq!(format_refusal(true, false, 32, 2), None);
    let want = "系統音訊的格式不是小端 32-bit float（16 bit、2 聲道），這一軌停止";
    assert_eq!(format_refusal(false, false, 16, 2).as_deref(), Some(want));
    assert!(format_refusal(true, true, 32, 2).is_some());
    assert!(format_refusal(true, false, 32, 0).is_some());
}
