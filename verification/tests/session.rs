//! A meeting from its start to its end, command by command and window by window.

use openmeetnote::agent::Degraded;
use openmeetnote::events::{DomainEvent, SessionEvent, TranscriptInput, TranscriptSource, Usage};
use openmeetnote::generation::StopReason;
use openmeetnote::model::{Health, MeetingState, Origin, Timeline, Track, UNKNOWN_REMOTE};
use openmeetnote::session::{CommandReceipt, ProjectedSegment, ProjectedSpeaker, Session};
use openmeetnote::session_model::BATCH_MS;
use openmeetnote::store::MeetingId;

/// The log of one meeting, with the number of each event.
#[derive(Default)]
struct Log {
    events: Vec<(u64, DomainEvent, Timeline)>,
}

struct LoggedSegment {
    segment_id: u64,
    text: String,
    revision: u32,
    user_edited: bool,
}

#[derive(Debug)]
struct LoggedSpeaker {
    speaker_id: String,
    ordinal: u32,
    confirmed_name: Option<String>,
}

struct LoggedNote {
    text: String,
}

/// What the log says of a meeting, without its session.
struct Meeting {
    state: MeetingState,
    started: bool,
    ended: bool,
    segments: Vec<LoggedSegment>,
    speakers: Vec<LoggedSpeaker>,
    notes: Vec<LoggedNote>,
}

impl Log {
    fn append(&mut self, batch: Vec<(DomainEvent, Timeline)>) -> Vec<u64> {
        let mut seqs = vec![];
        for (event, at) in batch {
            let seq = self.events.len() as u64 + 1;
            self.events.push((seq, event, at));
            seqs.push(seq);
        }
        seqs
    }

    fn meeting(&self) -> Meeting {
        let mut m = Meeting {
            state: MeetingState::Idle,
            started: false,
            ended: false,
            segments: vec![],
            speakers: vec![],
            notes: vec![],
        };
        for (_, e, _) in &self.events {
            match e {
                DomainEvent::MeetingStateChanged { state } => {
                    m.state = *state;
                    m.started = m.started || *state == MeetingState::Recording;
                    m.ended = m.ended || *state == MeetingState::Completed;
                }
                DomainEvent::SpeakerProposed { speaker_id, ordinal, .. } => {
                    m.speakers.push(LoggedSpeaker {
                        speaker_id: speaker_id.clone(),
                        ordinal: *ordinal,
                        confirmed_name: None,
                    });
                }
                DomainEvent::SpeakerConfirmed { speaker_id, name } => {
                    for s in m.speakers.iter_mut().filter(|s| s.speaker_id == *speaker_id) {
                        s.confirmed_name = Some(name.clone());
                    }
                }
                DomainEvent::TranscriptSegmentFinalized { segment }
                | DomainEvent::TranscriptSegmentRevised { segment }
                | DomainEvent::TranscriptSegmentEdited { segment } => {
                    m.segments.retain(|s| s.segment_id != segment.segment_id);
                    m.segments.push(LoggedSegment {
                        segment_id: segment.segment_id,
                        text: segment.text.clone(),
                        revision: segment.revision,
                        user_edited: segment.origin == Origin::User,
                    });
                }
                DomainEvent::NoteAdded { text, .. } => {
                    m.notes.push(LoggedNote { text: text.clone() });
                }
                _ => {}
            }
        }
        m
    }
}

fn with_log() -> (Session, Log) {
    let mut s = Session::default();
    assert!(s.start(1, Default::default()).accepted);
    (s, Log::default())
}

fn usage() -> Usage {
    Usage {
        rounds: 1,
        stop_reason: StopReason::Verified,
        evidence_tokens: 0,
        segments_omitted: 0,
        rejected_blocks: 0,
        duplicates_removed: 0,
        revision_of: None,
        degraded: Vec::<Degraded>::new(),
    }
}

fn segment(s: &Session, id: u64) -> ProjectedSegment {
    s.projection()
        .segments
        .into_iter()
        .find(|x| x.segment_id == id)
        .unwrap()
}

fn speaker(s: &Session, id: &str) -> ProjectedSpeaker {
    s.projection()
        .speakers
        .into_iter()
        .find(|x| x.speaker_id == id)
        .unwrap()
}

/// A source that gives what it was told to, poll by poll.
#[derive(Default)]
struct ScriptedSource {
    queue: Vec<Vec<TranscriptInput>>,
}

impl ScriptedSource {
    fn push(&mut self, batch: Vec<TranscriptInput>) {
        self.queue.push(batch);
    }
}

impl TranscriptSource for ScriptedSource {
    fn poll(&mut self, _window_ms: u64) -> Vec<TranscriptInput> {
        if self.queue.is_empty() {
            Vec::new()
        } else {
            self.queue.remove(0)
        }
    }
}

fn partial(id: u64, text: &str) -> TranscriptInput {
    TranscriptInput::Partial {
        segment_id: id,
        speaker_id: "s1".into(),
        text: text.into(),
        track: Track::System,
    }
}

fn final_(id: u64, text: &str) -> TranscriptInput {
    TranscriptInput::Final {
        segment_id: id,
        speaker_id: "s1".into(),
        text: text.into(),
        track: Track::System,
        audio_span: None,
    }
}

fn recording() -> Session {
    let mut s = Session::default();
    assert!(s.start(1, Default::default()).accepted);
    s.drain(0);
    s.take_journal();
    s
}

fn scripted(batches: Vec<Vec<TranscriptInput>>) -> Session {
    scripted_for(1, batches)
}

/// A source that gives its results only after the end.
struct LateSource {
    pending: Vec<TranscriptInput>,
    flushing: bool,
}

impl TranscriptSource for LateSource {
    fn poll(&mut self, _window_ms: u64) -> Vec<TranscriptInput> {
        if self.flushing {
            std::mem::take(&mut self.pending)
        } else {
            Vec::new()
        }
    }

    fn begin_flush(&mut self) {
        self.flushing = true;
    }

    fn drained(&self) -> bool {
        self.flushing && self.pending.is_empty()
    }
}

/// A source that notes what it was told.
#[derive(Default)]
struct PauseSpy(std::sync::Arc<std::sync::Mutex<Vec<bool>>>);

impl TranscriptSource for PauseSpy {
    fn poll(&mut self, _window_ms: u64) -> Vec<TranscriptInput> {
        Vec::new()
    }

    fn set_paused(&mut self, paused: bool) {
        self.0.lock().expect("spy").push(paused);
    }
}

fn stop_and_settle(s: &mut Session) -> CommandReceipt {
    let r = s.stop();
    s.tick(BATCH_MS);
    r
}

fn scripted_for(meeting: MeetingId, batches: Vec<Vec<TranscriptInput>>) -> Session {
    let mut src = ScriptedSource::default();
    for b in batches {
        src.push(b);
    }
    let mut s = Session::with_source(Box::new(src));
    assert!(s.start(meeting, Default::default()).accepted);
    s.drain(0);
    s
}

#[test]
fn test_partial_carries_no_seq_and_stays_out_of_the_log() {
    let mut s = scripted(vec![vec![partial(1, "測")]]);
    s.tick(100);
    let batch = s.drain(0);
    assert!(
        batch
            .events
            .iter()
            .any(|e| matches!(e, SessionEvent::TranscriptPartial { .. })),
        "應該有 partial"
    );
    assert!(batch
        .events
        .iter()
        .any(|e| matches!(e, SessionEvent::SpeakerProposed { .. })));
    assert_eq!(s.seq(), 2, "MeetingStateChanged 與 SpeakerProposed 各佔一個");
}

#[test]
fn test_finalized_segment_advances_seq_exactly_once() {
    let mut s = scripted(vec![vec![final_(1, "完成")]]);
    s.tick(100);
    assert_eq!(s.seq(), 3);
    s.attach_source(Box::new({
        let mut src = ScriptedSource::default();
        src.push(vec![final_(2, "第二句")]);
        src
    }));
    s.tick(200);
    assert_eq!(s.seq(), 4, "重複的語者不得再配發一個 seq");
}

#[test]
fn test_late_partial_cannot_rewrite_a_finalized_segment() {
    let mut s = scripted(vec![vec![final_(1, "定稿內容")], vec![partial(1, "遲到")]]);
    s.tick(100);
    s.drain(0);
    s.tick(200);
    let batch = s.drain(0);
    assert!(
        !batch
            .events
            .iter()
            .any(|e| matches!(e, SessionEvent::TranscriptPartial { .. })),
        "已定稿的片段不得再接受 partial"
    );
    assert_eq!(segment(&s, 1).text, "定稿內容");
}

#[test]
fn test_duplicate_final_does_not_allocate_a_second_seq() {
    let mut s = scripted(vec![vec![final_(1, "第一次")], vec![final_(1, "重送")]]);
    s.tick(100);
    let after_first = s.seq();
    s.tick(200);
    assert_eq!(s.seq(), after_first, "重複的 final 不得再配發 seq");
    assert_eq!(segment(&s, 1).text, "第一次");
}

#[test]
fn test_provider_final_cannot_overwrite_a_user_edit() {
    let mut s = scripted(vec![
        vec![final_(1, "原始內容")],
        vec![final_(1, "重連後的結果")],
    ]);
    s.tick(100);
    assert!(s.edit_transcript(1, "使用者改過的內容").accepted);
    s.tick(200);
    assert_eq!(
        segment(&s, 1).text, "使用者改過的內容",
        "Provider 的後到結果不得覆蓋使用者修訂"
    );
    assert_eq!(segment(&s, 1).origin, Origin::User);
    assert_eq!(segment(&s, 1).revision, 2);
}

#[test]
fn test_edit_rejects_unknown_segment() {
    let mut s = recording();
    let r = s.edit_transcript(999, "不存在的片段");
    assert!(!r.accepted);
    assert_eq!(s.seq(), 1, "被拒絕的命令不得配發 seq");
}

#[test]
fn test_pause_boundary_is_exact_not_sampled() {
    let mut s = recording();
    s.tick(100);
    s.settle(190);
    assert!(s.pause().accepted);
    assert_eq!(s.now().captured_audio_ms, 190);

    s.settle(690);
    assert_eq!(s.now().captured_audio_ms, 190);
    assert_eq!(s.now().meeting_time_ms, 690);

    assert!(s.resume().accepted);
    s.settle(790);
    assert_eq!(s.now().captured_audio_ms, 290);
}

#[test]
fn test_state_change_event_carries_the_transition_timestamps() {
    let mut s = recording();
    s.settle(250);
    s.pause();
    let batch = s.drain(0);
    let ev = batch
        .events
        .iter()
        .find(|e| matches!(e, SessionEvent::MeetingStateChanged { .. }))
        .expect("應有狀態事件");
    match ev {
        SessionEvent::MeetingStateChanged {
            meeting_time_ms,
            captured_audio_ms,
            ..
        } => {
            assert_eq!(*meeting_time_ms, 250);
            assert_eq!(*captured_audio_ms, 250);
        }
        _ => unreachable!(),
    }
}

#[test]
fn test_stop_while_paused_closes_the_pause_interval() {
    let mut s = recording();
    s.settle(100);
    s.pause();
    s.settle(400);
    s.stop();
    let open = s.projection().pauses.iter().filter(|p| p.to_ms.is_none()).count();
    assert_eq!(open, 0, "停止時暫停區間必須封口");
    assert_eq!(s.projection().pauses[0].from_ms, 100);
    assert_eq!(s.projection().pauses[0].to_ms, Some(400));
}

#[test]
fn test_paused_session_stops_capture_but_accepts_notes() {
    let mut s = recording();
    s.settle(100);
    s.pause();
    s.drain(0);

    let captured_before = s.now().captured_audio_ms;
    s.settle(600);
    assert_eq!(
        s.now().captured_audio_ms, captured_before,
        "暫停期間不得推進錄音位置"
    );
    assert!(
        s.now().meeting_time_ms > captured_before,
        "會議時間軸含暫停，仍須前進"
    );

    let r = s.add_note("暫停中也能記");
    assert!(r.accepted, "暫停的是擷取，不是文件工作");
    assert_eq!(s.projection().notes.len(), 1);
}

#[test]
fn test_health_events_are_emitted_while_paused() {
    let mut s = recording();
    s.settle(100);
    s.pause();
    s.drain(0);
    s.inject_fault("micLost");
    s.tick(200);
    let batch = s.drain(0);
    assert!(
        batch.events.iter().any(|e| matches!(
            e,
            SessionEvent::TrackActivity {
                mic_health: Health::Lost,
                ..
            }
        )),
        "暫停期間仍必須看得到健康狀態變化"
    );
    assert_eq!(batch.state, MeetingState::Paused, "健康變化不改變生命週期");
}

#[test]
fn test_stt_outage_keeps_recording_and_produces_no_transcript() {
    let mut s = scripted(vec![vec![final_(1, "不該出現")]]);
    s.inject_fault("sttDown");
    s.tick(400);
    let batch = s.drain(0);
    assert_eq!(
        batch.state,
        MeetingState::Recording,
        "STT 斷線不改變會議狀態"
    );
    assert!(batch.captured_audio_ms > 0, "錄音仍在前進");
    assert!(
        !batch
            .events
            .iter()
            .any(|e| matches!(e, SessionEvent::TranscriptFinalized { .. })),
        "斷線期間不產生逐字稿"
    );
}

#[test]
fn test_commands_are_rejected_outside_a_live_meeting() {
    let mut s = Session::default();
    assert!(!s.add_note("尚未開始").accepted);
    assert!(!s.create_snapshot("").0.accepted);
    assert!(!s.confirm_speaker("s1", "某人").accepted);
    assert_eq!(s.seq(), 0, "被拒絕的命令不得配發 seq");

    s.start(1, Default::default());
    stop_and_settle(&mut s);
    assert_eq!(s.state(), MeetingState::Completed);
    assert!(!s.add_note("已結束").accepted);
    assert!(
        !s.start(1, Default::default()).accepted,
        "結束後不得沿用同一個 Session 重新開始"
    );
}

#[test]
fn test_words_still_being_transcribed_when_stop_is_pressed_still_land() {
    let mut s = Session::default();
    assert!(s.start(1, Default::default()).accepted);
    s.attach_source(Box::new(LateSource {
        pending: vec![TranscriptInput::Final {
            segment_id: 1,
            speaker_id: "s1".into(),
            text: "那今天就先到這裡，謝謝大家。".into(),
            track: Track::System,
            audio_span: Some((1_000, 4_000)),
        }],
        flushing: false,
    }));
    s.drain(0);
    s.take_journal();

    stop_and_settle(&mut s);

    let landed = s.drain(0).events.iter().any(|e| {
        matches!(
            e,
            SessionEvent::TranscriptFinalized { text, .. } if text.contains("謝謝大家")
        )
    });
    assert!(landed, "按下結束前講的最後一句消失了");
    assert_eq!(s.state(), MeetingState::Completed);
}

#[test]
fn test_the_meeting_waits_in_finalizing_until_the_source_is_drained() {
    let mut s = Session::default();
    assert!(s.start(1, Default::default()).accepted);
    s.attach_source(Box::new(LateSource {
        pending: vec![TranscriptInput::Final {
            segment_id: 1,
            speaker_id: "s1".into(),
            text: "結語".into(),
            track: Track::System,
            audio_span: Some((1_000, 2_000)),
        }],
        flushing: false,
    }));
    s.stop();
    assert_eq!(s.state(), MeetingState::Finalizing, "stop 不該直接跳到結束");
}

#[test]
fn test_a_summary_can_still_be_created_after_the_meeting_ends() {
    let mut s = recording();
    stop_and_settle(&mut s);
    assert_eq!(s.state(), MeetingState::Completed);

    let (receipt, work) = s.create_snapshot("整理今天的決議");
    assert!(receipt.accepted, "開完會之後就按不出摘要了");
    assert!(work.is_some(), "沒有實際排入生成工作");
}

#[test]
fn test_an_idle_session_has_nothing_to_summarise() {
    let mut s = Session::default();
    assert!(!s.create_snapshot("整理重點").0.accepted);
}

#[test]
fn test_a_generation_still_running_gets_a_verdict_before_the_session_is_replaced() {
    let mut s = recording();
    assert!(s.create_snapshot("整理重點").0.accepted);
    s.drain(0);
    s.take_journal();

    s.abandon_running_generations();

    let failed = s.take_journal().iter().any(|(e, _)| {
        matches!(
            e,
            DomainEvent::GenerationFailed { reason, .. } if reason.contains("開了新會議")
        )
    });
    assert!(failed, "進行中的生成沒有被收尾，會永遠停在生成中");
}

#[test]
fn test_finished_generations_are_left_alone() {
    let mut s = recording();
    assert!(s.create_snapshot("整理重點").0.accepted);
    s.finish_generation(1, Ok((Vec::new(), usage())));
    s.drain(0);
    s.take_journal();

    s.abandon_running_generations();

    assert!(s.take_journal().is_empty(), "已完成的生成被重複收尾了");
}

#[test]
fn test_events_that_failed_to_persist_are_kept_for_the_next_attempt() {
    let mut s = recording();
    s.add_note("這句不能掉");
    let batch = s.take_journal();
    assert!(!batch.is_empty(), "測試前提不成立：應該要有待寫入的事件");
    let n = batch.len();

    s.journal_failed("磁碟已滿".into(), batch);

    assert_eq!(s.take_journal().len(), n, "失敗的那批事件被丟掉了");
}

#[test]
fn test_a_retried_batch_stays_ahead_of_newer_events() {
    let mut s = recording();
    s.add_note("先講的");
    let first = s.take_journal();
    s.add_note("後講的");

    s.journal_failed("磁碟已滿".into(), first);

    let all = s.take_journal();
    let texts: Vec<&str> = all
        .iter()
        .filter_map(|(e, _)| match e {
            DomainEvent::NoteAdded { text, .. } => Some(text.as_str()),
            _ => None,
        })
        .collect();
    assert_eq!(texts, vec!["先講的", "後講的"], "重試把事件順序弄亂了");
}

#[test]
fn test_the_write_error_banner_clears_only_after_a_successful_flush() {
    let mut s = recording();
    s.journal_failed("磁碟已滿".into(), Vec::new());
    assert!(s.journal_error().is_some());
    s.journal_recovered();
    assert!(s.journal_error().is_none());
}

#[test]
fn test_pausing_actually_tells_the_audio_source_to_stop() {
    let mut s = Session::default();
    assert!(s.start(1, Default::default()).accepted);
    let toggles = std::sync::Arc::new(std::sync::Mutex::new(Vec::new()));
    s.attach_source(Box::new(PauseSpy(toggles.clone())));

    assert!(s.pause().accepted);
    assert!(s.resume().accepted);
    assert!(s.pause().accepted);

    assert!(!s.pause().accepted);

    assert_eq!(*toggles.lock().expect("spy"), vec![true, false, true]);
}

#[test]
fn test_stop_walks_through_finalizing() {
    let mut s = recording();
    stop_and_settle(&mut s);
    let batch = s.drain(0);
    let states: Vec<MeetingState> = batch
        .events
        .iter()
        .filter_map(|e| match e {
            SessionEvent::MeetingStateChanged { state, .. } => Some(*state),
            _ => None,
        })
        .collect();
    assert_eq!(
        states,
        vec![
            MeetingState::Stopping,
            MeetingState::Finalizing,
            MeetingState::Completed
        ]
    );
}

#[test]
fn test_batch_exposes_the_previous_high_seq_for_gap_detection() {
    let mut s = recording();
    s.add_note("第一筆");
    let first = s.drain(0);
    assert_eq!(first.prev_high_seq, 0);
    let high = first.last_seq.unwrap();

    s.add_note("第二筆");
    let second = s.drain(high);
    assert_eq!(second.prev_high_seq, high);
    assert_eq!(
        second.first_seq,
        Some(high + 1),
        "連續批次的 seq 必須銜接，UI 才能靠它偵測缺號"
    );
}

#[test]
fn test_a_snapshot_carries_this_rounds_prompt_out_to_the_ui() {
    let mut s = recording();
    s.create_snapshot("整理成決議清單");
    assert_eq!(s.projection().snapshots[0].prompt, "整理成決議清單");
    assert!(
        s.drain(0)
            .events
            .iter()
            .any(|e| matches!(e, SessionEvent::SnapshotCreated { prompt, .. } if prompt == "整理成決議清單")),
        "事件裡沒有帶上本輪要求"
    );
}

#[test]
fn test_a_new_version_revises_the_last_successful_one() {
    let mut s = recording();
    assert_eq!(
        s.create_snapshot("").1.unwrap().revise_of,
        None,
        "第一版沒有前一版"
    );

    s.finish_generation(1, Ok((Vec::new(), usage())));
    assert_eq!(s.create_snapshot("").1.unwrap().revise_of, Some(1));

    s.finish_generation(2, Err("失敗".into()));
    assert_eq!(
        s.create_snapshot("").1.unwrap().revise_of,
        Some(1),
        "拿失敗的版本當基礎了"
    );
}

#[test]
fn test_snapshot_cursor_excludes_events_after_it() {
    let mut s = recording();
    s.add_note("快照前");
    let (receipt, version) = s.create_snapshot("");
    assert!(receipt.accepted);
    assert_eq!(version.map(|w| w.version), Some(1));
    let through = s.projection().snapshots[0].through_event_seq;

    s.add_note("快照後");
    assert!(s.seq() > through, "快照之後仍持續產生決定性事件");
    assert_eq!(
        s.projection().snapshots[0].through_event_seq, through,
        "游標不得被之後的事件改動"
    );
}

#[test]
fn test_projection_reflects_committed_state_for_resync() {
    let mut s = scripted(vec![vec![final_(1, "第一句")]]);
    s.tick(100);
    s.add_note("一筆筆記");
    s.create_snapshot("");

    let p = s.projection();
    assert_eq!(p.segments.len(), 1);
    assert_eq!(p.segments[0].text, "第一句");
    assert_eq!(p.notes.len(), 1);
    assert_eq!(p.snapshots.len(), 1);
    assert_eq!(p.state, MeetingState::Recording);
    assert_eq!(p.seq, s.seq());
}


#[test]
fn test_every_decisive_event_reaches_the_event_log() {
    let (mut s, mut store) = with_log();
    s.tick(100);
    s.add_note("記一筆");
    s.confirm_speaker("s1", "小明");
    s.stop();

    let seqs = store.append(s.take_journal());
    assert_eq!(seqs.last().copied(), Some(s.seq()));
    assert_eq!(seqs.len() as u64, s.seq());
    assert_eq!(store.events.len() as u64, s.seq());
}

#[test]
fn test_partials_never_reach_the_event_log() {
    let mut store = Log::default();
    let m = 1;
    let mut s = scripted_for(
        m,
        vec![
            vec![partial(1, "一")],
            vec![partial(1, "一二")],
            vec![partial(1, "一二三")],
            vec![final_(1, "一二三")],
        ],
    );
    for i in 1..=4 {
        s.tick(i * 100);
    }
    store.append(s.take_journal());

    let kinds: Vec<_> = store
        .events
        .iter()
        .map(|(_, e, _)| e.kind())
        .collect();
    assert_eq!(
        kinds,
        vec![
            "MeetingStateChanged",
            "SpeakerProposed",
            "TranscriptSegmentFinalized"
        ]
    );
}

#[test]
fn test_a_reopened_meeting_shows_what_was_recorded() {
    let mut store = Log::default();
    let m = 1;
    let mut s = scripted_for(
        m,
        vec![vec![partial(1, "重點")], vec![final_(1, "重點內容")]],
    );
    s.tick(100);
    s.tick(200);
    s.add_note("待辦：回報進度");
    s.edit_transcript(1, "使用者修正過的重點內容");
    stop_and_settle(&mut s);
    store.append(s.take_journal());

    let d = store.meeting();
    assert_eq!(d.state, MeetingState::Completed);
    assert_eq!(d.segments.len(), 1);
    assert_eq!(d.segments[0].text, "使用者修正過的重點內容");
    assert_eq!(d.segments[0].revision, 2);
    assert!(d.segments[0].user_edited);
    assert_eq!(d.notes.len(), 1);
    assert_eq!(d.notes[0].text, "待辦：回報進度");
    assert!(d.started && d.ended);
}

#[test]
fn test_a_journal_failure_rejects_every_command_that_would_create_events() {
    let (mut s, _store) = with_log();
    s.journal_failed("磁碟已滿".into(), Vec::new());
    for r in [
        s.add_note("記一筆"),
        s.confirm_speaker("s1", "小明"),
        s.edit_transcript(1, "改一下"),
        s.create_snapshot("").0,
    ] {
        assert!(!r.accepted, "日誌寫不進去時不得假裝命令成功");
        assert!(r.note.unwrap().contains("無法寫入本機資料庫"));
    }
}

#[test]
fn test_finalized_segment_records_the_interval_it_was_spoken_in() {
    let mut store = Log::default();
    let m = 1;
    let mut s = scripted_for(
        m,
        vec![vec![partial(1, "開")], vec![], vec![final_(1, "開始說話")]],
    );
    s.tick(100);
    s.tick(200);
    s.tick(300);
    store.append(s.take_journal());

    let ev = store
        .events
        .into_iter()
        .find_map(|(_, e, _)| match e {
            DomainEvent::TranscriptSegmentFinalized { segment } => Some(segment),
            _ => None,
        })
        .expect("沒有寫入定稿事件");
    assert_eq!(ev.meeting_start_ms, 100);
    assert_eq!(ev.meeting_end_ms, 300);
    assert!(ev.captured_end_ms > ev.captured_start_ms);
    assert_eq!(ev.track, Track::System);
}


fn replay(id: u64, text: &str) -> TranscriptInput {
    TranscriptInput::Final {
        segment_id: id,
        speaker_id: "s1".into(),
        text: text.into(),
        track: Track::System,
        audio_span: None,
    }
}

#[test]
fn test_a_replayed_interval_with_the_same_text_creates_no_second_segment() {
    let mut store = Log::default();
    let m = 1;
    let mut s = scripted_for(
        m,
        vec![
            vec![replay(1, "報價要分三項")],
            vec![replay(77, "報價要分三項")],
        ],
    );
    s.tick(100);
    s.tick(100);
    store.append(s.take_journal());

    let d = store.meeting();
    assert_eq!(d.segments.len(), 1, "重播的音訊長出了第二個片段");
    assert_eq!(d.segments[0].revision, 1);
}

#[test]
fn test_a_replayed_interval_with_different_text_becomes_a_revision() {
    let mut store = Log::default();
    let m = 1;
    let mut s = scripted_for(
        m,
        vec![
            vec![replay(1, "報價要分三項")],
            vec![replay(77, "報價要分三項，含維運")],
        ],
    );
    s.tick(100);
    s.tick(100);
    store.append(s.take_journal());

    let d = store.meeting();
    assert_eq!(d.segments.len(), 1);
    assert_eq!(d.segments[0].revision, 2);
    assert_eq!(d.segments[0].text, "報價要分三項，含維運");
}

#[test]
fn test_a_replayed_interval_cannot_overwrite_a_user_edit() {
    let mut store = Log::default();
    let m = 1;
    let mut s = scripted_for(
        m,
        vec![
            vec![replay(1, "報價要分三項")],
            vec![],
            vec![replay(77, "Provider 重連後的版本")],
        ],
    );
    s.tick(100);
    s.edit_transcript(1, "使用者改過的內容");
    s.tick(200);
    s.tick(300);
    store.append(s.take_journal());

    let d = store.meeting();
    assert_eq!(d.segments[0].text, "使用者改過的內容");
    assert!(d.segments[0].user_edited);
}

#[test]
fn test_different_intervals_stay_separate_segments() {
    let mut store = Log::default();
    let m = 1;
    let mut s = scripted_for(
        m,
        vec![vec![replay(1, "第一句")], vec![], vec![replay(2, "第二句")]],
    );
    s.tick(100);
    s.tick(200);
    s.tick(300);
    store.append(s.take_journal());
    assert_eq!(store.meeting().segments.len(), 2);
}

#[test]
fn test_a_journal_failure_is_announced_in_the_next_batch() {
    let (mut s, _store) = with_log();
    s.tick(100);
    s.drain(0);
    s.journal_failed("磁碟已滿".into(), Vec::new());
    let seq = s.seq();
    let batch = s.drain(seq);
    assert_eq!(batch.journal_error.as_deref(), Some("磁碟已滿"));
}

#[test]
fn test_the_first_journal_failure_is_the_one_reported() {
    let (mut s, _store) = with_log();
    s.journal_failed("磁碟已滿".into(), Vec::new());
    s.journal_failed("資料庫連線狀態已損毀".into(), Vec::new());
    assert_eq!(s.drain(0).journal_error.as_deref(), Some("磁碟已滿"));
}

#[test]
fn test_a_finished_meeting_is_no_longer_active() {
    let (mut s, _store) = with_log();
    let m = 1;
    assert_eq!(s.active_meeting_id(), Some(m));
    s.pause();
    assert_eq!(s.active_meeting_id(), Some(m), "暫停中的會議仍在進行");
    stop_and_settle(&mut s);
    assert_eq!(s.active_meeting_id(), None);
    assert_eq!(s.meeting_id(), Some(m));
}


#[test]
fn test_a_speaker_is_proposed_before_it_can_be_confirmed() {
    let mut store = Log::default();
    let m = 1;
    let mut s = scripted_for(m, vec![vec![final_(1, "我先講")]]);
    s.tick(100);
    assert!(s.confirm_speaker("s1", "小明").accepted);
    store.append(s.take_journal());

    let d = store.meeting();
    assert_eq!(d.speakers.len(), 1);
    assert_eq!(d.speakers[0].speaker_id, "s1");
    assert_eq!(d.speakers[0].confirmed_name.as_deref(), Some("小明"));
    assert_eq!(d.speakers[0].ordinal, 1);
}

#[test]
fn test_confirming_a_speaker_nobody_has_heard_is_rejected() {
    let mut s = recording();
    let r = s.confirm_speaker("ghost", "誰");
    assert!(!r.accepted);
    assert!(r.note.unwrap().contains("尚未聽到"));
}

#[test]
fn test_speakers_are_numbered_in_order_of_first_appearance() {
    let mut s = scripted(vec![
        vec![TranscriptInput::Final {
            segment_id: 1,
            speaker_id: "b".into(),
            text: "先".into(),
            track: Track::System,
            audio_span: None,
        }],
        vec![TranscriptInput::Final {
            segment_id: 2,
            speaker_id: "a".into(),
            text: "後".into(),
            track: Track::Mic,
            audio_span: None,
        }],
    ]);
    s.tick(100);
    s.tick(200);
    assert_eq!(speaker(&s, "b").ordinal, 1);
    assert_eq!(speaker(&s, "a").ordinal, 2);
    assert_eq!(speaker(&s, "a").track, Track::Mic);
}

#[test]
fn test_a_proposed_speaker_carries_its_track_to_the_ui() {
    let mut s = scripted(vec![vec![TranscriptInput::Final {
        segment_id: 1,
        speaker_id: "me".into(),
        text: "我說的".into(),
        track: Track::Mic,
        audio_span: None,
    }]]);
    s.tick(100);
    let batch = s.drain(0);
    let proposed = batch
        .events
        .iter()
        .find_map(|e| match e {
            SessionEvent::SpeakerProposed { track, .. } => Some(*track),
            _ => None,
        })
        .expect("沒有提出語者");
    assert_eq!(proposed, Track::Mic);
}

#[test]
fn test_the_round_prompt_is_stored_with_the_version() {
    let mut s = recording();
    let (receipt, snapshot) = s.create_snapshot("只列出待確認事項");
    assert!(receipt.accepted);
    assert!(snapshot.is_some());

    let journal = s.take_journal();
    let stored = journal
        .iter()
        .find_map(|(e, _)| match e {
            DomainEvent::SnapshotCreated { prompt, .. } => Some(prompt.clone()),
            _ => None,
        })
        .expect("日誌裡應該有快照事件");
    assert_eq!(stored, "只列出待確認事項");
}

#[test]
fn test_a_snapshot_without_a_prompt_stores_an_empty_one() {
    let mut s = recording();
    s.create_snapshot("");
    let journal = s.take_journal();
    let stored = journal
        .iter()
        .find_map(|(e, _)| match e {
            DomainEvent::SnapshotCreated { prompt, .. } => Some(prompt.clone()),
            _ => None,
        })
        .expect("日誌裡應該有快照事件");
    assert!(stored.is_empty());
}

#[test]
fn test_a_deduped_replay_does_not_leave_a_phantom_speaker() {
    let mut store = Log::default();
    let m = 1;
    let mut s = scripted_for(
        m,
        vec![
            vec![TranscriptInput::Final {
                segment_id: 1,
                speaker_id: "spk_0".into(),
                text: "報價要分三項".into(),
                track: Track::System,
                audio_span: None,
            }],
            vec![TranscriptInput::Final {
                segment_id: 77,
                speaker_id: "spk_9".into(),
                text: "報價要分三項".into(),
                track: Track::System,
                audio_span: None,
            }],
        ],
    );
    s.tick(100);
    s.tick(100);
    let batch = s.take_journal();
    store.append(batch);

    let d = store.meeting();
    assert_eq!(d.segments.len(), 1, "重播的音訊長出了第二個片段");
    assert_eq!(
        d.speakers.len(),
        1,
        "被去重丟掉的重播留下了一個不存在的語者：{:?}",
        d.speakers
    );
    assert_eq!(d.speakers[0].speaker_id, "spk_0");
}

#[test]
fn the_far_end_as_a_whole_takes_no_name() {
    let mut s = scripted(vec![vec![TranscriptInput::Final {
        segment_id: 1,
        speaker_id: UNKNOWN_REMOTE.into(),
        text: "聽不出是誰".into(),
        track: Track::System,
        audio_span: None,
    }]]);
    s.tick(100);
    let r = s.confirm_speaker(UNKNOWN_REMOTE, "小明");
    assert!(!r.accepted);
    assert!(speaker(&s, UNKNOWN_REMOTE).confirmed_name.is_none());
}

#[test]
fn speakers_can_be_named_after_the_end() {
    let mut s = scripted(vec![vec![final_(1, "我先講")]]);
    s.tick(100);
    stop_and_settle(&mut s);
    assert!(s.confirm_speaker("s1", " 小明 ").accepted);
    assert_eq!(speaker(&s, "s1").confirmed_name.as_deref(), Some("小明"));
    assert!(!s.confirm_speaker("s1", "  ").accepted);
}

#[test]
fn a_partial_does_not_undo_a_user_edit() {
    let mut s = scripted(vec![vec![partial(1, "草")], vec![partial(1, "草稿")]]);
    s.tick(100);
    assert!(s.edit_transcript(1, "使用者的話").accepted);
    s.tick(200);
    assert_eq!(segment(&s, 1).text, "使用者的話");
}

#[test]
fn every_fault_does_what_it_says() {
    let mut s = recording();
    for kind in ["micLost", "micRestored", "sttDown", "sttUp"] {
        assert!(s.inject_fault(kind).accepted, "{kind}");
    }
    assert_eq!(s.seq(), 1);
    assert!(s.inject_fault("generationFailed").accepted);
    let p = s.projection();
    assert_eq!((p.snapshots.len(), p.snapshots[0].state), (1, "failed"));
    assert_eq!(s.inject_fault("x").note.as_deref(), Some("未知的注入類型"));
    let mut idle = Session::default();
    assert!(!idle.inject_fault("generationFailed").accepted);
}

#[test]
fn the_built_in_script_is_played_to_its_end_and_once() {
    let mut s = recording();
    let mut now = 0;
    for _ in 0..800 {
        now += 100;
        s.tick(now);
    }
    let p = s.projection();
    assert_eq!(p.segments.len(), 11);
    assert_eq!(segment(&s, 1001).text, "首頁我們希望案例可以往上拉，現在要滑三屏才看得到。");
    assert_eq!(segment(&s, 1011).text, "下次麻煩直接帶頁面清單來對，不要只有口頭描述。");
    assert_eq!(speaker(&s, "me").track, Track::Mic);
    assert_eq!(speaker(&s, "s2").track, Track::System);
    let seq = s.seq();
    s.tick(now + 100);
    assert_eq!(s.seq(), seq);
}

#[test]
fn time_in_parts_is_time_at_once() {
    let mut a = recording();
    let mut b = recording();
    a.settle(130);
    a.settle(500);
    b.settle(500);
    assert_eq!(a.now(), b.now());
    b.settle(400);
    assert_eq!(b.now().meeting_time_ms, 500, "時鐘往回走不得倒扣");
}

#[test]
fn refused_commands_say_why_and_change_nothing() {
    let mut s = recording();
    let before = s.seq();
    for (r, words) in [
        (s.add_note(" \n"), "筆記內容為空"),
        (s.resume(), "目前不在暫停狀態"),
        (s.start(2, Default::default()), "會議已在進行中"),
    ] {
        assert_eq!((r.accepted, r.seq, r.note.as_deref()), (false, None, Some(words)));
    }
    assert_eq!((s.seq(), s.meeting_id()), (before, Some(1)));
    assert!(s.take_journal().is_empty());
}

#[test]
fn a_summary_does_not_disturb_the_recording() {
    let mut s = scripted(vec![vec![final_(1, "第一句")]]);
    s.tick(100);
    let before = s.projection();
    let work = s.create_snapshot("").1.unwrap();
    s.finish_generation(work.version, Ok((Vec::new(), usage())));
    let after = s.projection();
    assert_eq!((before.state, before.captured_audio_ms), (after.state, after.captured_audio_ms));
    assert_eq!(before.segments, after.segments);
    assert_eq!(after.seq, before.seq + 2);
}
