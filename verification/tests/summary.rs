//! Summaries of meetings that go on and of meetings that have ended.

use openmeetnote::agent::{DraftRequest, Planner};
use openmeetnote::cli_planner::{AgentName, AgentNames, CliKind};
use openmeetnote::cursor::{content_events_after, EventRow, SegmentRow};
use openmeetnote::document::{Block, BlockContent, BlockKind, ALL_BLOCK_KINDS};
use openmeetnote::events::{DomainEvent, TranscriptInput, TranscriptSource};
use openmeetnote::evidence::{AgentError, ReadSnapshot};
use openmeetnote::fixture::FixturePlanner;
use openmeetnote::model::{ClaimKind, Origin, Timeline, Track};
use openmeetnote::schema::{pending_migrations, TooNew, SCHEMA_VERSION};
use openmeetnote::session::Session;
use openmeetnote::session_model::{IdSeeds, SnapshotWork};
use openmeetnote::store::{
    DocumentBlock, EvidenceText, RunBlock, StoredNote, StoredRun, StoredSegment,
};
use openmeetnote::summary::{
    capture_refusal, check_idle, check_past, checked_title, choose_planner, completed_document,
    creation_refusal, export_name, find_run, find_version, new_title, plan_past, produce,
    stored_rows, title_at, Capture, PastAction, PastEvent, PastSummary, PlannerChoice,
    PoisonedSession, Pump, POISONED_NOTE,
};

/// A generation as the log tells it.
struct LoggedRun {
    run_id: i64,
    document_id: i64,
    parent_run_id: Option<i64>,
    version_no: u32,
    status: String,
    prompt: String,
    through_event_seq: u64,
    failure_reason: Option<String>,
    rows: Vec<DocumentBlock>,
    contents: Vec<BlockContent>,
}

/// The log of one meeting.
#[derive(Default)]
struct Log {
    events: Vec<(DomainEvent, Timeline)>,
    contents: Vec<Vec<BlockContent>>,
}

impl Log {
    fn append(&mut self, batch: Vec<(DomainEvent, Timeline)>) {
        self.events.extend(batch);
    }

    fn high_seq(&self) -> u64 {
        self.events.len() as u64
    }

    fn content_events_after(&self, through: u64) -> u64 {
        let rows: Vec<EventRow> = (1..)
            .zip(&self.events)
            .map(|(seq, (e, _))| EventRow { seq, kind: e.kind().to_owned() })
            .collect();
        content_events_after(&rows, through)
    }

    fn runs(&self) -> Vec<LoggedRun> {
        let mut runs: Vec<LoggedRun> = vec![];
        let mut finished = self.contents.iter();
        for (e, _) in &self.events {
            match e {
                DomainEvent::SnapshotCreated {
                    document_id,
                    run_id,
                    parent_run_id,
                    version_no,
                    through_event_seq,
                    prompt,
                    ..
                } => runs.push(LoggedRun {
                    run_id: *run_id,
                    document_id: *document_id,
                    parent_run_id: *parent_run_id,
                    version_no: *version_no,
                    status: "running".into(),
                    prompt: prompt.clone(),
                    through_event_seq: *through_event_seq,
                    failure_reason: None,
                    rows: vec![],
                    contents: vec![],
                }),
                DomainEvent::GenerationCompleted { run_id, blocks, .. } => {
                    let contents = finished.next().cloned_list();
                    for r in runs.iter_mut().filter(|r| r.run_id == *run_id) {
                        r.status = "completed".into();
                        r.rows = blocks.iter().map(copy_row).collect();
                        r.contents = contents.iter().map(|c| c.clone()).collect();
                    }
                }
                DomainEvent::GenerationFailed { run_id, reason } => {
                    for r in runs.iter_mut().filter(|r| r.run_id == *run_id) {
                        r.status = "failed".into();
                        r.failure_reason = Some(reason.clone());
                    }
                }
                _ => {}
            }
        }
        runs
    }

    fn stored_runs(&self) -> Vec<StoredRun> {
        self.runs()
            .into_iter()
            .map(|r| StoredRun {
                run_id: r.run_id,
                version_no: r.version_no,
                status: r.status,
                blocks: r
                    .rows
                    .into_iter()
                    .zip(r.contents)
                    .map(|(row, content)| RunBlock { row, content: Some(content) })
                    .collect(),
            })
            .collect()
    }

    /// All that has been recorded.
    fn snapshot(&self) -> ReadSnapshot {
        let mut s = ReadSnapshot {
            segments: vec![],
            notes: vec![],
            speakers: vec![],
            evidence: vec![],
            runs: self.stored_runs(),
        };
        for (i, (e, at)) in self.events.iter().enumerate() {
            let seq = i as u64 + 1;
            match e {
                DomainEvent::TranscriptSegmentFinalized { segment } => {
                    s.segments.push(SegmentRow {
                        created_event_seq: seq,
                        segment: StoredSegment {
                            segment_id: segment.segment_id,
                            revision: segment.revision,
                            origin: Origin::Provider,
                            speaker_id: segment.speaker_id.clone(),
                            text: segment.text.clone(),
                            track: segment.track,
                            meeting_start_ms: segment.meeting_start_ms,
                            meeting_end_ms: segment.meeting_end_ms,
                            user_edited: false,
                        },
                    });
                    s.evidence.push(EvidenceText {
                        source_kind: "transcript_segment".into(),
                        source_id: segment.segment_id.to_string(),
                        source_revision: segment.revision,
                        text: segment.text.clone(),
                        created_event_seq: seq,
                    });
                }
                DomainEvent::NoteAdded { note_id, text } => s.notes.push(StoredNote {
                    note_id: *note_id,
                    text: text.clone(),
                    meeting_time_ms: at.meeting_time_ms,
                    captured_audio_ms: at.captured_audio_ms,
                    event_seq: seq,
                }),
                _ => {}
            }
        }
        s
    }
}

trait ClonedList {
    fn cloned_list(self) -> Vec<BlockContent>;
}

impl ClonedList for Option<&Vec<BlockContent>> {
    fn cloned_list(self) -> Vec<BlockContent> {
        self.map(|l| l.iter().map(|c| c.clone()).collect()).unwrap_or_default()
    }
}

fn copy_row(b: &DocumentBlock) -> DocumentBlock {
    DocumentBlock {
        position: b.position,
        kind: b.kind.clone(),
        claim_kind: b.claim_kind,
        content: b.content.clone(),
        source_refs: b.source_refs.iter().map(|r| r.clone()).collect(),
    }
}

fn names() -> AgentNames {
    AgentNames {
        claude: AgentName { id: "agent-one".into(), label: "Agent One".into(), exe: "one".into() },
        codex: AgentName { id: "codex".into(), label: "Codex CLI".into(), exe: "codex".into() },
    }
}

fn rows(log: &mut Log, blocks: &Vec<Block>) -> Vec<DocumentBlock> {
    log.contents.push(blocks.iter().map(|b| b.content.clone()).collect());
    let contents = blocks
        .iter()
        .map(|b| Some(serde_json::Value::from(b.content.plain_text()).to_string()))
        .collect();
    stored_rows(blocks, contents)
}

struct OneLine(Vec<TranscriptInput>);

impl TranscriptSource for OneLine {
    fn poll(&mut self, _window_ms: u64) -> Vec<TranscriptInput> {
        std::mem::take(&mut self.0)
    }
}

fn final_(id: u64, text: &str) -> TranscriptInput {
    TranscriptInput::Final {
        segment_id: id,
        speaker_id: "s1".into(),
        text: text.into(),
        track: Track::System,
        audio_span: None,
    }
}

fn heard() -> Session {
    let line = final_(1, "報價要拆成設計、開發、維運三項");
    let mut s = Session::with_source(Box::new(OneLine(vec![line])));
    assert!(s.start(1, Default::default()).accepted);
    s.tick(100);
    s
}

fn ready_to_generate() -> (Session, Log, SnapshotWork) {
    let mut s = heard();
    let (receipt, snap) = s.create_snapshot("");
    assert!(receipt.accepted);
    let mut log = Log::default();
    log.append(s.take_journal());
    (s, log, snap.unwrap())
}

/// Generates a version of a meeting that goes on.
fn run_generation<P: Planner>(
    session: &mut Session,
    log: &mut Log,
    planner: &mut P,
    work: SnapshotWork,
    prompt: &str,
    meanwhile: Vec<(DomainEvent, Timeline)>,
) {
    let view = log.snapshot();
    let produced = produce(&view, 1, work, prompt, Some("[]"), planner);
    log.append(meanwhile);
    let outcome = produced.map(|r| {
        let n = log.content_events_after(work.through);
        let (blocks, usage) = completed_document(r, n, work.revise_of);
        (rows(log, &blocks), usage)
    });
    session.finish_generation(work.version, outcome);
    log.append(session.take_journal());
}

/// Generates a version of a meeting that has ended.
fn summarize_past_meeting(log: &mut Log, provider: &str, prompt: &str) -> Result<u32, String> {
    let runs = log.stored_runs();
    let logged = log.runs();
    let seeds = IdSeeds {
        document_id: logged.iter().map(|r| r.document_id).max().unwrap_or(0),
        run_id: logged.iter().map(|r| r.run_id).max().unwrap_or(0),
    };
    let plan = plan_past(&runs, seeds, logged.first().map(|r| r.document_id), log.high_seq());
    let (mut state, mut action) = PastSummary::start(plan, prompt);
    loop {
        let event = match action {
            PastAction::Write(e) => {
                log.append(vec![(e, Timeline::new(0, 0))]);
                PastEvent::Wrote(Ok(()))
            }
            PastAction::Choose => {
                PastEvent::Chosen(choose_planner(Some(provider), &names(), false, false))
            }
            PastAction::Generate(_) => {
                let view = log.snapshot();
                let mut p = FixturePlanner;
                PastEvent::Produced(produce(&view, 1, plan.work, prompt, Some("[]"), &mut p))
            }
            PastAction::Count => {
                PastEvent::Counted(Ok(log.content_events_after(plan.work.through)))
            }
            PastAction::MakeRows(blocks) => PastEvent::Rows(rows(log, &blocks)),
            PastAction::End(r) => return r,
        };
        let next = state.step(event, &names());
        state = next.0;
        action = next.1;
    }
}

fn a_finished_meeting() -> Log {
    let mut s = heard();
    s.stop();
    s.tick(200);
    let mut log = Log::default();
    log.append(s.take_journal());
    log
}

fn run_of(log: &Log, version: u32) -> LoggedRun {
    log.runs().into_iter().find(|r| r.version_no == version).unwrap()
}

#[test]
fn test_a_finished_meeting_can_be_summarized_without_a_live_session() {
    let mut log = a_finished_meeting();
    let version = summarize_past_meeting(&mut log, "fixture", "整理重點").expect("生成失敗");
    assert_eq!(version, 1);
    let run = run_of(&log, 1);
    assert_eq!(run.status, "completed");
    assert_eq!(run.prompt, "整理重點", "本輪要求沒有跟著版本存下來");
    assert!(!run.rows.is_empty(), "沒有寫入區塊");
}

#[test]
fn test_a_second_summary_of_a_finished_meeting_revises_the_first() {
    let mut log = a_finished_meeting();
    assert_eq!(summarize_past_meeting(&mut log, "fixture", "").unwrap(), 1);
    assert_eq!(summarize_past_meeting(&mut log, "fixture", "補上決議").unwrap(), 2);
    let runs = log.runs();
    assert_eq!(runs.len(), 2);
    assert_eq!(runs[0].document_id, runs[1].document_id);
    assert!(runs.iter().all(|r| r.status == "completed"));
    assert_eq!(runs[1].parent_run_id, Some(runs[0].run_id));
}

#[test]
fn test_a_failed_summary_of_a_finished_meeting_still_lands_in_the_database() {
    let mut log = a_finished_meeting();
    let err = summarize_past_meeting(&mut log, "這支 CLI 不存在", "").expect_err("應該失敗");
    assert!(err.contains("找不到"), "錯誤訊息沒說清楚缺什麼：{err}");
    let run = run_of(&log, 1);
    assert_eq!(run.status, "failed");
    assert!(run.failure_reason.is_some(), "沒有記下失敗原因");
}

#[test]
fn test_generation_output_reaches_the_database_not_just_the_screen() {
    let (mut session, mut log, work) = ready_to_generate();
    run_generation(&mut session, &mut log, &mut FixturePlanner, work, "", vec![]);
    let run = run_of(&log, work.version);
    assert_eq!(run.status, "completed");
    assert!(!run.rows.is_empty());
    assert!(session.journal_error().is_none());
}

struct EveryKind;

impl Planner for EveryKind {
    fn draft(&mut self, _req: &DraftRequest<'_>) -> Result<Vec<Block>, AgentError> {
        Ok(ALL_BLOCK_KINDS
            .iter()
            .filter(|k| k.required_claim_kind() != Some(ClaimKind::Fact))
            .map(|k| Block {
                kind: *k,
                claim_kind: k.required_claim_kind().unwrap_or(ClaimKind::Inference),
                content: match k {
                    BlockKind::Heading => BlockContent::Heading { level: 1, text: "標題".into() },
                    BlockKind::BulletList => BlockContent::Bullets { items: vec!["一".into()] },
                    BlockKind::Table => BlockContent::Table {
                        headers: vec!["項目".into()],
                        rows: vec![vec!["設計".into()]],
                    },
                    BlockKind::MermaidDiagram => {
                        BlockContent::Mermaid { source: "graph TD".into() }
                    }
                    BlockKind::Callout => BlockContent::Callout {
                        tone: "info".into(),
                        title: "注意".into(),
                        body: "內容".into(),
                    },
                    BlockKind::SourceLink => BlockContent::Link {
                        label: "來源".into(),
                        target: "#seg-1-r1".into(),
                    },
                    _ => BlockContent::Text { text: format!("{} 的內容", k.as_str()) },
                },
                source_refs: vec![],
            })
            .collect())
    }
}

#[test]
fn test_every_block_kind_the_planner_can_emit_is_writable() {
    let (mut session, mut log, work) = ready_to_generate();
    run_generation(&mut session, &mut log, &mut EveryKind, work, "", vec![]);
    assert!(session.journal_error().is_none(), "有區塊種類寫不進 schema");
    let run = run_of(&log, work.version);
    assert_eq!(run.status, "completed");
    assert!(run.rows.len() >= 8);
}

struct ReturnsNothing;

impl Planner for ReturnsNothing {
    fn draft(&mut self, _req: &DraftRequest<'_>) -> Result<Vec<Block>, AgentError> {
        Ok(Vec::new())
    }
}

#[test]
fn test_a_document_with_no_blocks_lands_as_failed_not_completed() {
    let (mut session, mut log, work) = ready_to_generate();
    run_generation(&mut session, &mut log, &mut ReturnsNothing, work, "", vec![]);
    let run = run_of(&log, work.version);
    assert_eq!(run.status, "failed", "空文件被當成完成了");
    let reason = run.failure_reason.expect("沒有記下失敗原因");
    assert!(reason.contains("沒有產出"), "理由沒說清楚：{reason}");
}

struct OneParagraph;

impl Planner for OneParagraph {
    fn draft(&mut self, _req: &DraftRequest<'_>) -> Result<Vec<Block>, AgentError> {
        Ok(vec![Block {
            kind: BlockKind::Paragraph,
            claim_kind: ClaimKind::Inference,
            content: BlockContent::Text { text: "摘要內容".into() },
            source_refs: vec![],
        }])
    }
}

#[test]
fn test_content_recorded_while_the_summary_generates_is_reported_as_a_gap() {
    let (mut session, mut log, work) = ready_to_generate();
    let meanwhile = vec![(
        DomainEvent::NoteAdded { note_id: 77, text: "生成期間才記下的".into() },
        Timeline::new(90_000, 90_000),
    )];
    run_generation(&mut session, &mut log, &mut OneParagraph, work, "", meanwhile);
    let run = run_of(&log, work.version);
    assert_eq!(run.status, "completed");
    let texts: Vec<String> = run.contents.iter().map(|c| c.plain_text()).collect();
    assert!(
        texts.iter().any(|t| t.contains("快照建立之後")),
        "生成期間寫入的內容沒有被標成缺口：{texts:?}"
    );
}

struct Broken;

impl Planner for Broken {
    fn draft(&mut self, _req: &DraftRequest<'_>) -> Result<Vec<Block>, AgentError> {
        Err(AgentError::Provider("Provider 回報限流".into()))
    }
}

#[test]
fn test_a_planner_error_fails_the_run_and_keeps_the_snapshot_cursor() {
    let (mut session, mut log, work) = ready_to_generate();
    run_generation(&mut session, &mut log, &mut Broken, work, "", vec![]);
    let run = run_of(&log, work.version);
    assert_eq!(run.status, "failed");
    assert!(run.failure_reason.unwrap().contains("限流"));
    assert_eq!(run.through_event_seq, work.through);
}

#[test]
fn test_recording_after_the_cursor_does_not_enter_this_round() {
    let (mut session, mut log, work) = ready_to_generate();
    session.apply_transcript_input(final_(2, "這句話在快照之後"));
    log.append(session.take_journal());
    run_generation(&mut session, &mut log, &mut FixturePlanner, work, "", vec![]);
    let run = run_of(&log, work.version);
    let text = format!("{:?}", run.rows);
    assert!(!text.contains("這句話在快照之後"), "快照游標沒有凍結涵蓋範圍");
    assert!(text.contains("報價要拆成設計"));
}

struct Recorder(Vec<String>);

impl Planner for Recorder {
    fn draft(&mut self, req: &DraftRequest<'_>) -> Result<Vec<Block>, AgentError> {
        self.0.push(req.prompt.to_owned());
        FixturePlanner.draft(req)
    }
}

#[test]
fn test_the_round_prompt_reaches_the_planner() {
    let (mut session, mut log, work) = ready_to_generate();
    let mut p = Recorder(vec![]);
    run_generation(&mut session, &mut log, &mut p, work, "整理成決議清單", vec![]);
    assert_eq!(
        p.0.first().map(String::as_str),
        Some("整理成決議清單"),
        "本輪 Prompt 沒有送到 Planner"
    );
}

#[test]
fn who_plans_follows_the_settings_and_the_machine() {
    let n = names();
    let choose = |p, a, b| choose_planner(p, &n, a, b);
    assert_eq!(choose(Some("fixture"), true, true), PlannerChoice::Fixture);
    assert_eq!(choose(Some("system"), true, true), PlannerChoice::Cli(CliKind::ClaudeCode));
    assert_eq!(choose(Some("system"), false, true), PlannerChoice::Cli(CliKind::Codex));
    assert_eq!(choose(Some("system"), false, false), PlannerChoice::Missing("system".into()));
    assert_eq!(choose(Some("codex"), true, false), PlannerChoice::Missing("codex".into()));
    assert_eq!(choose(Some("agent-one"), true, true), PlannerChoice::Cli(CliKind::ClaudeCode));
    assert_eq!(choose(Some("api"), true, true), PlannerChoice::Missing("api".into()));
    assert_eq!(choose(None, true, true), PlannerChoice::Missing("設定".into()));
}

#[test]
fn a_log_that_fails_ends_a_past_summary() {
    let plan = plan_past(&[], IdSeeds { document_id: 4, run_id: 9 }, None, 12);
    assert_eq!((plan.document_id, plan.run_id, plan.work.version), (5, 10, 1));
    assert_eq!((plan.work.through, plan.work.revise_of, plan.parent_run_id), (12, None, None));
    let (state, _) = PastSummary::start(plan, "");
    let (_, action) = state.step(PastEvent::Wrote(Err("磁碟已滿".into())), &names());
    assert_eq!(action, PastAction::End(Err("磁碟已滿".into())));
}

#[test]
fn versions_of_the_past_go_on_from_the_last_good_one() {
    let run = |run_id, version_no, status: &str| StoredRun {
        run_id,
        version_no,
        status: status.into(),
        blocks: vec![],
    };
    let runs = [run(3, 1, "completed"), run(4, 2, "completed"), run(5, 3, "failed")];
    let plan = plan_past(&runs, IdSeeds { document_id: 1, run_id: 5 }, Some(1), 40);
    assert_eq!((plan.work.version, plan.work.revise_of), (4, Some(2)));
    assert_eq!((plan.document_id, plan.parent_run_id), (1, Some(4)));
    assert_eq!(find_version(&runs, 3).map(|r| r.run_id), Some(5));
    assert!(find_version(&runs, 9).is_none());
    assert_eq!(find_run(&runs, 4).map(|r| r.version_no), Ok(2));
    assert_eq!(find_run(&runs, 9).err().as_deref(), Some("找不到這個生成版本"));
}

#[test]
fn commands_on_meetings_are_checked() {
    assert_eq!(checked_title("  新標題 "), Ok("新標題".into()));
    assert_eq!(checked_title(" \u{3000}"), Err("標題不得為空".into()));
    assert!(check_idle(Some(3), 4).is_ok());
    assert_eq!(check_idle(Some(3), 3), Err("這場會議正在進行中，請先停止錄音".into()));
    assert!(check_past(None, 3).is_ok());
    assert!(check_past(Some(3), 3).is_err());
    assert_eq!(title_at("2026-08-05T09:07:33.000Z"), "會議 2026-08-05 09:07");
    assert_eq!(new_title().chars().count(), 19);
    assert_eq!(export_name(12, 3), "meeting-12-v3.html");
    assert_eq!(export_name(-1, 1), "meeting--1-v1.html");
    assert!(capture_refusal(&Capture::Started).is_none());
    assert!(capture_refusal(&Capture::Unsupported).is_none());
    let refused = capture_refusal(&Capture::Failed("沒有權限".into())).unwrap();
    assert_eq!(refused.note.as_deref(), Some("無法開始擷取音訊：沒有權限"));
    assert_eq!(creation_refusal("x").note.as_deref(), Some("無法建立會議：x"));
    assert_eq!(PoisonedSession.receipt().note.as_deref(), Some(POISONED_NOTE));
}

#[test]
fn the_pump_connects_its_batches_and_keeps_quiet_without_news() {
    let mut pump = Pump::new();
    let mut idle = Session::default();
    assert!(pump.turn(&mut idle, 100).is_none());
    let mut s = heard();
    let first = pump.turn(&mut s, 200).unwrap();
    assert_eq!((first.prev_high_seq, first.first_seq, first.last_seq), (0, Some(1), Some(3)));
    s.add_note("一筆");
    let second = pump.turn(&mut s, 300).unwrap();
    assert_eq!((second.prev_high_seq, second.first_seq), (3, Some(4)));
    let quiet = pump.turn(&mut s, 400).unwrap();
    assert_eq!((quiet.prev_high_seq, quiet.first_seq), (4, None));
    let mut ended = Session::default();
    ended.journal_failed("磁碟已滿".into(), Vec::new());
    let told = pump.turn(&mut ended, 500).unwrap();
    assert_eq!(told.journal_error.as_deref(), Some("磁碟已滿"));
}

#[test]
fn migrate_brings_a_fresh_database_to_the_current_version() {
    assert_eq!(pending_migrations(0).unwrap().last(), Some(&SCHEMA_VERSION));
}

#[test]
fn migrate_is_idempotent_when_run_twice() {
    assert_eq!(pending_migrations(SCHEMA_VERSION), Ok(vec![]));
}

#[test]
fn open_refuses_a_database_newer_than_this_build() {
    assert!(matches!(pending_migrations(SCHEMA_VERSION + 1), Err(TooNew { .. })));
    let refused = pending_migrations(SCHEMA_VERSION + 1).unwrap_err();
    assert_eq!(refused, TooNew { found: 2, supported: 1 });
    assert_eq!(
        refused.message(),
        "資料庫 schema 版本 2 高於本程式支援的 1，請升級應用程式"
    );
}
