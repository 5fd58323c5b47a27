//! Generations from the evidence to the finished blocks.

use openmeetnote::agent::{
    coverage_gaps, drop_duplicates, is_system_gap, settle_block, settle_schema, system_gap,
    uncovered_content_gap, DraftRequest, Planner, Retry, Settled, BLOCK_RETRY_LIMIT,
};
use openmeetnote::citation::sha256_hex;
use openmeetnote::cursor::{content_events_after, EventRow, SegmentRow, SpeakerRow};
use openmeetnote::document::{Block, BlockContent, BlockKind};
use openmeetnote::evidence::{
    build_index, evidence_allowance, pack_evidence, AgentError, BudgetInputs, CharUpperBound,
    EvidencePack, ReadSnapshot,
};
use openmeetnote::fixture::FixturePlanner;
use openmeetnote::generation::{generate, GenerationRequest, Limits, StopReason};
use openmeetnote::model::{ClaimKind, Origin, Track};
use openmeetnote::store::{
    EvidenceText, MeetingId, RunBlock, SourceRef, StoredNote, StoredRun, StoredSegment,
    StoredSpeaker,
};

/// Ten segments and a note, and the cursor after the last of them.
fn seeded() -> (ReadSnapshot, MeetingId, u64) {
    let mut s = ReadSnapshot {
        segments: vec![],
        notes: vec![],
        speakers: vec![],
        evidence: vec![],
        runs: vec![],
    };
    for i in 1..=10u64 {
        let text = format!("這是第 {i} 段的內容，講的是報價與範圍");
        s.segments.push(SegmentRow {
            created_event_seq: i,
            segment: StoredSegment {
                segment_id: i,
                revision: 1,
                origin: Origin::Provider,
                speaker_id: Some("s1".into()),
                text: text.clone(),
                track: Track::System,
                meeting_start_ms: i * 1000,
                meeting_end_ms: i * 1000 + 900,
                user_edited: false,
            },
        });
        s.evidence.push(EvidenceText {
            source_kind: "transcript_segment".into(),
            source_id: i.to_string(),
            source_revision: 1,
            text,
            created_event_seq: i,
        });
    }
    s.notes.push(StoredNote {
        note_id: 1,
        text: "客戶要求維運月費區間".into(),
        meeting_time_ms: 11_000,
        captured_audio_ms: 11_000,
        event_seq: 11,
    });
    (s, 1, 11)
}

#[test]
fn allowance_is_what_remains_after_every_named_deduction() {
    let b = BudgetInputs {
        context_window: 100_000,
        output_reserve: 8_000,
        safety_margin: 2_000,
        minimum_evidence: 1_000,
    };
    assert_eq!(evidence_allowance(b, 5_000).unwrap(), 85_000);
}

#[test]
fn a_budget_below_the_floor_is_refused_before_calling_the_provider() {
    let b = BudgetInputs {
        context_window: 8_000,
        output_reserve: 4_000,
        safety_margin: 1_000,
        minimum_evidence: 4_000,
    };
    assert!(matches!(
        evidence_allowance(b, 1_000),
        Err(AgentError::BudgetExceeded(_))
    ));
}

#[test]
fn notes_are_never_dropped_to_make_room() {
    let (s, m, cursor) = seeded();
    let index = build_index(&s, m, cursor);
    let mandatory: usize = index
        .outline
        .iter()
        .map(|c| c.summary.chars().count())
        .chain(index.notes.iter().map(|n| n.text.chars().count()))
        .chain(index.speakers.iter().map(|x| x.display.chars().count()))
        .sum();
    let pack = pack_evidence(&index, mandatory, &CharUpperBound).unwrap();
    assert_eq!(pack.notes.len(), 1, "筆記被裁掉了");
    assert!(pack.segments.is_empty());
    assert_eq!(pack.segments_omitted, 10);
}

#[test]
fn mandatory_evidence_larger_than_the_allowance_fails_loudly() {
    let (s, m, cursor) = seeded();
    let index = build_index(&s, m, cursor);
    let err = pack_evidence(&index, 5, &CharUpperBound).unwrap_err();
    assert!(matches!(err, AgentError::BudgetExceeded(_)));
    assert!(err.message().contains("筆記不得被裁切"));
}

#[test]
fn omitted_segments_are_counted_not_silently_dropped() {
    let (s, m, cursor) = seeded();
    let index = build_index(&s, m, cursor);
    let pack = pack_evidence(&index, 200, &CharUpperBound).unwrap();
    assert!(pack.segments_omitted > 0);
    assert_eq!(pack.segments.len() + pack.segments_omitted, 10);
}

#[test]
fn the_outline_covers_every_segment_id_in_order() {
    let (s, m, cursor) = seeded();
    let index = build_index(&s, m, cursor);
    assert_eq!(index.outline[0].first_segment_id, 1);
    assert_eq!(index.outline.last().unwrap().last_segment_id, 10);
}


#[test]
fn a_clean_draft_stops_after_one_round() {
    let (s, m, cursor) = seeded();
    let r = generate(
        &s,
        &GenerationRequest {
            meeting: m,
            through_event_seq: cursor,
            prompt: "",
            budget: BudgetInputs::default(),
            limits: Limits::default(),
            revise_of: None,
            previous_json: Some("[]"),
        },
        &mut FixturePlanner,
        &CharUpperBound,
    )
    .unwrap();
    assert_eq!(r.rounds, 1);
    assert_eq!(r.stop_reason, StopReason::Verified);
    assert_eq!(r.rejected_blocks, 0);
    assert!(r.blocks.iter().any(|b| b.claim_kind == ClaimKind::Fact));
}


struct ReturnsNothing;

impl Planner for ReturnsNothing {
    fn draft(&mut self, _req: &DraftRequest<'_>) -> Result<Vec<Block>, AgentError> {
        Ok(Vec::new())
    }
}

#[test]
fn an_empty_document_is_never_reported_as_verified() {
    let (s, m, cursor) = seeded();
    let r = generate(
        &s,
        &GenerationRequest {
            meeting: m,
            through_event_seq: cursor,
            prompt: "",
            budget: BudgetInputs::default(),
            limits: Limits::default(),
            revise_of: None,
            previous_json: Some("[]"),
        },
        &mut ReturnsNothing,
        &CharUpperBound,
    )
    .unwrap();
    assert!(r.blocks.is_empty());
    assert_eq!(r.stop_reason, StopReason::NothingAdmissible);
    let reason = r.failure_reason().expect("空成果應該要求記成失敗");
    assert!(reason.contains("沒有產出"), "理由沒說清楚：{reason}");
}

#[test]
fn a_document_whose_blocks_all_failed_verification_says_why() {
    let (s, m, cursor) = seeded();
    let r = generate(
        &s,
        &GenerationRequest {
            meeting: m,
            through_event_seq: cursor,
            prompt: "",
            budget: BudgetInputs::default(),
            limits: Limits::default(),
            revise_of: None,
            previous_json: Some("[]"),
        },
        &mut AlwaysFabricates,
        &CharUpperBound,
    )
    .unwrap();
    let reason = r.failure_reason().expect("空成果應該要求記成失敗");
    assert!(reason.contains("沒有通過驗證"), "理由沒說清楚：{reason}");
    assert!(!r.rejections.is_empty(), "沒有留下拒絕原因");
}

#[test]
fn a_document_with_content_is_not_asked_to_fail() {
    let (s, m, cursor) = seeded();
    let r = generate(
        &s,
        &GenerationRequest {
            meeting: m,
            through_event_seq: cursor,
            prompt: "",
            budget: BudgetInputs::default(),
            limits: Limits::default(),
            revise_of: None,
            previous_json: Some("[]"),
        },
        &mut FixturePlanner,
        &CharUpperBound,
    )
    .unwrap();
    assert!(r.failure_reason().is_none());
}

#[test]
fn a_decision_survives_a_paragraph_that_says_the_same_thing() {
    let same = "採用方案 A";
    let para = || Block {
        kind: BlockKind::Paragraph,
        claim_kind: ClaimKind::Inference,
        content: BlockContent::Text { text: same.into() },
        source_refs: vec![],
    };
    let decision = || Block {
        kind: BlockKind::Decision,
        claim_kind: ClaimKind::Fact,
        content: BlockContent::Text { text: same.into() },
        source_refs: vec![],
    };

    for (label, blocks) in [
        ("內文在前", vec![para(), decision()]),
        ("決議在前", vec![decision(), para()]),
    ] {
        let (kept, removed) = drop_duplicates(blocks);
        assert_eq!(removed, 1, "{label}：沒有消掉重複");
        assert_eq!(kept.len(), 1);
        assert_eq!(kept[0].kind, BlockKind::Decision, "{label}：決議被丟掉了");
    }
}

struct CountsRounds {
    rounds: u32,
}

impl Planner for CountsRounds {
    fn draft(&mut self, req: &DraftRequest<'_>) -> Result<Vec<Block>, AgentError> {
        self.rounds = req.round;
        AlwaysFabricates.draft(req)
    }
}

#[test]
fn a_round_where_nothing_passes_still_gets_another_try() {
    let (s, m, cursor) = seeded();
    let mut p = CountsRounds { rounds: 0 };
    let r = generate(
        &s,
        &GenerationRequest {
            meeting: m,
            through_event_seq: cursor,
            prompt: "",
            budget: BudgetInputs::default(),
            limits: Limits { max_rounds: 3 },
            revise_of: None,
            previous_json: Some("[]"),
        },
        &mut p,
        &CharUpperBound,
    )
    .unwrap();
    assert_eq!(p.rounds, 3, "第一輪就放棄了，拒絕原因從來沒有被餵回去");
    assert_eq!(r.stop_reason, StopReason::NothingAdmissible);
}

struct SameCountFewerRejects;

impl Planner for SameCountFewerRejects {
    fn draft(&mut self, req: &DraftRequest<'_>) -> Result<Vec<Block>, AgentError> {
        let mut out = vec![Block {
            kind: BlockKind::Paragraph,
            claim_kind: ClaimKind::Inference,
            content: BlockContent::Text {
                text: format!("第 {} 輪的內容", req.round),
            },
            source_refs: vec![],
        }];
        let bogus = if req.round == 1 { 2 } else { 1 };
        for i in 0..bogus {
            let quote = format!("這句話從來沒有人說過{i}");
            out.push(Block {
                kind: BlockKind::Paragraph,
                claim_kind: ClaimKind::Fact,
                content: BlockContent::Text {
                    text: format!("捏造 {i}"),
                },
                source_refs: vec![SourceRef {
                    source_kind: "transcript_segment".into(),
                    source_id: "1".into(),
                    source_revision: 1,
                    locator: "0-5".into(),
                    quoted_text_sha256: sha256_hex(quote.as_bytes()),
                    quoted_text: quote,
                    validation_status: "unverified".into(),
                }],
            });
        }
        Ok(out)
    }
}

#[test]
fn a_round_that_loses_fewer_blocks_wins_even_when_the_count_ties() {
    let (s, m, cursor) = seeded();
    let r = generate(
        &s,
        &GenerationRequest {
            meeting: m,
            through_event_seq: cursor,
            prompt: "",
            budget: BudgetInputs::default(),
            limits: Limits::default(),
            revise_of: None,
            previous_json: Some("[]"),
        },
        &mut SameCountFewerRejects,
        &CharUpperBound,
    )
    .unwrap();
    assert!(
        r.blocks
            .iter()
            .any(|b| b.content.plain_text().contains("第 2 輪")),
        "留在成果裡的是第一輪那一版：{:?}",
        r.blocks
            .iter()
            .map(|b| b.content.plain_text())
            .collect::<Vec<_>>()
    );
}


#[derive(Default)]
struct RecordsPrevious {
    saw: Vec<String>,
}

impl Planner for RecordsPrevious {
    fn draft(&mut self, req: &DraftRequest<'_>) -> Result<Vec<Block>, AgentError> {
        self.saw = req
            .previous
            .iter()
            .map(|b| b.content.plain_text())
            .collect();
        Ok(vec![Block {
            kind: BlockKind::Paragraph,
            claim_kind: ClaimKind::Inference,
            content: BlockContent::Text {
                text: "第二版的內容".into(),
            },
            source_refs: vec![],
        }])
    }
}

fn completed_version(s: &mut ReadSnapshot, blocks: &[Block]) -> u32 {
    s.runs.push(StoredRun {
        run_id: 1,
        version_no: 1,
        status: "completed".into(),
        blocks: blocks
            .iter()
            .enumerate()
            .map(|(i, b)| RunBlock {
                row: b.to_stored(i as u32, None),
                content: Some(b.content.clone()),
            })
            .collect(),
    });
    1
}

fn paragraph(text: &str) -> Block {
    Block {
        kind: BlockKind::Paragraph,
        claim_kind: ClaimKind::Inference,
        content: BlockContent::Text { text: text.into() },
        source_refs: vec![],
    }
}

#[test]
fn a_revision_receives_the_version_it_is_revising() {
    let (mut s, m, cursor) = seeded();
    let v1 = completed_version(&mut s, &[paragraph("第一版的內容")]);
    let mut p = RecordsPrevious::default();
    generate(
        &s,
        &GenerationRequest {
            meeting: m,
            through_event_seq: cursor,
            prompt: "補上行動項目",
            budget: BudgetInputs::default(),
            limits: Limits::default(),
            revise_of: Some(v1),
            previous_json: Some("[]"),
        },
        &mut p,
        &CharUpperBound,
    )
    .unwrap();
    assert_eq!(
        p.saw,
        vec!["第一版的內容".to_string()],
        "前一版沒有送進 Planner"
    );
}

#[test]
fn a_revision_does_not_inherit_the_previous_versions_coverage_gap() {
    let (mut s, m, cursor) = seeded();
    let stale = "快照建立之後又記錄了 5 筆逐字稿或筆記，那些內容不在本輪成果裡。";
    let blocks = [
        Block {
            kind: BlockKind::Paragraph,
            claim_kind: ClaimKind::Inference,
            content: BlockContent::Text {
                text: "第一版的內容".into(),
            },
            source_refs: vec![],
        },
        system_gap(stale.into()),
    ];
    completed_version(&mut s, &blocks);

    let mut p = RecordsPrevious::default();
    generate(
        &s,
        &GenerationRequest {
            meeting: m,
            through_event_seq: cursor,
            prompt: "",
            budget: BudgetInputs::default(),
            limits: Limits::default(),
            revise_of: Some(1),
            previous_json: Some("[]"),
        },
        &mut p,
        &CharUpperBound,
    )
    .unwrap();
    assert_eq!(
        p.saw,
        vec!["第一版的內容".to_string()],
        "舊的涵蓋缺口被送回模型了"
    );
}

#[test]
fn the_system_gap_prefixes_match_what_the_system_actually_writes() {
    let pack = EvidencePack {
        outline: vec![],
        notes: vec![],
        speakers: vec![],
        segments: vec![],
        tokens_used: 0,
        segments_omitted: 3,
    };
    for g in coverage_gaps(pack.segments_omitted) {
        assert!(is_system_gap(&g), "自己產的缺口認不出來：{:?}", g.content);
    }
    let after = uncovered_content_gap(2).expect("有未涵蓋內容");
    assert!(is_system_gap(&after), "認不出游標缺口");

    let human = Block {
        kind: BlockKind::Gap,
        claim_kind: ClaimKind::Gap,
        content: BlockContent::Text {
            text: "維運的月費區間還沒有數字。".into(),
        },
        source_refs: vec![],
    };
    assert!(!is_system_gap(&human), "把模型寫的缺口濾掉了");
}

#[test]
fn a_first_version_has_no_previous_document() {
    let (s, m, cursor) = seeded();
    let mut p = RecordsPrevious::default();
    generate(
        &s,
        &GenerationRequest {
            meeting: m,
            through_event_seq: cursor,
            prompt: "",
            budget: BudgetInputs::default(),
            limits: Limits::default(),
            revise_of: None,
            previous_json: Some("[]"),
        },
        &mut p,
        &CharUpperBound,
    )
    .unwrap();
    assert!(p.saw.is_empty());
}

#[test]
fn pointing_at_a_version_that_does_not_exist_fails_instead_of_starting_over() {
    let (s, m, cursor) = seeded();
    let err = generate(
        &s,
        &GenerationRequest {
            meeting: m,
            through_event_seq: cursor,
            prompt: "",
            budget: BudgetInputs::default(),
            limits: Limits::default(),
            revise_of: Some(7),
            previous_json: Some("[]"),
        },
        &mut FixturePlanner,
        &CharUpperBound,
    )
    .unwrap_err();
    assert!(
        err.message().contains("第 7 版"),
        "錯誤訊息沒指出哪一版：{}",
        err.message()
    );
}

#[test]
fn the_previous_document_eats_into_the_evidence_budget() {
    let (mut s, m, cursor) = seeded();
    let long: String = "很長的一版".repeat(200);
    let v1 = completed_version(&mut s, &[paragraph(&long)]);

    let budget = BudgetInputs {
        context_window: 1_500,
        output_reserve: 0,
        safety_margin: 0,
        minimum_evidence: 10,
    };
    let plain = generate(
        &s,
        &GenerationRequest {
            meeting: m,
            through_event_seq: cursor,
            prompt: "",
            budget,
            limits: Limits::default(),
            revise_of: None,
            previous_json: Some("[]"),
        },
        &mut FixturePlanner,
        &CharUpperBound,
    )
    .unwrap();
    let json = format!("[\"{long}\"]");
    let revising = generate(
        &s,
        &GenerationRequest {
            meeting: m,
            through_event_seq: cursor,
            prompt: "",
            budget,
            limits: Limits::default(),
            revise_of: Some(v1),
            previous_json: Some(&json),
        },
        &mut FixturePlanner,
        &CharUpperBound,
    )
    .unwrap();
    assert!(
        revising.evidence_tokens < plain.evidence_tokens,
        "帶了前一版卻沒有佔到額度：{} vs {}",
        revising.evidence_tokens,
        plain.evidence_tokens
    );
}


struct RepeatsItself;

impl Planner for RepeatsItself {
    fn draft(&mut self, _req: &DraftRequest<'_>) -> Result<Vec<Block>, AgentError> {
        let same = |kind| Block {
            kind,
            claim_kind: ClaimKind::Inference,
            content: BlockContent::Text {
                text: "報價分成設計、開發、維運三項".into(),
            },
            source_refs: vec![],
        };
        Ok(vec![
            same(BlockKind::Paragraph),
            Block {
                kind: BlockKind::Paragraph,
                claim_kind: ClaimKind::Inference,
                content: BlockContent::Text {
                    text: "報價分成　設計、開發、維運三項".into(),
                },
                source_refs: vec![],
            },
            Block {
                kind: BlockKind::Paragraph,
                claim_kind: ClaimKind::Inference,
                content: BlockContent::Text {
                    text: "另一件事：時程還沒定".into(),
                },
                source_refs: vec![],
            },
        ])
    }
}

#[test]
fn the_same_sentence_twice_is_dropped_the_second_time() {
    let (s, m, cursor) = seeded();
    let r = generate(
        &s,
        &GenerationRequest {
            meeting: m,
            through_event_seq: cursor,
            prompt: "",
            budget: BudgetInputs::default(),
            limits: Limits::default(),
            revise_of: None,
            previous_json: Some("[]"),
        },
        &mut RepeatsItself,
        &CharUpperBound,
    )
    .unwrap();
    assert_eq!(r.duplicates_removed, 1, "字面重複沒有被消掉");
    assert_eq!(r.blocks.len(), 2);
    assert!(r.blocks[0].content.plain_text().starts_with("報價分成設計"));
}

#[test]
fn the_part_of_the_evidence_that_was_cut_is_reported_by_the_system() {
    let (s, m, cursor) = seeded();
    let r = generate(
        &s,
        &GenerationRequest {
            meeting: m,
            through_event_seq: cursor,
            prompt: "",
            budget: BudgetInputs {
                context_window: 400,
                output_reserve: 0,
                safety_margin: 0,
                minimum_evidence: 10,
            },
            limits: Limits::default(),
            revise_of: None,
            previous_json: Some("[]"),
        },
        &mut FixturePlanner,
        &CharUpperBound,
    )
    .unwrap();
    assert!(r.segments_omitted > 0, "這個預算下應該裁掉片段");
    let gaps: Vec<String> = r
        .blocks
        .iter()
        .filter(|b| b.claim_kind == ClaimKind::Gap)
        .map(|b| b.content.plain_text())
        .collect();
    assert!(
        gaps.iter()
            .any(|g| g.contains(&r.segments_omitted.to_string())),
        "裁掉的段數沒有被講出來：{gaps:?}"
    );
}

#[test]
fn a_snapshot_that_covers_everything_does_not_invent_a_coverage_gap() {
    let (s, m, cursor) = seeded();
    let r = generate(
        &s,
        &GenerationRequest {
            meeting: m,
            through_event_seq: cursor,
            prompt: "",
            budget: BudgetInputs::default(),
            limits: Limits::default(),
            revise_of: None,
            previous_json: Some("[]"),
        },
        &mut FixturePlanner,
        &CharUpperBound,
    )
    .unwrap();
    assert_eq!(r.segments_omitted, 0);
    assert!(
        !r.blocks.iter().any(|b| b.claim_kind == ClaimKind::Gap),
        "無中生有了一個缺口：{:?}",
        r.blocks
            .iter()
            .filter(|b| b.claim_kind == ClaimKind::Gap)
            .map(|b| b.content.plain_text())
            .collect::<Vec<_>>()
    );
}

#[test]
fn uncovered_content_is_reported_only_when_there_really_is_some() {
    assert!(uncovered_content_gap(0).is_none(), "無中生有了一個缺口");
    let g = uncovered_content_gap(3).expect("有未涵蓋內容卻沒有缺口");
    assert_eq!(g.claim_kind, ClaimKind::Gap);
    assert!(g.content.plain_text().contains('3'), "沒說有多少筆");
}

struct AlwaysFabricates;

impl Planner for AlwaysFabricates {
    fn draft(&mut self, _req: &DraftRequest<'_>) -> Result<Vec<Block>, AgentError> {
        let quote = "這句話從來沒有人說過";
        Ok(vec![Block {
            kind: BlockKind::Paragraph,
            claim_kind: ClaimKind::Fact,
            content: BlockContent::Text {
                text: "客戶已同意八折".into(),
            },
            source_refs: vec![SourceRef {
                source_kind: "transcript_segment".into(),
                source_id: "1".into(),
                source_revision: 1,
                locator: "0-10".into(),
                quoted_text: quote.into(),
                quoted_text_sha256: sha256_hex(quote.as_bytes()),
                validation_status: "unverified".into(),
            }],
        }])
    }
}

#[test]
fn a_fabricated_citation_never_reaches_the_result_however_many_rounds_run() {
    let (s, m, cursor) = seeded();
    let r = generate(
        &s,
        &GenerationRequest {
            meeting: m,
            through_event_seq: cursor,
            prompt: "",
            budget: BudgetInputs::default(),
            limits: Limits::default(),
            revise_of: None,
            previous_json: Some("[]"),
        },
        &mut AlwaysFabricates,
        &CharUpperBound,
    )
    .unwrap();
    assert!(r.blocks.is_empty(), "捏造引用的區塊進到成果了");
    assert_eq!(r.stop_reason, StopReason::NothingAdmissible);
    assert!(r.rejected_blocks > 0);
}

struct FixesOnSecondRound;

impl Planner for FixesOnSecondRound {
    fn draft(&mut self, req: &DraftRequest<'_>) -> Result<Vec<Block>, AgentError> {
        let mut out = FixturePlanner.draft(req)?;
        if req.round == 1 {
            out.push(Block {
                kind: BlockKind::Paragraph,
                claim_kind: ClaimKind::Fact,
                content: BlockContent::Text {
                    text: "沒有來源的斷言".into(),
                },
                source_refs: vec![],
            });
        } else {
            assert!(!req.rejections.is_empty(), "第二輪沒有收到上一輪的失敗原因");
        }
        Ok(out)
    }
}

#[test]
fn the_loop_feeds_rejections_back_and_the_second_round_can_recover() {
    let (s, m, cursor) = seeded();
    let r = generate(
        &s,
        &GenerationRequest {
            meeting: m,
            through_event_seq: cursor,
            prompt: "整理報價範圍",
            budget: BudgetInputs::default(),
            limits: Limits::default(),
            revise_of: None,
            previous_json: Some("[]"),
        },
        &mut FixesOnSecondRound,
        &CharUpperBound,
    )
    .unwrap();
    assert_eq!(r.rounds, 2);
    assert_eq!(r.stop_reason, StopReason::Verified);
    assert_eq!(r.rejected_blocks, 1);
    assert!(!r.blocks.iter().any(|b| matches!(
        &b.content,
        BlockContent::Text { text } if text == "沒有來源的斷言"
    )));
}

#[test]
fn the_loop_never_exceeds_its_round_limit() {
    let (s, m, cursor) = seeded();
    let r = generate(
        &s,
        &GenerationRequest {
            meeting: m,
            through_event_seq: cursor,
            prompt: "",
            budget: BudgetInputs::default(),
            limits: Limits { max_rounds: 2 },
            revise_of: None,
            previous_json: Some("[]"),
        },
        &mut AlwaysFabricates,
        &CharUpperBound,
    )
    .unwrap();
    assert!(r.rounds <= 2, "Agent Loop 不得無限制自我呼叫");
}

#[test]
fn omitted_evidence_shows_up_as_a_gap_block_not_as_silence() {
    let (s, m, cursor) = seeded();
    let r = generate(
        &s,
        &GenerationRequest {
            meeting: m,
            through_event_seq: cursor,
            prompt: "",
            budget: // 額度夠放大綱與筆記，但不夠放全部片段原文
        BudgetInputs {
            context_window: 500,
            output_reserve: 50,
            safety_margin: 10,
            minimum_evidence: 50,
        },
            limits: Limits::default(),
            revise_of: None,
            previous_json: Some("[]"),
        },
        &mut FixturePlanner,
        &CharUpperBound,
    )
    .unwrap();
    assert!(r.segments_omitted > 0);
    assert!(
        r.blocks.iter().any(|b| matches!(
            &b.content,
            BlockContent::Text { text } if text.contains("未以原文納入證據")
        )),
        "裁切了證據卻沒有在成果裡說"
    );
}


struct BrokenThenFixed {
    claim: ClaimKind,
    redrafts: u32,
    fix_on: u32,
}

impl Planner for BrokenThenFixed {
    fn draft(&mut self, _req: &DraftRequest<'_>) -> Result<Vec<Block>, AgentError> {
        Ok(vec![Block {
            kind: BlockKind::Table,
            claim_kind: self.claim,
            content: BlockContent::Text {
                text: "設計、開發、維運".into(),
            },
            source_refs: vec![],
        }])
    }

    fn redraft(
        &mut self,
        _req: &DraftRequest<'_>,
        b: &Block,
        reason: &str,
    ) -> Result<Option<Block>, AgentError> {
        assert!(!reason.is_empty(), "重試時必須說明上一次為什麼不合");
        self.redrafts += 1;
        if self.redrafts >= self.fix_on {
            return Ok(Some(Block {
                kind: BlockKind::Table,
                claim_kind: b.claim_kind,
                content: BlockContent::Table {
                    headers: vec!["項目".into()],
                    rows: vec![vec!["設計".into()]],
                },
                source_refs: vec![],
            }));
        }
        Ok(Some(b.clone()))
    }
}

#[test]
fn a_malformed_block_is_retried_and_kept_once_it_validates() {
    let (s, m, cursor) = seeded();
    let mut p = BrokenThenFixed {
        claim: ClaimKind::Inference,
        redrafts: 0,
        fix_on: 1,
    };
    let r = generate(
        &s,
        &GenerationRequest {
            meeting: m,
            through_event_seq: cursor,
            prompt: "",
            budget: BudgetInputs::default(),
            limits: Limits::default(),
            revise_of: None,
            previous_json: Some("[]"),
        },
        &mut p,
        &CharUpperBound,
    )
    .unwrap();
    assert_eq!(p.redrafts, 1);
    assert!(r.degraded.is_empty());
    assert_eq!(r.blocks.len(), 1);
    assert_eq!(r.blocks[0].kind, BlockKind::Table);
}

#[test]
fn retries_are_capped_and_a_non_fact_block_then_degrades_to_a_paragraph() {
    let (s, m, cursor) = seeded();
    let mut p = BrokenThenFixed {
        claim: ClaimKind::Inference,
        redrafts: 0,
        fix_on: 99,
    };
    let r = generate(
        &s,
        &GenerationRequest {
            meeting: m,
            through_event_seq: cursor,
            prompt: "",
            budget: BudgetInputs::default(),
            limits: Limits::default(),
            revise_of: None,
            previous_json: Some("[]"),
        },
        &mut p,
        &CharUpperBound,
    )
    .unwrap();
    assert_eq!(p.redrafts, 2, "重試上限是兩次");
    assert_eq!(r.degraded.len(), 1);
    assert_eq!(r.degraded[0].original_kind, "table");
    assert_eq!(r.blocks[0].kind, BlockKind::Paragraph);
    assert_eq!(r.blocks[0].claim_kind, ClaimKind::Inference);
    assert!(matches!(
        &r.blocks[0].content,
        BlockContent::Text { text } if text.contains("設計")
    ));
}

#[test]
fn a_malformed_fact_block_is_removed_rather_than_degraded() {
    let (s, m, cursor) = seeded();
    let mut p = BrokenThenFixed {
        claim: ClaimKind::Fact,
        redrafts: 0,
        fix_on: 99,
    };
    let r = generate(
        &s,
        &GenerationRequest {
            meeting: m,
            through_event_seq: cursor,
            prompt: "",
            budget: BudgetInputs::default(),
            limits: Limits::default(),
            revise_of: None,
            previous_json: Some("[]"),
        },
        &mut p,
        &CharUpperBound,
    )
    .unwrap();
    assert!(r.degraded.is_empty());
    assert!(r.blocks.is_empty());
    assert!(r.rejected_blocks > 0);
}

#[test]
fn the_index_excludes_speakers_first_heard_after_the_cursor() {
    let (mut s, m, cursor) = seeded();
    s.speakers.push(SpeakerRow {
        first_event_seq: cursor + 1,
        speaker: StoredSpeaker {
            speaker_id: "late".into(),
            ordinal: 9,
            proposed_name: None,
            confirmed_name: Some("late".into()),
            status: "confirmed".into(),
        },
    });

    let index = build_index(&s, m, cursor);
    assert!(
        !index.speakers.iter().any(|n| n.display == "late"),
        "游標之後才出現的語者進了本輪證據"
    );
    assert!(build_index(&s, m, cursor + 1).speakers.iter().any(|n| n.display == "late"));
}

#[test]
fn the_index_holds_each_segment_as_it_was_at_the_cursor() {
    let (mut s, m, cursor) = seeded();
    let row = |id: u64, revision: u32, text: &str, seq: u64| SegmentRow {
        created_event_seq: seq,
        segment: StoredSegment {
            segment_id: id,
            revision,
            origin: Origin::User,
            speaker_id: None,
            text: text.into(),
            track: Track::Mic,
            meeting_start_ms: 0,
            meeting_end_ms: 1,
            user_edited: true,
        },
    };
    s.segments.push(row(1, 2, "改過一次", cursor));
    s.segments.push(row(1, 3, "游標之後又改", cursor + 1));
    s.segments.push(row(99, 1, "游標之後才說", cursor + 2));
    let at = |through| {
        build_index(&s, m, through)
            .segments
            .iter()
            .map(|x| (x.segment_id, x.revision))
            .collect::<Vec<_>>()
    };
    let now = at(cursor);
    assert_eq!(now.len(), 10);
    assert!(now.contains(&(1, 2)) && !now.contains(&(1, 1)));
    assert!(at(cursor - 1).contains(&(1, 1)));
    let later = at(cursor + 2);
    assert!(later.contains(&(1, 3)) && later.contains(&(99, 1)));
}

#[test]
fn the_snapshots_own_bookkeeping_is_not_mistaken_for_uncovered_content() {
    let (mut s, m, cursor) = seeded();
    completed_version(&mut s, &[paragraph("第一版的內容")]);
    let row = |seq: u64, kind: &str| EventRow { seq, kind: kind.into() };
    let mut log = vec![
        row(cursor, "NoteAdded"),
        row(cursor + 1, "SnapshotCreated"),
        row(cursor + 2, "GenerationCompleted"),
    ];
    assert_eq!(
        content_events_after(&log, cursor),
        0,
        "這一版只寫了快照自己的紀錄，不該有內容事件"
    );
    log.push(row(cursor + 3, "TranscriptSegmentFinalized"));
    log.push(row(cursor + 4, "TranscriptSegmentEdited"));
    assert_eq!(content_events_after(&log, cursor), 2);

    let r = generate(
        &s,
        &GenerationRequest {
            meeting: m,
            through_event_seq: cursor,
            prompt: "",
            budget: BudgetInputs::default(),
            limits: Limits::default(),
            revise_of: None,
            previous_json: Some("[]"),
        },
        &mut FixturePlanner,
        &CharUpperBound,
    )
    .unwrap();
    assert!(
        !r.blocks.iter().any(|b| b.claim_kind == ClaimKind::Gap),
        "快照自己的紀錄被當成沒涵蓋到的內容"
    );
}

#[test]
fn the_first_new_form_that_meets_the_rules_is_kept() {
    let start = Retry::start(paragraph(" "));
    assert_eq!(start.left, BLOCK_RETRY_LIMIT);
    assert_eq!(start.wanted(), paragraph(" ").validate().err().map(|e| e.message()));
    let worse = start.take(Some(paragraph("")));
    assert_eq!((worse.left, worse.wanted().is_some()), (1, true));
    let good = worse.take(Some(paragraph("好")));
    assert_eq!((good.left, good.wanted()), (0, None));
    assert_eq!(
        settle_block(0, BlockKind::Paragraph, good.block),
        Settled::Kept(paragraph("好"))
    );
    let given_up = Retry::start(paragraph("")).take(None);
    assert_eq!((given_up.left, given_up.wanted()), (0, None));
    assert_eq!(Retry::start(paragraph("好")).wanted(), None);
}

/// Answers with the texts one after another, and keeps what it was asked.
struct Redrafts {
    replies: Vec<Option<&'static str>>,
    asked: Vec<(String, String)>,
}

impl Planner for Redrafts {
    fn draft(&mut self, _req: &DraftRequest<'_>) -> Result<Vec<Block>, AgentError> {
        Ok(Vec::new())
    }

    fn redraft(
        &mut self,
        _req: &DraftRequest<'_>,
        block: &Block,
        reason: &str,
    ) -> Result<Option<Block>, AgentError> {
        self.asked.push((block.content.plain_text(), reason.to_owned()));
        Ok(self.replies.remove(0).map(paragraph))
    }
}

#[test]
fn a_block_is_asked_for_at_most_twice_and_never_if_it_is_sound() {
    let pack = EvidencePack {
        segments: vec![],
        notes: vec![],
        outline: vec![],
        speakers: vec![],
        tokens_used: 0,
        segments_omitted: 0,
    };
    let req = DraftRequest {
        prompt: "",
        evidence: &pack,
        rejections: &[],
        round: 1,
        previous: &[],
    };
    let mut p = Redrafts { replies: vec![], asked: vec![] };
    let r = settle_schema(&mut p, &req, vec![paragraph("好")]).unwrap();
    assert_eq!((r.blocks, p.asked.len()), (vec![paragraph("好")], 0));

    let mut p = Redrafts { replies: vec![Some(" "), Some("好")], asked: vec![] };
    let r = settle_schema(&mut p, &req, vec![paragraph("")]).unwrap();
    assert_eq!(r.blocks, [paragraph("好")]);
    assert!(r.degraded.is_empty());
    let reason = paragraph("").validate().unwrap_err().message();
    assert_eq!(
        p.asked,
        [(String::new(), reason.clone()), (" ".to_owned(), reason)]
    );

    let mut p = Redrafts { replies: vec![Some(" "), Some("\t"), Some("好")], asked: vec![] };
    let r = settle_schema(&mut p, &req, vec![paragraph("")]).unwrap();
    assert_eq!((r.blocks, r.degraded.len()), (vec![paragraph("\t")], 1));
    assert_eq!(p.asked.len(), 2);
}
