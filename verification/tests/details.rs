//! Exact values of the smaller parts, and what holds of them on concrete inputs.

use openmeetnote::agent::{settle_block, settle_schema, DraftRequest, Planner, Settled};
use openmeetnote::citation::{
    is_quotable, normalize_for_match, parse_locator, verify_ref, CharSpan, RefVerdict,
};
use openmeetnote::cli_planner::{
    complete_block, conclude, evidence_fence, extract_json, failure_line, fence_in, parse_blocks,
    progress_line, wait_step, Readings, WaitStep,
};
use openmeetnote::document::{Block, BlockContent, BlockKind, SchemaError, ALL_BLOCK_KINDS};
use openmeetnote::evidence::{truncate_chars, AgentError, EvidencePack};
use openmeetnote::fixture::FixturePlanner;
use openmeetnote::fixture_source::FixtureSource;
use openmeetnote::events::{TranscriptInput, TranscriptSource};
use openmeetnote::model::{ClaimKind, MeetingState};
use openmeetnote::render::{escape, mmss, render_html, safe_href, section_of, RenderContext, Section};
use openmeetnote::store::{EvidenceText, SourceRef};

fn text_block(kind: BlockKind, claim_kind: ClaimKind, text: &str) -> Block {
    Block {
        kind,
        claim_kind,
        content: BlockContent::Text { text: text.into() },
        source_refs: vec![],
    }
}

fn empty_pack() -> EvidencePack {
    EvidencePack {
        outline: vec![],
        notes: vec![],
        speakers: vec![],
        segments: vec![],
        tokens_used: 0,
        segments_omitted: 0,
    }
}

#[test]
fn every_fault_of_a_block_is_told_in_words() {
    let empty = text_block(BlockKind::Paragraph, ClaimKind::Inference, " ");
    let fault = empty.validate().unwrap_err();
    assert!(matches!(fault, SchemaError::Empty(_)));
    assert!(fault.message().ends_with(" 不得為空"));
    let claim = text_block(BlockKind::Decision, ClaimKind::Gap, "x").validate().unwrap_err();
    assert_eq!(claim.message(), "這種區塊的 claim_kind 必須是 fact");
    let range = Block {
        kind: BlockKind::Heading,
        claim_kind: ClaimKind::Inference,
        content: BlockContent::Heading { level: 9, text: "x".into() },
        source_refs: vec![],
    };
    assert!(range.validate().unwrap_err().message().ends_with(" 超出允許範圍"));
    let shape = Block { kind: BlockKind::Table, ..text_block(BlockKind::Gap, ClaimKind::Fact, "x") };
    assert_eq!(shape.validate().unwrap_err().message(), "區塊內容與種類不符");
}

#[test]
fn kinds_of_blocks_read_back_and_none_stands_for_two() {
    let words: Vec<&str> = ALL_BLOCK_KINDS.iter().map(|k| k.as_str()).collect();
    for (k, w) in ALL_BLOCK_KINDS.iter().zip(&words) {
        assert_eq!(BlockKind::parse(w), Some(*k));
        assert_eq!(words.iter().filter(|x| *x == w).count(), 1);
    }
    assert_eq!(BlockKind::parse("bullets"), None);
}

#[test]
fn failures_of_a_generation_are_told_in_words() {
    assert_eq!(AgentError::Store("磁碟".into()).message(), "磁碟");
    assert_eq!(AgentError::Provider("x".into()).message(), "Provider 回報錯誤：x");
    let b = AgentError::BudgetExceeded("y".into());
    assert_eq!(b.message(), "本輪證據超出所選模型的能力：y");
}

#[test]
fn locators_name_ranges_of_characters() {
    assert_eq!(parse_locator("12-48"), Some(CharSpan { start: 12, end: 48 }));
    assert_eq!(parse_locator("p3/ 1 - +2 "), Some(CharSpan { start: 1, end: 2 }));
    for bad in ["", "5", "5-5", "6-5", "a-b", "-1-2", "1-2-3", "p3/", "1-99999999999999999999999"] {
        assert_eq!(parse_locator(bad), None, "{bad}");
    }
}

#[test]
fn normalizing_twice_is_normalizing_once() {
    for s in ["", " a  b ", "報價 ，  要拆", "ＡＰＩ　ｃａｌｌ", "a 中 b", "１ ２"] {
        let once = normalize_for_match(s);
        assert_eq!(normalize_for_match(&once), once, "{s}");
    }
    assert_eq!(normalize_for_match("ｔｈｅ\u{3000}API"), "the API");
    assert!(is_quotable("同意") && is_quotable("A1"));
    assert!(!is_quotable("。、") && !is_quotable("好"));
    assert!(is_quotable("Ａ１") && is_quotable("　。Ａ ！\t１，") && !is_quotable("　。Ａ ！\t，"));
    assert!(!is_quotable("") && !is_quotable("　 \n") && !is_quotable("x！？"));
}

#[test]
fn citations_are_judged_in_a_fixed_order() {
    let evidence = [EvidenceText {
        source_kind: "note".into(),
        source_id: "1".into(),
        source_revision: 2,
        text: "客戶要求月費".into(),
        created_event_seq: 2,
    }];
    let cite = |quote: &str, locator: &str, rev: u32| SourceRef {
        source_kind: "note".into(),
        source_id: "1".into(),
        source_revision: rev,
        locator: locator.into(),
        quoted_text: quote.into(),
        quoted_text_sha256: openmeetnote::citation::sha256_hex(quote.as_bytes()),
        validation_status: String::new(),
    };
    let judge = |r: &SourceRef, through| verify_ref(&evidence, through, r);
    assert_eq!(judge(&cite("客戶要求", "0-4", 2), 2), RefVerdict::Valid);
    assert_eq!(judge(&cite("客戶要求", "0-4", 2), 9), RefVerdict::Valid);
    assert_eq!(judge(&cite("客戶要求", "0-4", 2), 1), RefVerdict::OutsideSnapshot);
    assert_eq!(judge(&cite("客戶要求", "0-4", 3), 9), RefVerdict::UnknownSource);
    assert_eq!(judge(&cite("客戶要求", "0-7", 2), 9), RefVerdict::LocatorOutOfRange);
    assert_eq!(judge(&cite("客戶要求", "1-4", 2), 9), RefVerdict::QuoteNotFound);
    let mut tampered = cite("客戶要求", "0-4", 3);
    tampered.quoted_text.push('月');
    assert_eq!(judge(&tampered, 1), RefVerdict::HashMismatch);
}

struct Stubborn(u32);

impl Planner for Stubborn {
    fn draft(&mut self, _req: &DraftRequest<'_>) -> Result<Vec<Block>, AgentError> {
        Err(AgentError::Provider("不草擬".into()))
    }

    fn redraft(
        &mut self,
        _req: &DraftRequest<'_>,
        block: &Block,
        reason: &str,
    ) -> Result<Option<Block>, AgentError> {
        assert_eq!(reason, "區塊內容與種類不符");
        self.0 += 1;
        Ok(Some(block.clone()))
    }
}

#[test]
fn blocks_are_settled_one_way_or_another() {
    let pack = empty_pack();
    let req = DraftRequest { prompt: "", evidence: &pack, rejections: &[], round: 1, previous: &[] };
    let drafted = vec![
        text_block(BlockKind::Paragraph, ClaimKind::Inference, "好的"),
        text_block(BlockKind::Table, ClaimKind::Inference, "壞的"),
        text_block(BlockKind::Table, ClaimKind::Fact, "壞的事實"),
    ];
    let mut p = Stubborn(0);
    let d = settle_schema(&mut p, &req, drafted).unwrap();
    assert_eq!(p.0, 4);
    assert_eq!((d.blocks.len(), d.degraded.len(), d.removed), (2, 1, 1));
    assert_eq!((d.degraded[0].position, d.degraded[0].original_kind.as_str()), (1, "table"));
    let kept = settle_block(0, BlockKind::Gap, text_block(BlockKind::Gap, ClaimKind::Gap, "x"));
    assert!(matches!(kept, Settled::Kept(_)));
}

#[test]
fn text_is_escaped_and_links_are_kept_safe() {
    assert_eq!(escape("<a href='x'>\"&\""), "&lt;a href=&#39;x&#39;&gt;&quot;&amp;&quot;");
    assert_eq!(safe_href(" HTTPS://x.org/?a&b "), "HTTPS://x.org/?a&amp;b");
    assert_eq!(safe_href("#seg-1"), "#seg-1");
    for bad in ["javascript:alert(1)", "data:text/html,x", "", "httpx://a", "//evil"] {
        assert_eq!(safe_href(bad), "#blocked", "{bad}");
    }
    assert_eq!(mmss(0), "00:00");
    assert_eq!(mmss(61_999), "01:01");
    assert_eq!(mmss(6_000_000), "100:00");
    assert_eq!(truncate_chars("一二三", 3), "一二三");
    assert_eq!(truncate_chars("一二三四", 3), "一二三…");
}

#[test]
fn where_a_decision_stands_among_the_blocks_changes_nothing_in_its_list() {
    let ctx = RenderContext {
        title: "t",
        version_no: 1,
        through_event_seq: 1,
        created_at: "now",
        transcript: &[],
        speakers: &[],
    };
    let p = |t: &str| text_block(BlockKind::Paragraph, ClaimKind::Inference, t);
    let d = |t: &str| text_block(BlockKind::Decision, ClaimKind::Fact, t);
    assert_eq!(section_of(&d("x")), Section::Decisions);
    let list = |blocks: &[Block]| {
        let html = render_html(&ctx, blocks);
        let at = html.find("<section id=\"s-decisions\"").unwrap();
        html[at..].to_owned()
    };
    let first = list(&[d("決一"), p("甲"), d("決二"), p("乙")]);
    let last = list(&[p("甲"), p("乙"), d("決一"), d("決二")]);
    assert_eq!(first, last);
}

#[test]
fn programs_are_waited_for_and_their_ends_are_told() {
    assert_eq!(wait_step(Ok(true), 0), WaitStep::Ended);
    assert_eq!(wait_step(Ok(false), 599_999), WaitStep::Wait);
    let late = AgentError::Provider("生成逾時（600 秒）".into());
    assert_eq!(wait_step(Ok(false), 600_000), WaitStep::GiveUp(late));
    let lost = AgentError::Provider("等待子行程失敗：x".into());
    assert_eq!(wait_step(Err("x".into()), 0), WaitStep::GiveUp(lost));
    assert_eq!(progress_line(" 讀取中 \n", None).as_deref(), Some("讀取中"));
    assert_eq!(progress_line("讀取中", Some(199)), None);
    assert_eq!(progress_line("  \n", Some(200)), None);
    let stderr = "WARNING: old node\nnot logged in\n  \nWARNING: again\n";
    assert_eq!(failure_line(stderr), "not logged in");
    assert_eq!(failure_line("WARNING"), "未提供原因");
    assert_eq!(conclude(true, "x", "out".into(), stderr), Ok("out".into()));
    let failed = AgentError::Provider("/bin/x 回報失敗：not logged in".into());
    assert_eq!(conclude(false, "/bin/x", "out".into(), stderr), Err(failed));
}

#[test]
fn a_fence_depends_on_what_it_fences_in() {
    let a = evidence_fence("甲");
    assert_eq!(a.chars().count(), 12);
    assert_ne!(a, evidence_fence("乙"));
    let p = fence_in("規則\n".into(), &a, "甲");
    assert!(p.starts_with("規則\n"));
    assert!(p.contains(&a) && p.contains("甲"));
}

#[test]
fn answers_are_read_or_refused() {
    assert_eq!(extract_json("沒有"), None);
    assert_eq!(extract_json("{\"a\":1} tail").as_deref(), Some("{\"a\":1}"));
    assert!(matches!(parse_blocks(None), Err(AgentError::Provider(_))));
    let bad = Readings { as_list: Err("expected".into()), as_one: None };
    let refused = parse_blocks(Some(bad)).unwrap_err().message();
    assert_eq!(refused, "Provider 回報錯誤：回應不符合區塊格式：expected");
    let mut claimed = text_block(BlockKind::Paragraph, ClaimKind::Fact, "x");
    claimed.source_refs.push(SourceRef {
        source_kind: "note".into(),
        source_id: "1".into(),
        source_revision: 1,
        locator: "0-2".into(),
        quoted_text: "abc".into(),
        quoted_text_sha256: "forged".into(),
        validation_status: "valid".into(),
    });
    let b = complete_block(claimed);
    assert_eq!(b.source_refs[0].validation_status, "unverified");
    assert_eq!(
        b.source_refs[0].quoted_text_sha256,
        "ba7816bf8f01cfea414140de5dae2223b00361a396177a9cb410ff61f20015ad"
    );
}

#[test]
fn the_built_in_planner_quotes_and_makes_nothing_up() {
    let pack = empty_pack();
    let req = DraftRequest {
        prompt: "  整理  ",
        evidence: &pack,
        rejections: &[],
        round: 1,
        previous: &[],
    };
    let blocks = FixturePlanner.draft(&req).unwrap();
    assert_eq!(blocks.len(), 2);
    assert_eq!(blocks[1].content.plain_text(), "整理");
    assert!(blocks.iter().all(|b| b.claim_kind == ClaimKind::Inference));
}

#[test]
fn a_late_poll_makes_up_for_the_steps_it_missed() {
    let mut a = FixtureSource::default();
    let mut b = FixtureSource::default();
    for _ in 0..20 {
        assert!(a.poll(100).is_empty());
    }
    for _ in 0..5 {
        b.poll(400);
    }
    let one: Vec<TranscriptInput> = (0..4).flat_map(|_| a.poll(100)).collect();
    let all = b.poll(400);
    assert_eq!(one, all);
    assert_eq!(all.len(), 4);
    assert_eq!(b.poll(99_999).len(), 8);
    assert_eq!(b.poll(0).len(), 1);
}

#[test]
fn what_a_state_allows() {
    let all = [
        MeetingState::Idle,
        MeetingState::Recording,
        MeetingState::Paused,
        MeetingState::Stopping,
        MeetingState::Finalizing,
        MeetingState::Completed,
        MeetingState::Failed,
    ];
    let work: Vec<bool> = all.iter().map(|s| s.accepts_document_work()).collect();
    assert_eq!(work, [false, true, true, false, false, false, false]);
    let snap: Vec<bool> = all.iter().map(|s| s.accepts_snapshot()).collect();
    assert_eq!(snap, [false, true, true, false, false, true, false]);
    let name: Vec<bool> = all.iter().map(|s| s.accepts_speaker_naming()).collect();
    assert_eq!(name, [false, true, true, false, true, true, true]);
}

#[test]
fn letters_and_numbers_keep_their_class_in_every_width() {
    for n in 0xFF01..=0xFF5Eu32 {
        let wide = char::from_u32(n).unwrap();
        let ascii = char::from_u32(n - 0xFEE0).unwrap();
        let two = |c: char| is_quotable(&format!("{c}{c}"));
        assert_eq!(wide.is_alphanumeric(), ascii.is_ascii_alphanumeric(), "{wide}");
        assert_eq!(two(wide), two(ascii), "{wide}");
    }
    for c in (0..=0x3000u32).filter_map(char::from_u32).filter(|c| c.is_whitespace()) {
        assert!(!c.is_alphanumeric(), "{c:?}");
    }
}
