//! Blocks, their citations, and the page that they become.

use openmeetnote::citation::{
    normalize_for_match, sha256_hex, verify_blocks, verify_ref, RefVerdict,
};
use openmeetnote::document::{Block, BlockContent, BlockKind, SchemaError};
use openmeetnote::model::{ClaimKind, Origin, Track, UNKNOWN_REMOTE};
use openmeetnote::render::{escape, find_name, render_html, speaker_names, RenderContext};
use openmeetnote::store::{DocumentBlock, EvidenceText, SourceRef, StoredSegment, StoredSpeaker};

fn source(kind: &str, id: &str, revision: u32, text: &str, seq: u64) -> EvidenceText {
    EvidenceText {
        source_kind: kind.into(),
        source_id: id.into(),
        source_revision: revision,
        text: text.into(),
        created_event_seq: seq,
    }
}

/// A segment and a note, and the cursor after them.
fn evidence() -> (Vec<EvidenceText>, u64) {
    let list = vec![
        source("transcript_segment", "1", 1, "報價要拆成設計、開發、維運三項", 1),
        source("note", "1", 2, "客戶要求維運月費區間", 2),
    ];
    (list, 2)
}

fn named(names: &Vec<(String, String)>, id: &str) -> String {
    find_name(names, id).unwrap().clone()
}

fn ctx() -> RenderContext<'static> {
    RenderContext {
        title: "測試會議",
        version_no: 1,
        through_event_seq: 10,
        created_at: "2026-08-05T00:00:00Z",
        transcript: &[],
        speakers: &[],
    }
}

fn block(kind: BlockKind, content: BlockContent) -> Block {
    Block {
        kind,
        claim_kind: ClaimKind::Inference,
        content,
        source_refs: vec![],
    }
}

#[test]
fn test_script_tags_in_content_cannot_escape_into_markup() {
    let html = render_html(
        &ctx(),
        &[block(
            BlockKind::Paragraph,
            BlockContent::Text {
                text: "<script>alert(1)</script>".into(),
            },
        )],
    );
    assert!(!html.contains("<script>"), "腳本標籤原樣進了輸出");
    assert!(html.contains("&lt;script&gt;"), "沒有被轉義成文字");
}

#[test]
fn test_javascript_urls_are_blocked_but_still_visible() {
    let html = render_html(
        &ctx(),
        &[block(
            BlockKind::SourceLink,
            BlockContent::Link {
                label: "看起來正常的連結".into(),
                target: "javascript:alert(1)".into(),
            },
        )],
    );
    assert!(!html.contains("javascript:"), "危險協定進了 href");
    assert!(html.contains("#blocked"), "擋下來的連結沒有改成安全目標");
    assert!(html.contains("看起來正常的連結"));
}

#[test]
fn test_a_link_target_cannot_break_out_of_the_href_attribute() {
    let html = render_html(
        &ctx(),
        &[block(
            BlockKind::SourceLink,
            BlockContent::Link {
                label: "x".into(),
                target: "https://example.com\" onclick=\"alert(1)".into(),
            },
        )],
    );
    assert!(!html.contains("\" onclick="), "屬性被跳脫出來了");
    assert!(html.contains("&quot;"), "引號沒有被轉義");
}

#[test]
fn test_mermaid_source_is_escaped_so_it_cannot_close_its_container() {
    let html = render_html(
        &ctx(),
        &[block(
            BlockKind::MermaidDiagram,
            BlockContent::Mermaid {
                source: "graph TD</pre><script>alert(1)</script><pre>".into(),
            },
        )],
    );
    assert!(!html.contains("<script>"), "從 mermaid 容器跳出去了");
    assert!(html.contains("&lt;/pre&gt;"), "結束標籤沒有被轉義");
}

#[test]
fn test_a_callout_tone_cannot_inject_an_attribute() {
    let html = render_html(
        &ctx(),
        &[block(
            BlockKind::Callout,
            BlockContent::Callout {
                tone: "warn\" onload=\"alert(1)".into(),
                title: "標題".into(),
                body: "內容".into(),
            },
        )],
    );
    assert!(!html.contains("\" onload="), "屬性值被跳脫出來了");
    assert!(html.contains("&quot;"), "引號沒有被轉義");
}

#[test]
fn test_transcript_text_is_escaped_in_the_export() {
    let seg = StoredSegment {
        segment_id: 1,
        revision: 1,
        origin: Origin::Provider,
        speaker_id: Some("<img src=x onerror=alert(1)>".into()),
        text: "<b>粗體</b>".into(),
        track: Track::Mic,
        meeting_start_ms: 0,
        meeting_end_ms: 1000,
        user_edited: false,
    };
    let speakers = vec![StoredSpeaker {
        speaker_id: "<img src=x onerror=alert(1)>".into(),
        ordinal: 1,
        proposed_name: None,
        confirmed_name: Some("<script>alert(1)</script>".into()),
        status: "confirmed".into(),
    }];
    let c = RenderContext {
        transcript: std::slice::from_ref(&seg),
        speakers: &speakers,
        ..ctx()
    };
    let html = render_html(&c, &[]);
    assert!(!html.contains("<img "), "語者識別碼可以注入元素");
    assert!(!html.contains("<script>alert"), "語者名稱可以注入元素");
    assert!(!html.contains("<b>粗體</b>"), "逐字稿內容沒有被轉義");
    assert!(html.contains("&lt;b&gt;"), "轉義後的內容不見了");
}

#[test]
fn the_export_calls_a_speaker_what_the_screen_calls_them() {
    let seg = |id: &str, track| StoredSegment {
        segment_id: 1,
        revision: 1,
        origin: Origin::Provider,
        speaker_id: Some(id.into()),
        text: "說了一句話".into(),
        track,
        meeting_start_ms: 0,
        meeting_end_ms: 1000,
        user_edited: false,
    };
    let speaker = |id: &str, ordinal, confirmed: Option<&str>| StoredSpeaker {
        speaker_id: id.into(),
        ordinal,
        proposed_name: None,
        confirmed_name: confirmed.map(str::to_owned),
        status: "confirmed".into(),
    };
    let transcript = vec![
        seg("me", Track::Mic),
        seg("s1", Track::System),
        seg("s2", Track::System),
    ];
    let speakers = vec![
        speaker("me", 1, None),
        speaker("s1", 2, Some("Alice")),
        speaker("s2", 3, None),
    ];
    let c = RenderContext {
        transcript: &transcript,
        speakers: &speakers,
        ..ctx()
    };
    let html = render_html(&c, &[]);
    assert!(html.contains("Alice"), "確認過的名字沒有進匯出檔");
    assert!(!html.contains(">s1<"), "還在顯示內部識別碼");
    assert!(html.contains("我"), "麥克風軌沒有顯示成「我」");
    assert!(
        html.contains("語者 2"),
        "遠端語者的編號跟著麥克風軌一起數了"
    );
}

fn remote_and_one_named_speaker() -> Vec<(String, String)> {
    let seg = |id: &str, track| StoredSegment {
        segment_id: 1,
        revision: 1,
        origin: Origin::Provider,
        speaker_id: Some(id.into()),
        text: "說了一句話".into(),
        track,
        meeting_start_ms: 0,
        meeting_end_ms: 1000,
        user_edited: false,
    };
    let speaker = |id: &str, ordinal| StoredSpeaker {
        speaker_id: id.into(),
        ordinal,
        proposed_name: None,
        confirmed_name: None,
        status: "proposed".into(),
    };
    speaker_names(
        &[speaker(UNKNOWN_REMOTE, 1), speaker("s1", 2)],
        &[seg(UNKNOWN_REMOTE, Track::System), seg("s1", Track::System)],
    )
}

#[test]
fn test_the_unidentified_remote_speaker_is_not_numbered_in_the_export() {
    let names = remote_and_one_named_speaker();
    assert_eq!(named(&names, UNKNOWN_REMOTE), "遠端");
    assert_eq!(named(&names, "s1"), "語者 1", "「遠端」佔掉了一個編號");
}

#[test]
fn test_a_name_stored_on_the_remote_sentinel_does_not_take_effect() {
    let names = speaker_names(
        &[StoredSpeaker {
            speaker_id: UNKNOWN_REMOTE.into(),
            ordinal: 1,
            proposed_name: None,
            confirmed_name: Some("Alice".into()),
            status: "confirmed".into(),
        }],
        &[StoredSegment {
            segment_id: 1,
            revision: 1,
            origin: Origin::Provider,
            speaker_id: Some(UNKNOWN_REMOTE.into()),
            text: "說了一句話".into(),
            track: Track::System,
            meeting_start_ms: 0,
            meeting_end_ms: 1000,
            user_edited: false,
        }],
    );
    assert_eq!(named(&names, UNKNOWN_REMOTE), "遠端");
}

#[test]
fn test_the_title_is_escaped_too() {
    let c = RenderContext {
        title: "</title><script>alert(1)</script>",
        ..ctx()
    };
    let html = render_html(&c, &[]);
    assert!(!html.contains("<script>"), "標題可以跳出 title 元素");
}

#[test]
fn test_inferences_are_separated_from_facts_in_the_export() {
    let html = render_html(
        &ctx(),
        &[
            Block {
                kind: BlockKind::Paragraph,
                claim_kind: ClaimKind::Fact,
                content: BlockContent::Text {
                    text: "這是事實".into(),
                },
                source_refs: vec![],
            },
            Block {
                kind: BlockKind::Gap,
                claim_kind: ClaimKind::Gap,
                content: BlockContent::Text {
                    text: "這是缺口".into(),
                },
                source_refs: vec![],
            },
        ],
    );
    let fact_at = html.find("這是事實").expect("事實應該出現");
    let aside_at = html
        .find("<section id=\"s-open\"")
        .expect("缺口區段應該存在");
    let gap_at = html.find("這是缺口").expect("缺口應該出現");
    assert!(
        fact_at < aside_at,
        "事實排在缺口區段之後了 fact={fact_at} aside={aside_at}"
    );
    assert!(
        aside_at < gap_at,
        "缺口沒有落在獨立區段裡 aside={aside_at} gap={gap_at}"
    );
}


fn doc() -> Vec<Block> {
    vec![
        Block {
            kind: BlockKind::Decision,
            claim_kind: ClaimKind::Fact,
            content: BlockContent::Text {
                text: "決議凍結兩百萬元".into(),
            },
            source_refs: vec![],
        },
        Block {
            kind: BlockKind::Callout,
            claim_kind: ClaimKind::Inference,
            content: BlockContent::Callout {
                tone: "summary".into(),
                title: "成果摘要".into(),
                body: "本次會議審查預算案。".into(),
            },
            source_refs: vec![],
        },
        Block {
            kind: BlockKind::Heading,
            claim_kind: ClaimKind::Inference,
            content: BlockContent::Heading {
                level: 1,
                text: "預算審查".into(),
            },
            source_refs: vec![],
        },
        Block {
            kind: BlockKind::Paragraph,
            claim_kind: ClaimKind::Inference,
            content: BlockContent::Text {
                text: "主文內容".into(),
            },
            source_refs: vec![],
        },
        Block {
            kind: BlockKind::ActionItem,
            claim_kind: ClaimKind::Fact,
            content: BlockContent::ActionItem {
                text: "函請文化部表達意見".into(),
                owner: Some("文化部".into()),
                due: None,
            },
            source_refs: vec![],
        },
    ]
}

#[test]
fn test_the_summary_callout_leads_the_document_wherever_the_model_put_it() {
    let html = render_html(&ctx(), &doc());
    let summary = html
        .find("<section id=\"s-summary\"")
        .expect("沒有成果摘要區");
    let body = html.find("<section id=\"s-body\"").expect("沒有主文區");
    assert!(summary < body, "成果摘要沒有排在主文之前");
    assert_eq!(
        html.matches("本次會議審查預算案。").count(),
        1,
        "摘要被渲染了兩次"
    );
}

#[test]
fn test_decisions_and_action_items_get_their_own_section() {
    let html = render_html(&ctx(), &doc());
    let at = html
        .find("<section id=\"s-decisions\"")
        .expect("沒有決議區");
    let tail = &html[at..];
    assert!(tail.contains("決議凍結兩百萬元"), "決議沒有進決議區");
    assert!(tail.contains("函請文化部表達意見"), "行動項目沒有進決議區");
    assert!(tail.contains("<h3>決議</h3>") && tail.contains("<h3>行動項目</h3>"));
    assert!(tail.contains("文化部"), "行動項目的負責人不見了");
    assert!(!html[..at].contains("決議凍結兩百萬元"), "決議被渲染了兩次");
}

#[test]
fn test_the_table_of_contents_only_lists_sections_that_exist() {
    let html = render_html(&ctx(), &doc());
    assert!(html.contains("<nav class=\"toc\""), "沒有目錄");
    for anchor in ["#s-summary", "#s-body", "#s-decisions"] {
        assert!(html.contains(anchor), "目錄少了 {anchor}");
    }
    assert!(!html.contains("#s-open"), "目錄列了不存在的缺口區");
    assert!(!html.contains("#s-transcript"), "目錄列了不存在的逐字稿");
    assert!(html.contains("id=\"h-"), "主文標題沒有錨點");
}

#[test]
fn test_a_citation_to_an_older_revision_still_has_somewhere_to_land() {
    let (mut s, _) = evidence();
    let text = "報價要拆成設計、開發、維運三項，這點下次再確認";
    let seq = 3;
    s.push(source("transcript_segment", "1", 2, text, seq));
    let quote = "報價要拆成";
    let block = Block {
        kind: BlockKind::Paragraph,
        claim_kind: ClaimKind::Fact,
        content: BlockContent::Text {
            text: "報價分三項".into(),
        },
        source_refs: vec![SourceRef {
            source_kind: "transcript_segment".into(),
            source_id: "1".into(),
            source_revision: 1,
            locator: "0-5".into(),
            quoted_text: quote.into(),
            quoted_text_sha256: sha256_hex(quote.as_bytes()),
            validation_status: "unverified".into(),
        }],
    };
    let (ok, _) = verify_blocks(&s, seq, &[block]);
    assert_eq!(ok.len(), 1, "引用舊版本本身應該是合法的");

    let transcript = vec![StoredSegment {
        segment_id: 1,
        revision: 2,
        origin: Origin::User,
        speaker_id: Some("s1".into()),
        text: text.into(),
        track: Track::System,
        meeting_start_ms: 0,
        meeting_end_ms: 4000,
        user_edited: true,
    }];
    let html = render_html(
        &RenderContext {
            title: "修訂",
            version_no: 1,
            through_event_seq: seq,
            created_at: "2026-08-05T00:00:00Z",
            transcript: &transcript,
            speakers: &[],
        },
        &ok,
    );
    assert!(html.contains("href=\"#seg-1\""), "引用沒有指向片段本身");
    assert!(html.contains("id=\"seg-1\""), "逐字稿沒有可落地的錨點");
    assert!(
        html.contains("data-stale=\"1\""),
        "沒有標示引用依據的版本已被修訂"
    );
    assert!(html.contains("（已修訂）"));
}

#[test]
fn a_note_citation_does_not_pretend_to_point_at_the_transcript() {
    let html = render_html(
        &ctx(),
        &[Block {
            kind: BlockKind::Paragraph,
            claim_kind: ClaimKind::Fact,
            content: BlockContent::Text {
                text: "筆記裡寫的事".into(),
            },
            source_refs: vec![SourceRef {
                source_kind: "note".into(),
                source_id: "7".into(),
                source_revision: 3,
                locator: "0-4".into(),
                quoted_text: "追維運報價".into(),
                quoted_text_sha256: sha256_hex("追維運報價".as_bytes()),
                validation_status: "valid".into(),
            }],
        }],
    );
    assert!(!html.contains("href=\"#seg-7\""), "筆記引用指到了逐字稿");
    assert!(html.contains("note 7"), "筆記引用整個不見了");
}

#[test]
fn test_a_document_without_a_summary_simply_has_no_summary_section() {
    let html = render_html(
        &ctx(),
        &[Block {
            kind: BlockKind::Paragraph,
            claim_kind: ClaimKind::Inference,
            content: BlockContent::Text {
                text: "只有主文".into(),
            },
            source_refs: vec![],
        }],
    );
    assert!(!html.contains("s-summary"), "無中生有了一個成果摘要區");
    assert!(html.contains("只有主文"));
}

#[test]
fn test_a_summary_callout_cannot_inject_markup_from_its_lead_position() {
    let html = render_html(
        &ctx(),
        &[Block {
            kind: BlockKind::Callout,
            claim_kind: ClaimKind::Inference,
            content: BlockContent::Callout {
                tone: "summary".into(),
                title: "x".into(),
                body: "<img src=x onerror=alert(1)>".into(),
            },
            source_refs: vec![],
        }],
    );
    assert!(!html.contains("<img"), "摘要區沒有轉義");
    assert!(html.contains("&lt;img"));
}


fn cite(kind: &str, id: &str, rev: u32, locator: &str, quote: &str) -> SourceRef {
    SourceRef {
        source_kind: kind.into(),
        source_id: id.into(),
        source_revision: rev,
        locator: locator.into(),
        quoted_text: quote.into(),
        quoted_text_sha256: sha256_hex(quote.as_bytes()),
        validation_status: "unverified".into(),
    }
}

fn fact(text: &str, refs: Vec<SourceRef>) -> Block {
    Block {
        kind: BlockKind::Paragraph,
        claim_kind: ClaimKind::Fact,
        content: BlockContent::Text { text: text.into() },
        source_refs: refs,
    }
}


#[test]
fn an_empty_quote_is_not_a_citation() {
    let (s, cursor) = evidence();
    for empty in ["", "   ", "　", "\n\t"] {
        let r = cite("transcript_segment", "1", 1, "0-0", empty);
        assert_eq!(
            verify_ref(&s, cursor, &r),
            RefVerdict::QuoteNotFound,
            "空引文 {empty:?} 通過了驗證"
        );
    }
}

#[test]
fn a_block_whose_only_citation_is_empty_is_not_admitted() {
    let (s, cursor) = evidence();
    let block = Block {
        kind: BlockKind::Paragraph,
        claim_kind: ClaimKind::Fact,
        content: BlockContent::Text {
            text: "客戶已同意八折".into(),
        },
        source_refs: vec![cite("transcript_segment", "1", 1, "0-0", "")],
    };
    let (ok, verdicts) = verify_blocks(&s, cursor, &[block]);
    assert!(ok.is_empty(), "空引用的 Fact 進到成果了");
    assert!(!verdicts[0].admitted);
}

#[test]
fn a_quote_that_exists_in_the_cited_revision_passes() {
    let (s, cursor) = evidence();
    let r = cite("transcript_segment", "1", 1, "0-15", "報價要拆成設計");
    assert_eq!(verify_ref(&s, cursor, &r), RefVerdict::Valid);
}

#[test]
fn a_fabricated_quote_is_rejected_even_when_the_source_exists() {
    let (s, cursor) = evidence();
    let r = cite("transcript_segment", "1", 1, "0-10", "客戶同意打八折");
    assert_eq!(
        verify_ref(&s, cursor, &r),
        RefVerdict::QuoteNotFound
    );
}

#[test]
fn a_revision_created_after_the_snapshot_cursor_is_out_of_scope() {
    let (mut s, _) = evidence();
    let cursor = 1;
    s.push(source("note", "2", 3, "後來才記的", 3));
    let r = cite("note", "2", 3, "0-5", "後來才記的");
    assert_eq!(
        verify_ref(&s, cursor, &r),
        RefVerdict::OutsideSnapshot
    );
}

#[test]
fn a_zero_width_locator_with_a_lone_punctuation_mark_no_longer_passes() {
    let (s, cursor) = evidence();
    let r = cite("transcript_segment", "1", 1, "0-0", "、");
    assert_ne!(verify_ref(&s, cursor, &r), RefVerdict::Valid);
    let r = cite("transcript_segment", "1", 1, "5-6", "、");
    assert_eq!(
        verify_ref(&s, cursor, &r),
        RefVerdict::QuoteNotFound
    );
}

#[test]
fn a_quote_outside_the_locator_is_rejected_even_though_it_is_in_the_source() {
    let (s, cursor) = evidence();
    let r = cite("transcript_segment", "1", 1, "0-5", "維運三項");
    assert_eq!(
        verify_ref(&s, cursor, &r),
        RefVerdict::QuoteNotFound
    );
    let r = cite("transcript_segment", "1", 1, "11-15", "維運三項");
    assert_eq!(verify_ref(&s, cursor, &r), RefVerdict::Valid);
}

#[test]
fn a_locator_past_the_end_of_the_revision_is_rejected() {
    let (s, cursor) = evidence();
    let r = cite("transcript_segment", "1", 1, "0-999", "報價要拆成設計");
    assert_eq!(
        verify_ref(&s, cursor, &r),
        RefVerdict::LocatorOutOfRange
    );
}

#[test]
fn an_unparseable_locator_fails_instead_of_skipping_the_check() {
    let (s, cursor) = evidence();
    let r = cite("transcript_segment", "1", 1, "整段", "報價要拆成設計");
    assert_eq!(
        verify_ref(&s, cursor, &r),
        RefVerdict::LocatorOutOfRange
    );
}

#[test]
fn a_tampered_citation_record_is_caught_by_its_own_hash() {
    let (s, cursor) = evidence();
    let mut r = cite("transcript_segment", "1", 1, "0-15", "報價要拆成設計");
    r.quoted_text = "報價要拆成設計、開發".into();
    assert_eq!(
        verify_ref(&s, cursor, &r),
        RefVerdict::HashMismatch
    );
}

#[test]
fn a_note_citation_must_match_the_event_seq_that_created_it() {
    let (s, cursor) = evidence();
    let ok = cite("note", "1", 2, "0-10", "客戶要求維運月費區間");
    assert_eq!(verify_ref(&s, cursor, &ok), RefVerdict::Valid);
    let wrong = cite("note", "1", 99, "0-10", "客戶要求維運月費區間");
    assert_eq!(
        verify_ref(&s, cursor, &wrong),
        RefVerdict::UnknownSource
    );
}

#[test]
fn normalization_folds_width_and_whitespace_but_not_meaning() {
    assert_eq!(
        normalize_for_match("報價 ，  要拆"),
        normalize_for_match("報價, 要拆")
    );
    assert_eq!(normalize_for_match("ＡＰＩ"), "API");
    assert_eq!(normalize_for_match("the  API   call"), "the API call");
    assert_ne!(
        normalize_for_match("API call"),
        normalize_for_match("APIcall")
    );
    assert_ne!(normalize_for_match("同意"), normalize_for_match("不同意"));
}


#[test]
fn a_fact_block_without_any_citation_is_not_admitted() {
    let (s, cursor) = evidence();
    let (ok, verdicts) =
        verify_blocks(&s, cursor, &[fact("會議決定拆成三項", vec![])]);
    assert!(ok.is_empty());
    assert!(!verdicts[0].admitted);
    assert!(verdicts[0].reason.as_ref().unwrap().contains("引用"));
}

#[test]
fn a_suggestion_needs_no_citation_and_is_admitted() {
    let (s, cursor) = evidence();
    let b = Block {
        kind: BlockKind::Suggestion,
        claim_kind: ClaimKind::Suggestion,
        content: BlockContent::Text {
            text: "建議在範圍書加入頁數上限".into(),
        },
        source_refs: vec![],
    };
    let (ok, _) = verify_blocks(&s, cursor, &[b]);
    assert_eq!(ok.len(), 1);
}

#[test]
fn a_decision_block_cannot_claim_to_be_an_inference() {
    let b = Block {
        kind: BlockKind::Decision,
        claim_kind: ClaimKind::Inference,
        content: BlockContent::Text {
            text: "決定採用方案 A".into(),
        },
        source_refs: vec![],
    };
    assert_eq!(
        b.validate(),
        Err(SchemaError::ClaimKindNotAllowed {
            required: ClaimKind::Fact
        })
    );
}

#[test]
fn a_block_whose_content_shape_does_not_match_its_kind_is_rejected() {
    let b = Block {
        kind: BlockKind::Table,
        claim_kind: ClaimKind::Inference,
        content: BlockContent::Text {
            text: "不是表格".into(),
        },
        source_refs: vec![],
    };
    assert_eq!(b.validate(), Err(SchemaError::ContentShapeMismatch));
}

#[test]
fn a_table_with_ragged_rows_is_rejected() {
    let b = Block {
        kind: BlockKind::Table,
        claim_kind: ClaimKind::Inference,
        content: BlockContent::Table {
            headers: vec!["項目".into(), "金額".into()],
            rows: vec![vec!["設計".into()]],
        },
        source_refs: vec![],
    };
    assert_eq!(b.validate(), Err(SchemaError::OutOfRange("表格欄數")));
}

#[test]
fn a_fact_block_may_not_degrade_to_a_paragraph() {
    assert!(!BlockKind::may_degrade(ClaimKind::Fact));
    assert!(BlockKind::may_degrade(ClaimKind::Inference));
    assert!(BlockKind::may_degrade(ClaimKind::Suggestion));
}


fn render_one(b: Block) -> String {
    render_html(
        &RenderContext {
            title: "會議摘要",
            version_no: 1,
            through_event_seq: 10,
            created_at: "2026-08-01T00:00:00.000Z",
            transcript: &[],
            speakers: &[],
        },
        &[b],
    )
}

#[test]
fn transcript_content_is_escaped_not_executed() {
    let html = render_one(fact("<script>alert(1)</script>", vec![]));
    assert!(!html.contains("<script>alert"));
    assert!(html.contains("&lt;script&gt;"));
}

#[test]
fn mermaid_source_cannot_break_out_of_its_container() {
    let b = Block {
        kind: BlockKind::MermaidDiagram,
        claim_kind: ClaimKind::Inference,
        content: BlockContent::Mermaid {
            source: "graph TD</pre><script>alert(1)</script>".into(),
        },
        source_refs: vec![],
    };
    let html = render_one(b);
    assert!(!html.contains("</pre><script>"));
}

#[test]
fn a_javascript_url_is_not_rendered_as_a_live_link() {
    let b = Block {
        kind: BlockKind::SourceLink,
        claim_kind: ClaimKind::Inference,
        content: BlockContent::Link {
            label: "看這裡".into(),
            target: "javascript:alert(1)".into(),
        },
        source_refs: vec![],
    };
    let html = render_one(b);
    assert!(!html.contains("javascript:"));
    assert!(html.contains("#blocked"));
}

#[test]
fn inference_and_gap_are_rendered_apart_from_facts() {
    let (s, cursor) = evidence();
    let blocks = vec![
        fact(
            "報價拆成三項",
            vec![cite("transcript_segment", "1", 1, "0-15", "報價要拆成設計")],
        ),
        Block {
            kind: BlockKind::Gap,
            claim_kind: ClaimKind::Gap,
            content: BlockContent::Text {
                text: "SLA 尚未談定".into(),
            },
            source_refs: vec![],
        },
    ];
    let (ok, _) = verify_blocks(&s, cursor, &blocks);
    assert_eq!(ok.len(), 2);
    let html = render_html(
        &RenderContext {
            title: "會議摘要",
            version_no: 1,
            through_event_seq: cursor,
            created_at: "2026-08-01T00:00:00.000Z",
            transcript: &[StoredSegment {
                segment_id: 1,
                revision: 1,
                origin: Origin::Provider,
                speaker_id: Some("s1".into()),
                text: "報價要拆成設計、開發、維運三項".into(),
                track: Track::System,
                meeting_start_ms: 1000,
                meeting_end_ms: 4000,
                user_edited: false,
            }],
            speakers: &[],
        },
        &ok,
    );
    let facts_end = html
        .find("<section id=\"s-open\"")
        .expect("缺口沒有獨立區段");
    assert!(html[..facts_end].contains("報價拆成三項"));
    assert!(html[facts_end..].contains("SLA 尚未談定"));
    assert!(html.contains("報價要拆成設計、開發、維運三項"));
    assert!(html.contains("版本 v1"));
    assert!(html.contains("不代表該陳述已被驗證為真"));
}

#[test]
fn a_block_survives_a_round_trip_through_the_database_shape() {
    let b = Block {
        kind: BlockKind::Table,
        claim_kind: ClaimKind::Inference,
        content: BlockContent::Table {
            headers: vec!["項目".into(), "金額".into()],
            rows: vec![vec!["設計".into(), "120000".into()]],
        },
        source_refs: vec![],
    };
    let json = r#"{"type":"table","headers":["項目","金額"],"rows":[["設計","120000"]]}"#;
    let stored = b.to_stored(0, Some(json.into()));
    assert_eq!(stored.kind, "table");
    assert_eq!(stored.content, json);
    assert_eq!(b.to_stored(0, None).content, "{}");
    assert_eq!(Block::from_stored(&stored, Some(b.content.clone())), Some(b));
}

#[test]
fn a_corrupt_stored_block_returns_none_instead_of_an_empty_block() {
    let bad = DocumentBlock {
        position: 0,
        kind: "table".into(),
        claim_kind: ClaimKind::Fact,
        content: "{not json".into(),
        source_refs: vec![],
    };
    assert!(serde_json::from_str::<serde_json::Value>(&bad.content).is_err());
    assert_eq!(Block::from_stored(&bad, None), None);
}

#[test]
fn an_admitted_block_carries_its_verified_status_not_the_models_claim() {
    let (s, cursor) = evidence();
    let b = fact(
        "報價拆成三項",
        vec![cite("transcript_segment", "1", 1, "0-15", "報價要拆成設計")],
    );
    assert_eq!(b.source_refs[0].validation_status, "unverified");
    let (ok, _) = verify_blocks(&s, cursor, &[b]);
    assert_eq!(ok[0].source_refs[0].validation_status, "valid");
}

#[test]
fn plain_text_keeps_the_content_when_a_block_degrades() {
    let c = BlockContent::Table {
        headers: vec!["項目".into(), "金額".into()],
        rows: vec![vec!["設計".into(), "120000".into()]],
    };
    let t = c.plain_text();
    assert!(t.contains("設計") && t.contains("120000"));
}

fn heading(level: u8, text: &str) -> Block {
    block(BlockKind::Heading, BlockContent::Heading { level, text: text.into() })
}

fn text(kind: BlockKind, text: &str) -> Block {
    block(kind, BlockContent::Text { text: text.into() })
}

/// What follows a mark wherever it stands, up to the next quotation mark.
fn values<'a>(s: &'a str, mark: &str) -> Vec<&'a str> {
    s.split(mark).skip(1).map(|rest| rest.split('"').next().unwrap()).collect()
}

#[test]
fn escaped_text_reads_back() {
    let raw = "a & b < c > d \" e ' f &lt; &amp;lt;";
    let escaped = escape(raw);
    assert_eq!(
        escaped,
        "a &amp; b &lt; c &gt; d &quot; e &#39; f &amp;lt; &amp;amp;lt;"
    );
    let back = escaped
        .replace("&lt;", "<")
        .replace("&gt;", ">")
        .replace("&quot;", "\"")
        .replace("&#39;", "'")
        .replace("&amp;", "&");
    assert_eq!(back, raw);
    assert_eq!(escape("報價 plain #1"), "報價 plain #1");
    assert_eq!(escape("<>"), escape("<") + &escape(">"));
}

#[test]
fn sections_come_once_and_in_order_whatever_the_text_says() {
    let mut gap = text(BlockKind::Gap, "<section id=\"s-open\">");
    gap.claim_kind = ClaimKind::Gap;
    let blocks = [
        gap,
        text(BlockKind::Decision, "<section id=\"s-body\">"),
        text(BlockKind::Paragraph, "id=\"s-summary\""),
        block(
            BlockKind::Callout,
            BlockContent::Callout {
                tone: "summary".into(),
                title: "t".into(),
                body: "<section id=\"s-summary\">".into(),
            },
        ),
    ];
    let html = render_html(&ctx(), &blocks);
    assert_eq!(
        values(&html, "<section id=\""),
        ["s-summary", "s-body", "s-decisions", "s-open"]
    );
    let only = render_html(&ctx(), &[text(BlockKind::Decision, "d")]);
    assert_eq!(values(&only, "<section id=\""), ["s-decisions"]);
    assert!(!only.contains("<nav class=\"toc\""), "只有一個區還列目錄");
}

#[test]
fn every_link_of_the_table_of_contents_has_one_place_to_land() {
    let blocks = [
        heading(1, "id=\"h-2\""),
        heading(3, "deep"),
        heading(2, "two"),
        text(BlockKind::Decision, "d"),
    ];
    let html = render_html(&ctx(), &blocks);
    assert_eq!(html.matches("<nav class=\"toc\"").count(), 1);
    let start = html.find("<nav").unwrap();
    let end = html.find("</nav>").unwrap();
    let links = values(&html[start..end], "href=\"#");
    assert_eq!(links, ["s-body", "h-0", "h-2", "s-decisions"]);
    for link in links {
        assert_eq!(html.matches(&format!("id=\"{link}\"")).count(), 1, "{link}");
    }
}

#[test]
fn a_decision_stands_in_the_same_place_wherever_it_was_written() {
    let d = || text(BlockKind::Decision, "採用方案 A");
    let (p, q) = (|| text(BlockKind::Paragraph, "一"), || heading(3, "二"));
    let first = render_html(&ctx(), &[d(), p(), q()]);
    assert_eq!(first, render_html(&ctx(), &[p(), d(), q()]));
    assert_eq!(first, render_html(&ctx(), &[p(), q(), d()]));
}
