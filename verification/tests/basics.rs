//! Words, numbers and instants.

use openmeetnote::citation::sha256_hex;
use openmeetnote::clock::{
    civil_from_days, format_utc_millis, now_utc, reading_millis, stamp_millis,
};
use openmeetnote::loopback::is_loopback_address;
use openmeetnote::model::{ClaimKind, MeetingState, Origin, ProviderKind, Track};
use openmeetnote::text::{is_blank, signed_text, to_ascii_lower, trim};

#[test]
fn format_utc_millis_matches_known_instants() {
    assert_eq!(format_utc_millis(0), "1970-01-01T00:00:00.000Z");
    assert_eq!(format_utc_millis(1_000), "1970-01-01T00:00:01.000Z");
    assert_eq!(format_utc_millis(1_785_542_400_000), "2026-08-01T00:00:00.000Z");
    assert_eq!(format_utc_millis(1_709_164_800_123), "2024-02-29T00:00:00.123Z");
}

#[test]
fn now_utc_is_sortable_as_a_plain_string() {
    let a = format_utc_millis(1_785_542_400_000);
    let b = format_utc_millis(1_785_542_401_000);
    assert!(a < b, "字典序必須等同時間序，否則欄位排序會錯");
    assert_eq!(now_utc().len(), a.len());
}

#[test]
fn every_enum_round_trips_through_its_database_string() {
    for s in [
        MeetingState::Idle,
        MeetingState::Recording,
        MeetingState::Paused,
        MeetingState::Stopping,
        MeetingState::Finalizing,
        MeetingState::Completed,
    ] {
        assert_eq!(MeetingState::parse(s.as_str()), Some(s));
    }
    for o in [Origin::Provider, Origin::User] {
        assert_eq!(Origin::parse(o.as_str()), Some(o));
    }
    for t in [Track::Mic, Track::System] {
        assert_eq!(Track::parse(t.as_str()), Some(t));
    }
    for c in [
        ClaimKind::Fact,
        ClaimKind::Inference,
        ClaimKind::Suggestion,
        ClaimKind::Gap,
    ] {
        assert_eq!(ClaimKind::parse(c.as_str()), Some(c));
    }
    for p in [ProviderKind::Stt, ProviderKind::Llm] {
        assert_eq!(ProviderKind::parse(p.as_str()), Some(p));
    }
    assert_eq!(Track::parse("both"), None);
}

#[test]
fn only_fact_carries_a_citation_duty() {
    assert!(ClaimKind::Fact.requires_citation());
    assert!(!ClaimKind::Inference.requires_citation());
    assert!(!ClaimKind::Suggestion.requires_citation());
    assert!(!ClaimKind::Gap.requires_citation());
}

#[test]
fn dates_before_the_epoch_and_far_away() {
    assert_eq!(civil_from_days(0), (1970, 1, 1));
    assert_eq!(civil_from_days(-1), (1969, 12, 31));
    assert_eq!(civil_from_days(-719_468), (0, 3, 1));
    assert_eq!(civil_from_days(11_016), (2000, 2, 29));
    assert_eq!(format_utc_millis(-1), "1969-12-31T23:59:59.999Z");
    assert_eq!(format_utc_millis(253_402_300_800_000), "10000-01-01T00:00:00.000Z");
}

#[test]
fn digests_are_those_of_the_standard() {
    assert_eq!(
        sha256_hex(b"abc"),
        "ba7816bf8f01cfea414140de5dae2223b00361a396177a9cb410ff61f20015ad"
    );
    assert_eq!(
        sha256_hex(b""),
        "e3b0c44298fc1c149afbf4c8996fb92427ae41e4649b934ca495991b7852b855"
    );
}

#[test]
fn white_space_is_that_of_every_script() {
    assert_eq!(trim("\u{3000} a b\u{85}\n"), "a b");
    assert_eq!(trim(" \t"), "");
    assert!(is_blank("\u{2003}\u{a0}"));
    assert!(!is_blank("\u{200b}"));
    assert_eq!(to_ascii_lower("WS://É"), "ws://É");
    for c in '\0'..=char::MAX {
        assert_eq!(is_blank(&c.to_string()), c.is_whitespace(), "{c:?}");
    }
}

#[test]
fn signed_numbers_read_as_they_do_everywhere() {
    for n in [0, 7, -7, i64::MAX, i64::MIN, 1000] {
        assert_eq!(signed_text(n), n.to_string());
    }
}

#[test]
fn loopback_addresses_are_known_in_every_form() {
    for host in ["127.0.0.1", "127.255.0.9", "::1", "0:0:0:0:0:0:0:1", "::0.0.0.1", "0::0001"] {
        assert!(is_loopback_address(host), "{host}");
    }
    for host in [
        "128.0.0.1", "0.0.0.0", "::", "::2", "::ffff:127.0.0.1", "1::", "0127.0.0.1", "127.1", "",
        "1:2:3:4:5:6:7:8", "1:2:3:4:5:6:7::", "::1%1", "127.0.0.1.", "00001::", "::1:", ":::1",
        "g::1", "localhost", "::00001", "127.0.0.256", "0:0:0:0:0:0:0:0:1",
    ] {
        assert!(!is_loopback_address(host), "{host}");
    }
}

#[test]
fn readings_of_the_clock_count_from_1970() {
    assert_eq!(reading_millis(None), 0);
    assert_eq!(reading_millis(Some(1_785_542_400_000)), 1_785_542_400_000);
    assert_eq!(stamp_millis(1_785_542_400_000), 1_785_542_400_000);
    assert_eq!(stamp_millis(u64::MAX as u128 + 6), 5);
}
