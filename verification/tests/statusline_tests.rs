use statusline::bar::{build_bar, insert_pace_marker, utf8_char_len};
use statusline::cache::{
    cache_is_fresh, fetched_cache, format_cache_file, format_lock_file, lock_is_active,
    parse_cache_file, UsageCache,
};
use statusline::calendar::{
    parse_digits, parse_reset_epoch, parse_signed_digits, reset_display_epoch, round_epoch_to_minute,
    utc_to_epoch,
};
use statusline::clock::{now_epoch, secs_or_zero};
use statusline::fetch::{
    access_token, classify_status, lock_expiry, split_reply, Credentials, OAuthCredentials,
    ReplyStatus,
};
use statusline::status::{
    branch_from_head, context_percent, format_clock, join_segments, last_path_segment,
    segments_computable, status_segments, strip_model_parens, usage_segment, ContextWindow,
    CurrentUsage, Model, StdinInput, Workspace,
};

fn sample_cache() -> UsageCache {
    UsageCache {
        timestamp: 1748745000,
        utilization: Some(31),
        resets_at: String::from("2025-06-01T05:00:00.000000+00:00"),
        weekly_utilization: Some(3),
        weekly_resets_at: String::from("2025-06-07T00:00:00.000000+00:00"),
        extra_enabled: true,
        extra_used: String::from("17.89"),
    }
}

fn sample_input() -> StdinInput {
    StdinInput {
        workspace: Workspace { current_dir: String::from("/Users/someone/workspace") },
        cwd: String::from("/tmp"),
        model: Model { display_name: String::from("Opus 4.6 (1M context)") },
        context_window: ContextWindow {
            context_window_size: 200000,
            current_usage: Some(CurrentUsage {
                input_tokens: 0,
                cache_creation_input_tokens: 0,
                cache_read_input_tokens: 0,
            }),
        },
    }
}

#[test]
fn utf8_char_len_reads_first_byte() {
    assert_eq!(utf8_char_len(b'a'), 1);
    assert_eq!(utf8_char_len(0x7f), 1);
    assert_eq!(utf8_char_len(0xc3), 2);
    assert_eq!(utf8_char_len(0xe2), 3);
    assert_eq!(utf8_char_len(0xf0), 4);
    assert_eq!(utf8_char_len(0x80), 4);
    for c in ['a', 'é', '█', '┃', '😀'] {
        let mut buf = [0u8; 4];
        let s = c.encode_utf8(&mut buf);
        assert_eq!(utf8_char_len(s.as_bytes()[0]), s.len());
    }
}

#[test]
fn parse_digits_follows_integer_grammar() {
    assert_eq!(parse_digits(b"07"), Some(7));
    assert_eq!(parse_digits(b"+5"), Some(5));
    assert_eq!(parse_digits(b"-5"), None);
    assert_eq!(parse_digits(b"ab"), None);
    assert_eq!(parse_digits(b""), None);
    assert_eq!(parse_digits(b"+"), None);
    assert_eq!(parse_digits(b"4294967295"), Some(u32::MAX));
    assert_eq!(parse_digits(b"4294967296"), None);
    assert_eq!(parse_signed_digits(b"2025"), Some(2025));
    assert_eq!(parse_signed_digits(b"-123"), Some(-123));
    assert_eq!(parse_signed_digits(b"-"), None);
    assert_eq!(parse_signed_digits(&[0xc3, 0xa9]), None);
}

#[test]
fn utc_to_epoch_known_dates() {
    assert_eq!(utc_to_epoch(1970, 1, 1, 0, 0, 0), 0);
    assert_eq!(utc_to_epoch(2000, 1, 1, 0, 0, 0), 946684800);
    assert_eq!(utc_to_epoch(2024, 2, 29, 12, 0, 0), 1709208000);
    assert_eq!(utc_to_epoch(2025, 6, 1, 5, 0, 0), 1748754000);
    assert_eq!(utc_to_epoch(1969, 12, 31, 23, 59, 59), -1);
}

#[test]
fn utc_to_epoch_next_day_is_86400_later() {
    let feb28 = utc_to_epoch(2024, 2, 28, 0, 0, 0);
    let feb29 = utc_to_epoch(2024, 2, 29, 0, 0, 0);
    let mar1 = utc_to_epoch(2024, 3, 1, 0, 0, 0);
    assert_eq!(feb29 - feb28, 86400);
    assert_eq!(mar1 - feb29, 86400);
    let dec31 = utc_to_epoch(2023, 12, 31, 0, 0, 0);
    let jan1 = utc_to_epoch(2024, 1, 1, 0, 0, 0);
    assert_eq!(jan1 - dec31, 86400);
    assert_eq!(utc_to_epoch(2100, 3, 1, 0, 0, 0) - utc_to_epoch(2100, 2, 28, 0, 0, 0), 86400);
}

#[test]
fn parse_reset_epoch_reads_iso_timestamps() {
    assert_eq!(parse_reset_epoch("2025-06-01T05:00:00.123456+00:00"), Some(1748754000));
    assert_eq!(parse_reset_epoch("2025-06-01T05:00:00Z"), Some(1748754000));
    assert_eq!(parse_reset_epoch("2025-06-01T05:00:0"), None);
    assert_eq!(parse_reset_epoch(""), None);
    assert_eq!(parse_reset_epoch("2025-0x-01T05:00:00Z"), None);
}

#[test]
fn round_epoch_to_minute_rounds_halves_up() {
    assert_eq!(round_epoch_to_minute(0), 0);
    assert_eq!(round_epoch_to_minute(89), 60);
    assert_eq!(round_epoch_to_minute(90), 120);
    assert_eq!(round_epoch_to_minute(119), 120);
    assert_eq!(round_epoch_to_minute(1748753999), 1748754000);
    assert_eq!(round_epoch_to_minute(-31), 0);
    assert_eq!(round_epoch_to_minute(-89), -60);
    assert_eq!(round_epoch_to_minute(-90), -60);
    assert_eq!(round_epoch_to_minute(i64::MAX), i64::MAX - 7);
    let r = round_epoch_to_minute(1234567);
    assert_eq!(round_epoch_to_minute(r), r);
}

#[test]
fn build_bar_fills_cells() {
    assert_eq!(build_bar(31), " ███░░░░░░░");
    assert_eq!(build_bar(35), " ███▓░░░░░░");
    assert_eq!(build_bar(0), " ░░░░░░░░░░");
    assert_eq!(build_bar(-5), " ░░░░░░░░░░");
    assert_eq!(build_bar(100), " ██████████");
    assert_eq!(build_bar(150), " ██████████");
    for u in -10..120 {
        assert_eq!(build_bar(u).chars().count(), 11);
    }
}

#[test]
fn insert_pace_marker_marks_elapsed_share() {
    let bar = build_bar(31);
    assert_eq!(insert_pace_marker(&bar, 9000, 18000), " ███░░┃░░░░");
    assert_eq!(insert_pace_marker(&bar, 17999, 18000), " ┃██░░░░░░░");
    assert_eq!(insert_pace_marker(&bar, 1, 18000), " ███░░░░░░┃");
    assert_eq!(insert_pace_marker(" ░░░░░░░░░░", 600000, 604800), " ┃░░░░░░░░░");
    assert_eq!(insert_pace_marker("ab", 9000, 18000), "ab");
}

#[test]
fn strip_model_parens_drops_suffix() {
    assert_eq!(strip_model_parens("Opus 4.6 (1M context)"), "Opus 4.6");
    assert_eq!(strip_model_parens("Sonnet 4"), "Sonnet 4");
    assert_eq!(strip_model_parens("(x)"), "");
    assert_eq!(strip_model_parens("A \t(b) (c)"), "A");
}

#[test]
fn last_path_segment_takes_last_component() {
    assert_eq!(last_path_segment("/home/user/workspace"), "workspace");
    assert_eq!(last_path_segment("workspace"), "workspace");
    assert_eq!(last_path_segment("/a/b/"), "");
    assert_eq!(last_path_segment(""), "");
}

#[test]
fn branch_from_head_reads_first_line() {
    assert_eq!(branch_from_head("ref: refs/heads/main\n"), Some(String::from("main")));
    assert_eq!(branch_from_head("ref: refs/heads/feat/x\r\nmore"), Some(String::from("feat/x")));
    assert_eq!(branch_from_head("3f2a9c1\n"), Some(String::from("3f2a9c1")));
    assert_eq!(branch_from_head("\n"), Some(String::new()));
    assert_eq!(branch_from_head(""), None);
}

#[test]
fn format_clock_pads_and_names_days() {
    assert_eq!(format_clock(6, 0, 0, true), "Sat 00:00");
    assert_eq!(format_clock(0, 5, 7, false), "05:07");
    assert_eq!(format_clock(3, 23, 59, true), "Wed 23:59");
    assert_eq!(format_clock(9, 12, 30, true), "??? 12:30");
    assert_eq!(format_clock(-1, 12, 30, true), "??? 12:30");
}

#[test]
fn context_percent_rounds_down() {
    let w = ContextWindow {
        context_window_size: 200000,
        current_usage: Some(CurrentUsage {
            input_tokens: 1000,
            cache_creation_input_tokens: 2000,
            cache_read_input_tokens: 46999,
        }),
    };
    assert_eq!(context_percent(&w), Some(24));
    let none = ContextWindow { context_window_size: 0, current_usage: None };
    assert_eq!(context_percent(&none), None);
    let empty = ContextWindow { context_window_size: 100, current_usage: None };
    assert_eq!(context_percent(&empty), Some(0));
}

#[test]
fn parse_cache_file_reads_known_keys() {
    let text = "TIMESTAMP=1748745000\nUTILIZATION=31\nRESETS_AT=2025-06-01T05:00:00Z\nWEEKLY_UTILIZATION=3\nWEEKLY_RESETS_AT=x=y\nEXTRA_ENABLED=1\nEXTRA_USED=17.89\nOTHER=5\nnot a pair";
    let c = parse_cache_file(text);
    assert_eq!(c.timestamp, 1748745000);
    assert_eq!(c.utilization, Some(31));
    assert_eq!(c.resets_at, "2025-06-01T05:00:00Z");
    assert_eq!(c.weekly_utilization, Some(3));
    assert_eq!(c.weekly_resets_at, "x=y");
    assert!(c.extra_enabled);
    assert_eq!(c.extra_used, "17.89");
}

#[test]
fn parse_cache_file_handles_bad_values() {
    let c = parse_cache_file("TIMESTAMP=soon\r\nUTILIZATION=high\nEXTRA_ENABLED=yes\n");
    assert_eq!(c.timestamp, 0);
    assert_eq!(c.utilization, None);
    assert!(!c.extra_enabled);
    let empty = parse_cache_file("");
    assert_eq!(empty.timestamp, 0);
    assert_eq!(empty.utilization, None);
    assert_eq!(empty.resets_at, "");
    let later_wins = parse_cache_file("UTILIZATION=5\nUTILIZATION=-7\r\n");
    assert_eq!(later_wins.utilization, Some(-7));
}

#[test]
fn cache_file_roundtrip() {
    let text = format_cache_file(
        1748745000,
        -3,
        "2025-06-01T05:00:00Z",
        97,
        "2025-06-07T00:00:00Z",
        false,
        "0.00",
    );
    assert_eq!(
        text,
        "TIMESTAMP=1748745000\nUTILIZATION=-3\nRESETS_AT=2025-06-01T05:00:00Z\nWEEKLY_UTILIZATION=97\nWEEKLY_RESETS_AT=2025-06-07T00:00:00Z\nEXTRA_ENABLED=0\nEXTRA_USED=0.00"
    );
    let c = parse_cache_file(&text);
    assert_eq!(c.timestamp, 1748745000);
    assert_eq!(c.utilization, Some(-3));
    assert_eq!(c.resets_at, "2025-06-01T05:00:00Z");
    assert_eq!(c.weekly_utilization, Some(97));
    assert_eq!(c.weekly_resets_at, "2025-06-07T00:00:00Z");
    assert!(!c.extra_enabled);
    assert_eq!(c.extra_used, "0.00");
}

#[test]
fn cache_freshness_and_lock() {
    assert!(!cache_is_fresh(0, 100));
    assert!(cache_is_fresh(100, 279));
    assert!(!cache_is_fresh(100, 280));
    assert!(!cache_is_fresh(200, 100));
    assert!(!cache_is_fresh(u64::MAX, 0));
    assert!(lock_is_active(Some(" 500\n"), 400));
    assert!(!lock_is_active(Some("500"), 500));
    assert!(!lock_is_active(Some("later"), 0));
    assert!(!lock_is_active(None, 0));
}

#[test]
fn lock_file_roundtrip() {
    let text = format_lock_file(1030);
    assert_eq!(text, "1030");
    assert!(lock_is_active(Some(&text), 1029));
    assert!(!lock_is_active(Some(&text), 1030));
    assert_eq!(format_lock_file(0), "0");
    assert_eq!(format_lock_file(u64::MAX), "18446744073709551615");
}

#[test]
fn split_reply_separates_status() {
    let (body, status) = split_reply("{\"a\":1}\n200\n").unwrap();
    assert_eq!(body, "{\"a\":1}");
    assert_eq!(status, "200");
    let (body, status) = split_reply("line one\nline two\n429").unwrap();
    assert_eq!(body, "line one\nline two");
    assert_eq!(status, "429");
    assert_eq!(split_reply("  no newline  \n "), None);
}

#[test]
fn classify_status_codes() {
    assert_eq!(classify_status("429"), ReplyStatus::RateLimited);
    assert_eq!(classify_status("200"), ReplyStatus::Success);
    assert_eq!(classify_status("204"), ReplyStatus::Success);
    assert_eq!(classify_status("401"), ReplyStatus::Failed);
    assert_eq!(classify_status(""), ReplyStatus::Failed);
}

#[test]
fn lock_expiry_offsets() {
    assert_eq!(lock_expiry(1000, false), 1030);
    assert_eq!(lock_expiry(1000, true), 1300);
}

#[test]
fn access_token_requires_nonempty() {
    let some = Credentials {
        oauth: Some(OAuthCredentials { access_token: Some(String::from("tok")) }),
    };
    assert_eq!(access_token(&some), Some(String::from("tok")));
    let empty = Credentials { oauth: Some(OAuthCredentials { access_token: Some(String::new()) }) };
    assert_eq!(access_token(&empty), None);
    let missing = Credentials { oauth: Some(OAuthCredentials { access_token: None }) };
    assert_eq!(access_token(&missing), None);
    assert_eq!(access_token(&Credentials { oauth: None }), None);
}

#[test]
fn usage_segment_with_marker_and_time() {
    let now = 1748754000u64 - 9000;
    let seg = usage_segment(31, Some(1748754000), now, 18000, Some("05:00"));
    assert_eq!(seg, "31% ███░░┃░░░░ 05:00");
    let past = usage_segment(31, Some(1748754000), 1748754000 + 10, 18000, None);
    assert_eq!(past, "31% ███░░░░░░░");
    let unknown = usage_segment(-2, None, now, 18000, None);
    assert_eq!(unknown, "-2% ░░░░░░░░░░");
}

#[test]
fn status_line_from_readme_layout() {
    let input = sample_input();
    let cache = sample_cache();
    let now = 1748745000u64;
    assert!(segments_computable(&input, &cache, now));
    let segs = status_segments(&input, None, &cache, now, Some("05:00"), Some("Sat 00:00"));
    assert_eq!(
        join_segments(&segs),
        "workspace │ Opus 4.6 │ 0% │ 31% ███░░┃░░░░ 05:00 │ 3% ░░┃░░░░░░░ Sat 00:00 │ €17.89"
    );
}

#[test]
fn status_line_with_branch_and_fallbacks() {
    let mut input = sample_input();
    input.workspace.current_dir = String::new();
    input.model.display_name = String::new();
    input.context_window.context_window_size = 0;
    let mut cache = sample_cache();
    cache.weekly_utilization = None;
    cache.extra_enabled = false;
    cache.resets_at = String::from("garbage");
    let segs = status_segments(&input, Some("main"), &cache, 0, None, None);
    assert_eq!(join_segments(&segs), "tmp │ ⎇ main │ 31% ███░░░░░░░");
    let none = status_segments(&input, Some(""), &UsageCache::default(), 0, None, None);
    assert_eq!(join_segments(&none), "tmp");
    assert_eq!(join_segments(&Vec::new()), "");
}

#[test]
fn segments_computable_detects_overflow() {
    let mut input = sample_input();
    input.context_window.current_usage = Some(CurrentUsage {
        input_tokens: u64::MAX,
        cache_creation_input_tokens: 1,
        cache_read_input_tokens: 0,
    });
    assert!(!segments_computable(&input, &sample_cache(), 1748745000));
    let fine = sample_input();
    assert!(!segments_computable(&fine, &sample_cache(), 1u64 << 63));
    assert!(segments_computable(&fine, &sample_cache(), u64::MAX));
}

#[test]
fn now_epoch_is_after_2020() {
    assert!(now_epoch() > 1577836800);
}

#[test]
fn secs_or_zero_maps_missing_to_zero() {
    assert_eq!(secs_or_zero(Some(1748745000)), 1748745000);
    assert_eq!(secs_or_zero(None), 0);
}

#[test]
fn reset_display_epoch_rounds_parsed_time() {
    assert_eq!(reset_display_epoch("2025-06-01T04:59:31.999Z"), Some(1748754000));
    assert_eq!(reset_display_epoch("2025-06-01T04:59:29Z"), Some(1748753940));
    assert_eq!(reset_display_epoch("soon"), None);
}

#[test]
fn cache_lines_last_wins_and_order_is_free() {
    let a = parse_cache_file("UTILIZATION=5\nRESETS_AT=x\nUTILIZATION=9");
    assert_eq!(a.utilization, Some(9));
    let b = parse_cache_file("EXTRA_USED=1.00\nTIMESTAMP=7\nRESETS_AT=x");
    let c = parse_cache_file("RESETS_AT=x\nEXTRA_USED=1.00\nTIMESTAMP=7\n");
    assert_eq!(b.timestamp, c.timestamp);
    assert_eq!(b.resets_at, c.resets_at);
    assert_eq!(b.extra_used, c.extra_used);
}

#[test]
fn fetched_cache_reads_back_from_its_file() {
    let text = format_cache_file(5, 12, "r", 34, "w", true, "1.50");
    let back = parse_cache_file(&text);
    let fetched = fetched_cache(5, 12, String::from("r"), 34, String::from("w"), true, String::from("1.50"));
    assert_eq!(back.timestamp, fetched.timestamp);
    assert_eq!(back.utilization, fetched.utilization);
    assert_eq!(back.resets_at, fetched.resets_at);
    assert_eq!(back.weekly_utilization, fetched.weekly_utilization);
    assert_eq!(back.weekly_resets_at, fetched.weekly_resets_at);
    assert_eq!(back.extra_enabled, fetched.extra_enabled);
    assert_eq!(back.extra_used, fetched.extra_used);
}
