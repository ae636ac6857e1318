//! Checks the library against the same computations written with std's own
//! string functions, on inputs chosen to hit their corner cases.
use statusline::cache::{lock_is_active, parse_cache_file};
use statusline::calendar::parse_reset_epoch;
use statusline::fetch::split_reply;
use statusline::status::{branch_from_head, last_path_segment, strip_model_parens};

fn std_cache_fields(contents: &str) -> (u64, Option<i32>, String, Option<i32>, String, bool, String) {
    let mut r = (0u64, None, String::new(), None, String::new(), false, String::new());
    for line in contents.lines() {
        if let Some((key, val)) = line.split_once('=') {
            match key {
                "TIMESTAMP" => r.0 = val.parse().unwrap_or(0),
                "UTILIZATION" => r.1 = val.parse().ok(),
                "RESETS_AT" => r.2 = val.to_string(),
                "WEEKLY_UTILIZATION" => r.3 = val.parse().ok(),
                "WEEKLY_RESETS_AT" => r.4 = val.to_string(),
                "EXTRA_ENABLED" => r.5 = val == "1",
                "EXTRA_USED" => r.6 = val.to_string(),
                _ => {}
            }
        }
    }
    r
}

#[test]
fn cache_parsing_agrees_with_std_lines() {
    let inputs = [
        "",
        "\n",
        "\r\n",
        "TIMESTAMP=12\r\nUTILIZATION=+4\nRESETS_AT=a\r\r\nEXTRA_USED=z\r",
        "UTILIZATION=-2147483648\nWEEKLY_UTILIZATION=2147483648\nTIMESTAMP=18446744073709551615",
        "TIMESTAMP=18446744073709551616\nUTILIZATION= 5\nEXTRA_ENABLED=1 \n",
        "=\n==\nRESETS_AT==x\nWEEKLY_RESETS_AT=é€\u{2028}\nEXTRA_ENABLED=1",
        "EXTRA_USED=\r\n\n\nEXTRA_USED=last\n",
        "TIMESTAMP=00000000000000000000000000000000000000001",
        "UTILIZATION=-0\nWEEKLY_UTILIZATION=+\nTIMESTAMP=-1",
    ];
    for text in inputs {
        let c = parse_cache_file(text);
        let expected = std_cache_fields(text);
        assert_eq!(
            (
                c.timestamp,
                c.utilization,
                c.resets_at.clone(),
                c.weekly_utilization,
                c.weekly_resets_at.clone(),
                c.extra_enabled,
                c.extra_used.clone()
            ),
            expected,
            "input {text:?}"
        );
    }
}

#[test]
fn lock_agrees_with_std_trim_and_parse() {
    let inputs = ["", " 12 ", "\u{3000}12\u{85}", "12\n", "+12", "-12", "1 2", "99999999999999999999"];
    for text in inputs {
        for now in [0u64, 11, 12, 13] {
            let expected = text.trim().parse::<u64>().ok().is_some_and(|exp| now < exp);
            assert_eq!(lock_is_active(Some(text), now), expected, "input {text:?}");
        }
    }
}

#[test]
fn model_names_agree_with_std_trim_end() {
    let inputs = ["Opus 4.6 (1M context)", "x\u{a0}\u{2009}(y", "(", "no parens ", "a ( b ( c"];
    for name in inputs {
        let expected = match name.find('(') {
            Some(pos) => name[..pos].trim_end(),
            None => name,
        };
        assert_eq!(strip_model_parens(name), expected, "input {name:?}");
    }
}

#[test]
fn reply_split_agrees_with_std() {
    let inputs = ["body\n200", " body\nmore\n\n404 \n", "single", "\n", "é\n2€"];
    for raw in inputs {
        let expected = raw.trim().rsplit_once('\n').map(|(a, b)| (a.to_string(), b.to_string()));
        assert_eq!(split_reply(raw), expected, "input {raw:?}");
    }
}

#[test]
fn reset_epochs_agree_with_std_parse() {
    let inputs = [
        "2025-06-01T05:00:00Z",
        "+025-+6-+1T+5:+0:+0",
        "-999-01-01T00:00:00",
        "2025-13-45T99:99:99",
        "2025-06-01T05:00:0é",
        "éé25-06-01T05:00:00",
    ];
    for iso in inputs {
        let b = iso.as_bytes();
        let expected = if b.len() < 19 {
            None
        } else {
            let d = |r: std::ops::Range<usize>| -> Option<u32> {
                std::str::from_utf8(&b[r]).ok()?.parse().ok()
            };
            let year: Option<i32> = std::str::from_utf8(&b[0..4]).ok().and_then(|s| s.parse().ok());
            match (year, d(5..7), d(8..10), d(11..13), d(14..16), d(17..19)) {
                (Some(y), Some(mo), Some(da), Some(h), Some(mi), Some(s)) => {
                    Some(statusline::calendar::utc_to_epoch(y, mo, da, h, mi, s))
                }
                _ => None,
            }
        };
        assert_eq!(parse_reset_epoch(iso), expected, "input {iso:?}");
    }
}

#[test]
fn heads_and_paths_agree_with_std() {
    let heads = ["ref: refs/heads/main\n", "ref: refs/heads/\r\n", "ref: refs/head/x", "a\rb\n", "\r"];
    for h in heads {
        let expected = h.lines().next().map(|l| l.strip_prefix("ref: refs/heads/").unwrap_or(l).to_string());
        assert_eq!(branch_from_head(h), expected, "input {h:?}");
    }
    let paths = ["/a/b", "/", "", "ab", "a//", "é/ü"];
    for p in paths {
        assert_eq!(last_path_segment(p), p.rsplit('/').next().unwrap_or(p), "input {p:?}");
    }
}
