//! The pieces of the status line: directory, git branch, model name, context
//! usage, the two rate-limit segments, extra usage, and how they are joined.
use vstd::prelude::*;
use crate::decimal::{decimal, digit_char, signed_decimal, push_decimal, push_signed_decimal};
use crate::bar::{bar_text, build_bar, insert_pace_marker, pace_marker_index, pace_marker_computable};
use crate::cache::{UsageCache, UsageCacheView};
use crate::calendar::{parse_reset_epoch, reset_epoch_spec};
use crate::text::{
    chars_of, find_char, find_from, rfind_char, trimmed_end, trim_end, lemma_find_from_bounds,
    line_bounds, line_at, push_range, has_no,
};

verus! {

/// The model name without a parenthesised suffix: everything before the
/// first `'('`, without trailing whitespace.
pub open spec fn model_name_spec(name: Seq<char>) -> Seq<char> {
    let k = find_from(name, '(', 0);
    if k < name.len() {
        trim_end(name.take(k))
    } else {
        name
    }
}

/// Drops a parenthesised suffix from a model name, e.g. `"Opus 4.6 (1M
/// context)"` becomes `"Opus 4.6"`.
pub fn strip_model_parens(name: &str) -> (r: &str)
    ensures
        r@ == model_name_spec(name@),
{
    let v = chars_of(name);
    let k = find_char(&v, '(', 0);
    proof {
        lemma_find_from_bounds(v@, '(', 0);
    }
    if k < v.len() {
        let e = trimmed_end(&v, 0, k);
        assert(v@.subrange(0, k as int) =~= name@.take(k as int));
        name.substring_char(0, e)
    } else {
        name
    }
}

/// A stripped model name holds no `'('`, so stripping again changes nothing.
pub proof fn lemma_model_name_stable(name: Seq<char>)
    ensures
        has_no(model_name_spec(name), '('),
        model_name_spec(model_name_spec(name)) == model_name_spec(name),
{
    lemma_find_from_bounds(name, '(', 0);
    let k = find_from(name, '(', 0);
    let r = model_name_spec(name);
    if k < name.len() {
        lemma_trim_end_prefix(name.take(k));
        assert forall|j: int| 0 <= j < r.len() implies r[j] != '(' by {
            assert(r[j] == name.take(k)[j]);
        }
    }
    crate::text::lemma_find_from_skips(r, '(', 0, r.len() as int);
}

proof fn lemma_trim_end_prefix(s: Seq<char>)
    ensures
        trim_end(s).len() <= s.len(),
        trim_end(s) == s.take(trim_end(s).len() as int),
    decreases s.len(),
{
    if s.len() > 0 && crate::text::is_whitespace(s.last()) {
        lemma_trim_end_prefix(s.drop_last());
        assert(s.drop_last().take(trim_end(s).len() as int) =~= s.take(trim_end(s).len() as int));
    } else {
        assert(s.take(s.len() as int) =~= s);
    }
}

/// The last `'/'`-separated component of `path` (all of it when it holds no
/// `'/'`).
pub open spec fn last_segment(path: Seq<char>) -> Seq<char>
    decreases path.len(),
{
    if path.len() == 0 {
        path
    } else if path.last() == '/' {
        Seq::empty()
    } else {
        last_segment(path.drop_last()).push(path.last())
    }
}

proof fn lemma_last_segment(path: Seq<char>, k: int)
    requires
        -1 <= k < path.len(),
        k >= 0 ==> path[k] == '/',
        forall|j: int| k < j < path.len() ==> path[j] != '/',
    ensures
        last_segment(path) == path.skip(k + 1),
    decreases path.len(),
{
    if path.len() > 0 && path.last() != '/' {
        lemma_last_segment(path.drop_last(), k);
        assert(path.drop_last().skip(k + 1).push(path.last()) =~= path.skip(k + 1));
    } else if path.len() > 0 {
        assert(path.skip(k + 1) =~= Seq::<char>::empty());
    } else {
        assert(path.skip(k + 1) =~= path);
    }
}

/// The last `'/'`-separated component of `path`, as `path.rsplit('/').next()`.
pub fn last_path_segment(path: &str) -> (r: &str)
    ensures
        r@ == last_segment(path@),
        has_no(r@, '/'),
        r@.is_suffix_of(path@),
{
    let v = chars_of(path);
    match rfind_char(&v, '/') {
        Some(k) => {
            proof {
                lemma_last_segment(path@, k as int);
            }
            let r = path.substring_char(k + 1, v.len());
            assert(path@.subrange(path@.len() - r@.len(), path@.len() as int) =~= r@);
            r
        },
        None => {
            proof {
                lemma_last_segment(path@, -1);
            }
            assert(path@.skip(0) =~= path@);
            assert(path@.subrange(0, path@.len() as int) =~= path@);
            path
        },
    }
}

/// `s` without the prefix `p`, if it starts with it (`str::strip_prefix`
/// followed by `unwrap_or(s)`).
pub open spec fn strip_prefix_or_keep(s: Seq<char>, p: Seq<char>) -> Seq<char> {
    if p.is_prefix_of(s) {
        s.skip(p.len() as int)
    } else {
        s
    }
}

/// The branch that the text of a `.git/HEAD` file names: its first line,
/// without a leading `ref: refs/heads/`. Text with no line names none.
pub open spec fn branch_spec(contents: Seq<char>) -> Option<Seq<char>> {
    if contents.len() == 0 {
        None
    } else {
        Some(strip_prefix_or_keep(line_at(contents, 0), "ref: refs/heads/"@))
    }
}

/// The branch named by the text of a `.git/HEAD` file.
pub fn branch_from_head(contents: &str) -> (r: Option<String>)
    ensures
        r matches Some(b) ==> branch_spec(contents@) == Some(b@),
        r is None ==> branch_spec(contents@) is None,
{
    let v = chars_of(contents);
    if v.len() == 0 {
        return None;
    }
    let (end, _) = line_bounds(&v, 0);
    let prefix = chars_of("ref: refs/heads/");
    let plen = prefix.len();
    let mut matches = plen <= end;
    let mut i: usize = 0;
    while matches && i < plen
        invariant
            prefix@ == "ref: refs/heads/"@,
            plen == prefix@.len(),
            end <= v.len(),
            i <= plen,
            matches ==> plen <= end,
            matches ==> forall|k: int| 0 <= k < i ==> v@[k] == prefix@[k],
            !matches ==> !prefix@.is_prefix_of(v@.subrange(0, end as int)),
        decreases plen - i,
    {
        if v[i] != prefix[i] {
            matches = false;
            assert(v@.subrange(0, end as int)[i as int] != prefix@[i as int]);
        }
        i += 1;
    }
    let ghost line = v@.subrange(0, end as int);
    let start = if matches {
        assert(prefix@.is_prefix_of(line)) by {
            assert forall|k: int| 0 <= k < prefix@.len() implies prefix@[k] == line[k] by {
                assert(line[k] == v@[k]);
            }
        }
        plen
    } else {
        0
    };
    let mut out = String::new();
    push_range(&mut out, &v, start, end);
    assert(out@ =~= strip_prefix_or_keep(line, "ref: refs/heads/"@));
    Some(out)
}

/// `i` as `{:02}` writes it: at least two characters, zero-padded.
pub open spec fn two_digits(i: int) -> Seq<char> {
    if 0 <= i < 10 {
        seq!['0'] + decimal(i as nat)
    } else {
        signed_decimal(i)
    }
}

/// The three-letter name of a weekday counted from Sunday, or `???`.
pub open spec fn weekday_name(wday: int) -> Seq<char> {
    if wday == 0 {
        "Sun"@
    } else if wday == 1 {
        "Mon"@
    } else if wday == 2 {
        "Tue"@
    } else if wday == 3 {
        "Wed"@
    } else if wday == 4 {
        "Thu"@
    } else if wday == 5 {
        "Fri"@
    } else if wday == 6 {
        "Sat"@
    } else {
        "???"@
    }
}

/// A local time as the status line shows it: `HH:MM`, preceded by the
/// weekday name when `include_day` holds.
pub open spec fn clock_text(wday: int, hour: int, minute: int, include_day: bool) -> Seq<char> {
    (if include_day {
        weekday_name(wday) + seq![' ']
    } else {
        Seq::empty()
    }) + two_digits(hour) + seq![':'] + two_digits(minute)
}

/// The weekday names, counted from Sunday as `tm_wday` counts.
pub open spec fn weekday_table() -> Seq<Seq<char>> {
    seq![
        seq!['S', 'u', 'n'],
        seq!['M', 'o', 'n'],
        seq!['T', 'u', 'e'],
        seq!['W', 'e', 'd'],
        seq!['T', 'h', 'u'],
        seq!['F', 'r', 'i'],
        seq!['S', 'a', 't'],
    ]
}

/// `HH:MM` for an hour in `0..=23` and a minute in `0..=59`.
pub open spec fn hh_mm(hour: int, minute: int) -> Seq<char> {
    seq![
        (48 + hour / 10) as char,
        (48 + hour % 10) as char,
        ':',
        (48 + minute / 10) as char,
        (48 + minute % 10) as char,
    ]
}

proof fn lemma_two_digits(i: int)
    requires
        0 <= i <= 99,
    ensures
        two_digits(i) == seq![(48 + i / 10) as char, (48 + i % 10) as char],
{
    if i < 10 {
        assert(decimal(i as nat) == seq![digit_char(i)]);
        assert(two_digits(i) =~= seq![(48 + i / 10) as char, (48 + i % 10) as char]);
    } else {
        assert(decimal((i / 10) as nat) == seq![digit_char(i / 10)]);
        assert(decimal(i as nat) == decimal((i / 10) as nat).push(digit_char(i % 10)));
        assert(two_digits(i) =~= seq![(48 + i / 10) as char, (48 + i % 10) as char]);
    }
}

/// The local-time text: with the day, it starts with the weekday's name from
/// the fixed table (or `???` outside `0..=6`) and a space; for a valid hour
/// and minute it ends with `HH:MM`, zero-padded.
pub proof fn lemma_clock_text(wday: int, hour: int, minute: int, include_day: bool)
    ensures
        include_day && 0 <= wday <= 6 ==> clock_text(wday, hour, minute, include_day).take(4)
            == weekday_table()[wday] + seq![' '],
        include_day && !(0 <= wday <= 6) ==> clock_text(wday, hour, minute, include_day).take(4)
            == seq!['?', '?', '?', ' '],
        0 <= hour <= 23 && 0 <= minute <= 59 ==> ({
            let t = clock_text(wday, hour, minute, include_day);
            &&& t == t.take(t.len() - 5) + hh_mm(hour, minute)
            &&& t.len() == (if include_day {
                9int
            } else {
                5int
            })
        }),
{
    reveal_strlit("Sun");
    reveal_strlit("Mon");
    reveal_strlit("Tue");
    reveal_strlit("Wed");
    reveal_strlit("Thu");
    reveal_strlit("Fri");
    reveal_strlit("Sat");
    reveal_strlit("???");
    let t = clock_text(wday, hour, minute, include_day);
    let day = if include_day {
        weekday_name(wday) + seq![' ']
    } else {
        Seq::<char>::empty()
    };
    if include_day {
        assert(weekday_name(wday).len() == 3);
        assert(t.take(4) =~= day);
        if 0 <= wday <= 6 {
            assert(weekday_name(wday) =~= weekday_table()[wday]);
        } else {
            assert(weekday_name(wday) =~= seq!['?', '?', '?']);
        }
    }
    if 0 <= hour <= 23 && 0 <= minute <= 59 {
        lemma_two_digits(hour);
        lemma_two_digits(minute);
        assert(t =~= day + hh_mm(hour, minute));
        assert(t.take(t.len() - 5) =~= day);
    }
}

fn push_two_digits(out: &mut String, i: i32)
    ensures
        final(out)@ == old(out)@ + two_digits(i as int),
{
    if 0 <= i && i < 10 {
        out.push('0');
        push_decimal(out, i as u64);
        assert(out@ =~= old(out)@ + two_digits(i as int));
    } else {
        push_signed_decimal(out, i as i64);
    }
}

/// Formats the weekday (0 = Sunday), hour and minute of a local time.
pub fn format_clock(wday: i32, hour: i32, minute: i32, include_day: bool) -> (s: String)
    ensures
        s@ == clock_text(wday as int, hour as int, minute as int, include_day),
        include_day && 0 <= wday <= 6 ==> s@.take(4) == weekday_table()[wday as int] + seq![' '],
        include_day && !(0 <= wday <= 6) ==> s@.take(4) == seq!['?', '?', '?', ' '],
        0 <= hour <= 23 && 0 <= minute <= 59 ==> s@ == s@.take(s@.len() - 5) + hh_mm(
            hour as int,
            minute as int,
        ) && s@.len() == (if include_day {
            9int
        } else {
            5int
        }),
{
    proof {
        lemma_clock_text(wday as int, hour as int, minute as int, include_day);
    }
    let mut s = String::new();
    if include_day {
        let name = if wday == 0 {
            "Sun"
        } else if wday == 1 {
            "Mon"
        } else if wday == 2 {
            "Tue"
        } else if wday == 3 {
            "Wed"
        } else if wday == 4 {
            "Thu"
        } else if wday == 5 {
            "Fri"
        } else if wday == 6 {
            "Sat"
        } else {
            "???"
        };
        s.append(name);
        s.push(' ');
    }
    push_two_digits(&mut s, hour);
    s.push(':');
    push_two_digits(&mut s, minute);
    assert(s@ =~= clock_text(wday as int, hour as int, minute as int, include_day));
    s
}

pub const SHOW_MODEL: bool = true;
pub const SHOW_DIRECTORY: bool = true;
pub const SHOW_BRANCH: bool = true;
pub const SHOW_CONTEXT: bool = true;
pub const SHOW_USAGE: bool = true;
pub const SHOW_PROGRESS_BAR: bool = true;
pub const SHOW_PACE_MARKER: bool = true;
pub const SHOW_RESET_TIME: bool = true;
pub const SHOW_WEEKLY: bool = true;
pub const SHOW_EXTRA_USAGE: bool = true;

/// Length in seconds of the short rate-limit window.
pub const FIVE_HOUR_WINDOW: i64 = 18000;
/// Length in seconds of the weekly rate-limit window.
pub const WEEKLY_WINDOW: i64 = 604800;

pub struct Workspace {
    pub current_dir: String,
}

pub struct Model {
    pub display_name: String,
}

pub struct CurrentUsage {
    pub input_tokens: u64,
    pub cache_creation_input_tokens: u64,
    pub cache_read_input_tokens: u64,
}

pub struct ContextWindow {
    pub context_window_size: u64,
    pub current_usage: Option<CurrentUsage>,
}

/// What the status line is told on standard input.
pub struct StdinInput {
    pub workspace: Workspace,
    pub cwd: String,
    pub model: Model,
    pub context_window: ContextWindow,
}

/// Tokens in the context window: the three counts of the current usage
/// (all zero when there is none).
pub open spec fn context_tokens(w: ContextWindow) -> int {
    match w.current_usage {
        Some(u) => u.input_tokens + u.cache_creation_input_tokens + u.cache_read_input_tokens,
        None => 0,
    }
}

/// Whether the context percentage can be computed in `u64`.
pub open spec fn context_percent_computable(w: ContextWindow) -> bool {
    w.context_window_size > 0 ==> context_tokens(w) * 100 <= u64::MAX
}

/// Percentage of the context window in use, rounded down; `None` when the
/// window size is unknown (zero).
pub open spec fn context_percent_spec(w: ContextWindow) -> Option<int> {
    if w.context_window_size > 0 {
        Some(context_tokens(w) * 100 / (w.context_window_size as int))
    } else {
        None
    }
}

/// Tokens held by a context window: its input, cache-creation and
/// cache-read tokens (none when no usage is reported).
pub open spec fn window_tokens(w: ContextWindow) -> int {
    match w.current_usage {
        Some(u) => u.input_tokens as int + u.cache_creation_input_tokens as int
            + u.cache_read_input_tokens as int,
        None => 0,
    }
}

/// The context percentage is the share of the window size `n` that the `t`
/// tokens fill, rounded down: `p * n <= 100 * t < (p + 1) * n`; there is none
/// for a window of unknown size.
pub proof fn lemma_context_percent_bounds(w: ContextWindow)
    ensures
        context_percent_spec(w) is None <==> w.context_window_size == 0,
        context_percent_spec(w) matches Some(p) ==> p * w.context_window_size <= 100
            * window_tokens(w) < (p + 1) * w.context_window_size,
{
    if w.context_window_size > 0 {
        let n = w.context_window_size as int;
        let t = window_tokens(w);
        let p = context_tokens(w) * 100 / n;
        assert(context_tokens(w) == t);
        assert(p * n <= 100 * t < (p + 1) * n) by (nonlinear_arith)
            requires
                n > 0,
                t >= 0,
                p == t * 100 / n,
        {
            vstd::arithmetic::div_mod::lemma_fundamental_div_mod(t * 100, n);
            vstd::arithmetic::div_mod::lemma_mod_bound(t * 100, n);
        }
    }
}

/// Percentage of the context window in use.
pub fn context_percent(window: &ContextWindow) -> (r: Option<u64>)
    requires
        context_percent_computable(*window),
    ensures
        r matches Some(p) ==> context_percent_spec(*window) == Some(p as int),
        r is None ==> context_percent_spec(*window) is None,
        r is None <==> window.context_window_size == 0,
        r matches Some(p) ==> p * window.context_window_size <= 100 * window_tokens(*window) < (p
            + 1) * window.context_window_size,
{
    proof {
        lemma_context_percent_bounds(*window);
    }
    if window.context_window_size == 0 {
        return None;
    }
    let total = match &window.current_usage {
        Some(u) => u.input_tokens + u.cache_creation_input_tokens + u.cache_read_input_tokens,
        None => 0,
    };
    Some(total * 100 / window.context_window_size)
}

/// Seconds left until `reset`, as `reset - now as i64`.
pub open spec fn remaining_secs(reset: int, now: u64) -> int {
    reset - (now as i64)
}

/// The bar of a rate-limit segment: the progress bar, with the pace marker
/// when the reset lies within the window ahead.
pub open spec fn segment_bar(util: int, reset: Option<int>, now: u64, window: int) -> Seq<char> {
    let bar = bar_text(util);
    match reset {
        Some(re) => {
            let remaining = remaining_secs(re, now);
            if SHOW_PACE_MARKER && 0 < remaining < window && pace_marker_index(remaining, window)
                < bar.len() {
                bar.update(pace_marker_index(remaining, window), '┃')
            } else {
                bar
            }
        },
        None => bar,
    }
}

/// A rate-limit segment: `NN%`, the bar, and the reset time when one is
/// shown.
pub open spec fn usage_segment_spec(
    util: int,
    reset: Option<int>,
    now: u64,
    window: int,
    display: Option<Seq<char>>,
) -> Seq<char> {
    signed_decimal(util) + seq!['%'] + (if SHOW_PROGRESS_BAR {
        segment_bar(util, reset, now, window)
    } else {
        Seq::empty()
    }) + (if SHOW_RESET_TIME {
        match display {
            Some(d) => seq![' '] + d,
            None => Seq::empty(),
        }
    } else {
        Seq::empty()
    })
}

/// Whether the pace-marker arithmetic of a segment stays within `i64`.
pub open spec fn usage_segment_computable(reset: Option<int>, now: u64, window: int) -> bool {
    reset matches Some(re) ==> {
        &&& i64::MIN <= remaining_secs(re, now) <= i64::MAX
        &&& (0 < remaining_secs(re, now) < window ==> pace_marker_computable(
            remaining_secs(re, now),
            window,
        ))
    }
}

/// A rate-limit segment: utilization `util`, the reset time `reset_epoch`
/// (if known), and `reset_display`, the local rendering of the reset time
/// rounded to a minute (if one could be made).
pub fn usage_segment(
    util: i32,
    reset_epoch: Option<i64>,
    now: u64,
    window: i64,
    reset_display: Option<&str>,
) -> (seg: String)
    requires
        usage_segment_computable(
            match reset_epoch {
                Some(re) => Some(re as int),
                None => None,
            },
            now,
            window as int,
        ),
    ensures
        seg@ == usage_segment_spec(
            util as int,
            match reset_epoch {
                Some(re) => Some(re as int),
                None => None,
            },
            now,
            window as int,
            match reset_display {
                Some(d) => Some(d@),
                None => None,
            },
        ),
{
    let mut seg = String::new();
    push_signed_decimal(&mut seg, util as i64);
    seg.push('%');
    if SHOW_PROGRESS_BAR {
        let mut bar = build_bar(util);
        if SHOW_PACE_MARKER {
            if let Some(re) = reset_epoch {
                let remaining = re - now as i64;
                if remaining > 0 && remaining < window {
                    bar = insert_pace_marker(bar.as_str(), remaining, window);
                }
            }
        }
        seg.append(bar.as_str());
    }
    if SHOW_RESET_TIME {
        if let Some(display) = reset_display {
            seg.push(' ');
            seg.append(display);
        }
    }
    assert(seg@ =~= usage_segment_spec(
        util as int,
        match reset_epoch {
            Some(re) => Some(re as int),
            None => None,
        },
        now,
        window as int,
        match reset_display {
            Some(d) => Some(d@),
            None => None,
        },
    ));
    seg
}

/// The path whose last component names the directory: the workspace
/// directory, or the working directory when that is unknown.
pub open spec fn dir_path_spec(input: StdinInput) -> Seq<char> {
    if input.workspace.current_dir@.len() > 0 {
        input.workspace.current_dir@
    } else {
        input.cwd@
    }
}

pub open spec fn opt_view(o: Option<&str>) -> Option<Seq<char>> {
    match o {
        Some(s) => Some(s@),
        None => None,
    }
}

/// The reset time in the cache for a rate-limit segment.
pub open spec fn cached_reset(resets_at: Seq<char>) -> Option<int> {
    reset_epoch_spec(vstd::utf8::encode_utf8(resets_at))
}

/// The segments of the status line, in order: directory, branch, model,
/// context usage, the five-hour and weekly rate-limit segments, and extra
/// usage, each only when there is something to show.
pub open spec fn status_segments_spec(
    input: StdinInput,
    branch: Option<Seq<char>>,
    cache: UsageCacheView,
    now: u64,
    five_hour_display: Option<Seq<char>>,
    weekly_display: Option<Seq<char>>,
) -> Seq<Seq<char>> {
    let dir = last_segment(dir_path_spec(input));
    let s1 = if SHOW_DIRECTORY && dir.len() > 0 {
        Seq::empty().push(dir)
    } else {
        Seq::empty()
    };
    let s2 = if SHOW_BRANCH && branch is Some && branch->0.len() > 0 {
        s1.push("⎇ "@ + branch->0)
    } else {
        s1
    };
    let s3 = if SHOW_MODEL && input.model.display_name@.len() > 0 {
        s2.push(model_name_spec(input.model.display_name@))
    } else {
        s2
    };
    let pct = context_percent_spec(input.context_window);
    let s4 = if SHOW_CONTEXT && pct is Some {
        s3.push(decimal(pct->0 as nat) + seq!['%'])
    } else {
        s3
    };
    let s5 = if SHOW_USAGE && cache.utilization is Some {
        s4.push(
            usage_segment_spec(
                cache.utilization->0 as int,
                cached_reset(cache.resets_at),
                now,
                FIVE_HOUR_WINDOW as int,
                five_hour_display,
            ),
        )
    } else {
        s4
    };
    let s6 = if SHOW_WEEKLY && cache.weekly_utilization is Some {
        s5.push(
            usage_segment_spec(
                cache.weekly_utilization->0 as int,
                cached_reset(cache.weekly_resets_at),
                now,
                WEEKLY_WINDOW as int,
                weekly_display,
            ),
        )
    } else {
        s5
    };
    if SHOW_EXTRA_USAGE && cache.extra_enabled && cache.extra_used.len() > 0 {
        s6.push("€"@ + cache.extra_used)
    } else {
        s6
    }
}

/// Whether the arithmetic behind the segments stays within the machine
/// integers (the context percentage and the seconds left until each reset).
pub open spec fn status_segments_computable(
    input: StdinInput,
    cache: UsageCacheView,
    now: u64,
) -> bool {
    &&& context_percent_computable(input.context_window)
    &&& cache.utilization is Some ==> usage_segment_computable(
        cached_reset(cache.resets_at),
        now,
        FIVE_HOUR_WINDOW as int,
    )
    &&& cache.weekly_utilization is Some ==> usage_segment_computable(
        cached_reset(cache.weekly_resets_at),
        now,
        WEEKLY_WINDOW as int,
    )
}

fn context_percent_ok(w: &ContextWindow) -> (r: bool)
    ensures
        r == context_percent_computable(*w),
{
    if w.context_window_size == 0 {
        return true;
    }
    match &w.current_usage {
        None => true,
        Some(u) => match u.input_tokens.checked_add(u.cache_creation_input_tokens) {
            None => false,
            Some(t) => match t.checked_add(u.cache_read_input_tokens) {
                None => false,
                Some(t) => t.checked_mul(100).is_some(),
            },
        },
    }
}

fn pace_marker_ok(remaining: i64, window: i64) -> (r: bool)
    ensures
        r == pace_marker_computable(remaining as int, window as int),
{
    if window == 0 {
        return false;
    }
    match window.checked_sub(remaining) {
        None => false,
        Some(elapsed) => match elapsed.checked_mul(10) {
            None => false,
            Some(tenths) => {
                let half = window / 2;
                assert(half == crate::calendar::trunc_div(window as int, 2));
                match tenths.checked_add(half) {
                    None => false,
                    Some(num) => !(window == -1 && num == i64::MIN),
                }
            },
        },
    }
}

fn usage_segment_ok(reset: Option<i64>, now: u64, window: i64) -> (r: bool)
    ensures
        r == usage_segment_computable(
            match reset {
                Some(re) => Some(re as int),
                None => None,
            },
            now,
            window as int,
        ),
{
    match reset {
        None => true,
        Some(re) => match re.checked_sub(now as i64) {
            None => false,
            Some(remaining) => if 0 < remaining && remaining < window {
                pace_marker_ok(remaining, window)
            } else {
                true
            },
        },
    }
}

/// Whether `status_segments` can be computed for these inputs without
/// overflowing (see `status_segments_computable`).
pub fn segments_computable(input: &StdinInput, cache: &UsageCache, now: u64) -> (r: bool)
    ensures
        r == status_segments_computable(*input, cache@, now),
{
    let five_hour_ok = cache.utilization.is_none() || usage_segment_ok(
        parse_reset_epoch(cache.resets_at.as_str()),
        now,
        FIVE_HOUR_WINDOW,
    );
    let weekly_ok = cache.weekly_utilization.is_none() || usage_segment_ok(
        parse_reset_epoch(cache.weekly_resets_at.as_str()),
        now,
        WEEKLY_WINDOW,
    );
    context_percent_ok(&input.context_window) && five_hour_ok && weekly_ok
}

/// A non-empty branch adds exactly one segment, `⎇ ` and the branch name,
/// right after the directory segment (first when no directory is shown),
/// whatever the model, context and usage inputs; a missing or empty branch
/// adds none.
pub proof fn lemma_branch_segment(
    input: StdinInput,
    branch: Seq<char>,
    cache: UsageCacheView,
    now: u64,
    five_hour_display: Option<Seq<char>>,
    weekly_display: Option<Seq<char>>,
)
    ensures
        ({
            let without = status_segments_spec(
                input,
                None,
                cache,
                now,
                five_hour_display,
                weekly_display,
            );
            let with = status_segments_spec(
                input,
                Some(branch),
                cache,
                now,
                five_hour_display,
                weekly_display,
            );
            let at = if last_segment(dir_path_spec(input)).len() > 0 {
                1int
            } else {
                0int
            };
            &&& branch.len() > 0 ==> with == without.insert(at, seq!['⎇', ' '] + branch)
            &&& branch.len() == 0 ==> with == without
        }),
{
    reveal_strlit("⎇ ");
    assert("⎇ "@ =~= seq!['⎇', ' ']);
    let head = head_segment(input);
    let tail = tail_segments(input, cache, now, five_hour_display, weekly_display);
    lemma_segments_split(input, None, cache, now, five_hour_display, weekly_display);
    lemma_segments_split(input, Some(branch), cache, now, five_hour_display, weekly_display);
    let without = status_segments_spec(input, None, cache, now, five_hour_display, weekly_display);
    let with = status_segments_spec(
        input,
        Some(branch),
        cache,
        now,
        five_hour_display,
        weekly_display,
    );
    assert(without =~= head + tail);
    if branch.len() > 0 {
        let x = seq!['⎇', ' '] + branch;
        assert(with =~= head + seq![x] + tail);
        assert(head + seq![x] + tail =~= (head + tail).insert(head.len() as int, x));
    } else {
        assert(with =~= head + tail);
    }
}

/// The directory segment, when shown.
spec fn head_segment(input: StdinInput) -> Seq<Seq<char>> {
    let dir = last_segment(dir_path_spec(input));
    if SHOW_DIRECTORY && dir.len() > 0 {
        seq![dir]
    } else {
        Seq::empty()
    }
}

/// The segments after the branch, those that are shown.
spec fn tail_segments(
    input: StdinInput,
    cache: UsageCacheView,
    now: u64,
    five_hour_display: Option<Seq<char>>,
    weekly_display: Option<Seq<char>>,
) -> Seq<Seq<char>> {
    let t3 = if SHOW_MODEL && input.model.display_name@.len() > 0 {
        seq![model_name_spec(input.model.display_name@)]
    } else {
        Seq::empty()
    };
    let pct = context_percent_spec(input.context_window);
    let t4 = if SHOW_CONTEXT && pct is Some {
        t3.push(decimal(pct->0 as nat) + seq!['%'])
    } else {
        t3
    };
    let t5 = if SHOW_USAGE && cache.utilization is Some {
        t4.push(
            usage_segment_spec(
                cache.utilization->0 as int,
                cached_reset(cache.resets_at),
                now,
                FIVE_HOUR_WINDOW as int,
                five_hour_display,
            ),
        )
    } else {
        t4
    };
    let t6 = if SHOW_WEEKLY && cache.weekly_utilization is Some {
        t5.push(
            usage_segment_spec(
                cache.weekly_utilization->0 as int,
                cached_reset(cache.weekly_resets_at),
                now,
                WEEKLY_WINDOW as int,
                weekly_display,
            ),
        )
    } else {
        t5
    };
    if SHOW_EXTRA_USAGE && cache.extra_enabled && cache.extra_used.len() > 0 {
        t6.push("€"@ + cache.extra_used)
    } else {
        t6
    }
}

proof fn lemma_segments_split(
    input: StdinInput,
    branch: Option<Seq<char>>,
    cache: UsageCacheView,
    now: u64,
    five_hour_display: Option<Seq<char>>,
    weekly_display: Option<Seq<char>>,
)
    ensures
        status_segments_spec(input, branch, cache, now, five_hour_display, weekly_display)
            == head_segment(input) + (if SHOW_BRANCH && branch is Some && branch->0.len() > 0 {
            seq!["⎇ "@ + branch->0]
        } else {
            Seq::empty()
        }) + tail_segments(input, cache, now, five_hour_display, weekly_display),
{
    let head = head_segment(input);
    let mid = if SHOW_BRANCH && branch is Some && branch->0.len() > 0 {
        seq!["⎇ "@ + branch->0]
    } else {
        Seq::<Seq<char>>::empty()
    };
    let tail = tail_segments(input, cache, now, five_hour_display, weekly_display);
    let all = status_segments_spec(input, branch, cache, now, five_hour_display, weekly_display);
    assert(all =~= head + mid + tail);
}

/// Each segment is shown exactly when its own input has something to show:
/// a non-empty directory name, a non-empty branch, a non-empty model name, a
/// known window size, a five-hour figure, a weekly figure, and enabled,
/// non-empty extra usage.
pub proof fn lemma_segment_count(
    input: StdinInput,
    branch: Option<Seq<char>>,
    cache: UsageCacheView,
    now: u64,
    five_hour_display: Option<Seq<char>>,
    weekly_display: Option<Seq<char>>,
)
    ensures
        status_segments_spec(input, branch, cache, now, five_hour_display, weekly_display).len() == (
        if last_segment(dir_path_spec(input)).len() > 0 {
            1int
        } else {
            0int
        }) + (if branch matches Some(b) && b.len() > 0 {
            1int
        } else {
            0int
        }) + (if input.model.display_name@.len() > 0 {
            1int
        } else {
            0int
        }) + (if input.context_window.context_window_size > 0 {
            1int
        } else {
            0int
        }) + (if cache.utilization is Some {
            1int
        } else {
            0int
        }) + (if cache.weekly_utilization is Some {
            1int
        } else {
            0int
        }) + (if cache.extra_enabled && cache.extra_used.len() > 0 {
            1int
        } else {
            0int
        }),
{
}

/// With extra usage shown, the last segment is the euro sign followed by the
/// credits text.
pub proof fn lemma_extra_segment_last(
    input: StdinInput,
    branch: Option<Seq<char>>,
    cache: UsageCacheView,
    now: u64,
    five_hour_display: Option<Seq<char>>,
    weekly_display: Option<Seq<char>>,
)
    requires
        cache.extra_enabled,
        cache.extra_used.len() > 0,
    ensures
        status_segments_spec(input, branch, cache, now, five_hour_display, weekly_display).last()
            == seq!['€'] + cache.extra_used,
{
    reveal_strlit("€");
    assert("€"@ =~= seq!['€']);
}

pub open spec fn views(v: Seq<String>) -> Seq<Seq<char>> {
    v.map_values(|s: String| s@)
}

fn push_segment(segs: &mut Vec<String>, s: String)
    ensures
        views(final(segs)@) == views(old(segs)@).push(s@),
{
    segs.push(s);
    assert(views(segs@) =~= views(old(segs)@).push(s@));
}

/// The segments of the status line. `branch` is the current git branch,
/// `cache` the usage figures, `now` the current time, and the two displays
/// are the local renderings of the rounded reset times of the two windows.
pub fn status_segments(
    input: &StdinInput,
    branch: Option<&str>,
    cache: &UsageCache,
    now: u64,
    five_hour_display: Option<&str>,
    weekly_display: Option<&str>,
) -> (segs: Vec<String>)
    requires
        status_segments_computable(*input, cache@, now),
    ensures
        views(segs@) == status_segments_spec(
            *input,
            opt_view(branch),
            cache@,
            now,
            opt_view(five_hour_display),
            opt_view(weekly_display),
        ),
{
    let mut segs: Vec<String> = Vec::new();
    assert(views(segs@) =~= Seq::empty());
    let ghost dir_spec = last_segment(dir_path_spec(*input));
    let dir_path = if !input.workspace.current_dir.as_str().is_empty() {
        input.workspace.current_dir.as_str()
    } else {
        input.cwd.as_str()
    };
    let dir = last_path_segment(dir_path);
    if SHOW_DIRECTORY && !dir.is_empty() {
        push_segment(&mut segs, dir.to_owned());
    }
    let ghost s1 = views(segs@);
    assert(s1 == (if SHOW_DIRECTORY && dir_spec.len() > 0 {
        Seq::empty().push(dir_spec)
    } else {
        Seq::<Seq<char>>::empty()
    }));
    if SHOW_BRANCH {
        if let Some(b) = branch {
            if !b.is_empty() {
                let mut s = String::new();
                s.append("⎇ ");
                s.append(b);
                assert(s@ =~= "⎇ "@ + b@);
                push_segment(&mut segs, s);
            }
        }
    }
    if SHOW_MODEL && !input.model.display_name.as_str().is_empty() {
        push_segment(&mut segs, strip_model_parens(input.model.display_name.as_str()).to_owned());
    }
    if SHOW_CONTEXT {
        if let Some(pct) = context_percent(&input.context_window) {
            let mut s = String::new();
            push_decimal(&mut s, pct);
            s.push('%');
            assert(s@ =~= decimal(pct as nat) + seq!['%']);
            push_segment(&mut segs, s);
        }
    }
    if SHOW_USAGE {
        if let Some(util) = cache.utilization {
            let reset = parse_reset_epoch(cache.resets_at.as_str());
            push_segment(
                &mut segs,
                usage_segment(util, reset, now, FIVE_HOUR_WINDOW, five_hour_display),
            );
        }
    }
    if SHOW_WEEKLY {
        if let Some(util) = cache.weekly_utilization {
            let reset = parse_reset_epoch(cache.weekly_resets_at.as_str());
            push_segment(
                &mut segs,
                usage_segment(util, reset, now, WEEKLY_WINDOW, weekly_display),
            );
        }
    }
    if SHOW_EXTRA_USAGE && cache.extra_enabled && !cache.extra_used.as_str().is_empty() {
        let mut s = String::new();
        s.append("€");
        s.append(cache.extra_used.as_str());
        assert(s@ =~= "€"@ + cache.extra_used@);
        push_segment(&mut segs, s);
    }
    segs
}

/// `segs` joined with `sep` between neighbours.
pub open spec fn join_spec(segs: Seq<Seq<char>>, sep: Seq<char>) -> Seq<char>
    decreases segs.len(),
{
    if segs.len() == 0 {
        Seq::empty()
    } else if segs.len() == 1 {
        segs[0]
    } else {
        join_spec(segs.drop_last(), sep) + sep + segs.last()
    }
}

/// The status line: the segments joined with `" │ "`.
pub fn join_segments(segments: &Vec<String>) -> (line: String)
    ensures
        line@ == join_spec(views(segments@), " │ "@),
{
    let mut line = String::new();
    let mut i: usize = 0;
    while i < segments.len()
        invariant
            i <= segments.len(),
            line@ == join_spec(views(segments@).take(i as int), " │ "@),
        decreases segments.len() - i,
    {
        let ghost before = views(segments@).take(i as int);
        if i > 0 {
            line.append(" │ ");
        }
        line.append(segments[i].as_str());
        i += 1;
        assert(views(segments@).take(i as int).drop_last() =~= before);
        assert(views(segments@).take(i as int).last() == segments@[i - 1]@);
        if i == 1 {
            assert(line@ =~= views(segments@).take(1)[0]);
        }
    }
    assert(views(segments@).take(segments.len() as int) =~= views(segments@));
    line
}

} // verus!
