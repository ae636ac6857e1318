//! The usage cache file: `KEY=value` lines that hold the last fetched
//! utilization figures, how they are read back, and when they are stale.
use vstd::prelude::*;
use crate::decimal::{
    decimal, signed_decimal, parse_u64_spec, parse_i32_spec, parse_u64_range, parse_i32_range,
    push_decimal, push_signed_decimal,
};
use crate::text::{
    find_from, lines, lines_from, chars_of, sub_vec, find_char, range_equals, string_of_range,
    line_bounds, lemma_find_from_bounds, lemma_find_from_skips, has_no, lemma_lines_cons,
    lemma_lines_single, trim, trimmed_end, trimmed_start,
};
use crate::decimal::{lemma_decimal, lemma_parse_signed_decimal, is_digit, all_digits};

verus! {

/// Seconds for which a cache file stays fresh.
pub const CACHE_MAX_AGE: u64 = 180;

/// The figures kept in the cache file.
pub struct UsageCache {
    pub timestamp: u64,
    pub utilization: Option<i32>,
    pub resets_at: String,
    pub weekly_utilization: Option<i32>,
    pub weekly_resets_at: String,
    pub extra_enabled: bool,
    pub extra_used: String,
}

/// A `UsageCache` with its strings seen as character sequences.
pub struct UsageCacheView {
    pub timestamp: u64,
    pub utilization: Option<i32>,
    pub resets_at: Seq<char>,
    pub weekly_utilization: Option<i32>,
    pub weekly_resets_at: Seq<char>,
    pub extra_enabled: bool,
    pub extra_used: Seq<char>,
}

impl View for UsageCache {
    type V = UsageCacheView;

    open spec fn view(&self) -> UsageCacheView {
        UsageCacheView {
            timestamp: self.timestamp,
            utilization: self.utilization,
            resets_at: self.resets_at@,
            weekly_utilization: self.weekly_utilization,
            weekly_resets_at: self.weekly_resets_at@,
            extra_enabled: self.extra_enabled,
            extra_used: self.extra_used@,
        }
    }
}

/// The cache before anything is known: zero timestamp, no figures.
pub open spec fn empty_cache() -> UsageCacheView {
    UsageCacheView {
        timestamp: 0,
        utilization: None,
        resets_at: Seq::empty(),
        weekly_utilization: None,
        weekly_resets_at: Seq::empty(),
        extra_enabled: false,
        extra_used: Seq::empty(),
    }
}

impl Default for UsageCache {
    fn default() -> (r: Self)
        ensures
            r@ == empty_cache(),
    {
        UsageCache {
            timestamp: 0,
            utilization: None,
            resets_at: String::new(),
            weekly_utilization: None,
            weekly_resets_at: String::new(),
            extra_enabled: false,
            extra_used: String::new(),
        }
    }
}

pub open spec fn as_i32(o: Option<int>) -> Option<i32> {
    match o {
        Some(v) => Some(v as i32),
        None => None,
    }
}

/// What one line of the cache file does to the cache: `KEY=value`, split at
/// the first `'='`; a known key sets its field, anything else is ignored. A
/// timestamp that does not parse counts as 0; a utilization that does not
/// parse counts as unknown.
pub open spec fn apply_cache_line(c: UsageCacheView, line: Seq<char>) -> UsageCacheView {
    let eq = find_from(line, '=', 0);
    if eq >= line.len() {
        c
    } else {
        let key = line.subrange(0, eq);
        let val = line.subrange(eq + 1, line.len() as int);
        if key == "TIMESTAMP"@ {
            UsageCacheView {
                timestamp: match parse_u64_spec(val) {
                    Some(v) => v as u64,
                    None => 0,
                },
                ..c
            }
        } else if key == "UTILIZATION"@ {
            UsageCacheView { utilization: as_i32(parse_i32_spec(val)), ..c }
        } else if key == "RESETS_AT"@ {
            UsageCacheView { resets_at: val, ..c }
        } else if key == "WEEKLY_UTILIZATION"@ {
            UsageCacheView { weekly_utilization: as_i32(parse_i32_spec(val)), ..c }
        } else if key == "WEEKLY_RESETS_AT"@ {
            UsageCacheView { weekly_resets_at: val, ..c }
        } else if key == "EXTRA_ENABLED"@ {
            UsageCacheView { extra_enabled: val == "1"@, ..c }
        } else if key == "EXTRA_USED"@ {
            UsageCacheView { extra_used: val, ..c }
        } else {
            c
        }
    }
}

/// The lines applied in order, each on the result of the ones before.
pub open spec fn apply_cache_lines(c: UsageCacheView, ls: Seq<Seq<char>>) -> UsageCacheView
    decreases ls.len(),
{
    if ls.len() == 0 {
        c
    } else {
        apply_cache_lines(apply_cache_line(c, ls[0]), ls.drop_first())
    }
}

/// The cache that a cache file with text `s` describes.
pub open spec fn parse_cache_spec(s: Seq<char>) -> UsageCacheView {
    apply_cache_lines(empty_cache(), lines(s))
}

fn apply_line(cache: &mut UsageCache, v: &Vec<char>, start: usize, end: usize)
    requires
        start <= end <= v.len(),
    ensures
        final(cache)@ == apply_cache_line(old(cache)@, v@.subrange(start as int, end as int)),
{
    let line = sub_vec(v, start, end);
    let n = line.len();
    let eq = find_char(&line, '=', 0);
    proof {
        lemma_find_from_bounds(line@, '=', 0);
    }
    if eq >= n {
        return;
    }
    let vs = eq + 1;
    if range_equals(&line, 0, eq, "TIMESTAMP") {
        cache.timestamp = match parse_u64_range(&line, vs, n) {
            Some(t) => t,
            None => 0,
        };
    } else if range_equals(&line, 0, eq, "UTILIZATION") {
        cache.utilization = parse_i32_range(&line, vs, n);
    } else if range_equals(&line, 0, eq, "RESETS_AT") {
        cache.resets_at = string_of_range(&line, vs, n);
    } else if range_equals(&line, 0, eq, "WEEKLY_UTILIZATION") {
        cache.weekly_utilization = parse_i32_range(&line, vs, n);
    } else if range_equals(&line, 0, eq, "WEEKLY_RESETS_AT") {
        cache.weekly_resets_at = string_of_range(&line, vs, n);
    } else if range_equals(&line, 0, eq, "EXTRA_ENABLED") {
        cache.extra_enabled = range_equals(&line, vs, n, "1");
    } else if range_equals(&line, 0, eq, "EXTRA_USED") {
        cache.extra_used = string_of_range(&line, vs, n);
    }
}

/// Reads the text of a cache file.
pub fn parse_cache_file(contents: &str) -> (cache: UsageCache)
    ensures
        cache@ == parse_cache_spec(contents@),
        cache@ == cache_from_last_values(lines(contents@)),
{
    proof {
        lemma_cache_last_line_wins(lines(contents@));
    }
    let v = chars_of(contents);
    let mut cache = UsageCache::default();
    let mut start: usize = 0;
    while start < v.len()
        invariant
            start <= v.len(),
            v@ == contents@,
            apply_cache_lines(cache@, lines_from(v@, start as int)) == parse_cache_spec(contents@),
        decreases v.len() - start,
    {
        let (end, nl) = line_bounds(&v, start);
        let ghost before = cache@;
        let ghost rest = lines_from(v@, start as int);
        proof {
            lemma_find_from_bounds(v@, '\n', start as int);
        }
        apply_line(&mut cache, &v, start, end);
        if nl >= v.len() {
            assert(rest.drop_first() =~= Seq::<Seq<char>>::empty());
            start = v.len();
        } else {
            assert(rest.drop_first() =~= lines_from(v@, nl + 1));
            start = nl + 1;
        }
    }
    cache
}

/// Whether a cache written at `timestamp` is still fresh at `now`. A cache
/// stamped later than `now` (a clock set back) counts as stale.
pub fn cache_is_fresh(timestamp: u64, now: u64) -> (r: bool)
    ensures
        r == (timestamp > 0 && timestamp <= now && now - timestamp < CACHE_MAX_AGE),
{
    timestamp > 0 && timestamp <= now && (now - timestamp) < CACHE_MAX_AGE
}

/// Whether the fetch lock, with the given file text (if the file could be
/// read), still holds at `now`: the trimmed text is a time after `now`.
pub open spec fn lock_active_spec(contents: Option<Seq<char>>, now: u64) -> bool {
    match contents {
        Some(c) => match parse_u64_spec(trim(c)) {
            Some(expiry) => now < expiry,
            None => false,
        },
        None => false,
    }
}

/// Whether a fetch is held off by the lock file, given its text.
pub fn lock_is_active(contents: Option<&str>, now: u64) -> (r: bool)
    ensures
        r == lock_active_spec(
            match contents {
                Some(c) => Some(c@),
                None => None,
            },
            now,
        ),
{
    match contents {
        Some(c) => {
            let v = chars_of(c);
            let e = trimmed_end(&v, 0, v.len());
            let b = trimmed_start(&v, 0, e);
            assert(v@.subrange(0, v@.len() as int) =~= c@);
            match parse_u64_range(&v, b, e) {
                Some(expiry) => now < expiry,
                None => false,
            }
        },
        None => false,
    }
}

/// The text of a lock file that holds fetches off until `expiry`.
pub fn format_lock_file(expiry: u64) -> (text: String)
    ensures
        text@ == decimal(expiry as nat),
{
    let mut s = String::new();
    push_decimal(&mut s, expiry);
    assert(s@ =~= decimal(expiry as nat));
    s
}

proof fn lemma_trim_digits(s: Seq<char>)
    requires
        all_digits(s),
        s.len() > 0,
    ensures
        trim(s) == s,
{
    assert(is_digit(s[0]));
    assert(is_digit(s.last()));
}

/// A lock file written for `expiry` holds fetches off exactly while the
/// time is before `expiry`.
pub proof fn lemma_lock_file_roundtrip(expiry: u64, now: u64)
    ensures
        lock_active_spec(Some(decimal(expiry as nat)), now) == (now < expiry),
{
    lemma_decimal(expiry as nat);
    lemma_trim_digits(decimal(expiry as nat));
    lemma_parse_signed_decimal(expiry as int, false, 0, u64::MAX as int);
    assert(signed_decimal(expiry as int) == decimal(expiry as nat));
}

/// One `KEY=value` line of the cache file, without its line ending.
pub open spec fn cache_entry(key: Seq<char>, val: Seq<char>) -> Seq<char> {
    key + seq!['='] + val
}

/// The text of the cache file that records the given figures.
pub open spec fn cache_file_text(
    timestamp: u64,
    utilization: i32,
    resets_at: Seq<char>,
    weekly_utilization: i32,
    weekly_resets_at: Seq<char>,
    extra_enabled: bool,
    extra_used: Seq<char>,
) -> Seq<char> {
    cache_entry("TIMESTAMP"@, decimal(timestamp as nat)) + seq!['\n'] + cache_entry(
        "UTILIZATION"@,
        signed_decimal(utilization as int),
    ) + seq!['\n'] + cache_entry("RESETS_AT"@, resets_at) + seq!['\n'] + cache_entry(
        "WEEKLY_UTILIZATION"@,
        signed_decimal(weekly_utilization as int),
    ) + seq!['\n'] + cache_entry("WEEKLY_RESETS_AT"@, weekly_resets_at) + seq!['\n']
        + cache_entry("EXTRA_ENABLED"@, if extra_enabled { seq!['1'] } else { seq!['0'] })
        + seq!['\n'] + cache_entry("EXTRA_USED"@, extra_used)
}

fn push_entry_key(out: &mut String, key: &str)
    ensures
        final(out)@ == old(out)@ + key@ + seq!['='],
{
    out.append(key);
    out.push('=');
}

/// The text of the cache file that records the given figures.
pub fn format_cache_file(
    timestamp: u64,
    utilization: i32,
    resets_at: &str,
    weekly_utilization: i32,
    weekly_resets_at: &str,
    extra_enabled: bool,
    extra_used: &str,
) -> (text: String)
    ensures
        text@ == cache_file_text(
            timestamp,
            utilization,
            resets_at@,
            weekly_utilization,
            weekly_resets_at@,
            extra_enabled,
            extra_used@,
        ),
{
    let mut s = String::new();
    push_entry_key(&mut s, "TIMESTAMP");
    push_decimal(&mut s, timestamp);
    s.push('\n');
    push_entry_key(&mut s, "UTILIZATION");
    push_signed_decimal(&mut s, utilization as i64);
    s.push('\n');
    push_entry_key(&mut s, "RESETS_AT");
    s.append(resets_at);
    s.push('\n');
    push_entry_key(&mut s, "WEEKLY_UTILIZATION");
    push_signed_decimal(&mut s, weekly_utilization as i64);
    s.push('\n');
    push_entry_key(&mut s, "WEEKLY_RESETS_AT");
    s.append(weekly_resets_at);
    s.push('\n');
    push_entry_key(&mut s, "EXTRA_ENABLED");
    s.push(if extra_enabled { '1' } else { '0' });
    s.push('\n');
    push_entry_key(&mut s, "EXTRA_USED");
    s.append(extra_used);
    assert(s@ =~= cache_file_text(
        timestamp,
        utilization,
        resets_at@,
        weekly_utilization,
        weekly_resets_at@,
        extra_enabled,
        extra_used@,
    ));
    s
}

proof fn lemma_split_entry(key: Seq<char>, val: Seq<char>)
    requires
        has_no(key, '='),
    ensures
        find_from(cache_entry(key, val), '=', 0) == key.len(),
        cache_entry(key, val).subrange(0, key.len() as int) == key,
        cache_entry(key, val).subrange(key.len() + 1int, cache_entry(key, val).len() as int) == val,
{
    let e = cache_entry(key, val);
    lemma_find_from_skips(e, '=', 0, key.len() as int);
    assert(e[key.len() as int] == '=');
    assert(e.subrange(0, key.len() as int) =~= key);
    assert(e.subrange(key.len() + 1int, e.len() as int) =~= val);
}

proof fn lemma_signed_decimal_shape(i: int)
    ensures
        has_no(signed_decimal(i), '\n'),
        signed_decimal(i).len() > 0,
        signed_decimal(i).last() != '\r',
{
    let n = if i < 0 { -i } else { i };
    lemma_decimal(n as nat);
    let d = decimal(n as nat);
    assert(is_digit(d[d.len() - 1]));
    assert forall|k: int| 0 <= k < signed_decimal(i).len() implies signed_decimal(i)[k] != '\n' by {
        if i < 0 {
            if k > 0 {
                assert(signed_decimal(i)[k] == d[k - 1]);
                assert(is_digit(d[k - 1]));
            }
        } else {
            assert(is_digit(d[k]));
        }
    }
}

proof fn lemma_keys()
    ensures
        has_no("TIMESTAMP"@, '='),
        has_no("UTILIZATION"@, '='),
        has_no("RESETS_AT"@, '='),
        has_no("WEEKLY_UTILIZATION"@, '='),
        has_no("WEEKLY_RESETS_AT"@, '='),
        has_no("EXTRA_ENABLED"@, '='),
        has_no("EXTRA_USED"@, '='),
        has_no("TIMESTAMP"@, '\n'),
        has_no("UTILIZATION"@, '\n'),
        has_no("RESETS_AT"@, '\n'),
        has_no("WEEKLY_UTILIZATION"@, '\n'),
        has_no("WEEKLY_RESETS_AT"@, '\n'),
        has_no("EXTRA_ENABLED"@, '\n'),
        has_no("EXTRA_USED"@, '\n'),
        "TIMESTAMP"@.len() == 9,
        "UTILIZATION"@.len() == 11,
        "RESETS_AT"@.len() == 9,
        "WEEKLY_UTILIZATION"@.len() == 18,
        "WEEKLY_RESETS_AT"@.len() == 16,
        "EXTRA_ENABLED"@.len() == 13,
        "EXTRA_USED"@.len() == 10,
        "RESETS_AT"@ != "TIMESTAMP"@,
        "1"@ == seq!['1'],
{
    reveal_strlit("TIMESTAMP");
    reveal_strlit("UTILIZATION");
    reveal_strlit("RESETS_AT");
    reveal_strlit("WEEKLY_UTILIZATION");
    reveal_strlit("WEEKLY_RESETS_AT");
    reveal_strlit("EXTRA_ENABLED");
    reveal_strlit("EXTRA_USED");
    reveal_strlit("1");
    assert("RESETS_AT"@[0] != "TIMESTAMP"@[0]);
    assert("1"@ =~= seq!['1']);
}

proof fn lemma_entry_shape(key: Seq<char>, val: Seq<char>)
    requires
        has_no(key, '\n'),
        has_no(val, '\n'),
    ensures
        has_no(cache_entry(key, val), '\n'),
        cache_entry(key, val).len() > 0,
        val.len() == 0 || val.last() != '\r' ==> cache_entry(key, val).last() != '\r',
{
    let e = cache_entry(key, val);
    assert forall|k: int| 0 <= k < e.len() implies e[k] != '\n' by {
        if k > key.len() {
            assert(e[k] == val[k - key.len() - 1]);
        } else if k < key.len() {
            assert(e[k] == key[k]);
        }
    }
    if val.len() > 0 {
        assert(e.last() == val.last());
    }
}

proof fn lemma_seven_lines(
    e1: Seq<char>,
    e2: Seq<char>,
    e3: Seq<char>,
    e4: Seq<char>,
    e5: Seq<char>,
    e6: Seq<char>,
    e7: Seq<char>,
)
    requires
        has_no(e1, '\n') && e1.len() > 0 && e1.last() != '\r',
        has_no(e2, '\n') && e2.len() > 0 && e2.last() != '\r',
        has_no(e3, '\n') && e3.len() > 0 && e3.last() != '\r',
        has_no(e4, '\n') && e4.len() > 0 && e4.last() != '\r',
        has_no(e5, '\n') && e5.len() > 0 && e5.last() != '\r',
        has_no(e6, '\n') && e6.len() > 0 && e6.last() != '\r',
        has_no(e7, '\n') && e7.len() > 0,
    ensures
        ({
            let nl = seq!['\n'];
            lines(e1 + nl + e2 + nl + e3 + nl + e4 + nl + e5 + nl + e6 + nl + e7) == seq![
                e1,
                e2,
                e3,
                e4,
                e5,
                e6,
                e7,
            ]
        }),
{
    let nl = seq!['\n'];
    let t6 = e6 + nl + e7;
    let t5 = e5 + nl + t6;
    let t4 = e4 + nl + t5;
    let t3 = e3 + nl + t4;
    let t2 = e2 + nl + t3;
    let t1 = e1 + nl + t2;
    assert(t1 =~= e1 + nl + e2 + nl + e3 + nl + e4 + nl + e5 + nl + e6 + nl + e7);
    lemma_lines_single(e7);
    lemma_lines_cons(e6, e7);
    lemma_lines_cons(e5, t6);
    lemma_lines_cons(e4, t5);
    lemma_lines_cons(e3, t4);
    lemma_lines_cons(e2, t3);
    lemma_lines_cons(e1, t2);
    assert(lines(t1) =~= seq![e1, e2, e3, e4, e5, e6, e7]);
}

proof fn lemma_cache_text_lines(
    timestamp: u64,
    utilization: i32,
    resets_at: Seq<char>,
    weekly_utilization: i32,
    weekly_resets_at: Seq<char>,
    extra_enabled: bool,
    extra_used: Seq<char>,
)
    requires
        has_no(resets_at, '\n'),
        has_no(weekly_resets_at, '\n'),
        has_no(extra_used, '\n'),
        resets_at.len() == 0 || resets_at.last() != '\r',
        weekly_resets_at.len() == 0 || weekly_resets_at.last() != '\r',
    ensures
        lines(
            cache_file_text(
                timestamp,
                utilization,
                resets_at,
                weekly_utilization,
                weekly_resets_at,
                extra_enabled,
                extra_used,
            ),
        ) == seq![
            cache_entry("TIMESTAMP"@, decimal(timestamp as nat)),
            cache_entry("UTILIZATION"@, signed_decimal(utilization as int)),
            cache_entry("RESETS_AT"@, resets_at),
            cache_entry("WEEKLY_UTILIZATION"@, signed_decimal(weekly_utilization as int)),
            cache_entry("WEEKLY_RESETS_AT"@, weekly_resets_at),
            cache_entry("EXTRA_ENABLED"@, if extra_enabled { seq!['1'] } else { seq!['0'] }),
            cache_entry("EXTRA_USED"@, extra_used),
        ],
{
    lemma_keys();
    let enabled = if extra_enabled { seq!['1'] } else { seq!['0'] };
    lemma_signed_decimal_shape(timestamp as int);
    lemma_signed_decimal_shape(utilization as int);
    lemma_signed_decimal_shape(weekly_utilization as int);
    assert(signed_decimal(timestamp as int) == decimal(timestamp as nat));
    assert(has_no(enabled, '\n'));
    lemma_entry_shape("TIMESTAMP"@, decimal(timestamp as nat));
    lemma_entry_shape("UTILIZATION"@, signed_decimal(utilization as int));
    lemma_entry_shape("RESETS_AT"@, resets_at);
    lemma_entry_shape("WEEKLY_UTILIZATION"@, signed_decimal(weekly_utilization as int));
    lemma_entry_shape("WEEKLY_RESETS_AT"@, weekly_resets_at);
    lemma_entry_shape("EXTRA_ENABLED"@, enabled);
    lemma_entry_shape("EXTRA_USED"@, extra_used);
    lemma_seven_lines(
        cache_entry("TIMESTAMP"@, decimal(timestamp as nat)),
        cache_entry("UTILIZATION"@, signed_decimal(utilization as int)),
        cache_entry("RESETS_AT"@, resets_at),
        cache_entry("WEEKLY_UTILIZATION"@, signed_decimal(weekly_utilization as int)),
        cache_entry("WEEKLY_RESETS_AT"@, weekly_resets_at),
        cache_entry("EXTRA_ENABLED"@, enabled),
        cache_entry("EXTRA_USED"@, extra_used),
    );
}

proof fn lemma_apply_entries(
    timestamp: u64,
    utilization: i32,
    resets_at: Seq<char>,
    weekly_utilization: i32,
    weekly_resets_at: Seq<char>,
    extra_enabled: bool,
    extra_used: Seq<char>,
)
    ensures
        apply_cache_lines(
            empty_cache(),
            seq![
                cache_entry("TIMESTAMP"@, decimal(timestamp as nat)),
                cache_entry("UTILIZATION"@, signed_decimal(utilization as int)),
                cache_entry("RESETS_AT"@, resets_at),
                cache_entry("WEEKLY_UTILIZATION"@, signed_decimal(weekly_utilization as int)),
                cache_entry("WEEKLY_RESETS_AT"@, weekly_resets_at),
                cache_entry("EXTRA_ENABLED"@, if extra_enabled { seq!['1'] } else { seq!['0'] }),
                cache_entry("EXTRA_USED"@, extra_used),
            ],
        ) == (UsageCacheView {
            timestamp,
            utilization: Some(utilization),
            resets_at,
            weekly_utilization: Some(weekly_utilization),
            weekly_resets_at,
            extra_enabled,
            extra_used,
        }),
{
    lemma_keys();
    let enabled = if extra_enabled { seq!['1'] } else { seq!['0'] };
    let e1 = cache_entry("TIMESTAMP"@, decimal(timestamp as nat));
    let e2 = cache_entry("UTILIZATION"@, signed_decimal(utilization as int));
    let e3 = cache_entry("RESETS_AT"@, resets_at);
    let e4 = cache_entry("WEEKLY_UTILIZATION"@, signed_decimal(weekly_utilization as int));
    let e5 = cache_entry("WEEKLY_RESETS_AT"@, weekly_resets_at);
    let e6 = cache_entry("EXTRA_ENABLED"@, enabled);
    let e7 = cache_entry("EXTRA_USED"@, extra_used);
    lemma_split_entry("TIMESTAMP"@, decimal(timestamp as nat));
    lemma_split_entry("UTILIZATION"@, signed_decimal(utilization as int));
    lemma_split_entry("RESETS_AT"@, resets_at);
    lemma_split_entry("WEEKLY_UTILIZATION"@, signed_decimal(weekly_utilization as int));
    lemma_split_entry("WEEKLY_RESETS_AT"@, weekly_resets_at);
    lemma_split_entry("EXTRA_ENABLED"@, enabled);
    lemma_split_entry("EXTRA_USED"@, extra_used);
    lemma_parse_signed_decimal(timestamp as int, false, 0, u64::MAX as int);
    assert(signed_decimal(timestamp as int) == decimal(timestamp as nat));
    lemma_parse_signed_decimal(utilization as int, true, i32::MIN as int, i32::MAX as int);
    lemma_parse_signed_decimal(weekly_utilization as int, true, i32::MIN as int, i32::MAX as int);
    let c0 = empty_cache();
    let c1 = apply_cache_line(c0, e1);
    let c2 = apply_cache_line(c1, e2);
    let c3 = apply_cache_line(c2, e3);
    let c4 = apply_cache_line(c3, e4);
    let c5 = apply_cache_line(c4, e5);
    let c6 = apply_cache_line(c5, e6);
    let c7 = apply_cache_line(c6, e7);
    assert(c1.timestamp == timestamp);
    assert(c2.utilization == Some(utilization));
    assert(c3.resets_at == resets_at);
    assert(c4.weekly_utilization == Some(weekly_utilization));
    assert(c5.weekly_resets_at == weekly_resets_at);
    assert(c6.extra_enabled == extra_enabled) by {
        if !extra_enabled {
            assert(enabled[0] != "1"@[0]);
        }
    }
    assert(c7.extra_used == extra_used);
    let ls = seq![e1, e2, e3, e4, e5, e6, e7];
    reveal_with_fuel(apply_cache_lines, 8);
    assert(ls.drop_first() =~= seq![e2, e3, e4, e5, e6, e7]);
    assert(ls.drop_first().drop_first() =~= seq![e3, e4, e5, e6, e7]);
    assert(ls.drop_first().drop_first().drop_first() =~= seq![e4, e5, e6, e7]);
    assert(ls.drop_first().drop_first().drop_first().drop_first() =~= seq![e5, e6, e7]);
    assert(ls.drop_first().drop_first().drop_first().drop_first().drop_first() =~= seq![e6, e7]);
    assert(ls.drop_first().drop_first().drop_first().drop_first().drop_first().drop_first()
        =~= seq![e7]);
    assert(ls.drop_first().drop_first().drop_first().drop_first().drop_first().drop_first().drop_first()
        =~= Seq::<Seq<char>>::empty());
}

/// Reading back a cache file gives the figures that were written, as long as
/// the three free-text values hold no line break (and the two reset times do
/// not end in a carriage return, which the line splitting would eat).
pub proof fn lemma_cache_file_roundtrip(
    timestamp: u64,
    utilization: i32,
    resets_at: Seq<char>,
    weekly_utilization: i32,
    weekly_resets_at: Seq<char>,
    extra_enabled: bool,
    extra_used: Seq<char>,
)
    requires
        has_no(resets_at, '\n'),
        has_no(weekly_resets_at, '\n'),
        has_no(extra_used, '\n'),
        resets_at.len() == 0 || resets_at.last() != '\r',
        weekly_resets_at.len() == 0 || weekly_resets_at.last() != '\r',
    ensures
        parse_cache_spec(
            cache_file_text(
                timestamp,
                utilization,
                resets_at,
                weekly_utilization,
                weekly_resets_at,
                extra_enabled,
                extra_used,
            ),
        ) == (UsageCacheView {
            timestamp,
            utilization: Some(utilization),
            resets_at,
            weekly_utilization: Some(weekly_utilization),
            weekly_resets_at,
            extra_enabled,
            extra_used,
        }),
{
    lemma_cache_text_lines(
        timestamp,
        utilization,
        resets_at,
        weekly_utilization,
        weekly_resets_at,
        extra_enabled,
        extra_used,
    );
    lemma_apply_entries(
        timestamp,
        utilization,
        resets_at,
        weekly_utilization,
        weekly_resets_at,
        extra_enabled,
        extra_used,
    );
}

/// The key of a cache line: the text before its first `'='`, if it has one.
pub open spec fn line_key(line: Seq<char>) -> Option<Seq<char>> {
    let eq = find_from(line, '=', 0);
    if eq < line.len() {
        Some(line.subrange(0, eq))
    } else {
        None
    }
}

/// The value of a cache line: the text after its first `'='`.
pub open spec fn line_value(line: Seq<char>) -> Seq<char> {
    line.subrange(find_from(line, '=', 0) + 1, line.len() as int)
}

/// The value of the last of the lines `ls` whose key is `key`.
pub open spec fn last_value(ls: Seq<Seq<char>>, key: Seq<char>) -> Option<Seq<char>>
    decreases ls.len(),
{
    if ls.len() == 0 {
        None
    } else if line_key(ls.last()) == Some(key) {
        Some(line_value(ls.last()))
    } else {
        last_value(ls.drop_last(), key)
    }
}

/// The cache described key by key: each field comes from the last line with
/// its key, read as `parse_cache_file` reads it, and keeps its default when
/// no line has that key.
pub open spec fn cache_from_last_values(ls: Seq<Seq<char>>) -> UsageCacheView {
    UsageCacheView {
        timestamp: match last_value(ls, "TIMESTAMP"@) {
            Some(v) => match parse_u64_spec(v) {
                Some(t) => t as u64,
                None => 0,
            },
            None => 0,
        },
        utilization: match last_value(ls, "UTILIZATION"@) {
            Some(v) => as_i32(parse_i32_spec(v)),
            None => None,
        },
        resets_at: match last_value(ls, "RESETS_AT"@) {
            Some(v) => v,
            None => Seq::empty(),
        },
        weekly_utilization: match last_value(ls, "WEEKLY_UTILIZATION"@) {
            Some(v) => as_i32(parse_i32_spec(v)),
            None => None,
        },
        weekly_resets_at: match last_value(ls, "WEEKLY_RESETS_AT"@) {
            Some(v) => v,
            None => Seq::empty(),
        },
        extra_enabled: match last_value(ls, "EXTRA_ENABLED"@) {
            Some(v) => v == "1"@,
            None => false,
        },
        extra_used: match last_value(ls, "EXTRA_USED"@) {
            Some(v) => v,
            None => Seq::empty(),
        },
    }
}

proof fn lemma_apply_cache_lines_push(c: UsageCacheView, ls: Seq<Seq<char>>, x: Seq<char>)
    ensures
        apply_cache_lines(c, ls.push(x)) == apply_cache_line(apply_cache_lines(c, ls), x),
    decreases ls.len(),
{
    if ls.len() == 0 {
        assert(ls.push(x).drop_first() =~= Seq::<Seq<char>>::empty());
        assert(ls.push(x)[0] == x);
        assert(apply_cache_lines(apply_cache_line(c, x), Seq::<Seq<char>>::empty()) == apply_cache_line(c, x));
    } else {
        assert(ls.push(x)[0] == ls[0]);
        assert(ls.push(x).drop_first() =~= ls.drop_first().push(x));
        lemma_apply_cache_lines_push(apply_cache_line(c, ls[0]), ls.drop_first(), x);
    }
}

/// The last line with a key wins: reading the cache file is the same as
/// taking, for each key, the value of the last line with that key.
pub proof fn lemma_cache_last_line_wins(ls: Seq<Seq<char>>)
    ensures
        apply_cache_lines(empty_cache(), ls) == cache_from_last_values(ls),
    decreases ls.len(),
{
    if ls.len() > 0 {
        let init = ls.drop_last();
        let x = ls.last();
        assert(ls =~= init.push(x));
        lemma_cache_last_line_wins(init);
        lemma_apply_cache_lines_push(empty_cache(), init, x);
        lemma_keys();
    }
}

/// No two of the lines `ls` share a key.
pub open spec fn distinct_keys(ls: Seq<Seq<char>>) -> bool {
    forall|i: int, j: int|
        0 <= i < ls.len() && 0 <= j < ls.len() && i != j && line_key(ls[i]) is Some ==> line_key(
            ls[i],
        ) != line_key(ls[j])
}

proof fn lemma_last_value_unique(ls: Seq<Seq<char>>, key: Seq<char>, i: int)
    requires
        distinct_keys(ls),
        0 <= i < ls.len(),
        line_key(ls[i]) == Some(key),
    ensures
        last_value(ls, key) == Some(line_value(ls[i])),
    decreases ls.len(),
{
    if i < ls.len() - 1 {
        assert(line_key(ls[i]) != line_key(ls[ls.len() - 1]));
        let init = ls.drop_last();
        assert(init[i] == ls[i]);
        assert(distinct_keys(init)) by {
            assert forall|a: int, b: int|
                0 <= a < init.len() && 0 <= b < init.len() && a != b && line_key(init[a]) is Some
                    implies line_key(init[a]) != line_key(init[b]) by {
                assert(init[a] == ls[a] && init[b] == ls[b]);
            }
        }
        lemma_last_value_unique(init, key, i);
    }
}

proof fn lemma_last_value_absent(ls: Seq<Seq<char>>, key: Seq<char>)
    requires
        forall|i: int| 0 <= i < ls.len() ==> line_key(#[trigger] ls[i]) != Some(key),
    ensures
        last_value(ls, key) is None,
    decreases ls.len(),
{
    if ls.len() > 0 {
        let init = ls.drop_last();
        assert(line_key(ls[ls.len() - 1]) != Some(key));
        assert forall|i: int| 0 <= i < init.len() implies line_key(#[trigger] init[i]) != Some(key) by {
            assert(init[i] == ls[i]);
        }
        lemma_last_value_absent(init, key);
    }
}

proof fn lemma_last_value_same_lines(ls1: Seq<Seq<char>>, ls2: Seq<Seq<char>>, key: Seq<char>)
    requires
        distinct_keys(ls1),
        distinct_keys(ls2),
        ls1.to_multiset() == ls2.to_multiset(),
    ensures
        last_value(ls1, key) == last_value(ls2, key),
{
    ls1.to_multiset_ensures();
    ls2.to_multiset_ensures();
    if exists|i: int| 0 <= i < ls1.len() && line_key(ls1[i]) == Some(key) {
        let i = choose|i: int| 0 <= i < ls1.len() && line_key(ls1[i]) == Some(key);
        assert(ls1.contains(ls1[i]));
        assert(ls1.to_multiset().count(ls1[i]) > 0);
        assert(ls2.to_multiset().count(ls1[i]) > 0);
        assert(ls2.contains(ls1[i]));
        let j = choose|j: int| 0 <= j < ls2.len() && ls2[j] == ls1[i];
        lemma_last_value_unique(ls1, key, i);
        lemma_last_value_unique(ls2, key, j);
    } else {
        lemma_last_value_absent(ls1, key);
        assert forall|j: int| 0 <= j < ls2.len() implies line_key(#[trigger] ls2[j]) != Some(key) by {
            if line_key(ls2[j]) == Some(key) {
                assert(ls2.contains(ls2[j]));
                assert(ls2.to_multiset().count(ls2[j]) > 0);
                assert(ls1.to_multiset().count(ls2[j]) > 0);
                assert(ls1.contains(ls2[j]));
                let i = choose|i: int| 0 <= i < ls1.len() && ls1[i] == ls2[j];
                assert(line_key(ls1[i]) == Some(key));
            }
        }
        lemma_last_value_absent(ls2, key);
    }
}

/// When no two lines share a key, the order of the lines does not matter:
/// two cache files whose lines are the same up to order (both free of
/// repeated keys) describe the same cache.
pub proof fn lemma_cache_line_order_irrelevant(s1: Seq<char>, s2: Seq<char>)
    requires
        distinct_keys(lines(s1)),
        distinct_keys(lines(s2)),
        lines(s1).to_multiset() == lines(s2).to_multiset(),
    ensures
        parse_cache_spec(s1) == parse_cache_spec(s2),
{
    let ls1 = lines(s1);
    let ls2 = lines(s2);
    lemma_cache_last_line_wins(ls1);
    lemma_cache_last_line_wins(ls2);
    lemma_last_value_same_lines(ls1, ls2, "TIMESTAMP"@);
    lemma_last_value_same_lines(ls1, ls2, "UTILIZATION"@);
    lemma_last_value_same_lines(ls1, ls2, "RESETS_AT"@);
    lemma_last_value_same_lines(ls1, ls2, "WEEKLY_UTILIZATION"@);
    lemma_last_value_same_lines(ls1, ls2, "WEEKLY_RESETS_AT"@);
    lemma_last_value_same_lines(ls1, ls2, "EXTRA_ENABLED"@);
    lemma_last_value_same_lines(ls1, ls2, "EXTRA_USED"@);
}

/// The cache that a successful fetch returns: the fetched figures, stamped
/// with the time of the fetch.
pub fn fetched_cache(
    timestamp: u64,
    utilization: i32,
    resets_at: String,
    weekly_utilization: i32,
    weekly_resets_at: String,
    extra_enabled: bool,
    extra_used: String,
) -> (c: UsageCache)
    ensures
        c@ == (UsageCacheView {
            timestamp,
            utilization: Some(utilization),
            resets_at: resets_at@,
            weekly_utilization: Some(weekly_utilization),
            weekly_resets_at: weekly_resets_at@,
            extra_enabled,
            extra_used: extra_used@,
        }),
{
    UsageCache {
        timestamp,
        utilization: Some(utilization),
        resets_at,
        weekly_utilization: Some(weekly_utilization),
        weekly_resets_at,
        extra_enabled,
        extra_used,
    }
}

/// What a fetch writes to the cache file reads back as the cache that the
/// fetch returns, as long as the reset times and the credits text hold no
/// line break (and the reset times do not end in a carriage return).
pub proof fn lemma_fetched_cache_roundtrip(
    timestamp: u64,
    utilization: i32,
    resets_at: String,
    weekly_utilization: i32,
    weekly_resets_at: String,
    extra_enabled: bool,
    extra_used: String,
)
    requires
        has_no(resets_at@, '\n'),
        has_no(weekly_resets_at@, '\n'),
        has_no(extra_used@, '\n'),
        resets_at@.len() == 0 || resets_at@.last() != '\r',
        weekly_resets_at@.len() == 0 || weekly_resets_at@.last() != '\r',
    ensures
        parse_cache_spec(
            cache_file_text(
                timestamp,
                utilization,
                resets_at@,
                weekly_utilization,
                weekly_resets_at@,
                extra_enabled,
                extra_used@,
            ),
        ) == (UsageCache {
            timestamp,
            utilization: Some(utilization),
            resets_at,
            weekly_utilization: Some(weekly_utilization),
            weekly_resets_at,
            extra_enabled,
            extra_used,
        })@,
{
    lemma_cache_file_roundtrip(
        timestamp,
        utilization,
        resets_at@,
        weekly_utilization,
        weekly_resets_at@,
        extra_enabled,
        extra_used@,
    );
}

} // verus!
