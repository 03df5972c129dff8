//! Version arithmetic of the self-updater: semantic versions, snapshot
//! build hashes and the freshness of the cached update check.
use vstd::prelude::*;
use crate::text::{chars_vec, is_whitespace, push_str, str_eq, string_from_chars, unicode_whitespace};

verus! {

/// Refresh the cached update check at most once every 24 hours.
pub const CACHE_TTL_SECS: u64 = 86_400;

// ── Specifications ────────────────────────────────────────────────────────────

/// The number of leading `v` characters.
pub open spec fn lead_v(s: Seq<char>) -> nat
    decreases s.len(),
{
    if s.len() > 0 && s[0] == 'v' {
        1 + lead_v(s.skip(1))
    } else {
        0
    }
}

/// The first index at or after `i` holding `c`, or -1.
pub open spec fn find_from(s: Seq<char>, c: char, i: int) -> int
    decreases s.len() - i,
{
    if i < 0 || i >= s.len() {
        -1
    } else if s[i] == c {
        i
    } else {
        find_from(s, c, i + 1)
    }
}

/// The last index holding `c`, or -1.
pub open spec fn find_last(s: Seq<char>, c: char) -> int
    decreases s.len(),
{
    if s.len() == 0 {
        -1
    } else if s.last() == c {
        s.len() - 1
    } else {
        find_last(s.drop_last(), c)
    }
}

/// An ASCII decimal digit.
pub open spec fn is_digit(c: char) -> bool {
    '0' <= c <= '9'
}

/// The value of a string of decimal digits.
pub open spec fn digits_value(s: Seq<char>) -> int
    decreases s.len(),
{
    if s.len() == 0 {
        0
    } else {
        digits_value(s.drop_last()) * 10 + (s.last() as int - '0' as int)
    }
}

/// The value of a nonempty string of decimal digits that fits in a `u32`.
pub open spec fn digits_u32(d: Seq<char>) -> Option<u32> {
    if d.len() > 0 && (forall|i: int| 0 <= i < d.len() ==> is_digit(#[trigger] d[i])) && digits_value(d)
        <= u32::MAX {
        Some(digits_value(d) as u32)
    } else {
        None
    }
}

/// What `str::parse::<u32>` accepts: an optional `+`, then one or more
/// decimal digits whose value fits in a `u32`.
pub open spec fn parse_u32(s: Seq<char>) -> Option<u32> {
    if s.len() > 0 && s[0] == '+' {
        digits_u32(s.skip(1))
    } else {
        digits_u32(s)
    }
}

/// `major.minor.patch` after any leading `v`s, the patch cut at its first
/// `-` (a pre-release suffix) and everything after a third `.` kept in it.
pub open spec fn version_of(v: Seq<char>) -> Option<(u32, u32, u32)> {
    let p = lead_v(v) as int;
    let i = find_from(v, '.', p);
    let j = find_from(v, '.', i + 1);
    let k = find_from(v, '-', j + 1);
    let end = if k < 0 {
        v.len() as int
    } else {
        k
    };
    if i < 0 || j < 0 {
        None
    } else {
        match (parse_u32(v.subrange(p, i)), parse_u32(v.subrange(i + 1, j)), parse_u32(v.subrange(j + 1, end))) {
            (Some(a), Some(b), Some(c)) => Some((a, b, c)),
            _ => None,
        }
    }
}

/// Lexicographic order of version triples.
pub open spec fn triple_gt(a: (u32, u32, u32), b: (u32, u32, u32)) -> bool {
    a.0 > b.0 || (a.0 == b.0 && (a.1 > b.1 || (a.1 == b.1 && a.2 > b.2)))
}

/// `candidate` is a version strictly newer than `current`; unparsable
/// versions are never newer.
pub open spec fn newer(candidate: Seq<char>, current: Seq<char>) -> bool {
    match (version_of(candidate), version_of(current)) {
        (Some(c), Some(cur)) => triple_gt(c, cur),
        _ => false,
    }
}

/// The build hash of a version: what follows the first `.` after the first `-`.
pub open spec fn sha_of_version(v: Seq<char>) -> Option<Seq<char>> {
    let i = find_from(v, '-', 0);
    let j = find_from(v, '.', i + 1);
    if i < 0 || j < 0 {
        None
    } else {
        Some(v.subrange(j + 1, v.len() as int))
    }
}

/// The string without leading and trailing whitespace.
pub open spec fn trim(s: Seq<char>) -> Seq<char>
    decreases s.len(),
{
    if s.len() > 0 && unicode_whitespace(s[0]) {
        trim(s.skip(1))
    } else if s.len() > 0 && unicode_whitespace(s.last()) {
        trim(s.drop_last())
    } else {
        s
    }
}

/// The build hash in a snapshot title: the trimmed text between the last
/// `(` and the last `)`, when the `(` comes first.
pub open spec fn sha_of_title(t: Seq<char>) -> Option<Seq<char>> {
    let a = find_last(t, '(');
    let b = find_last(t, ')');
    if a < 0 || b < 0 || a + 1 >= b {
        None
    } else {
        Some(trim(t.subrange(a + 1, b)))
    }
}

/// A snapshot update is due unless the local build hash and the release's
/// are both known and equal.
pub open spec fn snapshot_due(local_version: Seq<char>, release_title: Seq<char>) -> bool {
    match sha_of_version(local_version) {
        None => true,
        Some(l) => match sha_of_title(release_title) {
            None => true,
            Some(r) => l != r,
        },
    }
}

/// The cached check is stale: another channel, never checked, or older than the TTL at `now`.
pub open spec fn stale(checked_at: u64, cached_channel: Seq<char>, channel: Seq<char>, now: u64) -> bool {
    cached_channel != channel || checked_at == 0 || (if now >= checked_at {
        now - checked_at
    } else {
        0
    }) > CACHE_TTL_SECS
}

// ── Code ──────────────────────────────────────────────────────────────────────

/// The number of leading `v` characters of `v`.
fn count_lead_v(v: &Vec<char>) -> (n: usize)
    ensures
        n as int == lead_v(v@) as int,
        n <= v@.len(),
{
    let mut i: usize = 0;
    assert(v@.skip(0) =~= v@);
    assert(lead_v(v@) == 0 + lead_v(v@.skip(0)));
    while i < v.len() && v[i] == 'v'
        invariant
            i <= v.len(),
            lead_v(v@) == i + lead_v(v@.skip(i as int)),
        decreases v.len() - i,
    {
        assert(v@.skip(i as int).skip(1) =~= v@.skip(i + 1));
        i = i + 1;
    }
    i
}

/// The first index at or after `from` holding `c`.
pub(crate) fn find_char_from(v: &Vec<char>, c: char, from: usize) -> (r: Option<usize>)
    ensures
        match r {
            Some(k) => k as int == find_from(v@, c, from as int) && k < v@.len(),
            None => find_from(v@, c, from as int) == -1,
        },
{
    let mut i = from;
    while i < v.len()
        invariant
            from <= i,
            find_from(v@, c, from as int) == find_from(v@, c, i as int),
        decreases v.len() - i,
    {
        if v[i] == c {
            return Some(i);
        }
        i = i + 1;
    }
    None
}

/// The last index holding `c`.
fn find_char_last(v: &Vec<char>, c: char) -> (r: Option<usize>)
    ensures
        match r {
            Some(k) => k as int == find_last(v@, c) && k < v@.len(),
            None => find_last(v@, c) == -1,
        },
{
    let mut i = v.len();
    assert(v@.take(i as int) =~= v@);
    while i > 0
        invariant
            i <= v.len(),
            find_last(v@, c) == find_last(v@.take(i as int), c),
        decreases i,
    {
        assert(v@.take(i as int).drop_last() =~= v@.take(i - 1));
        if v[i - 1] == c {
            return Some(i - 1);
        }
        i = i - 1;
    }
    None
}

/// Digit strings grow in value as they grow in length.
pub proof fn lemma_digits_value_prefix(s: Seq<char>, k: int)
    requires
        0 <= k <= s.len(),
        forall|i: int| 0 <= i < s.len() ==> is_digit(#[trigger] s[i]),
    ensures
        digits_value(s.take(k)) <= digits_value(s),
        digits_value(s.take(k)) >= 0,
    decreases s.len(),
{
    if s.len() > 0 {
        if k == s.len() {
            assert(s.take(k) =~= s);
            lemma_digits_value_prefix(s.drop_last(), k - 1);
            assert(s.drop_last().take(k - 1) =~= s.drop_last());
        } else {
            lemma_digits_value_prefix(s.drop_last(), k);
            assert(s.drop_last().take(k) =~= s.take(k));
            lemma_digits_value_prefix(s.drop_last(), s.len() - 1);
            assert(s.drop_last().take(s.len() - 1) =~= s.drop_last());
        }
    }
}

/// `str::parse::<u32>` of the characters `v[lo..hi]`.
fn parse_u32_range(v: &Vec<char>, lo: usize, hi: usize) -> (r: Option<u32>)
    requires
        lo <= hi <= v@.len(),
    ensures
        r == parse_u32(v@.subrange(lo as int, hi as int)),
{
    let ghost s = v@.subrange(lo as int, hi as int);
    let start = if lo < hi && v[lo] == '+' {
        lo + 1
    } else {
        lo
    };
    let ghost d = v@.subrange(start as int, hi as int);
    assert(start == lo + 1 ==> s.skip(1) =~= d);
    assert(start == lo ==> s =~= d);
    assert(parse_u32(s) == digits_u32(d));
    if start == hi {
        return None;
    }
    // Every character must be a digit.
    let mut i = start;
    while i < hi
        invariant
            start <= i <= hi <= v@.len(),
            d == v@.subrange(start as int, hi as int),
            parse_u32(v@.subrange(lo as int, hi as int)) == digits_u32(d),
            forall|j: int| 0 <= j < i - start ==> is_digit(#[trigger] d[j]),
        decreases hi - i,
    {
        assert(d[i - start] == v@[i as int]);
        if !(v[i] >= '0' && v[i] <= '9') {
            assert(!is_digit(d[i - start]));
            return None;
        }
        i = i + 1;
    }
    // The value, stopping once it no longer fits.
    let mut acc: u64 = 0;
    let mut k = start;
    while k < hi
        invariant
            start <= k <= hi <= v@.len(),
            d == v@.subrange(start as int, hi as int),
            forall|j: int| 0 <= j < d.len() ==> is_digit(#[trigger] d[j]),
            parse_u32(v@.subrange(lo as int, hi as int)) == digits_u32(d),
            acc as int == digits_value(d.take(k - start)),
            acc <= u32::MAX,
        decreases hi - k,
    {
        assert(d[k - start] == v@[k as int]);
        assert(is_digit(d[k - start]));
        assert('0' <= v@[k as int] <= '9');
        let digit = (v[k] as u32 - '0' as u32) as u64;
        assert(d.take(k - start + 1).drop_last() =~= d.take(k - start));
        acc = acc * 10 + digit;
        if acc > u32::MAX as u64 {
            proof {
                lemma_digits_value_prefix(d, k - start + 1);
                assert(digits_value(d) > u32::MAX);
            }
            return None;
        }
        k = k + 1;
    }
    assert(d.take(hi - start) =~= d);
    Some(acc as u32)
}

/// Parse `v0.1.2` or `0.1.2` into `(0, 1, 2)`.
pub fn parse_version(v: &str) -> (r: Option<(u32, u32, u32)>)
    ensures
        r == version_of(v@),
{
    let cs = chars_vec(v);
    let p = count_lead_v(&cs);
    let i = match find_char_from(&cs, '.', p) {
        Some(i) => i,
        None => return None,
    };
    let j = match find_char_from(&cs, '.', i + 1) {
        Some(j) => j,
        None => return None,
    };
    // strip pre-release suffix
    let end = match find_char_from(&cs, '-', j + 1) {
        Some(k) => k,
        None => cs.len(),
    };
    proof {
        lemma_find_from_at_least(cs@, '.', p as int);
        lemma_find_from_at_least(cs@, '.', i + 1);
        lemma_find_from_at_least(cs@, '-', j + 1);
    }
    let major = match parse_u32_range(&cs, p, i) {
        Some(x) => x,
        None => return None,
    };
    let minor = match parse_u32_range(&cs, i + 1, j) {
        Some(x) => x,
        None => return None,
    };
    let patch = match parse_u32_range(&cs, j + 1, end) {
        Some(x) => x,
        None => return None,
    };
    Some((major, minor, patch))
}

/// A found index is at or after where the search started.
pub proof fn lemma_find_from_at_least(s: Seq<char>, c: char, i: int)
    ensures
        find_from(s, c, i) == -1 || (i <= find_from(s, c, i) < s.len() && s[find_from(s, c, i)] == c),
    decreases s.len() - i,
{
    if 0 <= i < s.len() && s[i] != c {
        lemma_find_from_at_least(s, c, i + 1);
    }
}

/// No index at or after `i` holds `c` when none is found there.
pub(crate) proof fn lemma_find_from_none(s: Seq<char>, c: char, i: int)
    requires
        0 <= i,
        find_from(s, c, i) == -1,
    ensures
        forall|k: int| i <= k < s.len() ==> s[k] != c,
    decreases s.len() - i,
{
    if i < s.len() {
        lemma_find_from_none(s, c, i + 1);
    }
}

/// Returns `true` if `candidate` is strictly newer than `current` (semver).
pub fn is_newer(candidate: &str, current: &str) -> (b: bool)
    ensures
        b == newer(candidate@, current@),
{
    match (parse_version(candidate), parse_version(current)) {
        (Some(c), Some(cur)) => c.0 > cur.0 || (c.0 == cur.0 && (c.1 > cur.1 || (c.1 == cur.1 && c.2 > cur.2))),
        _ => false,
    }
}

/// Being newer is a strict order on versions: no version is newer than
/// itself, of two versions at most one is newer than the other, and a
/// version newer than a newer one is newer still.
pub proof fn lemma_newer_strict_order(a: Seq<char>, b: Seq<char>, c: Seq<char>)
    ensures
        !newer(a, a),
        newer(a, b) ==> !newer(b, a),
        newer(a, b) && newer(b, c) ==> newer(a, c),
{
}

/// A stale cache stays stale as time goes on.
pub proof fn lemma_stale_stays_stale(checked_at: u64, cached: Seq<char>, channel: Seq<char>, now: u64, later: u64)
    requires
        stale(checked_at, cached, channel, now),
        now <= later,
    ensures
        stale(checked_at, cached, channel, later),
{
}

/// Extract the short git SHA from a version string.
/// "0.1.0-snapshot.abc1234" → Some("abc1234"); "0.1.0" → None.
pub fn version_sha(v: &str) -> (r: Option<String>)
    ensures
        match r {
            Some(s) => sha_of_version(v@) == Some(s@),
            None => sha_of_version(v@) is None,
        },
{
    let cs = chars_vec(v);
    let n = cs.len();
    let i = match find_char_from(&cs, '-', 0) {
        Some(i) => i,
        None => return None,
    };
    let j = match find_char_from(&cs, '.', i + 1) {
        Some(j) => j,
        None => return None,
    };
    proof {
        lemma_find_from_at_least(cs@, '.', i + 1);
    }
    Some(string_of_range(&cs, j + 1, cs.len()))
}

/// The string of the characters `v[lo..hi]`.
fn string_of_range(v: &Vec<char>, lo: usize, hi: usize) -> (s: String)
    requires
        lo <= hi <= v@.len(),
    ensures
        s@ == v@.subrange(lo as int, hi as int),
{
    let mut part: Vec<char> = Vec::new();
    let mut i = lo;
    while i < hi
        invariant
            lo <= i <= hi <= v@.len(),
            part@ == v@.subrange(lo as int, i as int),
        decreases hi - i,
    {
        part.push(v[i]);
        assert(part@ =~= v@.subrange(lo as int, i + 1));
        i = i + 1;
    }
    string_from_chars(part.as_slice())
}

/// Extract the short git SHA from a snapshot release title.
/// "Snapshot – 2026-04-03 10:00 UTC (abc1234)" → Some("abc1234")
pub fn title_sha(title: &str) -> (r: Option<String>)
    ensures
        match r {
            Some(s) => sha_of_title(title@) == Some(s@),
            None => sha_of_title(title@) is None,
        },
{
    let cs = chars_vec(title);
    let a = match find_char_last(&cs, '(') {
        Some(a) => a,
        None => return None,
    };
    let b = match find_char_last(&cs, ')') {
        Some(b) => b,
        None => return None,
    };
    if a < b && b - a > 1 {
        let (lo, hi) = trim_range(&cs, a + 1, b);
        Some(string_of_range(&cs, lo, hi))
    } else {
        None
    }
}

/// The bounds of `v[lo..hi]` without its leading and trailing whitespace.
pub(crate) fn trim_range(v: &Vec<char>, lo: usize, hi: usize) -> (r: (usize, usize))
    requires
        lo <= hi <= v@.len(),
    ensures
        r.0 <= r.1 <= v@.len(),
        v@.subrange(r.0 as int, r.1 as int) == trim(v@.subrange(lo as int, hi as int)),
{
    let mut a = lo;
    while a < hi && is_whitespace(v[a])
        invariant
            lo <= a <= hi <= v@.len(),
            trim(v@.subrange(lo as int, hi as int)) == trim(v@.subrange(a as int, hi as int)),
        decreases hi - a,
    {
        assert(v@.subrange(a as int, hi as int).skip(1) =~= v@.subrange(a + 1, hi as int));
        a = a + 1;
    }
    let mut b = hi;
    while b > a && is_whitespace(v[b - 1])
        invariant
            lo <= a <= b <= hi <= v@.len(),
            a == hi || !unicode_whitespace(v@[a as int]) || a == b,
            b < hi ==> (a < b ==> !unicode_whitespace(v@[a as int])),
            trim(v@.subrange(lo as int, hi as int)) == trim(v@.subrange(a as int, b as int)),
        decreases b - a,
    {
        assert(v@.subrange(a as int, b as int).drop_last() =~= v@.subrange(a as int, b - 1));
        assert(v@.subrange(a as int, b as int)[0] == v@[a as int]);
        b = b - 1;
    }
    (a, b)
}

/// For the snapshot channel: update unless the local build hash and the
/// release's are both known and equal.
pub fn snapshot_needs_update(local_version: &str, release_title: &str) -> (b: bool)
    ensures
        b == snapshot_due(local_version@, release_title@),
{
    match version_sha(local_version) {
        None => true,  // stable binary → offer snapshot upgrade
        Some(local_sha) => match title_sha(release_title) {
            None => true,  // can't determine → offer update
            Some(remote_sha) => !str_eq(local_sha.as_str(), remote_sha.as_str()),
        },
    }
}

/// Cached result of the last update check.
pub struct UpdateCache {
    /// Unix timestamp of the last successful check.
    pub checked_at: u64,
    /// Channel that was checked ("stable" or "snapshot").
    pub channel: String,
    /// Latest version found (e.g. "0.2.0"), empty string if check failed.
    pub latest_version: String,
    /// Download URL for the current platform (may be empty).
    pub download_url: String,
    /// Checksum download URL (may be empty).
    pub checksum_url: String,
}

impl Default for UpdateCache {
    fn default() -> (c: UpdateCache)
        ensures
            c.checked_at == 0,
            c.channel@ == Seq::<char>::empty(),
            c.latest_version@ == Seq::<char>::empty(),
            c.download_url@ == Seq::<char>::empty(),
            c.checksum_url@ == Seq::<char>::empty(),
    {
        UpdateCache {
            checked_at: 0,
            channel: String::new(),
            latest_version: String::new(),
            download_url: String::new(),
            checksum_url: String::new(),
        }
    }
}

/// Information about an available update, ready to apply.
pub struct UpdateInfo {
    pub version: String,
    pub download_url: String,
    pub checksum_url: String,
}

/// Whether the cached check must be refreshed at time `now` (Unix seconds):
/// it was made for another channel, never made, or more than a day ago.
pub fn cache_is_stale(cache: &UpdateCache, channel: &str, now: u64) -> (b: bool)
    ensures
        b == stale(cache.checked_at, cache.channel@, channel@, now),
{
    !str_eq(cache.channel.as_str(), channel) || cache.checked_at == 0 || now.saturating_sub(cache.checked_at)
        > CACHE_TTL_SECS
}


// ── Deciding on an update from a fetched release ────────────────────────────

/// A release asset: its file name and where to download it.
pub struct GithubAsset {
    pub name: String,
    pub browser_download_url: String,
}

/// The parts of a GitHub release the updater reads.
pub struct GithubRelease {
    pub tag_name: String,
    /// Release title, e.g. "Snapshot – 2026-04-03 10:00 UTC (abc1234)"
    pub name: String,
    pub assets: Vec<GithubAsset>,
}

/// The digit character of `d < 10`.
pub open spec fn digit_char(d: nat) -> char {
    if d == 0 { '0' } else if d == 1 { '1' } else if d == 2 { '2' } else if d == 3 { '3' } else if d == 4 { '4' }
    else if d == 5 { '5' } else if d == 6 { '6' } else if d == 7 { '7' } else if d == 8 { '8' } else { '9' }
}

/// The decimal digits of `n`, without leading zeros.
pub open spec fn decimal(n: nat) -> Seq<char>
    decreases n,
{
    if n < 10 {
        seq![digit_char(n)]
    } else {
        decimal(n / 10).push(digit_char(n % 10))
    }
}

/// The index of the first asset named `name`, if any.
pub open spec fn asset_index(assets: Seq<GithubAsset>, name: Seq<char>) -> Option<int>
    decreases assets.len(),
{
    if assets.len() == 0 {
        None
    } else {
        match asset_index(assets.drop_last(), name) {
            Some(i) => Some(i),
            None => if assets.last().name@ == name {
                Some(assets.len() - 1)
            } else {
                None
            },
        }
    }
}

/// The version an update is announced as: for snapshots the installed
/// `major.minor.patch` (or `0.1.0`) with `-snapshot.` and the release's build
/// hash (or `latest`); otherwise the release tag without its leading `v`s.
pub open spec fn announced_version(channel: Seq<char>, current: Seq<char>, release: GithubRelease) -> Seq<char> {
    if channel == "snapshot"@ {
        let base = match version_of(current) {
            Some((a, b, c)) => decimal(a as nat) + seq!['.'] + decimal(b as nat) + seq!['.'] + decimal(c as nat),
            None => "0.1.0"@,
        };
        let sha = match sha_of_title(release.name@) {
            Some(s) => s,
            None => "latest"@,
        };
        base + "-snapshot."@ + sha
    } else {
        release.tag_name@.skip(lead_v(release.tag_name@) as int)
    }
}

/// The update a fetched release offers, as (version, download URL, checksum
/// URL): none when no platform asset is known, nothing was fetched, the
/// release is not newer (by build hash on the snapshot channel, by version
/// otherwise), or the platform's archive or its `.sha256` file is missing.
pub open spec fn offered_update(
    channel: Seq<char>,
    current: Seq<char>,
    asset_name: Option<Seq<char>>,
    release: Option<GithubRelease>,
) -> Option<(Seq<char>, Seq<char>, Seq<char>)> {
    match (asset_name, release) {
        (Some(an), Some(rel)) => {
            let needs = if channel == "snapshot"@ {
                snapshot_due(current, rel.name@)
            } else {
                newer(rel.tag_name@, current)
            };
            if !needs {
                None
            } else {
                match (asset_index(rel.assets@, an), asset_index(rel.assets@, an + ".sha256"@)) {
                    (Some(i), Some(j)) => Some(
                        (
                            announced_version(channel, current, rel),
                            rel.assets@[i].browser_download_url@,
                            rel.assets@[j].browser_download_url@,
                        ),
                    ),
                    _ => None,
                }
            }
        },
        _ => None,
    }
}

/// The digit character of `d`.
fn digit(d: u32) -> (c: char)
    requires
        d < 10,
    ensures
        c == digit_char(d as nat),
{
    if d == 0 { '0' } else if d == 1 { '1' } else if d == 2 { '2' } else if d == 3 { '3' } else if d == 4 { '4' }
    else if d == 5 { '5' } else if d == 6 { '6' } else if d == 7 { '7' } else if d == 8 { '8' } else { '9' }
}

/// Appends the decimal digits of `n` to `out`.
fn push_decimal(out: &mut Vec<char>, n: u32)
    ensures
        final(out)@ == old(out)@ + decimal(n as nat),
    decreases n,
{
    if n >= 10 {
        push_decimal(out, n / 10);
    }
    out.push(digit(n % 10));
    assert(out@ =~= old(out)@ + decimal(n as nat));
}

/// The first asset named `name`.
fn find_asset<'a>(assets: &'a Vec<GithubAsset>, name: &str) -> (r: Option<&'a GithubAsset>)
    ensures
        match asset_index(assets@, name@) {
            Some(i) => r == Some(&assets@[i]),
            None => r is None,
        },
{
    let mut i: usize = 0;
    while i < assets.len()
        invariant
            i <= assets.len(),
            asset_index(assets@.take(i as int), name@) is None,
        decreases assets.len() - i,
    {
        assert(assets@.take(i + 1).drop_last() =~= assets@.take(i as int));
        if str_eq(assets[i].name.as_str(), name) {
            proof {
                lemma_asset_index_prefix(assets@, name@, i + 1);
            }
            return Some(&assets[i]);
        }
        i = i + 1;
    }
    assert(assets@.take(assets.len() as int) =~= assets@);
    None
}

/// A match found in a prefix is the first match of the whole list.
proof fn lemma_asset_index_prefix(assets: Seq<GithubAsset>, name: Seq<char>, k: int)
    requires
        0 <= k <= assets.len(),
        asset_index(assets.take(k), name) is Some,
    ensures
        asset_index(assets, name) == asset_index(assets.take(k), name),
    decreases assets.len(),
{
    if k < assets.len() {
        assert(assets.drop_last().take(k) =~= assets.take(k));
        lemma_asset_index_prefix(assets.drop_last(), name, k);
    } else {
        assert(assets.take(k) =~= assets);
    }
}

/// The version an update is announced as (see `announced_version`).
fn update_version(channel: &str, current_version: &str, release: &GithubRelease) -> (v: String)
    ensures
        v@ == announced_version(channel@, current_version@, *release),
{
    if str_eq(channel, "snapshot") {
        proof {
            reveal_strlit("snapshot");
        }
        let mut out: Vec<char> = Vec::new();
        match parse_version(current_version) {
            Some((ma, mi, pa)) => {
                push_decimal(&mut out, ma);
                out.push('.');
                push_decimal(&mut out, mi);
                out.push('.');
                push_decimal(&mut out, pa);
            },
            None => {
                push_str(&mut out, "0.1.0");
            },
        }
        push_str(&mut out, "-snapshot.");
        match title_sha(release.name.as_str()) {
            Some(sha) => push_str(&mut out, sha.as_str()),
            None => push_str(&mut out, "latest"),
        }
        assert(out@ =~= announced_version(channel@, current_version@, *release));
        string_from_chars(out.as_slice())
    } else {
        proof {
            reveal_strlit("snapshot");
        }
        let cs = chars_vec(release.tag_name.as_str());
        let p = count_lead_v(&cs);
        let mut out: Vec<char> = Vec::new();
        let mut i = p;
        while i < cs.len()
            invariant
                p <= i <= cs.len(),
                out@ == cs@.subrange(p as int, i as int),
            decreases cs.len() - i,
        {
            out.push(cs[i]);
            assert(out@ =~= cs@.subrange(p as int, i + 1));
            i = i + 1;
        }
        assert(out@ =~= announced_version(channel@, current_version@, *release));
        string_from_chars(out.as_slice())
    }
}

/// Decide from a fetched release whether an update is available for the
/// platform whose archive is `platform_asset` (none on an unsupported
/// platform), for a binary of version `current_version`. `release` is what
/// fetching the channel's latest release gave, `None` when it failed.
pub fn check_for_update(
    channel: &str,
    current_version: &str,
    platform_asset: Option<&str>,
    release: Option<&GithubRelease>,
) -> (r: Option<UpdateInfo>)
    ensures
        match offered_update(
            channel@,
            current_version@,
            match platform_asset {
                Some(a) => Some(a@),
                None => None,
            },
            match release {
                Some(rel) => Some(*rel),
                None => None,
            },
        ) {
            Some((v, d, c)) => r matches Some(info) && info.version@ == v && info.download_url@ == d
                && info.checksum_url@ == c,
            None => r is None,
        },
{
    let asset_name = match platform_asset {
        Some(a) => a,
        None => return None,
    };
    let release = match release {
        Some(rel) => rel,
        None => return None,
    };
    proof {
        reveal_strlit("snapshot");
        reveal_strlit(".sha256");
    }
    // Snapshot channel: compare git SHAs, not semver tags.
    let needs_update = if str_eq(channel, "snapshot") {
        snapshot_needs_update(current_version, release.name.as_str())
    } else {
        is_newer(release.tag_name.as_str(), current_version)
    };
    if !needs_update {
        return None;
    }
    let asset = match find_asset(&release.assets, asset_name) {
        Some(a) => a,
        None => return None,
    };
    let mut checksum_name: Vec<char> = Vec::new();
    push_str(&mut checksum_name, asset_name);
    push_str(&mut checksum_name, ".sha256");
    let checksum_name = string_from_chars(checksum_name.as_slice());
    let checksum_asset = match find_asset(&release.assets, checksum_name.as_str()) {
        Some(a) => a,
        None => return None,
    };
    let version = update_version(channel, current_version, release);
    Some(
        UpdateInfo {
            version,
            download_url: asset.browser_download_url.clone(),
            checksum_url: checksum_asset.browser_download_url.clone(),
        },
    )
}


// ── The cached check ────────────────────────────────────────────────────────

/// The cached check records, for `channel`, a release that should be
/// announced to a binary of version `current`: on the snapshot channel its
/// build hash differs from the binary's, otherwise it is a newer version.
pub open spec fn cached_newer(channel: Seq<char>, cached_channel: Seq<char>, latest: Seq<char>, current: Seq<char>) -> bool {
    &&& latest.len() > 0
    &&& cached_channel == channel
    &&& if channel == "snapshot"@ {
        sha_of_version(latest) != sha_of_version(current)
    } else {
        newer(latest, current)
    }
}

/// Whether the cached check records a release newer than the binary of
/// version `current_version`, on the same channel.
pub fn cached_update_available(cache: &UpdateCache, channel: &str, current_version: &str) -> (b: bool)
    ensures
        b == cached_newer(channel@, cache.channel@, cache.latest_version@, current_version@),
{
    if cache.latest_version.as_str().as_bytes().len() == 0 {
        proof {
            assert(cache.latest_version@.len() == 0) by {
                if cache.latest_version@.len() > 0 {
                    vstd::utf8::encode_utf8_first_scalar(cache.latest_version@);
                }
            }
        }
        return false;
    }
    proof {
        assert(cache.latest_version@.len() > 0) by {
            if cache.latest_version@.len() == 0 {
                assert(cache.latest_version@ =~= Seq::<char>::empty());
            }
        }
    }
    if !str_eq(cache.channel.as_str(), channel) {
        return false;
    }
    if str_eq(channel, "snapshot") {
        let a = version_sha(cache.latest_version.as_str());
        let b = version_sha(current_version);
        match (a, b) {
            (Some(x), Some(y)) => !str_eq(x.as_str(), y.as_str()),
            (None, None) => false,
            _ => true,
        }
    } else {
        is_newer(cache.latest_version.as_str(), current_version)
    }
}

/// The cache written after fetching `release` at time `now` for `channel`:
/// with the platform's archive, the release tag without leading `v`s, the
/// archive's URL and that of its `.sha256` file (empty when missing);
/// without the archive, empty fields.
pub fn refreshed_cache(channel: &str, now: u64, asset_name: &str, release: &GithubRelease) -> (c: UpdateCache)
    ensures
        c.checked_at == now,
        c.channel@ == channel@,
        match asset_index(release.assets@, asset_name@) {
            Some(i) => {
                &&& c.latest_version@ == release.tag_name@.skip(lead_v(release.tag_name@) as int)
                &&& c.download_url@ == release.assets@[i].browser_download_url@
                &&& c.checksum_url@ == match asset_index(release.assets@, asset_name@ + ".sha256"@) {
                    Some(j) => release.assets@[j].browser_download_url@,
                    None => Seq::<char>::empty(),
                }
            },
            None => c.latest_version@.len() == 0 && c.download_url@.len() == 0 && c.checksum_url@.len() == 0,
        },
{
    match find_asset(&release.assets, asset_name) {
        Some(asset) => {
            let mut checksum_name: Vec<char> = Vec::new();
            push_str(&mut checksum_name, asset_name);
            push_str(&mut checksum_name, ".sha256");
            let checksum_name = string_from_chars(checksum_name.as_slice());
            let checksum_url = match find_asset(&release.assets, checksum_name.as_str()) {
                Some(a) => a.browser_download_url.clone(),
                None => String::new(),
            };
            let cs = chars_vec(release.tag_name.as_str());
            let p = count_lead_v(&cs);
            UpdateCache {
                checked_at: now,
                channel: channel.to_string(),
                latest_version: string_of_range(&cs, p, cs.len()),
                download_url: asset.browser_download_url.clone(),
                checksum_url,
            }
        },
        None => UpdateCache {
            checked_at: now,
            channel: channel.to_string(),
            latest_version: String::new(),
            download_url: String::new(),
            checksum_url: String::new(),
        },
    }
}

} // verus!
