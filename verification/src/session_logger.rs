//! Session-log bookkeeping: session identifiers and the civil-calendar
//! conversions they rest on.
use vstd::prelude::*;
use crate::text::{decimal, decimal_padded, string_of, zero_pad};

verus! {

/// Day-of-era split of a day count `z` (days since 0000-03-01): the era
/// (400-year cycle) and the day within it.
pub open spec fn era_of(z: int) -> (int, int) {
    (z / 146097, z % 146097)
}

/// Year of era for a day of era.
pub open spec fn year_of_era(doe: int) -> int {
    (doe - doe / 1460 + doe / 36524 - doe / 146096) / 365
}

/// Civil date `(year, month, day)` of a count of days since 1970-01-01
/// (proleptic Gregorian calendar).
pub open spec fn civil_from_days(days: int) -> (int, int, int) {
    let z = days + 719468;
    let (era, doe) = era_of(z);
    let yoe = year_of_era(doe);
    let y = yoe + era * 400;
    let doy = doe - (365 * yoe + yoe / 4 - yoe / 100);
    let mp = (5 * doy + 2) / 153;
    let d = doy - (153 * mp + 2) / 5 + 1;
    let m = if mp < 10 { mp + 3 } else { mp - 9 };
    (if m <= 2 { y + 1 } else { y }, m, d)
}

/// Count of days since 1970-01-01 of the civil date `(y, m, d)`.
pub open spec fn days_from_civil(y: int, m: int, d: int) -> int {
    let (y, m) = if m <= 2 { (y - 1, m + 9) } else { (y, m - 3) };
    let era = y / 400;
    let yoe = y - era * 400;
    let doy = (153 * m + 2) / 5 + d - 1;
    let doe = yoe * 365 + yoe / 4 - yoe / 100 + doy;
    era * 146097 + doe - 719468
}

proof fn lemma_year_of_era_bounds(doe: u32)
    requires
        doe <= 146096,
    ensures
        0 <= (doe - doe / 1460 + doe / 36524 - doe / 146096) / 365 <= 399,
        365 * ((doe - doe / 1460 + doe / 36524 - doe / 146096) / 365)
            + ((doe - doe / 1460 + doe / 36524 - doe / 146096) / 365) / 4
            - ((doe - doe / 1460 + doe / 36524 - doe / 146096) / 365) / 100 <= doe,
        doe - (365 * ((doe - doe / 1460 + doe / 36524 - doe / 146096) / 365)
            + ((doe - doe / 1460 + doe / 36524 - doe / 146096) / 365) / 4
            - ((doe - doe / 1460 + doe / 36524 - doe / 146096) / 365) / 100) <= 365,
{
    assert(0 <= (doe - doe / 1460 + doe / 36524 - doe / 146096) / 365 <= 399 && 365 * ((doe - doe / 1460 + doe / 36524 - doe / 146096) / 365)
            + ((doe - doe / 1460 + doe / 36524 - doe / 146096) / 365) / 4
            - ((doe - doe / 1460 + doe / 36524 - doe / 146096) / 365) / 100 <= doe
        && doe - (365 * ((doe - doe / 1460 + doe / 36524 - doe / 146096) / 365)
            + ((doe - doe / 1460 + doe / 36524 - doe / 146096) / 365) / 4
            - ((doe - doe / 1460 + doe / 36524 - doe / 146096) / 365) / 100) <= 365) by (bit_vector)
        requires
            doe <= 146096u32;
}

} // verus!

verus! {

/// Convert days since 1970-01-01 to `(year, month, day)`.
pub fn days_to_ymd(days: i64) -> (r: (i32, u32, u32))
    requires
        days <= i64::MAX - 719468,
    ensures
        r.0 as int == #[verifier::truncate] (civil_from_days(days as int).0 as i32),
        r.1 as int == civil_from_days(days as int).1,
        r.2 as int == civil_from_days(days as int).2,
        1 <= r.1 <= 12,
        1 <= r.2 <= 31,
{
    let z = days + 719468;
    // Floor division (the era of a negative day count rounds down).
    let era: i64 = if z >= 0 { z / 146097 } else { -((146096 - z) / 146097) };
    assert(era == z as int / 146097) by (nonlinear_arith)
        requires
            z >= 0 ==> era == z as int / 146097,
            z < 0 ==> era == -((146096 - z) / 146097),
    ;
    let doe = (z - era * 146097) as u32;
    assert(doe as int == z as int % 146097) by (nonlinear_arith)
        requires
            era == z as int / 146097,
            doe as int == z - era * 146097,
    ;
    proof {
        lemma_year_of_era_bounds(doe);
    }
    let yoe = (doe - doe / 1460 + doe / 36524 - doe / 146096) / 365;
    let y = yoe as i64 + era * 400;
    let doy = doe - (365 * yoe + yoe / 4 - yoe / 100);
    assert(doy <= 365);
    let mp = (5 * doy + 2) / 153;
    assert(mp <= 11);
    assert((153 * mp + 2) / 5 <= doy) by (nonlinear_arith)
        requires
            mp == (5 * doy + 2) / 153,
    ;
    let d = doy - (153 * mp + 2) / 5 + 1;
    assert(d <= 31) by (nonlinear_arith)
        requires
            mp == (5 * doy + 2) / 153,
            d == doy - (153 * mp + 2) / 5 + 1,
            doy <= 365,
    ;
    let m = if mp < 10 { mp + 3 } else { mp - 9 };
    let y = if m <= 2 { y + 1 } else { y };
    (#[verifier::truncate] (y as i32), m, d)
}

} // verus!

verus! {

/// Month index counted from March (`0` = March) for a month `m`.
pub open spec fn march_month(m: int) -> int {
    if m <= 2 { m + 9 } else { m - 3 }
}

/// Convert `(year, month, day)` to days since 1970-01-01.
pub fn ymd_to_days(y: i32, m: u32, d: u32) -> (r: i64)
    requires
        153 * march_month(m as int) + 2 <= u32::MAX,
        (153 * march_month(m as int) + 2) / 5 + d >= 1,
        (153 * march_month(m as int) + 2) / 5 + d - 1 + 146097 <= u32::MAX,
    ensures
        r == days_from_civil(y as int, m as int, d as int),
{
    let y = y as i64;
    let (y, m) = if m <= 2 { (y - 1, m + 9) } else { (y, m - 3) };
    // Floor division (the era of a negative year rounds down).
    let era: i64 = if y >= 0 { y / 400 } else { -((399 - y) / 400) };
    assert(era == y as int / 400) by (nonlinear_arith)
        requires
            y >= 0 ==> era == y as int / 400,
            y < 0 ==> era == -((399 - y) / 400),
    ;
    let yoe = (y - era * 400) as u32;
    assert(yoe as int == y as int % 400) by (nonlinear_arith)
        requires
            era == y as int / 400,
            yoe as int == y - era * 400,
    ;
    let doy = (153 * m + 2) / 5 + d - 1;
    let doe = yoe * 365 + yoe / 4 - yoe / 100 + doy;
    era * 146097 + doe as i64 - 719468
}

/// Law: converting a day count to a civil date and back gives the day count
/// again, and the date is a valid `i32` year, month and day.
pub proof fn lemma_days_round_trip(days: int)
    requires
        -100_000_000_000 <= days <= 100_000_000_000,
    ensures
        ({
            let (y, m, d) = civil_from_days(days);
            &&& i32::MIN <= y <= i32::MAX
            &&& 1 <= m <= 12
            &&& 1 <= d <= 31
            &&& days_from_civil(y, m, d) == days
        }),
{
    let z = days + 719468;
    let era = z / 146097;
    let doe = z % 146097;
    assert(z == era * 146097 + doe && 0 <= doe < 146097) by (nonlinear_arith)
        requires
            era == z / 146097,
            doe == z % 146097,
    ;
    lemma_year_of_era_bounds(doe as u32);
    let yoe = year_of_era(doe);
    let y0 = yoe + era * 400;
    let doy = doe - (365 * yoe + yoe / 4 - yoe / 100);
    let mp = (5 * doy + 2) / 153;
    assert(0 <= mp <= 11);
    assert(0 <= (153 * mp + 2) / 5 <= doy) by (nonlinear_arith)
        requires
            mp == (5 * doy + 2) / 153,
            0 <= doy,
    ;
    let d = doy - (153 * mp + 2) / 5 + 1;
    assert(d <= 31) by (nonlinear_arith)
        requires
            mp == (5 * doy + 2) / 153,
            d == doy - (153 * mp + 2) / 5 + 1,
            doy <= 365,
    ;
    assert(y0 / 400 == era && y0 % 400 == yoe) by (nonlinear_arith)
        requires
            y0 == yoe + era * 400,
            0 <= yoe <= 399,
    ;
    assert(-700_000 <= era <= 700_000) by (nonlinear_arith)
        requires
            era == z / 146097,
            -100_000_000_000 + 719468 <= z <= 100_000_000_000 + 719468,
    ;
}

} // verus!

verus! {

/// `format!("{v:0w$}")` of a signed integer: sign-aware zero padding to a
/// total width of `w`.
pub open spec fn signed_zero_pad(v: int, w: nat) -> Seq<char> {
    if v < 0 {
        seq!['-'] + zero_pad(decimal((-v) as nat), if w >= 1 { (w - 1) as nat } else { 0 })
    } else {
        zero_pad(decimal(v as nat), w)
    }
}

/// Session identifier `YYYY-MM-DD_HH-MM-SS` for a UTC instant given in
/// seconds since the epoch.
pub open spec fn session_id_spec(secs: u64) -> Seq<char> {
    let (y, mo, d) = civil_from_days((secs / 86400) as int);
    let h = (secs / 3600) % 24;
    let mi = (secs / 60) % 60;
    let s = secs % 60;
    signed_zero_pad(#[verifier::truncate] (y as i32) as int, 4) + "-"@ + zero_pad(decimal(mo as nat), 2) + "-"@
        + zero_pad(decimal(d as nat), 2) + "_"@ + zero_pad(decimal(h as nat), 2) + "-"@
        + zero_pad(decimal(mi as nat), 2) + "-"@ + zero_pad(decimal(s as nat), 2)
}

fn signed_padded(v: i32, w: usize) -> (r: Vec<char>)
    ensures
        r@ == signed_zero_pad(v as int, w as nat),
{
    if v < 0 {
        let mag: u64 = (-(v as i64)) as u64;
        let mut r: Vec<char> = Vec::new();
        r.push('-');
        let mut digits = decimal_padded(mag, if w >= 1 { w - 1 } else { 0 });
        r.append(&mut digits);
        assert(r@ =~= signed_zero_pad(v as int, w as nat));
        r
    } else {
        decimal_padded(v as u64, w)
    }
}

/// Builds the session identifier for `secs` seconds since the epoch.
pub fn session_id_from_secs(secs: u64) -> (id: String)
    ensures
        id@ == session_id_spec(secs),
{
    let s = secs % 60;
    let m = (secs / 60) % 60;
    let h = (secs / 3600) % 24;
    let total_days = secs / 86400;
    let (y, mo, d) = days_to_ymd(total_days as i64);
    let mut out = signed_padded(y, 4);
    out.push('-');
    let mut t = decimal_padded(mo as u64, 2);
    out.append(&mut t);
    out.push('-');
    let mut t = decimal_padded(d as u64, 2);
    out.append(&mut t);
    out.push('_');
    let mut t = decimal_padded(h, 2);
    out.append(&mut t);
    out.push('-');
    let mut t = decimal_padded(m, 2);
    out.append(&mut t);
    out.push('-');
    let mut t = decimal_padded(s, 2);
    out.append(&mut t);
    proof {
        reveal_strlit("-");
        reveal_strlit("_");
        assert(out@ =~= session_id_spec(secs));
    }
    string_of(out.as_slice())
}

/// Reads the system clock as whole seconds since the Unix epoch
/// (`SystemTime::now`), 0 before the epoch. Nothing is promised of the value.
#[verifier::external_body]
pub fn now_unix_secs() -> u64 {
    std::time::SystemTime::now()
        .duration_since(std::time::UNIX_EPOCH)
        .map(|d| d.as_secs())
        .unwrap_or(0)
}

/// A filesystem-safe session identifier for the current UTC time,
/// `YYYY-MM-DD_HH-MM-SS`.
pub fn generate_session_id() -> (id: String)
    ensures
        exists|secs: u64| id@ == session_id_spec(secs),
{
    let secs = now_unix_secs();
    session_id_from_secs(secs)
}

} // verus!

verus! {

// ---------------------------------------------------------------------------
// Retention cleanup
// ---------------------------------------------------------------------------

/// A per-launch session artifact: the log, its summary sidecar, or its
/// snapshot.
pub open spec fn is_artifact_name(name: Seq<char>) -> bool {
    crate::text::has_suffix(name, ".jsonl"@) || crate::text::has_suffix(name, ".summary.json"@)
        || crate::text::has_suffix(name, ".snapshot.json"@)
}

/// Whether some prefix of `s` takes exactly `n` UTF-8 bytes (a character
/// boundary lies at byte `n`).
pub open spec fn cuts_at_boundary(s: Seq<char>, n: int) -> bool
    decreases s.len(),
{
    if n <= 0 {
        n == 0
    } else if s.len() == 0 {
        false
    } else {
        cuts_at_boundary(s.drop_first(), n - crate::compaction::utf8_width(s[0]))
    }
}

/// Taking the first 10 bytes of `name` as text does not cut a character.
pub open spec fn date_cut_ok(name: Seq<char>) -> bool {
    crate::compaction::utf8_len(name) < 10 || cuts_at_boundary(name, 10)
}

/// The first 10 characters of `name` exist and are ASCII.
pub open spec fn ascii_head(name: Seq<char>) -> bool {
    name.len() >= 10 && forall|i: int| 0 <= i < 10 ==> (name[i] as u32) < 128
}

/// `(year, month, day)` of a `YYYY-MM-DD` text: three `-`-separated pieces
/// that parse as `i32`, `u32`, `u32`.
pub open spec fn ymd_of(date: Seq<char>) -> Option<(i32, u32, u32)> {
    let ps = crate::frontmatter::split_pieces(date, '-', 0);
    if ps.len() != 3 {
        None
    } else {
        match (crate::text::i32_from_text(ps[0]), crate::text::u32_from_text(ps[1]), crate::text::u32_from_text(ps[2])) {
            (Some(y), Some(m), Some(d)) => Some((y, m, d)),
            _ => None,
        }
    }
}

/// The date leading a session artifact's name: its first 10 bytes read as
/// `YYYY-MM-DD`. Text that is not ASCII there never parses.
pub open spec fn artifact_date_spec(name: Seq<char>) -> Option<(i32, u32, u32)> {
    if crate::compaction::utf8_len(name) < 10 || !ascii_head(name) {
        None
    } else {
        ymd_of(name.subrange(0, 10))
    }
}

/// Month and day for which the day count is computed without overflow.
pub open spec fn ymd_ok(m: u32, d: u32) -> bool {
    &&& 153 * march_month(m as int) + 2 <= u32::MAX
    &&& (153 * march_month(m as int) + 2) / 5 + d >= 1
    &&& (153 * march_month(m as int) + 2) / 5 + d - 1 + 146097 <= u32::MAX
}

/// The names the cleanup can judge: for an artifact, its first 10 bytes do
/// not cut a character and a date found there is one the day count takes.
pub open spec fn reap_defined(name: Seq<char>) -> bool {
    is_artifact_name(name) ==> {
        &&& date_cut_ok(name)
        &&& artifact_date_spec(name) matches Some((y, m, d)) ==> ymd_ok(m, d)
    }
}

/// Whether the cleanup deletes the file `name`: a session artifact whose
/// leading date lies before day `cutoff_days` (days since 1970-01-01).
pub open spec fn reap_spec(name: Seq<char>, cutoff_days: u64) -> bool {
    is_artifact_name(name) && match artifact_date_spec(name) {
        Some((y, m, d)) => {
            let fd = days_from_civil(y as int, m as int, d as int);
            0 <= fd < cutoff_days
        },
        None => false,
    }
}

/// The day before which artifacts are reaped: `retention_days` days before
/// `now_secs` (epoch seconds), not before the epoch.
pub fn cleanup_cutoff_days(now_secs: u64, retention_days: u32) -> (r: u64)
    ensures
        r == (if now_secs >= retention_days * 86400 {
            now_secs - retention_days * 86400
        } else {
            0
        }) / 86400,
{
    let span = retention_days as u64 * 86400;
    now_secs.saturating_sub(span) / 86400
}

/// Whether `name` is a session artifact.
pub fn is_session_artifact(name: &[char]) -> (r: bool)
    ensures
        r == is_artifact_name(name@),
{
    crate::text::ends_with(name, crate::text::chars_of(".jsonl").as_slice())
        || crate::text::ends_with(name, crate::text::chars_of(".summary.json").as_slice())
        || crate::text::ends_with(name, crate::text::chars_of(".snapshot.json").as_slice())
}

/// [`date_cut_ok`].
pub fn date_cut_is_safe(name: &[char]) -> (r: bool)
    ensures
        r == date_cut_ok(name@),
{
    let mut n: u128 = 10;
    let mut k: usize = 0;
    assert(name@.subrange(0, name.len() as int) =~= name@);
    let total = crate::compaction::utf8_size(name);
    if total < 10 {
        return true;
    }
    while k < name.len() && n > 0
        invariant
            k <= name.len(),
            n <= 10,
            total == crate::compaction::utf8_len(name@),
            total >= 10,
            cuts_at_boundary(name@.subrange(k as int, name.len() as int), n as int) == cuts_at_boundary(name@, 10),
        decreases name.len() - k,
    {
        let w: u128 = if (name[k] as u32) < 0x80 {
            1
        } else if (name[k] as u32) < 0x800 {
            2
        } else if (name[k] as u32) < 0x10000 {
            3
        } else {
            4
        };
        proof {
            let t = name@.subrange(k as int, name.len() as int);
            assert(t.drop_first() =~= name@.subrange(k + 1, name.len() as int));
            assert(t[0] == name@[k as int]);
            assert(w == crate::compaction::utf8_width(name@[k as int]));
        }
        if w > n {
            assert(!cuts_at_boundary(name@.subrange(k + 1, name.len() as int), n - w));
            return false;
        }
        n = n - w;
        k += 1;
    }
    n == 0
}

/// [`artifact_date_spec`].
pub fn artifact_date(name: &[char]) -> (r: Option<(i32, u32, u32)>)
    ensures
        r == artifact_date_spec(name@),
{
    if crate::compaction::utf8_size(name) < 10 || name.len() < 10 {
        return None;
    }
    let mut i: usize = 0;
    while i < 10
        invariant
            i <= 10 <= name.len(),
            forall|j: int| 0 <= j < i ==> (name@[j] as u32) < 128,
        decreases 10 - i,
    {
        if (name[i] as u32) >= 128 {
            return None;
        }
        i += 1;
    }
    let date = crate::text::sub_chars(name, 0, 10);
    let ps = split_dash(date.as_slice());
    if ps.len() != 3 {
        return None;
    }
    let y = crate::text::parse_i32(ps[0].as_slice());
    let m = crate::text::parse_u32(ps[1].as_slice());
    let d = crate::text::parse_u32(ps[2].as_slice());
    match (y, m, d) {
        (Some(y), Some(m), Some(d)) => Some((y, m, d)),
        _ => None,
    }
}

fn split_dash(s: &[char]) -> (r: Vec<Vec<char>>)
    ensures
        r@.len() == crate::frontmatter::split_pieces(s@, '-', 0).len(),
        forall|i: int| 0 <= i < r@.len() ==> #[trigger] r@[i]@ == crate::frontmatter::split_pieces(s@, '-', 0)[i],
{
    let r = crate::path::split_plain(s, '-');
    r
}

/// [`ymd_ok`].
pub fn ymd_fits(m: u32, d: u32) -> (r: bool)
    ensures
        r == ymd_ok(m, d),
{
    let mm: u64 = if m <= 2 { m as u64 + 9 } else { m as u64 - 3 };
    let a: u64 = 153 * mm + 2;
    if a > 0xffff_ffff {
        return false;
    }
    let q: u64 = a / 5 + d as u64;
    q >= 1 && q - 1 + 146097 <= 0xffff_ffff
}

/// Whether the retention cleanup deletes the file named `name`, given the
/// cutoff day.
pub fn should_reap(name: &[char], cutoff_days: u64) -> (r: bool)
    requires
        reap_defined(name@),
    ensures
        r == reap_spec(name@, cutoff_days),
{
    if !is_session_artifact(name) {
        return false;
    }
    match artifact_date(name) {
        Some((y, m, d)) => {
            let fd = ymd_to_days(y, m, d);
            fd >= 0 && (fd as u64) < cutoff_days
        },
        None => false,
    }
}

// ---------------------------------------------------------------------------
// Redaction
// ---------------------------------------------------------------------------

/// The text that replaces a secret.
pub open spec fn redacted_text() -> Seq<char> {
    "[REDACTED]"@
}

/// Index of the first member of `e` at or after `i` named `key`.
pub open spec fn key_index_from(e: Seq<(String, crate::json::JsonNode)>, key: Seq<char>, i: int) -> Option<int>
    decreases e.len() - i,
{
    if i < 0 || i >= e.len() {
        None
    } else if e[i].0@ == key {
        Some(i)
    } else {
        key_index_from(e, key, i + 1)
    }
}

/// `r` is `payload` with the value of its first `token` member (when it is
/// an object that has one) replaced by the text [`redacted_text`]; any
/// other payload is unchanged.
pub open spec fn token_redacted(payload: crate::json::JsonNode, r: crate::json::JsonNode) -> bool {
    match payload {
        crate::json::JsonNode::Object(e) => match key_index_from(e@, "token"@, 0) {
            Some(i) => match r {
                crate::json::JsonNode::Object(e2) => {
                    &&& e2@.len() == e@.len()
                    &&& e2@[i].0 == e@[i].0
                    &&& e2@[i].1 matches crate::json::JsonNode::Text(t) && t@ == redacted_text()
                    &&& forall|j: int| 0 <= j < e@.len() && j != i ==> e2@[j] == e@[j]
                },
                _ => false,
            },
            None => r == payload,
        },
        _ => r == payload,
    }
}

/// A handshake payload as persisted: when it is an object with a `token`
/// member, that member's value becomes the text [`redacted_text`]; anything
/// else is unchanged.
pub fn redact_token(payload: crate::json::JsonNode) -> (r: crate::json::JsonNode)
    ensures
        token_redacted(payload, r),
{
    let ghost p0 = payload;
    match payload {
        crate::json::JsonNode::Object(mut e) => {
            let ghost e0 = e@;
            let kc = crate::text::chars_of("token");
            proof {
                reveal_strlit("token");
                reveal_strlit("[REDACTED]");
            }
            let mut i: usize = 0;
            while i < e.len()
                invariant
                    i <= e.len(),
                    kc@ == "token"@,
                    e@ == e0,
                    p0 == crate::json::JsonNode::Object(e),
                    p0 == payload,
                    key_index_from(e0, "token"@, i as int) == key_index_from(e0, "token"@, 0),
                decreases e.len() - i,
            {
                let c = crate::text::chars_of(e[i].0.as_str());
                if crate::text::chars_eq(c.as_slice(), kc.as_slice()) {
                    assert(key_index_from(e0, "token"@, i as int) == Some(i as int));
                    let k = e[i].0.clone();
                    let t = "[REDACTED]".to_string();
                    e.set(i, (k, crate::json::JsonNode::Text(t)));
                    return crate::json::JsonNode::Object(e);
                }
                i += 1;
            }
            crate::json::JsonNode::Object(e)
        },
        other => other,
    }
}

/// An envelope as persisted: a `mcp.handshake` envelope has the `token` of
/// its payload redacted (see [`redact_token`]); every other envelope, and
/// every other field, is kept.
pub fn redact_envelope(env: crate::envelope::Envelope) -> (r: crate::envelope::Envelope)
    ensures
        r.version == env.version,
        r.category == env.category,
        r.kind == env.kind,
        r.ts == env.ts,
        r.correlation_id == env.correlation_id,
        r.parent_id == env.parent_id,
        env.kind@ != "mcp.handshake"@ ==> r.payload == env.payload,
        env.kind@ == "mcp.handshake"@ ==> exists|n: crate::json::JsonNode|
            token_redacted(crate::json::json_node_of(env.payload), n) && r.payload
                == crate::json::json_value_of(n),
{
    let kc = crate::text::chars_of(env.kind.as_str());
    if !crate::text::chars_eq_str(kc.as_slice(), "mcp.handshake") {
        return env;
    }
    let crate::envelope::Envelope { version, category, kind, ts, payload, correlation_id, parent_id } = env;
    let node = crate::json::node_of_json(payload);
    let red = redact_token(node);
    let ghost n = red;
    let redacted = crate::json::value_of_node(red);
    assert(token_redacted(crate::json::json_node_of(env.payload), n));
    crate::envelope::Envelope { version, category, kind, ts, payload: redacted, correlation_id, parent_id }
}

// ---------------------------------------------------------------------------
// The size cap of a session log
// ---------------------------------------------------------------------------

/// Flushes happen each time the bytes written cross a multiple of this.
pub const FLUSH_EVERY_BYTES: u64 = 65536;

/// What to do with one serialized envelope line.
#[derive(Clone, Copy, Debug, PartialEq, Eq, Structural)]
pub enum LineAction {
    /// Append the line and its newline.
    Write,
    /// The cap would be passed: write nothing, now or later.
    Cap,
    /// The cap was reached earlier: drop the line.
    Skip,
}

/// Bookkeeping of one session log against its size cap.
#[derive(Clone, Copy, Debug)]
pub struct LogBudget {
    /// Largest size of the log in bytes.
    pub max_bytes: u64,
    /// Bytes written so far.
    pub written: u64,
    /// Whether the cap was reached.
    pub capped: bool,
}

impl LogBudget {
    /// The budget of a new log capped at `max_file_size_mb` MiB.
    pub fn new(max_file_size_mb: u32) -> (b: Self)
        ensures
            b.max_bytes == max_file_size_mb * 1048576,
            b.written == 0,
            !b.capped,
    {
        LogBudget { max_bytes: max_file_size_mb as u64 * 1048576, written: 0, capped: false }
    }

    /// Decides about a line of `line_len` bytes (the newline not counted):
    /// written while the line and its newline fit under the cap; the first
    /// line that does not fit caps the log for good.
    pub fn take_line(&mut self, line_len: usize) -> (a: LineAction)
        requires
            old(self).written <= old(self).max_bytes,
        ensures
            final(self).max_bytes == old(self).max_bytes,
            final(self).written <= final(self).max_bytes,
            old(self).capped ==> a == LineAction::Skip && *final(self) == *old(self),
            !old(self).capped && old(self).written + line_len + 1 > old(self).max_bytes ==> a
                == LineAction::Cap && final(self).capped && final(self).written == old(self).written,
            !old(self).capped && old(self).written + line_len + 1 <= old(self).max_bytes ==> a
                == LineAction::Write && !final(self).capped && final(self).written == old(self).written
                + line_len + 1,
    {
        if self.capped {
            return LineAction::Skip;
        }
        let need: u128 = self.written as u128 + line_len as u128 + 1;
        if need > self.max_bytes as u128 {
            self.capped = true;
            LineAction::Cap
        } else {
            self.written = need as u64;
            LineAction::Write
        }
    }

    /// After writing a line of `line_bytes` bytes (newline included):
    /// whether the running total just crossed a flush boundary.
    pub fn should_flush(&self, line_bytes: u64) -> (f: bool)
        ensures
            f == (self.written % FLUSH_EVERY_BYTES < line_bytes),
    {
        self.written % FLUSH_EVERY_BYTES < line_bytes
    }
}

/// The log size after taking lines of the given lengths in turn.
pub open spec fn budget_after(b: LogBudget, lens: Seq<usize>) -> LogBudget
    decreases lens.len(),
{
    if lens.len() == 0 {
        b
    } else {
        let prev = budget_after(b, lens.drop_last());
        let l = lens.last();
        if prev.capped {
            prev
        } else if prev.written + l + 1 > prev.max_bytes {
            LogBudget { capped: true, ..prev }
        } else {
            LogBudget { written: (prev.written + l + 1) as u64, ..prev }
        }
    }
}

/// However many lines arrive, the log never grows past its cap, and once
/// capped it stays capped with its size frozen.
pub proof fn lemma_log_never_exceeds_cap(b: LogBudget, lens: Seq<usize>)
    requires
        b.written <= b.max_bytes,
    ensures
        budget_after(b, lens).written <= b.max_bytes,
        budget_after(b, lens).max_bytes == b.max_bytes,
        b.capped ==> budget_after(b, lens) == b,
    decreases lens.len(),
{
    if lens.len() > 0 {
        lemma_log_never_exceeds_cap(b, lens.drop_last());
    }
}

/// Once a line is refused, every later line is refused too.
pub proof fn lemma_capped_stays_capped(b: LogBudget, lens: Seq<usize>, more: Seq<usize>)
    requires
        b.written <= b.max_bytes,
        budget_after(b, lens).capped,
    ensures
        budget_after(b, lens + more) == budget_after(b, lens),
    decreases more.len(),
{
    if more.len() == 0 {
        assert(lens + more =~= lens);
    } else {
        lemma_capped_stays_capped(b, lens, more.drop_last());
        assert((lens + more).drop_last() =~= lens + more.drop_last());
    }
}

} // verus!
