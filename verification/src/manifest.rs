//! The proof manifest: the SHA-256 fingerprint of a source file together
//! with the per-function verification outcomes, rendered as JSON and as a
//! `#[used] static` that carries it into a compiled binary.
//!
//! `manifest_hash` is the SHA-256 of the manifest's JSON with that field set
//! to `""`, so any change to the JSON invalidates it.

use vstd::prelude::*;
use sha2::{Digest, Sha256};
use std::time::{SystemTime, UNIX_EPOCH, Duration};
use crate::agent::FuncOutcome;
use crate::verify::CheckResult;
use crate::codegen::{text_lt, text_lt_exec};
use crate::text::{string_of, push_char, push_str, digit_char, nat_digits, u64_text, usize_text};

verus! {

// ---------------------------------------------------------------------------
// Outside calls
// ---------------------------------------------------------------------------

/// The SHA-256 digest of some bytes.
pub uninterp spec fn sha256_spec(data: Seq<u8>) -> Seq<u8>;

/// Wraps `sha2::Sha256::digest`: the result is the SHA-256 digest of
/// `data`, which is a function of `data` alone and 32 bytes long.
#[verifier::external_body]
fn sha256(data: &[u8]) -> (r: Vec<u8>)
    ensures
        r@ == sha256_spec(data@),
        r@.len() == 32,
{
    Sha256::digest(data).to_vec()
}

#[verifier::external_type_specification]
#[verifier::external_body]
pub struct ExSystemTime(SystemTime);

/// Wraps `SystemTime::now`. Nothing is claimed of the time it reads.
#[verifier::external_body]
fn system_now() -> (r: SystemTime) {
    SystemTime::now()
}

/// Wraps `SystemTime::duration_since` from the Unix epoch; `None` for a time
/// before it. Nothing is claimed of the duration.
#[verifier::external_body]
fn since_epoch(t: &SystemTime) -> (r: Option<Duration>) {
    t.duration_since(UNIX_EPOCH).ok()
}

/// Wraps `Duration::as_secs`. Nothing is claimed of the seconds.
#[verifier::external_body]
fn whole_secs(d: &Duration) -> (r: u64) {
    d.as_secs()
}

// ---------------------------------------------------------------------------
// Hex and dates
// ---------------------------------------------------------------------------

/// The lowercase hex digit of `d` (0 to 15).
pub open spec fn hex_digit(d: int) -> char {
    if d < 10 {
        digit_char(d)
    } else if d == 10 {
        'a'
    } else if d == 11 {
        'b'
    } else if d == 12 {
        'c'
    } else if d == 13 {
        'd'
    } else if d == 14 {
        'e'
    } else {
        'f'
    }
}

/// Two lowercase hex digits per byte.
pub open spec fn hex_spec(bs: Seq<u8>) -> Seq<char>
    decreases bs.len(),
{
    if bs.len() == 0 {
        Seq::empty()
    } else {
        hex_spec(bs.drop_last()) + seq![hex_digit(bs.last() as int / 16), hex_digit(bs.last() as int % 16)]
    }
}

fn hex_char(d: u8) -> (r: char)
    requires
        d < 16,
    ensures
        r == hex_digit(d as int),
{
    match d {
        0 => '0',
        1 => '1',
        2 => '2',
        3 => '3',
        4 => '4',
        5 => '5',
        6 => '6',
        7 => '7',
        8 => '8',
        9 => '9',
        10 => 'a',
        11 => 'b',
        12 => 'c',
        13 => 'd',
        14 => 'e',
        _ => 'f',
    }
}

fn hex(bs: &Vec<u8>) -> (r: String)
    ensures
        r@ == hex_spec(bs@),
{
    let mut s = String::new();
    let mut i: usize = 0;
    while i < bs.len()
        invariant
            i <= bs@.len(),
            s@ == hex_spec(bs@.take(i as int)),
        decreases bs@.len() - i,
    {
        let b = bs[i];
        assert(bs@.take(i + 1).drop_last() == bs@.take(i as int));
        push_char(&mut s, hex_char(b / 16));
        push_char(&mut s, hex_char(b % 16));
        i = i + 1;
    }
    assert(bs@.take(bs@.len() as int) == bs@);
    s
}

/// Gregorian leap years.
pub open spec fn is_leap_spec(y: int) -> bool {
    (y % 4 == 0 && y % 100 != 0) || y % 400 == 0
}

pub open spec fn year_len(y: int) -> int {
    if is_leap_spec(y) { 366 } else { 365 }
}

/// The year `days` days after the start of year `y`, and the day of that
/// year it falls on (from 0).
pub open spec fn year_of(days: int, y: int) -> (int, int)
    decreases days,
{
    if days < year_len(y) || days < 0 {
        (y, days)
    } else {
        year_of(days - year_len(y), y + 1)
    }
}

/// The length of month `m` (1 to 12).
pub open spec fn month_len(m: int, leap: bool) -> int {
    if m == 2 {
        if leap { 29 } else { 28 }
    } else if m == 4 || m == 6 || m == 9 || m == 11 {
        30
    } else {
        31
    }
}

/// The month day `days` of a year falls in, counting from month `m`, and the
/// day of that month (from 0).
pub open spec fn month_of(days: int, m: int, leap: bool) -> (int, int)
    decreases 13 - m,
{
    if m > 12 || days < month_len(m, leap) {
        (m, days)
    } else {
        month_of(days - month_len(m, leap), m + 1, leap)
    }
}

/// Year, month and day (from 1) of day `days` since 1970-01-01.
pub open spec fn ymd_spec(days: int) -> (int, int, int) {
    let (y, rem) = year_of(days, 1970);
    let (m, d) = month_of(rem, 1, is_leap_spec(y));
    (y, m, d + 1)
}

/// `n` in decimal, zero-padded to at least `w` digits.
pub open spec fn padded(n: nat, w: nat) -> Seq<char> {
    let ds = nat_digits(n);
    if ds.len() < w { Seq::new((w - ds.len()) as nat, |i: int| '0') + ds } else { ds }
}

/// `YYYY-MM-DDTHH:MM:SSZ` for `secs` seconds after the Unix epoch.
pub open spec fn rfc3339_spec(secs: nat) -> Seq<char> {
    let (y, m, d) = ymd_spec((secs / 86400) as int);
    padded(y as nat, 4) + seq!['-'] + padded(m as nat, 2) + seq!['-'] + padded(d as nat, 2) + seq!['T']
        + padded(((secs / 3600) % 24) as nat, 2) + seq![':'] + padded(((secs / 60) % 60) as nat, 2) + seq![':']
        + padded((secs % 60) as nat, 2) + seq!['Z']
}

fn is_leap(y: u64) -> (r: bool)
    ensures
        r == is_leap_spec(y as int),
{
    (y % 4 == 0 && y % 100 != 0) || y % 400 == 0
}

proof fn lemma_year_of_bound(days: int, y: int)
    requires
        days >= 0,
    ensures
        year_of(days, y).0 <= y + days,
        0 <= year_of(days, y).1 < year_len(year_of(days, y).0),
    decreases days,
{
    if days >= year_len(y) {
        lemma_year_of_bound(days - year_len(y), y + 1);
    }
}

fn days_to_ymd(days0: u64) -> (r: (u64, u64, u64))
    requires
        days0 <= 0xffff_ffff_ffff,
    ensures
        (r.0 as int, r.1 as int, r.2 as int) == ymd_spec(days0 as int),
{
    let mut days = days0;
    let mut year: u64 = 1970;
    proof { lemma_year_of_bound(days0 as int, 1970); }
    loop
        invariant
            days0 <= 0xffff_ffff_ffff,
            year >= 1970,
            year_of(days as int, year as int) == year_of(days0 as int, 1970),
            year + days <= 1970 + days0,
        ensures
            year_of(days as int, year as int) == year_of(days0 as int, 1970),
            days < year_len(year as int),
        decreases days,
    {
        let len: u64 = if is_leap(year) { 366 } else { 365 };
        if days < len {
            break;
        }
        days = days - len;
        year = year + 1;
    }
    let leap = is_leap(year);
    let mut month: u64 = 1;
    assert(year_of(days as int, year as int) == (year as int, days as int));
    while month <= 12
        invariant
            1 <= month <= 13,
            days < 366,
            leap == is_leap_spec(year as int),
            month_of(days as int, month as int, leap) == month_of(year_of(days0 as int, 1970).1, 1, leap),
        ensures
            1 <= month <= 13,
            days < 366,
            month_of(days as int, month as int, leap) == month_of(year_of(days0 as int, 1970).1, 1, leap),
            month_of(days as int, month as int, leap) == (month as int, days as int),
        decreases 13 - month,
    {
        let md: u64 = if month == 2 {
            if leap { 29 } else { 28 }
        } else if month == 4 || month == 6 || month == 9 || month == 11 {
            30
        } else {
            31
        };
        if days < md {
            break;
        }
        days = days - md;
        month = month + 1;
    }
    (year, month, days + 1)
}

fn pad(n: u64, w: usize) -> (r: String)
    ensures
        r@ == padded(n as nat, w as nat),
{
    let ds = u64_text(n);
    let len = crate::text::chars_of(ds.as_str()).len();
    let mut s = String::new();
    let mut k: usize = len;
    while k < w
        invariant
            len == nat_digits(n as nat).len(),
            len <= k,
            k <= w || k == len,
            s@ == Seq::new((k - len) as nat, |i: int| '0'),
        decreases w - k,
    {
        push_char(&mut s, '0');
        assert(s@ =~= Seq::new((k + 1 - len) as nat, |i: int| '0'));
        k = k + 1;
    }
    push_str(&mut s, ds.as_str());
    if len >= w {
        assert(s@ =~= nat_digits(n as nat));
    }
    s
}

/// `YYYY-MM-DDTHH:MM:SSZ` for `secs` seconds after the Unix epoch.
pub fn rfc3339(secs: u64) -> (r: String)
    ensures
        r@ == rfc3339_spec(secs as nat),
{
    let days = secs / 86400;
    assert(days <= 0xffff_ffff_ffff);
    let (year, month, day) = days_to_ymd(days);
    let mut s = pad(year, 4);
    push_char(&mut s, '-');
    let t = pad(month, 2);
    push_str(&mut s, t.as_str());
    push_char(&mut s, '-');
    let t = pad(day, 2);
    push_str(&mut s, t.as_str());
    push_char(&mut s, 'T');
    let t = pad((secs / 3600) % 24, 2);
    push_str(&mut s, t.as_str());
    push_char(&mut s, ':');
    let t = pad((secs / 60) % 60, 2);
    push_str(&mut s, t.as_str());
    push_char(&mut s, ':');
    let t = pad(secs % 60, 2);
    push_str(&mut s, t.as_str());
    push_char(&mut s, 'Z');
    s
}

// ---------------------------------------------------------------------------
// The manifest
// ---------------------------------------------------------------------------

/// The proof record of one function.
#[derive(Debug, Clone, Copy, PartialEq, Eq, Structural)]
pub struct FuncProof {
    pub verified: bool,
    pub conclusions_checked: usize,
    pub conclusions_passed: usize,
    /// At least one conclusion was proved by interval bounding of a product
    /// rather than by exact linear arithmetic.
    pub used_interval_bounding: bool,
}

/// The manifest of one compilation run. `functions` is sorted by name, one
/// record per name.
#[derive(Debug, Clone)]
pub struct ProofManifest {
    pub schema_version: &'static str,
    /// `sha256:<hex>` of the source bytes.
    pub source_hash: String,
    /// When verification ran, `YYYY-MM-DDTHH:MM:SSZ` (UTC).
    pub verified_at: String,
    pub functions: Vec<(String, FuncProof)>,
    /// `sha256:<hex>` of the manifest's JSON with this field empty.
    pub manifest_hash: String,
}

/// How many of the first `n` checks passed.
pub open spec fn passed_count(cs: Seq<CheckResult>, n: nat) -> nat
    decreases n,
{
    if n == 0 || n > cs.len() { 0 } else { passed_count(cs, (n - 1) as nat) + if cs[n - 1].passed { 1nat } else { 0nat } }
}

/// Does any of the first `n` checks rest on interval bounding?
pub open spec fn any_approx(cs: Seq<CheckResult>, n: nat) -> bool
    decreases n,
{
    if n == 0 || n > cs.len() { false } else { any_approx(cs, (n - 1) as nat) || cs[n - 1].is_approximation }
}

/// The record of an outcome.
pub open spec fn proof_of(o: FuncOutcome) -> FuncProof {
    FuncProof {
        verified: o.verified,
        conclusions_checked: o.result.checks@.len() as usize,
        conclusions_passed: passed_count(o.result.checks@, o.result.checks@.len()) as usize,
        used_interval_bounding: any_approx(o.result.checks@, o.result.checks@.len()),
    }
}

/// The position of the first record whose name does not sort before `k`.
pub open spec fn slot(e: Seq<(Seq<char>, FuncProof)>, k: Seq<char>) -> int
    decreases e.len(),
{
    if e.len() == 0 {
        0
    } else if text_lt(e[0].0, k) {
        1 + slot(e.drop_first(), k)
    } else {
        0
    }
}

/// `e` with the record of `k` set to `v`, in sorted position.
pub open spec fn upsert_spec(e: Seq<(Seq<char>, FuncProof)>, k: Seq<char>, v: FuncProof) -> Seq<(Seq<char>, FuncProof)> {
    let i = slot(e, k);
    if i < e.len() && e[i].0 == k { e.update(i, (k, v)) } else { e.insert(i, (k, v)) }
}

/// The records of the first `n` outcomes; a later outcome for the same
/// name replaces an earlier one.
pub open spec fn records_spec(os: Seq<FuncOutcome>, n: nat) -> Seq<(Seq<char>, FuncProof)>
    decreases n,
{
    if n == 0 || n > os.len() {
        Seq::empty()
    } else {
        upsert_spec(records_spec(os, (n - 1) as nat), os[n - 1].func_name@, proof_of(os[n - 1]))
    }
}

pub open spec fn records_view(e: Seq<(String, FuncProof)>) -> Seq<(Seq<char>, FuncProof)> {
    e.map_values(|p: (String, FuncProof)| (p.0@, p.1))
}

proof fn lemma_slot_bound(e: Seq<(Seq<char>, FuncProof)>, k: Seq<char>)
    ensures
        0 <= slot(e, k) <= e.len(),
        forall|j: int| 0 <= j < slot(e, k) ==> text_lt(#[trigger] e[j].0, k),
        slot(e, k) < e.len() ==> !text_lt(e[slot(e, k)].0, k),
    decreases e.len(),
{
    if e.len() > 0 && text_lt(e[0].0, k) {
        lemma_slot_bound(e.drop_first(), k);
        assert forall|j: int| 0 <= j < slot(e, k) implies text_lt(#[trigger] e[j].0, k) by {
            if j > 0 {
                assert(e[j] == e.drop_first()[j - 1]);
            }
        }
    }
}

fn upsert(e: &mut Vec<(String, FuncProof)>, k: &String, v: FuncProof)
    ensures
        records_view(final(e)@) == upsert_spec(records_view(old(e)@), k@, v),
{
    let ghost rv = records_view(e@);
    proof { lemma_slot_bound(rv, k@); }
    let mut i: usize = 0;
    while i < e.len()
        invariant
            rv == records_view(e@),
            i <= slot(rv, k@),
            0 <= slot(rv, k@) <= rv.len(),
            forall|j: int| 0 <= j < slot(rv, k@) ==> text_lt(#[trigger] rv[j].0, k@),
            slot(rv, k@) < rv.len() ==> !text_lt(rv[slot(rv, k@)].0, k@),
        ensures
            i == slot(rv, k@),
        decreases e@.len() - i,
    {
        let lt = text_lt_exec(e[i].0.as_str(), k.as_str());
        assert(rv[i as int].0 == e@[i as int].0@);
        if !lt {
            proof {
                if (i as int) < slot(rv, k@) {
                    assert(text_lt(rv[i as int].0, k@));
                }
            }
            break;
        }
        i = i + 1;
    }
    if i < e.len() && crate::text::str_eq(e[i].0.as_str(), k.as_str()) {
        e.set(i, (crate::text::copy_string(k), v));
        assert(records_view(e@) =~= rv.update(i as int, (k@, v)));
    } else {
        e.insert(i, (crate::text::copy_string(k), v));
        assert(records_view(e@) =~= rv.insert(i as int, (k@, v)));
    }
}

/// The records of a list of outcomes, sorted by name.
fn records(outcomes: &[FuncOutcome]) -> (r: Vec<(String, FuncProof)>)
    ensures
        records_view(r@) == records_spec(outcomes@, outcomes@.len()),
{
    let mut e: Vec<(String, FuncProof)> = Vec::new();
    assert(records_view(e@) =~= records_spec(outcomes@, 0));
    let mut i: usize = 0;
    while i < outcomes.len()
        invariant
            i <= outcomes@.len(),
            records_view(e@) == records_spec(outcomes@, i as nat),
        decreases outcomes@.len() - i,
    {
        let o = &outcomes[i];
        let checks = &o.result.checks;
        let mut passed: usize = 0;
        let mut approx = false;
        let mut j: usize = 0;
        while j < checks.len()
            invariant
                j <= checks@.len(),
                passed == passed_count(checks@, j as nat),
                passed <= j,
                approx == any_approx(checks@, j as nat),
            decreases checks@.len() - j,
        {
            if checks[j].passed {
                passed = passed + 1;
            }
            if checks[j].is_approximation {
                approx = true;
            }
            j = j + 1;
        }
        let fp = FuncProof {
            verified: o.verified,
            conclusions_checked: checks.len(),
            conclusions_passed: passed,
            used_interval_bounding: approx,
        };
        assert(fp == proof_of(*o));
        upsert(&mut e, &o.func_name, fp);
        i = i + 1;
    }
    e
}

pub open spec fn bool_text(b: bool) -> Seq<char> {
    if b { "true"@ } else { "false"@ }
}

/// One record of the `functions` object; all but the last end in a comma.
pub open spec fn record_json(e: (Seq<char>, FuncProof), last: bool) -> Seq<char> {
    "    \""@ + e.0 + "\": {\n"@
        + "      \"verified\": "@ + bool_text(e.1.verified) + ",\n"@
        + "      \"conclusions_checked\": "@ + nat_digits(e.1.conclusions_checked as nat) + ",\n"@
        + "      \"conclusions_passed\": "@ + nat_digits(e.1.conclusions_passed as nat) + ",\n"@
        + "      \"used_interval_bounding\": "@ + bool_text(e.1.used_interval_bounding) + "\n"@
        + "    }"@ + (if last { Seq::empty() } else { seq![','] }) + seq!['\n']
}

pub open spec fn records_json(rs: Seq<(Seq<char>, FuncProof)>, n: nat) -> Seq<char>
    decreases n,
{
    if n == 0 || n > rs.len() { Seq::empty() } else { records_json(rs, (n - 1) as nat) + record_json(rs[n - 1], n == rs.len()) }
}

/// The manifest as pretty-printed JSON.
pub open spec fn json_spec(schema: Seq<char>, source_hash: Seq<char>, verified_at: Seq<char>, rs: Seq<(Seq<char>, FuncProof)>, manifest_hash: Seq<char>) -> Seq<char> {
    "{\n"@
        + "  \"schema_version\": \""@ + schema + "\",\n"@
        + "  \"source_hash\": \""@ + source_hash + "\",\n"@
        + "  \"verified_at\": \""@ + verified_at + "\",\n"@
        + "  \"functions\": {\n"@ + records_json(rs, rs.len()) + "  },\n"@
        + "  \"manifest_hash\": \""@ + manifest_hash + "\"\n"@
        + "}\n"@
}

pub open spec fn manifest_json(m: ProofManifest) -> Seq<char> {
    json_spec(m.schema_version@, m.source_hash@, m.verified_at@, records_view(m.functions@), m.manifest_hash@)
}

fn bool_str(b: bool) -> (r: &'static str)
    ensures
        r@ == bool_text(b),
{
    if b { "true" } else { "false" }
}

fn render_record(name: &String, fp: FuncProof, last: bool) -> (r: String)
    ensures
        r@ == record_json((name@, fp), last),
{
    let mut body = string_of("    \"");
    push_str(&mut body, name.as_str());
    push_str(&mut body, "\": {\n");
    push_str(&mut body, "      \"verified\": ");
    push_str(&mut body, bool_str(fp.verified));
    push_str(&mut body, ",\n");
    push_str(&mut body, "      \"conclusions_checked\": ");
    let t = usize_text(fp.conclusions_checked);
    push_str(&mut body, t.as_str());
    push_str(&mut body, ",\n");
    push_str(&mut body, "      \"conclusions_passed\": ");
    let t = usize_text(fp.conclusions_passed);
    push_str(&mut body, t.as_str());
    push_str(&mut body, ",\n");
    push_str(&mut body, "      \"used_interval_bounding\": ");
    push_str(&mut body, bool_str(fp.used_interval_bounding));
    push_str(&mut body, "\n");
    push_str(&mut body, "    }");
    if !last {
        push_char(&mut body, ',');
    }
    push_char(&mut body, '\n');
    body
}

/// Serialize the manifest to pretty JSON, records in name order.
pub fn to_json(manifest: &ProofManifest) -> (r: String)
    ensures
        r@ == manifest_json(*manifest),
{
    let ghost rs = records_view(manifest.functions@);
    let mut s = string_of("{\n");
    push_str(&mut s, "  \"schema_version\": \"");
    push_str(&mut s, manifest.schema_version);
    push_str(&mut s, "\",\n");
    push_str(&mut s, "  \"source_hash\": \"");
    push_str(&mut s, manifest.source_hash.as_str());
    push_str(&mut s, "\",\n");
    push_str(&mut s, "  \"verified_at\": \"");
    push_str(&mut s, manifest.verified_at.as_str());
    push_str(&mut s, "\",\n");
    push_str(&mut s, "  \"functions\": {\n");
    let fs = &manifest.functions;
    let mut body = String::new();
    let mut i: usize = 0;
    while i < fs.len()
        invariant
            i <= fs@.len(),
            rs == records_view(fs@),
            body@ == records_json(rs, i as nat),
        decreases fs@.len() - i,
    {
        let fp = fs[i].1;
        assert(rs[i as int] == (fs@[i as int].0@, fp));
        let t = render_record(&fs[i].0, fp, i + 1 == fs.len());
        push_str(&mut body, t.as_str());
        i = i + 1;
    }
    push_str(&mut s, body.as_str());
    push_str(&mut s, "  },\n");
    push_str(&mut s, "  \"manifest_hash\": \"");
    push_str(&mut s, manifest.manifest_hash.as_str());
    push_str(&mut s, "\"\n");
    push_str(&mut s, "}\n");
    s
}

/// The manifest embedded as a `#[used] static` raw string, so that it lands
/// in a binary's read-only data.
pub open spec fn proof_static_text(m: ProofManifest) -> Seq<char> {
    "\n// tpt-telos proof manifest (provenance attached to binary)\n#[used]\n#[doc(hidden)]\nstatic TELOS_PROOF_MANIFEST: &str = r#####\""@
        + manifest_json(m) + "\"#####;\n"@
}

/// Render the manifest as a `#[used] static` Rust item.
pub fn render_rust_proof_static(manifest: &ProofManifest) -> (r: String)
    ensures
        r@ == proof_static_text(*manifest),
{
    let json = to_json(manifest);
    let mut s = string_of("\n// tpt-telos proof manifest (provenance attached to binary)\n#[used]\n#[doc(hidden)]\nstatic TELOS_PROOF_MANIFEST: &str = r#####\"");
    push_str(&mut s, json.as_str());
    push_str(&mut s, "\"#####;\n");
    s
}

/// `sha256:` and the hex digest of some bytes.
pub open spec fn hash_text(data: Seq<u8>) -> Seq<char> {
    "sha256:"@ + hex_spec(sha256_spec(data))
}

fn hash_string(data: &[u8]) -> (r: String)
    ensures
        r@ == hash_text(data@),
{
    let d = sha256(data);
    let mut s = string_of("sha256:");
    let h = hex(&d);
    push_str(&mut s, h.as_str());
    s
}

/// Build the manifest of a run: the fingerprint of the source, the time it
/// ran, one record per function name (the last outcome for a name wins),
/// and the fingerprint of the manifest's own JSON with `manifest_hash`
/// empty.
pub fn generate_manifest(source_bytes: &[u8], outcomes: &[FuncOutcome]) -> (r: ProofManifest)
    ensures
        r.schema_version@ == "1"@,
        r.source_hash@ == hash_text(source_bytes@),
        exists|secs: nat| r.verified_at@ == rfc3339_spec(secs),
        records_view(r.functions@) == records_spec(outcomes@, outcomes@.len()),
        r.manifest_hash@ == hash_text(vstd::utf8::encode_utf8(
            json_spec("1"@, r.source_hash@, r.verified_at@, records_view(r.functions@), Seq::empty()),
        )),
{
    let source_hash = hash_string(source_bytes);
    let now = system_now();
    let secs: u64 = match since_epoch(&now) {
        Some(d) => whole_secs(&d),
        None => 0,
    };
    let verified_at = rfc3339(secs);
    let functions = records(outcomes);
    let mut manifest = ProofManifest {
        schema_version: "1",
        source_hash,
        verified_at,
        functions,
        manifest_hash: String::new(),
    };
    let json = to_json(&manifest);
    let bytes = json.as_str().as_bytes();
    let mh = hash_string(bytes);
    manifest.manifest_hash = mh;
    manifest
}

} // verus!
