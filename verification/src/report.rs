//! The signed Markdown evidence card: its data, its rendering, the signing key
//! file format, signing, and verification of a signed card.
use vstd::prelude::*;
use vstd::string::StringExecFns;
use vstd::utf8::encode_utf8;
use crate::crypto::{
    base64_decode, base64_decoding, base64_encode, base64_text, ed25519_accepts, ed25519_key_valid,
    ed25519_point_valid, ed25519_public, ed25519_public_key, ed25519_sign, ed25519_signature,
    ed25519_verify, is_base64_char, random_secret,
};
use crate::text::{
    chars_of, decimal, digit_char, ends_with, matches_at, occurs_at, push_decimal, same_chars,
    slice_string, starts_with, starts_with_chars, string_of, sub_chars, ends_with_chars, trim,
    trim_chars, trim_end, trim_start,
};

verus! {

// ---------------------------------------------------------------------------
// The card
// ---------------------------------------------------------------------------
/// What one step or check showed: its state, its duration and a short,
/// output-free description.
#[derive(Debug, Clone)]
pub struct Evidence {
    pub id: String,
    pub kind: String,
    pub passed: bool,
    pub duration_ms: u128,
    pub detail: String,
}

/// The size and SHA-256 checksum of one declared artifact.
#[derive(Debug, Clone)]
pub struct ArtifactEvidence {
    pub id: String,
    pub bytes: u64,
    pub sha256: String,
}

/// Everything the signed card records about one rehearsal.
#[derive(Debug, Clone)]
pub struct Card {
    pub rehearsal: String,
    pub target: String,
    pub started_at: String,
    pub finished_at: String,
    pub duration_ms: u128,
    pub rto_seconds: u64,
    pub passed: bool,
    pub artifacts: Vec<ArtifactEvidence>,
    pub evidence: Vec<Evidence>,
    pub failure: Option<String>,
}

/// How one character is written in Markdown text: `\`, `*`, `_` and `` ` ``
/// get a backslash in front, which is what replacing each of them in turn does.
pub open spec fn markdown_char(c: char) -> Seq<char> {
    if c == '\\' || c == '*' || c == '_' || c == '`' {
        seq!['\\', c]
    } else {
        seq![c]
    }
}

/// How one character is written in a Markdown table cell: as in text, with
/// `|` escaped as well and line breaks turned into spaces.
pub open spec fn table_char(c: char) -> Seq<char> {
    if c == '|' {
        seq!['\\', '|']
    } else if c == '\r' || c == '\n' {
        seq![' ']
    } else {
        markdown_char(c)
    }
}

/// `s` escaped for Markdown text.
pub open spec fn escaped_markdown(s: Seq<char>) -> Seq<char>
    decreases s.len(),
{
    if s.len() == 0 {
        Seq::empty()
    } else {
        escaped_markdown(s.drop_last()) + markdown_char(s.last())
    }
}

/// `s` escaped for a Markdown table cell.
pub open spec fn escaped_table(s: Seq<char>) -> Seq<char>
    decreases s.len(),
{
    if s.len() == 0 {
        Seq::empty()
    } else {
        escaped_table(s.drop_last()) + table_char(s.last())
    }
}

/// Escapes the characters that Markdown would read as markup.
pub fn escape_markdown(value: &str) -> (r: String)
    ensures
        r@ == escaped_markdown(value@),
{
    let chars = chars_of(value);
    let mut r = String::new();
    let n = chars.len();
    for i in 0..n
        invariant
            n == chars@.len(),
            chars@ == value@,
            r@ == escaped_markdown(value@.take(i as int)),
    {
        let c = chars[i];
        if c == '\\' || c == '*' || c == '_' || c == '`' {
            r.push('\\');
        }
        r.push(c);
        assert(value@.take(i + 1).drop_last() == value@.take(i as int));
    }
    assert(value@.take(n as int) == value@);
    r
}

/// Escapes a value for a Markdown table cell.
pub fn escape_table(value: &str) -> (r: String)
    ensures
        r@ == escaped_table(value@),
{
    let chars = chars_of(value);
    let mut r = String::new();
    let n = chars.len();
    for i in 0..n
        invariant
            n == chars@.len(),
            chars@ == value@,
            r@ == escaped_table(value@.take(i as int)),
    {
        let c = chars[i];
        if c == '|' {
            r.push('\\');
            r.push('|');
        } else if c == '\r' || c == '\n' {
            r.push(' ');
        } else {
            if c == '\\' || c == '*' || c == '_' || c == '`' {
                r.push('\\');
            }
            r.push(c);
        }
        assert(value@.take(i + 1).drop_last() == value@.take(i as int));
    }
    assert(value@.take(n as int) == value@);
    r
}

/// `n / d` rounded to the nearest integer, a tie going to the even one.
pub open spec fn round_half_even(n: nat, d: nat) -> nat {
    let q = n / d;
    let r = n % d;
    if 2 * r > d || (2 * r == d && q % 2 == 1) {
        q + 1
    } else {
        q
    }
}

/// `2^e`.
pub open spec fn two_to(e: nat) -> nat
    decreases e,
{
    if e == 0 {
        1
    } else {
        2 * two_to((e - 1) as nat)
    }
}

/// The least exponent from `s` on (at most 62) at which `ms · 2^s` reaches
/// `1000 · 2^52`, so that `ms · 2^s / 1000` has a 53-bit integer part.
pub open spec fn binade_shift(ms: nat, s: nat) -> nat
    decreases 62 - s,
{
    if s >= 62 || ms * two_to(s) >= 1000 * two_to(52) {
        s
    } else {
        binade_shift(ms, s + 1)
    }
}

/// The number of low bits, counted from `t` on (at most 128), that `ms` has
/// beyond the 53 bits an `f64` significand holds.
pub open spec fn extra_bits(ms: nat, t: nat) -> nat
    decreases 128 - t,
{
    if t >= 128 || ms / two_to(t) < two_to(53) {
        t
    } else {
        extra_bits(ms, t + 1)
    }
}

/// Hundredths of a second in `ms` from `2^53` ms on, where `ms as f64` is
/// itself rounded: `ms` becomes the nearest `m1 · 2^t` with a 53-bit `m1`,
/// the quotient by 1000 the nearest `m2 · 2^(t - k)` with a 53-bit `m2`
/// (`k` is 10, or 9 where `m1 · 1024 / 1000` would reach 54 bits), and that
/// value is rounded to the nearest hundredth, a tie going to the even one.
pub open spec fn wide_centiseconds(ms: nat) -> nat {
    let t = extra_bits(ms, 0);
    let m1 = round_half_even(ms, two_to(t));
    let k: nat = if m1 * 1024 < 1000 * two_to(53) {
        10
    } else {
        9
    };
    let m2 = round_half_even(m1 * two_to(k), 1000);
    if t >= k {
        100 * m2 * two_to((t - k) as nat)
    } else {
        round_half_even(100 * m2, two_to((k - t) as nat))
    }
}

/// A duration in hundredths of a second, as `{:.2}` writes the `f64` value
/// `ms as f64 / 1000.0`. Below `2^53` ms, `ms` is an exact `f64`: the quotient
/// is rounded to the nearest 53-bit binary fraction `m / 2^s`, which is then
/// rounded to the nearest hundredth, a tie going to the even hundredth. From
/// `2^53` ms on, the conversion of `ms` is rounded first (`wide_centiseconds`).
#[verifier::opaque]
pub open spec fn rounded_centiseconds(ms: nat) -> nat {
    if ms < two_to(53) {
        let s = binade_shift(ms, 0);
        let m = round_half_even(ms * two_to(s), 1000);
        round_half_even(100 * m, two_to(s))
    } else {
        wide_centiseconds(ms)
    }
}

proof fn lemma_two_to_add(a: nat, b: nat)
    ensures
        two_to(a + b) == two_to(a) * two_to(b),
    decreases b,
{
    if b == 0 {
        assert(two_to(0) == 1);
        assert(a + b == a);
    } else {
        lemma_two_to_add(a, (b - 1) as nat);
        assert(two_to(a + b) == 2 * two_to((a + b - 1) as nat));
        assert(two_to(b) == 2 * two_to((b - 1) as nat));
        let x = two_to(a);
        let y = two_to((b - 1) as nat);
        assert(2 * (x * y) == x * (2 * y)) by (nonlinear_arith);
    }
}

proof fn lemma_two_to_le(a: nat, b: nat)
    requires
        a <= b,
    ensures
        two_to(a) <= two_to(b),
    decreases b - a,
{
    if a < b {
        lemma_two_to_le(a, (b - 1) as nat);
    }
}

proof fn lemma_two_to_values()
    ensures
        two_to(9) == 512,
        two_to(10) == 1024,
        two_to(52) == 4503599627370496,
        two_to(53) == 9007199254740992,
        two_to(66) == 73786976294838206464,
        two_to(75) == 37778931862957161709568,
        two_to(61) == 2305843009213693952,
        two_to(62) == 4611686018427387904,
{
    reveal_with_fuel(two_to, 11);
    assert(two_to(1) == 2 && two_to(2) == 4 && two_to(3) == 8 && two_to(5) == 32);
    assert(two_to(6) == 64 && two_to(9) == 512 && two_to(10) == 1024);
    lemma_two_to_add(10, 10);
    assert(two_to(20) == two_to(10) * two_to(10));
    assert(two_to(20) == 1048576);
    lemma_two_to_add(20, 20);
    assert(two_to(40) == two_to(20) * two_to(20));
    assert(two_to(40) == 1099511627776);
    lemma_two_to_add(40, 10);
    assert(two_to(50) == two_to(40) * two_to(10));
    assert(two_to(50) == 1125899906842624);
    lemma_two_to_add(50, 2);
    assert(two_to(52) == two_to(50) * two_to(2));
    assert(two_to(52) == 4503599627370496);
    lemma_two_to_add(50, 3);
    assert(two_to(53) == two_to(50) * two_to(3));
    assert(two_to(53) == 9007199254740992);
    lemma_two_to_add(50, 10);
    lemma_two_to_add(60, 1);
    lemma_two_to_add(60, 2);
    lemma_two_to_add(60, 6);
    lemma_two_to_add(60, 10);
    lemma_two_to_add(70, 5);
}

fn rounded_quotient(n: u128, d: u128) -> (r: u128)
    requires
        d > 0,
        n / d < u128::MAX,
    ensures
        r == round_half_even(n as nat, d as nat),
{
    let q = n / d;
    let rem = n % d;
    if rem > d - rem || (rem == d - rem && q % 2 == 1) {
        q + 1
    } else {
        q
    }
}

/// The hundredths of a second `{:.2}` shows for `ms as f64 / 1000.0` from
/// `2^53` ms on.
fn wide_hundredths(ms: u128) -> (c: u128)
    requires
        ms >= 9007199254740992,
    ensures
        c == wide_centiseconds(ms as nat),
{
    proof {
        lemma_two_to_values();
    }
    let mut t: u128 = 0;
    let mut rest: u128 = ms;
    let mut p: u128 = 1;
    assert(two_to(0) == 1);
    while rest >= 9007199254740992
        invariant
            t <= 75,
            p >= 1,
            rest == ms as nat / two_to(t as nat),
            p == two_to(t as nat),
            extra_bits(ms as nat, 0) == extra_bits(ms as nat, t as nat),
            two_to(53) == 9007199254740992,
            two_to(75) == 37778931862957161709568,
        decreases rest,
    {
        proof {
            assert(ms as nat >= p * rest) by (nonlinear_arith)
                requires
                    rest == ms as nat / (p as nat),
                    p > 0,
            {
                vstd::arithmetic::div_mod::lemma_fundamental_div_mod(ms as int, p as int);
            }
            assert(ms as nat >= p * 9007199254740992) by (nonlinear_arith)
                requires
                    ms as nat >= p * rest,
                    rest >= 9007199254740992,
            ;
            if t == 75 {
                assert(false);
            }
            lemma_two_to_le((t + 1) as nat, 75);
            vstd::arithmetic::div_mod::lemma_div_denominator(ms as int, p as int, 2);
        }
        rest = rest / 2;
        p = p * 2;
        t = t + 1;
    }
    proof {
        lemma_two_to_le(t as nat, 75);
    }
    let m1 = rounded_quotient(ms, p);
    let (k, pk): (u128, u128) = if m1 * 1024 < 9007199254740992000 {
        (10, 1024)
    } else {
        (9, 512)
    };
    let m2 = rounded_quotient(m1 * pk, 1000);
    if t >= k {
        let e = t - k;
        proof {
            lemma_two_to_add(e as nat, k as nat);
            lemma_two_to_le(e as nat, 66);
            assert(p as nat / (pk as nat) == two_to(e as nat)) by (nonlinear_arith)
                requires
                    p == two_to(e as nat) * pk,
                    pk > 0,
            ;
            assert(100 * m2 * two_to(e as nat) < 100 * 18014398509481984 * 73786976294838206464)
                by (nonlinear_arith)
                requires
                    m2 < 18014398509481984,
                    two_to(e as nat) <= 73786976294838206464,
            ;
        }
        let pe = p / pk;
        100 * m2 * pe
    } else {
        let e = k - t;
        proof {
            lemma_two_to_add(e as nat, t as nat);
            assert(two_to(0) == 1);
            lemma_two_to_le(0, e as nat);
            assert(pk as nat / (p as nat) == two_to(e as nat)) by (nonlinear_arith)
                requires
                    pk == two_to(e as nat) * p,
                    p > 0,
            ;
        }
        let pe = pk / p;
        rounded_quotient(100 * m2, pe)
    }
}

/// The hundredths of a second `{:.2}` shows for `ms / 1000`.
fn hundredths(ms: u128) -> (c: u128)
    ensures
        c == rounded_centiseconds(ms as nat),
{
    proof {
        lemma_two_to_values();
        reveal(rounded_centiseconds);
    }
    if ms >= 9007199254740992 {
        return wide_hundredths(ms);
    }
    let mut s: u128 = 0;
    let mut scaled: u128 = ms;
    let mut d: u128 = 1;
    assert(two_to(0) == 1);
    assert(scaled == ms * two_to(0));
    while s < 62 && scaled < 4503599627370496000
        invariant
            s <= 62,
            ms < 9007199254740992,
            scaled == ms * two_to(s as nat),
            d == two_to(s as nat),
            scaled < 9007199254740992000,
            binade_shift(ms as nat, 0) == binade_shift(ms as nat, s as nat),
            two_to(52) == 4503599627370496,
            two_to(61) == 2305843009213693952,
        decreases 62 - s,
    {
        proof {
            lemma_two_to_le(s as nat, 61);
            assert(ms * two_to((s + 1) as nat) == 2 * (ms * two_to(s as nat))) by (nonlinear_arith)
                requires
                    two_to((s + 1) as nat) == 2 * two_to(s as nat),
            ;
        }
        scaled = scaled * 2;
        d = d * 2;
        s = s + 1;
    }
    let m = rounded_quotient(scaled, 1000);
    rounded_quotient(100 * m, d)
}

/// A duration in milliseconds written in seconds with two decimals.
pub open spec fn seconds_text(ms: nat) -> Seq<char> {
    let c = rounded_centiseconds(ms);
    decimal(c / 100) + seq!['.', digit_char((c % 100) / 10), digit_char(c % 10)]
}

fn digit_of(d: u128) -> (c: char)
    requires
        d < 10,
    ensures
        c == digit_char(d as nat),
{
    if d == 0 {
        '0'
    } else if d == 1 {
        '1'
    } else if d == 2 {
        '2'
    } else if d == 3 {
        '3'
    } else if d == 4 {
        '4'
    } else if d == 5 {
        '5'
    } else if d == 6 {
        '6'
    } else if d == 7 {
        '7'
    } else if d == 8 {
        '8'
    } else {
        '9'
    }
}

/// Appends a duration in milliseconds, written in seconds with two decimals.
pub fn push_seconds(out: &mut String, ms: u128)
    ensures
        final(out)@ == old(out)@ + seconds_text(ms as nat),
{
    let c = hundredths(ms);
    push_decimal(out, c / 100);
    out.push('.');
    out.push(digit_of((c % 100) / 10));
    out.push(digit_of(c % 10));
}

/// The elapsed time stays within the recovery time objective.
pub open spec fn within_rto(duration_ms: u128, rto_seconds: u64) -> bool {
    duration_ms <= rto_seconds * 1000
}

/// The card's title, result table and timestamps.
pub open spec fn card_header(card: Card) -> Seq<char> {
    "# Restore rehearsal card\n\n**"@ + escaped_markdown(card.rehearsal@) + "** · `"@ + card.target@
        + "`\n\n| Result | Observed | RTO objective | RTO |\n| --- | ---: | ---: | --- |\n| **"@ + (
    if card.passed {
        "PASSED"@
    } else {
        "FAILED"@
    }) + "** | "@ + seconds_text(card.duration_ms as nat) + " s | "@ + decimal(
        card.rto_seconds as nat,
    ) + " s | "@ + (if within_rto(card.duration_ms, card.rto_seconds) {
        "met"@
    } else {
        "missed"@
    }) + " |\n\n- Started: `"@ + card.started_at@ + "`\n- Finished: `"@ + card.finished_at@
        + "`\n- Report format: `rrc/v1`\n\n"@
}

/// One row of the artifact table.
pub open spec fn artifact_row(a: ArtifactEvidence) -> Seq<char> {
    "| `"@ + a.id@ + "` | "@ + decimal(a.bytes as nat) + " | `"@ + a.sha256@ + "` |\n"@
}

/// The rows of the artifact table.
pub open spec fn artifact_rows(items: Seq<ArtifactEvidence>) -> Seq<char>
    decreases items.len(),
{
    if items.len() == 0 {
        Seq::empty()
    } else {
        artifact_rows(items.drop_last()) + artifact_row(items.last())
    }
}

/// The artifact section.
pub open spec fn artifact_section(items: Seq<ArtifactEvidence>) -> Seq<char> {
    "## Artifact evidence\n\n"@ + if items.len() == 0 {
        "No host artifacts were declared.\n\n"@
    } else {
        "| Artifact | Bytes | SHA-256 |\n| --- | ---: | --- |\n"@ + artifact_rows(items) + "\n"@
    }
}

/// One row of the steps-and-checks table.
pub open spec fn evidence_row(e: Evidence) -> Seq<char> {
    "| "@ + (if e.passed {
        "PASS"@
    } else {
        "FAIL"@
    }) + " | `"@ + e.id@ + "` | "@ + e.kind@ + " | "@ + decimal(e.duration_ms as nat) + " ms | "@
        + escaped_table(e.detail@) + " |\n"@
}

/// The rows of the steps-and-checks table.
pub open spec fn evidence_rows(items: Seq<Evidence>) -> Seq<char>
    decreases items.len(),
{
    if items.len() == 0 {
        Seq::empty()
    } else {
        evidence_rows(items.drop_last()) + evidence_row(items.last())
    }
}

/// The steps-and-checks section.
pub open spec fn evidence_section(items: Seq<Evidence>) -> Seq<char> {
    "## Steps and checks\n\n"@ + "| State | ID | Kind | Time | Evidence |\n| --- | --- | --- | ---: | --- |\n"@
        + evidence_rows(items)
}

/// The failure section, present only when the rehearsal failed.
pub open spec fn failure_section(failure: Option<String>) -> Seq<char> {
    match failure {
        Some(message) => "\n## Failure\n\n"@ + escaped_markdown(message@) + "\n"@,
        None => Seq::empty(),
    }
}

/// The closing note on what the card leaves out.
pub open spec fn privacy_note() -> Seq<char> {
    "\n> Privacy note: this card contains checksums, counts, timings, and states only. Command output and restored records are intentionally omitted.\n"@
}

/// The Markdown text of a card, before its signature.
pub open spec fn card_markdown(card: Card) -> Seq<char> {
    card_header(card) + artifact_section(card.artifacts@) + evidence_section(card.evidence@)
        + failure_section(card.failure) + privacy_note()
}

fn push_artifact_row(body: &mut String, a: &ArtifactEvidence)
    ensures
        final(body)@ == old(body)@ + artifact_row(*a),
{
    body.append("| `");
    body.append(a.id.as_str());
    body.append("` | ");
    push_decimal(body, a.bytes as u128);
    body.append(" | `");
    body.append(a.sha256.as_str());
    body.append("` |\n");
}

fn push_evidence_row(body: &mut String, item: &Evidence)
    ensures
        final(body)@ == old(body)@ + evidence_row(*item),
{
    body.append("| ");
    if item.passed {
        body.append("PASS");
    } else {
        body.append("FAIL");
    }
    body.append(" | `");
    body.append(item.id.as_str());
    body.append("` | ");
    body.append(item.kind.as_str());
    body.append(" | ");
    push_decimal(body, item.duration_ms);
    body.append(" ms | ");
    let detail = escape_table(item.detail.as_str());
    body.append(detail.as_str());
    body.append(" |\n");
}

fn push_card_header(body: &mut String, card: &Card)
    ensures
        final(body)@ == old(body)@ + card_header(*card),
{
    let ghost start = body@;
    body.append("# Restore rehearsal card\n\n**");
    let title = escape_markdown(card.rehearsal.as_str());
    body.append(title.as_str());
    body.append("** · `");
    body.append(card.target.as_str());
    body.append("`\n\n| Result | Observed | RTO objective | RTO |\n| --- | ---: | ---: | --- |\n| **");
    if card.passed {
        body.append("PASSED");
    } else {
        body.append("FAILED");
    }
    body.append("** | ");
    push_seconds(body, card.duration_ms);
    body.append(" s | ");
    push_decimal(body, card.rto_seconds as u128);
    body.append(" s | ");
    if card.duration_ms <= (card.rto_seconds as u128) * 1000 {
        body.append("met");
    } else {
        body.append("missed");
    }
    body.append(" |\n\n- Started: `");
    body.append(card.started_at.as_str());
    body.append("`\n- Finished: `");
    body.append(card.finished_at.as_str());
    body.append("`\n- Report format: `rrc/v1`\n\n");
    assert(body@ == start + card_header(*card));
}

fn push_artifact_section(body: &mut String, artifacts: &Vec<ArtifactEvidence>)
    ensures
        final(body)@ == old(body)@ + artifact_section(artifacts@),
{
    let ghost start = body@;
    body.append("## Artifact evidence\n\n");
    if artifacts.len() == 0 {
        body.append("No host artifacts were declared.\n\n");
    } else {
        body.append("| Artifact | Bytes | SHA-256 |\n| --- | ---: | --- |\n");
        let ghost table_start = body@;
        let n = artifacts.len();
        for i in 0..n
            invariant
                n == artifacts@.len(),
                body@ == table_start + artifact_rows(artifacts@.take(i as int)),
        {
            push_artifact_row(body, &artifacts[i]);
            assert(artifacts@.take(i + 1).drop_last() == artifacts@.take(i as int));
        }
        assert(artifacts@.take(n as int) == artifacts@);
        body.append("\n");
    }
    assert(body@ == start + artifact_section(artifacts@));
}

fn push_evidence_section(body: &mut String, evidence: &Vec<Evidence>)
    ensures
        final(body)@ == old(body)@ + evidence_section(evidence@),
{
    let ghost start = body@;
    body.append("## Steps and checks\n\n");
    body.append("| State | ID | Kind | Time | Evidence |\n| --- | --- | --- | ---: | --- |\n");
    let ghost rows_start = body@;
    let n = evidence.len();
    for i in 0..n
        invariant
            n == evidence@.len(),
            body@ == rows_start + evidence_rows(evidence@.take(i as int)),
    {
        push_evidence_row(body, &evidence[i]);
        assert(evidence@.take(i + 1).drop_last() == evidence@.take(i as int));
    }
    assert(evidence@.take(n as int) == evidence@);
    assert(body@ == start + evidence_section(evidence@));
}

impl Card {
    /// The Markdown text of the card, which the signature covers.
    pub fn markdown_body(&self) -> (r: String)
        ensures
            r@ == card_markdown(*self),
    {
        let mut body = String::new();
        push_card_header(&mut body, self);
        push_artifact_section(&mut body, &self.artifacts);
        push_evidence_section(&mut body, &self.evidence);
        let ghost sections = body@;
        match &self.failure {
            Some(failure) => {
                body.append("\n## Failure\n\n");
                let text = escape_markdown(failure.as_str());
                body.append(text.as_str());
                body.append("\n");
            },
            None => {},
        }
        assert(body@ == sections + failure_section(self.failure));
        body.append(
            "\n> Privacy note: this card contains checksums, counts, timings, and states only. Command output and restored records are intentionally omitted.\n",
        );
        assert(body@ =~= card_markdown(*self));
        body
    }
}

// ---------------------------------------------------------------------------
// Signing keys
// ---------------------------------------------------------------------------
/// An Ed25519 signing key, held as its 32-byte secret.
pub struct SigningKey {
    secret: [u8; 32],
}

impl SigningKey {
    /// The 32 secret bytes of the key.
    pub closed spec fn secret_bytes(&self) -> Seq<u8> {
        self.secret@
    }

    /// The key whose secret is `secret`.
    pub fn from_bytes(secret: &[u8; 32]) -> (r: SigningKey)
        ensures
            r.secret_bytes() == secret@,
    {
        SigningKey { secret: *secret }
    }

    /// The 32 secret bytes of the key.
    pub fn to_bytes(&self) -> (r: [u8; 32])
        ensures
            r@ == self.secret_bytes(),
    {
        self.secret
    }
}

/// The first part of a signing key file's text, before the Base64 secret.
pub open spec fn key_file_prefix() -> Seq<char> {
    "rrc-ed25519-v1:"@
}

/// What a signing key file's text holds: the 32 secret bytes, or the message
/// naming what is wrong with it.
pub open spec fn signing_key_parse(source: Seq<char>) -> Result<Seq<u8>, Seq<char>> {
    let text = trim(source);
    if !starts_with(text, key_file_prefix()) {
        Err("unsupported signing key format"@)
    } else {
        match base64_decoding(text.skip(key_file_prefix().len() as int)) {
            None => Err("invalid signing key encoding"@),
            Some(bytes) => if bytes.len() != 32 {
                Err("signing key must contain 32 bytes"@)
            } else {
                Ok(bytes)
            },
        }
    }
}

/// The outcome of loading the key file at `path`, given what reading it gave.
pub open spec fn signing_key_outcome(path: Seq<char>, read: Result<String, String>) -> Result<
    Seq<u8>,
    Seq<char>,
> {
    match read {
        Err(e) => Err("could not read signing key "@ + path + ": "@ + e@),
        Ok(source) => signing_key_parse(source@),
    }
}

/// Loads the signing key stored at `path`, from the result of reading that file.
pub fn read_signing_key(path: &str, read: &Result<String, String>) -> (r: Result<SigningKey, String>)
    ensures
        match r {
            Ok(key) => signing_key_outcome(path@, *read) == Ok::<Seq<u8>, Seq<char>>(key.secret_bytes()),
            Err(e) => signing_key_outcome(path@, *read) == Err::<Seq<u8>, Seq<char>>(e@),
        },
{
    match read {
        Err(e) => {
            let mut message = String::from_str("could not read signing key ");
            message.append(path);
            message.append(": ");
            message.append(e.as_str());
            Err(message)
        },
        Ok(source) => parse_signing_key(source.as_str()),
    }
}

/// Parses the text of a signing key file.
pub fn parse_signing_key(source: &str) -> (r: Result<SigningKey, String>)
    ensures
        match r {
            Ok(key) => signing_key_parse(source@) == Ok::<Seq<u8>, Seq<char>>(key.secret_bytes()),
            Err(e) => signing_key_parse(source@) == Err::<Seq<u8>, Seq<char>>(e@),
        },
{
    let all = chars_of(source);
    let text = trim_chars(&all);
    let prefix = chars_of("rrc-ed25519-v1:");
    if !starts_with_chars(&text, &prefix) {
        return Err(String::from_str("unsupported signing key format"));
    }
    let encoded = slice_string(&text, prefix.len(), text.len());
    assert(encoded@ == trim(source@).skip(key_file_prefix().len() as int));
    match base64_decode(encoded.as_str()) {
        None => Err(String::from_str("invalid signing key encoding")),
        Some(bytes) => {
            if bytes.len() != 32 {
                return Err(String::from_str("signing key must contain 32 bytes"));
            }
            let mut secret = [0u8; 32];
            for i in 0..32
                invariant
                    bytes@.len() == 32,
                    forall|j: int| 0 <= j < i ==> secret@[j] == bytes@[j],
            {
                secret.set(i, bytes[i]);
            }
            assert(secret@ == bytes@);
            Ok(SigningKey { secret })
        },
    }
}

/// The text of a signing key file that holds `secret`.
pub open spec fn key_file_text(secret: Seq<u8>) -> Seq<char> {
    key_file_prefix() + base64_text(secret) + "\n"@
}

proof fn lemma_key_text_trims(encoded: Seq<char>)
    requires
        forall|i: int| 0 <= i < encoded.len() ==> is_base64_char(#[trigger] encoded[i]),
    ensures
        trim(key_file_prefix() + encoded + "\n"@) == key_file_prefix() + encoded,
{
    reveal_strlit("rrc-ed25519-v1:");
    reveal_strlit("\n");
    let body = key_file_prefix() + encoded;
    let s = body + "\n"@;
    assert(s[0] == 'r');
    assert(trim_start(s) == s);
    assert(s.drop_last() =~= body);
    if encoded.len() > 0 {
        assert(body.last() == encoded[encoded.len() - 1]);
        assert(is_base64_char(encoded[encoded.len() - 1]));
    } else {
        assert(body.last() == ':');
    }
    assert(trim_end(body) == body);
}

/// Writes the text of a signing key file holding `key`; reading that text
/// back gives the same key.
pub fn encode_signing_key(key: &SigningKey) -> (r: String)
    ensures
        r@ == key_file_text(key.secret_bytes()),
        signing_key_parse(r@) == Ok::<Seq<u8>, Seq<char>>(key.secret_bytes()),
{
    let encoded = base64_encode(&key.secret);
    let mut r = String::from_str("rrc-ed25519-v1:");
    r.append(encoded.as_str());
    r.append("\n");
    proof {
        lemma_key_text_trims(encoded@);
        let text = key_file_prefix() + encoded@;
        assert(text.subrange(0, key_file_prefix().len() as int) =~= key_file_prefix());
        assert(text.skip(key_file_prefix().len() as int) =~= encoded@);
    }
    r
}

/// Makes the text of a new signing key file from 32 fresh random bytes.
pub fn generate_signing_key() -> (r: Result<String, String>)
    ensures
        r matches Ok(text) ==> (signing_key_parse(text@) matches Ok(secret) && text@ == key_file_text(
            secret,
        )),
        r matches Err(e) ==> starts_with(e@, "could not generate signing key: "@),
{
    match random_secret() {
        Err(e) => {
            let mut m = String::from_str("could not generate signing key: ");
            let ghost prefix = m@;
            m.append(e.as_str());
            assert(m@.subrange(0, prefix.len() as int) =~= prefix);
            Err(m)
        },
        Ok(secret) => {
            let key = SigningKey::from_bytes(&secret);
            Ok(encode_signing_key(&key))
        },
    }
}

// ---------------------------------------------------------------------------
// Signing and verifying
// ---------------------------------------------------------------------------
/// The line that separates a card's body from its signature block.
pub const SIGNATURE_MARKER: &'static str = "\n<!-- rrc-signature\n";

/// The signature block written after the marker.
pub open spec fn signature_block(public: Seq<u8>, signature: Seq<u8>) -> Seq<char> {
    "algorithm: ed25519\npublic-key: "@ + base64_text(public) + "\nsignature: "@ + base64_text(
        signature,
    ) + "\n-->\n"@
}

/// A signed card: the body, the marker, and a block holding the key's public
/// key and its signature of the body's UTF-8 bytes.
pub open spec fn signed_card(card: Card, key: SigningKey) -> Seq<char> {
    let body = card_markdown(card);
    body + SIGNATURE_MARKER@ + signature_block(
        ed25519_public(key.secret_bytes()),
        ed25519_signature(key.secret_bytes(), encode_utf8(body)),
    )
}

impl Card {
    /// The card's Markdown body followed by its Ed25519 signature block.
    pub fn sign(&self, signing_key: &SigningKey) -> (r: String)
        ensures
            r@ == signed_card(*self, *signing_key),
            card_verification(r@) is Ok,
    {
        let body = self.markdown_body();
        let signature = ed25519_sign(&signing_key.secret, body.as_str().as_bytes());
        let public = ed25519_public_key(&signing_key.secret);
        let mut r = String::from_str(body.as_str());
        r.append(SIGNATURE_MARKER);
        r.append("algorithm: ed25519\npublic-key: ");
        let public_text = base64_encode(&public);
        r.append(public_text.as_str());
        r.append("\nsignature: ");
        let signature_text = base64_encode(&signature);
        r.append(signature_text.as_str());
        r.append("\n-->\n");
        proof {
            assert(public@.len() == 32);
            assert(signature@.len() == 64);
            lemma_signature_block_verifies(
                body@,
                public@,
                signature@,
                public_text@,
                signature_text@,
            );
            assert(r@ =~= body@ + SIGNATURE_MARKER@ + filled_block(public_text@, signature_text@));
        }
        r
    }
}

/// The largest index at most `k` where `p` occurs in `s`.
pub open spec fn last_occurrence_from(s: Seq<char>, p: Seq<char>, k: int) -> Option<int>
    decreases k + 1,
{
    if k < 0 {
        None
    } else if occurs_at(s, p, k) {
        Some(k)
    } else {
        last_occurrence_from(s, p, k - 1)
    }
}

/// The index where the last occurrence of `p` in `s` starts, as `str::rsplit_once` finds it.
pub open spec fn last_occurrence(s: Seq<char>, p: Seq<char>) -> Option<int> {
    last_occurrence_from(s, p, s.len() - p.len())
}

/// The index of the first `c` in `s`.
pub open spec fn first_index_of(s: Seq<char>, c: char) -> Option<int>
    decreases s.len(),
{
    if s.len() == 0 {
        None
    } else if s[0] == c {
        Some(0)
    } else {
        match first_index_of(s.drop_first(), c) {
            Some(i) => Some(i + 1),
            None => None,
        }
    }
}

pub proof fn lemma_first_index_of(s: Seq<char>, c: char)
    ensures
        match first_index_of(s, c) {
            Some(i) => 0 <= i < s.len() && s[i] == c && forall|k: int| 0 <= k < i ==> s[k] != c,
            None => forall|k: int| 0 <= k < s.len() ==> s[k] != c,
        },
    decreases s.len(),
{
    if s.len() > 0 {
        lemma_first_index_of(s.drop_first(), c);
        if s[0] != c {
            assert forall|k: int| 1 <= k < s.len() implies s[k] == s.drop_first()[k - 1] by {}
        }
    }
}

/// A line ending in `\r\n` loses its `\r` as well.
pub open spec fn without_cr(line: Seq<char>) -> Seq<char> {
    if line.len() > 0 && line.last() == '\r' {
        line.drop_last()
    } else {
        line
    }
}

/// `str::lines`: the lines of `s`, split at `\n` or `\r\n`, without a last empty line.
pub open spec fn text_lines(s: Seq<char>) -> Seq<Seq<char>>
    decreases s.len(),
{
    if s.len() == 0 {
        Seq::empty()
    } else {
        match first_index_of(s, '\n') {
            Some(i) => {
                proof {
                    lemma_first_index_of(s, '\n');
                }
                seq![without_cr(s.take(i))] + text_lines(s.skip(i + 1))
            },
            None => seq![s],
        }
    }
}

/// The rest of the first line that starts with `name: `.
pub open spec fn field_value(lines: Seq<Seq<char>>, name: Seq<char>) -> Option<Seq<char>>
    decreases lines.len(),
{
    if lines.len() == 0 {
        None
    } else if starts_with(lines[0], name + ": "@) {
        Some(lines[0].skip((name + ": "@).len() as int))
    } else {
        field_value(lines.drop_first(), name)
    }
}

/// The signature block without its closing `-->`, if it has one.
pub open spec fn closed_block(block: Seq<char>) -> Option<Seq<char>> {
    if ends_with(block, "-->\n"@) {
        Some(block.take(block.len() - "-->\n"@.len()))
    } else if ends_with(block, "-->"@) {
        Some(block.take(block.len() - "-->"@.len()))
    } else {
        None
    }
}

/// The checks on the fields of a signature block, in order, against the body it signs.
pub open spec fn block_verification(body: Seq<char>, lines: Seq<Seq<char>>) -> Result<(), Seq<char>> {
    match field_value(lines, "algorithm"@) {
        None => Err("signature block is missing "@ + "algorithm"@),
        Some(algorithm) => if algorithm != "ed25519"@ {
            Err("unsupported signature algorithm"@)
        } else {
            match field_value(lines, "public-key"@) {
                None => Err("signature block is missing "@ + "public-key"@),
                Some(public_text) => match base64_decoding(public_text) {
                    None => Err("invalid public key encoding"@),
                    Some(public) => if public.len() != 32 {
                        Err("public key must contain 32 bytes"@)
                    } else {
                        match field_value(lines, "signature"@) {
                            None => Err("signature block is missing "@ + "signature"@),
                            Some(signature_text) => match base64_decoding(signature_text) {
                                None => Err("invalid signature encoding"@),
                                Some(signature) => if signature.len() != 64 {
                                    Err("signature must contain 64 bytes"@)
                                } else if !ed25519_point_valid(public) {
                                    Err("invalid public key"@)
                                } else if !ed25519_accepts(public, encode_utf8(body), signature) {
                                    Err("card signature is invalid"@)
                                } else {
                                    Ok(())
                                },
                            },
                        }
                    },
                },
            }
        },
    }
}

/// The outcome of verifying a signed card's text.
pub open spec fn card_verification(source: Seq<char>) -> Result<(), Seq<char>> {
    match last_occurrence(source, SIGNATURE_MARKER@) {
        None => Err("card has no rrc signature block"@),
        Some(i) => match closed_block(source.skip(i + SIGNATURE_MARKER@.len())) {
            None => Err("signature block is not closed"@),
            Some(block) => block_verification(source.take(i), text_lines(block)),
        },
    }
}

fn find_last(s: &[char], p: &[char]) -> (r: Option<usize>)
    ensures
        match r {
            Some(i) => last_occurrence(s@, p@) == Some(i as int),
            None => last_occurrence(s@, p@) is None,
        },
{
    if p.len() > s.len() {
        assert(last_occurrence(s@, p@) is None);
        return None;
    }
    let last = s.len() - p.len();
    let mut k = last;
    loop
        invariant
            k <= last == s@.len() - p@.len(),
            last_occurrence(s@, p@) == last_occurrence_from(s@, p@, k as int),
        decreases k,
    {
        if matches_at(s, p, k) {
            return Some(k);
        }
        if k == 0 {
            assert(last_occurrence_from(s@, p@, -1) is None);
            return None;
        }
        k = k - 1;
    }
}

/// The rest of the first line of `block` that starts with `name: `.
fn field_of(block: &[char], name: &str) -> (r: Option<Vec<char>>)
    ensures
        match r {
            Some(v) => field_value(text_lines(block@), name@) == Some(v@),
            None => field_value(text_lines(block@), name@) is None,
        },
{
    let mut prefix = chars_of(name);
    prefix.push(':');
    prefix.push(' ');
    proof {
        reveal_strlit(": ");
        assert(prefix@ == name@ + ": "@);
    }
    let n = block.len();
    let mut pos: usize = 0;
    assert(block@.skip(0) == block@);
    while pos < n
        invariant
            pos <= n == block@.len(),
            prefix@ == name@ + ": "@,
            field_value(text_lines(block@), name@) == field_value(
                text_lines(block@.skip(pos as int)),
                name@,
            ),
        decreases n - pos,
    {
        let ghost rest = block@.skip(pos as int);
        let mut j = pos;
        while j < n && block[j] != '\n'
            invariant
                pos <= j <= n == block@.len(),
                rest == block@.skip(pos as int),
                forall|k: int| pos <= k < j ==> block@[k] != '\n',
            decreases n - j,
        {
            j = j + 1;
        }
        proof {
            lemma_first_index_of(rest, '\n');
            assert forall|k: int| 0 <= k < rest.len() implies rest[k] == block@[pos + k] by {}
            if j < n {
                assert(rest[j - pos] == '\n');
            }
        }
        let mut end = j;
        if end > pos && block[end - 1] == '\r' && j < n {
            end = end - 1;
        }
        let mut line: Vec<char> = Vec::new();
        let mut k = pos;
        while k < end
            invariant
                pos <= k <= end <= n == block@.len(),
                line@ == block@.subrange(pos as int, k as int),
            decreases end - k,
        {
            line.push(block[k]);
            assert(block@.subrange(pos as int, k + 1) == block@.subrange(pos as int, k as int).push(
                block@[k as int],
            ));
            k = k + 1;
        }
        proof {
            if j < n {
                assert(first_index_of(rest, '\n') == Some((j - pos) as int));
                assert(rest.take(j - pos) == block@.subrange(pos as int, j as int));
                assert(rest.skip(j - pos + 1) == block@.skip(j + 1));
                assert(line@ == without_cr(rest.take(j - pos)));
                assert(text_lines(rest) == seq![line@] + text_lines(block@.skip(j + 1)));
            } else {
                assert(first_index_of(rest, '\n') is None);
                assert(rest == block@.subrange(pos as int, n as int));
                assert(text_lines(rest) == seq![line@]);
            }
            assert((seq![line@] + text_lines(block@.skip(j + 1))).drop_first() == text_lines(
                block@.skip(j + 1),
            ));
        }
        if starts_with_chars(&line, &prefix) {
            let mut value: Vec<char> = Vec::new();
            let m = line.len();
            let mut t = prefix.len();
            while t < m
                invariant
                    prefix@.len() <= t <= m == line@.len(),
                    value@ == line@.subrange(prefix@.len() as int, t as int),
                decreases m - t,
            {
                value.push(line[t]);
                assert(line@.subrange(prefix@.len() as int, t + 1) == line@.subrange(
                    prefix@.len() as int,
                    t as int,
                ).push(line@[t as int]));
                t = t + 1;
            }
            assert(value@ == line@.skip(prefix@.len() as int));
            return Some(value);
        }
        if j >= n {
            proof {
                assert(text_lines(rest) == seq![line@]);
                assert(text_lines(rest).drop_first() == Seq::<Seq<char>>::empty());
                assert(!starts_with(text_lines(rest)[0], name@ + ": "@));
                assert(field_value(text_lines(rest).drop_first(), name@) is None);
                assert(field_value(text_lines(rest), name@) is None);
            }
            return None;
        }
        pos = j + 1;
    }
    assert(block@.skip(n as int) == Seq::<char>::empty());
    None
}

fn bytes32(v: &Vec<u8>) -> (r: [u8; 32])
    requires
        v@.len() == 32,
    ensures
        r@ == v@,
{
    let mut r = [0u8; 32];
    for i in 0..32
        invariant
            v@.len() == 32,
            forall|j: int| 0 <= j < i ==> r@[j] == v@[j],
    {
        r.set(i, v[i]);
    }
    assert(r@ == v@);
    r
}

fn bytes64(v: &Vec<u8>) -> (r: [u8; 64])
    requires
        v@.len() == 64,
    ensures
        r@ == v@,
{
    let mut r = [0u8; 64];
    for i in 0..64
        invariant
            v@.len() == 64,
            forall|j: int| 0 <= j < i ==> r@[j] == v@[j],
    {
        r.set(i, v[i]);
    }
    assert(r@ == v@);
    r
}

fn missing_field(name: &str) -> (r: String)
    ensures
        r@ == "signature block is missing "@ + name@,
{
    let mut message = String::from_str("signature block is missing ");
    message.append(name);
    message
}

fn verify_block(body: &str, block: &[char]) -> (r: Result<(), String>)
    ensures
        r is Ok <==> block_verification(body@, text_lines(block@)) is Ok,
        r matches Err(e) ==> block_verification(body@, text_lines(block@)) == Err::<(), Seq<
            char,
        >>(e@),
{
    let algorithm = match field_of(block, "algorithm") {
        None => return Err(missing_field("algorithm")),
        Some(v) => v,
    };
    let expected = chars_of("ed25519");
    if !same_chars(&algorithm, &expected) {
        return Err(String::from_str("unsupported signature algorithm"));
    }
    let public_text = match field_of(block, "public-key") {
        None => return Err(missing_field("public-key")),
        Some(v) => string_of(&v),
    };
    let public = match base64_decode(public_text.as_str()) {
        None => return Err(String::from_str("invalid public key encoding")),
        Some(bytes) => bytes,
    };
    if public.len() != 32 {
        return Err(String::from_str("public key must contain 32 bytes"));
    }
    let signature_text = match field_of(block, "signature") {
        None => return Err(missing_field("signature")),
        Some(v) => string_of(&v),
    };
    let signature = match base64_decode(signature_text.as_str()) {
        None => return Err(String::from_str("invalid signature encoding")),
        Some(bytes) => bytes,
    };
    if signature.len() != 64 {
        return Err(String::from_str("signature must contain 64 bytes"));
    }
    let public_key = bytes32(&public);
    let signature_bytes = bytes64(&signature);
    if !ed25519_key_valid(&public_key) {
        return Err(String::from_str("invalid public key"));
    }
    if !ed25519_verify(&public_key, body.as_bytes(), &signature_bytes) {
        return Err(String::from_str("card signature is invalid"));
    }
    Ok(())
}

/// Checks the Ed25519 signature embedded in a signed card against the card's
/// body, using the public key the card carries.
pub fn verify_card(source: &str) -> (r: Result<(), String>)
    ensures
        r is Ok <==> card_verification(source@) is Ok,
        r matches Err(e) ==> card_verification(source@) == Err::<(), Seq<char>>(e@),
{
    let chars = chars_of(source);
    let marker = chars_of(SIGNATURE_MARKER);
    let at = match find_last(&chars, &marker) {
        None => return Err(String::from_str("card has no rrc signature block")),
        Some(i) => i,
    };
    proof {
        assert(occurs_at(chars@, marker@, at as int)) by {
            lemma_last_occurrence_found(chars@, marker@, chars@.len() - marker@.len());
        }
    }
    let total = chars.len();
    assert(at + marker@.len() <= total);
    let block = sub_chars(&chars, at + marker.len(), total);
    assert(block@ == source@.skip(at + SIGNATURE_MARKER@.len()));
    let body = slice_string(&chars, 0, at);
    assert(body@ == source@.take(at as int));
    let closing_newline = chars_of("-->\n");
    let closing = chars_of("-->");
    let inner = if ends_with_chars(&block, &closing_newline) {
        sub_chars(&block, 0, block.len() - closing_newline.len())
    } else if ends_with_chars(&block, &closing) {
        sub_chars(&block, 0, block.len() - closing.len())
    } else {
        return Err(String::from_str("signature block is not closed"));
    };
    verify_block(body.as_str(), &inner)
}

/// Where `last_occurrence_from` finds something, `p` occurs there.
pub proof fn lemma_last_occurrence_found(s: Seq<char>, p: Seq<char>, k: int)
    ensures
        last_occurrence_from(s, p, k) matches Some(i) ==> occurs_at(s, p, i) && i <= k,
    decreases k + 1,
{
    if k >= 0 && !occurs_at(s, p, k) {
        lemma_last_occurrence_found(s, p, k - 1);
    }
}

// ---------------------------------------------------------------------------
// Why a freshly signed card verifies
// ---------------------------------------------------------------------------
/// `c` is none of the characters `avoid` lists.
pub open spec fn avoids(s: Seq<char>, c: char) -> bool {
    forall|k: int| 0 <= k < s.len() ==> s[k] != c
}

proof fn lemma_base64_avoids(t: Seq<char>)
    requires
        forall|i: int| 0 <= i < t.len() ==> is_base64_char(#[trigger] t[i]),
    ensures
        avoids(t, '<'),
        avoids(t, '\n'),
        avoids(t, '\r'),
{
    assert forall|k: int| 0 <= k < t.len() implies t[k] != '<' && t[k] != '\n' && t[k] != '\r' by {
        assert(is_base64_char(t[k]));
    }
}

proof fn lemma_avoids_concat(a: Seq<char>, b: Seq<char>, c: char)
    requires
        avoids(a, c),
        avoids(b, c),
    ensures
        avoids(a + b, c),
{
    assert forall|k: int| 0 <= k < (a + b).len() implies (a + b)[k] != c by {
        if k < a.len() {
            assert((a + b)[k] == a[k]);
        } else {
            assert((a + b)[k] == b[k - a.len()]);
        }
    }
}

proof fn lemma_last_occurrence_is(s: Seq<char>, p: Seq<char>, b: int, k: int)
    requires
        0 <= b <= k,
        occurs_at(s, p, b),
        forall|j: int| b < j <= k ==> !occurs_at(s, p, j),
    ensures
        last_occurrence_from(s, p, k) == Some(b),
    decreases k,
{
    if k > b {
        lemma_last_occurrence_is(s, p, b, k - 1);
    }
}

proof fn lemma_lines_cons(a: Seq<char>, rest: Seq<char>)
    requires
        avoids(a, '\n'),
        a.len() == 0 || a.last() != '\r',
    ensures
        text_lines(a + seq!['\n'] + rest) == seq![a] + text_lines(rest),
{
    let s = a + seq!['\n'] + rest;
    lemma_first_index_of(s, '\n');
    assert(s[a.len() as int] == '\n');
    assert forall|k: int| 0 <= k < a.len() implies s[k] != '\n' by {
        assert(s[k] == a[k]);
    }
    assert(first_index_of(s, '\n') == Some(a.len() as int));
    assert(s.take(a.len() as int) == a);
    assert(s.skip(a.len() as int + 1) == rest);
}

/// The block of a signed card, with the two Base64 fields filled in.
pub open spec fn filled_block(public_text: Seq<char>, signature_text: Seq<char>) -> Seq<char> {
    "algorithm: ed25519\npublic-key: "@ + public_text + "\nsignature: "@ + signature_text
        + "\n-->\n"@
}

proof fn lemma_marker_shape()
    ensures
        SIGNATURE_MARKER@.len() == 20,
        SIGNATURE_MARKER@[1] == '<',
        forall|k: int| 2 <= k < 20 ==> SIGNATURE_MARKER@[k] != '<',
{
    reveal_strlit("\n<!-- rrc-signature\n");
}

proof fn lemma_marker_position(body: Seq<char>, block: Seq<char>)
    requires
        avoids(block, '<'),
    ensures
        last_occurrence(body + SIGNATURE_MARKER@ + block, SIGNATURE_MARKER@) == Some(
            body.len() as int,
        ),
        (body + SIGNATURE_MARKER@ + block).skip(body.len() + SIGNATURE_MARKER@.len() as int) == block,
        (body + SIGNATURE_MARKER@ + block).take(body.len() as int) == body,
{
    lemma_marker_shape();
    let marker = SIGNATURE_MARKER@;
    let source = body + marker + block;
    let b = body.len() as int;
    let m = marker.len() as int;
    assert(source.subrange(b, b + m) =~= marker);
    assert forall|x: int| b + 2 <= x < source.len() implies source[x] != '<' by {
        if x < b + m {
            assert(source[x] == marker[x - b]);
        } else {
            assert(source[x] == block[x - b - m]);
        }
    }
    assert forall|j: int| b < j <= source.len() - m implies !occurs_at(source, marker, j) by {
        if occurs_at(source, marker, j) {
            assert(source.subrange(j, j + m)[1] == source[j + 1]);
        }
    }
    lemma_last_occurrence_is(source, marker, b, source.len() - m);
    assert(source.skip(b + m) =~= block);
    assert(source.take(b) =~= body);
}

proof fn lemma_filled_block_avoids_lt(public_text: Seq<char>, signature_text: Seq<char>)
    requires
        avoids(public_text, '<'),
        avoids(signature_text, '<'),
    ensures
        avoids(filled_block(public_text, signature_text), '<'),
{
    reveal_strlit("algorithm: ed25519\npublic-key: ");
    reveal_strlit("\nsignature: ");
    reveal_strlit("\n-->\n");
    let head = "algorithm: ed25519\npublic-key: "@;
    let middle = "\nsignature: "@;
    let tail = "\n-->\n"@;
    assert(avoids(head, '<'));
    assert(avoids(middle, '<'));
    assert(avoids(tail, '<'));
    lemma_avoids_concat(head, public_text, '<');
    lemma_avoids_concat(head + public_text, middle, '<');
    lemma_avoids_concat(head + public_text + middle, signature_text, '<');
    lemma_avoids_concat(head + public_text + middle + signature_text, tail, '<');
}

proof fn lemma_filled_block_lines(public_text: Seq<char>, signature_text: Seq<char>)
    requires
        avoids(public_text, '\n'),
        avoids(public_text, '\r'),
        avoids(signature_text, '\n'),
        avoids(signature_text, '\r'),
    ensures
        closed_block(filled_block(public_text, signature_text)) matches Some(inner) && text_lines(
            inner,
        ) == seq!["algorithm: ed25519"@, "public-key: "@ + public_text, "signature: "@ + signature_text],
{
    reveal_strlit("algorithm: ed25519\npublic-key: ");
    reveal_strlit("\nsignature: ");
    reveal_strlit("\n-->\n");
    reveal_strlit("-->\n");
    reveal_strlit("algorithm: ed25519");
    reveal_strlit("public-key: ");
    reveal_strlit("signature: ");
    let block = filled_block(public_text, signature_text);
    let tail = "\n-->\n"@;
    assert(block.subrange(block.len() - 4, block.len() as int) =~= tail.subrange(1, 5));
    assert(tail.subrange(1, 5) =~= "-->\n"@);
    assert(ends_with(block, "-->\n"@));
    let inner = block.take(block.len() - 4);
    let algorithm_line = "algorithm: ed25519"@;
    let public_line = "public-key: "@ + public_text;
    let signature_line = "signature: "@ + signature_text;
    assert(inner == algorithm_line + seq!['\n'] + (public_line + seq!['\n'] + (signature_line
        + seq!['\n'] + Seq::<char>::empty())));
    assert(avoids(algorithm_line, '\n'));
    assert(avoids("public-key: "@, '\n'));
    assert(avoids("signature: "@, '\n'));
    lemma_avoids_concat("public-key: "@, public_text, '\n');
    lemma_avoids_concat("signature: "@, signature_text, '\n');
    if public_text.len() > 0 {
        assert(public_line.last() == public_text.last());
    }
    if signature_text.len() > 0 {
        assert(signature_line.last() == signature_text.last());
    }
    lemma_lines_cons(signature_line, Seq::<char>::empty());
    lemma_lines_cons(public_line, signature_line + seq!['\n'] + Seq::<char>::empty());
    lemma_lines_cons(
        algorithm_line,
        public_line + seq!['\n'] + (signature_line + seq!['\n'] + Seq::<char>::empty()),
    );
}

proof fn lemma_filled_fields(public_text: Seq<char>, signature_text: Seq<char>)
    ensures
        ({
            let lines = seq![
                "algorithm: ed25519"@,
                "public-key: "@ + public_text,
                "signature: "@ + signature_text,
            ];
            &&& field_value(lines, "algorithm"@) == Some("ed25519"@)
            &&& field_value(lines, "public-key"@) == Some(public_text)
            &&& field_value(lines, "signature"@) == Some(signature_text)
        }),
{
    reveal_strlit("algorithm: ed25519");
    reveal_strlit("public-key: ");
    reveal_strlit("signature: ");
    reveal_strlit("algorithm");
    reveal_strlit("public-key");
    reveal_strlit("signature");
    reveal_strlit(": ");
    reveal_strlit("ed25519");
    let algorithm_line = "algorithm: ed25519"@;
    let public_line = "public-key: "@ + public_text;
    let signature_line = "signature: "@ + signature_text;
    let lines = seq![algorithm_line, public_line, signature_line];
    assert("algorithm"@ + ": "@ =~= seq!['a', 'l', 'g', 'o', 'r', 'i', 't', 'h', 'm', ':', ' ']);
    assert(algorithm_line.subrange(0, 11) =~= seq![
        'a', 'l', 'g', 'o', 'r', 'i', 't', 'h', 'm', ':', ' ',
    ]);
    assert(starts_with(algorithm_line, "algorithm"@ + ": "@));
    assert(algorithm_line.skip(("algorithm"@ + ": "@).len() as int) == "ed25519"@);
    assert(!starts_with(algorithm_line, "public-key"@ + ": "@)) by {
        assert(algorithm_line[0] != ("public-key"@ + ": "@)[0]);
    }
    assert(lines.drop_first() == seq![public_line, signature_line]);
    assert("public-key"@ + ": "@ =~= "public-key: "@);
    assert(public_line.subrange(0, 12) =~= "public-key: "@);
    assert(starts_with(public_line, "public-key"@ + ": "@));
    assert(public_line.skip(("public-key"@ + ": "@).len() as int) == public_text);
    assert(!starts_with(algorithm_line, "signature"@ + ": "@)) by {
        assert(algorithm_line[0] != ("signature"@ + ": "@)[0]);
    }
    assert(!starts_with(public_line, "signature"@ + ": "@)) by {
        assert(public_line[0] != ("signature"@ + ": "@)[0]);
    }
    assert(lines.drop_first().drop_first() == seq![signature_line]);
    assert("signature"@ + ": "@ =~= "signature: "@);
    assert(signature_line.subrange(0, 11) =~= "signature: "@);
    assert(starts_with(signature_line, "signature"@ + ": "@));
    assert(signature_line.skip(("signature"@ + ": "@).len() as int) == signature_text);
    assert(field_value(lines, "algorithm"@) == Some("ed25519"@));
    assert(field_value(lines.drop_first(), "public-key"@) == Some(public_text));
    assert(field_value(lines, "public-key"@) == Some(public_text));
    assert(field_value(lines.drop_first().drop_first(), "signature"@) == Some(signature_text));
    assert(field_value(lines.drop_first(), "signature"@) == Some(signature_text));
    assert(field_value(lines, "signature"@) == Some(signature_text));
}

proof fn lemma_signature_block_verifies(
    body: Seq<char>,
    public: Seq<u8>,
    signature: Seq<u8>,
    public_text: Seq<char>,
    signature_text: Seq<char>,
)
    requires
        forall|i: int| 0 <= i < public_text.len() ==> is_base64_char(#[trigger] public_text[i]),
        forall|i: int| 0 <= i < signature_text.len() ==> is_base64_char(
            #[trigger] signature_text[i],
        ),
        base64_decoding(public_text) == Some(public),
        base64_decoding(signature_text) == Some(signature),
        public.len() == 32,
        signature.len() == 64,
        ed25519_point_valid(public),
        ed25519_accepts(public, encode_utf8(body), signature),
    ensures
        card_verification(body + SIGNATURE_MARKER@ + filled_block(public_text, signature_text))
            is Ok,
{
    reveal_strlit("ed25519");
    lemma_base64_avoids(public_text);
    lemma_base64_avoids(signature_text);
    lemma_filled_block_avoids_lt(public_text, signature_text);
    let block = filled_block(public_text, signature_text);
    lemma_marker_position(body, block);
    lemma_filled_block_lines(public_text, signature_text);
    lemma_filled_fields(public_text, signature_text);
}


/// The RTO column of the card's header says `met` exactly when the duration
/// is at most the objective, and `missed` otherwise, whether or not the card
/// passed: the header ends with that word, the start and finish instants and
/// the report format, and the card's text begins with the header.
pub proof fn lemma_header_reports_rto(card: Card)
    ensures
        ({
            let word = if card.duration_ms <= card.rto_seconds * 1000 {
                "met"@
            } else {
                "missed"@
            };
            ends_with(
                card_header(card),
                " s | "@ + word + " |\n\n- Started: `"@ + card.started_at@ + "`\n- Finished: `"@
                    + card.finished_at@ + "`\n- Report format: `rrc/v1`\n\n"@,
            )
        }),
        starts_with(card_markdown(card), card_header(card)),
{
    let word = if card.duration_ms <= card.rto_seconds * 1000 {
        "met"@
    } else {
        "missed"@
    };
    let tail = " s | "@ + word + " |\n\n- Started: `"@ + card.started_at@ + "`\n- Finished: `"@
        + card.finished_at@ + "`\n- Report format: `rrc/v1`\n\n"@;
    let h = card_header(card);
    let head = "# Restore rehearsal card\n\n**"@ + escaped_markdown(card.rehearsal@) + "** · `"@
        + card.target@
        + "`\n\n| Result | Observed | RTO objective | RTO |\n| --- | ---: | ---: | --- |\n| **"@ + (
    if card.passed {
        "PASSED"@
    } else {
        "FAILED"@
    }) + "** | "@ + seconds_text(card.duration_ms as nat) + " s | "@ + decimal(
        card.rto_seconds as nat,
    );
    assert(h =~= head + tail);
    assert(h.subrange(h.len() - tail.len(), h.len() as int) =~= tail);
    let m = card_markdown(card);
    assert(m.subrange(0, h.len() as int) =~= h);
}

} // verus!
