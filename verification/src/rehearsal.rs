//! A rehearsal from start to card: the order in which it runs the preflight,
//! the hashing, the steps, the checks and the teardown, what it records of
//! each, and the signed card it ends with. The caller performs each action
//! and reports what it gave; nothing here starts a process or touches a file.
use vstd::prelude::*;
use vstd::string::StringExecFns;
use crate::config::{check_timeout, outcome, step_timeout, Check, Manifest, Step};
use crate::crypto::{
    hex_string, lower_hex, sha256_absorbed, sha256_digest, sha256_finish, sha256_start,
    sha256_update, Sha256Stream,
};
use crate::paths::{base_of, join_path, joined_path, manifest_base};
use crate::report::{
    artifact_rows, card_header, card_markdown, evidence_rows, failure_section, card_verification, push_seconds, read_signing_key, seconds_text, signed_card,
    signing_key_outcome, within_rto, ArtifactEvidence, Card, Evidence, SigningKey,
};
use crate::runner::{
    check_args, check_command, command_args, check_kind, check_kind_text, check_outcome, cleanup,
    cleanup_args, cleanup_command, cleanup_failure, docker, health_container,
    health_container_outcome, health_outcome, inspect_args, inspect_command, preflight_args,
    preflight_command, preflight_compose, preflight_issue, printed_model, alike,
    lemma_alike_outcomes_judged_alike, run_check, run_step, same_text,
    step_args, step_command, step_kind, step_kind_text, step_outcome, CommandOutput, CommandSpec,
};
use crate::text::{decimal, push_decimal};

verus! {

// ---------------------------------------------------------------------------
// The rehearsal
// ---------------------------------------------------------------------------
/// How a rehearsal is started.
#[derive(Debug, Clone)]
pub struct RunOptions {
    pub manifest_path: String,
    pub confirm_target: String,
    pub output_path: String,
    pub keep_target: bool,
}

/// What a finished rehearsal reports.
#[derive(Debug)]
pub struct RunResult {
    pub passed: bool,
    pub card: String,
    pub target: String,
    pub duration_ms: u128,
    pub rto_met: bool,
}

/// Where a rehearsal stands.
#[derive(Debug)]
pub enum Stage {
    /// Waiting for `docker compose config` to vet the target.
    Preflight,
    /// Waiting for the declared artifacts to be hashed.
    Hashing,
    /// Waiting for the command of step `next`.
    Steps { next: usize },
    /// Waiting for the first command of check `next`.
    Checks { next: usize },
    /// Waiting for the `inspect` of the container that health check `check`
    /// found, whose `ps` took `ps_ms` milliseconds.
    Inspect { check: usize, container: String, ps_ms: u128 },
    /// Waiting for `docker compose down`.
    Cleanup,
    /// Everything has run; the card can be written.
    Done,
}

/// What the caller should do next.
#[derive(Debug)]
pub enum Action {
    /// Run the preflight command, parse its stdout as JSON, and report both
    /// to `Rehearsal::preflight`.
    Preflight(CommandSpec),
    /// Hash the declared artifacts and report them to `Rehearsal::record_artifacts`.
    HashArtifacts,
    /// Run the command and report what it gave to `Rehearsal::advance`.
    Execute(CommandSpec),
    /// Call `Rehearsal::finish`.
    Finish,
}

/// `e` records an item with this ID and kind, this outcome and this duration.
pub open spec fn recorded(
    e: Evidence,
    id: Seq<char>,
    kind: Seq<char>,
    result: Result<Seq<char>, Seq<char>>,
    ms: u128,
) -> bool {
    &&& e.id@ == id
    &&& e.kind@ == kind
    &&& e.duration_ms == ms
    &&& match result {
        Ok(detail) => e.passed && e.detail@ == detail,
        Err(error) => !e.passed && e.detail@ == error,
    }
}

/// The entries `0..k` record steps `0..k`, in order.
pub open spec fn steps_recorded(steps: Seq<Step>, ev: Seq<Evidence>, k: int) -> bool {
    forall|i: int|
        0 <= i < k ==> (#[trigger] ev[i]).id@ == steps[i].spec_id() && ev[i].kind@
            == step_kind_text(steps[i])
}

/// The `n` entries from `from` on record checks `0..n`, in order.
pub open spec fn checks_recorded(checks: Seq<Check>, ev: Seq<Evidence>, from: int, n: int) -> bool {
    forall|j: int|
        0 <= j < n ==> (#[trigger] ev[from + j]).id@ == checks[j].spec_id() && ev[from + j].kind@
            == check_kind_text(checks[j])
}

/// Every entry in `from..to` passed.
pub open spec fn all_passed(ev: Seq<Evidence>, from: int, to: int) -> bool {
    forall|i: int| from <= i < to ==> (#[trigger] ev[i]).passed
}

/// The failure the checks recorded in `from..to` report: the last failed one.
pub open spec fn check_failure(ev: Seq<Evidence>, from: int, to: int) -> Option<Seq<char>>
    decreases to - from,
{
    if to <= from {
        None
    } else if !ev[to - 1].passed {
        Some("check `"@ + ev[to - 1].id@ + "` failed: "@ + ev[to - 1].detail@)
    } else {
        check_failure(ev, from, to - 1)
    }
}

/// The failure that steps and checks report, where the first `k` entries are
/// steps: a failed step, else the last failed check.
pub open spec fn body_failure(ev: Seq<Evidence>, k: int) -> Option<Seq<char>> {
    if k > 0 && !ev[k - 1].passed {
        Some("step `"@ + ev[k - 1].id@ + "` failed: "@ + ev[k - 1].detail@)
    } else {
        check_failure(ev, k, ev.len() as int)
    }
}

/// The steps and checks of a rehearsal are over, with `k` steps recorded:
/// either step `k - 1` failed, after all before it passed, and no check ran;
/// or every step passed and every check ran.
pub open spec fn body_complete(m: Manifest, ev: Seq<Evidence>, k: int) -> bool {
    ||| 1 <= k <= m.steps@.len() && ev.len() == k && all_passed(ev, 0, k - 1) && !ev[k - 1].passed
    ||| k == m.steps@.len() && all_passed(ev, 0, k) && ev.len() == k + m.checks@.len()
        && checks_recorded(m.checks@, ev, k, m.checks@.len() as int)
}

/// The entry recording a failed teardown.
pub open spec fn cleanup_entry(e: Evidence) -> bool {
    e.id@ == "cleanup"@ && e.kind@ == "compose-down"@ && !e.passed && e.duration_ms == 0
}

/// The failure a rehearsal reports before its RTO is judged, from its
/// evidence, where the first `k` entries are steps.
pub open spec fn run_failure(m: Manifest, ev: Seq<Evidence>, k: int) -> Option<Seq<char>> {
    if body_complete(m, ev, k) {
        body_failure(ev, k)
    } else {
        match body_failure(ev.drop_last(), k) {
            Some(f) => Some(f),
            None => Some("cleanup failed: "@ + ev.last().detail@),
        }
    }
}

/// The text of an optional message.
pub open spec fn message(m: Option<String>) -> Option<Seq<char>> {
    match m {
        Some(s) => Some(s@),
        None => None,
    }
}

/// The stage a rehearsal moves on to: past the end of the steps come the
/// checks, past the end of the checks the teardown, and a kept target needs
/// no teardown.
pub open spec fn settled(m: Manifest, keep: bool, stage: Stage) -> Stage {
    let after_checks = if keep {
        Stage::Done
    } else {
        Stage::Cleanup
    };
    match stage {
        Stage::Steps { next } => if next >= m.steps@.len() {
            if m.checks@.len() == 0 {
                after_checks
            } else {
                Stage::Checks { next: 0 }
            }
        } else {
            stage
        },
        Stage::Checks { next } => if next >= m.checks@.len() {
            after_checks
        } else {
            stage
        },
        Stage::Cleanup => after_checks,
        _ => stage,
    }
}

/// `artifacts` hold one entry per declared artifact of `m`, in order, under
/// the same IDs.
pub open spec fn artifacts_match(m: Manifest, artifacts: Seq<ArtifactEvidence>) -> bool {
    &&& artifacts.len() == m.artifacts@.len()
    &&& forall|i: int| 0 <= i < artifacts.len() ==> (#[trigger] artifacts[i]).id@ == m.artifacts@[i].id@
}

/// A rehearsal in progress: the manifest it runs, where its paths resolve,
/// the key that will sign its card, and what it has recorded so far.
pub struct Rehearsal<'a> {
    manifest: &'a Manifest,
    base: String,
    key: SigningKey,
    output_path: String,
    keep_target: bool,
    stage: Stage,
    artifacts: Vec<ArtifactEvidence>,
    evidence: Vec<Evidence>,
    failure: Option<String>,
    /// How many entries of `evidence` record steps.
    steps_recorded: Ghost<nat>,
    /// The teardown has been judged.
    cleaned: Ghost<bool>,
}

impl<'a> Rehearsal<'a> {
    /// The manifest being rehearsed.
    pub closed spec fn manifest(&self) -> Manifest {
        *self.manifest
    }

    /// The directory its relative paths resolve against.
    pub closed spec fn base(&self) -> Seq<char> {
        self.base@
    }

    /// The key that will sign the card.
    pub closed spec fn key(&self) -> SigningKey {
        self.key
    }

    /// Where the card will be written.
    pub closed spec fn output_path(&self) -> Seq<char> {
        self.output_path@
    }

    /// The target is kept running afterwards.
    pub closed spec fn keep_target(&self) -> bool {
        self.keep_target
    }

    /// Where the rehearsal stands.
    pub closed spec fn stage(&self) -> Stage {
        self.stage
    }

    /// The artifacts hashed so far.
    pub closed spec fn artifacts(&self) -> Seq<ArtifactEvidence> {
        self.artifacts@
    }

    /// The evidence recorded so far.
    pub closed spec fn evidence(&self) -> Seq<Evidence> {
        self.evidence@
    }

    /// The failure recorded so far.
    pub closed spec fn failure(&self) -> Option<Seq<char>> {
        message(self.failure)
    }

    /// How many entries of the evidence record steps.
    pub closed spec fn step_entries(&self) -> nat {
        self.steps_recorded@
    }

    /// The teardown has been judged.
    pub closed spec fn cleaned(&self) -> bool {
        self.cleaned@
    }

    /// The rehearsal's record is consistent with the order in which it runs
    /// things: steps in order until one fails, then, only if all passed, every
    /// check in order, then the teardown unless the target is kept; and its
    /// failure is the one that order reports.
    pub closed spec fn wf(&self) -> bool {
        let m = *self.manifest;
        let ev = self.evidence@;
        let k = self.steps_recorded@ as int;
        let f = message(self.failure);
        &&& k <= m.steps@.len()
        &&& ev.len() >= k
        &&& (self.stage is Preflight || self.stage is Hashing || artifacts_match(m, self.artifacts@))
        &&& steps_recorded(m.steps@, ev, k)
        &&& match self.stage {
            Stage::Preflight => ev.len() == 0 && k == 0 && f is None && !self.cleaned@,
            Stage::Hashing => ev.len() == 0 && k == 0 && f is None && !self.cleaned@,
            Stage::Steps { next } => next == k && next < m.steps@.len() && ev.len() == k
                && all_passed(ev, 0, k) && f is None && !self.cleaned@,
            Stage::Checks { next } => k == m.steps@.len() && next < m.checks@.len() && ev.len() == k
                + next && all_passed(ev, 0, k) && checks_recorded(m.checks@, ev, k, next as int) && f
                == check_failure(ev, k, ev.len() as int) && !self.cleaned@,
            Stage::Inspect { check, .. } => k == m.steps@.len() && check < m.checks@.len()
                && m.checks@[check as int] is Health && ev.len() == k + check && all_passed(ev, 0, k)
                && checks_recorded(m.checks@, ev, k, check as int) && f == check_failure(
                ev,
                k,
                ev.len() as int,
            ) && !self.cleaned@,
            Stage::Cleanup => body_complete(m, ev, k) && f == body_failure(ev, k) && !self.keep_target
                && !self.cleaned@,
            Stage::Done => (self.cleaned@ || self.keep_target) && (self.cleaned@ ==> !self.keep_target)
                && (body_complete(m, ev, k) || (
            self.cleaned@ && ev.len() > k && body_complete(m, ev.drop_last(), k) && cleanup_entry(
                ev.last(),
            ))) && f == run_failure(m, ev, k),
        }
    }
}


/// The sum of two durations, saturating at the largest `u128`.
pub open spec fn sum_ms(a: u128, b: u128) -> u128 {
    if a + b > u128::MAX {
        u128::MAX
    } else {
        (a + b) as u128
    }
}

/// The message of a run whose target confirmation does not match.
pub open spec fn mismatch_text(project: Seq<char>) -> Seq<char> {
    "target confirmation mismatch; pass --confirm-target "@ + project + " exactly"@
}

/// Where the signing key of the manifest at `manifest_path` lies.
pub open spec fn key_path(m: Manifest, manifest_path: Seq<char>) -> Seq<char> {
    joined_path(base_of(manifest_path), m.signing_key@)
}

/// The failure a card reports: what the run recorded, else a missed RTO.
pub open spec fn final_failure(recorded: Option<Seq<char>>, duration_ms: u128, rto_seconds: u64) -> Option<
    Seq<char>,
> {
    match recorded {
        Some(f) => Some(f),
        None => if within_rto(duration_ms, rto_seconds) {
            None
        } else {
            Some(
                "RTO missed: "@ + seconds_text(duration_ms as nat) + "s exceeds "@ + decimal(
                    rto_seconds as nat,
                ) + "s"@,
            )
        },
    }
}

/// The shape of a finished rehearsal's evidence, whose first `k` entries are
/// steps: the steps and checks as they ran, then at most one entry for a
/// failed teardown, which only a target that was not kept can have.
pub open spec fn rehearsal_trace(m: Manifest, keep: bool, ev: Seq<Evidence>, k: int) -> bool {
    &&& steps_recorded(m.steps@, ev, k)
    &&& (body_complete(m, ev, k) || (!keep && ev.len() > k && body_complete(m, ev.drop_last(), k)
        && cleanup_entry(ev.last())))
}

/// What `time` makes of an instant `unix_nanos` nanoseconds after the Unix
/// epoch: its RFC 3339 text in UTC, or the message of the error that stopped it.
pub uninterp spec fn rfc3339_outcome(unix_nanos: int) -> Result<Seq<char>, Seq<char>>;

/// Calls `time::OffsetDateTime::from_unix_timestamp_nanos` and formats the
/// result as `Rfc3339`. Trusted: the result is what the `time` crate gives,
/// named `rfc3339_outcome`, with an error turned into its message.
#[verifier::external_body]
fn format_rfc3339(unix_nanos: i128) -> (r: Result<String, String>)
    ensures
        r matches Ok(s) ==> rfc3339_outcome(unix_nanos as int) is Ok && rfc3339_outcome(
            unix_nanos as int,
        )->Ok_0 == s@,
        r matches Err(e) ==> rfc3339_outcome(unix_nanos as int) is Err && rfc3339_outcome(
            unix_nanos as int,
        )->Err_0 == e@,
{
    match time::OffsetDateTime::from_unix_timestamp_nanos(unix_nanos) {
        Ok(t) => match t.format(&time::format_description::well_known::Rfc3339) {
            Ok(text) => Ok(text),
            Err(e) => Err(e.to_string()),
        },
        Err(e) => Err(e.to_string()),
    }
}

/// The card's timestamp for the instant `unix_nanos`, or why there is none.
pub open spec fn timestamp_outcome(unix_nanos: int) -> Result<Seq<char>, Seq<char>> {
    match rfc3339_outcome(unix_nanos) {
        Ok(t) => Ok(t),
        Err(e) => Err("could not format timestamp: "@ + e),
    }
}

/// Writes the instant `unix_nanos` nanoseconds after the Unix epoch as an
/// RFC 3339 timestamp in UTC.
pub fn timestamp(unix_nanos: i128) -> (r: Result<String, String>)
    ensures
        same_text(r, timestamp_outcome(unix_nanos as int)),
{
    match format_rfc3339(unix_nanos) {
        Ok(t) => Ok(t),
        Err(e) => {
            let mut m = String::from_str("could not format timestamp: ");
            m.append(e.as_str());
            Err(m)
        },
    }
}

/// A finished rehearsal: its card, the card signed, and the summary.
#[derive(Debug)]
pub struct Finished {
    pub card: Card,
    pub signed: String,
    pub result: RunResult,
}

fn settled_stage(m: &Manifest, keep: bool, stage: Stage) -> (r: Stage)
    ensures
        r == settled(*m, keep, stage),
{
    let after_checks = if keep {
        Stage::Done
    } else {
        Stage::Cleanup
    };
    match stage {
        Stage::Steps { next } => if next >= m.steps.len() {
            if m.checks.len() == 0 {
                after_checks
            } else {
                Stage::Checks { next: 0 }
            }
        } else {
            Stage::Steps { next }
        },
        Stage::Checks { next } => if next >= m.checks.len() {
            after_checks
        } else {
            Stage::Checks { next }
        },
        Stage::Cleanup => after_checks,
        other => other,
    }
}

fn record(id: &str, kind: &str, result: Result<String, String>, ms: u128) -> (e: Evidence)
    ensures
        e.id@ == id@,
        e.kind@ == kind@,
        e.duration_ms == ms,
        match result {
            Ok(d) => e.passed && e.detail@ == d@,
            Err(x) => !e.passed && e.detail@ == x@,
        },
{
    match result {
        Ok(detail) => Evidence {
            id: String::from_str(id),
            kind: String::from_str(kind),
            passed: true,
            duration_ms: ms,
            detail,
        },
        Err(error) => Evidence {
            id: String::from_str(id),
            kind: String::from_str(kind),
            passed: false,
            duration_ms: ms,
            detail: error,
        },
    }
}

fn failure_text(opening: &str, id: &str, error: &String) -> (r: String)
    ensures
        r@ == opening@ + id@ + "` failed: "@ + error@,
{
    let mut r = String::from_str(opening);
    r.append(id);
    r.append("` failed: ");
    r.append(error.as_str());
    r
}

/// The message of a command line whose confirmation does not name the target.
pub open spec fn unconfirmed_text(project: Seq<char>) -> Seq<char> {
    "target confirmation mismatch; expected `"@ + project + "`"@
}

/// Accepts a confirmation only when it is exactly the manifest's Compose project.
pub fn confirm_target(manifest: &Manifest, confirmation: &str) -> (r: Result<(), String>)
    ensures
        r is Ok <==> confirmation@ == manifest.compose.project@,
        r matches Err(e) ==> e@ == unconfirmed_text(manifest.compose.project@),
{
    let given = String::from_str(confirmation);
    if given != manifest.compose.project {
        let mut e = String::from_str("target confirmation mismatch; expected `");
        e.append(manifest.compose.project.as_str());
        e.append("`");
        return Err(e);
    }
    Ok(())
}

/// The location of the signing key of the manifest at `manifest_path`.
pub fn signing_key_path(manifest: &Manifest, manifest_path: &str) -> (r: String)
    ensures
        r@ == key_path(*manifest, manifest_path@),
{
    let base = manifest_base(manifest_path);
    join_path(base.as_str(), manifest.signing_key.as_str())
}

/// Begins a rehearsal of `manifest`: refuses a target that was not confirmed
/// exactly, loads the signing key from what reading its file gave, and
/// returns the rehearsal waiting for its Compose preflight.
pub fn run_rehearsal<'a>(
    manifest: &'a Manifest,
    options: &RunOptions,
    key_source: &Result<String, String>,
) -> (r: Result<Rehearsal<'a>, String>)
    ensures
        options.confirm_target@ != manifest.compose.project@ ==> (r matches Err(e) && e@
            == mismatch_text(manifest.compose.project@)),
        options.confirm_target@ == manifest.compose.project@ ==> match signing_key_outcome(
            key_path(*manifest, options.manifest_path@),
            *key_source,
        ) {
            Err(e) => r matches Err(x) && x@ == e,
            Ok(secret) => r matches Ok(reh) && {
                &&& reh.wf()
                &&& reh.manifest() == *manifest
                &&& reh.base() == base_of(options.manifest_path@)
                &&& reh.key().secret_bytes() == secret
                &&& reh.output_path() == options.output_path@
                &&& reh.keep_target() == options.keep_target
                &&& reh.stage() is Preflight
                &&& reh.artifacts().len() == 0
                &&& reh.evidence().len() == 0
                &&& reh.step_entries() == 0
                &&& !reh.cleaned()
            },
        },
{
    if options.confirm_target != manifest.compose.project {
        let mut e = String::from_str("target confirmation mismatch; pass --confirm-target ");
        e.append(manifest.compose.project.as_str());
        e.append(" exactly");
        return Err(e);
    }
    let base = manifest_base(options.manifest_path.as_str());
    let path = join_path(base.as_str(), manifest.signing_key.as_str());
    let key = match read_signing_key(path.as_str(), key_source) {
        Err(e) => return Err(e),
        Ok(key) => key,
    };
    Ok(
        Rehearsal {
            manifest,
            base,
            key,
            output_path: options.output_path.clone(),
            keep_target: options.keep_target,
            stage: Stage::Preflight,
            artifacts: Vec::new(),
            evidence: Vec::new(),
            failure: None,
            steps_recorded: Ghost(0),
            cleaned: Ghost(false),
        },
    )
}


impl<'a> Rehearsal<'a> {
    /// The two states belong to the same rehearsal: the same manifest, base,
    /// key, card path, choice about the target, and hashed artifacts.
    pub open spec fn same_run(&self, other: &Self) -> bool {
        &&& other.manifest() == self.manifest()
        &&& other.base() == self.base()
        &&& other.key() == self.key()
        &&& other.output_path() == self.output_path()
        &&& other.keep_target() == self.keep_target()
        &&& other.artifacts() == self.artifacts()
    }

    /// The rehearsal waits for a step that copies an artifact the manifest
    /// does not declare, which fails without running anything.
    pub open spec fn unknown_copy(&self) -> bool {
        self.stage() matches Stage::Steps { next } && step_args(
            self.manifest(),
            self.base(),
            self.manifest().steps@[next as int],
        ) is None
    }

    /// `a` is what the rehearsal asks for where it stands: the preflight,
    /// the hashing, the command of the current step or check, the teardown,
    /// or the end.
    pub open spec fn action_for(&self, a: Action) -> bool {
        let m = self.manifest();
        let base = self.base();
        match self.stage() {
            Stage::Preflight => a matches Action::Preflight(c) && docker(preflight_args(m, base), 60, c),
            Stage::Hashing => a is HashArtifacts,
            Stage::Steps { next } => a matches Action::Execute(c) && step_args(
                m,
                base,
                m.steps@[next as int],
            ) is Some && docker(
                step_args(m, base, m.steps@[next as int])->0,
                step_timeout(m.steps@[next as int]),
                c,
            ),
            Stage::Checks { next } => a matches Action::Execute(c) && docker(
                check_args(m, base, m.checks@[next as int]),
                check_timeout(m.checks@[next as int]),
                c,
            ),
            Stage::Inspect { check, container, .. } => a matches Action::Execute(c) && docker(
                inspect_args(container@),
                check_timeout(m.checks@[check as int]),
                c,
            ),
            Stage::Cleanup => a matches Action::Execute(c) && docker(cleanup_args(m, base), 60, c),
            Stage::Done => a is Finish,
        }
    }

    /// `after` is this rehearsal once it moved past anything that needs no
    /// command: a step that copies an undeclared artifact is recorded as
    /// failed, in no time, and the teardown comes next; otherwise nothing changes.
    pub open spec fn moved_on(&self, after: &Self) -> bool {
        if self.unknown_copy() {
            let m = self.manifest();
            let step = m.steps@[self.stage()->Steps_next as int];
            &&& self.same_run(after)
            &&& after.cleaned() == self.cleaned()
            &&& after.step_entries() == self.step_entries() + 1
            &&& after.evidence().len() == self.evidence().len() + 1
            &&& after.evidence().drop_last() == self.evidence()
            &&& recorded(
                after.evidence().last(),
                step.spec_id(),
                step_kind_text(step),
                Err("unknown artifact "@ + step->Copy_artifact@),
                0,
            )
            &&& after.stage() == settled(m, self.keep_target(), Stage::Cleanup)
        } else {
            *after == *self
        }
    }

    /// `done` is the finished form of this rehearsal, which took
    /// `duration_ms` milliseconds from the instant `started` to `finished`
    /// (nanoseconds after the Unix epoch): its card, the card signed, and the
    /// summary, with what the card promises of the run it records.
    pub open spec fn finished_as(&self, done: Finished, duration_ms: u128, started: int, finished: int) -> bool {
        let m = self.manifest();
        let card = done.card;
        let failure = final_failure(
            run_failure(m, self.evidence(), self.step_entries() as int),
            duration_ms,
            m.rto_seconds,
        );
        &&& card.rehearsal@ == m.name@
        &&& card.target@ == m.compose.project@
        &&& card.started_at@ == timestamp_outcome(started)->Ok_0
        &&& card.finished_at@ == timestamp_outcome(finished)->Ok_0
        &&& card.duration_ms == duration_ms
        &&& card.rto_seconds == m.rto_seconds
        &&& card.artifacts@ == self.artifacts()
        &&& artifacts_match(m, card.artifacts@)
        &&& card.evidence@ == self.evidence()
        &&& message(card.failure) == failure
        &&& card.passed == (failure is None)
        &&& done.signed@ == signed_card(card, self.key())
        &&& card_verification(done.signed@) is Ok
        &&& done.result.passed == card.passed
        &&& done.result.card@ == self.output_path()
        &&& done.result.target@ == m.compose.project@
        &&& done.result.duration_ms == duration_ms
        &&& done.result.rto_met == within_rto(duration_ms, m.rto_seconds)
        // What the card promises of the run it records.
        &&& card.passed <==> all_passed(card.evidence@, 0, card.evidence@.len() as int)
            && within_rto(duration_ms, m.rto_seconds)
        &&& rehearsal_trace(m, self.keep_target(), card.evidence@, self.step_entries() as int)
        &&& self.keep_target() || self.cleaned()
    }

    /// `after` is this rehearsal once its current command gave `executed`
    /// after `took_ms` milliseconds: the step or check it served is recorded
    /// with its outcome, and the rehearsal moves on.
    pub open spec fn advanced(
        &self,
        after: &Self,
        executed: Result<CommandOutput, String>,
        took_ms: u128,
    ) -> bool {
        let m = self.manifest();
        let keep = self.keep_target();
        let ev = self.evidence();
        &&& self.same_run(after)
        &&& after.cleaned() == (self.cleaned() || self.stage() is Cleanup)
        &&& after.step_entries() == if self.stage() is Steps {
            self.step_entries() + 1
        } else {
            self.step_entries()
        }
        &&& match self.stage() {
            Stage::Steps { next } => {
                let step = m.steps@[next as int];
                let out = step_outcome(step, executed);
                &&& after.evidence().len() == ev.len() + 1
                &&& after.evidence().drop_last() == ev
                &&& recorded(after.evidence().last(), step.spec_id(), step_kind_text(step), out, took_ms)
                &&& after.stage() == settled(
                    m,
                    keep,
                    if out is Ok {
                        Stage::Steps { next: (next + 1) as usize }
                    } else {
                        Stage::Cleanup
                    },
                )
            },
            Stage::Checks { next } => {
                let check = m.checks@[next as int];
                if check is Health && health_container_outcome(executed) is Ok {
                    &&& after.evidence() == ev
                    &&& after.stage() matches Stage::Inspect { check: c, container, ps_ms } && c
                        == next && container@ == health_container_outcome(executed)->Ok_0 && ps_ms
                        == took_ms
                } else {
                    let out = if check is Health {
                        health_container_outcome(executed)
                    } else {
                        check_outcome(check, executed)
                    };
                    &&& after.evidence().len() == ev.len() + 1
                    &&& after.evidence().drop_last() == ev
                    &&& recorded(
                        after.evidence().last(),
                        check.spec_id(),
                        check_kind_text(check),
                        out,
                        took_ms,
                    )
                    &&& after.stage() == settled(m, keep, Stage::Checks { next: (next + 1) as usize })
                }
            },
            Stage::Inspect { check, ps_ms, .. } => {
                let c = m.checks@[check as int];
                &&& after.evidence().len() == ev.len() + 1
                &&& after.evidence().drop_last() == ev
                &&& recorded(
                    after.evidence().last(),
                    c.spec_id(),
                    check_kind_text(c),
                    health_outcome(executed),
                    sum_ms(ps_ms, took_ms),
                )
                &&& after.stage() == settled(m, keep, Stage::Checks { next: (check + 1) as usize })
            },
            Stage::Cleanup => {
                &&& after.stage() is Done
                &&& match cleanup_failure(executed) {
                    Some(e) => after.evidence().len() == ev.len() + 1 && after.evidence().drop_last()
                        == ev && cleanup_entry(after.evidence().last()) && after.evidence().last().detail@
                        == e,
                    None => after.evidence() == ev,
                }
            },
            _ => false,
        }
    }

    /// The rehearsal waits for a command it issued.
    pub open spec fn awaiting_command(&self) -> bool {
        ||| self.stage() is Steps
        ||| self.stage() is Checks
        ||| self.stage() is Inspect
        ||| self.stage() is Cleanup
    }

    /// Judges the Compose preflight from what `docker compose config` gave;
    /// the rehearsal goes on to hashing only when the target passed.
    pub fn preflight(&mut self, executed: &Result<CommandOutput, String>) -> (r: Result<
        (),
        String,
    >)
        requires
            old(self).wf(),
            old(self).stage() is Preflight,
        ensures
            final(self).wf(),
            outcome(r) == preflight_issue(
                *executed,
                printed_model(*executed),
                old(self).manifest().compose.project@,
            ),
            r is Ok ==> old(self).same_run(&*final(self)) && final(self).stage() is Hashing
                && final(self).evidence() == old(self).evidence() && final(self).cleaned()
                == old(self).cleaned() && final(self).step_entries() == old(self).step_entries(),
            r is Err ==> *final(self) == *old(self),
    {
        let r = preflight_compose(executed, self.manifest.compose.project.as_str());
        if r.is_ok() {
            self.stage = Stage::Hashing;
        }
        r
    }

    /// Records the evidence of the declared artifacts, one per artifact in the
    /// manifest's order; the steps come next.
    pub fn record_artifacts(&mut self, artifacts: Vec<ArtifactEvidence>)
        requires
            old(self).wf(),
            old(self).stage() is Hashing,
            artifacts_match(old(self).manifest(), artifacts@),
        ensures
            final(self).wf(),
            final(self).artifacts() == artifacts@,
            final(self).manifest() == old(self).manifest(),
            final(self).base() == old(self).base(),
            final(self).key() == old(self).key(),
            final(self).output_path() == old(self).output_path(),
            final(self).keep_target() == old(self).keep_target(),
            final(self).evidence() == old(self).evidence(),
            final(self).cleaned() == old(self).cleaned(),
            final(self).step_entries() == old(self).step_entries(),
            final(self).stage() == settled(old(self).manifest(), old(self).keep_target(), Stage::Steps { next: 0 }),
    {
        self.artifacts = artifacts;
        self.stage = settled_stage(self.manifest, self.keep_target, Stage::Steps { next: 0 });
        proof {
            assert(all_passed(self.evidence@, 0, 0));
            assert(checks_recorded(self.manifest.checks@, self.evidence@, 0, 0));
        }
    }
}


impl<'a> Rehearsal<'a> {
    /// What the caller should do next. A step that copies an undeclared
    /// artifact fails here, without running anything, and the rehearsal moves
    /// on to its teardown.
    pub fn next_action(&mut self) -> (r: Action)
        requires
            old(self).wf(),
        ensures
            final(self).wf(),
            final(self).action_for(r),
            old(self).moved_on(&*final(self)),
    {
        if let Stage::Steps { next } = self.stage {
            let step = &self.manifest.steps[next];
            if let Err(e) = step_command(self.manifest, self.base.as_str(), step) {
                let failure = failure_text("step `", step.id(), &e);
                let entry = record(step.id(), step_kind(step), Err(e), 0);
                let ghost old_ev = self.evidence@;
                self.evidence.push(entry);
                self.failure = Some(failure);
                self.steps_recorded = Ghost((next + 1) as nat);
                self.stage = settled_stage(self.manifest, self.keep_target, Stage::Cleanup);
                proof {
                    let ev = self.evidence@;
                    let k = next + 1;
                    assert(ev.drop_last() =~= old_ev);
                    assert(forall|i: int| 0 <= i < next ==> ev[i] == old_ev[i]);
                    assert(steps_recorded(self.manifest.steps@, ev, k));
                    assert(all_passed(ev, 0, k - 1));
                    assert(body_complete(*self.manifest, ev, k));
                    if self.keep_target {
                        assert(run_failure(*self.manifest, ev, k) == body_failure(ev, k));
                    }
                }
            }
        }
        self.current_action()
    }

    fn current_action(&self) -> (r: Action)
        requires
            self.wf(),
            !self.unknown_copy(),
        ensures
            self.action_for(r),
    {
        match &self.stage {
            Stage::Preflight => Action::Preflight(preflight_command(self.manifest, self.base.as_str())),
            Stage::Hashing => Action::HashArtifacts,
            Stage::Steps { next } => {
                let step = &self.manifest.steps[*next];
                match step_command(self.manifest, self.base.as_str(), step) {
                    Ok(c) => Action::Execute(c),
                    Err(_) => Action::Finish,
                }
            },
            Stage::Checks { next } => Action::Execute(
                check_command(self.manifest, self.base.as_str(), &self.manifest.checks[*next]),
            ),
            Stage::Inspect { check, container, .. } => {
                let timeout = match &self.manifest.checks[*check] {
                    Check::Health { timeout_seconds, .. } => *timeout_seconds,
                    Check::RowCount { timeout_seconds, .. } => *timeout_seconds,
                    Check::ExitCode { timeout_seconds, .. } => *timeout_seconds,
                };
                Action::Execute(inspect_command(container.as_str(), timeout))
            },
            Stage::Cleanup => Action::Execute(cleanup_command(self.manifest, self.base.as_str())),
            Stage::Done => Action::Finish,
        }
    }
}


/// The failure the checks in `from..to` report depends on those entries only.
proof fn lemma_check_failure_same(a: Seq<Evidence>, b: Seq<Evidence>, from: int, to: int)
    requires
        forall|i: int| from <= i < to ==> a[i] == b[i],
    ensures
        check_failure(a, from, to) == check_failure(b, from, to),
    decreases to - from,
{
    if to > from {
        lemma_check_failure_same(a, b, from, to - 1);
    }
}

/// Adding an entry after the checks: a failed one becomes the reported
/// failure, a passed one leaves it as it was.
proof fn lemma_check_failure_push(ev: Seq<Evidence>, e: Evidence, from: int)
    requires
        0 <= from <= ev.len(),
    ensures
        check_failure(ev.push(e), from, ev.len() + 1 as int) == if !e.passed {
            Some("check `"@ + e.id@ + "` failed: "@ + e.detail@)
        } else {
            check_failure(ev, from, ev.len() as int)
        },
{
    let pushed = ev.push(e);
    assert(pushed[ev.len() as int] == e);
    assert(forall|i: int| from <= i < ev.len() ==> pushed[i] == ev[i]);
    lemma_check_failure_same(pushed, ev, from, ev.len() as int);
}

impl<'a> Rehearsal<'a> {
    /// Records what the command the rehearsal waited for gave, after
    /// `took_ms` milliseconds, and moves on: a failed step ends the steps and
    /// skips the checks, every check runs once the steps passed, and the
    /// teardown comes last.
    pub fn advance(&mut self, executed: Result<CommandOutput, String>, took_ms: u128)
        requires
            old(self).wf(),
            old(self).awaiting_command(),
        ensures
            final(self).wf(),
            old(self).advanced(&*final(self), executed, took_ms),
    {
        let m: &'a Manifest = self.manifest;
        let keep = self.keep_target;
        let ghost old_ev = self.evidence@;
        let ghost k = self.steps_recorded@ as int;
        let mut stage = Stage::Done;
        std::mem::swap(&mut stage, &mut self.stage);
        match stage {
            Stage::Steps { next } => {
                let count = m.steps.len();
                assert(next < count);
                let step = &m.steps[next];
                let out = run_step(step, &executed);
                let passed = out.is_ok();
                if let Err(e) = &out {
                    self.failure = Some(failure_text("step `", step.id(), e));
                }
                let entry = record(step.id(), step_kind(step), out, took_ms);
                self.evidence.push(entry);
                self.steps_recorded = Ghost((next + 1) as nat);
                let following = if passed {
                    Stage::Steps { next: next + 1 }
                } else {
                    Stage::Cleanup
                };
                self.stage = settled_stage(m, keep, following);
                proof {
                    let ev = self.evidence@;
                    assert(ev.drop_last() =~= old_ev);
                    assert(forall|i: int| 0 <= i < next ==> ev[i] == old_ev[i]);
                    assert(steps_recorded(m.steps@, ev, next + 1));
                    assert(all_passed(ev, 0, next as int));
                    assert(checks_recorded(m.checks@, ev, next + 1, 0));
                }
            },
            Stage::Checks { next } => {
                let count = m.checks.len();
                assert(next < count);
                let check = &m.checks[next];
                let health = matches!(check, Check::Health { .. });
                let out = if health {
                    health_container(&executed)
                } else {
                    run_check(check, &executed)
                };
                if health && out.is_ok() {
                    let container = match out {
                        Ok(id) => id,
                        Err(e) => e,
                    };
                    self.stage = Stage::Inspect { check: next, container, ps_ms: took_ms };
                } else {
                    self.push_check(check, out, took_ms);
                    self.stage = settled_stage(m, keep, Stage::Checks { next: next + 1 });
                    proof {
                        assert(checks_recorded(m.checks@, self.evidence@, k, next + 1));
                    }
                }
            },
            Stage::Inspect { check, container: _, ps_ms } => {
                let count = m.checks.len();
                assert(check < count);
                let c = &m.checks[check];
                let out = run_check(c, &executed);
                self.push_check(c, out, ps_ms.saturating_add(took_ms));
                self.stage = settled_stage(m, keep, Stage::Checks { next: check + 1 });
                proof {
                    assert(checks_recorded(m.checks@, self.evidence@, k, check + 1));
                }
            },
            Stage::Cleanup => {
                if let Err(e) = cleanup(&executed) {
                    if self.failure.is_none() {
                        let mut f = String::from_str("cleanup failed: ");
                        f.append(e.as_str());
                        self.failure = Some(f);
                    }
                    self.evidence.push(
                        Evidence {
                            id: String::from_str("cleanup"),
                            kind: String::from_str("compose-down"),
                            passed: false,
                            duration_ms: 0,
                            detail: e,
                        },
                    );
                    proof {
                        let ev = self.evidence@;
                        assert(ev.drop_last() =~= old_ev);
                        assert(forall|i: int| 0 <= i < old_ev.len() ==> ev[i] == old_ev[i]);
                        assert(steps_recorded(m.steps@, ev, k));
                        assert(!body_complete(*m, ev, k));
                    }
                }
                self.cleaned = Ghost(true);
                self.stage = Stage::Done;
            },
            _ => {},
        }
    }

    /// Records the outcome of check `check`, which the rehearsal has reached
    /// with every entry before it in place.
    fn push_check(&mut self, check: &Check, out: Result<String, String>, ms: u128)
        requires
            old(self).steps_recorded@ <= old(self).manifest.steps@.len(),
            old(self).evidence@.len() >= old(self).steps_recorded@,
            steps_recorded(old(self).manifest.steps@, old(self).evidence@, old(self).steps_recorded@ as int),
            message(old(self).failure) == check_failure(
                old(self).evidence@,
                old(self).steps_recorded@ as int,
                old(self).evidence@.len() as int,
            ),
        ensures
            final(self).manifest == old(self).manifest,
            final(self).base == old(self).base,
            final(self).key == old(self).key,
            final(self).output_path == old(self).output_path,
            final(self).keep_target == old(self).keep_target,
            final(self).artifacts == old(self).artifacts,
            final(self).stage == old(self).stage,
            final(self).steps_recorded == old(self).steps_recorded,
            final(self).cleaned == old(self).cleaned,
            final(self).evidence@.len() == old(self).evidence@.len() + 1,
            final(self).evidence@.drop_last() == old(self).evidence@,
            final(self).evidence@.last().id@ == check.spec_id(),
            final(self).evidence@.last().kind@ == check_kind_text(*check),
            final(self).evidence@.last().duration_ms == ms,
            match out {
                Ok(d) => final(self).evidence@.last().passed && final(self).evidence@.last().detail@
                    == d@,
                Err(x) => !final(self).evidence@.last().passed && final(self).evidence@.last().detail@
                    == x@,
            },
            steps_recorded(final(self).manifest.steps@, final(self).evidence@, final(self).steps_recorded@ as int),
            forall|i: int| 0 <= i < old(self).evidence@.len() ==> final(self).evidence@[i] == old(self).evidence@[i],
            message(final(self).failure) == check_failure(
                final(self).evidence@,
                final(self).steps_recorded@ as int,
                final(self).evidence@.len() as int,
            ),
    {
        let ghost old_ev = self.evidence@;
        if let Err(e) = &out {
            self.failure = Some(failure_text("check `", check.id(), e));
        }
        let entry = record(check.id(), check_kind(check), out, ms);
        let ghost e = entry;
        self.evidence.push(entry);
        proof {
            let ev = self.evidence@;
            assert(ev =~= old_ev.push(e));
            assert(ev.drop_last() =~= old_ev);
            lemma_check_failure_push(old_ev, e, self.steps_recorded@ as int);
        }
    }
}


/// The checks in `from..to` report no failure exactly when all of them passed.
pub proof fn lemma_check_failure_none(ev: Seq<Evidence>, from: int, to: int)
    ensures
        check_failure(ev, from, to) is None <==> all_passed(ev, from, to),
    decreases to - from,
{
    if to > from {
        lemma_check_failure_none(ev, from, to - 1);
        if !ev[to - 1].passed {
            assert(!all_passed(ev, from, to));
        }
    }
}

/// A finished rehearsal reports a failure of its own exactly when some entry
/// of its evidence failed.
pub proof fn lemma_run_failure_none(m: Manifest, keep: bool, ev: Seq<Evidence>, k: int)
    requires
        0 <= k,
        rehearsal_trace(m, keep, ev, k),
    ensures
        run_failure(m, ev, k) is None <==> all_passed(ev, 0, ev.len() as int),
{
    if body_complete(m, ev, k) {
        lemma_check_failure_none(ev, k, ev.len() as int);
        if k >= 1 && !ev[k - 1].passed {
            assert(!all_passed(ev, 0, ev.len() as int));
        } else {
            assert(all_passed(ev, 0, k));
        }
    } else {
        assert(!ev.last().passed);
        assert(!all_passed(ev, 0, ev.len() as int));
    }
}

impl<'a> Rehearsal<'a> {
    /// Finishes the rehearsal, which took `duration_ms` milliseconds and ran
    /// from the instant `started_unix_nanos` to `finished_unix_nanos`: judges
    /// the RTO, then builds, signs and summarises the card.
    pub fn finish(self, duration_ms: u128, started_unix_nanos: i128, finished_unix_nanos: i128) -> (r:
        Result<Finished, String>)
        requires
            self.wf(),
            self.stage() is Done,
        ensures
            timestamp_outcome(started_unix_nanos as int) matches Err(e) ==> (r matches Err(x) && x@
                == e),
            timestamp_outcome(started_unix_nanos as int) is Ok ==> (timestamp_outcome(
                finished_unix_nanos as int,
            ) matches Err(e) ==> (r matches Err(x) && x@ == e)),
            timestamp_outcome(started_unix_nanos as int) is Ok && timestamp_outcome(
                finished_unix_nanos as int,
            ) is Ok ==> r is Ok,
            r matches Ok(done) ==> self.finished_as(
                done,
                duration_ms,
                started_unix_nanos as int,
                finished_unix_nanos as int,
            ),
    {
        let m: &'a Manifest = self.manifest;
        let ghost ev = self.evidence@;
        let ghost k = self.steps_recorded@ as int;
        proof {
            assert(rehearsal_trace(*m, self.keep_target, ev, k));
            lemma_run_failure_none(*m, self.keep_target, ev, k);
        }
        let rto_met = duration_ms <= (m.rto_seconds as u128) * 1000;
        let mut failure = self.failure;
        if !rto_met && failure.is_none() {
            let mut f = String::from_str("RTO missed: ");
            push_seconds(&mut f, duration_ms);
            f.append("s exceeds ");
            push_decimal(&mut f, m.rto_seconds as u128);
            f.append("s");
            failure = Some(f);
        }
        let started_at = timestamp(started_unix_nanos)?;
        let finished_at = timestamp(finished_unix_nanos)?;
        let passed = failure.is_none();
        let card = Card {
            rehearsal: m.name.clone(),
            target: m.compose.project.clone(),
            started_at,
            finished_at,
            duration_ms,
            rto_seconds: m.rto_seconds,
            passed,
            artifacts: self.artifacts,
            evidence: self.evidence,
            failure,
        };
        let signed = card.sign(&self.key);
        let result = RunResult {
            passed,
            card: self.output_path,
            target: m.compose.project.clone(),
            duration_ms,
            rto_met,
        };
        Ok(Finished { card, signed, result })
    }
}


// ---------------------------------------------------------------------------
// Hashing artifacts
// ---------------------------------------------------------------------------
/// An artifact being hashed: its ID, how many bytes were read, and the
/// SHA-256 computation over them.
pub struct ArtifactHash {
    id: String,
    bytes: u64,
    stream: Sha256Stream,
}

impl ArtifactHash {
    /// The artifact's ID.
    pub closed spec fn id(&self) -> Seq<char> {
        self.id@
    }

    /// The bytes read so far.
    pub closed spec fn content(&self) -> Seq<u8> {
        sha256_absorbed(self.stream)
    }

    /// The byte count matches what was fed to the hash.
    pub closed spec fn wf(&self) -> bool {
        self.bytes == sha256_absorbed(self.stream).len()
    }

    /// Starts hashing the artifact with ID `id`.
    pub fn new(id: &str) -> (r: ArtifactHash)
        ensures
            r.wf(),
            r.id() == id@,
            r.content() == Seq::<u8>::empty(),
    {
        ArtifactHash { id: String::from_str(id), bytes: 0, stream: sha256_start() }
    }

    /// How many bytes were read so far.
    pub fn bytes_read(&self) -> (r: u64)
        requires
            self.wf(),
        ensures
            r == self.content().len(),
    {
        self.bytes
    }

    /// Adds the next bytes read from the artifact.
    pub fn absorb(&mut self, chunk: &[u8])
        requires
            old(self).wf(),
            old(self).content().len() + chunk@.len() <= u64::MAX,
        ensures
            final(self).wf(),
            final(self).id() == old(self).id(),
            final(self).content() == old(self).content() + chunk@,
    {
        sha256_update(&mut self.stream, chunk);
        self.bytes = self.bytes + chunk.len() as u64;
    }

    /// The artifact's evidence: its ID, its size in bytes and the lowercase
    /// hexadecimal SHA-256 of its content.
    pub fn finish(self) -> (r: ArtifactEvidence)
        requires
            self.wf(),
        ensures
            r.id@ == self.id(),
            r.bytes == self.content().len(),
            r.sha256@ == lower_hex(sha256_digest(self.content())),
    {
        let digest = sha256_finish(self.stream);
        ArtifactEvidence { id: self.id, bytes: self.bytes, sha256: hex_string(&digest) }
    }
}

impl<'a> Rehearsal<'a> {
    /// Where artifact `i` of the manifest lies.
    pub fn artifact_path(&self, i: usize) -> (r: String)
        requires
            i < self.manifest().artifacts@.len(),
        ensures
            r@ == joined_path(self.base(), self.manifest().artifacts@[i as int].path@),
    {
        join_path(self.base.as_str(), self.manifest.artifacts[i].path.as_str())
    }
}


// ---------------------------------------------------------------------------
// Runs the output cannot tell apart
// ---------------------------------------------------------------------------
/// Two entries say the same: the same ID, kind, state, time and detail.
pub open spec fn same_entry(a: Evidence, b: Evidence) -> bool {
    &&& a.id@ == b.id@
    &&& a.kind@ == b.kind@
    &&& a.passed == b.passed
    &&& a.duration_ms == b.duration_ms
    &&& a.detail@ == b.detail@
}

/// Two lists of entries say the same, entry by entry.
pub open spec fn same_evidence(a: Seq<Evidence>, b: Seq<Evidence>) -> bool {
    &&& a.len() == b.len()
    &&& forall|i: int| 0 <= i < a.len() ==> same_entry(#[trigger] a[i], b[i])
}

/// Two stages are the same, a container ID compared by its text.
pub open spec fn same_stage(a: Stage, b: Stage) -> bool {
    match a {
        Stage::Inspect { check, container, ps_ms } => b matches Stage::Inspect {
            check: c2,
            container: k2,
            ps_ms: p2,
        } && check == c2 && container@ == k2@ && ps_ms == p2,
        _ => a == b,
    }
}

/// Two rehearsals of the same manifest, in the same place and with the same
/// choice about the target, stand at the same point with the same record.
pub open spec fn alike_runs(one: &Rehearsal, two: &Rehearsal) -> bool {
    &&& one.manifest() == two.manifest()
    &&& one.base() == two.base()
    &&& one.keep_target() == two.keep_target()
    &&& same_stage(one.stage(), two.stage())
    &&& same_evidence(one.evidence(), two.evidence())
    &&& one.failure() == two.failure()
    &&& one.step_entries() == two.step_entries()
    &&& one.cleaned() == two.cleaned()
}

proof fn lemma_check_failure_alike(a: Seq<Evidence>, b: Seq<Evidence>, from: int, to: int)
    requires
        same_evidence(a, b),
        0 <= from,
        to <= a.len(),
    ensures
        check_failure(a, from, to) == check_failure(b, from, to),
    decreases to - from,
{
    if to > from {
        assert(same_entry(a[to - 1], b[to - 1]));
        lemma_check_failure_alike(a, b, from, to - 1);
    }
}

proof fn lemma_record_alike(m: Manifest, a: Seq<Evidence>, b: Seq<Evidence>, k: int)
    requires
        same_evidence(a, b),
        0 <= k <= a.len(),
    ensures
        body_complete(m, a, k) == body_complete(m, b, k),
        body_failure(a, k) == body_failure(b, k),
        steps_recorded(m.steps@, a, k) == steps_recorded(m.steps@, b, k),
{
    lemma_check_failure_alike(a, b, k, a.len() as int);
    if k > 0 {
        assert(same_entry(a[k - 1], b[k - 1]));
    }
    assert forall|i: int, j: int| 0 <= i < j <= a.len() implies all_passed(a, i, j) == all_passed(
        b,
        i,
        j,
    ) by {
        if all_passed(a, i, j) {
            assert forall|x: int| i <= x < j implies (#[trigger] b[x]).passed by {
                assert(same_entry(a[x], b[x]));
            }
        }
        if all_passed(b, i, j) {
            assert forall|x: int| i <= x < j implies (#[trigger] a[x]).passed by {
                assert(same_entry(a[x], b[x]));
            }
        }
    }
    let n = m.checks@.len() as int;
    if k + n == a.len() {
        if checks_recorded(m.checks@, a, k, n) {
            assert forall|j: int| 0 <= j < n implies (#[trigger] b[k + j]).id@ == m.checks@[j].spec_id()
                && b[k + j].kind@ == check_kind_text(m.checks@[j]) by {
                assert(same_entry(a[k + j], b[k + j]));
            }
        }
        if checks_recorded(m.checks@, b, k, n) {
            assert forall|j: int| 0 <= j < n implies (#[trigger] a[k + j]).id@ == m.checks@[j].spec_id()
                && a[k + j].kind@ == check_kind_text(m.checks@[j]) by {
                assert(same_entry(a[k + j], b[k + j]));
            }
        }
    }
    if steps_recorded(m.steps@, a, k) {
        assert forall|i: int| 0 <= i < k implies (#[trigger] b[i]).id@ == m.steps@[i].spec_id()
            && b[i].kind@ == step_kind_text(m.steps@[i]) by {
            assert(same_entry(a[i], b[i]));
        }
    }
    if steps_recorded(m.steps@, b, k) {
        assert forall|i: int| 0 <= i < k implies (#[trigger] a[i]).id@ == m.steps@[i].spec_id()
            && a[i].kind@ == step_kind_text(m.steps@[i]) by {
            assert(same_entry(a[i], b[i]));
        }
    }
}

proof fn lemma_push_alike(a: Seq<Evidence>, b: Seq<Evidence>, x: Evidence, y: Evidence)
    requires
        same_evidence(a, b),
        same_entry(x, y),
    ensures
        same_evidence(a.push(x), b.push(y)),
{
    assert forall|i: int| 0 <= i < a.len() + 1 implies same_entry(#[trigger] a.push(x)[i], b.push(y)[i]) by {
        if i < a.len() {
            assert(same_entry(a[i], b[i]));
        }
    }
}

proof fn lemma_recorded_alike(
    x: Evidence,
    y: Evidence,
    id: Seq<char>,
    kind: Seq<char>,
    result: Result<Seq<char>, Seq<char>>,
    ms: u128,
)
    requires
        recorded(x, id, kind, result, ms),
        recorded(y, id, kind, result, ms),
    ensures
        same_entry(x, y),
{
}

proof fn lemma_evidence_pushed(before: Seq<Evidence>, after: Seq<Evidence>)
    requires
        after.len() == before.len() + 1,
        after.drop_last() == before,
    ensures
        after == before.push(after.last()),
{
    assert(after =~= before.push(after.last()));
}

/// Two alike rehearsals that are told outcomes of their command which the
/// rehearsal cannot tell apart, after the same time, are alike again: the
/// same stage, the same entries, failure, step count and teardown. Repeated
/// over a whole run, two rehearsals whose commands differ only in output that
/// reads the same once trimmed, or holds the same count, record the same
/// evidence, and none of the rest of that output reaches them.
pub proof fn lemma_alike_outcomes_advance_alike(
    one: Rehearsal,
    two: Rehearsal,
    one_after: Rehearsal,
    two_after: Rehearsal,
    a: Result<CommandOutput, String>,
    b: Result<CommandOutput, String>,
    took_ms: u128,
)
    requires
        one.wf(),
        two.wf(),
        one.awaiting_command(),
        alike_runs(&one, &two),
        one_after.wf(),
        two_after.wf(),
        one.advanced(&one_after, a, took_ms),
        two.advanced(&two_after, b, took_ms),
        alike(a, b),
    ensures
        alike_runs(&one_after, &two_after),
{
    let m = one.manifest();
    let ev1 = one.evidence();
    let ev2 = two.evidence();
    let keep = one.keep_target();
    match one.stage() {
        Stage::Steps { next } => {
            lemma_alike_outcomes_judged_alike(m.steps@[next as int], m.checks@[0], a, b);
            lemma_evidence_pushed(ev1, one_after.evidence());
            lemma_evidence_pushed(ev2, two_after.evidence());
            lemma_push_alike(ev1, ev2, one_after.evidence().last(), two_after.evidence().last());
        },
        Stage::Checks { next } => {
            let check = m.checks@[next as int];
            lemma_alike_outcomes_judged_alike(m.steps@[0], check, a, b);
            if !(check is Health && health_container_outcome(a) is Ok) {
                lemma_evidence_pushed(ev1, one_after.evidence());
                lemma_evidence_pushed(ev2, two_after.evidence());
                lemma_push_alike(ev1, ev2, one_after.evidence().last(), two_after.evidence().last());
            }
        },
        Stage::Inspect { check, .. } => {
            lemma_alike_outcomes_judged_alike(m.steps@[0], m.checks@[check as int], a, b);
            lemma_evidence_pushed(ev1, one_after.evidence());
            lemma_evidence_pushed(ev2, two_after.evidence());
            lemma_push_alike(ev1, ev2, one_after.evidence().last(), two_after.evidence().last());
        },
        Stage::Cleanup => {
            lemma_alike_outcomes_judged_alike(m.steps@[0], m.checks@[0], a, b);
            if cleanup_failure(a) is Some {
                lemma_evidence_pushed(ev1, one_after.evidence());
                lemma_evidence_pushed(ev2, two_after.evidence());
                lemma_push_alike(ev1, ev2, one_after.evidence().last(), two_after.evidence().last());
            }
        },
        _ => {},
    }
    lemma_failure_alike(one_after, two_after);
}

/// Two well-formed rehearsals at the same point with the same record report
/// the same failure.
proof fn lemma_failure_alike(one: Rehearsal, two: Rehearsal)
    requires
        one.wf(),
        two.wf(),
        one.manifest() == two.manifest(),
        one.keep_target() == two.keep_target(),
        same_stage(one.stage(), two.stage()),
        same_evidence(one.evidence(), two.evidence()),
        one.step_entries() == two.step_entries(),
        one.cleaned() == two.cleaned(),
    ensures
        one.failure() == two.failure(),
{
    let m = one.manifest();
    let ev1 = one.evidence();
    let ev2 = two.evidence();
    let k = one.step_entries() as int;
    lemma_record_alike(m, ev1, ev2, k);
    lemma_check_failure_alike(ev1, ev2, k, ev1.len() as int);
    if ev1.len() > k {
        let d1 = ev1.drop_last();
        let d2 = ev2.drop_last();
        assert(same_evidence(d1, d2)) by {
            assert forall|i: int| 0 <= i < d1.len() implies same_entry(#[trigger] d1[i], d2[i]) by {
                assert(same_entry(ev1[i], ev2[i]));
            }
        }
        lemma_record_alike(m, d1, d2, k);
        assert(same_entry(ev1[ev1.len() - 1], ev2[ev2.len() - 1]));
    }
}


/// Two commands ask for the same: the same program, arguments and timeout.
pub open spec fn same_command(a: CommandSpec, b: CommandSpec) -> bool {
    a.program@ == b.program@ && command_args(a) == command_args(b) && a.timeout_seconds
        == b.timeout_seconds
}

/// Two actions ask for the same.
pub open spec fn same_action(a: Action, b: Action) -> bool {
    match a {
        Action::Preflight(c) => b matches Action::Preflight(d) && same_command(c, d),
        Action::HashArtifacts => b is HashArtifacts,
        Action::Execute(c) => b matches Action::Execute(d) && same_command(c, d),
        Action::Finish => b is Finish,
    }
}

/// Two alike rehearsals move on alike and then ask for the same action.
pub proof fn lemma_alike_runs_act_alike(
    one: Rehearsal,
    two: Rehearsal,
    one_after: Rehearsal,
    two_after: Rehearsal,
    r1: Action,
    r2: Action,
)
    requires
        one.wf(),
        two.wf(),
        alike_runs(&one, &two),
        one_after.wf(),
        two_after.wf(),
        one.moved_on(&one_after),
        two.moved_on(&two_after),
        one_after.action_for(r1),
        two_after.action_for(r2),
    ensures
        alike_runs(&one_after, &two_after),
        same_action(r1, r2),
{
    if one.unknown_copy() {
        let ev1 = one.evidence();
        let ev2 = two.evidence();
        lemma_evidence_pushed(ev1, one_after.evidence());
        lemma_evidence_pushed(ev2, two_after.evidence());
        lemma_push_alike(ev1, ev2, one_after.evidence().last(), two_after.evidence().last());
        lemma_failure_alike(one_after, two_after);
    }
}

/// Two lists of artifact evidence say the same, entry by entry.
pub open spec fn same_artifacts(a: Seq<ArtifactEvidence>, b: Seq<ArtifactEvidence>) -> bool {
    &&& a.len() == b.len()
    &&& forall|i: int|
        0 <= i < a.len() ==> (#[trigger] a[i]).id@ == b[i].id@ && a[i].bytes == b[i].bytes
            && a[i].sha256@ == b[i].sha256@
}

proof fn lemma_artifact_rows_alike(a: Seq<ArtifactEvidence>, b: Seq<ArtifactEvidence>)
    requires
        same_artifacts(a, b),
    ensures
        artifact_rows(a) == artifact_rows(b),
    decreases a.len(),
{
    if a.len() > 0 {
        let (da, db) = (a.drop_last(), b.drop_last());
        assert forall|i: int| 0 <= i < da.len() implies (#[trigger] da[i]).id@ == db[i].id@
            && da[i].bytes == db[i].bytes && da[i].sha256@ == db[i].sha256@ by {
            assert(a[i].id@ == b[i].id@);
        }
        lemma_artifact_rows_alike(da, db);
        assert(a[a.len() - 1].id@ == b[b.len() - 1].id@);
    }
}

proof fn lemma_evidence_rows_alike(a: Seq<Evidence>, b: Seq<Evidence>)
    requires
        same_evidence(a, b),
    ensures
        evidence_rows(a) == evidence_rows(b),
    decreases a.len(),
{
    if a.len() > 0 {
        let (da, db) = (a.drop_last(), b.drop_last());
        assert forall|i: int| 0 <= i < da.len() implies same_entry(#[trigger] da[i], db[i]) by {
            assert(same_entry(a[i], b[i]));
        }
        lemma_evidence_rows_alike(da, db);
        assert(same_entry(a[a.len() - 1], b[b.len() - 1]));
    }
}

proof fn lemma_run_failure_alike(m: Manifest, a: Seq<Evidence>, b: Seq<Evidence>, k: int)
    requires
        same_evidence(a, b),
        0 <= k <= a.len(),
        a.len() > k || body_complete(m, a, k),
    ensures
        run_failure(m, a, k) == run_failure(m, b, k),
{
    lemma_record_alike(m, a, b, k);
    if a.len() > k {
        let (da, db) = (a.drop_last(), b.drop_last());
        assert forall|i: int| 0 <= i < da.len() implies same_entry(#[trigger] da[i], db[i]) by {
            assert(same_entry(a[i], b[i]));
        }
        lemma_record_alike(m, da, db, k);
        assert(same_entry(a[a.len() - 1], b[b.len() - 1]));
    }
}

/// Two alike finished rehearsals with the same artifacts, key and card path,
/// finished with the same time and instants, sign the same card and report
/// the same result: the card depends on no output beyond what their
/// evidence recorded.
pub proof fn lemma_alike_runs_sign_alike(
    one: Rehearsal,
    two: Rehearsal,
    one_done: Finished,
    two_done: Finished,
    duration_ms: u128,
    started: int,
    finished: int,
)
    requires
        one.wf(),
        two.wf(),
        one.stage() is Done,
        alike_runs(&one, &two),
        same_artifacts(one.artifacts(), two.artifacts()),
        one.key() == two.key(),
        one.output_path() == two.output_path(),
        one.finished_as(one_done, duration_ms, started, finished),
        two.finished_as(two_done, duration_ms, started, finished),
    ensures
        one_done.signed@ == two_done.signed@,
        one_done.result.passed == two_done.result.passed,
        one_done.result.card@ == two_done.result.card@,
        one_done.result.target@ == two_done.result.target@,
        one_done.result.duration_ms == two_done.result.duration_ms,
        one_done.result.rto_met == two_done.result.rto_met,
{
    let (c1, c2) = (one_done.card, two_done.card);
    lemma_run_failure_alike(one.manifest(), one.evidence(), two.evidence(), one.step_entries() as int);
    lemma_artifact_rows_alike(c1.artifacts@, c2.artifacts@);
    lemma_evidence_rows_alike(c1.evidence@, c2.evidence@);
    assert(failure_section(c1.failure) == failure_section(c2.failure));
    assert(card_header(c1) == card_header(c2));
    assert(card_markdown(c1) == card_markdown(c2));
}

} // verus!
