//! The Docker commands a rehearsal runs, and what each command's outcome
//! means for the preflight, step, check or teardown it served. The caller runs
//! each command and reports back; nothing here starts a process.
use vstd::prelude::*;
use vstd::string::StringExecFns;
use crate::config::{check_timeout, outcome, step_timeout, texts, Artifact, Check, Manifest, Step};
use crate::isolation::{compose_issue, reject_unsafe_compose, UNSAFE_COMPOSE_PREFIX};
use crate::json::{json_document, parse_json, JsonValue};
use crate::paths::{join_path, joined_path};
use crate::text::{
    chars_of, contains_chars, contains_text, decimal, lossy_text, parse_u64, parsed_u64,
    push_decimal, push_signed_decimal, same_chars, signed_decimal, starts_with, starts_with_chars,
    string_of, trim, trim_chars, utf8_lossy, utf8_text,
};

verus! {

// ---------------------------------------------------------------------------
// Commands and what running them showed
// ---------------------------------------------------------------------------
/// A command for the caller to run: the program, its arguments, and how many
/// seconds it may take before it is killed.
#[derive(Debug)]
pub struct CommandSpec {
    pub program: String,
    pub args: Vec<String>,
    pub timeout_seconds: u64,
}

/// What a finished command showed: its exit code (`None` when a signal ended
/// it) and the bytes it wrote to stdout. Its stderr is never read.
#[derive(Debug)]
pub struct CommandOutput {
    pub code: Option<i32>,
    pub stdout: Vec<u8>,
}

/// The command exited with status 0.
pub open spec fn succeeded(o: CommandOutput) -> bool {
    o.code == Some(0i32)
}

/// How an exit is described in messages.
pub open spec fn exit_label_text(code: Option<i32>) -> Seq<char> {
    match code {
        Some(c) => "code "@ + signed_decimal(c as int),
        None => "a signal"@,
    }
}

/// Describes how a command exited: `code N`, or `a signal`.
pub fn exit_label(output: &CommandOutput) -> (r: String)
    ensures
        r@ == exit_label_text(output.code),
{
    match output.code {
        Some(c) => {
            let mut r = String::from_str("code ");
            push_signed_decimal(&mut r, c);
            r
        },
        None => String::from_str("a signal"),
    }
}

/// The arguments as text.
pub open spec fn command_args(c: CommandSpec) -> Seq<Seq<char>> {
    texts(c.args@)
}

fn push_text(v: &mut Vec<String>, s: &str)
    ensures
        texts(final(v)@) == texts(old(v)@).push(s@),
{
    v.push(String::from_str(s));
    assert(texts(v@) =~= texts(old(v)@).push(s@));
}

fn push_owned(v: &mut Vec<String>, s: String)
    ensures
        texts(final(v)@) == texts(old(v)@).push(s@),
{
    let ghost t = s@;
    v.push(s);
    assert(texts(v@) =~= texts(old(v)@).push(t));
}

fn extend_texts(v: &mut Vec<String>, items: &Vec<String>)
    ensures
        texts(final(v)@) == texts(old(v)@) + texts(items@),
{
    let ghost start = texts(v@);
    let n = items.len();
    for i in 0..n
        invariant
            n == items@.len(),
            texts(v@) == start + texts(items@).take(i as int),
    {
        let item = items[i].clone();
        push_owned(v, item);
        assert(texts(items@).take(i + 1) =~= texts(items@).take(i as int).push(items@[i as int]@));
    }
    assert(texts(items@).take(n as int) =~= texts(items@));
}

// ---------------------------------------------------------------------------
// The Compose invocations
// ---------------------------------------------------------------------------
/// The arguments every Compose command starts with: the Compose file, the
/// project name and the project directory.
pub open spec fn compose_prefix_args(m: Manifest, base: Seq<char>) -> Seq<Seq<char>> {
    seq![
        "compose"@,
        "--file"@,
        joined_path(base, m.compose.file@),
        "--project-name"@,
        m.compose.project@,
        "--project-directory"@,
        base,
    ]
}

/// The leading arguments of every `docker compose` call for this manifest,
/// whose relative paths resolve against `base`.
pub fn compose_prefix(manifest: &Manifest, base: &str) -> (r: Vec<String>)
    ensures
        texts(r@) == compose_prefix_args(*manifest, base@),
{
    let mut r: Vec<String> = Vec::new();
    push_text(&mut r, "compose");
    push_text(&mut r, "--file");
    push_owned(&mut r, join_path(base, manifest.compose.file.as_str()));
    push_text(&mut r, "--project-name");
    push_text(&mut r, manifest.compose.project.as_str());
    push_text(&mut r, "--project-directory");
    push_text(&mut r, base);
    assert(texts(r@) =~= compose_prefix_args(*manifest, base@));
    r
}

/// A command of the Docker CLI.
pub open spec fn docker(args: Seq<Seq<char>>, timeout: u64, c: CommandSpec) -> bool {
    c.program@ == "docker"@ && command_args(c) == args && c.timeout_seconds == timeout
}

fn docker_command(args: Vec<String>, timeout_seconds: u64) -> (r: CommandSpec)
    ensures
        docker(texts(args@), timeout_seconds, r),
{
    CommandSpec { program: String::from_str("docker"), args, timeout_seconds }
}

/// `docker compose config --format json`, which the target must pass first.
pub open spec fn preflight_args(m: Manifest, base: Seq<char>) -> Seq<Seq<char>> {
    compose_prefix_args(m, base) + seq!["config"@, "--format"@, "json"@]
}

/// `docker compose down`, which removes the target with its volumes.
pub open spec fn cleanup_args(m: Manifest, base: Seq<char>) -> Seq<Seq<char>> {
    compose_prefix_args(m, base) + seq![
        "down"@,
        "--volumes"@,
        "--remove-orphans"@,
        "--timeout"@,
        "15"@,
    ]
}

/// The command that validates the Compose model before anything starts.
pub fn preflight_command(manifest: &Manifest, base: &str) -> (r: CommandSpec)
    ensures
        docker(preflight_args(*manifest, base@), 60, r),
{
    let mut args = compose_prefix(manifest, base);
    push_text(&mut args, "config");
    push_text(&mut args, "--format");
    push_text(&mut args, "json");
    assert(texts(args@) =~= preflight_args(*manifest, base@));
    docker_command(args, 60)
}

/// The command that tears the target down.
pub fn cleanup_command(manifest: &Manifest, base: &str) -> (r: CommandSpec)
    ensures
        docker(cleanup_args(*manifest, base@), 60, r),
{
    let mut args = compose_prefix(manifest, base);
    push_text(&mut args, "down");
    push_text(&mut args, "--volumes");
    push_text(&mut args, "--remove-orphans");
    push_text(&mut args, "--timeout");
    push_text(&mut args, "15");
    assert(texts(args@) =~= cleanup_args(*manifest, base@));
    docker_command(args, 60)
}


// ---------------------------------------------------------------------------
// Steps
// ---------------------------------------------------------------------------
/// The first declared artifact with ID `id`.
pub open spec fn find_artifact(artifacts: Seq<Artifact>, id: Seq<char>) -> Option<Artifact>
    decreases artifacts.len(),
{
    if artifacts.len() == 0 {
        None
    } else if artifacts[0].id@ == id {
        Some(artifacts[0])
    } else {
        find_artifact(artifacts.skip(1), id)
    }
}

/// The arguments of the command that performs `step`, or `None` when a copy
/// names an artifact the manifest does not declare.
pub open spec fn step_args(m: Manifest, base: Seq<char>, step: Step) -> Option<Seq<Seq<char>>> {
    let prefix = compose_prefix_args(m, base);
    match step {
        Step::ComposeUp { services, .. } => Some(
            prefix + seq!["up"@, "--detach"@, "--no-build"@, "--pull"@, "never"@] + texts(
                services@,
            ),
        ),
        Step::Copy { artifact, service, destination, .. } => match find_artifact(
            m.artifacts@,
            artifact@,
        ) {
            Some(source) => Some(
                prefix + seq![
                    "cp"@,
                    joined_path(base, source.path@),
                    service@ + ":"@ + destination@,
                ],
            ),
            None => None,
        },
        Step::Exec { service, argv, .. } => Some(
            prefix + seq!["exec"@, "--no-TTY"@, service@] + texts(argv@),
        ),
    }
}

fn find_artifact_path<'a>(artifacts: &'a Vec<Artifact>, id: &String) -> (r: Option<&'a String>)
    ensures
        match find_artifact(artifacts@, id@) {
            Some(a) => r is Some && r->0@ == a.path@,
            None => r is None,
        },
{
    let n = artifacts.len();
    let mut i: usize = 0;
    assert(artifacts@.skip(0) =~= artifacts@);
    while i < n
        invariant
            i <= n == artifacts@.len(),
            find_artifact(artifacts@, id@) == find_artifact(artifacts@.skip(i as int), id@),
        decreases n - i,
    {
        let item = &artifacts[i];
        assert(artifacts@.skip(i as int)[0] == artifacts@[i as int]);
        assert(artifacts@.skip(i as int).skip(1) =~= artifacts@.skip(i + 1));
        if item.id == *id {
            return Some(&item.path);
        }
        i = i + 1;
    }
    None
}

/// The command that performs `step`, or the error that stops it first: a
/// copy of an artifact the manifest does not declare.
pub fn step_command(manifest: &Manifest, base: &str, step: &Step) -> (r: Result<CommandSpec, String>)
    ensures
        match step_args(*manifest, base@, *step) {
            Some(args) => r matches Ok(c) && docker(args, step_timeout(*step), c),
            None => r matches Err(e) && e@ == "unknown artifact "@ + step->Copy_artifact@,
        },
{
    let mut args = compose_prefix(manifest, base);
    match step {
        Step::ComposeUp { services, timeout_seconds, .. } => {
            push_text(&mut args, "up");
            push_text(&mut args, "--detach");
            push_text(&mut args, "--no-build");
            push_text(&mut args, "--pull");
            push_text(&mut args, "never");
            extend_texts(&mut args, services);
            assert(texts(args@) =~= step_args(*manifest, base@, *step)->0);
            Ok(docker_command(args, *timeout_seconds))
        },
        Step::Copy { artifact, service, destination, timeout_seconds, .. } => {
            match find_artifact_path(&manifest.artifacts, artifact) {
                None => {
                    let mut e = String::from_str("unknown artifact ");
                    e.append(artifact.as_str());
                    Err(e)
                },
                Some(path) => {
                    push_text(&mut args, "cp");
                    push_owned(&mut args, join_path(base, path.as_str()));
                    let mut target = service.clone();
                    target.append(":");
                    target.append(destination.as_str());
                    push_owned(&mut args, target);
                    assert(texts(args@) =~= step_args(*manifest, base@, *step)->0);
                    Ok(docker_command(args, *timeout_seconds))
                },
            }
        },
        Step::Exec { service, argv, timeout_seconds, .. } => {
            push_text(&mut args, "exec");
            push_text(&mut args, "--no-TTY");
            push_text(&mut args, service.as_str());
            extend_texts(&mut args, argv);
            assert(texts(args@) =~= step_args(*manifest, base@, *step)->0);
            Ok(docker_command(args, *timeout_seconds))
        },
    }
}

/// The kind a step is recorded under.
pub open spec fn step_kind_text(step: Step) -> Seq<char> {
    match step {
        Step::ComposeUp { .. } => "compose-up"@,
        Step::Copy { .. } => "copy"@,
        Step::Exec { .. } => "exec"@,
    }
}

/// The kind a step is recorded under on the card.
pub fn step_kind(step: &Step) -> (r: &'static str)
    ensures
        r@ == step_kind_text(*step),
{
    match step {
        Step::ComposeUp { .. } => "compose-up",
        Step::Copy { .. } => "copy",
        Step::Exec { .. } => "exec",
    }
}

/// What a step's evidence says once its command exited 0.
pub open spec fn step_detail(step: Step) -> Seq<char> {
    match step {
        Step::ComposeUp { services, .. } => "started "@ + decimal(services@.len()) + " declared service(s)"@,
        Step::Copy { artifact, .. } => "copied artifact `"@ + artifact@ + "` into the isolated target"@,
        Step::Exec { .. } => "declared command exited 0; output omitted"@,
    }
}

/// The outcome of a step, given what running its command gave: the detail
/// recorded when it passed, or the error when it failed.
pub open spec fn step_outcome(step: Step, executed: Result<CommandOutput, String>) -> Result<
    Seq<char>,
    Seq<char>,
> {
    match executed {
        Err(e) => Err(e@),
        Ok(o) => if succeeded(o) {
            Ok(step_detail(step))
        } else {
            Err("container operation exited with "@ + exit_label_text(o.code))
        },
    }
}

/// Texts equal as values: `Ok(a)` for `Ok(s)` exactly when `a == s@`.
pub open spec fn same_text(r: Result<String, String>, expected: Result<Seq<char>, Seq<char>>) -> bool {
    match (r, expected) {
        (Ok(a), Ok(b)) => a@ == b,
        (Err(a), Err(b)) => a@ == b,
        _ => false,
    }
}

/// Judges a step from what running its command gave: whether the process
/// could run, whether it exited 0, and the output-free detail to record.
pub fn run_step(step: &Step, executed: &Result<CommandOutput, String>) -> (r: Result<String, String>)
    ensures
        same_text(r, step_outcome(*step, *executed)),
{
    match executed {
        Err(e) => Err(e.clone()),
        Ok(output) => {
            if !matches!(output.code, Some(0)) {
                let mut e = String::from_str("container operation exited with ");
                let label = exit_label(output);
                e.append(label.as_str());
                return Err(e);
            }
            match step {
                Step::ComposeUp { services, .. } => {
                    let mut d = String::from_str("started ");
                    push_decimal(&mut d, services.len() as u128);
                    d.append(" declared service(s)");
                    Ok(d)
                },
                Step::Copy { artifact, .. } => {
                    let mut d = String::from_str("copied artifact `");
                    d.append(artifact.as_str());
                    d.append("` into the isolated target");
                    Ok(d)
                },
                Step::Exec { .. } => Ok(String::from_str("declared command exited 0; output omitted")),
            }
        },
    }
}


// ---------------------------------------------------------------------------
// Checks
// ---------------------------------------------------------------------------
/// The arguments of a check's command: `ps --quiet` for a health check, else
/// the check's argv run in its service.
pub open spec fn check_args(m: Manifest, base: Seq<char>, check: Check) -> Seq<Seq<char>> {
    let prefix = compose_prefix_args(m, base);
    match check {
        Check::Health { service, .. } => prefix + seq!["ps"@, "--quiet"@, service@],
        Check::RowCount { service, argv, .. } => prefix + seq!["exec"@, "--no-TTY"@, service@]
            + texts(argv@),
        Check::ExitCode { service, argv, .. } => prefix + seq!["exec"@, "--no-TTY"@, service@]
            + texts(argv@),
    }
}

/// The command a check starts with.
pub fn check_command(manifest: &Manifest, base: &str, check: &Check) -> (r: CommandSpec)
    ensures
        docker(check_args(*manifest, base@, *check), check_timeout(*check), r),
{
    let mut args = compose_prefix(manifest, base);
    match check {
        Check::Health { service, timeout_seconds, .. } => {
            push_text(&mut args, "ps");
            push_text(&mut args, "--quiet");
            push_text(&mut args, service.as_str());
            assert(texts(args@) =~= check_args(*manifest, base@, *check));
            docker_command(args, *timeout_seconds)
        },
        Check::RowCount { service, argv, timeout_seconds, .. } => {
            push_text(&mut args, "exec");
            push_text(&mut args, "--no-TTY");
            push_text(&mut args, service.as_str());
            extend_texts(&mut args, argv);
            assert(texts(args@) =~= check_args(*manifest, base@, *check));
            docker_command(args, *timeout_seconds)
        },
        Check::ExitCode { service, argv, timeout_seconds, .. } => {
            push_text(&mut args, "exec");
            push_text(&mut args, "--no-TTY");
            push_text(&mut args, service.as_str());
            extend_texts(&mut args, argv);
            assert(texts(args@) =~= check_args(*manifest, base@, *check));
            docker_command(args, *timeout_seconds)
        },
    }
}

/// The Go template that reads a container's health, or its state when it
/// declares no healthcheck.
pub open spec fn health_format() -> Seq<char> {
    "{{if .State.Health}}{{.State.Health.Status}}{{else}}{{.State.Status}}{{end}}"@
}

/// `docker inspect` of the container a health check found.
pub open spec fn inspect_args(container: Seq<char>) -> Seq<Seq<char>> {
    seq!["inspect"@, "--format"@, health_format(), container]
}

/// The command that reads the health of `container`.
pub fn inspect_command(container: &str, timeout_seconds: u64) -> (r: CommandSpec)
    ensures
        docker(inspect_args(container@), timeout_seconds, r),
{
    let mut args: Vec<String> = Vec::new();
    push_text(&mut args, "inspect");
    push_text(&mut args, "--format");
    push_text(
        &mut args,
        "{{if .State.Health}}{{.State.Health.Status}}{{else}}{{.State.Status}}{{end}}",
    );
    push_text(&mut args, container);
    assert(texts(args@) =~= inspect_args(container@));
    docker_command(args, timeout_seconds)
}

/// The trimmed text a command printed, invalid UTF-8 replaced.
pub open spec fn printed(o: CommandOutput) -> Seq<char> {
    trim(utf8_lossy(o.stdout@))
}

fn printed_chars(o: &CommandOutput) -> (r: Vec<char>)
    ensures
        r@ == printed(*o),
{
    let text = lossy_text(o.stdout.as_slice());
    let chars = chars_of(text.as_str());
    trim_chars(&chars)
}

/// The container a health check's `ps` found, or why there is none.
pub open spec fn health_container_outcome(executed: Result<CommandOutput, String>) -> Result<
    Seq<char>,
    Seq<char>,
> {
    match executed {
        Err(e) => Err(e@),
        Ok(o) => if !succeeded(o) {
            Err("could not resolve service container"@)
        } else if printed(o).len() == 0 {
            Err("service has no running container"@)
        } else {
            Ok(printed(o))
        },
    }
}

/// Reads the container ID from what a health check's `ps` gave.
pub fn health_container(executed: &Result<CommandOutput, String>) -> (r: Result<String, String>)
    ensures
        same_text(r, health_container_outcome(*executed)),
{
    match executed {
        Err(e) => Err(e.clone()),
        Ok(o) => {
            if !matches!(o.code, Some(0)) {
                return Err(String::from_str("could not resolve service container"));
            }
            let id = printed_chars(o);
            if id.len() == 0 {
                return Err(String::from_str("service has no running container"));
            }
            Ok(string_of(&id))
        },
    }
}

/// The outcome of a health check, given what inspecting its container gave.
pub open spec fn health_outcome(executed: Result<CommandOutput, String>) -> Result<
    Seq<char>,
    Seq<char>,
> {
    match executed {
        Err(e) => Err(e@),
        Ok(o) => if !succeeded(o) || printed(o) != "healthy"@ {
            Err("service health is `"@ + printed(o) + "`; declare a Compose healthcheck"@)
        } else {
            Ok("service reported healthy"@)
        },
    }
}

/// The message of a check command that did not exit 0, or `None` when it did.
pub open spec fn exec_check_failure(executed: Result<CommandOutput, String>) -> Option<Seq<char>> {
    match executed {
        Err(e) => Some(e@),
        Ok(o) => if succeeded(o) {
            None
        } else {
            Some("check exited with "@ + exit_label_text(o.code) + "; output omitted"@)
        },
    }
}

/// The upper end of an expected range as written in messages.
pub open spec fn range_end(max: Option<u64>) -> Seq<char> {
    match max {
        Some(v) => decimal(v as nat),
        None => "∞"@,
    }
}

/// The expected range `min..max` as written in messages.
pub open spec fn range_text(min: u64, max: Option<u64>) -> Seq<char> {
    decimal(min as nat) + ".."@ + range_end(max)
}

/// The outcome of a row-count check, given what its command gave: the
/// command must exit 0 and print one integer, which must lie in the range.
pub open spec fn row_count_outcome(min: u64, max: Option<u64>, executed: Result<CommandOutput, String>) -> Result<
    Seq<char>,
    Seq<char>,
> {
    match exec_check_failure(executed) {
        Some(e) => Err(e),
        None => {
            let stdout = executed->Ok_0.stdout@;
            if !vstd::utf8::valid_utf8(stdout) {
                Err("row-count output was not UTF-8"@)
            } else {
                match parsed_u64(trim(vstd::utf8::decode_utf8(stdout))) {
                    None => Err("row-count command must print one integer only"@),
                    Some(count) => if count < min || (max matches Some(upper) && count > upper) {
                        Err(
                            "row count "@ + decimal(count as nat) + " is outside expected range "@
                                + range_text(min, max),
                        )
                    } else {
                        Ok(
                            "count "@ + decimal(count as nat) + " is within expected range "@
                                + range_text(min, max),
                        )
                    },
                }
            }
        },
    }
}

/// The outcome of a check, given what its last command gave (for a health
/// check, the `inspect` of its container).
pub open spec fn check_outcome(check: Check, executed: Result<CommandOutput, String>) -> Result<
    Seq<char>,
    Seq<char>,
> {
    match check {
        Check::Health { .. } => health_outcome(executed),
        Check::RowCount { min, max, .. } => row_count_outcome(min, max, executed),
        Check::ExitCode { .. } => match exec_check_failure(executed) {
            Some(e) => Err(e),
            None => Ok("declared check exited 0; output omitted"@),
        },
    }
}

fn exec_check(executed: &Result<CommandOutput, String>) -> (r: Result<&CommandOutput, String>)
    ensures
        match exec_check_failure(*executed) {
            Some(e) => r matches Err(m) && m@ == e,
            None => r matches Ok(o) && *executed == Ok::<CommandOutput, String>(*o),
        },
{
    match executed {
        Err(e) => Err(e.clone()),
        Ok(o) => {
            if matches!(o.code, Some(0)) {
                Ok(o)
            } else {
                let mut m = String::from_str("check exited with ");
                let label = exit_label(o);
                m.append(label.as_str());
                m.append("; output omitted");
                Err(m)
            }
        },
    }
}

fn push_range(out: &mut String, min: u64, max: Option<u64>)
    ensures
        final(out)@ == old(out)@ + range_text(min, max),
{
    push_decimal(out, min as u128);
    out.append("..");
    match max {
        Some(v) => push_decimal(out, v as u128),
        None => out.append("∞"),
    }
}

fn row_count(min: u64, max: Option<u64>, executed: &Result<CommandOutput, String>) -> (r: Result<
    String,
    String,
>)
    ensures
        same_text(r, row_count_outcome(min, max, *executed)),
{
    let o = match exec_check(executed) {
        Err(e) => return Err(e),
        Ok(o) => o,
    };
    let source = match utf8_text(o.stdout.as_slice()) {
        None => return Err(String::from_str("row-count output was not UTF-8")),
        Some(s) => s,
    };
    let chars = chars_of(source.as_str());
    let trimmed = trim_chars(&chars);
    let count = match parse_u64(&trimmed) {
        None => return Err(String::from_str("row-count command must print one integer only")),
        Some(c) => c,
    };
    let outside = count < min || match max {
        Some(upper) => count > upper,
        None => false,
    };
    if outside {
        let mut m = String::from_str("row count ");
        push_decimal(&mut m, count as u128);
        m.append(" is outside expected range ");
        push_range(&mut m, min, max);
        Err(m)
    } else {
        let mut d = String::from_str("count ");
        push_decimal(&mut d, count as u128);
        d.append(" is within expected range ");
        push_range(&mut d, min, max);
        Ok(d)
    }
}

/// Judges a check from what its last command gave (for a health check, the
/// `inspect` of the container its `ps` found): the output-free detail to
/// record when it passed, or the error when it failed.
pub fn run_check(check: &Check, executed: &Result<CommandOutput, String>) -> (r: Result<String, String>)
    ensures
        same_text(r, check_outcome(*check, *executed)),
{
    match check {
        Check::Health { .. } => {
            let o = match executed {
                Err(e) => return Err(e.clone()),
                Ok(o) => o,
            };
            let state = printed_chars(o);
            let healthy = chars_of("healthy");
            if !matches!(o.code, Some(0)) || !same_chars(&state, &healthy) {
                let mut m = String::from_str("service health is `");
                let text = string_of(&state);
                m.append(text.as_str());
                m.append("`; declare a Compose healthcheck");
                return Err(m);
            }
            Ok(String::from_str("service reported healthy"))
        },
        Check::RowCount { min, max, .. } => row_count(*min, *max, executed),
        Check::ExitCode { .. } => match exec_check(executed) {
            Err(e) => Err(e),
            Ok(_) => Ok(String::from_str("declared check exited 0; output omitted")),
        },
    }
}

/// The kind a check is recorded under.
pub open spec fn check_kind_text(check: Check) -> Seq<char> {
    match check {
        Check::Health { .. } => "health"@,
        Check::RowCount { .. } => "row-count"@,
        Check::ExitCode { .. } => "exit-code"@,
    }
}

/// The kind a check is recorded under on the card.
pub fn check_kind(check: &Check) -> (r: &'static str)
    ensures
        r@ == check_kind_text(*check),
{
    match check {
        Check::Health { .. } => "health",
        Check::RowCount { .. } => "row-count",
        Check::ExitCode { .. } => "exit-code",
    }
}

// ---------------------------------------------------------------------------
// Cleanup
// ---------------------------------------------------------------------------
/// Why tearing the target down failed, or `None` when it succeeded.
pub open spec fn cleanup_failure(executed: Result<CommandOutput, String>) -> Option<Seq<char>> {
    match executed {
        Err(e) => Some(e@),
        Ok(o) => if succeeded(o) {
            None
        } else {
            Some("compose down exited with "@ + exit_label_text(o.code))
        },
    }
}

/// Judges the teardown from what `docker compose down` gave.
pub fn cleanup(executed: &Result<CommandOutput, String>) -> (r: Result<(), String>)
    ensures
        outcome(r) == cleanup_failure(*executed),
{
    match executed {
        Err(e) => Err(e.clone()),
        Ok(o) => {
            if matches!(o.code, Some(0)) {
                Ok(())
            } else {
                let mut m = String::from_str("compose down exited with ");
                let label = exit_label(o);
                m.append(label.as_str());
                Err(m)
            }
        },
    }
}

// ---------------------------------------------------------------------------
// Preflight
// ---------------------------------------------------------------------------
/// Why the target may not be used, given what `docker compose config` gave
/// and the JSON model its stdout held (`None` when it was not JSON).
pub open spec fn preflight_issue(
    executed: Result<CommandOutput, String>,
    config: Option<JsonValue>,
    project: Seq<char>,
) -> Option<Seq<char>> {
    match executed {
        Err(e) => Some(e@),
        Ok(o) => if !succeeded(o) {
            Some("Docker Compose could not validate the rehearsal target"@)
        } else {
            match config {
                None => Some("Docker Compose returned invalid config JSON"@),
                Some(c) => compose_issue(c, project),
            }
        },
    }
}

/// The JSON model that `docker compose config` printed, when it printed one.
pub open spec fn printed_model(executed: Result<CommandOutput, String>) -> Option<JsonValue> {
    match executed {
        Ok(o) => json_document(o.stdout@),
        Err(_) => None,
    }
}

/// Accepts the target only when Compose validated it and the JSON model it
/// printed keeps the rehearsal isolated from the host.
pub fn preflight_compose(executed: &Result<CommandOutput, String>, project: &str) -> (r: Result<
    (),
    String,
>)
    ensures
        outcome(r) == preflight_issue(*executed, printed_model(*executed), project@),
{
    match executed {
        Err(e) => Err(e.clone()),
        Ok(o) => {
            if !matches!(o.code, Some(0)) {
                return Err(String::from_str("Docker Compose could not validate the rehearsal target"));
            }
            match parse_json(o.stdout.as_slice()) {
                None => Err(String::from_str("Docker Compose returned invalid config JSON")),
                Some(c) => reject_unsafe_compose(&c, project),
            }
        },
    }
}


// ---------------------------------------------------------------------------
// Exit codes
// ---------------------------------------------------------------------------
/// The message of a run that did not complete is a safety refusal: a Compose
/// isolation refusal, or one that names a refused kind of access.
pub open spec fn safety_refusal(message: Seq<char>) -> bool {
    ||| starts_with(message, UNSAFE_COMPOSE_PREFIX@)
    ||| contains_text(message, "host networking"@)
    ||| contains_text(message, "privileged"@)
    ||| contains_text(message, "bind mount"@)
    ||| contains_text(message, "external networks"@)
    ||| contains_text(message, "external volumes"@)
    ||| contains_text(message, "confirmation"@)
}

/// The exit code for a run that did not complete: 3 for a safety refusal,
/// 4 for any other failure.
pub fn run_error_exit_code(message: &str) -> (r: u8)
    ensures
        r == if safety_refusal(message@) {
            3u8
        } else {
            4u8
        },
{
    let text = chars_of(message);
    let host = chars_of("host networking");
    let privileged = chars_of("privileged");
    let bind = chars_of("bind mount");
    let networks = chars_of("external networks");
    let volumes = chars_of("external volumes");
    let confirmation = chars_of("confirmation");
    let refusal = chars_of(UNSAFE_COMPOSE_PREFIX);
    if starts_with_chars(&text, &refusal) || contains_chars(&text, &host) || contains_chars(&text, &privileged) || contains_chars(
        &text,
        &bind,
    ) || contains_chars(&text, &networks) || contains_chars(&text, &volumes) || contains_chars(
        &text,
        &confirmation,
    ) {
        3
    } else {
        4
    }
}


// ---------------------------------------------------------------------------
// What reaches the card of a command's output
// ---------------------------------------------------------------------------
/// A step's outcome, and an exit-code check's, depends on how its command
/// exited and never on what it printed.
pub proof fn lemma_exit_status_alone_decides(step: Step, check: Check, a: CommandOutput, b: CommandOutput)
    requires
        a.code == b.code,
        check is ExitCode,
    ensures
        step_outcome(step, Ok(a)) == step_outcome(step, Ok(b)),
        check_outcome(check, Ok(a)) == check_outcome(check, Ok(b)),
{
}

/// A row-count check reads nothing of its command's output but the integer it
/// printed: two outputs that print the same integer give the same outcome.
pub proof fn lemma_row_count_reads_only_the_count(
    check: Check,
    a: CommandOutput,
    b: CommandOutput,
)
    requires
        check is RowCount,
        a.code == b.code,
        vstd::utf8::valid_utf8(a.stdout@),
        vstd::utf8::valid_utf8(b.stdout@),
        parsed_u64(trim(vstd::utf8::decode_utf8(a.stdout@))) == parsed_u64(
            trim(vstd::utf8::decode_utf8(b.stdout@)),
        ),
    ensures
        check_outcome(check, Ok(a)) == check_outcome(check, Ok(b)),
{
}


/// Two outcomes of a command that the rehearsal cannot tell apart: the same
/// error, or exits with the same code whose output reads the same once
/// trimmed, is valid UTF-8 alike and, where it is, holds the same count.
pub open spec fn alike(a: Result<CommandOutput, String>, b: Result<CommandOutput, String>) -> bool {
    match (a, b) {
        (Err(x), Err(y)) => x@ == y@,
        (Ok(p), Ok(q)) => {
            &&& p.code == q.code
            &&& printed(p) == printed(q)
            &&& vstd::utf8::valid_utf8(p.stdout@) == vstd::utf8::valid_utf8(q.stdout@)
            &&& vstd::utf8::valid_utf8(p.stdout@) ==> parsed_u64(
                trim(vstd::utf8::decode_utf8(p.stdout@)),
            ) == parsed_u64(trim(vstd::utf8::decode_utf8(q.stdout@)))
        },
        _ => false,
    }
}

/// Outcomes the rehearsal cannot tell apart are judged alike by every step,
/// check, health lookup and teardown.
pub proof fn lemma_alike_outcomes_judged_alike(
    step: Step,
    check: Check,
    a: Result<CommandOutput, String>,
    b: Result<CommandOutput, String>,
)
    requires
        alike(a, b),
    ensures
        step_outcome(step, a) == step_outcome(step, b),
        check_outcome(check, a) == check_outcome(check, b),
        health_container_outcome(a) == health_container_outcome(b),
        health_outcome(a) == health_outcome(b),
        cleanup_failure(a) == cleanup_failure(b),
{
}


// ---------------------------------------------------------------------------
// What the checks and steps promise
// ---------------------------------------------------------------------------
/// A row-count check passes exactly when the count its command printed lies
/// in the declared range: at least `min`, and at most `max` when there is
/// one. A count below `min` fails whatever `max` is.
pub proof fn lemma_row_count_accepts_exactly_the_range(check: Check, o: CommandOutput, count: u64)
    requires
        check is RowCount,
        o.code == Some(0i32),
        vstd::utf8::valid_utf8(o.stdout@),
        parsed_u64(trim(vstd::utf8::decode_utf8(o.stdout@))) == Some(count),
    ensures
        check_outcome(check, Ok(o)) is Ok <==> check->RowCount_min <= count && (
        check->RowCount_max is None || count <= check->RowCount_max->0),
        count < check->RowCount_min ==> check_outcome(check, Ok(o)) is Err,
        check_outcome(check, Ok(o)) is Ok ==> check->RowCount_min <= count,
        check_outcome(check, Ok(o)) matches Ok(detail) ==> starts_with(detail, "count "@ + decimal(count as nat)),
        check_outcome(check, Ok(o)) matches Err(error) ==> starts_with(
            error,
            "row count "@ + decimal(count as nat),
        ),
{
    let detail = "count "@ + decimal(count as nat);
    let refusal = "row count "@ + decimal(count as nat);
    if check_outcome(check, Ok(o)) is Ok {
        let d = check_outcome(check, Ok(o))->Ok_0;
        assert(d.subrange(0, detail.len() as int) =~= detail);
    } else {
        let e = check_outcome(check, Ok(o))->Err_0;
        assert(e.subrange(0, refusal.len() as int) =~= refusal);
    }
}

/// A compose-up step's command starts every declared service, in the
/// declared order, after the prefix and the five `up` flags; an exec step's
/// command ends with its whole argv, run in its service.
pub proof fn lemma_step_commands_carry_every_item(m: Manifest, base: Seq<char>, step: Step)
    ensures
        step is ComposeUp ==> step_args(m, base, step) is Some && {
            let args = step_args(m, base, step)->0;
            let services = texts(step->ComposeUp_services@);
            &&& args.len() == 12 + services.len()
            &&& args.take(7) == compose_prefix_args(m, base)
            &&& args.subrange(7, 12) == seq!["up"@, "--detach"@, "--no-build"@, "--pull"@, "never"@]
            &&& args.skip(12) == services
        },
        step is Copy && find_artifact(m.artifacts@, step->Copy_artifact@) is Some ==> step_args(
            m,
            base,
            step,
        ) == Some(
            compose_prefix_args(m, base) + seq![
                "cp"@,
                joined_path(base, find_artifact(m.artifacts@, step->Copy_artifact@)->0.path@),
                step->Copy_service@ + ":"@ + step->Copy_destination@,
            ],
        ),
        step is Copy && find_artifact(m.artifacts@, step->Copy_artifact@) is None ==> step_args(
            m,
            base,
            step,
        ) is None,
        step is Exec ==> step_args(m, base, step) is Some && {
            let args = step_args(m, base, step)->0;
            let argv = texts(step->Exec_argv@);
            &&& args.len() == 10 + argv.len()
            &&& args.take(7) == compose_prefix_args(m, base)
            &&& args.subrange(7, 10) == seq!["exec"@, "--no-TTY"@, step->Exec_service@]
            &&& args.skip(10) == argv
        },
{
    if step is ComposeUp {
        let args = step_args(m, base, step)->0;
        let services = texts(step->ComposeUp_services@);
        assert(args.take(7) =~= compose_prefix_args(m, base));
        assert(args.subrange(7, 12) =~= seq!["up"@, "--detach"@, "--no-build"@, "--pull"@, "never"@]);
        assert(args.skip(12) =~= services);
    }
    if step is Exec {
        let args = step_args(m, base, step)->0;
        assert(args.take(7) =~= compose_prefix_args(m, base));
        assert(args.subrange(7, 10) =~= seq!["exec"@, "--no-TTY"@, step->Exec_service@]);
        assert(args.skip(10) =~= texts(step->Exec_argv@));
    }
}

} // verus!
