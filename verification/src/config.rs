//! The typed rehearsal manifest and the rules it must satisfy before anything
//! touches Docker.
use vstd::prelude::*;
use vstd::string::StringExecFns;
use vstd::utf8::encode_utf8;
use crate::paths::{join_path, joined_path};
use crate::yaml::{get, mapping_len, mapping_size, parse_yaml, yaml_document, yaml_get, YamlValue};
use crate::report::{read_signing_key, signing_key_outcome};
use crate::text::{
    ascii_lowercase, chars_of, contains_chars, contains_text, decimal, lowercase_chars,
    push_decimal, starts_with, starts_with_chars, string_of, trim, trim_bounds,
};

verus! {

// ---------------------------------------------------------------------------
// The manifest
// ---------------------------------------------------------------------------
/// A rehearsal manifest: what to start, what to restore, and how to check it.
#[derive(Debug, Clone)]
pub struct Manifest {
    pub version: u8,
    pub name: String,
    pub rto_seconds: u64,
    pub signing_key: String,
    pub compose: Compose,
    pub artifacts: Vec<Artifact>,
    pub steps: Vec<Step>,
    pub checks: Vec<Check>,
}

/// The disposable Compose target.
#[derive(Debug, Clone)]
pub struct Compose {
    pub file: String,
    pub project: String,
}

/// A local input, identified by a stable ID and hashed into the card.
#[derive(Debug, Clone)]
pub struct Artifact {
    pub id: String,
    pub path: String,
}

/// A typed restore step.
#[derive(Debug, Clone)]
pub enum Step {
    ComposeUp { id: String, services: Vec<String>, timeout_seconds: u64 },
    Copy {
        id: String,
        artifact: String,
        service: String,
        destination: String,
        timeout_seconds: u64,
    },
    Exec { id: String, service: String, argv: Vec<String>, timeout_seconds: u64 },
}

/// A typed post-restore check.
#[derive(Debug, Clone)]
pub enum Check {
    Health { id: String, service: String, timeout_seconds: u64 },
    RowCount {
        id: String,
        service: String,
        argv: Vec<String>,
        min: u64,
        max: Option<u64>,
        timeout_seconds: u64,
    },
    ExitCode { id: String, service: String, argv: Vec<String>, timeout_seconds: u64 },
}

/// The timeout a step or check gets when the manifest names none.
pub fn default_timeout() -> (r: u64)
    ensures
        r == 120,
{
    120
}

impl Step {
    /// The step's ID.
    pub open spec fn spec_id(&self) -> Seq<char> {
        match self {
            Step::ComposeUp { id, .. } => id@,
            Step::Copy { id, .. } => id@,
            Step::Exec { id, .. } => id@,
        }
    }

    pub fn id_string(&self) -> (r: &String)
        ensures
            r@ == self.spec_id(),
    {
        match self {
            Step::ComposeUp { id, .. } => id,
            Step::Copy { id, .. } => id,
            Step::Exec { id, .. } => id,
        }
    }

    /// The step's ID.
    pub fn id(&self) -> (r: &str)
        ensures
            r@ == self.spec_id(),
    {
        self.id_string().as_str()
    }
}

impl Check {
    /// The check's ID.
    pub open spec fn spec_id(&self) -> Seq<char> {
        match self {
            Check::Health { id, .. } => id@,
            Check::RowCount { id, .. } => id@,
            Check::ExitCode { id, .. } => id@,
        }
    }

    pub fn id_string(&self) -> (r: &String)
        ensures
            r@ == self.spec_id(),
    {
        match self {
            Check::Health { id, .. } => id,
            Check::RowCount { id, .. } => id,
            Check::ExitCode { id, .. } => id,
        }
    }

    /// The check's ID.
    pub fn id(&self) -> (r: &str)
        ensures
            r@ == self.spec_id(),
    {
        self.id_string().as_str()
    }
}

/// The view of a list of strings as a sequence of character sequences.
pub open spec fn texts(v: Seq<String>) -> Seq<Seq<char>> {
    v.map_values(|s: String| s@)
}

/// What a check reports: `None` when it passes, else the message.
pub open spec fn outcome(r: Result<(), String>) -> Option<Seq<char>> {
    match r {
        Ok(_) => None,
        Err(e) => Some(e@),
    }
}

// ---------------------------------------------------------------------------
// Field rules
// ---------------------------------------------------------------------------
/// A label holds non-blank text of at most 80 bytes.
pub open spec fn label_issue(field: Seq<char>, value: Seq<char>) -> Option<Seq<char>> {
    if trim(value).len() == 0 || encode_utf8(value).len() > 80 {
        Some(field + " must contain 1–80 characters"@)
    } else {
        None
    }
}

/// A character allowed in an ID.
pub open spec fn is_id_char(c: char) -> bool {
    ||| ('a' <= c && c <= 'z')
    ||| ('A' <= c && c <= 'Z')
    ||| ('0' <= c && c <= '9')
    ||| c == '-'
    ||| c == '_'
}

/// An ID holds 1 to 48 bytes, each an ASCII letter, digit, hyphen or underscore.
pub open spec fn id_issue(kind: Seq<char>, value: Seq<char>) -> Option<Seq<char>> {
    if encode_utf8(value).len() == 0 || encode_utf8(value).len() > 48 || exists|i: int|
        0 <= i < value.len() && !is_id_char(#[trigger] value[i]) {
        Some(kind + " id must use 1–48 letters, digits, hyphens, or underscores"@)
    } else {
        None
    }
}

/// A timeout lies between 1 and 3600 seconds.
pub open spec fn timeout_issue(value: u64) -> Option<Seq<char>> {
    if !(1 <= value && value <= 3600) {
        Some("timeout_seconds must be between 1 and 3600"@)
    } else {
        None
    }
}

/// The index of the last `/` in `p`, if any.
pub open spec fn last_slash(p: Seq<char>) -> Option<int>
    decreases p.len(),
{
    if p.len() == 0 {
        None
    } else if p.last() == '/' {
        Some(p.len() - 1)
    } else {
        last_slash(p.drop_last())
    }
}

/// `Path::file_name` on Unix: the last component, unless the path ends in
/// `..`, a root, or nothing at all. Empty components and `.` are skipped.
pub open spec fn file_name(p: Seq<char>) -> Option<Seq<char>>
    decreases p.len(),
{
    let (rest, segment) = match last_slash(p) {
        Some(i) => (p.take(i), p.skip(i + 1)),
        None => (Seq::empty(), p),
    };
    if segment.len() == 0 || segment == seq!['.'] {
        if last_slash(p) is Some && rest.len() < p.len() {
            file_name(rest)
        } else {
            None
        }
    } else if segment == seq!['.', '.'] {
        None
    } else {
        Some(segment)
    }
}

/// The executables that interpret a command line themselves: the shells that
/// container images ship (BusyBox's among them, which also runs as `busybox sh`)
/// and the Windows ones.
pub open spec fn is_shell(name: Seq<char>) -> bool {
    ||| name == "sh"@
    ||| name == "ash"@
    ||| name == "bash"@
    ||| name == "dash"@
    ||| name == "zsh"@
    ||| name == "ksh"@
    ||| name == "mksh"@
    ||| name == "csh"@
    ||| name == "tcsh"@
    ||| name == "yash"@
    ||| name == "fish"@
    ||| name == "busybox"@
    ||| name == "cmd"@
    ||| name == "powershell"@
    ||| name == "pwsh"@
}

/// The lower-cased file name of the program an argv runs.
pub open spec fn executable_name(argv: Seq<Seq<char>>) -> Seq<char> {
    match file_name(argv[0]) {
        Some(name) => ascii_lowercase(name),
        None => Seq::empty(),
    }
}

/// An argv holds 1 to 64 arguments without NUL, and does not start a shell.
pub open spec fn argv_issue(argv: Seq<Seq<char>>) -> Option<Seq<char>> {
    if argv.len() == 0 || argv.len() > 64 || exists|i: int|
        0 <= i < argv.len() && (#[trigger] argv[i]).contains('\0') {
        Some("argv must contain 1–64 non-NUL arguments"@)
    } else if is_shell(executable_name(argv)) {
        Some("shell interpreters are not allowed in argv: "@ + executable_name(argv))
    } else {
        None
    }
}

/// Checks that `value`, the value of `field`, is a non-blank label of at most 80 bytes.
pub fn validate_label(field: &str, value: &str) -> (r: Result<(), String>)
    ensures
        outcome(r) == label_issue(field@, value@),
{
    let chars = chars_of(value);
    let (start, end) = trim_bounds(&chars);
    if start == end || value.as_bytes().len() > 80 {
        let mut message = String::from_str(field);
        message.append(" must contain 1–80 characters");
        return Err(message);
    }
    Ok(())
}

fn id_char(c: char) -> (r: bool)
    ensures
        r == is_id_char(c),
{
    ('a' <= c && c <= 'z') || ('A' <= c && c <= 'Z') || ('0' <= c && c <= '9') || c == '-' || c
        == '_'
}

/// Checks that `value`, an ID of a `kind`, is 1 to 48 ASCII letters, digits,
/// hyphens or underscores.
pub fn validate_id(kind: &str, value: &str) -> (r: Result<(), String>)
    ensures
        outcome(r) == id_issue(kind@, value@),
{
    let chars = chars_of(value);
    let mut all_allowed = true;
    let n = chars.len();
    for i in 0..n
        invariant
            n == chars@.len(),
            chars@ == value@,
            all_allowed == (forall|j: int| 0 <= j < i ==> is_id_char(#[trigger] value@[j])),
    {
        if !id_char(chars[i]) {
            all_allowed = false;
        }
    }
    let byte_len = value.as_bytes().len();
    if byte_len == 0 || byte_len > 48 || !all_allowed {
        let mut message = String::from_str(kind);
        message.append(" id must use 1–48 letters, digits, hyphens, or underscores");
        return Err(message);
    }
    Ok(())
}

/// Checks a service name by the rules for IDs.
pub fn validate_service(value: &str) -> (r: Result<(), String>)
    ensures
        outcome(r) == id_issue("service"@, value@),
{
    validate_id("service", value)
}

/// Checks that a timeout lies between 1 and 3600 seconds.
pub fn validate_timeout(value: u64) -> (r: Result<(), String>)
    ensures
        outcome(r) == timeout_issue(value),
{
    if !(1 <= value && value <= 3600) {
        return Err(String::from_str("timeout_seconds must be between 1 and 3600"));
    }
    Ok(())
}

/// The position of the last `/` in `p`.
fn find_last_slash(p: &[char]) -> (r: Option<usize>)
    ensures
        match r {
            Some(i) => last_slash(p@) == Some(i as int) && i < p@.len(),
            None => last_slash(p@) is None,
        },
{
    let mut k = p.len();
    assert(p@.take(k as int) == p@);
    while k > 0
        invariant
            k <= p@.len(),
            last_slash(p@) == last_slash(p@.take(k as int)),
        decreases k,
    {
        assert(p@.take(k as int).drop_last() == p@.take(k - 1));
        if p[k - 1] == '/' {
            return Some(k - 1);
        }
        k = k - 1;
    }
    None
}

/// `Path::file_name` of `p`, as characters.
fn file_name_chars(p: &[char]) -> (r: Option<Vec<char>>)
    ensures
        match r {
            Some(name) => file_name(p@) == Some(name@),
            None => file_name(p@) is None,
        },
    decreases p@.len(),
{
    let n = p.len();
    let slash = find_last_slash(p);
    let (rest_end, seg_start) = match slash {
        Some(i) => (i, i + 1),
        None => (0, 0),
    };
    proof {
        if slash is None {
            assert(p@.skip(0) == p@);
        }
    }
    let seg_len = n - seg_start;
    assert(p@.skip(seg_start as int) == p@.subrange(seg_start as int, n as int));
    if seg_len == 0 || (seg_len == 1 && p[seg_start] == '.') {
        proof {
            if seg_len == 1 {
                assert(p@.skip(seg_start as int) == seq!['.']);
            } else {
                assert(p@.skip(seg_start as int) == Seq::<char>::empty());
            }
        }
        if slash.is_some() && rest_end < n {
            let mut rest: Vec<char> = Vec::new();
            for i in 0..rest_end
                invariant
                    rest_end <= n == p@.len(),
                    rest@ == p@.take(i as int),
            {
                rest.push(p[i]);
                assert(p@.take(i + 1) == p@.take(i as int).push(p@[i as int]));
            }
            return file_name_chars(&rest);
        }
        return None;
    }
    if seg_len == 2 && p[seg_start] == '.' && p[seg_start + 1] == '.' {
        assert(p@.skip(seg_start as int) == seq!['.', '.']);
        return None;
    }
    proof {
        assert(p@.skip(seg_start as int)[0] == p@[seg_start as int]);
        if seg_len == 2 {
            assert(p@.skip(seg_start as int)[1] == p@[seg_start + 1]);
        }
    }
    let mut segment: Vec<char> = Vec::new();
    let mut i = seg_start;
    while i < n
        invariant
            seg_start <= i <= n == p@.len(),
            segment@ == p@.subrange(seg_start as int, i as int),
        decreases n - i,
    {
        segment.push(p[i]);
        assert(p@.subrange(seg_start as int, i + 1) == p@.subrange(seg_start as int, i as int).push(
            p@[i as int],
        ));
        i = i + 1;
    }
    Some(segment)
}

fn contains_nul(s: &str) -> (r: bool)
    ensures
        r == s@.contains('\0'),
{
    let chars = chars_of(s);
    let n = chars.len();
    for i in 0..n
        invariant
            n == chars@.len(),
            chars@ == s@,
            forall|j: int| 0 <= j < i ==> s@[j] != '\0',
    {
        if chars[i] == '\0' {
            return true;
        }
    }
    false
}

fn is_shell_name(name: &[char]) -> (r: bool)
    ensures
        r == is_shell(name@),
{
    let s = string_of(name);
    s == String::from_str("sh")
        || s == String::from_str("ash")
        || s == String::from_str("bash")
        || s == String::from_str("dash")
        || s == String::from_str("zsh")
        || s == String::from_str("ksh")
        || s == String::from_str("mksh")
        || s == String::from_str("csh")
        || s == String::from_str("tcsh")
        || s == String::from_str("yash")
        || s == String::from_str("fish")
        || s == String::from_str("busybox")
        || s == String::from_str("cmd")
        || s == String::from_str("powershell")
        || s == String::from_str("pwsh")
}

/// Accepts an argv of 1 to 64 arguments without NUL whose program is not a shell.
pub fn validate_argv(argv: &[String]) -> (r: Result<(), String>)
    ensures
        outcome(r) == argv_issue(texts(argv@)),
{
    let ghost view = texts(argv@);
    let n = argv.len();
    let mut has_nul = false;
    for i in 0..n
        invariant
            n == argv@.len(),
            view == texts(argv@),
            has_nul == (exists|j: int| 0 <= j < i && (#[trigger] view[j]).contains('\0')),
    {
        if contains_nul(argv[i].as_str()) {
            has_nul = true;
        }
        assert(view[i as int] == argv@[i as int]@);
    }
    if n == 0 || n > 64 || has_nul {
        return Err(String::from_str("argv must contain 1–64 non-NUL arguments"));
    }
    let program = chars_of(argv[0].as_str());
    let name: Vec<char> = match file_name_chars(&program) {
        Some(name) => lowercase_chars(&name),
        None => Vec::new(),
    };
    assert(name@ == executable_name(view));
    if is_shell_name(&name) {
        let mut message = String::from_str("shell interpreters are not allowed in argv: ");
        let text = string_of(&name);
        message.append(text.as_str());
        return Err(message);
    }
    Ok(())
}

} // verus!

verus! {

// ---------------------------------------------------------------------------
// Local inputs
// ---------------------------------------------------------------------------
/// What the local files that a manifest names turned out to hold, gathered
/// by the caller before validation. Paths are those `joined_path` gives for
/// the manifest's directory.
#[derive(Debug)]
pub struct LocalInputs {
    /// Whether `compose.file` names a regular file.
    pub compose_is_file: bool,
    /// The text of `compose.file`, or the message of the error reading it.
    pub compose_source: Result<String, String>,
    /// The text of the signing key file, or the message of the error reading it.
    pub signing_key_source: Result<String, String>,
    /// For each declared artifact, in order, whether its path names a regular
    /// file; an artifact without an entry counts as missing.
    pub artifact_is_file: Vec<bool>,
}

/// `a` when it reports something, else `b`: the first of two checks that fails.
pub open spec fn first_of(a: Option<Seq<char>>, b: Option<Seq<char>>) -> Option<Seq<char>> {
    if a is Some {
        a
    } else {
        b
    }
}

/// The first of the checks `f(from)`, ..., `f(to - 1)` that fails.
pub open spec fn first_issue(f: spec_fn(int) -> Option<Seq<char>>, from: int, to: int) -> Option<
    Seq<char>,
>
    decreases to - from,
{
    if from >= to {
        None
    } else {
        first_of(f(from), first_issue(f, from + 1, to))
    }
}

pub proof fn lemma_first_issue_none(f: spec_fn(int) -> Option<Seq<char>>, from: int, to: int)
    requires
        forall|k: int| from <= k < to ==> #[trigger] f(k) is None,
    ensures
        first_issue(f, from, to) is None,
    decreases to - from,
{
    if from < to {
        lemma_first_issue_none(f, from + 1, to);
    }
}

pub proof fn lemma_first_issue_at(f: spec_fn(int) -> Option<Seq<char>>, from: int, to: int, i: int)
    requires
        from <= i < to,
        f(i) is Some,
        forall|k: int| from <= k < i ==> #[trigger] f(k) is None,
    ensures
        first_issue(f, from, to) == f(i),
    decreases i - from,
{
    if from < i {
        lemma_first_issue_at(f, from + 1, to, i);
    }
}

// ---------------------------------------------------------------------------
// The Compose file
// ---------------------------------------------------------------------------
/// How many services a Compose document declares: the size of the mapping
/// under its `services` key, or `None` when it has no such mapping.
#[verifier::opaque]
pub open spec fn declared_services(document: YamlValue) -> Option<nat> {
    match yaml_get(document, "services"@) {
        Some(services) => mapping_len(services),
        None => None,
    }
}

/// A Compose file that was read, parses as YAML and declares at least one service.
pub open spec fn compose_file_issue(path: Seq<char>, read: Result<String, String>) -> Option<
    Seq<char>,
> {
    match read {
        Err(e) => Some("could not read compose.file "@ + path + ": "@ + e@),
        Ok(source) => match yaml_document(source@) {
            Err(e) => Some("invalid Compose YAML "@ + path + ": "@ + e),
            Ok(document) => if declared_services(document) is None || declared_services(document)
                == Some(0nat) {
                Some("compose.file must declare at least one service: "@ + path)
            } else {
                None
            },
        },
    }
}

/// Checks the text of the Compose file at `path`, given what reading it gave.
pub fn validate_compose_file(path: &str, read: &Result<String, String>) -> (r: Result<(), String>)
    ensures
        outcome(r) == compose_file_issue(path@, *read),
{
    match read {
        Err(e) => {
            let mut message = String::from_str("could not read compose.file ");
            message.append(path);
            message.append(": ");
            message.append(e.as_str());
            Err(message)
        },
        Ok(source) => match parse_yaml(source.as_str()) {
            Err(e) => {
                let mut message = String::from_str("invalid Compose YAML ");
                message.append(path);
                message.append(": ");
                message.append(e.as_str());
                Err(message)
            },
            Ok(document) => {
                proof {
                    reveal(declared_services);
                }
                let count = match get(&document, "services") {
                    Some(services) => mapping_size(services),
                    None => None,
                };
                let empty = match count {
                    None => true,
                    Some(n) => n == 0,
                };
                if empty {
                    let mut message = String::from_str(
                        "compose.file must declare at least one service: ",
                    );
                    message.append(path);
                    return Err(message);
                }
                Ok(())
            },
        },
    }
}

// ---------------------------------------------------------------------------
// Manifest rules
// ---------------------------------------------------------------------------
/// The target must read as disposable and must not read as production.
pub open spec fn project_issue(project: Seq<char>) -> Option<Seq<char>> {
    let p = ascii_lowercase(project);
    if contains_text(p, "prod"@) || contains_text(p, "production"@) || contains_text(p, "live"@)
        || contains_text(p, "primary"@) {
        Some("compose.project looks production-like; use a disposable rehearsal project"@)
    } else if !(contains_text(p, "rehearsal"@) || contains_text(p, "restore"@) || contains_text(
        p,
        "drill"@,
    ) || contains_text(p, "rrc"@)) {
        Some("compose.project must contain rehearsal, restore, drill, or rrc"@)
    } else {
        None
    }
}

/// The rules for the artifact at index `i`.
pub open spec fn artifact_issue(m: Manifest, base: Seq<char>, inputs: LocalInputs, i: int) -> Option<
    Seq<char>,
> {
    let a = m.artifacts@[i];
    first_of(
        id_issue("artifact"@, a.id@),
        if exists|j: int| 0 <= j < i && #[trigger] m.artifacts@[j].id@ == a.id@ {
            Some("duplicate artifact id: "@ + a.id@)
        } else if !(i < inputs.artifact_is_file@.len() && inputs.artifact_is_file@[i]) {
            Some("artifact does not exist: "@ + joined_path(base, a.path@))
        } else {
            None
        },
    )
}

/// Some artifact of the manifest has the ID `name`.
pub open spec fn declares_artifact(m: Manifest, name: Seq<char>) -> bool {
    exists|k: int| 0 <= k < m.artifacts@.len() && #[trigger] m.artifacts@[k].id@ == name
}

/// The copy destination lies strictly below the staging directory.
pub open spec fn destination_issue(destination: Seq<char>) -> Option<Seq<char>> {
    if !starts_with(destination, "/tmp/restore-rehearsal/"@) || contains_text(destination, ".."@) {
        Some("copy destination must be below /tmp/restore-rehearsal/"@)
    } else {
        None
    }
}

/// The rules that depend on the kind of a step.
pub open spec fn step_rules_issue(m: Manifest, step: Step) -> Option<Seq<char>> {
    match step {
        Step::ComposeUp { services, timeout_seconds, .. } => if services@.len() == 0 {
            Some("compose-up requires services"@)
        } else {
            first_of(
                timeout_issue(timeout_seconds),
                first_issue(|k: int| id_issue("service"@, services@[k]@), 0, services@.len() as int),
            )
        },
        Step::Copy { artifact, service, destination, timeout_seconds, .. } => if !declares_artifact(
            m,
            artifact@,
        ) {
            Some("copy references unknown artifact: "@ + artifact@)
        } else {
            first_of(
                id_issue("service"@, service@),
                first_of(destination_issue(destination@), timeout_issue(timeout_seconds)),
            )
        },
        Step::Exec { service, argv, timeout_seconds, .. } => first_of(
            id_issue("service"@, service@),
            first_of(argv_issue(texts(argv@)), timeout_issue(timeout_seconds)),
        ),
    }
}

/// The rules for the step at index `i`.
pub open spec fn step_issue(m: Manifest, i: int) -> Option<Seq<char>> {
    let step = m.steps@[i];
    first_of(
        id_issue("step"@, step.spec_id()),
        if exists|j: int| 0 <= j < i && #[trigger] m.steps@[j].spec_id() == step.spec_id() {
            Some("duplicate step/check id: "@ + step.spec_id())
        } else {
            step_rules_issue(m, step)
        },
    )
}

/// The rules that depend on the kind of a check.
pub open spec fn check_rules_issue(check: Check) -> Option<Seq<char>> {
    match check {
        Check::Health { service, timeout_seconds, .. } => first_of(
            id_issue("service"@, service@),
            timeout_issue(timeout_seconds),
        ),
        Check::RowCount { service, argv, min, max, timeout_seconds, .. } => first_of(
            id_issue("service"@, service@),
            first_of(
                argv_issue(texts(argv@)),
                first_of(
                    timeout_issue(timeout_seconds),
                    if max matches Some(upper) && upper < min {
                        Some("row-count max must be greater than or equal to min"@)
                    } else {
                        None
                    },
                ),
            ),
        ),
        Check::ExitCode { service, argv, timeout_seconds, .. } => first_of(
            id_issue("service"@, service@),
            first_of(argv_issue(texts(argv@)), timeout_issue(timeout_seconds)),
        ),
    }
}

/// Step and check IDs share one namespace.
pub open spec fn check_id_taken(m: Manifest, i: int) -> bool {
    let id = m.checks@[i].spec_id();
    ||| exists|j: int| 0 <= j < m.steps@.len() && #[trigger] m.steps@[j].spec_id() == id
    ||| exists|j: int| 0 <= j < i && #[trigger] m.checks@[j].spec_id() == id
}

/// The rules for the check at index `i`.
pub open spec fn check_issue(m: Manifest, i: int) -> Option<Seq<char>> {
    let check = m.checks@[i];
    first_of(
        id_issue("check"@, check.spec_id()),
        if check_id_taken(m, i) {
            Some("duplicate step/check id: "@ + check.spec_id())
        } else {
            check_rules_issue(check)
        },
    )
}

/// The issue of reading the signing key, if any.
pub open spec fn key_issue(path: Seq<char>, read: Result<String, String>) -> Option<Seq<char>> {
    match signing_key_outcome(path, read) {
        Ok(_) => None,
        Err(e) => Some(e),
    }
}

/// The first rule a manifest breaks, in the order the rules are checked, given
/// the directory `base` its relative paths start from and what its local
/// files hold; `None` when it breaks none.
pub open spec fn manifest_issue(m: Manifest, base: Seq<char>, inputs: LocalInputs) -> Option<
    Seq<char>,
> {
    if m.version != 1 {
        Some("unsupported manifest version "@ + decimal(m.version as nat) + "; expected 1"@)
    } else {
        first_of(
            label_issue("name"@, m.name@),
            first_of(
                label_issue("compose.project"@, m.compose.project@),
                first_of(
                    project_issue(m.compose.project@),
                    first_of(
                        if m.rto_seconds == 0 {
                            Some("rto_seconds must be greater than zero"@)
                        } else {
                            None
                        },
                        first_of(
                            if m.steps@.len() == 0 || m.checks@.len() == 0 {
                                Some("declare at least one step and one check"@)
                            } else {
                                None
                            },
                            first_of(
                                if !inputs.compose_is_file {
                                    Some(
                                        "compose.file does not exist: "@ + joined_path(
                                            base,
                                            m.compose.file@,
                                        ),
                                    )
                                } else {
                                    compose_file_issue(
                                        joined_path(base, m.compose.file@),
                                        inputs.compose_source,
                                    )
                                },
                                first_of(
                                    key_issue(
                                        joined_path(base, m.signing_key@),
                                        inputs.signing_key_source,
                                    ),
                                    first_of(
                                        first_issue(
                                            |i: int| artifact_issue(m, base, inputs, i),
                                            0,
                                            m.artifacts@.len() as int,
                                        ),
                                        first_of(
                                            first_issue(
                                                |i: int| step_issue(m, i),
                                                0,
                                                m.steps@.len() as int,
                                            ),
                                            first_issue(
                                                |i: int| check_issue(m, i),
                                                0,
                                                m.checks@.len() as int,
                                            ),
                                        ),
                                    ),
                                ),
                            ),
                        ),
                    ),
                ),
            ),
        )
    }
}

} // verus!

verus! {

fn contains_word(haystack: &[char], word: &str) -> (r: bool)
    ensures
        r == contains_text(haystack@, word@),
{
    let pattern = chars_of(word);
    contains_chars(haystack, &pattern)
}

fn validate_project(project: &str) -> (r: Result<(), String>)
    ensures
        outcome(r) == project_issue(project@),
{
    let chars = chars_of(project);
    let p = lowercase_chars(&chars);
    if contains_word(&p, "prod") || contains_word(&p, "production") || contains_word(&p, "live")
        || contains_word(&p, "primary") {
        return Err(
            String::from_str(
                "compose.project looks production-like; use a disposable rehearsal project",
            ),
        );
    }
    if !(contains_word(&p, "rehearsal") || contains_word(&p, "restore") || contains_word(
        &p,
        "drill",
    ) || contains_word(&p, "rrc")) {
        return Err(String::from_str("compose.project must contain rehearsal, restore, drill, or rrc"));
    }
    Ok(())
}

#[verifier::loop_isolation(false)]
fn artifact_check(m: &Manifest, base: &str, inputs: &LocalInputs, i: usize) -> (r: Result<
    (),
    String,
>)
    requires
        i < m.artifacts@.len(),
    ensures
        outcome(r) == artifact_issue(*m, base@, *inputs, i as int),
{
    let a = &m.artifacts[i];
    let r = validate_id("artifact", a.id.as_str());
    if r.is_err() {
        return r;
    }
    for j in 0..i
        invariant
            i < m.artifacts@.len(),
            a == m.artifacts@[i as int],
            forall|k: int| 0 <= k < j ==> m.artifacts@[k].id@ != a.id@,
    {
        if m.artifacts[j].id == a.id {
            assert(m.artifacts@[j as int].id@ == a.id@);
            let mut message = String::from_str("duplicate artifact id: ");
            message.append(a.id.as_str());
            return Err(message);
        }
    }
    if !(i < inputs.artifact_is_file.len() && inputs.artifact_is_file[i]) {
        let mut message = String::from_str("artifact does not exist: ");
        let path = join_path(base, a.path.as_str());
        message.append(path.as_str());
        return Err(message);
    }
    Ok(())
}

fn artifact_declared(m: &Manifest, name: &String) -> (r: bool)
    ensures
        r == declares_artifact(*m, name@),
{
    let n = m.artifacts.len();
    for k in 0..n
        invariant
            n == m.artifacts@.len(),
            forall|j: int| 0 <= j < k ==> m.artifacts@[j].id@ != name@,
    {
        if m.artifacts[k].id == *name {
            return true;
        }
    }
    false
}

fn validate_destination(destination: &str) -> (r: Result<(), String>)
    ensures
        outcome(r) == destination_issue(destination@),
{
    let d = chars_of(destination);
    let prefix = chars_of("/tmp/restore-rehearsal/");
    if !starts_with_chars(&d, &prefix) || contains_word(&d, "..") {
        return Err(String::from_str("copy destination must be below /tmp/restore-rehearsal/"));
    }
    Ok(())
}

#[verifier::loop_isolation(false)]
fn step_rules_check(m: &Manifest, step: &Step) -> (r: Result<(), String>)
    ensures
        outcome(r) == step_rules_issue(*m, *step),
{
    match step {
        Step::ComposeUp { services, timeout_seconds, .. } => {
            if services.len() == 0 {
                return Err(String::from_str("compose-up requires services"));
            }
            let t = validate_timeout(*timeout_seconds);
            if t.is_err() {
                return t;
            }
            let ghost f = |k: int| id_issue("service"@, services@[k]@);
            let n = services.len();
            for k in 0..n
                invariant
                    n == services@.len(),
                    f == (|k: int| id_issue("service"@, services@[k]@)),
                    forall|j: int| 0 <= j < k ==> #[trigger] f(j) is None,
            {
                let s = validate_service(services[k].as_str());
                if s.is_err() {
                    proof {
                        lemma_first_issue_at(f, 0, n as int, k as int);
                    }
                    return s;
                }
            }
            proof {
                lemma_first_issue_none(f, 0, n as int);
            }
            Ok(())
        },
        Step::Copy { artifact, service, destination, timeout_seconds, .. } => {
            if !artifact_declared(m, artifact) {
                let mut message = String::from_str("copy references unknown artifact: ");
                message.append(artifact.as_str());
                return Err(message);
            }
            let s = validate_service(service.as_str());
            if s.is_err() {
                return s;
            }
            let d = validate_destination(destination.as_str());
            if d.is_err() {
                return d;
            }
            validate_timeout(*timeout_seconds)
        },
        Step::Exec { service, argv, timeout_seconds, .. } => {
            let s = validate_service(service.as_str());
            if s.is_err() {
                return s;
            }
            let a = validate_argv(argv.as_slice());
            if a.is_err() {
                return a;
            }
            validate_timeout(*timeout_seconds)
        },
    }
}

#[verifier::loop_isolation(false)]
fn step_check(m: &Manifest, i: usize) -> (r: Result<(), String>)
    requires
        i < m.steps@.len(),
    ensures
        outcome(r) == step_issue(*m, i as int),
{
    let step = &m.steps[i];
    let r = validate_id("step", step.id());
    if r.is_err() {
        return r;
    }
    for j in 0..i
        invariant
            i < m.steps@.len(),
            step == m.steps@[i as int],
            forall|k: int| 0 <= k < j ==> m.steps@[k].spec_id() != step.spec_id(),
    {
        if *m.steps[j].id_string() == *step.id_string() {
            let mut message = String::from_str("duplicate step/check id: ");
            message.append(step.id());
            return Err(message);
        }
    }
    step_rules_check(m, step)
}

fn check_rules_check(check: &Check) -> (r: Result<(), String>)
    ensures
        outcome(r) == check_rules_issue(*check),
{
    match check {
        Check::Health { service, timeout_seconds, .. } => {
            let s = validate_service(service.as_str());
            if s.is_err() {
                return s;
            }
            validate_timeout(*timeout_seconds)
        },
        Check::RowCount { service, argv, min, max, timeout_seconds, .. } => {
            let s = validate_service(service.as_str());
            if s.is_err() {
                return s;
            }
            let a = validate_argv(argv.as_slice());
            if a.is_err() {
                return a;
            }
            let t = validate_timeout(*timeout_seconds);
            if t.is_err() {
                return t;
            }
            if let Some(upper) = max {
                if *upper < *min {
                    return Err(
                        String::from_str("row-count max must be greater than or equal to min"),
                    );
                }
            }
            Ok(())
        },
        Check::ExitCode { service, argv, timeout_seconds, .. } => {
            let s = validate_service(service.as_str());
            if s.is_err() {
                return s;
            }
            let a = validate_argv(argv.as_slice());
            if a.is_err() {
                return a;
            }
            validate_timeout(*timeout_seconds)
        },
    }
}

#[verifier::loop_isolation(false)]
fn check_check(m: &Manifest, i: usize) -> (r: Result<(), String>)
    requires
        i < m.checks@.len(),
    ensures
        outcome(r) == check_issue(*m, i as int),
{
    let check = &m.checks[i];
    let r = validate_id("check", check.id());
    if r.is_err() {
        return r;
    }
    let n = m.steps.len();
    for j in 0..n
        invariant
            n == m.steps@.len(),
            i < m.checks@.len(),
            check == m.checks@[i as int],
            forall|k: int| 0 <= k < j ==> m.steps@[k].spec_id() != check.spec_id(),
    {
        if *m.steps[j].id_string() == *check.id_string() {
            let mut message = String::from_str("duplicate step/check id: ");
            message.append(check.id());
            return Err(message);
        }
    }
    for j in 0..i
        invariant
            i < m.checks@.len(),
            check == m.checks@[i as int],
            forall|k: int| 0 <= k < m.steps@.len() ==> m.steps@[k].spec_id() != check.spec_id(),
            forall|k: int| 0 <= k < j ==> m.checks@[k].spec_id() != check.spec_id(),
    {
        if *m.checks[j].id_string() == *check.id_string() {
            let mut message = String::from_str("duplicate step/check id: ");
            message.append(check.id());
            return Err(message);
        }
    }
    check_rules_check(check)
}

impl Manifest {
    /// Checks the manifest against every rule, in order, and reports the first
    /// one it breaks. `base` is the directory its relative paths start from;
    /// `inputs` holds what the local files it names turned out to hold.
#[verifier::loop_isolation(false)]
    pub fn validate(&self, base: &str, inputs: &LocalInputs) -> (r: Result<(), String>)
        ensures
            outcome(r) == manifest_issue(*self, base@, *inputs),
    {
        if self.version != 1 {
            let mut message = String::from_str("unsupported manifest version ");
            push_decimal(&mut message, self.version as u128);
            message.append("; expected 1");
            return Err(message);
        }
        let r = validate_label("name", self.name.as_str());
        if r.is_err() {
            return r;
        }
        let r = validate_label("compose.project", self.compose.project.as_str());
        if r.is_err() {
            return r;
        }
        let r = validate_project(self.compose.project.as_str());
        if r.is_err() {
            return r;
        }
        if self.rto_seconds == 0 {
            return Err(String::from_str("rto_seconds must be greater than zero"));
        }
        if self.steps.len() == 0 || self.checks.len() == 0 {
            return Err(String::from_str("declare at least one step and one check"));
        }
        let compose_path = join_path(base, self.compose.file.as_str());
        if !inputs.compose_is_file {
            let mut message = String::from_str("compose.file does not exist: ");
            message.append(compose_path.as_str());
            return Err(message);
        }
        let r = validate_compose_file(compose_path.as_str(), &inputs.compose_source);
        if r.is_err() {
            return r;
        }
        let key_path = join_path(base, self.signing_key.as_str());
        match read_signing_key(key_path.as_str(), &inputs.signing_key_source) {
            Err(e) => {
                return Err(e);
            },
            Ok(_) => {},
        }
        let ghost fa = |i: int| artifact_issue(*self, base@, *inputs, i);
        let n = self.artifacts.len();
        for i in 0..n
            invariant
                n == self.artifacts@.len(),
                fa == (|i: int| artifact_issue(*self, base@, *inputs, i)),
                forall|k: int| 0 <= k < i ==> #[trigger] fa(k) is None,
        {
            let r = artifact_check(self, base, inputs, i);
            if r.is_err() {
                proof {
                    lemma_first_issue_at(fa, 0, n as int, i as int);
                }
                return r;
            }
        }
        proof {
            lemma_first_issue_none(fa, 0, n as int);
        }
        let ghost fs = |i: int| step_issue(*self, i);
        let n = self.steps.len();
        for i in 0..n
            invariant
                n == self.steps@.len(),
                fs == (|i: int| step_issue(*self, i)),
                forall|k: int| 0 <= k < i ==> #[trigger] fs(k) is None,
        {
            let r = step_check(self, i);
            if r.is_err() {
                proof {
                    lemma_first_issue_at(fs, 0, n as int, i as int);
                }
                return r;
            }
        }
        proof {
            lemma_first_issue_none(fs, 0, n as int);
        }
        let ghost fc = |i: int| check_issue(*self, i);
        let n = self.checks.len();
        for i in 0..n
            invariant
                n == self.checks@.len(),
                fc == (|i: int| check_issue(*self, i)),
                forall|k: int| 0 <= k < i ==> #[trigger] fc(k) is None,
        {
            let r = check_check(self, i);
            if r.is_err() {
                proof {
                    lemma_first_issue_at(fc, 0, n as int, i as int);
                }
                return r;
            }
        }
        proof {
            lemma_first_issue_none(fc, 0, n as int);
        }
        Ok(())
    }
}

} // verus!

verus! {

pub proof fn lemma_first_issue_none_each(f: spec_fn(int) -> Option<Seq<char>>, from: int, to: int)
    requires
        first_issue(f, from, to) is None,
    ensures
        forall|k: int| from <= k < to ==> #[trigger] f(k) is None,
    decreases to - from,
{
    if from < to {
        lemma_first_issue_none_each(f, from + 1, to);
    }
}

/// The timeout a step declares.
pub open spec fn step_timeout(step: Step) -> u64 {
    match step {
        Step::ComposeUp { timeout_seconds, .. } => timeout_seconds,
        Step::Copy { timeout_seconds, .. } => timeout_seconds,
        Step::Exec { timeout_seconds, .. } => timeout_seconds,
    }
}

/// The timeout a check declares.
pub open spec fn check_timeout(check: Check) -> u64 {
    match check {
        Check::Health { timeout_seconds, .. } => timeout_seconds,
        Check::RowCount { timeout_seconds, .. } => timeout_seconds,
        Check::ExitCode { timeout_seconds, .. } => timeout_seconds,
    }
}

/// An argv that may be run inside the target: 1 to 64 arguments without NUL,
/// whose program is not a shell interpreter.
pub open spec fn safe_argv(argv: Seq<Seq<char>>) -> bool {
    &&& 1 <= argv.len() <= 64
    &&& forall|i: int| 0 <= i < argv.len() ==> !(#[trigger] argv[i]).contains('\0')
    &&& !is_shell(executable_name(argv))
}

/// The guarantees the manifest reference promises of any manifest that passes
/// validation: version 1, a disposable non-production target, a positive RTO,
/// at least one step and one check, step and check IDs that are unique across
/// both lists, timeouts between 1 and 3600 seconds, no shell interpreter in any
/// argv, copies only of declared artifacts and only to destinations strictly
/// below `/tmp/restore-rehearsal/`, and row-count bounds in order.
pub proof fn lemma_valid_manifest_guarantees(m: Manifest, base: Seq<char>, inputs: LocalInputs)
    requires
        manifest_issue(m, base, inputs) is None,
    ensures
        m.version == 1,
        project_issue(m.compose.project@) is None,
        m.rto_seconds > 0,
        m.steps@.len() > 0 && m.checks@.len() > 0,
        forall|i: int, j: int|
            0 <= i < j < m.steps@.len() ==> #[trigger] m.steps@[i].spec_id()
                != #[trigger] m.steps@[j].spec_id(),
        forall|i: int, j: int|
            0 <= i < j < m.checks@.len() ==> #[trigger] m.checks@[i].spec_id()
                != #[trigger] m.checks@[j].spec_id(),
        forall|i: int, j: int|
            0 <= i < m.steps@.len() && 0 <= j < m.checks@.len() ==> #[trigger] m.steps@[i].spec_id()
                != #[trigger] m.checks@[j].spec_id(),
        forall|i: int|
            0 <= i < m.steps@.len() ==> 1 <= #[trigger] step_timeout(m.steps@[i]) <= 3600,
        forall|i: int|
            0 <= i < m.checks@.len() ==> 1 <= #[trigger] check_timeout(m.checks@[i]) <= 3600,
        forall|i: int|
            0 <= i < m.steps@.len() ==> (#[trigger] m.steps@[i] matches Step::Exec { argv, .. }
                ==> safe_argv(texts(argv@))),
        forall|i: int|
            0 <= i < m.checks@.len() ==> (#[trigger] m.checks@[i] matches Check::RowCount {
                argv,
                ..
            } ==> safe_argv(texts(argv@))),
        forall|i: int|
            0 <= i < m.checks@.len() ==> (#[trigger] m.checks@[i] matches Check::ExitCode {
                argv,
                ..
            } ==> safe_argv(texts(argv@))),
        forall|i: int|
            0 <= i < m.steps@.len() ==> (#[trigger] m.steps@[i] matches Step::Copy {
                artifact,
                destination,
                ..
            } ==> declares_artifact(m, artifact@) && starts_with(
                destination@,
                "/tmp/restore-rehearsal/"@,
            ) && !contains_text(destination@, ".."@)),
        forall|i: int|
            0 <= i < m.checks@.len() ==> (#[trigger] m.checks@[i] matches Check::RowCount {
                min,
                max: Some(upper),
                ..
            } ==> min <= upper),
{
    let fs = |i: int| step_issue(m, i);
    let fc = |i: int| check_issue(m, i);
    lemma_first_issue_none_each(fs, 0, m.steps@.len() as int);
    lemma_first_issue_none_each(fc, 0, m.checks@.len() as int);
    assert forall|i: int, j: int|
        0 <= i < j < m.steps@.len() implies #[trigger] m.steps@[i].spec_id()
        != #[trigger] m.steps@[j].spec_id() by {
        assert(fs(j) is None);
    }
    assert forall|i: int, j: int|
        0 <= i < j < m.checks@.len() implies #[trigger] m.checks@[i].spec_id()
        != #[trigger] m.checks@[j].spec_id() by {
        assert(fc(j) is None);
    }
    assert forall|i: int, j: int|
        0 <= i < m.steps@.len() && 0 <= j < m.checks@.len() implies #[trigger] m.steps@[i].spec_id()
        != #[trigger] m.checks@[j].spec_id() by {
        assert(fc(j) is None);
    }
    assert forall|i: int| 0 <= i < m.steps@.len() implies 1 <= #[trigger] step_timeout(
        m.steps@[i],
    ) <= 3600 by {
        assert(fs(i) is None);
        if let Step::ComposeUp { services, .. } = m.steps@[i] {
            assert(services@.len() > 0);
        }
    }
    assert forall|i: int| 0 <= i < m.checks@.len() implies 1 <= #[trigger] check_timeout(
        m.checks@[i],
    ) <= 3600 by {
        assert(fc(i) is None);
    }
    assert forall|i: int| 0 <= i < m.steps@.len() implies (#[trigger] m.steps@[i] matches Step::Exec {
        argv,
        ..
    } ==> safe_argv(texts(argv@))) by {
        assert(fs(i) is None);
    }
    assert forall|i: int| 0 <= i < m.checks@.len() implies (#[trigger] m.checks@[i] matches Check::RowCount {
        argv,
        ..
    } ==> safe_argv(texts(argv@))) by {
        assert(fc(i) is None);
    }
    assert forall|i: int| 0 <= i < m.checks@.len() implies (#[trigger] m.checks@[i] matches Check::ExitCode {
        argv,
        ..
    } ==> safe_argv(texts(argv@))) by {
        assert(fc(i) is None);
    }
    assert forall|i: int| 0 <= i < m.steps@.len() implies (#[trigger] m.steps@[i] matches Step::Copy {
        artifact,
        destination,
        ..
    } ==> declares_artifact(m, artifact@) && starts_with(destination@, "/tmp/restore-rehearsal/"@)
        && !contains_text(destination@, ".."@)) by {
        assert(fs(i) is None);
    }
    assert forall|i: int| 0 <= i < m.checks@.len() implies (#[trigger] m.checks@[i] matches Check::RowCount {
        min,
        max: Some(upper),
        ..
    } ==> min <= upper) by {
        assert(fc(i) is None);
    }
}


// ---------------------------------------------------------------------------
// The starter manifest
// ---------------------------------------------------------------------------
/// The starter manifest up to the value of `signing_key`.
pub const STARTER_HEAD: &'static str = "version = 1
name = \"Weekly database restore\"
rto_seconds = 300
signing_key = \"";

/// The starter manifest after the value of `signing_key`.
pub const STARTER_TAIL: &'static str = "\"

[compose]
file = \"rehearsal.compose.yml\"
project = \"restore-card-weekly\"

[[artifacts]]
id = \"database-backup\"
path = \"backups/latest.dump\"

[[steps]]
id = \"start-database\"
kind = \"compose-up\"
services = [\"database\"]
timeout_seconds = 120

[[steps]]
id = \"prepare-staging-path\"
kind = \"exec\"
service = \"database\"
argv = [\"mkdir\", \"-p\", \"/tmp/restore-rehearsal\"]

[[steps]]
id = \"copy-backup\"
kind = \"copy\"
artifact = \"database-backup\"
service = \"database\"
destination = \"/tmp/restore-rehearsal/latest.dump\"

[[steps]]
id = \"restore-backup\"
kind = \"exec\"
service = \"database\"
argv = [\"pg_restore\", \"--clean\", \"--if-exists\", \"--dbname\", \"app\", \"/tmp/restore-rehearsal/latest.dump\"]

[[checks]]
id = \"database-ready\"
kind = \"health\"
service = \"database\"

[[checks]]
id = \"accounts-present\"
kind = \"row-count\"
service = \"database\"
argv = [\"psql\", \"--username\", \"app\", \"--dbname\", \"app\", \"--tuples-only\", \"--no-align\", \"--command\", \"SELECT count(*) FROM accounts\"]
min = 1
";

/// The documented starter manifest, whose `signing_key` is `key`.
pub fn starter_manifest(key: &str) -> (r: String)
    ensures
        r@ == STARTER_HEAD@ + key@ + STARTER_TAIL@,
{
    let mut r = String::from_str(STARTER_HEAD);
    r.append(key);
    r.append(STARTER_TAIL);
    r
}

/// The one-line summary of a valid manifest.
pub open spec fn summary_text(m: Manifest) -> Seq<char> {
    "Valid: "@ + m.name@ + " → "@ + m.compose.project@ + " ("@ + decimal(m.steps@.len())
        + " steps, "@ + decimal(m.checks@.len()) + " checks)"@
}

/// Describes a valid manifest in one line: its name, target, and how many
/// steps and checks it declares.
pub fn check_summary(manifest: &Manifest) -> (r: String)
    ensures
        r@ == summary_text(*manifest),
{
    let mut r = String::from_str("Valid: ");
    r.append(manifest.name.as_str());
    r.append(" → ");
    r.append(manifest.compose.project.as_str());
    r.append(" (");
    push_decimal(&mut r, manifest.steps.len() as u128);
    r.append(" steps, ");
    push_decimal(&mut r, manifest.checks.len() as u128);
    r.append(" checks)");
    r
}


/// The Compose project must read as disposable: a name whose lower-case form
/// holds any one of `rehearsal`, `restore`, `drill` or `rrc`, and none of
/// `prod`, `production`, `live` or `primary`, is accepted; a name that holds
/// one of the latter is refused as production-like; a name that holds none
/// of the former is refused.
pub proof fn lemma_project_terms(project: Seq<char>)
    ensures
        ({
            let p = ascii_lowercase(project);
            let production_like = contains_text(p, "prod"@) || contains_text(p, "production"@)
                || contains_text(p, "live"@) || contains_text(p, "primary"@);
            &&& production_like ==> project_issue(project) == Some(
                "compose.project looks production-like; use a disposable rehearsal project"@,
            )
            &&& !production_like && contains_text(p, "rehearsal"@) ==> project_issue(project) is None
            &&& !production_like && contains_text(p, "restore"@) ==> project_issue(project) is None
            &&& !production_like && contains_text(p, "drill"@) ==> project_issue(project) is None
            &&& !production_like && contains_text(p, "rrc"@) ==> project_issue(project) is None
            &&& !contains_text(p, "rehearsal"@) && !contains_text(p, "restore"@) && !contains_text(
                p,
                "drill"@,
            ) && !contains_text(p, "rrc"@) ==> project_issue(project) is Some
        }),
{
}

} // verus!
