use restore_rehearsal_card::config::{Artifact, Check, Compose, Manifest, Step};
use restore_rehearsal_card::report::{encode_signing_key, verify_card, SigningKey};
use restore_rehearsal_card::rehearsal::{
    confirm_target, run_rehearsal, timestamp, Action, ArtifactHash, RunOptions,
};
use restore_rehearsal_card::runner::{
    check_command, check_kind, cleanup, compose_prefix, exit_label, health_container,
    preflight_compose, run_check, run_error_exit_code, run_step, step_command, step_kind,
    CommandOutput, CommandSpec,
};

fn strings(items: &[&str]) -> Vec<String> {
    items.iter().map(|item| item.to_string()).collect()
}

fn manifest(probe: &str) -> Manifest {
    Manifest {
        version: 1,
        name: "Integration rehearsal".into(),
        rto_seconds: 30,
        signing_key: "rehearsal.key".into(),
        compose: Compose { file: "compose.yml".into(), project: "rrc-integration".into() },
        artifacts: vec![Artifact { id: "backup".into(), path: "backup.sql".into() }],
        steps: vec![
            Step::ComposeUp { id: "start".into(), services: strings(&["database"]), timeout_seconds: 120 },
            Step::Copy {
                id: "copy".into(),
                artifact: "backup".into(),
                service: "database".into(),
                destination: "/tmp/restore-rehearsal/backup.sql".into(),
                timeout_seconds: 120,
            },
        ],
        checks: vec![
            Check::Health { id: "ready".into(), service: "database".into(), timeout_seconds: 120 },
            Check::RowCount {
                id: "row-count".into(),
                service: "database".into(),
                argv: strings(&["count-command", "--command", "SELECT count(*) FROM probe"]),
                min: 1,
                max: Some(1),
                timeout_seconds: 120,
            },
            Check::ExitCode {
                id: "probe".into(),
                service: "database".into(),
                argv: strings(&[probe]),
                timeout_seconds: 120,
            },
        ],
    }
}

fn exited(code: i32, stdout: &str) -> Result<CommandOutput, String> {
    Ok(CommandOutput { code: Some(code), stdout: stdout.as_bytes().to_vec() })
}

/// Answers like a Docker CLI whose target is healthy and holds one probe row.
fn fake_docker(command: &CommandSpec, log: &mut Vec<String>) -> Result<CommandOutput, String> {
    answer(command, log, false)
}

/// The same answers, with different spacing and extra output wherever the
/// rehearsal does not read it.
fn noisy_docker(command: &CommandSpec, log: &mut Vec<String>) -> Result<CommandOutput, String> {
    answer(command, log, true)
}

fn answer(command: &CommandSpec, log: &mut Vec<String>, noisy: bool) -> Result<CommandOutput, String> {
    assert_eq!(command.program, "docker");
    let line = command.args.join(" ");
    log.push(line.clone());
    let padded = format!(" {line} ");
    if padded.contains(" config --format json ") {
        if noisy {
            exited(0, "{ \"networks\": {\"default\": {}},\n  \"services\": {\"database\": {\"image\": \"other\"}} }\n")
        } else {
            exited(0, r#"{"services":{"database":{"image":"example"}},"networks":{"default":{}}}"#)
        }
    } else if padded.contains(" ps --quiet ") {
        exited(0, if noisy { "  container-id \n\n" } else { "container-id\n" })
    } else if padded.contains(" broken-check ") {
        exited(9, if noisy { "secret row 42\n" } else { "" })
    } else if padded.contains(" --command ") {
        exited(0, if noisy { "\t1  \n" } else { "1\n" })
    } else if command.args[0] == "inspect" {
        exited(0, if noisy { " healthy\n" } else { "healthy\n" })
    } else {
        exited(0, if noisy { "restored 10 rows of secret data\n" } else { "" })
    }
}

fn options(keep_target: bool) -> RunOptions {
    RunOptions {
        manifest_path: "/work/restore.toml".into(),
        confirm_target: "rrc-integration".into(),
        output_path: "/work/card.md".into(),
        keep_target,
    }
}

fn key_source() -> Result<String, String> {
    Ok(encode_signing_key(&SigningKey::from_bytes(&[3_u8; 32])))
}

/// Drives a rehearsal the way the command-line program does, against the fake CLI.
fn rehearse(m: &Manifest, keep_target: bool, duration_ms: u128) -> (String, bool, Vec<String>) {
    rehearse_against(m, keep_target, duration_ms, fake_docker)
}

fn rehearse_against(
    m: &Manifest,
    keep_target: bool,
    duration_ms: u128,
    docker: fn(&CommandSpec, &mut Vec<String>) -> Result<CommandOutput, String>,
) -> (String, bool, Vec<String>) {
    let opts = options(keep_target);
    let source = key_source();
    let mut rehearsal = run_rehearsal(m, &opts, &source).unwrap();
    let mut log = Vec::new();
    loop {
        match rehearsal.next_action() {
            Action::Preflight(command) => {
                let outcome = docker(&command, &mut log);
                rehearsal.preflight(&outcome).unwrap();
            }
            Action::HashArtifacts => {
                let mut hash = ArtifactHash::new("backup");
                hash.absorb(b"private restored value\n");
                rehearsal.record_artifacts(vec![hash.finish()]);
            }
            Action::Execute(command) => {
                let outcome = docker(&command, &mut log);
                rehearsal.advance(outcome, 5);
            }
            Action::Finish => {
                let done = rehearsal
                    .finish(duration_ms, 1_788_000_000_000_000_000, 1_788_000_001_000_000_000)
                    .unwrap();
                assert_eq!(done.result.passed, done.card.passed);
                assert_eq!(done.result.card, "/work/card.md");
                return (done.signed, done.result.passed, log);
            }
        }
    }
}

#[test]
fn passing_rehearsal_signs_a_private_card() {
    let m = manifest("probe-check");
    let (card, passed, log) = rehearse(&m, false, 1_500);
    assert!(passed);
    assert!(card.contains("**PASSED**"));
    assert!(card.contains("SHA-256"));
    assert!(card.contains("count 1 is within expected range 1..1"));
    assert!(card.contains("RTO objective"));
    assert!(card.contains("ed25519"));
    assert!(!card.contains("private restored value"));
    assert!(verify_card(&card).is_ok());
    assert!(log[0].ends_with("config --format json"));
    assert!(log.last().unwrap().ends_with("down --volumes --remove-orphans --timeout 15"));
}

#[test]
fn failing_check_still_runs_every_check_and_cleans_up() {
    let m = manifest("broken-check");
    let (card, passed, log) = rehearse(&m, false, 1_500);
    assert!(!passed);
    assert!(card.contains("**FAILED**"));
    assert!(card.contains("check exited with code 9; output omitted"));
    assert!(card.contains("check \\`probe\\` failed"));
    assert!(verify_card(&card).is_ok());
    assert!(log.iter().any(|line| line.contains("down --volumes --remove-orphans")));
}

#[test]
fn failing_step_skips_the_checks() {
    let mut m = manifest("probe-check");
    m.steps[1] = Step::Copy {
        id: "copy".into(),
        artifact: "missing".into(),
        service: "database".into(),
        destination: "/tmp/restore-rehearsal/backup.sql".into(),
        timeout_seconds: 120,
    };
    let (card, passed, log) = rehearse(&m, false, 1_500);
    assert!(!passed);
    assert!(card.contains("| FAIL | `copy` | copy | 0 ms | unknown artifact missing |"));
    assert!(card.contains("step \\`copy\\` failed: unknown artifact missing"));
    assert!(!log.iter().any(|line| line.contains(" ps --quiet ")));
    assert!(log.last().unwrap().contains(" down "));
}

#[test]
fn kept_target_is_not_torn_down() {
    let m = manifest("probe-check");
    let (_, passed, log) = rehearse(&m, true, 1_500);
    assert!(passed);
    assert!(!log.iter().any(|line| line.contains(" down ")));
}

#[test]
fn missed_rto_fails_the_card() {
    let m = manifest("probe-check");
    let (card, passed, _) = rehearse(&m, false, 45_678);
    assert!(!passed);
    assert!(card.contains("RTO missed: 45.68s exceeds 30s"));
}

#[test]
fn confirmation_must_match_the_project() {
    let m = manifest("probe-check");
    let mut opts = options(false);
    opts.confirm_target = "production".into();
    let error = run_rehearsal(&m, &opts, &key_source()).err().unwrap();
    assert_eq!(error, "target confirmation mismatch; pass --confirm-target rrc-integration exactly");
    assert_eq!(run_error_exit_code(&error), 3);
}

#[test]
fn unreadable_key_stops_the_rehearsal() {
    let m = manifest("probe-check");
    let error = run_rehearsal(&m, &options(false), &Err("denied".to_string())).err().unwrap();
    assert_eq!(error, "could not read signing key /work/rehearsal.key: denied");
}

#[test]
fn compose_prefix_names_file_project_and_directory() {
    let m = manifest("probe-check");
    assert_eq!(
        compose_prefix(&m, "/work"),
        strings(&[
            "compose",
            "--file",
            "/work/compose.yml",
            "--project-name",
            "rrc-integration",
            "--project-directory",
            "/work",
        ])
    );
}

#[test]
fn step_commands_follow_the_step_kind() {
    let m = manifest("probe-check");
    let up = step_command(&m, "/work", &m.steps[0]).unwrap();
    assert_eq!(up.args[7..].to_vec(), strings(&["up", "--detach", "--no-build", "--pull", "never", "database"]));
    assert_eq!(up.timeout_seconds, 120);
    let copy = step_command(&m, "/work", &m.steps[1]).unwrap();
    assert_eq!(
        copy.args[7..].to_vec(),
        strings(&["cp", "/work/backup.sql", "database:/tmp/restore-rehearsal/backup.sql"])
    );
    let exec = Step::Exec {
        id: "restore".into(),
        service: "database".into(),
        argv: strings(&["pg_restore", "--clean"]),
        timeout_seconds: 30,
    };
    let command = step_command(&m, "/work", &exec).unwrap();
    assert_eq!(command.args[7..].to_vec(), strings(&["exec", "--no-TTY", "database", "pg_restore", "--clean"]));
    assert_eq!(command.timeout_seconds, 30);
    assert_eq!(step_kind(&m.steps[0]), "compose-up");
    assert_eq!(step_kind(&exec), "exec");
}

#[test]
fn check_commands_follow_the_check_kind() {
    let m = manifest("probe-check");
    let ps = check_command(&m, "/work", &m.checks[0]);
    assert_eq!(ps.args[7..].to_vec(), strings(&["ps", "--quiet", "database"]));
    let count = check_command(&m, "/work", &m.checks[1]);
    assert_eq!(count.args[7..10].to_vec(), strings(&["exec", "--no-TTY", "database"]));
    assert_eq!(check_kind(&m.checks[0]), "health");
    assert_eq!(check_kind(&m.checks[1]), "row-count");
    assert_eq!(check_kind(&m.checks[2]), "exit-code");
}

#[test]
fn step_outcomes_keep_output_out() {
    let m = manifest("probe-check");
    assert_eq!(run_step(&m.steps[0], &exited(0, "secret rows")), Ok("started 1 declared service(s)".to_string()));
    assert_eq!(
        run_step(&m.steps[1], &exited(0, "")),
        Ok("copied artifact `backup` into the isolated target".to_string())
    );
    assert_eq!(
        run_step(&m.steps[0], &exited(3, "secret rows")),
        Err("container operation exited with code 3".to_string())
    );
    let signal = Ok(CommandOutput { code: None, stdout: vec![] });
    assert_eq!(run_step(&m.steps[0], &signal), Err("container operation exited with a signal".to_string()));
    assert_eq!(
        run_step(&m.steps[0], &Err("operation timed out after 120s".to_string())),
        Err("operation timed out after 120s".to_string())
    );
    let exit = exited(-2, "");
    assert_eq!(exit_label(exit.as_ref().unwrap()), "code -2");
}

#[test]
fn health_reads_only_the_container_state() {
    let m = manifest("probe-check");
    assert_eq!(health_container(&exited(0, "  abc123\n")), Ok("abc123".to_string()));
    assert_eq!(health_container(&exited(0, "\n")), Err("service has no running container".to_string()));
    assert_eq!(health_container(&exited(1, "abc")), Err("could not resolve service container".to_string()));
    assert_eq!(run_check(&m.checks[0], &exited(0, "healthy\n")), Ok("service reported healthy".to_string()));
    assert_eq!(
        run_check(&m.checks[0], &exited(0, "starting\n")),
        Err("service health is `starting`; declare a Compose healthcheck".to_string())
    );
    assert_eq!(
        run_check(&m.checks[0], &exited(1, "healthy")),
        Err("service health is `healthy`; declare a Compose healthcheck".to_string())
    );
    let invalid = Ok(CommandOutput { code: Some(0), stdout: vec![b'o', b'k', 0xff] });
    assert_eq!(
        run_check(&m.checks[0], &invalid),
        Err("service health is `ok\u{fffd}`; declare a Compose healthcheck".to_string())
    );
}

#[test]
fn row_counts_are_parsed_and_bounded() {
    let m = manifest("probe-check");
    let counted = &m.checks[1];
    assert_eq!(run_check(counted, &exited(0, " 1\n")), Ok("count 1 is within expected range 1..1".to_string()));
    assert_eq!(
        run_check(counted, &exited(0, "2\n")),
        Err("row count 2 is outside expected range 1..1".to_string())
    );
    assert_eq!(
        run_check(counted, &exited(0, "one\n")),
        Err("row-count command must print one integer only".to_string())
    );
    let invalid = Ok(CommandOutput { code: Some(0), stdout: vec![0xff] });
    assert_eq!(run_check(counted, &invalid), Err("row-count output was not UTF-8".to_string()));
    let open = Check::RowCount {
        id: "rows".into(),
        service: "database".into(),
        argv: strings(&["count"]),
        min: 5,
        max: None,
        timeout_seconds: 10,
    };
    assert_eq!(run_check(&open, &exited(0, "+70")), Ok("count 70 is within expected range 5..∞".to_string()));
    assert_eq!(run_check(&open, &exited(0, "4")), Err("row count 4 is outside expected range 5..∞".to_string()));
    assert_eq!(
        run_check(&open, &exited(2, "70")),
        Err("check exited with code 2; output omitted".to_string())
    );
}

#[test]
fn exit_code_checks_omit_output() {
    let m = manifest("broken-check");
    assert_eq!(
        run_check(&m.checks[2], &exited(0, "all rows")),
        Ok("declared check exited 0; output omitted".to_string())
    );
    assert_eq!(
        run_check(&m.checks[2], &exited(9, "all rows")),
        Err("check exited with code 9; output omitted".to_string())
    );
}

#[test]
fn cleanup_reports_compose_down_failures() {
    assert_eq!(cleanup(&exited(0, "")), Ok(()));
    assert_eq!(cleanup(&exited(1, "")), Err("compose down exited with code 1".to_string()));
}

#[test]
fn preflight_requires_a_valid_isolated_model() {
    let model = r#"{"services":{"database":{"image":"example"}},"networks":{"default":{}}}"#;
    assert_eq!(preflight_compose(&exited(0, model), "rrc-integration"), Ok(()));
    assert_eq!(
        preflight_compose(&exited(1, model), "rrc-integration"),
        Err("Docker Compose could not validate the rehearsal target".to_string())
    );
    assert_eq!(
        preflight_compose(&exited(0, "{"), "rrc-integration"),
        Err("Docker Compose returned invalid config JSON".to_string())
    );
    let host = r#"{"services":{"db":{"privileged":true,"ports":[]}}}"#;
    let error = preflight_compose(&exited(0, host), "rrc-integration").unwrap_err();
    assert_eq!(error, "unsafe Compose isolation: service db is privileged");
    assert_eq!(run_error_exit_code(&error), 3);
    let scoped = r#"{"services":{"b":{"image":"x"},"a":{"ipc":"host"}},"volumes":{"data":{"name":"rrc-integration_data"}}}"#;
    assert_eq!(
        preflight_compose(&exited(0, scoped), "rrc-integration"),
        Err("unsafe Compose isolation: service a overrides its ipc namespace".to_string())
    );
}

#[test]
fn exit_codes_separate_refusals_from_failures() {
    assert_eq!(run_error_exit_code("service db uses a host bind mount"), 3);
    assert_eq!(run_error_exit_code("operation timed out after 60s"), 4);
    assert_eq!(
        run_error_exit_code("unsafe Compose isolation: service app overrides its project network namespace"),
        3
    );
    assert_eq!(
        run_error_exit_code("unsafe Compose isolation: service db declares host-facing `ports` access"),
        3
    );
    assert_eq!(run_error_exit_code("check `probe` failed: unsafe Compose isolation: x"), 4);
}

#[test]
fn artifacts_are_hashed_in_pieces() {
    let mut hash = ArtifactHash::new("backup");
    hash.absorb(b"a");
    hash.absorb(b"bc");
    assert_eq!(hash.bytes_read(), 3);
    let evidence = hash.finish();
    assert_eq!(evidence.id, "backup");
    assert_eq!(evidence.bytes, 3);
    assert_eq!(evidence.sha256, "ba7816bf8f01cfea414140de5dae2223b00361a396177a9cb410ff61f20015ad");
}

#[test]
fn timestamps_are_rfc3339_in_utc() {
    assert_eq!(timestamp(0), Ok("1970-01-01T00:00:00Z".to_string()));
    assert_eq!(timestamp(1_788_000_001_500_000_000), Ok("2026-08-29T10:40:01.5Z".to_string()));
}

#[test]
fn command_line_confirmation_names_the_expected_target() {
    let m = manifest("probe-check");
    assert_eq!(confirm_target(&m, "rrc-integration"), Ok(()));
    let error = confirm_target(&m, "wrong-target").unwrap_err();
    assert_eq!(error, "target confirmation mismatch; expected `rrc-integration`");
    assert_eq!(run_error_exit_code(&error), 3);
}

#[test]
fn output_the_rehearsal_does_not_read_leaves_the_card_unchanged() {
    for probe in ["probe-check", "broken-check"] {
        let m = manifest(probe);
        let (quiet, _, quiet_log) = rehearse_against(&m, false, 1_500, fake_docker);
        let (noisy, _, noisy_log) = rehearse_against(&m, false, 1_500, noisy_docker);
        assert_eq!(quiet_log, noisy_log);
        assert_eq!(quiet, noisy);
        assert!(!noisy.contains("secret"));
    }
}
