use restore_rehearsal_card::config::{
    check_summary, default_timeout, starter_manifest, validate_argv, validate_compose_file,
    validate_id, validate_label, validate_service, validate_timeout, Artifact, Check, Compose,
    LocalInputs, Manifest, Step,
};
use restore_rehearsal_card::paths::{manifest_base, relative_key_reference, resolve_from_manifest};
use restore_rehearsal_card::report::{encode_signing_key, SigningKey};

fn strings(items: &[&str]) -> Vec<String> {
    items.iter().map(|item| item.to_string()).collect()
}

fn no_inputs() -> LocalInputs {
    LocalInputs {
        compose_is_file: false,
        compose_source: Err("not read".to_string()),
        signing_key_source: Err("not read".to_string()),
        artifact_is_file: vec![],
    }
}

fn integration_manifest() -> Manifest {
    Manifest {
        version: 1,
        name: "Integration rehearsal".into(),
        rto_seconds: 30,
        signing_key: "rehearsal.key".into(),
        compose: Compose { file: "compose.yml".into(), project: "rrc-integration".into() },
        artifacts: vec![Artifact { id: "backup".into(), path: "backup.sql".into() }],
        steps: vec![
            Step::ComposeUp {
                id: "start".into(),
                services: strings(&["database"]),
                timeout_seconds: default_timeout(),
            },
            Step::Copy {
                id: "copy".into(),
                artifact: "backup".into(),
                service: "database".into(),
                destination: "/tmp/restore-rehearsal/backup.sql".into(),
                timeout_seconds: default_timeout(),
            },
        ],
        checks: vec![
            Check::Health {
                id: "ready".into(),
                service: "database".into(),
                timeout_seconds: default_timeout(),
            },
            Check::RowCount {
                id: "row-count".into(),
                service: "database".into(),
                argv: strings(&["count-command", "--command", "SELECT count(*) FROM probe"]),
                min: 1,
                max: Some(1),
                timeout_seconds: default_timeout(),
            },
        ],
    }
}

fn key_text() -> String {
    encode_signing_key(&SigningKey::from_bytes(&[7_u8; 32]))
}

fn inputs_with(compose: &str, key: &str) -> LocalInputs {
    LocalInputs {
        compose_is_file: true,
        compose_source: Ok(compose.to_string()),
        signing_key_source: Ok(key.to_string()),
        artifact_is_file: vec![true],
    }
}

#[test]
fn rejects_shells() {
    assert!(validate_argv(&strings(&["sh", "-c", "echo secret"])).is_err());
    assert!(validate_argv(&strings(&["psql", "--version"])).is_ok());
}

#[test]
fn rejects_production_target_before_execution() {
    let manifest = Manifest {
        version: 1,
        name: "Weekly".into(),
        rto_seconds: 60,
        signing_key: "key".into(),
        compose: Compose { file: "missing.yml".into(), project: "production-restore".into() },
        artifacts: vec![],
        steps: vec![],
        checks: vec![],
    };
    assert!(manifest.validate(".", &no_inputs()).unwrap_err().contains("production-like"));
}

#[test]
fn shell_rejection_names_the_interpreter() {
    let error = validate_argv(&strings(&["/usr/bin/bash", "-c", "true"])).unwrap_err();
    assert!(error.contains("shell interpreters"), "{error}");
    assert!(validate_argv(&[]).is_err());
    for shell in ["ash", "/bin/ash", "ksh", "mksh", "csh", "tcsh", "yash", "busybox", "/bin/busybox"] {
        let error = validate_argv(&strings(&[shell, "-c", "echo unsafe"])).unwrap_err();
        assert!(error.starts_with("shell interpreters are not allowed in argv: "), "{error}");
    }
    assert!(validate_argv(&strings(&["pg_restore", "--clean"])).is_ok());
}

#[test]
fn complete_manifest_with_readable_inputs_is_valid() {
    let manifest = integration_manifest();
    let inputs = inputs_with("services:\n  database:\n    image: postgres:17-alpine\n", &key_text());
    assert_eq!(manifest.validate("/work", &inputs), Ok(()));
}

#[test]
fn check_rejects_malformed_compose_and_corrupt_key() {
    let manifest = Manifest {
        version: 1,
        name: "Check inputs".into(),
        rto_seconds: 30,
        signing_key: "key".into(),
        compose: Compose { file: "compose.yml".into(), project: "rrc-check-inputs".into() },
        artifacts: vec![],
        steps: vec![Step::ComposeUp {
            id: "start".into(),
            services: strings(&["database"]),
            timeout_seconds: default_timeout(),
        }],
        checks: vec![Check::Health {
            id: "ready".into(),
            service: "database".into(),
            timeout_seconds: default_timeout(),
        }],
    };
    let malformed = LocalInputs {
        compose_is_file: true,
        compose_source: Ok("services: [not valid\n".to_string()),
        signing_key_source: Ok("not a signing key\n".to_string()),
        artifact_is_file: vec![],
    };
    assert!(manifest.validate("/work", &malformed).unwrap_err().contains("invalid Compose YAML"));
    let corrupt_key = LocalInputs {
        compose_is_file: true,
        compose_source: Ok("services:\n  database:\n    image: postgres\n".to_string()),
        signing_key_source: Ok("not a signing key\n".to_string()),
        artifact_is_file: vec![],
    };
    assert!(manifest.validate("/work", &corrupt_key).unwrap_err().contains("signing key"));
}

#[test]
fn compose_file_without_services_is_refused() {
    let error = validate_compose_file("compose.yml", &Ok("version: '3'\n".to_string())).unwrap_err();
    assert_eq!(error, "compose.file must declare at least one service: compose.yml");
    let error = validate_compose_file("compose.yml", &Err("gone".to_string())).unwrap_err();
    assert_eq!(error, "could not read compose.file compose.yml: gone");
}

#[test]
fn copy_outside_the_staging_path_is_refused() {
    let mut manifest = integration_manifest();
    manifest.steps[1] = Step::Copy {
        id: "copy".into(),
        artifact: "backup".into(),
        service: "database".into(),
        destination: "/tmp/restore-rehearsal/../host.sql".into(),
        timeout_seconds: 120,
    };
    let inputs = inputs_with("services:\n  database:\n    image: postgres\n", &key_text());
    let error = manifest.validate("/work", &inputs).unwrap_err();
    assert!(error.contains("copy destination"), "{error}");
}

#[test]
fn default_timeout_is_two_minutes() {
    assert_eq!(default_timeout(), 120);
}

#[test]
fn steps_and_checks_report_their_ids() {
    let manifest = integration_manifest();
    assert_eq!(manifest.steps[1].id(), "copy");
    assert_eq!(manifest.checks[1].id(), "row-count");
}

#[test]
fn starter_manifest_references_the_key() {
    let source = starter_manifest(".rrc/rehearsal.key");
    assert!(source.starts_with("version = 1\n"));
    assert!(source.contains("signing_key = \".rrc/rehearsal.key\"\n"));
    assert!(source.ends_with("min = 1\n"));
}

#[test]
fn summary_names_target_and_counts() {
    let summary = check_summary(&integration_manifest());
    assert_eq!(summary, "Valid: Integration rehearsal → rrc-integration (2 steps, 2 checks)");
}

#[test]
fn key_paths_resolve_next_to_the_manifest() {
    assert_eq!(resolve_from_manifest("nested/restore.toml", ".rrc/rehearsal.key"), "nested/.rrc/rehearsal.key");
    assert_eq!(resolve_from_manifest("nested/restore.toml", "/keys/k"), "/keys/k");
    assert_eq!(resolve_from_manifest("restore.toml", "k.key"), "k.key");
    assert_eq!(relative_key_reference("nested/restore.toml", "nested/.rrc/rehearsal.key"), ".rrc/rehearsal.key");
    assert_eq!(relative_key_reference("nested/restore.toml", "/elsewhere/k.key"), "/elsewhere/k.key");
}

#[test]
fn manifest_base_is_the_parent_directory() {
    assert_eq!(manifest_base("/work/restore.toml"), "/work");
    assert_eq!(manifest_base("restore.toml"), "");
    assert_eq!(manifest_base("/"), ".");
}

#[test]
fn field_rules_name_the_field() {
    assert_eq!(validate_label("name", "   "), Err("name must contain 1–80 characters".to_string()));
    assert_eq!(validate_label("name", &"x".repeat(80)), Ok(()));
    assert!(validate_label("name", &"é".repeat(41)).is_err());
    assert_eq!(validate_id("step", "start-1_a"), Ok(()));
    assert_eq!(
        validate_id("step", "start up"),
        Err("step id must use 1–48 letters, digits, hyphens, or underscores".to_string())
    );
    assert!(validate_service(&"d".repeat(49)).is_err());
    assert_eq!(validate_timeout(0), Err("timeout_seconds must be between 1 and 3600".to_string()));
    assert_eq!(validate_timeout(3600), Ok(()));
    assert!(validate_timeout(3601).is_err());
}

#[test]
fn compose_services_are_read_through_tags() {
    let tagged = "services: !custom\n  db:\n    image: postgres\n".to_string();
    assert_eq!(validate_compose_file("compose.yml", &Ok(tagged)), Ok(()));
    let empty = "services: {}\n".to_string();
    assert_eq!(
        validate_compose_file("compose.yml", &Ok(empty)),
        Err("compose.file must declare at least one service: compose.yml".to_string())
    );
    let listed = "services:\n  - db\n".to_string();
    assert!(validate_compose_file("compose.yml", &Ok(listed)).is_err());
    let tagged_key = "!key services:\n  db:\n    image: postgres\n".to_string();
    assert!(validate_compose_file("compose.yml", &Ok(tagged_key)).is_err());
    let error = validate_compose_file("compose.yml", &Ok("services: [not valid\n".to_string())).unwrap_err();
    assert!(error.starts_with("invalid Compose YAML compose.yml: "), "{error}");
}
