use restore_rehearsal_card::report::{
    encode_signing_key, escape_markdown, escape_table, generate_signing_key, parse_signing_key,
    push_seconds, read_signing_key, verify_card, ArtifactEvidence, Card, Evidence, SigningKey,
};

fn card() -> Card {
    Card {
        rehearsal: "Weekly restore".into(),
        target: "restore-weekly".into(),
        started_at: "2026-08-28T00:00:00Z".into(),
        finished_at: "2026-08-28T00:00:01Z".into(),
        duration_ms: 1_000,
        rto_seconds: 10,
        passed: true,
        artifacts: vec![],
        evidence: vec![],
        failure: None,
    }
}

#[test]
fn signed_card_verifies_and_tampering_fails() {
    let key = SigningKey::from_bytes(&[7_u8; 32]);
    let signed = card().sign(&key);
    assert!(verify_card(&signed).is_ok());
    assert!(verify_card(&signed.replace("PASSED", "FAILED")).is_err());
}

#[test]
fn card_never_includes_command_output_field() {
    let body = card().markdown_body();
    assert!(body.contains("restored records are intentionally omitted"));
    assert!(!body.contains("stdout"));
}

#[test]
fn card_header_reports_result_timing_and_rto() {
    let body = card().markdown_body();
    assert!(body.starts_with("# Restore rehearsal card\n\n**Weekly restore** · `restore-weekly`\n\n"));
    assert!(body.contains("| **PASSED** | 1.00 s | 10 s | met |\n"));
    assert!(body.contains("- Started: `2026-08-28T00:00:00Z`\n"));
    assert!(body.contains("No host artifacts were declared."));
    assert!(!body.contains("## Failure"));
}

#[test]
fn card_tables_list_artifacts_and_evidence() {
    let mut failed = card();
    failed.passed = false;
    failed.duration_ms = 12_346;
    failed.artifacts = vec![ArtifactEvidence {
        id: "backup".into(),
        bytes: 23,
        sha256: "ab".repeat(32),
    }];
    failed.evidence = vec![Evidence {
        id: "probe".into(),
        kind: "exit-code".into(),
        passed: false,
        duration_ms: 7,
        detail: "check exited with code 9; output omitted".into(),
    }];
    failed.failure = Some("check `probe` failed: check exited with code 9; output omitted".into());
    let body = failed.markdown_body();
    assert!(body.contains("| **FAILED** | 12.35 s | 10 s | missed |"), "{body}");
    assert!(body.contains(&format!("| `backup` | 23 | `{}` |\n", "ab".repeat(32))));
    assert!(body.contains("| FAIL | `probe` | exit-code | 7 ms | check exited with code 9; output omitted |\n"));
    assert!(body.contains("## Failure\n\ncheck \\`probe\\` failed"));
}

#[test]
fn escaping_protects_markdown_and_tables() {
    assert_eq!(escape_markdown("a*b_c`d\\"), "a\\*b\\_c\\`d\\\\");
    assert_eq!(escape_table("x|y\r\nz"), "x\\|y  z");
}

#[test]
fn encoded_key_reads_back() {
    let text = encode_signing_key(&SigningKey::from_bytes(&[7_u8; 32]));
    assert!(text.starts_with("rrc-ed25519-v1:"));
    assert!(text.ends_with("\n"));
    assert_eq!(text, format!("rrc-ed25519-v1:{}\n", "BwcHBwcHBwcHBwcHBwcHBwcHBwcHBwcHBwcHBwcHBwc="));
    let key = parse_signing_key(&text).unwrap();
    assert_eq!(key.to_bytes(), [7_u8; 32]);
}

#[test]
fn generated_key_reads_back() {
    let text = generate_signing_key().unwrap();
    let key = parse_signing_key(&text).unwrap();
    assert_eq!(encode_signing_key(&key), text);
    let other = generate_signing_key().unwrap();
    assert_ne!(text, other);
}

#[test]
fn signing_key_errors_are_named() {
    let read_error = read_signing_key("k.key", &Err("missing".to_string())).err().unwrap();
    assert_eq!(read_error, "could not read signing key k.key: missing");
    let format_error = parse_signing_key("ssh-ed25519 AAAA").err().unwrap();
    assert_eq!(format_error, "unsupported signing key format");
    let encoding_error = parse_signing_key("rrc-ed25519-v1:@@@@").err().unwrap();
    assert_eq!(encoding_error, "invalid signing key encoding");
    let length_error = parse_signing_key("rrc-ed25519-v1:AAAA\n").err().unwrap();
    assert_eq!(length_error, "signing key must contain 32 bytes");
}

#[test]
fn verification_names_what_is_wrong() {
    assert_eq!(verify_card("# no signature\n"), Err("card has no rrc signature block".to_string()));
    let key = SigningKey::from_bytes(&[9_u8; 32]);
    let signed = card().sign(&key);
    let unclosed = signed.trim_end_matches("-->\n").to_string();
    assert_eq!(verify_card(&unclosed), Err("signature block is not closed".to_string()));
    let other_algorithm = signed.replace("algorithm: ed25519", "algorithm: rsa");
    assert_eq!(verify_card(&other_algorithm), Err("unsupported signature algorithm".to_string()));
    let tampered = signed.replace("Weekly restore", "Weekly restorf");
    assert_eq!(verify_card(&tampered), Err("card signature is invalid".to_string()));
}

fn seconds(ms: u128) -> String {
    let mut out = String::new();
    push_seconds(&mut out, ms);
    out
}

#[test]
fn seconds_match_two_decimal_float_formatting() {
    for ms in (0_u128..300_000).chain([1_000_005, 12_345_675, 86_400_000, 9_007_199_254_740_991]) {
        assert_eq!(seconds(ms), format!("{:.2}", ms as f64 / 1_000.0), "{ms} ms");
    }
    assert_eq!(seconds(125), "0.12");
    assert_eq!(seconds(12_345), "12.35");
    assert_eq!(seconds(1_005), "1.00");
}

#[test]
fn seconds_match_float_formatting_for_very_long_durations() {
    let mut samples: Vec<u128> = (0_u128..4_000).map(|k| (1_u128 << 53) + k).collect();
    samples.extend((0_u128..2_000).map(|k| (1_u128 << 54) + 3 * k));
    for shift in 53..128 {
        let base = 1_u128 << shift;
        samples.extend([base - 1, base, base + 1, base + base / 3, base + base / 7 + 12_345]);
    }
    samples.extend([u64::MAX as u128, u128::MAX, 10_u128.pow(20) + 5, 10_u128.pow(30) + 125]);
    let mut value: u128 = 0x9e37_79b9_7f4a_7c15;
    for _ in 0..5_000 {
        value = value.wrapping_mul(0x5851_f42d_4c95_7f2d).wrapping_add(0x1405_7b7e_f767_814f);
        samples.push(value >> (value % 70));
    }
    for ms in samples {
        assert_eq!(seconds(ms), format!("{:.2}", ms as f64 / 1_000.0), "{ms} ms");
    }
    assert_eq!(seconds(1_u128 << 60), "1152921504606847.00");
}
