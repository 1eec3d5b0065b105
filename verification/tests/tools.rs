use conga_core::tool::{
    background_dir, confine_backend, cwd_inaccessible_message, landlock_rules, persistent_failed,
    probe_verdict, reported_code, sandbox_tmp, seatbelt_args, spawn_failed_message,
    timed_out_message, Access, ConfineBackend, Platform, ProbeOutcome,
    child_env, command_result_text, env_get, env_set, plan_bash, sandbox_enabled, seatbelt_profile,
    BashArgs, RiskLevel, DEFAULT_TIMEOUT_SECS,
};

#[test]
fn sandbox_enabled_only_on_exact_flag() {
    let mut env: Vec<(String, String)> = Vec::new();
    assert!(!sandbox_enabled(&env));
    env_set(&mut env, "CONGA_SANDBOX", "0");
    assert!(!sandbox_enabled(&env));
    env_set(&mut env, "CONGA_SANDBOX", "1");
    assert!(sandbox_enabled(&env));
}

#[test]
fn profile_allows_read_execute_and_denies_write_by_default() {
    let p = seatbelt_profile("/tmp/cwd", "/tmp/dir", "/private/var/tmp");
    assert!(p.contains("(version 1)"), "{p}");
    assert!(p.contains("(allow default)"), "read/exec broadly: {p}");
    assert!(p.contains("(deny file-write*)"), "deny writes: {p}");
    assert!(p.contains("(allow file-write* (subpath \"/tmp/cwd\"))"), "{p}");
    assert!(p.contains("(allow file-write* (subpath \"/tmp/dir\"))"), "{p}");
}

#[test]
fn profile_includes_var_tmp_as_passed() {
    let p = seatbelt_profile("/x", "/y", "/private/var/tmp");
    assert!(p.contains("(allow file-write* (subpath \"/private/var/tmp\"))"), "{p}");
}

#[test]
fn env_set_replaces_and_get_reads_back() {
    let mut env: Vec<(String, String)> = vec![
        ("A".to_string(), "1".to_string()),
        ("B".to_string(), "2".to_string()),
        ("A".to_string(), "3".to_string()),
    ];
    assert_eq!(env_get(&env, "A"), Some("3".to_string()));
    env_set(&mut env, "A", "9");
    assert_eq!(env, vec![("B".to_string(), "2".to_string()), ("A".to_string(), "9".to_string())]);
    assert_eq!(env_get(&env, "A"), Some("9".to_string()));
    assert_eq!(env_get(&env, "B"), Some("2".to_string()));
    assert_eq!(env_get(&env, "C"), None);
}

#[test]
fn child_env_drops_host_variables() {
    let env: Vec<(String, String)> = vec![
        ("PATH".to_string(), "/bin".to_string()),
        ("CONGA_LLM_KEY".to_string(), "secret".to_string()),
        ("HOME".to_string(), "/h".to_string()),
        ("CONGA_GATEWAY_TOKEN".to_string(), "t".to_string()),
    ];
    let child = child_env(&env);
    assert_eq!(child, vec![("PATH".to_string(), "/bin".to_string()), ("HOME".to_string(), "/h".to_string())]);
}

#[test]
fn bash_plan_defaults_and_sandbox() {
    let args = BashArgs { command: Some("echo hi".to_string()), timeout: None, run_in_background: None };
    let plain = plan_bash(&args, &Vec::new(), false).unwrap();
    assert_eq!(plain.command, "echo hi");
    assert_eq!(plain.timeout_secs, DEFAULT_TIMEOUT_SECS);
    assert!(plain.persistent && !plain.confine && !plain.run_in_background);

    let sandboxed = vec![("CONGA_SANDBOX".to_string(), "1".to_string())];
    let confined = plan_bash(&args, &sandboxed, false).unwrap();
    assert!(confined.confine && !confined.persistent);

    let windows = plan_bash(&args, &Vec::new(), true).unwrap();
    assert!(!windows.persistent && !windows.confine);

    let missing = BashArgs { command: None, timeout: Some(5), run_in_background: Some(true) };
    assert_eq!(plan_bash(&missing, &Vec::new(), false).unwrap_err(), "command is required");
}

#[test]
fn command_result_text_shapes_output() {
    assert_eq!(command_result_text("hi\n", "", 0), "hi\n\n[exit 0]");
    assert_eq!(command_result_text("", "boom", 2), "boom\n[exit 2]");
    assert_eq!(command_result_text("out", "err", -1), "out\n--- stderr ---\nerr\n[exit -1]");
    assert_eq!(command_result_text("", "", 0), "[exit 0]");
}

#[test]
fn default_risk_is_the_strictest() {
    assert_eq!(RiskLevel::default(), RiskLevel::High);
}

#[test]
fn bash_is_high_like_the_terminal() {
    let b = conga_core::tool::bash_tool();
    assert_eq!(b.name, "bash");
    assert_eq!(b.risk, RiskLevel::High);
    let params: serde_json::Value = serde_json::from_str(&b.parameters).unwrap();
    assert_eq!(params["required"][0], "command");
}

#[test]
fn bash_outcome_helpers() {
    assert_eq!(background_dir("/s", true).as_deref(), Some("/s/bg"));
    assert_eq!(background_dir("/s", false), None);
    assert!(persistent_failed(None));
    assert!(persistent_failed(Some(2)));
    assert!(!persistent_failed(Some(0)));
    assert_eq!(reported_code(None), -1);
    assert_eq!(reported_code(Some(3)), 3);
    assert_eq!(timed_out_message(5), "timed out after 5s");
    assert_eq!(spawn_failed_message("no sh"), "failed to spawn: no sh");
}

#[test]
fn confinement_is_fail_closed() {
    assert!(matches!(confine_backend(Platform::MacOs, false), ConfineBackend::Seatbelt));
    assert!(matches!(confine_backend(Platform::Linux, true), ConfineBackend::Landlock));
    match confine_backend(Platform::Linux, false) {
        ConfineBackend::Refuse(m) => assert!(m.contains("--features sandbox-landlock"), "{m}"),
        other => panic!("{other:?}"),
    }
    assert!(matches!(confine_backend(Platform::Other, true), ConfineBackend::Refuse(m) if m == "sandbox unsupported on this platform"));
    assert!(probe_verdict(&ProbeOutcome::Exited { success: true, code: Some(0) }).is_ok());
    let refused = probe_verdict(&ProbeOutcome::Exited { success: false, code: Some(71) }).unwrap_err();
    assert!(refused.contains("sandbox-exec exited 71"), "{refused}");
    let killed = probe_verdict(&ProbeOutcome::Exited { success: false, code: None }).unwrap_err();
    assert!(killed.contains("exited -1"), "{killed}");
    assert_eq!(
        probe_verdict(&ProbeOutcome::SpawnFailed("not found".to_string())).unwrap_err(),
        "sandbox self-check could not run sandbox-exec: not found"
    );
    assert_eq!(sandbox_tmp(None), "/tmp");
    assert_eq!(sandbox_tmp(Some("/t")), "/t");
    assert_eq!(
        seatbelt_args("(version 1)", "sh", &vec!["-c".to_string(), "ls".to_string()]),
        vec!["-p", "(version 1)", "sh", "-c", "ls"]
    );
    let rules = landlock_rules("/cwd", "/tmp");
    assert_eq!(rules[0], ("/".to_string(), Access::Read));
    assert_eq!(rules[3], ("/var/tmp".to_string(), Access::ReadWrite));
    assert_eq!(cwd_inaccessible_message("gone"), "sandbox: cwd not accessible: gone");
}

#[test]
fn confine_without_feature_fails_closed_with_hint() {
    match confine_backend(Platform::Linux, false) {
        ConfineBackend::Refuse(err) => assert!(err.contains("--features sandbox-landlock"), "{err}"),
        other => panic!("{other:?}"),
    }
}
