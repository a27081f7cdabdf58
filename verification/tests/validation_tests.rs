use async_bash_mcp::validation::{
    cwd_outcome, dangerous_patterns_compile, decide_command, match_dangerous_patterns, validate_command,
    validate_cwd, validate_spawn_request,
};

// --- validate_command tests ---

#[test]
fn test_empty_command() {
    assert_eq!(
        validate_command(""),
        Err("Command cannot be empty".to_string())
    );
    assert_eq!(
        validate_command("   "),
        Err("Command cannot be empty".to_string())
    );
    assert_eq!(
        validate_command("\t\n"),
        Err("Command cannot be empty".to_string())
    );
}

#[test]
fn test_command_too_long() {
    // 10001 chars should fail
    let long = "a".repeat(10001);
    assert_eq!(
        validate_command(&long),
        Err("Command too long (max 10000 characters)".to_string())
    );
}

#[test]
fn test_command_at_limit() {
    // exactly 10000 chars should pass
    let at_limit = "a".repeat(10000);
    assert!(validate_command(&at_limit).is_ok());
}

#[test]
fn test_dangerous_rm_rf() {
    assert_eq!(
        validate_command("rm -rf /"),
        Err("Command contains potentially dangerous pattern: rm\\s+-rf\\s+/".to_string())
    );
    assert_eq!(
        validate_command("rm -rf /home"),
        Err("Command contains potentially dangerous pattern: rm\\s+-rf\\s+/".to_string())
    );
    assert!(validate_command("rm file.txt").is_ok());
    assert!(validate_command("rm -rf ./local").is_ok());
}

#[test]
fn test_dangerous_fork_bomb() {
    assert_eq!(
        validate_command(":(){ :|: & };:"),
        Err(
            "Command contains potentially dangerous pattern: :\\(\\)\\{\\s*:\\|:\\s*&\\s*\\};:"
                .to_string()
        )
    );
}

#[test]
fn test_dangerous_dd() {
    assert_eq!(
        validate_command("dd if=/dev/zero of=/dev/sda"),
        Err("Command contains potentially dangerous pattern: dd\\s+if=/dev/zero".to_string())
    );
}

#[test]
fn test_dangerous_case_insensitive() {
    assert_eq!(
        validate_command("RM -RF /"),
        Err("Command contains potentially dangerous pattern: rm\\s+-rf\\s+/".to_string())
    );
    assert_eq!(
        validate_command("Rm -Rf /tmp"),
        Err("Command contains potentially dangerous pattern: rm\\s+-rf\\s+/".to_string())
    );
}

#[test]
fn test_safe_commands_pass() {
    assert!(validate_command("echo hello").is_ok());
    assert!(validate_command("ls -la").is_ok());
    assert!(validate_command("git commit -m 'message'").is_ok());
    assert!(validate_command("cargo test").is_ok());
}

#[test]
fn command_length_counts_characters() {
    // 10000 two-byte characters are within the limit of 10000 characters.
    let at_limit = "é".repeat(10000);
    assert!(validate_command(&at_limit).is_ok());
    assert!(validate_command(&"é".repeat(5001)).is_ok());
    let over = "é".repeat(10001);
    assert_eq!(
        validate_command(&over),
        Err("Command too long (max 10000 characters)".to_string())
    );
}

#[test]
fn decide_command_from_match_answers() {
    assert_eq!(decide_command("anything", &vec![false, false, false]), Ok(()));
    assert_eq!(
        decide_command("anything", &vec![false, true, true]),
        Err("Command contains potentially dangerous pattern: :\\(\\)\\{\\s*:\\|:\\s*&\\s*\\};:".to_string())
    );
    assert_eq!(
        decide_command("anything", &vec![false, false, true]),
        Err("Command contains potentially dangerous pattern: dd\\s+if=/dev/zero".to_string())
    );
    assert_eq!(
        decide_command("  ", &vec![true, true, true]),
        Err("Command cannot be empty".to_string())
    );
    assert_eq!(
        decide_command(&"a".repeat(10001), &vec![true, false, false]),
        Err("Command too long (max 10000 characters)".to_string())
    );
}

#[test]
fn pattern_answers_follow_the_regexes() {
    assert_eq!(match_dangerous_patterns("RM  -rf /x"), vec![true, false, false]);
    assert_eq!(match_dangerous_patterns("echo hi"), vec![false, false, false]);
    assert_eq!(match_dangerous_patterns("dd if=/dev/zero; :(){ :|: & };:"), vec![false, true, true]);
}

#[test]
fn blank_check_comes_before_length_check() {
    let long_blank = " ".repeat(20000);
    assert_eq!(
        validate_command(&long_blank),
        Err("Command cannot be empty".to_string())
    );
}

#[test]
fn first_matching_pattern_is_reported() {
    assert_eq!(
        validate_command("dd if=/dev/zero of=x; rm -rf /"),
        Err("Command contains potentially dangerous pattern: rm\\s+-rf\\s+/".to_string())
    );
}

// --- validate_cwd tests ---

#[test]
fn test_cwd_none() {
    assert_eq!(validate_cwd(None), Ok(None));
}

#[test]
fn test_cwd_empty() {
    assert_eq!(
        validate_cwd(Some("")),
        Err("Working directory cannot be empty string".to_string())
    );
    assert_eq!(
        validate_cwd(Some("   ")),
        Err("Working directory cannot be empty string".to_string())
    );
    assert_eq!(
        validate_cwd(Some("\t")),
        Err("Working directory cannot be empty string".to_string())
    );
}

#[test]
fn test_cwd_nonexistent() {
    let path = "/nonexistent/path/does/not/exist";
    assert_eq!(
        validate_cwd(Some(path)),
        Err(format!("Working directory does not exist: {}", path))
    );
}

#[test]
fn test_cwd_is_file() {
    let tmp_file = tempfile::NamedTempFile::new().expect("failed to create temp file");
    let path_str = tmp_file.path().to_str().expect("non-utf8 path").to_string();
    assert_eq!(
        validate_cwd(Some(&path_str)),
        Err(format!(
            "Working directory is not a directory: {}",
            path_str
        ))
    );
}

#[test]
fn test_cwd_valid() {
    let tmp_dir = tempfile::tempdir().expect("failed to create temp dir");
    let path_str = tmp_dir.path().to_str().expect("non-utf8 path").to_string();
    let result = validate_cwd(Some(&path_str));
    assert!(result.is_ok());
    let resolved = result.unwrap();
    assert!(resolved.is_some());
    let resolved_path = resolved.unwrap();
    assert!(!resolved_path.is_empty());
}

#[test]
fn spawn_request_checks_command_before_directory() {
    assert_eq!(
        validate_spawn_request("rm -rf /", Some("/nonexistent/dir")),
        Some(Err("Command contains potentially dangerous pattern: rm\\s+-rf\\s+/".to_string()))
    );
    assert_eq!(
        validate_spawn_request("echo hi", Some("/nonexistent/dir")),
        Some(Err("Working directory does not exist: /nonexistent/dir".to_string()))
    );
    assert_eq!(validate_spawn_request("echo hi", None), Some(Ok(None)));
}

#[test]
fn spawn_request_resolves_directory() {
    let tmp_dir = tempfile::tempdir().expect("failed to create temp dir");
    let path_str = tmp_dir.path().to_str().expect("non-utf8 path").to_string();
    let r = validate_spawn_request("pwd", Some(&path_str));
    match r {
        Some(Ok(Some(p))) => assert!(p.starts_with('/')),
        other => panic!("unexpected: {:?}", other),
    }
}

#[test]
fn cwd_is_resolved_to_canonical_form() {
    let tmp_dir = tempfile::tempdir().expect("failed to create temp dir");
    let canonical = tmp_dir.path().canonicalize().unwrap().to_str().unwrap().to_string();
    let roundabout = format!("{}/./", tmp_dir.path().to_str().unwrap());
    assert_eq!(validate_cwd(Some(&roundabout)), Ok(Some(canonical)));
}

#[test]
fn cwd_outcome_branches() {
    assert_eq!(
        cwd_outcome("/a", false, false, None),
        Err("Working directory does not exist: /a".to_string())
    );
    assert_eq!(
        cwd_outcome("/a", true, false, None),
        Err("Working directory is not a directory: /a".to_string())
    );
    assert_eq!(
        cwd_outcome("/a", true, true, Some(Ok("/real/a".to_string()))),
        Ok(Some("/real/a".to_string()))
    );
    assert_eq!(
        cwd_outcome("/a", true, true, Some(Err("Permission denied (os error 13)".to_string()))),
        Err("Invalid working directory: Permission denied (os error 13)".to_string())
    );
}

#[test]
fn dangerous_patterns_all_compile() {
    assert!(dangerous_patterns_compile());
}
