use qaqh_workspace::base64::base64_decode;
use qaqh_workspace::exec::handler::{
    available_shells, detect_background_derivation, handle_run_with_shell, judge_run, normalize_command_rg,
    normalize_rg_argv, working_dir, RunContext, RunEnd,
};
use qaqh_workspace::exec::pipe::{
    child_settled, forward_progress, PipeEvent, Pump, PumpNext, READER_SETTLE_BUDGET,
};
use qaqh_workspace::exec::register::register;
use qaqh_workspace::exec::shell::{ps_encode, Shell, ShellPaths, ShellProbe};
use qaqh_workspace::exec::truncate::{
    find_token_boundary, find_token_boundary_reverse, strip_ansi, token_truncate,
};
use qaqh_workspace::json::Json;
use qaqh_workspace::manager::{ToolCategory, ToolManager, ToolRisk};

fn derive_exec_args(shell: Shell, command: &str) -> Vec<String> {
    shell.derive_exec_args_with(&ShellPaths::new(), command, None)
}

#[test]
fn shell_from_name_resolves_known_shells() {
    assert_eq!(Shell::from_name("pwsh"), Some(Shell::PowerShell));
    assert_eq!(Shell::from_name("powershell"), Some(Shell::PowerShell));
    assert_eq!(Shell::from_name("cmd"), Some(Shell::Cmd));
    assert_eq!(Shell::from_name("zsh"), Some(Shell::Zsh));
    assert_eq!(Shell::from_name("sh"), Some(Shell::Sh));
    assert_eq!(Shell::from_name("bash"), Some(Shell::Bash));
    assert_eq!(Shell::from_name("fish"), None);
    assert_eq!(Shell::from_name(""), None);
}

#[test]
fn rg_habit_fix_argv_mode() {
    let mut argv = vec!["rg".into(), "-rn".into(), "pattern".into()];
    normalize_rg_argv(&mut argv);
    assert_eq!(argv, vec!["rg", "-n", "pattern"]);
    let mut argv = vec!["rg".into(), "-rni".into(), "pattern".into()];
    normalize_rg_argv(&mut argv);
    assert_eq!(argv, vec!["rg", "-ni", "pattern"]);
    let mut argv = vec!["rg.exe".into(), "-rnl".into()];
    normalize_rg_argv(&mut argv);
    assert_eq!(argv, vec!["rg.exe", "-nl"]);
    let mut argv = vec!["rg".into(), "-r".into(), "x".into(), "pat".into()];
    normalize_rg_argv(&mut argv);
    assert_eq!(argv, vec!["rg", "-r", "x", "pat"]);
    let mut argv = vec!["rg".into(), "--replace".into(), "x".into()];
    normalize_rg_argv(&mut argv);
    assert_eq!(argv, vec!["rg", "--replace", "x"]);
    let mut argv = vec!["grep".into(), "-rn".into(), "pat".into()];
    normalize_rg_argv(&mut argv);
    assert_eq!(argv, vec!["grep", "-rn", "pat"]);
}

#[test]
fn rg_habit_fix_command_mode() {
    assert_eq!(
        normalize_command_rg("rg -rn \"pat\" | head"),
        "rg -n \"pat\" | head"
    );
    assert_eq!(normalize_command_rg("rg -rni foo"), "rg -ni foo");
    assert_eq!(
        normalize_command_rg("rg --files | rg -rn foo"),
        "rg --files | rg -n foo"
    );
    assert_eq!(normalize_command_rg("RG.EXE -rn foo"), "RG.EXE -n foo");
    assert_eq!(normalize_command_rg("rg -r x pat"), "rg -r x pat");
    assert_eq!(
        normalize_command_rg("rg --replace x pat"),
        "rg --replace x pat"
    );
    assert_eq!(normalize_command_rg("grep -rn foo"), "grep -rn foo");
    assert_eq!(normalize_command_rg("cargo test"), "cargo test");
}

#[test]
fn shell_derive_args_are_shell_specific() {
    let bash = derive_exec_args(Shell::Bash, "ls -la");
    assert!(
        bash[0].ends_with("bash") || bash[0].ends_with("bash.exe"),
        "argv[0]={}",
        bash[0]
    );
    assert_eq!(bash[1], "-c");
    assert_eq!(bash[2], "ls -la");
    let pwsh = derive_exec_args(Shell::PowerShell, "Get-ChildItem");
    assert_eq!(
        &pwsh[..11],
        [
            "pwsh",
            "-NoLogo",
            "-NoProfile",
            "-NonInteractive",
            "-ExecutionPolicy",
            "Bypass",
            "-InputFormat",
            "Text",
            "-OutputFormat",
            "Text",
            "-EncodedCommand"
        ]
    );
    assert_eq!(pwsh.len(), 12);
    assert_eq!(pwsh[11], ps_encode("Get-ChildItem"));
    let decoded = {
        let bytes = base64_decode(&pwsh[11]).expect("valid base64");
        let utf16: Vec<u16> = bytes
            .chunks_exact(2)
            .map(|c| u16::from_le_bytes([c[0], c[1]]))
            .collect();
        String::from_utf16(&utf16).expect("valid utf16le")
    };
    assert_eq!(decoded, "Get-ChildItem");
    let cmd = derive_exec_args(Shell::Cmd, "dir");
    assert_eq!(&cmd[..2], ["cmd", "/c"]);
    assert_eq!(cmd[2], "dir");
}

#[test]
fn pwsh_command_with_args_uses_command_with_args() {
    let args = vec![
        "arg1".to_string(),
        "hello world".to_string(),
        "a\"b".to_string(),
    ];
    let pwsh = Shell::PowerShell
        .derive_exec_args_with(&ShellPaths::new(), "Write-Output $args[0]; Write-Output $args[1]", Some(&args));
    assert_eq!(
        &pwsh[..12],
        [
            "pwsh",
            "-NoLogo",
            "-NoProfile",
            "-NonInteractive",
            "-ExecutionPolicy",
            "Bypass",
            "-InputFormat",
            "Text",
            "-OutputFormat",
            "Text",
            "-CommandWithArgs",
            "Write-Output $args[0]; Write-Output $args[1]"
        ]
    );
    assert_eq!(&pwsh[12..], &args);
    assert_eq!(pwsh.len(), 15);
    let pwsh2 = Shell::PowerShell.derive_exec_args_with(&ShellPaths::new(), "Get-ChildItem", Some(&[]));
    assert!(pwsh2.contains(&"-EncodedCommand".to_string()));
    assert!(!pwsh2.contains(&"-CommandWithArgs".to_string()));
}

#[test]
fn background_derivation_detection_boundaries() {
    assert!(detect_background_derivation("nohup ./x run > log 2>&1 &"));
    assert!(detect_background_derivation("sleep 30 &"));
    assert!(detect_background_derivation("a & b"));
    assert!(!detect_background_derivation("cargo test && cargo clippy"));
    assert!(!detect_background_derivation("cmd >f 2>&1"));
    assert!(!detect_background_derivation("cmd &>f"));
    assert!(!detect_background_derivation("echo ok"));
}

#[test]
fn truncated_output_instructs_the_model_to_retry_narrowly() {
    let text = "token ".repeat(1_000);
    let truncated = token_truncate(&text, 10, 1_000);
    assert!(truncated.contains("Call exec again with narrower argv or a filtering command."));
}

/// Feeds a pump the way a reader does, and gives what it hands on.
fn pump_all(input: &[u8], max_bytes: usize) -> (String, bool, bool) {
    let mut pump = Pump::new(max_bytes);
    let mut text = String::new();
    let mut at = 0;
    loop {
        let event = if at == input.len() {
            PipeEvent::Eof
        } else {
            let end = input.len().min(at + 8192);
            let data = input[at..end].to_vec();
            at = end;
            PipeEvent::Data(data)
        };
        let (chunks, next) = pump.step(event, true, 0);
        text.extend(chunks);
        if next == PumpNext::Stop {
            break;
        }
    }
    let (rest, saw_eof, capped) = pump.finish();
    text.extend(rest);
    (text, saw_eof, capped)
}

#[test]
fn pipe_reader_forwards_retained_chunks_with_the_call_id() {
    let (full_out, saw_eof, capped) = pump_all(b"first\nsecond\n", 1024);
    assert_eq!(full_out, "first\nsecond\n");
    assert!(saw_eof);
    assert!(!capped);
    let mut pump = Pump::new(1024);
    let (chunks, next) = pump.step(PipeEvent::Data(b"first\nsecond\n".to_vec()), true, 0);
    assert_eq!(chunks, vec!["first\nsecond\n".to_string()]);
    assert_eq!(next, PumpNext::Read);
}

#[test]
fn pipe_reader_keeps_split_utf8_characters_intact_for_the_ui() {
    let mut input = vec![b'a'; 8191];
    input.extend_from_slice("中".as_bytes());
    let (full_out, saw_eof, capped) = pump_all(&input, 16 * 1024);
    assert!(saw_eof);
    assert!(!capped);
    assert!(full_out.ends_with('中'));
    assert!(!full_out.contains('\u{fffd}'));
}

#[test]
fn malformed_output_is_shown_with_replacement_characters() {
    let mut pending = Vec::new();
    assert_eq!(forward_progress(&mut pending, b"ok\xff!"), vec!["ok", "\u{fffd}", "!"]);
    assert!(pending.is_empty());
    assert!(forward_progress(&mut pending, &[0xe4, 0xb8]).is_empty());
    assert_eq!(pending, vec![0xe4, 0xb8]);
    let mut pump = Pump::new(64);
    pump.step(PipeEvent::Data(vec![b'x', 0xe4, 0xb8]), true, 0);
    let (rest, _, _) = pump.finish();
    assert_eq!(rest, vec!["\u{fffd}".to_string()]);
}

#[test]
fn capture_stops_at_its_limit() {
    let (text, saw_eof, capped) = pump_all(&[b'x'; 100], 10);
    assert_eq!(text, "x".repeat(10));
    assert!(capped);
    assert!(!saw_eof);
    let (all, saw_eof, capped) = pump_all(&[b'x'; 10], 10);
    assert_eq!(all.len(), 10);
    assert!(saw_eof && !capped);
    let mut pump = Pump::new(4);
    assert_eq!(pump.step(PipeEvent::Data(b"abcd".to_vec()), true, 0).1, PumpNext::Read);
    assert_eq!(pump.step(PipeEvent::Data(b"e".to_vec()), true, 0).1, PumpNext::Stop);
}

#[test]
fn reading_ends_once_the_child_is_gone_long_enough() {
    let mut pump = Pump::new(64);
    assert_eq!(pump.step(PipeEvent::Idle, true, 0).1, PumpNext::Sleep);
    assert_eq!(pump.step(PipeEvent::Idle, false, 1_000).1, PumpNext::Sleep);
    assert_eq!(
        pump.step(PipeEvent::Idle, false, 1_000 + READER_SETTLE_BUDGET).1,
        PumpNext::Stop
    );
    let mut seen = None;
    assert!(!child_settled(&mut seen, true, 5));
    assert!(!child_settled(&mut seen, false, 5));
    assert!(child_settled(&mut seen, false, 5 + READER_SETTLE_BUDGET));
}

fn context(fixed: Option<Shell>) -> RunContext {
    RunContext {
        detected: Shell::Bash,
        paths: ShellPaths::new(),
        fixed,
        fixed_available: true,
        available: "bash".to_string(),
        policy_tokens: None,
        timeout_secs: None,
    }
}

fn strings(items: &[&str]) -> Json {
    Json::Arr(items.iter().map(|s| Json::Str(s.to_string())).collect())
}

fn object(pairs: Vec<(&str, Json)>) -> Json {
    Json::Obj(pairs.into_iter().map(|(k, v)| (k.to_string(), v)).collect())
}

#[test]
fn argv_is_run_without_a_shell() {
    let args = object(vec![("argv", strings(&["rg", "-rn", "x y"]))]);
    let plan = handle_run_with_shell(&args, &context(Some(Shell::Bash))).unwrap();
    assert_eq!(plan.argv, vec!["rg", "-n", "x y"]);
    assert_eq!(plan.background_after_secs, None);
}

#[test]
fn command_is_run_in_the_fixed_shell() {
    let args = object(vec![("command", Json::Str("echo shell-tool-ok".to_string()))]);
    let plan = handle_run_with_shell(&args, &context(Some(Shell::Bash))).unwrap();
    assert_eq!(plan.argv, vec!["bash", "-c", "echo shell-tool-ok"]);
    let mut c = context(Some(Shell::PowerShell));
    c.fixed_available = false;
    assert!(handle_run_with_shell(&args, &c).is_err());
}

#[test]
fn a_call_needs_something_to_run() {
    assert!(handle_run_with_shell(&object(vec![]), &context(None)).is_err());
    let both = object(vec![("argv", strings(&["ls"])), ("command", Json::Str("ls".to_string()))]);
    assert_eq!(handle_run_with_shell(&both, &context(None)).unwrap().argv, vec!["bash", "-c", "ls"]);
}

#[test]
fn bash_tool_appends_background_derivation_hint() {
    let end = RunEnd { completed: true, exit_code: Some(0), timed_out: false, cancelled: false };
    let (ok, text) =
        judge_run(Some("sleep 1 & echo HINT-E2E"), end, "HINT-E2E\n".to_string());
    assert!(ok, "result: {text}");
    assert!(text.contains("HINT-E2E"));
    assert!(text.contains("[!] 后台派生检测"));
    let end = RunEnd { completed: true, exit_code: Some(0), timed_out: false, cancelled: false };
    assert_eq!(judge_run(Some("echo ok"), end, "ok".to_string()), (true, "ok".to_string()));
}

#[test]
fn shell_is_detected_by_platform() {
    let unix = ShellProbe { windows: false, pwsh: false, powershell: false, bash_path: None, bash: true };
    let (shell, paths) = Shell::detect(unix);
    assert_eq!(shell, Shell::Bash);
    assert_eq!(shell.path(&paths), "bash");
    let windows =
        ShellProbe { windows: true, pwsh: false, powershell: true, bash_path: None, bash: false };
    let (shell, paths) = Shell::detect(windows);
    assert_eq!(shell, Shell::PowerShell);
    assert_eq!(shell.path(&paths), "powershell");
}

#[test]
fn posix_arguments_follow_the_script() {
    let args = vec!["a b".to_string()];
    let argv = Shell::Sh.derive_exec_args_with(&ShellPaths::new(), "echo \"$1\"", Some(&args));
    assert_eq!(argv, vec!["sh", "-c", "echo \"$1\"", "_", "a b"]);
}

#[test]
fn available_shells_are_listed() {
    assert_eq!(available_shells(true, true, true), "bash, pwsh, cmd");
    assert_eq!(available_shells(false, false, false), "none detected");
}

#[test]
fn working_directory_defaults_to_the_workspace() {
    assert_eq!(working_dir(Some("sub"), "/w/sub", "/w"), Some("/w/sub".to_string()));
    assert_eq!(working_dir(None, "", "/w"), Some("/w".to_string()));
}

#[test]
fn token_boundaries_are_exact() {
    let text: Vec<char> = "abcdefghij".chars().collect();
    assert_eq!(find_token_boundary(&text, 0), 0);
    assert_eq!(find_token_boundary(&text, 100), 10);
    assert_eq!(find_token_boundary_reverse(&text, 100), 0);
    assert_eq!(find_token_boundary_reverse(&text, 0), 9);
    assert_eq!(token_truncate("short", 10, 2), "short");
}

#[test]
fn escapes_are_stripped() {
    assert_eq!(strip_ansi("\u{1b}[31mred\u{1b}[0m plain"), "red plain");
    assert_eq!(strip_ansi("no escapes"), "no escapes");
}

#[test]
fn exec_is_registered_as_destructive() {
    let mut mgr = ToolManager::new();
    register(&mut mgr);
    assert_eq!(mgr.risk_of("exec"), Some(ToolRisk::Destructive));
    assert_eq!(mgr.category_of("exec"), Some(ToolCategory::Exec));
}
