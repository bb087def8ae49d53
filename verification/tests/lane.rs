use rift_bus::lane::{detect_shell_kind, prelude_injection, Lane, LaneClassifier, SentinelEvent, ShellKind};

#[test]
fn empty_chunk_no_changes() {
    let mut c = LaneClassifier::new();
    assert_eq!(c.current_lane(), Lane::Sys);
    let changes = c.feed(b"");
    assert!(changes.is_empty());
}

#[test]
fn no_sentinel_passthrough() {
    let mut c = LaneClassifier::new();
    let changes = c.feed(b"hello world\r\nsome output\r\n");
    assert!(changes.is_empty());
    assert_eq!(c.current_lane(), Lane::Sys);
}

#[test]
fn prompt_start_end_cycle() {
    let mut c = LaneClassifier::new();
    let chunk = b"\x1b]6973;PROMPT_START\x07$ \x1b]6973;PROMPT_END\x07";
    let changes = c.feed(chunk);
    assert_eq!(changes.len(), 1);
    assert_eq!(changes[0].lane, Lane::UserInput);
    assert_eq!(c.current_lane(), Lane::UserInput);
}

#[test]
fn cmd_start_end_exit_zero() {
    let mut c = LaneClassifier::new();
    c.feed(b"\x1b]6973;PROMPT_END\x07");
    let changes = c.feed(b"\x1b]6973;CMD_START\x07output here\x1b]6973;CMD_END;exit=0\x07");
    assert_eq!(changes.len(), 1);
    assert_eq!(changes[0].lane, Lane::CmdOk);
    assert_eq!(c.current_lane(), Lane::CmdOk);
}

#[test]
fn cmd_end_nonzero_exit() {
    let mut c = LaneClassifier::new();
    c.feed(b"\x1b]6973;CMD_START\x07");
    let changes = c.feed(b"\x1b]6973;CMD_END;exit=1\x07");
    assert_eq!(changes.len(), 1);
    assert_eq!(changes[0].lane, Lane::CmdErr);
}

#[test]
fn hook_start_end_nesting() {
    let mut c = LaneClassifier::new();
    c.feed(b"\x1b]6973;CMD_START\x07");
    let changes =
        c.feed(b"\x1b]6973;HOOK_START;name=lint\x07hook output\x1b]6973;HOOK_END;name=lint\x07");
    assert_eq!(changes.len(), 2);
    assert_eq!(changes[0].lane, Lane::Hook);
    assert_eq!(changes[1].lane, Lane::CmdOk);
}

#[test]
fn sentinel_split_across_chunks() {
    let mut c = LaneClassifier::new();
    let changes1 = c.feed(b"data\x1b]6973;PROMPT_ST");
    assert!(changes1.is_empty());
    let changes2 = c.feed(b"ART\x07more data");
    assert!(changes2.is_empty() || changes2[0].lane == Lane::Sys);
}

#[test]
fn claude_lane_fallback() {
    let mut c = LaneClassifier::new();
    let changes = c.feed(b"\x1b]6973;CLAUDE_START\x07ai output\x1b]6973;CLAUDE_END\x07");
    assert_eq!(changes.len(), 2);
    assert_eq!(changes[0].lane, Lane::Claude);
    assert_eq!(changes[1].lane, Lane::Sys);
}

#[test]
fn large_chunk_no_sentinel_zero_alloc_path() {
    let mut c = LaneClassifier::new();
    let big = vec![b'A'; 65536];
    let changes = c.feed(&big);
    assert!(changes.is_empty());
}

#[test]
fn transform_passthrough_no_sentinels() {
    let mut c = LaneClassifier::new();
    let input = b"hello world\r\n";
    let out = c.transform(input);
    assert_eq!(out, input);
}

#[test]
fn transform_strips_sentinel_no_color_inject() {
    let mut c = LaneClassifier::new();
    let input = b"\x1b]6973;PROMPT_END\x07typed text";
    let out = c.transform(input);
    assert!(!out.windows(4).any(|w| w == b"6973"));
    assert_eq!(&out, b"typed text");
    assert_eq!(c.current_lane(), Lane::UserInput);
}

#[test]
fn transform_multiple_transitions() {
    let mut c = LaneClassifier::new();
    let input =
        b"\x1b]6973;PROMPT_END\x07cmd\x1b]6973;CMD_START\x07output\x1b]6973;CMD_END;exit=1\x07";
    let out = c.transform(input);
    let out_str = String::from_utf8_lossy(&out);
    assert!(out.windows(3).any(|w| w == b"cmd"));
    assert!(out_str.contains("output"));
    assert!(!out.contains(&0x1b));
    assert_eq!(c.current_lane(), Lane::CmdErr);
}

#[test]
fn transform_large_chunk_no_color_prepend() {
    let mut c = LaneClassifier::new();
    let big = vec![b'X'; 65536];
    let out = c.transform(&big);
    assert_eq!(out.len(), big.len());
    assert_eq!(out, big);
}

#[test]
fn detect_bash_from_path() {
    assert_eq!(detect_shell_kind("/usr/bin/bash"), ShellKind::Bash);
}

#[test]
fn prepare_prelude_unknown_returns_none() {
    let kind = detect_shell_kind("C:\\Windows\\System32\\cmd.exe");
    assert_eq!(kind, ShellKind::Unknown);
    assert!(prelude_injection(kind, "/tmp/rift-lane-prelude/prelude.sh").is_none());
}

#[test]
fn cmd_start_flag_is_taken_once() {
    let mut c = LaneClassifier::new();
    c.feed(b"\x1b]6973;CMD_START\x07");
    assert!(c.take_cmd_start_flag());
    assert!(!c.take_cmd_start_flag());
}

#[test]
fn inject_hook_then_end_restores_lane() {
    let mut c = LaneClassifier::new();
    c.feed(b"\x1b]6973;PROMPT_END\x07");
    assert_eq!(c.inject_event(SentinelEvent::HookStart { name: "fmt".into() }), Some(Lane::Hook));
    assert_eq!(c.inject_event(SentinelEvent::HookEnd { name: "fmt".into() }), Some(Lane::UserInput));
    assert_eq!(c.inject_event(SentinelEvent::PromptEnd), None);
}

#[test]
fn sentinel_split_after_prefix_completes() {
    let mut c = LaneClassifier::new();
    assert!(c.feed(b"x\x1b]6973;PROMPT_E").is_empty());
    let changes = c.feed(b"ND\x07tail");
    assert_eq!(changes.len(), 1);
    assert_eq!(changes[0].lane, Lane::UserInput);
}

#[test]
fn byte_offsets_count_session_bytes() {
    let mut c = LaneClassifier::new();
    let changes = c.feed(b"abc\x1b]6973;PROMPT_END\x07");
    assert_eq!(changes[0].byte_offset, 3);
}

#[test]
fn cmd_end_bad_exit_code_defaults_to_ok() {
    let mut c = LaneClassifier::new();
    c.feed(b"\x1b]6973;PROMPT_END\x07");
    let changes = c.feed(b"\x1b]6973;CMD_END;exit=notanumber\x07");
    assert_eq!(changes[0].lane, Lane::CmdOk);
}

#[test]
fn pwsh_and_zsh_injections() {
    assert_eq!(detect_shell_kind("/usr/local/bin/pwsh"), ShellKind::Pwsh);
    assert_eq!(detect_shell_kind("/bin/ZSH"), ShellKind::Zsh);
    let inj = prelude_injection(ShellKind::Pwsh, "/tmp/it's/prelude.ps1").unwrap();
    assert_eq!(inj.shell_args, vec!["-NoExit", "-Command", ". '/tmp/it''s/prelude.ps1'"]);
    let inj = prelude_injection(ShellKind::Zsh, "/tmp/zsh").unwrap();
    assert!(inj.shell_args.is_empty());
    assert_eq!(inj.extra_env, vec![("ZDOTDIR".to_string(), "/tmp/zsh".to_string())]);
    let inj = prelude_injection(ShellKind::Bash, "/tmp/p.sh").unwrap();
    assert_eq!(inj.shell_args, vec!["--rcfile", "/tmp/p.sh"]);
}


#[test]
fn detect_pwsh_from_path() {
    // Windows paths: `\` separates components on Windows only.
    let expected = if std::path::MAIN_SEPARATOR == '\\' { ShellKind::Pwsh } else { ShellKind::Unknown };
    assert_eq!(detect_shell_kind("C:\\Program Files\\PowerShell\\7\\pwsh.exe"), expected);
}

#[test]
fn detect_unknown_cmd() {
    assert_eq!(detect_shell_kind("C:\\Windows\\System32\\cmd.exe"), ShellKind::Unknown);
}

#[test]
fn transform_and_feed_end_on_the_same_lane() {
    let chunks: [&[u8]; 3] = [
        b"ab\x1b]6973;PROMPT_END\x07ls\x1b]6973;CMD_ST",
        b"ART\x07out\x1b]6973;CMD_END;exit=0\x07",
        b"\x1b]6973;HOOK_START\x07x",
    ];
    let mut t = LaneClassifier::new();
    let mut f = LaneClassifier::new();
    let mut passed: Vec<u8> = Vec::new();
    for chunk in chunks.iter() {
        passed.extend(t.transform(chunk));
        f.feed(chunk);
        assert_eq!(t.current_lane(), f.current_lane());
    }
    assert_eq!(passed, b"ablsoutx".to_vec());
}
