//! Launches: output, waiting, recovery.

use dsh_desktop::diagnose::DisableEntry;
use dsh_desktop::event::UserEvent;
use dsh_desktop::json::{json_string_field, unescape_json_string};
use dsh_desktop::launch::{
    child_env, command_line, filter_node_options, insert_args, is_own_process, is_service_command,
    launch_args, listening_pids, make_child_path, port_busy_events, port_verdict, read_pids,
    start_failed, started_events, ARGS, POLL_ADDR, PORT_TAKEN, TARGET_URL,
};
use dsh_desktop::reader::{feed_piped, OutputLog, OutputReader, RECENT_LINES, REPLIED};
use dsh_desktop::recovery::{diag_json, AfterLaunch, Recovery, Remedy, Verdict, TAIL_LINES, USER_BUSY};
use dsh_desktop::terminal::{
    detect_prompt, extract_prompt_text, parse_server_url, strip_ansi, LaunchOutcome,
};
use dsh_desktop::wait::{
    navigate, not_ready, LateWatch, Poll, PortWait, UrlWait, Watch, LATE_URL, MAX_POLLS, NO_URL_YET,
    STILL_RUNNING, WAITING_FOR_URL,
};

fn strings(v: &[&str]) -> Vec<String> {
    v.iter().map(|s| s.to_string()).collect()
}

fn entry(id: &str) -> DisableEntry {
    DisableEntry { id: id.into(), module: format!("pkg-{}", id), reason: "boom".into() }
}

/// Events in a form that can be compared.
fn shown(events: &[UserEvent]) -> Vec<String> {
    events
        .iter()
        .map(|e| match e {
            UserEvent::Term(s) => format!("term {}", s),
            UserEvent::Status(s) => format!("status {}", s),
            UserEvent::Prompt(s) => format!("prompt {}", s),
            UserEvent::TermDone(s) => format!("done {}", s),
            UserEvent::Fatal(s) => format!("fatal {}", s),
            UserEvent::Stage(s) => format!("stage {}", s),
            UserEvent::Diagnosis(s) => format!("diagnosis {}", s),
            UserEvent::ServerReady(s) => format!("ready {}", s),
            UserEvent::EnterTerminal => "enter".to_string(),
            _ => "other".to_string(),
        })
        .collect()
}

// ---- output ---------------------------------------------------------------------------------

#[test]
fn parses_real_dsh_output() {
    let line = "⠙⠹⠸⠼⠴⠦⠧⠇⠏⠋dsh web: http://127.0.0.1:3080/?token=3I3a0EnMMRmHOqnVxOSLFhorURk-N8xCSYuvEvsikY0";
    assert_eq!(
        parse_server_url(line).unwrap(),
        "http://127.0.0.1:3080/?token=3I3a0EnMMRmHOqnVxOSLFhorURk-N8xCSYuvEvsikY0"
    );
}

#[test]
fn parses_url_without_prefix() {
    let line = "Open in browser: http://localhost:3080/?token=abc123, enjoy!";
    assert_eq!(
        parse_server_url(line).unwrap(),
        "http://localhost:3080/?token=abc123"
    );
}

#[test]
fn ignores_noise() {
    assert!(parse_server_url("npm warn deprecated foo@1.0.0").is_none());
    assert!(parse_server_url("http://127.0.0.1:3080 no token here").is_none());
}

#[test]
fn an_announced_address_need_not_carry_a_token() {
    assert_eq!(parse_server_url("dsh web:  http://x/ y").unwrap(), "http://x/");
    assert_eq!(
        parse_server_url("dsh web: soon http://a httphttp://127.0.0.1:3080?token=1).").unwrap(),
        "httphttp://127.0.0.1:3080?token=1"
    );
    assert!(parse_server_url("dsh web:").is_none());
}

#[test]
fn stripping_leaves_plain_text() {
    assert_eq!(strip_ansi("\u{1b}[31mred\u{1b}[0m\r\n\tok\u{7}"), "red\r\n\tok");
    assert_eq!(strip_ansi("\u{1b}]0;title\u{7}a\u{1b}]x\u{1b}\\b"), "ab");
    assert_eq!(strip_ansi("\u{1b}]x\u{1b}[31mc"), "[31mc");
    assert_eq!(strip_ansi("a\u{1b}7b\u{1b}"), "ab");
    assert_eq!(strip_ansi("x\u{1b}[12"), "x");
    assert_eq!(strip_ansi("中\u{0}文\u{7f}"), "中文");
    assert_eq!(strip_ansi("a\u{7f}b"), "ab");
    assert_eq!(strip_ansi("\u{1f} \u{7e}\u{80}\u{85}\u{9b}\u{9f}\u{a0}"), " \u{7e}\u{a0}");
    let once = strip_ansi("\u{1b}\u{1b}[1mz");
    assert_eq!(strip_ansi(&once), once);
}

#[test]
fn questions_are_noticed() {
    assert!(detect_prompt("Ok to proceed? (y)"));
    assert!(detect_prompt("Overwrite [y/N]"));
    assert!(detect_prompt("DO YOU WANT TO go on"));
    assert!(detect_prompt("first\n  really? yes or what any?  \n"));
    assert!(!detect_prompt("what?"));
    assert!(!detect_prompt("yes"));
    assert!(!detect_prompt(""));
}

#[test]
fn the_question_is_taken_from_the_last_lines() {
    assert_eq!(extract_prompt_text("a\n\nb\nc\n  \nd\ne"), "b\nc\nd\ne");
    assert_eq!(extract_prompt_text("  one  "), "one");
    assert_eq!(extract_prompt_text(" \n\t"), "需要确认（y/N）");
}

#[test]
fn a_character_in_two_reads_is_put_together() {
    let text = "启动中\n".as_bytes();
    for cut in 0..text.len() + 1 {
        let mut log = OutputLog::new();
        let mut reader = OutputReader::new();
        let a = reader.feed(&mut log, &text[..cut], 0, false);
        let b = reader.feed(&mut log, &text[cut..], 1, false);
        let mut all = String::new();
        for e in a.events.iter().chain(b.events.iter()) {
            if let UserEvent::Term(s) = e {
                all.push_str(s);
            }
        }
        assert_eq!(all, "启动中\n");
        assert_eq!(log.tail, vec!["启动中"]);
        assert!(reader.carry.is_empty());
    }
}

#[test]
fn output_may_come_byte_by_byte() {
    let text = "启动…\r\n中文 line\n\ndsh web: http://127.0.0.1:3080/?token=é\nrest";
    let mut once_log = OutputLog::new();
    let mut once = OutputReader::new();
    once.feed(&mut once_log, text.as_bytes(), 0, false);
    let mut log = OutputLog::new();
    let mut reader = OutputReader::new();
    let mut terms = String::new();
    for (i, b) in text.as_bytes().iter().enumerate() {
        let fed = reader.feed(&mut log, &[*b], i as u64, false);
        for e in &fed.events {
            if let UserEvent::Term(t) = e {
                terms.push_str(t);
            }
        }
    }
    assert_eq!(terms, text);
    assert!(reader.carry.is_empty());
    assert_eq!(log.tail, once_log.tail);
    assert_eq!(log.url, once_log.url);
    assert_eq!(log.url.as_deref(), Some("http://127.0.0.1:3080/?token=é"));
    assert_eq!(reader.pending, once.pending);
    assert_eq!(reader.recent, once.recent);
}

#[test]
fn an_address_in_two_reads_is_found() {
    let text = b"x\r\ndsh web: http://127.0.0.1:3080/?token=t\rmore";
    for cut in 0..text.len() + 1 {
        let mut log = OutputLog::new();
        let mut reader = OutputReader::new();
        reader.feed(&mut log, &text[..cut], 0, false);
        reader.feed(&mut log, &text[cut..], 0, false);
        assert_eq!(log.url.as_deref(), Some("http://127.0.0.1:3080/?token=t"));
        assert_eq!(log.tail, vec!["x", "dsh web: http://127.0.0.1:3080/?token=t"]);
        let end = reader.finish(&mut log);
        assert_eq!(shown(&end), vec!["done 进程已退出"]);
        assert_eq!(log.tail.last().unwrap(), "more");
    }
}

#[test]
fn bytes_that_are_no_text_are_given_up() {
    let mut log = OutputLog::new();
    let mut reader = OutputReader::new();
    let a = reader.feed(&mut log, &[0xff, 0xff, 0xff], 0, false);
    assert!(a.events.is_empty() && !a.active);
    let b = reader.feed(&mut log, &[0xff], 0, false);
    assert_eq!(shown(&b.events), vec!["term \u{fffd}\u{fffd}\u{fffd}\u{fffd}"]);
    assert!(b.active && !b.reply);
    let c = reader.feed(&mut log, &[b'o', b'k', 0xe4], 0, false);
    assert_eq!(shown(&c.events), vec!["term ok"]);
    assert_eq!(reader.carry, vec![0xe4]);
}

#[test]
fn a_question_is_answered_once_in_a_while() {
    let mut log = OutputLog::new();
    let mut reader = OutputReader::new();
    let a = reader.feed(&mut log, b"Need to install\r\nOk to proceed? (y)\r\n", 1000, false);
    assert!(a.reply);
    assert_eq!(
        shown(&a.events)[1..],
        ["prompt Need to install\nOk to proceed? (y)".to_string(), format!("term {}", REPLIED)]
    );
    assert!(!reader.feed(&mut log, b"Ok to proceed? (y)\n", 2499, false).reply);
    assert!(reader.feed(&mut log, b"Ok to proceed? (y)\n", 2500, false).reply);
    assert!(!reader.feed(&mut log, b"Ok to proceed? (y)\n", 9000, true).reply);
}

#[test]
fn the_question_on_a_line_without_an_end_is_shown() {
    let mut log = OutputLog::new();
    let mut reader = OutputReader::new();
    let a = reader.feed(&mut log, b"Need to install\r\nOk to proceed? (y) ", 0, false);
    assert!(a.reply);
    assert_eq!(shown(&a.events)[1], "prompt Need to install\nOk to proceed? (y)");
}

#[test]
fn windows_of_output_are_bounded() {
    let mut log = OutputLog::new();
    let mut reader = OutputReader::new();
    for i in 0..700 {
        let line = format!("line {}\n", i);
        reader.feed(&mut log, line.as_bytes(), 0, false);
    }
    assert_eq!(log.tail.len(), TAIL_LINES);
    assert_eq!(log.tail[0], "line 100");
    assert_eq!(reader.recent.len(), RECENT_LINES);
    assert_eq!(reader.recent[19], "line 699");
}

#[test]
fn pipes_keep_blank_lines() {
    let mut log = OutputLog::new();
    let e = feed_piped(&mut log, b"a\n\n\x1b[1mdsh web: http://h\xff\n");
    assert_eq!(shown(&e), vec!["term a\n\n\u{1b}[1mdsh web: http://h\u{fffd}\n"]);
    assert_eq!(log.tail, vec!["a", "", "dsh web: http://h\u{fffd}"]);
    assert_eq!(log.url.as_deref(), Some("http://h\u{fffd}"));
}

// ---- the launch -----------------------------------------------------------------------------

#[test]
fn further_arguments_come_before_the_last() {
    assert_eq!(ARGS, ["-y", "@deepseek-ai/dsh", "web", "--no-open"]);
    assert_eq!(launch_args(&[]), vec!["-y", "@deepseek-ai/dsh", "web", "--no-open"]);
    let args = launch_args(&strings(&["--patch", "f"]));
    assert_eq!(args, vec!["-y", "@deepseek-ai/dsh", "web", "--patch", "f", "--no-open"]);
    assert_eq!(command_line("/n/npx", &args[..2]), "/n/npx -y @deepseek-ai/dsh");
    assert_eq!(insert_args(&strings(&["a"]), &strings(&["b"])), vec!["a", "b"]);
    assert_eq!(shown(&started_events("c")), vec!["enter", "term \r\n$ c\r\n"]);
    let (outcome, e) = start_failed("e");
    assert_eq!(outcome, LaunchOutcome::Abort);
    assert_eq!(shown(&e), vec!["fatal 启动命令失败: e"]);
}

#[test]
fn the_environment_of_the_command_is_changed() {
    assert_eq!(
        filter_node_options(Some("  --a --use-system-ca=1  --b\t--use-system-ca ")),
        "--a --b"
    );
    assert_eq!(filter_node_options(Some("--a --b")), "--a --b");
    assert_eq!(filter_node_options(None), "");
    assert_eq!(make_child_path("/n", "/bin", false), "/n:/bin");
    assert_eq!(make_child_path("", "/bin", false), "/bin");
    assert_eq!(make_child_path("", "c", true), ";c");
    let vars = vec![
        ("PATH".to_string(), "old".to_string()),
        ("A".to_string(), "1".to_string()),
        ("A".to_string(), "2".to_string()),
    ];
    let env = child_env(&vars, "p", "o", true);
    let get = |k: &str| -> Vec<&str> {
        env.iter().filter(|(a, _)| a == k).map(|(_, b)| b.as_str()).collect()
    };
    assert_eq!(get("PATH"), vec!["p"]);
    assert_eq!(get("A"), vec!["2"]);
    assert_eq!(get("NODE_OPTIONS"), vec!["o"]);
    assert_eq!(get("npm_config_yes"), vec!["true"]);
    assert_eq!(get("TERM"), vec!["xterm-256color"]);
    assert_eq!(get("FORCE_COLOR"), vec!["1"]);
    assert_eq!(child_env(&[], "p", "o", false).len(), 3);
}

#[test]
fn only_own_processes_are_ended() {
    assert_eq!(read_pids(" 12 \nx\n-3\n2147483648\n+7"), vec![12, -3, 7]);
    assert_eq!(listening_pids(b"41\n\xff\n42\n"), vec![41, 42]);
    assert!(is_own_process(b"/usr/local/bin/NODE server.js"));
    assert!(is_own_process("DSH".as_bytes()));
    assert!(!is_own_process(b"/usr/sbin/httpd"));
    assert!(!is_service_command("NODE"));
    assert!(port_verdict(true, false).is_ok());
    for (killed, busy) in [(true, true), (false, false), (false, true)] {
        let (outcome, e) = port_verdict(killed, busy).unwrap_err();
        assert_eq!(outcome, LaunchOutcome::Abort);
        assert_eq!(shown(&e), vec![format!("fatal {}", PORT_TAKEN)]);
    }
    assert_eq!(shown(&port_busy_events()), vec!["stage 端口 3080 被占用，正在清理残留进程…"]);
    assert!(TARGET_URL.ends_with(POLL_ADDR));
}

// ---- waiting --------------------------------------------------------------------------------

#[test]
fn the_port_is_tried_for_a_while() {
    let mut w = PortWait::new();
    let mut n = 0;
    while w.next(false) {
        n += 1;
    }
    assert_eq!(n, MAX_POLLS);
    assert!(!PortWait::new().next(true));
    assert_eq!(not_ready(true), LaunchOutcome::Failed { crashed: true });
    assert_eq!(not_ready(false), LaunchOutcome::Failed { crashed: false });
}

#[test]
fn silence_is_explained_now_and_then() {
    let mut w = PortWait::new();
    let mut said = |connected: bool, exited: bool, silent: u64, now: u64| -> Option<usize> {
        match w.on_poll(connected, exited, silent, now) {
            Poll::Ready => None,
            Poll::Again(e) => {
                if !e.is_empty() {
                    assert_eq!(shown(&e), vec![format!("status {}", STILL_RUNNING)]);
                }
                Some(e.len())
            }
        }
    };
    assert_eq!(said(false, false, 3999, 10_000), Some(0));
    assert_eq!(said(false, false, 4000, 10_500), Some(1));
    assert_eq!(said(false, false, 9000, 14_499), Some(0));
    assert_eq!(said(false, true, 9000, 14_500), Some(0));
    assert_eq!(said(false, false, 9000, 14_500), Some(1));
    assert_eq!(said(true, false, 9000, 99_000), None);
}

#[test]
fn the_address_is_waited_for() {
    let (mut w, e) = UrlWait::new();
    assert_eq!(shown(&e), vec![format!("status {}", WAITING_FOR_URL)]);
    let mut notes: Vec<String> = Vec::new();
    let mut n = 0;
    while w.next(false) {
        notes.extend(shown(&w.on_missing()));
        n += 1;
    }
    assert_eq!(n, 300);
    assert_eq!(notes.len(), 9);
    assert_eq!(notes[0], "status 仍在等待认证 URL（3s），可在上方终端查看 dsh 输出…");
    assert_eq!(notes[8], "status 仍在等待认证 URL（27s），可在上方终端查看 dsh 输出…");
    assert!(!UrlWait::new().0.next(true));
}

#[test]
fn the_page_is_opened_in_any_case() {
    let (outcome, e, watch) = navigate(Some("http://u"));
    assert_eq!(outcome, LaunchOutcome::Ready);
    assert_eq!(shown(&e), vec!["status 正在打开页面: http://u", "ready http://u"]);
    assert!(!watch);
    let (outcome, e, watch) = navigate(None);
    assert_eq!(outcome, LaunchOutcome::Ready);
    assert_eq!(
        shown(&e),
        vec![
            format!("status {}", NO_URL_YET),
            "status 正在打开页面: http://127.0.0.1:3080".to_string(),
            "ready http://127.0.0.1:3080".to_string()
        ]
    );
    assert!(watch);
    let mut late = LateWatch::new();
    assert!(matches!(late.step(false, None), Watch::Again));
    assert!(matches!(late.step(true, Some("u")), Watch::Stop));
    match late.step(false, Some("u")) {
        Watch::Found(e) => {
            assert_eq!(shown(&e), vec![format!("status {}", LATE_URL), "ready u".to_string()])
        }
        _ => panic!("the address is known"),
    }
    late.polls = MAX_POLLS;
    assert!(matches!(late.step(false, Some("u")), Watch::Stop));
}

// ---- recovery -------------------------------------------------------------------------------

#[test]
fn diag_json_is_valid_shape() {
    let e = DisableEntry {
        id: "llm".into(),
        module: "@deepseek-ai/dsh-llm".into(),
        reason: "Error: \"boom\"\nsecond line".into(),
    };
    let j = diag_json("retry-disabled", 2, &[e], "note");
    assert!(j.starts_with("{\"action\":\"retry-disabled\",\"attempt\":2"));
    assert!(j.contains("\\\"boom\\\""));
    assert!(j.contains("\\n"));
}

#[test]
fn a_report_tells_its_action() {
    let j = diag_json("a\"b\\", 10, &[entry("x"), entry("y")], "n\u{1}");
    assert_eq!(json_string_field(&j, "action").unwrap(), "a\"b\\");
    assert_eq!(
        j,
        "{\"action\":\"a\\\"b\\\\\",\"attempt\":10,\"plugins\":[{\"id\":\"x\",\"module\":\"pkg-x\",\"reason\":\"boom\"},{\"id\":\"y\",\"module\":\"pkg-y\",\"reason\":\"boom\"}],\"note\":\"n\\u0001\"}"
    );
    assert_eq!(unescape_json_string("n\\u0001"), "n\u{1}");
}

#[test]
fn a_launch_that_succeeds_at_once_needs_nothing() {
    let mut r = Recovery::new();
    assert!(r.begin("o").is_empty());
    for outcome in [LaunchOutcome::Ready, LaunchOutcome::Abort] {
        match r.on_outcome(outcome, false) {
            AfterLaunch::Over { events, toast } => {
                assert!(events.is_empty() && toast.is_none());
            }
            _ => panic!("recovery is over"),
        }
    }
}

#[test]
fn the_user_is_not_interrupted() {
    let mut r = Recovery::new();
    r.begin("o");
    match r.on_outcome(LaunchOutcome::Failed { crashed: false }, true) {
        AfterLaunch::Over { events, toast } => {
            assert_eq!(shown(&events), vec![format!("fatal {}", USER_BUSY)]);
            assert!(toast.is_none());
        }
        _ => panic!("recovery is over"),
    }
    let crash = LaunchOutcome::Failed { crashed: true };
    assert!(matches!(r.on_outcome(crash, true), AfterLaunch::Diagnose { kill: false }));
    let slow = LaunchOutcome::Failed { crashed: false };
    assert!(matches!(r.on_outcome(slow, false), AfterLaunch::Diagnose { kill: true }));
}

#[test]
fn recovery_runs_its_course() {
    let mut r = Recovery::new();
    // Two rounds of disabled plugins.
    for (round, id) in [(1usize, "a"), (2, "b")] {
        assert!(r.begin("o").is_empty());
        assert_eq!(
            shown(&r.failure_events(true)),
            vec![format!("term \r\n\r\n[dsh-desktop] ─── 第 {} 次启动失败（进程异常退出）───\r\n", round)]
        );
        let found = if round == 1 { vec![entry("a")] } else { vec![entry("a"), entry("b")] };
        let new = match r.on_diagnosis(&found) {
            Remedy::Disable(new) => new,
            Remedy::SafeMode => panic!("a plugin is found"),
        };
        assert_eq!(new.len(), 1);
        assert_eq!(new[0].id, id);
        let added = strings(&[id]);
        match r.on_patched(&new, Some(&added)) {
            Verdict::Retry(e) => {
                let s = shown(&e);
                assert_eq!(
                    s[0],
                    format!("term [dsh-desktop] 已禁用故障插件 {}（pkg-{}），正在重试…\r\n", id, id)
                );
                assert!(s.last().unwrap().contains("retry-disabled"));
            }
            Verdict::Nothing => panic!("a plugin is disabled"),
        }
    }
    // No more rounds, so safe mode.
    r.begin("o");
    assert!(matches!(r.on_diagnosis(&[entry("c")]), Remedy::SafeMode));
    match r.on_overlay(Some(&strings(&["t", "u"]))) {
        Verdict::Retry(e) => {
            let s = shown(&e);
            assert_eq!(s[0], "term [dsh-desktop] 进入安全模式：已停用 2 个第三方插件，正在重试…\r\n");
            assert!(s[1].contains("安全模式：第三方插件"));
        }
        Verdict::Nothing => panic!("safe mode begins"),
    }
    assert_eq!(r.begin("/overlay"), vec!["--patch", "/overlay"]);
    assert_eq!(r.attempt, 4);
    // Success at last.
    match r.on_outcome(LaunchOutcome::Ready, false) {
        AfterLaunch::Over { events, toast } => {
            assert!(shown(&events)[0].contains("\"action\":\"recovered\",\"attempt\":4"));
            assert_eq!(
                toast.unwrap(),
                "已自动禁用故障插件 a, b，恢复方法见 ~/.dsh/profiles/web/cordis.patch.yml"
            );
        }
        _ => panic!("recovery is over"),
    }
    // Or the end.
    assert!(matches!(r.on_diagnosis(&[entry("c")]), Remedy::SafeMode));
    assert!(matches!(r.on_overlay(Some(&strings(&["t"]))), Verdict::Nothing));
    let last = shown(&r.give_up());
    assert!(last[0].contains("\"action\":\"failed\""));
    assert!(last[1].starts_with("fatal 自动修复未能恢复启动。已禁用的插件：a, b。可编辑 "));
}

#[test]
fn safe_mode_is_the_last_resort() {
    let mut r = Recovery::new();
    r.begin("o");
    assert!(matches!(r.on_diagnosis(&[]), Remedy::SafeMode));
    assert!(matches!(r.on_overlay(Some(&strings(&["t"]))), Verdict::Retry(_)));
    r.begin("o");
    let crash = LaunchOutcome::Failed { crashed: true };
    assert!(matches!(r.on_outcome(crash, false), AfterLaunch::Diagnose { kill: false }));
    assert!(matches!(r.on_diagnosis(&[entry("a")]), Remedy::SafeMode));
    assert!(matches!(r.on_overlay(Some(&strings(&["t"]))), Verdict::Nothing));
    assert_eq!((r.attempt, r.targeted_rounds, r.disabled.len()), (2, 0, 0));
    let last = r.give_up();
    assert_eq!(last.len(), 2);
    match (&last[0], &last[1]) {
        (UserEvent::Diagnosis(report), UserEvent::Fatal(hint)) => {
            assert!(report.starts_with("{\"action\":\"failed\",\"attempt\":2,"));
            assert_eq!(json_string_field(report, "note").as_deref(), Some(hint.as_str()));
        }
        _ => panic!("a report and an error come last"),
    }
}

#[test]
fn recovery_gives_up_where_nothing_helps() {
    let mut r = Recovery::new();
    r.begin("o");
    let new = match r.on_diagnosis(&[entry("a")]) {
        Remedy::Disable(new) => new,
        Remedy::SafeMode => panic!("a plugin is found"),
    };
    assert!(matches!(r.on_patched(&new, None), Verdict::Nothing));
    assert!(matches!(r.on_patched(&new, Some(&[])), Verdict::Nothing));
    assert!(matches!(r.on_overlay(None), Verdict::Nothing));
    assert!(matches!(r.on_overlay(Some(&[])), Verdict::Nothing));
    assert!(shown(&r.give_up())[1].starts_with("fatal 多次启动失败且未能定位故障插件。"));
    r.on_overlay(Some(&strings(&["t"])));
    match r.on_outcome(LaunchOutcome::Ready, false) {
        AfterLaunch::Over { toast, .. } => {
            assert_eq!(toast.unwrap(), "dsh 已在安全模式下启动（第三方插件已停用）")
        }
        _ => panic!("recovery is over"),
    }
}
