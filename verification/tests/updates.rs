//! Updates: releases, signatures, downloads, installation.

use base64::engine::general_purpose::STANDARD;
use base64::Engine;
use dsh_desktop::download::{
    client_failed, in_three_places, open_failed, progress_events, Answer, BodyEnd, Download, Ended,
    Failure,
};
use dsh_desktop::event::UserEvent;
use dsh_desktop::install::{
    attach_args, attach_failed, bundle_index, copied, expand_args, extract_args, extracted,
    replace_script, wrong_platform,
};
use dsh_desktop::json::{json_escape, json_string_field, unescape_json_string};
use dsh_desktop::release::{
    answer_event, asset_name, check_for_update, checked_events, checking_events, download_url,
    latest_release_url, newer, parse_release, parse_version, signature_name, strip_tag, Release,
    VERSION,
};
use dsh_desktop::signature::{
    decode_minisign_or_base64, explain, text_from_base64, unreadable_package, verify_signature,
    verify_with_key, UPDATER_PUBKEY,
};
use dsh_desktop::update::{Outcome, Stage, Update, SKIPPED};

fn shown(events: &[UserEvent]) -> Vec<String> {
    events
        .iter()
        .map(|e| match e {
            UserEvent::Term(s) => format!("term {}", s),
            UserEvent::Status(s) => format!("status {}", s),
            UserEvent::UpdateFailed(s) => format!("failed {}", s),
            UserEvent::UpdateDone(s) => format!("done {}", s),
            UserEvent::UpdateProgress(p) => format!("progress {}", p),
            UserEvent::UpdateAvailable(a, b) => format!("available {} {}", a, b),
            _ => "other".to_string(),
        })
        .collect()
}

// ---- releases -------------------------------------------------------------------------------

#[test]
fn parses_versions() {
    assert_eq!(parse_version("0.1.0"), Some((0, 1, 0)));
    assert_eq!(parse_version("v1.2.3"), Some((1, 2, 3)));
    assert_eq!(parse_version("v2.0"), Some((2, 0, 0)));
    assert_eq!(parse_version("1.2.3-beta.1"), Some((1, 2, 3)));
    assert_eq!(parse_version("x"), None);
}

#[test]
fn versions_may_be_odd() {
    assert_eq!(parse_version(" vv 3 . +4 .5x"), Some((3, 4, 5)));
    assert_eq!(parse_version("7"), Some((7, 0, 0)));
    assert_eq!(parse_version("1.2."), None);
    assert_eq!(parse_version("1..2"), None);
    assert_eq!(parse_version("1.2.-3"), None);
    assert_eq!(parse_version("4294967295.0.0"), Some((u32::MAX, 0, 0)));
    assert_eq!(parse_version("4294967296.0.0"), None);
    assert_eq!(parse_version(""), None);
}

#[test]
fn a_written_version_is_read_back() {
    for v in [(0u32, 0u32, 0u32), (1, 20, 300), (u32::MAX, 9, 10)] {
        assert_eq!(parse_version(&format!("{}.{}.{}", v.0, v.1, v.2)), Some(v));
        assert_eq!(parse_version(&format!("v{}.{}.{}", v.0, v.1, v.2)), Some(v));
        for suffix in ["-beta.1", "+7.8.9", ".4", " (latest)\n", "α", "v"] {
            assert_eq!(parse_version(&format!("{}.{}.{}{}", v.0, v.1, v.2, suffix)), Some(v));
            assert_eq!(parse_version(&format!("v{}.{}.{}{}", v.0, v.1, v.2, suffix)), Some(v));
        }
    }
}

#[test]
fn newer_release_wins() {
    let rel = Release {
        version: (0, 2, 0),
        tag: "v0.2.0".into(),
        body: "Test release notes".into(),
    };
    let cur = parse_version("0.1.0").unwrap();
    assert!(rel.version > cur);
    assert!(newer(rel.version, cur));
}

#[test]
fn versions_are_ordered_like_tuples() {
    let some = [(0u32, 9u32, 9u32), (1, 0, 0), (1, 0, 1), (1, 1, 0), (2, 0, 0)];
    for a in some {
        for b in some {
            assert_eq!(newer(a, b), a > b);
        }
    }
}

#[test]
fn only_a_newer_release_is_an_update() {
    let body = "{\"tag_name\":\"v0.2.0\",\"body\":\"n\\n\"}";
    let r = check_for_update(Some(body), "0.1.13").unwrap();
    assert_eq!(r.tag, "v0.2.0");
    assert_eq!(r.version, (0, 2, 0));
    assert_eq!(r.body, "n\n");
    assert!(check_for_update(Some(body), "0.2.0").is_none());
    assert!(check_for_update(Some(body), "1.0.0").is_none());
    assert!(check_for_update(Some(body), "?").is_none());
    assert!(check_for_update(Some("{}"), "0.1.0").is_none());
    assert!(check_for_update(Some("{\"tag_name\":\"latest\"}"), "0.1.0").is_none());
    assert!(check_for_update(None, "0.1.0").is_none());
    assert_eq!(parse_release("{\"tag_name\": \" v3.1 \"}").unwrap().body, "");
    assert_eq!(parse_release("{\"tag_name\": \" v3.1 \"}").unwrap().version, (3, 1, 0));
    assert!(parse_version(VERSION).is_some());
}

#[test]
fn a_check_is_told() {
    assert_eq!(
        shown(&checking_events()),
        vec!["term • 应用本体（dsh-desktop）自动升级：正在检查最新版本…\r\n"]
    );
    assert_eq!(
        shown(&checked_events(Some("v2"), "1")),
        vec!["term   ↑ 发现新版本 v2（当前 v1）\r\n"]
    );
    assert_eq!(
        shown(&checked_events(None, "1")),
        vec!["term   ✓ 已是最新版本（或跳过检查）\r\n"]
    );
    let r = Release { version: (1, 0, 0), tag: "t".into(), body: "b".into() };
    assert_eq!(shown(&[answer_event(Some(r))]), vec!["available t b"]);
    assert_eq!(shown(&[answer_event(None)]), vec!["done "]);
}

#[test]
fn packages_have_names_and_places() {
    assert_eq!(asset_name("macos", "aarch64"), "dsh-desktop-macos-aarch64.dmg");
    assert_eq!(asset_name("macos", "x86_64"), "dsh-desktop-macos-x86_64.dmg");
    assert_eq!(asset_name("linux", "aarch64"), "dsh-desktop-linux-x86_64.tar.gz");
    assert_eq!(asset_name("windows", "x86_64"), "dsh-desktop-windows-x86_64.zip");
    assert_eq!(
        latest_release_url(),
        "https://api.github.com/repos/ht-shaipe/dsh-desktop/releases/latest"
    );
    let url = download_url("v1", "p.zip");
    assert_eq!(url, "https://github.com/ht-shaipe/dsh-desktop/releases/download/v1/p.zip");
    assert_eq!(signature_name(&url), format!("{}.sig", url));
    assert_eq!(strip_tag("vv1.0"), "1.0");
}

// ---- JSON -----------------------------------------------------------------------------------

#[test]
fn extracts_json_fields() {
    let body = r#"{"url":"https:\/\/api.github.com\/x","tag_name":"v0.2.0","name":"v0.2.0"}"#;
    assert_eq!(json_string_field(body, "tag_name").as_deref(), Some("v0.2.0"));
    assert_eq!(json_string_field(body, "missing"), None);
}

#[test]
fn unescapes_release_notes() {
    let body = r###"{"tag_name":"v0.2.0","body":"## 更新内容\n\n- 修复 \"进度条\" 不动的问题\n- 路径 C:\\Users"}"###;
    let notes = json_string_field(body, "body").unwrap();
    assert_eq!(notes, "## 更新内容\n\n- 修复 \"进度条\" 不动的问题\n- 路径 C:\\Users");
}

#[test]
fn unescapes_unicode_sequences() {
    assert_eq!(unescape_json_string("a\\u4e2db"), "a中b");
    assert_eq!(unescape_json_string("\\uZZZZ"), "\\uZZZZ");
    assert_eq!(unescape_json_string("x\\"), "x\\");
}

#[test]
fn odd_escapes_stay() {
    assert_eq!(unescape_json_string("\\ud800!"), "\\ud800!");
    assert_eq!(unescape_json_string("\\u+041"), "\\u+041");
    assert_eq!(unescape_json_string("\\u41"), "\\u41");
    assert_eq!(unescape_json_string("\\u0041\\u00e9"), "A\u{e9}");
    assert_eq!(unescape_json_string("\\u"), "\\u");
    assert_eq!(unescape_json_string("\\q\\/\\b\\f\\t\\r"), "\\q/\u{8}\u{c}\t\r");
    assert_eq!(json_string_field("\"a\" : \"x", "a"), None);
    assert_eq!(json_string_field("\"a\" : 1", "a"), None);
    assert_eq!(json_string_field("\"a\"", "a"), None);
    assert_eq!(json_string_field("{\"x\":\"body\",\"y\":\"1\"}", "body"), None);
    let both = "{\"x\":\"body\",\"body\" :\t\"1\",\"body\":\"2\"}";
    assert_eq!(json_string_field(both, "body").as_deref(), Some("1"));
    let inside = "{\"x\":\"\\\"body\\\":\\\"0\\\"\",\"body\":\"1\"}";
    assert_eq!(json_string_field(inside, "body").as_deref(), Some("1"));
    assert_eq!(json_string_field("\"a\":\"q\\中\"", "a").unwrap(), "q\\中");
    assert_eq!(json_string_field("\"a\":\"q\\", "a"), None);
}

#[test]
fn escaping_is_undone() {
    let mut s = String::new();
    for n in 0..0x80u8 {
        s.push(n as char);
    }
    s.push_str("中文 \u{10ffff}");
    assert_eq!(unescape_json_string(&json_escape(&s)), s);
    assert!(json_escape(&s).chars().all(|c| c as u32 >= 0x20));
    assert_eq!(json_escape("\u{8}\u{1f}\"\\"), "\\u0008\\u001f\\\"\\\\");
}

// ---- signatures -----------------------------------------------------------------------------

const KEY: &str = "untrusted comment: minisign public key E7620F1842B4E81F\nRWQf6LRCGA9i53mlYecO4IzT51TGPpvWucNSCh1CBM0QTaLn73Y7GFO3";
const LEGACY: &str = "untrusted comment: signature from minisign secret key\nRWQf6LRCGA9i59SLOFxz6NxvASXDJeRtuZykwQepbDEGt87ig1BNpWaVWuNrm73YiIiJbq71Wi+dP9eKL8OC351vwIasSSbXxwA=\ntrusted comment: timestamp:1555779966\tfile:test\nQtKMXWyYcwdpZAlPF7tE2ENJkRd1ujvKjlj1m9RtHTBnZPa5WKU5uWRs5GoP5M/VqE81QFuMKI5k/SfNQUaOAA==";
const PREHASHED: &str = "untrusted comment: signature from minisign secret key\nRUQf6LRCGA9i559r3g7V1qNyJDApGip8MfqcadIgT9CuhV3EMhHoN1mGTkUidF/z7SrlQgXdy8ofjb7bNJJylDOocrCo8KLzZwo=\ntrusted comment: timestamp:1556193335\tfile:test\ny/rUw2y8/hOUYjZU71eHp/Wo1KZ40fGy2VJEDl34XMJM+TX48Ss/17u3IvIfbVR1FkZZSNCisQbuQY+bHwhEBg==";

#[test]
fn good_signatures_are_accepted() {
    assert_eq!(verify_with_key(KEY, b"test", PREHASHED), Ok(()));
    assert_eq!(verify_with_key(KEY, b"test", LEGACY), Ok(()));
    let key = STANDARD.encode(KEY);
    let sig = format!("  {}\n", STANDARD.encode(PREHASHED));
    assert_eq!(verify_with_key(&key, b"test", &sig), Ok(()));
}

#[test]
fn bad_signatures_are_refused() {
    assert_eq!(
        verify_with_key(KEY, b"Test", PREHASHED),
        Err("签名验证失败: The signature verification failed".to_string())
    );
    assert_eq!(
        verify_signature(b"test", PREHASHED),
        Err("签名验证失败: The signature was created with a different key than the one provided"
            .to_string())
    );
    assert_eq!(
        verify_with_key(KEY, b"test", "untrusted comment: x"),
        Err("无法解析签名: Invalid encoding in minisign data".to_string())
    );
    assert_eq!(
        verify_with_key("untrusted comment: x", b"test", PREHASHED),
        Err("无法解析公钥: Invalid encoding in minisign data".to_string())
    );
    assert_eq!(
        verify_with_key(KEY, b"test", "!"),
        Err("base64 解码失败: Invalid symbol 33, offset 0.".to_string())
    );
    assert!(verify_with_key("?", b"test", PREHASHED).unwrap_err().starts_with("base64 解码失败: "));
}

#[test]
fn keys_come_plain_or_encoded() {
    assert_eq!(decode_minisign_or_base64(" untrusted comment: a\n").unwrap(), "untrusted comment: a");
    assert_eq!(decode_minisign_or_base64("aGk=").unwrap(), "hi");
    let key = decode_minisign_or_base64(UPDATER_PUBKEY).unwrap();
    assert!(key.starts_with("untrusted comment: minisign public key: 958C743A6266A159\n"));
    assert_eq!(
        decode_minisign_or_base64(&STANDARD.encode([0xffu8, 0x41])).unwrap_err(),
        "解码后非 UTF-8 文本: invalid utf-8 sequence of 1 bytes from index 0"
    );
    assert_eq!(text_from_base64(Ok(vec![104, 105])).unwrap(), "hi");
    assert_eq!(text_from_base64(Err("e".into())).unwrap_err(), "base64 解码失败: e");
    assert_eq!(explain("w", None), Ok(()));
    assert_eq!(explain("w", Some("e".into())), Err("w: e".to_string()));
    assert_eq!(unreadable_package("e"), "无法读取文件进行签名验证: e");
}

// ---- downloads ------------------------------------------------------------------------------

#[test]
fn a_download_goes_on_where_it_broke_off() {
    let mut d = Download::new(0);
    assert_eq!(d.begin(0), None);
    assert!(matches!(d.on_status(200, "200 OK"), Answer::Body { append: false }));
    d.on_body(false, Some(100_000), 5);
    assert_eq!(d.total, 100_000);
    assert!(!d.on_chunk(60_000, 50));
    assert!(d.on_chunk(5_536, 60));
    assert!(!d.on_chunk(10, 159));
    assert!(d.on_chunk(10, 160));
    match d.on_end(BodyEnd::Stalled) {
        Ended::Failed(Failure::Retry(reason)) => assert_eq!(reason, "网络停滞"),
        _ => panic!("another attempt follows"),
    }
    let e = d.retry("网络停滞", "0.1");
    assert_eq!(
        shown(&e),
        vec![
            "term   ⚠ 下载中断（网络停滞），已保留 0.1 MB，正在从断点重试（第 1/3 次）…\r\n",
            "term \r\n"
        ]
    );
    assert_eq!(d.begin(65_556), Some("bytes=65556-".to_string()));
    assert!(matches!(d.on_status(206, "206 Partial Content"), Answer::Body { append: true }));
    d.on_body(true, Some(34_444), 0);
    assert_eq!((d.total, d.downloaded), (100_000, 65_556));
    assert!(matches!(d.on_end(BodyEnd::Complete(100_000)), Ended::Done(100_000)));
}

#[test]
fn failed_attempts_come_to_an_end() {
    let mut d = Download::new(10);
    match d.on_status(404, "404 Not Found") {
        Answer::Failed(Failure::Fail(e)) => assert_eq!(e, "HTTP 404 Not Found"),
        _ => panic!("the download fails"),
    }
    match d.on_status(503, "503 Service Unavailable") {
        Answer::Failed(Failure::Retry(e)) => assert_eq!(e, "HTTP 503 Service Unavailable"),
        _ => panic!("another attempt follows"),
    }
    match d.on_send_error("x") {
        Failure::Retry(e) => assert_eq!(e, "请求失败: x"),
        _ => panic!("another attempt follows"),
    }
    d.retry("r", "0.0");
    d.retry("r", "0.0");
    assert_eq!(d.attempt, 3);
    d.on_body(false, None, 0);
    assert_eq!(d.total, 10);
    for (end, said) in [
        (BodyEnd::Complete(9), "大小不匹配 9/10"),
        (BodyEnd::ReadError("e".into()), "读取失败: e"),
        (BodyEnd::WriteError("e".into()), "写入失败: e"),
    ] {
        match d.on_end(end) {
            Ended::Failed(Failure::Fail(e)) => assert_eq!(e, said),
            _ => panic!("the download fails"),
        }
    }
    assert!(matches!(d.on_status(500, "s"), Answer::Failed(Failure::Fail(_))));
    assert!(matches!(d.on_status(302, "s"), Answer::Failed(Failure::Fail(_))));
    let mut unknown = Download::new(0);
    unknown.on_body(true, None, 0);
    assert!(matches!(unknown.on_end(BodyEnd::Complete(77)), Ended::Done(77)));
    assert_eq!(client_failed("e"), "构建客户端失败: e");
    assert_eq!(open_failed(true, "e"), "打开文件失败: e");
    assert_eq!(open_failed(false, "e"), "创建文件失败: e");
}

#[test]
fn progress_is_shown() {
    assert_eq!(
        shown(&progress_events(7, "0.7", Some("10.0"))),
        vec!["term   升级包下载进度   7% (0.7/10.0 MB)\r", "progress 7"]
    );
    assert_eq!(
        shown(&progress_events(0, "0.7", None)),
        vec!["term   已下载 0.7 MB\r", "progress 0"]
    );
    for n in [0u64, 9, 10, 99, 100, 255, 1000] {
        assert_eq!(in_three_places(n), format!("{:3}", n));
    }
}

// ---- the course of an update ----------------------------------------------------------------

fn at(stage: Stage) -> Update {
    let mut u = Update::new("v1.2.3", "linux", "x86_64", "/c");
    u.stage = stage;
    u
}

#[test]
fn an_update_that_goes_well_takes_seven_steps() {
    let mut u = Update::new("v1.2.3", "linux", "x86_64", "/c");
    assert_eq!(u.key, UPDATER_PUBKEY);
    u.key = KEY.to_string();
    assert_eq!(u.name, "dsh-desktop-linux-x86_64.tar.gz");
    let stages = [
        Stage::Preparing,
        Stage::Downloading,
        Stage::Fetching,
        Stage::Reading,
        Stage::Verifying,
        Stage::Installing,
        Stage::Over,
        Stage::Over,
    ];
    let mut all: Vec<String> = Vec::new();
    for s in stages {
        let installing = u.stage == Stage::Installing;
        let step = if u.stage == Stage::Verifying {
            u.verify(Ok(b"test".to_vec()), PREHASHED)
        } else {
            u.step(&Outcome::Good)
        };
        assert_eq!(u.stage, s);
        assert_eq!(step.remove_package, installing);
        assert_eq!(step.remove_signature, installing);
        all.extend(shown(&step.events));
    }
    assert_eq!(
        all,
        vec![
            "term   正在下载 dsh-desktop-linux-x86_64.tar.gz …\r\n",
            "progress 100",
            "term \r\n",
            "term   ✓ 下载完成，正在验证签名…\r\n",
            "term   ✓ 签名验证通过\r\n",
            "term   ✓ 正在安装…\r\n",
            "term ✓ 已升级到 v1.2.3，重启应用（关闭窗口后重新打开）即生效。\r\n",
            "status 已升级到 v1.2.3，重启应用后生效",
            "done v1.2.3",
        ]
    );
}

#[test]
fn a_failed_step_ends_the_update() {
    let cases = [
        (Stage::Locating, false, false, vec!["failed 无法定位缓存目录", "term   ✗ 升级失败：e\r\n"]),
        (
            Stage::Preparing,
            false,
            false,
            vec!["failed 无法创建缓存目录", "term   ✗ 升级失败：无法创建缓存目录 /c: e\r\n"],
        ),
        (
            Stage::Downloading,
            true,
            false,
            vec![
                "failed 下载失败，已跳过本次升级",
                "term   ✗ 升级包下载失败（https://github.com/ht-shaipe/dsh-desktop/releases/download/v1.2.3/dsh-desktop-linux-x86_64.tar.gz）。e本次跳过升级，不影响使用。\r\n",
            ],
        ),
        (
            Stage::Fetching,
            true,
            false,
            vec![
                "failed 签名文件下载失败",
                "term   ✗ 签名文件下载失败，无法验证更新包完整性。\r\n",
                "term   本次跳过升级，不影响使用。\r\n",
            ],
        ),
        (Stage::Reading, true, true, vec!["failed 无法读取签名文件", "term   ✗ 无法读取签名文件: e\r\n"]),
        (Stage::Installing, true, true, vec!["failed 升级失败，已跳过", "term   ✗ 升级失败：e\r\n"]),
        (Stage::Over, false, false, vec![]),
    ];
    assert_eq!(SKIPPED, "  本次跳过升级，不影响使用。\r\n");
    for (stage, package, signature, events) in cases {
        let mut u = at(stage);
        let step = u.step(&Outcome::Bad("e".into()));
        assert_eq!(u.stage, Stage::Over);
        assert_eq!(step.remove_package, package);
        assert_eq!(step.remove_signature, signature);
        assert_eq!(shown(&step.events), events);
    }
    let mut u = at(Stage::Downloading);
    assert_eq!(
        shown(&u.no_runtime("e")),
        vec!["failed 初始化运行时失败: e", "term   ✗ 下载失败：e\r\n"]
    );
    assert_eq!(u.stage, Stage::Over);
}

#[test]
fn every_update_ends_with_one_verdict() {
    let stages = [
        Stage::Locating,
        Stage::Preparing,
        Stage::Downloading,
        Stage::Fetching,
        Stage::Reading,
        Stage::Verifying,
    ];
    for (i, last) in stages.iter().enumerate() {
        let mut u = at(Stage::Locating);
        let mut events: Vec<String> = Vec::new();
        let mut removed: i32 = 0;
        while u.stage != Stage::Over {
            let step = if u.stage == Stage::Verifying {
                u.verify(Err("e".into()), "")
            } else if u.stage == *last {
                u.step(&Outcome::Bad("e".into()))
            } else {
                u.step(&Outcome::Good)
            };
            events.extend(shown(&step.events));
            removed += step.remove_package as i32;
        }
        for outcome in [Outcome::Good, Outcome::Bad("late".into())] {
            let step = u.step(&outcome);
            events.extend(shown(&step.events));
            removed += step.remove_package as i32;
        }
        let failed = events.iter().filter(|e| e.starts_with("failed ")).count();
        assert_eq!((failed, events.iter().any(|e| e.starts_with("done "))), (1, false));
        assert_eq!(removed, if i < 2 { 0 } else { 1 });
    }
    let mut u = at(Stage::Installing);
    let step = u.step(&Outcome::Good);
    assert_eq!(u.stage, Stage::Over);
    assert!(step.remove_package);
    let told = shown(&step.events);
    assert_eq!(told.iter().filter(|e| e.starts_with("done ")).count(), 1);
    assert!(!told.iter().any(|e| e.starts_with("failed ")));
}

#[test]
fn an_unsigned_package_is_not_installed() {
    let mut u = at(Stage::Verifying);
    let step = u.verify(Ok(b"test".to_vec()), PREHASHED);
    assert_eq!(u.stage, Stage::Over);
    assert!(step.remove_package && step.remove_signature);
    assert_eq!(shown(&step.events)[0], "failed 签名验证失败");
    let mut v = at(Stage::Verifying);
    let step = v.verify(Err("gone".into()), PREHASHED);
    assert_eq!(v.stage, Stage::Over);
    assert!(step.remove_package && step.remove_signature);
    assert_eq!(
        shown(&step.events),
        vec![
            "failed 签名验证失败",
            "term   ✗ 签名验证失败: 无法读取文件进行签名验证: gone\r\n",
            "term   本次跳过升级，不影响使用。\r\n",
        ]
    );
}

// ---- installation ---------------------------------------------------------------------------

#[test]
fn packages_are_installed_by_commands() {
    assert_eq!(extract_args("a", "d"), vec!["-xzf", "a", "-C", "d"]);
    assert_eq!(
        expand_args("a", "d"),
        vec!["-NoProfile", "-Command", "Expand-Archive -Force -Path 'a' -DestinationPath 'd'"]
    );
    assert_eq!(
        attach_args("m", "i"),
        vec!["attach", "-nobrowse", "-readonly", "-mountpoint", "m", "i"]
    );
    assert_eq!(
        replace_script(5, "o", "n", "t"),
        "@echo off\r\n:wait\r\ntasklist /FI \"PID eq 5\" | find \"5\" >nul\r\nif not errorlevel 1 (\r\n  timeout /t 1 /nul >nul\r\n  goto wait\r\n)\r\nmove /y \"o\" \"o.bak\"\r\ncopy /y \"n\" \"o\"\r\ndel \"o.bak\"\r\nrmdir /s /q \"t\"\r\ndel \"%~f0\"\r\n"
    );
    assert_eq!(extracted(true), Ok(()));
    assert_eq!(extracted(false), Err("解压升级包失败。".to_string()));
    assert_eq!(copied(true), Ok(()));
    assert!(copied(false).unwrap_err().starts_with("替换应用文件失败"));
    assert_eq!(attach_failed(b" no \xff\n"), "挂载 dmg 失败: no \u{fffd}");
    assert_eq!(wrong_platform("macos"), "仅支持在 macOS 上安装 dmg 升级包。");
    assert_eq!(wrong_platform("linux"), "仅支持在 Linux 上安装 tar.gz 升级包。");
    assert_eq!(wrong_platform("windows"), "仅支持在 Windows 上安装 zip 升级包。");
}

#[test]
fn the_bundle_is_found_from_the_inside() {
    let names = |v: &[Option<&str>]| -> Vec<Option<String>> {
        v.iter().map(|o| o.map(|s| s.to_string())).collect()
    };
    let inside = names(&[Some("MacOS"), Some("Contents"), Some("x.app"), Some("y.app"), None]);
    assert_eq!(bundle_index(&inside), Some(2));
    assert_eq!(bundle_index(&names(&[Some(".app"), Some("app"), Some("x.apps"), None])), None);
}
