//! Text, numbers, bytes and the environment.

use dsh_desktop::environment::{
    archive_name, cache_dir, cache_failed, check_node, content_length, fetch_args,
    fetch_not_started, fetched, fetching_events, head_args, http_content_length, installed_events,
    node_home, node_meets_min, node_npx_path, node_target, node_url, npx_candidates,
    npx_node_version, nvm_dir, parse_node_version, resolve_npx, start_events, unpacked,
    unpacking_events, FetchProgress, FoundNpx, NpxSearch, Probe, NODE_VERSION,
};
use dsh_desktop::event::UserEvent;
use dsh_desktop::number::{decimal_text, read_i32, read_u32, read_unsigned};
use dsh_desktop::text::{
    cut_prefix, find_str, has_str, join_strings, keep_last, lowercase_ascii, split_at_class,
    split_lines, split_words, take_first_word, to_chars, to_text, trimmed, white_space, CharClass,
};
use dsh_desktop::utf8::count_decodable;

fn shown(events: &[UserEvent]) -> Vec<String> {
    events
        .iter()
        .map(|e| match e {
            UserEvent::EnterTerminal => "enter".to_string(),
            UserEvent::Term(s) => format!("term {}", s),
            UserEvent::Status(s) => format!("status {}", s),
            UserEvent::Fatal(s) => format!("fatal {}", s),
            _ => "other".to_string(),
        })
        .collect()
}

fn texts(v: &[Vec<char>]) -> Vec<String> {
    v.iter().map(|cs| to_text(cs)).collect()
}

const SAMPLES: [&str; 14] = [
    "",
    " ",
    "\n",
    "\r\n",
    "a",
    "a\n",
    "a\r\n",
    "a\r",
    "a\n\nb",
    "a\r\r\nb\n",
    "  two  words\t",
    "\u{3000}宽 字\u{2003}",
    "a:b::c:",
    "\n\r\n x",
];

// ---- text -----------------------------------------------------------------------------------

#[test]
fn white_space_is_that_of_unicode() {
    for c in '\0'..=char::MAX {
        assert_eq!(white_space(c), c.is_whitespace());
    }
}

#[test]
fn text_is_split_as_usual() {
    for s in SAMPLES {
        let cs = to_chars(s);
        assert_eq!(to_text(&cs), s);
        assert_eq!(to_text(trimmed(&cs)), s.trim());
        assert_eq!(texts(&split_lines(&cs)), s.lines().collect::<Vec<&str>>());
        assert_eq!(texts(&split_words(&cs)), s.split_whitespace().collect::<Vec<&str>>());
        assert_eq!(
            texts(&split_at_class(&cs, CharClass::Is(':'))),
            s.split(':').collect::<Vec<&str>>()
        );
        assert_eq!(take_first_word(&cs).map(to_text), s.split_whitespace().next().map(String::from));
    }
}

#[test]
fn the_first_occurrence_is_found() {
    let cs = to_chars("中aXabab");
    assert_eq!(find_str(&cs, "ab"), Some(3));
    assert_eq!(find_str(&cs, "中"), Some(0));
    assert_eq!(find_str(&cs, ""), Some(0));
    assert_eq!(find_str(&cs, "ba b"), None);
    assert!(has_str(&cs, "bab") && !has_str(&cs, "bb"));
    assert_eq!(cut_prefix(&cs, "中a").map(to_text), Some("Xabab".to_string()));
    assert_eq!(cut_prefix(&cs, "a").map(to_text), None);
    assert_eq!(to_text(&lowercase_ascii(&to_chars("AzZÄ"))), "azzÄ");
}

#[test]
fn joined_texts_have_separators_between() {
    let v = |n: usize| -> Vec<String> { (0..n).map(|i| i.to_string()).collect() };
    assert_eq!(join_strings(&v(0), ", "), "");
    assert_eq!(join_strings(&v(1), ", "), "0");
    assert_eq!(join_strings(&v(3), ", "), "0, 1, 2");
    let mut last = v(5);
    keep_last(&mut last, 2);
    assert_eq!(last, vec!["3", "4"]);
    keep_last(&mut last, 9);
    assert_eq!(last, vec!["3", "4"]);
}

// ---- numbers --------------------------------------------------------------------------------

#[test]
fn numbers_are_written_and_read_back() {
    for n in [0u64, 9, 10, 305, u32::MAX as u64, u64::MAX] {
        assert_eq!(decimal_text(n), n.to_string());
        assert_eq!(read_unsigned(&to_chars(&decimal_text(n)), 10, u64::MAX), Some(n));
    }
}

#[test]
fn numbers_are_read_as_usual() {
    for s in [
        "", "0", "+7", "-7", "++1", "+", "-", "00012", " 1", "1 ", "1a", "2147483647", "2147483648",
        "-2147483648", "-2147483649", "4294967295", "4294967296", "99999999999999999999999", "١",
    ] {
        let cs = to_chars(s);
        assert_eq!(read_u32(&cs), s.parse::<u32>().ok());
        assert_eq!(read_i32(&cs), s.parse::<i32>().ok());
        assert_eq!(read_unsigned(&cs, 10, u64::MAX), s.parse::<u64>().ok());
        assert_eq!(
            read_unsigned(&cs, 16, 0xffff_ffff),
            u32::from_str_radix(s, 16).ok().map(|n| n as u64)
        );
    }
    assert_eq!(read_unsigned(&to_chars("fF0"), 16, 0xffff), Some(0xff0));
}

// ---- bytes ----------------------------------------------------------------------------------

#[test]
fn only_a_broken_off_character_waits() {
    assert_eq!(count_decodable(b"abc"), 3);
    assert_eq!(count_decodable("a中".as_bytes()), 4);
    assert_eq!(count_decodable(&"a中".as_bytes()[..3]), 1);
    assert_eq!(count_decodable(&"a中".as_bytes()[..2]), 1);
    assert_eq!(count_decodable(b""), 0);
}

// ---- Node.js --------------------------------------------------------------------------------

#[test]
fn versions_of_node_are_read() {
    assert_eq!(parse_node_version("v22.15.0\n"), Some((22, 15, 0)));
    assert_eq!(parse_node_version("22.15"), Some((22, 15, 0)));
    assert_eq!(parse_node_version("v1.2.3-rc.1"), Some((1, 2, 3)));
    assert_eq!(parse_node_version("v1.2.x"), Some((1, 2, 0)));
    assert_eq!(parse_node_version("v22"), None);
    assert_eq!(parse_node_version("vx.1"), None);
    assert_eq!(npx_node_version(true, b"v20.9.1\n"), Some((20, 9, 1)));
    assert_eq!(npx_node_version(false, b"v20.9.1\n"), None);
    assert_eq!(npx_node_version(true, b"\xff"), None);
    assert!(node_meets_min((22, 15, 0)) && node_meets_min((23, 0, 0)));
    assert!(!node_meets_min((22, 14, 9)) && !node_meets_min((20, 99, 0)));
}

#[test]
fn a_newer_node_is_found_behind_an_old_one() {
    let old = Probe { exists: true, version: Some((20, 0, 0)) };
    let new = Probe { exists: true, version: Some((22, 15, 0)) };
    let none = Probe { exists: false, version: Some((30, 0, 0)) };
    let unknown = Probe { exists: true, version: None };
    let mut s = NpxSearch::new();
    assert!(!s.consider(none));
    assert!(!s.consider(unknown));
    assert!(!s.consider(old));
    assert_eq!(s.first, Some(1));
    assert!(s.consider(new));
    assert_eq!((s.seen, s.first), (4, Some(1)));
}

#[test]
fn a_named_npx_wins_over_the_search() {
    let places = vec![
        vec!["/a/npx".to_string()],
        vec!["/b".to_string(), "npx".to_string()],
        vec!["/c/npx".to_string()],
    ];
    let none = Probe { exists: false, version: None };
    let old = Probe { exists: true, version: Some((20, 0, 0)) };
    let new = Probe { exists: true, version: Some((22, 15, 0)) };
    let choice = |named: Option<&str>, is_file: bool, probes: &[Probe]| {
        resolve_npx(named, is_file, &places, probes).map(|c| (c.path.join("|"), c.given))
    };
    assert_eq!(choice(Some("/x y"), true, &[new, new, new]), Some(("/x y".to_string(), true)));
    assert_eq!(choice(Some("/x"), true, &[]), Some(("/x".to_string(), true)));
    assert_eq!(choice(Some("/x"), false, &[old, new, new]), Some(("/b|npx".to_string(), false)));
    assert_eq!(choice(None, true, &[old, new]), Some(("/b|npx".to_string(), false)));
    assert_eq!(choice(None, false, &[none, old, old]), Some(("/b|npx".to_string(), false)));
    assert_eq!(choice(None, false, &[old, none, new]), Some(("/c/npx".to_string(), false)));
    assert_eq!(choice(Some("/x"), false, &[none, none, none]), None);
    assert_eq!(choice(None, true, &[]), None);
}

#[test]
fn npx_is_looked_for_in_order() {
    let nvm = vec!["/n/v22".to_string(), "/n/v20".to_string()];
    let all = npx_candidates(&nvm, Some("/a::/b"));
    assert_eq!(
        all,
        vec![
            vec!["/usr/local/bin/npx"],
            vec!["/opt/homebrew/bin/npx"],
            vec!["/usr/bin/npx"],
            vec!["/Users/shaipe/.workbuddy/binaries/node/versions/22.22.2/bin/npx"],
            vec!["/n/v22", "bin/npx"],
            vec!["/n/v20", "bin/npx"],
            vec!["/a", "npx"],
            vec!["/b", "npx"],
        ]
    );
    assert_eq!(npx_candidates(&[], None).len(), 4);
    assert_eq!(nvm_dir(Some("/h")), vec!["/h", ".nvm/versions/node"]);
    assert_eq!(nvm_dir(None), vec!["", ".nvm/versions/node"]);
}

#[test]
fn the_check_is_told() {
    assert_eq!(
        shown(&start_events()),
        vec!["enter", "term === 启动前环境自检 ===\r\n", "status 正在检查运行环境…"]
    );
    let get = "term • @deepseek-ai/dsh 命令包：将通过 npx 首次运行时自动获取（无需单独安装）\r\n";
    let ready = "term ✓ 运行环境就绪，准备启动服务…\r\n";
    let status = "status 正在准备自动安装 Node.js 运行环境…";
    let found = |version| Some(FoundNpx { path: "/x/npx".to_string(), version, given: false });
    let (used, e) = check_node(&found(Some((22, 15, 1))));
    assert!(used);
    assert_eq!(
        shown(&e),
        vec![
            "term ✓ Node.js 运行环境 (npx)\r\n    已找到: /x/npx (Node v22.15.1)\r\n",
            get,
            ready
        ]
    );
    let (used, e) = check_node(&found(None));
    assert!(used);
    assert_eq!(
        shown(&e),
        vec![
            "term ✓ Node.js 运行环境 (npx)\r\n    已找到: /x/npx（未能检测版本，将尝试使用）\r\n",
            get,
            ready
        ]
    );
    let (used, e) = check_node(&found(Some((20, 9, 0))));
    assert!(!used);
    assert_eq!(
        shown(&e),
        vec![
            "term ✗ 已检测到 Node.js，但版本过低\r\n    已找到: /x/npx (Node v20.9.0)，需 >= v22.15\r\n",
            get,
            "term ✗ Node.js 版本过低 (v20.9.0)，正在自动下载兼容的便携版 Node v22.23.2…\r\n",
            status
        ]
    );
    let named = FoundNpx { path: "/x/npx".to_string(), version: Some((20, 9, 0)), given: true };
    let (used, e) = check_node(&Some(named));
    assert!(used);
    assert_eq!(
        shown(&e),
        vec![
            "term ✓ Node.js 运行环境 (npx)\r\n    已找到: /x/npx (Node v20.9.0)\r\n",
            get,
            ready
        ]
    );
    let (used, e) = check_node(&None);
    assert!(!used);
    assert_eq!(
        shown(&e),
        vec![
            "term ✗ Node.js 运行环境 (npx)\r\n    本机未安装\r\n",
            get,
            "term ✗ 本机缺少 Node.js，正在自动下载并安装便携版…\r\n",
            status
        ]
    );
    assert_eq!(shown(&installed_events("/n", true)), vec!["term ✓ 已安装 Node.js: /n\r\n"]);
    assert_eq!(
        shown(&installed_events("/n", false)),
        vec!["fatal 未能在自动安装的 Node.js 中找到 npx，安装失败。"]
    );
}

#[test]
fn node_is_installed_for_the_platform() {
    assert_eq!(node_target("macos", "aarch64"), "darwin-arm64");
    assert_eq!(node_target("windows", "x86_64"), "win-x64");
    assert_eq!(node_target("linux", "arm"), "linux-armv7l");
    assert_eq!(node_target("freebsd", "riscv64"), "freebsd-riscv64");
    let cache = cache_dir(false, None, Some("/h")).unwrap();
    assert_eq!(cache, vec!["/h/.cache", "dsh-desktop"]);
    assert_eq!(cache_dir(false, Some("x"), None), Err("无法确定用户目录（HOME 未设置）。".to_string()));
    assert_eq!(cache_dir(true, Some("D:"), None).unwrap(), vec!["D:", "dsh-desktop"]);
    assert_eq!(
        cache_dir(true, None, None).unwrap(),
        vec!["C:\\Users\\Public\\.cache", "dsh-desktop"]
    );
    let home = node_home(&cache, "linux-x64");
    assert_eq!(home[2], format!("node-v{}-linux-x64", NODE_VERSION));
    assert_eq!(node_npx_path(&home, false)[3..], ["bin", "npx"]);
    assert_eq!(node_npx_path(&home, true)[3..], ["npx.cmd"]);
    assert_eq!(
        node_url("win-x64", true),
        "https://cdn.npmmirror.com/binaries/node/v22.23.2/node-v22.23.2-win-x64.zip"
    );
    assert!(node_url("linux-x64", false).ends_with("-linux-x64.tar.gz"));
    assert_eq!(archive_name("linux-x64", false), "node-linux-x64.tar.gz");
    assert_eq!(archive_name("win-x64", true), "node-win-x64.zip");
}

#[test]
fn the_last_length_counts() {
    let h = "HTTP/1.1 302 Found\r\ncontent-length: 5\r\n\r\nHTTP/1.1 200 OK\r\nContent-Length:  1234 \r\nX: y\r\n";
    assert_eq!(content_length(h), Some(1234));
    assert_eq!(content_length("Content-Length: 5\nCONTENT-LENGTH: many\n"), None);
    assert_eq!(content_length("Length: 5"), None);
    assert_eq!(http_content_length(b"\xff\ncontent-length:7"), Some(7));
    assert_eq!(head_args("u"), vec!["-sIL", "--max-time", "20", "u"]);
    assert_eq!(fetch_args(false, "u", "f"), vec!["-fsSL", "u", "-o", "f"]);
    assert_eq!(fetch_args(true, "u", "f"), vec!["-q", "u", "-O", "f"]);
}

#[test]
fn the_download_of_node_is_told() {
    assert_eq!(
        shown(&fetching_events()),
        vec![
            "term 正在从 npmmirror 镜像下载 Node.js 运行环境…\r\n",
            "status 正在下载 Node.js 运行环境…"
        ]
    );
    let mut p = FetchProgress::new();
    assert!(p.on_pct(-1).is_empty());
    assert_eq!(
        shown(&p.on_pct(7)),
        vec!["term   下载进度   7%\r", "status 正在下载 Node.js 运行环境… 7%"]
    );
    assert!(p.on_pct(7).is_empty());
    assert_eq!(
        shown(&p.on_pct(100)),
        vec!["term   下载进度  99%\r", "status 正在下载 Node.js 运行环境… 99%"]
    );
    assert_eq!(
        shown(&p.on_pct(-1)),
        vec!["term   下载中…\r", "status 正在下载 Node.js 运行环境…"]
    );
    assert_eq!(
        shown(&unpacking_events()),
        vec![
            "term \r\n",
            "term ✓ 下载完成，正在解压 Node.js…\r\n",
            "status 正在解压 Node.js 运行环境…"
        ]
    );
    assert_eq!(fetched(true, true, "u"), Ok(()));
    let e = "下载 Node.js 运行环境失败（u）。请检查网络连接后重试，或手动安装 Node.js 并用 DSH_NPX 指定 npx 路径。";
    assert_eq!(fetched(true, false, "u"), Err(e.to_string()));
    assert_eq!(fetched(false, true, "u"), Err(e.to_string()));
    assert!(matches!(unpacked(true), Ok(e) if shown(&e)
        == vec!["term ✓ 解压完成。\r\n", "status Node.js 运行环境已就绪"]));
    assert!(matches!(unpacked(false), Err(e) if e == "已下载 Node.js 压缩包，但解压失败。"));
    assert_eq!(cache_failed("d", "e"), "无法创建缓存目录 d: e");
    assert_eq!(fetch_not_started("e"), "无法启动下载工具（curl/wget 均不可用）: e");
}
