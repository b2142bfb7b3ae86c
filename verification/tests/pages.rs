//! Pages, the window and its icon.

use dsh_desktop::event::UserEvent;
use dsh_desktop::icon::load_icon;
use dsh_desktop::ui::{help_html, js_string_arg, loading_html};
use dsh_desktop::window::{
    read_message, update_bar_complete_js, update_bar_hide_js, update_bar_show_js, Command, Message,
    Window,
};

fn done(c: &[Command]) -> Vec<String> {
    c.iter()
        .map(|c| match c {
            Command::Script(s) => format!("js {}", s),
            Command::Load { url, fallback } => format!("load {} {}", url, fallback),
            Command::Notify(s) => format!("notify {}", s),
            Command::Check => "check".to_string(),
            Command::Apply(s) => format!("apply {}", s),
            Command::Help => "help".to_string(),
        })
        .collect()
}

#[test]
fn update_bar_js_is_well_formed() {
    let js = update_bar_show_js(42, false);
    assert!(js.starts_with("(function()"));
    assert!(js.ends_with("})();"));
    assert!(js.contains("dshUpdBar"));
    assert!(js.contains("dshUpdFill"));
    assert!(js.contains("textContent=\"正在下载更新…\""));
    assert!(js.contains("width='42%'"));
    assert!(js.contains("'42%'"));

    let js = update_bar_show_js(100, true);
    assert!(js.contains("textContent=\"正在安装更新…\""));
    assert!(js.contains("width='100%'"));

    let js = update_bar_hide_js();
    assert!(js.contains("dshUpdBar"));
    assert!(js.contains(".remove()"));

    let js = update_bar_complete_js("v0.1.13");
    assert!(js.contains("textContent=\"✓ 已升级到 v0.1.13，重启应用完成更新\""));
    assert!(js.contains("dshUpdRestart"));
    assert!(js.contains("dshUpdLater"));
    assert!(js.contains("RESTART_APP"));
    assert!(!js.contains("v0.1.13\n"));
}

#[test]
fn update_bar_js_printable() {
    println!("SHOW42={}", update_bar_show_js(42, false));
    println!("SHOW100={}", update_bar_show_js(100, true));
    println!("HIDE={}", update_bar_hide_js());
    println!("DONE={}", update_bar_complete_js("v0.1.13"));
}

#[test]
fn an_installing_bar_is_full() {
    assert_eq!(update_bar_show_js(3, true), update_bar_show_js(255, true));
    assert!(update_bar_show_js(3, true).contains("textContent='100%'"));
}

#[test]
fn arguments_are_literals() {
    assert_eq!(js_string_arg("a\"b\\c\n\r\t\u{8}\u{c}\u{1b}`${x}中"), "\"a\\\"b\\\\c\\n\\r\\t\\b\\f\\u001b`${x}中\"");
    assert_eq!(js_string_arg(""), "\"\"");
    let all: String = (0..0x80u8).map(|n| n as char).collect();
    assert!(js_string_arg(&all).chars().all(|c| c as u32 >= 0x20));
}

#[test]
fn the_first_page_gets_its_script() {
    let page = "<a>/*__APP_JS__*/</a>/*__APP_JS__*//*__APP";
    assert_eq!(
        loading_html(page, "go();", "1.2"),
        page.replace("/*__APP_JS__*/", "var dshVersion='1.2';go();")
    );
    assert_eq!(loading_html("none", "go();", "1.2"), "none");
}

#[test]
fn the_help_page_tells_the_version() {
    let page = help_html("9.8.7");
    assert!(page.starts_with("<!DOCTYPE html>\n<html lang=\"zh-CN\">"));
    assert!(page.contains("<div class=\"version\">v9.8.7 · 桌面版启动器</div>"));
    assert!(page.contains("  * { margin: 0; padding: 0; box-sizing: border-box; }"));
    assert!(page.ends_with("</body>\n</html>"));
}

#[test]
fn events_become_scripts() {
    let mut w = Window::new(false);
    let mut js = |e: UserEvent| done(&w.on_event(&e));
    assert_eq!(js(UserEvent::Checklist("a".into())), vec!["js setChecklist(\"a\")"]);
    assert_eq!(js(UserEvent::Stage("a".into())), vec!["js setStage(\"a\")"]);
    assert_eq!(js(UserEvent::Sub("a".into())), vec!["js setSub(\"a\")"]);
    assert_eq!(js(UserEvent::Status("a".into())), vec!["js setStatus(\"a\")"]);
    assert_eq!(js(UserEvent::Progress(7)), vec!["js showProgress(true); setProgress(7);"]);
    assert_eq!(js(UserEvent::EnterTerminal), vec!["js showTerminal()"]);
    assert_eq!(js(UserEvent::Term("\"".into())), vec!["js appendTerm(\"\\\"\")"]);
    assert_eq!(js(UserEvent::Prompt("a".into())), vec!["js showPrompt(\"a\")"]);
    assert_eq!(js(UserEvent::TermDone("x".into())), vec!["js appendTerm(\"\\r\\n[x]\\r\\n\")"]);
    assert_eq!(js(UserEvent::Fatal("a".into())), vec!["js showFatal(\"a\")"]);
    assert_eq!(js(UserEvent::Diagnosis("{}".into())), vec!["js showDiagnosis({})"]);
    assert_eq!(js(UserEvent::ShowHelp), vec!["help"]);
    assert_eq!(js(UserEvent::CheckUpdate), vec!["js setUpdateBtn('检查中…', true)", "check"]);
    let toast = js(UserEvent::RecoveredToast("t".into()));
    assert!(toast[0].contains("d.textContent=\"t\";d.style.cssText="));
}

#[test]
fn updates_are_asked_for_before_the_service_is_shown() {
    let mut w = Window::new(false);
    assert_eq!(
        done(&w.on_event(&UserEvent::UpdateAvailable("v2".into(), "n".into()))),
        vec![
            "js if (typeof showUpdateDialog === 'function') showUpdateDialog(\"v2\", \"n\")",
            "js setUpdateBtn('检查更新', false)"
        ]
    );
    assert_eq!(
        done(&w.on_event(&UserEvent::UpdateProgress(100))),
        vec!["js if (typeof showUpdateProgress === 'function') showUpdateProgress(100);"]
    );
    assert_eq!(
        done(&w.on_event(&UserEvent::UpdateDone("v2".into()))),
        vec![
            "js if (typeof showUpdateComplete === 'function') showUpdateComplete(\"v2\")",
            "js setUpdateBtn('重启更新', false)"
        ]
    );
    assert_eq!(
        done(&w.on_event(&UserEvent::UpdateDone("".into()))),
        vec!["js showUpdateToast('已是最新版本')"]
    );
    assert_eq!(
        done(&w.on_event(&UserEvent::UpdateFailed("f".into()))),
        vec![
            "js if (typeof showUpdateToast === 'function') showUpdateToast(\"f\")".to_string(),
            "js if (typeof hideUpdateProgress === 'function') hideUpdateProgress();".to_string(),
            format!("js {}", update_bar_hide_js())
        ]
    );
    assert!(!w.at_service);
}

#[test]
fn updates_are_applied_at_once_where_the_service_is_shown() {
    let mut w = Window::new(true);
    assert_eq!(
        done(&w.on_event(&UserEvent::ServerReady("http://u".into()))),
        vec!["load http://u window.location.href = 'http://u';"]
    );
    assert!(w.at_service);
    assert_eq!(
        done(&w.on_event(&UserEvent::UpdateAvailable("v2".into(), "n".into()))),
        vec![
            format!("js {}", update_bar_show_js(0, false)),
            "notify 发现新版本 v2，正在后台下载更新…".to_string(),
            "apply v2".to_string(),
            "js setUpdateBtn('检查更新', false)".to_string()
        ]
    );
    let e = done(&w.on_event(&UserEvent::UpdateProgress(100)));
    assert_eq!(e[1], format!("js {}", update_bar_show_js(100, true)));
    let e = done(&w.on_event(&UserEvent::UpdateProgress(99)));
    assert_eq!(e[1], format!("js {}", update_bar_show_js(99, false)));
    assert_eq!(
        done(&w.on_event(&UserEvent::UpdateDone("v2".into()))),
        vec![format!("js {}", update_bar_complete_js("v2"))]
    );
    assert_eq!(done(&w.on_event(&UserEvent::UpdateDone("".into()))), vec!["notify 已是最新版本"]);
    assert_eq!(done(&w.on_event(&UserEvent::UpdateFailed("f".into())))[0], "notify f");
    let mut other = Window::new(false);
    other.at_service = true;
    assert_eq!(
        done(&other.on_event(&UserEvent::UpdateAvailable("v2".into(), "n".into())))[1],
        "js if (typeof showUpdateToast === 'function') showUpdateToast('发现新版本 v2，正在后台下载更新…')"
    );
}

#[test]
fn messages_are_read() {
    assert!(matches!(read_message("IN:y"), Message::Input(s) if s == "y"));
    assert!(matches!(read_message("IN:"), Message::Input(s) if s.is_empty()));
    assert!(matches!(read_message("CHECK_UPDATE"), Message::CheckUpdate));
    assert!(matches!(read_message("APPLY_UPDATE:v1"), Message::ApplyUpdate(s) if s == "v1"));
    assert!(matches!(read_message("RESTART_APP"), Message::Restart));
    assert!(matches!(read_message("RESTART_APP "), Message::Other));
    assert!(matches!(read_message(""), Message::Other));
}

#[test]
fn the_icon_is_read_from_a_png() {
    let picture: Vec<u8> = (0..24).collect();
    let mut data: Vec<u8> = Vec::new();
    {
        let mut encoder = png::Encoder::new(&mut data, 3, 2);
        encoder.set_color(png::ColorType::Rgba);
        encoder.set_depth(png::BitDepth::Eight);
        let mut writer = encoder.write_header().unwrap();
        writer.write_image_data(&picture).unwrap();
    }
    let icon = load_icon(&data).unwrap();
    assert_eq!((icon.width, icon.height), (3, 2));
    assert_eq!(icon.rgba, picture);
    let cut = data.len() - 20;
    assert!(load_icon(&data[..cut]).is_none());
    assert!(load_icon(b"no picture").is_none());
}
