//! What the window does, in terms of the events and messages that it gets.

use crate::event::EventView;
use crate::json;
use crate::number;
use crate::release;
use crate::text;
use crate::text_laws;
use crate::ui;
use crate::window;
use crate::window::{CommandView, MessageView};
use vstd::prelude::*;

verus! {

/// A text as the string literal that stands for it in a script.
pub open spec fn literal(s: Seq<char>) -> Seq<char> {
    seq!['"'] + json::escape(s, true) + seq!['"']
}

/// Whether a command runs a script that holds a text.
pub open spec fn runs(c: CommandView, s: Seq<char>) -> bool {
    match c {
        CommandView::Script(js) => text::contains(js, s),
        _ => false,
    }
}

/// Whether a command shows a note of the system that holds a text.
pub open spec fn notes(c: CommandView, s: Seq<char>) -> bool {
    match c {
        CommandView::Notify(said) => text::contains(said, s),
        _ => false,
    }
}

/// Whether a reaction is one script that calls a function of the page with this text, and nothing
/// else.
pub open spec fn calls(r: Seq<CommandView>, name: Seq<char>, s: Seq<char>) -> bool {
    r == seq![CommandView::Script(name + seq!['('] + literal(s) + seq![')'])]
}

proof fn brackets()
    ensures
        "("@ == seq!['('],
        ")"@ == seq![')'],
{
    reveal_strlit("(");
    reveal_strlit(")");
    assert("("@ =~= seq!['(']);
    assert(")"@ =~= seq![')']);
}

/// What is told to the user goes to the function of the page that shows it, as it is.
pub proof fn texts_go_to_the_page(s: Seq<char>, at: bool, mac: bool)
    ensures
        calls(window::reaction(EventView::Checklist(s), at, mac), "setChecklist"@, s),
        calls(window::reaction(EventView::Stage(s), at, mac), "setStage"@, s),
        calls(window::reaction(EventView::Sub(s), at, mac), "setSub"@, s),
        calls(window::reaction(EventView::Status(s), at, mac), "setStatus"@, s),
        calls(window::reaction(EventView::Term(s), at, mac), "appendTerm"@, s),
        calls(window::reaction(EventView::Prompt(s), at, mac), "showPrompt"@, s),
        calls(window::reaction(EventView::Fatal(s), at, mac), "showFatal"@, s),
        calls(
            window::reaction(EventView::TermDone(s), at, mac),
            "appendTerm"@,
            "\r\n["@ + s + "]\r\n"@,
        ),
        window::reaction(EventView::Diagnosis(s), at, mac) == seq![
            CommandView::Script("showDiagnosis("@ + s + ")"@),
        ],
{
    brackets();
}

/// When the service is ready the window goes to its address, and stays at the page of the service
/// from then on.
pub proof fn window_goes_to_the_service(url: Seq<char>, e: EventView, at: bool, mac: bool)
    ensures
        window::reaction(EventView::ServerReady(url), at, mac).len() == 1,
        goes_to(window::reaction(EventView::ServerReady(url), at, mac)[0], url),
        window::at_service_after(EventView::ServerReady(url), at),
        window::at_service_after(e, true),
{
    text_laws::holds_pattern("window.location.href = '"@, url, "';"@);
}

/// Whether a command makes the window go to an address, in one way or the other.
pub open spec fn goes_to(c: CommandView, url: Seq<char>) -> bool {
    match c {
        CommandView::Load { url: to, fallback } => to == url && text::contains(fallback, url),
        _ => false,
    }
}

/// Nothing but a service that is ready makes the window leave the first page.
pub proof fn nothing_else_leaves_the_first_page(e: EventView, at: bool, mac: bool, i: int)
    requires
        !(e is ServerReady),
        0 <= i < window::reaction(e, at, mac).len(),
    ensures
        window::at_service_after(e, at) == at,
        !(window::reaction(e, at, mac)[i] is Load),
{
    let r = window::reaction(e, at, mac);
    assert(r.len() <= 4);
    if i == 0 {
        assert(!(r[0] is Load));
    } else if i == 1 {
        assert(!(r[1] is Load));
    } else if i == 2 {
        assert(!(r[2] is Load));
    } else {
        assert(!(r[3] is Load));
    }
}

/// An update check that the user asks for is made, and the help window is shown where they ask for
/// it.
pub proof fn requests_are_met(at: bool, mac: bool)
    ensures
        window::reaction(EventView::CheckUpdate, at, mac).contains(CommandView::Check),
        window::reaction(EventView::ShowHelp, at, mac) == seq![CommandView::Help],
{
    assert(window::reaction(EventView::CheckUpdate, at, mac)[1] == CommandView::Check);
}

/// A new version is offered in a dialog on the first page, with its tag and its notes. On the page
/// of the service it is applied at once, once, and the user is told its tag.
pub proof fn new_version_is_offered(tag: Seq<char>, said: Seq<char>, mac: bool)
    ensures
        ({
            let first = window::reaction(EventView::UpdateAvailable(tag, said), false, mac);
            let later = window::reaction(EventView::UpdateAvailable(tag, said), true, mac);
            &&& first.len() == 2 && later.len() == 4
            &&& runs(
                first[0],
                "showUpdateDialog("@ + literal(tag) + ", "@ + literal(said) + ")"@,
            )
            &&& first[1] is Script
            &&& later[2] == CommandView::Apply(tag)
            &&& later[0] is Script && later[3] is Script
            &&& mac ==> notes(later[1], tag)
            &&& !mac ==> runs(later[1], tag)
        }),
{
    let none = Seq::<char>::empty();
    let a = "if (typeof showUpdateDialog === 'function') "@;
    let b = "showUpdateDialog("@ + literal(tag) + ", "@ + literal(said) + ")"@;
    reveal_strlit("if (typeof showUpdateDialog === 'function') showUpdateDialog(");
    reveal_strlit("if (typeof showUpdateDialog === 'function') ");
    reveal_strlit("showUpdateDialog(");
    assert("if (typeof showUpdateDialog === 'function') showUpdateDialog("@ =~= a
        + "showUpdateDialog("@);
    assert("if (typeof showUpdateDialog === 'function') showUpdateDialog("@ + ui::js_arg(tag)
        + ", "@ + ui::js_arg(said) + ")"@ =~= a + b + none);
    text_laws::holds_pattern(a, b, none);
    text_laws::holds_pattern("发现新版本 "@, tag, "，正在后台下载更新…"@);
    text_laws::holds_pattern(
        "if (typeof showUpdateToast === 'function') showUpdateToast('发现新版本 "@,
        tag,
        "，正在后台下载更新…')"@,
    );
}

/// The progress of an update is shown on the first page, and in the bar as well on the page of the
/// service. The bar tells the percentage, and that the update is installed once it is complete.
pub proof fn progress_is_shown(p: u8, mac: bool)
    ensures
        ({
            let first = window::reaction(EventView::UpdateProgress(p), false, mac);
            let later = window::reaction(EventView::UpdateProgress(p), true, mac);
            &&& first.len() == 1 && later.len() == 2 && later[0] == first[0]
            &&& runs(first[0], "showUpdateProgress("@ + number::decimal(p as nat) + ");"@)
            &&& p < 100 ==> runs(later[1], literal("正在下载更新…"@)) && runs(
                later[1],
                "width='"@ + number::decimal(p as nat) + "%'"@,
            )
            &&& p >= 100 ==> runs(later[1], literal("正在安装更新…"@)) && runs(
                later[1],
                "width='"@ + number::decimal(100) + "%'"@,
            )
        }),
{
    let none = Seq::<char>::empty();
    let a = "if (typeof showUpdateProgress === 'function') "@;
    let d = number::decimal(p as nat);
    let b = "showUpdateProgress("@ + d + ");"@;
    reveal_strlit("if (typeof showUpdateProgress === 'function') showUpdateProgress(");
    reveal_strlit("if (typeof showUpdateProgress === 'function') ");
    reveal_strlit("showUpdateProgress(");
    assert("if (typeof showUpdateProgress === 'function') showUpdateProgress("@ =~= a
        + "showUpdateProgress("@);
    assert("if (typeof showUpdateProgress === 'function') showUpdateProgress("@ + d + ");"@ =~= a
        + b + none);
    text_laws::holds_pattern(a, b, none);
    bar_shows(p, false);
    bar_shows(p, true);
}

proof fn bar_shows(p: u8, installing: bool)
    ensures
        ({
            let js = window::bar_script(p, installing);
            let n = if installing {
                100nat
            } else {
                p as nat
            };
            &&& text::contains(
                js,
                literal(
                    if installing {
                        "正在安装更新…"@
                    } else {
                        "正在下载更新…"@
                    },
                ),
            )
            &&& text::contains(js, "width='"@ + number::decimal(n) + "%'"@)
        }),
{
    let js = window::bar_script(p, installing);
    let t = ui::js_arg(window::bar_text(installing));
    let n = number::decimal(window::bar_pct(p, installing));
    let open = window::BAR_OPEN@;
    let fill = window::BAR_FILL@;
    let pct = window::BAR_PCT@;
    let rest = pct + n + "%"@ + window::BAR_END@;
    assert(js =~= open + t + (fill + n + rest));
    text_laws::holds_pattern(open, t, fill + n + rest);
    reveal_strlit(";document.getElementById('dshUpdFill').style.width='");
    reveal_strlit(";document.getElementById('dshUpdFill').style.");
    reveal_strlit("width='");
    reveal_strlit("%';document.getElementById('dshUpdPct').textContent='");
    reveal_strlit("%'");
    let x = ";document.getElementById('dshUpdFill').style."@;
    assert(fill =~= x + "width='"@);
    assert(pct =~= "%'"@ + pct.skip(2));
    let mid = "width='"@ + n + "%'"@;
    let tail = pct.skip(2) + n + "%"@ + window::BAR_END@;
    assert(js =~= (open + t + x) + mid + tail);
    text_laws::holds_pattern(open + t + x, mid, tail);
}

/// That there is no new version is told as such; that one is installed is told with its tag, on
/// either page.
pub proof fn end_of_an_update_is_told(tag: Seq<char>, mac: bool, at: bool)
    requires
        tag.len() > 0,
    ensures
        window::reaction(EventView::UpdateDone(Seq::empty()), at, true) == seq![
            CommandView::Notify("已是最新版本"@),
        ],
        window::reaction(EventView::UpdateDone(Seq::empty()), at, false) == seq![
            CommandView::Script("showUpdateToast('已是最新版本')"@),
        ],
        ({
            let first = window::reaction(EventView::UpdateDone(tag), false, mac);
            let later = window::reaction(EventView::UpdateDone(tag), true, mac);
            &&& first.len() == 2 && runs(first[0], "showUpdateComplete("@ + literal(tag) + ")"@)
            &&& first[1] == CommandView::Script("setUpdateBtn('重启更新', false)"@)
            &&& later.len() == 1 && runs(
                later[0],
                literal("✓ 已升级到 v"@ + release::bare_tag(tag) + "，重启应用完成更新"@),
            ) && runs(later[0], "postMessage('RESTART_APP')"@)
        }),
{
    let none = Seq::<char>::empty();
    let a = "if (typeof showUpdateComplete === 'function') "@;
    let b = "showUpdateComplete("@ + literal(tag) + ")"@;
    reveal_strlit("if (typeof showUpdateComplete === 'function') showUpdateComplete(");
    reveal_strlit("if (typeof showUpdateComplete === 'function') ");
    reveal_strlit("showUpdateComplete(");
    assert("if (typeof showUpdateComplete === 'function') showUpdateComplete("@ =~= a
        + "showUpdateComplete("@);
    assert("if (typeof showUpdateComplete === 'function') showUpdateComplete("@ + ui::js_arg(tag)
        + ")"@ =~= a + b + none);
    text_laws::holds_pattern(a, b, none);
    let t = ui::js_arg("✓ 已升级到 v"@ + release::bare_tag(tag) + "，重启应用完成更新"@);
    text_laws::holds_pattern(window::DONE_OPEN@, t, window::DONE_END@);
    restart_is_offered(window::DONE_OPEN@ + t);
}

proof fn restart_is_offered(head: Seq<char>)
    ensures
        text::contains(head + window::DONE_END@, "postMessage('RESTART_APP')"@),
{
    reveal_strlit(
        ";document.getElementById('dshUpdRestart').onclick=function(){try{window.ipc.postMessage('RESTART_APP');}catch(e){}};document.getElementById('dshUpdLater').onclick=function(){try{b.remove();}catch(e){}};}catch(e){}})();",
    );
    reveal_strlit(";document.getElementById('dshUpdRestart').onclick=function(){try{window.ipc.");
    reveal_strlit("postMessage('RESTART_APP')");
    let a = ";document.getElementById('dshUpdRestart').onclick=function(){try{window.ipc."@;
    let p = "postMessage('RESTART_APP')"@;
    let end = window::DONE_END@;
    assert(end == ";document.getElementById('dshUpdRestart').onclick=function(){try{window.ipc.postMessage('RESTART_APP');}catch(e){}};document.getElementById('dshUpdLater').onclick=function(){try{b.remove();}catch(e){}};}catch(e){}})();"@);
    let b = end.skip((a.len() + p.len()) as int);
    assert(end =~= a + p + b);
    assert(head + end =~= (head + a) + p + b);
    text_laws::holds_pattern(head + a, p, b);
}

/// That an update failed is told with the reason, and its progress and its bar are taken away.
pub proof fn failed_update_is_told(s: Seq<char>, at: bool, mac: bool)
    ensures
        ({
            let r = window::reaction(EventView::UpdateFailed(s), at, mac);
            &&& r.len() == 3
            &&& mac ==> r[0] == CommandView::Notify(s)
            &&& !mac ==> runs(r[0], "showUpdateToast("@ + literal(s) + ")"@)
            &&& r[1] == CommandView::Script(
                "if (typeof hideUpdateProgress === 'function') hideUpdateProgress();"@,
            )
            &&& r[2] is Script
        }),
{
    let none = Seq::<char>::empty();
    let a = "if (typeof showUpdateToast === 'function') "@;
    let b = "showUpdateToast("@ + literal(s) + ")"@;
    reveal_strlit("if (typeof showUpdateToast === 'function') showUpdateToast(");
    reveal_strlit("if (typeof showUpdateToast === 'function') ");
    reveal_strlit("showUpdateToast(");
    assert("if (typeof showUpdateToast === 'function') showUpdateToast("@ =~= a
        + "showUpdateToast("@);
    assert("if (typeof showUpdateToast === 'function') showUpdateToast("@ + ui::js_arg(s) + ")"@
        =~= a + b + none);
    text_laws::holds_pattern(a, b, none);
}

/// A note on a recovery is shown on whatever page there is, as the text that it is.
pub proof fn note_is_shown(s: Seq<char>, at: bool, mac: bool)
    ensures
        window::reaction(EventView::RecoveredToast(s), at, mac).len() == 1,
        runs(
            window::reaction(EventView::RecoveredToast(s), at, mac)[0],
            "textContent="@ + literal(s) + ";"@,
        ),
{
    reveal_strlit("(function(){try{var d=document.createElement('div');d.textContent=");
    reveal_strlit("(function(){try{var d=document.createElement('div');d.");
    reveal_strlit("textContent=");
    reveal_strlit(";");
    let a = "(function(){try{var d=document.createElement('div');d."@;
    let open = window::TOAST_OPEN@;
    let end = window::TOAST_END@;
    assert(open =~= a + "textContent="@);
    toast_end_begins();
    assert(end =~= ";"@ + end.skip(1));
    let p = "textContent="@ + literal(s) + ";"@;
    assert(open + ui::js_arg(s) + end =~= a + p + end.skip(1));
    text_laws::holds_pattern(a, p, end.skip(1));
}

proof fn toast_end_begins()
    ensures
        window::TOAST_END@.len() > 0,
        window::TOAST_END@[0] == ';',
{
    reveal_strlit(
        ";d.style.cssText='position:fixed;top:16px;right:16px;z-index:2147483647;max-width:420px;background:#1a2332;color:#7ee0a0;border:1px solid #3a4252;border-radius:8px;padding:10px 16px;font:13px -apple-system,sans-serif;box-shadow:0 4px 12px rgba(0,0,0,.4);';document.body.appendChild(d);setTimeout(function(){d.style.opacity='0';d.style.transition='opacity .4s';},8000);setTimeout(function(){d.remove();},8500);}catch(e){}})();",
    );
}

// ---- messages -------------------------------------------------------------------------------

/// The page says what the user typed, that they ask for a check, that they agree to an update and to
/// which, or that they ask for a restart. Everything else says nothing.
pub proof fn messages_say(s: Seq<char>)
    ensures
        window::message_of("IN:"@ + s) == MessageView::Input(s),
        window::message_of("CHECK_UPDATE"@) == MessageView::CheckUpdate,
        window::message_of("APPLY_UPDATE:"@ + s) == MessageView::ApplyUpdate(s),
        window::message_of("RESTART_APP"@) == MessageView::Restart,
        s != "CHECK_UPDATE"@ && s != "RESTART_APP"@ && (forall|x: Seq<char>|
            s != #[trigger] ("IN:"@ + x)) && (forall|x: Seq<char>|
            s != #[trigger] ("APPLY_UPDATE:"@ + x)) ==> window::message_of(s) == MessageView::Other,
{
    reveal_strlit("IN:");
    reveal_strlit("CHECK_UPDATE");
    reveal_strlit("APPLY_UPDATE:");
    reveal_strlit("RESTART_APP");
    let input = "IN:"@ + s;
    let apply = "APPLY_UPDATE:"@ + s;
    assert(input.subrange(0, 3) =~= "IN:"@);
    assert(input.skip(3) =~= s);
    assert(apply.subrange(0, 13) =~= "APPLY_UPDATE:"@);
    assert(apply.skip(13) =~= s);
    begins_otherwise(apply, "IN:"@, 'A');
    begins_otherwise("CHECK_UPDATE"@, "IN:"@, 'C');
    begins_otherwise("RESTART_APP"@, "IN:"@, 'R');
    begins_otherwise("RESTART_APP"@, "APPLY_UPDATE:"@, 'R');
    assert(apply != "CHECK_UPDATE"@) by {
        assert(apply[0] == 'A' && "CHECK_UPDATE"@[0] == 'C');
    }
    assert("RESTART_APP"@ != "CHECK_UPDATE"@) by {
        assert("RESTART_APP"@.len() == 11 && "CHECK_UPDATE"@.len() == 12);
    }
    text_laws::starts_with_is_concatenation(s, "IN:"@);
    text_laws::starts_with_is_concatenation(s, "APPLY_UPDATE:"@);
}

proof fn begins_otherwise(s: Seq<char>, p: Seq<char>, c: char)
    requires
        s.len() > 0,
        s[0] == c,
        p.len() > 0,
        p[0] != c,
    ensures
        !text::starts_with(s, p),
{
    if text::starts_with(s, p) {
        text_laws::pattern_characters(s, p, 0, 0);
    }
}

// ---- pages ----------------------------------------------------------------------------------

/// Each mark in a page gives way to what takes its place, and everything else stays.
pub proof fn marks_give_way(a: Seq<char>, pat: Seq<char>, b: Seq<char>, by: Seq<char>)
    requires
        pat.len() > 0,
        !text::contains(a + pat.drop_last(), pat),
    ensures
        ui::replaced(a + pat + b, pat, by) == a + by + ui::replaced(b, pat, by),
        ui::replaced(a, pat, by) == a,
{
    let s = a + pat + b;
    let n = a.len() as int;
    let front = a + pat.drop_last();
    text_laws::holds_pattern(a, pat, b);
    assert forall|j: int| 0 <= j < n implies !text::occurs_at(s, pat, j) by {
        if text::occurs_at(s, pat, j) {
            assert(s =~= front + (seq![pat.last()] + b));
            text_laws::pattern_moves(front, seq![pat.last()] + b, pat, j);
            assert(text::contains(front, pat));
        }
    }
    text_laws::found_first(s, pat, n);
    assert(s.take(n) =~= a);
    assert(s.skip(n + pat.len()) =~= b);
    text::find_is_first(a, pat);
    match text::find(a, pat) {
        Some(j) => {
            text_laws::pattern_moves(a, pat.drop_last(), pat, j);
            assert(text::contains(front, pat));
        },
        None => {},
    }
}

/// The first page gets its script with the version before it.
pub proof fn script_knows_the_version(js: Seq<char>, version: Seq<char>)
    ensures
        ui::page_script(js, version) == "var dshVersion='"@ + version + "';"@ + js,
        ui::SCRIPT_MARK@ == "/*__APP_JS__*/"@,
{
}

} // verus!
