//! What the window does: scripts for its page, and what an event or a message leads to.

use crate::event::{EventView, UserEvent};
use crate::number;
use crate::release;
use crate::text;
use crate::ui;
use vstd::prelude::*;
use vstd::string::*;

verus! {

// ---- the bar that shows an update -----------------------------------------------------------

/// The script that shows the bar, up to its text.
pub const BAR_OPEN: &'static str =
    "(function(){try{var b=document.getElementById('dshUpdBar');\
     if(!b){b=document.createElement('div');b.id='dshUpdBar';\
     b.style.cssText='position:fixed;top:0;left:0;right:0;z-index:2147483647;\
     background:#1a1f2e;border-bottom:1px solid #2a3242;padding:10px 20px;display:flex;\
     align-items:center;gap:12px;font:13px -apple-system,BlinkMacSystemFont,sans-serif;\
     color:#e6e6e6;box-shadow:0 2px 8px rgba(0,0,0,.35);';b.innerHTML='<span \
     id=\"dshUpdText\"></span><div style=\"flex:1;height:6px;background:#2a3242;\
     border-radius:3px;overflow:hidden;\"><div id=\"dshUpdFill\" style=\"height:100%;\
     width:0%;background:linear-gradient(90deg,#4f8cff,#7ee0a0);transition:width .2s;\">\
     </div></div><span id=\"dshUpdPct\" style=\"min-width:44px;text-align:right;\">\
     </span>';(document.body||document.documentElement).appendChild(b);\
     }document.getElementById('dshUpdText').textContent=";

/// Behind the text of the bar, up to how full it is.
pub const BAR_FILL: &'static str =
    ";document.getElementById('dshUpdFill').style.width='";

/// Behind how full the bar is, up to the percentage.
pub const BAR_PCT: &'static str =
    "%';document.getElementById('dshUpdPct').textContent='";

/// Behind the percentage.
pub const BAR_END: &'static str =
    "';}catch(e){}})();";

/// The script that removes the bar.
pub const BAR_HIDE: &'static str =
    "(function(){try{var b=document.getElementById('dshUpdBar');if(b)b.remove();\
     }catch(e){}})();";

/// The script that tells in the bar that an update is installed, up to its text.
pub const DONE_OPEN: &'static str =
    "(function(){try{var b=document.getElementById('dshUpdBar');\
     if(!b){b=document.createElement('div');b.id='dshUpdBar';\
     b.style.cssText='position:fixed;top:0;left:0;right:0;z-index:2147483647;\
     background:#1a2332;border-bottom:1px solid #2f7d4f;padding:10px 20px;display:flex;\
     align-items:center;gap:12px;font:13px -apple-system,BlinkMacSystemFont,sans-serif;\
     color:#e6e6e6;box-shadow:0 2px 8px rgba(0,0,0,.35);';\
     (document.body||document.documentElement).appendChild(b);}b.innerHTML='<span \
     id=\"dshUpdDoneText\" style=\"flex:1;\"></span><button id=\"dshUpdRestart\" \
     style=\"flex:0 0 auto;cursor:pointer;border:none;background:#4f8cff;color:#fff;\
     border-radius:6px;padding:4px 14px;font:13px -apple-system,BlinkMacSystemFont,\
     sans-serif;\">立即重启</button><button id=\"dshUpdLater\" style=\"flex:0 0 auto;\
     cursor:pointer;background:transparent;color:#8b93a3;border:1px solid #3a4252;\
     border-radius:6px;padding:4px 14px;font:13px -apple-system,BlinkMacSystemFont,\
     sans-serif;\">稍后</button>';document.getElementById('dshUpdDoneText').textContent=";

/// Behind the text that an update is installed.
pub const DONE_END: &'static str =
    ";\
     document.getElementById('dshUpdRestart').onclick=function(){try{window.ipc.postMessage('RESTART_APP');\
     }catch(e){}};\
     document.getElementById('dshUpdLater').onclick=function(){try{b.remove();\
     }catch(e){}};}catch(e){}})();";

/// The script that shows a note in the page of the service, up to its text.
pub const TOAST_OPEN: &'static str =
    "(function(){try{var d=document.createElement('div');d.textContent=";

/// Behind the text of the note.
pub const TOAST_END: &'static str =
    ";d.style.cssText='position:fixed;top:16px;right:16px;z-index:2147483647;\
     max-width:420px;background:#1a2332;color:#7ee0a0;border:1px solid #3a4252;\
     border-radius:8px;padding:10px 16px;font:13px -apple-system,sans-serif;box-shadow:0 \
     4px 12px rgba(0,0,0,.4);';document.body.appendChild(d);\
     setTimeout(function(){d.style.opacity='0';d.style.transition='opacity .4s';},8000);\
     setTimeout(function(){d.remove();},8500);}catch(e){}})();";

/// What the bar says.
pub open spec fn bar_text(installing: bool) -> Seq<char> {
    if installing {
        "正在安装更新…"@
    } else {
        "正在下载更新…"@
    }
}

/// How far the bar has come: all the way while an update is installed.
pub open spec fn bar_pct(pct: u8, installing: bool) -> nat {
    if installing {
        100
    } else {
        pct as nat
    }
}

/// The script that shows the bar.
pub open spec fn bar_script(pct: u8, installing: bool) -> Seq<char> {
    BAR_OPEN@ + ui::js_arg(bar_text(installing)) + BAR_FILL@ + number::decimal(
        bar_pct(pct, installing),
    ) + BAR_PCT@ + number::decimal(bar_pct(pct, installing)) + "%"@ + BAR_END@
}

/// Writes the script that shows the bar.
pub fn update_bar_show_js(pct: u8, installing: bool) -> (r: String)
    ensures
        r@ == bar_script(pct, installing),
{
    let t = ui::js_string_arg(
        if installing {
            "正在安装更新…"
        } else {
            "正在下载更新…"
        },
    );
    let n = number::decimal_text(
        if installing {
            100
        } else {
            pct as u64
        },
    );
    let mut out = String::from_str(BAR_OPEN);
    out.append(t.as_str());
    out.append(BAR_FILL);
    out.append(n.as_str());
    out.append(BAR_PCT);
    out.append(n.as_str());
    out.append("%");
    out.append(BAR_END);
    out
}

/// Writes the script that removes the bar.
pub fn update_bar_hide_js() -> (r: String)
    ensures
        r@ == BAR_HIDE@,
{
    String::from_str(BAR_HIDE)
}

/// The script that tells in the bar that an update is installed.
pub open spec fn done_script(tag: Seq<char>) -> Seq<char> {
    DONE_OPEN@ + ui::js_arg(
        "✓ 已升级到 v"@ + release::bare_tag(tag) + "，重启应用完成更新"@,
    ) + DONE_END@
}

/// Writes the script that tells in the bar that an update is installed.
pub fn update_bar_complete_js(tag: &str) -> (r: String)
    ensures
        r@ == done_script(tag@),
{
    let ver = release::strip_tag(tag);
    let mut said = String::from_str("✓ 已升级到 v");
    said.append(ver.as_str());
    said.append("，重启应用完成更新");
    let t = ui::js_string_arg(said.as_str());
    let mut out = String::from_str(DONE_OPEN);
    out.append(t.as_str());
    out.append(DONE_END);
    out
}

// ---- events ---------------------------------------------------------------------------------

/// Something for the window to do.
pub enum Command {
    /// Run a script in the page.
    Script(String),
    /// Go to an address; where that fails, run the script.
    Load { url: String, fallback: String },
    /// Show a note of the system.
    Notify(String),
    /// Check for an update.
    Check,
    /// Update to the release with this tag.
    Apply(String),
    /// Show the help window.
    Help,
}

/// A [`Command`] with its texts as sequences of characters.
#[verifier::ext_equal]
pub enum CommandView {
    Script(Seq<char>),
    Load { url: Seq<char>, fallback: Seq<char> },
    Notify(Seq<char>),
    Check,
    Apply(Seq<char>),
    Help,
}

impl View for Command {
    type V = CommandView;

    open spec fn view(&self) -> CommandView {
        match self {
            Command::Script(s) => CommandView::Script(s@),
            Command::Load { url, fallback } => CommandView::Load {
                url: url@,
                fallback: fallback@,
            },
            Command::Notify(s) => CommandView::Notify(s@),
            Command::Check => CommandView::Check,
            Command::Apply(s) => CommandView::Apply(s@),
            Command::Help => CommandView::Help,
        }
    }
}

/// Commands with their texts as sequences of characters.
pub open spec fn commands(v: Seq<Command>) -> Seq<CommandView> {
    Seq::new(v.len(), |i: int| v[i]@)
}

/// A script that calls a function of the page with a text.
pub open spec fn call(name: Seq<char>, arg: Seq<char>) -> CommandView {
    CommandView::Script(name + "("@ + ui::js_arg(arg) + ")"@)
}

/// A script that runs whatever the page is.
pub open spec fn run(script: Seq<char>) -> CommandView {
    CommandView::Script(script)
}

/// A short note: one of the system on macOS, else one of the page.
pub open spec fn note(mac: bool, said: Seq<char>, script: Seq<char>) -> CommandView {
    if mac {
        CommandView::Notify(said)
    } else {
        CommandView::Script(script)
    }
}

/// What an event leads to. `at_service` tells whether the page is that of the service, where the
/// scripts of the first page are gone; `mac` tells the platform.
pub open spec fn reaction(e: EventView, at_service: bool, mac: bool) -> Seq<CommandView> {
    match e {
        EventView::Checklist(s) => seq![call("setChecklist"@, s)],
        EventView::Stage(s) => seq![call("setStage"@, s)],
        EventView::Sub(s) => seq![call("setSub"@, s)],
        EventView::Status(s) => seq![call("setStatus"@, s)],
        EventView::Progress(p) => seq![
            run("showProgress(true); setProgress("@ + number::decimal(p as nat) + ");"@),
        ],
        EventView::EnterTerminal => seq![run("showTerminal()"@)],
        EventView::Term(s) => seq![call("appendTerm"@, s)],
        EventView::Prompt(s) => seq![call("showPrompt"@, s)],
        EventView::TermDone(s) => seq![call("appendTerm"@, "\r\n["@ + s + "]\r\n"@)],
        EventView::ServerReady(url) => seq![
            CommandView::Load { url, fallback: "window.location.href = '"@ + url + "';"@ },
        ],
        EventView::Fatal(s) => seq![call("showFatal"@, s)],
        EventView::Diagnosis(payload) => seq![run("showDiagnosis("@ + payload + ")"@)],
        EventView::RecoveredToast(s) => seq![run(TOAST_OPEN@ + ui::js_arg(s) + TOAST_END@)],
        EventView::CheckUpdate => seq![
            run("setUpdateBtn('检查中…', true)"@),
            CommandView::Check,
        ],
        EventView::ShowHelp => seq![CommandView::Help],
        EventView::UpdateAvailable(tag, notes) => {
            let asked = "setUpdateBtn('检查更新', false)"@;
            if at_service {
                seq![
                    run(bar_script(0, false)),
                    note(
                        mac,
                        "发现新版本 "@ + tag + "，正在后台下载更新…"@,
                        "if (typeof showUpdateToast === 'function') showUpdateToast('发现新版本 "@
                            + tag + "，正在后台下载更新…')"@,
                    ),
                    CommandView::Apply(tag),
                    run(asked),
                ]
            } else {
                seq![
                    run(
                        "if (typeof showUpdateDialog === 'function') showUpdateDialog("@
                            + ui::js_arg(tag) + ", "@ + ui::js_arg(notes) + ")"@,
                    ),
                    run(asked),
                ]
            }
        },
        EventView::UpdateProgress(p) => {
            let first = run(
                "if (typeof showUpdateProgress === 'function') showUpdateProgress("@
                    + number::decimal(p as nat) + ");"@,
            );
            if at_service {
                seq![first, run(bar_script(p, p >= 100))]
            } else {
                seq![first]
            }
        },
        EventView::UpdateDone(tag) => if tag.len() == 0 {
            seq![note(mac, "已是最新版本"@, "showUpdateToast('已是最新版本')"@)]
        } else if at_service {
            seq![run(done_script(tag))]
        } else {
            seq![
                run(
                    "if (typeof showUpdateComplete === 'function') showUpdateComplete("@
                        + ui::js_arg(tag) + ")"@,
                ),
                run("setUpdateBtn('重启更新', false)"@),
            ]
        },
        EventView::UpdateFailed(s) => seq![
            note(
                mac,
                s,
                "if (typeof showUpdateToast === 'function') showUpdateToast("@ + ui::js_arg(s)
                    + ")"@,
            ),
            run("if (typeof hideUpdateProgress === 'function') hideUpdateProgress();"@),
            run(BAR_HIDE@),
        ],
    }
}

/// Whether the page is that of the service after an event.
pub open spec fn at_service_after(e: EventView, at_service: bool) -> bool {
    at_service || e is ServerReady
}

fn put(out: &mut Vec<Command>, c: Command)
    ensures
        commands(final(out)@) == commands(old(out)@).push(c@),
{
    out.push(c);
    assert(commands(out@) =~= commands(old(out)@).push(c@));
}

fn script(s: &str) -> (r: Command)
    ensures
        r@ == run(s@),
{
    Command::Script(String::from_str(s))
}

fn script3(a: &str, b: &str, c: &str) -> (r: Command)
    ensures
        r@ == run(a@ + b@ + c@),
{
    let mut s = String::from_str(a);
    s.append(b);
    s.append(c);
    Command::Script(s)
}

fn make_call(name: &str, arg: &str) -> (r: Command)
    ensures
        r@ == call(name@, arg@),
{
    let a = ui::js_string_arg(arg);
    let mut s = String::from_str(name);
    s.append("(");
    s.append(a.as_str());
    s.append(")");
    Command::Script(s)
}

fn make_note(mac: bool, said: &str, otherwise: &str) -> (r: Command)
    ensures
        r@ == note(mac, said@, otherwise@),
{
    if mac {
        Command::Notify(String::from_str(said))
    } else {
        Command::Script(String::from_str(otherwise))
    }
}

fn on_available(out: &mut Vec<Command>, tag: &str, notes: &str, at_service: bool, mac: bool)
    ensures
        commands(final(out)@) == commands(old(out)@) + reaction(
            EventView::UpdateAvailable(tag@, notes@),
            at_service,
            mac,
        ),
{
    if at_service {
        put(out, Command::Script(update_bar_show_js(0, false)));
        let mut said = String::from_str("发现新版本 ");
        said.append(tag);
        said.append("，正在后台下载更新…");
        let mut otherwise = String::from_str(
            "if (typeof showUpdateToast === 'function') showUpdateToast('发现新版本 ",
        );
        otherwise.append(tag);
        otherwise.append("，正在后台下载更新…')");
        put(out, make_note(mac, said.as_str(), otherwise.as_str()));
        put(out, Command::Apply(String::from_str(tag)));
    } else {
        let a = ui::js_string_arg(tag);
        let b = ui::js_string_arg(notes);
        let mut s = String::from_str(
            "if (typeof showUpdateDialog === 'function') showUpdateDialog(",
        );
        s.append(a.as_str());
        s.append(", ");
        s.append(b.as_str());
        s.append(")");
        put(out, Command::Script(s));
    }
    put(out, script("setUpdateBtn('检查更新', false)"));
    assert(commands(out@) =~= commands(old(out)@) + reaction(
        EventView::UpdateAvailable(tag@, notes@),
        at_service,
        mac,
    ));
}

fn on_progress(out: &mut Vec<Command>, p: u8, at_service: bool, mac: bool)
    ensures
        commands(final(out)@) == commands(old(out)@) + reaction(
            EventView::UpdateProgress(p),
            at_service,
            mac,
        ),
{
    let n = number::decimal_text(p as u64);
    put(
        out,
        script3(
            "if (typeof showUpdateProgress === 'function') showUpdateProgress(",
            n.as_str(),
            ");",
        ),
    );
    if at_service {
        put(out, Command::Script(update_bar_show_js(p, p >= 100)));
    }
    assert(commands(out@) =~= commands(old(out)@) + reaction(
        EventView::UpdateProgress(p),
        at_service,
        mac,
    ));
}

fn on_done(out: &mut Vec<Command>, tag: &str, at_service: bool, mac: bool)
    ensures
        commands(final(out)@) == commands(old(out)@) + reaction(
            EventView::UpdateDone(tag@),
            at_service,
            mac,
        ),
{
    if tag.unicode_len() == 0 {
        put(out, make_note(mac, "已是最新版本", "showUpdateToast('已是最新版本')"));
    } else if at_service {
        put(out, Command::Script(update_bar_complete_js(tag)));
    } else {
        let a = ui::js_string_arg(tag);
        put(
            out,
            script3(
                "if (typeof showUpdateComplete === 'function') showUpdateComplete(",
                a.as_str(),
                ")",
            ),
        );
        put(out, script("setUpdateBtn('重启更新', false)"));
    }
    assert(commands(out@) =~= commands(old(out)@) + reaction(
        EventView::UpdateDone(tag@),
        at_service,
        mac,
    ));
}

fn on_failed(out: &mut Vec<Command>, said: &str, at_service: bool, mac: bool)
    ensures
        commands(final(out)@) == commands(old(out)@) + reaction(
            EventView::UpdateFailed(said@),
            at_service,
            mac,
        ),
{
    let a = ui::js_string_arg(said);
    let mut otherwise = String::from_str(
        "if (typeof showUpdateToast === 'function') showUpdateToast(",
    );
    otherwise.append(a.as_str());
    otherwise.append(")");
    put(out, make_note(mac, said, otherwise.as_str()));
    put(out, script("if (typeof hideUpdateProgress === 'function') hideUpdateProgress();"));
    put(out, Command::Script(update_bar_hide_js()));
    assert(commands(out@) =~= commands(old(out)@) + reaction(
        EventView::UpdateFailed(said@),
        at_service,
        mac,
    ));
}

/// What the window shows, as far as events depend on it.
#[derive(Clone, Copy, Debug, PartialEq, Eq, Structural)]
pub struct Window {
    /// Whether the page is that of the service.
    pub at_service: bool,
    /// Whether the platform is macOS.
    pub mac: bool,
}

impl Window {
    /// A window with the first page.
    pub fn new(mac: bool) -> (r: Window)
        ensures
            r == (Window { at_service: false, mac }),
    {
        Window { at_service: false, mac }
    }

    /// Reacts to an event.
    pub fn on_event(&mut self, e: &UserEvent) -> (r: Vec<Command>)
        ensures
            commands(r@) == reaction(e@, old(self).at_service, old(self).mac),
            *final(self) == (Window {
                at_service: at_service_after(e@, old(self).at_service),
                mac: old(self).mac,
            }),
    {
        let at = self.at_service;
        let mac = self.mac;
        let mut out: Vec<Command> = Vec::new();
        assert(commands(out@) =~= Seq::<CommandView>::empty());
        match e {
            UserEvent::Checklist(s) => {
                put(&mut out, make_call("setChecklist", s.as_str()));
            },
            UserEvent::Stage(s) => {
                put(&mut out, make_call("setStage", s.as_str()));
            },
            UserEvent::Sub(s) => {
                put(&mut out, make_call("setSub", s.as_str()));
            },
            UserEvent::Status(s) => {
                put(&mut out, make_call("setStatus", s.as_str()));
            },
            UserEvent::Progress(p) => {
                let n = number::decimal_text(*p as u64);
                put(&mut out, script3("showProgress(true); setProgress(", n.as_str(), ");"));
            },
            UserEvent::EnterTerminal => {
                put(&mut out, script("showTerminal()"));
            },
            UserEvent::Term(s) => {
                put(&mut out, make_call("appendTerm", s.as_str()));
            },
            UserEvent::Prompt(s) => {
                put(&mut out, make_call("showPrompt", s.as_str()));
            },
            UserEvent::TermDone(s) => {
                let mut line = String::from_str("\r\n[");
                line.append(s.as_str());
                line.append("]\r\n");
                put(&mut out, make_call("appendTerm", line.as_str()));
            },
            UserEvent::ServerReady(url) => {
                self.at_service = true;
                let mut fallback = String::from_str("window.location.href = '");
                fallback.append(url.as_str());
                fallback.append("';");
                put(
                    &mut out,
                    Command::Load { url: String::from_str(url.as_str()), fallback },
                );
            },
            UserEvent::Fatal(s) => {
                put(&mut out, make_call("showFatal", s.as_str()));
            },
            UserEvent::Diagnosis(payload) => {
                put(&mut out, script3("showDiagnosis(", payload.as_str(), ")"));
            },
            UserEvent::RecoveredToast(s) => {
                let a = ui::js_string_arg(s.as_str());
                put(&mut out, script3(TOAST_OPEN, a.as_str(), TOAST_END));
            },
            UserEvent::CheckUpdate => {
                put(&mut out, script("setUpdateBtn('检查中…', true)"));
                put(&mut out, Command::Check);
            },
            UserEvent::ShowHelp => {
                put(&mut out, Command::Help);
            },
            UserEvent::UpdateAvailable(tag, notes) => {
                on_available(&mut out, tag.as_str(), notes.as_str(), at, mac);
            },
            UserEvent::UpdateProgress(p) => {
                on_progress(&mut out, *p, at, mac);
            },
            UserEvent::UpdateDone(tag) => {
                on_done(&mut out, tag.as_str(), at, mac);
            },
            UserEvent::UpdateFailed(s) => {
                on_failed(&mut out, s.as_str(), at, mac);
            },
        }
        assert(commands(out@) =~= reaction(e@, at, mac));
        out
    }
}

// ---- messages of the page -------------------------------------------------------------------

/// A message of the page.
pub enum Message {
    /// The user typed this into the terminal.
    Input(String),
    /// The user asks for an update check.
    CheckUpdate,
    /// The user agrees to the update with this tag.
    ApplyUpdate(String),
    /// The user asks for a restart.
    Restart,
    /// Anything else, which is ignored.
    Other,
}

/// A [`Message`] with its texts as sequences of characters.
#[verifier::ext_equal]
pub enum MessageView {
    Input(Seq<char>),
    CheckUpdate,
    ApplyUpdate(Seq<char>),
    Restart,
    Other,
}

impl View for Message {
    type V = MessageView;

    open spec fn view(&self) -> MessageView {
        match self {
            Message::Input(s) => MessageView::Input(s@),
            Message::CheckUpdate => MessageView::CheckUpdate,
            Message::ApplyUpdate(s) => MessageView::ApplyUpdate(s@),
            Message::Restart => MessageView::Restart,
            Message::Other => MessageView::Other,
        }
    }
}

/// What a message of the page says.
pub open spec fn message_of(s: Seq<char>) -> MessageView {
    match text::after_prefix(s, "IN:"@) {
        Some(d) => MessageView::Input(d),
        None => if s == "CHECK_UPDATE"@ {
            MessageView::CheckUpdate
        } else {
            match text::after_prefix(s, "APPLY_UPDATE:"@) {
                Some(tag) => MessageView::ApplyUpdate(tag),
                None => if s == "RESTART_APP"@ {
                    MessageView::Restart
                } else {
                    MessageView::Other
                },
            }
        },
    }
}

/// Reads a message of the page.
pub fn read_message(s: &str) -> (r: Message)
    ensures
        r@ == message_of(s@),
{
    let cs = text::to_chars(s);
    match text::cut_prefix(cs.as_slice(), "IN:") {
        Some(d) => Message::Input(text::to_text(d)),
        None => {
            if text::same_text(s, "CHECK_UPDATE") {
                return Message::CheckUpdate;
            }
            match text::cut_prefix(cs.as_slice(), "APPLY_UPDATE:") {
                Some(tag) => Message::ApplyUpdate(text::to_text(tag)),
                None => if text::same_text(s, "RESTART_APP") {
                    Message::Restart
                } else {
                    Message::Other
                },
            }
        },
    }
}

// ---- laws -----------------------------------------------------------------------------------

/// Once the page is that of the service it stays so, and an update is applied without a question
/// only there.
pub proof fn updates_are_asked_for_on_the_first_page(e: EventView, at_service: bool, mac: bool)
    ensures
        at_service ==> at_service_after(e, at_service),
        !at_service ==> forall|i: int|
            0 <= i < reaction(e, at_service, mac).len() ==> !(#[trigger] reaction(
                e,
                at_service,
                mac,
            )[i] is Apply),
{
}

} // verus!
