//! Recovery of a launch that failed: disable the plugins that made it fail and try again, then try
//! without third-party plugins, then give up.

use crate::diagnose;
use crate::diagnose::{DisableEntry, EntryView};
use crate::event;
use crate::event::{EventView, UserEvent};
use crate::json;
use crate::number;
use crate::patch;
use crate::terminal::LaunchOutcome;
use crate::text;
use vstd::prelude::*;
use vstd::string::*;

verus! {

/// How often plugins are disabled before a new launch, at most.
pub const MAX_TARGETED_ROUNDS: usize = 2;

/// How many plain lines of output an attempt keeps for a diagnosis.
pub const TAIL_LINES: usize = 600;

// ---- reports --------------------------------------------------------------------------------

/// An entry in JSON.
pub open spec fn entry_json(e: EntryView) -> Seq<char> {
    "{\"id\":\""@ + json::escape(e.id, false) + "\",\"module\":\""@ + json::escape(e.module, false)
        + "\",\"reason\":\""@ + json::escape(e.reason, false) + "\"}"@
}

/// Entries in JSON, each on its own.
pub open spec fn entries_json(v: Seq<EntryView>) -> Seq<Seq<char>> {
    Seq::new(v.len(), |i: int| entry_json(v[i]))
}

/// A report on a launch in JSON.
pub open spec fn report(
    action: Seq<char>,
    attempt: nat,
    v: Seq<EntryView>,
    note: Seq<char>,
) -> Seq<char> {
    "{\"action\":\""@ + json::escape(action, false) + "\",\"attempt\":"@ + number::decimal(attempt)
        + ",\"plugins\":["@ + text::join(entries_json(v), ","@) + "],\"note\":\""@ + json::escape(
        note,
        false,
    ) + "\"}"@
}

fn make_entry_json(e: &DisableEntry) -> (r: String)
    ensures
        r@ == entry_json(e@),
{
    let id = json::json_escape(e.id.as_str());
    let module = json::json_escape(e.module.as_str());
    let reason = json::json_escape(e.reason.as_str());
    let mut out = String::from_str("{\"id\":\"");
    out.append(id.as_str());
    out.append("\",\"module\":\"");
    out.append(module.as_str());
    out.append("\",\"reason\":\"");
    out.append(reason.as_str());
    out.append("\"}");
    out
}

/// Writes a report on a launch.
pub fn diag_json(action: &str, attempt: usize, entries: &[DisableEntry], note: &str) -> (r: String)
    ensures
        r@ == report(action@, attempt as nat, diagnose::entries(entries@), note@),
{
    let ghost all = entries_json(diagnose::entries(entries@));
    let mut items: Vec<String> = Vec::new();
    let mut i: usize = 0;
    assert(text::texts(items@) =~= all.take(0));
    while i < entries.len()
        invariant
            i <= entries@.len(),
            all == entries_json(diagnose::entries(entries@)),
            text::texts(items@) == all.take(i as int),
        decreases entries@.len() - i,
    {
        let ghost before = text::texts(items@);
        items.push(make_entry_json(&entries[i]));
        assert(text::texts(items@) =~= before.push(all[i as int]));
        i += 1;
        assert(all.take(i as int) =~= all.take(i - 1).push(all[i - 1]));
    }
    assert(all.take(i as int) =~= all);
    let list = text::join_strings(items.as_slice(), ",");
    let a = json::json_escape(action);
    let n = number::decimal_text(attempt as u64);
    let b = json::json_escape(note);
    let mut out = String::from_str("{\"action\":\"");
    out.append(a.as_str());
    out.append("\",\"attempt\":");
    out.append(n.as_str());
    out.append(",\"plugins\":[");
    out.append(list.as_str());
    out.append("],\"note\":\"");
    out.append(b.as_str());
    out.append("\"}");
    out
}

// ---- the state between launches -------------------------------------------------------------

/// How far recovery has come.
pub struct Recovery {
    /// The plugins that were disabled so far.
    pub disabled: Vec<DisableEntry>,
    /// How often plugins were to be disabled.
    pub targeted_rounds: usize,
    /// Whether launches go without third-party plugins.
    pub safe_mode: bool,
    /// How many launches there were, the running one included.
    pub attempt: usize,
}

/// A [`Recovery`] as a mathematical value.
#[verifier::ext_equal]
pub struct RecoveryView {
    pub disabled: Seq<EntryView>,
    pub targeted_rounds: usize,
    pub safe_mode: bool,
    pub attempt: usize,
}

impl View for Recovery {
    type V = RecoveryView;

    open spec fn view(&self) -> RecoveryView {
        RecoveryView {
            disabled: diagnose::entries(self.disabled@),
            targeted_rounds: self.targeted_rounds,
            safe_mode: self.safe_mode,
            attempt: self.attempt,
        }
    }
}

impl RecoveryView {
    /// How many launches the state accounts for beyond the first.
    pub open spec fn retries(self) -> int {
        self.targeted_rounds + if self.safe_mode {
            1int
        } else {
            0int
        }
    }

    /// Whether a launch may come next: each one after the first has been paid for with a round of
    /// disabled plugins or with safe mode.
    pub open spec fn may_launch(self) -> bool {
        self.targeted_rounds <= MAX_TARGETED_ROUNDS && self.attempt <= self.retries()
    }

    /// Whether a launch is running or has just ended.
    pub open spec fn has_launched(self) -> bool {
        self.targeted_rounds <= MAX_TARGETED_ROUNDS && 1 <= self.attempt <= self.retries() + 1
    }
}

/// The arguments that a launch gets on top.
pub open spec fn extra_args(v: RecoveryView, overlay: Seq<char>) -> Seq<Seq<char>> {
    if v.safe_mode {
        seq!["--patch"@, overlay]
    } else {
        Seq::empty()
    }
}

/// What is said in a report on a launch that succeeded after all.
pub const RECOVERED_NOTE: &'static str =
    "应用已恢复启动。被禁用的插件列表如下，恢复方法见横幅底部说明。";

/// What is said where the user works in the terminal.
pub const USER_BUSY: &'static str =
    "命令长时间未就绪，但看起来你正在终端中操作，已停止自动修复以免打断。处理完毕后可重启应用重试。";

/// What is said in a report on plugins that were disabled.
pub const RETRY_NOTE: &'static str = "已自动禁用上述插件并重新启动，请稍候…";

/// What is said in a report on safe mode.
pub const SAFE_MODE_NOTE: &'static str =
    "未能定位具体故障插件，已停用所有第三方插件（安全模式）并重试。";

/// What is said where recovery found nothing to do.
pub const NO_HINT: &'static str =
    "多次启动失败且未能定位故障插件。请查看上方终端输出，或删除 ~/.dsh/profiles/web 后重启应用重建 profile。";

/// Whether recovery changed anything.
pub open spec fn has_intervened(v: RecoveryView) -> bool {
    v.disabled.len() > 0 || v.safe_mode
}

/// What is shown in the page of the service after recovery.
pub open spec fn toast(v: RecoveryView) -> Seq<char> {
    let names = patch::entry_ids(v.disabled);
    if names.len() == 0 {
        "dsh 已在安全模式下启动（第三方插件已停用）"@
    } else {
        "已自动禁用故障插件 "@ + text::join(names, ", "@)
            + "，恢复方法见 ~/.dsh/profiles/web/cordis.patch.yml"@
    }
}

/// What to do when a launch has ended.
pub enum AfterLaunch {
    /// Recovery is over. The note, if any, is for the page of the service, a little later.
    Over { events: Vec<UserEvent>, toast: Option<String> },
    /// Diagnose the failure; with `kill`, end the process first.
    Diagnose { kill: bool },
}

/// An [`AfterLaunch`] as a mathematical value.
#[verifier::ext_equal]
pub enum AfterLaunchView {
    Over { events: Seq<EventView>, toast: Option<Seq<char>> },
    Diagnose { kill: bool },
}

impl View for AfterLaunch {
    type V = AfterLaunchView;

    open spec fn view(&self) -> AfterLaunchView {
        match self {
            AfterLaunch::Over { events, toast } => AfterLaunchView::Over {
                events: event::events(events@),
                toast: text::opt_text(*toast),
            },
            AfterLaunch::Diagnose { kill } => AfterLaunchView::Diagnose { kill: *kill },
        }
    }
}

/// What follows a launch with this outcome; `took_over` tells whether the user works in the
/// terminal.
pub open spec fn after_launch(
    v: RecoveryView,
    outcome: LaunchOutcome,
    took_over: bool,
) -> AfterLaunchView {
    match outcome {
        LaunchOutcome::Ready => if has_intervened(v) {
            AfterLaunchView::Over {
                events: seq![
                    EventView::Diagnosis(
                        report("recovered"@, v.attempt as nat, v.disabled, RECOVERED_NOTE@),
                    ),
                ],
                toast: Some(toast(v)),
            }
        } else {
            AfterLaunchView::Over { events: Seq::empty(), toast: None }
        },
        LaunchOutcome::Abort => AfterLaunchView::Over { events: Seq::empty(), toast: None },
        LaunchOutcome::Failed { crashed } => if !crashed && took_over {
            AfterLaunchView::Over { events: seq![EventView::Fatal(USER_BUSY@)], toast: None }
        } else {
            AfterLaunchView::Diagnose { kill: !crashed }
        },
    }
}

/// What is shown when a launch has failed.
pub open spec fn failure_line(attempt: nat, crashed: bool) -> Seq<char> {
    "\r\n\r\n[dsh-desktop] ─── 第 "@ + number::decimal(attempt) + " 次启动失败（"@ + (if crashed {
        "进程异常退出"@
    } else {
        "超时未就绪"@
    }) + "）───\r\n"@
}

/// The entries that were not disabled before.
pub open spec fn not_yet(v: Seq<EntryView>, disabled: Seq<EntryView>) -> Seq<EntryView>
    decreases v.len(),
{
    if v.len() == 0 {
        Seq::empty()
    } else if diagnose::has_entry(disabled, v.last().id) {
        not_yet(v.drop_last(), disabled)
    } else {
        not_yet(v.drop_last(), disabled).push(v.last())
    }
}

/// What to do about a failure.
pub enum Remedy {
    /// Disable these plugins.
    Disable(Vec<DisableEntry>),
    /// Go without third-party plugins.
    SafeMode,
}

/// A [`Remedy`] as a mathematical value.
#[verifier::ext_equal]
pub enum RemedyView {
    Disable(Seq<EntryView>),
    SafeMode,
}

impl View for Remedy {
    type V = RemedyView;

    open spec fn view(&self) -> RemedyView {
        match self {
            Remedy::Disable(v) => RemedyView::Disable(diagnose::entries(v@)),
            Remedy::SafeMode => RemedyView::SafeMode,
        }
    }
}

/// The state and the remedy after a diagnosis found `found`. Safe mode is the last resort: plugins
/// are disabled one by one only before it.
pub open spec fn after_diagnosis(
    v: RecoveryView,
    found: Seq<EntryView>,
) -> (RecoveryView, RemedyView) {
    let new = not_yet(found, v.disabled);
    if new.len() > 0 && v.targeted_rounds < MAX_TARGETED_ROUNDS && !v.safe_mode {
        (
            RecoveryView { targeted_rounds: (v.targeted_rounds + 1) as usize, ..v },
            RemedyView::Disable(new),
        )
    } else {
        (v, RemedyView::SafeMode)
    }
}

/// The entries whose ids were added to the layer.
pub open spec fn really_added(v: Seq<EntryView>, added: Seq<Seq<char>>) -> Seq<EntryView>
    decreases v.len(),
{
    if v.len() == 0 {
        Seq::empty()
    } else if added.contains(v.last().id) {
        really_added(v.drop_last(), added).push(v.last())
    } else {
        really_added(v.drop_last(), added)
    }
}

/// What is shown for a plugin that was disabled.
pub open spec fn disabled_line(e: EntryView) -> Seq<char> {
    "[dsh-desktop] 已禁用故障插件 "@ + e.id + "（"@ + e.module + "），正在重试…\r\n"@
}

/// What is shown for plugins that were disabled.
pub open spec fn disabled_events(v: Seq<EntryView>) -> Seq<EventView> {
    Seq::new(v.len(), |i: int| EventView::Term(disabled_line(v[i])))
}

/// Whether there is another launch, and what is shown before it.
pub enum Verdict {
    /// Launch again.
    Retry(Vec<UserEvent>),
    /// This remedy came to nothing.
    Nothing,
}

/// A [`Verdict`] as a mathematical value.
#[verifier::ext_equal]
pub enum VerdictView {
    Retry(Seq<EventView>),
    Nothing,
}

impl View for Verdict {
    type V = VerdictView;

    open spec fn view(&self) -> VerdictView {
        match self {
            Verdict::Retry(e) => VerdictView::Retry(event::events(e@)),
            Verdict::Nothing => VerdictView::Nothing,
        }
    }
}

/// The state and the verdict after `added` went into the layer, of the rows for `new`; none if the
/// layer could not be written.
pub open spec fn after_patch(
    v: RecoveryView,
    new: Seq<EntryView>,
    added: Option<Seq<Seq<char>>>,
) -> (RecoveryView, VerdictView) {
    match added {
        Some(ids) => if ids.len() > 0 {
            let now = really_added(new, ids);
            (
                RecoveryView { disabled: v.disabled + now, ..v },
                VerdictView::Retry(
                    disabled_events(now).push(
                        EventView::Diagnosis(
                            report("retry-disabled"@, v.attempt as nat, now, RETRY_NOTE@),
                        ),
                    ),
                ),
            )
        } else {
            (v, VerdictView::Nothing)
        },
        None => (v, VerdictView::Nothing),
    }
}

/// The entries that safe mode reports.
pub open spec fn safe_mode_entries(ids: Seq<Seq<char>>) -> Seq<EntryView> {
    Seq::new(
        ids.len(),
        |i: int|
            EntryView { id: ids[i], module: Seq::empty(), reason: "安全模式：第三方插件"@ },
    )
}

/// The state and the verdict after the overlay for safe mode was written, with rows for `ids`;
/// none if there is no overlay.
pub open spec fn after_overlay(
    v: RecoveryView,
    ids: Option<Seq<Seq<char>>>,
) -> (RecoveryView, VerdictView) {
    match ids {
        Some(ids) => if !v.safe_mode && ids.len() > 0 {
            (
                RecoveryView { safe_mode: true, ..v },
                VerdictView::Retry(
                    seq![
                        EventView::Term(
                            "[dsh-desktop] 进入安全模式：已停用 "@ + number::decimal(ids.len())
                                + " 个第三方插件，正在重试…\r\n"@,
                        ),
                        EventView::Diagnosis(
                            report(
                                "safe-mode"@,
                                v.attempt as nat,
                                safe_mode_entries(ids),
                                SAFE_MODE_NOTE@,
                            ),
                        ),
                    ],
                ),
            )
        } else {
            (v, VerdictView::Nothing)
        },
        None => (v, VerdictView::Nothing),
    }
}

/// What is said when recovery gives up.
pub open spec fn last_hint(v: RecoveryView) -> Seq<char> {
    if has_intervened(v) {
        "自动修复未能恢复启动。已禁用的插件："@ + text::join(patch::entry_ids(v.disabled), ", "@)
            + "。可编辑 ~/.dsh/profiles/web/cordis.patch.yml（删除标记为 dsh-desktop auto-recovery 的条目）恢复插件；也可以删除 ~/.dsh/profiles/web 后重启应用重建 profile。"@
    } else {
        NO_HINT@
    }
}

/// What is shown when recovery gives up.
pub open spec fn last_events(v: RecoveryView) -> Seq<EventView> {
    seq![
        EventView::Diagnosis(report("failed"@, v.attempt as nat, v.disabled, last_hint(v))),
        EventView::Fatal(last_hint(v)),
    ]
}

fn copy_ids(v: &[DisableEntry]) -> (r: Vec<String>)
    ensures
        text::texts(r@) == patch::entry_ids(diagnose::entries(v@)),
{
    let ghost all = patch::entry_ids(diagnose::entries(v@));
    let mut out: Vec<String> = Vec::new();
    let mut i: usize = 0;
    assert(text::texts(out@) =~= all.take(0));
    while i < v.len()
        invariant
            i <= v@.len(),
            all == patch::entry_ids(diagnose::entries(v@)),
            text::texts(out@) == all.take(i as int),
        decreases v@.len() - i,
    {
        text::push_text(&mut out, v[i].id.as_str());
        i += 1;
        assert(all.take(i as int) =~= all.take(i - 1).push(all[i - 1]));
    }
    assert(all.take(i as int) =~= all);
    out
}

impl Recovery {
    /// The state before the first launch.
    pub fn new() -> (r: Recovery)
        ensures
            r@ == (RecoveryView {
                disabled: Seq::empty(),
                targeted_rounds: 0,
                safe_mode: false,
                attempt: 0,
            }),
            r@.may_launch(),
    {
        let r = Recovery {
            disabled: Vec::new(),
            targeted_rounds: 0,
            safe_mode: false,
            attempt: 0,
        };
        assert(r@.disabled =~= Seq::<EntryView>::empty());
        r
    }

    /// Begins a launch and gives the arguments that it gets on top; `overlay` is the place of the
    /// overlay for safe mode.
    pub fn begin(&mut self, overlay: &str) -> (r: Vec<String>)
        requires
            old(self)@.may_launch(),
        ensures
            final(self)@ == (RecoveryView {
                attempt: (old(self)@.attempt + 1) as usize,
                ..old(self)@
            }),
            final(self)@.has_launched(),
            text::texts(r@) == extra_args(old(self)@, overlay@),
    {
        self.attempt = self.attempt + 1;
        let mut out: Vec<String> = Vec::new();
        if self.safe_mode {
            text::push_text(&mut out, "--patch");
            text::push_text(&mut out, overlay);
        }
        assert(text::texts(out@) =~= extra_args(old(self)@, overlay@));
        out
    }

    /// What follows a launch.
    pub fn on_outcome(&self, outcome: LaunchOutcome, took_over: bool) -> (r: AfterLaunch)
        ensures
            r@ == after_launch(self@, outcome, took_over),
    {
        let mut events = event::no_events();
        match outcome {
            LaunchOutcome::Ready => {
                if self.disabled.len() > 0 || self.safe_mode {
                    let payload = diag_json(
                        "recovered",
                        self.attempt,
                        self.disabled.as_slice(),
                        RECOVERED_NOTE,
                    );
                    event::emit(&mut events, UserEvent::Diagnosis(payload));
                    let names = copy_ids(self.disabled.as_slice());
                    let note = if names.len() == 0 {
                        String::from_str("dsh 已在安全模式下启动（第三方插件已停用）")
                    } else {
                        let list = text::join_strings(names.as_slice(), ", ");
                        let mut s = String::from_str("已自动禁用故障插件 ");
                        s.append(list.as_str());
                        s.append("，恢复方法见 ~/.dsh/profiles/web/cordis.patch.yml");
                        s
                    };
                    assert(names@.len() == text::texts(names@).len());
                    assert(note@ == toast(self@));
                    let r = AfterLaunch::Over { events, toast: Some(note) };
                    assert(r@ =~= after_launch(self@, outcome, took_over));
                    return r;
                }
                AfterLaunch::Over { events, toast: None }
            },
            LaunchOutcome::Abort => AfterLaunch::Over { events, toast: None },
            LaunchOutcome::Failed { crashed } => {
                if !crashed && took_over {
                    event::emit(&mut events, event::fatal(USER_BUSY));
                    let r = AfterLaunch::Over { events, toast: None };
                    assert(r@ =~= after_launch(self@, outcome, took_over));
                    return r;
                }
                AfterLaunch::Diagnose { kill: !crashed }
            },
        }
    }

    /// Tells that a launch has failed.
    pub fn failure_events(&self, crashed: bool) -> (r: Vec<UserEvent>)
        ensures
            event::events(r@) == seq![
                EventView::Term(failure_line(self@.attempt as nat, crashed)),
            ],
    {
        let n = number::decimal_text(self.attempt as u64);
        let mut s = String::from_str("\r\n\r\n[dsh-desktop] ─── 第 ");
        s.append(n.as_str());
        s.append(" 次启动失败（");
        s.append(
            if crashed {
                "进程异常退出"
            } else {
                "超时未就绪"
            },
        );
        s.append("）───\r\n");
        let mut events = event::no_events();
        event::emit(&mut events, UserEvent::Term(s));
        assert(event::events(events@) =~= seq![
            EventView::Term(failure_line(self@.attempt as nat, crashed)),
        ]);
        events
    }

    /// Chooses a remedy for a diagnosis.
    pub fn on_diagnosis(&mut self, found: &[DisableEntry]) -> (r: Remedy)
        requires
            old(self)@.has_launched(),
        ensures
            (final(self)@, r@) == after_diagnosis(old(self)@, diagnose::entries(found@)),
            final(self)@.has_launched(),
            r is Disable ==> final(self)@.may_launch(),
    {
        let ghost all = diagnose::entries(found@);
        let ghost was = diagnose::entries(self.disabled@);
        let mut new: Vec<DisableEntry> = Vec::new();
        let mut i: usize = 0;
        assert(diagnose::entries(new@) =~= not_yet(all.take(0), was));
        while i < found.len()
            invariant
                i <= found@.len(),
                *self == *old(self),
                all == diagnose::entries(found@),
                was == diagnose::entries(self.disabled@),
                diagnose::entries(new@) == not_yet(all.take(i as int), was),
            decreases found@.len() - i,
        {
            let ghost before = diagnose::entries(new@);
            proof {
                assert(all.take(i + 1).drop_last() =~= all.take(i as int));
                assert(all.take(i + 1).last() == found@[i as int]@);
            }
            if !diagnose::lists_entry(self.disabled.as_slice(), found[i].id.as_str()) {
                new.push(found[i].clone());
                assert(diagnose::entries(new@) =~= before.push(found@[i as int]@));
            }
            i += 1;
        }
        assert(all.take(i as int) =~= all);
        assert(diagnose::entries(new@).len() == new@.len());
        if new.len() > 0 && self.targeted_rounds < MAX_TARGETED_ROUNDS && !self.safe_mode {
            self.targeted_rounds = self.targeted_rounds + 1;
            Remedy::Disable(new)
        } else {
            Remedy::SafeMode
        }
    }

    /// Goes on after the layer was written, with rows for the ids `added` of the plugins `new`;
    /// none if it could not be written.
    pub fn on_patched(&mut self, new: &[DisableEntry], added: Option<&[String]>) -> (r: Verdict)
        ensures
            (final(self)@, r@) == after_patch(
                old(self)@,
                diagnose::entries(new@),
                match added {
                    Some(ids) => Some(text::texts(ids@)),
                    None => None,
                },
            ),
    {
        match added {
            Some(ids) => {
                assert(text::texts(ids@).len() == ids@.len());
                if ids.len() == 0 {
                    return Verdict::Nothing;
                }
                let mut now = keep_added(new, ids);
                let ghost view = diagnose::entries(now@);
                let mut events = event::no_events();
                let mut i: usize = 0;
                assert(event::events(events@) =~= disabled_events(view).take(0));
                while i < now.len()
                    invariant
                        i <= now@.len(),
                        *self == *old(self),
                        view == diagnose::entries(now@),
                        event::events(events@) == disabled_events(view).take(i as int),
                    decreases now@.len() - i,
                {
                    let mut s = String::from_str("[dsh-desktop] 已禁用故障插件 ");
                    s.append(now[i].id.as_str());
                    s.append("（");
                    s.append(now[i].module.as_str());
                    s.append("），正在重试…\r\n");
                    event::emit(&mut events, UserEvent::Term(s));
                    i += 1;
                    assert(disabled_events(view).take(i as int) =~= disabled_events(view).take(
                        i - 1,
                    ).push(disabled_events(view)[i - 1]));
                }
                assert(disabled_events(view).take(i as int) =~= disabled_events(view));
                let payload = diag_json(
                    "retry-disabled",
                    self.attempt,
                    now.as_slice(),
                    RETRY_NOTE,
                );
                event::emit(&mut events, UserEvent::Diagnosis(payload));
                let ghost was = self.disabled@;
                let ghost more = now@;
                self.disabled.append(&mut now);
                assert(self.disabled@ == was + more);
                assert(diagnose::entries(self.disabled@) =~= diagnose::entries(was) + view);
                Verdict::Retry(events)
            },
            None => Verdict::Nothing,
        }
    }

    /// Goes on after the overlay for safe mode was written, with rows for `ids`; none if there is
    /// no overlay.
    pub fn on_overlay(&mut self, ids: Option<&[String]>) -> (r: Verdict)
        requires
            old(self)@.has_launched(),
        ensures
            (final(self)@, r@) == after_overlay(
                old(self)@,
                match ids {
                    Some(ids) => Some(text::texts(ids@)),
                    None => None,
                },
            ),
            r is Retry ==> final(self)@.may_launch(),
    {
        match ids {
            Some(ids) => {
                assert(text::texts(ids@).len() == ids@.len());
                if self.safe_mode || ids.len() == 0 {
                    return Verdict::Nothing;
                }
                self.safe_mode = true;
                let list = safe_entries(ids);
                let n = number::decimal_text(ids.len() as u64);
                let mut s = String::from_str("[dsh-desktop] 进入安全模式：已停用 ");
                s.append(n.as_str());
                s.append(" 个第三方插件，正在重试…\r\n");
                let payload = diag_json("safe-mode", self.attempt, list.as_slice(), SAFE_MODE_NOTE);
                let mut events = event::no_events();
                event::emit(&mut events, UserEvent::Term(s));
                event::emit(&mut events, UserEvent::Diagnosis(payload));
                let ghost want = after_overlay(old(self)@, Some(text::texts(ids@)));
                assert(want.1 is Retry);
                assert(event::events(events@) =~= want.1->Retry_0);
                Verdict::Retry(events)
            },
            None => Verdict::Nothing,
        }
    }

    /// Gives up.
    pub fn give_up(&self) -> (r: Vec<UserEvent>)
        ensures
            event::events(r@) == last_events(self@),
    {
        let hint = if self.disabled.len() > 0 || self.safe_mode {
            let names = copy_ids(self.disabled.as_slice());
            let list = text::join_strings(names.as_slice(), ", ");
            let mut s = String::from_str("自动修复未能恢复启动。已禁用的插件：");
            s.append(list.as_str());
            s.append(
                "。可编辑 ~/.dsh/profiles/web/cordis.patch.yml（删除标记为 dsh-desktop auto-recovery 的条目）恢复插件；也可以删除 ~/.dsh/profiles/web 后重启应用重建 profile。",
            );
            s
        } else {
            String::from_str(NO_HINT)
        };
        assert(hint@ == last_hint(self@));
        let payload = diag_json("failed", self.attempt, self.disabled.as_slice(), hint.as_str());
        let mut events = event::no_events();
        event::emit(&mut events, UserEvent::Diagnosis(payload));
        event::emit(&mut events, UserEvent::Fatal(hint));
        assert(event::events(events@) =~= last_events(self@));
        events
    }
}

fn keep_added(new: &[DisableEntry], added: &[String]) -> (r: Vec<DisableEntry>)
    ensures
        diagnose::entries(r@) == really_added(diagnose::entries(new@), text::texts(added@)),
{
    let ghost all = diagnose::entries(new@);
    let ghost ids = text::texts(added@);
    let mut out: Vec<DisableEntry> = Vec::new();
    let mut i: usize = 0;
    assert(diagnose::entries(out@) =~= really_added(all.take(0), ids));
    while i < new.len()
        invariant
            i <= new@.len(),
            all == diagnose::entries(new@),
            ids == text::texts(added@),
            diagnose::entries(out@) == really_added(all.take(i as int), ids),
        decreases new@.len() - i,
    {
        let ghost before = diagnose::entries(out@);
        proof {
            assert(all.take(i + 1).drop_last() =~= all.take(i as int));
            assert(all.take(i + 1).last() == new@[i as int]@);
        }
        if patch::is_listed(added, new[i].id.as_str()) {
            out.push(new[i].clone());
            assert(diagnose::entries(out@) =~= before.push(new@[i as int]@));
        }
        i += 1;
    }
    assert(all.take(i as int) =~= all);
    out
}

fn safe_entries(ids: &[String]) -> (r: Vec<DisableEntry>)
    ensures
        diagnose::entries(r@) == safe_mode_entries(text::texts(ids@)),
{
    let ghost all = safe_mode_entries(text::texts(ids@));
    let mut out: Vec<DisableEntry> = Vec::new();
    let mut i: usize = 0;
    assert(diagnose::entries(out@) =~= all.take(0));
    while i < ids.len()
        invariant
            i <= ids@.len(),
            all == safe_mode_entries(text::texts(ids@)),
            diagnose::entries(out@) == all.take(i as int),
        decreases ids@.len() - i,
    {
        let ghost before = diagnose::entries(out@);
        let e = DisableEntry {
            id: ids[i].clone(),
            module: String::new(),
            reason: String::from_str("安全模式：第三方插件"),
        };
        assert(e@ =~= all[i as int]);
        out.push(e);
        assert(diagnose::entries(out@) =~= before.push(all[i as int]));
        i += 1;
        assert(all.take(i as int) =~= all.take(i - 1).push(all[i - 1]));
    }
    assert(all.take(i as int) =~= all);
    out
}

// ---- laws -----------------------------------------------------------------------------------

/// There are never more than four launches: the first, one after each of two rounds of disabled
/// plugins, and one in safe mode.
pub proof fn at_most_four_launches(v: RecoveryView)
    requires
        v.has_launched(),
    ensures
        v.attempt <= 4,
{
}

/// A launch that ended by itself, or by a fatal error, is never repeated, nor is one that ran out
/// of time while the user works in the terminal; every other failure is diagnosed, and only a
/// process that has not ended is killed.
pub proof fn only_failures_are_diagnosed(
    v: RecoveryView,
    outcome: LaunchOutcome,
    took_over: bool,
)
    ensures
        match after_launch(v, outcome, took_over) {
            AfterLaunchView::Diagnose { kill } => outcome == (LaunchOutcome::Failed {
                crashed: !kill,
            }) && (kill ==> !took_over),
            AfterLaunchView::Over { .. } => match outcome {
                LaunchOutcome::Failed { crashed } => !crashed && took_over,
                _ => true,
            },
        },
{
}

/// Every further launch costs a round of disabled plugins or the one switch to safe mode, so
/// recovery comes to an end.
pub proof fn every_retry_is_paid_for(
    v: RecoveryView,
    found: Seq<EntryView>,
    added: Option<Seq<Seq<char>>>,
    ids: Option<Seq<Seq<char>>>,
)
    requires
        v.has_launched(),
    ensures
        ({
            let (u, remedy) = after_diagnosis(v, found);
            let (w, verdict) = after_overlay(u, ids);
            &&& u.has_launched() && u.attempt == v.attempt && u.retries() >= v.retries()
            &&& (match remedy {
                RemedyView::Disable(new) => u.may_launch() && u.retries() == v.retries() + 1
                    && after_patch(u, new, added).0.may_launch() && after_patch(
                    u,
                    new,
                    added,
                ).0.retries() == u.retries(),
                RemedyView::SafeMode => u == v,
            })
            &&& verdict is Retry ==> w.may_launch() && w.retries() == u.retries() + 1
            &&& verdict is Nothing ==> w == u
            &&& w.retries() <= MAX_TARGETED_ROUNDS + 1
        }),
{
}

/// Safe mode is tried once, and recovery gives up after it: whatever a diagnosis finds then, no
/// plugin is disabled, and there is no further launch.
pub proof fn safe_mode_is_the_last_resort(
    v: RecoveryView,
    found: Seq<EntryView>,
    ids: Option<Seq<Seq<char>>>,
)
    requires
        v.safe_mode,
    ensures
        after_diagnosis(v, found) == (v, RemedyView::SafeMode),
        after_overlay(v, ids) == (v, VerdictView::Nothing),
{
}

/// A plugin is disabled for the first time: a diagnosis leads to no plugin that was disabled
/// before.
pub proof fn no_plugin_is_disabled_again(v: RecoveryView, found: Seq<EntryView>)
    ensures
        match after_diagnosis(v, found).1 {
            RemedyView::Disable(new) => forall|i: int|
                0 <= i < new.len() ==> !diagnose::has_entry(v.disabled, (#[trigger] new[i]).id),
            RemedyView::SafeMode => true,
        },
{
    not_yet_is_new(found, v.disabled);
}

proof fn not_yet_is_new(v: Seq<EntryView>, disabled: Seq<EntryView>)
    ensures
        forall|i: int|
            0 <= i < not_yet(v, disabled).len() ==> !diagnose::has_entry(
                disabled,
                (#[trigger] not_yet(v, disabled)[i]).id,
            ),
    decreases v.len(),
{
    if v.len() > 0 {
        not_yet_is_new(v.drop_last(), disabled);
        let a = not_yet(v.drop_last(), disabled);
        let b = not_yet(v, disabled);
        assert forall|i: int| 0 <= i < b.len() implies !diagnose::has_entry(
            disabled,
            (#[trigger] b[i]).id,
        ) by {
            if i < a.len() {
                assert(b[i] == a[i]);
            }
        }
    } else {
        assert(not_yet(v, disabled).len() == 0);
    }
}

/// The action is read back from a report as it was written.
pub proof fn report_tells_its_action(
    action: Seq<char>,
    attempt: nat,
    v: Seq<EntryView>,
    note: Seq<char>,
)
    ensures
        json::string_field(report(action, attempt, v, note), "action"@) == Some(action),
{
    reveal_strlit("{\"action\":\"");
    reveal_strlit("action");
    reveal_strlit("\",\"attempt\":");
    let r = report(action, attempt, v, note);
    let open = "{\"action\":\""@;
    let e = json::escape(action, false);
    let next = "\",\"attempt\":"@;
    let rest = number::decimal(attempt) + ",\"plugins\":["@ + text::join(entries_json(v), ","@)
        + "],\"note\":\""@ + json::escape(note, false) + "\"}"@;
    assert(r =~= open + e + next + rest);
    let needle = seq!['"'] + "action"@ + seq!['"'];
    assert(needle.len() == 8);
    assert(!text::occurs_at(r, needle, 0)) by {
        assert(r[0] == '{');
        if text::occurs_at(r, needle, 0) {
            assert(r.subrange(0, 8)[0] == needle[0]);
        }
    }
    assert(r.subrange(1, 9) =~= needle);
    assert(text::occurs_at(r, needle, 1));
    let a = r.skip(9);
    assert(a[0] == ':');
    text::run_is(a, text::CharClass::WhiteSpace, 0);
    assert(text::trim_start(a) =~= a);
    let b = a.skip(1);
    assert(b[0] == '"');
    text::run_is(b, text::CharClass::WhiteSpace, 0);
    assert(text::trim_start(b) =~= b);
    assert(json::behind_colon(a) == Some(b));
    assert(json::is_key_at(r, "action"@, 1));
    assert(json::value_from(r, "action"@, 1) == Some(b));
    assert(!json::is_key_at(r, "action"@, 0));
    assert(json::value_of(r, "action"@) == Some(b));
    let c = b.skip(1);
    let after = next.skip(1) + rest;
    assert(next =~= seq!['"'] + next.skip(1));
    assert(c =~= Seq::<char>::empty() + e + seq!['"'] + after);
    json::escape_ends_at_quote(Seq::empty(), action, after, false);
    assert(c.take(e.len() as int) =~= e);
    json::unescape_undoes_escape(action, false);
}

} // verus!
