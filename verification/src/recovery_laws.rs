//! What recovery does after a launch, in terms of how the launch ended and what was found.

use crate::diagnose::EntryView;
use crate::event::EventView;
use crate::json;
use crate::number;
use crate::patch;
use crate::recovery;
use crate::recovery::{AfterLaunchView, RecoveryView, RemedyView, VerdictView};
use crate::terminal::LaunchOutcome;
use crate::text;
use crate::text_laws;
use vstd::prelude::*;

verus! {

/// Whether none of these entries has an id.
pub open spec fn is_unknown(id: Seq<char>, v: Seq<EntryView>) -> bool {
    forall|j: int| 0 <= j < v.len() ==> (#[trigger] v[j]).id != id
}

proof fn not_yet_is_filtered(found: Seq<EntryView>, disabled: Seq<EntryView>)
    ensures
        recovery::not_yet(found, disabled) == found.filter(
            |e: EntryView| is_unknown(e.id, disabled),
        ),
    decreases found.len(),
{
    reveal(Seq::filter);
    if found.len() > 0 {
        not_yet_is_filtered(found.drop_last(), disabled);
    } else {
        assert(recovery::not_yet(found, disabled) =~= found);
    }
}

/// Of the plugins that a diagnosis found, those are disabled that were not disabled before, in their
/// order, where there are any, in the first two rounds, and before safe mode. In every other case
/// safe mode comes next, and nothing else changes.
pub proof fn found_plugins_are_disabled(v: RecoveryView, found: Seq<EntryView>)
    ensures
        ({
            let new = found.filter(|e: EntryView| is_unknown(e.id, v.disabled));
            let (u, remedy) = recovery::after_diagnosis(v, found);
            if new.len() > 0 && v.targeted_rounds < 2 && !v.safe_mode {
                &&& remedy == RemedyView::Disable(new)
                &&& u.targeted_rounds == v.targeted_rounds + 1
                &&& u.disabled == v.disabled && u.safe_mode == v.safe_mode && u.attempt
                    == v.attempt
            } else {
                remedy == RemedyView::SafeMode && u == v
            }
        }),
{
    not_yet_is_filtered(found, v.disabled);
}

proof fn really_added_is_filtered(new: Seq<EntryView>, added: Seq<Seq<char>>)
    ensures
        recovery::really_added(new, added) == new.filter(|e: EntryView| added.contains(e.id)),
    decreases new.len(),
{
    reveal(Seq::filter);
    if new.len() > 0 {
        really_added_is_filtered(new.drop_last(), added);
    } else {
        assert(recovery::really_added(new, added) =~= new);
    }
}

/// There is another launch exactly where rows were added to the layer. Then those of the plugins
/// count as disabled whose rows were added, behind those from before; for each of them a line tells
/// its id and its module, and a report tells them all.
pub proof fn added_plugins_count_as_disabled(
    v: RecoveryView,
    new: Seq<EntryView>,
    added: Option<Seq<Seq<char>>>,
)
    ensures
        ({
            let (u, verdict) = recovery::after_patch(v, new, added);
            match added {
                Some(ids) if ids.len() > 0 => {
                    let now = new.filter(|e: EntryView| ids.contains(e.id));
                    &&& u.disabled == v.disabled + now
                    &&& u.targeted_rounds == v.targeted_rounds && u.safe_mode == v.safe_mode
                        && u.attempt == v.attempt
                    &&& verdict matches VerdictView::Retry(events) && {
                        &&& events.len() == now.len() + 1
                        &&& forall|i: int|
                            0 <= i < now.len() ==> tells(
                                #[trigger] events[i],
                                now[i].id,
                            ) && tells(events[i], now[i].module)
                        &&& reports(events[now.len() as int], "retry-disabled"@, v.attempt as nat, now)
                    }
                },
                _ => u == v && verdict == VerdictView::Nothing,
            }
        }),
{
    match added {
        Some(ids) => {
            if ids.len() > 0 {
                really_added_is_filtered(new, ids);
                let now = recovery::really_added(new, ids);
                let events = recovery::disabled_events(now);
                assert forall|i: int| 0 <= i < now.len() implies tells(
                    #[trigger] events[i],
                    now[i].id,
                ) && tells(events[i], now[i].module) by {
                    line_tells(now[i]);
                }
                report_reports("retry-disabled"@, v.attempt as nat, now, recovery::RETRY_NOTE@);
                let report = EventView::Diagnosis(
                    recovery::report(
                        "retry-disabled"@,
                        v.attempt as nat,
                        now,
                        recovery::RETRY_NOTE@,
                    ),
                );
                let all = events.push(report);
                assert forall|i: int| 0 <= i < now.len() implies tells(
                    #[trigger] all[i],
                    now[i].id,
                ) && tells(all[i], now[i].module) by {
                    assert(all[i] == events[i]);
                }
            }
        },
        None => {},
    }
}

/// Whether an event shows a line in the terminal that holds a text.
pub open spec fn tells(e: EventView, s: Seq<char>) -> bool {
    e matches EventView::Term(line) && text::contains(line, s)
}

/// Whether an event is a report of this action, in this attempt, on these plugins: each of them with
/// its id, its module and its reason.
pub open spec fn reports(
    e: EventView,
    action: Seq<char>,
    attempt: nat,
    v: Seq<EntryView>,
) -> bool {
    e matches EventView::Diagnosis(r) && {
        &&& json::string_field(r, "action"@) == Some(action)
        &&& text::contains(r, "\"attempt\":"@ + number::decimal(attempt) + ","@)
        &&& forall|i: int|
            0 <= i < v.len() ==> text::contains(
                r,
                "{\"id\":\""@ + json::escape((#[trigger] v[i]).id, false) + "\",\"module\":\""@
                    + json::escape(v[i].module, false) + "\",\"reason\":\""@ + json::escape(
                    v[i].reason,
                    false,
                ) + "\"}"@,
            )
    }
}

proof fn line_tells(e: EntryView)
    ensures
        tells(EventView::Term(recovery::disabled_line(e)), e.id),
        tells(EventView::Term(recovery::disabled_line(e)), e.module),
{
    let a = "[dsh-desktop] 已禁用故障插件 "@;
    let b = "（"@;
    let c = "），正在重试…\r\n"@;
    let line = recovery::disabled_line(e);
    assert(line =~= a + e.id + (b + e.module + c));
    text_laws::holds_pattern(a, e.id, b + e.module + c);
    assert(line =~= (a + e.id + b) + e.module + c);
    text_laws::holds_pattern(a + e.id + b, e.module, c);
}

proof fn report_reports(action: Seq<char>, attempt: nat, v: Seq<EntryView>, note: Seq<char>)
    ensures
        reports(
            EventView::Diagnosis(recovery::report(action, attempt, v, note)),
            action,
            attempt,
            v,
        ),
        text::contains(recovery::report(action, attempt, v, note), json::escape(note, false)),
{
    let r = recovery::report(action, attempt, v, note);
    recovery::report_tells_its_action(action, attempt, v, note);
    let act = "{\"action\":\""@ + json::escape(action, false);
    let n = number::decimal(attempt);
    let items = recovery::entries_json(v);
    let list = text::join(items, ","@);
    let esc = json::escape(note, false);
    let end = "],\"note\":\""@ + esc + "\"}"@;
    let mid = "\"attempt\":"@ + n + ","@;
    assert(r =~= (act + "\","@) + mid + ("\"plugins\":["@ + list + end)) by {
        reveal_strlit("\",\"attempt\":");
        reveal_strlit("\",");
        reveal_strlit("\"attempt\":");
        reveal_strlit(",\"plugins\":[");
        reveal_strlit(",");
        reveal_strlit("\"plugins\":[");
        assert("\",\"attempt\":"@ =~= "\","@ + "\"attempt\":"@);
        assert(",\"plugins\":["@ =~= ","@ + "\"plugins\":["@);
    }
    text_laws::holds_pattern(act + "\","@, mid, "\"plugins\":["@ + list + end);
    let head = act + "\",\"attempt\":"@ + n + ",\"plugins\":["@;
    assert(r =~= head + list + end);
    assert forall|i: int| 0 <= i < v.len() implies text::contains(
        r,
        "{\"id\":\""@ + json::escape((#[trigger] v[i]).id, false) + "\",\"module\":\""@
            + json::escape(v[i].module, false) + "\",\"reason\":\""@ + json::escape(
            v[i].reason,
            false,
        ) + "\"}"@,
    ) by {
        join_holds_parts(items, ","@, i);
        let p = items[i];
        let j = choose|j: int| text::occurs_at(list, p, j);
        text_laws::pattern_moves(head, list, p, j);
        text_laws::pattern_moves(head + list, end, p, head.len() + j);
    }
    assert(r =~= (head + list + "],\"note\":\""@) + esc + "\"}"@);
    text_laws::holds_pattern(head + list + "],\"note\":\""@, esc, "\"}"@);
}

/// A joined text holds each of its parts.
proof fn join_holds_parts(parts: Seq<Seq<char>>, sep: Seq<char>, i: int)
    requires
        0 <= i < parts.len(),
    ensures
        text::contains(text::join(parts, sep), parts[i]),
    decreases parts.len(),
{
    let none = Seq::<char>::empty();
    let all = text::join(parts, sep);
    if parts.len() == 1 {
        assert(all =~= none + parts[i] + none);
        text_laws::holds_pattern(none, parts[i], none);
    } else {
        let front = text::join(parts.drop_last(), sep);
        if i == parts.len() - 1 {
            assert(all =~= (front + sep) + parts[i] + none);
            text_laws::holds_pattern(front + sep, parts[i], none);
        } else {
            join_holds_parts(parts.drop_last(), sep, i);
            let j = choose|j: int| text::occurs_at(front, parts[i], j);
            assert(all =~= front + (sep + parts.last()));
            text_laws::pattern_moves(front, sep + parts.last(), parts[i], j);
        }
    }
}

/// Safe mode is entered exactly where it was not entered before and the overlay disables some rows.
/// Then there is another launch, the report tells the rows, and nothing else changes.
pub proof fn overlay_leads_to_safe_mode(v: RecoveryView, ids: Option<Seq<Seq<char>>>)
    ensures
        ({
            let (u, verdict) = recovery::after_overlay(v, ids);
            match ids {
                Some(rows) if rows.len() > 0 && !v.safe_mode => {
                    &&& u.safe_mode
                    &&& u.disabled == v.disabled && u.targeted_rounds == v.targeted_rounds
                        && u.attempt == v.attempt
                    &&& verdict matches VerdictView::Retry(events) && {
                        &&& events.len() == 2
                        &&& tells(events[0], number::decimal(rows.len()))
                        &&& reports(
                            events[1],
                            "safe-mode"@,
                            v.attempt as nat,
                            recovery::safe_mode_entries(rows),
                        )
                    }
                    &&& recovery::safe_mode_entries(rows).len() == rows.len()
                    &&& forall|i: int|
                        0 <= i < rows.len() ==> (#[trigger] recovery::safe_mode_entries(rows)[i]).id
                            == rows[i]
                },
                _ => u == v && verdict == VerdictView::Nothing,
            }
        }),
{
    match ids {
        Some(rows) => {
            let a = "[dsh-desktop] 进入安全模式：已停用 "@;
            let b = " 个第三方插件，正在重试…\r\n"@;
            text_laws::holds_pattern(a, number::decimal(rows.len()), b);
            report_reports(
                "safe-mode"@,
                v.attempt as nat,
                recovery::safe_mode_entries(rows),
                recovery::SAFE_MODE_NOTE@,
            );
        },
        None => {},
    }
}

/// A launch in safe mode gets the overlay as a patch, and every other one nothing on top.
pub proof fn safe_mode_launches_with_the_overlay(v: RecoveryView, overlay: Seq<char>)
    ensures
        v.safe_mode ==> recovery::extra_args(v, overlay) == seq!["--patch"@, overlay],
        !v.safe_mode ==> recovery::extra_args(v, overlay) == Seq::<Seq<char>>::empty(),
{
}

/// A launch that succeeds after plugins were disabled, or in safe mode, is reported with those
/// plugins, and a note for the page names each of them. One that succeeds at once is not.
pub proof fn recovered_launch_is_reported(v: RecoveryView, took_over: bool)
    ensures
        recovery::after_launch(v, LaunchOutcome::Ready, took_over) matches AfterLaunchView::Over {
            events,
            toast,
        } && if v.disabled.len() > 0 || v.safe_mode {
            &&& events.len() == 1 && reports(
                events[0],
                "recovered"@,
                v.attempt as nat,
                v.disabled,
            )
            &&& toast matches Some(said) && forall|i: int|
                0 <= i < v.disabled.len() ==> text::contains(said, (#[trigger] v.disabled[i]).id)
        } else {
            events.len() == 0 && toast is None
        },
        recovery::after_launch(v, LaunchOutcome::Abort, took_over) == (AfterLaunchView::Over {
            events: Seq::empty(),
            toast: None,
        }),
{
    report_reports("recovered"@, v.attempt as nat, v.disabled, recovery::RECOVERED_NOTE@);
    let names = patch::entry_ids(v.disabled);
    if names.len() > 0 {
        let a = "已自动禁用故障插件 "@;
        let list = text::join(names, ", "@);
        let b = "，恢复方法见 ~/.dsh/profiles/web/cordis.patch.yml"@;
        assert forall|i: int| 0 <= i < v.disabled.len() implies text::contains(
            recovery::toast(v),
            (#[trigger] v.disabled[i]).id,
        ) by {
            join_holds_parts(names, ", "@, i);
            let j = choose|j: int| text::occurs_at(list, names[i], j);
            text_laws::pattern_moves(a, list, names[i], j);
            text_laws::pattern_moves(a + list, b, names[i], a.len() + j);
        }
    }
}

/// A launch that failed is diagnosed, and its process is ended if it has not ended by itself. The
/// one exception is a launch that ran out of time while the user works in the terminal: it is left
/// alone, and they are told.
pub proof fn failed_launch_is_diagnosed(v: RecoveryView, took_over: bool)
    ensures
        recovery::after_launch(v, LaunchOutcome::Failed { crashed: true }, took_over) == (
        AfterLaunchView::Diagnose { kill: false }),
        recovery::after_launch(v, LaunchOutcome::Failed { crashed: false }, false) == (
        AfterLaunchView::Diagnose { kill: true }),
        recovery::after_launch(v, LaunchOutcome::Failed { crashed: false }, true) matches
            AfterLaunchView::Over { events, toast } && events.len() == 1 && events[0] is Fatal
            && toast is None,
{
}

/// When recovery gives up, the last report and the last message name every plugin that was disabled.
pub proof fn giving_up_names_the_plugins(v: RecoveryView)
    ensures
        ({
            let events = recovery::last_events(v);
            &&& events.len() == 2
            &&& reports(events[0], "failed"@, v.attempt as nat, v.disabled)
            &&& events[1] matches EventView::Fatal(said) && forall|i: int|
                0 <= i < v.disabled.len() ==> text::contains(said, (#[trigger] v.disabled[i]).id)
        }),
{
    report_reports("failed"@, v.attempt as nat, v.disabled, recovery::last_hint(v));
    let names = patch::entry_ids(v.disabled);
    if v.disabled.len() > 0 {
        let a = "自动修复未能恢复启动。已禁用的插件："@;
        let list = text::join(names, ", "@);
        let b = "。可编辑 ~/.dsh/profiles/web/cordis.patch.yml（删除标记为 dsh-desktop auto-recovery 的条目）恢复插件；也可以删除 ~/.dsh/profiles/web 后重启应用重建 profile。"@;
        assert forall|i: int| 0 <= i < v.disabled.len() implies text::contains(
            recovery::last_hint(v),
            (#[trigger] v.disabled[i]).id,
        ) by {
            join_holds_parts(names, ", "@, i);
            let j = choose|j: int| text::occurs_at(list, names[i], j);
            text_laws::pattern_moves(a, list, names[i], j);
            text_laws::pattern_moves(a + list, b, names[i], a.len() + j);
        }
    }
}

/// What is shown of a failed launch tells which one it was.
pub proof fn failure_tells_the_attempt(attempt: nat, crashed: bool)
    ensures
        text::contains(
            recovery::failure_line(attempt, crashed),
            " "@ + number::decimal(attempt) + " "@,
        ),
        crashed ==> text::contains(recovery::failure_line(attempt, crashed), "进程异常退出"@),
        !crashed ==> text::contains(recovery::failure_line(attempt, crashed), "超时未就绪"@),
{
    reveal_strlit("\r\n\r\n[dsh-desktop] ─── 第 ");
    reveal_strlit("\r\n\r\n[dsh-desktop] ─── 第");
    reveal_strlit(" ");
    reveal_strlit(" 次启动失败（");
    reveal_strlit("次启动失败（");
    let a = "\r\n\r\n[dsh-desktop] ─── 第"@;
    let d = number::decimal(attempt);
    let b = "次启动失败（"@;
    let why = if crashed {
        "进程异常退出"@
    } else {
        "超时未就绪"@
    };
    let c = "）───\r\n"@;
    let line = recovery::failure_line(attempt, crashed);
    assert("\r\n\r\n[dsh-desktop] ─── 第 "@ =~= a + " "@);
    assert(" 次启动失败（"@ =~= " "@ + b);
    let mid = " "@ + d + " "@;
    assert(line =~= a + mid + (b + why + c));
    text_laws::holds_pattern(a, mid, b + why + c);
    assert(line =~= (a + mid + b) + why + c);
    text_laws::holds_pattern(a + mid + b, why, c);
}

} // verus!
