//! What a launch promises, in terms of its arguments, its environment and the time it takes.

use crate::event::EventView;
use crate::launch;
use crate::number;
use crate::text;
use crate::text_laws;
use crate::wait;
use crate::wait::{LateWatch, PollView, PortWait, WatchView};
use vstd::prelude::*;

verus! {

// ---- arguments ------------------------------------------------------------------------------

/// Further arguments come before the first `--no-open`, or behind all others where there is none;
/// the others stay as they are.
pub proof fn extra_arguments_come_before_no_open(
    a: Seq<Seq<char>>,
    b: Seq<Seq<char>>,
    extra: Seq<Seq<char>>,
)
    requires
        forall|i: int| 0 <= i < a.len() ==> #[trigger] a[i] != "--no-open"@,
    ensures
        launch::with_extra(a + seq!["--no-open"@] + b, extra) == a + extra + seq!["--no-open"@] + b,
        launch::with_extra(a, extra) == a + extra,
{
    let s = "--no-open"@;
    let all = a + seq![s] + b;
    position_behind(a, seq![s] + b);
    assert(all =~= a + (seq![s] + b));
    assert(launch::arg_position(seq![s] + b, s) == 0);
    assert(all.take(a.len() as int) =~= a);
    assert(all.skip(a.len() as int) =~= seq![s] + b);
    assert(a + extra + (seq![s] + b) =~= a + extra + seq![s] + b);
    let none = Seq::<Seq<char>>::empty();
    position_behind(a, none);
    assert(a + none =~= a);
    assert(a.take(a.len() as int) =~= a);
    assert(a.skip(a.len() as int) =~= none);
    assert(a + extra + none =~= a + extra);
}

proof fn position_behind(a: Seq<Seq<char>>, b: Seq<Seq<char>>)
    requires
        forall|i: int| 0 <= i < a.len() ==> #[trigger] a[i] != "--no-open"@,
    ensures
        launch::arg_position(a + b, "--no-open"@) == a.len() + launch::arg_position(
            b,
            "--no-open"@,
        ),
    decreases a.len(),
{
    if a.len() == 0 {
        assert(a + b =~= b);
    } else {
        let c = a.skip(1);
        assert forall|i: int| 0 <= i < c.len() implies #[trigger] c[i] != "--no-open"@ by {
            assert(c[i] == a[i + 1]);
        }
        position_behind(c, b);
        assert((a + b).skip(1) =~= c + b);
        assert((a + b)[0] == a[0]);
    }
}

// ---- environment ----------------------------------------------------------------------------

/// Options that begin with `--use-system-ca` are left out, and all others stay in their order.
pub proof fn other_options_stay_in_order(words: Seq<Seq<char>>)
    ensures
        launch::kept_options(words) == words.filter(
            |w: Seq<char>| forall|x: Seq<char>| w != #[trigger] ("--use-system-ca"@ + x),
        ),
    decreases words.len(),
{
    reveal(Seq::filter);
    if words.len() > 0 {
        other_options_stay_in_order(words.drop_last());
        text_laws::starts_with_is_concatenation(words.last(), "--use-system-ca"@);
        if text::starts_with(words.last(), "--use-system-ca"@) {
            let x = choose|x: Seq<char>| words.last() == #[trigger] ("--use-system-ca"@ + x);
        }
    } else {
        assert(launch::kept_options(words) =~= words);
    }
}

/// The directory of `npx` is searched first, then what was searched before.
pub proof fn npx_is_searched_first(dir: Seq<char>, inherited: Seq<char>)
    requires
        dir.len() > 0,
    ensures
        launch::child_path(dir, inherited, false) == dir + seq![':'] + inherited,
        launch::child_path(dir, inherited, true) == dir + seq![';'] + inherited,
        launch::child_path(Seq::empty(), inherited, false) == inherited,
{
    reveal_strlit(":");
    reveal_strlit(";");
    assert(":"@ =~= seq![':']);
    assert(";"@ =~= seq![';']);
}

/// The command gets its search path and its options, npm asks it no questions, and in a terminal it
/// may use colours. Without a terminal nothing else is set.
pub proof fn variables_are_set(
    inherited: Map<Seq<char>, Seq<char>>,
    path: Seq<char>,
    options: Seq<char>,
    name: Seq<char>,
)
    ensures
        ({
            let plain = launch::child_variables(inherited, path, options, false);
            let shown = launch::child_variables(inherited, path, options, true);
            &&& plain["PATH"@] == path && shown["PATH"@] == path
            &&& plain["NODE_OPTIONS"@] == options && shown["NODE_OPTIONS"@] == options
            &&& plain["npm_config_yes"@] == "true"@ && shown["npm_config_yes"@] == "true"@
            &&& shown["TERM"@] == "xterm-256color"@ && shown["FORCE_COLOR"@] == "1"@
            &&& plain.contains_key(name) <==> inherited.contains_key(name) || name == "PATH"@
                || name == "NODE_OPTIONS"@ || name == "npm_config_yes"@
            &&& shown.contains_key(name) <==> plain.contains_key(name) || name == "TERM"@ || name
                == "FORCE_COLOR"@
        }),
{
    reveal_strlit("PATH");
    reveal_strlit("NODE_OPTIONS");
    reveal_strlit("npm_config_yes");
    reveal_strlit("TERM");
    reveal_strlit("FORCE_COLOR");
    assert("PATH"@[0] == 'P' && "TERM"@[0] == 'T');
    assert("PATH"@.len() == 4 && "NODE_OPTIONS"@.len() == 12 && "npm_config_yes"@.len() == 14
        && "FORCE_COLOR"@.len() == 11 && "TERM"@.len() == 4);
}

/// A later value of a variable replaces an earlier one, and no other.
pub proof fn later_values_count(env: Seq<(Seq<char>, Seq<char>)>, name: Seq<char>, value: Seq<char>)
    ensures
        launch::variables(Seq::empty()) == Map::<Seq<char>, Seq<char>>::empty(),
        launch::variables(env.push((name, value))) == launch::variables(env).insert(name, value),
{
    assert(env.push((name, value)).drop_last() =~= env);
}

// ---- the port -------------------------------------------------------------------------------

/// Each line tells one process by its number, with or without white space around it; what is no
/// number is passed over.
pub proof fn processes_are_told_line_by_line(
    lines: Seq<Seq<char>>,
    a: Seq<char>,
    s: Seq<char>,
    b: Seq<char>,
)
    requires
        text_laws::is_blank(a),
        text_laws::is_blank(b),
        text_laws::is_trimmed(s),
    ensures
        launch::pids(Seq::empty()) == Seq::<int>::empty(),
        launch::pids(lines.push(a + s + b)) == (match number::i32_value(s) {
            Some(n) => launch::pids(lines).push(n),
            None => launch::pids(lines),
        }),
{
    text_laws::trim_takes_the_ends(a, s, b);
    assert(lines.push(a + s + b).drop_last() =~= lines);
    assert(launch::pids(Seq::empty()) =~= Seq::<int>::empty());
}

/// A process is one that a launch may have left behind exactly where its command names `dsh` or
/// `node`.
pub proof fn own_processes_name_the_service(a: Seq<char>, b: Seq<char>, command: Seq<char>)
    ensures
        launch::names_service(a + "dsh"@ + b),
        launch::names_service(a + "node"@ + b),
        !text::contains(command, "dsh"@) && !text::contains(command, "node"@)
            ==> !launch::names_service(command),
{
    text_laws::holds_pattern(a, "dsh"@, b);
    text_laws::holds_pattern(a, "node"@, b);
}

// ---- waiting --------------------------------------------------------------------------------

/// The user is told that the command still runs when it runs, has been silent for four seconds, and
/// they were not told in the last four seconds.
pub proof fn silence_is_told(w: PortWait, exited: bool, silent: u64, now: u64)
    ensures
        wait::beats(w, exited, silent, now) <==> !exited && silent >= 4000 && match w.last_beat {
            Some(b) => now >= b + 4000,
            None => true,
        },
{
}

/// The wait for the port after a number of tries.
pub open spec fn after_tries(w: PortWait, n: nat) -> PortWait
    decreases n,
{
    if n == 0 {
        w
    } else {
        wait::after_next(after_tries(w, (n - 1) as nat), false).0
    }
}

/// The port of a command that runs is tried twelve hundred times and no more, and not at all once
/// the command has ended.
pub proof fn port_is_tried_so_often(n: nat, w: PortWait)
    requires
        n <= 1200,
    ensures
        ({
            let first = PortWait { polls: 0, last_beat: None };
            &&& after_tries(first, n).polls == n
            &&& wait::after_next(after_tries(first, n), false).1 <==> n < 1200
        }),
        wait::after_next(w, true) == (w, false),
    decreases n,
{
    if n > 0 {
        port_is_tried_so_often((n - 1) as nat, w);
    }
}

/// A port that answers is ready, whatever else; one that does not is tried again, and the user is
/// told at most every four seconds, of a command that has been silent for so long and runs.
pub proof fn port_is_waited_for(
    w: PortWait,
    exited: bool,
    silent: u64,
    now: u64,
    later_exited: bool,
    later_silent: u64,
    later: u64,
)
    ensures
        wait::after_poll(w, true, exited, silent, now) == (w, PollView::Ready),
        ({
            let (next, poll) = wait::after_poll(w, false, exited, silent, now);
            &&& poll is Again
            &&& next.polls == w.polls
            &&& exited || silent < 4000 ==> poll == PollView::Again(Seq::empty()) && next == w
            &&& !exited && silent >= 4000 && w.last_beat is None ==> poll == PollView::Again(
                seq![
                    EventView::Status(
                        "命令仍在运行，正在下载 / 初始化依赖（首次运行通常较慢），请稍候…"@,
                    ),
                ],
            )
            &&& poll != PollView::Again(Seq::empty()) && later < now + 4000 ==> wait::after_poll(
                next,
                false,
                later_exited,
                later_silent,
                later,
            ).1 == PollView::Again(Seq::empty())
            &&& poll != PollView::Again(Seq::empty()) && later >= now + 4000 && later_silent >= 4000
                && !later_exited ==> wait::after_poll(
                next,
                false,
                later_exited,
                later_silent,
                later,
            ).1 == poll
        }),
{
    let told = seq![EventView::Status(wait::STILL_RUNNING@)];
    assert(told.len() == 1);
    assert(told != Seq::<EventView>::empty());
}

/// An address that becomes known late is opened, where the command runs still and it was not looked
/// for too often; without one it is looked for again, up to twelve hundred times.
pub proof fn late_address_is_opened(w: LateWatch, url: Seq<char>, known: Option<Seq<char>>)
    ensures
        w.polls < 1200 ==> match wait::after_look(w, false, Some(url)).1 {
            WatchView::Found(events) => events.last() == EventView::ServerReady(url),
            _ => false,
        },
        w.polls < 1200 ==> wait::after_look(w, false, None) == (
            LateWatch { polls: (w.polls + 1) as u32 },
            WatchView::Again,
        ),
        w.polls >= 1200 ==> wait::after_look(w, false, known).1 == WatchView::Stop,
        wait::after_look(w, true, known).1 == WatchView::Stop,
{
}

/// The port is tried for ten minutes, and then the address is waited for half a minute, in which the
/// user is told every three seconds; later it is looked for during ten more minutes.
pub proof fn waits_take_their_time()
    ensures
        wait::MAX_POLLS * wait::POLL_PAUSE_MS == 600_000,
        wait::MAX_URL_TICKS * wait::URL_PAUSE_MS == 30_000,
        wait::URL_NOTE_TICKS * wait::URL_PAUSE_MS == 3_000,
        wait::MAX_POLLS == 1200,
        wait::MAX_URL_TICKS == 300,
{
    assert(wait::MAX_POLLS * wait::POLL_PAUSE_MS == 600_000) by (nonlinear_arith)
        requires
            wait::MAX_POLLS == 1200,
            wait::POLL_PAUSE_MS == 500,
    ;
    assert(wait::MAX_URL_TICKS * wait::URL_PAUSE_MS == 30_000) by (nonlinear_arith)
        requires
            wait::MAX_URL_TICKS == 300,
            wait::URL_PAUSE_MS == 100,
    ;
    assert(wait::URL_NOTE_TICKS * wait::URL_PAUSE_MS == 3_000) by (nonlinear_arith)
        requires
            wait::URL_NOTE_TICKS == 30,
            wait::URL_PAUSE_MS == 100,
    ;
}

/// While the address is missing, the user is told how many seconds have passed, after every three
/// of them.
pub proof fn seconds_are_told(k: nat, tick: nat)
    ensures
        k > 0 ==> wait::url_note(30 * k) == seq![
            EventView::Status(
                "仍在等待认证 URL（"@ + number::decimal(3 * k)
                    + "s），可在上方终端查看 dsh 输出…"@,
            ),
        ],
        tick % 30 != 0 || tick == 0 ==> wait::url_note(tick).len() == 0,
{
    assert((30 * k) % 30 == 0 && (30 * k) / 10 == 3 * k);
}

/// The page is opened at its address where that is known, and else at the bare one, of which the
/// user is told.
pub proof fn page_is_opened_at_its_address(url: Seq<char>)
    ensures
        wait::ready_events(Some(url)).last() == EventView::ServerReady(url),
        wait::ready_events(None).last() == EventView::ServerReady("http://127.0.0.1:3080"@),
        wait::ready_events(Some(url)).len() == 2,
        wait::ready_events(None).len() == 3,
        wait::ready_events(None)[0] == EventView::Status(
            "暂未获取到认证 URL，先用默认地址打开；解析到认证地址后会自动跳转…"@,
        ),
        wait::ready_events(Some(url))[0] == EventView::Status("正在打开页面: "@ + url),
{
}

} // verus!
