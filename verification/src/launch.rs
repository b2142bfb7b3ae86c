//! How the command is launched: its arguments, its environment, and the port that it needs.

use crate::event;
use crate::event::{EventView, UserEvent};
use crate::number;
use crate::terminal::LaunchOutcome;
use crate::text;
use crate::utf8;
use vstd::prelude::*;
use vstd::string::*;

verus! {

/// The arguments for `npx`. With `-y` the first installation needs no confirmation.
pub const ARGS: [&'static str; 4] = ["-y", "@deepseek-ai/dsh", "web", "--no-open"];

/// The address of the service.
pub const TARGET_URL: &'static str = "http://127.0.0.1:3080";

/// The address and port at which the service answers once it is ready.
pub const POLL_ADDR: &'static str = "127.0.0.1:3080";

// ---- arguments ------------------------------------------------------------------------------

/// The position of the first of `args` that is `s`; their number if none is.
pub open spec fn arg_position(args: Seq<Seq<char>>, s: Seq<char>) -> int
    decreases args.len(),
{
    if args.len() == 0 || args[0] == s {
        0
    } else {
        1 + arg_position(args.skip(1), s)
    }
}

/// `args` with `extra` before the first `--no-open`, or behind them if there is none. The service
/// knows only what comes before the first argument that it does not know.
pub open spec fn with_extra(args: Seq<Seq<char>>, extra: Seq<Seq<char>>) -> Seq<Seq<char>> {
    let p = arg_position(args, "--no-open"@);
    args.take(p) + extra + args.skip(p)
}

/// Puts further arguments in their place.
pub fn insert_args(args: &[String], extra: &[String]) -> (r: Vec<String>)
    ensures
        text::texts(r@) == with_extra(text::texts(args@), text::texts(extra@)),
{
    let ghost all = text::texts(args@);
    let mut p: usize = 0;
    let mut out: Vec<String> = Vec::new();
    assert(all.skip(0) =~= all);
    assert(text::texts(out@) =~= all.take(0));
    while p < args.len() && !text::same_text(args[p].as_str(), "--no-open")
        invariant
            p <= args@.len(),
            all == text::texts(args@),
            arg_position(all, "--no-open"@) == p + arg_position(all.skip(p as int), "--no-open"@),
            text::texts(out@) == all.take(p as int),
        decreases args@.len() - p,
    {
        assert(all.skip(p as int)[0] == all[p as int]);
        assert(all.skip(p as int).skip(1) =~= all.skip(p + 1));
        text::push_text(&mut out, args[p].as_str());
        p += 1;
        assert(all.take(p as int) =~= all.take(p - 1).push(all[p - 1]));
    }
    if p < args.len() {
        assert(all.skip(p as int)[0] == all[p as int]);
    }
    push_texts(&mut out, extra);
    let mut i: usize = p;
    assert(all.subrange(p as int, p as int) =~= Seq::<Seq<char>>::empty());
    assert(all.take(p as int) + text::texts(extra@) + Seq::<Seq<char>>::empty() =~= all.take(
        p as int,
    ) + text::texts(extra@));
    while i < args.len()
        invariant
            p <= i <= args@.len(),
            all == text::texts(args@),
            text::texts(out@) == all.take(p as int) + text::texts(extra@) + all.subrange(
                p as int,
                i as int,
            ),
        decreases args@.len() - i,
    {
        let ghost before = text::texts(out@);
        text::push_text(&mut out, args[i].as_str());
        i += 1;
        assert(all.subrange(p as int, i as int) =~= all.subrange(p as int, i - 1).push(all[i - 1]));
        assert(before.push(all[i - 1]) =~= all.take(p as int) + text::texts(extra@) + all.subrange(
            p as int,
            i as int,
        ));
    }
    assert(all.subrange(p as int, i as int) =~= all.skip(p as int));
    out
}

/// Appends copies of strings.
fn push_texts(out: &mut Vec<String>, more: &[String])
    ensures
        text::texts(final(out)@) == text::texts(old(out)@) + text::texts(more@),
{
    let ghost was = text::texts(out@);
    let ghost all = text::texts(more@);
    let mut i: usize = 0;
    assert(was + all.take(0) =~= was);
    while i < more.len()
        invariant
            i <= more@.len(),
            all == text::texts(more@),
            text::texts(out@) == was + all.take(i as int),
        decreases more@.len() - i,
    {
        text::push_text(out, more[i].as_str());
        i += 1;
        assert(all.take(i as int) =~= all.take(i - 1).push(all[i - 1]));
        assert((was + all.take(i - 1)).push(all[i - 1]) =~= was + all.take(i as int));
    }
    assert(all.take(i as int) =~= all);
}

/// The arguments of a launch.
pub fn launch_args(extra: &[String]) -> (r: Vec<String>)
    ensures
        text::texts(r@) == seq!["-y"@, "@deepseek-ai/dsh"@, "web"@] + text::texts(extra@) + seq![
            "--no-open"@,
        ],
{
    let known = ARGS;
    let mut args: Vec<String> = Vec::new();
    text::push_text(&mut args, known[0]);
    text::push_text(&mut args, known[1]);
    text::push_text(&mut args, known[2]);
    text::push_text(&mut args, known[3]);
    let r = insert_args(args.as_slice(), extra);
    proof {
        let all = text::texts(args@);
        assert(all =~= seq!["-y"@, "@deepseek-ai/dsh"@, "web"@, "--no-open"@]);
        reveal_strlit("-y");
        reveal_strlit("@deepseek-ai/dsh");
        reveal_strlit("web");
        reveal_strlit("--no-open");
        assert("-y"@.len() == 2 && "--no-open"@.len() == 9);
        assert("@deepseek-ai/dsh"@[0] == '@' && "--no-open"@[0] == '-');
        assert(all.skip(1) =~= seq!["@deepseek-ai/dsh"@, "web"@, "--no-open"@]);
        assert(all.skip(1).skip(1) =~= seq!["web"@, "--no-open"@]);
        assert(all.skip(1).skip(1).skip(1) =~= seq!["--no-open"@]);
        assert(arg_position(all.skip(1).skip(1).skip(1), "--no-open"@) == 0);
        assert(arg_position(all.skip(1).skip(1), "--no-open"@) == 1);
        assert(arg_position(all.skip(1), "--no-open"@) == 2);
        assert(arg_position(all, "--no-open"@) == 3);
        assert(all.take(3) =~= seq!["-y"@, "@deepseek-ai/dsh"@, "web"@]);
        assert(all.skip(3) =~= seq!["--no-open"@]);
    }
    r
}

/// The command as it is shown.
pub fn command_line(npx: &str, args: &[String]) -> (r: String)
    ensures
        r@ == npx@ + " "@ + text::join(text::texts(args@), " "@),
{
    let list = text::join_strings(args, " ");
    let mut out = String::from_str(npx);
    out.append(" ");
    out.append(list.as_str());
    out
}

/// What is shown once the command runs.
pub fn started_events(command: &str) -> (r: Vec<UserEvent>)
    ensures
        event::events(r@) == seq![
            EventView::EnterTerminal,
            EventView::Term("\r\n$ "@ + command@ + "\r\n"@),
        ],
{
    let mut s = String::from_str("\r\n$ ");
    s.append(command);
    s.append("\r\n");
    let mut events = event::no_events();
    event::emit(&mut events, UserEvent::EnterTerminal);
    event::emit(&mut events, UserEvent::Term(s));
    assert(event::events(events@) =~= seq![
        EventView::EnterTerminal,
        EventView::Term("\r\n$ "@ + command@ + "\r\n"@),
    ]);
    events
}

/// How a launch ends whose command cannot be started, and what is shown: nothing is to be tried
/// again.
pub fn start_failed(error: &str) -> (r: (LaunchOutcome, Vec<UserEvent>))
    ensures
        r.0 == LaunchOutcome::Abort,
        event::events(r.1@) == seq![EventView::Fatal("启动命令失败: "@ + error@)],
{
    let mut s = String::from_str("启动命令失败: ");
    s.append(error);
    let mut events = event::no_events();
    event::emit(&mut events, UserEvent::Fatal(s));
    assert(event::events(events@) =~= seq![EventView::Fatal("启动命令失败: "@ + error@)]);
    (LaunchOutcome::Abort, events)
}

// ---- environment ----------------------------------------------------------------------------

/// The options that are handed on to Node.js: those that older versions refuse are left out.
pub open spec fn kept_options(words: Seq<Seq<char>>) -> Seq<Seq<char>>
    decreases words.len(),
{
    if words.len() == 0 {
        Seq::empty()
    } else if text::starts_with(words.last(), "--use-system-ca"@) {
        kept_options(words.drop_last())
    } else {
        kept_options(words.drop_last()).push(words.last())
    }
}

/// Filters the value of `NODE_OPTIONS`; without a value there are no options.
pub fn filter_node_options(value: Option<&str>) -> (r: String)
    ensures
        r@ == (match value {
            Some(s) => text::join(kept_options(text::words(s@)), " "@),
            None => Seq::empty(),
        }),
{
    match value {
        Some(s) => {
            let cs = text::to_chars(s);
            let words = text::split_words(cs.as_slice());
            let ghost all = text::pieces(words@);
            let mut kept: Vec<Vec<char>> = Vec::new();
            let mut i: usize = 0;
            assert(text::pieces(kept@) =~= kept_options(all.take(0)));
            while i < words.len()
                invariant
                    i <= words@.len(),
                    all == text::pieces(words@),
                    text::pieces(kept@) == kept_options(all.take(i as int)),
                decreases words@.len() - i,
            {
                let ghost before = text::pieces(kept@);
                proof {
                    assert(all.take(i + 1).drop_last() =~= all.take(i as int));
                    assert(all.take(i + 1).last() == words@[i as int]@);
                }
                if !text::begins_with(words[i].as_slice(), "--use-system-ca") {
                    kept.push(text::copy_chars(words[i].as_slice()));
                    assert(text::pieces(kept@) =~= before.push(words@[i as int]@));
                }
                i += 1;
            }
            assert(all.take(i as int) =~= all);
            let out = text::join_chars(kept.as_slice(), " ");
            text::to_text(out.as_slice())
        },
        None => String::new(),
    }
}

/// The search path of the command: the directory of `npx` comes first, so that its own Node.js is
/// found. On Windows the separator differs.
pub open spec fn child_path(
    npx_dir: Seq<char>,
    inherited: Seq<char>,
    windows: bool,
) -> Seq<char> {
    if windows {
        npx_dir + ";"@ + inherited
    } else if npx_dir.len() == 0 {
        inherited
    } else {
        npx_dir + ":"@ + inherited
    }
}

/// Makes the search path of the command.
pub fn make_child_path(npx_dir: &str, inherited: &str, windows: bool) -> (r: String)
    ensures
        r@ == child_path(npx_dir@, inherited@, windows),
{
    if !windows && npx_dir.unicode_len() == 0 {
        return String::from_str(inherited);
    }
    let mut out = String::from_str(npx_dir);
    out.append(
        if windows {
            ";"
        } else {
            ":"
        },
    );
    out.append(inherited);
    out
}

/// The variables of an environment; a later value of a name replaces an earlier one.
pub open spec fn variables(env: Seq<(Seq<char>, Seq<char>)>) -> Map<Seq<char>, Seq<char>>
    decreases env.len(),
{
    if env.len() == 0 {
        Map::empty()
    } else {
        variables(env.drop_last()).insert(env.last().0, env.last().1)
    }
}

/// Whether every variable is there once.
pub open spec fn each_once(env: Seq<(Seq<char>, Seq<char>)>) -> bool {
    forall|i: int, j: int|
        0 <= i < j < env.len() ==> (#[trigger] env[i]).0 != (#[trigger] env[j]).0
}

proof fn variables_of_others(env: Seq<(Seq<char>, Seq<char>)>, name: Seq<char>)
    requires
        forall|i: int| 0 <= i < env.len() ==> (#[trigger] env[i]).0 != name,
    ensures
        !variables(env).contains_key(name),
    decreases env.len(),
{
    if env.len() > 0 {
        let front = env.drop_last();
        assert forall|i: int| 0 <= i < front.len() implies (#[trigger] front[i]).0 != name by {
            assert(front[i] == env[i]);
        }
        variables_of_others(front, name);
        assert(env[env.len() - 1].0 != name);
    }
}

proof fn variables_after_update(
    env: Seq<(Seq<char>, Seq<char>)>,
    k: int,
    name: Seq<char>,
    value: Seq<char>,
)
    requires
        0 <= k < env.len(),
        each_once(env),
        env[k].0 == name,
    ensures
        variables(env.update(k, (name, value))) =~= variables(env).insert(name, value),
        each_once(env.update(k, (name, value))),
    decreases env.len(),
{
    let new = env.update(k, (name, value));
    assert forall|i: int, j: int| 0 <= i < j < new.len() implies (#[trigger] new[i]).0 != (
    #[trigger] new[j]).0 by {
        assert(new[i].0 == env[i].0);
        assert(new[j].0 == env[j].0);
    }
    if k == env.len() - 1 {
        assert(new.drop_last() =~= env.drop_last());
    } else {
        let front = env.drop_last();
        assert forall|i: int, j: int| 0 <= i < j < front.len() implies (#[trigger] front[i]).0 != (
        #[trigger] front[j]).0 by {
            assert(front[i] == env[i] && front[j] == env[j]);
        }
        variables_after_update(front, k, name, value);
        assert(new.drop_last() =~= front.update(k, (name, value)));
        assert(env[k].0 != env[env.len() - 1].0);
    }
}

/// Sets a variable.
fn set_variable(env: &mut Vec<(String, String)>, name: &str, value: &str)
    requires
        each_once(text::text_pairs(old(env)@)),
    ensures
        each_once(text::text_pairs(final(env)@)),
        variables(text::text_pairs(final(env)@)) == variables(
            text::text_pairs(old(env)@),
        ).insert(name@, value@),
{
    let ghost was = text::text_pairs(env@);
    let mut i: usize = 0;
    while i < env.len()
        invariant
            i <= env@.len(),
            *env == *old(env),
            was == text::text_pairs(env@),
            each_once(was),
            forall|j: int| 0 <= j < i ==> (#[trigger] was[j]).0 != name@,
        decreases env@.len() - i,
    {
        if text::same_text(env[i].0.as_str(), name) {
            env.set(i, (String::from_str(name), String::from_str(value)));
            proof {
                variables_after_update(was, i as int, name@, value@);
                assert(text::text_pairs(env@) =~= was.update(i as int, (name@, value@)));
            }
            return;
        }
        assert(was[i as int].0 != name@);
        i += 1;
    }
    env.push((String::from_str(name), String::from_str(value)));
    proof {
        let now = text::text_pairs(env@);
        assert(now =~= was.push((name@, value@)));
        assert(now.drop_last() =~= was);
        assert(each_once(now));
    }
}

/// The environment of the command: that of this process, with its search path and its options
/// replaced, and with questions of npm answered. In a terminal it also says which terminal it is,
/// and asks for colours.
pub open spec fn child_variables(
    inherited: Map<Seq<char>, Seq<char>>,
    path: Seq<char>,
    node_options: Seq<char>,
    terminal: bool,
) -> Map<Seq<char>, Seq<char>> {
    let env = inherited.insert("PATH"@, path).insert("NODE_OPTIONS"@, node_options).insert(
        "npm_config_yes"@,
        "true"@,
    );
    if terminal {
        env.insert("TERM"@, "xterm-256color"@).insert("FORCE_COLOR"@, "1"@)
    } else {
        env
    }
}

/// Makes the environment of the command, each variable once.
pub fn child_env(
    inherited: &[(String, String)],
    path: &str,
    node_options: &str,
    terminal: bool,
) -> (r: Vec<(String, String)>)
    ensures
        each_once(text::text_pairs(r@)),
        variables(text::text_pairs(r@)) == child_variables(
            variables(text::text_pairs(inherited@)),
            path@,
            node_options@,
            terminal,
        ),
{
    let ghost all = text::text_pairs(inherited@);
    let mut env: Vec<(String, String)> = Vec::new();
    let mut i: usize = 0;
    assert(text::text_pairs(env@) =~= Seq::<(Seq<char>, Seq<char>)>::empty());
    assert(variables(text::text_pairs(env@)) =~= variables(all.take(0)));
    while i < inherited.len()
        invariant
            i <= inherited@.len(),
            all == text::text_pairs(inherited@),
            each_once(text::text_pairs(env@)),
            variables(text::text_pairs(env@)) == variables(all.take(i as int)),
        decreases inherited@.len() - i,
    {
        proof {
            assert(all.take(i + 1).drop_last() =~= all.take(i as int));
            assert(all.take(i + 1).last() == all[i as int]);
        }
        set_variable(&mut env, inherited[i].0.as_str(), inherited[i].1.as_str());
        i += 1;
    }
    assert(all.take(i as int) =~= all);
    set_variable(&mut env, "PATH", path);
    set_variable(&mut env, "NODE_OPTIONS", node_options);
    set_variable(&mut env, "npm_config_yes", "true");
    if terminal {
        set_variable(&mut env, "TERM", "xterm-256color");
        set_variable(&mut env, "FORCE_COLOR", "1");
    }
    env
}

// ---- the port -------------------------------------------------------------------------------

/// What is shown when the port is taken for good.
pub const PORT_TAKEN: &'static str =
    "端口 127.0.0.1:3080 已被其他进程占用（可能是上次未退出的 dsh 服务），且无法自动清理。\n请先在终端执行：\n  lsof -iTCP:3080 -sTCP:LISTEN\n找到对应的 PID 后，用 kill -9 <PID> 结束它，再重新打开本应用。";

/// What is shown while the port is made free.
pub fn port_busy_events() -> (r: Vec<UserEvent>)
    ensures
        event::events(r@) == seq![EventView::Stage("端口 3080 被占用，正在清理残留进程…"@)],
{
    let mut events = event::no_events();
    event::emit(
        &mut events,
        UserEvent::Stage(String::from_str("端口 3080 被占用，正在清理残留进程…")),
    );
    assert(event::events(events@) =~= seq![
        EventView::Stage("端口 3080 被占用，正在清理残留进程…"@),
    ]);
    events
}

/// The process numbers in lines; what is no number is left out.
pub open spec fn pids(lines: Seq<Seq<char>>) -> Seq<int>
    decreases lines.len(),
{
    if lines.len() == 0 {
        Seq::empty()
    } else {
        let before = pids(lines.drop_last());
        match number::i32_value(text::trim(lines.last())) {
            Some(n) => before.push(n),
            None => before,
        }
    }
}

/// Process numbers as integers.
pub open spec fn as_ints(v: Seq<i32>) -> Seq<int> {
    Seq::new(v.len(), |i: int| v[i] as int)
}

/// Reads the numbers of the processes that listen, one on each line.
pub fn read_pids(s: &str) -> (r: Vec<i32>)
    ensures
        as_ints(r@) == pids(text::lines(s@)),
{
    let cs = text::to_chars(s);
    let lines = text::split_lines(cs.as_slice());
    let ghost all = text::pieces(lines@);
    let mut out: Vec<i32> = Vec::new();
    let mut i: usize = 0;
    assert(as_ints(out@) =~= pids(all.take(0)));
    while i < lines.len()
        invariant
            i <= lines@.len(),
            all == text::pieces(lines@),
            as_ints(out@) == pids(all.take(i as int)),
        decreases lines@.len() - i,
    {
        let ghost before = as_ints(out@);
        proof {
            assert(all.take(i + 1).drop_last() =~= all.take(i as int));
            assert(all.take(i + 1).last() == lines@[i as int]@);
        }
        match number::read_i32(text::trimmed(lines[i].as_slice())) {
            Some(n) => {
                out.push(n);
                assert(as_ints(out@) =~= before.push(n as int));
            },
            None => {},
        }
        i += 1;
    }
    assert(all.take(i as int) =~= all);
    out
}

/// Reads the numbers of the processes that listen from the output of `lsof`.
pub fn listening_pids(output: &[u8]) -> (r: Vec<i32>)
    ensures
        as_ints(r@) == pids(text::lines(utf8::lossy_text(output@))),
{
    let s = utf8::lossy(output);
    read_pids(s.as_str())
}

/// What `str::to_lowercase` of std makes of a text.
pub uninterp spec fn lowercase_text(s: Seq<char>) -> Seq<char>;

/// `str::to_lowercase` of std: the result depends on the text alone, and of a text in ASCII only the
/// letters `A` to `Z` are replaced. Which other characters it replaces is left unsaid.
#[verifier::external_body]
fn lowercase(s: &str) -> (r: String)
    ensures
        r@ == lowercase_text(s@),
        (forall|i: int| 0 <= i < s@.len() ==> #[trigger] s@[i] <= '\u{7f}') ==> r@
            == text::ascii_lowercase(s@),
{
    s.to_lowercase()
}

/// Whether a command in lower case is one that a launch may have left behind.
pub open spec fn names_service(command: Seq<char>) -> bool {
    text::contains(command, "dsh"@) || text::contains(command, "node"@)
}

/// Tests whether a command in lower case is one that a launch may have left behind.
pub fn is_service_command(command: &str) -> (r: bool)
    ensures
        r == names_service(command@),
{
    let cs = text::to_chars(command);
    text::has_str(cs.as_slice(), "dsh") || text::has_str(cs.as_slice(), "node")
}

/// Tests whether a process is one that a launch may have left behind, from the output of `ps`.
/// Only such a process is ended.
pub fn is_own_process(output: &[u8]) -> (r: bool)
    ensures
        r == names_service(lowercase_text(utf8::lossy_text(output@))),
{
    let s = utf8::lossy(output);
    let lower = lowercase(s.as_str());
    is_service_command(lower.as_str())
}

/// Whether the port is free after processes were ended, and if it is not, how the launch ends and
/// what is shown: `killed` tells whether one was ended, `busy` whether the port answers still.
pub fn port_verdict(killed: bool, busy: bool) -> (r: Result<(), (LaunchOutcome, Vec<UserEvent>)>)
    ensures
        match r {
            Ok(_) => killed && !busy,
            Err((outcome, e)) => !(killed && !busy) && outcome == LaunchOutcome::Abort
                && event::events(e@) == seq![EventView::Fatal(PORT_TAKEN@)],
        },
{
    if killed && !busy {
        return Ok(());
    }
    let mut events = event::no_events();
    event::emit(&mut events, event::fatal(PORT_TAKEN));
    assert(event::events(events@) =~= seq![EventView::Fatal(PORT_TAKEN@)]);
    Err((LaunchOutcome::Abort, events))
}

// ---- laws -----------------------------------------------------------------------------------

proof fn kept_options_are_kept(words: Seq<Seq<char>>)
    ensures
        forall|i: int|
            0 <= i < kept_options(words).len() ==> words.contains(
                #[trigger] kept_options(words)[i],
            ) && !text::starts_with(kept_options(words)[i], "--use-system-ca"@),
        forall|i: int|
            0 <= i < words.len() && !text::starts_with(#[trigger] words[i], "--use-system-ca"@)
                ==> kept_options(words).contains(words[i]),
    decreases words.len(),
{
    let kept = kept_options(words);
    if words.len() > 0 {
        let front = words.drop_last();
        let before = kept_options(front);
        kept_options_are_kept(front);
        assert forall|i: int| 0 <= i < kept.len() implies words.contains(#[trigger] kept[i])
            && !text::starts_with(kept[i], "--use-system-ca"@) by {
            if i < before.len() {
                assert(kept[i] == before[i]);
                let j = choose|j: int| 0 <= j < front.len() && front[j] == before[i];
                assert(words[j] == kept[i]);
            } else {
                assert(words[words.len() - 1] == kept[i]);
            }
        }
        assert forall|i: int|
            0 <= i < words.len() && !text::starts_with(
                #[trigger] words[i],
                "--use-system-ca"@,
            ) implies kept.contains(words[i]) by {
            if i < front.len() {
                assert(front[i] == words[i]);
                let j = choose|j: int| 0 <= j < before.len() && before[j] == front[i];
                assert(kept[j] == words[i]);
            } else {
                assert(kept[kept.len() - 1] == words[i]);
            }
        }
    } else {
        assert(kept.len() == 0);
    }
}

proof fn kept_options_stay(words: Seq<Seq<char>>)
    requires
        forall|i: int|
            0 <= i < words.len() ==> !text::starts_with(#[trigger] words[i], "--use-system-ca"@),
    ensures
        kept_options(words) == words,
    decreases words.len(),
{
    if words.len() > 0 {
        let front = words.drop_last();
        assert forall|i: int| 0 <= i < front.len() implies !text::starts_with(
            #[trigger] front[i],
            "--use-system-ca"@,
        ) by {
            assert(front[i] == words[i]);
        }
        kept_options_stay(front);
        assert(!text::starts_with(words[words.len() - 1], "--use-system-ca"@));
        assert(front.push(words.last()) =~= words);
    } else {
        assert(kept_options(words) =~= words);
    }
}

/// The options that Node.js gets hold none that an older version refuses, and all others: reading
/// the filtered value gives exactly the options that were kept, and filtering it again changes
/// nothing.
pub proof fn refused_options_are_left_out(value: Seq<char>)
    ensures
        ({
            let filtered = text::join(kept_options(text::words(value)), " "@);
            &&& text::words(filtered) == kept_options(text::words(value))
            &&& forall|i: int|
                0 <= i < text::words(filtered).len() ==> !text::starts_with(
                    #[trigger] text::words(filtered)[i],
                    "--use-system-ca"@,
                )
            &&& forall|i: int|
                0 <= i < text::words(value).len() && !text::starts_with(
                    #[trigger] text::words(value)[i],
                    "--use-system-ca"@,
                ) ==> text::words(filtered).contains(text::words(value)[i])
            &&& text::join(kept_options(text::words(filtered)), " "@) == filtered
        }),
{
    let words = text::words(value);
    let kept = kept_options(words);
    kept_options_are_kept(words);
    text::words_are_words(value);
    assert forall|i: int| 0 <= i < kept.len() implies (#[trigger] kept[i]).len() > 0
        && !text::has_white_space(kept[i]) by {
        let j = choose|j: int| 0 <= j < words.len() && words[j] == kept[i];
        assert(words[j].len() > 0);
    }
    text::words_of_joined(kept);
    kept_options_stay(kept);
}

/// Of two variables that a launch sets, neither hides the other, and every other variable of this
/// process is handed on.
pub proof fn other_variables_are_handed_on(
    inherited: Map<Seq<char>, Seq<char>>,
    path: Seq<char>,
    node_options: Seq<char>,
    terminal: bool,
    name: Seq<char>,
)
    requires
        inherited.contains_key(name),
        name != "PATH"@,
        name != "NODE_OPTIONS"@,
        name != "npm_config_yes"@,
        terminal ==> name != "TERM"@ && name != "FORCE_COLOR"@,
    ensures
        ({
            let env = child_variables(inherited, path, node_options, terminal);
            &&& env.contains_key(name)
            &&& env[name] == inherited[name]
            &&& env["PATH"@] == path
            &&& env["NODE_OPTIONS"@] == node_options
        }),
{
    reveal_strlit("PATH");
    reveal_strlit("NODE_OPTIONS");
    reveal_strlit("npm_config_yes");
    reveal_strlit("TERM");
    reveal_strlit("FORCE_COLOR");
    assert("PATH"@[0] == 'P' && "TERM"@[0] == 'T');
    assert("PATH"@.len() == 4 && "NODE_OPTIONS"@.len() == 12 && "npm_config_yes"@.len() == 14
        && "FORCE_COLOR"@.len() == 11);
}

} // verus!
