//! Waiting for the service: until its port answers, and then until its address is known.
//!
//! Times are in milliseconds, from any fixed start.

use crate::event;
use crate::event::{EventView, UserEvent};
use crate::launch::TARGET_URL;
use crate::number;
use crate::terminal::LaunchOutcome;
use crate::text;
use vstd::prelude::*;
use vstd::string::*;

verus! {

// ---- the port -------------------------------------------------------------------------------

/// How often the port is tried: about ten minutes, with [`POLL_PAUSE_MS`] in between.
pub const MAX_POLLS: u32 = 1200;

/// The pause between two tries.
pub const POLL_PAUSE_MS: u64 = 500;

/// How long the command is silent before the user is told that it still runs, and how long until
/// they are told again.
pub const HEARTBEAT_MS: u64 = 4000;

/// What the user is told while the command is silent.
pub const STILL_RUNNING: &'static str =
    "命令仍在运行，正在下载 / 初始化依赖（首次运行通常较慢），请稍候…";

/// Waiting for the port.
#[derive(Clone, Copy, Debug, PartialEq, Eq, Structural)]
pub struct PortWait {
    /// How often the port was tried.
    pub polls: u32,
    /// When the user was last told that the command still runs.
    pub last_beat: Option<u64>,
}

/// What one try of the port leads to.
pub enum Poll {
    /// The service is ready.
    Ready,
    /// Show this, and try again after a pause.
    Again(Vec<UserEvent>),
}

/// A [`Poll`] as a mathematical value.
#[verifier::ext_equal]
pub enum PollView {
    Ready,
    Again(Seq<EventView>),
}

impl View for Poll {
    type V = PollView;

    open spec fn view(&self) -> PollView {
        match self {
            Poll::Ready => PollView::Ready,
            Poll::Again(e) => PollView::Again(event::events(e@)),
        }
    }
}

/// Whether the user is told now that the command still runs.
pub open spec fn beats(w: PortWait, exited: bool, silent: u64, now: u64) -> bool {
    &&& silent >= HEARTBEAT_MS
    &&& match w.last_beat {
        Some(b) => now - b >= HEARTBEAT_MS,
        None => true,
    }
    &&& !exited
}

/// Whether the port is tried once more, and how the wait goes on.
pub open spec fn after_next(w: PortWait, exited: bool) -> (PortWait, bool) {
    if w.polls < MAX_POLLS && !exited {
        (PortWait { polls: (w.polls + 1) as u32, last_beat: w.last_beat }, true)
    } else {
        (w, false)
    }
}

/// What a try of the port leads to, and how the wait goes on.
pub open spec fn after_poll(
    w: PortWait,
    connected: bool,
    exited: bool,
    silent: u64,
    now: u64,
) -> (PortWait, PollView) {
    if connected {
        (w, PollView::Ready)
    } else if beats(w, exited, silent, now) {
        (
            PortWait { polls: w.polls, last_beat: Some(now) },
            PollView::Again(seq![EventView::Status(STILL_RUNNING@)]),
        )
    } else {
        (w, PollView::Again(Seq::empty()))
    }
}

impl PortWait {
    /// Before the first try.
    pub fn new() -> (r: PortWait)
        ensures
            r == (PortWait { polls: 0, last_beat: None }),
    {
        PortWait { polls: 0, last_beat: None }
    }

    /// Whether the port is tried once more: not after the command has ended, nor after the last
    /// try.
    pub fn next(&mut self, exited: bool) -> (r: bool)
        ensures
            (*final(self), r) == after_next(*old(self), exited),
    {
        if self.polls < MAX_POLLS && !exited {
            self.polls = self.polls + 1;
            true
        } else {
            false
        }
    }

    /// What a try leads to: `connected` tells whether the port answered, `exited` whether the
    /// command has ended, `silent` for how long it has shown nothing.
    pub fn on_poll(&mut self, connected: bool, exited: bool, silent: u64, now: u64) -> (r: Poll)
        ensures
            (*final(self), r@) == after_poll(*old(self), connected, exited, silent, now),
    {
        if connected {
            return Poll::Ready;
        }
        let mut events = event::no_events();
        let due = match self.last_beat {
            Some(b) => now >= b && now - b >= HEARTBEAT_MS,
            None => true,
        };
        if silent >= HEARTBEAT_MS && due && !exited {
            event::emit(&mut events, event::status(STILL_RUNNING));
            self.last_beat = Some(now);
            assert(event::events(events@) =~= seq![EventView::Status(STILL_RUNNING@)]);
        }
        Poll::Again(events)
    }
}

/// The outcome of a launch whose port never answered.
pub fn not_ready(exited: bool) -> (r: LaunchOutcome)
    ensures
        r == (LaunchOutcome::Failed { crashed: exited }),
{
    LaunchOutcome::Failed { crashed: exited }
}

// ---- the address ----------------------------------------------------------------------------

/// How often the address is looked for once the port answers: about half a minute, with
/// [`URL_PAUSE_MS`] in between.
pub const MAX_URL_TICKS: u32 = 300;

/// The pause before each look.
pub const URL_PAUSE_MS: u64 = 100;

/// After how many looks the user is told again that the address is missing.
pub const URL_NOTE_TICKS: u32 = 30;

/// What the user is told when the port answers before the address is known.
pub const WAITING_FOR_URL: &'static str = "服务端口已就绪，正在等待认证 URL…";

/// What the user is told when the address is not known in time.
pub const NO_URL_YET: &'static str =
    "暂未获取到认证 URL，先用默认地址打开；解析到认证地址后会自动跳转…";

/// What the user is told when the address is known after all.
pub const LATE_URL: &'static str = "已获取认证 URL，正在重新打开页面…";

/// Waiting for the address.
#[derive(Clone, Copy, Debug, PartialEq, Eq, Structural)]
pub struct UrlWait {
    /// How often the address was looked for.
    pub ticks: u32,
}

/// What the user is told after a number of looks, counted from zero.
pub open spec fn url_note(tick: nat) -> Seq<EventView> {
    if tick > 0 && tick % (URL_NOTE_TICKS as nat) == 0 {
        seq![
            EventView::Status(
                "仍在等待认证 URL（"@ + number::decimal(tick / 10)
                    + "s），可在上方终端查看 dsh 输出…"@,
            ),
        ]
    } else {
        Seq::empty()
    }
}

impl UrlWait {
    /// Before the first look, with what the user is told.
    pub fn new() -> (r: (UrlWait, Vec<UserEvent>))
        ensures
            r.0 == (UrlWait { ticks: 0 }),
            event::events(r.1@) == seq![EventView::Status(WAITING_FOR_URL@)],
    {
        let mut events = event::no_events();
        event::emit(&mut events, event::status(WAITING_FOR_URL));
        assert(event::events(events@) =~= seq![EventView::Status(WAITING_FOR_URL@)]);
        (UrlWait { ticks: 0 }, events)
    }

    /// Whether the address is looked for once more, after a pause.
    pub fn next(&self, exited: bool) -> (r: bool)
        ensures
            r == (self.ticks < MAX_URL_TICKS && !exited),
    {
        self.ticks < MAX_URL_TICKS && !exited
    }

    /// Goes on after a look that found nothing.
    pub fn on_missing(&mut self) -> (r: Vec<UserEvent>)
        requires
            old(self).ticks < MAX_URL_TICKS,
        ensures
            *final(self) == (UrlWait { ticks: (old(self).ticks + 1) as u32 }),
            event::events(r@) == url_note(old(self).ticks as nat),
    {
        let mut events = event::no_events();
        let tick: u32 = self.ticks;
        if tick > 0 && tick % URL_NOTE_TICKS == 0 {
            let n = number::decimal_text((tick / 10) as u64);
            let mut s = String::from_str("仍在等待认证 URL（");
            s.append(n.as_str());
            s.append("s），可在上方终端查看 dsh 输出…");
            event::emit(&mut events, UserEvent::Status(s));
        }
        self.ticks = tick + 1;
        assert(event::events(events@) =~= url_note(tick as nat));
        events
    }
}

/// What opens the page of the service.
pub open spec fn open_page(url: Seq<char>) -> Seq<EventView> {
    seq![EventView::Status("正在打开页面: "@ + url), EventView::ServerReady(url)]
}

/// What is shown when the service is ready. Without an address the bare one is opened.
pub open spec fn ready_events(url: Option<Seq<char>>) -> Seq<EventView> {
    match url {
        Some(u) => open_page(u),
        None => seq![EventView::Status(NO_URL_YET@)] + open_page(TARGET_URL@),
    }
}

/// Opens the page of the service, at its address where that is known: the launch has come to its
/// end. The flag tells to go on looking for the address.
pub fn navigate(url: Option<&str>) -> (r: (LaunchOutcome, Vec<UserEvent>, bool))
    ensures
        r.0 == LaunchOutcome::Ready,
        event::events(r.1@) == ready_events(text::opt_str(url)),
        r.2 == (url is None),
{
    let mut events = event::no_events();
    let (target, watch) = match url {
        Some(u) => (String::from_str(u), false),
        None => {
            event::emit(&mut events, event::status(NO_URL_YET));
            (String::from_str(TARGET_URL), true)
        },
    };
    let mut s = String::from_str("正在打开页面: ");
    s.append(target.as_str());
    event::emit(&mut events, UserEvent::Status(s));
    event::emit(&mut events, UserEvent::ServerReady(target));
    assert(event::events(events@) =~= ready_events(text::opt_str(url)));
    (LaunchOutcome::Ready, events, watch)
}

/// Looking for the address after the bare one was opened.
#[derive(Clone, Copy, Debug, PartialEq, Eq, Structural)]
pub struct LateWatch {
    /// How often it was looked for.
    pub polls: u32,
}

/// What one late look leads to.
pub enum Watch {
    /// Stop looking.
    Stop,
    /// Open the page again, and stop looking.
    Found(Vec<UserEvent>),
    /// Look again after a pause.
    Again,
}

/// A [`Watch`] as a mathematical value.
#[verifier::ext_equal]
pub enum WatchView {
    Stop,
    Found(Seq<EventView>),
    Again,
}

impl View for Watch {
    type V = WatchView;

    open spec fn view(&self) -> WatchView {
        match self {
            Watch::Stop => WatchView::Stop,
            Watch::Found(e) => WatchView::Found(event::events(e@)),
            Watch::Again => WatchView::Again,
        }
    }
}

/// What a late look leads to, and how the watch goes on.
pub open spec fn after_look(
    w: LateWatch,
    exited: bool,
    url: Option<Seq<char>>,
) -> (LateWatch, WatchView) {
    if w.polls >= MAX_POLLS || exited {
        (w, WatchView::Stop)
    } else {
        match url {
            Some(u) => (
                w,
                WatchView::Found(
                    seq![EventView::Status(LATE_URL@), EventView::ServerReady(u)],
                ),
            ),
            None => (LateWatch { polls: (w.polls + 1) as u32 }, WatchView::Again),
        }
    }
}

impl LateWatch {
    /// Before the first look.
    pub fn new() -> (r: LateWatch)
        ensures
            r == (LateWatch { polls: 0 }),
    {
        LateWatch { polls: 0 }
    }

    /// Looks once: the command may have ended, and the address may be known.
    pub fn step(&mut self, exited: bool, url: Option<&str>) -> (r: Watch)
        ensures
            (*final(self), r@) == after_look(*old(self), exited, text::opt_str(url)),
    {
        if self.polls >= MAX_POLLS || exited {
            return Watch::Stop;
        }
        match url {
            Some(u) => {
                let mut events = event::no_events();
                event::emit(&mut events, event::status(LATE_URL));
                event::emit(&mut events, UserEvent::ServerReady(String::from_str(u)));
                assert(event::events(events@) =~= seq![
                    EventView::Status(LATE_URL@),
                    EventView::ServerReady(u@),
                ]);
                Watch::Found(events)
            },
            None => {
                self.polls = self.polls + 1;
                Watch::Again
            },
        }
    }
}

// ---- laws -----------------------------------------------------------------------------------

/// Of two times at which the user is told that the command still runs, the second is at least the
/// pause after the first; and it is told only of a command that runs and has been silent.
pub proof fn heartbeats_are_apart(w: PortWait, first: u64, silent: u64, exited: bool, second: u64)
    requires
        w.last_beat == Some(first),
        beats(w, exited, silent, second),
    ensures
        second - first >= HEARTBEAT_MS,
        silent >= HEARTBEAT_MS,
        !exited,
{
}

} // verus!
