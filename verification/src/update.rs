//! The course of an update: download the package, verify its signature, install it.

use crate::event;
use crate::event::{EventView, UserEvent};
use crate::release;
use crate::signature;
use vstd::prelude::*;
use vstd::string::*;

verus! {

/// How far an update has come.
#[derive(Clone, Copy, Debug, PartialEq, Eq, Structural)]
pub enum Stage {
    /// A place for the package is found.
    Locating,
    /// That place is made.
    Preparing,
    /// The package is downloaded.
    Downloading,
    /// The signature is downloaded.
    Fetching,
    /// The signature is read.
    Reading,
    /// The package is verified.
    Verifying,
    /// The package is installed.
    Installing,
    /// The update is over.
    Over,
}

/// How a step of the update went.
pub enum Outcome {
    /// It went well.
    Good,
    /// It failed; the text says why.
    Bad(String),
}

/// An [`Outcome`] as a mathematical value.
#[verifier::ext_equal]
pub enum OutcomeView {
    Good,
    Bad(Seq<char>),
}

impl View for Outcome {
    type V = OutcomeView;

    open spec fn view(&self) -> OutcomeView {
        match self {
            Outcome::Good => OutcomeView::Good,
            Outcome::Bad(e) => OutcomeView::Bad(e@),
        }
    }
}

/// An update: the tag of the release, the name of the package, where it is downloaded from, the
/// directory that it is downloaded to, and the key that it has to be signed with.
pub struct Update {
    pub tag: String,
    pub name: String,
    pub url: String,
    pub dir: String,
    pub key: String,
    pub stage: Stage,
}

/// An [`Update`] as a mathematical value.
#[verifier::ext_equal]
pub struct UpdateView {
    pub tag: Seq<char>,
    pub name: Seq<char>,
    pub url: Seq<char>,
    pub dir: Seq<char>,
    pub key: Seq<char>,
    pub stage: Stage,
}

impl View for Update {
    type V = UpdateView;

    open spec fn view(&self) -> UpdateView {
        UpdateView {
            tag: self.tag@,
            name: self.name@,
            url: self.url@,
            dir: self.dir@,
            key: self.key@,
            stage: self.stage,
        }
    }
}

/// What a step leads to.
pub struct Step {
    /// Whether the package is removed.
    pub remove_package: bool,
    /// Whether the signature is removed.
    pub remove_signature: bool,
    /// What to tell the window, in order.
    pub events: Vec<UserEvent>,
}

/// What a step leads to, and the stage that follows.
#[verifier::ext_equal]
pub struct StepView {
    pub stage: Stage,
    pub remove_package: bool,
    pub remove_signature: bool,
    pub events: Seq<EventView>,
}

/// What is said at the end of an update that was skipped.
pub const SKIPPED: &'static str = "  本次跳过升级，不影响使用。\r\n";

/// The stage that follows where a step went well.
pub open spec fn next_stage(s: Stage) -> Stage {
    match s {
        Stage::Locating => Stage::Preparing,
        Stage::Preparing => Stage::Downloading,
        Stage::Downloading => Stage::Fetching,
        Stage::Fetching => Stage::Reading,
        Stage::Reading => Stage::Verifying,
        Stage::Verifying => Stage::Installing,
        Stage::Installing => Stage::Over,
        Stage::Over => Stage::Over,
    }
}

/// What is shown where a step went well.
pub open spec fn good_events(u: UpdateView) -> Seq<EventView> {
    match u.stage {
        Stage::Preparing => seq![EventView::Term("  正在下载 "@ + u.name + " …\r\n"@)],
        Stage::Downloading => seq![
            EventView::UpdateProgress(100),
            EventView::Term("\r\n"@),
            EventView::Term("  ✓ 下载完成，正在验证签名…\r\n"@),
        ],
        Stage::Verifying => seq![
            EventView::Term("  ✓ 签名验证通过\r\n"@),
            EventView::Term("  ✓ 正在安装…\r\n"@),
        ],
        Stage::Installing => seq![
            EventView::Term(
                "✓ 已升级到 v"@ + release::bare_tag(u.tag)
                    + "，重启应用（关闭窗口后重新打开）即生效。\r\n"@,
            ),
            EventView::Status("已升级到 v"@ + release::bare_tag(u.tag) + "，重启应用后生效"@),
            EventView::UpdateDone(u.tag),
        ],
        _ => Seq::empty(),
    }
}

/// What is shown where a step failed.
pub open spec fn bad_events(u: UpdateView, e: Seq<char>) -> Seq<EventView> {
    match u.stage {
        Stage::Locating => seq![
            EventView::UpdateFailed("无法定位缓存目录"@),
            EventView::Term("  ✗ 升级失败："@ + e + "\r\n"@),
        ],
        Stage::Preparing => seq![
            EventView::UpdateFailed("无法创建缓存目录"@),
            EventView::Term(
                "  ✗ 升级失败：无法创建缓存目录 "@ + u.dir + ": "@ + e + "\r\n"@,
            ),
        ],
        Stage::Downloading => seq![
            EventView::UpdateFailed("下载失败，已跳过本次升级"@),
            EventView::Term(
                "  ✗ 升级包下载失败（"@ + u.url + "）。"@ + e
                    + "本次跳过升级，不影响使用。\r\n"@,
            ),
        ],
        Stage::Fetching => seq![
            EventView::UpdateFailed("签名文件下载失败"@),
            EventView::Term("  ✗ 签名文件下载失败，无法验证更新包完整性。\r\n"@),
            EventView::Term(SKIPPED@),
        ],
        Stage::Reading => seq![
            EventView::UpdateFailed("无法读取签名文件"@),
            EventView::Term("  ✗ 无法读取签名文件: "@ + e + "\r\n"@),
        ],
        Stage::Verifying => seq![
            EventView::UpdateFailed("签名验证失败"@),
            EventView::Term("  ✗ 签名验证失败: "@ + e + "\r\n"@),
            EventView::Term(SKIPPED@),
        ],
        Stage::Installing => seq![
            EventView::UpdateFailed("升级失败，已跳过"@),
            EventView::Term("  ✗ 升级失败："@ + e + "\r\n"@),
        ],
        Stage::Over => Seq::empty(),
    }
}

/// What a step leads to. A step that fails ends the update. What was downloaded is removed as soon
/// as the update ends.
pub open spec fn step_of(u: UpdateView, o: OutcomeView) -> StepView {
    match o {
        OutcomeView::Good => StepView {
            stage: next_stage(u.stage),
            remove_package: u.stage == Stage::Installing,
            remove_signature: u.stage == Stage::Installing,
            events: good_events(u),
        },
        OutcomeView::Bad(e) => StepView {
            stage: Stage::Over,
            remove_package: u.stage != Stage::Locating && u.stage != Stage::Preparing && u.stage
                != Stage::Over,
            remove_signature: u.stage == Stage::Reading || u.stage == Stage::Verifying || u.stage
                == Stage::Installing,
            events: bad_events(u, e),
        },
    }
}

/// What is shown where there is nothing to download with.
pub open spec fn no_runtime_events(e: Seq<char>) -> Seq<EventView> {
    seq![
        EventView::UpdateFailed("初始化运行时失败: "@ + e),
        EventView::Term("  ✗ 下载失败："@ + e + "\r\n"@),
    ]
}

/// How the verification of a package went, which may not even be readable.
pub open spec fn verification_outcome(
    key: Seq<char>,
    package: Result<Seq<u8>, Seq<char>>,
    sig: Seq<char>,
) -> OutcomeView {
    match package {
        Ok(data) => match signature::verification(key, data, sig) {
            Ok(_) => OutcomeView::Good,
            Err(e) => OutcomeView::Bad(e),
        },
        Err(e) => OutcomeView::Bad("无法读取文件进行签名验证: "@ + e),
    }
}

fn said(a: &str, b: &str, c: &str) -> (r: UserEvent)
    ensures
        r@ == EventView::Term(a@ + b@ + c@),
{
    let mut s = String::from_str(a);
    s.append(b);
    s.append(c);
    UserEvent::Term(s)
}

impl Update {
    /// An update to the release with this tag, on this platform, with a package that is signed with
    /// the key of this application.
    pub fn new(tag: &str, os: &str, arch: &str, dir: &str) -> (r: Update)
        ensures
            r@ == ({
                let name = release::package_name(os@, arch@);
                UpdateView {
                    tag: tag@,
                    name,
                    url: release::package_url(tag@, name),
                    dir: dir@,
                    key: signature::UPDATER_PUBKEY@,
                    stage: Stage::Locating,
                }
            }),
    {
        let name = release::asset_name(os, arch);
        let url = release::download_url(tag, name.as_str());
        Update {
            tag: String::from_str(tag),
            name,
            url,
            dir: String::from_str(dir),
            key: String::from_str(signature::UPDATER_PUBKEY),
            stage: Stage::Locating,
        }
    }

    fn make_good_events(&self) -> (r: Vec<UserEvent>)
        ensures
            event::events(r@) == good_events(self@),
    {
        let mut events = event::no_events();
        match self.stage {
            Stage::Preparing => {
                event::emit(&mut events, said("  正在下载 ", self.name.as_str(), " …\r\n"));
            },
            Stage::Downloading => {
                event::emit(&mut events, UserEvent::UpdateProgress(100));
                event::emit(&mut events, event::term("\r\n"));
                event::emit(&mut events, event::term("  ✓ 下载完成，正在验证签名…\r\n"));
            },
            Stage::Verifying => {
                event::emit(&mut events, event::term("  ✓ 签名验证通过\r\n"));
                event::emit(&mut events, event::term("  ✓ 正在安装…\r\n"));
            },
            Stage::Installing => {
                let ver = release::strip_tag(self.tag.as_str());
                event::emit(
                    &mut events,
                    said(
                        "✓ 已升级到 v",
                        ver.as_str(),
                        "，重启应用（关闭窗口后重新打开）即生效。\r\n",
                    ),
                );
                let mut s = String::from_str("已升级到 v");
                s.append(ver.as_str());
                s.append("，重启应用后生效");
                event::emit(&mut events, UserEvent::Status(s));
                event::emit(
                    &mut events,
                    UserEvent::UpdateDone(String::from_str(self.tag.as_str())),
                );
            },
            _ => {},
        }
        assert(event::events(events@) =~= good_events(self@));
        events
    }

    fn make_bad_events(&self, e: &str) -> (r: Vec<UserEvent>)
        ensures
            event::events(r@) == bad_events(self@, e@),
    {
        let mut events = event::no_events();
        match self.stage {
            Stage::Locating => {
                event::emit(&mut events, event::update_failed("无法定位缓存目录"));
                event::emit(&mut events, said("  ✗ 升级失败：", e, "\r\n"));
            },
            Stage::Preparing => {
                event::emit(&mut events, event::update_failed("无法创建缓存目录"));
                let mut s = String::from_str("  ✗ 升级失败：无法创建缓存目录 ");
                s.append(self.dir.as_str());
                s.append(": ");
                s.append(e);
                s.append("\r\n");
                event::emit(&mut events, UserEvent::Term(s));
            },
            Stage::Downloading => {
                event::emit(&mut events, event::update_failed("下载失败，已跳过本次升级"));
                let mut s = String::from_str("  ✗ 升级包下载失败（");
                s.append(self.url.as_str());
                s.append("）。");
                s.append(e);
                s.append("本次跳过升级，不影响使用。\r\n");
                event::emit(&mut events, UserEvent::Term(s));
            },
            Stage::Fetching => {
                event::emit(&mut events, event::update_failed("签名文件下载失败"));
                event::emit(
                    &mut events,
                    event::term("  ✗ 签名文件下载失败，无法验证更新包完整性。\r\n"),
                );
                event::emit(&mut events, event::term(SKIPPED));
            },
            Stage::Reading => {
                event::emit(&mut events, event::update_failed("无法读取签名文件"));
                event::emit(&mut events, said("  ✗ 无法读取签名文件: ", e, "\r\n"));
            },
            Stage::Verifying => {
                event::emit(&mut events, event::update_failed("签名验证失败"));
                event::emit(&mut events, said("  ✗ 签名验证失败: ", e, "\r\n"));
                event::emit(&mut events, event::term(SKIPPED));
            },
            Stage::Installing => {
                event::emit(&mut events, event::update_failed("升级失败，已跳过"));
                event::emit(&mut events, said("  ✗ 升级失败：", e, "\r\n"));
            },
            Stage::Over => {},
        }
        assert(event::events(events@) =~= bad_events(self@, e@));
        events
    }

    /// Goes on after a step of the update, other than the verification.
    pub fn step(&mut self, outcome: &Outcome) -> (r: Step)
        requires
            old(self)@.stage != Stage::Verifying,
        ensures
            step_of(old(self)@, outcome@) == (StepView {
                stage: final(self)@.stage,
                remove_package: r.remove_package,
                remove_signature: r.remove_signature,
                events: event::events(r.events@),
            }),
            final(self)@ == (UpdateView { stage: final(self)@.stage, ..old(self)@ }),
    {
        self.go_on(outcome)
    }

    fn go_on(&mut self, outcome: &Outcome) -> (r: Step)
        ensures
            step_of(old(self)@, outcome@) == (StepView {
                stage: final(self)@.stage,
                remove_package: r.remove_package,
                remove_signature: r.remove_signature,
                events: event::events(r.events@),
            }),
            final(self)@ == (UpdateView { stage: final(self)@.stage, ..old(self)@ }),
    {
        let stage = self.stage;
        match outcome {
            Outcome::Good => {
                let events = self.make_good_events();
                self.stage = match stage {
                    Stage::Locating => Stage::Preparing,
                    Stage::Preparing => Stage::Downloading,
                    Stage::Downloading => Stage::Fetching,
                    Stage::Fetching => Stage::Reading,
                    Stage::Reading => Stage::Verifying,
                    Stage::Verifying => Stage::Installing,
                    Stage::Installing => Stage::Over,
                    Stage::Over => Stage::Over,
                };
                let installed = stage == Stage::Installing;
                Step { remove_package: installed, remove_signature: installed, events }
            },
            Outcome::Bad(e) => {
                let events = self.make_bad_events(e.as_str());
                self.stage = Stage::Over;
                Step {
                    remove_package: stage != Stage::Locating && stage != Stage::Preparing && stage
                        != Stage::Over,
                    remove_signature: stage == Stage::Reading || stage == Stage::Verifying || stage
                        == Stage::Installing,
                    events,
                }
            },
        }
    }

    /// Verifies the package, as far as it could be read, and goes on.
    pub fn verify(&mut self, package: Result<Vec<u8>, String>, sig: &str) -> (r: Step)
        requires
            old(self)@.stage == Stage::Verifying,
        ensures
            step_of(
                old(self)@,
                verification_outcome(old(self)@.key, signature::result_bytes(package), sig@),
            ) == (StepView {
                stage: final(self)@.stage,
                remove_package: r.remove_package,
                remove_signature: r.remove_signature,
                events: event::events(r.events@),
            }),
            final(self)@ == (UpdateView { stage: final(self)@.stage, ..old(self)@ }),
    {
        let outcome = match package {
            Ok(data) => match signature::verify_with_key(
                self.key.as_str(),
                data.as_slice(),
                sig,
            ) {
                Ok(_) => Outcome::Good,
                Err(e) => Outcome::Bad(e),
            },
            Err(e) => Outcome::Bad(signature::unreadable_package(e.as_str())),
        };
        self.go_on(&outcome)
    }

    /// Ends an update whose download cannot even begin.
    pub fn no_runtime(&mut self, error: &str) -> (r: Vec<UserEvent>)
        requires
            old(self)@.stage == Stage::Downloading,
        ensures
            final(self)@ == (UpdateView { stage: Stage::Over, ..old(self)@ }),
            event::events(r@) == no_runtime_events(error@),
    {
        let mut s = String::from_str("初始化运行时失败: ");
        s.append(error);
        let mut events = event::no_events();
        event::emit(&mut events, UserEvent::UpdateFailed(s));
        event::emit(&mut events, said("  ✗ 下载失败：", error, "\r\n"));
        assert(event::events(events@) =~= no_runtime_events(error@));
        self.stage = Stage::Over;
        events
    }
}

// ---- laws -----------------------------------------------------------------------------------

/// What an update is told: how a step went, that there is nothing to download with and why, or a
/// package, as far as it could be read, and its signature.
pub enum Told {
    Step(OutcomeView),
    NoRuntime(Seq<char>),
    Verify { package: Result<Seq<u8>, Seq<char>>, signature: Seq<char> },
}

/// Whether an update may be told this: that there is nothing to download with when the download is
/// due, and the package when its verification is due, which nothing else can end.
pub open spec fn may_be_told(u: UpdateView, t: Told) -> bool {
    match t {
        Told::Step(_) => u.stage != Stage::Verifying,
        Told::NoRuntime(_) => u.stage == Stage::Downloading,
        Told::Verify { .. } => u.stage == Stage::Verifying,
    }
}

/// What it leads to that an update is told something.
pub open spec fn told_step(u: UpdateView, t: Told) -> StepView {
    match t {
        Told::Step(o) => step_of(u, o),
        Told::NoRuntime(e) => StepView {
            stage: Stage::Over,
            remove_package: false,
            remove_signature: false,
            events: no_runtime_events(e),
        },
        Told::Verify { package, signature } => step_of(
            u,
            verification_outcome(u.key, package, signature),
        ),
    }
}

/// An update after it was told something.
pub open spec fn after_told(u: UpdateView, t: Told) -> UpdateView {
    UpdateView { stage: told_step(u, t).stage, ..u }
}

/// An update after its course.
pub open spec fn after_course(u: UpdateView, course: Seq<Told>) -> UpdateView
    decreases course.len(),
{
    if course.len() == 0 {
        u
    } else {
        after_told(after_course(u, course.drop_last()), course.last())
    }
}

/// Whether an update was told only what it may be told.
pub open spec fn is_course(u: UpdateView, course: Seq<Told>) -> bool
    decreases course.len(),
{
    course.len() > 0 ==> is_course(u, course.drop_last()) && may_be_told(
        after_course(u, course.drop_last()),
        course.last(),
    )
}

/// Whether this is a package that can be read and that the signature signs with the key.
pub open spec fn is_signed_package(key: Seq<char>, t: Told) -> bool {
    match t {
        Told::Verify { package, signature } => match package {
            Ok(data) => signature::verification(key, data, signature) is Ok,
            Err(_) => false,
        },
        _ => false,
    }
}

/// Of what was downloaded, exactly that is installed which can be read and which the signature
/// signs with the key.
pub proof fn only_signed_packages_are_installed(
    u: UpdateView,
    package: Result<Seq<u8>, Seq<char>>,
    signature: Seq<char>,
)
    requires
        u.stage == Stage::Verifying,
    ensures
        after_told(u, Told::Verify { package, signature }).stage == Stage::Installing <==>
            is_signed_package(u.key, Told::Verify { package, signature }),
{
}

/// An update reaches the installation in one way only: five steps went well, and then its package
/// was verified with the key that it has had from the start.
pub proof fn install_only_after_verification(u: UpdateView, course: Seq<Told>)
    requires
        u.stage == Stage::Locating,
        is_course(u, course),
        after_course(u, course).stage == Stage::Installing,
    ensures
        course.len() == 6,
        forall|i: int| 0 <= i < 5 ==> #[trigger] course[i] == Told::Step(OutcomeView::Good),
        is_signed_package(u.key, course[5]),
{
    stages_in_order(u, course);
}

/// How many steps that went well lead to a stage.
pub open spec fn steps_to(s: Stage) -> nat {
    match s {
        Stage::Locating => 0,
        Stage::Preparing => 1,
        Stage::Downloading => 2,
        Stage::Fetching => 3,
        Stage::Reading => 4,
        Stage::Verifying => 5,
        Stage::Installing => 6,
        Stage::Over => 7,
    }
}

proof fn stages_in_order(u: UpdateView, course: Seq<Told>)
    requires
        u.stage == Stage::Locating,
        is_course(u, course),
    ensures
        after_course(u, course).key == u.key,
        after_course(u, course).stage != Stage::Over ==> {
            &&& steps_to(after_course(u, course).stage) == course.len()
            &&& forall|i: int|
                0 <= i < course.len() && i < 5 ==> #[trigger] course[i] == Told::Step(
                    OutcomeView::Good,
                )
            &&& course.len() == 6 ==> is_signed_package(u.key, course[5])
        },
    decreases course.len(),
{
    if course.len() > 0 {
        let front = course.drop_last();
        stages_in_order(u, front);
        if after_course(u, course).stage != Stage::Over {
            let before = after_course(u, front);
            assert(before.stage != Stage::Over);
            assert forall|i: int| 0 <= i < course.len() && i < 5 implies #[trigger] course[i]
                == Told::Step(OutcomeView::Good) by {
                if i < front.len() {
                    assert(front[i] == course[i]);
                } else {
                    assert(course[i] == course.last());
                }
            }
        }
    }
}

/// A package that fails its verification is removed, together with its signature, and is not
/// installed.
pub proof fn rejected_package_is_removed(u: UpdateView, e: Seq<char>)
    requires
        u.stage == Stage::Verifying,
    ensures
        step_of(u, OutcomeView::Bad(e)).stage == Stage::Over,
        step_of(u, OutcomeView::Bad(e)).remove_package,
        step_of(u, OutcomeView::Bad(e)).remove_signature,
{
}

/// Everything that is shown in the course of an update.
pub open spec fn course_events(u: UpdateView, course: Seq<Told>) -> Seq<EventView>
    decreases course.len(),
{
    if course.len() == 0 {
        Seq::empty()
    } else {
        course_events(u, course.drop_last()) + told_step(
            after_course(u, course.drop_last()),
            course.last(),
        ).events
    }
}

/// Whether this tells the window how the update ended.
pub open spec fn is_verdict(e: EventView) -> bool {
    e is UpdateDone || e is UpdateFailed
}

/// How often the window is told how the update ended.
pub open spec fn verdicts(events: Seq<EventView>) -> nat
    decreases events.len(),
{
    if events.len() == 0 {
        0
    } else {
        verdicts(events.drop_last()) + if is_verdict(events.last()) {
            1nat
        } else {
            0nat
        }
    }
}

proof fn verdicts_add_up(a: Seq<EventView>, b: Seq<EventView>)
    ensures
        verdicts(a + b) == verdicts(a) + verdicts(b),
    decreases b.len(),
{
    if b.len() > 0 {
        assert((a + b).drop_last() =~= a + b.drop_last());
        verdicts_add_up(a, b.drop_last());
    } else {
        assert(a + b =~= a);
    }
}

proof fn verdicts_of_few(events: Seq<EventView>)
    requires
        events.len() <= 3,
    ensures
        events.len() == 0 ==> verdicts(events) == 0,
        events.len() == 1 ==> verdicts(events) == (if is_verdict(events[0]) {
            1nat
        } else {
            0nat
        }),
        events.len() >= 2 && !is_verdict(events[0]) && !is_verdict(events[1]) ==> verdicts(events)
            == (if events.len() == 3 && is_verdict(events[2]) {
            1nat
        } else {
            0nat
        }),
        events.len() >= 2 && is_verdict(events[0]) && !is_verdict(events[1]) && (events.len() == 3
            ==> !is_verdict(events[2])) ==> verdicts(events) == 1,
{
    reveal_with_fuel(verdicts, 4);
}

proof fn verdict_comes_with_the_end(u: UpdateView, t: Told)
    requires
        may_be_told(u, t),
    ensures
        verdicts(told_step(u, t).events) == (if u.stage != Stage::Over && after_told(u, t).stage
            == Stage::Over {
            1nat
        } else {
            0nat
        }),
{
    verdicts_of_few(told_step(u, t).events);
}

/// The window is told exactly once how an update ended, with `UpdateDone` or with `UpdateFailed`;
/// as long as the update is not over, it is told neither.
pub proof fn one_verdict_is_told(u: UpdateView, course: Seq<Told>)
    requires
        u.stage == Stage::Locating,
        is_course(u, course),
    ensures
        verdicts(course_events(u, course)) == (if after_course(u, course).stage == Stage::Over {
            1nat
        } else {
            0nat
        }),
    decreases course.len(),
{
    if course.len() > 0 {
        let front = course.drop_last();
        let before = after_course(u, front);
        one_verdict_is_told(u, front);
        verdict_comes_with_the_end(before, course.last());
        verdicts_add_up(course_events(u, front), told_step(before, course.last()).events);
    }
}

/// What can happen to a package in the course of an update.
pub enum Deed {
    /// Its download is attempted.
    Attempted,
    /// It is installed.
    Installed,
    /// It is removed.
    Removed,
}

/// Whether this happens when an update is told something: where there is nothing to download with,
/// no download is attempted.
pub open spec fn is_done(d: Deed, u: UpdateView, t: Told) -> bool {
    match d {
        Deed::Attempted => u.stage == Stage::Downloading && t is Step,
        Deed::Installed => u.stage == Stage::Installing && t == Told::Step(OutcomeView::Good),
        Deed::Removed => told_step(u, t).remove_package,
    }
}

/// Whether this happens at one point in the course of an update.
pub open spec fn happens_at(d: Deed, u: UpdateView, course: Seq<Told>, i: int) -> bool {
    0 <= i < course.len() && is_done(d, after_course(u, course.take(i)), course[i])
}

/// Whether this happens in the course of an update.
pub open spec fn happens(d: Deed, u: UpdateView, course: Seq<Told>) -> bool {
    exists|i: int| happens_at(d, u, course, i)
}

proof fn one_more_is_told(d: Deed, u: UpdateView, course: Seq<Told>)
    requires
        course.len() > 0,
    ensures
        happens(d, u, course) <==> happens(d, u, course.drop_last()) || is_done(
            d,
            after_course(u, course.drop_last()),
            course.last(),
        ),
{
    let front = course.drop_last();
    let n = front.len() as int;
    assert(course.take(n) =~= front);
    assert(happens_at(d, u, course, n) <==> is_done(d, after_course(u, front), course.last()));
    assert forall|i: int| i != n implies #[trigger] happens_at(d, u, course, i) == happens_at(
        d,
        u,
        front,
        i,
    ) by {
        if 0 <= i < n {
            assert(course.take(i) =~= front.take(i));
        }
    }
    if happens(d, u, front) {
        let i = choose|i: int| happens_at(d, u, front, i);
        assert(happens_at(d, u, course, i));
    }
}

/// An update that is over leaves no package behind: the package was removed if, and only if, its
/// download was attempted. As long as the update is not over, the package stays.
pub proof fn package_does_not_stay(u: UpdateView, course: Seq<Told>)
    requires
        u.stage == Stage::Locating,
        is_course(u, course),
    ensures
        after_course(u, course).stage == Stage::Over ==> (happens(Deed::Removed, u, course) <==>
            happens(Deed::Attempted, u, course)),
        after_course(u, course).stage != Stage::Over ==> !happens(Deed::Removed, u, course),
{
    package_follows_the_stage(u, course);
}

proof fn package_follows_the_stage(u: UpdateView, course: Seq<Told>)
    requires
        u.stage == Stage::Locating,
        is_course(u, course),
    ensures
        ({
            let stage = after_course(u, course).stage;
            let attempted = happens(Deed::Attempted, u, course);
            let removed = happens(Deed::Removed, u, course);
            if stage == Stage::Over {
                removed <==> attempted
            } else {
                !removed && (attempted <==> steps_to(stage) > 2)
            }
        }),
    decreases course.len(),
{
    if course.len() > 0 {
        package_follows_the_stage(u, course.drop_last());
        one_more_is_told(Deed::Attempted, u, course);
        one_more_is_told(Deed::Removed, u, course);
    }
}

/// The window is told `UpdateDone`, with the tag of the release, exactly where the package was
/// installed.
pub proof fn done_means_installed(u: UpdateView, course: Seq<Told>)
    requires
        u.stage == Stage::Locating,
        is_course(u, course),
    ensures
        course_events(u, course).contains(EventView::UpdateDone(u.tag)) <==> happens(
            Deed::Installed,
            u,
            course,
        ),
        forall|tag: Seq<char>|
            #[trigger] course_events(u, course).contains(EventView::UpdateDone(tag)) ==> tag
                == u.tag,
    decreases course.len(),
{
    if course.len() > 0 {
        let front = course.drop_last();
        let before = after_course(u, front);
        done_means_installed(u, front);
        one_more_is_told(Deed::Installed, u, course);
        tag_stays(u, front);
        let earlier = course_events(u, front);
        let new = told_step(before, course.last()).events;
        assert forall|tag: Seq<char>| #[trigger]
            (earlier + new).contains(EventView::UpdateDone(tag)) <==> earlier.contains(
                EventView::UpdateDone(tag),
            ) || (is_done(Deed::Installed, before, course.last()) && tag == u.tag) by {
            both_are_told(earlier, new, EventView::UpdateDone(tag));
            done_is_told_last(before, course.last(), tag);
        }
    }
}

proof fn both_are_told(earlier: Seq<EventView>, new: Seq<EventView>, e: EventView)
    ensures
        (earlier + new).contains(e) <==> earlier.contains(e) || new.contains(e),
{
    let all = earlier + new;
    if earlier.contains(e) {
        let k = choose|k: int| 0 <= k < earlier.len() && earlier[k] == e;
        assert(all[k] == e);
    }
    if new.contains(e) {
        let k = choose|k: int| 0 <= k < new.len() && new[k] == e;
        assert(all[earlier.len() + k] == e);
    }
}

proof fn done_is_told_last(u: UpdateView, t: Told, tag: Seq<char>)
    requires
        may_be_told(u, t),
    ensures
        told_step(u, t).events.contains(EventView::UpdateDone(tag)) <==> is_done(
            Deed::Installed,
            u,
            t,
        ) && tag == u.tag,
{
    let events = told_step(u, t).events;
    if is_done(Deed::Installed, u, t) {
        assert(events[2] == EventView::UpdateDone(u.tag));
    }
}

proof fn tag_stays(u: UpdateView, course: Seq<Told>)
    ensures
        after_course(u, course).tag == u.tag,
    decreases course.len(),
{
    if course.len() > 0 {
        tag_stays(u, course.drop_last());
    }
}

} // verus!
