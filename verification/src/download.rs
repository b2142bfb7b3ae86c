//! The download of a package: in up to three attempts, each from where the one before broke off.
//!
//! Times are in milliseconds, from any fixed start.

use crate::event;
use crate::event::{EventView, UserEvent};
use crate::number;
use crate::text;
use vstd::prelude::*;
use vstd::string::*;

verus! {

/// How many attempts there are.
pub const MAX_DL_RETRIES: u32 = 3;

/// How long nothing may arrive before an attempt is given up.
pub const STALL_TIMEOUT_MS: u64 = 20000;

/// The pause before another attempt.
pub const RETRY_PAUSE_MS: u64 = 2000;

/// After how many bytes progress is shown again.
pub const PROGRESS_BYTES: u64 = 65536;

/// After how long progress is shown again.
pub const PROGRESS_MS: u64 = 100;

/// How far a download has come.
#[derive(Clone, Copy, Debug, PartialEq, Eq, Structural)]
pub struct Download {
    /// The number of the attempt, from one.
    pub attempt: u32,
    /// The size of the package as the server announced it beforehand; zero if it did not.
    pub announced: u64,
    /// How many bytes were there when the attempt began.
    pub offset: u64,
    /// The size of the package; zero if it is not known.
    pub total: u64,
    /// How many bytes there are, for what is shown. It goes on from `offset` also where the server
    /// sends the whole package anew, and the file begins at zero.
    pub downloaded: u64,
    /// How many bytes there were when progress was last shown.
    pub shown_bytes: u64,
    /// When progress was last shown.
    pub shown_at: u64,
}

impl Download {
    /// Whether the state is one that a download can be in.
    pub open spec fn is_valid(self) -> bool {
        1 <= self.attempt <= MAX_DL_RETRIES && self.shown_bytes <= self.downloaded
    }
}

/// What follows a failed attempt.
pub enum Failure {
    /// Another attempt; the text is the reason.
    Retry(String),
    /// The end; the text is the reason.
    Fail(String),
}

/// A [`Failure`] with its text as a sequence of characters.
#[verifier::ext_equal]
pub enum FailureView {
    Retry(Seq<char>),
    Fail(Seq<char>),
}

impl View for Failure {
    type V = FailureView;

    open spec fn view(&self) -> FailureView {
        match self {
            Failure::Retry(s) => FailureView::Retry(s@),
            Failure::Fail(s) => FailureView::Fail(s@),
        }
    }
}

/// What follows when an attempt fails: another one, unless it was the last.
pub open spec fn after_failure(d: Download, reason: Seq<char>) -> FailureView {
    if d.attempt < MAX_DL_RETRIES {
        FailureView::Retry(reason)
    } else {
        FailureView::Fail(reason)
    }
}

/// What follows the answer of the server.
pub enum Answer {
    /// Read the body; with `append`, it goes on behind the bytes that are there.
    Body { append: bool },
    /// The attempt has failed.
    Failed(Failure),
}

/// An [`Answer`] as a mathematical value.
#[verifier::ext_equal]
pub enum AnswerView {
    Body { append: bool },
    Failed(FailureView),
}

impl View for Answer {
    type V = AnswerView;

    open spec fn view(&self) -> AnswerView {
        match self {
            Answer::Body { append } => AnswerView::Body { append: *append },
            Answer::Failed(f) => AnswerView::Failed(f@),
        }
    }
}

/// What follows an answer with this status: 206 goes on behind the bytes that are there, and any
/// other success begins anew. An error of the client is final.
pub open spec fn after_status(d: Download, status: u16, said: Seq<char>) -> AnswerView {
    if 200 <= status < 300 {
        AnswerView::Body { append: status == 206 }
    } else if 400 <= status < 500 {
        AnswerView::Failed(FailureView::Fail("HTTP "@ + said))
    } else {
        AnswerView::Failed(after_failure(d, "HTTP "@ + said))
    }
}

/// How the body of an answer ended.
pub enum BodyEnd {
    /// Nothing arrived for too long.
    Stalled,
    /// It could not be read.
    ReadError(String),
    /// What arrived could not be written.
    WriteError(String),
    /// It is complete; the file has this size now.
    Complete(u64),
}

/// A [`BodyEnd`] as a mathematical value.
#[verifier::ext_equal]
pub enum BodyEndView {
    Stalled,
    ReadError(Seq<char>),
    WriteError(Seq<char>),
    Complete(u64),
}

impl View for BodyEnd {
    type V = BodyEndView;

    open spec fn view(&self) -> BodyEndView {
        match self {
            BodyEnd::Stalled => BodyEndView::Stalled,
            BodyEnd::ReadError(e) => BodyEndView::ReadError(e@),
            BodyEnd::WriteError(e) => BodyEndView::WriteError(e@),
            BodyEnd::Complete(n) => BodyEndView::Complete(*n),
        }
    }
}

/// What follows the body of an answer.
pub enum Ended {
    /// The package is there, with this size.
    Done(u64),
    /// The attempt has failed.
    Failed(Failure),
}

/// An [`Ended`] as a mathematical value.
#[verifier::ext_equal]
pub enum EndedView {
    Done(u64),
    Failed(FailureView),
}

impl View for Ended {
    type V = EndedView;

    open spec fn view(&self) -> EndedView {
        match self {
            Ended::Done(n) => EndedView::Done(*n),
            Ended::Failed(f) => EndedView::Failed(f@),
        }
    }
}

/// What follows the body of an answer: the download is done where the file has the size that is
/// known, or where none is known.
pub open spec fn after_body(d: Download, end: BodyEndView) -> EndedView {
    match end {
        BodyEndView::Stalled => EndedView::Failed(after_failure(d, "网络停滞"@)),
        BodyEndView::ReadError(e) => EndedView::Failed(after_failure(d, "读取失败: "@ + e)),
        BodyEndView::WriteError(e) => EndedView::Failed(after_failure(d, "写入失败: "@ + e)),
        BodyEndView::Complete(size) => if d.total > 0 && size != d.total {
            EndedView::Failed(
                after_failure(
                    d,
                    "大小不匹配 "@ + number::decimal(size as nat) + "/"@ + number::decimal(
                        d.total as nat,
                    ),
                ),
            )
        } else {
            EndedView::Done(size)
        },
    }
}

/// The range to ask the server for, where some bytes are there already.
pub open spec fn asked_range(offset: u64) -> Option<Seq<char>> {
    if offset > 0 {
        Some("bytes="@ + number::decimal(offset as nat) + "-"@)
    } else {
        None
    }
}

/// The download when the body of an answer begins, which has `length` bytes where that is told.
pub open spec fn at_body(d: Download, append: bool, length: Option<u64>, now: u64) -> Download {
    let rest: u64 = match length {
        Some(n) => n,
        None => 0,
    };
    Download {
        total: if d.announced > 0 {
            d.announced
        } else if append {
            (d.offset + rest) as u64
        } else {
            rest
        },
        downloaded: d.offset,
        shown_bytes: d.offset,
        shown_at: now,
        ..d
    }
}

/// The download when `len` more bytes are written, and whether progress is shown now.
pub open spec fn after_chunk(d: Download, len: u64, now: u64) -> (Download, bool) {
    let downloaded = (d.downloaded + len) as u64;
    if d.downloaded + len - d.shown_bytes >= PROGRESS_BYTES || now - d.shown_at >= PROGRESS_MS {
        (Download { downloaded, shown_bytes: downloaded, shown_at: now, ..d }, true)
    } else {
        (Download { downloaded, ..d }, false)
    }
}

/// The next attempt.
pub open spec fn next_attempt(d: Download) -> Download {
    Download { attempt: (d.attempt + 1) as u32, ..d }
}

/// What is shown when an attempt has failed and another follows.
pub open spec fn retry_events(attempt: nat, reason: Seq<char>, kept: Seq<char>) -> Seq<EventView> {
    seq![
        EventView::Term(
            "  ⚠ 下载中断（"@ + reason + "），已保留 "@ + kept
                + " MB，正在从断点重试（第 "@ + number::decimal(attempt) + "/"@ + number::decimal(
                MAX_DL_RETRIES as nat,
            ) + " 次）…\r\n"@,
        ),
        EventView::Term("\r\n"@),
    ]
}

/// `e` behind what it is about.
fn about(what: &str, e: &str) -> (r: String)
    ensures
        r@ == what@ + e@,
{
    let mut out = String::from_str(what);
    out.append(e);
    out
}

impl Download {
    /// Before the first attempt.
    pub fn new(announced: u64) -> (r: Download)
        ensures
            r == (Download {
                attempt: 1,
                announced,
                offset: 0,
                total: 0,
                downloaded: 0,
                shown_bytes: 0,
                shown_at: 0,
            }),
            r.is_valid(),
    {
        Download {
            attempt: 1,
            announced,
            offset: 0,
            total: 0,
            downloaded: 0,
            shown_bytes: 0,
            shown_at: 0,
        }
    }

    /// Begins an attempt where `offset` bytes are there already. The text, if any, is the range to
    /// ask the server for.
    pub fn begin(&mut self, offset: u64) -> (r: Option<String>)
        ensures
            *final(self) == (Download { offset, ..*old(self) }),
            text::opt_text(r) == asked_range(offset),
    {
        self.offset = offset;
        if offset > 0 {
            let n = number::decimal_text(offset);
            let mut s = String::from_str("bytes=");
            s.append(n.as_str());
            s.append("-");
            Some(s)
        } else {
            None
        }
    }

    fn failed(&self, reason: String) -> (r: Failure)
        ensures
            r@ == after_failure(*self, reason@),
    {
        if self.attempt < MAX_DL_RETRIES {
            Failure::Retry(reason)
        } else {
            Failure::Fail(reason)
        }
    }

    /// What follows a request that could not be sent.
    pub fn on_send_error(&self, error: &str) -> (r: Failure)
        ensures
            r@ == after_failure(*self, "请求失败: "@ + error@),
    {
        self.failed(about("请求失败: ", error))
    }

    /// What follows the answer of the server, with its status as a number and as a text.
    pub fn on_status(&self, status: u16, said: &str) -> (r: Answer)
        ensures
            r@ == after_status(*self, status, said@),
    {
        if 200 <= status && status < 300 {
            Answer::Body { append: status == 206 }
        } else if 400 <= status && status < 500 {
            Answer::Failed(Failure::Fail(about("HTTP ", said)))
        } else {
            Answer::Failed(self.failed(about("HTTP ", said)))
        }
    }

    /// Begins to read the body of an answer, which has `length` bytes where that is told. The size
    /// that was announced counts; without it, the one that follows from the body.
    pub fn on_body(&mut self, append: bool, length: Option<u64>, now: u64)
        requires
            old(self).is_valid(),
            append && length is Some ==> old(self).offset + length->0 <= u64::MAX,
        ensures
            *final(self) == at_body(*old(self), append, length, now),
            final(self).is_valid(),
    {
        let rest: u64 = match length {
            Some(n) => n,
            None => 0,
        };
        let size: u64 = if append {
            self.offset + rest
        } else {
            rest
        };
        self.total = if self.announced > 0 {
            self.announced
        } else {
            size
        };
        self.downloaded = self.offset;
        self.shown_bytes = self.offset;
        self.shown_at = now;
    }

    /// Counts bytes that were written, and tells whether progress is shown now.
    pub fn on_chunk(&mut self, len: u64, now: u64) -> (r: bool)
        requires
            old(self).is_valid(),
            old(self).downloaded + len <= u64::MAX,
        ensures
            final(self).is_valid(),
            (*final(self), r) == after_chunk(*old(self), len, now),
    {
        self.downloaded = self.downloaded + len;
        let due = self.downloaded - self.shown_bytes >= PROGRESS_BYTES || (now >= self.shown_at
            && now - self.shown_at >= PROGRESS_MS);
        if due {
            self.shown_bytes = self.downloaded;
            self.shown_at = now;
        }
        due
    }

    /// What follows the body of an answer.
    pub fn on_end(&self, end: BodyEnd) -> (r: Ended)
        ensures
            r@ == after_body(*self, end@),
    {
        match end {
            BodyEnd::Stalled => Ended::Failed(self.failed(String::from_str("网络停滞"))),
            BodyEnd::ReadError(e) => Ended::Failed(self.failed(about("读取失败: ", e.as_str()))),
            BodyEnd::WriteError(e) => Ended::Failed(self.failed(about("写入失败: ", e.as_str()))),
            BodyEnd::Complete(size) => if self.total > 0 && size != self.total {
                let a = number::decimal_text(size);
                let b = number::decimal_text(self.total);
                let mut s = String::from_str("大小不匹配 ");
                s.append(a.as_str());
                s.append("/");
                s.append(b.as_str());
                Ended::Failed(self.failed(s))
            } else {
                Ended::Done(size)
            },
        }
    }

    /// Goes on to the next attempt, and tells so: `kept` is how much is there, in megabytes.
    pub fn retry(&mut self, reason: &str, kept: &str) -> (r: Vec<UserEvent>)
        requires
            old(self).is_valid(),
            old(self).attempt < MAX_DL_RETRIES,
        ensures
            *final(self) == next_attempt(*old(self)),
            final(self).is_valid(),
            event::events(r@) == retry_events(old(self).attempt as nat, reason@, kept@),
    {
        let a = number::decimal_text(self.attempt as u64);
        let b = number::decimal_text(MAX_DL_RETRIES as u64);
        let mut s = String::from_str("  ⚠ 下载中断（");
        s.append(reason);
        s.append("），已保留 ");
        s.append(kept);
        s.append(" MB，正在从断点重试（第 ");
        s.append(a.as_str());
        s.append("/");
        s.append(b.as_str());
        s.append(" 次）…\r\n");
        let ghost said = s@;
        let mut events = event::no_events();
        event::emit(&mut events, UserEvent::Term(s));
        event::emit(&mut events, event::term("\r\n"));
        assert(event::events(events@) =~= seq![EventView::Term(said), EventView::Term("\r\n"@)]);
        self.attempt = self.attempt + 1;
        events
    }
}

/// What is said when no client can be made.
pub fn client_failed(error: &str) -> (r: String)
    ensures
        r@ == "构建客户端失败: "@ + error@,
{
    about("构建客户端失败: ", error)
}

/// What is said when the file cannot be opened, to go on with it or anew.
pub fn open_failed(append: bool, error: &str) -> (r: String)
    ensures
        r@ == (if append {
            "打开文件失败: "@
        } else {
            "创建文件失败: "@
        }) + error@,
{
    if append {
        about("打开文件失败: ", error)
    } else {
        about("创建文件失败: ", error)
    }
}

// ---- progress -------------------------------------------------------------------------------

/// A number at the right of three places.
pub open spec fn three_places(n: nat) -> Seq<char> {
    let d = number::decimal(n);
    if d.len() == 1 {
        "  "@ + d
    } else if d.len() == 2 {
        " "@ + d
    } else {
        d
    }
}

/// Writes a number at the right of three places.
pub fn in_three_places(n: u64) -> (r: String)
    ensures
        r@ == three_places(n as nat),
{
    let d = number::decimal_chars(n);
    let s = text::to_text(d.as_slice());
    if d.len() == 1 {
        about("  ", s.as_str())
    } else if d.len() == 2 {
        about(" ", s.as_str())
    } else {
        s
    }
}

/// What is shown of the progress.
pub open spec fn shown_progress(
    pct: u8,
    done: Seq<char>,
    total: Option<Seq<char>>,
) -> Seq<EventView> {
    seq![
        EventView::Term(
            match total {
                Some(t) => "  升级包下载进度 "@ + three_places(pct as nat) + "% ("@ + done + "/"@ + t
                    + " MB)\r"@,
                None => "  已下载 "@ + done + " MB\r"@,
            },
        ),
        EventView::UpdateProgress(pct),
    ]
}

/// What is shown of the progress: the percentage, and the megabytes there are, of how many where
/// that is known.
pub fn progress_events(pct: u8, done: &str, total: Option<&str>) -> (r: Vec<UserEvent>)
    ensures
        event::events(r@) == shown_progress(pct, done@, text::opt_str(total)),
{
    let line = match total {
        Some(t) => {
            let p = in_three_places(pct as u64);
            let mut s = String::from_str("  升级包下载进度 ");
            s.append(p.as_str());
            s.append("% (");
            s.append(done);
            s.append("/");
            s.append(t);
            s.append(" MB)\r");
            s
        },
        None => {
            let mut s = String::from_str("  已下载 ");
            s.append(done);
            s.append(" MB\r");
            s
        },
    };
    let ghost said = line@;
    let mut events = event::no_events();
    event::emit(&mut events, UserEvent::Term(line));
    event::emit(&mut events, UserEvent::UpdateProgress(pct));
    assert(event::events(events@) =~= seq![EventView::Term(said), EventView::UpdateProgress(pct)]);
    events
}

// ---- laws -----------------------------------------------------------------------------------

/// The last attempt is never repeated, and an error of the client ends the download at once.
pub proof fn attempts_come_to_an_end(
    d: Download,
    reason: Seq<char>,
    status: u16,
    said: Seq<char>,
    end: BodyEndView,
)
    requires
        d.is_valid(),
    ensures
        d.attempt == MAX_DL_RETRIES ==> after_failure(d, reason) is Fail,
        d.attempt == MAX_DL_RETRIES ==> !(after_status(d, status, said) matches AnswerView::Failed(
            f,
        ) && f is Retry),
        d.attempt == MAX_DL_RETRIES ==> !(after_body(d, end) matches EndedView::Failed(f)
            && f is Retry),
        400 <= status < 500 ==> after_status(d, status, said) == AnswerView::Failed(
            FailureView::Fail("HTTP "@ + said),
        ),
{
}

/// A download is done only when its last body was complete, and only with the size that is known;
/// what is told then is the size of the file.
pub proof fn done_means_complete(d: Download, end: BodyEndView)
    ensures
        after_body(d, end) is Done <==> (end matches BodyEndView::Complete(size) && (d.total == 0
            || size == d.total)),
        after_body(d, end) matches EndedView::Done(n) ==> end == BodyEndView::Complete(n),
{
}

} // verus!
