//! Reads the output of the running command, piece by piece.

use crate::event;
use crate::event::{EventView, UserEvent};
use crate::recovery::TAIL_LINES;
use crate::terminal;
use crate::text;
use crate::text::CharClass;
use crate::utf8;
use vstd::prelude::*;
use vstd::slice::*;
use vstd::string::*;

verus! {

// ---- what an attempt leaves behind ----------------------------------------------------------

/// What is kept of the output of one attempt: its last plain lines, and the address of the service
/// where a line told it.
pub struct OutputLog {
    pub tail: Vec<String>,
    pub url: Option<String>,
}

/// An [`OutputLog`] with its texts as sequences of characters.
#[verifier::ext_equal]
pub struct LogView {
    pub tail: Seq<Seq<char>>,
    pub url: Option<Seq<char>>,
}

impl View for OutputLog {
    type V = LogView;

    open spec fn view(&self) -> LogView {
        LogView { tail: text::texts(self.tail@), url: text::opt_text(self.url) }
    }
}

/// `log` with one more line at the end of its tail.
pub open spec fn with_line(log: LogView, line: Seq<char>) -> LogView {
    LogView { tail: text::last_n(log.tail.push(line), TAIL_LINES as nat), url: log.url }
}

/// `log` after a line of output: the line joins the tail, and the address that it tells replaces
/// the one told before.
pub open spec fn noted(log: LogView, line: Seq<char>) -> LogView {
    LogView {
        tail: with_line(log, line).tail,
        url: match terminal::server_url(line) {
            Some(u) => Some(u),
            None => log.url,
        },
    }
}

/// `log` after several lines of output.
pub open spec fn noted_all(log: LogView, lines: Seq<Seq<char>>) -> LogView
    decreases lines.len(),
{
    if lines.len() == 0 {
        log
    } else {
        noted(noted_all(log, lines.drop_last()), lines.last())
    }
}

impl OutputLog {
    /// A log of no output.
    pub fn new() -> (r: OutputLog)
        ensures
            r@.tail == Seq::<Seq<char>>::empty(),
            r@.url is None,
    {
        let r = OutputLog { tail: Vec::new(), url: None };
        assert(r@.tail =~= Seq::<Seq<char>>::empty());
        r
    }

    /// Adds a line at the end of the tail.
    fn push_line(&mut self, line: &[char])
        ensures
            final(self)@ == with_line(old(self)@, line@),
    {
        self.tail.push(text::to_text(line));
        let ghost longer = self.tail@;
        assert(text::texts(longer) =~= text::texts(old(self).tail@).push(line@));
        text::keep_last(&mut self.tail, TAIL_LINES);
        assert(text::texts(self.tail@) =~= text::last_n(text::texts(longer), TAIL_LINES as nat));
    }

    /// Takes note of a line of output.
    pub fn note(&mut self, line: &[char])
        ensures
            final(self)@ == noted(old(self)@, line@),
    {
        self.push_line(line);
        let s = text::to_text(line);
        match terminal::parse_server_url(s.as_str()) {
            Some(u) => {
                self.url = Some(u);
            },
            None => {},
        }
    }
}

// ---- one read -------------------------------------------------------------------------------

/// The state of a reader between two reads.
pub struct OutputReader {
    /// Bytes of a character that is not complete yet.
    pub carry: Vec<u8>,
    /// Plain text of a line that is not complete yet.
    pub pending: Vec<char>,
    /// The last complete lines.
    pub recent: Vec<String>,
    /// When a question was last answered, in milliseconds.
    pub last_reply: Option<u64>,
}

/// An [`OutputReader`] as a mathematical value.
#[verifier::ext_equal]
pub struct ReaderView {
    pub carry: Seq<u8>,
    pub pending: Seq<char>,
    pub recent: Seq<Seq<char>>,
    pub last_reply: Option<u64>,
}

impl View for OutputReader {
    type V = ReaderView;

    open spec fn view(&self) -> ReaderView {
        ReaderView {
            carry: self.carry@,
            pending: self.pending@,
            recent: text::texts(self.recent@),
            last_reply: self.last_reply,
        }
    }
}

/// What one read leads to.
pub struct Fed {
    /// What to tell the window, in order.
    pub events: Vec<UserEvent>,
    /// Whether to answer `y` to the command.
    pub reply: bool,
    /// Whether the read showed something, so that the command is not silent.
    pub active: bool,
}

/// What one read leads to, together with the reader and the log after it.
#[verifier::ext_equal]
pub struct FedView {
    pub reader: ReaderView,
    pub log: LogView,
    pub events: Seq<EventView>,
    pub reply: bool,
    pub active: bool,
}

/// How many complete lines are kept to take a question from.
pub const RECENT_LINES: usize = 20;

/// How many milliseconds pass between two answers at least.
pub const REPLY_PAUSE_MS: u64 = 1500;

/// Whether bytes are given up as text: four or more that do not even begin with a character.
pub open spec fn gives_up(b: Seq<u8>) -> bool {
    utf8::decodable(b) == 0 && b.len() >= 4
}

/// The complete lines at the start of `s` that are not blank. A line ends at a line feed or a
/// carriage return.
pub open spec fn finished_lines(s: Seq<char>) -> Seq<Seq<char>> {
    terminal::nonblank(text::split(s, CharClass::LineBreak).drop_last())
}

/// What follows the last line end in `s`.
pub open spec fn unfinished(s: Seq<char>) -> Seq<char> {
    text::split(s, CharClass::LineBreak).last()
}

/// Whether a question may be answered: long enough after the last answer.
pub open spec fn may_reply(last: Option<u64>, now: u64) -> bool {
    match last {
        Some(t) => now - t >= REPLY_PAUSE_MS,
        None => true,
    }
}

/// What is shown after an answer.
pub const REPLIED: &'static str =
    "\r\n[需要确认] 已自动回复 y（继续）。如需手动，请在下方输入框输入。\r\n";

/// A reader and a log after a piece of text. A question is shown with the line that it stands in,
/// which mostly waits for the answer and has no end yet.
pub open spec fn after_text(
    r: ReaderView,
    log: LogView,
    rest: Seq<u8>,
    chunk: Seq<char>,
    now: u64,
    took_over: bool,
) -> FedView {
    let plain = terminal::plain_text(chunk);
    let s = r.pending + plain;
    let lines = finished_lines(s);
    let recent = text::last_n(r.recent + lines, RECENT_LINES as nat);
    let reply = terminal::is_prompt(plain) && may_reply(r.last_reply, now) && !took_over;
    FedView {
        reader: ReaderView {
            carry: rest,
            pending: unfinished(s),
            recent,
            last_reply: if reply {
                Some(now)
            } else {
                r.last_reply
            },
        },
        log: noted_all(log, lines),
        events: if reply {
            seq![
                EventView::Term(chunk),
                EventView::Prompt(
                    terminal::prompt_text(text::join(recent.push(unfinished(s)), "\n"@)),
                ),
                EventView::Term(REPLIED@),
            ]
        } else {
            seq![EventView::Term(chunk)]
        },
        reply,
        active: true,
    }
}

/// A reader and a log after a read of `bytes` at time `now`; `took_over` tells whether the user
/// answers on their own.
pub open spec fn fed(
    r: ReaderView,
    log: LogView,
    bytes: Seq<u8>,
    now: u64,
    took_over: bool,
) -> FedView {
    let b = r.carry + bytes;
    let n = utf8::decodable(b) as int;
    if gives_up(b) {
        FedView {
            reader: ReaderView { carry: Seq::empty(), ..r },
            log,
            events: seq![EventView::Term(utf8::lossy_text(b))],
            reply: false,
            active: true,
        }
    } else if n == 0 {
        FedView {
            reader: ReaderView { carry: b, ..r },
            log,
            events: Seq::empty(),
            reply: false,
            active: false,
        }
    } else {
        after_text(r, log, b.skip(n), vstd::utf8::decode_utf8(b.take(n)), now, took_over)
    }
}

/// The log after the output has ended: a line without an end joins the tail.
pub open spec fn ended(r: ReaderView, log: LogView) -> LogView {
    let rest = text::trim(r.pending);
    if rest.len() > 0 {
        with_line(log, rest)
    } else {
        log
    }
}

impl OutputReader {
    /// A reader before the first read.
    pub fn new() -> (r: OutputReader)
        ensures
            r@ == (ReaderView {
                carry: Seq::empty(),
                pending: Seq::empty(),
                recent: Seq::empty(),
                last_reply: None,
            }),
    {
        let r = OutputReader {
            carry: Vec::new(),
            pending: Vec::new(),
            recent: Vec::new(),
            last_reply: None,
        };
        assert(r@.recent =~= Seq::<Seq<char>>::empty());
        r
    }

    /// Takes in plain text: complete lines go to the log and to the recent lines.
    fn absorb(&mut self, log: &mut OutputLog, plain: &[char])
        ensures
            final(self)@ == (ReaderView {
                carry: old(self)@.carry,
                pending: unfinished(old(self)@.pending + plain@),
                recent: text::last_n(
                    old(self)@.recent + finished_lines(old(self)@.pending + plain@),
                    RECENT_LINES as nat,
                ),
                last_reply: old(self)@.last_reply,
            }),
            final(log)@ == noted_all(old(log)@, finished_lines(old(self)@.pending + plain@)),
    {
        text::push_chars(&mut self.pending, plain);
        let ghost s = self.pending@;
        let parts = text::split_at_class(self.pending.as_slice(), CharClass::LineBreak);
        let ghost all = text::pieces(parts@);
        let last: usize = parts.len() - 1;
        let mut i: usize = 0;
        assert(all.take(0) =~= Seq::<Seq<char>>::empty());
        assert(old(self)@.recent + Seq::<Seq<char>>::empty() =~= old(self)@.recent);
        while i < last
            invariant
                i <= last < parts@.len(),
                all == text::pieces(parts@),
                self.carry == old(self).carry,
                self.pending@ == s,
                self.last_reply == old(self).last_reply,
                text::texts(self.recent@) == old(self)@.recent + terminal::nonblank(
                    all.take(i as int),
                ),
                log@ == noted_all(old(log)@, terminal::nonblank(all.take(i as int))),
            decreases last - i,
        {
            let line = parts[i].as_slice();
            let ghost before = self.recent@;
            let ghost lines = terminal::nonblank(all.take(i as int));
            proof {
                assert(all.take(i + 1).drop_last() =~= all.take(i as int));
                assert(all.take(i + 1).last() == line@);
            }
            if text::trimmed(line).len() > 0 {
                self.recent.push(text::to_text(line));
                log.note(line);
                proof {
                    assert(text::texts(self.recent@) =~= text::texts(before).push(line@));
                    assert((old(self)@.recent + lines).push(line@) =~= old(self)@.recent
                        + lines.push(line@));
                    assert(lines.push(line@).drop_last() =~= lines);
                }
            }
            i += 1;
        }
        let ghost longer = self.recent@;
        text::keep_last(&mut self.recent, RECENT_LINES);
        proof {
            assert(all.drop_last() =~= all.take(i as int));
            assert(text::texts(self.recent@) =~= text::last_n(
                text::texts(longer),
                RECENT_LINES as nat,
            ));
        }
        self.pending = text::copy_chars(parts[last].as_slice());
    }

    /// Takes in the bytes of one read.
    pub fn feed(&mut self, log: &mut OutputLog, bytes: &[u8], now: u64, took_over: bool) -> (r: Fed)
        ensures
            fed(old(self)@, old(log)@, bytes@, now, took_over) == (FedView {
                reader: final(self)@,
                log: final(log)@,
                events: event::events(r.events@),
                reply: r.reply,
                active: r.active,
            }),
    {
        let ghost b = old(self)@.carry + bytes@;
        push_bytes(&mut self.carry, bytes);
        let mut events = event::no_events();
        let n = utf8::count_decodable(self.carry.as_slice());
        if n == 0 {
            if self.carry.len() >= 4 {
                let s = utf8::lossy(self.carry.as_slice());
                self.carry = Vec::new();
                event::emit(&mut events, UserEvent::Term(s));
                assert(self@ =~= ReaderView { carry: Seq::empty(), ..old(self)@ });
                assert(event::events(events@) =~= seq![EventView::Term(utf8::lossy_text(b))]);
                return Fed { events, reply: false, active: true };
            }
            assert(self@ =~= ReaderView { carry: b, ..old(self)@ });
            return Fed { events, reply: false, active: false };
        }
        let chunk = utf8::lossy(slice_subrange(self.carry.as_slice(), 0, n));
        assert(b.subrange(0, n as int) =~= b.take(n as int));
        let rest = self.carry.split_off(n);
        assert(rest@ =~= b.skip(n as int));
        self.carry = rest;
        let plain = terminal::strip_ansi(chunk.as_str());
        let cs = text::to_chars(plain.as_str());
        self.absorb(log, cs.as_slice());
        event::emit(&mut events, UserEvent::Term(chunk));
        let can = match self.last_reply {
            Some(t) => now >= t && now - t >= REPLY_PAUSE_MS,
            None => true,
        };
        let reply = terminal::detect_prompt(plain.as_str()) && can && !took_over;
        if reply {
            self.last_reply = Some(now);
            let mut last = text::copy_strings(self.recent.as_slice());
            let line = text::to_text(self.pending.as_slice());
            text::push_text(&mut last, line.as_str());
            let asked = text::join_strings(last.as_slice(), "\n");
            let q = terminal::extract_prompt_text(asked.as_str());
            event::emit(&mut events, UserEvent::Prompt(q));
            event::emit(&mut events, event::term(REPLIED));
        }
        let ghost want = after_text(
            old(self)@,
            old(log)@,
            b.skip(n as int),
            vstd::utf8::decode_utf8(b.take(n as int)),
            now,
            took_over,
        );
        assert(event::events(events@) =~= want.events);
        assert(self@ =~= want.reader);
        Fed { events, reply, active: true }
    }

    /// Closes the output.
    pub fn finish(&mut self, log: &mut OutputLog) -> (r: Vec<UserEvent>)
        ensures
            *final(self) == *old(self),
            final(log)@ == ended(old(self)@, old(log)@),
            event::events(r@) == seq![EventView::TermDone("进程已退出"@)],
    {
        let rest = text::trimmed(self.pending.as_slice());
        if rest.len() > 0 {
            log.push_line(rest);
        }
        let mut events = event::no_events();
        event::emit(&mut events, UserEvent::TermDone(String::from_str("进程已退出")));
        assert(event::events(events@) =~= seq![EventView::TermDone("进程已退出"@)]);
        events
    }
}

/// Appends bytes.
fn push_bytes(out: &mut Vec<u8>, b: &[u8])
    ensures
        final(out)@ == old(out)@ + b@,
{
    let mut i: usize = 0;
    while i < b.len()
        invariant
            i <= b@.len(),
            out@ == old(out)@ + b@.take(i as int),
        decreases b@.len() - i,
    {
        out.push(b[i]);
        i += 1;
        assert(b@.take(i as int) =~= b@.take(i - 1).push(b@[i - 1]));
    }
    assert(b@.take(i as int) =~= b@);
}

// ---- output without a terminal ---------------------------------------------------------------

/// The log after a read from a pipe: every line of the piece is noted, blank or not.
pub open spec fn piped(log: LogView, chunk: Seq<char>) -> LogView {
    noted_all(log, text::lines(terminal::plain_text(chunk)))
}

/// Takes in a piece of text from a pipe.
pub fn feed_piped_text(log: &mut OutputLog, chunk: String) -> (r: Vec<UserEvent>)
    ensures
        final(log)@ == piped(old(log)@, chunk@),
        event::events(r@) == seq![EventView::Term(chunk@)],
{
    let plain = terminal::strip_ansi(chunk.as_str());
    let cs = text::to_chars(plain.as_str());
    let lines = text::split_lines(cs.as_slice());
    let ghost all = text::pieces(lines@);
    let mut i: usize = 0;
    assert(all.take(0) =~= Seq::<Seq<char>>::empty());
    while i < lines.len()
        invariant
            i <= lines@.len(),
            all == text::pieces(lines@),
            log@ == noted_all(old(log)@, all.take(i as int)),
        decreases lines@.len() - i,
    {
        proof {
            assert(all.take(i + 1).drop_last() =~= all.take(i as int));
            assert(all.take(i + 1).last() == lines@[i as int]@);
        }
        log.note(lines[i].as_slice());
        i += 1;
    }
    assert(all.take(i as int) =~= all);
    let mut events = event::no_events();
    event::emit(&mut events, UserEvent::Term(chunk));
    assert(event::events(events@) =~= seq![EventView::Term(chunk@)]);
    events
}

/// Takes in the bytes of one read from a pipe.
pub fn feed_piped(log: &mut OutputLog, bytes: &[u8]) -> (r: Vec<UserEvent>)
    ensures
        final(log)@ == piped(old(log)@, utf8::lossy_text(bytes@)),
        event::events(r@) == seq![EventView::Term(utf8::lossy_text(bytes@))],
{
    feed_piped_text(log, utf8::lossy(bytes))
}

// ---- laws -----------------------------------------------------------------------------------

/// The text that a read shows.
pub open spec fn shown(f: FedView) -> Seq<char> {
    if f.events.len() > 0 {
        match f.events[0] {
            EventView::Term(s) => s,
            _ => Seq::empty(),
        }
    } else {
        Seq::empty()
    }
}

/// One read: its bytes, when it came, and whether the user answers on their own by then.
pub struct Read {
    pub bytes: Seq<u8>,
    pub now: u64,
    pub took_over: bool,
}

/// The bytes of several reads.
pub open spec fn all_bytes(reads: Seq<Read>) -> Seq<u8>
    decreases reads.len(),
{
    if reads.len() == 0 {
        Seq::empty()
    } else {
        reads[0].bytes + all_bytes(reads.skip(1))
    }
}

/// What one of several reads leads to, the first being number zero.
pub open spec fn fed_at(r: ReaderView, log: LogView, reads: Seq<Read>, i: int) -> FedView
    decreases i,
{
    let read = reads[i];
    if i <= 0 {
        fed(r, log, read.bytes, read.now, read.took_over)
    } else {
        let before = fed_at(r, log, reads, i - 1);
        fed(before.reader, before.log, read.bytes, read.now, read.took_over)
    }
}

/// The text that several reads show.
pub open spec fn all_shown(r: ReaderView, log: LogView, reads: Seq<Read>) -> Seq<char>
    decreases reads.len(),
{
    if reads.len() == 0 {
        Seq::empty()
    } else {
        let first = fed_at(r, log, reads, 0);
        shown(first) + all_shown(first.reader, first.log, reads.skip(1))
    }
}

/// What comes later does not depend on whether the first read is counted.
proof fn fed_behind_the_first(r: ReaderView, log: LogView, reads: Seq<Read>, i: int)
    requires
        1 <= i < reads.len(),
    ensures
        ({
            let first = fed_at(r, log, reads, 0);
            fed_at(r, log, reads, i) == fed_at(first.reader, first.log, reads.skip(1), i - 1)
        }),
    decreases i,
{
    assert(reads.skip(1)[i - 1] == reads[i]);
    if i > 1 {
        fed_behind_the_first(r, log, reads, i - 1);
    }
}

/// The first of several reads shows what can be decoded of it, and the rest stays for the others.
proof fn first_read_of_utf8(r: ReaderView, log: LogView, read: Read, rest: Seq<u8>)
    requires
        vstd::utf8::valid_utf8(r.carry + read.bytes + rest),
    ensures
        ({
            let first = fed(r, log, read.bytes, read.now, read.took_over);
            &&& vstd::utf8::valid_utf8(first.reader.carry + rest)
            &&& vstd::utf8::decode_utf8(r.carry + read.bytes + rest) == shown(first)
                + vstd::utf8::decode_utf8(first.reader.carry + rest)
            &&& rest.len() == 0 ==> first.reader.carry.len() == 0
        }),
{
    let x = r.carry + read.bytes;
    let n = utf8::decodable(x) as int;
    let first = fed(r, log, read.bytes, read.now, read.took_over);
    utf8::decodable_is_greatest(x);
    utf8::broken_off_at_most(x, rest);
    assert(!gives_up(x));
    let y = x.skip(n) + rest;
    assert(x + rest =~= x.take(n) + y);
    utf8::rest_is_utf8(x.take(n), y);
    utf8::decode_of_both(x.take(n), y);
    assert(x.skip(0) =~= x);
    assert(x.take(0) =~= Seq::<u8>::empty());
    assert(first.reader.carry == x.skip(n));
    assert(vstd::utf8::decode_utf8(Seq::<u8>::empty()) =~= Seq::<char>::empty());
    assert(shown(first) == vstd::utf8::decode_utf8(x.take(n)));
    if rest.len() == 0 {
        assert(x + rest =~= x);
        utf8::decodable_of_utf8(x);
    }
}

/// UTF-8 is shown as the text that it is, in however many reads it comes and wherever it was cut: a
/// character whose bytes come in several reads is put together again, and no byte is left over.
pub proof fn split_characters_are_put_together(r: ReaderView, log: LogView, reads: Seq<Read>)
    requires
        reads.len() > 0,
        vstd::utf8::valid_utf8(r.carry + all_bytes(reads)),
    ensures
        all_shown(r, log, reads) == vstd::utf8::decode_utf8(r.carry + all_bytes(reads)),
        fed_at(r, log, reads, reads.len() - 1).reader.carry.len() == 0,
    decreases reads.len(),
{
    let rest = reads.skip(1);
    let first = fed_at(r, log, reads, 0);
    assert(r.carry + all_bytes(reads) =~= r.carry + reads[0].bytes + all_bytes(rest));
    first_read_of_utf8(r, log, reads[0], all_bytes(rest));
    if rest.len() == 0 {
        assert(all_bytes(rest) =~= Seq::<u8>::empty());
        assert(first.reader.carry + all_bytes(rest) =~= Seq::<u8>::empty());
        assert(vstd::utf8::decode_utf8(Seq::<u8>::empty()) =~= Seq::<char>::empty());
        assert(all_shown(first.reader, first.log, rest) =~= Seq::<char>::empty());
    } else {
        split_characters_are_put_together(first.reader, first.log, rest);
        fed_behind_the_first(r, log, reads, reads.len() - 1);
    }
}

proof fn noted_in_two(log: LogView, a: Seq<Seq<char>>, b: Seq<Seq<char>>)
    ensures
        noted_all(log, a + b) == noted_all(noted_all(log, a), b),
    decreases b.len(),
{
    if b.len() == 0 {
        assert(a + b =~= a);
    } else {
        noted_in_two(log, a, b.drop_last());
        assert((a + b).drop_last() =~= a + b.drop_last());
    }
}

/// Plain text that comes in two pieces gives the same lines as in one.
proof fn lines_in_two(r: ReaderView, log: LogView, p: Seq<char>, q: Seq<char>)
    ensures
        ({
            let s = r.pending + p;
            let t = unfinished(s) + q;
            let whole = r.pending + (p + q);
            &&& unfinished(whole) == unfinished(t)
            &&& finished_lines(whole) == finished_lines(s) + finished_lines(t)
            &&& noted_all(log, finished_lines(whole)) == noted_all(
                noted_all(log, finished_lines(s)),
                finished_lines(t),
            )
            &&& text::last_n(r.recent + finished_lines(whole), RECENT_LINES as nat) == text::last_n(
                text::last_n(r.recent + finished_lines(s), RECENT_LINES as nat) + finished_lines(t),
                RECENT_LINES as nat,
            )
        }),
{
    let k = CharClass::LineBreak;
    let s = r.pending + p;
    let t = unfinished(s) + q;
    let whole = r.pending + (p + q);
    assert(whole =~= s + q);
    text::split_in_two(s, q, k);
    text::split_in_two(t, Seq::empty(), k);
    let head = text::split(s, k).drop_last();
    let back = text::split(t, k);
    assert((head + back).last() == back.last());
    assert((head + back).drop_last() =~= head + back.drop_last());
    terminal::nonblank_in_two(head, back.drop_last());
    noted_in_two(log, finished_lines(s), finished_lines(t));
    text::last_n_in_two(r.recent + finished_lines(s), finished_lines(t), RECENT_LINES as nat);
    assert((r.recent + finished_lines(s)) + finished_lines(t) =~= r.recent + (finished_lines(s)
        + finished_lines(t)));
}

/// Output in UTF-8 without escape sequences leaves the same behind in one read as in two.
proof fn one_read_or_two(
    r: ReaderView,
    log: LogView,
    a: Seq<u8>,
    b: Seq<u8>,
    now_a: u64,
    now_b: u64,
    took_a: bool,
    took_b: bool,
)
    requires
        vstd::utf8::valid_utf8(r.carry + a + b),
        !vstd::utf8::decode_utf8(r.carry + a + b).contains('\u{1b}'),
    ensures
        ({
            let first = fed(r, log, a, now_a, took_a);
            let second = fed(first.reader, first.log, b, now_b, took_b);
            let once = fed(r, log, a + b, now_b, took_b);
            &&& second.log == once.log
            &&& second.reader.carry == once.reader.carry
            &&& second.reader.pending == once.reader.pending
            &&& second.reader.recent == once.reader.recent
        }),
{
    let x = r.carry + a;
    let n = utf8::decodable(x) as int;
    let first = fed(r, log, a, now_a, took_a);
    let second = fed(first.reader, first.log, b, now_b, took_b);
    let once = fed(r, log, a + b, now_b, took_b);
    utf8::decodable_is_greatest(x);
    utf8::broken_off_at_most(x, b);
    assert(!gives_up(x));
    let y = x.skip(n) + b;
    let all = r.carry + (a + b);
    assert(all =~= r.carry + a + b);
    assert(x + b =~= x.take(n) + y);
    utf8::rest_is_utf8(x.take(n), y);
    utf8::decodable_of_utf8(y);
    utf8::decodable_of_utf8(all);
    utf8::decode_of_both(x.take(n), y);
    assert(y.take(y.len() as int) =~= y);
    assert(y.skip(y.len() as int) =~= Seq::<u8>::empty());
    assert(all.take(all.len() as int) =~= all);
    assert(all.skip(all.len() as int) =~= Seq::<u8>::empty());
    assert(x.skip(0) =~= x);
    if n == 0 {
        assert(y =~= all);
        assert(first.reader =~= ReaderView { carry: x, ..r });
    } else if y.len() == 0 {
        assert(all =~= x.take(n));
        assert(x.skip(n) =~= Seq::<u8>::empty());
        assert(b =~= Seq::<u8>::empty());
    } else {
        let c = vstd::utf8::decode_utf8(x.take(n));
        let d = vstd::utf8::decode_utf8(y);
        assert(!c.contains('\u{1b}')) by {
            if c.contains('\u{1b}') {
                let i = choose|i: int| 0 <= i < c.len() && c[i] == '\u{1b}';
                assert((c + d)[i] == '\u{1b}');
            }
        }
        terminal::plain_text_in_two(c, d);
        lines_in_two(r, log, terminal::plain_text(c), terminal::plain_text(d));
    }
}

/// Output in UTF-8 without escape sequences leaves the same lines, the same recent lines, the same
/// address and the same tail behind, in however many reads it comes and wherever it was cut.
pub proof fn lines_do_not_depend_on_reads(
    r: ReaderView,
    log: LogView,
    reads: Seq<Read>,
    now: u64,
    took_over: bool,
)
    requires
        reads.len() > 0,
        vstd::utf8::valid_utf8(r.carry + all_bytes(reads)),
        !vstd::utf8::decode_utf8(r.carry + all_bytes(reads)).contains('\u{1b}'),
    ensures
        ({
            let last = fed_at(r, log, reads, reads.len() - 1);
            let once = fed(r, log, all_bytes(reads), now, took_over);
            &&& last.log == once.log
            &&& last.reader.carry == once.reader.carry
            &&& last.reader.pending == once.reader.pending
            &&& last.reader.recent == once.reader.recent
        }),
    decreases reads.len(),
{
    let rest = reads.skip(1);
    let a = reads[0];
    let b = all_bytes(rest);
    let first = fed_at(r, log, reads, 0);
    assert(r.carry + all_bytes(reads) =~= r.carry + a.bytes + b);
    if rest.len() == 0 {
        assert(a.bytes + b =~= a.bytes);
    } else {
        first_read_of_utf8(r, log, a, b);
        let tail = vstd::utf8::decode_utf8(first.reader.carry + b);
        assert(!tail.contains('\u{1b}')) by {
            if tail.contains('\u{1b}') {
                let i = choose|i: int| 0 <= i < tail.len() && tail[i] == '\u{1b}';
                assert((shown(first) + tail)[shown(first).len() + i] == '\u{1b}');
            }
        }
        lines_do_not_depend_on_reads(first.reader, first.log, rest, now, took_over);
        fed_behind_the_first(r, log, reads, reads.len() - 1);
        one_read_or_two(r, log, a.bytes, b, a.now, now, a.took_over, took_over);
    }
}

/// The windows that are kept of the output never grow beyond their sizes.
pub proof fn windows_stay_bounded(
    r: ReaderView,
    log: LogView,
    bytes: Seq<u8>,
    now: u64,
    took_over: bool,
)
    requires
        r.recent.len() <= RECENT_LINES,
        log.tail.len() <= TAIL_LINES,
    ensures
        fed(r, log, bytes, now, took_over).reader.recent.len() <= RECENT_LINES,
        fed(r, log, bytes, now, took_over).log.tail.len() <= TAIL_LINES,
        ended(r, log).tail.len() <= TAIL_LINES,
{
    let b = r.carry + bytes;
    let n = utf8::decodable(b) as int;
    let plain = terminal::plain_text(vstd::utf8::decode_utf8(b.take(n)));
    noted_stays_bounded(log, finished_lines(r.pending + plain));
}

proof fn noted_stays_bounded(log: LogView, lines: Seq<Seq<char>>)
    requires
        log.tail.len() <= TAIL_LINES,
    ensures
        noted_all(log, lines).tail.len() <= TAIL_LINES,
    decreases lines.len(),
{
    if lines.len() > 0 {
        noted_stays_bounded(log, lines.drop_last());
    }
}

/// A reader remembers its last answer.
proof fn answers_are_remembered(r: ReaderView, log: LogView, reads: Seq<Read>, i: int, j: int)
    requires
        0 <= i <= j < reads.len(),
        fed_at(r, log, reads, i).reply,
    ensures
        fed_at(r, log, reads, j).reader.last_reply matches Some(t) && t >= reads[i].now,
    decreases j - i,
{
    if i < j {
        answers_are_remembered(r, log, reads, i, j - 1);
    }
}

/// A question is answered only while the user does not answer on their own, and any two answers
/// are at least the pause apart.
pub proof fn answers_are_apart(r: ReaderView, log: LogView, reads: Seq<Read>, i: int, j: int)
    requires
        0 <= i < j < reads.len(),
    ensures
        fed_at(r, log, reads, i).reply ==> !reads[i].took_over,
        fed_at(r, log, reads, i).reply && fed_at(r, log, reads, j).reply ==> reads[j].now
            - reads[i].now >= REPLY_PAUSE_MS,
{
    if fed_at(r, log, reads, i).reply {
        answers_are_remembered(r, log, reads, i, j - 1);
    }
}

} // verus!
