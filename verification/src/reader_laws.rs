//! What a reader takes from the output, in terms of the output.

use crate::event::EventView;
use crate::reader;
use crate::reader::{LogView, ReaderView};
use crate::terminal;
use crate::terminal_laws;
use crate::text;
use crate::text::CharClass;
use crate::text_laws;
use crate::utf8;
use vstd::prelude::*;

verus! {

// ---- the log --------------------------------------------------------------------------------

/// The address in the log is the one that the last line told that tells one: lines that tell none
/// leave it as it is, however many there are.
pub proof fn last_told_address_stays(
    log: LogView,
    before: Seq<Seq<char>>,
    line: Seq<char>,
    after: Seq<Seq<char>>,
)
    requires
        forall|i: int| 0 <= i < after.len() ==> terminal::server_url(#[trigger] after[i]) is None,
    ensures
        terminal::server_url(line) is Some ==> reader::noted_all(
            log,
            before + seq![line] + after,
        ).url == terminal::server_url(line),
        reader::noted_all(log, after).url == log.url,
    decreases after.len(),
{
    let all = before + seq![line] + after;
    if after.len() == 0 {
        assert(all.last() == line);
    } else {
        let rest = after.drop_last();
        assert forall|i: int| 0 <= i < rest.len() implies terminal::server_url(
            #[trigger] rest[i],
        ) is None by {
            assert(rest[i] == after[i]);
        }
        last_told_address_stays(log, before, line, rest);
        assert(all.drop_last() =~= before + seq![line] + rest);
        assert(all.last() == after[after.len() - 1]);
    }
}

/// The tail of the log holds the last 600 lines, in their order.
pub proof fn last_lines_are_kept(log: LogView, lines: Seq<Seq<char>>)
    requires
        log.tail.len() <= 600,
    ensures
        ({
            let all = log.tail + lines;
            reader::noted_all(log, lines).tail == (if all.len() <= 600 {
                all
            } else {
                all.skip(all.len() - 600)
            })
        }),
    decreases lines.len(),
{
    let all = log.tail + lines;
    if lines.len() == 0 {
        assert(all =~= log.tail);
    } else {
        let front = lines.drop_last();
        last_lines_are_kept(log, front);
        let t = reader::noted_all(log, front).tail;
        assert((log.tail + front).push(lines.last()) =~= all);
        assert(reader::noted_all(log, lines).tail =~= (if all.len() <= 600 {
            all
        } else {
            all.skip(all.len() - 600)
        }));
    }
}

/// Once the output has ended, a line that has no end joins the tail without the white space around
/// it, and the address stays.
pub proof fn unended_line_is_kept(
    r: ReaderView,
    log: LogView,
    a: Seq<char>,
    s: Seq<char>,
    b: Seq<char>,
)
    requires
        log.tail.len() < 600,
        r.pending == a + s + b,
        text_laws::is_blank(a),
        text_laws::is_blank(b),
        text_laws::is_trimmed(s),
    ensures
        reader::ended(r, log).url == log.url,
        reader::ended(r, log).tail == (if s.len() > 0 {
            log.tail.push(s)
        } else {
            log.tail
        }),
{
    text_laws::trim_takes_the_ends(a, s, b);
}

// ---- lines ----------------------------------------------------------------------------------

/// Whether a text holds no line end.
pub open spec fn is_within_a_line(s: Seq<char>) -> bool {
    !s.contains('\n') && !s.contains('\r')
}

/// Lines end at a line feed or a carriage return, and those that are blank are left out. What has no
/// end waits.
pub proof fn ended_lines_are_taken(line: Seq<char>, c: char, rest: Seq<char>)
    requires
        is_within_a_line(line),
        c == '\n' || c == '\r',
    ensures
        reader::finished_lines(line + seq![c] + rest) == (if text_laws::is_blank(line) {
            reader::finished_lines(rest)
        } else {
            seq![line] + reader::finished_lines(rest)
        }),
        reader::unfinished(line + seq![c] + rest) == reader::unfinished(rest),
        reader::finished_lines(line) == Seq::<Seq<char>>::empty(),
        reader::unfinished(line) == line,
{
    let k = CharClass::LineBreak;
    assert forall|i: int| 0 <= i < line.len() implies !k.has(#[trigger] line[i]) by {
        assert(line.contains(line[i]));
    }
    text_laws::split_takes_apart(line, c, rest, k);
    text::split_in_two(rest, Seq::empty(), k);
    let parts = text::split(rest, k);
    let all = seq![line] + parts;
    assert(all.drop_last() =~= seq![line] + parts.drop_last());
    assert(all.last() == parts.last());
    terminal::nonblank_in_two(seq![line], parts.drop_last());
    assert(seq![line].drop_last() =~= Seq::<Seq<char>>::empty());
    assert(terminal::nonblank(Seq::empty()) =~= Seq::<Seq<char>>::empty());
    let none = Seq::<char>::empty();
    let (a, b) = text_laws::trim_leaves_the_middle(line);
    if text_laws::is_blank(line) {
        assert(line + none + none =~= line);
        text_laws::trim_takes_the_ends(line, none, none);
        assert(terminal::nonblank(seq![line]) =~= Seq::<Seq<char>>::empty());
        assert(Seq::<Seq<char>>::empty() + reader::finished_lines(rest) =~= reader::finished_lines(
            rest,
        ));
    } else {
        if text::trim(line).len() == 0 {
            assert(line =~= a + b);
            assert forall|i: int| 0 <= i < line.len() implies text::is_white_space(
                #[trigger] line[i],
            ) by {
                if i < a.len() {
                    assert(line[i] == a[i]);
                } else {
                    assert(line[i] == b[i - a.len()]);
                }
            }
        }
        assert(terminal::nonblank(seq![line]) =~= seq![line]);
    }
}

// ---- one read -------------------------------------------------------------------------------

/// The text that a read completes.
pub open spec fn read_text(r: ReaderView, bytes: Seq<u8>) -> Seq<char> {
    vstd::utf8::decode_utf8(r.carry + bytes)
}

/// A read of text is shown as it is; its plain text goes on with the line that waits, the lines that
/// end in it are noted, and the last twenty of them are remembered.
pub proof fn read_is_taken_in(
    r: ReaderView,
    log: LogView,
    bytes: Seq<u8>,
    now: u64,
    took_over: bool,
)
    requires
        vstd::utf8::valid_utf8(r.carry + bytes),
        (r.carry + bytes).len() > 0,
    ensures
        ({
            let s = r.pending + terminal::plain_text(read_text(r, bytes));
            let f = reader::fed(r, log, bytes, now, took_over);
            let all = r.recent + reader::finished_lines(s);
            &&& f.log == reader::noted_all(log, reader::finished_lines(s))
            &&& f.reader.pending == reader::unfinished(s)
            &&& f.reader.carry.len() == 0
            &&& f.reader.recent == (if all.len() <= 20 {
                all
            } else {
                all.skip(all.len() - 20)
            })
            &&& f.active
            &&& f.events.len() > 0 && f.events[0] == EventView::Term(read_text(r, bytes))
        }),
{
    let b = r.carry + bytes;
    utf8::decodable_of_utf8(b);
    assert(b.take(b.len() as int) =~= b);
    assert(b.skip(b.len() as int) =~= Seq::<u8>::empty());
}

/// The address that one line of a read told is kept, whatever lines without one follow in the same
/// read or in later ones.
pub proof fn read_address_is_kept(
    r: ReaderView,
    log: LogView,
    bytes: Seq<u8>,
    now: u64,
    took_over: bool,
    before: Seq<Seq<char>>,
    line: Seq<char>,
    after: Seq<Seq<char>>,
)
    requires
        vstd::utf8::valid_utf8(r.carry + bytes),
        (r.carry + bytes).len() > 0,
        forall|i: int| 0 <= i < after.len() ==> terminal::server_url(#[trigger] after[i]) is None,
    ensures
        ({
            let s = r.pending + terminal::plain_text(read_text(r, bytes));
            let f = reader::fed(r, log, bytes, now, took_over);
            &&& reader::finished_lines(s) == before + seq![line] + after && terminal::server_url(
                line,
            ) is Some ==> f.log.url == terminal::server_url(line)
            &&& reader::finished_lines(s) == after ==> f.log.url == log.url
        }),
{
    read_is_taken_in(r, log, bytes, now, took_over);
    last_told_address_stays(log, before, line, after);
}

/// Bytes that do not begin with a character wait until they do; four of them and more are shown as
/// well as they can be, and nothing waits any longer.
pub proof fn broken_bytes_are_given_up(
    r: ReaderView,
    log: LogView,
    bytes: Seq<u8>,
    now: u64,
    took_over: bool,
)
    requires
        utf8::decodable(r.carry + bytes) == 0,
    ensures
        ({
            let b = r.carry + bytes;
            let f = reader::fed(r, log, bytes, now, took_over);
            &&& f.log == log && !f.reply
            &&& f.reader.pending == r.pending && f.reader.recent == r.recent
            &&& f.reader.last_reply == r.last_reply
            &&& b.len() < 4 ==> f.reader.carry == b && f.events.len() == 0 && !f.active
            &&& b.len() >= 4 ==> f.reader.carry.len() == 0 && f.active && f.events == seq![
                EventView::Term(utf8::lossy_text(b)),
            ]
        }),
{
}

// ---- answers --------------------------------------------------------------------------------

/// Whether a question may be answered now: the user does not answer on their own, and the last
/// answer is at least a second and a half ago.
pub open spec fn may_answer(r: ReaderView, now: u64, took_over: bool) -> bool {
    &&& !took_over
    &&& match r.last_reply {
        Some(t) => now >= t + 1500,
        None => true,
    }
}

/// A read whose plain text holds one of the usual marks of a question is answered, unless the user
/// took over or the pause has not passed: the question is shown, and that it was answered, and the
/// time is remembered. A read that does not ask is not answered.
pub proof fn questions_are_answered(
    r: ReaderView,
    log: LogView,
    bytes: Seq<u8>,
    now: u64,
    took_over: bool,
    a: Seq<char>,
    b: Seq<char>,
)
    requires
        vstd::utf8::valid_utf8(r.carry + bytes),
        (r.carry + bytes).len() > 0,
        ({
            let plain = terminal::plain_text(read_text(r, bytes));
            ||| plain == a + "(y/N)"@ + b
            ||| plain == a + "[Y/n]"@ + b
            ||| plain == a + "(Y/n)"@ + b
            ||| plain == a + "(y/n)"@ + b
            ||| plain == a + "[y/N]"@ + b
        }),
    ensures
        ({
            let f = reader::fed(r, log, bytes, now, took_over);
            &&& f.reply == may_answer(r, now, took_over)
            &&& f.reply ==> f.reader.last_reply == Some(now) && f.events.len() == 3
                && f.events[1] is Prompt && f.events[2] == EventView::Term(
                "\r\n[需要确认] 已自动回复 y（继续）。如需手动，请在下方输入框输入。\r\n"@,
            )
            &&& !f.reply ==> f.reader.last_reply == r.last_reply && f.events.len() == 1
        }),
{
    terminal_laws::marks_ask(a, b);
    let all = r.carry + bytes;
    utf8::decodable_of_utf8(all);
    assert(all.take(all.len() as int) =~= all);
}

/// Whether a read is answered depends on nothing but whether its plain text asks, whether the user
/// took over, and the time of the last answer.
pub proof fn only_questions_are_answered(
    r: ReaderView,
    log: LogView,
    bytes: Seq<u8>,
    now: u64,
    took_over: bool,
)
    requires
        vstd::utf8::valid_utf8(r.carry + bytes),
        (r.carry + bytes).len() > 0,
    ensures
        ({
            let f = reader::fed(r, log, bytes, now, took_over);
            let plain = terminal::plain_text(read_text(r, bytes));
            f.reply == (terminal::is_prompt(plain) && may_answer(r, now, took_over))
        }),
{
    let all = r.carry + bytes;
    utf8::decodable_of_utf8(all);
    assert(all.take(all.len() as int) =~= all);
}

/// A question that stands alone in its line is shown as that line, though the line has no end yet.
pub proof fn question_is_shown(
    r: ReaderView,
    log: LogView,
    bytes: Seq<u8>,
    now: u64,
    took_over: bool,
    q: Seq<char>,
)
    requires
        vstd::utf8::valid_utf8(r.carry + bytes),
        (r.carry + bytes).len() > 0,
        r.recent.len() == 0,
        r.pending + terminal::plain_text(read_text(r, bytes)) == q,
        is_within_a_line(q),
        !text_laws::is_blank(q),
        reader::fed(r, log, bytes, now, took_over).reply,
    ensures
        reader::fed(r, log, bytes, now, took_over).events[1] == EventView::Prompt(text::trim(q)),
{
    let all = r.carry + bytes;
    utf8::decodable_of_utf8(all);
    assert(all.take(all.len() as int) =~= all);
    ended_lines_are_taken(q, '\n', Seq::empty());
    let recent = text::last_n(r.recent + reader::finished_lines(q), 20);
    assert(recent =~= Seq::<Seq<char>>::empty());
    assert(recent.push(q) =~= seq![q]);
    text_laws::join_goes_on(Seq::empty(), q, "\n"@);
    if q.len() > 0 && q.last() == '\r' {
        assert(q.contains('\r'));
    }
    text_laws::line_by_line(q, Seq::empty());
    let (a, b) = text_laws::trim_leaves_the_middle(q);
    if text::trim(q).len() == 0 {
        assert(q =~= a + b);
        assert forall|i: int| 0 <= i < q.len() implies text::is_white_space(#[trigger] q[i]) by {
            if i < a.len() {
                assert(q[i] == a[i]);
            } else {
                assert(q[i] == b[i - a.len()]);
            }
        }
    }
    assert(seq![q].drop_last() =~= Seq::<Seq<char>>::empty());
    assert(terminal::nonblank(Seq::empty()) =~= Seq::<Seq<char>>::empty());
    assert(terminal::nonblank(seq![q]) =~= seq![q]);
    assert(text::last_n(seq![q], 4) =~= seq![q]);
}

/// A line that comes through a pipe is noted as it is, without the control sequences around it: it
/// becomes the last of the kept ones, and the address that it tells, if any, counts.
pub proof fn piped_line_is_noted(
    log: LogView,
    body: Seq<char>,
    end: char,
    line: Seq<char>,
)
    requires
        forall|i: int| 0 <= i < body.len() ==> !('@' <= #[trigger] body[i] && body[i] <= '~'),
        '@' <= end && end <= '~',
        forall|i: int| 0 <= i < line.len() ==> terminal_laws::is_shown(#[trigger] line[i]),
        !line.contains('\n'),
        line.len() > 0 ==> line.last() != '\r',
    ensures
        ({
            let plain = line + seq!['\n'];
            let seen = reader::piped(log, plain);
            &&& seen.tail == text::last_n(log.tail.push(line), 600)
            &&& seen.url == match terminal::server_url(line) {
                Some(u) => Some(u),
                None => log.url,
            }
            &&& reader::piped(log, seq!['\u{1b}', '['] + body + seq![end] + plain) == seen
        }),
{
    let none = Seq::<char>::empty();
    let plain = line + seq!['\n'];
    assert forall|i: int| 0 <= i < plain.len() implies terminal_laws::is_shown(
        #[trigger] plain[i],
    ) by {
        if i < line.len() {
            assert(plain[i] == line[i]);
        }
    }
    terminal_laws::plain_output_stays(plain);
    terminal_laws::control_sequence_is_left_out(none, body, end, plain);
    assert(none + seq!['\u{1b}', '['] + body + seq![end] + plain =~= seq!['\u{1b}', '['] + body
        + seq![end] + plain);
    terminal_laws::plain_output_stays(none);
    assert(none + plain =~= plain);
    text_laws::line_by_line(line, none);
    assert(line + seq!['\n'] + none =~= plain);
    assert(seq![line] + Seq::<Seq<char>>::empty() =~= seq![line]);
    let lines = seq![line];
    assert(text::lines(plain) == lines);
    assert(lines.drop_last() =~= Seq::<Seq<char>>::empty());
    assert(reader::noted_all(log, lines.drop_last()) == log);
    assert(lines.last() == line);
}

} // verus!
