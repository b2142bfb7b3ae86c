//! What the output of the running command says: plain text, questions, the address of the service.

use crate::text;
use crate::text::CharClass;
use vstd::prelude::*;
use vstd::slice::*;
use vstd::string::*;

verus! {

/// How one launch of the command ended.
#[derive(Clone, Copy, Debug, PartialEq, Eq, Structural)]
pub enum LaunchOutcome {
    /// The port answers and the window was told the address.
    Ready,
    /// The process ended before the port answered, or the wait ran out.
    Failed { crashed: bool },
    /// A fatal error was reported already; nothing is to be tried again.
    Abort,
}

// ---- escape sequences -----------------------------------------------------------------------

/// Whether a character is kept in plain text: line feed, carriage return, tab, and everything that
/// is no control character; those are below U+0020 and from U+007F to U+009F.
pub open spec fn is_kept(c: char) -> bool {
    c == '\n' || c == '\r' || c == '\t' || (c as u32 >= 0x20 && !(0x7f <= c as u32 <= 0x9f))
}

/// Tests whether a character is kept in plain text.
fn keeps(c: char) -> (r: bool)
    ensures
        r == is_kept(c),
{
    let n = c as u32;
    c == '\n' || c == '\r' || c == '\t' || (n >= 0x20 && !(0x7f <= n && n <= 0x9f))
}

/// What follows a control sequence, whose introducer was read already.
pub open spec fn after_csi(s: Seq<char>) -> Seq<char> {
    let i = text::first_of(s, CharClass::CsiFinal) as int;
    if i < s.len() {
        s.skip(i + 1)
    } else {
        Seq::empty()
    }
}

/// What follows an operating system command, whose introducer was read already: it ends with the
/// bell, or with an escape and the backslash that may follow it.
pub open spec fn after_osc(s: Seq<char>) -> Seq<char> {
    let i = text::first_of(s, CharClass::OscEnd) as int;
    if i < s.len() {
        if s[i] == '\u{1b}' && i + 1 < s.len() && s[i + 1] == '\\' {
            s.skip(i + 2)
        } else {
            s.skip(i + 1)
        }
    } else {
        Seq::empty()
    }
}

/// What follows the escape at the start of `s`.
pub open spec fn after_escape(s: Seq<char>) -> Seq<char> {
    let t = s.skip(1);
    if t.len() == 0 {
        t
    } else if t[0] == '[' {
        after_csi(t.skip(1))
    } else if t[0] == ']' {
        after_osc(t.skip(1))
    } else {
        t.skip(1)
    }
}

/// `s` without escape sequences and without control characters other than line feed, carriage
/// return and tab.
pub open spec fn plain_text(s: Seq<char>) -> Seq<char>
    decreases s.len(),
{
    proof {
        after_escape_is_shorter(s);
    }
    if s.len() == 0 {
        Seq::empty()
    } else if s[0] == '\u{1b}' {
        plain_text(after_escape(s))
    } else if is_kept(s[0]) {
        seq![s[0]] + plain_text(s.skip(1))
    } else {
        plain_text(s.skip(1))
    }
}

/// An escape sequence has at least one character.
pub proof fn after_escape_is_shorter(s: Seq<char>)
    ensures
        s.len() > 0 ==> after_escape(s).len() < s.len(),
{
    if s.len() > 0 {
        text::first_of_bounds(s.skip(1).skip(1), CharClass::CsiFinal);
        text::first_of_bounds(s.skip(1).skip(1), CharClass::OscEnd);
    }
}

/// Removes escape sequences and control characters.
pub fn strip_ansi(s: &str) -> (r: String)
    ensures
        r@ == plain_text(s@),
{
    let cs = text::to_chars(s);
    let plain = strip_chars(cs.as_slice());
    text::to_text(plain.as_slice())
}

/// The position behind the control sequence that goes on at `i`.
fn skip_csi(s: &[char], i: usize) -> (r: usize)
    requires
        i <= s@.len(),
    ensures
        i <= r <= s@.len(),
        s@.skip(r as int) == after_csi(s@.skip(i as int)),
{
    let rest = slice_subrange(s, i, s.len());
    let n = text::find_first_of(rest, CharClass::CsiFinal);
    assert(rest@ =~= s@.skip(i as int));
    if n < rest.len() {
        assert(s@.skip(i + n + 1) =~= rest@.skip(n + 1));
        i + n + 1
    } else {
        assert(s@.skip(s@.len() as int) =~= Seq::<char>::empty());
        s.len()
    }
}

/// The position behind the operating system command that goes on at `i`.
fn skip_osc(s: &[char], i: usize) -> (r: usize)
    requires
        i <= s@.len(),
    ensures
        i <= r <= s@.len(),
        s@.skip(r as int) == after_osc(s@.skip(i as int)),
{
    let rest = slice_subrange(s, i, s.len());
    let n = text::find_first_of(rest, CharClass::OscEnd);
    assert(rest@ =~= s@.skip(i as int));
    if n < rest.len() {
        if rest[n] == '\u{1b}' && n + 1 < rest.len() && rest[n + 1] == '\\' {
            assert(s@.skip(i + n + 2) =~= rest@.skip(n + 2));
            i + n + 2
        } else {
            assert(s@.skip(i + n + 1) =~= rest@.skip(n + 1));
            i + n + 1
        }
    } else {
        assert(s@.skip(s@.len() as int) =~= Seq::<char>::empty());
        s.len()
    }
}

/// The position behind the escape sequence that begins at `i`.
fn skip_escape(s: &[char], i: usize) -> (r: usize)
    requires
        i < s@.len(),
    ensures
        i < r <= s@.len(),
        s@.skip(r as int) == after_escape(s@.skip(i as int)),
{
    assert(s@.skip(i as int).skip(1) =~= s@.skip(i + 1));
    let n = s.len();
    if i + 1 == n {
        return n;
    }
    assert(s@.skip(i + 1).skip(1) =~= s@.skip(i + 2));
    assert(s@.skip(i + 1)[0] == s@[i + 1]);
    if s[i + 1] == '[' {
        skip_csi(s, i + 2)
    } else if s[i + 1] == ']' {
        skip_osc(s, i + 2)
    } else {
        i + 2
    }
}

/// Removes escape sequences and control characters.
pub fn strip_chars(s: &[char]) -> (r: Vec<char>)
    ensures
        r@ == plain_text(s@),
{
    let mut out: Vec<char> = Vec::new();
    let mut i: usize = 0;
    assert(s@.skip(0) =~= s@);
    assert(out@ + plain_text(s@) =~= plain_text(s@));
    while i < s.len()
        invariant
            i <= s@.len(),
            out@ + plain_text(s@.skip(i as int)) == plain_text(s@),
        decreases s@.len() - i,
    {
        let c = s[i];
        let ghost rest = s@.skip(i as int);
        assert(rest[0] == c);
        assert(rest.skip(1) =~= s@.skip(i + 1));
        if c == '\u{1b}' {
            i = skip_escape(s, i);
        } else {
            if keeps(c) {
                let ghost before = out@;
                out.push(c);
                assert(before + (seq![c] + plain_text(rest.skip(1))) =~= out@ + plain_text(
                    rest.skip(1),
                ));
            }
            i += 1;
        }
    }
    assert(s@.skip(i as int) =~= Seq::<char>::empty());
    assert(out@ + plain_text(s@.skip(i as int)) =~= out@);
    out
}

/// Plain text holds no control character but line feed, carriage return and tab.
pub proof fn plain_text_is_plain(s: Seq<char>)
    ensures
        forall|i: int| 0 <= i < plain_text(s).len() ==> is_kept(#[trigger] plain_text(s)[i]),
    decreases s.len(),
{
    if s.len() > 0 {
        after_escape_is_shorter(s);
        if s[0] == '\u{1b}' {
            plain_text_is_plain(after_escape(s));
            assert(plain_text(s) == plain_text(after_escape(s)));
        } else {
            plain_text_is_plain(s.skip(1));
            let p = plain_text(s);
            let q = plain_text(s.skip(1));
            assert forall|i: int| 0 <= i < p.len() implies is_kept(#[trigger] p[i]) by {
                if is_kept(s[0]) {
                    assert(p == seq![s[0]] + q);
                    if i > 0 {
                        assert(p[i] == q[i - 1]);
                    }
                } else {
                    assert(p[i] == q[i]);
                }
            }
        }
    } else {
        assert(plain_text(s).len() == 0);
    }
}

/// Text without control characters (but line feed, carriage return and tab) is plain already.
pub proof fn plain_text_stays(s: Seq<char>)
    requires
        forall|i: int| 0 <= i < s.len() ==> is_kept(#[trigger] s[i]),
    ensures
        plain_text(s) == s,
    decreases s.len(),
{
    if s.len() > 0 {
        assert(is_kept(s[0]));
        assert forall|i: int| 0 <= i < s.skip(1).len() implies is_kept(
            #[trigger] s.skip(1)[i],
        ) by {
            assert(s.skip(1)[i] == s[i + 1]);
        }
        plain_text_stays(s.skip(1));
        assert(seq![s[0]] + s.skip(1) =~= s);
    } else {
        assert(plain_text(s) =~= s);
    }
}

/// Stripping twice is stripping once.
pub proof fn strip_ansi_is_idempotent(s: Seq<char>)
    ensures
        plain_text(plain_text(s)) == plain_text(s),
{
    plain_text_is_plain(s);
    plain_text_stays(plain_text(s));
}

/// Text without escapes can be stripped piece by piece.
pub proof fn plain_text_in_two(a: Seq<char>, b: Seq<char>)
    requires
        !a.contains('\u{1b}'),
    ensures
        plain_text(a + b) == plain_text(a) + plain_text(b),
    decreases a.len(),
{
    if a.len() == 0 {
        assert(a + b =~= b);
        assert(plain_text(a) =~= Seq::<char>::empty());
        assert(plain_text(a) + plain_text(b) =~= plain_text(b));
    } else {
        assert(a.contains(a[0]));
        let rest = a.skip(1);
        assert(!rest.contains('\u{1b}')) by {
            if rest.contains('\u{1b}') {
                let i = choose|i: int| 0 <= i < rest.len() && rest[i] == '\u{1b}';
                assert(a[i + 1] == '\u{1b}');
            }
        }
        plain_text_in_two(rest, b);
        assert((a + b).skip(1) =~= rest + b);
        assert((a + b)[0] == a[0]);
        assert(plain_text(a + b) =~= plain_text(a) + plain_text(b));
    }
}

// ---- the address of the service -------------------------------------------------------------

/// The address that follows `dsh web:` in a line.
pub open spec fn announced_url(line: Seq<char>) -> Option<Seq<char>> {
    match text::find(line, "dsh web:"@) {
        Some(p) => match text::first_word(line.skip(p + "dsh web:"@.len())) {
            Some(w) => if text::starts_with(w, "http"@) {
                Some(w)
            } else {
                None
            },
            None => None,
        },
        None => None,
    }
}

/// Whether an address leads to the port of the service and carries a token.
pub open spec fn is_local_token_url(url: Seq<char>) -> bool {
    &&& text::contains(url, "127.0.0.1:3080"@) || text::contains(url, "localhost:3080"@)
    &&& text::contains(url, "token="@)
}

/// The address at the start of `s`: its first word without the punctuation that ends it.
pub open spec fn url_at_start(s: Seq<char>) -> Seq<char> {
    match text::first_word(s) {
        Some(w) => text::trim_end_of(w, CharClass::UrlTail),
        None => Seq::empty(),
    }
}

/// The first address in a line that leads to the port of the service and carries a token.
pub open spec fn local_token_url(line: Seq<char>) -> Option<Seq<char>>
    decreases line.len(),
{
    proof {
        text::find_is_first(line, "http"@);
        reveal_strlit("http");
    }
    match text::find(line, "http"@) {
        Some(p) => if is_local_token_url(url_at_start(line.skip(p))) {
            Some(url_at_start(line.skip(p)))
        } else {
            local_token_url(line.skip(p + "http"@.len()))
        },
        None => None,
    }
}

/// The address of the service that a line of output tells: what `dsh web:` announces, else any
/// local address with a token.
pub open spec fn server_url(line: Seq<char>) -> Option<Seq<char>> {
    match announced_url(line) {
        Some(u) => Some(u),
        None => local_token_url(line),
    }
}

/// Finds the address of the service in a line of output.
pub fn parse_server_url(line: &str) -> (r: Option<String>)
    ensures
        text::opt_text(r) == server_url(line@),
{
    let cs = text::to_chars(line);
    match read_announced(cs.as_slice()) {
        Some(u) => Some(u),
        None => read_local_url(cs.as_slice()),
    }
}

fn read_announced(line: &[char]) -> (r: Option<String>)
    ensures
        text::opt_text(r) == announced_url(line@),
{
    let tag = text::to_chars("dsh web:");
    match text::find_chars(line, tag.as_slice()) {
        Some(p) => {
            let n = line.len();
            let rest = slice_subrange(line, p + tag.len(), n);
            assert(rest@ =~= line@.skip(p + tag@.len()));
            match text::take_first_word(rest) {
                Some(w) => if text::begins_with(w, "http") {
                    Some(text::to_text(w))
                } else {
                    None
                },
                None => None,
            }
        },
        None => None,
    }
}

fn read_url_at_start(s: &[char]) -> (r: Vec<char>)
    ensures
        r@ == url_at_start(s@),
{
    match text::take_first_word(s) {
        Some(w) => text::copy_chars(text::without_end(w, CharClass::UrlTail)),
        None => Vec::new(),
    }
}

fn read_local_url(line: &[char]) -> (r: Option<String>)
    ensures
        text::opt_text(r) == local_token_url(line@),
{
    let tag = text::to_chars("http");
    let mut rest: &[char] = line;
    loop
        invariant
            tag@ == "http"@,
            local_token_url(rest@) == local_token_url(line@),
        decreases rest@.len(),
    {
        match text::find_chars(rest, tag.as_slice()) {
            Some(p) => {
                let from = slice_subrange(rest, p, rest.len());
                assert(from@ =~= rest@.skip(p as int));
                let url = read_url_at_start(from);
                let us = url.as_slice();
                if (text::has_str(us, "127.0.0.1:3080") || text::has_str(us, "localhost:3080"))
                    && text::has_str(us, "token=") {
                    return Some(text::to_text(us));
                }
                let next = slice_subrange(rest, p + tag.len(), rest.len());
                proof {
                    reveal_strlit("http");
                    assert(next@ =~= rest@.skip(p + tag@.len()));
                }
                rest = next;
            },
            None => {
                return None;
            },
        }
    }
}

/// The first word of a text is a word.
proof fn first_word_is_word(s: Seq<char>)
    ensures
        match text::first_word(s) {
            Some(w) => w.len() > 0 && !text::has_white_space(w),
            None => true,
        },
{
    let k = CharClass::WhiteSpace;
    let t = text::trim_start(s);
    text::run_bounds(s, k);
    text::first_of_bounds(t, k);
    if t.len() > 0 {
        assert(!k.has(t[0]));
        let w = t.take(text::first_of(t, k) as int);
        assert forall|i: int| 0 <= i < w.len() implies !text::is_white_space(#[trigger] w[i]) by {
            assert(w[i] == t[i]);
            assert(!k.has(t[i]));
        }
    }
}

/// The address that a line tells is one word: nothing of the rest of the line comes with it.
pub proof fn address_is_one_word(line: Seq<char>)
    ensures
        match server_url(line) {
            Some(u) => !text::has_white_space(u),
            None => true,
        },
{
    match text::find(line, "dsh web:"@) {
        Some(p) => {
            first_word_is_word(line.skip(p + "dsh web:"@.len()));
        },
        None => {},
    }
    local_address_is_one_word(line);
}

proof fn local_address_is_one_word(line: Seq<char>)
    ensures
        match local_token_url(line) {
            Some(u) => !text::has_white_space(u) && is_local_token_url(u),
            None => true,
        },
    decreases line.len(),
{
    text::find_is_first(line, "http"@);
    reveal_strlit("http");
    match text::find(line, "http"@) {
        Some(p) => {
            let s = line.skip(p);
            let u = url_at_start(s);
            if is_local_token_url(u) {
                first_word_is_word(s);
                match text::first_word(s) {
                    Some(w) => {
                        text::end_run_bounds(w, CharClass::UrlTail);
                        assert forall|i: int| 0 <= i < u.len() implies !text::is_white_space(
                            #[trigger] u[i],
                        ) by {
                            assert(u[i] == w[i]);
                        }
                    },
                    None => {},
                }
            } else {
                local_address_is_one_word(line.skip(p + "http"@.len()));
            }
        },
        None => {},
    }
}

// ---- questions ------------------------------------------------------------------------------

/// Whether a line ends with a question mark and holds a `y` or an `n`.
pub open spec fn is_question(line: Seq<char>) -> bool {
    let t = text::trim(line);
    &&& t.len() > 0
    &&& t.last() == '?'
    &&& t.contains('y') || t.contains('n')
}

/// Whether output seems to ask for a confirmation.
pub open spec fn is_prompt(s: Seq<char>) -> bool {
    let lower = text::ascii_lowercase(s);
    ||| text::contains(s, "(y/N)"@)
    ||| text::contains(s, "[Y/n]"@)
    ||| text::contains(s, "(Y/n)"@)
    ||| text::contains(s, "(y/n)"@)
    ||| text::contains(s, "[y/N]"@)
    ||| text::contains(lower, "continue?"@)
    ||| text::contains(lower, "proceed?"@)
    ||| text::contains(lower, "confirm?"@)
    ||| text::contains(lower, "yes or no"@)
    ||| text::contains(lower, "do you want to"@)
    ||| exists|i: int| 0 <= i < text::lines(s).len() && is_question(#[trigger] text::lines(s)[i])
}

/// Tests whether output seems to ask for a confirmation.
pub fn detect_prompt(s: &str) -> (r: bool)
    ensures
        r == is_prompt(s@),
{
    let cs = text::to_chars(s);
    let c = cs.as_slice();
    if text::has_str(c, "(y/N)") || text::has_str(c, "[Y/n]") || text::has_str(c, "(Y/n)")
        || text::has_str(c, "(y/n)") || text::has_str(c, "[y/N]") {
        return true;
    }
    let lower = text::lowercase_ascii(c);
    let l = lower.as_slice();
    if text::has_str(l, "continue?") || text::has_str(l, "proceed?") || text::has_str(l, "confirm?")
        || text::has_str(l, "yes or no") || text::has_str(l, "do you want to") {
        return true;
    }
    let lines = text::split_lines(c);
    let mut i: usize = 0;
    while i < lines.len()
        invariant
            i <= lines@.len(),
            c@ == s@,
            text::pieces(lines@) == text::lines(s@),
            forall|j: int| 0 <= j < i ==> !is_question(#[trigger] text::lines(s@)[j]),
        decreases lines@.len() - i,
    {
        let t = text::trimmed(lines[i].as_slice());
        assert(text::lines(s@)[i as int] == lines@[i as int]@);
        if t.len() > 0 && t[t.len() - 1] == '?' && (text::has_char(t, 'y') || text::has_char(
            t,
            'n',
        )) {
            assert(is_question(text::lines(s@)[i as int]));
            return true;
        }
        i += 1;
    }
    false
}

/// The lines that hold more than white space.
pub open spec fn nonblank(lines: Seq<Seq<char>>) -> Seq<Seq<char>>
    decreases lines.len(),
{
    if lines.len() == 0 {
        Seq::empty()
    } else if text::trim(lines.last()).len() > 0 {
        nonblank(lines.drop_last()).push(lines.last())
    } else {
        nonblank(lines.drop_last())
    }
}

/// Blank lines can be left out piece by piece.
pub proof fn nonblank_in_two(a: Seq<Seq<char>>, b: Seq<Seq<char>>)
    ensures
        nonblank(a + b) == nonblank(a) + nonblank(b),
    decreases b.len(),
{
    if b.len() == 0 {
        assert(a + b =~= a);
        assert(nonblank(a) + nonblank(b) =~= nonblank(a));
    } else {
        nonblank_in_two(a, b.drop_last());
        assert((a + b).drop_last() =~= a + b.drop_last());
        assert(nonblank(a + b) =~= nonblank(a) + nonblank(b));
    }
}

/// The question in recent output: its last four lines that are not blank.
pub open spec fn prompt_text(recent: Seq<char>) -> Seq<char> {
    let q = text::trim(text::join(text::last_n(nonblank(text::lines(recent)), 4), "\n"@));
    if q.len() == 0 {
        "需要确认（y/N）"@
    } else {
        q
    }
}

/// Takes the question out of recent output.
pub fn extract_prompt_text(recent: &str) -> (r: String)
    ensures
        r@ == prompt_text(recent@),
{
    let cs = text::to_chars(recent);
    let lines = text::split_lines(cs.as_slice());
    let mut kept: Vec<Vec<char>> = Vec::new();
    let mut i: usize = 0;
    assert(text::pieces(kept@) =~= nonblank(text::pieces(lines@).take(0)));
    while i < lines.len()
        invariant
            i <= lines@.len(),
            text::pieces(kept@) == nonblank(text::pieces(lines@).take(i as int)),
        decreases lines@.len() - i,
    {
        let ghost before = text::pieces(kept@);
        let ghost all = text::pieces(lines@);
        if text::trimmed(lines[i].as_slice()).len() > 0 {
            kept.push(text::copy_chars(lines[i].as_slice()));
            assert(text::pieces(kept@) =~= before.push(lines@[i as int]@));
        }
        i += 1;
        proof {
            assert(all.take(i as int).drop_last() =~= all.take(i - 1));
            assert(all.take(i as int).last() == lines@[i - 1]@);
        }
    }
    assert(text::pieces(lines@).take(i as int) =~= text::pieces(lines@));
    if kept.len() > 4 {
        let ghost before = text::pieces(kept@);
        kept = kept.split_off(kept.len() - 4);
        assert(text::pieces(kept@) =~= text::last_n(before, 4));
    }
    let joined = text::join_chars(kept.as_slice(), "\n");
    let q = text::trimmed(joined.as_slice());
    if q.len() == 0 {
        String::from_str("需要确认（y/N）")
    } else {
        text::to_text(q)
    }
}

} // verus!
