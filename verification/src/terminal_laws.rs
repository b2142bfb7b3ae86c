//! What the output of the command is read for, in terms of the output.

use crate::terminal;
use crate::text;
use crate::text::CharClass;
use crate::text_laws;
use vstd::prelude::*;

verus! {

// ---- questions ------------------------------------------------------------------------------

/// Output that holds one of the usual marks of a question asks for a confirmation, wherever the
/// mark stands.
pub proof fn marks_ask(a: Seq<char>, b: Seq<char>)
    ensures
        terminal::is_prompt(a + "(y/N)"@ + b),
        terminal::is_prompt(a + "[Y/n]"@ + b),
        terminal::is_prompt(a + "(Y/n)"@ + b),
        terminal::is_prompt(a + "(y/n)"@ + b),
        terminal::is_prompt(a + "[y/N]"@ + b),
{
    text_laws::holds_pattern(a, "(y/N)"@, b);
    text_laws::holds_pattern(a, "[Y/n]"@, b);
    text_laws::holds_pattern(a, "(Y/n)"@, b);
    text_laws::holds_pattern(a, "(y/n)"@, b);
    text_laws::holds_pattern(a, "[y/N]"@, b);
}

/// Output that holds one of the usual phrases of a question asks for a confirmation, in small
/// letters and in capitals.
pub proof fn phrases_ask(a: Seq<char>, p: Seq<char>, b: Seq<char>)
    requires
        text::ascii_lowercase(p) == "continue?"@ || text::ascii_lowercase(p) == "proceed?"@
            || text::ascii_lowercase(p) == "confirm?"@ || text::ascii_lowercase(p) == "yes or no"@
            || text::ascii_lowercase(p) == "do you want to"@,
    ensures
        terminal::is_prompt(a + p + b),
{
    let s = a + p + b;
    let q = text::ascii_lowercase(p);
    let x = text::ascii_lowercase(a);
    let y = text::ascii_lowercase(b);
    assert(text::ascii_lowercase(s) =~= x + q + y);
    text_laws::holds_pattern(x, q, y);
}

/// A line that ends with a question mark and holds a `y` or an `n` asks for a confirmation.
pub proof fn questions_ask(s: Seq<char>, i: int, a: Seq<char>, q: Seq<char>, b: Seq<char>)
    requires
        0 <= i < text::lines(s).len(),
        text::lines(s)[i] == a + q + seq!['?'] + b,
        text_laws::is_blank(a),
        text_laws::is_blank(b),
        q.len() > 0,
        !text::is_white_space(q[0]),
        q.contains('y') || q.contains('n'),
    ensures
        terminal::is_prompt(s),
{
    let t = q + seq!['?'];
    let line = text::lines(s)[i];
    assert(line =~= a + t + b);
    assert(t[0] == q[0]);
    text_laws::trim_takes_the_ends(a, t, b);
    if q.contains('y') {
        let k = choose|k: int| 0 <= k < q.len() && q[k] == 'y';
        assert(t[k] == 'y');
    } else {
        let k = choose|k: int| 0 <= k < q.len() && q[k] == 'n';
        assert(t[k] == 'n');
    }
    assert(terminal::is_question(line));
}

/// Output without a question mark, without a slash and without the phrases that need neither does
/// not ask for a confirmation.
pub proof fn other_output_does_not_ask(s: Seq<char>)
    requires
        !s.contains('?'),
        !s.contains('/'),
        !text::contains(text::ascii_lowercase(s), "yes or no"@),
        !text::contains(text::ascii_lowercase(s), "do you want to"@),
    ensures
        !terminal::is_prompt(s),
{
    reveal_strlit("(y/N)");
    reveal_strlit("[Y/n]");
    reveal_strlit("(Y/n)");
    reveal_strlit("(y/n)");
    reveal_strlit("[y/N]");
    reveal_strlit("continue?");
    reveal_strlit("proceed?");
    reveal_strlit("confirm?");
    let l = text::ascii_lowercase(s);
    assert(!l.contains('?')) by {
        if l.contains('?') {
            let i = choose|i: int| 0 <= i < l.len() && l[i] == '?';
            assert(text::ascii_lower(s[i]) == '?');
            assert(s[i] == '?');
            assert(s.contains(s[i]));
        }
    }
    needs_character(s, "(y/N)"@, 2);
    needs_character(s, "[Y/n]"@, 2);
    needs_character(s, "(Y/n)"@, 2);
    needs_character(s, "(y/n)"@, 2);
    needs_character(s, "[y/N]"@, 2);
    needs_character(l, "continue?"@, 8);
    needs_character(l, "proceed?"@, 7);
    needs_character(l, "confirm?"@, 7);
    assert forall|i: int| 0 <= i < text::lines(s).len() implies !terminal::is_question(
        #[trigger] text::lines(s)[i],
    ) by {
        if terminal::is_question(text::lines(s)[i]) {
            let line = text::lines(s)[i];
            let (a, b) = text_laws::trim_leaves_the_middle(line);
            let t = text::trim(line);
            assert(line[a.len() + t.len() - 1] == t.last());
            assert(line.contains('?'));
            lines_are_of_the_text(s, i, '?');
        }
    }
}

proof fn needs_character(s: Seq<char>, p: Seq<char>, d: int)
    requires
        0 <= d < p.len(),
        !s.contains(p[d]),
    ensures
        !text::contains(s, p),
{
    if text::contains(s, p) {
        let i = choose|i: int| text::occurs_at(s, p, i);
        text_laws::pattern_characters(s, p, i, d);
        assert(s.contains(s[i + d]));
    }
}

proof fn lines_are_of_the_text(s: Seq<char>, i: int, c: char)
    requires
        0 <= i < text::lines(s).len(),
        text::lines(s)[i].contains(c),
    ensures
        s.contains(c),
    decreases s.len(),
{
    let k = CharClass::Is('\n');
    let n = text::first_of(s, k) as int;
    text::first_of_bounds(s, k);
    let all = text::lines(s);
    let j = choose|j: int| 0 <= j < all[i].len() && all[i][j] == c;
    if n < s.len() {
        if i == 0 {
            assert(all[0] == text::without_cr(s.take(n)));
            assert(s[j] == c);
        } else {
            let rest = s.skip(n + 1);
            assert(all[i] == text::lines(rest)[i - 1]);
            lines_are_of_the_text(rest, i - 1, c);
            let m = choose|m: int| 0 <= m < rest.len() && rest[m] == c;
            assert(s[n + 1 + m] == c);
        }
    } else {
        assert(all[0] == s);
    }
}

/// A question is shown with its last four lines that are not blank.
pub proof fn last_four_lines_are_shown(
    before: Seq<char>,
    a: Seq<char>,
    b: Seq<char>,
    c: Seq<char>,
    d: Seq<char>,
)
    requires
        is_text_line(a),
        is_text_line(b),
        is_text_line(c),
        is_text_line(d),
        before.len() == 0 || before.last() == '\n',
    ensures
        ({
            let four = a + seq!['\n'] + b + seq!['\n'] + c + seq!['\n'] + d;
            &&& terminal::prompt_text(before + four) == text::trim(four)
            &&& terminal::prompt_text(before + four + seq!['\n']) == text::trim(four)
        }),
{
    let nl = seq!['\n'];
    let four = a + nl + b + nl + c + nl + d;
    let parts = seq![a, b, c, d];
    four_lines(a, b, c, d);
    text::lines_in_two(before, four);
    text::lines_in_two(before, four + nl);
    assert(before + four + nl =~= before + (four + nl));
    terminal::nonblank_in_two(text::lines(before), parts);
    four_are_kept(a, b, c, d);
    let all = terminal::nonblank(text::lines(before)) + parts;
    assert(text::last_n(all, 4) =~= parts);
    four_are_joined(a, b, c, d);
    assert(four =~= a + nl + (b + nl + (c + nl + d)));
    joined_is_not_blank(a, b + nl + (c + nl + d));
}

proof fn four_lines(a: Seq<char>, b: Seq<char>, c: Seq<char>, d: Seq<char>)
    requires
        is_text_line(a),
        is_text_line(b),
        is_text_line(c),
        is_text_line(d),
    ensures
        ({
            let four = a + seq!['\n'] + b + seq!['\n'] + c + seq!['\n'] + d;
            &&& text::lines(four) == seq![a, b, c, d]
            &&& text::lines(four + seq!['\n']) == seq![a, b, c, d]
        }),
{
    let nl = seq!['\n'];
    let none = Seq::<char>::empty();
    let four = a + nl + b + nl + c + nl + d;
    assert(text::lines(four) =~= seq![a, b, c, d]) by {
        text_laws::line_by_line(a, b + nl + (c + nl + d));
        text_laws::line_by_line(b, c + nl + d);
        text_laws::line_by_line(c, d);
        text_laws::line_by_line(d, none);
        assert(four =~= a + nl + (b + nl + (c + nl + d)));
    }
    assert(text::lines(four + nl) =~= seq![a, b, c, d]) by {
        text_laws::line_by_line(a, b + nl + (c + nl + (d + nl + none)));
        text_laws::line_by_line(b, c + nl + (d + nl + none));
        text_laws::line_by_line(c, d + nl + none);
        text_laws::line_by_line(d, none);
        assert(four + nl =~= a + nl + (b + nl + (c + nl + (d + nl + none))));
    }
}

proof fn four_are_kept(a: Seq<char>, b: Seq<char>, c: Seq<char>, d: Seq<char>)
    requires
        is_text_line(a),
        is_text_line(b),
        is_text_line(c),
        is_text_line(d),
    ensures
        terminal::nonblank(seq![a, b, c, d]) == seq![a, b, c, d],
{
    text_line_is_kept(a);
    text_line_is_kept(b);
    text_line_is_kept(c);
    text_line_is_kept(d);
    assert(seq![a, b, c, d].drop_last() =~= seq![a, b, c]);
    assert(seq![a, b, c].drop_last() =~= seq![a, b]);
    assert(seq![a, b].drop_last() =~= seq![a]);
    assert(seq![a].drop_last() =~= Seq::<Seq<char>>::empty());
    assert(terminal::nonblank(Seq::empty()) =~= Seq::<Seq<char>>::empty());
    assert(terminal::nonblank(seq![a]) =~= seq![a]);
    assert(terminal::nonblank(seq![a, b]) =~= seq![a, b]);
    assert(terminal::nonblank(seq![a, b, c]) =~= seq![a, b, c]);
    assert(terminal::nonblank(seq![a, b, c, d]) =~= seq![a, b, c, d]);
}

proof fn four_are_joined(a: Seq<char>, b: Seq<char>, c: Seq<char>, d: Seq<char>)
    ensures
        text::join(seq![a, b, c, d], "\n"@) == a + seq!['\n'] + b + seq!['\n'] + c + seq!['\n']
            + d,
{
    let nl = seq!['\n'];
    reveal_strlit("\n");
    assert("\n"@ =~= nl);
    text_laws::join_goes_on(seq![a, b, c], d, nl);
    text_laws::join_goes_on(seq![a, b], c, nl);
    text_laws::join_goes_on(seq![a], b, nl);
    text_laws::join_goes_on(seq![a], a, nl);
    assert(seq![a, b, c].push(d) =~= seq![a, b, c, d]);
    assert(seq![a, b].push(c) =~= seq![a, b, c]);
    assert(seq![a].push(b) =~= seq![a, b]);
}

/// Whether a text is one line that is not blank.
pub open spec fn is_text_line(s: Seq<char>) -> bool {
    &&& !s.contains('\n')
    &&& s.len() > 0
    &&& s.last() != '\r'
    &&& !text_laws::is_blank(s)
}

proof fn text_line_is_kept(s: Seq<char>)
    requires
        !text_laws::is_blank(s),
    ensures
        text::trim(s).len() > 0,
{
    let (a, b) = text_laws::trim_leaves_the_middle(s);
    if text::trim(s).len() == 0 {
        assert(s =~= a + b);
        assert forall|i: int| 0 <= i < s.len() implies text::is_white_space(#[trigger] s[i]) by {
            if i < a.len() {
                assert(s[i] == a[i]);
            } else {
                assert(s[i] == b[i - a.len()]);
            }
        }
    }
}

proof fn joined_is_not_blank(a: Seq<char>, rest: Seq<char>)
    requires
        !text_laws::is_blank(a),
    ensures
        text::trim(a + seq!['\n'] + rest).len() > 0,
{
    let s = a + seq!['\n'] + rest;
    let i = choose|i: int| 0 <= i < a.len() && !text::is_white_space(#[trigger] a[i]);
    assert(s[i] == a[i]);
    assert(!text_laws::is_blank(s));
    text_line_is_kept(s);
}

// ---- escape sequences -----------------------------------------------------------------------

/// Whether a character is shown as it is: no control character but line feed, carriage return and
/// tab.
pub open spec fn is_shown(c: char) -> bool {
    ||| c == '\n'
    ||| c == '\r'
    ||| c == '\t'
    ||| '\u{20}' <= c && c <= '\u{7e}'
    ||| '\u{a0}' <= c
}

proof fn shown_is_kept(c: char)
    ensures
        is_shown(c) <==> terminal::is_kept(c),
{
}

/// A control sequence is left out: the escape, the bracket, what follows and the letter that ends
/// it.
pub proof fn control_sequence_is_left_out(
    a: Seq<char>,
    body: Seq<char>,
    end: char,
    b: Seq<char>,
)
    requires
        !a.contains('\u{1b}'),
        forall|i: int| 0 <= i < body.len() ==> !('@' <= #[trigger] body[i] && body[i] <= '~'),
        '@' <= end && end <= '~',
    ensures
        terminal::plain_text(a + seq!['\u{1b}', '['] + body + seq![end] + b) == terminal::plain_text(
            a,
        ) + terminal::plain_text(b),
{
    let s = seq!['\u{1b}', '['] + body + seq![end] + b;
    let t = s.skip(1).skip(1);
    assert(t =~= body + seq![end] + b);
    let k = CharClass::CsiFinal;
    assert forall|i: int| 0 <= i < body.len() implies !k.has(#[trigger] t[i]) by {
        assert(t[i] == body[i]);
    }
    assert(t[body.len() as int] == end);
    text::first_of_is(t, k, body.len());
    assert(t.skip(body.len() as int + 1) =~= b);
    assert(s[0] == '\u{1b}');
    assert(s.skip(1)[0] == '[');
    assert(terminal::after_escape(s) == b);
    assert(terminal::plain_text(s) == terminal::plain_text(b));
    terminal::plain_text_in_two(a, s);
    assert(a + seq!['\u{1b}', '['] + body + seq![end] + b =~= a + s);
}

/// An operating system command is left out, with the bell or the escape and backslash that end it.
pub proof fn system_command_is_left_out(a: Seq<char>, body: Seq<char>, b: Seq<char>)
    requires
        !a.contains('\u{1b}'),
        !body.contains('\u{1b}'),
        !body.contains('\u{07}'),
    ensures
        terminal::plain_text(a + seq!['\u{1b}', ']'] + body + seq!['\u{07}'] + b)
            == terminal::plain_text(a) + terminal::plain_text(b),
        terminal::plain_text(a + seq!['\u{1b}', ']'] + body + seq!['\u{1b}', '\\'] + b)
            == terminal::plain_text(a) + terminal::plain_text(b),
{
    command_ends(body, '\u{07}', b);
    command_ends(body, '\u{1b}', seq!['\\'] + b);
    let s = seq!['\u{1b}', ']'] + body + seq!['\u{07}'] + b;
    let u = seq!['\u{1b}', ']'] + body + seq!['\u{1b}', '\\'] + b;
    assert(u =~= seq!['\u{1b}', ']'] + body + seq!['\u{1b}'] + (seq!['\\'] + b));
    assert((seq!['\\'] + b).skip(1) =~= b);
    assert(terminal::plain_text(s) == terminal::plain_text(b));
    assert(terminal::plain_text(u) == terminal::plain_text(b));
    terminal::plain_text_in_two(a, s);
    terminal::plain_text_in_two(a, u);
    assert(a + seq!['\u{1b}', ']'] + body + seq!['\u{07}'] + b =~= a + s);
    assert(a + seq!['\u{1b}', ']'] + body + seq!['\u{1b}', '\\'] + b =~= a + u);
}

proof fn command_ends(body: Seq<char>, end: char, b: Seq<char>)
    requires
        !body.contains('\u{1b}'),
        !body.contains('\u{07}'),
        end == '\u{07}' || end == '\u{1b}',
    ensures
        terminal::after_escape(seq!['\u{1b}', ']'] + body + seq![end] + b) == (if end == '\u{1b}'
            && b.len() > 0 && b[0] == '\\' {
            b.skip(1)
        } else {
            b
        }),
        (seq!['\u{1b}', ']'] + body + seq![end] + b)[0] == '\u{1b}',
{
    let s = seq!['\u{1b}', ']'] + body + seq![end] + b;
    let t = s.skip(1).skip(1);
    assert(t =~= body + seq![end] + b);
    let k = CharClass::OscEnd;
    assert forall|i: int| 0 <= i < body.len() implies !k.has(#[trigger] t[i]) by {
        assert(t[i] == body[i]);
        assert(body.contains(body[i]));
    }
    let n = body.len() as int;
    assert(t[n] == end);
    text::first_of_is(t, k, body.len());
    assert(t.skip(n + 1) =~= b);
    if b.len() > 0 {
        assert(t[n + 1] == b[0]);
        assert(t.skip(n + 2) =~= b.skip(1));
    }
    assert(s.skip(1)[0] == ']');
}

/// Of any other escape sequence the escape and the character behind it are left out.
pub proof fn other_escape_is_left_out(a: Seq<char>, c: char, b: Seq<char>)
    requires
        !a.contains('\u{1b}'),
        c != '[' && c != ']',
    ensures
        terminal::plain_text(a + seq!['\u{1b}', c] + b) == terminal::plain_text(a)
            + terminal::plain_text(b),
{
    let s = seq!['\u{1b}', c] + b;
    assert(s.skip(1)[0] == c);
    assert(s.skip(1).skip(1) =~= b);
    assert(terminal::plain_text(s) == terminal::plain_text(b));
    terminal::plain_text_in_two(a, s);
    assert(a + seq!['\u{1b}', c] + b =~= a + s);
}

/// Text between escape sequences is kept character for character, and other control characters are
/// left out.
pub proof fn text_is_kept(a: Seq<char>, c: char, b: Seq<char>)
    requires
        !a.contains('\u{1b}'),
        c != '\u{1b}',
    ensures
        terminal::plain_text(a + seq![c] + b) == (if is_shown(c) {
            terminal::plain_text(a) + seq![c] + terminal::plain_text(b)
        } else {
            terminal::plain_text(a) + terminal::plain_text(b)
        }),
        terminal::plain_text(Seq::empty()) == Seq::<char>::empty(),
{
    let s = seq![c] + b;
    assert(s.skip(1) =~= b);
    shown_is_kept(c);
    terminal::plain_text_in_two(a, s);
    assert(a + seq![c] + b =~= a + s);
    assert(terminal::plain_text(Seq::empty()) =~= Seq::<char>::empty());
    if is_shown(c) {
        assert(terminal::plain_text(s) == seq![c] + terminal::plain_text(b));
        assert(terminal::plain_text(a) + (seq![c] + terminal::plain_text(b))
            =~= terminal::plain_text(a) + seq![c] + terminal::plain_text(b));
    } else {
        assert(terminal::plain_text(s) == terminal::plain_text(b));
    }
}

/// Text without control characters stays as it is.
pub proof fn plain_output_stays(s: Seq<char>)
    requires
        forall|i: int| 0 <= i < s.len() ==> is_shown(#[trigger] s[i]),
    ensures
        terminal::plain_text(s) == s,
{
    assert forall|i: int| 0 <= i < s.len() implies terminal::is_kept(#[trigger] s[i]) by {
        assert(is_shown(s[i]));
        shown_is_kept(s[i]);
    }
    terminal::plain_text_stays(s);
}

// ---- the address of the service -------------------------------------------------------------

/// The address that stands behind `dsh web:` is the one that a line tells: the whole word, and
/// nothing of what follows.
pub proof fn announced_address_is_told(
    a: Seq<char>,
    space: Seq<char>,
    x: Seq<char>,
    b: Seq<char>,
)
    requires
        !text::contains(a, "dsh web:"@),
        text_laws::is_blank(space),
        !text::has_white_space(x),
        b.len() > 0 ==> text::is_white_space(b[0]),
    ensures
        terminal::server_url(a + "dsh web:"@ + space + ("http"@ + x) + b) == Some("http"@ + x),
{
    reveal_strlit("dsh web:");
    reveal_strlit("http");
    let p = "dsh web:"@;
    let u = "http"@ + x;
    let line = a + p + space + u + b;
    assert(line =~= a + p + (space + u + b));
    text_laws::found_behind(a, p, space + u + b);
    assert(line.skip(a.len() + p.len() as int) =~= space + u + b);
    assert(!text::has_white_space(u)) by {
        assert forall|i: int| 0 <= i < u.len() implies !text::is_white_space(#[trigger] u[i]) by {
            if i >= 4 {
                assert(u[i] == x[i - 4]);
            }
        }
    }
    text_laws::first_word_is_between(space, u, b);
    assert(u.subrange(0, 4) =~= "http"@);
}

/// Whether an address leads to the port of the service on this machine, with a token.
pub open spec fn leads_to_service(u: Seq<char>) -> bool {
    &&& text::contains(u, "127.0.0.1:3080"@) || text::contains(u, "localhost:3080"@)
    &&& text::contains(u, "token="@)
}

/// Whether a text is nothing but punctuation that may follow an address.
pub open spec fn is_punctuation(t: Seq<char>) -> bool {
    forall|i: int| 0 <= i < t.len() ==> "\r,).;\""@.contains(#[trigger] t[i])
}

proof fn punctuation_is_this(c: char)
    ensures
        CharClass::UrlTail.has(c) <==> "\r,).;\""@.contains(c),
{
    reveal_strlit("\r,).;\"");
    let s = "\r,).;\""@;
    assert(s[0] == '\r' && s[1] == ',' && s[2] == ')' && s[3] == '.' && s[4] == ';' && s[5] == '"');
}

/// Where nothing is announced, the first address that leads to the service, with a token, is the one
/// that a line tells, without the punctuation behind it.
pub proof fn local_address_is_told(a: Seq<char>, x: Seq<char>, t: Seq<char>, b: Seq<char>)
    requires
        !text::contains(a + ("http"@ + x) + t + b, "dsh web:"@),
        !text::contains(a, "http"@),
        !text::has_white_space("http"@ + x + t),
        is_punctuation(t),
        !"\r,).;\""@.contains(("http"@ + x).last()),
        leads_to_service("http"@ + x),
        b.len() > 0 ==> text::is_white_space(b[0]),
    ensures
        terminal::server_url(a + ("http"@ + x) + t + b) == Some("http"@ + x),
{
    reveal_strlit("http");
    let p = "http"@;
    let u = p + x;
    let line = a + u + t + b;
    text::find_is_first(line, "dsh web:"@);
    assert(line =~= a + p + (x + t + b));
    text_laws::found_behind(a, p, x + t + b);
    let none = Seq::<char>::empty();
    let rest = line.skip(a.len() as int);
    assert(rest =~= none + (u + t) + b);
    text_laws::first_word_is_between(none, u + t, b);
    let w = u + t;
    assert forall|j: int| w.len() - t.len() <= j < w.len() implies CharClass::UrlTail.has(
        #[trigger] w[j],
    ) by {
        assert(w[j] == t[j - u.len()]);
        punctuation_is_this(t[j - u.len()]);
    }
    punctuation_is_this(u.last());
    assert(w[w.len() - t.len() - 1] == u.last());
    text::end_run_is(w, CharClass::UrlTail, t.len());
    assert(w.take(u.len() as int) =~= u);
    assert(terminal::is_local_token_url(u));
}

/// An address that leads elsewhere is passed over: the line tells what its rest tells.
pub proof fn other_address_is_passed_over(a: Seq<char>, x: Seq<char>, c: char, rest: Seq<char>)
    requires
        !text::contains(a + ("http"@ + x) + seq![c] + rest, "dsh web:"@),
        !text::contains(a, "http"@),
        !text::contains(x, "http"@),
        !text::has_white_space(x),
        text::is_white_space(c),
        !text::contains("http"@ + x, "token="@),
    ensures
        terminal::server_url(a + ("http"@ + x) + seq![c] + rest) == terminal::server_url(rest),
{
    reveal_strlit("http");
    let p = "http"@;
    let u = p + x;
    let line = a + u + seq![c] + rest;
    text::find_is_first(line, "dsh web:"@);
    assert(line =~= a + p + (x + seq![c] + rest));
    text_laws::found_behind(a, p, x + seq![c] + rest);
    let from = line.skip(a.len() as int);
    let none = Seq::<char>::empty();
    assert(from =~= none + u + (seq![c] + rest));
    assert(!text::has_white_space(u)) by {
        assert forall|i: int| 0 <= i < u.len() implies !text::is_white_space(#[trigger] u[i]) by {
            if i >= 4 {
                assert(u[i] == x[i - 4]);
            }
        }
    }
    text_laws::first_word_is_between(none, u, seq![c] + rest);
    let short = text::trim_end_of(u, CharClass::UrlTail);
    text::end_run_bounds(u, CharClass::UrlTail);
    assert(u =~= short + u.skip(short.len() as int));
    if text::contains(short, "token="@) {
        let i = choose|i: int| text::occurs_at(short, "token="@, i);
        text_laws::pattern_moves(short, u.skip(short.len() as int), "token="@, i);
        assert(text::contains(u, "token="@));
    }
    assert(line.skip(a.len() as int + 4) =~= x + seq![c] + rest);
    address_behind(x, c, rest);
    let front = a + u + seq![c];
    assert(line =~= front + rest);
    text::find_is_first(rest, "dsh web:"@);
    match text::find(rest, "dsh web:"@) {
        Some(j) => {
            text_laws::pattern_moves(front, rest, "dsh web:"@, j);
            assert(text::contains(line, "dsh web:"@));
        },
        None => {},
    }
}

proof fn address_behind(x: Seq<char>, c: char, rest: Seq<char>)
    requires
        !text::contains(x, "http"@),
        text::is_white_space(c),
    ensures
        terminal::local_token_url(x + seq![c] + rest) == terminal::local_token_url(rest),
{
    reveal_strlit("http");
    let p = "http"@;
    let front = x + seq![c];
    let s = front + rest;
    assert(s =~= x + seq![c] + rest);
    let n = front.len() as int;
    assert forall|j: int| 0 <= j < n implies !text::occurs_at(s, p, j) by {
        if text::occurs_at(s, p, j) {
            if j + 4 <= x.len() {
                assert(s =~= x + (seq![c] + rest));
                text_laws::pattern_moves(x, seq![c] + rest, p, j);
                assert(text::contains(x, p));
            } else {
                text_laws::pattern_characters(s, p, j, x.len() - j);
                assert(s[x.len() as int] == c);
            }
        }
    }
    text::find_is_first(rest, p);
    text::find_is_first(s, p);
    match text::find(rest, p) {
        Some(j) => {
            text_laws::pattern_moves(front, rest, p, j);
            assert forall|i: int| 0 <= i < n + j implies !text::occurs_at(s, p, i) by {
                if i >= n && text::occurs_at(s, p, i) {
                    text_laws::pattern_moves(front, rest, p, i - n);
                    assert(!text::occurs_at(rest, p, i - n));
                }
            }
            text_laws::found_first(s, p, n + j);
            assert(s.skip(n + j) =~= rest.skip(j));
            assert(s.skip(n + j + 4) =~= rest.skip(j + 4));
        },
        None => {
            match text::find(s, p) {
                Some(i) => {
                    text_laws::pattern_moves(front, rest, p, i - n);
                    assert(text::occurs_at(rest, p, i - n));
                },
                None => {},
            }
        },
    }
}

/// A line tells an address only where it holds one: it begins with `http`, and where nothing is
/// announced it leads to the service and carries a token.
pub proof fn told_address_is_an_address(line: Seq<char>)
    ensures
        match terminal::server_url(line) {
            Some(u) => {
                &&& exists|x: Seq<char>| u == #[trigger] ("http"@ + x)
                &&& text::contains(line, u)
                &&& !text::has_white_space(u)
                &&& !text::contains(line, "dsh web:"@) ==> leads_to_service(u)
            },
            None => true,
        },
{
    terminal::address_is_one_word(line);
    text::find_is_first(line, "dsh web:"@);
    match terminal::announced_url(line) {
        Some(u) => {
            text_laws::starts_with_is_concatenation(u, "http"@);
            let p = text::find(line, "dsh web:"@)->0;
            let rest = line.skip(p + "dsh web:"@.len());
            word_stands_inside(rest);
            let i = choose|i: int| text::occurs_at(rest, u, i);
            assert(line =~= line.take(p + "dsh web:"@.len()) + rest);
            text_laws::pattern_moves(line.take(p + "dsh web:"@.len()), rest, u, i);
        },
        None => {
            local_address_stands_inside(line);
        },
    }
}

proof fn word_stands_inside(s: Seq<char>)
    ensures
        match text::first_word(s) {
            Some(w) => text::contains(s, w) && (text::trim_start(s) == s ==> text::occurs_at(s, w, 0)),
            None => true,
        },
{
    let k = CharClass::WhiteSpace;
    let t = text::trim_start(s);
    text::run_bounds(s, k);
    text::first_of_bounds(t, k);
    let w = t.take(text::first_of(t, k) as int);
    let n = text::run(s, k) as int;
    assert(s.subrange(n, n + w.len()) =~= w);
    assert(text::occurs_at(s, w, n));
    if t == s {
        assert(t.subrange(0, w.len() as int) =~= w);
    }
}

proof fn local_address_stands_inside(line: Seq<char>)
    ensures
        match terminal::local_token_url(line) {
            Some(u) => {
                &&& exists|x: Seq<char>| u == #[trigger] ("http"@ + x)
                &&& text::contains(line, u)
                &&& leads_to_service(u)
            },
            None => true,
        },
    decreases line.len(),
{
    text::find_is_first(line, "http"@);
    reveal_strlit("http");
    reveal_strlit("token=");
    match text::find(line, "http"@) {
        Some(p) => {
            let s = line.skip(p);
            let u = terminal::url_at_start(s);
            if terminal::is_local_token_url(u) {
                text_laws::pattern_characters(line, "http"@, p, 0);
                text_laws::pattern_characters(line, "http"@, p, 1);
                text_laws::pattern_characters(line, "http"@, p, 2);
                text_laws::pattern_characters(line, "http"@, p, 3);
                assert(s[0] == 'h' && s[1] == 't' && s[2] == 't' && s[3] == 'p');
                let k = CharClass::WhiteSpace;
                text::run_is(s, k, 0);
                assert(text::trim_start(s) =~= s);
                text::first_of_bounds(s, k);
                let n = text::first_of(s, k) as int;
                let w = s.take(n);
                text::end_run_bounds(w, CharClass::UrlTail);
                let m = text::end_run(w, CharClass::UrlTail) as int;
                assert(u == w.take(w.len() - m));
                let i = choose|i: int| text::occurs_at(u, "token="@, i);
                assert(u.len() >= 6);
                assert(u[0] == 'h' && u[1] == 't' && u[2] == 't' && u[3] == 'p');
                assert(u =~= "http"@ + u.skip(4));
                assert(line.subrange(p, p + u.len()) =~= u);
                assert(text::occurs_at(line, u, p));
            } else {
                let rest = line.skip(p + "http"@.len());
                local_address_stands_inside(rest);
                match terminal::local_token_url(rest) {
                    Some(v) => {
                        let i = choose|i: int| text::occurs_at(rest, v, i);
                        assert(line =~= line.take(p + 4) + rest);
                        text_laws::pattern_moves(line.take(p + 4), rest, v, i);
                    },
                    None => {},
                }
            }
        },
        None => {},
    }
}

} // verus!
