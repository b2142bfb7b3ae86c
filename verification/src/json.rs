//! The little JSON that is read and written: escaped strings.

use crate::number;
use crate::text;
use crate::text::CharClass;
use vstd::prelude::*;
use vstd::slice::*;
use vstd::string::*;

verus! {

// ---- escaping -------------------------------------------------------------------------------

/// A character as it stands in a string literal. With `short`, backspace and form feed have short
/// forms too.
pub open spec fn escape_char(c: char, short: bool) -> Seq<char> {
    if c == '"' {
        seq!['\\', '"']
    } else if c == '\\' {
        seq!['\\', '\\']
    } else if c == '\n' {
        seq!['\\', 'n']
    } else if c == '\r' {
        seq!['\\', 'r']
    } else if c == '\t' {
        seq!['\\', 't']
    } else if short && c == '\u{08}' {
        seq!['\\', 'b']
    } else if short && c == '\u{0c}' {
        seq!['\\', 'f']
    } else if (c as u32) < 0x20 {
        seq!['\\', 'u'] + number::hex4(c as u32 as nat)
    } else {
        seq![c]
    }
}

/// A text as it stands between the quotes of a string literal.
pub open spec fn escape(s: Seq<char>, short: bool) -> Seq<char>
    decreases s.len(),
{
    if s.len() == 0 {
        Seq::empty()
    } else {
        escape_char(s[0], short) + escape(s.skip(1), short)
    }
}

fn escaped_char(c: char, short: bool) -> (r: Vec<char>)
    ensures
        r@ == escape_char(c, short),
{
    let mut out: Vec<char> = Vec::new();
    if c == '"' {
        out.push('\\');
        out.push('"');
    } else if c == '\\' {
        out.push('\\');
        out.push('\\');
    } else if c == '\n' {
        out.push('\\');
        out.push('n');
    } else if c == '\r' {
        out.push('\\');
        out.push('r');
    } else if c == '\t' {
        out.push('\\');
        out.push('t');
    } else if short && c == '\u{08}' {
        out.push('\\');
        out.push('b');
    } else if short && c == '\u{0c}' {
        out.push('\\');
        out.push('f');
    } else if (c as u32) < 0x20 {
        out.push('\\');
        out.push('u');
        let hex = number::hex4_chars(c as u8);
        assert(out@ =~= seq!['\\', 'u']);
        text::push_chars(&mut out, hex.as_slice());
    } else {
        out.push(c);
    }
    assert(out@ =~= escape_char(c, short));
    out
}

/// Escapes a text.
pub fn escaped(s: &str, short: bool) -> (r: String)
    ensures
        r@ == escape(s@, short),
{
    let cs = text::to_chars(s);
    let mut out: Vec<char> = Vec::new();
    let mut i: usize = 0;
    assert(cs@.skip(0) =~= cs@);
    assert(out@ + escape(cs@, short) =~= escape(cs@, short));
    while i < cs.len()
        invariant
            i <= cs@.len(),
            out@ + escape(cs@.skip(i as int), short) == escape(cs@, short),
        decreases cs@.len() - i,
    {
        let e = escaped_char(cs[i], short);
        let ghost before = out@;
        text::push_chars(&mut out, e.as_slice());
        proof {
            let rest = cs@.skip(i as int);
            assert(rest[0] == cs@[i as int]);
            assert(rest.skip(1) =~= cs@.skip(i + 1));
            let tail = escape(cs@.skip(i + 1), short);
            assert(before + (e@ + tail) =~= (before + e@) + tail);
        }
        i += 1;
    }
    assert(cs@.skip(i as int) =~= Seq::<char>::empty());
    assert(out@ + escape(cs@.skip(i as int), short) =~= out@);
    text::to_text(out.as_slice())
}

/// Escapes a text for a JSON string.
pub fn json_escape(s: &str) -> (r: String)
    ensures
        r@ == escape(s@, false),
{
    escaped(s, false)
}

// ---- reading back ---------------------------------------------------------------------------

/// `char::from_u32` of core: the character with that code, and none exactly for numbers that are
/// no code of a character.
pub assume_specification[ char::from_u32 ](i: u32) -> (r: Option<char>)
    ensures
        match r {
            Some(c) => c as u32 == i,
            None => i > 0x10ffff || 0xd800 <= i <= 0xdfff,
        },
;

/// What a backslash and `c` stand for, where that is one character.
pub open spec fn simple_escape(c: char) -> Option<char> {
    if c == 'n' {
        Some('\n')
    } else if c == 't' {
        Some('\t')
    } else if c == 'r' {
        Some('\r')
    } else if c == '"' {
        Some('"')
    } else if c == '\\' {
        Some('\\')
    } else if c == '/' {
        Some('/')
    } else if c == 'b' {
        Some('\u{08}')
    } else if c == 'f' {
        Some('\u{0c}')
    } else {
        None
    }
}

/// At most four characters at the start of `s`.
pub open spec fn first_four(s: Seq<char>) -> Seq<char> {
    if s.len() < 4 {
        s
    } else {
        s.take(4)
    }
}

/// What `\u` and `hex` stand for: the character with that code where they are four hexadecimal
/// digits and there is such a character, else what is written.
pub open spec fn unicode_escape(hex: Seq<char>) -> Seq<char> {
    let v = number::number_value(hex, 16);
    if hex.len() == 4 && number::is_number(hex, 16) && !(0xd800 <= v <= 0xdfff) {
        seq![v as char]
    } else {
        seq!['\\', 'u'] + hex
    }
}

/// Four hexadecimal digits write a number below 65536.
proof fn four_digits_are_small(hex: Seq<char>)
    requires
        hex.len() == 4,
        number::is_number(hex, 16),
    ensures
        number::number_value(hex, 16) <= 0xffff,
{
    let c = hex.drop_last();
    let b = c.drop_last();
    let a = b.drop_last();
    reveal_with_fuel(number::number_value, 5);
    assert(hex.last() == hex[3] && c.last() == hex[2] && b.last() == hex[1] && a.last() == hex[0]);
}

/// The text that stands escaped in a string literal. What is no escape sequence stays as it is.
pub open spec fn unescape(s: Seq<char>) -> Seq<char>
    decreases s.len(),
{
    if s.len() == 0 {
        Seq::empty()
    } else if s[0] != '\\' {
        seq![s[0]] + unescape(s.skip(1))
    } else if s.len() == 1 {
        seq!['\\']
    } else {
        match simple_escape(s[1]) {
            Some(c) => seq![c] + unescape(s.skip(2)),
            None => if s[1] == 'u' {
                let hex = first_four(s.skip(2));
                unicode_escape(hex) + unescape(s.skip(2int + hex.len()))
            } else {
                seq!['\\', s[1]] + unescape(s.skip(2))
            },
        }
    }
}

fn read_simple_escape(c: char) -> (r: Option<char>)
    ensures
        r == simple_escape(c),
{
    if c == 'n' {
        Some('\n')
    } else if c == 't' {
        Some('\t')
    } else if c == 'r' {
        Some('\r')
    } else if c == '"' {
        Some('"')
    } else if c == '\\' {
        Some('\\')
    } else if c == '/' {
        Some('/')
    } else if c == 'b' {
        Some('\u{08}')
    } else if c == 'f' {
        Some('\u{0c}')
    } else {
        None
    }
}

fn read_unicode_escape(hex: &[char]) -> (r: Vec<char>)
    ensures
        r@ == unicode_escape(hex@),
{
    let mut out: Vec<char> = Vec::new();
    let digits = if hex.len() == 4 {
        number::read_number(hex, 16, 0xffff)
    } else {
        None
    };
    proof {
        if hex@.len() == 4 && number::is_number(hex@, 16) {
            four_digits_are_small(hex@);
        }
    }
    match digits {
        Some(v) => {
            match char::from_u32(v as u32) {
                Some(c) => {
                    out.push(c);
                    proof {
                        vstd::utf8::char_is_scalar(c);
                        vstd::utf8::char_u32_cast(c, v as u32);
                        assert(v as nat as char == c);
                    }
                    assert(out@ =~= unicode_escape(hex@));
                    return out;
                },
                None => {},
            }
        },
        None => {},
    }
    out.push('\\');
    out.push('u');
    assert(out@ =~= seq!['\\', 'u']);
    text::push_chars(&mut out, hex);
    out
}

/// Reads the escape sequences in a text.
pub fn unescape_json_string(s: &str) -> (r: String)
    ensures
        r@ == unescape(s@),
{
    let cs = text::to_chars(s);
    let out = unescaped(cs.as_slice());
    text::to_text(out.as_slice())
}

/// Reads the escape sequences in a text.
pub fn unescaped(s: &[char]) -> (r: Vec<char>)
    ensures
        r@ == unescape(s@),
{
    let mut out: Vec<char> = Vec::new();
    let n = s.len();
    let mut i: usize = 0;
    assert(s@.skip(0) =~= s@);
    assert(out@ + unescape(s@) =~= unescape(s@));
    while i < n
        invariant
            n == s@.len(),
            i <= n,
            out@ + unescape(s@.skip(i as int)) == unescape(s@),
        decreases n - i,
    {
        let ghost before = out@;
        let ghost rest = s@.skip(i as int);
        assert(rest[0] == s@[i as int]);
        assert(rest.skip(1) =~= s@.skip(i + 1));
        if s[i] != '\\' {
            out.push(s[i]);
            assert(before + (seq![rest[0]] + unescape(rest.skip(1))) =~= out@ + unescape(
                rest.skip(1),
            ));
            i += 1;
        } else if i + 1 == n {
            out.push('\\');
            assert(before + seq!['\\'] =~= out@);
            i = n;
            assert(s@.skip(i as int) =~= Seq::<char>::empty());
            assert(out@ + unescape(s@.skip(i as int)) =~= out@);
        } else {
            let e = s[i + 1];
            assert(rest[1] == e);
            assert(rest.skip(2) =~= s@.skip(i + 2));
            match read_simple_escape(e) {
                Some(c) => {
                    out.push(c);
                    assert(before + (seq![c] + unescape(rest.skip(2))) =~= out@ + unescape(
                        rest.skip(2),
                    ));
                    i += 2;
                },
                None => if e == 'u' {
                    let end: usize = if n - (i + 2) < 4 {
                        n
                    } else {
                        i + 6
                    };
                    let hex = slice_subrange(s, i + 2, end);
                    assert(hex@ =~= first_four(rest.skip(2)));
                    let c = read_unicode_escape(hex);
                    text::push_chars(&mut out, c.as_slice());
                    proof {
                        assert(rest.skip(2int + hex@.len()) =~= s@.skip(end as int));
                        let tail = unescape(s@.skip(end as int));
                        assert(before + (c@ + tail) =~= (before + c@) + tail);
                    }
                    i = end;
                } else {
                    out.push('\\');
                    out.push(e);
                    assert(before + (seq!['\\', e] + unescape(rest.skip(2))) =~= out@ + unescape(
                        rest.skip(2),
                    ));
                    i += 2;
                },
            }
        }
    }
    assert(s@.skip(i as int) =~= Seq::<char>::empty());
    assert(out@ + unescape(s@.skip(i as int)) =~= out@);
    out
}

/// Where the string literal that goes on at position `i` of `s` ends: at the first quote that no
/// backslash escapes.
pub open spec fn string_end(s: Seq<char>, i: int) -> Option<int>
    decreases s.len() + 2 - i,
{
    if i >= s.len() {
        None
    } else if s[i] == '\\' {
        string_end(s, i + 2)
    } else if s[i] == '"' {
        Some(i)
    } else {
        string_end(s, i + 1)
    }
}

fn find_string_end(s: &[char]) -> (r: Option<usize>)
    ensures
        match r {
            Some(i) => string_end(s@, 0) == Some(i as int) && i < s@.len(),
            None => string_end(s@, 0) is None,
        },
{
    let n = s.len();
    let mut i: usize = 0;
    while i < n
        invariant
            n == s@.len(),
            i <= n,
            string_end(s@, 0) == string_end(s@, i as int),
        decreases n - i,
    {
        if s[i] == '\\' {
            if n - i < 2 {
                assert(string_end(s@, i + 2) is None);
                return None;
            }
            i += 2;
        } else if s[i] == '"' {
            return Some(i);
        } else {
            i += 1;
        }
    }
    None
}

/// A key as it stands in a JSON text.
pub open spec fn quoted(key: Seq<char>) -> Seq<char> {
    seq!['"'] + key + seq!['"']
}

/// What follows a key in a JSON text that goes on with `rest`: what comes behind the colon, without
/// white space before it. None where no colon follows, so that what stood there is no key.
pub open spec fn behind_colon(rest: Seq<char>) -> Option<Seq<char>> {
    let t = text::trim_start(rest);
    if t.len() > 0 && t[0] == ':' {
        Some(text::trim_start(t.skip(1)))
    } else {
        None
    }
}

/// Whether a key stands at position `i` of a JSON text: in quotes, with a colon behind it.
pub open spec fn is_key_at(body: Seq<char>, key: Seq<char>, i: int) -> bool {
    text::occurs_at(body, quoted(key), i) && behind_colon(body.skip(i + quoted(key).len())) is Some
}

/// What follows the first key with this name, at or after position `i` of a JSON text.
pub open spec fn value_from(body: Seq<char>, key: Seq<char>, i: int) -> Option<Seq<char>>
    decreases body.len() - i,
{
    if i < 0 || i >= body.len() {
        None
    } else if is_key_at(body, key, i) {
        behind_colon(body.skip(i + quoted(key).len()))
    } else {
        value_from(body, key, i + 1)
    }
}

/// What follows the first key with this name in a JSON text. A text in quotes that is no key, such
/// as a value, does not count.
pub open spec fn value_of(body: Seq<char>, key: Seq<char>) -> Option<Seq<char>> {
    value_from(body, key, 0)
}

/// The text of the string that a key has in a JSON text.
pub open spec fn string_field(body: Seq<char>, key: Seq<char>) -> Option<Seq<char>> {
    match value_of(body, key) {
        Some(value) => if value.len() > 0 && value[0] == '"' {
            match string_end(value.skip(1), 0) {
                Some(end) => Some(unescape(value.skip(1).take(end))),
                None => None,
            }
        } else {
            None
        },
        None => None,
    }
}

fn skip_colon<'a>(rest: &'a [char]) -> (r: Option<&'a [char]>)
    ensures
        match r {
            Some(v) => behind_colon(rest@) == Some(v@),
            None => behind_colon(rest@) is None,
        },
{
    let t = text::without_start(rest, CharClass::WhiteSpace);
    if t.len() > 0 && t[0] == ':' {
        let behind = slice_subrange(t, 1, t.len());
        assert(behind@ =~= t@.skip(1));
        Some(text::without_start(behind, CharClass::WhiteSpace))
    } else {
        None
    }
}

/// Finds what follows the first key with this name in a JSON text.
pub fn find_value<'a>(body: &'a [char], key: &str) -> (r: Option<&'a [char]>)
    ensures
        match r {
            Some(v) => value_of(body@, key@) == Some(v@),
            None => value_of(body@, key@) is None,
        },
{
    let k = text::to_chars(key);
    let mut needle: Vec<char> = Vec::new();
    needle.push('"');
    assert(needle@ =~= seq!['"']);
    text::push_chars(&mut needle, k.as_slice());
    needle.push('"');
    assert(needle@ =~= quoted(key@));
    let n = body.len();
    let mut i: usize = 0;
    while i < n
        invariant
            n == body@.len(),
            i <= n,
            needle@ == quoted(key@),
            value_of(body@, key@) == value_from(body@, key@, i as int),
        decreases n - i,
    {
        if text::stands_at(body, needle.as_slice(), i) {
            let rest = slice_subrange(body, i + needle.len(), n);
            assert(rest@ =~= body@.skip(i + needle@.len()));
            match skip_colon(rest) {
                Some(v) => {
                    return Some(v);
                },
                None => {},
            }
        }
        i += 1;
    }
    None
}

/// Reads the string that a key has in a JSON text.
pub fn json_string_field(body: &str, key: &str) -> (r: Option<String>)
    ensures
        text::opt_text(r) == string_field(body@, key@),
{
    let b = text::to_chars(body);
    match find_value(b.as_slice(), key) {
        Some(value) => {
            if value.len() == 0 || value[0] != '"' {
                return None;
            }
            let inner = slice_subrange(value, 1, value.len());
            assert(inner@ =~= value@.skip(1));
            match find_string_end(inner) {
                Some(end) => {
                    let raw = slice_subrange(inner, 0, end);
                    assert(raw@ =~= inner@.take(end as int));
                    let t = unescaped(raw);
                    Some(text::to_text(t.as_slice()))
                },
                None => None,
            }
        },
        None => None,
    }
}

// ---- laws -----------------------------------------------------------------------------------

proof fn hex4_reads_back(c: char)
    requires
        (c as u32) < 0x20,
    ensures
        unicode_escape(number::hex4(c as u32 as nat)) == seq![c],
{
    let n = c as u32 as nat;
    let h = number::hex4(n);
    assert(h[0] == '0' && h[1] == '0');
    assert(number::digit_value(number::digit_char(n / 16), 16) == Some(n / 16));
    assert(number::digit_value(number::digit_char(n % 16), 16) == Some(n % 16));
    assert(number::is_number(h, 16));
    assert(h.drop_last() =~= seq!['0', '0', number::digit_char(n / 16)]);
    assert(h.drop_last().drop_last() =~= seq!['0', '0']);
    assert(h.drop_last().drop_last().drop_last() =~= seq!['0']);
    assert(h.drop_last().drop_last().drop_last().drop_last() =~= Seq::<char>::empty());
    reveal_with_fuel(number::number_value, 5);
    assert(number::number_value(h, 16) == n);
    assert(number::unsigned_digits(h) == h);
    assert(n as char == c);
}

proof fn first_key(body: Seq<char>, key: Seq<char>, from: int)
    requires
        0 <= from,
    ensures
        match value_from(body, key, from) {
            Some(v) => exists|i: int|
                from <= i && #[trigger] is_key_at(body, key, i) && behind_colon(
                    body.skip(i + quoted(key).len()),
                ) == Some(v) && forall|j: int| from <= j < i ==> !#[trigger] is_key_at(body, key, j),
            None => forall|j: int| from <= j ==> !#[trigger] is_key_at(body, key, j),
        },
    decreases body.len() - from,
{
    if from < body.len() && !is_key_at(body, key, from) {
        first_key(body, key, from + 1);
        if value_from(body, key, from) is Some {
            let v = value_from(body, key, from)->0;
            let i = choose|i: int|
                from + 1 <= i && #[trigger] is_key_at(body, key, i) && behind_colon(
                    body.skip(i + quoted(key).len()),
                ) == Some(v) && forall|j: int|
                    from + 1 <= j < i ==> !#[trigger] is_key_at(body, key, j);
            assert(is_key_at(body, key, i));
        }
    }
}

/// The value of a key is what follows the first place where the key stands with a colon behind it,
/// and there is none only where the key stands nowhere so.
pub proof fn value_follows_the_first_key(body: Seq<char>, key: Seq<char>)
    ensures
        match value_of(body, key) {
            Some(v) => exists|i: int|
                0 <= i && #[trigger] is_key_at(body, key, i) && behind_colon(
                    body.skip(i + quoted(key).len()),
                ) == Some(v) && forall|j: int| 0 <= j < i ==> !#[trigger] is_key_at(body, key, j),
            None => forall|j: int| 0 <= j ==> !#[trigger] is_key_at(body, key, j),
        },
{
    first_key(body, key, 0);
}

/// Reading an escaped text gives the text back.
pub proof fn unescape_undoes_escape(s: Seq<char>, short: bool)
    ensures
        unescape(escape(s, short)) == s,
    decreases s.len(),
{
    if s.len() == 0 {
        assert(unescape(escape(s, short)) =~= s);
    } else {
        let c = s[0];
        let e = escape_char(c, short);
        let tail = escape(s.skip(1), short);
        unescape_undoes_escape(s.skip(1), short);
        let t = e + tail;
        assert(t[0] == e[0]);
        if e.len() >= 2 {
            assert(t[1] == e[1]);
            assert(t.skip(2) =~= e.skip(2) + tail);
        }
        if e.len() == 1 {
            assert(t.skip(1) =~= tail);
        } else if e.len() == 2 {
            assert(t.skip(2) =~= tail);
        } else {
            hex4_reads_back(c);
            assert(first_four(t.skip(2)) =~= number::hex4(c as u32 as nat));
            assert(t.skip(6) =~= tail);
        }
        assert(unescape(t) =~= seq![c] + s.skip(1));
        assert(seq![c] + s.skip(1) =~= s);
    }
}

/// An escaped text holds no control character, so it stays on one line.
pub proof fn escape_is_printable(s: Seq<char>, short: bool)
    ensures
        forall|i: int| 0 <= i < escape(s, short).len() ==> #[trigger] escape(s, short)[i] as u32
            >= 0x20,
    decreases s.len(),
{
    if s.len() > 0 {
        escape_is_printable(s.skip(1), short);
        let e = escape_char(s[0], short);
        let tail = escape(s.skip(1), short);
        assert(escape(s, short) == e + tail);
        assert forall|i: int| 0 <= i < e.len() implies #[trigger] e[i] as u32 >= 0x20 by {}
        assert forall|i: int| 0 <= i < (e + tail).len() implies #[trigger] (e + tail)[i] as u32
            >= 0x20 by {
            if i < e.len() {
                assert((e + tail)[i] == e[i]);
            } else {
                assert((e + tail)[i] == tail[i - e.len()]);
            }
        }
    } else {
        assert(escape(s, short).len() == 0);
    }
}

/// An escaped text reaches up to the quote behind it: no quote inside ends it early, and no
/// backslash inside takes the quote with it.
pub proof fn escape_ends_at_quote(
    before: Seq<char>,
    s: Seq<char>,
    after: Seq<char>,
    short: bool,
)
    ensures
        string_end(before + escape(s, short) + seq!['"'] + after, before.len() as int) == Some(
            (before.len() + escape(s, short).len()) as int,
        ),
    decreases s.len(),
{
    let all = before + escape(s, short) + seq!['"'] + after;
    let i = before.len() as int;
    if s.len() == 0 {
        assert(escape(s, short) =~= Seq::<char>::empty());
        assert(all[i] == '"');
    } else {
        let e = escape_char(s[0], short);
        let tail = escape(s.skip(1), short);
        assert(escape(s, short) == e + tail);
        assert(all =~= (before + e) + tail + seq!['"'] + after);
        escape_ends_at_quote(before + e, s.skip(1), after, short);
        assert forall|j: int| 0 <= j < e.len() implies all[i + j] == #[trigger] e[j] by {}
        assert(all[i + 0] == e[0]);
        if e.len() == 1 {
        } else if e.len() == 2 {
            assert(e[0] == '\\');
        } else {
            assert(e.len() == 6);
            assert(e[0] == '\\');
            assert(all[i + 2] == e[2] && all[i + 3] == e[3] && all[i + 4] == e[4] && all[i + 5]
                == e[5]);
            assert(string_end(all, i) == string_end(all, i + 2));
            assert(string_end(all, i + 2) == string_end(all, i + 3));
            assert(string_end(all, i + 3) == string_end(all, i + 4));
            assert(string_end(all, i + 4) == string_end(all, i + 5));
            assert(string_end(all, i + 5) == string_end(all, i + 6));
        }
    }
}

} // verus!
