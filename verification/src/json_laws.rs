//! What reading and writing numbers and JSON promise, in terms of the text.

use crate::json;
use crate::number;
use crate::profile;
use crate::text;
use crate::text::CharClass;
use crate::text_laws;
use vstd::prelude::*;

verus! {

// ---- numbers --------------------------------------------------------------------------------

/// The digits have the values of their places here.
pub proof fn digits_are_these(c: char, k: int)
    ensures
        0 <= k < 10 && c == "0123456789"@[k] ==> number::digit_value(c, 10) == Some(k as nat),
        0 <= k < 16 && c == "0123456789abcdef"@[k] ==> number::digit_value(c, 16) == Some(k as nat),
        0 <= k < 16 && c == "0123456789ABCDEF"@[k] ==> number::digit_value(c, 16) == Some(k as nat),
        !"0123456789"@.contains(c) ==> number::digit_value(c, 10) is None,
        !"0123456789abcdefABCDEF"@.contains(c) ==> number::digit_value(c, 16) is None,
        0 <= k < 10 ==> number::digit_char(k as nat) == "0123456789"@[k],
        0 <= k < 16 ==> number::digit_char(k as nat) == "0123456789abcdef"@[k],
{
    reveal_strlit("0123456789");
    reveal_strlit("0123456789abcdef");
    reveal_strlit("0123456789ABCDEF");
    reveal_strlit("0123456789abcdefABCDEF");
    let a = "0123456789"@;
    let b = "0123456789abcdef"@;
    let d = "0123456789ABCDEF"@;
    let e = "0123456789abcdefABCDEF"@;
    assert forall|i: int| 0 <= i < 10 implies (#[trigger] a[i]) as u32 == 48 + i by {}
    assert forall|i: int| 0 <= i < 16 implies (#[trigger] b[i]) as u32 == (if i < 10 {
        48 + i
    } else {
        87 + i
    }) by {}
    assert forall|i: int| 0 <= i < 16 implies (#[trigger] d[i]) as u32 == (if i < 10 {
        48 + i
    } else {
        55 + i
    }) by {}
    let n = c as u32;
    if '0' <= c && c <= '9' {
        assert(a[n - 48] == c);
        assert(e[n - 48] == c);
    } else if 'a' <= c && c <= 'f' {
        assert(e[n - 87] == c);
    } else if 'A' <= c && c <= 'F' {
        assert(e[n - 49] == c);
    }
    if 0 <= k < 16 {
        assert(number::digit_char(k as nat) as u32 == b[k] as u32);
    }
}

/// Each digit of a number counts as many times the one behind it as the base tells.
pub proof fn numbers_are_read_digit_by_digit(s: Seq<char>, c: char, radix: nat)
    requires
        number::digit_value(c, radix) is Some,
    ensures
        number::number_value(s.push(c), radix) == number::number_value(s, radix) * radix
            + number::digit_value(c, radix)->0,
        number::number_value(Seq::empty(), radix) == 0,
        number::is_number(seq![c], radix),
        !number::is_number(Seq::empty(), radix),
        number::is_number(s, radix) ==> number::is_number(s.push(c), radix),
{
    let t = s.push(c);
    assert(t.drop_last() =~= s);
    if number::is_number(s, radix) {
        assert forall|i: int| 0 <= i < t.len() implies number::digit_value(
            #[trigger] t[i],
            radix,
        ) is Some by {
            if i < s.len() {
                assert(t[i] == s[i]);
            }
        }
    }
}

/// A number is written in decimal and read back, with or without a plus, where it is not too large;
/// one with a minus is read as a negative number where that is allowed.
pub proof fn decimal_is_read(n: nat, max: nat)
    ensures
        number::unsigned_value(number::decimal(n), 10, max) == (if n <= max {
            Some(n)
        } else {
            None
        }),
        number::unsigned_value(seq!['+'] + number::decimal(n), 10, max) == (if n <= max {
            Some(n)
        } else {
            None
        }),
        number::unsigned_value(Seq::empty(), 10, max) is None,
        number::unsigned_value(seq!['-'] + number::decimal(n), 10, max) is None,
        n <= i32::MAX ==> number::i32_value(number::decimal(n)) == Some(n as int),
        n <= i32::MAX ==> number::i32_value(seq!['-'] + number::decimal(n)) == Some(-n),
{
    number::decimal_reads_back(n);
    decimal_begins(n);
    let d = number::decimal(n);
    let plus = seq!['+'] + d;
    let minus = seq!['-'] + d;
    assert(plus.skip(1) =~= d);
    assert(minus.skip(1) =~= d);
    assert(plus[0] == '+' && minus[0] == '-');
    assert(!number::is_number(minus, 10)) by {
        assert(number::digit_value(minus[0], 10) is None);
    }
}

proof fn decimal_begins(n: nat)
    ensures
        number::decimal(n).len() > 0,
        '0' <= number::decimal(n)[0] && number::decimal(n)[0] <= '9',
        n > 0 ==> number::decimal(n)[0] != '0',
    decreases n,
{
    if n >= 10 {
        decimal_begins(n / 10);
    }
}

/// A number is written without leading zeros.
pub proof fn decimal_has_no_leading_zero(n: nat)
    ensures
        number::decimal(n).len() > 0,
        n > 0 ==> number::decimal(n)[0] != '0',
        n < 10 ==> number::decimal(n).len() == 1,
{
    decimal_begins(n);
}

// ---- escapes --------------------------------------------------------------------------------

/// Escape sequences stand for these characters, and everything else stands for itself.
pub proof fn escapes_stand_for(rest: Seq<char>, c: char)
    ensures
        json::unescape(seq!['\\', 'n'] + rest) == seq!['\n'] + json::unescape(rest),
        json::unescape(seq!['\\', 't'] + rest) == seq!['\t'] + json::unescape(rest),
        json::unescape(seq!['\\', 'r'] + rest) == seq!['\r'] + json::unescape(rest),
        json::unescape(seq!['\\', '"'] + rest) == seq!['"'] + json::unescape(rest),
        json::unescape(seq!['\\', '\\'] + rest) == seq!['\\'] + json::unescape(rest),
        json::unescape(seq!['\\', '/'] + rest) == seq!['/'] + json::unescape(rest),
        json::unescape(seq!['\\', 'b'] + rest) == seq!['\u{08}'] + json::unescape(rest),
        json::unescape(seq!['\\', 'f'] + rest) == seq!['\u{0c}'] + json::unescape(rest),
        c != '\\' ==> json::unescape(seq![c] + rest) == seq![c] + json::unescape(rest),
        json::unescape(Seq::empty()) == Seq::<char>::empty(),
        !"ntr\"\\/bfu"@.contains(c) ==> json::unescape(seq!['\\', c] + rest) == seq!['\\', c]
            + json::unescape(rest),
{
    escape_stands_for('n', rest);
    escape_stands_for('t', rest);
    escape_stands_for('r', rest);
    escape_stands_for('"', rest);
    escape_stands_for('\\', rest);
    escape_stands_for('/', rest);
    escape_stands_for('b', rest);
    escape_stands_for('f', rest);
    escape_stands_for(c, rest);
    reveal_strlit("ntr\"\\/bfu");
    let s = "ntr\"\\/bfu"@;
    assert(s[0] == 'n' && s[1] == 't' && s[2] == 'r' && s[3] == '"' && s[4] == '\\' && s[5] == '/'
        && s[6] == 'b' && s[7] == 'f' && s[8] == 'u');
    let t = seq![c] + rest;
    assert(t.skip(1) =~= rest);
    assert(t[0] == c);
    assert(json::unescape(Seq::empty()) =~= Seq::<char>::empty());
}

proof fn escape_stands_for(c: char, rest: Seq<char>)
    ensures
        c != 'u' ==> json::unescape(seq!['\\', c] + rest) == (match json::simple_escape(c) {
            Some(x) => seq![x] + json::unescape(rest),
            None => seq!['\\', c] + json::unescape(rest),
        }),
{
    let s = seq!['\\', c] + rest;
    assert(s[0] == '\\' && s[1] == c);
    assert(s.skip(2) =~= rest);
}

/// Four hexadecimal digits stand for the character with that code.
pub proof fn code_stands_for(hex: Seq<char>, rest: Seq<char>)
    requires
        hex.len() == 4,
        number::is_number(hex, 16),
        !(0xd800 <= number::number_value(hex, 16) <= 0xdfff),
    ensures
        json::unescape(seq!['\\', 'u'] + hex + rest) == seq![number::number_value(hex, 16) as char]
            + json::unescape(rest),
{
    let s = seq!['\\', 'u'] + hex + rest;
    assert(s[0] == '\\' && s[1] == 'u');
    assert(s.skip(2) =~= hex + rest);
    assert(json::first_four(s.skip(2)) =~= hex);
    assert(s.skip(6) =~= rest);
}

/// What does not have four hexadecimal digits stays as it is written, and so does the code of a
/// surrogate, which is no character.
pub proof fn broken_code_stays(hex: Seq<char>, rest: Seq<char>)
    requires
        hex.len() == 4,
        !number::is_number(hex, 16) || 0xd800 <= number::number_value(hex, 16) <= 0xdfff,
    ensures
        json::unescape(seq!['\\', 'u'] + hex + rest) == seq!['\\', 'u'] + hex + json::unescape(rest),
        forall|n: int|
            0 <= n < 4 ==> json::unescape(seq!['\\', 'u'] + #[trigger] hex.take(n)) == seq!['\\', 'u']
                + hex.take(n),
{
    let s = seq!['\\', 'u'] + hex + rest;
    assert(s[0] == '\\' && s[1] == 'u');
    assert(s.skip(2) =~= hex + rest);
    assert(json::first_four(s.skip(2)) =~= hex);
    assert(s.skip(6) =~= rest);
    assert forall|n: int| 0 <= n < 4 implies json::unescape(seq!['\\', 'u'] + #[trigger] hex.take(n))
        == seq!['\\', 'u'] + hex.take(n) by {
        let t = seq!['\\', 'u'] + hex.take(n);
        assert(t[0] == '\\' && t[1] == 'u');
        assert(t.skip(2) =~= hex.take(n));
        assert(json::first_four(t.skip(2)) =~= hex.take(n));
        assert(t.skip(2 + n) =~= Seq::<char>::empty());
        assert(json::unescape(Seq::empty()) =~= Seq::<char>::empty());
        assert(seq!['\\', 'u'] + hex.take(n) + Seq::<char>::empty() =~= seq!['\\', 'u']
            + hex.take(n));
    }
}

/// A text is escaped character by character: quotes, backslashes and control characters are
/// replaced, and everything else stays.
pub proof fn characters_are_escaped(c: char, rest: Seq<char>, short: bool)
    ensures
        json::escape(seq!['"'] + rest, short) == seq!['\\', '"'] + json::escape(rest, short),
        json::escape(seq!['\\'] + rest, short) == seq!['\\', '\\'] + json::escape(rest, short),
        json::escape(seq!['\n'] + rest, short) == seq!['\\', 'n'] + json::escape(rest, short),
        json::escape(seq!['\r'] + rest, short) == seq!['\\', 'r'] + json::escape(rest, short),
        json::escape(seq!['\t'] + rest, short) == seq!['\\', 't'] + json::escape(rest, short),
        c >= ' ' && c != '"' && c != '\\' ==> json::escape(seq![c] + rest, short) == seq![c]
            + json::escape(rest, short),
        json::escape(seq!['\u{08}'] + rest, true) == seq!['\\', 'b'] + json::escape(rest, true),
        json::escape(seq!['\u{0c}'] + rest, true) == seq!['\\', 'f'] + json::escape(rest, true),
        c < ' ' && c != '\n' && c != '\r' && c != '\t' ==> json::escape(seq![c] + rest, false)
            == seq!['\\', 'u'] + number::hex4(c as u32 as nat) + json::escape(rest, false),
        json::escape(Seq::empty(), short) == Seq::<char>::empty(),
{
    assert((seq!['\u{08}'] + rest).skip(1) =~= rest);
    assert((seq!['\u{0c}'] + rest).skip(1) =~= rest);
    assert((seq!['"'] + rest).skip(1) =~= rest);
    assert((seq!['\\'] + rest).skip(1) =~= rest);
    assert((seq!['\n'] + rest).skip(1) =~= rest);
    assert((seq!['\r'] + rest).skip(1) =~= rest);
    assert((seq!['\t'] + rest).skip(1) =~= rest);
    assert((seq![c] + rest).skip(1) =~= rest);
    assert((seq![c] + rest)[0] == c);
    assert(json::escape(Seq::empty(), short) =~= Seq::<char>::empty());
}

// ---- fields ---------------------------------------------------------------------------------

/// The string that a key has is read back as it was written, whatever it holds, where the key does
/// not stand before it.
pub proof fn field_is_read(
    before: Seq<char>,
    key: Seq<char>,
    a: Seq<char>,
    b: Seq<char>,
    value: Seq<char>,
    after: Seq<char>,
    short: bool,
)
    requires
        !text::contains(before + seq!['"'] + key, seq!['"'] + key + seq!['"']),
        !key.contains('"'),
        text_laws::is_blank(a),
        text_laws::is_blank(b),
    ensures
        json::string_field(
            before + (seq!['"'] + key + seq!['"']) + a + seq![':'] + b + (seq!['"'] + json::escape(
                value,
                short,
            ) + seq!['"']) + after,
            key,
        ) == Some(value),
{
    let needle = seq!['"'] + key + seq!['"'];
    let e = json::escape(value, short);
    let lit = seq!['"'] + e + seq!['"'];
    let body = before + needle + a + seq![':'] + b + lit + after;
    value_is_found(before, key, a, b, lit + after);
    assert(body =~= before + needle + a + seq![':'] + b + (lit + after));
    let v = lit + after;
    assert(v[0] == '"');
    let w = v.skip(1);
    assert(w =~= Seq::<char>::empty() + e + seq!['"'] + after);
    json::escape_ends_at_quote(Seq::empty(), value, after, short);
    assert(w.take(e.len() as int) =~= e);
    json::unescape_undoes_escape(value, short);
}

proof fn value_is_found(before: Seq<char>, key: Seq<char>, a: Seq<char>, b: Seq<char>, v: Seq<char>)
    requires
        !text::contains(before + seq!['"'] + key, seq!['"'] + key + seq!['"']),
        !key.contains('"'),
        text_laws::is_blank(a),
        text_laws::is_blank(b),
        v.len() > 0,
        !text::is_white_space(v[0]),
    ensures
        json::value_of(before + (seq!['"'] + key + seq!['"']) + a + seq![':'] + b + v, key) == Some(
            v,
        ),
{
    let needle = seq!['"'] + key + seq!['"'];
    let body = before + needle + a + seq![':'] + b + v;
    let n = before.len() as int;
    let rest = a + seq![':'] + b + v;
    assert(json::quoted(key) == needle);
    assert(body =~= before + needle + rest);
    text_laws::holds_pattern(before, needle, rest);
    assert(body.skip(n + needle.len()) =~= rest);
    start_is_taken(a, seq![':'] + b + v);
    assert(rest =~= a + (seq![':'] + b + v));
    assert((seq![':'] + b + v).skip(1) =~= b + v);
    start_is_taken(b, v);
    assert(json::is_key_at(body, key, n));
    assert forall|j: int| 0 <= j < n implies !json::is_key_at(body, key, j) by {
        if text::occurs_at(body, needle, j) {
            let t = j + needle.len() - 1;
            let front = before + seq!['"'] + key;
            text_laws::pattern_characters(body, needle, j, needle.len() - 1);
            if t < front.len() {
                assert(body =~= front + (seq!['"'] + rest));
                text_laws::pattern_moves(front, seq!['"'] + rest, needle, j);
                assert(text::contains(front, needle));
            }
        }
    }
    first_key_counts(body, key, 0, n);
}

proof fn first_key_counts(body: Seq<char>, key: Seq<char>, from: int, n: int)
    requires
        0 <= from <= n < body.len(),
        json::is_key_at(body, key, n),
        forall|j: int| from <= j < n ==> !#[trigger] json::is_key_at(body, key, j),
    ensures
        json::value_from(body, key, from) == json::behind_colon(
            body.skip(n + json::quoted(key).len()),
        ),
    decreases n - from,
{
    if from < n {
        assert(!json::is_key_at(body, key, from));
        first_key_counts(body, key, from + 1, n);
    }
}

proof fn start_is_taken(a: Seq<char>, s: Seq<char>)
    requires
        text_laws::is_blank(a),
        s.len() > 0,
        !text::is_white_space(s[0]),
    ensures
        text::trim_start(a + s) == s,
{
    let k = CharClass::WhiteSpace;
    let t = a + s;
    assert forall|j: int| 0 <= j < a.len() implies k.has(#[trigger] t[j]) by {
        assert(t[j] == a[j]);
    }
    assert(t[a.len() as int] == s[0]);
    text::run_is(t, k, a.len());
    assert(text::trim_start(t) =~= s);
}

/// A key that stands nowhere has no string.
pub proof fn missing_field_is_none(body: Seq<char>, key: Seq<char>)
    requires
        !text::contains(body, seq!['"'] + key + seq!['"']),
    ensures
        json::string_field(body, key) is None,
{
    json::value_follows_the_first_key(body, key);
    match json::value_of(body, key) {
        Some(v) => {
            let i = choose|i: int| 0 <= i && #[trigger] json::is_key_at(body, key, i);
            assert(text::occurs_at(body, json::quoted(key), i));
        },
        None => {},
    }
}

/// The value of a key that is no string is not read as one.
pub proof fn other_value_is_none(
    before: Seq<char>,
    key: Seq<char>,
    a: Seq<char>,
    b: Seq<char>,
    v: Seq<char>,
)
    requires
        !text::contains(before + seq!['"'] + key, seq!['"'] + key + seq!['"']),
        !key.contains('"'),
        text_laws::is_blank(a),
        text_laws::is_blank(b),
        v.len() > 0,
        !text::is_white_space(v[0]),
        v[0] != '"',
    ensures
        json::string_field(
            before + (seq!['"'] + key + seq!['"']) + a + seq![':'] + b + v,
            key,
        ) is None,
{
    value_is_found(before, key, a, b, v);
}

// ---- bundles --------------------------------------------------------------------------------

/// The bundles are the quoted texts in the list of the key `bundles`, in their order, without the
/// white space around them, up to the bracket that closes the list.
pub proof fn bundles_are_listed(
    before: Seq<char>,
    a: Seq<char>,
    b: Seq<char>,
    rest: Seq<char>,
)
    requires
        !text::contains(before + "\"bundles"@, "\"bundles\""@),
        text_laws::is_blank(a),
        text_laws::is_blank(b),
    ensures
        profile::bundles_in(before + "\"bundles\""@ + a + seq![':'] + b + seq!['['] + rest)
            == profile::listed(rest),
{
    reveal_strlit("bundles");
    reveal_strlit("\"bundles");
    reveal_strlit("\"bundles\"");
    let key = "bundles"@;
    assert("\"bundles\""@ =~= seq!['"'] + key + seq!['"']);
    assert("\"bundles"@ =~= seq!['"'] + key);
    assert(before + "\"bundles"@ =~= before + seq!['"'] + key);
    let v = seq!['['] + rest;
    value_is_found(before, key, a, b, v);
    assert(before + "\"bundles\""@ + a + seq![':'] + b + seq!['['] + rest =~= before + (seq!['"']
        + key + seq!['"']) + a + seq![':'] + b + v);
    mark_is_passed('[', rest);
}

proof fn mark_is_passed(c: char, rest: Seq<char>)
    requires
        c != '"' && c != ']',
    ensures
        profile::listed(seq![c] + rest) == profile::listed(rest),
{
    let s = seq![c] + rest;
    let k = CharClass::ListMark;
    text::first_of_bounds(rest, k);
    let i = text::first_of(rest, k) as int;
    assert(s[0] == c);
    assert(s.skip(1) =~= rest);
    assert(text::first_of(s, k) == i + 1);
    if i < rest.len() {
        assert(s[i + 1] == rest[i]);
        assert(s.skip(i + 2) =~= rest.skip(i + 1));
    }
}

/// A list is read item by item: what stands between two quotes is an item, unless it is blank, and
/// the bracket behind the items closes the list.
pub proof fn list_is_read(
    a: Seq<char>,
    x: Seq<char>,
    item: Seq<char>,
    y: Seq<char>,
    rest: Seq<char>,
)
    requires
        !a.contains('"'),
        !a.contains(']'),
        !item.contains('"'),
        text_laws::is_blank(x),
        text_laws::is_blank(y),
        text_laws::is_trimmed(item),
    ensures
        profile::listed(a + seq!['"'] + (x + item + y) + seq!['"'] + rest) == (if item.len() > 0 {
            seq![item] + profile::listed(rest)
        } else {
            profile::listed(rest)
        }),
        profile::listed(a + seq![']'] + rest) == Seq::<Seq<char>>::empty(),
        profile::listed(a) == Seq::<Seq<char>>::empty(),
{
    let k = CharClass::ListMark;
    let q = CharClass::Is('"');
    let inner = x + item + y;
    let s = a + seq!['"'] + inner + seq!['"'] + rest;
    let u = a + seq![']'] + rest;
    assert forall|j: int| 0 <= j < a.len() implies !k.has(#[trigger] a[j]) by {
        assert(a.contains(a[j]));
    }
    assert forall|j: int| 0 <= j < a.len() implies !k.has(#[trigger] s[j]) by {
        assert(s[j] == a[j]);
        assert(a.contains(a[j]));
    }
    assert forall|j: int| 0 <= j < a.len() implies !k.has(#[trigger] u[j]) by {
        assert(u[j] == a[j]);
        assert(a.contains(a[j]));
    }
    text::first_of_is(a, k, a.len());
    assert(s[a.len() as int] == '"');
    assert(u[a.len() as int] == ']');
    text::first_of_is(s, k, a.len());
    text::first_of_is(u, k, a.len());
    let t = s.skip(a.len() as int + 1);
    assert(t =~= inner + seq!['"'] + rest);
    assert forall|j: int| 0 <= j < inner.len() implies !q.has(#[trigger] t[j]) by {
        assert(t[j] == inner[j]);
        if j < x.len() {
            assert(inner[j] == x[j]);
            assert(text::is_white_space(x[j]));
        } else if j < x.len() + item.len() {
            assert(item.contains(item[j - x.len()]));
        } else {
            assert(inner[j] == y[j - x.len() - item.len()]);
            assert(text::is_white_space(y[j - x.len() - item.len()]));
        }
    }
    assert(t[inner.len() as int] == '"');
    text::first_of_is(t, q, inner.len());
    assert(t.take(inner.len() as int) =~= inner);
    assert(t.skip(inner.len() as int + 1) =~= rest);
    text_laws::trim_takes_the_ends(x, item, y);
}

/// The home of the service is where `DSH_HOME` says, unless that is empty or not set, and else
/// `.dsh` in the home of the user.
pub proof fn home_is_found(given: Seq<char>, home: Seq<char>)
    requires
        given.len() > 0,
    ensures
        profile::home_parts(Some(given), Some(home)) == seq![given],
        profile::home_parts(Some(given), None) == seq![given],
        profile::home_parts(Some(Seq::empty()), Some(home)) == seq![home, ".dsh"@],
        profile::home_parts(None, Some(home)) == seq![home, ".dsh"@],
        profile::home_parts(None, None) == seq![Seq::empty(), ".dsh"@],
        profile::known_bundles() == seq!["@deepseek-ai/dsh-base"@, "@deepseek-ai/dsh-web-app"@],
{
}

/// The layers of bundles are looked for in the modules of all profiles and in those of the web
/// profile, in the order of the bundles.
pub proof fn layers_are_looked_for(home: Seq<Seq<char>>, bundles: Seq<Seq<char>>, i: int)
    requires
        0 <= i < bundles.len(),
    ensures
        profile::layers_in(profile::modules_dir(home, false), bundles).len() == bundles.len(),
        profile::layers_in(profile::modules_dir(home, false), bundles)[i] == home + seq![
            "profiles"@,
            "node_modules"@,
            bundles[i],
            "cordis.patch.yml"@,
        ],
        profile::layers_in(profile::modules_dir(home, true), bundles)[i] == home + seq![
            "profiles"@,
            "web"@,
            "node_modules"@,
            bundles[i],
            "cordis.patch.yml"@,
        ],
{
    let file = "cordis.patch.yml"@;
    let m = "node_modules"@;
    let p = "profiles"@;
    assert(home + seq![p, m] + seq![bundles[i], file] =~= home + seq![p, m, bundles[i], file]);
    assert(home + seq![p, "web"@, m] + seq![bundles[i], file] =~= home + seq![
        p,
        "web"@,
        m,
        bundles[i],
        file,
    ]);
}

} // verus!
