//! What the functions on text promise, in terms of the text that they are given.

use crate::text;
use crate::text::CharClass;
use vstd::prelude::*;

verus! {

// ---- searching ------------------------------------------------------------------------------

/// A pattern stands in a text exactly where the text can be cut before and behind it.
pub proof fn contains_is_concatenation(s: Seq<char>, p: Seq<char>)
    ensures
        text::contains(s, p) <==> exists|a: Seq<char>, b: Seq<char>| s == #[trigger] (a + p + b),
{
    if text::contains(s, p) {
        let i = choose|i: int| text::occurs_at(s, p, i);
        let a = s.take(i);
        let b = s.skip(i + p.len());
        assert(a + p + b =~= s) by {
            assert forall|j: int| 0 <= j < s.len() implies (a + p + b)[j] == s[j] by {
                if i <= j < i + p.len() {
                    assert(s.subrange(i, i + p.len())[j - i] == s[j]);
                }
            }
        }
    }
    if exists|a: Seq<char>, b: Seq<char>| s == #[trigger] (a + p + b) {
        let (a, b) = choose|a: Seq<char>, b: Seq<char>| s == #[trigger] (a + p + b);
        holds_pattern(a, p, b);
    }
}

/// A pattern stands in a text between any two others.
pub proof fn holds_pattern(a: Seq<char>, p: Seq<char>, b: Seq<char>)
    ensures
        text::contains(a + p + b, p),
        text::occurs_at(a + p + b, p, a.len() as int),
{
    let s = a + p + b;
    assert(s.subrange(a.len() as int, (a.len() + p.len()) as int) =~= p);
    assert(text::occurs_at(s, p, a.len() as int));
}

/// A text begins with a pattern exactly where it goes on behind it.
pub proof fn starts_with_is_concatenation(s: Seq<char>, p: Seq<char>)
    ensures
        text::starts_with(s, p) <==> exists|b: Seq<char>| s == #[trigger] (p + b),
{
    if text::starts_with(s, p) {
        let b = s.skip(p.len() as int);
        assert(p + b =~= s) by {
            assert forall|j: int| 0 <= j < p.len() implies (p + b)[j] == s[j] by {
                assert(s.subrange(0, p.len() as int)[j] == s[j]);
            }
        }
    }
    if exists|b: Seq<char>| s == #[trigger] (p + b) {
        let b = choose|b: Seq<char>| s == #[trigger] (p + b);
        assert(s.subrange(0, p.len() as int) =~= p);
    }
}

/// Each character of a pattern stands in the text where the pattern does.
pub proof fn pattern_characters(s: Seq<char>, p: Seq<char>, i: int, d: int)
    requires
        text::occurs_at(s, p, i),
        0 <= d < p.len(),
    ensures
        i + d < s.len(),
        s[i + d] == p[d],
{
    assert(s.subrange(i, i + p.len())[d] == s[i + d]);
}

/// A pattern that stands in one of two texts stands in both together.
pub proof fn pattern_moves(a: Seq<char>, b: Seq<char>, p: Seq<char>, i: int)
    ensures
        text::occurs_at(a, p, i) ==> text::occurs_at(a + b, p, i),
        0 <= i && i + p.len() <= a.len() && text::occurs_at(a + b, p, i) ==> text::occurs_at(a, p, i),
        text::occurs_at(b, p, i) ==> text::occurs_at(a + b, p, a.len() + i),
        i >= 0 && text::occurs_at(a + b, p, a.len() + i) ==> text::occurs_at(b, p, i),
{
    let s = a + b;
    if 0 <= i && i + p.len() <= a.len() {
        assert(s.subrange(i, i + p.len()) =~= a.subrange(i, i + p.len()));
    }
    if 0 <= i && i + p.len() <= b.len() {
        assert(s.subrange(a.len() + i, a.len() + i + p.len()) =~= b.subrange(i, i + p.len()));
    }
}

/// The first position of a pattern is the one before which it stands nowhere.
pub proof fn found_first(s: Seq<char>, p: Seq<char>, i: int)
    requires
        text::occurs_at(s, p, i),
        forall|j: int| 0 <= j < i ==> !text::occurs_at(s, p, j),
    ensures
        text::find(s, p) == Some(i),
{
    text::find_is_first(s, p);
    match text::find(s, p) {
        Some(k) => {
            if k < i {
                assert(!text::occurs_at(s, p, k));
            }
        },
        None => {
            assert(text::contains(s, p));
        },
    }
}

/// Nothing is found where the pattern stands nowhere.
pub proof fn found_nowhere(s: Seq<char>, p: Seq<char>)
    requires
        forall|j: int| !text::occurs_at(s, p, j),
    ensures
        text::find(s, p) is None,
        !text::contains(s, p),
{
    text::find_is_first(s, p);
}

// ---- trimming -------------------------------------------------------------------------------

/// Whether a text holds nothing but white space.
pub open spec fn is_blank(s: Seq<char>) -> bool {
    forall|i: int| 0 <= i < s.len() ==> text::is_white_space(#[trigger] s[i])
}

/// Whether a text neither begins nor ends with white space.
pub open spec fn is_trimmed(s: Seq<char>) -> bool {
    s.len() > 0 ==> !text::is_white_space(s[0]) && !text::is_white_space(s.last())
}

/// White space is exactly this.
pub proof fn white_space_is_this(c: char)
    ensures
        text::is_white_space(c)
            <==> "\u{9}\u{a}\u{b}\u{c}\u{d} \u{85}\u{a0}\u{1680}\u{2000}\u{2001}\u{2002}\u{2003}\u{2004}\u{2005}\u{2006}\u{2007}\u{2008}\u{2009}\u{200a}\u{2028}\u{2029}\u{202f}\u{205f}\u{3000}"@.contains(
        c),
{
    reveal_strlit(
        "\u{9}\u{a}\u{b}\u{c}\u{d} \u{85}\u{a0}\u{1680}\u{2000}\u{2001}\u{2002}\u{2003}\u{2004}\u{2005}\u{2006}\u{2007}\u{2008}\u{2009}\u{200a}\u{2028}\u{2029}\u{202f}\u{205f}\u{3000}",
    );
    let s = "\u{9}\u{a}\u{b}\u{c}\u{d} \u{85}\u{a0}\u{1680}\u{2000}\u{2001}\u{2002}\u{2003}\u{2004}\u{2005}\u{2006}\u{2007}\u{2008}\u{2009}\u{200a}\u{2028}\u{2029}\u{202f}\u{205f}\u{3000}"@;
    let n = c as u32;
    if 0x09 <= n <= 0x0d {
        assert(s[n - 9] == c);
    } else if n == 0x20 {
        assert(s[5] == c);
    } else if n == 0x85 {
        assert(s[6] == c);
    } else if n == 0xa0 {
        assert(s[7] == c);
    } else if n == 0x1680 {
        assert(s[8] == c);
    } else if 0x2000 <= n <= 0x200a {
        assert(s[n - 0x2000 + 9] == c);
    } else if n == 0x2028 {
        assert(s[20] == c);
    } else if n == 0x2029 {
        assert(s[21] == c);
    } else if n == 0x202f {
        assert(s[22] == c);
    } else if n == 0x205f {
        assert(s[23] == c);
    } else if n == 0x3000 {
        assert(s[24] == c);
    }
}

/// Trimming takes the white space at both ends, and nothing else.
pub proof fn trim_takes_the_ends(a: Seq<char>, s: Seq<char>, b: Seq<char>)
    requires
        is_blank(a),
        is_blank(b),
        is_trimmed(s),
    ensures
        text::trim(a + s + b) == s,
        s.len() > 0 ==> text::trim_start(a + s + b) == s + b,
{
    let k = CharClass::WhiteSpace;
    let t = a + s + b;
    if s.len() == 0 {
        assert forall|j: int| 0 <= j < t.len() implies k.has(#[trigger] t[j]) by {
            if j < a.len() {
                assert(t[j] == a[j]);
            } else {
                assert(t[j] == b[j - a.len()]);
            }
        }
        text::run_is(t, k, t.len());
        assert(text::trim_start(t) =~= Seq::<char>::empty());
        assert(text::trim(t) =~= s);
    } else {
        assert forall|j: int| 0 <= j < a.len() implies k.has(#[trigger] t[j]) by {
            assert(t[j] == a[j]);
        }
        assert(t[a.len() as int] == s[0]);
        text::run_is(t, k, a.len());
        let u = s + b;
        assert(text::trim_start(t) =~= u);
        assert forall|j: int| u.len() - b.len() <= j < u.len() implies k.has(#[trigger] u[j]) by {
            assert(u[j] == b[j - s.len()]);
        }
        assert(u[s.len() - 1] == s.last());
        text::end_run_is(u, k, b.len());
        assert(text::trim(t) =~= s);
    }
}

/// Every text is what trimming leaves of it, with white space around it.
pub proof fn trim_leaves_the_middle(s: Seq<char>) -> (r: (Seq<char>, Seq<char>))
    ensures
        s == r.0 + text::trim(s) + r.1,
        is_blank(r.0),
        is_blank(r.1),
        is_trimmed(text::trim(s)),
{
    let k = CharClass::WhiteSpace;
    let n = text::run(s, k) as int;
    text::run_bounds(s, k);
    let t = text::trim_start(s);
    let m = text::end_run(t, k);
    text::end_run_bounds(t, k);
    let a = s.take(n);
    let b = t.skip(t.len() - m);
    assert forall|i: int| 0 <= i < a.len() implies text::is_white_space(#[trigger] a[i]) by {
        assert(k.has(s[i]));
    }
    assert forall|i: int| 0 <= i < b.len() implies text::is_white_space(#[trigger] b[i]) by {
        assert(k.has(t[t.len() - m + i]));
    }
    assert(s =~= a + text::trim(s) + b);
    let u = text::trim(s);
    if u.len() > 0 {
        assert(u[0] == t[0] && t[0] == s[n]);
        assert(u.last() == t[t.len() - m - 1]);
    }
    (a, b)
}

/// What stands in a text once it is trimmed stood in it before.
pub proof fn trimmed_pattern_was_there(s: Seq<char>, p: Seq<char>)
    requires
        text::contains(text::trim(s), p),
    ensures
        text::contains(s, p),
{
    let (a, b) = trim_leaves_the_middle(s);
    let t = text::trim(s);
    let i = choose|i: int| text::occurs_at(t, p, i);
    pattern_moves(a, t, p, i);
    pattern_moves(a + t, b, p, a.len() + i);
}

/// A pattern that ends with a character that it holds nowhere else is found behind a text that does
/// not hold it, whatever comes next.
pub proof fn found_behind(a: Seq<char>, p: Seq<char>, b: Seq<char>)
    requires
        p.len() > 0,
        forall|d: int| 0 <= d < p.len() - 1 ==> #[trigger] p[d] != p.last(),
        !text::contains(a, p),
    ensures
        text::find(a + p + b, p) == Some(a.len() as int),
{
    let s = a + p + b;
    let n = a.len() as int;
    holds_pattern(a, p, b);
    assert forall|j: int| 0 <= j < n implies !text::occurs_at(s, p, j) by {
        if text::occurs_at(s, p, j) {
            let t = j + p.len() - 1;
            pattern_characters(s, p, j, p.len() - 1);
            if t < n {
                assert(s =~= a + (p + b));
                pattern_moves(a, p + b, p, j);
                assert(text::contains(a, p));
            } else {
                assert(s[t] == p[t - n]);
            }
        }
    }
    found_first(s, p, n);
}

// ---- lines ----------------------------------------------------------------------------------

/// A text is read line by line: a line ends at a line feed, or at a carriage return and a line
/// feed, and neither is part of it; the last line need not end.
pub proof fn line_by_line(line: Seq<char>, rest: Seq<char>)
    requires
        !line.contains('\n'),
        line.len() > 0 ==> line.last() != '\r',
    ensures
        text::lines(line + seq!['\n'] + rest) == seq![line] + text::lines(rest),
        text::lines(line + seq!['\r', '\n'] + rest) == seq![line] + text::lines(rest),
        line.len() > 0 ==> text::lines(line) == seq![line],
        text::lines(Seq::empty()) == Seq::<Seq<char>>::empty(),
{
    let with_cr = line + seq!['\r'];
    assert(!with_cr.contains('\n')) by {
        assert forall|i: int| 0 <= i < with_cr.len() implies with_cr[i] != '\n' by {
            if i < line.len() {
                assert(line.contains(line[i]));
            }
        }
    }
    text::one_line(line);
    text::one_line(with_cr);
    assert(line.push('\n') =~= line + seq!['\n']);
    assert(with_cr.push('\n') =~= line + seq!['\r', '\n']);
    assert(with_cr.drop_last() =~= line);
    text::lines_in_two(line + seq!['\n'], rest);
    text::lines_in_two(line + seq!['\r', '\n'], rest);
    if line.len() > 0 {
        let k = CharClass::Is('\n');
        assert forall|j: int| 0 <= j < line.len() implies !k.has(#[trigger] line[j]) by {
            assert(line.contains(line[j]));
        }
        text::first_of_is(line, k, line.len());
    }
    assert(text::lines(Seq::empty()) =~= Seq::<Seq<char>>::empty());
}

/// Parts that are joined stand one behind the other, with the separator between each two.
pub proof fn join_goes_on(parts: Seq<Seq<char>>, part: Seq<char>, sep: Seq<char>)
    ensures
        text::join(Seq::empty(), sep) == Seq::<char>::empty(),
        text::join(seq![part], sep) == part,
        parts.len() > 0 ==> text::join(parts.push(part), sep) == text::join(parts, sep) + sep
            + part,
{
    assert(parts.push(part).drop_last() =~= parts);
}

/// Splitting takes a text apart at each separator.
pub proof fn split_takes_apart(part: Seq<char>, c: char, rest: Seq<char>, k: CharClass)
    requires
        forall|i: int| 0 <= i < part.len() ==> !k.has(#[trigger] part[i]),
        k.has(c),
    ensures
        text::split(part, k) == seq![part],
        text::split(part + seq![c] + rest, k) == seq![part] + text::split(rest, k),
{
    let s = part + seq![c] + rest;
    assert forall|j: int| 0 <= j < part.len() implies !k.has(#[trigger] s[j]) by {
        assert(s[j] == part[j]);
    }
    assert(s[part.len() as int] == c);
    text::first_of_is(s, k, part.len());
    text::first_of_is(part, k, part.len());
    assert(s.take(part.len() as int) =~= part);
    assert(s.skip(part.len() as int + 1) =~= rest);
}

/// The first word of a text is what stands between white space.
pub proof fn first_word_is_between(a: Seq<char>, w: Seq<char>, b: Seq<char>)
    requires
        is_blank(a),
        w.len() > 0,
        !text::has_white_space(w),
        b.len() > 0 ==> text::is_white_space(b[0]),
    ensures
        text::first_word(a + w + b) == Some(w),
        text::words(a + w + b) == seq![w] + text::words(b),
        text::words(a) == Seq::<Seq<char>>::empty(),
{
    let k = CharClass::WhiteSpace;
    let s = a + w + b;
    assert(!text::is_white_space(w[0]));
    assert forall|j: int| 0 <= j < a.len() implies k.has(#[trigger] s[j]) by {
        assert(s[j] == a[j]);
    }
    assert(s[a.len() as int] == w[0]);
    text::run_is(s, k, a.len());
    let t = text::trim_start(s);
    assert(t =~= w + b);
    assert forall|j: int| 0 <= j < w.len() implies !k.has(#[trigger] t[j]) by {
        assert(t[j] == w[j]);
        assert(!text::is_white_space(w[j]));
    }
    if b.len() > 0 {
        assert(t[w.len() as int] == b[0]);
    }
    text::first_of_is(t, k, w.len());
    assert(t.take(w.len() as int) =~= w);
    assert(t.skip(w.len() as int) =~= b);
    assert forall|j: int| 0 <= j < a.len() implies k.has(#[trigger] a[j]) by {}
    text::run_is(a, k, a.len());
    assert(text::trim_start(a) =~= Seq::<char>::empty());
    assert(text::words(a) =~= Seq::<Seq<char>>::empty());
}

/// Of the last items as many are kept as there may be, and all where there are no more.
pub proof fn last_items_are_kept<A>(a: Seq<A>, b: Seq<A>)
    ensures
        text::last_n(a + b, b.len()) == b,
        text::last_n(b, b.len()) == b,
        text::last_n(b, a.len() + b.len()) == b,
{
    assert(text::last_n(a + b, b.len()) =~= b);
}

/// The letters `A` to `Z` become `a` to `z`, and nothing else changes.
pub proof fn lower_case_is_this(s: Seq<char>, i: int)
    requires
        0 <= i < s.len(),
    ensures
        text::ascii_lowercase(s).len() == s.len(),
        !("ABCDEFGHIJKLMNOPQRSTUVWXYZ"@.contains(s[i])) ==> text::ascii_lowercase(s)[i] == s[i],
        forall|k: int|
            0 <= k < 26 && s[i] == #[trigger] "ABCDEFGHIJKLMNOPQRSTUVWXYZ"@[k]
                ==> text::ascii_lowercase(s)[i] == "abcdefghijklmnopqrstuvwxyz"@[k],
{
    reveal_strlit("ABCDEFGHIJKLMNOPQRSTUVWXYZ");
    reveal_strlit("abcdefghijklmnopqrstuvwxyz");
    let u = "ABCDEFGHIJKLMNOPQRSTUVWXYZ"@;
    let l = "abcdefghijklmnopqrstuvwxyz"@;
    let c = s[i];
    assert forall|k: int| 0 <= k < 26 implies (#[trigger] u[k]) as u32 == 65 + k && l[k] as u32 == 97
        + k by {}
    if 'A' <= c && c <= 'Z' {
        assert(u[c as u32 - 65] == c);
    }
}

} // verus!
