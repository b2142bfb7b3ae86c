//! What a diagnosis promises, in terms of the output and the rows that it is given.

use crate::diagnose;
use crate::patch;
use crate::text;
use crate::text::CharClass;
use crate::text_laws;
use vstd::prelude::*;

verus! {

// ---- modules in a line ----------------------------------------------------------------------

/// Whether a text names no module in any way that a line can.
pub open spec fn names_nothing(s: Seq<char>) -> bool {
    &&& !text::contains(s, "Cannot find module '"@)
    &&& !text::contains(s, "Cannot find package '"@)
    &&& !text::contains(s, "load plugin '"@)
    &&& !text::contains(s, "node_modules/"@)
}

/// Whether a pattern ends with its only quote.
spec fn ends_with_quote(p: Seq<char>) -> bool {
    &&& p.len() >= 4
    &&& p.last() == '\''
    &&& p[p.len() - 2] == ' '
    &&& forall|d: int| 0 <= d < p.len() - 1 ==> #[trigger] p[d] != '\''
}

proof fn patterns_end_with_quotes()
    ensures
        ends_with_quote("Cannot find module '"@),
        ends_with_quote("Cannot find package '"@),
        ends_with_quote("load plugin '"@),
{
    reveal_strlit("Cannot find module '");
    reveal_strlit("Cannot find package '");
    reveal_strlit("load plugin '");
}

/// What is quoted behind a pattern is read as it is.
proof fn quoted_is_read(a: Seq<char>, p: Seq<char>, m: Seq<char>, b: Seq<char>)
    requires
        ends_with_quote(p),
        !text::contains(a, p),
        !m.contains('\''),
    ensures
        diagnose::quoted_after(a + p + m + seq!['\''] + b, p) == Some(m),
{
    let line = a + p + m + seq!['\''] + b;
    let n = a.len() as int;
    assert(line =~= a + p + (m + seq!['\''] + b));
    text_laws::holds_pattern(a, p, m + seq!['\''] + b);
    assert forall|j: int| 0 <= j < n implies !text::occurs_at(line, p, j) by {
        if text::occurs_at(line, p, j) {
            text_laws::pattern_characters(line, p, j, p.len() - 1);
            let t = j + p.len() - 1;
            if t < n {
                assert(line =~= a + (p + m + seq!['\''] + b));
                text_laws::pattern_moves(a, p + m + seq!['\''] + b, p, j);
                assert(text::contains(a, p));
            } else {
                assert(line[t] == p[t - n]);
            }
        }
    }
    text_laws::found_first(line, p, n);
    let rest = line.skip(n + p.len());
    assert(rest =~= m + seq!['\''] + b);
    assert forall|j: int| 0 <= j < m.len() implies !CharClass::Is('\'').has(#[trigger] rest[j]) by {
        assert(rest[j] == m[j]);
        assert(m.contains(m[j]));
    }
    text::first_of_is(rest, CharClass::Is('\''), m.len());
    assert(rest.take(m.len() as int) =~= m);
}

/// Behind another pattern nothing is quoted.
proof fn nothing_else_is_read(a: Seq<char>, p: Seq<char>, m: Seq<char>, b: Seq<char>, q: Seq<char>)
    requires
        ends_with_quote(p),
        ends_with_quote(q),
        q[q.len() - 4] != p[p.len() - 4],
        !text::contains(a, q),
        !text::contains(b, q),
        m.len() > 0,
        !m.contains('\''),
        b.len() > 0 ==> m.last() != ' ',
    ensures
        diagnose::quoted_after(a + p + m + seq!['\''] + b, q) is None,
{
    let line = a + p + m + seq!['\''] + b;
    let n = a.len() as int;
    let first = n + p.len() - 1;
    let second = n + p.len() + m.len();
    text::find_is_first(line, q);
    match text::find(line, q) {
        Some(j) => {
            let t = j + q.len() - 1;
            text_laws::pattern_characters(line, q, j, q.len() - 1);
            if t < n {
                assert(line =~= a + (p + m + seq!['\''] + b));
                text_laws::pattern_moves(a, p + m + seq!['\''] + b, q, j);
                assert(text::contains(a, q));
                assert(false);
            } else if t < first {
                assert(line[t] == p[t - n]);
                assert(false);
            } else if t == first {
                text_laws::pattern_characters(line, q, j, q.len() - 4);
                assert(line[t - 3] == p[p.len() - 4]);
                assert(false);
            } else if t < second {
                assert(line[t] == m[t - n - p.len()]);
                assert(m.contains(m[t - n - p.len()]));
                assert(false);
            } else if t == second {
                if b.len() > 0 {
                    text_laws::pattern_characters(line, q, j, q.len() - 2);
                    assert(line[t - 1] == m.last());
                    assert(false);
                }
                let rest = line.skip(j + q.len());
                assert(rest.len() == 0);
                assert(text::first_of(rest, CharClass::Is('\'')) == 0);
            } else {
                if j <= second {
                    text_laws::pattern_characters(line, q, j, second - j);
                    assert(line[second] == '\'');
                    assert(false);
                }
                let front = a + p + m + seq!['\''];
                assert(line =~= front + b);
                text_laws::pattern_moves(front, b, q, j - front.len());
                assert(text::contains(b, q));
                assert(false);
            }
        },
        None => {},
    }
}

proof fn no_path_is_read(a: Seq<char>, p: Seq<char>, m: Seq<char>, b: Seq<char>)
    requires
        ends_with_quote(p),
        !p.contains('/'),
        !text::contains(a, "node_modules/"@),
        !text::contains(m, "node_modules/"@),
        !text::contains(b, "node_modules/"@),
    ensures
        text::find(a + p + m + seq!['\''] + b, "node_modules/"@) is None,
{
    reveal_strlit("node_modules/");
    let q = "node_modules/"@;
    let line = a + p + m + seq!['\''] + b;
    let n = a.len() as int;
    let first = n + p.len() - 1;
    let second = n + p.len() + m.len();
    text::find_is_first(line, q);
    match text::find(line, q) {
        Some(j) => {
            let t = j + q.len() - 1;
            text_laws::pattern_characters(line, q, j, q.len() - 1);
            assert forall|k: int| j <= k <= t implies #[trigger] line[k] != '\'' by {
                text_laws::pattern_characters(line, q, j, k - j);
            }
            if t < n {
                assert(line =~= a + (p + m + seq!['\''] + b));
                text_laws::pattern_moves(a, p + m + seq!['\''] + b, q, j);
                assert(text::contains(a, q));
            } else if t <= first {
                assert(line[t] == p[t - n]);
                assert(p.contains(p[t - n]));
            } else if t < second {
                if j <= first {
                    assert(line[first] == p.last());
                }
                assert(line =~= (a + p) + m + (seq!['\''] + b));
                text_laws::pattern_moves((a + p) + m, seq!['\''] + b, q, j);
                text_laws::pattern_moves(a + p, m, q, j - (a + p).len());
                assert(text::contains(m, q));
            } else {
                assert(line[second] == '\'');
                let front = a + p + m + seq!['\''];
                assert(line =~= front + b);
                text_laws::pattern_moves(front, b, q, j - front.len());
                assert(text::contains(b, q));
            }
            assert(false);
        },
        None => {},
    }
}

/// A line that says of a module that it cannot be found, or of a plugin that it is loaded, blames
/// exactly what stands between the quotes, character for character.
pub proof fn quoted_module_is_blamed(a: Seq<char>, m: Seq<char>, b: Seq<char>)
    requires
        names_nothing(a),
        names_nothing(b),
        m.len() > 0,
        !m.contains('\''),
        !text::contains(m, "node_modules/"@),
        b.len() > 0 ==> m.last() != ' ',
    ensures
        diagnose::modules_in(a + "Cannot find module '"@ + m + seq!['\''] + b) == seq![m],
        diagnose::modules_in(a + "Cannot find package '"@ + m + seq!['\''] + b) == seq![m],
        diagnose::modules_in(a + "load plugin '"@ + m + seq!['\''] + b) == seq![m],
{
    patterns_end_with_quotes();
    reveal_strlit("Cannot find module '");
    reveal_strlit("Cannot find package '");
    reveal_strlit("load plugin '");
    let p = "Cannot find module '"@;
    let q = "Cannot find package '"@;
    let r = "load plugin '"@;
    assert(!p.contains('/') && !q.contains('/') && !r.contains('/'));
    quoted_is_read(a, p, m, b);
    nothing_else_is_read(a, p, m, b, q);
    nothing_else_is_read(a, p, m, b, r);
    no_path_is_read(a, p, m, b);
    quoted_is_read(a, q, m, b);
    nothing_else_is_read(a, q, m, b, p);
    nothing_else_is_read(a, q, m, b, r);
    no_path_is_read(a, q, m, b);
    quoted_is_read(a, r, m, b);
    nothing_else_is_read(a, r, m, b, p);
    nothing_else_is_read(a, r, m, b, q);
    no_path_is_read(a, r, m, b);
    assert(Seq::<Seq<char>>::empty().push(m) =~= seq![m]);
}

// ---- packages -------------------------------------------------------------------------------

/// The package of a module is its first part, or its first two with a scope; a module that is a
/// package is its own.
pub proof fn package_of_module(scope: Seq<char>, pkg: Seq<char>, rest: Seq<char>)
    requires
        !scope.contains('/'),
        !pkg.contains('/'),
    ensures
        ({
            let scoped = seq!['@'] + scope + seq!['/'] + pkg;
            &&& diagnose::package_of(scoped) == scoped
            &&& diagnose::package_of(scoped + seq!['/'] + rest) == scoped
            &&& diagnose::package_of(seq!['@'] + scope) == seq!['@'] + scope
        }),
        pkg.len() == 0 || pkg[0] != '@' ==> {
            &&& diagnose::package_of(pkg) == pkg
            &&& diagnose::package_of(pkg + seq!['/'] + rest) == pkg
        },
{
    let at = seq!['@'] + scope;
    let scoped = at + seq!['/'] + pkg;
    let sub = scoped + seq!['/'] + rest;
    assert(!at.contains('/')) by {
        assert forall|i: int| 0 <= i < at.len() implies at[i] != '/' by {
            if i > 0 {
                assert(scope.contains(scope[i - 1]));
            }
        }
    }
    first_slash(at, pkg);
    first_slash(at, pkg + seq!['/'] + rest);
    first_slash(pkg, rest);
    assert(scoped =~= at + seq!['/'] + pkg);
    assert(sub =~= at + seq!['/'] + (pkg + seq!['/'] + rest));
    assert(scoped.skip(at.len() as int + 1) =~= pkg);
    assert(sub.skip(at.len() as int + 1) =~= pkg + seq!['/'] + rest);
    assert(scoped[0] == '@' && sub[0] == '@');
    assert(scoped.take(scoped.len() as int) =~= scoped);
    assert(sub.take(scoped.len() as int) =~= scoped);
    assert(at.take(at.len() as int) =~= at);
    let plain = pkg + seq!['/'] + rest;
    assert(plain.take(pkg.len() as int) =~= pkg);
    assert(pkg.take(pkg.len() as int) =~= pkg);
    if pkg.len() > 0 {
        assert(plain[0] == pkg[0]);
    } else {
        assert(plain[0] == '/');
    }
}

proof fn first_slash(s: Seq<char>, rest: Seq<char>)
    requires
        !s.contains('/'),
    ensures
        text::first_of(s, CharClass::Is('/')) == s.len(),
        text::first_of(s + seq!['/'] + rest, CharClass::Is('/')) == s.len(),
{
    let k = CharClass::Is('/');
    let t = s + seq!['/'] + rest;
    assert forall|i: int| 0 <= i < s.len() implies !k.has(#[trigger] s[i]) by {
        assert(s.contains(s[i]));
    }
    assert forall|i: int| 0 <= i < s.len() implies !k.has(#[trigger] t[i]) by {
        assert(t[i] == s[i]);
        assert(s.contains(s[i]));
    }
    text::first_of_is(s, k, s.len());
    text::first_of_is(t, k, s.len());
}

/// Whether a package in a path is no plugin: a part of the framework, or of Node.js itself.
pub open spec fn is_no_plugin(pkg: Seq<char>) -> bool {
    ||| pkg == "@deepseek-ai/cordis"@
    ||| pkg == "@deepseek-ai/cordis-plugin-loader"@
    ||| pkg == "@deepseek-ai/cosmokit"@
    ||| pkg == "@deepseek-ai/schemastery"@
    ||| exists|x: Seq<char>| pkg == #[trigger] ("node:"@ + x)
}

proof fn framework_is_this(pkg: Seq<char>)
    ensures
        diagnose::is_plugin_path(pkg) <==> !is_no_plugin(pkg),
{
    text_laws::starts_with_is_concatenation(pkg, "node:"@);
    let list = diagnose::FRAMEWORK_PACKAGES@;
    assert(list.len() == 4);
    assert(list[0]@ == "@deepseek-ai/cordis"@);
    assert(list[1]@ == "@deepseek-ai/cordis-plugin-loader"@);
    assert(list[2]@ == "@deepseek-ai/cosmokit"@);
    assert(list[3]@ == "@deepseek-ai/schemastery"@);
}

proof fn paths_are_read(a: Seq<char>, pkg: Seq<char>, tail: Seq<char>)
    requires
        names_nothing(a),
        names_nothing(tail),
        tail.len() > 0 ==> tail[0] == '/',
        pkg.len() > 0,
        !pkg.contains('\''),
        diagnose::package_of(pkg + tail) == pkg,
    ensures
        diagnose::modules_in(a + "node_modules/"@ + pkg + tail) == (if is_no_plugin(pkg) {
            Seq::empty()
        } else {
            seq![pkg]
        }),
{
    let line = a + "node_modules/"@ + pkg + tail;
    let empty = Seq::<Seq<char>>::empty();
    assert(diagnose::with_quoted(
        diagnose::with_quoted(
            diagnose::with_quoted(empty, line, "Cannot find module '"@),
            line,
            "Cannot find package '"@,
        ),
        line,
        "load plugin '"@,
    ) == empty) by {
        patterns_end_with_quotes();
        patterns_have_no_slash();
        nothing_is_quoted(a, pkg, tail, "Cannot find module '"@);
        nothing_is_quoted(a, pkg, tail, "Cannot find package '"@);
        nothing_is_quoted(a, pkg, tail, "load plugin '"@);
    }
    framework_is_this(pkg);
    let n = a.len() as int;
    first_path(a, pkg + tail);
    let np = "node_modules/"@;
    assert(line =~= a + np + (pkg + tail));
    let rest = line.skip(n + np.len());
    assert(rest =~= pkg + tail);
    diagnose::package_end_bounds(rest);
    assert(diagnose::package_end(rest) == pkg.len());
    assert(rest.skip(pkg.len() as int) =~= tail);
    assert(rest.take(pkg.len() as int) =~= pkg);
    assert(empty.push(pkg) =~= seq![pkg]);
    no_path_no_package(empty, tail);
    no_path_no_package(seq![pkg], tail);
    assert(diagnose::modules_in(line) == diagnose::with_paths(empty, line));
}

proof fn patterns_have_no_slash()
    ensures
        !"Cannot find module '"@.contains('/'),
        !"Cannot find package '"@.contains('/'),
        !"load plugin '"@.contains('/'),
{
    reveal_strlit("Cannot find module '");
    reveal_strlit("Cannot find package '");
    reveal_strlit("load plugin '");
}

proof fn first_path(a: Seq<char>, rest: Seq<char>)
    requires
        !text::contains(a, "node_modules/"@),
    ensures
        text::find(a + "node_modules/"@ + rest, "node_modules/"@) == Some(a.len() as int),
{
    reveal_strlit("node_modules/");
    text_laws::found_behind(a, "node_modules/"@, rest);
}

proof fn no_path_no_package(out: Seq<Seq<char>>, line: Seq<char>)
    requires
        !text::contains(line, "node_modules/"@),
    ensures
        diagnose::with_paths(out, line) == out,
{
    text::find_is_first(line, "node_modules/"@);
    match text::find(line, "node_modules/"@) {
        Some(j) => {
            assert(text::occurs_at(line, "node_modules/"@, j));
        },
        None => {},
    }
}

proof fn nothing_is_quoted(a: Seq<char>, pkg: Seq<char>, tail: Seq<char>, q: Seq<char>)
    requires
        ends_with_quote(q),
        !q.contains('/'),
        !text::contains(a, q),
        !text::contains(tail, q),
        tail.len() > 0 ==> tail[0] == '/',
        !pkg.contains('\''),
    ensures
        diagnose::quoted_after(a + "node_modules/"@ + pkg + tail, q) is None,
{
    reveal_strlit("node_modules/");
    let np = "node_modules/"@;
    let line = a + np + pkg + tail;
    let n = a.len() as int;
    let m = n + 13 + pkg.len();
    text::find_is_first(line, q);
    match text::find(line, q) {
        Some(j) => {
            let t = j + q.len() - 1;
            text_laws::pattern_characters(line, q, j, q.len() - 1);
            if t < n {
                assert(line =~= a + (np + pkg + tail));
                text_laws::pattern_moves(a, np + pkg + tail, q, j);
                assert(text::contains(a, q));
            } else if t < n + 13 {
                assert(line[t] == np[t - n]);
            } else if t < m {
                assert(line[t] == pkg[t - n - 13]);
                assert(pkg.contains(pkg[t - n - 13]));
            } else {
                let front = a + np + pkg;
                if j < m {
                    text_laws::pattern_characters(line, q, j, m - j);
                    assert(line[m] == tail[0]);
                    assert(q.contains(q[m - j]));
                }
                assert(line =~= front + tail);
                text_laws::pattern_moves(front, tail, q, j - m);
                assert(text::contains(tail, q));
            }
            assert(false);
        },
        None => {},
    }
}

/// A path in a stack trace blames the package that it leads into, unless that is no plugin: with its
/// scope where it has one, and without what stands inside the package.
pub proof fn path_blames_its_package(a: Seq<char>, scope: Seq<char>, pkg: Seq<char>, rest: Seq<char>)
    requires
        names_nothing(a),
        names_nothing(seq!['/'] + rest),
        !scope.contains('/'),
        !scope.contains('\''),
        !pkg.contains('/'),
        !pkg.contains('\''),
        pkg.len() > 0,
        pkg[0] != '@',
    ensures
        ({
            let scoped = seq!['@'] + scope + seq!['/'] + pkg;
            let path = a + "node_modules/"@ + scoped;
            let blames = if is_no_plugin(scoped) {
                Seq::empty()
            } else {
                seq![scoped]
            };
            &&& diagnose::modules_in(path) == blames
            &&& diagnose::modules_in(path + (seq!['/'] + rest)) == blames
        }),
        ({
            let path = a + "node_modules/"@ + pkg;
            let blames = if is_no_plugin(pkg) {
                Seq::empty()
            } else {
                seq![pkg]
            };
            &&& diagnose::modules_in(path) == blames
            &&& diagnose::modules_in(path + (seq!['/'] + rest)) == blames
        }),
{
    let scoped = seq!['@'] + scope + seq!['/'] + pkg;
    let tail = seq!['/'] + rest;
    let none = Seq::<char>::empty();
    package_of_module(scope, pkg, rest);
    assert(!scoped.contains('\'')) by {
        assert forall|i: int| 0 <= i < scoped.len() implies scoped[i] != '\'' by {
            if 0 < i <= scope.len() {
                assert(scope.contains(scope[i - 1]));
            } else if i > scope.len() + 1 {
                assert(pkg.contains(pkg[i - scope.len() - 2]));
            }
        }
    }
    empty_names_nothing();
    assert(scoped + none =~= scoped);
    assert(pkg + none =~= pkg);
    assert(scoped + tail =~= scoped + seq!['/'] + rest);
    assert(pkg + tail =~= pkg + seq!['/'] + rest);
    let np = "node_modules/"@;
    assert(a + np + scoped + none =~= a + np + scoped);
    assert(a + np + pkg + none =~= a + np + pkg);
    paths_are_read(a, scoped, none);
    paths_are_read(a, scoped, tail);
    paths_are_read(a, pkg, none);
    paths_are_read(a, pkg, tail);
}

proof fn empty_names_nothing()
    ensures
        names_nothing(Seq::empty()),
{
    reveal_strlit("Cannot find module '");
    reveal_strlit("Cannot find package '");
    reveal_strlit("load plugin '");
    reveal_strlit("node_modules/");
}

/// A line that names nothing blames nothing.
pub proof fn nothing_named_nothing_blamed(line: Seq<char>)
    requires
        names_nothing(line),
    ensures
        diagnose::modules_in(line) == Seq::<Seq<char>>::empty(),
{
    text::find_is_first(line, "Cannot find module '"@);
    text::find_is_first(line, "Cannot find package '"@);
    text::find_is_first(line, "load plugin '"@);
    no_path_no_package(Seq::empty(), line);
}

// ---- rows of modules ------------------------------------------------------------------------

/// The row of a module is the first one that has its name. Where there is none, it is the first one
/// that has the name of its package; where there is none either, the first one with something
/// inside the module; and none where there is nothing of these.
pub proof fn row_of_module(module: Seq<char>, rows: Seq<(Seq<char>, Seq<char>)>, k: int)
    requires
        0 <= k < rows.len(),
    ensures
        rows[k].1 == module && (forall|j: int| 0 <= j < k ==> (#[trigger] rows[j]).1 != module)
            ==> diagnose::row_of(module, rows) == Some(rows[k]),
        (forall|j: int| 0 <= j < rows.len() ==> (#[trigger] rows[j]).1 != module) && rows[k].1
            == diagnose::package_of(module) && (forall|j: int|
            0 <= j < k ==> (#[trigger] rows[j]).1 != diagnose::package_of(module))
            ==> diagnose::row_of(module, rows) == Some(rows[k]),
        (forall|j: int|
            0 <= j < rows.len() ==> (#[trigger] rows[j]).1 != module && rows[j].1
                != diagnose::package_of(module)) && (exists|x: Seq<char>|
            rows[k].1 == #[trigger] (module + seq!['/'] + x)) && (forall|j: int, x: Seq<char>|
            0 <= j < k ==> (#[trigger] rows[j]).1 != #[trigger] (module + seq!['/'] + x))
            ==> diagnose::row_of(module, rows) == Some(rows[k]),
        (forall|j: int|
            0 <= j < rows.len() ==> (#[trigger] rows[j]).1 != module && rows[j].1
                != diagnose::package_of(module)) && (forall|j: int, x: Seq<char>|
            0 <= j < rows.len() ==> (#[trigger] rows[j]).1 != #[trigger] (module + seq!['/'] + x))
            ==> diagnose::row_of(module, rows) is None,
{
    named_row(rows, module);
    named_row(rows, diagnose::package_of(module));
    inner_row(rows, module + seq!['/']);
    let prefix = module + seq!['/'];
    assert forall|j: int| 0 <= j < rows.len() implies (text::starts_with(
        (#[trigger] rows[j]).1,
        prefix,
    ) <==> exists|x: Seq<char>| rows[j].1 == #[trigger] (module + seq!['/'] + x)) by {
        text_laws::starts_with_is_concatenation(rows[j].1, prefix);
    }
}

proof fn named_row(rows: Seq<(Seq<char>, Seq<char>)>, name: Seq<char>)
    ensures
        match diagnose::row_named(rows, name) {
            Some(r) => exists|k: int|
                0 <= k < rows.len() && rows[k] == r && rows[k].1 == name && forall|j: int|
                    0 <= j < k ==> (#[trigger] rows[j]).1 != name,
            None => forall|j: int| 0 <= j < rows.len() ==> (#[trigger] rows[j]).1 != name,
        },
    decreases rows.len(),
{
    if rows.len() > 0 && rows[0].1 != name {
        let back = rows.skip(1);
        named_row(back, name);
        match diagnose::row_named(rows, name) {
            Some(r) => {
                let k = choose|k: int|
                    0 <= k < back.len() && back[k] == r && back[k].1 == name && forall|j: int|
                        0 <= j < k ==> (#[trigger] back[j]).1 != name;
                assert(rows[k + 1] == back[k]);
                assert forall|j: int| 0 <= j < k + 1 implies (#[trigger] rows[j]).1 != name by {
                    if j > 0 {
                        assert(rows[j] == back[j - 1]);
                    }
                }
            },
            None => {
                assert forall|j: int| 0 <= j < rows.len() implies (#[trigger] rows[j]).1 != name by {
                    if j > 0 {
                        assert(rows[j] == back[j - 1]);
                    }
                }
            },
        }
    } else if rows.len() > 0 {
        assert(rows[0] == rows[0]);
    }
}

proof fn inner_row(rows: Seq<(Seq<char>, Seq<char>)>, prefix: Seq<char>)
    ensures
        match diagnose::row_below(rows, prefix) {
            Some(r) => exists|k: int|
                0 <= k < rows.len() && rows[k] == r && text::starts_with(rows[k].1, prefix)
                    && forall|j: int|
                    0 <= j < k ==> !text::starts_with((#[trigger] rows[j]).1, prefix),
            None => forall|j: int|
                0 <= j < rows.len() ==> !text::starts_with((#[trigger] rows[j]).1, prefix),
        },
    decreases rows.len(),
{
    if rows.len() > 0 && !text::starts_with(rows[0].1, prefix) {
        let back = rows.skip(1);
        inner_row(back, prefix);
        match diagnose::row_below(rows, prefix) {
            Some(r) => {
                let k = choose|k: int|
                    0 <= k < back.len() && back[k] == r && text::starts_with(back[k].1, prefix)
                        && forall|j: int|
                        0 <= j < k ==> !text::starts_with((#[trigger] back[j]).1, prefix);
                assert(rows[k + 1] == back[k]);
                assert forall|j: int| 0 <= j < k + 1 implies !text::starts_with(
                    (#[trigger] rows[j]).1,
                    prefix,
                ) by {
                    if j > 0 {
                        assert(rows[j] == back[j - 1]);
                    }
                }
            },
            None => {
                assert forall|j: int| 0 <= j < rows.len() implies !text::starts_with(
                    (#[trigger] rows[j]).1,
                    prefix,
                ) by {
                    if j > 0 {
                        assert(rows[j] == back[j - 1]);
                    }
                }
            },
        }
    } else if rows.len() > 0 {
        assert(rows[0] == rows[0]);
    }
}

// ---- several modules in a line --------------------------------------------------------------

proof fn paths_add_up(out: Seq<Seq<char>>, line: Seq<char>)
    requires
        out.no_duplicates(),
    ensures
        ({
            let r = diagnose::with_paths(out, line);
            &&& r.no_duplicates()
            &&& out.len() <= r.len() && r.take(out.len() as int) == out
            &&& forall|x: Seq<char>| #[trigger]
                r.contains(x) <==> out.contains(x) || diagnose::with_paths(
                    Seq::empty(),
                    line,
                ).contains(x)
        }),
    decreases line.len(),
{
    let np = "node_modules/"@;
    let empty = Seq::<Seq<char>>::empty();
    text::find_is_first(line, np);
    reveal_strlit("node_modules/");
    match text::find(line, np) {
        Some(p) => {
            let rest = line.skip(p + np.len());
            let end = diagnose::package_end(rest);
            diagnose::package_end_bounds(rest);
            let pkg = rest.take(end);
            let next = if diagnose::is_plugin_path(pkg) {
                diagnose::with_module(out, pkg)
            } else {
                out
            };
            let first = if diagnose::is_plugin_path(pkg) {
                diagnose::with_module(empty, pkg)
            } else {
                empty
            };
            let back = rest.skip(end);
            one_module_more(out, pkg);
            one_module_more(empty, pkg);
            paths_add_up(next, back);
            paths_add_up(first, back);
            let r = diagnose::with_paths(out, line);
            assert(r == diagnose::with_paths(next, back));
            assert(diagnose::with_paths(empty, line) == diagnose::with_paths(first, back));
            assert(r.take(out.len() as int) =~= r.take(next.len() as int).take(out.len() as int));
            assert(next.take(out.len() as int) =~= out);
            assert forall|x: Seq<char>| #[trigger] r.contains(x) <==> out.contains(x)
                || diagnose::with_paths(empty, line).contains(x) by {
                let w = diagnose::with_paths(empty, back);
                assert(r.contains(x) <==> next.contains(x) || w.contains(x));
                assert(diagnose::with_paths(first, back).contains(x) <==> first.contains(x)
                    || w.contains(x));
            }
        },
        None => {
            assert(out.take(out.len() as int) =~= out);
        },
    }
}

proof fn one_module_more(out: Seq<Seq<char>>, m: Seq<char>)
    requires
        out.no_duplicates(),
    ensures
        diagnose::with_module(out, m).no_duplicates(),
        out.len() <= diagnose::with_module(out, m).len(),
        diagnose::with_module(out, m).take(out.len() as int) == out,
        forall|x: Seq<char>| #[trigger]
            diagnose::with_module(out, m).contains(x) <==> out.contains(x) || (x == m && m.len()
                > 0),
{
    let r = diagnose::with_module(out, m);
    assert(r.take(out.len() as int) =~= out);
    assert forall|x: Seq<char>| #[trigger] r.contains(x) <==> out.contains(x) || (x == m && m.len()
        > 0) by {
        if out.contains(x) {
            let i = choose|i: int| 0 <= i < out.len() && out[i] == x;
            assert(r[i] == x);
        }
        if x == m && m.len() > 0 && !out.contains(m) {
            assert(r[out.len() as int] == x);
        }
    }
}

/// Every path in a line counts: behind the package of the first one come those of the others, each
/// once.
pub proof fn every_path_counts(a: Seq<char>, pkg: Seq<char>, rest: Seq<char>)
    requires
        !(a + pkg + rest).contains('\''),
        !text::contains(a, "node_modules/"@),
        pkg.len() > 0,
        !pkg.contains('/'),
        pkg[0] != '@',
        !is_no_plugin(pkg),
    ensures
        ({
            let r = diagnose::modules_in(a + "node_modules/"@ + pkg + seq!['/'] + rest);
            let others = diagnose::modules_in(seq!['/'] + rest);
            &&& r.len() > 0 && r[0] == pkg
            &&& r.no_duplicates()
            &&& forall|x: Seq<char>| #[trigger]
                r.contains(x) <==> x == pkg || others.contains(x)
        }),
{
    let np = "node_modules/"@;
    let tail = seq!['/'] + rest;
    let line = a + np + pkg + seq!['/'] + rest;
    let empty = Seq::<Seq<char>>::empty();
    assert(!line.contains('\'') && !tail.contains('\'')) by {
        reveal_strlit("node_modules/");
        let all = a + pkg + rest;
        assert forall|i: int| 0 <= i < line.len() implies line[i] != '\'' by {
            if i < a.len() {
                assert(all[i] == line[i]);
            } else if a.len() + 13 <= i < a.len() + 13 + pkg.len() {
                assert(all[i - 13] == line[i]);
            } else if i > a.len() + 13 + pkg.len() {
                assert(all[i - 14] == line[i]);
            }
        }
        assert forall|i: int| 0 <= i < tail.len() implies tail[i] != '\'' by {
            if i > 0 {
                assert(all[a.len() + pkg.len() + i - 1] == tail[i]);
            }
        }
    }
    no_quote_no_module(line);
    no_quote_no_module(tail);
    assert(!Seq::<char>::empty().contains('/'));
    package_of_module(Seq::empty(), pkg, rest);
    framework_is_this(pkg);
    first_path(a, pkg + tail);
    assert(line =~= a + np + (pkg + tail));
    let from = line.skip(a.len() + np.len() as int);
    assert(from =~= pkg + tail);
    assert(pkg + tail =~= pkg + seq!['/'] + rest);
    diagnose::package_end_bounds(from);
    assert(diagnose::package_end(from) == pkg.len());
    assert(from.skip(pkg.len() as int) =~= tail);
    assert(from.take(pkg.len() as int) =~= pkg);
    assert(empty.push(pkg) =~= seq![pkg]);
    let r = diagnose::with_paths(seq![pkg], tail);
    assert(diagnose::modules_in(line) == r);
    paths_add_up(seq![pkg], tail);
    assert(r.take(1)[0] == pkg);
    assert forall|x: Seq<char>| seq![pkg].contains(x) <==> x == pkg by {
        if x == pkg {
            assert(seq![pkg][0] == x);
        }
    }
}

proof fn no_quote_no_module(line: Seq<char>)
    requires
        !line.contains('\''),
    ensures
        diagnose::modules_in(line) == diagnose::with_paths(Seq::empty(), line),
{
    patterns_end_with_quotes();
    no_quote_no_pattern(line, "Cannot find module '"@);
    no_quote_no_pattern(line, "Cannot find package '"@);
    no_quote_no_pattern(line, "load plugin '"@);
}

proof fn no_quote_no_pattern(line: Seq<char>, q: Seq<char>)
    requires
        !line.contains('\''),
        ends_with_quote(q),
    ensures
        diagnose::quoted_after(line, q) is None,
{
    text::find_is_first(line, q);
    match text::find(line, q) {
        Some(j) => {
            text_laws::pattern_characters(line, q, j, q.len() - 1);
            assert(line.contains(line[j + q.len() - 1]));
        },
        None => {},
    }
}

// ---- the diagnosis --------------------------------------------------------------------------

/// Whether the row with this id may be disabled: the id can be written, and the service can do
/// without it.
pub open spec fn can_be_disabled(id: Seq<char>) -> bool {
    &&& id.len() > 0
    &&& !text::has_white_space(id)
    &&& !seq![
        "webserver"@,
        "web_runtime"@,
        "web-startup"@,
        "typert-gateway"@,
        "cordis-host-runner"@,
        "cordis-client-runner"@,
        "connection"@,
        "modules"@,
        "resources"@,
        "client-hmr"@,
        "api-remotes"@,
    ].contains(id)
}

proof fn core_rows_are_these(id: Seq<char>)
    ensures
        can_be_disabled(id) <==> diagnose::is_clean_id(id) && !diagnose::is_core_row(id),
{
    let list = diagnose::CORE_ROW_DENYLIST@;
    let these = seq![
        "webserver"@,
        "web_runtime"@,
        "web-startup"@,
        "typert-gateway"@,
        "cordis-host-runner"@,
        "cordis-client-runner"@,
        "connection"@,
        "modules"@,
        "resources"@,
        "client-hmr"@,
        "api-remotes"@,
    ];
    assert(list.len() == 11 && these.len() == 11);
    assert(list[0]@ == these[0]);
    assert(list[1]@ == these[1]);
    assert(list[2]@ == these[2]);
    assert(list[3]@ == these[3]);
    assert(list[4]@ == these[4]);
    assert(list[5]@ == these[5]);
    assert(list[6]@ == these[6]);
    assert(list[7]@ == these[7]);
    assert(list[8]@ == these[8]);
    assert(list[9]@ == these[9]);
    assert(list[10]@ == these[10]);
    assert forall|i: int| 0 <= i < 11 implies #[trigger] list[i]@ == these[i] by {}
    if these.contains(id) {
        let i = choose|i: int| 0 <= i < these.len() && these[i] == id;
        assert(list[i]@ == id);
    }
    if diagnose::is_core_row(id) {
        let i = choose|i: int| 0 <= i < list.len() && (#[trigger] list[i])@ == id;
        assert(these[i] == id);
    }
}

/// A diagnosis names at most three rows, and each of them can be disabled.
pub proof fn named_rows_can_be_disabled(
    tail: Seq<Seq<char>>,
    bundle: Seq<(Seq<char>, Seq<char>)>,
    user: Option<Seq<char>>,
    i: int,
)
    requires
        0 <= i < diagnose::diagnosis(tail, bundle, user).len(),
    ensures
        ({
            let e = diagnose::diagnosis(tail, bundle, user)[i];
            &&& can_be_disabled(e.id)
            &&& diagnose::diagnosis(tail, bundle, user).len() <= 3
        }),
{
    diagnose::diagnosis_spares_core_rows(tail, bundle, user);
    let v = diagnose::diagnosis(tail, bundle, user);
    assert(diagnose::may_be_disabled(v[i]));
    core_rows_are_these(v[i].id);
}

/// All rows that modules are looked up in: those of the bundles come first.
pub open spec fn rows_of_both(
    bundle: Seq<(Seq<char>, Seq<char>)>,
    user: Option<Seq<char>>,
) -> Seq<(Seq<char>, Seq<char>)> {
    match user {
        Some(s) => bundle + patch::named_rows(s),
        None => bundle,
    }
}

proof fn known_rows_are_both(bundle: Seq<(Seq<char>, Seq<char>)>, user: Option<Seq<char>>)
    ensures
        diagnose::known_rows(bundle, user) == rows_of_both(bundle, user),
{
    assert(bundle + Seq::<(Seq<char>, Seq<char>)>::empty() =~= bundle);
}

proof fn blamed_in_two(a: Seq<Seq<char>>, b: Seq<Seq<char>>)
    ensures
        diagnose::blamed(a + b) == diagnose::blamed(b) + diagnose::blamed(a),
    decreases b.len(),
{
    if b.len() == 0 {
        assert(a + b =~= a);
        assert(diagnose::blamed(b) + diagnose::blamed(a) =~= diagnose::blamed(a));
    } else {
        let c = b.drop_last();
        blamed_in_two(a, c);
        assert((a + b).drop_last() =~= a + c);
        assert((a + b).last() == b.last());
        assert(diagnose::modules_in(b.last()) + (diagnose::blamed(c) + diagnose::blamed(a))
            =~= diagnose::modules_in(b.last()) + diagnose::blamed(c) + diagnose::blamed(a));
    }
}

proof fn entries_come_from_modules(
    modules: Seq<Seq<char>>,
    rows: Seq<(Seq<char>, Seq<char>)>,
    reason: Seq<char>,
)
    ensures
        forall|i: int|
            0 <= i < diagnose::suspects(modules, rows, reason).len() ==> modules.contains(
                (#[trigger] diagnose::suspects(modules, rows, reason)[i]).module,
            ) && diagnose::suspect(
                diagnose::suspects(modules, rows, reason)[i].module,
                rows,
                reason,
            ) == Some(diagnose::suspects(modules, rows, reason)[i]),
    decreases modules.len(),
{
    let v = diagnose::suspects(modules, rows, reason);
    if modules.len() > 0 {
        let front = modules.drop_last();
        let w = diagnose::suspects(front, rows, reason);
        entries_come_from_modules(front, rows, reason);
        assert forall|i: int| 0 <= i < v.len() implies modules.contains((#[trigger] v[i]).module)
            && diagnose::suspect(v[i].module, rows, reason) == Some(v[i]) by {
            if i < w.len() {
                assert(v[i] == w[i]);
                let j = choose|j: int| 0 <= j < front.len() && front[j] == w[i].module;
                assert(modules[j] == v[i].module);
            } else {
                assert(modules[modules.len() - 1] == v[i].module);
            }
        }
    } else {
        assert(v.len() == 0);
    }
}

/// Each entry of a diagnosis is for a module that a line of the output blames, and names the row of
/// that module.
pub proof fn entries_are_for_blamed_modules(
    tail: Seq<Seq<char>>,
    bundle: Seq<(Seq<char>, Seq<char>)>,
    user: Option<Seq<char>>,
    i: int,
)
    requires
        0 <= i < diagnose::diagnosis(tail, bundle, user).len(),
    ensures
        ({
            let e = diagnose::diagnosis(tail, bundle, user)[i];
            &&& exists|j: int|
                0 <= j < tail.len() && diagnose::modules_in(#[trigger] tail[j]).contains(e.module)
            &&& diagnose::row_of(e.module, rows_of_both(bundle, user)) matches Some(row)
                && row.0 == e.id
        }),
{
    known_rows_are_both(bundle, user);
    let rows = rows_of_both(bundle, user);
    let reason = diagnose::last_error(tail);
    entries_come_from_modules(diagnose::blamed(tail), rows, reason);
    let e = diagnose::diagnosis(tail, bundle, user)[i];
    assert(diagnose::suspects(diagnose::blamed(tail), rows, reason)[i] == e);
    blamed_by_a_line(tail, e.module);
}

proof fn blamed_by_a_line(tail: Seq<Seq<char>>, m: Seq<char>)
    requires
        diagnose::blamed(tail).contains(m),
    ensures
        exists|j: int| 0 <= j < tail.len() && diagnose::modules_in(#[trigger] tail[j]).contains(m),
    decreases tail.len(),
{
    let all = diagnose::blamed(tail);
    let k = choose|k: int| 0 <= k < all.len() && all[k] == m;
    let here = diagnose::modules_in(tail.last());
    let front = diagnose::blamed(tail.drop_last());
    if k < here.len() {
        assert(here[k] == m);
        assert(diagnose::modules_in(tail[tail.len() - 1]).contains(m));
    } else {
        assert(front[k - here.len()] == m);
        blamed_by_a_line(tail.drop_last(), m);
        let w = tail.drop_last();
        let j = choose|j: int|
            0 <= j < w.len() && diagnose::modules_in(#[trigger] w[j]).contains(m);
        assert(tail[j] == w[j]);
    }
}

/// A line that names nothing makes no difference to which plugins a diagnosis names.
pub proof fn silent_lines_make_no_difference(
    before: Seq<Seq<char>>,
    line: Seq<char>,
    after: Seq<Seq<char>>,
    bundle: Seq<(Seq<char>, Seq<char>)>,
    user: Option<Seq<char>>,
)
    requires
        names_nothing(line),
    ensures
        ({
            let v = diagnose::diagnosis(before + seq![line] + after, bundle, user);
            let w = diagnose::diagnosis(before + after, bundle, user);
            &&& v.len() == w.len()
            &&& forall|i: int|
                0 <= i < v.len() ==> (#[trigger] v[i]).id == w[i].id && v[i].module == w[i].module
        }),
{
    let rows = diagnose::known_rows(bundle, user);
    nothing_named_nothing_blamed(line);
    blamed_in_two(before, after);
    blamed_in_two(before + seq![line], after);
    blamed_in_two(before, seq![line]);
    assert(seq![line].drop_last() =~= Seq::<Seq<char>>::empty());
    assert(diagnose::blamed(Seq::empty()) =~= Seq::<Seq<char>>::empty());
    assert(diagnose::blamed(seq![line]) =~= Seq::<Seq<char>>::empty());
    assert(diagnose::blamed(seq![line]) + diagnose::blamed(before) =~= diagnose::blamed(before));
    reasons_name_nothing(
        diagnose::blamed(before + after),
        rows,
        diagnose::last_error(before + seq![line] + after),
        diagnose::last_error(before + after),
    );
}

proof fn reasons_name_nothing(
    modules: Seq<Seq<char>>,
    rows: Seq<(Seq<char>, Seq<char>)>,
    a: Seq<char>,
    b: Seq<char>,
)
    ensures
        ({
            let v = diagnose::suspects(modules, rows, a);
            let w = diagnose::suspects(modules, rows, b);
            &&& v.len() == w.len()
            &&& forall|i: int|
                0 <= i < v.len() ==> (#[trigger] v[i]).id == w[i].id && v[i].module == w[i].module
        }),
    decreases modules.len(),
{
    if modules.len() > 0 {
        let front = modules.drop_last();
        reasons_name_nothing(front, rows, a, b);
        let v = diagnose::suspects(front, rows, a);
        let w = diagnose::suspects(front, rows, b);
        match diagnose::suspect(modules.last(), rows, a) {
            Some(e) => {
                if diagnose::has_entry(v, e.id) {
                    let i = choose|i: int| 0 <= i < v.len() && (#[trigger] v[i]).id == e.id;
                    assert(w[i].id == e.id);
                }
                if diagnose::has_entry(w, e.id) {
                    let i = choose|i: int| 0 <= i < w.len() && (#[trigger] w[i]).id == e.id;
                    assert(v[i].id == e.id);
                }
            },
            None => {},
        }
    }
}

/// Of lines that blame one module each, the last three are diagnosed, the last one first: for each
/// of them the row of its module is named.
pub proof fn latest_plugins_are_named(
    tail: Seq<Seq<char>>,
    modules: Seq<Seq<char>>,
    found: Seq<(Seq<char>, Seq<char>)>,
    bundle: Seq<(Seq<char>, Seq<char>)>,
    user: Option<Seq<char>>,
)
    requires
        tail.len() == modules.len() == found.len(),
        forall|i: int|
            0 <= i < tail.len() ==> diagnose::modules_in(#[trigger] tail[i]) == seq![modules[i]]
                && diagnose::row_of(modules[i], rows_of_both(bundle, user)) == Some(found[i])
                && can_be_disabled(found[i].0),
        forall|i: int, j: int|
            0 <= i < j < tail.len() ==> (#[trigger] found[i]).0 != (#[trigger] found[j]).0,
    ensures
        ({
            let v = diagnose::diagnosis(tail, bundle, user);
            let n = tail.len();
            &&& v.len() == (if n < 3 {
                n as int
            } else {
                3
            })
            &&& forall|i: int|
                0 <= i < v.len() ==> (#[trigger] v[i]).id == found[n - 1 - i].0 && v[i].module
                    == modules[n - 1 - i]
        }),
{
    known_rows_are_both(bundle, user);
    let rows = rows_of_both(bundle, user);
    let n = tail.len();
    let all = diagnose::blamed(tail);
    one_module_each(tail, modules);
    let back = Seq::new(n, |i: int| found[n - 1 - i]);
    assert forall|i: int| 0 <= i < n implies diagnose::row_of(#[trigger] all[i], rows) == Some(
        back[i],
    ) && can_be_disabled(back[i].0) by {
        assert(diagnose::modules_in(tail[n - 1 - i]) == seq![modules[n - 1 - i]]);
    }
    assert forall|i: int, j: int| 0 <= i < j < n implies (#[trigger] back[i]).0 != (
    #[trigger] back[j]).0 by {
        assert(found[n - 1 - j].0 != found[n - 1 - i].0);
    }
    one_entry_each(all, back, rows, diagnose::last_error(tail));
}

proof fn one_module_each(tail: Seq<Seq<char>>, modules: Seq<Seq<char>>)
    requires
        tail.len() == modules.len(),
        forall|i: int|
            0 <= i < tail.len() ==> diagnose::modules_in(#[trigger] tail[i]) == seq![modules[i]],
    ensures
        diagnose::blamed(tail).len() == tail.len(),
        forall|i: int|
            0 <= i < tail.len() ==> #[trigger] diagnose::blamed(tail)[i] == modules[tail.len() - 1
                - i],
    decreases tail.len(),
{
    if tail.len() > 0 {
        let t = tail.drop_last();
        let m = modules.drop_last();
        assert forall|i: int| 0 <= i < t.len() implies diagnose::modules_in(#[trigger] t[i])
            == seq![m[i]] by {
            assert(t[i] == tail[i]);
        }
        one_module_each(t, m);
        assert(diagnose::modules_in(tail[tail.len() - 1]) == seq![modules.last()]);
        let all = diagnose::blamed(tail);
        assert(all == seq![modules.last()] + diagnose::blamed(t));
        assert forall|i: int| 0 <= i < tail.len() implies #[trigger] all[i] == modules[tail.len() - 1
            - i] by {
            if i > 0 {
                assert(all[i] == diagnose::blamed(t)[i - 1]);
            }
        }
    }
}

proof fn one_entry_each(
    modules: Seq<Seq<char>>,
    found: Seq<(Seq<char>, Seq<char>)>,
    rows: Seq<(Seq<char>, Seq<char>)>,
    reason: Seq<char>,
)
    requires
        modules.len() == found.len(),
        forall|i: int|
            0 <= i < modules.len() ==> diagnose::row_of(#[trigger] modules[i], rows) == Some(
                found[i],
            ) && can_be_disabled(found[i].0),
        forall|i: int, j: int|
            0 <= i < j < found.len() ==> (#[trigger] found[i]).0 != (#[trigger] found[j]).0,
    ensures
        ({
            let v = diagnose::suspects(modules, rows, reason);
            &&& v.len() == modules.len()
            &&& forall|i: int|
                0 <= i < v.len() ==> (#[trigger] v[i]).id == found[i].0 && v[i].module == modules[i]
        }),
    decreases modules.len(),
{
    let v = diagnose::suspects(modules, rows, reason);
    if modules.len() > 0 {
        let m = modules.drop_last();
        let f = found.drop_last();
        assert forall|i: int| 0 <= i < m.len() implies diagnose::row_of(#[trigger] m[i], rows)
            == Some(f[i]) && can_be_disabled(f[i].0) by {
            assert(m[i] == modules[i]);
        }
        assert forall|i: int, j: int| 0 <= i < j < f.len() implies (#[trigger] f[i]).0 != (
        #[trigger] f[j]).0 by {
            assert(found[i].0 != found[j].0);
        }
        one_entry_each(m, f, rows, reason);
        let w = diagnose::suspects(m, rows, reason);
        let last = modules.len() - 1;
        assert(diagnose::row_of(modules[last], rows) == Some(found[last]));
        core_rows_are_these(found[last].0);
        assert(!diagnose::has_entry(w, found[last].0)) by {
            if diagnose::has_entry(w, found[last].0) {
                let i = choose|i: int| 0 <= i < w.len() && (#[trigger] w[i]).id == found[last].0;
                assert(found[i].0 != found[last].0);
                assert(w[i].id == f[i].0);
            }
        }
    } else {
        assert(v.len() == 0);
    }
}

/// The plugin that the last line of the output blames is named first: the first row that has the
/// name that the line quotes, where it can be disabled. A tail of that one line names nothing else.
pub proof fn quoted_module_is_diagnosed(
    before: Seq<Seq<char>>,
    a: Seq<char>,
    m: Seq<char>,
    bundle: Seq<(Seq<char>, Seq<char>)>,
    user: Option<Seq<char>>,
    k: int,
)
    requires
        names_nothing(a),
        m.len() > 0,
        !m.contains('\''),
        !text::contains(m, "node_modules/"@),
        0 <= k < rows_of_both(bundle, user).len(),
        rows_of_both(bundle, user)[k].1 == m,
        forall|j: int| 0 <= j < k ==> (#[trigger] rows_of_both(bundle, user)[j]).1 != m,
        can_be_disabled(rows_of_both(bundle, user)[k].0),
    ensures
        is_diagnosed_first(
            before,
            a + "Cannot find module '"@ + m + seq!['\''],
            bundle,
            user,
            rows_of_both(bundle, user)[k].0,
            m,
        ),
        is_diagnosed_first(
            before,
            a + "Cannot find package '"@ + m + seq!['\''],
            bundle,
            user,
            rows_of_both(bundle, user)[k].0,
            m,
        ),
        is_diagnosed_first(
            before,
            a + "load plugin '"@ + m + seq!['\''],
            bundle,
            user,
            rows_of_both(bundle, user)[k].0,
            m,
        ),
{
    let none = Seq::<char>::empty();
    let x = a + "Cannot find module '"@ + m + seq!['\''];
    let y = a + "Cannot find package '"@ + m + seq!['\''];
    let z = a + "load plugin '"@ + m + seq!['\''];
    assert(x + none =~= x && y + none =~= y && z + none =~= z);
    empty_names_nothing();
    quoted_module_is_blamed(a, m, none);
    row_of_module(m, rows_of_both(bundle, user), k);
    let row = rows_of_both(bundle, user)[k];
    last_line_comes_first(before, x, bundle, user, row, m);
    last_line_comes_first(before, y, bundle, user, row, m);
    last_line_comes_first(before, z, bundle, user, row, m);
}

/// Whether a diagnosis of output that ends with `line` names this row first, and nothing else where
/// the output is that one line.
pub open spec fn is_diagnosed_first(
    before: Seq<Seq<char>>,
    line: Seq<char>,
    bundle: Seq<(Seq<char>, Seq<char>)>,
    user: Option<Seq<char>>,
    id: Seq<char>,
    module: Seq<char>,
) -> bool {
    let v = diagnose::diagnosis(before.push(line), bundle, user);
    let w = diagnose::diagnosis(seq![line], bundle, user);
    &&& v.len() > 0 && v[0].id == id && v[0].module == module
    &&& w.len() == 1 && w[0].id == id && w[0].module == module
}

proof fn last_line_comes_first(
    before: Seq<Seq<char>>,
    line: Seq<char>,
    bundle: Seq<(Seq<char>, Seq<char>)>,
    user: Option<Seq<char>>,
    row: (Seq<char>, Seq<char>),
    m: Seq<char>,
)
    requires
        diagnose::modules_in(line) == seq![m],
        diagnose::row_of(m, rows_of_both(bundle, user)) == Some(row),
        can_be_disabled(row.0),
    ensures
        is_diagnosed_first(before, line, bundle, user, row.0, m),
{
    known_rows_are_both(bundle, user);
    let rows = rows_of_both(bundle, user);
    latest_plugins_are_named(seq![line], seq![m], seq![row], bundle, user);
    let all = before.push(line);
    assert(all.drop_last() =~= before);
    let reason = diagnose::last_error(all);
    let back = diagnose::blamed(before);
    assert(diagnose::blamed(all) == seq![m] + back);
    diagnose::suspects_in_two(seq![m], back, rows, reason);
    one_entry_each(seq![m], seq![row], rows, reason);
    let t = diagnose::suspects(seq![m] + back, rows, reason);
    assert(t.take(1)[0] == t[0]);
    assert(diagnose::diagnosis(all, bundle, user)[0] == t[0]);
}

/// The reason of every entry is the last line that reports an error, without the white space around
/// it and cut off behind 160 characters.
pub proof fn reason_is_the_last_error(
    before: Seq<Seq<char>>,
    a: Seq<char>,
    core: Seq<char>,
    b: Seq<char>,
    after: Seq<Seq<char>>,
    bundle: Seq<(Seq<char>, Seq<char>)>,
    user: Option<Seq<char>>,
    i: int,
)
    requires
        text_laws::is_blank(a),
        text_laws::is_blank(b),
        text_laws::is_trimmed(core),
        reports_error(core),
        forall|j: int| 0 <= j < after.len() ==> !reports_error(#[trigger] after[j]),
        0 <= i < diagnose::diagnosis(before + seq![a + core + b] + after, bundle, user).len(),
    ensures
        diagnose::diagnosis(before + seq![a + core + b] + after, bundle, user)[i].reason == (
        if core.len() <= 160 {
            core
        } else {
            core.take(160)
        }),
{
    let line = a + core + b;
    let tail = before + seq![line] + after;
    text_laws::trim_takes_the_ends(a, core, b);
    assert(core.len() > 0) by {
        reveal_strlit("Error");
        reveal_strlit("ERROR");
        reveal_strlit("error:");
    }
    last_error_is_last(before, line, after);
    let reason = diagnose::last_error(tail);
    let rows = diagnose::known_rows(bundle, user);
    entries_come_from_modules(diagnose::blamed(tail), rows, reason);
    let v = diagnose::diagnosis(tail, bundle, user);
    assert(diagnose::suspects(diagnose::blamed(tail), rows, reason)[i] == v[i]);
}

/// Whether a line reports an error.
pub open spec fn reports_error(line: Seq<char>) -> bool {
    text::contains(line, "Error"@) || text::contains(line, "ERROR"@) || text::contains(
        line,
        "error:"@,
    )
}

proof fn last_error_is_last(before: Seq<Seq<char>>, line: Seq<char>, after: Seq<Seq<char>>)
    requires
        reports_error(text::trim(line)),
        forall|j: int| 0 <= j < after.len() ==> !reports_error(#[trigger] after[j]),
    ensures
        diagnose::last_error(before + seq![line] + after) == (if text::trim(line).len() <= 160 {
            text::trim(line)
        } else {
            text::trim(line).take(160)
        }),
    decreases after.len(),
{
    let tail = before + seq![line] + after;
    if after.len() == 0 {
        assert(tail.last() == line);
    } else {
        let rest = after.drop_last();
        assert forall|j: int| 0 <= j < rest.len() implies !reports_error(#[trigger] rest[j]) by {
            assert(rest[j] == after[j]);
        }
        last_error_is_last(before, line, rest);
        assert(tail.drop_last() =~= before + seq![line] + rest);
        let last = after[after.len() - 1];
        assert(tail.last() == last);
        no_error_in(last);
    }
}

proof fn no_error_in(line: Seq<char>)
    requires
        !reports_error(line),
    ensures
        !diagnose::is_error_line(line),
{
    let t = text::trim(line);
    if text::contains(t, "Error"@) {
        text_laws::trimmed_pattern_was_there(line, "Error"@);
    }
    if text::contains(t, "ERROR"@) {
        text_laws::trimmed_pattern_was_there(line, "ERROR"@);
    }
    if text::contains(t, "error:"@) {
        text_laws::trimmed_pattern_was_there(line, "error:"@);
    }
}

/// Where no line reports an error, the reason of an entry tells which module was not loaded.
pub proof fn reason_without_an_error(
    tail: Seq<Seq<char>>,
    bundle: Seq<(Seq<char>, Seq<char>)>,
    user: Option<Seq<char>>,
    i: int,
)
    requires
        forall|j: int| 0 <= j < tail.len() ==> !reports_error(#[trigger] tail[j]),
        0 <= i < diagnose::diagnosis(tail, bundle, user).len(),
    ensures
        diagnose::diagnosis(tail, bundle, user)[i].reason == "failed to load "@
            + diagnose::diagnosis(tail, bundle, user)[i].module,
{
    no_last_error(tail);
    let rows = diagnose::known_rows(bundle, user);
    let reason = diagnose::last_error(tail);
    entries_come_from_modules(diagnose::blamed(tail), rows, reason);
    let v = diagnose::diagnosis(tail, bundle, user);
    assert(diagnose::suspects(diagnose::blamed(tail), rows, reason)[i] == v[i]);
}

proof fn no_last_error(tail: Seq<Seq<char>>)
    requires
        forall|j: int| 0 <= j < tail.len() ==> !reports_error(#[trigger] tail[j]),
    ensures
        diagnose::last_error(tail).len() == 0,
    decreases tail.len(),
{
    if tail.len() > 0 {
        let front = tail.drop_last();
        assert forall|j: int| 0 <= j < front.len() implies !reports_error(#[trigger] front[j]) by {
            assert(front[j] == tail[j]);
        }
        no_last_error(front);
        no_error_in(tail[tail.len() - 1]);
    }
}

} // verus!
