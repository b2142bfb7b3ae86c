//! What is promised of the Node.js that is found or installed, in terms of what the machine has.

use crate::download;
use crate::environment;
use crate::environment::{FoundNpx, Probe};
use crate::event::EventView;
use crate::number;
use crate::release;
use crate::text;
use crate::text::CharClass;
use crate::text_laws;
use vstd::prelude::*;

verus! {

// ---- versions -------------------------------------------------------------------------------

/// Version 22.15 of Node.js and every later one are new enough, and no earlier one is.
pub proof fn least_version_is_new_enough(major: nat, minor: nat, patch: nat)
    ensures
        environment::is_new_enough((major, minor, patch)) <==> major > 22 || (major == 22 && minor
            >= 15),
{
}

/// The version that Node.js says it has is read, with or without the letter that it begins with, and
/// with white space around it; the third number may be missing, and what follows its digits does not
/// count.
pub proof fn told_version_is_read(
    x: Seq<char>,
    a: nat,
    b: nat,
    c: nat,
    suffix: Seq<char>,
    y: Seq<char>,
)
    requires
        text_laws::is_blank(x),
        text_laws::is_blank(y),
        a <= u32::MAX,
        b <= u32::MAX,
        c <= u32::MAX,
        suffix.len() > 0 ==> !('0' <= suffix[0] && suffix[0] <= '9') && !text::is_white_space(
            suffix.last(),
        ),
    ensures
        environment::node_version_of(x + (release::written(a, b, c) + suffix) + y) == Some((a, b, c)),
        environment::node_version_of(x + (seq!['v'] + release::written(a, b, c) + suffix) + y)
            == Some((a, b, c)),
        environment::node_version_of(
            x + (number::decimal(a) + seq!['.'] + number::decimal(b)) + y,
        ) == Some((a, b, 0nat)),
{
    let w = release::written(a, b, c);
    let s = w + suffix;
    let t = seq!['v'] + w + suffix;
    let k = CharClass::Is('v');
    release::digits_are_plain(a);
    release::digits_are_plain(b);
    release::digits_are_plain(c);
    assert(w[0] == number::decimal(a)[0]);
    assert(w.last() == number::decimal(c).last());
    if suffix.len() > 0 {
        assert(s.last() == suffix.last() && t.last() == suffix.last());
    } else {
        assert(s =~= w);
        assert(t =~= seq!['v'] + w);
        assert(t.last() == w.last());
    }
    assert(s[0] == w[0]);
    assert(t[1] == w[0]);
    text_laws::trim_takes_the_ends(x, s, y);
    text_laws::trim_takes_the_ends(x, t, y);
    text::run_is(s, k, 0);
    assert(s.skip(0) =~= s);
    text::run_is(t, k, 1);
    assert(t.skip(1) =~= s);
    release::parts_read_back(a, b, c, suffix);
    node_numbers(a, b, c, suffix);
    let two = number::decimal(a) + seq!['.'] + number::decimal(b);
    assert(two[0] == number::decimal(a)[0]);
    assert(two.last() == number::decimal(b).last());
    text_laws::trim_takes_the_ends(x, two, y);
    text::run_is(two, k, 0);
    assert(two.skip(0) =~= two);
    two_numbers(a, b);
}

/// One number alone is no version of Node.js.
pub proof fn one_number_is_no_version(s: Seq<char>)
    requires
        !s.contains('.'),
    ensures
        environment::node_version_of(s) is None,
{
    let (a, b) = text_laws::trim_leaves_the_middle(s);
    let t = text::trim(s);
    let k = CharClass::Is('.');
    let u = text::trim_start_of(t, CharClass::Is('v'));
    text::run_bounds(t, CharClass::Is('v'));
    assert forall|i: int| 0 <= i < u.len() implies !k.has(#[trigger] u[i]) by {
        let n = t.len() - u.len();
        assert(u[i] == t[n + i]);
        assert(s[a.len() + n + i] == t[n + i]);
        assert(s.contains(s[a.len() + n + i]));
    }
    text::first_of_is(u, k, u.len());
}

proof fn node_numbers(a: nat, b: nat, c: nat, suffix: Seq<char>)
    requires
        a <= u32::MAX,
        b <= u32::MAX,
        c <= u32::MAX,
        suffix.len() > 0 ==> CharClass::NonDigit.has(suffix[0]),
    ensures
        ({
            let parts = text::split(release::written(a, b, c) + suffix, CharClass::Is('.'));
            &&& parts.len() > 2
            &&& number::unsigned_value(parts[0], 10, u32::MAX as nat) == Some(a)
            &&& number::unsigned_value(parts[1], 10, u32::MAX as nat) == Some(b)
            &&& number::unsigned_value(release::leading_digits(parts[2]), 10, u32::MAX as nat)
                == Some(c)
        }),
{
    release::parts_of_written(a, b, c, suffix);
    number::decimal_reads_back(a);
    number::decimal_reads_back(b);
    number::decimal_reads_back(c);
}

proof fn two_numbers(a: nat, b: nat)
    requires
        a <= u32::MAX,
        b <= u32::MAX,
    ensures
        ({
            let parts = text::split(
                number::decimal(a) + seq!['.'] + number::decimal(b),
                CharClass::Is('.'),
            );
            &&& parts.len() == 2
            &&& number::unsigned_value(parts[0], 10, u32::MAX as nat) == Some(a)
            &&& number::unsigned_value(parts[1], 10, u32::MAX as nat) == Some(b)
        }),
{
    let k = CharClass::Is('.');
    release::digits_are_plain(a);
    release::digits_are_plain(b);
    let x = number::decimal(a);
    let y = number::decimal(b);
    assert forall|i: int| 0 <= i < x.len() implies !k.has(#[trigger] x[i]) by {}
    assert forall|i: int| 0 <= i < y.len() implies !k.has(#[trigger] y[i]) by {}
    text_laws::split_takes_apart(x, '.', y, k);
    text_laws::split_takes_apart(y, '.', Seq::empty(), k);
    assert(seq![x] + seq![y] =~= seq![x, y]);
    number::decimal_reads_back(a);
    number::decimal_reads_back(b);
}

// ---- npx ------------------------------------------------------------------------------------

/// A place is known to be new enough where it has an `npx` whose Node.js tells a version from 22.15
/// on.
pub proof fn usable_places_are_these(p: Probe)
    ensures
        environment::is_usable(p) <==> p.exists && match p.version {
            Some(v) => v.0 > 22 || (v.0 == 22 && v.1 >= 15),
            None => false,
        },
{
}

/// The `npx` that was found is used where the user named it, where its version is new enough, and
/// where its version cannot be told; where none was found, or only one that is too old, Node.js is
/// installed.
pub proof fn found_npx_is_used(f: FoundNpx)
    ensures
        f.given ==> environment::is_used(Some(f)),
        f.version is None ==> environment::is_used(Some(f)),
        !f.given ==> match f.version {
            Some(v) => environment::is_used(Some(f)) <==> v.0 > 22 || (v.0 == 22 && v.1 >= 15),
            None => true,
        },
        !environment::is_used(None),
{
}

/// The check tells where the `npx` is, and whether the service can start or Node.js is installed.
pub proof fn check_is_told(f: FoundNpx)
    ensures
        match environment::check_events(Some(f))[0] {
            EventView::Term(line) => text::contains(line, f.path@),
            _ => false,
        },
        environment::is_used(Some(f)) ==> environment::check_events(Some(f)).len() == 3
            && environment::check_events(Some(f))[2] == EventView::Term(
            "✓ 运行环境就绪，准备启动服务…\r\n"@,
        ),
        !environment::is_used(Some(f)) ==> environment::check_events(Some(f)).len() == 4
            && environment::check_events(Some(f))[3] == EventView::Status(
            "正在准备自动安装 Node.js 运行环境…"@,
        ),
        environment::check_events(None).len() == 4,
        environment::check_events(None)[0] == EventView::Term(
            "✗ Node.js 运行环境 (npx)\r\n    本机未安装\r\n"@,
        ),
        environment::check_events(None)[2] == EventView::Term(
            "✗ "@ + "本机缺少 Node.js，正在自动下载并安装便携版…"@ + "\r\n"@,
        ),
        environment::check_events(None)[3] == EventView::Status(
            "正在准备自动安装 Node.js 运行环境…"@,
        ),
{
    let line = environment::node_line(Some(f));
    let good = "✓ Node.js 运行环境 (npx)\r\n    已找到: "@;
    let bad = "✗ 已检测到 Node.js，但版本过低\r\n    已找到: "@;
    match f.version {
        Some(v) => {
            let t = environment::version_text(release::as_nats(v));
            let a = " (Node v"@ + t + ")\r\n"@;
            let b = " (Node v"@ + t + ")，需 >= v"@ + number::decimal(22) + "."@ + number::decimal(
                15,
            ) + "\r\n"@;
            if f.given || environment::is_new_enough(release::as_nats(v)) {
                assert(line =~= good + f.path@ + a);
                text_laws::holds_pattern(good, f.path@, a);
            } else {
                assert(line =~= bad + f.path@ + b);
                text_laws::holds_pattern(bad, f.path@, b);
            }
        },
        None => {
            text_laws::holds_pattern(good, f.path@, "（未能检测版本，将尝试使用）\r\n"@);
        },
    }
}

/// Where the version is known, the check tells it, with its three numbers; of one that is too old,
/// it is told twice: as what was found, and as the reason to install another.
pub proof fn found_version_is_told(f: FoundNpx, v: (u32, u32, u32))
    requires
        f.version == Some(v),
    ensures
        tells_version(environment::check_events(Some(f))[0], v),
        !f.given && !(v.0 > 22 || (v.0 == 22 && v.1 >= 15)) ==> tells_version(
            environment::check_events(Some(f))[2],
            v,
        ),
{
    let found = Some(f);
    let t = release::written(v.0 as nat, v.1 as nat, v.2 as nat);
    reveal_strlit(".");
    assert("."@ =~= seq!['.']);
    assert(environment::version_text(release::as_nats(v)) =~= t);
    let line = environment::node_line(found);
    let good = "✓ Node.js 运行环境 (npx)\r\n    已找到: "@ + f.path@ + " (Node v"@;
    let bad = "✗ 已检测到 Node.js，但版本过低\r\n    已找到: "@ + f.path@ + " (Node v"@;
    if f.given || environment::is_new_enough(release::as_nats(v)) {
        text_laws::holds_pattern(good, t, ")\r\n"@);
    } else {
        let b = ")，需 >= v"@ + number::decimal(22) + "."@ + number::decimal(15) + "\r\n"@;
        assert(line =~= bad + t + b);
        text_laws::holds_pattern(bad, t, b);
        let why = "✗ "@ + environment::install_reason(found) + "\r\n"@;
        let x = "✗ "@ + "Node.js 版本过低 (v"@;
        let y = ")，正在自动下载兼容的便携版 Node v"@ + environment::NODE_VERSION@ + "…"@ + "\r\n"@;
        assert(why =~= x + t + y);
        text_laws::holds_pattern(x, t, y);
    }
}

/// Whether an event shows a version with its three numbers.
pub open spec fn tells_version(e: EventView, v: (u32, u32, u32)) -> bool {
    match e {
        EventView::Term(line) => text::contains(
            line,
            release::written(v.0 as nat, v.1 as nat, v.2 as nat),
        ),
        _ => false,
    }
}

/// `npx` is looked for where most installers put it, then in every version of nvm, then in each
/// directory of the search path that is not empty, in that order.
pub proof fn npx_is_looked_for_in_order(nvm: Seq<Seq<char>>, path: Option<Seq<char>>, i: int)
    requires
        0 <= i < nvm.len(),
    ensures
        ({
            let c = environment::candidate_paths(nvm, path);
            &&& c.len() >= 4 + nvm.len()
            &&& c[0] == seq!["/usr/local/bin/npx"@]
            &&& c[1] == seq!["/opt/homebrew/bin/npx"@]
            &&& c[2] == seq!["/usr/bin/npx"@]
            &&& c[3] == seq!["/Users/shaipe/.workbuddy/binaries/node/versions/22.22.2/bin/npx"@]
            &&& c[4 + i] == seq![nvm[i], "bin/npx"@]
            &&& path is None ==> c.len() == 4 + nvm.len()
            &&& path is Some ==> c.skip(4 + nvm.len() as int) == environment::path_candidates(
                text::split(path->0, CharClass::Is(':')),
            )
        }),
{
    let c = environment::candidate_paths(nvm, path);
    let known = seq![
        seq!["/usr/local/bin/npx"@],
        seq!["/opt/homebrew/bin/npx"@],
        seq!["/usr/bin/npx"@],
        seq!["/Users/shaipe/.workbuddy/binaries/node/versions/22.22.2/bin/npx"@],
    ];
    let versions = Seq::new(nvm.len(), |j: int| seq![nvm[j], "bin/npx"@]);
    assert(c[4 + i] == versions[i]);
    match path {
        Some(p) => {
            let dirs = environment::path_candidates(text::split(p, CharClass::Is(':')));
            assert(c == known + versions + dirs);
            assert(c.skip(4 + nvm.len() as int) =~= dirs);
        },
        None => {
            assert(c == known + versions + Seq::<Seq<Seq<char>>>::empty());
        },
    }
}

/// The directories of the search path are taken one by one.
pub proof fn directories_are_taken(dirs: Seq<Seq<char>>, dir: Seq<char>)
    ensures
        environment::path_candidates(Seq::empty()) == Seq::<Seq<Seq<char>>>::empty(),
        environment::path_candidates(dirs.push(dir)) == (if dir.len() > 0 {
            environment::path_candidates(dirs).push(seq![dir, "npx"@])
        } else {
            environment::path_candidates(dirs)
        }),
{
    assert(dirs.push(dir).drop_last() =~= dirs);
    assert(environment::path_candidates(Seq::empty()) =~= Seq::<Seq<Seq<char>>>::empty());
}

// ---- the installation -----------------------------------------------------------------------

/// Platforms have these names in the packages of Node.js.
pub proof fn platforms_are_named(other: Seq<char>)
    ensures
        environment::node_os("macos"@) == "darwin"@,
        environment::node_os("windows"@) == "win"@,
        environment::node_os("linux"@) == "linux"@,
        other != "macos"@ && other != "windows"@ ==> environment::node_os(other) == other,
        environment::node_arch("aarch64"@) == "arm64"@,
        environment::node_arch("x86_64"@) == "x64"@,
        environment::node_arch("arm"@) == "armv7l"@,
        other != "aarch64"@ && other != "x86_64"@ && other != "arm"@ ==> environment::node_arch(
            other,
        ) == other,
        environment::archive_ext(true) == "zip"@,
        environment::archive_ext(false) == "tar.gz"@,
{
    reveal_strlit("macos");
    reveal_strlit("windows");
    reveal_strlit("linux");
    reveal_strlit("aarch64");
    reveal_strlit("x86_64");
    reveal_strlit("arm");
    assert("linux"@[0] == 'l' && "macos"@[0] == 'm');
    assert("windows"@.len() == 7 && "linux"@.len() == 5 && "macos"@.len() == 5);
    assert("aarch64"@.len() == 7 && "x86_64"@.len() == 6 && "arm"@.len() == 3);
}

/// Downloads go to the directory of the user, which has to be known but on Windows.
pub proof fn downloads_go_to_the_user(
    dir: Seq<char>,
    home: Option<Seq<char>>,
    local: Option<Seq<char>>,
)
    ensures
        environment::cache_parts(true, Some(dir), home) == Ok::<Seq<Seq<char>>, Seq<char>>(
            seq![dir, "dsh-desktop"@],
        ),
        environment::cache_parts(true, None, home) == Ok::<Seq<Seq<char>>, Seq<char>>(
            seq!["C:\\Users\\Public\\.cache"@, "dsh-desktop"@],
        ),
        environment::cache_parts(false, local, Some(dir)) == Ok::<Seq<Seq<char>>, Seq<char>>(
            seq![dir + "/.cache"@, "dsh-desktop"@],
        ),
        environment::cache_parts(false, local, None) is Err,
{
    let named = environment::cache_parts(true, Some(dir), home);
    assert(named is Ok && named->Ok_0 =~= seq![dir, "dsh-desktop"@]);
    let common = environment::cache_parts(true, None, home);
    assert(common is Ok && common->Ok_0 =~= seq!["C:\\Users\\Public\\.cache"@, "dsh-desktop"@]);
}

/// The length of a download is the one that the last header for it tells, in small letters or in
/// capitals; headers for other things do not count.
pub proof fn last_length_counts(
    before: Seq<Seq<char>>,
    name: Seq<char>,
    a: Seq<char>,
    n: nat,
    b: Seq<char>,
    after: Seq<Seq<char>>,
)
    requires
        text::ascii_lowercase(name) == "content-length:"@,
        text_laws::is_blank(a),
        text_laws::is_blank(b),
        n <= u64::MAX,
        forall|i: int| 0 <= i < after.len() ==> is_other_header(#[trigger] after[i]),
    ensures
        environment::told_length(before + seq![name + (a + number::decimal(n) + b)] + after) == Some(
            n,
        ),
        environment::told_length(after) is None,
    decreases after.len(),
{
    let line = name + (a + number::decimal(n) + b);
    let all = before + seq![line] + after;
    if after.len() == 0 {
        assert(all.last() == line);
        length_is_read(name, a, n, b);
    } else {
        let rest = after.drop_last();
        assert forall|i: int| 0 <= i < rest.len() implies is_other_header(#[trigger] rest[i]) by {
            assert(rest[i] == after[i]);
        }
        last_length_counts(before, name, a, n, b, rest);
        assert(all.drop_last() =~= before + seq![line] + rest);
        let last = after[after.len() - 1];
        assert(all.last() == last);
        assert(is_other_header(last));
        text_laws::starts_with_is_concatenation(text::ascii_lowercase(last), "content-length:"@);
    }
}

/// Whether a header is for something else than the length.
pub open spec fn is_other_header(line: Seq<char>) -> bool {
    forall|x: Seq<char>| text::ascii_lowercase(line) != #[trigger] ("content-length:"@ + x)
}

proof fn length_is_read(name: Seq<char>, a: Seq<char>, n: nat, b: Seq<char>)
    requires
        text::ascii_lowercase(name) == "content-length:"@,
        text_laws::is_blank(a),
        text_laws::is_blank(b),
        n <= u64::MAX,
    ensures
        ({
            let line = name + (a + number::decimal(n) + b);
            match text::after_prefix(text::ascii_lowercase(line), "content-length:"@) {
                Some(v) => number::unsigned_value(text::trim(v), 10, u64::MAX as nat) == Some(n),
                None => false,
            }
        }),
{
    let d = number::decimal(n);
    let value = a + d + b;
    let line = name + value;
    let p = "content-length:"@;
    release::digits_are_plain(n);
    let low = text::ascii_lowercase(line);
    assert(value =~= text::ascii_lowercase(value)) by {
        assert forall|i: int| 0 <= i < value.len() implies text::ascii_lower(value[i]) == value[i] by {
            if i < a.len() {
                assert(value[i] == a[i]);
                assert(text::is_white_space(a[i]));
            } else if i < a.len() + d.len() {
                assert(value[i] == d[i - a.len()]);
            } else {
                assert(value[i] == b[i - a.len() - d.len()]);
                assert(text::is_white_space(b[i - a.len() - d.len()]));
            }
        }
    }
    assert(name.len() == p.len());
    assert(low =~= p + value) by {
        assert forall|i: int| 0 <= i < low.len() implies low[i] == (p + value)[i] by {
            if i < name.len() {
                assert(line[i] == name[i]);
                assert(text::ascii_lowercase(name)[i] == p[i]);
            } else {
                assert(line[i] == value[i - name.len()]);
                assert(text::ascii_lowercase(value)[i - name.len()] == value[i - name.len()]);
            }
        }
    }
    assert(low.subrange(0, p.len() as int) =~= p);
    assert(low.skip(p.len() as int) =~= value);
    text_laws::trim_takes_the_ends(a, d, b);
    number::decimal_reads_back(n);
}

/// The progress of the installation is shown in percent, of which the last is left for the end; it
/// is shown without a number where the size is not known.
pub proof fn installation_progress_is_shown(pct: int)
    ensures
        0 <= pct <= 99 ==> environment::pct_events(pct) == seq![
            EventView::Term("  下载进度 "@ + download::three_places(pct as nat) + "%\r"@),
            EventView::Status("正在下载 Node.js 运行环境… "@ + number::decimal(pct as nat) + "%"@),
        ],
        pct > 99 ==> environment::pct_events(pct) == environment::pct_events(99),
        pct < 0 ==> environment::pct_events(pct) == seq![
            EventView::Term("  下载中…\r"@),
            EventView::Status("正在下载 Node.js 运行环境…"@),
        ],
{
}

/// A percentage is shown once, and again only after another.
pub proof fn same_percentage_is_shown_once(last: int, pct: int)
    ensures
        environment::changed_pct_events(pct, pct).len() == 0,
        last != pct ==> environment::changed_pct_events(last, pct).len() == 2
            && environment::changed_pct_events(last, pct) == environment::pct_events(pct),
{
}

/// A number takes three places, with spaces before it.
pub proof fn numbers_take_three_places(n: nat)
    requires
        n < 1000,
    ensures
        download::three_places(n).len() == 3,
        n < 10 ==> download::three_places(n) == seq![' ', ' '] + number::decimal(n),
        10 <= n < 100 ==> download::three_places(n) == seq![' '] + number::decimal(n),
        n >= 100 ==> download::three_places(n) == number::decimal(n),
{
    reveal_strlit("  ");
    reveal_strlit(" ");
    assert("  "@ =~= seq![' ', ' ']);
    assert(" "@ =~= seq![' ']);
    reveal_with_fuel(number::decimal, 3);
}

} // verus!
