//! The environment that the command needs: a Node.js that is new enough, found or installed.

use crate::download;
use crate::event;
use crate::event::{EventView, UserEvent};
use crate::number;
use crate::profile;
use crate::release;
use crate::text;
use crate::text::CharClass;
use crate::utf8;
use vstd::prelude::*;
use vstd::slice::*;
use vstd::string::*;

verus! {

/// The version of Node.js that is installed where none is found.
pub const NODE_VERSION: &'static str = "22.23.2";

/// Where Node.js is downloaded from.
pub const NODE_MIRROR: &'static str = "https://cdn.npmmirror.com/binaries/node";

/// The least version of Node.js that the service runs on: its first number.
pub const MIN_NODE_MAJOR: u32 = 22;

/// The least version of Node.js that the service runs on: its second number.
pub const MIN_NODE_MINOR: u32 = 15;

// ---- versions of Node.js --------------------------------------------------------------------

/// Whether a version of Node.js is new enough.
pub open spec fn is_new_enough(v: (nat, nat, nat)) -> bool {
    v.0 > MIN_NODE_MAJOR || (v.0 == MIN_NODE_MAJOR && v.1 >= MIN_NODE_MINOR)
}

/// Tests whether a version of Node.js is new enough.
pub fn node_meets_min(v: (u32, u32, u32)) -> (r: bool)
    ensures
        r == is_new_enough(release::as_nats(v)),
{
    v.0 > MIN_NODE_MAJOR || (v.0 == MIN_NODE_MAJOR && v.1 >= MIN_NODE_MINOR)
}

/// The version that Node.js says it has, such as `v20.9.0`. Two numbers are needed; of the third
/// only the leading digits count, and it is zero where it has none.
pub open spec fn node_version_of(s: Seq<char>) -> Option<(nat, nat, nat)> {
    let parts = text::split(
        text::trim_start_of(text::trim(s), CharClass::Is('v')),
        CharClass::Is('.'),
    );
    if parts.len() < 2 {
        None
    } else {
        let patch = if parts.len() > 2 {
            match number::unsigned_value(release::leading_digits(parts[2]), 10, u32::MAX as nat) {
                Some(n) => n,
                None => 0,
            }
        } else {
            0
        };
        match (
            number::unsigned_value(parts[0], 10, u32::MAX as nat),
            number::unsigned_value(parts[1], 10, u32::MAX as nat),
        ) {
            (Some(a), Some(b)) => Some((a, b, patch)),
            _ => None,
        }
    }
}

/// Reads the version that Node.js says it has.
pub fn parse_node_version(s: &str) -> (r: Option<(u32, u32, u32)>)
    ensures
        release::opt_nats(r) == node_version_of(s@),
{
    let cs = text::to_chars(s);
    let t = text::without_start(text::trimmed(cs.as_slice()), CharClass::Is('v'));
    let parts = text::split_at_class(t, CharClass::Is('.'));
    let ghost all = text::pieces(parts@);
    if parts.len() < 2 {
        return None;
    }
    assert(all[0] == parts@[0]@ && all[1] == parts@[1]@);
    let major = number::read_u32(parts[0].as_slice());
    let minor = number::read_u32(parts[1].as_slice());
    let patch: u32 = if parts.len() > 2 {
        assert(all[2] == parts@[2]@);
        let n = text::find_first_of(parts[2].as_slice(), CharClass::NonDigit);
        let digits = slice_subrange(parts[2].as_slice(), 0, n);
        assert(digits@ =~= release::leading_digits(parts@[2]@));
        match number::read_u32(digits) {
            Some(v) => v,
            None => 0,
        }
    } else {
        0
    };
    match (major, minor) {
        (Some(a), Some(b)) => Some((a, b, patch)),
        _ => None,
    }
}

/// Reads the version of Node.js from its output; none if it failed.
pub fn npx_node_version(success: bool, output: &[u8]) -> (r: Option<(u32, u32, u32)>)
    ensures
        release::opt_nats(r) == (if success {
            node_version_of(utf8::lossy_text(output@))
        } else {
            None
        }),
{
    if success {
        let s = utf8::lossy(output);
        parse_node_version(s.as_str())
    } else {
        None
    }
}

// ---- the search for npx ---------------------------------------------------------------------

/// What is known of a place where `npx` may be: whether it is there, and which version its Node.js
/// has where that could be told.
#[derive(Clone, Copy, Debug)]
pub struct Probe {
    pub exists: bool,
    pub version: Option<(u32, u32, u32)>,
}

/// Whether the `npx` in a place is known to be new enough.
pub open spec fn is_usable(p: Probe) -> bool {
    p.exists && match p.version {
        Some(v) => is_new_enough(release::as_nats(v)),
        None => false,
    }
}

/// The first place, at or after `i`, whose `npx` is known to be new enough.
pub open spec fn first_usable(probes: Seq<Probe>, i: int) -> Option<int>
    decreases probes.len() - i,
{
    if i < 0 || i >= probes.len() {
        None
    } else if is_usable(probes[i]) {
        Some(i)
    } else {
        first_usable(probes, i + 1)
    }
}

/// The first place, at or after `i`, that has an `npx`.
pub open spec fn first_existing(probes: Seq<Probe>, i: int) -> Option<int>
    decreases probes.len() - i,
{
    if i < 0 || i >= probes.len() {
        None
    } else if probes[i].exists {
        Some(i)
    } else {
        first_existing(probes, i + 1)
    }
}

/// The place to take `npx` from: the first that is known to be new enough, else the first that has
/// one.
pub open spec fn chosen(probes: Seq<Probe>) -> Option<int> {
    match first_usable(probes, 0) {
        Some(i) => Some(i),
        None => first_existing(probes, 0),
    }
}

/// A search for `npx`, place by place.
#[derive(Clone, Copy, Debug, PartialEq, Eq, Structural)]
pub struct NpxSearch {
    /// How many places were looked at.
    pub seen: usize,
    /// The first place that has an `npx`.
    pub first: Option<usize>,
}

/// A search after one more place, and whether it ends there.
pub open spec fn after_probe(s: NpxSearch, p: Probe) -> (NpxSearch, bool) {
    (
        NpxSearch {
            seen: (s.seen + 1) as usize,
            first: if s.first is None && p.exists {
                Some(s.seen)
            } else {
                s.first
            },
        },
        is_usable(p),
    )
}

impl NpxSearch {
    /// Before the first place.
    pub fn new() -> (r: NpxSearch)
        ensures
            r == (NpxSearch { seen: 0, first: None }),
    {
        NpxSearch { seen: 0, first: None }
    }

    /// Looks at one more place. The search ends there if the result is `true`.
    pub fn consider(&mut self, p: Probe) -> (r: bool)
        requires
            old(self).seen < usize::MAX,
        ensures
            (*final(self), r) == after_probe(*old(self), p),
    {
        if self.first.is_none() && p.exists {
            self.first = Some(self.seen);
        }
        self.seen = self.seen + 1;
        p.exists && match p.version {
            Some(v) => node_meets_min(v),
            None => false,
        }
    }
}

/// Whether a search has looked at these places and has not ended.
pub open spec fn has_seen(s: NpxSearch, probes: Seq<Probe>) -> bool {
    &&& s.seen == probes.len()
    &&& first_usable(probes, 0) is None
    &&& match s.first {
        Some(i) => first_existing(probes, 0) == Some(i as int),
        None => first_existing(probes, 0) is None,
    }
}

proof fn first_usable_of_more(probes: Seq<Probe>, p: Probe, i: int)
    requires
        0 <= i <= probes.len(),
    ensures
        first_usable(probes.push(p), i) == (match first_usable(probes, i) {
            Some(k) => Some(k),
            None => if is_usable(p) {
                Some(probes.len() as int)
            } else {
                None
            },
        }),
    decreases probes.len() - i,
{
    let more = probes.push(p);
    if i < probes.len() {
        assert(more[i] == probes[i]);
        first_usable_of_more(probes, p, i + 1);
    } else {
        assert(more[i] == p);
        assert(first_usable(more, i + 1) is None);
    }
}

proof fn first_existing_of_more(probes: Seq<Probe>, p: Probe, i: int)
    requires
        0 <= i <= probes.len(),
    ensures
        first_existing(probes.push(p), i) == (match first_existing(probes, i) {
            Some(k) => Some(k),
            None => if p.exists {
                Some(probes.len() as int)
            } else {
                None
            },
        }),
    decreases probes.len() - i,
{
    let more = probes.push(p);
    if i < probes.len() {
        assert(more[i] == probes[i]);
        first_existing_of_more(probes, p, i + 1);
    } else {
        assert(more[i] == p);
        assert(first_existing(more, i + 1) is None);
    }
}

/// A search finds the place to take `npx` from: where it ends at a place, that is the one, and
/// where it has seen all places without an end, the first one that has an `npx` is.
pub proof fn search_finds_the_chosen_place(s: NpxSearch, probes: Seq<Probe>, p: Probe)
    requires
        has_seen(s, probes),
        probes.len() < usize::MAX,
    ensures
        ({
            let (t, ends) = after_probe(s, p);
            &&& ends ==> chosen(probes.push(p)) == Some(probes.len() as int)
            &&& !ends ==> has_seen(t, probes.push(p))
        }),
        match s.first {
            Some(i) => chosen(probes) == Some(i as int),
            None => chosen(probes) is None,
        },
        has_seen(NpxSearch { seen: 0, first: None }, Seq::empty()),
{
    first_usable_of_more(probes, p, 0);
    first_existing_of_more(probes, p, 0);
}

proof fn first_usable_is(probes: Seq<Probe>, i: int)
    requires
        0 <= i <= probes.len(),
    ensures
        match first_usable(probes, i) {
            Some(m) => i <= m < probes.len() && is_usable(probes[m]) && forall|j: int|
                i <= j < m ==> !is_usable(#[trigger] probes[j]),
            None => forall|j: int| i <= j < probes.len() ==> !is_usable(#[trigger] probes[j]),
        },
    decreases probes.len() - i,
{
    if i < probes.len() && !is_usable(probes[i]) {
        first_usable_is(probes, i + 1);
    }
}

proof fn first_existing_is(probes: Seq<Probe>, i: int)
    requires
        0 <= i <= probes.len(),
    ensures
        match first_existing(probes, i) {
            Some(m) => i <= m < probes.len() && probes[m].exists && forall|j: int|
                i <= j < m ==> !(#[trigger] probes[j]).exists,
            None => forall|j: int| i <= j < probes.len() ==> !(#[trigger] probes[j]).exists,
        },
    decreases probes.len() - i,
{
    if i < probes.len() && !probes[i].exists {
        first_existing_is(probes, i + 1);
    }
}

/// An old Node.js never hides a newer one: where some place is known to be new enough, the chosen
/// one is.
pub proof fn old_node_hides_no_newer_one(probes: Seq<Probe>, k: int)
    requires
        0 <= k < probes.len(),
        is_usable(probes[k]),
    ensures
        chosen(probes) matches Some(i) && 0 <= i <= k && is_usable(probes[i]),
{
    first_usable_is(probes, 0);
}

/// Behind a place that is known to be new enough, nothing that is found changes the choice.
pub proof fn later_places_change_nothing(probes: Seq<Probe>, later: Seq<Probe>)
    requires
        first_usable(probes, 0) is Some,
    ensures
        chosen(probes + later) == chosen(probes),
{
    let all = probes + later;
    first_usable_is(probes, 0);
    first_usable_is(all, 0);
    let i = first_usable(probes, 0)->0;
    assert(all[i] == probes[i]);
    let k = first_usable(all, 0)->0;
    assert(k <= i);
    assert(all[k] == probes[k]);
}

/// The places where `npx` is installed by most installers, then in every version of nvm, then in
/// the search path.
pub open spec fn candidate_paths(
    nvm: Seq<Seq<char>>,
    path: Option<Seq<char>>,
) -> Seq<Seq<Seq<char>>> {
    seq![
        seq!["/usr/local/bin/npx"@],
        seq!["/opt/homebrew/bin/npx"@],
        seq!["/usr/bin/npx"@],
        seq!["/Users/shaipe/.workbuddy/binaries/node/versions/22.22.2/bin/npx"@],
    ] + Seq::new(nvm.len(), |i: int| seq![nvm[i], "bin/npx"@]) + match path {
        Some(p) => path_candidates(text::split(p, CharClass::Is(':'))),
        None => Seq::empty(),
    }
}

/// `npx` in each directory of the search path.
pub open spec fn path_candidates(dirs: Seq<Seq<char>>) -> Seq<Seq<Seq<char>>>
    decreases dirs.len(),
{
    if dirs.len() == 0 {
        Seq::empty()
    } else if dirs.last().len() > 0 {
        path_candidates(dirs.drop_last()).push(seq![dirs.last(), "npx"@])
    } else {
        path_candidates(dirs.drop_last())
    }
}

fn one_part(s: &str) -> (r: Vec<String>)
    ensures
        text::texts(r@) == seq![s@],
{
    let mut out: Vec<String> = Vec::new();
    text::push_text(&mut out, s);
    assert(text::texts(out@) =~= seq![s@]);
    out
}

fn two_parts(a: &str, b: &str) -> (r: Vec<String>)
    ensures
        text::texts(r@) == seq![a@, b@],
{
    let mut out: Vec<String> = Vec::new();
    text::push_text(&mut out, a);
    text::push_text(&mut out, b);
    assert(text::texts(out@) =~= seq![a@, b@]);
    out
}

fn push_path(out: &mut Vec<Vec<String>>, p: Vec<String>)
    ensures
        profile::paths(final(out)@) == profile::paths(old(out)@).push(text::texts(p@)),
{
    out.push(p);
    assert(profile::paths(out@) =~= profile::paths(old(out)@).push(text::texts(p@)));
}

/// The directory that nvm keeps its versions in.
pub fn nvm_dir(home: Option<&str>) -> (r: Vec<String>)
    ensures
        text::texts(r@) == seq![
            match home {
                Some(h) => h@,
                None => Seq::empty(),
            },
            ".nvm/versions/node"@,
        ],
{
    match home {
        Some(h) => two_parts(h, ".nvm/versions/node"),
        None => {
            let mut out: Vec<String> = Vec::new();
            out.push(String::new());
            assert(text::texts(out@) =~= seq![Seq::<char>::empty()]);
            text::push_text(&mut out, ".nvm/versions/node");
            assert(text::texts(out@) =~= seq![Seq::<char>::empty(), ".nvm/versions/node"@]);
            out
        },
    }
}

/// The places where `npx` may be, in the order in which they are looked at: `nvm` are the versions
/// of nvm, and `path` is the search path.
pub fn npx_candidates(nvm: &[String], path: Option<&str>) -> (r: Vec<Vec<String>>)
    ensures
        profile::paths(r@) == candidate_paths(text::texts(nvm@), text::opt_str(path)),
{
    let mut out: Vec<Vec<String>> = Vec::new();
    assert(profile::paths(out@) =~= Seq::<Seq<Seq<char>>>::empty());
    push_path(&mut out, one_part("/usr/local/bin/npx"));
    push_path(&mut out, one_part("/opt/homebrew/bin/npx"));
    push_path(&mut out, one_part("/usr/bin/npx"));
    push_path(
        &mut out,
        one_part("/Users/shaipe/.workbuddy/binaries/node/versions/22.22.2/bin/npx"),
    );
    let ghost known = seq![
        seq!["/usr/local/bin/npx"@],
        seq!["/opt/homebrew/bin/npx"@],
        seq!["/usr/bin/npx"@],
        seq!["/Users/shaipe/.workbuddy/binaries/node/versions/22.22.2/bin/npx"@],
    ];
    assert(profile::paths(out@) =~= known);
    let ghost versions = Seq::new(
        nvm@.len(),
        |i: int| seq![text::texts(nvm@)[i], "bin/npx"@],
    );
    let mut i: usize = 0;
    assert(known + versions.take(0) =~= known);
    while i < nvm.len()
        invariant
            i <= nvm@.len(),
            versions.len() == nvm@.len(),
            forall|j: int|
                0 <= j < nvm@.len() ==> #[trigger] versions[j] == seq![nvm@[j]@, "bin/npx"@],
            profile::paths(out@) == known + versions.take(i as int),
        decreases nvm@.len() - i,
    {
        push_path(&mut out, two_parts(nvm[i].as_str(), "bin/npx"));
        i += 1;
        assert(versions.take(i as int) =~= versions.take(i - 1).push(versions[i - 1]));
        assert((known + versions.take(i - 1)).push(versions[i - 1]) =~= known + versions.take(
            i as int,
        ));
    }
    assert(versions.take(i as int) =~= versions);
    let ghost before = known + versions;
    match path {
        Some(p) => {
            let cs = text::to_chars(p);
            let dirs = text::split_at_class(cs.as_slice(), CharClass::Is(':'));
            let ghost all = text::pieces(dirs@);
            let mut k: usize = 0;
            assert(before + path_candidates(all.take(0)) =~= before);
            while k < dirs.len()
                invariant
                    k <= dirs@.len(),
                    all == text::pieces(dirs@),
                    profile::paths(out@) == before + path_candidates(all.take(k as int)),
                decreases dirs@.len() - k,
            {
                proof {
                    assert(all.take(k + 1).drop_last() =~= all.take(k as int));
                    assert(all.take(k + 1).last() == dirs@[k as int]@);
                }
                let ghost now = path_candidates(all.take(k as int));
                if dirs[k].len() > 0 {
                    let dir = text::to_text(dirs[k].as_slice());
                    push_path(&mut out, two_parts(dir.as_str(), "npx"));
                    assert((before + now).push(seq![dir@, "npx"@]) =~= before + now.push(
                        seq![dir@, "npx"@],
                    ));
                }
                k += 1;
            }
            assert(all.take(k as int) =~= all);
        },
        None => {
            assert(before + Seq::<Seq<Seq<char>>>::empty() =~= before);
        },
    }
    assert(candidate_paths(text::texts(nvm@), text::opt_str(path)) =~= profile::paths(out@)) by {
        assert(versions =~= Seq::new(
            text::texts(nvm@).len(),
            |i: int| seq![text::texts(nvm@)[i], "bin/npx"@],
        ));
    }
    out
}

// ---- the check ------------------------------------------------------------------------------

/// A version as it is shown.
pub open spec fn version_text(v: (nat, nat, nat)) -> Seq<char> {
    number::decimal(v.0) + "."@ + number::decimal(v.1) + "."@ + number::decimal(v.2)
}

fn make_version_text(v: (u32, u32, u32)) -> (r: String)
    ensures
        r@ == version_text(release::as_nats(v)),
{
    let a = number::decimal_text(v.0 as u64);
    let b = number::decimal_text(v.1 as u64);
    let c = number::decimal_text(v.2 as u64);
    let mut out = a;
    out.append(".");
    out.append(b.as_str());
    out.append(".");
    out.append(c.as_str());
    out
}

/// The `npx` to use: its path, in its parts, and whether the user named it.
pub struct NpxChoice {
    pub path: Vec<String>,
    pub given: bool,
}

/// The `npx` to use: the one that the user named, if it is a file, and else the one in the place
/// that is chosen.
pub open spec fn npx_choice(
    named: Option<Seq<char>>,
    is_file: bool,
    candidates: Seq<Seq<Seq<char>>>,
    probes: Seq<Probe>,
) -> Option<(Seq<Seq<char>>, bool)> {
    match named {
        Some(p) if is_file => Some((seq![p], true)),
        _ => match chosen(probes) {
            Some(i) => Some((candidates[i], false)),
            None => None,
        },
    }
}

/// Chooses the `npx` to use. `named` is the path that the user named, and `is_file` tells whether
/// it is a file. `probes` is what is known of the candidates, from the first one on; none behind a
/// place that is known to be new enough needs to be looked at.
pub fn resolve_npx(
    named: Option<&str>,
    is_file: bool,
    candidates: &[Vec<String>],
    probes: &[Probe],
) -> (r: Option<NpxChoice>)
    requires
        probes@.len() <= candidates@.len(),
    ensures
        npx_choice(text::opt_str(named), is_file, profile::paths(candidates@), probes@) == (
        match r {
            Some(c) => Some((text::texts(c.path@), c.given)),
            None => None,
        }),
{
    if let Some(p) = named {
        if is_file {
            return Some(NpxChoice { path: one_part(p), given: true });
        }
    }
    let mut search = NpxSearch::new();
    let mut i: usize = 0;
    assert(probes@.take(0) =~= Seq::<Probe>::empty());
    while i < probes.len()
        invariant
            i <= probes@.len() <= candidates@.len(),
            !(named is Some && is_file),
            has_seen(search, probes@.take(i as int)),
        decreases probes@.len() - i,
    {
        let ghost seen = probes@.take(i as int);
        proof {
            search_finds_the_chosen_place(search, seen, probes@[i as int]);
            assert(probes@.take(i + 1) =~= seen.push(probes@[i as int]));
        }
        if search.consider(probes[i]) {
            proof {
                first_usable_of_more(seen, probes@[i as int], 0);
                later_places_change_nothing(probes@.take(i + 1), probes@.skip(i + 1));
                assert(probes@.take(i + 1) + probes@.skip(i + 1) =~= probes@);
            }
            return Some(
                NpxChoice { path: text::copy_strings(candidates[i].as_slice()), given: false },
            );
        }
        i += 1;
    }
    proof {
        assert(probes@.take(i as int) =~= probes@);
        first_existing_is(probes@, 0);
    }
    match search.first {
        Some(k) => Some(
            NpxChoice { path: text::copy_strings(candidates[k].as_slice()), given: false },
        ),
        None => None,
    }
}

/// An `npx` that was found, and the version of its Node.js where that could be told.
pub struct FoundNpx {
    pub path: String,
    pub version: Option<(u32, u32, u32)>,
    /// Whether the user named it.
    pub given: bool,
}

/// Whether a found `npx` is used: one that the user named is, whatever its version, and one whose
/// version cannot be told is tried.
pub open spec fn is_used(found: Option<FoundNpx>) -> bool {
    match found {
        Some(f) => f.given || match f.version {
            Some(v) => is_new_enough(release::as_nats(v)),
            None => true,
        },
        None => false,
    }
}

/// What is shown of the `npx` that was found.
pub open spec fn node_line(found: Option<FoundNpx>) -> Seq<char> {
    match found {
        Some(f) => match f.version {
            Some(v) => if f.given || is_new_enough(release::as_nats(v)) {
                "✓ Node.js 运行环境 (npx)\r\n    已找到: "@ + f.path@ + " (Node v"@ + version_text(
                    release::as_nats(v),
                ) + ")\r\n"@
            } else {
                "✗ 已检测到 Node.js，但版本过低\r\n    已找到: "@ + f.path@ + " (Node v"@
                    + version_text(release::as_nats(v)) + ")，需 >= v"@ + number::decimal(
                    MIN_NODE_MAJOR as nat,
                ) + "."@ + number::decimal(MIN_NODE_MINOR as nat) + "\r\n"@
            },
            None => "✓ Node.js 运行环境 (npx)\r\n    已找到: "@ + f.path@
                + "（未能检测版本，将尝试使用）\r\n"@,
        },
        None => "✗ Node.js 运行环境 (npx)\r\n    本机未安装\r\n"@,
    }
}

/// Why Node.js is installed.
pub open spec fn install_reason(found: Option<FoundNpx>) -> Seq<char> {
    match found {
        Some(f) => match f.version {
            Some(v) => "Node.js 版本过低 (v"@ + version_text(release::as_nats(v))
                + ")，正在自动下载兼容的便携版 Node v"@ + NODE_VERSION@ + "…"@,
            None => Seq::empty(),
        },
        None => "本机缺少 Node.js，正在自动下载并安装便携版…"@,
    }
}

/// What is shown of the check.
pub open spec fn check_events(found: Option<FoundNpx>) -> Seq<EventView> {
    let first = seq![
        EventView::Term(node_line(found)),
        EventView::Term(
            "• @deepseek-ai/dsh 命令包：将通过 npx 首次运行时自动获取（无需单独安装）\r\n"@,
        ),
    ];
    if is_used(found) {
        first + seq![EventView::Term("✓ 运行环境就绪，准备启动服务…\r\n"@)]
    } else {
        first + seq![
            EventView::Term("✗ "@ + install_reason(found) + "\r\n"@),
            EventView::Status("正在准备自动安装 Node.js 运行环境…"@),
        ]
    }
}

/// What is shown at the start.
pub fn start_events() -> (r: Vec<UserEvent>)
    ensures
        event::events(r@) == seq![
            EventView::EnterTerminal,
            EventView::Term("=== 启动前环境自检 ===\r\n"@),
            EventView::Status("正在检查运行环境…"@),
        ],
{
    let mut events = event::no_events();
    event::emit(&mut events, UserEvent::EnterTerminal);
    event::emit(&mut events, event::term("=== 启动前环境自检 ===\r\n"));
    event::emit(&mut events, event::status("正在检查运行环境…"));
    assert(event::events(events@) =~= seq![
        EventView::EnterTerminal,
        EventView::Term("=== 启动前环境自检 ===\r\n"@),
        EventView::Status("正在检查运行环境…"@),
    ]);
    events
}

fn make_node_line(found: &Option<FoundNpx>) -> (r: String)
    ensures
        r@ == node_line(*found),
{
    match found {
        Some(f) => match f.version {
            Some(v) => {
                let t = make_version_text(v);
                if f.given || node_meets_min(v) {
                    let mut s = String::from_str(
                        "✓ Node.js 运行环境 (npx)\r\n    已找到: ",
                    );
                    s.append(f.path.as_str());
                    s.append(" (Node v");
                    s.append(t.as_str());
                    s.append(")\r\n");
                    s
                } else {
                    let a = number::decimal_text(MIN_NODE_MAJOR as u64);
                    let b = number::decimal_text(MIN_NODE_MINOR as u64);
                    let mut s = String::from_str(
                        "✗ 已检测到 Node.js，但版本过低\r\n    已找到: ",
                    );
                    s.append(f.path.as_str());
                    s.append(" (Node v");
                    s.append(t.as_str());
                    s.append(")，需 >= v");
                    s.append(a.as_str());
                    s.append(".");
                    s.append(b.as_str());
                    s.append("\r\n");
                    s
                }
            },
            None => {
                let mut s = String::from_str(
                    "✓ Node.js 运行环境 (npx)\r\n    已找到: ",
                );
                s.append(f.path.as_str());
                s.append("（未能检测版本，将尝试使用）\r\n");
                s
            },
        },
        None => String::from_str("✗ Node.js 运行环境 (npx)\r\n    本机未安装\r\n"),
    }
}

fn make_install_reason(found: &Option<FoundNpx>) -> (r: String)
    ensures
        r@ == install_reason(*found),
{
    match found {
        Some(f) => match f.version {
            Some(v) => {
                let t = make_version_text(v);
                let mut s = String::from_str("Node.js 版本过低 (v");
                s.append(t.as_str());
                s.append(")，正在自动下载兼容的便携版 Node v");
                s.append(NODE_VERSION);
                s.append("…");
                s
            },
            None => String::new(),
        },
        None => String::from_str("本机缺少 Node.js，正在自动下载并安装便携版…"),
    }
}

/// Decides whether the `npx` that was found is used, and tells so.
pub fn check_node(found: &Option<FoundNpx>) -> (r: (bool, Vec<UserEvent>))
    ensures
        r.0 == is_used(*found),
        event::events(r.1@) == check_events(*found),
{
    let used = match found {
        Some(f) => f.given || match f.version {
            Some(v) => node_meets_min(v),
            None => true,
        },
        None => false,
    };
    let mut events = event::no_events();
    event::emit(&mut events, UserEvent::Term(make_node_line(found)));
    event::emit(
        &mut events,
        event::term(
            "• @deepseek-ai/dsh 命令包：将通过 npx 首次运行时自动获取（无需单独安装）\r\n",
        ),
    );
    if used {
        event::emit(&mut events, event::term("✓ 运行环境就绪，准备启动服务…\r\n"));
    } else {
        let why = make_install_reason(found);
        let mut s = String::from_str("✗ ");
        s.append(why.as_str());
        s.append("\r\n");
        event::emit(&mut events, UserEvent::Term(s));
        event::emit(
            &mut events,
            event::status("正在准备自动安装 Node.js 运行环境…"),
        );
    }
    assert(event::events(events@) =~= check_events(*found));
    (used, events)
}

/// What is shown of an installed Node.js: where its `npx` is, or that it has none.
pub fn installed_events(npx: &str, exists: bool) -> (r: Vec<UserEvent>)
    ensures
        event::events(r@) == seq![
            if exists {
                EventView::Term("✓ 已安装 Node.js: "@ + npx@ + "\r\n"@)
            } else {
                EventView::Fatal("未能在自动安装的 Node.js 中找到 npx，安装失败。"@)
            },
        ],
{
    let mut events = event::no_events();
    if exists {
        let mut s = String::from_str("✓ 已安装 Node.js: ");
        s.append(npx);
        s.append("\r\n");
        event::emit(&mut events, UserEvent::Term(s));
    } else {
        event::emit(
            &mut events,
            event::fatal("未能在自动安装的 Node.js 中找到 npx，安装失败。"),
        );
    }
    assert(event::events(events@) =~= seq![
        if exists {
            EventView::Term("✓ 已安装 Node.js: "@ + npx@ + "\r\n"@)
        } else {
            EventView::Fatal("未能在自动安装的 Node.js 中找到 npx，安装失败。"@)
        },
    ]);
    events
}

// ---- the installation -----------------------------------------------------------------------

/// An operating system as Node.js names it in its packages.
pub open spec fn node_os(os: Seq<char>) -> Seq<char> {
    if os == "macos"@ {
        "darwin"@
    } else if os == "windows"@ {
        "win"@
    } else {
        os
    }
}

/// An architecture as Node.js names it in its packages.
pub open spec fn node_arch(arch: Seq<char>) -> Seq<char> {
    if arch == "aarch64"@ {
        "arm64"@
    } else if arch == "x86_64"@ {
        "x64"@
    } else if arch == "arm"@ {
        "armv7l"@
    } else {
        arch
    }
}

/// The platform as Node.js names it in its packages, such as `darwin-arm64`.
pub fn node_target(os: &str, arch: &str) -> (r: String)
    ensures
        r@ == node_os(os@) + "-"@ + node_arch(arch@),
{
    let a = if text::same_text(os, "macos") {
        "darwin"
    } else if text::same_text(os, "windows") {
        "win"
    } else {
        os
    };
    let b = if text::same_text(arch, "aarch64") {
        "arm64"
    } else if text::same_text(arch, "x86_64") {
        "x64"
    } else if text::same_text(arch, "arm") {
        "armv7l"
    } else {
        arch
    };
    let mut out = String::from_str(a);
    out.append("-");
    out.append(b);
    out
}

/// The directory for downloads, or what is wrong.
pub open spec fn cache_parts(
    windows: bool,
    local_app_data: Option<Seq<char>>,
    home: Option<Seq<char>>,
) -> Result<Seq<Seq<char>>, Seq<char>> {
    if windows {
        Ok(
            seq![
                match local_app_data {
                    Some(d) => d,
                    None => "C:\\Users\\Public\\.cache"@,
                },
                "dsh-desktop"@,
            ],
        )
    } else {
        match home {
            Some(h) => Ok(seq![h + "/.cache"@, "dsh-desktop"@]),
            None => Err("无法确定用户目录（HOME 未设置）。"@),
        }
    }
}

/// The directory for downloads: from `LOCALAPPDATA` on Windows, else from `HOME`.
pub fn cache_dir(
    windows: bool,
    local_app_data: Option<&str>,
    home: Option<&str>,
) -> (r: Result<Vec<String>, String>)
    ensures
        (match r {
            Ok(p) => Ok(text::texts(p@)),
            Err(e) => Err(e@),
        }) == cache_parts(windows, text::opt_str(local_app_data), text::opt_str(home)),
{
    if windows {
        let base = match local_app_data {
            Some(d) => d,
            None => "C:\\Users\\Public\\.cache",
        };
        let p = two_parts(base, "dsh-desktop");
        assert(text::texts(p@) =~= cache_parts(
            windows,
            text::opt_str(local_app_data),
            text::opt_str(home),
        )->Ok_0);
        Ok(p)
    } else {
        match home {
            Some(h) => {
                let mut base = String::from_str(h);
                base.append("/.cache");
                let p = two_parts(base.as_str(), "dsh-desktop");
                assert(text::texts(p@) =~= cache_parts(
                    windows,
                    text::opt_str(local_app_data),
                    text::opt_str(home),
                )->Ok_0);
                Ok(p)
            },
            None => Err(String::from_str("无法确定用户目录（HOME 未设置）。")),
        }
    }
}

/// The directory of an installed Node.js.
pub fn node_home(cache: &[String], target: &str) -> (r: Vec<String>)
    ensures
        text::texts(r@) == text::texts(cache@).push("node-v"@ + NODE_VERSION@ + "-"@ + target@),
{
    let mut name = String::from_str("node-v");
    name.append(NODE_VERSION);
    name.append("-");
    name.append(target);
    let mut out = text::copy_strings(cache);
    text::push_text(&mut out, name.as_str());
    out
}

/// The `npx` of an installed Node.js.
pub fn node_npx_path(home: &[String], windows: bool) -> (r: Vec<String>)
    ensures
        text::texts(r@) == text::texts(home@) + (if windows {
            seq!["npx.cmd"@]
        } else {
            seq!["bin"@, "npx"@]
        }),
{
    let mut out = text::copy_strings(home);
    if windows {
        text::push_text(&mut out, "npx.cmd");
    } else {
        text::push_text(&mut out, "bin");
        text::push_text(&mut out, "npx");
    }
    assert(text::texts(out@) =~= text::texts(home@) + (if windows {
        seq!["npx.cmd"@]
    } else {
        seq!["bin"@, "npx"@]
    }));
    out
}

/// The extension of a package of Node.js.
pub open spec fn archive_ext(windows: bool) -> Seq<char> {
    if windows {
        "zip"@
    } else {
        "tar.gz"@
    }
}

/// Where the package of Node.js for a platform is.
pub fn node_url(target: &str, windows: bool) -> (r: String)
    ensures
        r@ == NODE_MIRROR@ + "/v"@ + NODE_VERSION@ + "/node-v"@ + NODE_VERSION@ + "-"@ + target@
            + "."@ + archive_ext(windows),
{
    let mut out = String::from_str(NODE_MIRROR);
    out.append("/v");
    out.append(NODE_VERSION);
    out.append("/node-v");
    out.append(NODE_VERSION);
    out.append("-");
    out.append(target);
    out.append(".");
    out.append(
        if windows {
            "zip"
        } else {
            "tar.gz"
        },
    );
    out
}

/// The name that a package of Node.js is downloaded to.
pub fn archive_name(target: &str, windows: bool) -> (r: String)
    ensures
        r@ == "node-"@ + target@ + "."@ + archive_ext(windows),
{
    let mut out = String::from_str("node-");
    out.append(target);
    out.append(".");
    out.append(
        if windows {
            "zip"
        } else {
            "tar.gz"
        },
    );
    out
}

/// The length that headers tell: that of the last header for it, as the earlier ones belong to
/// redirections. None where that one is no number.
pub open spec fn told_length(lines: Seq<Seq<char>>) -> Option<nat>
    decreases lines.len(),
{
    if lines.len() == 0 {
        None
    } else {
        match text::after_prefix(text::ascii_lowercase(lines.last()), "content-length:"@) {
            Some(v) => number::unsigned_value(text::trim(v), 10, u64::MAX as nat),
            None => told_length(lines.drop_last()),
        }
    }
}

/// An optional number as a natural number.
pub open spec fn opt_nat(n: Option<u64>) -> Option<nat> {
    match n {
        Some(v) => Some(v as nat),
        None => None,
    }
}

/// Reads the length that headers tell.
pub fn content_length(headers: &str) -> (r: Option<u64>)
    ensures
        opt_nat(r) == told_length(text::lines(headers@)),
{
    let cs = text::to_chars(headers);
    let lines = text::split_lines(cs.as_slice());
    let ghost all = text::pieces(lines@);
    let mut len: Option<u64> = None;
    let mut i: usize = 0;
    while i < lines.len()
        invariant
            i <= lines@.len(),
            all == text::pieces(lines@),
            opt_nat(len) == told_length(all.take(i as int)),
        decreases lines@.len() - i,
    {
        proof {
            assert(all.take(i + 1).drop_last() =~= all.take(i as int));
            assert(all.take(i + 1).last() == lines@[i as int]@);
        }
        let lower = text::lowercase_ascii(lines[i].as_slice());
        match text::cut_prefix(lower.as_slice(), "content-length:") {
            Some(v) => {
                len = number::read_unsigned(text::trimmed(v), 10, u64::MAX);
            },
            None => {},
        }
        i += 1;
    }
    assert(all.take(i as int) =~= all);
    len
}

/// Reads the length that the output of `curl` tells.
pub fn http_content_length(output: &[u8]) -> (r: Option<u64>)
    ensures
        opt_nat(r) == told_length(text::lines(utf8::lossy_text(output@))),
{
    let s = utf8::lossy(output);
    content_length(s.as_str())
}

/// The arguments of `curl` that ask for headers only, and follow redirections.
pub fn head_args(url: &str) -> (r: Vec<String>)
    ensures
        text::texts(r@) == seq!["-sIL"@, "--max-time"@, "20"@, url@],
{
    let mut out: Vec<String> = Vec::new();
    text::push_text(&mut out, "-sIL");
    text::push_text(&mut out, "--max-time");
    text::push_text(&mut out, "20");
    text::push_text(&mut out, url);
    assert(text::texts(out@) =~= seq!["-sIL"@, "--max-time"@, "20"@, url@]);
    out
}

/// The arguments that download a file, of `curl` or of `wget`.
pub fn fetch_args(wget: bool, url: &str, file: &str) -> (r: Vec<String>)
    ensures
        text::texts(r@) == (if wget {
            seq!["-q"@, url@, "-O"@, file@]
        } else {
            seq!["-fsSL"@, url@, "-o"@, file@]
        }),
{
    let mut out: Vec<String> = Vec::new();
    text::push_text(
        &mut out,
        if wget {
            "-q"
        } else {
            "-fsSL"
        },
    );
    text::push_text(&mut out, url);
    text::push_text(
        &mut out,
        if wget {
            "-O"
        } else {
            "-o"
        },
    );
    text::push_text(&mut out, file);
    assert(text::texts(out@) =~= (if wget {
        seq!["-q"@, url@, "-O"@, file@]
    } else {
        seq!["-fsSL"@, url@, "-o"@, file@]
    }));
    out
}

/// What is shown when the download begins.
pub fn fetching_events() -> (r: Vec<UserEvent>)
    ensures
        event::events(r@) == seq![
            EventView::Term("正在从 npmmirror 镜像下载 Node.js 运行环境…\r\n"@),
            EventView::Status("正在下载 Node.js 运行环境…"@),
        ],
{
    let mut events = event::no_events();
    event::emit(
        &mut events,
        event::term("正在从 npmmirror 镜像下载 Node.js 运行环境…\r\n"),
    );
    event::emit(&mut events, event::status("正在下载 Node.js 运行环境…"));
    assert(event::events(events@) =~= seq![
        EventView::Term("正在从 npmmirror 镜像下载 Node.js 运行环境…\r\n"@),
        EventView::Status("正在下载 Node.js 运行环境…"@),
    ]);
    events
}

/// The progress of the download, as it was last shown.
#[derive(Clone, Copy, Debug, PartialEq, Eq, Structural)]
pub struct FetchProgress {
    /// The percentage; below zero where the size is not known.
    pub pct: i32,
}

/// What is shown of a percentage. It stays below a hundred until all is done.
pub open spec fn pct_events(pct: int) -> Seq<EventView> {
    if pct >= 0 {
        let p = if pct < 99 {
            pct as nat
        } else {
            99
        };
        seq![
            EventView::Term("  下载进度 "@ + download::three_places(p) + "%\r"@),
            EventView::Status("正在下载 Node.js 运行环境… "@ + number::decimal(p) + "%"@),
        ]
    } else {
        seq![
            EventView::Term("  下载中…\r"@),
            EventView::Status("正在下载 Node.js 运行环境…"@),
        ]
    }
}

/// What is shown when a percentage follows another: nothing where it is the same.
pub open spec fn changed_pct_events(last: int, pct: int) -> Seq<EventView> {
    if pct == last {
        Seq::empty()
    } else {
        pct_events(pct)
    }
}

impl FetchProgress {
    /// Before the first look.
    pub fn new() -> (r: FetchProgress)
        ensures
            r.pct == -1,
    {
        FetchProgress { pct: -1 }
    }

    /// Shows a percentage if it has changed.
    pub fn on_pct(&mut self, pct: i32) -> (r: Vec<UserEvent>)
        ensures
            *final(self) == (FetchProgress { pct }),
            event::events(r@) == changed_pct_events(old(self).pct as int, pct as int),
    {
        let mut events = event::no_events();
        if pct != self.pct {
            self.pct = pct;
            if pct >= 0 {
                let p: u64 = if pct < 99 {
                    pct as u64
                } else {
                    99
                };
                let a = download::in_three_places(p);
                let mut s = String::from_str("  下载进度 ");
                s.append(a.as_str());
                s.append("%\r");
                event::emit(&mut events, UserEvent::Term(s));
                let b = number::decimal_text(p);
                let mut t = String::from_str("正在下载 Node.js 运行环境… ");
                t.append(b.as_str());
                t.append("%");
                event::emit(&mut events, UserEvent::Status(t));
            } else {
                event::emit(&mut events, event::term("  下载中…\r"));
                event::emit(&mut events, event::status("正在下载 Node.js 运行环境…"));
            }
            assert(event::events(events@) =~= pct_events(pct as int));
        }
        events
    }
}

/// What is shown when the download is there.
pub fn unpacking_events() -> (r: Vec<UserEvent>)
    ensures
        event::events(r@) == seq![
            EventView::Term("\r\n"@),
            EventView::Term("✓ 下载完成，正在解压 Node.js…\r\n"@),
            EventView::Status("正在解压 Node.js 运行环境…"@),
        ],
{
    let mut events = event::no_events();
    event::emit(&mut events, event::term("\r\n"));
    event::emit(&mut events, event::term("✓ 下载完成，正在解压 Node.js…\r\n"));
    event::emit(&mut events, event::status("正在解压 Node.js 运行环境…"));
    assert(event::events(events@) =~= seq![
        EventView::Term("\r\n"@),
        EventView::Term("✓ 下载完成，正在解压 Node.js…\r\n"@),
        EventView::Status("正在解压 Node.js 运行环境…"@),
    ]);
    events
}

/// Whether the package was downloaded: the tool succeeded and the file is there.
pub fn fetched(success: bool, is_file: bool, url: &str) -> (r: Result<(), String>)
    ensures
        match r {
            Ok(_) => success && is_file,
            Err(e) => !(success && is_file) && e@ == "下载 Node.js 运行环境失败（"@ + url@
                + "）。请检查网络连接后重试，或手动安装 Node.js 并用 DSH_NPX 指定 npx 路径。"@,
        },
{
    if success && is_file {
        Ok(())
    } else {
        let mut s = String::from_str("下载 Node.js 运行环境失败（");
        s.append(url);
        s.append(
            "）。请检查网络连接后重试，或手动安装 Node.js 并用 DSH_NPX 指定 npx 路径。",
        );
        Err(s)
    }
}

/// What follows the extraction of the package: what is shown, or what is wrong.
pub fn unpacked(ok: bool) -> (r: Result<Vec<UserEvent>, String>)
    ensures
        match r {
            Ok(e) => ok && event::events(e@) == seq![
                EventView::Term("✓ 解压完成。\r\n"@),
                EventView::Status("Node.js 运行环境已就绪"@),
            ],
            Err(e) => !ok && e@ == "已下载 Node.js 压缩包，但解压失败。"@,
        },
{
    if ok {
        let mut events = event::no_events();
        event::emit(&mut events, event::term("✓ 解压完成。\r\n"));
        event::emit(&mut events, event::status("Node.js 运行环境已就绪"));
        assert(event::events(events@) =~= seq![
            EventView::Term("✓ 解压完成。\r\n"@),
            EventView::Status("Node.js 运行环境已就绪"@),
        ]);
        Ok(events)
    } else {
        Err(String::from_str("已下载 Node.js 压缩包，但解压失败。"))
    }
}

/// What is said when the directory for downloads cannot be made.
pub fn cache_failed(dir: &str, error: &str) -> (r: String)
    ensures
        r@ == "无法创建缓存目录 "@ + dir@ + ": "@ + error@,
{
    let mut s = String::from_str("无法创建缓存目录 ");
    s.append(dir);
    s.append(": ");
    s.append(error);
    s
}

/// What is said when no tool for downloads can be started.
pub fn fetch_not_started(error: &str) -> (r: String)
    ensures
        r@ == "无法启动下载工具（curl/wget 均不可用）: "@ + error@,
{
    let mut s = String::from_str("无法启动下载工具（curl/wget 均不可用）: ");
    s.append(error);
    s
}

// ---- laws -----------------------------------------------------------------------------------

/// An `npx` that the user named is used as it is: no other one is installed in its place.
pub proof fn named_npx_is_used(found: FoundNpx)
    requires
        found.given,
    ensures
        is_used(Some(found)),
        check_events(Some(found)).last() == EventView::Term(
            "✓ 运行环境就绪，准备启动服务…\r\n"@,
        ),
{
}

/// An `npx` that the user named wins over the search if it is a file. Otherwise the first place is
/// taken that is known to be new enough; if there is none, the first place that has an `npx`; and
/// nothing only if no place has one.
pub proof fn npx_is_resolved_in_order(
    named: Option<Seq<char>>,
    is_file: bool,
    candidates: Seq<Seq<Seq<char>>>,
    probes: Seq<Probe>,
)
    requires
        probes.len() == candidates.len(),
    ensures
        match named {
            Some(p) if is_file => npx_choice(named, is_file, candidates, probes) == Some(
                (seq![p], true),
            ),
            _ => match npx_choice(named, is_file, candidates, probes) {
                Some((path, given)) => {
                    &&& !given
                    &&& exists|i: int|
                        {
                            &&& 0 <= i < candidates.len()
                            &&& path == #[trigger] candidates[i]
                            &&& probes[i].exists
                            &&& if is_usable(probes[i]) {
                                forall|j: int| 0 <= j < i ==> !is_usable(#[trigger] probes[j])
                            } else {
                                &&& forall|j: int|
                                    0 <= j < probes.len() ==> !is_usable(#[trigger] probes[j])
                                &&& forall|j: int| 0 <= j < i ==> !(#[trigger] probes[j]).exists
                            }
                        }
                },
                None => forall|j: int| 0 <= j < probes.len() ==> !(#[trigger] probes[j]).exists,
            },
        },
        npx_choice(named, is_file, candidates, probes) is None <==> !(named is Some && is_file)
            && forall|j: int| 0 <= j < probes.len() ==> !(#[trigger] probes[j]).exists,
{
    first_usable_is(probes, 0);
    first_existing_is(probes, 0);
    if let Some(i) = chosen(probes) {
        assert(candidates[i] == candidates[i]);
        assert(probes[i].exists);
    }
}

/// What is newer than a Node.js that is new enough is new enough.
pub proof fn newer_node_is_new_enough(a: (nat, nat, nat), b: (nat, nat, nat))
    requires
        is_new_enough(a),
        release::is_newer(b, a),
    ensures
        is_new_enough(b),
{
}

} // verus!
