//! Finds out, from the output of a launch that failed, which plugins made it fail.

use crate::patch;
use crate::text;
use crate::text::CharClass;
use vstd::prelude::*;
use vstd::slice::*;
use vstd::string::*;

verus! {

/// How many plugins one diagnosis names at most.
pub const MAX_SUSPECTS_PER_ROUND: usize = 3;

/// How many characters of an error line are kept as a reason.
pub const REASON_CHARS: usize = 160;

/// The rows that the service cannot do without: without one of them it never listens.
pub const CORE_ROW_DENYLIST: [&'static str; 11] = [
    "webserver",
    "web_runtime",
    "web-startup",
    "typert-gateway",
    "cordis-host-runner",
    "cordis-client-runner",
    "connection",
    "modules",
    "resources",
    "client-hmr",
    "api-remotes",
];

/// Parts of the framework, which are no plugins.
pub const FRAMEWORK_PACKAGES: [&'static str; 4] = [
    "@deepseek-ai/cordis",
    "@deepseek-ai/cordis-plugin-loader",
    "@deepseek-ai/cosmokit",
    "@deepseek-ai/schemastery",
];

/// A plugin to disable.
#[derive(Debug)]
pub struct DisableEntry {
    /// The id of its row.
    pub id: String,
    /// Its module, as the output names it.
    pub module: String,
    /// Why it failed, in short.
    pub reason: String,
}

/// A [`DisableEntry`] with its texts as sequences of characters.
#[verifier::ext_equal]
pub struct EntryView {
    pub id: Seq<char>,
    pub module: Seq<char>,
    pub reason: Seq<char>,
}

impl View for DisableEntry {
    type V = EntryView;

    open spec fn view(&self) -> EntryView {
        EntryView { id: self.id@, module: self.module@, reason: self.reason@ }
    }
}

impl Clone for DisableEntry {
    fn clone(&self) -> (r: DisableEntry)
        ensures
            r@ == self@,
    {
        DisableEntry {
            id: self.id.clone(),
            module: self.module.clone(),
            reason: self.reason.clone(),
        }
    }
}

/// Entries with their texts as sequences of characters.
pub open spec fn entries(v: Seq<DisableEntry>) -> Seq<EntryView> {
    Seq::new(v.len(), |i: int| v[i]@)
}

/// Whether one of the entries has this id.
pub open spec fn has_entry(v: Seq<EntryView>, id: Seq<char>) -> bool {
    exists|i: int| 0 <= i < v.len() && (#[trigger] v[i]).id == id
}

/// Tests whether one of the entries has this id.
pub fn lists_entry(v: &[DisableEntry], id: &str) -> (r: bool)
    ensures
        r == has_entry(entries(v@), id@),
{
    let mut i: usize = 0;
    while i < v.len()
        invariant
            i <= v@.len(),
            forall|j: int| 0 <= j < i ==> (#[trigger] entries(v@)[j]).id != id@,
        decreases v@.len() - i,
    {
        if text::same_text(v[i].id.as_str(), id) {
            assert(entries(v@)[i as int].id == id@);
            return true;
        }
        i += 1;
    }
    false
}

// ---- modules in a line ----------------------------------------------------------------------

/// Where the name of the package at the start of `s` ends: at the first slash, or at the second
/// one for a package with a scope.
pub open spec fn package_end(s: Seq<char>) -> int {
    let slash = text::first_of(s, CharClass::Is('/')) as int;
    if s.len() > 0 && s[0] == '@' && slash < s.len() {
        slash + 1 + text::first_of(s.skip(slash + 1), CharClass::Is('/'))
    } else {
        slash
    }
}

/// A package ends within the text that it stands in.
pub proof fn package_end_bounds(s: Seq<char>)
    ensures
        0 <= package_end(s) <= s.len(),
{
    let slash = text::first_of(s, CharClass::Is('/')) as int;
    text::first_of_bounds(s, CharClass::Is('/'));
    text::first_of_bounds(s.skip(slash + 1), CharClass::Is('/'));
}

/// The package that a module belongs to.
pub open spec fn package_of(module: Seq<char>) -> Seq<char> {
    module.take(package_end(module))
}

fn find_package_end(s: &[char]) -> (r: usize)
    ensures
        r == package_end(s@),
        r <= s@.len(),
{
    let n = s.len();
    let slash = text::find_first_of(s, CharClass::Is('/'));
    if n > 0 && s[0] == '@' && slash < n {
        let rest = slice_subrange(s, slash + 1, n);
        assert(rest@ =~= s@.skip(slash + 1));
        slash + 1 + text::find_first_of(rest, CharClass::Is('/'))
    } else {
        slash
    }
}

/// The package that a module belongs to: `@scope/pkg/sub` belongs to `@scope/pkg`, and `pkg/sub`
/// to `pkg`.
pub fn base_package<'a>(module: &'a str) -> (r: &'a str)
    ensures
        r@ == package_of(module@),
{
    let cs = text::to_chars(module);
    let end = find_package_end(cs.as_slice());
    let r = module.substring_char(0, end);
    assert(r@ =~= module@.take(end as int));
    r
}

/// Whether a list of texts holds `s`.
pub open spec fn in_list(list: Seq<&'static str>, s: Seq<char>) -> bool {
    exists|i: int| 0 <= i < list.len() && (#[trigger] list[i])@ == s
}

/// Whether a package is part of the framework.
pub open spec fn is_framework(pkg: Seq<char>) -> bool {
    in_list(FRAMEWORK_PACKAGES@, pkg)
}

/// Whether a row is one that the service cannot do without.
pub open spec fn is_core_row(id: Seq<char>) -> bool {
    in_list(CORE_ROW_DENYLIST@, id)
}

fn any_of(list: &[&'static str], s: &[char]) -> (r: bool)
    ensures
        r == in_list(list@, s@),
{
    let mut i: usize = 0;
    while i < list.len()
        invariant
            i <= list@.len(),
            forall|j: int| 0 <= j < i ==> (#[trigger] list@[j])@ != s@,
        decreases list@.len() - i,
    {
        let t = text::to_chars(list[i]);
        if text::same_chars(t.as_slice(), s) {
            assert(list@[i as int]@ == s@);
            return true;
        }
        i += 1;
    }
    false
}

/// `out` with one more module, unless it is empty or there already.
pub open spec fn with_module(out: Seq<Seq<char>>, m: Seq<char>) -> Seq<Seq<char>> {
    if m.len() > 0 && !out.contains(m) {
        out.push(m)
    } else {
        out
    }
}

/// What stands between the first `pat` in a line and the quote behind it.
pub open spec fn quoted_after(line: Seq<char>, pat: Seq<char>) -> Option<Seq<char>> {
    match text::find(line, pat) {
        Some(p) => {
            let rest = line.skip(p + pat.len());
            let end = text::first_of(rest, CharClass::Is('\'')) as int;
            if end < rest.len() {
                Some(rest.take(end))
            } else {
                None
            }
        },
        None => None,
    }
}

/// `out` with the module that is quoted behind `pat`.
pub open spec fn with_quoted(
    out: Seq<Seq<char>>,
    line: Seq<char>,
    pat: Seq<char>,
) -> Seq<Seq<char>> {
    match quoted_after(line, pat) {
        Some(m) => with_module(out, m),
        None => out,
    }
}

/// Whether a package in a path may be a plugin.
pub open spec fn is_plugin_path(pkg: Seq<char>) -> bool {
    !is_framework(pkg) && !text::starts_with(pkg, "node:"@)
}

/// `out` with the packages behind each `node_modules/` in a line.
pub open spec fn with_paths(out: Seq<Seq<char>>, line: Seq<char>) -> Seq<Seq<char>>
    decreases line.len(),
{
    proof {
        text::find_is_first(line, "node_modules/"@);
        reveal_strlit("node_modules/");
    }
    match text::find(line, "node_modules/"@) {
        Some(p) => {
            let rest = line.skip(p + "node_modules/"@.len());
            let end = package_end(rest);
            proof {
                package_end_bounds(rest);
            }
            let pkg = rest.take(end);
            let next = if is_plugin_path(pkg) {
                with_module(out, pkg)
            } else {
                out
            };
            with_paths(next, rest.skip(end))
        },
        None => out,
    }
}

/// The modules that a line of output blames: those that cannot be found, those that cannot be
/// loaded, and those in the paths of a stack trace. Each is named once.
pub open spec fn modules_in(line: Seq<char>) -> Seq<Seq<char>> {
    let a = with_quoted(Seq::empty(), line, "Cannot find module '"@);
    let b = with_quoted(a, line, "Cannot find package '"@);
    let c = with_quoted(b, line, "load plugin '"@);
    with_paths(c, line)
}

fn push_module(out: &mut Vec<String>, m: &[char])
    ensures
        text::texts(final(out)@) == with_module(text::texts(old(out)@), m@),
{
    if m.len() > 0 {
        let s = text::to_text(m);
        if !patch::is_listed(out.as_slice(), s.as_str()) {
            out.push(s);
            assert(text::texts(out@) =~= text::texts(old(out)@).push(m@));
        }
    }
}

fn push_quoted(out: &mut Vec<String>, line: &[char], pat: &str)
    ensures
        text::texts(final(out)@) == with_quoted(text::texts(old(out)@), line@, pat@),
{
    let p = text::to_chars(pat);
    let n = line.len();
    match text::find_chars(line, p.as_slice()) {
        Some(i) => {
            let rest = slice_subrange(line, i + p.len(), n);
            assert(rest@ =~= line@.skip(i + p@.len()));
            let end = text::find_first_of(rest, CharClass::Is('\''));
            if end < rest.len() {
                let m = slice_subrange(rest, 0, end);
                assert(m@ =~= rest@.take(end as int));
                push_module(out, m);
            }
        },
        None => {},
    }
}

fn push_paths(out: &mut Vec<String>, line: &[char])
    ensures
        text::texts(final(out)@) == with_paths(text::texts(old(out)@), line@),
{
    let tag = text::to_chars("node_modules/");
    let framework = FRAMEWORK_PACKAGES;
    let mut s: &[char] = line;
    loop
        invariant
            tag@ == "node_modules/"@,
            framework == FRAMEWORK_PACKAGES,
            with_paths(text::texts(out@), s@) == with_paths(text::texts(old(out)@), line@),
        decreases s@.len(),
    {
        let n = s.len();
        match text::find_chars(s, tag.as_slice()) {
            Some(p) => {
                let rest = slice_subrange(s, p + tag.len(), n);
                let end = find_package_end(rest);
                let pkg = slice_subrange(rest, 0, end);
                let next = slice_subrange(rest, end, rest.len());
                proof {
                    reveal_strlit("node_modules/");
                    assert(rest@ =~= s@.skip(p + tag@.len()));
                    assert(pkg@ =~= rest@.take(end as int));
                    assert(next@ =~= rest@.skip(end as int));
                }
                if !any_of(framework.as_slice(), pkg) && !text::begins_with(pkg, "node:") {
                    push_module(out, pkg);
                }
                s = next;
            },
            None => {
                return;
            },
        }
    }
}

/// Finds the modules that a line of output blames.
pub fn extract_modules(line: &str) -> (r: Vec<String>)
    ensures
        text::texts(r@) == modules_in(line@),
{
    let cs = text::to_chars(line);
    let mut out: Vec<String> = Vec::new();
    assert(text::texts(out@) =~= Seq::<Seq<char>>::empty());
    push_quoted(&mut out, cs.as_slice(), "Cannot find module '");
    push_quoted(&mut out, cs.as_slice(), "Cannot find package '");
    push_quoted(&mut out, cs.as_slice(), "load plugin '");
    push_paths(&mut out, cs.as_slice());
    out
}

// ---- rows of modules ------------------------------------------------------------------------

/// The first row with this name.
pub open spec fn row_named(
    rows: Seq<(Seq<char>, Seq<char>)>,
    name: Seq<char>,
) -> Option<(Seq<char>, Seq<char>)>
    decreases rows.len(),
{
    if rows.len() == 0 {
        None
    } else if rows[0].1 == name {
        Some(rows[0])
    } else {
        row_named(rows.skip(1), name)
    }
}

/// The first row whose name begins with `prefix`.
pub open spec fn row_below(
    rows: Seq<(Seq<char>, Seq<char>)>,
    prefix: Seq<char>,
) -> Option<(Seq<char>, Seq<char>)>
    decreases rows.len(),
{
    if rows.len() == 0 {
        None
    } else if text::starts_with(rows[0].1, prefix) {
        Some(rows[0])
    } else {
        row_below(rows.skip(1), prefix)
    }
}

/// The row of a module: the one with its name, else the one of its package, else the first of
/// something inside it.
pub open spec fn row_of(
    module: Seq<char>,
    rows: Seq<(Seq<char>, Seq<char>)>,
) -> Option<(Seq<char>, Seq<char>)> {
    match row_named(rows, module) {
        Some(r) => Some(r),
        None => match row_named(rows, package_of(module)) {
            Some(r) => Some(r),
            None => row_below(rows, module + seq!['/']),
        },
    }
}

/// The texts that an optional pair of strings holds.
pub open spec fn opt_pair(o: Option<(String, String)>) -> Option<(Seq<char>, Seq<char>)> {
    match o {
        Some(p) => Some((p.0@, p.1@)),
        None => None,
    }
}

fn copy_row(row: &(String, String)) -> (r: (String, String))
    ensures
        r.0@ == row.0@,
        r.1@ == row.1@,
{
    (row.0.clone(), row.1.clone())
}

fn find_named(rows: &[(String, String)], name: &str) -> (r: Option<(String, String)>)
    ensures
        opt_pair(r) == row_named(text::text_pairs(rows@), name@),
{
    let ghost all = text::text_pairs(rows@);
    let mut i: usize = 0;
    assert(all.skip(0) =~= all);
    while i < rows.len()
        invariant
            i <= rows@.len(),
            all == text::text_pairs(rows@),
            row_named(all, name@) == row_named(all.skip(i as int), name@),
        decreases rows@.len() - i,
    {
        assert(all.skip(i as int)[0] == all[i as int]);
        assert(all.skip(i as int).skip(1) =~= all.skip(i + 1));
        if text::same_text(rows[i].1.as_str(), name) {
            return Some(copy_row(&rows[i]));
        }
        i += 1;
    }
    None
}

fn find_below(rows: &[(String, String)], prefix: &[char]) -> (r: Option<(String, String)>)
    ensures
        opt_pair(r) == row_below(text::text_pairs(rows@), prefix@),
{
    let ghost all = text::text_pairs(rows@);
    let mut i: usize = 0;
    assert(all.skip(0) =~= all);
    while i < rows.len()
        invariant
            i <= rows@.len(),
            all == text::text_pairs(rows@),
            row_below(all, prefix@) == row_below(all.skip(i as int), prefix@),
        decreases rows@.len() - i,
    {
        assert(all.skip(i as int)[0] == all[i as int]);
        assert(all.skip(i as int).skip(1) =~= all.skip(i + 1));
        let name = text::to_chars(rows[i].1.as_str());
        if text::stands_at(name.as_slice(), prefix, 0) {
            return Some(copy_row(&rows[i]));
        }
        i += 1;
    }
    None
}

/// Finds the row of a module.
pub fn resolve_row(module: &str, pairs: &[(String, String)]) -> (r: Option<(String, String)>)
    ensures
        opt_pair(r) == row_of(module@, text::text_pairs(pairs@)),
{
    match find_named(pairs, module) {
        Some(r) => {
            return Some(r);
        },
        None => {},
    }
    match find_named(pairs, base_package(module)) {
        Some(r) => {
            return Some(r);
        },
        None => {},
    }
    let mut prefix = text::to_chars(module);
    prefix.push('/');
    assert(prefix@ =~= module@ + seq!['/']);
    find_below(pairs, prefix.as_slice())
}

// ---- the diagnosis --------------------------------------------------------------------------

/// Whether a line reports an error.
pub open spec fn is_error_line(line: Seq<char>) -> bool {
    let t = text::trim(line);
    ||| text::contains(t, "Error"@)
    ||| text::contains(t, "ERROR"@)
    ||| text::contains(t, "error:"@)
}

/// At most `n` characters at the start of `s`.
pub open spec fn at_most(s: Seq<char>, n: nat) -> Seq<char> {
    if s.len() <= n {
        s
    } else {
        s.take(n as int)
    }
}

/// The last line that reports an error, shortened; empty if none does.
pub open spec fn last_error(tail: Seq<Seq<char>>) -> Seq<char>
    decreases tail.len(),
{
    if tail.len() == 0 {
        Seq::empty()
    } else if is_error_line(tail.last()) {
        at_most(text::trim(tail.last()), REASON_CHARS as nat)
    } else {
        last_error(tail.drop_last())
    }
}

/// The modules that output blames, those of the last line first.
pub open spec fn blamed(tail: Seq<Seq<char>>) -> Seq<Seq<char>>
    decreases tail.len(),
{
    if tail.len() == 0 {
        Seq::empty()
    } else {
        modules_in(tail.last()) + blamed(tail.drop_last())
    }
}

/// Whether an id can be written into a layer.
pub open spec fn is_clean_id(id: Seq<char>) -> bool {
    id.len() > 0 && !text::has_white_space(id)
}

/// The entry for a module, if it has a row that may be disabled.
pub open spec fn suspect(
    module: Seq<char>,
    rows: Seq<(Seq<char>, Seq<char>)>,
    reason: Seq<char>,
) -> Option<EntryView> {
    match row_of(module, rows) {
        Some(row) => if is_clean_id(row.0) && !is_core_row(row.0) {
            Some(
                EntryView {
                    id: row.0,
                    module,
                    reason: if reason.len() == 0 {
                        "failed to load "@ + module
                    } else {
                        reason
                    },
                },
            )
        } else {
            None
        },
        None => None,
    }
}

/// `out` with the entry for one more module, unless its row is there already.
pub open spec fn with_suspect(
    out: Seq<EntryView>,
    module: Seq<char>,
    rows: Seq<(Seq<char>, Seq<char>)>,
    reason: Seq<char>,
) -> Seq<EntryView> {
    match suspect(module, rows, reason) {
        Some(e) => if has_entry(out, e.id) {
            out
        } else {
            out.push(e)
        },
        None => out,
    }
}

/// The entries for modules, one for each row, in the order of the modules.
pub open spec fn suspects(
    modules: Seq<Seq<char>>,
    rows: Seq<(Seq<char>, Seq<char>)>,
    reason: Seq<char>,
) -> Seq<EntryView>
    decreases modules.len(),
{
    if modules.len() == 0 {
        Seq::empty()
    } else {
        with_suspect(suspects(modules.drop_last(), rows, reason), modules.last(), rows, reason)
    }
}

/// The first entries, as many as one diagnosis names.
pub open spec fn one_round(v: Seq<EntryView>) -> Seq<EntryView> {
    if v.len() <= MAX_SUSPECTS_PER_ROUND {
        v
    } else {
        v.take(MAX_SUSPECTS_PER_ROUND as int)
    }
}

/// The rows that modules are looked up in: those of the bundles, then those of the user's layer.
pub open spec fn known_rows(
    bundle: Seq<(Seq<char>, Seq<char>)>,
    user: Option<Seq<char>>,
) -> Seq<(Seq<char>, Seq<char>)> {
    bundle + match user {
        Some(s) => patch::named_rows(s),
        None => Seq::empty(),
    }
}

/// The plugins that made a launch fail, from the last lines of its output.
pub open spec fn diagnosis(
    tail: Seq<Seq<char>>,
    bundle: Seq<(Seq<char>, Seq<char>)>,
    user: Option<Seq<char>>,
) -> Seq<EntryView> {
    one_round(suspects(blamed(tail), known_rows(bundle, user), last_error(tail)))
}

/// More modules add entries behind those of the first ones.
pub proof fn suspects_in_two(
    a: Seq<Seq<char>>,
    b: Seq<Seq<char>>,
    rows: Seq<(Seq<char>, Seq<char>)>,
    reason: Seq<char>,
)
    ensures
        suspects(a, rows, reason).len() <= suspects(a + b, rows, reason).len(),
        suspects(a + b, rows, reason).take(suspects(a, rows, reason).len() as int) == suspects(
            a,
            rows,
            reason,
        ),
    decreases b.len(),
{
    let x = suspects(a, rows, reason);
    let y = suspects(a + b, rows, reason);
    if b.len() == 0 {
        assert(a + b =~= a);
        assert(y.take(x.len() as int) =~= x);
    } else {
        suspects_in_two(a, b.drop_last(), rows, reason);
        assert((a + b).drop_last() =~= a + b.drop_last());
        let z = suspects(a + b.drop_last(), rows, reason);
        assert(z.take(x.len() as int) == x);
        assert forall|i: int| 0 <= i < x.len() implies y[i] == x[i] by {
            assert(z.take(x.len() as int)[i] == z[i]);
        }
        assert(y.take(x.len() as int) =~= x);
    }
}

fn read_last_error(tail: &[String]) -> (r: String)
    ensures
        r@ == last_error(text::texts(tail@)),
{
    let ghost all = text::texts(tail@);
    let mut i: usize = tail.len();
    assert(all.take(i as int) =~= all);
    while i > 0
        invariant
            i <= tail@.len(),
            all == text::texts(tail@),
            last_error(all) == last_error(all.take(i as int)),
        decreases i,
    {
        i -= 1;
        let line = text::to_chars(tail[i].as_str());
        proof {
            assert(all.take(i + 1).last() == line@);
            assert(all.take(i + 1).drop_last() =~= all.take(i as int));
        }
        let t = text::trimmed(line.as_slice());
        if text::has_str(t, "Error") || text::has_str(t, "ERROR") || text::has_str(t, "error:") {
            if t.len() <= REASON_CHARS {
                return text::to_text(t);
            }
            let short = slice_subrange(t, 0, REASON_CHARS);
            assert(short@ =~= t@.take(REASON_CHARS as int));
            return text::to_text(short);
        }
    }
    String::new()
}

fn find_suspect(module: &str, rows: &[(String, String)], reason: &str) -> (r: Option<DisableEntry>)
    ensures
        match r {
            Some(e) => suspect(module@, text::text_pairs(rows@), reason@) == Some(e@),
            None => suspect(module@, text::text_pairs(rows@), reason@) is None,
        },
{
    let core = CORE_ROW_DENYLIST;
    match resolve_row(module, rows) {
        Some(row) => {
            let id = text::to_chars(row.0.as_str());
            if id.len() > 0 && !text::any_white_space(id.as_slice()) && !any_of(
                core.as_slice(),
                id.as_slice(),
            ) {
                let why = if reason.unicode_len() == 0 {
                    let mut s = String::from_str("failed to load ");
                    s.append(module);
                    s
                } else {
                    String::from_str(reason)
                };
                Some(DisableEntry { id: row.0, module: String::from_str(module), reason: why })
            } else {
                None
            }
        },
        None => None,
    }
}

/// Diagnoses a launch that failed, from the last lines of its output, the rows of the bundles, and
/// the user's layer where it could be read.
pub fn diagnose(
    tail: &[String],
    bundle_pairs: &[(String, String)],
    user_patch: Option<&str>,
) -> (r: Vec<DisableEntry>)
    ensures
        entries(r@) == diagnosis(
            text::texts(tail@),
            text::text_pairs(bundle_pairs@),
            text::opt_str(user_patch),
        ),
{
    let rows = collect_rows(bundle_pairs, user_patch);
    let reason = read_last_error(tail);
    let ghost all = text::texts(tail@);
    let ghost known = text::text_pairs(rows@);
    let ghost total = blamed(all);
    let mut out: Vec<DisableEntry> = Vec::new();
    let ghost mut done: Seq<Seq<char>> = Seq::empty();
    let mut i: usize = tail.len();
    assert(all.take(i as int) =~= all);
    assert(done + blamed(all) =~= total);
    assert(entries(out@) =~= Seq::<EntryView>::empty());
    while i > 0
        invariant
            i <= tail@.len(),
            all == text::texts(tail@),
            known == text::text_pairs(rows@),
            reason@ == last_error(all),
            known == known_rows(text::text_pairs(bundle_pairs@), text::opt_str(user_patch)),
            total == blamed(all),
            done + blamed(all.take(i as int)) == total,
            entries(out@) == suspects(done, known, reason@),
            out@.len() < MAX_SUSPECTS_PER_ROUND,
        decreases i,
    {
        i -= 1;
        let modules = extract_modules(tail[i].as_str());
        let ghost here = text::texts(modules@);
        let ghost above = blamed(all.take(i as int));
        let ghost start = done;
        proof {
            assert(all.take(i + 1).last() == tail@[i as int]@);
            assert(all.take(i + 1).drop_last() =~= all.take(i as int));
            assert(start + here.take(0) =~= start);
        }
        let mut j: usize = 0;
        while j < modules.len()
            invariant
                j <= modules@.len(),
                here == text::texts(modules@),
                all == text::texts(tail@),
                known == text::text_pairs(rows@),
                reason@ == last_error(all),
                known == known_rows(text::text_pairs(bundle_pairs@), text::opt_str(user_patch)),
                total == blamed(all),
                start + (here + above) == total,
                done == start + here.take(j as int),
                entries(out@) == suspects(done, known, reason@),
                out@.len() < MAX_SUSPECTS_PER_ROUND,
            decreases modules@.len() - j,
        {
            let ghost before = entries(out@);
            let ghost m = here[j as int];
            proof {
                let next = start + here.take(j + 1);
                assert(next.drop_last() =~= done);
                assert(next.last() == m);
                done = next;
            }
            match find_suspect(modules[j].as_str(), rows.as_slice(), reason.as_str()) {
                Some(e) => {
                    if !lists_entry(out.as_slice(), e.id.as_str()) {
                        let ghost new = e@;
                        out.push(e);
                        assert(entries(out@) =~= before.push(new));
                        if out.len() >= MAX_SUSPECTS_PER_ROUND {
                            proof {
                                let back = here.skip(j + 1) + above;
                                assert(done + back =~= start + (here + above));
                                suspects_in_two(done, back, known, reason@);
                                assert(entries(out@) =~= one_round(
                                    suspects(total, known, reason@),
                                ));
                            }
                            return out;
                        }
                    }
                },
                None => {},
            }
            j += 1;
        }
        proof {
            assert(here.take(j as int) =~= here);
            assert(done + above =~= start + (here + above));
        }
    }
    assert(done + blamed(all.take(0)) =~= done);
    out
}

fn collect_rows(
    bundle_pairs: &[(String, String)],
    user_patch: Option<&str>,
) -> (r: Vec<(String, String)>)
    ensures
        text::text_pairs(r@) == known_rows(
            text::text_pairs(bundle_pairs@),
            text::opt_str(user_patch),
        ),
{
    let mut out: Vec<(String, String)> = Vec::new();
    let ghost all = text::text_pairs(bundle_pairs@);
    let mut i: usize = 0;
    assert(text::text_pairs(out@) =~= all.take(0));
    while i < bundle_pairs.len()
        invariant
            i <= bundle_pairs@.len(),
            all == text::text_pairs(bundle_pairs@),
            text::text_pairs(out@) == all.take(i as int),
        decreases bundle_pairs@.len() - i,
    {
        let ghost before = text::text_pairs(out@);
        out.push(copy_row(&bundle_pairs[i]));
        assert(text::text_pairs(out@) =~= before.push(all[i as int]));
        i += 1;
        assert(all.take(i as int) =~= all.take(i - 1).push(all[i - 1]));
    }
    assert(all.take(i as int) =~= all);
    match user_patch {
        Some(s) => {
            let mut rows = patch::scan_id_name_pairs(s);
            let ghost was = out@;
            let ghost added = rows@;
            out.append(&mut rows);
            assert(out@ == was + added);
            assert(text::text_pairs(out@) =~= all + text::text_pairs(added));
        },
        None => {
            assert(all + Seq::<(Seq<char>, Seq<char>)>::empty() =~= all);
        },
    }
    out
}

// ---- laws -----------------------------------------------------------------------------------

/// Whether an entry of a diagnosis names a row that may be disabled: one with an id that can be
/// written, that the service can do without.
pub open spec fn may_be_disabled(e: EntryView) -> bool {
    is_clean_id(e.id) && !is_core_row(e.id)
}

proof fn suspects_may_be_disabled(
    modules: Seq<Seq<char>>,
    rows: Seq<(Seq<char>, Seq<char>)>,
    reason: Seq<char>,
)
    ensures
        ({
            let v = suspects(modules, rows, reason);
            &&& forall|i: int| 0 <= i < v.len() ==> may_be_disabled(#[trigger] v[i])
            &&& forall|i: int, j: int|
                0 <= i < j < v.len() ==> (#[trigger] v[i]).id != (#[trigger] v[j]).id
        }),
    decreases modules.len(),
{
    let v = suspects(modules, rows, reason);
    if modules.len() == 0 {
        assert(v.len() == 0);
    } else {
        let w = suspects(modules.drop_last(), rows, reason);
        suspects_may_be_disabled(modules.drop_last(), rows, reason);
        assert(v == with_suspect(w, modules.last(), rows, reason));
        match suspect(modules.last(), rows, reason) {
            Some(e) => {
                if !has_entry(w, e.id) {
                    assert(v == w.push(e));
                    assert forall|i: int| 0 <= i < w.len() implies (#[trigger] w[i]).id != e.id by {
                    }
                }
            },
            None => {},
        }
    }
}

/// A diagnosis names at most three rows, each once, and never one that the service cannot do
/// without.
pub proof fn diagnosis_spares_core_rows(
    tail: Seq<Seq<char>>,
    bundle: Seq<(Seq<char>, Seq<char>)>,
    user: Option<Seq<char>>,
)
    ensures
        ({
            let v = diagnosis(tail, bundle, user);
            &&& v.len() <= MAX_SUSPECTS_PER_ROUND
            &&& forall|i: int| 0 <= i < v.len() ==> may_be_disabled(#[trigger] v[i])
            &&& forall|i: int, j: int|
                0 <= i < j < v.len() ==> (#[trigger] v[i]).id != (#[trigger] v[j]).id
        }),
{
    suspects_may_be_disabled(blamed(tail), known_rows(bundle, user), last_error(tail));
}

} // verus!
