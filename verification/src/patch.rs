//! Patch layers of a profile: which rows they hold, and the rows that recovery adds to them.
//!
//! A layer is a list at the top level of a YAML text, with flat keys. Only lines of that shape are
//! read.

use crate::diagnose;
use crate::diagnose::{DisableEntry, EntryView};
use crate::number;
use crate::text;
use crate::text::CharClass;
use vstd::prelude::*;
use vstd::slice::*;
use vstd::string::*;

verus! {

// ---- rows -----------------------------------------------------------------------------------

/// A value without white space and quotes at its ends.
pub open spec fn unquote(s: Seq<char>) -> Seq<char> {
    text::trim_of(text::trim_of(text::trim(s), CharClass::Is('\'')), CharClass::Is('"'))
}

/// Drops white space and quotes at both ends.
fn unquoted<'a>(s: &'a [char]) -> (r: &'a [char])
    ensures
        r@ == unquote(s@),
{
    text::without_ends(
        text::without_ends(text::trimmed(s), CharClass::Is('\'')),
        CharClass::Is('"'),
    )
}

/// The rows found so far, and the id whose name has not come yet.
#[verifier::ext_equal]
pub struct Scan {
    pub rows: Seq<(Seq<char>, Seq<char>)>,
    pub pending: Option<Seq<char>>,
}

/// A name was read: it makes a row with the id that waits for it.
pub open spec fn with_name(s: Scan, value: Seq<char>) -> Scan {
    match s.pending {
        Some(id) => Scan { rows: s.rows.push((id, unquote(value))), pending: None },
        None => s,
    }
}

/// A line was read. A name belongs to the id before it only where no other entry begins in between,
/// be it one that begins with a name.
pub open spec fn with_row_line(s: Scan, line: Seq<char>) -> Scan {
    let t = text::trim_start(line);
    match text::after_prefix(t, "- id:"@) {
        Some(v) => Scan { rows: s.rows, pending: Some(unquote(v)) },
        None => match text::after_prefix(t, "name:"@) {
            Some(v) => with_name(s, v),
            None => if text::starts_with(t, "- "@) {
                Scan { rows: s.rows, pending: None }
            } else {
                s
            },
        },
    }
}

/// All lines were read.
pub open spec fn scanned(lines: Seq<Seq<char>>) -> Scan
    decreases lines.len(),
{
    if lines.len() == 0 {
        Scan { rows: Seq::empty(), pending: None }
    } else {
        with_row_line(scanned(lines.drop_last()), lines.last())
    }
}

/// The rows of a layer that have an id and a name, in order.
pub open spec fn named_rows(s: Seq<char>) -> Seq<(Seq<char>, Seq<char>)> {
    scanned(text::lines(s)).rows
}

/// Reads the rows of a layer that have an id and a name.
pub fn scan_id_name_pairs(s: &str) -> (r: Vec<(String, String)>)
    ensures
        text::text_pairs(r@) == named_rows(s@),
{
    let cs = text::to_chars(s);
    let lines = text::split_lines(cs.as_slice());
    let ghost all = text::pieces(lines@);
    let mut out: Vec<(String, String)> = Vec::new();
    let mut pending: Option<String> = None;
    let mut i: usize = 0;
    assert(text::text_pairs(out@) =~= Seq::<(Seq<char>, Seq<char>)>::empty());
    while i < lines.len()
        invariant
            i <= lines@.len(),
            all == text::pieces(lines@),
            scanned(all.take(i as int)) == (Scan {
                rows: text::text_pairs(out@),
                pending: text::opt_text(pending),
            }),
        decreases lines@.len() - i,
    {
        let ghost before = text::text_pairs(out@);
        let t = text::without_start(lines[i].as_slice(), CharClass::WhiteSpace);
        proof {
            assert(all.take(i + 1).drop_last() =~= all.take(i as int));
            assert(all.take(i + 1).last() == lines@[i as int]@);
        }
        match text::cut_prefix(t, "- id:") {
            Some(v) => {
                pending = Some(text::to_text(unquoted(v)));
            },
            None => {
                match text::cut_prefix(t, "name:") {
                    Some(v) => {
                        match pending {
                            Some(id) => {
                                let ghost row = (id@, unquote(v@));
                                out.push((id, text::to_text(unquoted(v))));
                                assert(text::text_pairs(out@) =~= before.push(row));
                                pending = None;
                            },
                            None => {
                                pending = None;
                            },
                        }
                    },
                    None => {
                        if text::begins_with(t, "- ") {
                            pending = None;
                        }
                    },
                }
            },
        }
        i += 1;
    }
    assert(all.take(i as int) =~= all);
    out
}

/// The id of a row that begins in a line.
pub open spec fn line_id(line: Seq<char>) -> Option<Seq<char>> {
    match text::after_prefix(text::trim_start(line), "- id:"@) {
        Some(v) => Some(unquote(v)),
        None => None,
    }
}

/// Whether one of the lines begins a row with this id.
pub open spec fn lines_have_id(lines: Seq<Seq<char>>, id: Seq<char>) -> bool {
    exists|i: int| 0 <= i < lines.len() && line_id(#[trigger] lines[i]) == Some(id)
}

/// Whether a layer has a row with this id. No row has the empty id.
pub open spec fn has_id(s: Seq<char>, id: Seq<char>) -> bool {
    id.len() > 0 && lines_have_id(text::lines(s), id)
}

fn read_line_id(line: &[char]) -> (r: Option<String>)
    ensures
        text::opt_text(r) == line_id(line@),
{
    match text::cut_prefix(text::without_start(line, CharClass::WhiteSpace), "- id:") {
        Some(v) => Some(text::to_text(unquoted(v))),
        None => None,
    }
}

/// Tests whether a text is in a list.
pub fn is_listed(v: &[String], s: &str) -> (r: bool)
    ensures
        r == text::texts(v@).contains(s@),
{
    let mut i: usize = 0;
    while i < v.len()
        invariant
            i <= v@.len(),
            forall|j: int| 0 <= j < i ==> #[trigger] text::texts(v@)[j] != s@,
        decreases v@.len() - i,
    {
        if text::same_text(v[i].as_str(), s) {
            assert(text::texts(v@)[i as int] == s@);
            return true;
        }
        i += 1;
    }
    false
}

/// Reads the ids of a layer's rows, each once.
pub fn scan_all_ids(s: &str) -> (r: Vec<String>)
    ensures
        text::texts(r@).no_duplicates(),
        forall|id: Seq<char>| #[trigger] text::texts(r@).contains(id) <==> has_id(s@, id),
{
    let cs = text::to_chars(s);
    let lines = text::split_lines(cs.as_slice());
    let ghost all = text::pieces(lines@);
    let mut out: Vec<String> = Vec::new();
    let mut i: usize = 0;
    assert(text::texts(out@) =~= Seq::<Seq<char>>::empty());
    while i < lines.len()
        invariant
            i <= lines@.len(),
            all == text::pieces(lines@),
            text::texts(out@).no_duplicates(),
            forall|id: Seq<char>| #[trigger]
                text::texts(out@).contains(id) <==> id.len() > 0 && lines_have_id(
                    all.take(i as int),
                    id,
                ),
        decreases lines@.len() - i,
    {
        let ghost before = text::texts(out@);
        let found = read_line_id(lines[i].as_slice());
        proof {
            more_lines_have_id(all.take(i as int), lines@[i as int]@);
            assert(all.take(i + 1) =~= all.take(i as int).push(lines@[i as int]@));
        }
        match found {
            Some(id) => {
                if id.as_str().unicode_len() > 0 && !is_listed(out.as_slice(), id.as_str()) {
                    let ghost new = id@;
                    out.push(id);
                    proof {
                        assert(text::texts(out@) =~= before.push(new));
                        assert forall|x: Seq<char>| #[trigger]
                            before.push(new).contains(x) <==> before.contains(x) || x == new by {
                            if before.contains(x) {
                                let j = choose|j: int| 0 <= j < before.len() && before[j] == x;
                                assert(before.push(new)[j] == x);
                            }
                            if x == new {
                                assert(before.push(new)[before.len() as int] == x);
                            }
                        }
                    }
                }
            },
            None => {},
        }
        i += 1;
    }
    assert(all.take(i as int) =~= all);
    out
}

proof fn more_lines_have_id(lines: Seq<Seq<char>>, line: Seq<char>)
    ensures
        forall|id: Seq<char>| #[trigger]
            lines_have_id(lines.push(line), id) <==> lines_have_id(lines, id) || line_id(line)
                == Some(id),
{
    let more = lines.push(line);
    assert forall|id: Seq<char>| #[trigger]
        lines_have_id(more, id) <==> lines_have_id(lines, id) || line_id(line) == Some(id) by {
        if lines_have_id(lines, id) {
            let i = choose|i: int|
                0 <= i < lines.len() && line_id(#[trigger] lines[i]) == Some(id);
            assert(more[i] == lines[i]);
        }
        if line_id(line) == Some(id) {
            assert(more[lines.len() as int] == line);
        }
        if lines_have_id(more, id) {
            let i = choose|i: int| 0 <= i < more.len() && line_id(#[trigger] more[i]) == Some(id);
            if i < lines.len() {
                assert(lines[i] == more[i]);
            }
        }
    }
}

/// The named rows of several layers, one after another; a layer that could not be read has none.
pub open spec fn layer_rows(layers: Seq<Option<String>>) -> Seq<(Seq<char>, Seq<char>)>
    decreases layers.len(),
{
    if layers.len() == 0 {
        Seq::empty()
    } else {
        layer_rows(layers.drop_last()) + match layers.last() {
            Some(s) => named_rows(s@),
            None => Seq::empty(),
        }
    }
}

/// Reads the named rows of several layers.
pub fn load_bundle_pairs(layers: &[Option<String>]) -> (r: Vec<(String, String)>)
    ensures
        text::text_pairs(r@) == layer_rows(layers@),
{
    let mut out: Vec<(String, String)> = Vec::new();
    let mut i: usize = 0;
    assert(text::text_pairs(out@) =~= layer_rows(layers@.take(0)));
    while i < layers.len()
        invariant
            i <= layers@.len(),
            text::text_pairs(out@) == layer_rows(layers@.take(i as int)),
        decreases layers@.len() - i,
    {
        let ghost before = text::text_pairs(out@);
        proof {
            assert(layers@.take(i + 1).drop_last() =~= layers@.take(i as int));
            assert(layers@.take(i + 1).last() == layers@[i as int]);
        }
        match &layers[i] {
            Some(s) => {
                let mut rows = scan_id_name_pairs(s.as_str());
                let ghost new = text::text_pairs(rows@);
                let ghost was = out@;
                let ghost added = rows@;
                out.append(&mut rows);
                assert(out@ == was + added);
                assert(text::text_pairs(out@) =~= before + new);
            },
            None => {
                assert(before + Seq::<(Seq<char>, Seq<char>)>::empty() =~= before);
            },
        }
        i += 1;
    }
    assert(layers@.take(i as int) =~= layers@);
    out
}

// ---- rows that recovery adds ----------------------------------------------------------------

/// How many characters of a reason go into a comment.
pub const COMMENT_CHARS: usize = 120;

/// A reason as a comment holds it: on one line, shortened.
pub open spec fn comment_text(s: Seq<char>) -> Seq<char> {
    let t = diagnose::at_most(s, COMMENT_CHARS as nat);
    Seq::new(
        t.len(),
        |i: int|
            if t[i] == '\n' || t[i] == '\r' || t[i] == '\t' {
                ' '
            } else {
                t[i]
            },
    )
}

/// Makes a reason fit into a comment.
pub fn comment_safe(reason: &str) -> (r: String)
    ensures
        r@ == comment_text(reason@),
{
    let cs = text::to_chars(reason);
    let n: usize = if cs.len() <= COMMENT_CHARS {
        cs.len()
    } else {
        COMMENT_CHARS
    };
    let mut out: Vec<char> = Vec::new();
    let mut i: usize = 0;
    while i < n
        invariant
            i <= n <= cs@.len(),
            n == comment_text(cs@).len(),
            out@ == comment_text(cs@).take(i as int),
        decreases n - i,
    {
        let c = cs[i];
        if c == '\n' || c == '\r' || c == '\t' {
            out.push(' ');
        } else {
            out.push(c);
        }
        i += 1;
        assert(out@ =~= comment_text(cs@).take(i as int));
    }
    assert(comment_text(cs@).take(i as int) =~= comment_text(cs@));
    text::to_text(out.as_slice())
}

/// What a layer is, as far as rows can be added to it.
#[derive(Clone, Copy, Debug, PartialEq, Eq, Structural)]
pub enum Shape {
    /// Nothing but comments, or the empty list.
    Empty,
    /// A list in brackets, which rows cannot be added to.
    Inline,
    /// A list with one row below the other.
    Block,
}

/// The lines that are neither blank nor comments, without white space at their ends.
pub open spec fn significant(lines: Seq<Seq<char>>) -> Seq<Seq<char>>
    decreases lines.len(),
{
    if lines.len() == 0 {
        Seq::empty()
    } else {
        let t = text::trim(lines.last());
        if t.len() > 0 && t[0] != '#' {
            significant(lines.drop_last()).push(t)
        } else {
            significant(lines.drop_last())
        }
    }
}

/// What is left of a layer without comments.
pub open spec fn substance(content: Seq<char>) -> Seq<char> {
    text::join(significant(text::lines(content)), "\n"@)
}

/// The shape of a layer.
pub open spec fn shape(content: Seq<char>) -> Shape {
    let s = substance(content);
    if s.len() == 0 || s == "[]"@ {
        Shape::Empty
    } else if s[0] == '[' {
        Shape::Inline
    } else {
        Shape::Block
    }
}

fn read_shape(content: &[char]) -> (r: Shape)
    ensures
        r == shape(content@),
{
    let lines = text::split_lines(content);
    let ghost all = text::pieces(lines@);
    let mut kept: Vec<Vec<char>> = Vec::new();
    let mut i: usize = 0;
    assert(text::pieces(kept@) =~= significant(all.take(0)));
    while i < lines.len()
        invariant
            i <= lines@.len(),
            all == text::pieces(lines@),
            text::pieces(kept@) == significant(all.take(i as int)),
        decreases lines@.len() - i,
    {
        let ghost before = text::pieces(kept@);
        let t = text::trimmed(lines[i].as_slice());
        proof {
            assert(all.take(i + 1).drop_last() =~= all.take(i as int));
            assert(all.take(i + 1).last() == lines@[i as int]@);
        }
        if t.len() > 0 && t[0] != '#' {
            kept.push(text::copy_chars(t));
            assert(text::pieces(kept@) =~= before.push(t@));
        }
        i += 1;
    }
    assert(all.take(i as int) =~= all);
    let s = text::join_chars(kept.as_slice(), "\n");
    let empty_list = text::to_chars("[]");
    if s.len() == 0 || text::same_chars(s.as_slice(), empty_list.as_slice()) {
        Shape::Empty
    } else if s[0] == '[' {
        Shape::Inline
    } else {
        Shape::Block
    }
}

/// Whether an entry becomes a row: its id can be written and the layer has no row with it.
pub open spec fn is_fresh(e: EntryView, content: Seq<char>) -> bool {
    !has_id(content, e.id) && diagnose::is_clean_id(e.id)
}

/// The entries that become rows.
pub open spec fn fresh(entries: Seq<EntryView>, content: Seq<char>) -> Seq<EntryView>
    decreases entries.len(),
{
    if entries.len() == 0 {
        Seq::empty()
    } else if is_fresh(entries.last(), content) {
        fresh(entries.drop_last(), content).push(entries.last())
    } else {
        fresh(entries.drop_last(), content)
    }
}

/// The comment at the start of a new layer.
pub const LAYER_HEADER: &'static str =
    "# Your patch layer for this dsh profile, applied after every bundle layer:\n# a top-level YAML array of loader patch entries (id-targeted config\n# overrides, disables, and insert lists; `!!js` expressions allowed).\n";

/// What stands before the added rows: the layer itself where rows can be added to it, else a
/// comment in its place.
pub open spec fn layer_head(content: Seq<char>, backup: Seq<char>) -> Seq<char> {
    match shape(content) {
        Shape::Empty => LAYER_HEADER@,
        Shape::Inline => "# dsh-desktop: 原行内补丁列表无法安全追加，已备份到 "@ + backup + "\n"@,
        Shape::Block => if content.len() > 0 && content.last() == '\n' {
            content
        } else {
            content + "\n"@
        },
    }
}

/// An added row, with a comment that tells when and why.
pub open spec fn row_block(ts: u64, e: EntryView) -> Seq<char> {
    "\n# dsh-desktop auto-recovery ("@ + number::decimal(ts as nat)
        + "): 该插件导致启动失败 —— "@ + comment_text(e.reason) + "\n- id: "@ + e.id
        + "\n  disabled: true\n"@
}

/// The added rows.
pub open spec fn row_blocks(ts: u64, entries: Seq<EntryView>) -> Seq<char>
    decreases entries.len(),
{
    if entries.len() == 0 {
        Seq::empty()
    } else {
        row_blocks(ts, entries.drop_last()) + row_block(ts, entries.last())
    }
}

/// The ids of entries.
pub open spec fn entry_ids(entries: Seq<EntryView>) -> Seq<Seq<char>> {
    Seq::new(entries.len(), |i: int| entries[i].id)
}

/// What to do with a layer.
pub enum PatchPlan {
    /// Leave it as it is.
    Unchanged,
    /// Write `text` in its place, which adds rows with the ids `added`; with `backup`, copy the
    /// layer first.
    Write { backup: bool, text: String, added: Vec<String> },
}

/// A [`PatchPlan`] with its texts as sequences of characters.
#[verifier::ext_equal]
pub enum PlanView {
    Unchanged,
    Write { backup: bool, text: Seq<char>, added: Seq<Seq<char>> },
}

impl View for PatchPlan {
    type V = PlanView;

    open spec fn view(&self) -> PlanView {
        match self {
            PatchPlan::Unchanged => PlanView::Unchanged,
            PatchPlan::Write { backup, text, added } => PlanView::Write {
                backup: *backup,
                text: text@,
                added: text::texts(added@),
            },
        }
    }
}

/// How rows that disable plugins are added to a layer.
pub open spec fn disable_plan(
    content: Seq<char>,
    entries: Seq<EntryView>,
    ts: u64,
    backup: Seq<char>,
) -> PlanView {
    let new = fresh(entries, content);
    if new.len() == 0 {
        PlanView::Unchanged
    } else {
        PlanView::Write {
            backup: shape(content) == Shape::Inline,
            text: layer_head(content, backup) + row_blocks(ts, new),
            added: entry_ids(new),
        }
    }
}

fn make_row_block(ts: u64, e: &DisableEntry) -> (r: String)
    ensures
        r@ == row_block(ts, e@),
{
    let mut out = String::from_str("\n# dsh-desktop auto-recovery (");
    let t = number::decimal_text(ts);
    out.append(t.as_str());
    out.append("): 该插件导致启动失败 —— ");
    let why = comment_safe(e.reason.as_str());
    out.append(why.as_str());
    out.append("\n- id: ");
    out.append(e.id.as_str());
    out.append("\n  disabled: true\n");
    out
}

fn make_layer_head(content: &str, backup: &str) -> (r: String)
    ensures
        r@ == layer_head(content@, backup@),
{
    let cs = text::to_chars(content);
    match read_shape(cs.as_slice()) {
        Shape::Empty => String::from_str(LAYER_HEADER),
        Shape::Inline => {
            let mut out = String::from_str(
                "# dsh-desktop: 原行内补丁列表无法安全追加，已备份到 ",
            );
            out.append(backup);
            out.append("\n");
            out
        },
        Shape::Block => {
            let mut out = String::from_str(content);
            let n = cs.len();
            if n == 0 || cs[n - 1] != '\n' {
                out.append("\n");
            }
            out
        },
    }
}

/// The extension that the copy of a layer gets in place of its own.
pub fn backup_extension(ts: u64) -> (r: String)
    ensures
        r@ == "yml.bak-"@ + number::decimal(ts as nat),
{
    let mut out = String::from_str("yml.bak-");
    let t = number::decimal_text(ts);
    out.append(t.as_str());
    out
}

/// Plans how rows that disable plugins are added to a layer whose text is `content`, at the time
/// `ts`; `backup` is the place that the layer is copied to where it has to be replaced.
pub fn append_disable_entries(
    content: &str,
    entries: &[DisableEntry],
    ts: u64,
    backup: &str,
) -> (r: PatchPlan)
    ensures
        r@ == disable_plan(content@, diagnose::entries(entries@), ts, backup@),
{
    let existing = scan_all_ids(content);
    let ghost all = diagnose::entries(entries@);
    let mut blocks = String::new();
    let mut added: Vec<String> = Vec::new();
    let mut i: usize = 0;
    assert(text::texts(added@) =~= entry_ids(fresh(all.take(0), content@)));
    while i < entries.len()
        invariant
            i <= entries@.len(),
            all == diagnose::entries(entries@),
            forall|id: Seq<char>| #[trigger]
                text::texts(existing@).contains(id) <==> has_id(content@, id),
            blocks@ == row_blocks(ts, fresh(all.take(i as int), content@)),
            text::texts(added@) == entry_ids(fresh(all.take(i as int), content@)),
        decreases entries@.len() - i,
    {
        let ghost before = fresh(all.take(i as int), content@);
        let ghost added_before = text::texts(added@);
        proof {
            assert(all.take(i + 1).drop_last() =~= all.take(i as int));
            assert(all.take(i + 1).last() == entries@[i as int]@);
        }
        let e = &entries[i];
        let id = text::to_chars(e.id.as_str());
        if !is_listed(existing.as_slice(), e.id.as_str()) && id.len() > 0 && !text::any_white_space(
            id.as_slice(),
        ) {
            let b = make_row_block(ts, e);
            blocks.append(b.as_str());
            text::push_text(&mut added, e.id.as_str());
            proof {
                let after = before.push(e@);
                assert(after.drop_last() =~= before);
                assert(entry_ids(after) =~= added_before.push(e@.id));
            }
        }
        i += 1;
    }
    assert(all.take(i as int) =~= all);
    if added.len() == 0 {
        assert(fresh(all, content@).len() == text::texts(added@).len());
        return PatchPlan::Unchanged;
    }
    assert(fresh(all, content@).len() == text::texts(added@).len());
    let cs = text::to_chars(content);
    let backup_first = match read_shape(cs.as_slice()) {
        Shape::Inline => true,
        _ => false,
    };
    let mut out = make_layer_head(content, backup);
    out.append(blocks.as_str());
    PatchPlan::Write { backup: backup_first, text: out, added }
}

// ---- safe mode ------------------------------------------------------------------------------

/// Whether one of the rows has this name.
pub open spec fn has_name(rows: Seq<(Seq<char>, Seq<char>)>, name: Seq<char>) -> bool {
    exists|i: int| 0 <= i < rows.len() && (#[trigger] rows[i]).1 == name
}

/// Whether a module comes from neither the project nor a bundle.
pub open spec fn is_third_party(name: Seq<char>, bundle: Seq<(Seq<char>, Seq<char>)>) -> bool {
    &&& !text::starts_with(name, "@deepseek-ai/"@)
    &&& !has_name(bundle, name)
    &&& !has_name(bundle, diagnose::package_of(name))
}

/// The ids of third-party rows that can be written.
pub open spec fn third_party_ids(
    rows: Seq<(Seq<char>, Seq<char>)>,
    bundle: Seq<(Seq<char>, Seq<char>)>,
) -> Seq<Seq<char>>
    decreases rows.len(),
{
    if rows.len() == 0 {
        Seq::empty()
    } else {
        let before = third_party_ids(rows.drop_last(), bundle);
        if is_third_party(rows.last().1, bundle) && diagnose::is_clean_id(rows.last().0) {
            before.push(rows.last().0)
        } else {
            before
        }
    }
}

/// The comment at the start of the overlay for safe mode.
pub const OVERLAY_HEADER: &'static str =
    "# dsh-desktop safe-mode overlay: 本文件由桌面壳在安全模式下通过\n# `dsh web --patch <此文件>` 一次性注入，用于停用所有第三方插件；\n# 正常启动不会加载它，可随时删除。\n";

/// The rows of the overlay.
pub open spec fn overlay_rows(ids: Seq<Seq<char>>) -> Seq<char>
    decreases ids.len(),
{
    if ids.len() == 0 {
        Seq::empty()
    } else {
        overlay_rows(ids.drop_last()) + ("- id: "@ + ids.last() + "\n  disabled: true\n"@)
    }
}

/// An overlay that disables third-party rows.
pub struct Overlay {
    pub ids: Vec<String>,
    pub text: String,
}

fn names_contain(rows: &[(String, String)], name: &str) -> (r: bool)
    ensures
        r == has_name(text::text_pairs(rows@), name@),
{
    let mut i: usize = 0;
    while i < rows.len()
        invariant
            i <= rows@.len(),
            forall|j: int| 0 <= j < i ==> (#[trigger] text::text_pairs(rows@)[j]).1 != name@,
        decreases rows@.len() - i,
    {
        if text::same_text(rows[i].1.as_str(), name) {
            assert(text::text_pairs(rows@)[i as int].1 == name@);
            return true;
        }
        i += 1;
    }
    false
}

/// Makes the overlay that disables every third-party row of the user's layer; none if it has no
/// such row.
pub fn safe_mode_overlay(user_text: &str, bundle_pairs: &[(String, String)]) -> (r: Option<Overlay>)
    ensures
        ({
            let ids = third_party_ids(named_rows(user_text@), text::text_pairs(bundle_pairs@));
            match r {
                Some(o) => ids.len() > 0 && text::texts(o.ids@) == ids && o.text@ == OVERLAY_HEADER@
                    + overlay_rows(ids),
                None => ids.len() == 0,
            }
        }),
{
    let rows = scan_id_name_pairs(user_text);
    let ghost all = text::text_pairs(rows@);
    let ghost bundle = text::text_pairs(bundle_pairs@);
    let mut ids: Vec<String> = Vec::new();
    let mut body = String::new();
    let mut i: usize = 0;
    assert(text::texts(ids@) =~= third_party_ids(all.take(0), bundle));
    while i < rows.len()
        invariant
            i <= rows@.len(),
            all == text::text_pairs(rows@),
            bundle == text::text_pairs(bundle_pairs@),
            text::texts(ids@) == third_party_ids(all.take(i as int), bundle),
            body@ == overlay_rows(text::texts(ids@)),
        decreases rows@.len() - i,
    {
        let ghost before = text::texts(ids@);
        proof {
            assert(all.take(i + 1).drop_last() =~= all.take(i as int));
            assert(all.take(i + 1).last() == all[i as int]);
        }
        let name = text::to_chars(rows[i].1.as_str());
        let id = text::to_chars(rows[i].0.as_str());
        let base = diagnose::base_package(rows[i].1.as_str());
        if !text::begins_with(name.as_slice(), "@deepseek-ai/") && !names_contain(
            bundle_pairs,
            rows[i].1.as_str(),
        ) && !names_contain(bundle_pairs, base) {
            if id.len() > 0 && !text::any_white_space(id.as_slice()) {
                text::push_text(&mut ids, rows[i].0.as_str());
                let mut row = String::from_str("- id: ");
                row.append(rows[i].0.as_str());
                row.append("\n  disabled: true\n");
                body.append(row.as_str());
                proof {
                    assert(before.push(rows@[i as int].0@).drop_last() =~= before);
                }
            }
        }
        i += 1;
    }
    assert(all.take(i as int) =~= all);
    if ids.len() == 0 {
        assert(text::texts(ids@).len() == 0);
        return None;
    }
    assert(text::texts(ids@).len() > 0);
    let mut out = String::from_str(OVERLAY_HEADER);
    out.append(body.as_str());
    Some(Overlay { ids, text: out })
}

} // verus!
