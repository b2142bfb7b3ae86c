//! What adding rows to a patch layer keeps and promises.

use crate::diagnose;
use crate::diagnose::EntryView;
use crate::number;
use crate::patch;
use crate::patch::{PlanView, Shape};
use crate::text;
use vstd::prelude::*;

verus! {

/// Whether an id is read back as it is written: it has no quotes at its ends.
pub open spec fn is_plain_id(id: Seq<char>) -> bool {
    patch::unquote(id) == id
}

// ---- lines with an id -----------------------------------------------------------------------

/// The line that begins a row is read back as its id.
proof fn id_line_reads_back(id: Seq<char>)
    requires
        diagnose::is_clean_id(id),
        is_plain_id(id),
    ensures
        patch::line_id("- id: "@ + id) == Some(id),
        !("- id: "@ + id).contains('\n'),
        text::without_cr("- id: "@ + id) == "- id: "@ + id,
{
    reveal_strlit("- id: ");
    reveal_strlit("- id:");
    let line = "- id: "@ + id;
    text::run_is(line, text::CharClass::WhiteSpace, 0);
    assert(text::trim_start(line) =~= line);
    assert(line.subrange(0, 5) =~= "- id:"@);
    let v = line.skip(5);
    assert(v =~= seq![' '] + id);
    text::trim_of_word(id, ' ');
    assert forall|i: int| 0 <= i < line.len() implies line[i] != '\n' by {
        if i >= 6 {
            assert(line[i] == id[i - 6]);
            assert(!text::is_white_space(id[i - 6]));
        }
    }
    assert(line.last() == id.last());
    assert(!text::is_white_space(id[id.len() - 1]));
}

/// A row in a text is found by its id.
proof fn row_is_found(before: Seq<char>, id: Seq<char>, after: Seq<char>)
    requires
        before.len() == 0 || before.last() == '\n',
        diagnose::is_clean_id(id),
        is_plain_id(id),
    ensures
        patch::has_id(before + ("- id: "@ + id).push('\n') + after, id),
{
    let line = "- id: "@ + id;
    id_line_reads_back(id);
    let mid = line.push('\n');
    text::one_line(line);
    assert(mid.last() == '\n');
    let whole = before + mid + after;
    assert(whole =~= before + (mid + after));
    text::lines_in_two(before, mid + after);
    text::lines_in_two(mid, after);
    let ls = text::lines(whole);
    let i = text::lines(before).len() as int;
    assert(ls[i] == line);
}

/// A row that was found in a text is found in a longer one too.
proof fn ids_stay(before: Seq<char>, after: Seq<char>, id: Seq<char>)
    requires
        before.len() == 0 || before.last() == '\n',
        patch::has_id(before, id),
    ensures
        patch::has_id(before + after, id),
{
    text::lines_in_two(before, after);
    let ls = text::lines(before);
    let i = choose|i: int| 0 <= i < ls.len() && patch::line_id(#[trigger] ls[i]) == Some(id);
    assert(text::lines(before + after)[i] == ls[i]);
}

/// A carriage return at the end of a line makes no difference to its id.
proof fn line_id_ignores_cr(s: Seq<char>)
    ensures
        patch::line_id(s.push('\r')) == patch::line_id(s),
{
    reveal_strlit("- id:");
    let p = "- id:"@;
    let a = text::trim_start(s);
    let b = text::trim_start(s.push('\r'));
    text::trim_ignores_cr(s);
    if a.len() > 0 {
        assert(b == a.push('\r'));
        if text::starts_with(a, p) {
            assert(b.subrange(0, 5) =~= a.subrange(0, 5));
            assert(b.skip(5) =~= a.skip(5).push('\r'));
            text::trim_ignores_cr(a.skip(5));
        } else if text::starts_with(b, p) {
            if a.len() >= 5 {
                assert(a.subrange(0, 5) =~= b.subrange(0, 5));
            } else {
                assert(b.len() == 5);
                assert(b.subrange(0, 5)[4] == '\r');
            }
        }
    }
}

proof fn id_stays_behind(head: Seq<Seq<char>>, lines: Seq<Seq<char>>, id: Seq<char>)
    requires
        patch::lines_have_id(lines, id),
    ensures
        patch::lines_have_id(head + lines, id),
{
    let q = choose|q: int| 0 <= q < lines.len() && patch::line_id(#[trigger] lines[q]) == Some(id);
    assert((head + lines)[head.len() + q] == lines[q]);
}

/// Ending the last line makes no difference to the ids.
proof fn ids_stay_with_line_end(s: Seq<char>, id: Seq<char>)
    requires
        s.len() > 0,
        s.last() != '\n',
        patch::lines_have_id(text::lines(s), id),
    ensures
        patch::lines_have_id(text::lines(s.push('\n')), id),
    decreases s.len(),
{
    let k = text::CharClass::Is('\n');
    let i = text::first_of(s, k) as int;
    text::first_of_bounds(s, k);
    let t = s.push('\n');
    let ls = text::lines(s);
    let lt = text::lines(t);
    let m = choose|m: int| 0 <= m < ls.len() && patch::line_id(#[trigger] ls[m]) == Some(id);
    if i < s.len() {
        assert forall|j: int| 0 <= j < i implies !k.has(#[trigger] t[j]) by {
            assert(t[j] == s[j]);
        }
        assert(t[i] == s[i]);
        text::first_of_is(t, k, i as nat);
        let rest = s.skip(i + 1);
        assert(t.take(i) =~= s.take(i));
        assert(t.skip(i + 1) =~= rest.push('\n'));
        let head = seq![text::without_cr(s.take(i))];
        assert(ls == head + text::lines(rest));
        assert(lt == head + text::lines(rest.push('\n')));
        if m == 0 {
            assert(lt[0] == ls[0]);
        } else {
            assert(rest.last() == s.last());
            assert(patch::lines_have_id(text::lines(rest), id)) by {
                assert(text::lines(rest)[m - 1] == ls[m]);
            }
            ids_stay_with_line_end(rest, id);
            id_stays_behind(head, text::lines(rest.push('\n')), id);
        }
    } else {
        last_line_keeps_its_id(s, id);
    }
}

proof fn last_line_keeps_its_id(s: Seq<char>, id: Seq<char>)
    requires
        s.len() > 0,
        text::first_of(s, text::CharClass::Is('\n')) == s.len(),
        patch::lines_have_id(text::lines(s), id),
    ensures
        patch::lines_have_id(text::lines(s.push('\n')), id),
{
    let k = text::CharClass::Is('\n');
    text::first_of_bounds(s, k);
    assert(!s.contains('\n')) by {
        if s.contains('\n') {
            let j = choose|j: int| 0 <= j < s.len() && s[j] == '\n';
            assert(!k.has(s[j]));
        }
    }
    text::one_line(s);
    let ls = text::lines(s);
    let lt = text::lines(s.push('\n'));
    let m = choose|m: int| 0 <= m < ls.len() && patch::line_id(#[trigger] ls[m]) == Some(id);
    assert(ls == seq![s]);
    assert(patch::line_id(s) == Some(id));
    if s.last() == '\r' {
        assert(s =~= s.drop_last().push('\r'));
        line_id_ignores_cr(s.drop_last());
    }
    assert(patch::line_id(lt[0]) == Some(id));
}

/// A layer with a row is neither empty nor the empty list.
proof fn layer_with_row_has_substance(content: Seq<char>, id: Seq<char>)
    requires
        patch::has_id(content, id),
    ensures
        patch::shape(content) != Shape::Empty,
{
    let ls = text::lines(content);
    let i = choose|i: int| 0 <= i < ls.len() && patch::line_id(#[trigger] ls[i]) == Some(id);
    let line = ls[i];
    reveal_strlit("- id:");
    reveal_strlit("[]");
    let k = text::CharClass::WhiteSpace;
    let t = text::trim_start(line);
    assert(t.subrange(0, 5)[0] == '-');
    assert(t[0] == '-');
    text::end_run_bounds(t, k);
    if text::end_run(t, k) == t.len() {
        assert(k.has(t[0]));
    }
    let u = text::trim(line);
    assert(u[0] == '-');
    significant_has(ls, i);
    let parts = patch::significant(ls);
    let j = choose|j: int| 0 <= j < parts.len() && #[trigger] parts[j] == u;
    assert(parts[j].contains('-')) by {
        assert(u[0] == '-');
    }
    text::join_has_parts(parts, "\n"@, j, '-');
    let s = patch::substance(content);
    let m = choose|m: int| 0 <= m < s.len() && s[m] == '-';
    assert(s[m] != '[' && s[m] != ']');
}

proof fn significant_has(lines: Seq<Seq<char>>, i: int)
    requires
        0 <= i < lines.len(),
        text::trim(lines[i]).len() > 0,
        text::trim(lines[i])[0] != '#',
    ensures
        exists|j: int|
            0 <= j < patch::significant(lines).len() && #[trigger] patch::significant(lines)[j]
                == text::trim(lines[i]),
    decreases lines.len(),
{
    let parts = patch::significant(lines);
    if i == lines.len() - 1 {
        assert(parts[parts.len() - 1] == text::trim(lines[i]));
    } else {
        significant_has(lines.drop_last(), i);
        let front = patch::significant(lines.drop_last());
        let j = choose|j: int|
            0 <= j < front.len() && #[trigger] front[j] == text::trim(lines.drop_last()[i]);
        assert(parts[j] == front[j]);
    }
}

// ---- added rows -----------------------------------------------------------------------------

/// An added row is found by its id.
proof fn block_is_found(before: Seq<char>, ts: u64, e: EntryView, after: Seq<char>)
    requires
        diagnose::is_clean_id(e.id),
        is_plain_id(e.id),
    ensures
        patch::has_id(before + patch::row_block(ts, e) + after, e.id),
{
    reveal_strlit("\n- id: ");
    reveal_strlit("- id: ");
    reveal_strlit("\n  disabled: true\n");
    let a = "\n# dsh-desktop auto-recovery ("@ + number::decimal(ts as nat)
        + "): 该插件导致启动失败 —— "@ + patch::comment_text(e.reason);
    let lead = "\n- id: "@;
    let end = "\n  disabled: true\n"@;
    let block = patch::row_block(ts, e);
    assert(block == a + lead + e.id + end);
    let x = (before + a).push('\n');
    let y = end.skip(1) + after;
    let mid = ("- id: "@ + e.id).push('\n');
    assert(lead =~= seq!['\n'] + "- id: "@);
    assert(end =~= seq!['\n'] + end.skip(1));
    assert(before + block + after =~= x + mid + y);
    row_is_found(x, e.id, y);
}

proof fn blocks_are_found(before: Seq<char>, ts: u64, v: Seq<EntryView>, after: Seq<char>, k: int)
    requires
        0 <= k < v.len(),
        diagnose::is_clean_id(v[k].id),
        is_plain_id(v[k].id),
    ensures
        patch::has_id(before + patch::row_blocks(ts, v) + after, v[k].id),
    decreases v.len(),
{
    let front = patch::row_blocks(ts, v.drop_last());
    let last = patch::row_block(ts, v.last());
    if k == v.len() - 1 {
        assert(before + patch::row_blocks(ts, v) + after =~= (before + front) + last + after);
        block_is_found(before + front, ts, v[k], after);
    } else {
        assert(before + patch::row_blocks(ts, v) + after =~= before + front + (last + after));
        blocks_are_found(before, ts, v.drop_last(), last + after, k);
    }
}

proof fn fresh_are_fresh(v: Seq<EntryView>, content: Seq<char>)
    ensures
        forall|i: int|
            0 <= i < patch::fresh(v, content).len() ==> patch::is_fresh(
                #[trigger] patch::fresh(v, content)[i],
                content,
            ) && v.contains(patch::fresh(v, content)[i]),
        forall|i: int|
            0 <= i < v.len() && patch::is_fresh(#[trigger] v[i], content) ==> patch::fresh(
                v,
                content,
            ).contains(v[i]),
    decreases v.len(),
{
    let f = patch::fresh(v, content);
    if v.len() > 0 {
        let w = v.drop_last();
        let g = patch::fresh(w, content);
        fresh_are_fresh(w, content);
        assert forall|i: int| 0 <= i < f.len() implies patch::is_fresh(#[trigger] f[i], content)
            && v.contains(f[i]) by {
            if i < g.len() {
                assert(f[i] == g[i]);
                let j = choose|j: int| 0 <= j < w.len() && w[j] == g[i];
                assert(v[j] == f[i]);
            } else {
                assert(f[i] == v.last());
                assert(v[v.len() - 1] == f[i]);
            }
        }
        assert forall|i: int|
            0 <= i < v.len() && patch::is_fresh(#[trigger] v[i], content) implies f.contains(
            v[i],
        ) by {
            if i < w.len() {
                assert(w[i] == v[i]);
                assert(g.contains(w[i]));
                let j = choose|j: int| 0 <= j < g.len() && g[j] == w[i];
                assert(f[j] == v[i]);
            } else {
                assert(f[f.len() - 1] == v[i]);
            }
        }
    } else {
        assert(f.len() == 0);
    }
}

proof fn nothing_fresh(v: Seq<EntryView>, content: Seq<char>)
    requires
        forall|i: int| 0 <= i < v.len() ==> !patch::is_fresh(#[trigger] v[i], content),
    ensures
        patch::fresh(v, content).len() == 0,
    decreases v.len(),
{
    if v.len() > 0 {
        let w = v.drop_last();
        assert forall|i: int| 0 <= i < w.len() implies !patch::is_fresh(#[trigger] w[i], content) by {
            assert(w[i] == v[i]);
        }
        nothing_fresh(w, content);
        assert(!patch::is_fresh(v[v.len() - 1], content));
    }
}

/// A layer that rows are added to keeps its text: the rows come behind it.
pub proof fn rows_are_added_behind_the_layer(
    content: Seq<char>,
    v: Seq<EntryView>,
    ts: u64,
    backup: Seq<char>,
)
    requires
        patch::shape(content) == Shape::Block,
    ensures
        match patch::disable_plan(content, v, ts, backup) {
            PlanView::Write { backup: copy, text: new, added } => !copy && new.len()
                >= content.len() && new.take(content.len() as int) == content,
            PlanView::Unchanged => true,
        },
{
    let head = patch::layer_head(content, backup);
    let new = head + patch::row_blocks(ts, patch::fresh(v, content));
    assert(new.take(content.len() as int) =~= content);
}

/// A layer that rows are added to keeps every row that it had.
pub proof fn rows_stay(
    content: Seq<char>,
    v: Seq<EntryView>,
    ts: u64,
    backup: Seq<char>,
    id: Seq<char>,
)
    requires
        patch::shape(content) == Shape::Block,
        patch::has_id(content, id),
    ensures
        match patch::disable_plan(content, v, ts, backup) {
            PlanView::Write { backup: copy, text: new, added } => patch::has_id(new, id),
            PlanView::Unchanged => true,
        },
{
    let blocks = patch::row_blocks(ts, patch::fresh(v, content));
    reveal_strlit("\n");
    if content.len() > 0 && content.last() == '\n' {
        ids_stay(content, blocks, id);
    } else if content.len() > 0 {
        assert(content + "\n"@ =~= content.push('\n'));
        ids_stay_with_line_end(content, id);
        ids_stay(content.push('\n'), blocks, id);
    } else {
        assert(text::lines(content).len() == 0);
    }
}

proof fn fresh_rows_are_found(content: Seq<char>, v: Seq<EntryView>, ts: u64, head: Seq<char>, k: int)
    requires
        forall|i: int|
            0 <= i < v.len() && patch::is_fresh(#[trigger] v[i], content) ==> is_plain_id(v[i].id),
        0 <= k < patch::fresh(v, content).len(),
    ensures
        patch::has_id(
            head + patch::row_blocks(ts, patch::fresh(v, content)),
            patch::fresh(v, content)[k].id,
        ),
{
    let f = patch::fresh(v, content);
    fresh_are_fresh(v, content);
    assert(patch::is_fresh(f[k], content));
    assert(v.contains(f[k]));
    let j = choose|j: int| 0 <= j < v.len() && v[j] == f[k];
    assert(patch::is_fresh(v[j], content));
    blocks_are_found(head, ts, f, Seq::empty(), k);
    assert(head + patch::row_blocks(ts, f) + Seq::<char>::empty() =~= head + patch::row_blocks(
        ts,
        f,
    ));
}

/// Every row that was added is found when the layer is read again.
pub proof fn added_rows_are_found(
    content: Seq<char>,
    v: Seq<EntryView>,
    ts: u64,
    backup: Seq<char>,
)
    requires
        forall|i: int|
            0 <= i < v.len() && patch::is_fresh(#[trigger] v[i], content) ==> is_plain_id(v[i].id),
    ensures
        match patch::disable_plan(content, v, ts, backup) {
            PlanView::Write { backup: copy, text: new, added } => forall|i: int|
                0 <= i < added.len() ==> patch::has_id(new, #[trigger] added[i]),
            PlanView::Unchanged => true,
        },
{
    let f = patch::fresh(v, content);
    let head = patch::layer_head(content, backup);
    let new = head + patch::row_blocks(ts, f);
    let added = patch::entry_ids(f);
    assert forall|i: int| 0 <= i < added.len() implies patch::has_id(new, #[trigger] added[i]) by {
        fresh_rows_are_found(content, v, ts, head, i);
    }
}

/// Adding the same rows again changes nothing, at any time: a plugin is disabled once.
///
/// A list in brackets is replaced as a whole, so rows that it named are out of account there.
pub proof fn adding_twice_changes_nothing(
    content: Seq<char>,
    v: Seq<EntryView>,
    ts: u64,
    backup: Seq<char>,
    later: u64,
    other: Seq<char>,
)
    requires
        forall|i: int|
            0 <= i < v.len() && patch::is_fresh(#[trigger] v[i], content) ==> is_plain_id(v[i].id),
        patch::shape(content) == Shape::Inline ==> forall|i: int|
            0 <= i < v.len() ==> !patch::has_id(content, (#[trigger] v[i]).id),
    ensures
        match patch::disable_plan(content, v, ts, backup) {
            PlanView::Write { backup: copy, text: new, added } => patch::disable_plan(
                new,
                v,
                later,
                other,
            ) == PlanView::Unchanged,
            PlanView::Unchanged => patch::disable_plan(content, v, later, other)
                == PlanView::Unchanged,
        },
{
    let f = patch::fresh(v, content);
    if f.len() > 0 {
        let head = patch::layer_head(content, backup);
        let new = head + patch::row_blocks(ts, f);
        fresh_are_fresh(v, content);
        assert forall|i: int| 0 <= i < v.len() implies !patch::is_fresh(#[trigger] v[i], new) by {
            if patch::is_fresh(v[i], content) {
                assert(f.contains(v[i]));
                let j = choose|j: int| 0 <= j < f.len() && f[j] == v[i];
                fresh_rows_are_found(content, v, ts, head, j);
            } else if diagnose::is_clean_id(v[i].id) {
                layer_with_row_has_substance(content, v[i].id);
                rows_stay(content, v, ts, backup, v[i].id);
            }
        }
        nothing_fresh(v, new);
    }
}

/// The reason of a row stays within its comment: it brings no line break with it.
pub proof fn comment_is_one_line(reason: Seq<char>)
    ensures
        !patch::comment_text(reason).contains('\n'),
        !patch::comment_text(reason).contains('\r'),
        patch::comment_text(reason).len() <= patch::COMMENT_CHARS,
{
}

// ---- safe mode ------------------------------------------------------------------------------

/// Safe mode disables a row only if the user's layer gives it a name, and if that name is of
/// neither the project nor a bundle. A row without a name, which only changes a setting, stays.
pub proof fn safe_mode_spares_official_rows(
    rows: Seq<(Seq<char>, Seq<char>)>,
    bundle: Seq<(Seq<char>, Seq<char>)>,
    k: int,
)
    requires
        0 <= k < patch::third_party_ids(rows, bundle).len(),
    ensures
        exists|i: int|
            0 <= i < rows.len() && (#[trigger] rows[i]).0 == patch::third_party_ids(rows, bundle)[k]
                && patch::is_third_party(rows[i].1, bundle) && diagnose::is_clean_id(rows[i].0),
    decreases rows.len(),
{
    let ids = patch::third_party_ids(rows, bundle);
    let front = patch::third_party_ids(rows.drop_last(), bundle);
    if k < front.len() {
        safe_mode_spares_official_rows(rows.drop_last(), bundle, k);
        let w = rows.drop_last();
        let i = choose|i: int|
            0 <= i < w.len() && (#[trigger] w[i]).0 == front[k] && patch::is_third_party(
                w[i].1,
                bundle,
            ) && diagnose::is_clean_id(w[i].0);
        assert(rows[i] == w[i]);
        assert(ids[k] == front[k]);
    } else {
        assert(rows[rows.len() - 1].0 == ids[k]);
    }
}

/// Safe mode disables every third-party row whose id can be written.
pub proof fn safe_mode_disables_every_third_party_row(
    rows: Seq<(Seq<char>, Seq<char>)>,
    bundle: Seq<(Seq<char>, Seq<char>)>,
    i: int,
)
    requires
        0 <= i < rows.len(),
        patch::is_third_party(rows[i].1, bundle),
        diagnose::is_clean_id(rows[i].0),
    ensures
        patch::third_party_ids(rows, bundle).contains(rows[i].0),
    decreases rows.len(),
{
    let ids = patch::third_party_ids(rows, bundle);
    if i == rows.len() - 1 {
        assert(ids[ids.len() - 1] == rows[i].0);
    } else {
        let front = patch::third_party_ids(rows.drop_last(), bundle);
        safe_mode_disables_every_third_party_row(rows.drop_last(), bundle, i);
        let j = choose|j: int| 0 <= j < front.len() && front[j] == rows[i].0;
        assert(ids[j] == rows[i].0);
    }
}

proof fn overlay_row_is_found(before: Seq<char>, ids: Seq<Seq<char>>, after: Seq<char>, k: int)
    requires
        before.len() == 0 || before.last() == '\n',
        0 <= k < ids.len(),
        diagnose::is_clean_id(ids[k]),
        is_plain_id(ids[k]),
    ensures
        patch::has_id(before + patch::overlay_rows(ids) + after, ids[k]),
    decreases ids.len(),
{
    let front = patch::overlay_rows(ids.drop_last());
    let end = "\n  disabled: true\n"@;
    let last = "- id: "@ + ids.last() + end;
    if k == ids.len() - 1 {
        reveal_strlit("\n  disabled: true\n");
        overlay_rows_end_lines(ids.drop_last());
        let x = before + front;
        if front.len() > 0 {
            assert(x.last() == front.last());
        } else {
            assert(x =~= before);
        }
        let mid = ("- id: "@ + ids[k]).push('\n');
        assert(end =~= seq!['\n'] + end.skip(1));
        assert(before + patch::overlay_rows(ids) + after =~= x + mid + (end.skip(1) + after));
        row_is_found(x, ids[k], end.skip(1) + after);
    } else {
        assert(before + patch::overlay_rows(ids) + after =~= before + front + (last + after));
        overlay_row_is_found(before, ids.drop_last(), last + after, k);
    }
}

proof fn overlay_rows_end_lines(ids: Seq<Seq<char>>)
    ensures
        patch::overlay_rows(ids).len() == 0 || patch::overlay_rows(ids).last() == '\n',
{
    reveal_strlit("\n  disabled: true\n");
    if ids.len() > 0 {
        let end = "\n  disabled: true\n"@;
        let all = patch::overlay_rows(ids);
        assert(all.last() == end.last());
    }
}

/// Every row that safe mode disables is found when the overlay is read.
pub proof fn overlay_disables_its_rows(ids: Seq<Seq<char>>, k: int)
    requires
        0 <= k < ids.len(),
        diagnose::is_clean_id(ids[k]),
        is_plain_id(ids[k]),
    ensures
        patch::has_id(patch::OVERLAY_HEADER@ + patch::overlay_rows(ids), ids[k]),
{
    reveal_strlit(
        "# dsh-desktop safe-mode overlay: 本文件由桌面壳在安全模式下通过\n# `dsh web --patch <此文件>` 一次性注入，用于停用所有第三方插件；\n# 正常启动不会加载它，可随时删除。\n",
    );
    let head = patch::OVERLAY_HEADER@;
    overlay_row_is_found(head, ids, Seq::empty(), k);
    assert(head + patch::overlay_rows(ids) + Seq::<char>::empty() =~= head + patch::overlay_rows(
        ids,
    ));
}

} // verus!
