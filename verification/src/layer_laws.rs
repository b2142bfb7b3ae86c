//! What reading a patch layer and adding rows to it promise, in terms of the layer's text.

use crate::diagnose;
use crate::diagnose::EntryView;
use crate::number;
use crate::patch;
use crate::patch::{PlanView, Scan, Shape};
use crate::patch_laws;
use crate::text;
use crate::text::CharClass;
use crate::text_laws;
use vstd::prelude::*;

verus! {

// ---- the shape of a layer -------------------------------------------------------------------

/// Whether a line is blank or a comment.
pub open spec fn is_aside(line: Seq<char>) -> bool {
    text_laws::is_blank(line) || exists|a: Seq<char>, b: Seq<char>|
        text_laws::is_blank(a) && line == #[trigger] (a + seq!['#'] + b)
}

/// Whether a line says something, and what with, the white space before it left out.
pub open spec fn says(line: Seq<char>, a: Seq<char>, s: Seq<char>) -> bool {
    &&& line == a + s
    &&& text_laws::is_blank(a)
    &&& s.len() > 0
    &&& !text::is_white_space(s[0])
    &&& s[0] != '#'
}

proof fn aside_is_left_out(line: Seq<char>)
    requires
        is_aside(line),
    ensures
        text::trim(line).len() == 0 || text::trim(line)[0] == '#',
{
    let none = Seq::<char>::empty();
    if text_laws::is_blank(line) {
        assert(line + none + none =~= line);
        text_laws::trim_takes_the_ends(line, none, none);
    } else {
        let (a, b) = choose|a: Seq<char>, b: Seq<char>|
            text_laws::is_blank(a) && line == #[trigger] (a + seq!['#'] + b);
        let s = seq!['#'] + b;
        assert(line =~= a + s);
        said_is_kept(line, a, s);
    }
}

proof fn said_is_kept(line: Seq<char>, a: Seq<char>, s: Seq<char>)
    requires
        line == a + s,
        text_laws::is_blank(a),
        s.len() > 0,
        !text::is_white_space(s[0]),
    ensures
        text::trim(line).len() > 0,
        text::trim(line)[0] == s[0],
        text::trim(line) == text::trim(s),
{
    let (x, y) = text_laws::trim_leaves_the_middle(s);
    let t = text::trim(s);
    if x.len() > 0 {
        assert(s[0] == x[0]);
        assert(text::is_white_space(x[0]));
    }
    if t.len() == 0 {
        assert(s =~= x + y);
        assert(s[0] == y[0]);
        assert(text::is_white_space(y[0]));
    }
    assert(s =~= t + y);
    assert(line =~= a + t + y);
    text_laws::trim_takes_the_ends(a, t, y);
}

proof fn significant_in_two(a: Seq<Seq<char>>, b: Seq<Seq<char>>)
    ensures
        patch::significant(a + b) == patch::significant(a) + patch::significant(b),
    decreases b.len(),
{
    if b.len() == 0 {
        assert(a + b =~= a);
        assert(patch::significant(a) + patch::significant(b) =~= patch::significant(a));
    } else {
        significant_in_two(a, b.drop_last());
        assert((a + b).drop_last() =~= a + b.drop_last());
        assert(patch::significant(a + b) =~= patch::significant(a) + patch::significant(b));
    }
}

proof fn asides_are_left_out(lines: Seq<Seq<char>>)
    requires
        forall|j: int| 0 <= j < lines.len() ==> is_aside(#[trigger] lines[j]),
    ensures
        patch::significant(lines).len() == 0,
    decreases lines.len(),
{
    if lines.len() > 0 {
        let front = lines.drop_last();
        assert forall|j: int| 0 <= j < front.len() implies is_aside(#[trigger] front[j]) by {
            assert(front[j] == lines[j]);
        }
        asides_are_left_out(front);
        assert(is_aside(lines[lines.len() - 1]));
        aside_is_left_out(lines.last());
    }
}

proof fn significant_from(lines: Seq<Seq<char>>, k: int, a: Seq<char>, s: Seq<char>)
    requires
        0 <= k < lines.len(),
        forall|j: int| 0 <= j < k ==> is_aside(#[trigger] lines[j]),
        says(lines[k], a, s),
    ensures
        patch::significant(lines) == seq![text::trim(s)] + patch::significant(lines.skip(k + 1)),
        text::trim(s).len() > 0,
        text::trim(s)[0] == s[0],
{
    let front = lines.take(k);
    let back = lines.skip(k + 1);
    assert forall|j: int| 0 <= j < front.len() implies is_aside(#[trigger] front[j]) by {
        assert(front[j] == lines[j]);
    }
    asides_are_left_out(front);
    said_is_kept(lines[k], a, s);
    let one = seq![lines[k]];
    assert(one.drop_last() =~= Seq::<Seq<char>>::empty());
    assert(patch::significant(Seq::empty()) =~= Seq::<Seq<char>>::empty());
    assert(patch::significant(one) =~= seq![text::trim(s)]);
    assert(lines =~= front + (one + back));
    significant_in_two(front, one + back);
    significant_in_two(one, back);
    assert(patch::significant(front) =~= Seq::<Seq<char>>::empty());
    assert(patch::significant(lines) =~= seq![text::trim(s)] + patch::significant(back));
}

proof fn join_of_lines(first: Seq<char>, rest: Seq<Seq<char>>)
    requires
        first.len() > 0,
    ensures
        text::join(seq![first] + rest, "\n"@).len() > 0,
        text::join(seq![first] + rest, "\n"@)[0] == first[0],
        rest.len() == 0 ==> text::join(seq![first] + rest, "\n"@) == first,
        rest.len() > 0 ==> text::join(seq![first] + rest, "\n"@).contains('\n'),
{
    reveal_strlit("\n");
    let parts = seq![first] + rest;
    if rest.len() > 0 {
        text::join_from_the_front(parts, "\n"@);
        let all = text::join(parts, "\n"@);
        assert(all[first.len() as int] == '\n');
    } else {
        assert(parts =~= seq![first]);
    }
}

/// A layer whose first line that says something does not begin with a bracket keeps its text,
/// whatever its other lines hold: the new text begins with the old one, and nothing is copied.
pub proof fn layer_of_rows_is_kept(
    content: Seq<char>,
    v: Seq<EntryView>,
    ts: u64,
    backup: Seq<char>,
    k: int,
    a: Seq<char>,
    s: Seq<char>,
)
    requires
        0 <= k < text::lines(content).len(),
        forall|j: int| 0 <= j < k ==> is_aside(#[trigger] text::lines(content)[j]),
        says(text::lines(content)[k], a, s),
        s[0] != '[',
    ensures
        patch::shape(content) == Shape::Block,
        match patch::disable_plan(content, v, ts, backup) {
            PlanView::Write { backup: copy, text: new, added } => !copy && new.len()
                >= content.len() && new.take(content.len() as int) == content,
            PlanView::Unchanged => true,
        },
{
    let lines = text::lines(content);
    significant_from(lines, k, a, s);
    join_of_lines(text::trim(s), patch::significant(lines.skip(k + 1)));
    reveal_strlit("[]");
    patch_laws::rows_are_added_behind_the_layer(content, v, ts, backup);
}

/// A layer whose first line that says something begins with a bracket is copied before it is
/// replaced, unless it is just the empty list.
pub proof fn layer_in_brackets_is_copied(
    content: Seq<char>,
    v: Seq<EntryView>,
    ts: u64,
    backup: Seq<char>,
    k: int,
    a: Seq<char>,
    s: Seq<char>,
)
    requires
        0 <= k < text::lines(content).len(),
        forall|j: int| 0 <= j < k ==> is_aside(#[trigger] text::lines(content)[j]),
        says(text::lines(content)[k], a, s),
        s[0] == '[',
        text::trim(s) != "[]"@ || exists|j: int, x: Seq<char>, y: Seq<char>|
            k < j < text::lines(content).len() && #[trigger] says(text::lines(content)[j], x, y),
    ensures
        patch::shape(content) == Shape::Inline,
        match patch::disable_plan(content, v, ts, backup) {
            PlanView::Write { backup: copy, text: new, added } => copy,
            PlanView::Unchanged => true,
        },
{
    let lines = text::lines(content);
    let back = lines.skip(k + 1);
    significant_from(lines, k, a, s);
    join_of_lines(text::trim(s), patch::significant(back));
    reveal_strlit("[]");
    if text::trim(s) == "[]"@ {
        let (j, x, y) = choose|j: int, x: Seq<char>, y: Seq<char>|
            k < j < text::lines(content).len() && #[trigger] says(text::lines(content)[j], x, y);
        said_is_kept(lines[j], x, y);
        assert(back[j - k - 1] == lines[j]);
        one_is_significant(back, j - k - 1);
    }
}

proof fn one_is_significant(lines: Seq<Seq<char>>, i: int)
    requires
        0 <= i < lines.len(),
        text::trim(lines[i]).len() > 0,
        text::trim(lines[i])[0] != '#',
    ensures
        patch::significant(lines).len() > 0,
    decreases lines.len(),
{
    if i < lines.len() - 1 {
        one_is_significant(lines.drop_last(), i);
    }
}

/// A layer that says nothing, or nothing but the empty list, is begun anew; nothing is copied.
pub proof fn empty_layer_is_begun(
    content: Seq<char>,
    v: Seq<EntryView>,
    ts: u64,
    backup: Seq<char>,
    k: int,
    a: Seq<char>,
    b: Seq<char>,
)
    requires
        -1 <= k < text::lines(content).len(),
        k >= 0 ==> text::lines(content)[k] == a + "[]"@ + b && text_laws::is_blank(a)
            && text_laws::is_blank(b),
        forall|j: int|
            0 <= j < text::lines(content).len() && j != k ==> is_aside(
                #[trigger] text::lines(content)[j],
            ),
    ensures
        patch::shape(content) == Shape::Empty,
        match patch::disable_plan(content, v, ts, backup) {
            PlanView::Write { backup: copy, text: new, added } => !copy,
            PlanView::Unchanged => true,
        },
{
    let lines = text::lines(content);
    reveal_strlit("[]");
    if k < 0 {
        asides_are_left_out(lines);
        assert(patch::significant(lines) =~= Seq::<Seq<char>>::empty());
    } else {
        let s = "[]"@ + b;
        assert(lines[k] =~= a + s);
        significant_from(lines, k, a, s);
        let back = lines.skip(k + 1);
        assert forall|j: int| 0 <= j < back.len() implies is_aside(#[trigger] back[j]) by {
            assert(back[j] == lines[j + k + 1]);
        }
        asides_are_left_out(back);
        let none = Seq::<char>::empty();
        assert(s =~= none + "[]"@ + b);
        text_laws::trim_takes_the_ends(none, "[]"@, b);
        join_of_lines(text::trim(s), patch::significant(back));
    }
}

// ---- reading rows ---------------------------------------------------------------------------

/// Whether a text is a plain value: neither white space nor quotes at its ends.
pub open spec fn is_plain(s: Seq<char>) -> bool {
    &&& text_laws::is_trimmed(s)
    &&& s.len() > 0 ==> s[0] != '\'' && s[0] != '"' && s.last() != '\'' && s.last() != '"'
}

/// A value is read without the white space and the quotes around it.
pub proof fn value_is_unquoted(a: Seq<char>, s: Seq<char>, b: Seq<char>)
    requires
        text_laws::is_blank(a),
        text_laws::is_blank(b),
        is_plain(s),
    ensures
        patch::unquote(a + s + b) == s,
        patch::unquote(a + (seq!['\''] + s + seq!['\'']) + b) == s,
        patch::unquote(a + (seq!['"'] + s + seq!['"']) + b) == s,
{
    let one = CharClass::Is('\'');
    let two = CharClass::Is('"');
    let x = seq!['\''] + s + seq!['\''];
    let y = seq!['"'] + s + seq!['"'];
    text_laws::trim_takes_the_ends(a, s, b);
    text_laws::trim_takes_the_ends(a, x, b);
    text_laws::trim_takes_the_ends(a, y, b);
    nothing_to_take(s, one);
    nothing_to_take(s, two);
    nothing_to_take(y, one);
    both_ends_are_taken(s, '\'');
    both_ends_are_taken(s, '"');
}

proof fn nothing_to_take(s: Seq<char>, k: CharClass)
    requires
        s.len() > 0 ==> !k.has(s[0]) && !k.has(s.last()),
    ensures
        text::trim_of(s, k) == s,
{
    text::run_is(s, k, 0);
    assert(s.skip(0) =~= s);
    text::end_run_is(s, k, 0);
    assert(s.take(s.len() as int) =~= s);
}

proof fn both_ends_are_taken(s: Seq<char>, c: char)
    requires
        s.len() > 0 ==> s[0] != c && s.last() != c,
    ensures
        text::trim_of(seq![c] + s + seq![c], CharClass::Is(c)) == s,
{
    let k = CharClass::Is(c);
    let t = seq![c] + s + seq![c];
    if s.len() == 0 {
        text::run_is(t, k, 2);
        assert(text::trim_start_of(t, k) =~= Seq::<char>::empty());
        assert(text::trim_of(t, k) =~= s);
    } else {
        assert(t[1] == s[0]);
        text::run_is(t, k, 1);
        let u = s + seq![c];
        assert(text::trim_start_of(t, k) =~= u);
        assert(u[s.len() - 1] == s.last());
        text::end_run_is(u, k, 1);
        assert(text::trim_of(t, k) =~= s);
    }
}

/// How a value may be written: as it is, or in quotes of either kind.
pub open spec fn writes(w: Seq<char>, s: Seq<char>) -> bool {
    w == s || w == seq!['\''] + s + seq!['\''] || w == seq!['"'] + s + seq!['"']
}

/// The line that begins a row with an id, indented or not.
pub open spec fn begins_row(line: Seq<char>, a: Seq<char>, b: Seq<char>, w: Seq<char>, c: Seq<char>) -> bool {
    &&& line == a + "- id:"@ + (b + w + c)
    &&& text_laws::is_blank(a)
    &&& text_laws::is_blank(b)
    &&& text_laws::is_blank(c)
}

/// The line that gives a row its name.
pub open spec fn gives_name(line: Seq<char>, a: Seq<char>, b: Seq<char>, w: Seq<char>, c: Seq<char>) -> bool {
    &&& line == a + "name:"@ + (b + w + c)
    &&& text_laws::is_blank(a)
    &&& text_laws::is_blank(b)
    &&& text_laws::is_blank(c)
}

/// Whether a line neither begins an entry nor gives a name.
pub open spec fn goes_on(line: Seq<char>) -> bool {
    forall|a: Seq<char>, b: Seq<char>|
        text_laws::is_blank(a) ==> line != #[trigger] (a + "- "@ + b) && line != a + "name:"@ + b
}

proof fn start_is_trimmed(line: Seq<char>, a: Seq<char>, p: Seq<char>, rest: Seq<char>)
    requires
        line == a + p + rest,
        text_laws::is_blank(a),
        p.len() > 0,
        !text::is_white_space(p[0]),
    ensures
        text::trim_start(line) == p + rest,
        text::after_prefix(text::trim_start(line), p) == Some(rest),
{
    let k = CharClass::WhiteSpace;
    assert forall|j: int| 0 <= j < a.len() implies k.has(#[trigger] line[j]) by {
        assert(line[j] == a[j]);
    }
    assert(line[a.len() as int] == p[0]);
    text::run_is(line, k, a.len());
    let t = text::trim_start(line);
    assert(t =~= p + rest);
    assert(t.subrange(0, p.len() as int) =~= p);
    assert(t.skip(p.len() as int) =~= rest);
}

proof fn id_line_is_read(line: Seq<char>, a: Seq<char>, b: Seq<char>, w: Seq<char>, c: Seq<char>, id: Seq<char>, s: Scan)
    requires
        begins_row(line, a, b, w, c),
        writes(w, id),
        is_plain(id),
    ensures
        patch::line_id(line) == Some(id),
        patch::with_row_line(s, line) == (Scan { rows: s.rows, pending: Some(id) }),
{
    reveal_strlit("- id:");
    start_is_trimmed(line, a, "- id:"@, b + w + c);
    value_is_unquoted(b, id, c);
}

proof fn name_line_is_read(line: Seq<char>, a: Seq<char>, b: Seq<char>, w: Seq<char>, c: Seq<char>, name: Seq<char>, s: Scan)
    requires
        gives_name(line, a, b, w, c),
        writes(w, name),
        is_plain(name),
        s.pending is Some,
    ensures
        patch::with_row_line(s, line) == (Scan {
            rows: s.rows.push((s.pending->0, name)),
            pending: None,
        }),
{
    reveal_strlit("- id:");
    reveal_strlit("name:");
    start_is_trimmed(line, a, "name:"@, b + w + c);
    value_is_unquoted(b, name, c);
    let t = text::trim_start(line);
    assert(t[0] == 'n');
    if text::starts_with(t, "- id:"@) {
        text_laws::pattern_characters(t, "- id:"@, 0, 0);
    }
}

proof fn line_starts_with(line: Seq<char>, p: Seq<char>) -> (r: (Seq<char>, Seq<char>))
    requires
        text::starts_with(text::trim_start(line), p),
    ensures
        text_laws::is_blank(r.0),
        line == r.0 + p + r.1,
{
    let k = CharClass::WhiteSpace;
    let n = text::run(line, k) as int;
    text::run_bounds(line, k);
    let a = line.take(n);
    let t = text::trim_start(line);
    let b = t.skip(p.len() as int);
    assert forall|i: int| 0 <= i < a.len() implies text::is_white_space(#[trigger] a[i]) by {
        assert(k.has(line[i]));
    }
    assert forall|i: int| 0 <= i < p.len() implies t[i] == p[i] by {
        text_laws::pattern_characters(t, p, 0, i);
    }
    assert(line =~= a + p + b);
    (a, b)
}

proof fn other_line_changes_nothing(line: Seq<char>, s: Scan)
    requires
        goes_on(line),
    ensures
        patch::with_row_line(s, line) == s,
{
    reveal_strlit("- id:");
    reveal_strlit("- ");
    let t = text::trim_start(line);
    if text::starts_with(t, "- "@) || text::starts_with(t, "- id:"@) {
        if text::starts_with(t, "- id:"@) {
            assert(t.subrange(0, 2) =~= t.subrange(0, 5).take(2));
            assert("- id:"@.take(2) =~= "- "@);
        }
        let (a, b) = line_starts_with(line, "- "@);
        assert(line == a + "- "@ + b);
    }
    if text::starts_with(t, "name:"@) {
        let (a, b) = line_starts_with(line, "name:"@);
        assert(line == a + "name:"@ + b);
        assert((a + "- "@ + b) == (a + "- "@ + b));
    }
}

/// The rows found in lines, after others were read.
spec fn scanned_on(s: Scan, lines: Seq<Seq<char>>) -> Scan
    decreases lines.len(),
{
    if lines.len() == 0 {
        s
    } else {
        patch::with_row_line(scanned_on(s, lines.drop_last()), lines.last())
    }
}

proof fn scanned_in_two(a: Seq<Seq<char>>, b: Seq<Seq<char>>)
    ensures
        patch::scanned(a + b) == scanned_on(patch::scanned(a), b),
    decreases b.len(),
{
    if b.len() == 0 {
        assert(a + b =~= a);
    } else {
        scanned_in_two(a, b.drop_last());
        assert((a + b).drop_last() =~= a + b.drop_last());
    }
}

proof fn scanned_anew(s: Scan, lines: Seq<Seq<char>>)
    requires
        s.pending is None,
    ensures
        scanned_on(s, lines) == (Scan {
            rows: s.rows + patch::scanned(lines).rows,
            pending: patch::scanned(lines).pending,
        }),
    decreases lines.len(),
{
    if lines.len() == 0 {
        assert(s.rows + patch::scanned(lines).rows =~= s.rows);
    } else {
        scanned_anew(s, lines.drop_last());
        let u = patch::scanned(lines.drop_last());
        match u.pending {
            Some(id) => {
                assert forall|v: Seq<char>| (s.rows + u.rows).push((id, #[trigger] patch::unquote(v)))
                    == s.rows + u.rows.push((id, patch::unquote(v))) by {
                    assert((s.rows + u.rows).push((id, patch::unquote(v))) =~= s.rows + u.rows.push(
                        (id, patch::unquote(v)),
                    ));
                }
            },
            None => {},
        }
    }
}

proof fn other_lines_change_nothing(s: Scan, lines: Seq<Seq<char>>)
    requires
        forall|j: int| 0 <= j < lines.len() ==> goes_on(#[trigger] lines[j]),
    ensures
        scanned_on(s, lines) == s,
    decreases lines.len(),
{
    if lines.len() > 0 {
        let front = lines.drop_last();
        assert forall|j: int| 0 <= j < front.len() implies goes_on(#[trigger] front[j]) by {
            assert(front[j] == lines[j]);
        }
        other_lines_change_nothing(s, front);
        assert(goes_on(lines[lines.len() - 1]));
        other_line_changes_nothing(lines.last(), s);
    }
}

proof fn named_row_in_lines(
    before: Seq<Seq<char>>,
    first: Seq<char>,
    between: Seq<Seq<char>>,
    second: Seq<char>,
    after: Seq<Seq<char>>,
    id: Seq<char>,
    name: Seq<char>,
    x: (Seq<char>, Seq<char>, Seq<char>, Seq<char>),
    y: (Seq<char>, Seq<char>, Seq<char>, Seq<char>),
)
    requires
        begins_row(first, x.0, x.1, x.2, x.3),
        writes(x.2, id),
        is_plain(id),
        forall|j: int| 0 <= j < between.len() ==> goes_on(#[trigger] between[j]),
        gives_name(second, y.0, y.1, y.2, y.3),
        writes(y.2, name),
        is_plain(name),
    ensures
        patch::scanned(before + seq![first] + between + seq![second] + after).rows
            == patch::scanned(before).rows + seq![(id, name)] + patch::scanned(after).rows,
{
    let none = Seq::<Seq<char>>::empty();
    let s0 = patch::scanned(before);
    scanned_in_two(before, seq![first]);
    assert(seq![first].drop_last() =~= none);
    reveal_with_fuel(scanned_on, 2);
    id_line_is_read(first, x.0, x.1, x.2, x.3, id, s0);
    let a = before + seq![first];
    let s1 = patch::scanned(a);
    scanned_in_two(a, between);
    other_lines_change_nothing(s1, between);
    let b = a + between;
    scanned_in_two(b, seq![second]);
    assert(seq![second].drop_last() =~= none);
    name_line_is_read(second, y.0, y.1, y.2, y.3, name, s1);
    let c = b + seq![second];
    let s2 = patch::scanned(c);
    assert(s2.rows == s0.rows.push((id, name)));
    scanned_in_two(c, after);
    scanned_anew(s2, after);
    assert(s0.rows.push((id, name)) + patch::scanned(after).rows =~= s0.rows + seq![(id, name)]
        + patch::scanned(after).rows);
}

proof fn nameless_row_in_lines(
    before: Seq<Seq<char>>,
    first: Seq<char>,
    between: Seq<Seq<char>>,
    next: Seq<char>,
    after: Seq<Seq<char>>,
    id: Seq<char>,
    x: (Seq<char>, Seq<char>, Seq<char>, Seq<char>),
    a: Seq<char>,
    b: Seq<char>,
)
    requires
        begins_row(first, x.0, x.1, x.2, x.3),
        writes(x.2, id),
        is_plain(id),
        forall|j: int| 0 <= j < between.len() ==> goes_on(#[trigger] between[j]),
        next == a + "- "@ + b,
        text_laws::is_blank(a),
    ensures
        patch::scanned(before + seq![first] + between).rows == patch::scanned(before).rows,
        patch::scanned(before + seq![first] + between + (seq![next] + after)).rows
            == patch::scanned(before).rows + patch::scanned(seq![next] + after).rows,
{
    let none = Seq::<Seq<char>>::empty();
    let s0 = patch::scanned(before);
    scanned_in_two(before, seq![first]);
    assert(seq![first].drop_last() =~= none);
    reveal_with_fuel(scanned_on, 2);
    id_line_is_read(first, x.0, x.1, x.2, x.3, id, s0);
    let c = before + seq![first];
    let s1 = patch::scanned(c);
    scanned_in_two(c, between);
    other_lines_change_nothing(s1, between);
    let d = c + between;
    let e = seq![next] + after;
    scanned_in_two(d, e);
    entry_forgets(s1, next, a, b);
    let fresh = Scan { rows: s0.rows, pending: None };
    scanned_first(s1, fresh, next, after);
    scanned_anew(fresh, e);
}

proof fn entry_forgets(s: Scan, next: Seq<char>, a: Seq<char>, b: Seq<char>)
    requires
        next == a + "- "@ + b,
        text_laws::is_blank(a),
    ensures
        patch::with_row_line(s, next) == patch::with_row_line(
            Scan { rows: s.rows, pending: None },
            next,
        ),
{
    reveal_strlit("- ");
    reveal_strlit("name:");
    start_is_trimmed(next, a, "- "@, b);
    let t = text::trim_start(next);
    assert(t[0] == '-');
    if text::starts_with(t, "name:"@) {
        text_laws::pattern_characters(t, "name:"@, 0, 0);
    }
}

proof fn scanned_first(s: Scan, u: Scan, next: Seq<char>, after: Seq<Seq<char>>)
    requires
        patch::with_row_line(s, next) == patch::with_row_line(u, next),
    ensures
        scanned_on(s, seq![next] + after) == scanned_on(u, seq![next] + after),
    decreases after.len(),
{
    let e = seq![next] + after;
    if after.len() == 0 {
        assert(e.drop_last() =~= Seq::<Seq<char>>::empty());
        reveal_with_fuel(scanned_on, 2);
    } else {
        scanned_first(s, u, next, after.drop_last());
        assert(e.drop_last() =~= seq![next] + after.drop_last());
    }
}

/// A row is read with its id and its name, wherever it stands in a layer, with whatever lines
/// between the two that neither begin an entry nor give a name. The rows before and behind it are
/// read as they are without it.
pub proof fn named_row_is_read(
    content: Seq<char>,
    before: Seq<char>,
    first: Seq<char>,
    between: Seq<Seq<char>>,
    second: Seq<char>,
    after: Seq<char>,
    id: Seq<char>,
    name: Seq<char>,
    x: (Seq<char>, Seq<char>, Seq<char>, Seq<char>),
    y: (Seq<char>, Seq<char>, Seq<char>, Seq<char>),
)
    requires
        text::lines(content) == text::lines(before) + seq![first] + between + seq![second]
            + text::lines(after),
        begins_row(first, x.0, x.1, x.2, x.3),
        writes(x.2, id),
        is_plain(id),
        forall|j: int| 0 <= j < between.len() ==> goes_on(#[trigger] between[j]),
        gives_name(second, y.0, y.1, y.2, y.3),
        writes(y.2, name),
        is_plain(name),
    ensures
        patch::named_rows(content) == patch::named_rows(before) + seq![(id, name)]
            + patch::named_rows(after),
{
    named_row_in_lines(
        text::lines(before),
        first,
        between,
        second,
        text::lines(after),
        id,
        name,
        x,
        y,
    );
}

/// A row without a name is not read as a row with one: a name behind the next entry is not its own.
pub proof fn nameless_row_is_left_out(
    content: Seq<char>,
    before: Seq<char>,
    first: Seq<char>,
    between: Seq<Seq<char>>,
    after: Seq<char>,
    id: Seq<char>,
    x: (Seq<char>, Seq<char>, Seq<char>, Seq<char>),
    a: Seq<char>,
    b: Seq<char>,
)
    requires
        text::lines(content) == text::lines(before) + seq![first] + between + text::lines(after),
        begins_row(first, x.0, x.1, x.2, x.3),
        writes(x.2, id),
        is_plain(id),
        forall|j: int| 0 <= j < between.len() ==> goes_on(#[trigger] between[j]),
        text::lines(after).len() > 0 ==> text::lines(after)[0] == a + "- "@ + b
            && text_laws::is_blank(a),
    ensures
        patch::named_rows(content) == patch::named_rows(before) + patch::named_rows(after),
{
    let all = text::lines(after);
    let head = text::lines(before) + seq![first] + between;
    let none = Seq::<char>::empty();
    if all.len() > 0 {
        let next = all[0];
        let rest = all.skip(1);
        assert(all =~= seq![next] + rest);
        nameless_row_in_lines(text::lines(before), first, between, next, rest, id, x, a, b);
    } else {
        assert(head + all =~= head);
        assert(text_laws::is_blank(none));
        nameless_row_in_lines(
            text::lines(before),
            first,
            between,
            none + "- "@ + none,
            Seq::empty(),
            id,
            x,
            none,
            none,
        );
        assert(patch::named_rows(before) + patch::named_rows(after) =~= patch::named_rows(before));
    }
}

/// A layer has a row with an id exactly where one of its lines begins that row.
pub proof fn id_is_found_where_a_row_begins(content: Seq<char>, id: Seq<char>)
    requires
        is_plain(id),
        id.len() > 0,
    ensures
        (exists|i: int, a: Seq<char>, b: Seq<char>, w: Seq<char>, c: Seq<char>|
            0 <= i < text::lines(content).len() && #[trigger] begins_row(
                text::lines(content)[i],
                a,
                b,
                w,
                c,
            ) && writes(w, id)) ==> patch::has_id(content, id),
        patch::has_id(content, id) ==> exists|i: int, a: Seq<char>, b: Seq<char>|
            0 <= i < text::lines(content).len() && text_laws::is_blank(a)
                && #[trigger] text::lines(content)[i] == #[trigger] (a + "- id:"@ + b)
                && text::contains(b, id),
{
    let lines = text::lines(content);
    if exists|i: int, a: Seq<char>, b: Seq<char>, w: Seq<char>, c: Seq<char>|
        0 <= i < lines.len() && #[trigger] begins_row(lines[i], a, b, w, c) && writes(w, id) {
        let (i, a, b, w, c) = choose|
            i: int,
            a: Seq<char>,
            b: Seq<char>,
            w: Seq<char>,
            c: Seq<char>,
        |
            0 <= i < lines.len() && #[trigger] begins_row(lines[i], a, b, w, c) && writes(w, id);
        id_line_is_read(
            lines[i],
            a,
            b,
            w,
            c,
            id,
            Scan { rows: Seq::empty(), pending: None },
        );
    }
    if patch::has_id(content, id) {
        let i = choose|i: int|
            0 <= i < lines.len() && patch::line_id(#[trigger] lines[i]) == Some(id);
        let (a, b) = line_starts_with(lines[i], "- id:"@);
        reveal_strlit("- id:");
        start_is_trimmed(lines[i], a, "- id:"@, b);
        assert(patch::unquote(b) == id);
        unquoted_stands_inside(b);
    }
}

proof fn unquoted_stands_inside(s: Seq<char>)
    ensures
        text::contains(s, patch::unquote(s)),
{
    let t = text::trim(s);
    let u = text::trim_of(t, CharClass::Is('\''));
    let w = text::trim_of(u, CharClass::Is('"'));
    let i = taken_stands_inside(s, CharClass::WhiteSpace);
    let j = taken_stands_inside(t, CharClass::Is('\''));
    let k = taken_stands_inside(u, CharClass::Is('"'));
    assert(s.subrange(i + j + k, i + j + k + w.len()) =~= w);
    assert(text::occurs_at(s, w, i + j + k));
}

proof fn taken_stands_inside(s: Seq<char>, k: CharClass) -> (i: int)
    ensures
        0 <= i,
        i + text::trim_of(s, k).len() <= s.len(),
        forall|j: int|
            0 <= j < text::trim_of(s, k).len() ==> #[trigger] text::trim_of(s, k)[j] == s[i + j],
{
    text::run_bounds(s, k);
    let t = text::trim_start_of(s, k);
    text::end_run_bounds(t, k);
    text::run(s, k) as int
}

/// The rows of layers that could be read come one layer after another.
pub proof fn layers_add_up(layers: Seq<Option<String>>, layer: Option<String>)
    ensures
        patch::layer_rows(Seq::empty()) == Seq::<(Seq<char>, Seq<char>)>::empty(),
        patch::layer_rows(layers.push(layer)) == (match layer {
            Some(s) => patch::layer_rows(layers) + patch::named_rows(s@),
            None => patch::layer_rows(layers),
        }),
{
    let none = Seq::<(Seq<char>, Seq<char>)>::empty();
    assert(patch::layer_rows(Seq::empty()) =~= none);
    assert(layers.push(layer).drop_last() =~= layers);
    assert(patch::layer_rows(layers) + none =~= patch::layer_rows(layers));
}

// ---- rows that are added --------------------------------------------------------------------

/// The lines that say something.
pub open spec fn spoken(lines: Seq<Seq<char>>) -> Seq<Seq<char>>
    decreases lines.len(),
{
    if lines.len() == 0 {
        Seq::empty()
    } else if is_aside(lines.last()) {
        spoken(lines.drop_last())
    } else {
        spoken(lines.drop_last()).push(lines.last())
    }
}

/// The lines that disable rows with these ids, and no others.
pub open spec fn disabling(ids: Seq<Seq<char>>) -> Seq<Seq<char>>
    decreases ids.len(),
{
    if ids.len() == 0 {
        Seq::empty()
    } else {
        disabling(ids.drop_last()) + seq!["- id: "@ + ids.last(), "  disabled: true"@]
    }
}

proof fn spoken_in_two(a: Seq<Seq<char>>, b: Seq<Seq<char>>)
    ensures
        spoken(a + b) == spoken(a) + spoken(b),
    decreases b.len(),
{
    if b.len() == 0 {
        assert(a + b =~= a);
        assert(spoken(a) + spoken(b) =~= spoken(a));
    } else {
        spoken_in_two(a, b.drop_last());
        assert((a + b).drop_last() =~= a + b.drop_last());
        assert(spoken(a + b) =~= spoken(a) + spoken(b));
    }
}

proof fn dash_is_spoken(line: Seq<char>, a: Seq<char>, c: char, b: Seq<char>)
    requires
        line == a + seq![c] + b,
        text_laws::is_blank(a),
        c != '#',
        !text::is_white_space(c),
    ensures
        !is_aside(line),
{
    if is_aside(line) {
        let s = seq![c] + b;
        assert(line =~= a + s);
        said_is_kept(line, a, s);
        aside_is_left_out(line);
    }
}

/// The lines that an id and its setting make.
proof fn row_lines(id: Seq<char>)
    requires
        diagnose::is_clean_id(id),
    ensures
        ({
            let row = "- id: "@ + id + "\n  disabled: true\n"@;
            &&& text::lines(row) == seq!["- id: "@ + id, "  disabled: true"@]
            &&& spoken(text::lines(row)) == text::lines(row)
            &&& row.len() > 0 && row.last() == '\n'
        }),
{
    reveal_strlit("- id: ");
    reveal_strlit("  disabled: true");
    reveal_strlit("\n  disabled: true\n");
    let first = "- id: "@ + id;
    let second = "  disabled: true"@;
    let row = first + "\n  disabled: true\n"@;
    let none = Seq::<char>::empty();
    assert forall|i: int| 0 <= i < first.len() implies first[i] != '\n' by {
        if i >= 6 {
            assert(first[i] == id[i - 6]);
            assert(!text::is_white_space(id[i - 6]));
        }
    }
    assert(first.last() == id.last());
    assert(!text::is_white_space(id[id.len() - 1]));
    assert(row =~= first + seq!['\n'] + (second + seq!['\n'] + none));
    text_laws::line_by_line(first, second + seq!['\n'] + none);
    text_laws::line_by_line(second, none);
    let two = seq![first, second];
    assert(text::lines(row) =~= two);
    assert(first =~= none + seq!['-'] + first.skip(1));
    dash_is_spoken(first, none, '-', first.skip(1));
    let a = seq![' ', ' '];
    assert(second =~= a + seq!['d'] + second.skip(3));
    dash_is_spoken(second, a, 'd', second.skip(3));
    assert(two.drop_last() =~= seq![first]);
    assert(seq![first].drop_last() =~= Seq::<Seq<char>>::empty());
    assert(spoken(Seq::empty()) =~= Seq::<Seq<char>>::empty());
    assert(spoken(seq![first]) =~= seq![first]);
    assert(spoken(two) =~= two);
}

proof fn block_lines(ts: u64, e: EntryView)
    requires
        diagnose::is_clean_id(e.id),
    ensures
        ({
            let block = patch::row_block(ts, e);
            &&& spoken(text::lines(block)) == seq!["- id: "@ + e.id, "  disabled: true"@]
            &&& block.len() > 0 && block.last() == '\n'
        }),
{
    reveal_strlit("\n# dsh-desktop auto-recovery (");
    reveal_strlit("# dsh-desktop auto-recovery (");
    reveal_strlit("): 该插件导致启动失败 —— ");
    reveal_strlit("\n- id: ");
    reveal_strlit("- id: ");
    let none = Seq::<char>::empty();
    let why = patch::comment_text(e.reason);
    let comment = "# dsh-desktop auto-recovery ("@ + number::decimal(ts as nat)
        + "): 该插件导致启动失败 —— "@ + why;
    let row = "- id: "@ + e.id + "\n  disabled: true\n"@;
    let block = patch::row_block(ts, e);
    assert(block =~= none + seq!['\n'] + (comment + seq!['\n'] + row));
    patch_laws::comment_is_one_line(e.reason);
    decimal_is_digits(ts as nat);
    let d = number::decimal(ts as nat);
    assert forall|i: int| 0 <= i < comment.len() implies comment[i] != '\n' && comment[i] != '\r' by {
        let x = "# dsh-desktop auto-recovery ("@;
        let y = "): 该插件导致启动失败 —— "@;
        if i < x.len() {
            assert(comment[i] == x[i]);
        } else if i < x.len() + d.len() {
            assert(comment[i] == d[i - x.len()]);
        } else if i < x.len() + d.len() + y.len() {
            assert(comment[i] == y[i - x.len() - d.len()]);
        } else {
            assert(comment[i] == why[i - x.len() - d.len() - y.len()]);
            assert(why.contains(why[i - x.len() - d.len() - y.len()]));
        }
    }
    text_laws::line_by_line(none, comment + seq!['\n'] + row);
    text_laws::line_by_line(comment, row);
    row_lines(e.id);
    let lines = text::lines(block);
    assert(lines =~= seq![none, comment] + text::lines(row));
    assert(text_laws::is_blank(none));
    assert(is_aside(none));
    assert(comment =~= none + seq!['#'] + comment.skip(1));
    assert(is_aside(comment));
    let two = seq![none, comment];
    assert(two.drop_last() =~= seq![none]);
    assert(seq![none].drop_last() =~= Seq::<Seq<char>>::empty());
    assert(spoken(Seq::empty()) =~= Seq::<Seq<char>>::empty());
    assert(spoken(seq![none]) =~= Seq::<Seq<char>>::empty());
    assert(spoken(two) =~= Seq::<Seq<char>>::empty());
    spoken_in_two(two, text::lines(row));
    assert(spoken(lines) =~= text::lines(row));
    assert(block.last() == row.last());
}

proof fn decimal_is_digits(n: nat)
    ensures
        forall|i: int|
            0 <= i < number::decimal(n).len() ==> '0' <= #[trigger] number::decimal(n)[i]
                && number::decimal(n)[i] <= '9',
    decreases n,
{
    if n >= 10 {
        decimal_is_digits(n / 10);
        let d = number::decimal(n);
        assert forall|i: int| 0 <= i < d.len() implies '0' <= #[trigger] d[i] && d[i] <= '9' by {
            if i < d.len() - 1 {
                assert(d[i] == number::decimal(n / 10)[i]);
            }
        }
    }
}

proof fn blocks_lines(ts: u64, v: Seq<EntryView>)
    requires
        forall|i: int| 0 <= i < v.len() ==> diagnose::is_clean_id((#[trigger] v[i]).id),
    ensures
        spoken(text::lines(patch::row_blocks(ts, v))) == disabling(patch::entry_ids(v)),
        patch::row_blocks(ts, v).len() == 0 || patch::row_blocks(ts, v).last() == '\n',
    decreases v.len(),
{
    if v.len() == 0 {
        assert(text::lines(patch::row_blocks(ts, v)) =~= Seq::<Seq<char>>::empty());
        assert(disabling(patch::entry_ids(v)) =~= Seq::<Seq<char>>::empty());
    } else {
        let w = v.drop_last();
        assert forall|i: int| 0 <= i < w.len() implies diagnose::is_clean_id((#[trigger] w[i]).id) by {
            assert(w[i] == v[i]);
        }
        blocks_lines(ts, w);
        assert(diagnose::is_clean_id(v[v.len() - 1].id));
        block_lines(ts, v.last());
        let a = patch::row_blocks(ts, w);
        let b = patch::row_block(ts, v.last());
        text::lines_in_two(a, b);
        spoken_in_two(text::lines(a), text::lines(b));
        assert(patch::entry_ids(v).drop_last() =~= patch::entry_ids(w));
        assert((a + b).last() == b.last());
    }
}

/// Whether an entry is to be added: its id can be written, and no row of the layer has it.
pub open spec fn is_to_be_added(e: EntryView, content: Seq<char>) -> bool {
    &&& e.id.len() > 0
    &&& !text::has_white_space(e.id)
    &&& !patch::has_id(content, e.id)
}

/// The rows that are added are those of the entries whose ids can be written and which the layer
/// does not have, in their order; the layer stays as it is exactly where there is none.
pub proof fn missing_rows_are_added(
    content: Seq<char>,
    v: Seq<EntryView>,
    ts: u64,
    backup: Seq<char>,
)
    ensures
        ({
            let new = v.filter(|e: EntryView| is_to_be_added(e, content));
            match patch::disable_plan(content, v, ts, backup) {
                PlanView::Unchanged => new.len() == 0,
                PlanView::Write { backup: copy, text: t, added } => new.len() > 0 && added
                    == new.map(|i: int, e: EntryView| e.id),
            }
        }),
{
    fresh_is_filtered(v, content);
    let new = v.filter(|e: EntryView| is_to_be_added(e, content));
    assert(patch::entry_ids(new) =~= new.map(|i: int, e: EntryView| e.id));
}

proof fn fresh_is_filtered(v: Seq<EntryView>, content: Seq<char>)
    ensures
        patch::fresh(v, content) == v.filter(|e: EntryView| is_to_be_added(e, content)),
    decreases v.len(),
{
    reveal(Seq::filter);
    if v.len() > 0 {
        fresh_is_filtered(v.drop_last(), content);
    }
}

/// Adding rows says nothing but that those rows are disabled: behind what the layer says, where it
/// is kept, come the id of each added row and that it is disabled, and else only comments.
pub proof fn added_rows_are_disabled(
    content: Seq<char>,
    v: Seq<EntryView>,
    ts: u64,
    backup: Seq<char>,
)
    requires
        content.len() > 0 ==> content.last() != '\r',
        !backup.contains('\n'),
        backup.len() > 0 ==> backup.last() != '\r',
    ensures
        match patch::disable_plan(content, v, ts, backup) {
            PlanView::Write { backup: copy, text: new, added } => spoken(text::lines(new)) == (
            if patch::shape(content) == Shape::Block {
                spoken(text::lines(content)) + disabling(added)
            } else {
                disabling(added)
            }),
            PlanView::Unchanged => true,
        },
{
    let f = patch::fresh(v, content);
    let head = patch::layer_head(content, backup);
    let blocks = patch::row_blocks(ts, f);
    fresh_ids_are_clean(v, content);
    blocks_lines(ts, f);
    head_lines(content, backup);
    text::lines_in_two(head, blocks);
    spoken_in_two(text::lines(head), text::lines(blocks));
    assert(Seq::<Seq<char>>::empty() + disabling(patch::entry_ids(f)) =~= disabling(
        patch::entry_ids(f),
    ));
}

proof fn fresh_ids_are_clean(v: Seq<EntryView>, content: Seq<char>)
    ensures
        forall|i: int|
            0 <= i < patch::fresh(v, content).len() ==> diagnose::is_clean_id(
                (#[trigger] patch::fresh(v, content)[i]).id,
            ),
    decreases v.len(),
{
    let f = patch::fresh(v, content);
    if v.len() > 0 {
        let g = patch::fresh(v.drop_last(), content);
        fresh_ids_are_clean(v.drop_last(), content);
        assert forall|i: int| 0 <= i < f.len() implies diagnose::is_clean_id((#[trigger] f[i]).id) by {
            if i < g.len() {
                assert(f[i] == g[i]);
            }
        }
    } else {
        assert(f.len() == 0);
    }
}

proof fn head_lines(content: Seq<char>, backup: Seq<char>)
    requires
        content.len() > 0 ==> content.last() != '\r',
        !backup.contains('\n'),
        backup.len() > 0 ==> backup.last() != '\r',
    ensures
        ({
            let head = patch::layer_head(content, backup);
            &&& head.len() > 0 && head.last() == '\n'
            &&& spoken(text::lines(head)) == (if patch::shape(content) == Shape::Block {
                spoken(text::lines(content))
            } else {
                Seq::empty()
            })
        }),
{
    let none = Seq::<char>::empty();
    let head = patch::layer_head(content, backup);
    assert(spoken(Seq::empty()) =~= Seq::<Seq<char>>::empty());
    reveal_strlit("\n");
    match patch::shape(content) {
        Shape::Empty => {
            header_lines();
        },
        Shape::Inline => {
            reveal_strlit("# dsh-desktop: 原行内补丁列表无法安全追加，已备份到 ");
            let x = "# dsh-desktop: 原行内补丁列表无法安全追加，已备份到 "@;
            let line = x + backup;
            assert forall|i: int| 0 <= i < line.len() implies line[i] != '\n' by {
                if i < x.len() {
                    assert(line[i] == x[i]);
                } else {
                    assert(line[i] == backup[i - x.len()]);
                    assert(backup.contains(backup[i - x.len()]));
                }
            }
            if backup.len() > 0 {
                assert(line.last() == backup.last());
            } else {
                assert(line.last() == x.last());
            }
            assert(head =~= line + seq!['\n'] + none);
            text_laws::line_by_line(line, none);
            assert(line =~= none + seq!['#'] + line.skip(1));
            assert(text_laws::is_blank(none));
            assert(is_aside(line));
            assert(text::lines(head) =~= seq![line]);
            assert(seq![line].drop_last() =~= Seq::<Seq<char>>::empty());
            assert(spoken(seq![line]) =~= Seq::<Seq<char>>::empty());
        },
        Shape::Block => {
            if !(content.len() > 0 && content.last() == '\n') {
                ended_line(content);
                assert(head =~= content.push('\n'));
                if content.len() == 0 {
                    assert(spoken(text::lines(content)) =~= Seq::<Seq<char>>::empty());
                }
            }
        },
    }
}

proof fn ended_line(s: Seq<char>)
    requires
        s.len() > 0 ==> s.last() != '\n' && s.last() != '\r',
    ensures
        s.len() > 0 ==> text::lines(s.push('\n')) == text::lines(s),
        s.len() == 0 ==> spoken(text::lines(s.push('\n'))) == spoken(text::lines(s)),
    decreases s.len(),
{
    let none = Seq::<char>::empty();
    if s.len() == 0 {
        assert(s =~= none);
        text_laws::line_by_line(none, none);
        assert(s.push('\n') =~= none + seq!['\n'] + none);
        assert(text::lines(s.push('\n')) =~= seq![none]);
        assert(seq![none].drop_last() =~= Seq::<Seq<char>>::empty());
        assert(text_laws::is_blank(none));
        assert(spoken(seq![none]) =~= spoken(Seq::empty()));
    } else {
        let k = CharClass::Is('\n');
        let i = text::first_of(s, k) as int;
        text::first_of_bounds(s, k);
        let t = s.push('\n');
        if i < s.len() {
            assert forall|j: int| 0 <= j < i implies !k.has(#[trigger] t[j]) by {
                assert(t[j] == s[j]);
            }
            assert(t[i] == s[i]);
            text::first_of_is(t, k, i as nat);
            let rest = s.skip(i + 1);
            assert(rest.last() == s.last());
            ended_line(rest);
            assert(t.take(i) =~= s.take(i));
            assert(t.skip(i + 1) =~= rest.push('\n'));
        } else {
            assert(!s.contains('\n')) by {
                if s.contains('\n') {
                    let j = choose|j: int| 0 <= j < s.len() && s[j] == '\n';
                    assert(!k.has(s[j]));
                }
            }
            text_laws::line_by_line(s, none);
            assert(t =~= s + seq!['\n'] + none);
            assert(text::lines(t) =~= seq![s]);
        }
    }
}

proof fn header_lines()
    ensures
        patch::LAYER_HEADER@.len() > 0,
        patch::LAYER_HEADER@.last() == '\n',
        spoken(text::lines(patch::LAYER_HEADER@)) == Seq::<Seq<char>>::empty(),
{
    reveal_strlit(
        "# Your patch layer for this dsh profile, applied after every bundle layer:\n# a top-level YAML array of loader patch entries (id-targeted config\n# overrides, disables, and insert lists; `!!js` expressions allowed).\n",
    );
    reveal_strlit("# Your patch layer for this dsh profile, applied after every bundle layer:");
    reveal_strlit("# a top-level YAML array of loader patch entries (id-targeted config");
    reveal_strlit("# overrides, disables, and insert lists; `!!js` expressions allowed).");
    let a = "# Your patch layer for this dsh profile, applied after every bundle layer:"@;
    let b = "# a top-level YAML array of loader patch entries (id-targeted config"@;
    let c = "# overrides, disables, and insert lists; `!!js` expressions allowed)."@;
    let none = Seq::<char>::empty();
    assert(patch::LAYER_HEADER@ =~= a + seq!['\n'] + (b + seq!['\n'] + (c + seq!['\n'] + none)));
    text_laws::line_by_line(a, b + seq!['\n'] + (c + seq!['\n'] + none));
    text_laws::line_by_line(b, c + seq!['\n'] + none);
    text_laws::line_by_line(c, none);
    assert(text_laws::is_blank(none));
    assert(a =~= none + seq!['#'] + a.skip(1));
    assert(b =~= none + seq!['#'] + b.skip(1));
    assert(c =~= none + seq!['#'] + c.skip(1));
    let all = seq![a, b, c];
    assert(text::lines(patch::LAYER_HEADER@) =~= all);
    assert(all.drop_last() =~= seq![a, b]);
    assert(seq![a, b].drop_last() =~= seq![a]);
    assert(seq![a].drop_last() =~= Seq::<Seq<char>>::empty());
    assert(spoken(Seq::empty()) =~= Seq::<Seq<char>>::empty());
    assert(spoken(seq![a]) =~= Seq::<Seq<char>>::empty());
    assert(spoken(seq![a, b]) =~= Seq::<Seq<char>>::empty());
    assert(spoken(all) =~= Seq::<Seq<char>>::empty());
}

/// A layer that is replaced tells where its copy is.
pub proof fn copy_is_told(content: Seq<char>, v: Seq<EntryView>, ts: u64, backup: Seq<char>)
    ensures
        match patch::disable_plan(content, v, ts, backup) {
            PlanView::Write { backup: copy, text: new, added } => copy ==> text::contains(
                new,
                backup,
            ),
            PlanView::Unchanged => true,
        },
{
    let x = "# dsh-desktop: 原行内补丁列表无法安全追加，已备份到 "@;
    let blocks = patch::row_blocks(ts, patch::fresh(v, content));
    assert(x + backup + "\n"@ + blocks =~= x + backup + ("\n"@ + blocks));
    text_laws::holds_pattern(x, backup, "\n"@ + blocks);
}

/// Each row is added together with the time and with its reason, of which 120 characters are kept
/// and which is put on one line.
pub proof fn reason_is_told(
    content: Seq<char>,
    v: Seq<EntryView>,
    ts: u64,
    backup: Seq<char>,
    i: int,
)
    requires
        0 <= i < v.len(),
        is_to_be_added(v[i], content),
    ensures
        patch::disable_plan(content, v, ts, backup) matches PlanView::Write {
            backup: copy,
            text: new,
            added,
        } && text::contains(new, on_one_line(v[i].reason, 120)) && text::contains(
            new,
            number::decimal(ts as nat),
        ),
{
    fresh_is_filtered(v, content);
    let p = |e: EntryView| is_to_be_added(e, content);
    let f = patch::fresh(v, content);
    assert(p(v[i]));
    assert(f.contains(v[i])) by {
        broadcast use vstd::seq_lib::group_filter_ensures;
        assert(v.filter(p).contains(v[i]));
    }
    let j = choose|j: int| 0 <= j < f.len() && f[j] == v[i];
    let head = patch::layer_head(content, backup);
    let why = on_one_line(v[i].reason, 120);
    assert(why =~= patch::comment_text(v[i].reason));
    block_is_in_text(head, ts, f, j);
    let new = head + patch::row_blocks(ts, f);
    let (a, b) = choose|a: Seq<char>, b: Seq<char>| new == #[trigger] (a + patch::row_block(ts, f[j])
        + b);
    let x = "\n# dsh-desktop auto-recovery ("@;
    let d = number::decimal(ts as nat);
    let y = "): 该插件导致启动失败 —— "@;
    let z = "\n- id: "@ + f[j].id + "\n  disabled: true\n"@;
    assert(new =~= (a + x) + d + (y + why + z + b));
    text_laws::holds_pattern(a + x, d, y + why + z + b);
    assert(new =~= (a + x + d + y) + why + (z + b));
    text_laws::holds_pattern(a + x + d + y, why, z + b);
}

/// The first characters of a text, with a space for each line break and tab.
pub open spec fn on_one_line(s: Seq<char>, n: int) -> Seq<char> {
    let m = if s.len() <= n {
        s.len() as int
    } else {
        n
    };
    Seq::new(
        m as nat,
        |i: int|
            if s[i] == '\n' || s[i] == '\r' || s[i] == '\t' {
                ' '
            } else {
                s[i]
            },
    )
}

proof fn block_is_in_text(head: Seq<char>, ts: u64, v: Seq<EntryView>, j: int)
    requires
        0 <= j < v.len(),
    ensures
        exists|a: Seq<char>, b: Seq<char>|
            head + patch::row_blocks(ts, v) == #[trigger] (a + patch::row_block(ts, v[j]) + b),
    decreases v.len(),
{
    let w = v.drop_last();
    let front = patch::row_blocks(ts, w);
    let last = patch::row_block(ts, v.last());
    let all = head + patch::row_blocks(ts, v);
    if j == v.len() - 1 {
        assert(all =~= (head + front) + last + Seq::<char>::empty());
    } else {
        block_is_in_text(head, ts, w, j);
        let (a, b) = choose|a: Seq<char>, b: Seq<char>|
            head + front == #[trigger] (a + patch::row_block(ts, w[j]) + b);
        assert(all =~= (head + front) + last);
        assert(all =~= a + patch::row_block(ts, v[j]) + (b + last));
    }
}

// ---- safe mode ------------------------------------------------------------------------------

/// Whether a name is that of a third-party plugin: it is not from the project, and neither it nor
/// its package is one of the bundles'.
pub open spec fn is_foreign(name: Seq<char>, bundle: Seq<(Seq<char>, Seq<char>)>) -> bool {
    &&& forall|x: Seq<char>| name != #[trigger] ("@deepseek-ai/"@ + x)
    &&& forall|j: int|
        0 <= j < bundle.len() ==> (#[trigger] bundle[j]).1 != name && bundle[j].1
            != diagnose::package_of(name)
}

proof fn foreign_is_third_party(name: Seq<char>, bundle: Seq<(Seq<char>, Seq<char>)>)
    ensures
        is_foreign(name, bundle) <==> patch::is_third_party(name, bundle),
{
    text_laws::starts_with_is_concatenation(name, "@deepseek-ai/"@);
    if is_foreign(name, bundle) && text::starts_with(name, "@deepseek-ai/"@) {
        let x = choose|x: Seq<char>| name == #[trigger] ("@deepseek-ai/"@ + x);
    }
}

/// The overlay disables exactly the third-party rows of the user's layer whose ids can be written,
/// in their order.
pub proof fn third_party_rows_are_disabled(
    rows: Seq<(Seq<char>, Seq<char>)>,
    bundle: Seq<(Seq<char>, Seq<char>)>,
)
    ensures
        patch::third_party_ids(rows, bundle) == rows.filter(
            |row: (Seq<char>, Seq<char>)|
                is_foreign(row.1, bundle) && row.0.len() > 0 && !text::has_white_space(row.0),
        ).map(|i: int, row: (Seq<char>, Seq<char>)| row.0),
    decreases rows.len(),
{
    reveal(Seq::filter);
    let p = |row: (Seq<char>, Seq<char>)|
        is_foreign(row.1, bundle) && row.0.len() > 0 && !text::has_white_space(row.0);
    let f = |i: int, row: (Seq<char>, Seq<char>)| row.0;
    let ids = patch::third_party_ids(rows, bundle);
    if rows.len() == 0 {
        assert(ids =~= rows.filter(p).map(f));
    } else {
        let front = rows.drop_last();
        third_party_rows_are_disabled(front, bundle);
        foreign_is_third_party(rows.last().1, bundle);
        assert(front.filter(p).push(rows.last()).map(f) =~= front.filter(p).map(f).push(
            rows.last().0,
        ));
    }
}

/// A plugin whose name does not begin with the project's scope, and which no bundle has, neither
/// itself nor its package, is disabled in safe mode if its id can be written.
pub proof fn foreign_plugin_is_disabled(
    user: Seq<char>,
    bundle: Seq<(Seq<char>, Seq<char>)>,
    i: int,
)
    requires
        0 <= i < patch::named_rows(user).len(),
        forall|x: Seq<char>| patch::named_rows(user)[i].1 != #[trigger] ("@deepseek-ai/"@ + x),
        forall|j: int|
            0 <= j < bundle.len() ==> (#[trigger] bundle[j]).1 != patch::named_rows(user)[i].1
                && bundle[j].1 != diagnose::package_of(patch::named_rows(user)[i].1),
        patch::named_rows(user)[i].0.len() > 0,
        !text::has_white_space(patch::named_rows(user)[i].0),
    ensures
        patch::third_party_ids(patch::named_rows(user), bundle).contains(
            patch::named_rows(user)[i].0,
        ),
{
    foreign_is_third_party(patch::named_rows(user)[i].1, bundle);
    patch_laws::safe_mode_disables_every_third_party_row(patch::named_rows(user), bundle, i);
}

/// The overlay says nothing but that its rows are disabled.
pub proof fn overlay_says_what_it_disables(
    rows: Seq<(Seq<char>, Seq<char>)>,
    bundle: Seq<(Seq<char>, Seq<char>)>,
)
    ensures
        ({
            let ids = patch::third_party_ids(rows, bundle);
            spoken(text::lines(patch::OVERLAY_HEADER@ + patch::overlay_rows(ids))) == disabling(ids)
        }),
{
    let ids = patch::third_party_ids(rows, bundle);
    third_party_ids_are_clean(rows, bundle);
    overlay_lines(ids);
    overlay_header_lines();
    let head = patch::OVERLAY_HEADER@;
    let body = patch::overlay_rows(ids);
    text::lines_in_two(head, body);
    spoken_in_two(text::lines(head), text::lines(body));
    assert(Seq::<Seq<char>>::empty() + disabling(ids) =~= disabling(ids));
}

proof fn third_party_ids_are_clean(
    rows: Seq<(Seq<char>, Seq<char>)>,
    bundle: Seq<(Seq<char>, Seq<char>)>,
)
    ensures
        forall|i: int|
            0 <= i < patch::third_party_ids(rows, bundle).len() ==> diagnose::is_clean_id(
                #[trigger] patch::third_party_ids(rows, bundle)[i],
            ),
    decreases rows.len(),
{
    let ids = patch::third_party_ids(rows, bundle);
    if rows.len() > 0 {
        let front = patch::third_party_ids(rows.drop_last(), bundle);
        third_party_ids_are_clean(rows.drop_last(), bundle);
        assert forall|i: int| 0 <= i < ids.len() implies diagnose::is_clean_id(#[trigger] ids[i]) by {
            if i < front.len() {
                assert(ids[i] == front[i]);
            }
        }
    } else {
        assert(ids.len() == 0);
    }
}

proof fn overlay_lines(ids: Seq<Seq<char>>)
    requires
        forall|i: int| 0 <= i < ids.len() ==> diagnose::is_clean_id(#[trigger] ids[i]),
    ensures
        spoken(text::lines(patch::overlay_rows(ids))) == disabling(ids),
        patch::overlay_rows(ids).len() == 0 || patch::overlay_rows(ids).last() == '\n',
    decreases ids.len(),
{
    if ids.len() == 0 {
        assert(text::lines(patch::overlay_rows(ids)) =~= Seq::<Seq<char>>::empty());
        assert(disabling(ids) =~= Seq::<Seq<char>>::empty());
    } else {
        let front = ids.drop_last();
        assert forall|i: int| 0 <= i < front.len() implies diagnose::is_clean_id(
            #[trigger] front[i],
        ) by {
            assert(front[i] == ids[i]);
        }
        overlay_lines(front);
        assert(diagnose::is_clean_id(ids[ids.len() - 1]));
        row_lines(ids.last());
        let a = patch::overlay_rows(front);
        let b = "- id: "@ + ids.last() + "\n  disabled: true\n"@;
        text::lines_in_two(a, b);
        spoken_in_two(text::lines(a), text::lines(b));
        assert((a + b).last() == b.last());
    }
}

proof fn overlay_header_lines()
    ensures
        patch::OVERLAY_HEADER@.len() > 0,
        patch::OVERLAY_HEADER@.last() == '\n',
        spoken(text::lines(patch::OVERLAY_HEADER@)) == Seq::<Seq<char>>::empty(),
{
    reveal_strlit(
        "# dsh-desktop safe-mode overlay: 本文件由桌面壳在安全模式下通过\n# `dsh web --patch <此文件>` 一次性注入，用于停用所有第三方插件；\n# 正常启动不会加载它，可随时删除。\n",
    );
    reveal_strlit("# dsh-desktop safe-mode overlay: 本文件由桌面壳在安全模式下通过");
    reveal_strlit("# `dsh web --patch <此文件>` 一次性注入，用于停用所有第三方插件；");
    reveal_strlit("# 正常启动不会加载它，可随时删除。");
    let a = "# dsh-desktop safe-mode overlay: 本文件由桌面壳在安全模式下通过"@;
    let b = "# `dsh web --patch <此文件>` 一次性注入，用于停用所有第三方插件；"@;
    let c = "# 正常启动不会加载它，可随时删除。"@;
    let none = Seq::<char>::empty();
    assert(patch::OVERLAY_HEADER@ =~= a + seq!['\n'] + (b + seq!['\n'] + (c + seq!['\n'] + none)));
    text_laws::line_by_line(a, b + seq!['\n'] + (c + seq!['\n'] + none));
    text_laws::line_by_line(b, c + seq!['\n'] + none);
    text_laws::line_by_line(c, none);
    assert(text_laws::is_blank(none));
    assert(a =~= none + seq!['#'] + a.skip(1));
    assert(b =~= none + seq!['#'] + b.skip(1));
    assert(c =~= none + seq!['#'] + c.skip(1));
    let all = seq![a, b, c];
    assert(text::lines(patch::OVERLAY_HEADER@) =~= all);
    assert(all.drop_last() =~= seq![a, b]);
    assert(seq![a, b].drop_last() =~= seq![a]);
    assert(seq![a].drop_last() =~= Seq::<Seq<char>>::empty());
    assert(spoken(Seq::empty()) =~= Seq::<Seq<char>>::empty());
    assert(spoken(seq![a]) =~= Seq::<Seq<char>>::empty());
    assert(spoken(seq![a, b]) =~= Seq::<Seq<char>>::empty());
    assert(spoken(all) =~= Seq::<Seq<char>>::empty());
}

} // verus!
