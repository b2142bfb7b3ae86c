//! Text as sequences of characters: classes of characters, trimming, searching, splitting.
//!
//! Every position is counted in characters, never in bytes.

use vstd::prelude::*;
use vstd::slice::*;
use vstd::string::*;

verus! {

/// A set of characters that text is trimmed by or cut at.
#[derive(Clone, Copy, Debug, PartialEq, Eq, Structural)]
pub enum CharClass {
    /// The characters with the Unicode property `White_Space`.
    WhiteSpace,
    /// One character.
    Is(char),
    /// Line feed and carriage return.
    LineBreak,
    /// Everything but the ASCII digits.
    NonDigit,
    /// What may follow an address in running text without belonging to it.
    UrlTail,
    /// The final byte of a control sequence of a terminal.
    CsiFinal,
    /// What ends an operating system command of a terminal: the bell, or an escape.
    OscEnd,
    /// What a list of quoted texts is read by: a quote, or the bracket that closes the list.
    ListMark,
}

/// The Unicode property `White_Space`.
pub open spec fn is_white_space(c: char) -> bool {
    let n = c as u32;
    ||| 0x09 <= n <= 0x0d
    ||| n == 0x20
    ||| n == 0x85
    ||| n == 0xa0
    ||| n == 0x1680
    ||| 0x2000 <= n <= 0x200a
    ||| n == 0x2028
    ||| n == 0x2029
    ||| n == 0x202f
    ||| n == 0x205f
    ||| n == 0x3000
}

impl CharClass {
    /// Whether `c` belongs to the class.
    pub open spec fn has(self, c: char) -> bool {
        match self {
            CharClass::WhiteSpace => is_white_space(c),
            CharClass::Is(x) => c == x,
            CharClass::LineBreak => c == '\n' || c == '\r',
            CharClass::NonDigit => !('0' <= c && c <= '9'),
            CharClass::UrlTail => c == '\r' || c == ',' || c == ')' || c == '.' || c == ';' || c
                == '"',
            CharClass::CsiFinal => '\u{40}' <= c && c <= '\u{7e}',
            CharClass::OscEnd => c == '\u{07}' || c == '\u{1b}',
            CharClass::ListMark => c == '"' || c == ']',
        }
    }

    /// Tests whether `c` belongs to the class.
    pub fn includes(&self, c: char) -> (r: bool)
        ensures
            r == self.has(c),
    {
        match *self {
            CharClass::WhiteSpace => white_space(c),
            CharClass::Is(x) => c == x,
            CharClass::LineBreak => c == '\n' || c == '\r',
            CharClass::NonDigit => !('0' <= c && c <= '9'),
            CharClass::UrlTail => c == '\r' || c == ',' || c == ')' || c == '.' || c == ';' || c
                == '"',
            CharClass::CsiFinal => '\u{40}' <= c && c <= '\u{7e}',
            CharClass::OscEnd => c == '\u{07}' || c == '\u{1b}',
            CharClass::ListMark => c == '"' || c == ']',
        }
    }
}

/// Tests the Unicode property `White_Space`.
pub fn white_space(c: char) -> (r: bool)
    ensures
        r == is_white_space(c),
{
    let n = c as u32;
    (0x09 <= n && n <= 0x0d) || n == 0x20 || n == 0x85 || n == 0xa0 || n == 0x1680 || (0x2000 <= n
        && n <= 0x200a) || n == 0x2028 || n == 0x2029 || n == 0x202f || n == 0x205f || n == 0x3000
}

// ---- strings and sequences of characters ---------------------------------------------------

/// `String::push` of std: the character is appended at the end of the string.
pub assume_specification[ String::push ](s: &mut String, c: char)
    ensures
        final(s)@ == old(s)@.push(c),
;

/// The characters of `s`.
pub fn to_chars(s: &str) -> (r: Vec<char>)
    ensures
        r@ == s@,
{
    let mut out: Vec<char> = Vec::new();
    for c in it: s.chars()
        invariant
            it.seq() == s@,
            out@ == s@.take(it.index() as int),
    {
        out.push(c);
    }
    out
}

/// The string with the characters `cs`.
pub fn to_text(cs: &[char]) -> (r: String)
    ensures
        r@ == cs@,
{
    let mut out = String::new();
    let mut i: usize = 0;
    while i < cs.len()
        invariant
            i <= cs@.len(),
            out@ == cs@.take(i as int),
        decreases cs@.len() - i,
    {
        out.push(cs[i]);
        i += 1;
    }
    out
}

/// The texts in a sequence of strings.
pub open spec fn texts(v: Seq<String>) -> Seq<Seq<char>> {
    Seq::new(v.len(), |i: int| v[i]@)
}

/// The texts in a sequence of character vectors.
pub open spec fn pieces(v: Seq<Vec<char>>) -> Seq<Seq<char>> {
    Seq::new(v.len(), |i: int| v[i]@)
}

/// Pairs of texts.
pub open spec fn text_pairs(v: Seq<(String, String)>) -> Seq<(Seq<char>, Seq<char>)> {
    Seq::new(v.len(), |i: int| (v[i].0@, v[i].1@))
}

/// The text that an optional string holds.
pub open spec fn opt_text(o: Option<String>) -> Option<Seq<char>> {
    match o {
        Some(s) => Some(s@),
        None => None,
    }
}

/// The text that an optional string slice holds.
pub open spec fn opt_str(o: Option<&str>) -> Option<Seq<char>> {
    match o {
        Some(s) => Some(s@),
        None => None,
    }
}

/// Copies strings.
pub fn copy_strings(v: &[String]) -> (r: Vec<String>)
    ensures
        texts(r@) == texts(v@),
{
    let mut out: Vec<String> = Vec::new();
    let mut i: usize = 0;
    while i < v.len()
        invariant
            i <= v@.len(),
            texts(out@) == texts(v@).take(i as int),
        decreases v@.len() - i,
    {
        let ghost before = texts(out@);
        out.push(String::from_str(v[i].as_str()));
        assert(texts(out@) =~= before.push(v@[i as int]@));
        i += 1;
        assert(texts(v@).take(i as int) =~= texts(v@).take(i - 1).push(v@[i - 1]@));
    }
    assert(texts(v@).take(i as int) =~= texts(v@));
    out
}

/// Appends a copy of a text.
pub fn push_text(v: &mut Vec<String>, s: &str)
    ensures
        texts(final(v)@) == texts(old(v)@).push(s@),
{
    v.push(String::from_str(s));
    assert(texts(v@) =~= texts(old(v)@).push(s@));
}

/// Copies a slice of characters.
pub fn copy_chars(cs: &[char]) -> (r: Vec<char>)
    ensures
        r@ == cs@,
{
    let mut out: Vec<char> = Vec::new();
    push_chars(&mut out, cs);
    assert(Seq::<char>::empty() + cs@ =~= cs@);
    out
}

/// Appends `cs` to `out`.
pub fn push_chars(out: &mut Vec<char>, cs: &[char])
    ensures
        final(out)@ == old(out)@ + cs@,
{
    let mut i: usize = 0;
    while i < cs.len()
        invariant
            i <= cs@.len(),
            out@ == old(out)@ + cs@.take(i as int),
        decreases cs@.len() - i,
    {
        out.push(cs[i]);
        i += 1;
        assert(cs@.take(i as int) =~= cs@.take(i - 1).push(cs@[i - 1]));
    }
    assert(cs@.take(i as int) =~= cs@);
}

/// Tests whether two texts are the same.
pub fn same_chars(a: &[char], b: &[char]) -> (r: bool)
    ensures
        r == (a@ == b@),
{
    if a.len() != b.len() {
        return false;
    }
    let mut i: usize = 0;
    while i < a.len()
        invariant
            a@.len() == b@.len(),
            i <= a@.len(),
            forall|j: int| 0 <= j < i ==> a@[j] == b@[j],
        decreases a@.len() - i,
    {
        if a[i] != b[i] {
            return false;
        }
        i += 1;
    }
    assert(a@ =~= b@);
    true
}

/// Tests whether two strings hold the same text.
pub fn same_text(a: &str, b: &str) -> (r: bool)
    ensures
        r == (a@ == b@),
{
    let x = to_chars(a);
    let y = to_chars(b);
    same_chars(x.as_slice(), y.as_slice())
}

// ---- runs of a class ------------------------------------------------------------------------

/// How many characters at the start of `s` belong to `k`, before the first that does not.
pub open spec fn run(s: Seq<char>, k: CharClass) -> nat
    decreases s.len(),
{
    if s.len() > 0 && k.has(s[0]) {
        1 + run(s.skip(1), k)
    } else {
        0
    }
}

/// How many characters at the end of `s` belong to `k`, after the last that does not.
pub open spec fn end_run(s: Seq<char>, k: CharClass) -> nat
    decreases s.len(),
{
    if s.len() > 0 && k.has(s.last()) {
        1 + end_run(s.drop_last(), k)
    } else {
        0
    }
}

/// The position of the first character of `s` that belongs to `k`; the length of `s` if none does.
pub open spec fn first_of(s: Seq<char>, k: CharClass) -> nat
    decreases s.len(),
{
    if s.len() > 0 && !k.has(s[0]) {
        1 + first_of(s.skip(1), k)
    } else {
        0
    }
}

pub proof fn run_is(s: Seq<char>, k: CharClass, n: nat)
    requires
        n <= s.len(),
        forall|j: int| 0 <= j < n ==> k.has(#[trigger] s[j]),
        n == s.len() || !k.has(s[n as int]),
    ensures
        run(s, k) == n,
    decreases s.len(),
{
    if n > 0 {
        assert(k.has(s[0]));
        assert forall|j: int| 0 <= j < n - 1 implies k.has(#[trigger] s.skip(1)[j]) by {
            assert(s.skip(1)[j] == s[j + 1]);
        }
        run_is(s.skip(1), k, (n - 1) as nat);
    }
}

pub proof fn run_bounds(s: Seq<char>, k: CharClass)
    ensures
        run(s, k) <= s.len(),
        forall|j: int| 0 <= j < run(s, k) ==> k.has(#[trigger] s[j]),
        run(s, k) < s.len() ==> !k.has(s[run(s, k) as int]),
    decreases s.len(),
{
    if s.len() > 0 && k.has(s[0]) {
        run_bounds(s.skip(1), k);
        assert forall|j: int| 0 <= j < run(s, k) implies k.has(#[trigger] s[j]) by {
            if j > 0 {
                assert(s.skip(1)[j - 1] == s[j]);
            }
        }
    }
}

pub proof fn end_run_is(s: Seq<char>, k: CharClass, n: nat)
    requires
        n <= s.len(),
        forall|j: int| s.len() - n <= j < s.len() ==> k.has(#[trigger] s[j]),
        n == s.len() || !k.has(s[s.len() - n - 1]),
    ensures
        end_run(s, k) == n,
    decreases s.len(),
{
    if n > 0 {
        assert(k.has(s[s.len() - 1]));
        end_run_is(s.drop_last(), k, (n - 1) as nat);
    }
}

pub proof fn end_run_bounds(s: Seq<char>, k: CharClass)
    ensures
        end_run(s, k) <= s.len(),
        forall|j: int| s.len() - end_run(s, k) <= j < s.len() ==> k.has(#[trigger] s[j]),
        end_run(s, k) < s.len() ==> !k.has(s[s.len() - end_run(s, k) - 1]),
    decreases s.len(),
{
    if s.len() > 0 && k.has(s.last()) {
        end_run_bounds(s.drop_last(), k);
        assert forall|j: int| s.len() - end_run(s, k) <= j < s.len() implies k.has(
            #[trigger] s[j],
        ) by {
            if j < s.len() - 1 {
                assert(s.drop_last()[j] == s[j]);
            }
        }
    }
}

pub proof fn first_of_is(s: Seq<char>, k: CharClass, n: nat)
    requires
        n <= s.len(),
        forall|j: int| 0 <= j < n ==> !k.has(#[trigger] s[j]),
        n == s.len() || k.has(s[n as int]),
    ensures
        first_of(s, k) == n,
    decreases s.len(),
{
    if n > 0 {
        assert(!k.has(s[0]));
        assert forall|j: int| 0 <= j < n - 1 implies !k.has(#[trigger] s.skip(1)[j]) by {
            assert(s.skip(1)[j] == s[j + 1]);
        }
        first_of_is(s.skip(1), k, (n - 1) as nat);
    }
}

pub proof fn first_of_bounds(s: Seq<char>, k: CharClass)
    ensures
        first_of(s, k) <= s.len(),
        forall|j: int| 0 <= j < first_of(s, k) ==> !k.has(#[trigger] s[j]),
        first_of(s, k) < s.len() ==> k.has(s[first_of(s, k) as int]),
    decreases s.len(),
{
    if s.len() > 0 && !k.has(s[0]) {
        first_of_bounds(s.skip(1), k);
        assert forall|j: int| 0 <= j < first_of(s, k) implies !k.has(#[trigger] s[j]) by {
            if j > 0 {
                assert(s.skip(1)[j - 1] == s[j]);
            }
        }
    }
}

/// Counts the characters at the start of `s` that belong to `k`.
pub fn count_run(s: &[char], k: CharClass) -> (r: usize)
    ensures
        r == run(s@, k),
        r <= s@.len(),
{
    let mut i: usize = 0;
    while i < s.len() && k.includes(s[i])
        invariant
            i <= s@.len(),
            forall|j: int| 0 <= j < i ==> k.has(#[trigger] s@[j]),
        decreases s@.len() - i,
    {
        i += 1;
    }
    proof {
        run_is(s@, k, i as nat);
    }
    i
}

/// Counts the characters at the end of `s` that belong to `k`.
pub fn count_end_run(s: &[char], k: CharClass) -> (r: usize)
    ensures
        r == end_run(s@, k),
        r <= s@.len(),
{
    let mut i: usize = 0;
    while i < s.len() && k.includes(s[s.len() - 1 - i])
        invariant
            i <= s@.len(),
            forall|j: int| s@.len() - i <= j < s@.len() ==> k.has(#[trigger] s@[j]),
        decreases s@.len() - i,
    {
        i += 1;
    }
    proof {
        end_run_is(s@, k, i as nat);
    }
    i
}

/// Finds the first character of `s` that belongs to `k`.
pub fn find_first_of(s: &[char], k: CharClass) -> (r: usize)
    ensures
        r == first_of(s@, k),
        r <= s@.len(),
{
    let mut i: usize = 0;
    while i < s.len() && !k.includes(s[i])
        invariant
            i <= s@.len(),
            forall|j: int| 0 <= j < i ==> !k.has(#[trigger] s@[j]),
        decreases s@.len() - i,
    {
        i += 1;
    }
    proof {
        first_of_is(s@, k, i as nat);
    }
    i
}

// ---- trimming -------------------------------------------------------------------------------

/// `s` without the characters of `k` at its start.
pub open spec fn trim_start_of(s: Seq<char>, k: CharClass) -> Seq<char> {
    s.skip(run(s, k) as int)
}

/// `s` without the characters of `k` at its end.
pub open spec fn trim_end_of(s: Seq<char>, k: CharClass) -> Seq<char> {
    s.take(s.len() - end_run(s, k))
}

/// `s` without the characters of `k` at either end.
pub open spec fn trim_of(s: Seq<char>, k: CharClass) -> Seq<char> {
    trim_end_of(trim_start_of(s, k), k)
}

/// `s` without the white space at either end.
pub open spec fn trim(s: Seq<char>) -> Seq<char> {
    trim_of(s, CharClass::WhiteSpace)
}

/// `s` without the white space at its start.
pub open spec fn trim_start(s: Seq<char>) -> Seq<char> {
    trim_start_of(s, CharClass::WhiteSpace)
}

/// Drops the characters of `k` at the start.
pub fn without_start<'a>(s: &'a [char], k: CharClass) -> (r: &'a [char])
    ensures
        r@ == trim_start_of(s@, k),
{
    let n = count_run(s, k);
    slice_subrange(s, n, s.len())
}

/// Drops the characters of `k` at the end.
pub fn without_end<'a>(s: &'a [char], k: CharClass) -> (r: &'a [char])
    ensures
        r@ == trim_end_of(s@, k),
{
    let n = count_end_run(s, k);
    slice_subrange(s, 0, s.len() - n)
}

/// Drops the characters of `k` at both ends.
pub fn without_ends<'a>(s: &'a [char], k: CharClass) -> (r: &'a [char])
    ensures
        r@ == trim_of(s@, k),
{
    without_end(without_start(s, k), k)
}

/// Drops the white space at both ends.
pub fn trimmed<'a>(s: &'a [char]) -> (r: &'a [char])
    ensures
        r@ == trim(s@),
{
    without_ends(s, CharClass::WhiteSpace)
}

// ---- searching ------------------------------------------------------------------------------

/// Whether `p` stands in `s` at position `i`.
pub open spec fn occurs_at(s: Seq<char>, p: Seq<char>, i: int) -> bool {
    0 <= i && i + p.len() <= s.len() && s.subrange(i, i + p.len()) == p
}

/// Whether `p` stands anywhere in `s`.
pub open spec fn contains(s: Seq<char>, p: Seq<char>) -> bool {
    exists|i: int| occurs_at(s, p, i)
}

/// Whether `s` begins with `p`.
pub open spec fn starts_with(s: Seq<char>, p: Seq<char>) -> bool {
    occurs_at(s, p, 0)
}

/// The first position at or after `i` at which `p` stands in `s`.
pub open spec fn find_at(s: Seq<char>, p: Seq<char>, i: int) -> Option<int>
    decreases s.len() + 1 - i,
{
    if i < 0 || i + p.len() > s.len() {
        None
    } else if occurs_at(s, p, i) {
        Some(i)
    } else {
        find_at(s, p, i + 1)
    }
}

/// The first position at which `p` stands in `s`.
pub open spec fn find(s: Seq<char>, p: Seq<char>) -> Option<int> {
    find_at(s, p, 0)
}

/// `find` gives the least position at which the pattern stands, and none only where the pattern
/// stands nowhere.
pub proof fn find_is_first(s: Seq<char>, p: Seq<char>)
    ensures
        match find(s, p) {
            Some(i) => occurs_at(s, p, i) && forall|j: int| 0 <= j < i ==> !occurs_at(s, p, j),
            None => !contains(s, p),
        },
{
    find_at_is_first(s, p, 0);
}

proof fn find_at_is_first(s: Seq<char>, p: Seq<char>, from: int)
    requires
        0 <= from,
    ensures
        match find_at(s, p, from) {
            Some(i) => from <= i && occurs_at(s, p, i) && forall|j: int|
                from <= j < i ==> !occurs_at(s, p, j),
            None => forall|j: int| from <= j ==> !occurs_at(s, p, j),
        },
    decreases s.len() + 1 - from,
{
    if from + p.len() > s.len() {
    } else if occurs_at(s, p, from) {
    } else {
        find_at_is_first(s, p, from + 1);
    }
}

/// Tests whether `p` stands in `s` at position `i`.
pub fn stands_at(s: &[char], p: &[char], i: usize) -> (r: bool)
    ensures
        r == occurs_at(s@, p@, i as int),
{
    if i > s.len() || s.len() - i < p.len() {
        return false;
    }
    same_chars(slice_subrange(s, i, i + p.len()), p)
}

/// Finds the first position at which `p` stands in `s`.
pub fn find_chars(s: &[char], p: &[char]) -> (r: Option<usize>)
    ensures
        match r {
            Some(i) => find(s@, p@) == Some(i as int) && i + p@.len() <= s@.len(),
            None => find(s@, p@) is None,
        },
{
    if p.len() > s.len() {
        return None;
    }
    let last: usize = s.len() - p.len();
    let mut i: usize = 0;
    loop
        invariant
            last == s@.len() - p@.len(),
            i <= last,
            find(s@, p@) == find_at(s@, p@, i as int),
        decreases last - i,
    {
        if stands_at(s, p, i) {
            return Some(i);
        }
        if i == last {
            assert(find_at(s@, p@, i + 1) is None);
            return None;
        }
        i += 1;
    }
}

/// Finds the first position at which the text `p` stands in `s`.
pub fn find_str(s: &[char], p: &str) -> (r: Option<usize>)
    ensures
        match r {
            Some(i) => find(s@, p@) == Some(i as int) && i + p@.len() <= s@.len(),
            None => find(s@, p@) is None,
        },
{
    let pat = to_chars(p);
    find_chars(s, pat.as_slice())
}

/// Tests whether the text `p` stands anywhere in `s`.
pub fn has_str(s: &[char], p: &str) -> (r: bool)
    ensures
        r == contains(s@, p@),
{
    proof {
        find_is_first(s@, p@);
    }
    find_str(s, p).is_some()
}

/// Tests whether `s` begins with the text `p`.
pub fn begins_with(s: &[char], p: &str) -> (r: bool)
    ensures
        r == starts_with(s@, p@),
{
    let pat = to_chars(p);
    stands_at(s, pat.as_slice(), 0)
}

/// What follows `p` in `s`, where `s` begins with `p`.
pub open spec fn after_prefix(s: Seq<char>, p: Seq<char>) -> Option<Seq<char>> {
    if starts_with(s, p) {
        Some(s.skip(p.len() as int))
    } else {
        None
    }
}

/// Cuts `p` off the start of `s`.
pub fn cut_prefix<'a>(s: &'a [char], p: &str) -> (r: Option<&'a [char]>)
    ensures
        match r {
            Some(t) => after_prefix(s@, p@) == Some(t@),
            None => after_prefix(s@, p@) is None,
        },
{
    let pat = to_chars(p);
    if stands_at(s, pat.as_slice(), 0) {
        Some(slice_subrange(s, pat.len(), s.len()))
    } else {
        None
    }
}

/// Tests whether `c` stands in `s`.
pub fn has_char(s: &[char], c: char) -> (r: bool)
    ensures
        r == s@.contains(c),
{
    let i = find_first_of(s, CharClass::Is(c));
    proof {
        first_of_bounds(s@, CharClass::Is(c));
        if i < s@.len() {
            assert(s@[i as int] == c);
        } else if s@.contains(c) {
            let j = choose|j: int| 0 <= j < s@.len() && s@[j] == c;
            assert(!CharClass::Is(c).has(s@[j]));
        }
    }
    i < s.len()
}

/// Whether some character of `s` is white space.
pub open spec fn has_white_space(s: Seq<char>) -> bool {
    exists|i: int| 0 <= i < s.len() && is_white_space(#[trigger] s[i])
}

/// Tests whether some character of `s` is white space.
pub fn any_white_space(s: &[char]) -> (r: bool)
    ensures
        r == has_white_space(s@),
{
    let i = find_first_of(s, CharClass::WhiteSpace);
    proof {
        first_of_bounds(s@, CharClass::WhiteSpace);
        if i < s@.len() {
            assert(is_white_space(s@[i as int]));
        } else if has_white_space(s@) {
            let j = choose|j: int| 0 <= j < s@.len() && is_white_space(#[trigger] s@[j]);
            assert(!CharClass::WhiteSpace.has(s@[j]));
        }
    }
    i < s.len()
}

/// The letters `A` to `Z` in lower case, every other character unchanged.
pub open spec fn ascii_lower(c: char) -> char {
    if 'A' <= c && c <= 'Z' {
        (c as u32 + 32) as char
    } else {
        c
    }
}

/// `s` with each character in ASCII lower case.
pub open spec fn ascii_lowercase(s: Seq<char>) -> Seq<char> {
    Seq::new(s.len(), |i: int| ascii_lower(s[i]))
}

/// Turns `A` to `Z` into lower case.
pub fn lowercase_ascii(s: &[char]) -> (r: Vec<char>)
    ensures
        r@ == ascii_lowercase(s@),
{
    let mut out: Vec<char> = Vec::new();
    let mut i: usize = 0;
    while i < s.len()
        invariant
            i <= s@.len(),
            out@ == ascii_lowercase(s@).take(i as int),
        decreases s@.len() - i,
    {
        let c = s[i];
        if 'A' <= c && c <= 'Z' {
            out.push((c as u8 + 32) as char);
        } else {
            out.push(c);
        }
        i += 1;
        assert(out@ =~= ascii_lowercase(s@).take(i as int));
    }
    assert(ascii_lowercase(s@).take(i as int) =~= ascii_lowercase(s@));
    out
}

/// The first word of `s`.
pub open spec fn first_word(s: Seq<char>) -> Option<Seq<char>> {
    let t = trim_start(s);
    if t.len() > 0 {
        Some(t.take(first_of(t, CharClass::WhiteSpace) as int))
    } else {
        None
    }
}

/// Takes the first word of `s`.
pub fn take_first_word<'a>(s: &'a [char]) -> (r: Option<&'a [char]>)
    ensures
        match r {
            Some(w) => first_word(s@) == Some(w@),
            None => first_word(s@) is None,
        },
{
    let t = without_start(s, CharClass::WhiteSpace);
    if t.len() > 0 {
        let n = find_first_of(t, CharClass::WhiteSpace);
        Some(slice_subrange(t, 0, n))
    } else {
        None
    }
}

/// The last `n` items of `s`; all of it where it has no more.
pub open spec fn last_n<A>(s: Seq<A>, n: nat) -> Seq<A> {
    if s.len() <= n {
        s
    } else {
        s.skip(s.len() - n)
    }
}

/// Keeps the last `n` strings.
pub fn keep_last(v: &mut Vec<String>, n: usize)
    ensures
        final(v)@ == last_n(old(v)@, n as nat),
{
    if v.len() > n {
        let cut: usize = v.len() - n;
        let kept = v.split_off(cut);
        assert(kept@ =~= last_n(old(v)@, n as nat));
        *v = kept;
    }
}

// ---- splitting and joining ------------------------------------------------------------------

/// The parts of `s` between the characters of `k`: one more than there are such characters.
pub open spec fn split(s: Seq<char>, k: CharClass) -> Seq<Seq<char>>
    decreases s.len(),
{
    let i = first_of(s, k) as int;
    if i < s.len() {
        seq![s.take(i)] + split(s.skip(i + 1), k)
    } else {
        seq![s]
    }
}

/// A line without the carriage return that stands before its line feed.
pub open spec fn without_cr(s: Seq<char>) -> Seq<char> {
    if s.len() > 0 && s.last() == '\r' {
        s.drop_last()
    } else {
        s
    }
}

/// The lines of `s`: each ends at a line feed, or at a carriage return and a line feed, which are
/// not part of it; the last may end with the text instead.
pub open spec fn lines(s: Seq<char>) -> Seq<Seq<char>>
    decreases s.len(),
{
    let i = first_of(s, CharClass::Is('\n')) as int;
    if s.len() == 0 {
        Seq::empty()
    } else if i < s.len() {
        seq![without_cr(s.take(i))] + lines(s.skip(i + 1))
    } else {
        seq![s]
    }
}

/// The words of `s`: the longest runs without white space.
pub open spec fn words(s: Seq<char>) -> Seq<Seq<char>>
    decreases s.len(),
    via words_shorten
{
    let t = trim_start(s);
    let i = first_of(t, CharClass::WhiteSpace) as int;
    if t.len() == 0 {
        Seq::empty()
    } else {
        seq![t.take(i)] + words(t.skip(i))
    }
}

#[via_fn]
proof fn words_shorten(s: Seq<char>) {
    let t = trim_start(s);
    run_bounds(s, CharClass::WhiteSpace);
    if t.len() > 0 {
        assert(!is_white_space(t[0]));
        first_of_bounds(t, CharClass::WhiteSpace);
    }
}

/// The texts `parts` one after another, with `sep` between each two.
pub open spec fn join(parts: Seq<Seq<char>>, sep: Seq<char>) -> Seq<char>
    decreases parts.len(),
{
    if parts.len() == 0 {
        Seq::empty()
    } else if parts.len() == 1 {
        parts[0]
    } else {
        join(parts.drop_last(), sep) + sep + parts.last()
    }
}

/// Splits `s` at the characters of `k`.
pub fn split_at_class(s: &[char], k: CharClass) -> (r: Vec<Vec<char>>)
    ensures
        pieces(r@) == split(s@, k),
        r@.len() > 0,
{
    let mut out: Vec<Vec<char>> = Vec::new();
    let mut rest: &[char] = s;
    assert(pieces(out@) + split(rest@, k) =~= split(s@, k));
    loop
        invariant
            pieces(out@) + split(rest@, k) == split(s@, k),
        decreases rest@.len(),
    {
        let i = find_first_of(rest, k);
        let ghost before = pieces(out@);
        if i < rest.len() {
            out.push(copy_chars(slice_subrange(rest, 0, i)));
            proof {
                assert(pieces(out@) =~= before.push(rest@.take(i as int)));
                assert(rest@.subrange(i + 1, rest@.len() as int) =~= rest@.skip(i + 1));
                assert(before + split(rest@, k) =~= pieces(out@) + split(rest@.skip(i + 1), k));
            }
            rest = slice_subrange(rest, i + 1, rest.len());
        } else {
            out.push(copy_chars(rest));
            proof {
                assert(pieces(out@) =~= before.push(rest@));
                assert(before + split(rest@, k) =~= pieces(out@));
            }
            return out;
        }
    }
}

/// The lines of `s`.
pub fn split_lines(s: &[char]) -> (r: Vec<Vec<char>>)
    ensures
        pieces(r@) == lines(s@),
{
    let mut out: Vec<Vec<char>> = Vec::new();
    let mut rest: &[char] = s;
    assert(pieces(out@) + lines(rest@) =~= lines(s@));
    while rest.len() > 0
        invariant
            pieces(out@) + lines(rest@) == lines(s@),
        decreases rest@.len(),
    {
        let i = find_first_of(rest, CharClass::Is('\n'));
        let ghost before = pieces(out@);
        if i < rest.len() {
            let end: usize = if i > 0 && rest[i - 1] == '\r' {
                i - 1
            } else {
                i
            };
            out.push(copy_chars(slice_subrange(rest, 0, end)));
            proof {
                assert(out@.last()@ =~= without_cr(rest@.take(i as int)));
                assert(pieces(out@) =~= before.push(without_cr(rest@.take(i as int))));
                assert(rest@.subrange(i + 1, rest@.len() as int) =~= rest@.skip(i + 1));
                assert(before + lines(rest@) =~= pieces(out@) + lines(rest@.skip(i + 1)));
            }
            rest = slice_subrange(rest, i + 1, rest.len());
        } else {
            out.push(copy_chars(rest));
            proof {
                assert(pieces(out@) =~= before.push(rest@));
                assert(before + lines(rest@) =~= pieces(out@));
            }
            rest = slice_subrange(rest, 0, 0);
            assert(lines(rest@) =~= Seq::<Seq<char>>::empty());
            assert(pieces(out@) + lines(rest@) =~= pieces(out@));
        }
    }
    assert(lines(rest@) =~= Seq::<Seq<char>>::empty());
    assert(pieces(out@) + lines(rest@) =~= pieces(out@));
    out
}

/// The words of `s`.
pub fn split_words(s: &[char]) -> (r: Vec<Vec<char>>)
    ensures
        pieces(r@) == words(s@),
{
    let mut out: Vec<Vec<char>> = Vec::new();
    let mut rest: &[char] = without_start(s, CharClass::WhiteSpace);
    proof {
        run_bounds(s@, CharClass::WhiteSpace);
        words_of_trimmed(s@);
        assert(pieces(out@) + words(rest@) =~= words(s@));
    }
    while rest.len() > 0
        invariant
            rest@.len() > 0 ==> !is_white_space(rest@[0]),
            pieces(out@) + words(rest@) == words(s@),
        decreases rest@.len(),
    {
        let i = find_first_of(rest, CharClass::WhiteSpace);
        let ghost before = pieces(out@);
        let ghost now = rest@;
        out.push(copy_chars(slice_subrange(rest, 0, i)));
        proof {
            first_of_bounds(rest@, CharClass::WhiteSpace);
            run_is(rest@, CharClass::WhiteSpace, 0);
            assert(trim_start(rest@) =~= rest@);
            assert(pieces(out@) =~= before.push(rest@.take(i as int)));
            assert(before + words(rest@) =~= pieces(out@) + words(rest@.skip(i as int)));
            assert(rest@.subrange(i as int, rest@.len() as int) =~= rest@.skip(i as int));
            words_of_trimmed(rest@.skip(i as int));
            run_bounds(rest@.skip(i as int), CharClass::WhiteSpace);
        }
        rest = without_start(slice_subrange(rest, i, rest.len()), CharClass::WhiteSpace);
    }
    assert(trim_start(rest@) =~= rest@);
    assert(words(rest@) =~= Seq::<Seq<char>>::empty());
    assert(pieces(out@) + words(rest@) =~= pieces(out@));
    out
}

/// White space at the start of a text makes no difference to its words.
pub proof fn words_of_trimmed(s: Seq<char>)
    ensures
        words(trim_start(s)) == words(s),
{
    let t = trim_start(s);
    run_bounds(s, CharClass::WhiteSpace);
    if t.len() > 0 {
        assert(!is_white_space(t[0]));
    }
    run_is(t, CharClass::WhiteSpace, 0);
    assert(trim_start(t) =~= t);
}

/// Joins texts with `sep` between each two.
pub fn join_chars(parts: &[Vec<char>], sep: &str) -> (r: Vec<char>)
    ensures
        r@ == join(pieces(parts@), sep@),
{
    let s = to_chars(sep);
    let mut out: Vec<char> = Vec::new();
    let mut i: usize = 0;
    while i < parts.len()
        invariant
            s@ == sep@,
            i <= parts@.len(),
            out@ == join(pieces(parts@).take(i as int), sep@),
        decreases parts@.len() - i,
    {
        if i > 0 {
            push_chars(&mut out, s.as_slice());
        }
        push_chars(&mut out, parts[i].as_slice());
        proof {
            let p = pieces(parts@);
            assert(p.take(i + 1).drop_last() =~= p.take(i as int));
            assert(p.take(i + 1).last() == parts@[i as int]@);
            if i == 0 {
                assert(out@ =~= parts@[0]@);
            }
        }
        i += 1;
    }
    assert(pieces(parts@).take(i as int) =~= pieces(parts@));
    out
}

/// Joins strings with `sep` between each two.
pub fn join_strings(parts: &[String], sep: &str) -> (r: String)
    ensures
        r@ == join(texts(parts@), sep@),
{
    let mut out = String::new();
    let mut i: usize = 0;
    while i < parts.len()
        invariant
            i <= parts@.len(),
            out@ == join(texts(parts@).take(i as int), sep@),
        decreases parts@.len() - i,
    {
        if i > 0 {
            out.append(sep);
        }
        out.append(parts[i].as_str());
        proof {
            let p = texts(parts@);
            assert(p.take(i + 1).drop_last() =~= p.take(i as int));
            assert(p.take(i + 1).last() == parts@[i as int]@);
            if i == 0 {
                assert(out@ =~= parts@[0]@);
            }
        }
        i += 1;
    }
    assert(texts(parts@).take(i as int) =~= texts(parts@));
    out
}

// ---- cutting text in two ---------------------------------------------------------------------

/// Splitting a text that comes in two pieces: the last part of the first piece goes on in the
/// second.
pub proof fn split_in_two(a: Seq<char>, b: Seq<char>, k: CharClass)
    ensures
        split(a, k).len() > 0,
        split(a + b, k) == split(a, k).drop_last() + split(split(a, k).last() + b, k),
    decreases a.len(),
{
    let i = first_of(a, k) as int;
    first_of_bounds(a, k);
    if i < a.len() {
        let rest = a.skip(i + 1);
        split_in_two(rest, b, k);
        assert forall|j: int| 0 <= j < i implies !k.has(#[trigger] (a + b)[j]) by {
            assert((a + b)[j] == a[j]);
        }
        assert((a + b)[i] == a[i]);
        first_of_is(a + b, k, i as nat);
        assert((a + b).take(i) =~= a.take(i));
        assert((a + b).skip(i + 1) =~= rest + b);
        let head = seq![a.take(i)];
        assert(split(a, k) == head + split(rest, k));
        assert(split(a, k).last() == split(rest, k).last());
        assert(split(a, k).drop_last() =~= head + split(rest, k).drop_last());
        assert(split(a + b, k) == head + split(rest + b, k));
        assert(split(a + b, k) =~= split(a, k).drop_last() + split(split(a, k).last() + b, k));
    } else {
        assert(split(a, k) == seq![a]);
        assert(split(a, k).drop_last() =~= Seq::<Seq<char>>::empty());
        assert(split(a + b, k) =~= split(a, k).drop_last() + split(a + b, k));
    }
}

/// Keeping the last items early makes no difference.
pub proof fn last_n_in_two<A>(a: Seq<A>, b: Seq<A>, n: nat)
    ensures
        last_n(last_n(a, n) + b, n) == last_n(a + b, n),
{
    assert(last_n(last_n(a, n) + b, n) =~= last_n(a + b, n));
}

/// The lines of two texts, of which the first ends with a line feed, are the lines of each.
pub proof fn lines_in_two(a: Seq<char>, b: Seq<char>)
    requires
        a.len() == 0 || a.last() == '\n',
    ensures
        lines(a + b) == lines(a) + lines(b),
    decreases a.len(),
{
    let k = CharClass::Is('\n');
    if a.len() == 0 {
        assert(a + b =~= b);
        assert(lines(a) + lines(b) =~= lines(b));
    } else {
        let i = first_of(a, k) as int;
        first_of_bounds(a, k);
        if i == a.len() {
            assert(!k.has(a[a.len() - 1]));
        }
        assert forall|j: int| 0 <= j < i implies !k.has(#[trigger] (a + b)[j]) by {
            assert((a + b)[j] == a[j]);
        }
        assert((a + b)[i] == a[i]);
        first_of_is(a + b, k, i as nat);
        let rest = a.skip(i + 1);
        if rest.len() > 0 {
            assert(rest.last() == a.last());
        }
        lines_in_two(rest, b);
        assert((a + b).take(i) =~= a.take(i));
        assert((a + b).skip(i + 1) =~= rest + b);
        assert(lines(a + b) =~= lines(a) + lines(b));
    }
}

/// A text without line feeds, and a line feed, are one line.
pub proof fn one_line(s: Seq<char>)
    requires
        !s.contains('\n'),
    ensures
        lines(s.push('\n')) == seq![without_cr(s)],
{
    let t = s.push('\n');
    let k = CharClass::Is('\n');
    assert forall|j: int| 0 <= j < s.len() implies !k.has(#[trigger] t[j]) by {
        assert(s.contains(s[j]));
    }
    first_of_is(t, k, s.len());
    assert(t.take(s.len() as int) =~= s);
    assert(t.skip(s.len() as int + 1) =~= Seq::<char>::empty());
    assert(lines(Seq::<char>::empty()) =~= Seq::<Seq<char>>::empty());
    assert(lines(t) =~= seq![without_cr(s)]);
}

/// A text that holds no white space has none to trim, nor has it behind white space.
pub proof fn trim_of_word(s: Seq<char>, c: char)
    requires
        !has_white_space(s),
        is_white_space(c),
    ensures
        trim(s) == s,
        trim(seq![c] + s) == s,
{
    let k = CharClass::WhiteSpace;
    assert forall|i: int| 0 <= i < s.len() implies !k.has(#[trigger] s[i]) by {}
    run_is(s, k, 0);
    end_run_is(s, k, 0);
    assert(s.skip(0) =~= s);
    assert(s.take(s.len() as int) =~= s);
    let t = seq![c] + s;
    if s.len() > 0 {
        assert(t[1] == s[0]);
    }
    run_is(t, k, 1);
    assert(t.skip(1) =~= s);
}

/// A carriage return at the end makes no difference once white space is trimmed.
pub proof fn trim_ignores_cr(s: Seq<char>)
    ensures
        trim(s.push('\r')) == trim(s),
        trim_start(s).len() > 0 ==> trim_start(s.push('\r')) == trim_start(s).push('\r'),
        trim_start(s).len() == 0 ==> trim_start(s.push('\r')).len() == 0,
{
    let k = CharClass::WhiteSpace;
    let t = s.push('\r');
    let n = run(s, k);
    run_bounds(s, k);
    assert(k.has('\r'));
    if n < s.len() {
        assert forall|j: int| 0 <= j < n implies k.has(#[trigger] t[j]) by {
            assert(t[j] == s[j]);
        }
        assert(t[n as int] == s[n as int]);
        run_is(t, k, n);
        let a = trim_start(s);
        let b = trim_start(t);
        assert(b =~= a.push('\r'));
        end_run_bounds(a, k);
        let e = end_run(a, k);
        assert(b.drop_last() =~= a);
        assert(b.last() == '\r');
        assert(end_run(b, k) == 1 + e);
        assert(trim_end_of(b, k) =~= trim_end_of(a, k));
    } else {
        assert forall|j: int| 0 <= j < t.len() implies k.has(#[trigger] t[j]) by {
            if j < s.len() {
                assert(t[j] == s[j]);
            }
        }
        run_is(t, k, t.len());
        assert(trim_start(t) =~= Seq::<char>::empty());
        assert(trim_start(s) =~= Seq::<char>::empty());
    }
}

/// Each character of a part stands in the joined text.
pub proof fn join_has_parts(parts: Seq<Seq<char>>, sep: Seq<char>, i: int, c: char)
    requires
        0 <= i < parts.len(),
        parts[i].contains(c),
    ensures
        join(parts, sep).contains(c),
    decreases parts.len(),
{
    let j = choose|j: int| 0 <= j < parts[i].len() && parts[i][j] == c;
    if parts.len() > 1 {
        let front = join(parts.drop_last(), sep);
        let whole = join(parts, sep);
        if i == parts.len() - 1 {
            assert(whole[front.len() + sep.len() + j] == c);
        } else {
            join_has_parts(parts.drop_last(), sep, i, c);
            let m = choose|m: int| 0 <= m < front.len() && front[m] == c;
            assert(whole[m] == c);
        }
    } else {
        assert(join(parts, sep)[j] == c);
    }
}

/// Words have characters, and none of them is white space.
pub proof fn words_are_words(s: Seq<char>)
    ensures
        forall|i: int|
            0 <= i < words(s).len() ==> (#[trigger] words(s)[i]).len() > 0 && !has_white_space(
                words(s)[i],
            ),
    decreases s.len(),
{
    let t = trim_start(s);
    let n = first_of(t, CharClass::WhiteSpace) as int;
    run_bounds(s, CharClass::WhiteSpace);
    first_of_bounds(t, CharClass::WhiteSpace);
    if t.len() > 0 {
        assert(!is_white_space(t[0]));
        let w = t.take(n);
        assert forall|j: int| 0 <= j < w.len() implies !is_white_space(#[trigger] w[j]) by {
            assert(w[j] == t[j]);
            assert(!CharClass::WhiteSpace.has(t[j]));
        }
        words_are_words(t.skip(n));
        assert forall|i: int| 0 <= i < words(s).len() implies (#[trigger] words(s)[i]).len() > 0
            && !has_white_space(words(s)[i]) by {
            if i > 0 {
                assert(words(s)[i] == words(t.skip(n))[i - 1]);
            }
        }
    } else {
        assert(words(s).len() == 0);
    }
}

/// A joined text begins with its first part.
pub proof fn join_from_the_front(parts: Seq<Seq<char>>, sep: Seq<char>)
    requires
        parts.len() >= 2,
    ensures
        join(parts, sep) == parts[0] + sep + join(parts.skip(1), sep),
    decreases parts.len(),
{
    let front = parts.drop_last();
    let back = parts.skip(1);
    assert(back.last() == parts.last());
    if parts.len() == 2 {
        assert(join(front, sep) == parts[0]);
        assert(join(back, sep) == parts[1]);
    } else {
        join_from_the_front(front, sep);
        assert(front.skip(1) =~= back.drop_last());
        assert(join(parts, sep) =~= parts[0] + sep + join(back, sep));
    }
}

/// Words that are joined with spaces are read back.
pub proof fn words_of_joined(parts: Seq<Seq<char>>)
    requires
        forall|i: int|
            0 <= i < parts.len() ==> (#[trigger] parts[i]).len() > 0 && !has_white_space(parts[i]),
    ensures
        words(join(parts, " "@)) == parts,
    decreases parts.len(),
{
    reveal_strlit(" ");
    let k = CharClass::WhiteSpace;
    let s = join(parts, " "@);
    if parts.len() == 0 {
        run_is(s, k, 0);
        assert(words(s) =~= parts);
    } else {
        let w = parts[0];
        let back = parts.skip(1);
        assert(w.len() > 0 && !has_white_space(w));
        assert forall|i: int| 0 <= i < back.len() implies (#[trigger] back[i]).len() > 0
            && !has_white_space(back[i]) by {
            assert(back[i] == parts[i + 1]);
        }
        words_of_joined(back);
        let rest = join(back, " "@);
        if parts.len() == 1 {
            assert(s == w);
            assert(rest =~= Seq::<char>::empty());
        } else {
            join_from_the_front(parts, " "@);
            assert(s =~= w + (" "@ + rest));
            assert(s[w.len() as int] == ' ');
        }
        assert forall|j: int| 0 <= j < w.len() implies !k.has(#[trigger] s[j]) by {
            assert(s[j] == w[j]);
            assert(!is_white_space(w[j]));
        }
        run_is(s, k, 0);
        assert(trim_start(s) =~= s);
        first_of_is(s, k, w.len());
        assert(s.take(w.len() as int) =~= w);
        let tail = s.skip(w.len() as int);
        if parts.len() == 1 {
            assert(tail =~= rest);
        } else {
            assert(tail =~= " "@ + rest);
            assert(back[0].len() > 0 && !has_white_space(back[0]));
            join_begins(back);
            assert(!is_white_space(back[0][0]));
            assert(tail[1] == rest[0]);
            run_is(tail, k, 1);
            assert(trim_start(tail) =~= rest);
            words_of_trimmed(tail);
        }
        assert(words(s) =~= seq![w] + words(tail));
        assert(seq![w] + back =~= parts);
    }
}

proof fn join_begins(parts: Seq<Seq<char>>)
    requires
        parts.len() > 0,
        parts[0].len() > 0,
    ensures
        join(parts, " "@).len() > 0,
        join(parts, " "@)[0] == parts[0][0],
{
    if parts.len() > 1 {
        join_from_the_front(parts, " "@);
    }
}

} // verus!
