//! Releases: their versions, their packages, and whether one is newer than this application.

use crate::event;
use crate::event::{EventView, UserEvent};
use crate::json;
use crate::number;
use crate::text;
use crate::text::CharClass;
use vstd::prelude::*;
use vstd::slice::*;
use vstd::string::*;

verus! {

/// The version of this application.
pub const VERSION: &'static str = "0.1.13";

/// The repository that releases are published in.
pub const GITHUB_REPO: &'static str = "ht-shaipe/dsh-desktop";

/// What is known of a release.
pub struct Release {
    pub version: (u32, u32, u32),
    pub tag: String,
    /// The release notes.
    pub body: String,
}

/// A version as natural numbers.
pub open spec fn as_nats(v: (u32, u32, u32)) -> (nat, nat, nat) {
    (v.0 as nat, v.1 as nat, v.2 as nat)
}

/// A [`Release`] as a mathematical value.
#[verifier::ext_equal]
pub struct ReleaseView {
    pub version: (nat, nat, nat),
    pub tag: Seq<char>,
    pub body: Seq<char>,
}

impl View for Release {
    type V = ReleaseView;

    open spec fn view(&self) -> ReleaseView {
        ReleaseView { version: as_nats(self.version), tag: self.tag@, body: self.body@ }
    }
}

// ---- versions -------------------------------------------------------------------------------

/// The number that a part of a version writes.
pub open spec fn version_number(part: Seq<char>) -> Option<nat> {
    number::unsigned_value(text::trim(part), 10, u32::MAX as nat)
}

/// The digits at the start of `s`.
pub open spec fn leading_digits(s: Seq<char>) -> Seq<char> {
    s.take(text::first_of(s, CharClass::NonDigit) as int)
}

/// The version that a text writes as numbers with dots between: missing ones are zero, and of the
/// third only the leading digits count.
pub open spec fn version_of(s: Seq<char>) -> Option<(nat, nat, nat)> {
    let parts = text::split(
        text::trim_start_of(text::trim(s), CharClass::Is('v')),
        CharClass::Is('.'),
    );
    let minor = if parts.len() > 1 {
        version_number(parts[1])
    } else {
        Some(0)
    };
    let patch = if parts.len() > 2 {
        version_number(leading_digits(parts[2]))
    } else {
        Some(0)
    };
    match (version_number(parts[0]), minor, patch) {
        (Some(a), Some(b), Some(c)) => Some((a, b, c)),
        _ => None,
    }
}

/// An optional version as natural numbers.
pub open spec fn opt_nats(v: Option<(u32, u32, u32)>) -> Option<(nat, nat, nat)> {
    match v {
        Some(t) => Some(as_nats(t)),
        None => None,
    }
}

fn read_version_number(part: &[char]) -> (r: Option<u32>)
    ensures
        match r {
            Some(v) => version_number(part@) == Some(v as nat),
            None => version_number(part@) is None,
        },
{
    number::read_u32(text::trimmed(part))
}

/// Reads the digits at the start of a part as a number.
pub fn read_leading_number(part: &[char]) -> (r: Option<u32>)
    ensures
        match r {
            Some(v) => version_number(leading_digits(part@)) == Some(v as nat),
            None => version_number(leading_digits(part@)) is None,
        },
{
    let n = text::find_first_of(part, CharClass::NonDigit);
    let digits = slice_subrange(part, 0, n);
    assert(digits@ =~= leading_digits(part@));
    read_version_number(digits)
}

/// Reads a version.
pub fn parse_version(s: &str) -> (r: Option<(u32, u32, u32)>)
    ensures
        opt_nats(r) == version_of(s@),
{
    let cs = text::to_chars(s);
    let t = text::without_start(text::trimmed(cs.as_slice()), CharClass::Is('v'));
    let parts = text::split_at_class(t, CharClass::Is('.'));
    let ghost all = text::pieces(parts@);
    assert(all[0] == parts@[0]@);
    let major = read_version_number(parts[0].as_slice());
    let minor = if parts.len() > 1 {
        assert(all[1] == parts@[1]@);
        read_version_number(parts[1].as_slice())
    } else {
        Some(0u32)
    };
    let patch = if parts.len() > 2 {
        assert(all[2] == parts@[2]@);
        read_leading_number(parts[2].as_slice())
    } else {
        Some(0u32)
    };
    match (major, minor, patch) {
        (Some(a), Some(b), Some(c)) => Some((a, b, c)),
        _ => None,
    }
}

/// Whether version `a` comes after version `b`.
pub open spec fn is_newer(a: (nat, nat, nat), b: (nat, nat, nat)) -> bool {
    ||| a.0 > b.0
    ||| a.0 == b.0 && a.1 > b.1
    ||| a.0 == b.0 && a.1 == b.1 && a.2 > b.2
}

/// Tests whether version `a` comes after version `b`.
pub fn newer(a: (u32, u32, u32), b: (u32, u32, u32)) -> (r: bool)
    ensures
        r == is_newer(as_nats(a), as_nats(b)),
{
    a.0 > b.0 || (a.0 == b.0 && a.1 > b.1) || (a.0 == b.0 && a.1 == b.1 && a.2 > b.2)
}

// ---- the latest release ---------------------------------------------------------------------

/// The release that an answer of the release service describes.
pub open spec fn described(body: Seq<char>) -> Option<ReleaseView> {
    match json::string_field(body, "tag_name"@) {
        Some(tag) => match version_of(text::trim_start_of(text::trim(tag), CharClass::Is('v'))) {
            Some(version) => Some(
                ReleaseView {
                    version,
                    tag,
                    body: match json::string_field(body, "body"@) {
                        Some(b) => b,
                        None => Seq::empty(),
                    },
                },
            ),
            None => None,
        },
        None => None,
    }
}

/// Reads the release that an answer of the release service describes.
pub fn parse_release(body: &str) -> (r: Option<Release>)
    ensures
        match r {
            Some(x) => described(body@) == Some(x@),
            None => described(body@) is None,
        },
{
    match json::json_string_field(body, "tag_name") {
        Some(tag) => {
            let cs = text::to_chars(tag.as_str());
            let t = text::without_start(text::trimmed(cs.as_slice()), CharClass::Is('v'));
            let bare = text::to_text(t);
            match parse_version(bare.as_str()) {
                Some(version) => {
                    let notes = match json::json_string_field(body, "body") {
                        Some(b) => b,
                        None => String::new(),
                    };
                    Some(Release { version, tag, body: notes })
                },
                None => None,
            }
        },
        None => None,
    }
}

/// The release to update to: the one that the answer describes, if it is newer than `current`.
pub open spec fn update_in(
    answer: Option<Seq<char>>,
    current: Seq<char>,
) -> Option<ReleaseView> {
    match answer {
        Some(body) => match (described(body), version_of(current)) {
            (Some(release), Some(now)) => if is_newer(release.version, now) {
                Some(release)
            } else {
                None
            },
            _ => None,
        },
        None => None,
    }
}

/// Checks for an update: `answer` is what the release service said, where it could be asked, and
/// `current` is the version of this application.
pub fn check_for_update(answer: Option<&str>, current: &str) -> (r: Option<Release>)
    ensures
        match r {
            Some(x) => update_in(text::opt_str(answer), current@) == Some(x@),
            None => update_in(text::opt_str(answer), current@) is None,
        },
{
    match answer {
        Some(body) => match parse_release(body) {
            Some(release) => match parse_version(current) {
                Some(now) => if newer(release.version, now) {
                    Some(release)
                } else {
                    None
                },
                None => None,
            },
            None => None,
        },
        None => None,
    }
}

/// What is shown while the release service is asked.
pub fn checking_events() -> (r: Vec<UserEvent>)
    ensures
        event::events(r@) == seq![
            EventView::Term("• 应用本体（dsh-desktop）自动升级：正在检查最新版本…\r\n"@),
        ],
{
    let mut events = event::no_events();
    event::emit(
        &mut events,
        event::term("• 应用本体（dsh-desktop）自动升级：正在检查最新版本…\r\n"),
    );
    assert(event::events(events@) =~= seq![
        EventView::Term("• 应用本体（dsh-desktop）自动升级：正在检查最新版本…\r\n"@),
    ]);
    events
}

/// A tag without the letter that it begins with.
pub open spec fn bare_tag(tag: Seq<char>) -> Seq<char> {
    text::trim_start_of(tag, CharClass::Is('v'))
}

/// Drops the letter that a tag begins with.
pub fn strip_tag(tag: &str) -> (r: String)
    ensures
        r@ == bare_tag(tag@),
{
    let cs = text::to_chars(tag);
    text::to_text(text::without_start(cs.as_slice(), CharClass::Is('v')))
}

/// What a check shows.
pub open spec fn checked_line(tag: Option<Seq<char>>, current: Seq<char>) -> Seq<char> {
    match tag {
        Some(t) => "  ↑ 发现新版本 v"@ + bare_tag(t) + "（当前 v"@ + current + "）\r\n"@,
        None => "  ✓ 已是最新版本（或跳过检查）\r\n"@,
    }
}

/// What is shown of a check: the version to update to, or that there is none.
pub fn checked_events(tag: Option<&str>, current: &str) -> (r: Vec<UserEvent>)
    ensures
        event::events(r@) == seq![
            EventView::Term(checked_line(text::opt_str(tag), current@)),
        ],
{
    let s = match tag {
        Some(t) => {
            let bare = strip_tag(t);
            let mut s = String::from_str("  ↑ 发现新版本 v");
            s.append(bare.as_str());
            s.append("（当前 v");
            s.append(current);
            s.append("）\r\n");
            s
        },
        None => String::from_str("  ✓ 已是最新版本（或跳过检查）\r\n"),
    };
    let ghost said = s@;
    let mut events = event::no_events();
    event::emit(&mut events, UserEvent::Term(s));
    assert(event::events(events@) =~= seq![EventView::Term(said)]);
    events
}

/// What a check that the user asked for leads to: an update, or the note that there is none.
pub fn answer_event(release: Option<Release>) -> (r: UserEvent)
    ensures
        r@ == (match release {
            Some(x) => EventView::UpdateAvailable(x@.tag, x@.body),
            None => EventView::UpdateDone(Seq::empty()),
        }),
{
    match release {
        Some(x) => UserEvent::UpdateAvailable(x.tag, x.body),
        None => UserEvent::UpdateDone(String::new()),
    }
}

// ---- packages -------------------------------------------------------------------------------

/// The name of the package for a platform.
pub open spec fn package_name(os: Seq<char>, arch: Seq<char>) -> Seq<char> {
    if os == "macos"@ {
        if arch == "aarch64"@ {
            "dsh-desktop-macos-aarch64.dmg"@
        } else {
            "dsh-desktop-macos-x86_64.dmg"@
        }
    } else if os == "linux"@ {
        "dsh-desktop-linux-x86_64.tar.gz"@
    } else {
        "dsh-desktop-windows-x86_64.zip"@
    }
}

/// The name of the package for a platform, given by its operating system and its architecture.
pub fn asset_name(os: &str, arch: &str) -> (r: String)
    ensures
        r@ == package_name(os@, arch@),
{
    if text::same_text(os, "macos") {
        if text::same_text(arch, "aarch64") {
            String::from_str("dsh-desktop-macos-aarch64.dmg")
        } else {
            String::from_str("dsh-desktop-macos-x86_64.dmg")
        }
    } else if text::same_text(os, "linux") {
        String::from_str("dsh-desktop-linux-x86_64.tar.gz")
    } else {
        String::from_str("dsh-desktop-windows-x86_64.zip")
    }
}

/// Where the latest release is described.
pub fn latest_release_url() -> (r: String)
    ensures
        r@ == "https://api.github.com/repos/"@ + GITHUB_REPO@ + "/releases/latest"@,
{
    let mut out = String::from_str("https://api.github.com/repos/");
    out.append(GITHUB_REPO);
    out.append("/releases/latest");
    out
}

/// Where the package of a release is.
pub open spec fn package_url(tag: Seq<char>, name: Seq<char>) -> Seq<char> {
    "https://github.com/"@ + GITHUB_REPO@ + "/releases/download/"@ + tag + "/"@ + name
}

/// Where the package of a release is.
pub fn download_url(tag: &str, name: &str) -> (r: String)
    ensures
        r@ == package_url(tag@, name@),
{
    let mut out = String::from_str("https://github.com/");
    out.append(GITHUB_REPO);
    out.append("/releases/download/");
    out.append(tag);
    out.append("/");
    out.append(name);
    out
}

/// The name or place of a signature: that of its package with a suffix.
pub fn signature_name(package: &str) -> (r: String)
    ensures
        r@ == package@ + ".sig"@,
{
    let mut out = String::from_str(package);
    out.append(".sig");
    out
}

// ---- laws -----------------------------------------------------------------------------------

/// Of two versions at most one is newer, and a version is not newer than itself; of two different
/// ones, one is.
pub proof fn newer_is_an_order(a: (nat, nat, nat), b: (nat, nat, nat))
    ensures
        !(is_newer(a, b) && is_newer(b, a)),
        !is_newer(a, a),
        a != b ==> is_newer(a, b) || is_newer(b, a),
{
}

/// What is newer than a newer version is newer.
pub proof fn newer_is_transitive(a: (nat, nat, nat), b: (nat, nat, nat), c: (nat, nat, nat))
    requires
        is_newer(a, b),
        is_newer(b, c),
    ensures
        is_newer(a, c),
{
}

/// An application is never updated to its own version or to an older one.
pub proof fn updates_only_go_forward(answer: Option<Seq<char>>, current: Seq<char>)
    ensures
        match update_in(answer, current) {
            Some(release) => match version_of(current) {
                Some(now) => is_newer(release.version, now),
                None => false,
            },
            None => true,
        },
{
}

/// The version that is written with three numbers.
pub open spec fn written(a: nat, b: nat, c: nat) -> Seq<char> {
    number::decimal(a) + seq!['.'] + number::decimal(b) + seq!['.'] + number::decimal(c)
}

/// A number in decimal is made of digits.
pub proof fn digits_are_plain(n: nat)
    ensures
        number::decimal(n).len() > 0,
        forall|i: int|
            0 <= i < number::decimal(n).len() ==> '0' <= #[trigger] number::decimal(n)[i]
                && number::decimal(n)[i] <= '9',
    decreases n,
{
    if n >= 10 {
        digits_are_plain(n / 10);
        let d = number::decimal(n);
        assert forall|i: int| 0 <= i < d.len() implies '0' <= #[trigger] d[i] && d[i] <= '9' by {
            if i < d.len() - 1 {
                assert(d[i] == number::decimal(n / 10)[i]);
            }
        }
    }
}

proof fn first_part(a: Seq<char>, rest: Seq<char>)
    requires
        forall|i: int| 0 <= i < a.len() ==> '0' <= #[trigger] a[i] && a[i] <= '9',
    ensures
        text::split(a + seq!['.'] + rest, CharClass::Is('.')) == seq![a] + text::split(
            rest,
            CharClass::Is('.'),
        ),
{
    let k = CharClass::Is('.');
    let s = a + seq!['.'] + rest;
    assert forall|j: int| 0 <= j < a.len() implies !k.has(#[trigger] s[j]) by {
        assert(s[j] == a[j]);
    }
    assert(s[a.len() as int] == '.');
    text::first_of_is(s, k, a.len());
    assert(s.take(a.len() as int) =~= a);
    assert(s.skip(a.len() as int + 1) =~= rest);
}

proof fn digits_are_trimmed(s: Seq<char>)
    requires
        forall|i: int| 0 <= i < s.len() ==> '0' <= #[trigger] s[i] && s[i] <= '9',
    ensures
        text::trim(s) == s,
{
    assert(!text::has_white_space(s));
    text::trim_of_word(s, ' ');
}

/// White space is trimmed only behind a word that begins a text.
pub proof fn only_the_end_is_trimmed(word: Seq<char>, rest: Seq<char>) -> (n: int)
    requires
        word.len() > 0,
        !text::is_white_space(word[0]),
        !text::is_white_space(word.last()),
    ensures
        0 <= n <= rest.len(),
        text::trim(word + rest) == word + rest.take(n),
{
    let k = CharClass::WhiteSpace;
    let s = word + rest;
    assert(s[0] == word[0]);
    text::run_is(s, k, 0);
    assert(s.skip(0) =~= s);
    text::end_run_bounds(s, k);
    let n = rest.len() - text::end_run(s, k);
    if n < 0 {
        assert(k.has(s[word.len() - 1]));
        assert(s[word.len() - 1] == word.last());
    }
    assert(s.take(s.len() - text::end_run(s, k)) =~= word + rest.take(n));
    n
}

proof fn digits_before_a_suffix(z: Seq<char>, suffix: Seq<char>)
    requires
        forall|i: int| 0 <= i < z.len() ==> '0' <= #[trigger] z[i] && z[i] <= '9',
        suffix.len() > 0 ==> CharClass::NonDigit.has(suffix[0]),
    ensures
        text::split(z + suffix, CharClass::Is('.')).len() > 0,
        leading_digits(text::split(z + suffix, CharClass::Is('.'))[0]) == z,
{
    let k = CharClass::Is('.');
    let s = z + suffix;
    text::first_of_bounds(s, k);
    let f = text::first_of(s, k);
    if f < z.len() {
        assert(s[f as int] == z[f as int]);
    }
    let piece = s.take(f as int);
    if f == s.len() {
        assert(piece =~= s);
    }
    assert(text::split(s, k)[0] == piece);
    assert forall|j: int| 0 <= j < z.len() implies !CharClass::NonDigit.has(
        #[trigger] piece[j],
    ) by {
        assert(piece[j] == z[j]);
    }
    if piece.len() > z.len() {
        assert(piece[z.len() as int] == suffix[0]);
    }
    text::first_of_is(piece, CharClass::NonDigit, z.len());
    assert(piece.take(z.len() as int) =~= z);
}

/// A number of a version is read back.
pub proof fn number_reads_back(n: nat)
    requires
        n <= u32::MAX,
    ensures
        version_number(number::decimal(n)) == Some(n),
{
    digits_are_plain(n);
    digits_are_trimmed(number::decimal(n));
    number::decimal_reads_back(n);
}

/// What stands between the dots of a version that is written with three numbers.
pub proof fn parts_of_written(a: nat, b: nat, c: nat, suffix: Seq<char>)
    requires
        suffix.len() > 0 ==> CharClass::NonDigit.has(suffix[0]),
    ensures
        ({
            let parts = text::split(written(a, b, c) + suffix, CharClass::Is('.'));
            &&& parts.len() > 2
            &&& parts[0] == number::decimal(a)
            &&& parts[1] == number::decimal(b)
            &&& leading_digits(parts[2]) == number::decimal(c)
        }),
{
    let x = number::decimal(a);
    let y = number::decimal(b);
    let z = number::decimal(c);
    digits_are_plain(a);
    digits_are_plain(b);
    digits_are_plain(c);
    let k = CharClass::Is('.');
    let rest = y + seq!['.'] + (z + suffix);
    assert(written(a, b, c) + suffix =~= x + seq!['.'] + rest);
    let behind = text::split(z + suffix, k);
    assert(text::split(rest, k) == seq![y] + behind) by {
        first_part(y, z + suffix);
    }
    let parts = text::split(written(a, b, c) + suffix, k);
    assert(parts == seq![x] + (seq![y] + behind)) by {
        first_part(x, rest);
    }
    assert(behind.len() > 0 && leading_digits(behind[0]) == z) by {
        digits_before_a_suffix(z, suffix);
    }
    assert(parts[0] == x && parts[1] == y && parts[2] == behind[0]);
}

/// The numbers that are read back from such a version.
pub proof fn parts_read_back(a: nat, b: nat, c: nat, suffix: Seq<char>)
    requires
        a <= u32::MAX,
        b <= u32::MAX,
        c <= u32::MAX,
        suffix.len() > 0 ==> CharClass::NonDigit.has(suffix[0]),
    ensures
        ({
            let parts = text::split(written(a, b, c) + suffix, CharClass::Is('.'));
            &&& parts.len() > 2
            &&& version_number(parts[0]) == Some(a)
            &&& version_number(parts[1]) == Some(b)
            &&& version_number(leading_digits(parts[2])) == Some(c)
        }),
{
    parts_of_written(a, b, c, suffix);
    number_reads_back(a);
    number_reads_back(b);
    number_reads_back(c);
}

/// A version that is written with three numbers is read back, with or without the letter that tags
/// begin with, and whatever follows it, such as `-beta.1`, if that does not begin with a digit.
pub proof fn version_reads_back(a: nat, b: nat, c: nat, suffix: Seq<char>)
    requires
        a <= u32::MAX,
        b <= u32::MAX,
        c <= u32::MAX,
        suffix.len() > 0 ==> !('0' <= suffix[0] && suffix[0] <= '9'),
    ensures
        version_of(written(a, b, c)) == Some((a, b, c)),
        version_of(seq!['v'] + written(a, b, c)) == Some((a, b, c)),
        version_of(written(a, b, c) + suffix) == Some((a, b, c)),
        version_of(seq!['v'] + written(a, b, c) + suffix) == Some((a, b, c)),
{
    let w = written(a, b, c);
    assert(w + Seq::<char>::empty() =~= w);
    let t = seq!['v'] + w;
    assert(t + Seq::<char>::empty() =~= t);
    suffix_is_left_out(a, b, c, Seq::empty());
    suffix_is_left_out(a, b, c, suffix);
}

proof fn suffix_is_left_out(a: nat, b: nat, c: nat, suffix: Seq<char>)
    requires
        a <= u32::MAX,
        b <= u32::MAX,
        c <= u32::MAX,
        suffix.len() > 0 ==> CharClass::NonDigit.has(suffix[0]),
    ensures
        version_of(written(a, b, c) + suffix) == Some((a, b, c)),
        version_of(seq!['v'] + written(a, b, c) + suffix) == Some((a, b, c)),
{
    let w = written(a, b, c);
    let t = seq!['v'] + w;
    let k = CharClass::Is('v');
    digits_are_plain(a);
    digits_are_plain(c);
    assert(w[0] == number::decimal(a)[0]);
    assert(w.last() == number::decimal(c).last());
    assert(t.last() == w.last());

    let n = only_the_end_is_trimmed(w, suffix);
    let plain = w + suffix.take(n);
    assert(plain[0] == w[0]);
    text::run_is(plain, k, 0);
    assert(plain.skip(0) =~= plain);
    parts_read_back(a, b, c, suffix.take(n));

    let m = only_the_end_is_trimmed(t, suffix);
    let tagged = t + suffix.take(m);
    assert(tagged[1] == w[0]);
    text::run_is(tagged, k, 1);
    assert(tagged.skip(1) =~= w + suffix.take(m));
    parts_read_back(a, b, c, suffix.take(m));
}

} // verus!
