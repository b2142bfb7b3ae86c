//! What is promised of releases, downloads, installation, signatures and updates, in terms of what
//! is asked for and what comes back.

use crate::download;
use crate::download::{AnswerView, BodyEndView, Download, EndedView, FailureView};
use crate::event::EventView;
use crate::install;
use crate::json;
use crate::number;
use crate::release;
use crate::signature;
use crate::text;
use crate::text::CharClass;
use crate::text_laws;
use crate::update;
use crate::update::{OutcomeView, Stage, UpdateView};
use vstd::prelude::*;

verus! {

// ---- versions -------------------------------------------------------------------------------

/// The first number in which two versions differ decides which one is newer.
pub proof fn first_difference_decides(
    major: nat,
    minor: nat,
    x: nat,
    y: nat,
    b: nat,
    c: nat,
    d: nat,
    e: nat,
)
    requires
        x > y,
    ensures
        release::is_newer((x, b, c), (y, d, e)),
        !release::is_newer((y, d, e), (x, b, c)),
        release::is_newer((major, x, c), (major, y, e)),
        !release::is_newer((major, y, e), (major, x, c)),
        release::is_newer((major, minor, x), (major, minor, y)),
        !release::is_newer((major, minor, y), (major, minor, x)),
        !release::is_newer((x, b, c), (x, b, c)),
{
}

/// The numbers that a version leaves out are zero; white space around it does not count.
pub proof fn missing_numbers_are_zero(x: Seq<char>, a: nat, b: nat, y: Seq<char>)
    requires
        text_laws::is_blank(x),
        text_laws::is_blank(y),
        a <= u32::MAX,
        b <= u32::MAX,
    ensures
        release::version_of(x + number::decimal(a) + y) == Some((a, 0nat, 0nat)),
        release::version_of(x + (seq!['v'] + number::decimal(a)) + y) == Some((a, 0nat, 0nat)),
        release::version_of(
            x + (number::decimal(a) + seq!['.'] + number::decimal(b)) + y,
        ) == Some((a, b, 0nat)),
{
    let k = CharClass::Is('.');
    let v = CharClass::Is('v');
    let d = number::decimal(a);
    let e = number::decimal(b);
    release::digits_are_plain(a);
    release::digits_are_plain(b);
    release::number_reads_back(a);
    release::number_reads_back(b);
    assert forall|i: int| 0 <= i < d.len() implies !k.has(#[trigger] d[i]) by {}
    assert forall|i: int| 0 <= i < e.len() implies !k.has(#[trigger] e[i]) by {}
    text_laws::split_takes_apart(d, '.', e, k);
    text_laws::split_takes_apart(e, '.', Seq::empty(), k);
    assert(seq![d] + seq![e] =~= seq![d, e]);
    assert(text::split(d, k) =~= seq![d]) by {
        text::first_of_is(d, k, d.len());
    }
    let t = seq!['v'] + d;
    assert(t[1] == d[0] && t.last() == d.last());
    text_laws::trim_takes_the_ends(x, d, y);
    text_laws::trim_takes_the_ends(x, t, y);
    text::run_is(d, v, 0);
    assert(d.skip(0) =~= d);
    text::run_is(t, v, 1);
    assert(t.skip(1) =~= d);
    let two = d + seq!['.'] + e;
    assert(two[0] == d[0] && two.last() == e.last());
    text_laws::trim_takes_the_ends(x, two, y);
    text::run_is(two, v, 0);
    assert(two.skip(0) =~= two);
}

// ---- the latest release ---------------------------------------------------------------------

/// An update is offered exactly where the tag in the answer of the release service is a later
/// version than the current one. It has the tag as it was written, and the notes that come with it.
pub proof fn later_release_is_offered(
    answer: Seq<char>,
    new: (nat, nat, nat),
    suffix: Seq<char>,
    tag: Seq<char>,
    now: (nat, nat, nat),
)
    requires
        new.0 <= u32::MAX && new.1 <= u32::MAX && new.2 <= u32::MAX,
        now.0 <= u32::MAX && now.1 <= u32::MAX && now.2 <= u32::MAX,
        suffix.len() > 0 ==> !('0' <= suffix[0] && suffix[0] <= '9'),
        tag == release::written(new.0, new.1, new.2) + suffix || tag == seq!['v']
            + release::written(new.0, new.1, new.2) + suffix,
        json::string_field(answer, "tag_name"@) == Some(tag),
    ensures
        ({
            let current = release::written(now.0, now.1, now.2);
            let later = new.0 > now.0 || (new.0 == now.0 && new.1 > now.1) || (new.0 == now.0
                && new.1 == now.1 && new.2 > now.2);
            match release::update_in(Some(answer), current) {
                Some(r) => later && r.version == new && r.tag == tag && match json::string_field(
                    answer,
                    "body"@,
                ) {
                    Some(notes) => r.body == notes,
                    None => r.body.len() == 0,
                },
                None => !later,
            }
        }),
{
    release::version_reads_back(now.0, now.1, now.2, Seq::empty());
    tag_is_read(new, suffix, tag);
}

proof fn tag_is_read(new: (nat, nat, nat), suffix: Seq<char>, tag: Seq<char>)
    requires
        new.0 <= u32::MAX && new.1 <= u32::MAX && new.2 <= u32::MAX,
        suffix.len() > 0 ==> !('0' <= suffix[0] && suffix[0] <= '9'),
        tag == release::written(new.0, new.1, new.2) + suffix || tag == seq!['v']
            + release::written(new.0, new.1, new.2) + suffix,
    ensures
        release::version_of(text::trim_start_of(text::trim(tag), CharClass::Is('v'))) == Some(new),
{
    let w = release::written(new.0, new.1, new.2);
    let v = CharClass::Is('v');
    release::digits_are_plain(new.0);
    release::digits_are_plain(new.2);
    assert(w[0] == number::decimal(new.0)[0]);
    assert(w.last() == number::decimal(new.2).last());
    if tag == w + suffix {
        let n = release::only_the_end_is_trimmed(w, suffix);
        let t = w + suffix.take(n);
        assert(t[0] == w[0]);
        text::run_is(t, v, 0);
        assert(t.skip(0) =~= t);
        release::version_reads_back(new.0, new.1, new.2, suffix.take(n));
    } else {
        let word = seq!['v'] + w;
        assert(word[0] == 'v' && word.last() == w.last());
        let n = release::only_the_end_is_trimmed(word, suffix);
        let t = word + suffix.take(n);
        assert(t[0] == 'v' && t[1] == w[0]);
        text::run_is(t, v, 1);
        assert(t.skip(1) =~= w + suffix.take(n));
        release::version_reads_back(new.0, new.1, new.2, suffix.take(n));
    }
}

/// Nothing is offered where the release service could not be asked, or its answer has no tag.
pub proof fn nothing_is_offered_without_a_tag(answer: Seq<char>, current: Seq<char>)
    ensures
        release::update_in(None, current) is None,
        json::string_field(answer, "tag_name"@) is None ==> release::update_in(
            Some(answer),
            current,
        ) is None,
{
}

/// A tag is shown without the letter that it begins with.
pub proof fn tag_is_shown_without_its_letter(x: Seq<char>)
    requires
        x.len() > 0 ==> x[0] != 'v',
    ensures
        release::bare_tag(x) == x,
        release::bare_tag(seq!['v'] + x) == x,
{
    let v = CharClass::Is('v');
    let t = seq!['v'] + x;
    text::run_is(x, v, 0);
    assert(x.skip(0) =~= x);
    if x.len() > 0 {
        assert(t[1] == x[0]);
    }
    text::run_is(t, v, 1);
    assert(t.skip(1) =~= x);
}

/// A check shows the version that was found, without its letter, and the current one; without an
/// update it shows neither.
pub proof fn found_update_is_told(x: Seq<char>, current: Seq<char>)
    requires
        x.len() > 0 ==> x[0] != 'v',
    ensures
        text::contains(release::checked_line(Some(seq!['v'] + x), current), "v"@ + x + "（"@),
        text::contains(release::checked_line(Some(x), current), "v"@ + x + "（"@),
        text::contains(release::checked_line(Some(x), current), "（当前 v"@ + current + "）"@),
        release::checked_line(None, current) == "  ✓ 已是最新版本（或跳过检查）\r\n"@,
{
    tag_is_shown_without_its_letter(x);
    reveal_strlit("  ↑ 发现新版本 v");
    reveal_strlit("  ↑ 发现新版本 ");
    reveal_strlit("v");
    reveal_strlit("（当前 v");
    reveal_strlit("（");
    reveal_strlit("当前 v");
    reveal_strlit("）\r\n");
    reveal_strlit("）");
    reveal_strlit("\r\n");
    let a = "  ↑ 发现新版本 "@;
    assert("  ↑ 发现新版本 v"@ =~= a + "v"@);
    assert("（当前 v"@ =~= "（"@ + "当前 v"@);
    assert("）\r\n"@ =~= "）"@ + "\r\n"@);
    let line = release::checked_line(Some(x), current);
    let p = "v"@ + x + "（"@;
    let rest = "当前 v"@ + current + "）\r\n"@;
    assert(line =~= a + p + rest);
    text_laws::holds_pattern(a, p, rest);
    let q = "（当前 v"@ + current + "）"@;
    let before = "  ↑ 发现新版本 v"@ + x;
    assert(line =~= before + q + "\r\n"@);
    text_laws::holds_pattern(before, q, "\r\n"@);
}

/// Each platform has its package; what is neither macOS nor Linux is taken for Windows.
pub proof fn platforms_have_packages(arch: Seq<char>, os: Seq<char>)
    ensures
        release::package_name("macos"@, "aarch64"@) == "dsh-desktop-macos-aarch64.dmg"@,
        arch != "aarch64"@ ==> release::package_name("macos"@, arch)
            == "dsh-desktop-macos-x86_64.dmg"@,
        release::package_name("linux"@, arch) == "dsh-desktop-linux-x86_64.tar.gz"@,
        os != "macos"@ && os != "linux"@ ==> release::package_name(os, arch)
            == "dsh-desktop-windows-x86_64.zip"@,
{
    reveal_strlit("macos");
    reveal_strlit("linux");
    assert("linux"@[0] == 'l' && "macos"@[0] == 'm');
}

/// A package is found under the tag of its release.
pub proof fn package_is_under_its_tag(tag: Seq<char>, name: Seq<char>)
    ensures
        release::package_url(tag, name)
            == "https://github.com/ht-shaipe/dsh-desktop/releases/download/"@ + tag + "/"@ + name,
{
    reveal_strlit("https://github.com/ht-shaipe/dsh-desktop/releases/download/");
    reveal_strlit("https://github.com/");
    reveal_strlit("ht-shaipe/dsh-desktop");
    reveal_strlit("/releases/download/");
    assert("https://github.com/ht-shaipe/dsh-desktop/releases/download/"@ =~= "https://github.com/"@
        + release::GITHUB_REPO@ + "/releases/download/"@);
}

// ---- downloads ------------------------------------------------------------------------------

/// There are three attempts: the first and the second may be followed by another, the third may
/// not. The reason is told as it is.
pub proof fn three_attempts_are_made(d: Download, reason: Seq<char>)
    ensures
        d.attempt == 1 || d.attempt == 2 ==> download::after_failure(d, reason)
            == FailureView::Retry(reason),
        d.attempt == 3 ==> download::after_failure(d, reason) == FailureView::Fail(reason),
{
}

/// The body is read after every success, and only part of it after 206. An error of the server or a
/// redirection is a failed attempt, and one of the client the end.
pub proof fn status_decides(d: Download, status: u16, said: Seq<char>)
    ensures
        download::after_status(d, 206, said) == (AnswerView::Body { append: true }),
        200 <= status < 300 && status != 206 ==> download::after_status(d, status, said) == (
        AnswerView::Body { append: false }),
        400 <= status < 500 ==> match download::after_status(d, status, said) {
            AnswerView::Failed(FailureView::Fail(why)) => text::contains(why, said),
            _ => false,
        },
        status < 200 || 300 <= status < 400 || status >= 500 ==> match download::after_status(
            d,
            status,
            said,
        ) {
            AnswerView::Failed(FailureView::Retry(why)) => d.attempt < 3 && text::contains(
                why,
                said,
            ),
            AnswerView::Failed(FailureView::Fail(why)) => d.attempt >= 3 && text::contains(
                why,
                said,
            ),
            _ => false,
        },
{
    assert("HTTP "@ + said + Seq::<char>::empty() =~= "HTTP "@ + said);
    text_laws::holds_pattern("HTTP "@, said, Seq::empty());
}

/// A body that does not arrive, or cannot be written, is a failed attempt, which tells why; so is
/// one that leaves a file of another size than the one that is known, which tells both sizes.
pub proof fn broken_body_is_a_failed_attempt(d: Download, e: Seq<char>, size: u64)
    ensures
        failed_with(download::after_body(d, BodyEndView::Stalled), d, "网络停滞"@),
        failed_with(download::after_body(d, BodyEndView::ReadError(e)), d, e),
        failed_with(download::after_body(d, BodyEndView::WriteError(e)), d, e),
        d.total > 0 && size != d.total ==> failed_with(
            download::after_body(d, BodyEndView::Complete(size)),
            d,
            number::decimal(size as nat) + "/"@ + number::decimal(d.total as nat),
        ),
        d.total == 0 || size == d.total ==> download::after_body(d, BodyEndView::Complete(size))
            == EndedView::Done(size),
{
    let none = Seq::<char>::empty();
    let stalled = "网络停滞"@;
    assert(none + stalled + none =~= stalled);
    text_laws::holds_pattern(none, stalled, none);
    let r = "读取失败: "@;
    assert(r + e + none =~= r + e);
    text_laws::holds_pattern(r, e, none);
    let w = "写入失败: "@;
    assert(w + e + none =~= w + e);
    text_laws::holds_pattern(w, e, none);
    let m = "大小不匹配 "@;
    let p = number::decimal(size as nat) + "/"@ + number::decimal(d.total as nat);
    assert(m + p + none =~= m + number::decimal(size as nat) + "/"@ + number::decimal(
        d.total as nat,
    ));
    text_laws::holds_pattern(m, p, none);
}

/// Whether an attempt failed and tells why: it may be repeated before the third one.
pub open spec fn failed_with(end: EndedView, d: Download, why: Seq<char>) -> bool {
    match end {
        EndedView::Failed(FailureView::Retry(said)) => d.attempt < 3 && text::contains(said, why),
        EndedView::Failed(FailureView::Fail(said)) => d.attempt >= 3 && text::contains(said, why),
        EndedView::Done(_) => false,
    }
}

/// The rest of a package is asked for from the byte behind the last one that is there, and all of it
/// where none is.
pub proof fn rest_is_asked_for(offset: u64)
    ensures
        offset > 0 ==> download::asked_range(offset) == Some(
            "bytes="@ + number::decimal(offset as nat) + "-"@,
        ),
        download::asked_range(0) is None,
{
}

/// The size that was announced counts. Without it, the size is that of the body, on top of what is
/// there where the body goes on behind that.
pub proof fn size_is_known(d: Download, append: bool, length: u64, now: u64)
    requires
        d.offset + length <= u64::MAX,
    ensures
        ({
            let b = download::at_body(d, append, Some(length), now);
            &&& d.announced > 0 ==> b.total == d.announced
            &&& d.announced == 0 && append ==> b.total == d.offset + length
            &&& d.announced == 0 && !append ==> b.total == length
            &&& b.attempt == d.attempt && b.offset == d.offset && b.announced == d.announced
            &&& b.downloaded == d.offset && b.shown_bytes == d.offset && b.shown_at == now
        }),
        d.announced > 0 ==> download::at_body(d, append, None, now).total == d.announced,
        d.announced == 0 && !append ==> download::at_body(d, append, None, now).total == 0,
{
}

/// A download that goes on from where it broke off is done exactly where the file has as many bytes
/// as were there and came in the end; one that begins anew, where it has as many as came.
pub proof fn resumed_download_is_complete(
    d: Download,
    append: bool,
    length: u64,
    now: u64,
    size: u64,
)
    requires
        d.announced == 0,
        0 < length && d.offset + length <= u64::MAX,
    ensures
        download::after_body(
            download::at_body(d, append, Some(length), now),
            BodyEndView::Complete(size),
        ) is Done <==> size == length + if append {
            d.offset as int
        } else {
            0
        },
{
}

/// How many bytes some chunks have.
pub open spec fn bytes_of(chunks: Seq<(u64, u64)>) -> int
    decreases chunks.len(),
{
    if chunks.len() == 0 {
        0
    } else {
        bytes_of(chunks.drop_last()) + chunks.last().0
    }
}

/// The download after some chunks, each with its bytes and the time at which it came.
pub open spec fn after_chunks(d: Download, chunks: Seq<(u64, u64)>) -> Download
    decreases chunks.len(),
{
    if chunks.len() == 0 {
        d
    } else {
        let last = chunks.last();
        download::after_chunk(after_chunks(d, chunks.drop_last()), last.0, last.1).0
    }
}

/// Every byte is counted, however the bytes come, and nothing else changes but what was shown.
pub proof fn bytes_are_counted(d: Download, chunks: Seq<(u64, u64)>)
    requires
        d.downloaded + bytes_of(chunks) <= u64::MAX,
    ensures
        ({
            let e = after_chunks(d, chunks);
            &&& e.downloaded == d.downloaded + bytes_of(chunks)
            &&& e.attempt == d.attempt && e.offset == d.offset && e.announced == d.announced
            &&& e.total == d.total
        }),
    decreases chunks.len(),
{
    if chunks.len() > 0 {
        bytes_are_counted(d, chunks.drop_last());
    }
}

/// Progress is shown again after 65536 bytes or a tenth of a second, and not before; what is shown
/// then is what is there.
pub proof fn progress_is_shown_now_and_again(d: Download, len: u64, now: u64)
    requires
        d.is_valid(),
        d.downloaded + len <= u64::MAX,
    ensures
        ({
            let (e, due) = download::after_chunk(d, len, now);
            &&& due <==> d.downloaded + len >= d.shown_bytes + 65536 || now >= d.shown_at + 100
            &&& due ==> e.shown_bytes == e.downloaded && e.shown_at == now
            &&& !due ==> e.shown_bytes == d.shown_bytes && e.shown_at == d.shown_at
        }),
{
}

/// What is shown of the progress has the megabytes there are, and the percentage and all megabytes
/// where they are known.
pub proof fn progress_tells_how_much(pct: u8, done: Seq<char>, total: Seq<char>)
    ensures
        download::shown_progress(pct, done, Some(total)).len() == 2,
        download::shown_progress(pct, done, Some(total))[1] == EventView::UpdateProgress(pct),
        download::shown_progress(pct, done, None)[1] == EventView::UpdateProgress(pct),
        shows(
            download::shown_progress(pct, done, Some(total))[0],
            download::three_places(pct as nat) + "% ("@ + done + "/"@ + total + " MB)"@,
        ),
        shows(download::shown_progress(pct, done, None)[0], done + " MB"@),
{
    reveal_strlit(" MB)\r");
    reveal_strlit(" MB)");
    reveal_strlit(" MB\r");
    reveal_strlit(" MB");
    reveal_strlit("\r");
    assert(" MB)\r"@ =~= " MB)"@ + "\r"@);
    assert(" MB\r"@ =~= " MB"@ + "\r"@);
    let a = "  升级包下载进度 "@;
    let p = download::three_places(pct as nat) + "% ("@ + done + "/"@ + total + " MB)"@;
    assert(a + download::three_places(pct as nat) + "% ("@ + done + "/"@ + total + (" MB)"@
        + "\r"@) =~= a + p + "\r"@);
    text_laws::holds_pattern(a, p, "\r"@);
    let b = "  已下载 "@;
    let q = done + " MB"@;
    assert(b + done + (" MB"@ + "\r"@) =~= b + q + "\r"@);
    text_laws::holds_pattern(b, q, "\r"@);
}

/// Another attempt goes on from the same state, with the next number; the user is told why the last
/// one failed, how much is there, and which of the three attempts it was.
pub proof fn next_attempt_is_told(d: Download, reason: Seq<char>, kept: Seq<char>)
    requires
        d.is_valid(),
    ensures
        download::next_attempt(d) == (Download { attempt: (d.attempt + 1) as u32, ..d }),
        ({
            let events = download::retry_events(d.attempt as nat, reason, kept);
            &&& events.len() == 2
            &&& shows(events[0], reason)
            &&& shows(events[0], kept + " MB"@)
            &&& shows(events[0], number::decimal(d.attempt as nat) + "/"@ + number::decimal(3))
        }),
{
    let n = number::decimal(d.attempt as nat);
    let a = "  ⚠ 下载中断（"@;
    let b = "），已保留 "@;
    let c = " MB，正在从断点重试（第 "@;
    let m = number::decimal(3);
    let e = " 次）…\r\n"@;
    let line = a + reason + b + kept + c + n + "/"@ + m + e;
    assert(line =~= a + reason + (b + kept + c + n + "/"@ + m + e));
    text_laws::holds_pattern(a, reason, b + kept + c + n + "/"@ + m + e);
    reveal_strlit(" MB，正在从断点重试（第 ");
    reveal_strlit(" MB");
    reveal_strlit("，正在从断点重试（第 ");
    assert(c =~= " MB"@ + "，正在从断点重试（第 "@);
    let p = kept + " MB"@;
    let rest = "，正在从断点重试（第 "@ + n + "/"@ + m + e;
    assert(line =~= (a + reason + b) + p + rest);
    text_laws::holds_pattern(a + reason + b, p, rest);
    let q = n + "/"@ + m;
    assert(line =~= (a + reason + b + kept + c) + q + e);
    text_laws::holds_pattern(a + reason + b + kept + c, q, e);
}

// ---- installation ---------------------------------------------------------------------------

/// A bundle has a name before its extension.
pub proof fn bundles_end_in_their_extension(x: Seq<char>)
    ensures
        x.len() > 0 ==> install::is_bundle_name(x + ".app"@),
        !install::is_bundle_name(".app"@),
        install::is_bundle_name(x) ==> exists|y: Seq<char>|
            y.len() > 0 && x == #[trigger] (y + ".app"@),
{
    reveal_strlit(".app");
    let s = x + ".app"@;
    assert(s.skip(s.len() - 4) =~= ".app"@);
    if install::is_bundle_name(x) {
        let y = x.take(x.len() - 4);
        assert(x =~= y + ".app"@);
    }
}

/// The script waits for the process, then keeps the old executable aside, puts the new one in its
/// place, and only then removes the old one and what is left.
pub proof fn script_replaces_in_order(
    pid: nat,
    old_exe: Seq<char>,
    new_exe: Seq<char>,
    tmp: Seq<char>,
) -> (waits: Seq<char>)
    ensures
        text::contains(waits, "PID eq "@ + number::decimal(pid) + "\""@),
        text::contains(waits, "goto wait"@),
        install::replacement(pid, old_exe, new_exe, tmp) == waits + ("move /y \""@ + old_exe
            + "\" \""@ + old_exe + ".bak\"\r\n"@) + ("copy /y \""@ + new_exe + "\" \""@ + old_exe
            + "\"\r\n"@) + ("del \""@ + old_exe + ".bak\"\r\n"@) + ("rmdir /s /q \""@ + tmp
            + "\"\r\n"@) + "del \"%~f0\"\r\n"@,
{
    let id = number::decimal(pid);
    let start = "@echo off\r\n:wait\r\ntasklist /FI \"PID eq "@;
    let find = "\" | find \""@;
    let before = "\" >nul\r\nif not errorlevel 1 (\r\n  timeout /t 1 /nul >nul\r\n  "@;
    let ending = "\r\n)\r\n"@;
    let waits = start + id + find + id + (before + "goto wait"@ + ending);
    assert(text::contains(waits, "goto wait"@)) by {
        let x = start + id + find + id + before;
        assert(waits =~= x + "goto wait"@ + ending);
        text_laws::holds_pattern(x, "goto wait"@, ending);
    }
    assert(text::contains(waits, "PID eq "@ + id + "\""@)) by {
        asks_for_the_process();
        let x = "@echo off\r\n:wait\r\ntasklist /FI \""@;
        let p = "PID eq "@ + id + "\""@;
        let y = " | find \""@ + id + (before + "goto wait"@ + ending);
        assert(waits =~= x + p + y);
        text_laws::holds_pattern(x, p, y);
    }
    script_lines();
    let quote = "\" \""@;
    let line = "\"\r\n"@;
    let aside = ".bak\"\r\n"@;
    let m = "move /y \""@;
    let c = "copy /y \""@;
    let d = "del \""@;
    let r = "rmdir /s /q \""@;
    let end = "del \"%~f0\"\r\n"@;
    let first = m + old_exe + quote + old_exe + aside;
    let second = c + new_exe + quote + old_exe + line;
    let third = d + old_exe + aside;
    let fourth = r + tmp + line;
    let s0 = start + id + find + id + (before + "goto wait"@ + ending + m);
    assert(s0 =~= waits + m);
    let s1 = s0 + old_exe + quote + old_exe + (aside + c);
    assert(s1 =~= waits + first + c);
    let s2 = s1 + new_exe + quote + old_exe + (line + d);
    assert(s2 =~= waits + first + second + d);
    let s3 = s2 + old_exe + (aside + r);
    assert(s3 =~= waits + first + second + third + r);
    let s4 = s3 + tmp + (line + end);
    assert(s4 =~= waits + first + second + third + fourth + end);
    waits
}

proof fn asks_for_the_process()
    ensures
        "@echo off\r\n:wait\r\ntasklist /FI \"PID eq "@
            == "@echo off\r\n:wait\r\ntasklist /FI \""@ + "PID eq "@,
        "\" | find \""@ == "\""@ + " | find \""@,
{
    reveal_strlit("@echo off\r\n:wait\r\ntasklist /FI \"PID eq ");
    reveal_strlit("@echo off\r\n:wait\r\ntasklist /FI \"");
    reveal_strlit("PID eq ");
    reveal_strlit("\" | find \"");
    reveal_strlit("\"");
    reveal_strlit(" | find \"");
    assert("@echo off\r\n:wait\r\ntasklist /FI \"PID eq "@
        =~= "@echo off\r\n:wait\r\ntasklist /FI \""@ + "PID eq "@);
    assert("\" | find \""@ =~= "\""@ + " | find \""@);
}

proof fn script_lines()
    ensures
        "\" >nul\r\nif not errorlevel 1 (\r\n  timeout /t 1 /nul >nul\r\n  goto wait\r\n)\r\nmove /y \""@
            == "\" >nul\r\nif not errorlevel 1 (\r\n  timeout /t 1 /nul >nul\r\n  "@ + "goto wait"@
            + "\r\n)\r\n"@ + "move /y \""@,
        ".bak\"\r\ncopy /y \""@ == ".bak\"\r\n"@ + "copy /y \""@,
        "\"\r\ndel \""@ == "\"\r\n"@ + "del \""@,
        ".bak\"\r\nrmdir /s /q \""@ == ".bak\"\r\n"@ + "rmdir /s /q \""@,
        "\"\r\ndel \"%~f0\"\r\n"@ == "\"\r\n"@ + "del \"%~f0\"\r\n"@,
{
    reveal_strlit(
        "\" >nul\r\nif not errorlevel 1 (\r\n  timeout /t 1 /nul >nul\r\n  goto wait\r\n)\r\nmove /y \"",
    );
    reveal_strlit("\" >nul\r\nif not errorlevel 1 (\r\n  timeout /t 1 /nul >nul\r\n  ");
    reveal_strlit("goto wait");
    reveal_strlit("\r\n)\r\n");
    reveal_strlit("move /y \"");
    reveal_strlit(".bak\"\r\ncopy /y \"");
    reveal_strlit(".bak\"\r\n");
    reveal_strlit("copy /y \"");
    reveal_strlit("\"\r\ndel \"");
    reveal_strlit("\"\r\n");
    reveal_strlit("del \"");
    reveal_strlit(".bak\"\r\nrmdir /s /q \"");
    reveal_strlit("rmdir /s /q \"");
    reveal_strlit("\"\r\ndel \"%~f0\"\r\n");
    reveal_strlit("del \"%~f0\"\r\n");
    assert(
        "\" >nul\r\nif not errorlevel 1 (\r\n  timeout /t 1 /nul >nul\r\n  goto wait\r\n)\r\nmove /y \""@
            =~= "\" >nul\r\nif not errorlevel 1 (\r\n  timeout /t 1 /nul >nul\r\n  "@
            + "goto wait"@ + "\r\n)\r\n"@ + "move /y \""@);
    assert(".bak\"\r\ncopy /y \""@ =~= ".bak\"\r\n"@ + "copy /y \""@);
    assert("\"\r\ndel \""@ =~= "\"\r\n"@ + "del \""@);
    assert(".bak\"\r\nrmdir /s /q \""@ =~= ".bak\"\r\n"@ + "rmdir /s /q \""@);
    assert("\"\r\ndel \"%~f0\"\r\n"@ =~= "\"\r\n"@ + "del \"%~f0\"\r\n"@);
}

// ---- signatures -----------------------------------------------------------------------------

/// A key or a signature may be written as it is, with white space around it; any other text is
/// decoded, without the white space around it.
pub proof fn written_key_is_taken_as_it_is(a: Seq<char>, x: Seq<char>, b: Seq<char>, s: Seq<char>)
    requires
        text_laws::is_blank(a),
        text_laws::is_blank(b),
        x.len() > 0 ==> !text::is_white_space(x.last()),
        text_laws::is_trimmed(s),
        forall|y: Seq<char>| s != #[trigger] ("untrusted comment:"@ + y),
    ensures
        signature::minisign_text(a + ("untrusted comment:"@ + x) + b) == Ok::<
            Seq<char>,
            Seq<char>,
        >("untrusted comment:"@ + x),
        match signature::base64_bytes(s) {
            Ok(bytes) => if vstd::utf8::valid_utf8(bytes) {
                signature::minisign_text(a + s + b) == Ok::<Seq<char>, Seq<char>>(
                    vstd::utf8::decode_utf8(bytes),
                )
            } else {
                signature::minisign_text(a + s + b) is Err
            },
            Err(e) => match signature::minisign_text(a + s + b) {
                Ok(_) => false,
                Err(why) => text::contains(why, e),
            },
        },
{
    let p = "untrusted comment:"@;
    reveal_strlit("untrusted comment:");
    let t = p + x;
    assert(t[0] == p[0]);
    assert(t.last() == if x.len() > 0 {
        x.last()
    } else {
        p.last()
    });
    text_laws::trim_takes_the_ends(a, t, b);
    text_laws::starts_with_is_concatenation(t, p);
    text_laws::trim_takes_the_ends(a, s, b);
    text_laws::starts_with_is_concatenation(s, p);
    if text::starts_with(s, p) {
        let y = choose|y: Seq<char>| s == #[trigger] (p + y);
        assert(s == p + y);
    }
    match signature::base64_bytes(s) {
        Ok(_) => {},
        Err(e) => {
            let none = Seq::<char>::empty();
            assert("base64 解码失败: "@ + e + none =~= "base64 解码失败: "@ + e);
            text_laws::holds_pattern("base64 解码失败: "@, e, none);
        },
    }
}

/// What is wrong is told of the key first, then of the signature, and last of the two together, and
/// says what it is about.
pub proof fn first_fault_is_told(key: Seq<char>, data: Seq<u8>, sig: Seq<char>)
    ensures
        match signature::minisign_text(key) {
            Err(e) => signature::verification(key, data, sig) == Err::<(), Seq<char>>(e),
            Ok(k) => match signature::key_error(k) {
                Some(e) => faults(signature::verification(key, data, sig), "无法解析公钥"@, e),
                None => match signature::minisign_text(sig) {
                    Err(e) => signature::verification(key, data, sig) == Err::<(), Seq<char>>(e),
                    Ok(s) => match signature::signature_error(s) {
                        Some(e) => faults(
                            signature::verification(key, data, sig),
                            "无法解析签名"@,
                            e,
                        ),
                        None => match signature::verify_error(k, s, data, true) {
                            Some(e) => faults(
                                signature::verification(key, data, sig),
                                "签名验证失败"@,
                                e,
                            ),
                            None => signature::verification(key, data, sig) is Ok,
                        },
                    },
                },
            },
        },
{
}

/// Whether a result is a fault that says what it is about and why.
pub open spec fn faults(r: Result<(), Seq<char>>, what: Seq<char>, why: Seq<char>) -> bool {
    match r {
        Ok(_) => false,
        Err(said) => said == what + ": "@ + why,
    }
}

// ---- updates --------------------------------------------------------------------------------

/// The steps follow each other as long as they go well.
pub proof fn steps_follow_each_other(u: UpdateView)
    ensures
        update::step_of(u, OutcomeView::Good).stage == (match u.stage {
            Stage::Locating => Stage::Preparing,
            Stage::Preparing => Stage::Downloading,
            Stage::Downloading => Stage::Fetching,
            Stage::Fetching => Stage::Reading,
            Stage::Reading => Stage::Verifying,
            Stage::Verifying => Stage::Installing,
            Stage::Installing => Stage::Over,
            Stage::Over => Stage::Over,
        }),
{
}

/// A step that fails ends the update. The window is told first that it failed, and then why, but for
/// a signature that could not be fetched, which has no reason of its own.
pub proof fn failed_step_is_told(u: UpdateView, e: Seq<char>)
    requires
        u.stage != Stage::Over,
    ensures
        ({
            let s = update::step_of(u, OutcomeView::Bad(e));
            &&& s.stage == Stage::Over
            &&& s.events.len() >= 2
            &&& s.events[0] is UpdateFailed
            &&& u.stage != Stage::Fetching ==> shows(s.events[1], e)
            &&& u.stage == Stage::Preparing ==> shows(s.events[1], u.dir)
            &&& u.stage == Stage::Downloading ==> shows(s.events[1], u.url)
        }),
{
    let line = "\r\n"@;
    match u.stage {
        Stage::Locating => {
            text_laws::holds_pattern("  ✗ 升级失败："@, e, line);
        },
        Stage::Preparing => {
            let a = "  ✗ 升级失败：无法创建缓存目录 "@;
            text_laws::holds_pattern(a + u.dir + ": "@, e, line);
            assert(a + u.dir + ": "@ + e + line =~= a + u.dir + (": "@ + e + line));
            text_laws::holds_pattern(a, u.dir, ": "@ + e + line);
        },
        Stage::Downloading => {
            let a = "  ✗ 升级包下载失败（"@;
            let b = "本次跳过升级，不影响使用。\r\n"@;
            text_laws::holds_pattern(a + u.url + "）。"@, e, b);
            assert(a + u.url + "）。"@ + e + b =~= a + u.url + ("）。"@ + e + b));
            text_laws::holds_pattern(a, u.url, "）。"@ + e + b);
        },
        Stage::Fetching => {},
        Stage::Reading => {
            text_laws::holds_pattern("  ✗ 无法读取签名文件: "@, e, line);
        },
        Stage::Verifying => {
            text_laws::holds_pattern("  ✗ 签名验证失败: "@, e, line);
        },
        Stage::Installing => {
            text_laws::holds_pattern("  ✗ 升级失败："@, e, line);
        },
        Stage::Over => {},
    }
}

/// Whether an event shows a text.
pub open spec fn shows(e: EventView, t: Seq<char>) -> bool {
    match e {
        EventView::Term(line) => text::contains(line, t),
        EventView::Status(line) => text::contains(line, t),
        _ => false,
    }
}

/// The name of the package is shown before it is downloaded, and the version without its letter once
/// it is installed. Only then is the update told as done, with its tag.
pub proof fn good_steps_are_told(u: UpdateView, x: Seq<char>)
    requires
        x.len() > 0 ==> x[0] != 'v',
        u.tag == x || u.tag == seq!['v'] + x,
    ensures
        ({
            let events = update::step_of(u, OutcomeView::Good).events;
            &&& u.stage == Stage::Preparing ==> events.len() == 1 && shows(events[0], u.name)
            &&& u.stage == Stage::Downloading ==> events.len() == 3 && events[0]
                == EventView::UpdateProgress(100)
            &&& u.stage == Stage::Installing ==> events.len() == 3 && shows(
                events[0],
                "v"@ + x + "，"@,
            ) && shows(events[1], "v"@ + x + "，"@) && events[2] == EventView::UpdateDone(u.tag)
            &&& u.stage != Stage::Installing ==> forall|i: int|
                0 <= i < events.len() ==> !(#[trigger] events[i] is UpdateDone)
        }),
{
    tag_is_shown_without_its_letter(x);
    assert(release::bare_tag(u.tag) == x);
    if u.stage == Stage::Preparing {
        text_laws::holds_pattern("  正在下载 "@, u.name, " …\r\n"@);
    }
    if u.stage == Stage::Installing {
        version_is_shown(x);
    }
}

proof fn version_is_shown(x: Seq<char>)
    ensures
        text::contains(
            "✓ 已升级到 v"@ + x + "，重启应用（关闭窗口后重新打开）即生效。\r\n"@,
            "v"@ + x + "，"@,
        ),
        text::contains("已升级到 v"@ + x + "，重启应用后生效"@, "v"@ + x + "，"@),
{
    reveal_strlit("✓ 已升级到 v");
    reveal_strlit("✓ 已升级到 ");
    reveal_strlit("已升级到 v");
    reveal_strlit("已升级到 ");
    reveal_strlit("v");
    reveal_strlit("，");
    reveal_strlit("，重启应用（关闭窗口后重新打开）即生效。\r\n");
    reveal_strlit("重启应用（关闭窗口后重新打开）即生效。\r\n");
    reveal_strlit("，重启应用后生效");
    reveal_strlit("重启应用后生效");
    let p = "v"@ + x + "，"@;
    let long = "重启应用（关闭窗口后重新打开）即生效。\r\n"@;
    let short = "重启应用后生效"@;
    assert("✓ 已升级到 v"@ =~= "✓ 已升级到 "@ + "v"@);
    assert("已升级到 v"@ =~= "已升级到 "@ + "v"@);
    assert("，重启应用（关闭窗口后重新打开）即生效。\r\n"@ =~= "，"@ + long);
    assert("，重启应用后生效"@ =~= "，"@ + short);
    text_laws::holds_pattern("✓ 已升级到 "@, p, long);
    text_laws::holds_pattern("已升级到 "@, p, short);
    assert("✓ 已升级到 "@ + "v"@ + x + ("，"@ + long) =~= "✓ 已升级到 "@ + p + long);
    assert("已升级到 "@ + "v"@ + x + ("，"@ + short) =~= "已升级到 "@ + p + short);
}

/// What was downloaded is removed when the update is over, and not before: the package from the
/// download on, and the signature once it was fetched.
pub proof fn downloads_are_removed_at_the_end(u: UpdateView, o: OutcomeView)
    requires
        u.stage != Stage::Over,
    ensures
        ({
            let s = update::step_of(u, o);
            let package = u.stage != Stage::Locating && u.stage != Stage::Preparing;
            let sig = package && u.stage != Stage::Downloading && u.stage != Stage::Fetching;
            &&& s.remove_package <==> s.stage == Stage::Over && package
            &&& s.remove_signature <==> s.stage == Stage::Over && sig
        }),
{
}

/// A package passes exactly where it can be read and its signature is one of it by the key.
pub proof fn package_passes_with_its_signature(
    key: Seq<char>,
    data: Seq<u8>,
    sig: Seq<char>,
    e: Seq<char>,
)
    ensures
        update::verification_outcome(key, Ok(data), sig) is Good <==> signature::verification(
            key,
            data,
            sig,
        ) is Ok,
        match update::verification_outcome(key, Err(e), sig) {
            OutcomeView::Good => false,
            OutcomeView::Bad(why) => text::contains(why, e),
        },
{
    let none = Seq::<char>::empty();
    let a = "无法读取文件进行签名验证: "@;
    assert(a + e + none =~= a + e);
    text_laws::holds_pattern(a, e, none);
}

} // verus!
