//! How a package is installed: the commands that do it, and what is said where one fails.

use crate::number;
use crate::text;
use crate::utf8;
use vstd::prelude::*;
use vstd::string::*;

verus! {

// ---- commands -------------------------------------------------------------------------------

/// The arguments of `tar` that extract an archive into a directory.
pub fn extract_args(archive: &str, dir: &str) -> (r: Vec<String>)
    ensures
        text::texts(r@) == seq!["-xzf"@, archive@, "-C"@, dir@],
{
    let mut out: Vec<String> = Vec::new();
    text::push_text(&mut out, "-xzf");
    text::push_text(&mut out, archive);
    text::push_text(&mut out, "-C");
    text::push_text(&mut out, dir);
    assert(text::texts(out@) =~= seq!["-xzf"@, archive@, "-C"@, dir@]);
    out
}

/// The arguments of PowerShell that extract an archive into a directory.
pub fn expand_args(archive: &str, dir: &str) -> (r: Vec<String>)
    ensures
        text::texts(r@) == seq![
            "-NoProfile"@,
            "-Command"@,
            "Expand-Archive -Force -Path '"@ + archive@ + "' -DestinationPath '"@ + dir@ + "'"@,
        ],
{
    let mut command = String::from_str("Expand-Archive -Force -Path '");
    command.append(archive);
    command.append("' -DestinationPath '");
    command.append(dir);
    command.append("'");
    let ghost said = command@;
    let mut out: Vec<String> = Vec::new();
    text::push_text(&mut out, "-NoProfile");
    text::push_text(&mut out, "-Command");
    text::push_text(&mut out, command.as_str());
    assert(text::texts(out@) =~= seq!["-NoProfile"@, "-Command"@, said]);
    out
}

/// The arguments of `hdiutil` that mount an image.
pub fn attach_args(mount: &str, image: &str) -> (r: Vec<String>)
    ensures
        text::texts(r@) == seq![
            "attach"@,
            "-nobrowse"@,
            "-readonly"@,
            "-mountpoint"@,
            mount@,
            image@,
        ],
{
    let mut out: Vec<String> = Vec::new();
    text::push_text(&mut out, "attach");
    text::push_text(&mut out, "-nobrowse");
    text::push_text(&mut out, "-readonly");
    text::push_text(&mut out, "-mountpoint");
    text::push_text(&mut out, mount);
    text::push_text(&mut out, image);
    assert(text::texts(out@) =~= seq![
        "attach"@,
        "-nobrowse"@,
        "-readonly"@,
        "-mountpoint"@,
        mount@,
        image@,
    ]);
    out
}

/// The script that replaces an executable on Windows: it waits for this process to end, then puts
/// the new executable in the place of the old one, and removes what is left.
pub open spec fn replacement(
    pid: nat,
    old_exe: Seq<char>,
    new_exe: Seq<char>,
    tmp: Seq<char>,
) -> Seq<char> {
    "@echo off\r\n:wait\r\ntasklist /FI \"PID eq "@ + number::decimal(pid) + "\" | find \""@
        + number::decimal(pid)
        + "\" >nul\r\nif not errorlevel 1 (\r\n  timeout /t 1 /nul >nul\r\n  goto wait\r\n)\r\nmove /y \""@
        + old_exe + "\" \""@ + old_exe + ".bak\"\r\ncopy /y \""@ + new_exe + "\" \""@ + old_exe
        + "\"\r\ndel \""@ + old_exe + ".bak\"\r\nrmdir /s /q \""@ + tmp + "\"\r\ndel \"%~f0\"\r\n"@
}

/// Writes the script that replaces an executable on Windows.
pub fn replace_script(pid: u32, old_exe: &str, new_exe: &str, tmp: &str) -> (r: String)
    ensures
        r@ == replacement(pid as nat, old_exe@, new_exe@, tmp@),
{
    let p = number::decimal_text(pid as u64);
    let mut out = String::from_str("@echo off\r\n:wait\r\ntasklist /FI \"PID eq ");
    out.append(p.as_str());
    out.append("\" | find \"");
    out.append(p.as_str());
    out.append(
        "\" >nul\r\nif not errorlevel 1 (\r\n  timeout /t 1 /nul >nul\r\n  goto wait\r\n)\r\nmove /y \"",
    );
    out.append(old_exe);
    out.append("\" \"");
    out.append(old_exe);
    out.append(".bak\"\r\ncopy /y \"");
    out.append(new_exe);
    out.append("\" \"");
    out.append(old_exe);
    out.append("\"\r\ndel \"");
    out.append(old_exe);
    out.append(".bak\"\r\nrmdir /s /q \"");
    out.append(tmp);
    out.append("\"\r\ndel \"%~f0\"\r\n");
    out
}

// ---- the running application ----------------------------------------------------------------

/// Whether a file name has the extension of an application bundle.
pub open spec fn is_bundle_name(name: Seq<char>) -> bool {
    name.len() > 4 && name.skip(name.len() - 4) == ".app"@
}

/// Whether an optional file name is that of an application bundle.
pub open spec fn is_bundle(name: Option<String>) -> bool {
    match name {
        Some(s) => is_bundle_name(s@),
        None => false,
    }
}

/// Finds the innermost application bundle that the executable is in: `names` are the file names of
/// its directories, from the inside out, where they have one.
pub fn bundle_index(names: &[Option<String>]) -> (r: Option<usize>)
    ensures
        match r {
            Some(i) => i < names@.len() && is_bundle(names@[i as int]) && forall|j: int|
                0 <= j < i ==> !is_bundle(#[trigger] names@[j]),
            None => forall|j: int| 0 <= j < names@.len() ==> !is_bundle(#[trigger] names@[j]),
        },
{
    let suffix = text::to_chars(".app");
    proof {
        reveal_strlit(".app");
    }
    let mut i: usize = 0;
    while i < names.len()
        invariant
            i <= names@.len(),
            suffix@ == ".app"@,
            suffix@.len() == 4,
            forall|j: int| 0 <= j < i ==> !is_bundle(#[trigger] names@[j]),
        decreases names@.len() - i,
    {
        match &names[i] {
            Some(s) => {
                let cs = text::to_chars(s.as_str());
                let n = cs.len();
                if n > 4 && text::stands_at(cs.as_slice(), suffix.as_slice(), n - 4) {
                    assert(cs@.subrange(n - 4, n as int) =~= cs@.skip(n - 4));
                    return Some(i);
                }
                if n > 4 {
                    assert(cs@.subrange(n - 4, n as int) =~= cs@.skip(n - 4));
                }
            },
            None => {},
        }
        i += 1;
    }
    None
}

// ---- what is said ---------------------------------------------------------------------------

/// What is said where a package is not for this platform.
pub fn wrong_platform(os: &str) -> (r: String)
    ensures
        r@ == (if os@ == "macos"@ {
            "仅支持在 macOS 上安装 dmg 升级包。"@
        } else if os@ == "linux"@ {
            "仅支持在 Linux 上安装 tar.gz 升级包。"@
        } else {
            "仅支持在 Windows 上安装 zip 升级包。"@
        }),
{
    if text::same_text(os, "macos") {
        String::from_str("仅支持在 macOS 上安装 dmg 升级包。")
    } else if text::same_text(os, "linux") {
        String::from_str("仅支持在 Linux 上安装 tar.gz 升级包。")
    } else {
        String::from_str("仅支持在 Windows 上安装 zip 升级包。")
    }
}

/// Whether an extraction went well.
pub fn extracted(ok: bool) -> (r: Result<(), String>)
    ensures
        match r {
            Ok(_) => ok,
            Err(e) => !ok && e@ == "解压升级包失败。"@,
        },
{
    if ok {
        Ok(())
    } else {
        Err(String::from_str("解压升级包失败。"))
    }
}

/// Whether the application was replaced on macOS.
pub fn copied(ok: bool) -> (r: Result<(), String>)
    ensures
        match r {
            Ok(_) => ok,
            Err(e) => !ok && e@
                == "替换应用文件失败（目录可能没有写权限，例如应用不在 /Applications）。"@,
        },
{
    if ok {
        Ok(())
    } else {
        Err(
            String::from_str(
                "替换应用文件失败（目录可能没有写权限，例如应用不在 /Applications）。",
            ),
        )
    }
}

/// What is said of an image that cannot be mounted, from the output of `hdiutil`.
pub fn attach_failed(output: &[u8]) -> (r: String)
    ensures
        r@ == "挂载 dmg 失败: "@ + text::trim(utf8::lossy_text(output@)),
{
    let s = utf8::lossy(output);
    attach_failed_with(s.as_str())
}

/// What is said of an image that cannot be mounted: what `hdiutil` said, without white space at its
/// ends.
pub fn attach_failed_with(said: &str) -> (r: String)
    ensures
        r@ == "挂载 dmg 失败: "@ + text::trim(said@),
{
    let cs = text::to_chars(said);
    let t = text::to_text(text::trimmed(cs.as_slice()));
    let mut out = String::from_str("挂载 dmg 失败: ");
    out.append(t.as_str());
    out
}

} // verus!
