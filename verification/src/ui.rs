//! The pages of the application: what they are made of, and texts in their scripts.

use crate::json;
use crate::text;
use vstd::prelude::*;
use vstd::slice::*;
use vstd::string::*;

verus! {

// ---- texts in scripts -----------------------------------------------------------------------

/// A text as an argument in a script.
pub open spec fn js_arg(s: Seq<char>) -> Seq<char> {
    seq!['"'] + json::escape(s, true) + seq!['"']
}

/// Makes a text an argument in a script: a string literal, whatever the text holds.
pub fn js_string_arg(s: &str) -> (r: String)
    ensures
        r@ == js_arg(s@),
{
    let inner = json::escaped(s, true);
    let mut out = String::new();
    out.push('"');
    out.append(inner.as_str());
    out.push('"');
    assert(out@ =~= js_arg(s@));
    out
}

/// A text as an argument is one string literal, from its first character to its last; it holds no
/// control character, and what it stands for is the text.
pub proof fn argument_is_one_literal(s: Seq<char>)
    ensures
        js_arg(s)[0] == '"',
        json::string_end(js_arg(s), 1) == Some(js_arg(s).len() - 1),
        json::unescape(js_arg(s).subrange(1, js_arg(s).len() - 1)) == s,
        forall|i: int| 0 <= i < js_arg(s).len() ==> #[trigger] js_arg(s)[i] as u32 >= 0x20,
{
    let a = js_arg(s);
    let e = json::escape(s, true);
    json::escape_ends_at_quote(seq!['"'], s, Seq::empty(), true);
    assert(seq!['"'] + e + seq!['"'] + Seq::<char>::empty() =~= a);
    json::unescape_undoes_escape(s, true);
    assert(a.subrange(1, a.len() - 1) =~= e);
    json::escape_is_printable(s, true);
    assert forall|i: int| 0 <= i < a.len() implies #[trigger] a[i] as u32 >= 0x20 by {
        if 0 < i < a.len() - 1 {
            assert(a[i] == e[i - 1]);
        }
    }
}

// ---- the first page -------------------------------------------------------------------------

/// `s` with each occurrence of `pat` replaced, from the start on.
pub open spec fn replaced(s: Seq<char>, pat: Seq<char>, by: Seq<char>) -> Seq<char>
    decreases s.len(),
{
    proof {
        text::find_is_first(s, pat);
    }
    if pat.len() == 0 {
        s
    } else {
        match text::find(s, pat) {
            Some(p) => s.take(p) + by + replaced(s.skip(p + pat.len()), pat, by),
            None => s,
        }
    }
}

/// The mark in the first page that its script takes the place of.
pub const SCRIPT_MARK: &'static str = "/*__APP_JS__*/";

/// The script of the first page, with the version before it.
pub open spec fn page_script(app_js: Seq<char>, version: Seq<char>) -> Seq<char> {
    "var dshVersion='"@ + version + "';"@ + app_js
}

/// Makes the first page: the script goes where the page has its mark.
pub fn loading_html(index_html: &str, app_js: &str, version: &str) -> (r: String)
    ensures
        r@ == replaced(index_html@, SCRIPT_MARK@, page_script(app_js@, version@)),
{
    let mut script = String::from_str("var dshVersion='");
    script.append(version);
    script.append("';");
    script.append(app_js);
    let by = text::to_chars(script.as_str());
    let pat = text::to_chars(SCRIPT_MARK);
    let page = text::to_chars(index_html);
    proof {
        reveal_strlit("/*__APP_JS__*/");
    }
    let out = replace_chars(page.as_slice(), pat.as_slice(), by.as_slice());
    text::to_text(out.as_slice())
}

fn replace_chars(s: &[char], pat: &[char], by: &[char]) -> (r: Vec<char>)
    requires
        pat@.len() > 0,
    ensures
        r@ == replaced(s@, pat@, by@),
{
    let mut out: Vec<char> = Vec::new();
    let mut rest: &[char] = s;
    assert(out@ + replaced(s@, pat@, by@) =~= replaced(s@, pat@, by@));
    loop
        invariant
            pat@.len() > 0,
            out@ + replaced(rest@, pat@, by@) == replaced(s@, pat@, by@),
        decreases rest@.len(),
    {
        let n = rest.len();
        match text::find_chars(rest, pat) {
            Some(p) => {
                let ghost before = out@;
                let head = slice_subrange(rest, 0, p);
                let next = slice_subrange(rest, p + pat.len(), n);
                text::push_chars(&mut out, head);
                text::push_chars(&mut out, by);
                proof {
                    assert(head@ =~= rest@.take(p as int));
                    assert(next@ =~= rest@.skip(p + pat@.len()));
                    let back = replaced(next@, pat@, by@);
                    assert(before + (head@ + by@ + back) =~= (before + head@ + by@) + back);
                }
                rest = next;
            },
            None => {
                let ghost before = out@;
                text::push_chars(&mut out, rest);
                assert(before + rest@ =~= out@);
                return out;
            },
        }
    }
}

// ---- the help page --------------------------------------------------------------------------

/// The help page before the version.
pub const HELP_HEAD: &'static str = r#"<!DOCTYPE html>
<html lang="zh-CN">
<head>
<meta charset="utf-8">
<style>
  * { margin: 0; padding: 0; box-sizing: border-box; }
  body {
    font-family: -apple-system, "PingFang SC", "Helvetica Neue", sans-serif;
    background: #f6f7f9; color: #1f2329; padding: 28px 32px;
    line-height: 1.7; font-size: 14px;
  }
  h1 { font-size: 20px; margin-bottom: 4px; }
  .version { color: #86909c; font-size: 12px; margin-bottom: 20px; }
  h2 { font-size: 14px; margin: 0 0 6px; color: #4e5969; }
  p, li { color: #4e5969; }
  ul { padding-left: 18px; }
  li { margin-bottom: 4px; }
  code {
    background: #f2f3f5; border-radius: 4px; padding: 1px 5px;
    font-size: 12px; font-family: ui-monospace, Menlo, monospace;
  }
  .card {
    background: #fff; border: 1px solid #e5e6eb; border-radius: 10px;
    padding: 16px 20px; margin-top: 16px;
  }
  kbd {
    background: #f2f3f5; border: 1px solid #e5e6eb; border-bottom-width: 2px;
    border-radius: 4px; padding: 1px 6px; font-size: 12px; font-family: inherit;
  }
  a { color: #165dff; text-decoration: none; }
  .footer { margin-top: 22px; color: #86909c; font-size: 12px; text-align: center; }
</style>
</head>
<body>
  <h1>DeepSeek dsh Desktop</h1>
  <div class="version">v"#;

/// The help page behind the version.
pub const HELP_TAIL: &'static str = r#" · 桌面版启动器</div>

  <div class="card">
    <h2>这是什么？</h2>
    <p>本应用是 <code>dsh</code> 的桌面壳：自动检查/安装 Node.js 运行环境，
    启动 <code>npx @deepseek-ai/dsh web</code> 并在内置页面中打开。
    关闭窗口时会自动停止后台服务。</p>
  </div>

  <div class="card">
    <h2>常见问题</h2>
    <ul>
      <li><b>启动很慢？</b> 首次运行需要下载依赖包，属正常现象，可查看启动时的终端输出了解进度。</li>
      <li><b>提示端口被占用？</b> 上次未正常退出的服务可能仍占用 3080 端口，
          可执行 <code>lsof -iTCP:3080</code> 找到并结束对应进程。</li>
      <li><b>没有 Node.js？</b> 无需手动安装，应用会自动下载便携版 Node 到
          <code>~/.cache/dsh-desktop</code>。</li>
      <li><b>如何更新？</b> 点击标题栏"检查更新"，应用会自动从 GitHub Releases
          下载并安装新版本（带签名校验）。</li>
    </ul>
  </div>

  <div class="card">
    <h2>快捷键</h2>
    <p><kbd>⌘C</kbd> 复制 · <kbd>⌘V</kbd> 粘贴 · <kbd>⌘A</kbd> 全选 ·
       <kbd>⌘Z</kbd> 撤销（在输入框内生效）</p>
  </div>

  <div class="footer">
    项目主页：
    <a href="https://github.com/ht-shaipe/dsh-desktop" target="_blank" onclick="window.open('https://github.com/ht-shaipe/dsh-desktop','_blank');return false;">github.com/ht-shaipe/dsh-desktop</a>
  </div>
</body>
</html>"#;

/// Makes the help page.
pub fn help_html(version: &str) -> (r: String)
    ensures
        r@ == HELP_HEAD@ + version@ + HELP_TAIL@,
{
    let mut out = String::from_str(HELP_HEAD);
    out.append(version);
    out.append(HELP_TAIL);
    out
}

} // verus!
