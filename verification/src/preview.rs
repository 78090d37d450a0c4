//! The preview page of a text file.

use vstd::prelude::*;
use crate::escape::{escaped, html_escape, lemma_escaped_has_no_angle_brackets, lemma_replace_chain_undoes_escape, unescaped_by_replace};
use crate::request::{display_name, shown_name};
use crate::text::{chars_of, decimal, push_chars, push_decimal};

verus! {

/// The page around a previewed file: its title and heading hold the file
/// name, then its size in bytes, a download link, and the escaped contents.
pub open spec fn preview_html(uri: Seq<char>, name: Seq<char>, size: nat, contents: Seq<char>) -> Seq<char> {
    "<!doctype html>\n<html>\n<head>\n<meta charset=\"utf-8\">\n<meta name=\"viewport\" content=\"width=device-width,initial-scale=1\">\n<title>"@ + name + "</title>\n<style>\n*{box-sizing:border-box}\nbody{margin:0;background:#020617;color:#e2e8f0;font-family:Inter,Arial,sans-serif}\n.top{position:sticky;top:0;background:#0f172a;padding:18px;border-bottom:1px solid #1e293b;display:flex;justify-content:space-between;align-items:center}\n.left{display:flex;gap:12px;align-items:center}\na{text-decoration:none}\n.btn{background:#2563eb;color:white;padding:10px 16px;border-radius:12px;font-size:14px}\n.btn:hover{background:#1d4ed8}\n.wrap{padding:20px}\npre{margin:0;background:#0f172a;border:1px solid #1e293b;border-radius:18px;padding:24px;overflow:auto;line-height:1.5}\n.meta{color:#94a3b8;font-size:14px}\n</style>\n</head>\n<body>\n<div class=\"top\">\n<div class=\"left\">\n<a class=\"btn\" href=\"javascript:history.back()\">\u{2190} Back</a>\n<div>\n<div>"@ + name + "</div>\n<div class=\"meta\">"@ + decimal(size)
        + " bytes</div>\n</div>\n</div>\n<a class=\"btn\" href=\""@ + uri + "?download=1"@ + "\">Download</a>\n</div>\n<div class=\"wrap\">\n<pre>"@ + escaped(contents) + "</pre>\n</div>\n</body>\n</html>"@
}

/// The preview page of the file at request path `uri`, with the given
/// file name (none when the path has none), size, and text contents.
pub fn preview_page(uri: &str, file_name: Option<&str>, size: u64, contents: &str) -> (page: String)
    ensures
        page@ == preview_html(
            uri@,
            shown_name(
                match file_name {
                    Some(n) => Some(n@),
                    None => None,
                },
            ),
            size as nat,
            contents@,
        ),
        exists|head: Seq<char>, sec: Seq<char>|
            #[trigger] (head + "<pre>"@ + sec + "</pre>\n</div>\n</body>\n</html>"@) == page@
                && (forall|i: int| 0 <= i < sec.len() ==> sec[i] != '<')
                && unescaped_by_replace(sec) == contents@,
{
    let name = chars_of(display_name(file_name).as_str());
    let escaped_contents = html_escape(contents);
    let mut page = String::new();
    page.append("<!doctype html>\n<html>\n<head>\n<meta charset=\"utf-8\">\n<meta name=\"viewport\" content=\"width=device-width,initial-scale=1\">\n<title>");
    push_chars(&mut page, &name);
    page.append("</title>\n<style>\n*{box-sizing:border-box}\nbody{margin:0;background:#020617;color:#e2e8f0;font-family:Inter,Arial,sans-serif}\n.top{position:sticky;top:0;background:#0f172a;padding:18px;border-bottom:1px solid #1e293b;display:flex;justify-content:space-between;align-items:center}\n.left{display:flex;gap:12px;align-items:center}\na{text-decoration:none}\n.btn{background:#2563eb;color:white;padding:10px 16px;border-radius:12px;font-size:14px}\n.btn:hover{background:#1d4ed8}\n.wrap{padding:20px}\npre{margin:0;background:#0f172a;border:1px solid #1e293b;border-radius:18px;padding:24px;overflow:auto;line-height:1.5}\n.meta{color:#94a3b8;font-size:14px}\n</style>\n</head>\n<body>\n<div class=\"top\">\n<div class=\"left\">\n<a class=\"btn\" href=\"javascript:history.back()\">\u{2190} Back</a>\n<div>\n<div>");
    push_chars(&mut page, &name);
    page.append("</div>\n<div class=\"meta\">");
    push_decimal(&mut page, size);
    page.append(" bytes</div>\n</div>\n</div>\n<a class=\"btn\" href=\"");
    page.append(uri);
    page.append("?download=1");
    page.append("\">Download</a>\n</div>\n<div class=\"wrap\">\n<pre>");
    page.append(escaped_contents.as_str());
    page.append("</pre>\n</div>\n</body>\n</html>");
    proof {
        lemma_preview_shows_whole_contents(
            uri@,
            shown_name(
                match file_name {
                    Some(n) => Some(n@),
                    None => None,
                },
            ),
            size as nat,
            contents@,
        );
    }
    page
}

/// A preview page shows the whole file: the page ends with a `<pre>`
/// section and its closing markup, the section holds no raw `<`, and
/// undoing the escapes with `replace("&lt;", "<")`, `replace("&gt;", ">")`
/// and `replace("&amp;", "&")` gives back the contents, whatever their length.
pub proof fn lemma_preview_shows_whole_contents(uri: Seq<char>, name: Seq<char>, size: nat, contents: Seq<char>)
    ensures
        exists|head: Seq<char>, sec: Seq<char>|
            #[trigger] (head + "<pre>"@ + sec + "</pre>\n</div>\n</body>\n</html>"@) == preview_html(uri, name, size, contents)
                && (forall|i: int| 0 <= i < sec.len() ==> sec[i] != '<')
                && unescaped_by_replace(sec) == contents,
{
    reveal_strlit("\">Download</a>\n</div>\n<div class=\"wrap\">\n<pre>");
    reveal_strlit("<pre>");
    let p4 = "\">Download</a>\n</div>\n<div class=\"wrap\">\n<pre>"@;
    let a = "<!doctype html>\n<html>\n<head>\n<meta charset=\"utf-8\">\n<meta name=\"viewport\" content=\"width=device-width,initial-scale=1\">\n<title>"@ + name + "</title>\n<style>\n*{box-sizing:border-box}\nbody{margin:0;background:#020617;color:#e2e8f0;font-family:Inter,Arial,sans-serif}\n.top{position:sticky;top:0;background:#0f172a;padding:18px;border-bottom:1px solid #1e293b;display:flex;justify-content:space-between;align-items:center}\n.left{display:flex;gap:12px;align-items:center}\na{text-decoration:none}\n.btn{background:#2563eb;color:white;padding:10px 16px;border-radius:12px;font-size:14px}\n.btn:hover{background:#1d4ed8}\n.wrap{padding:20px}\npre{margin:0;background:#0f172a;border:1px solid #1e293b;border-radius:18px;padding:24px;overflow:auto;line-height:1.5}\n.meta{color:#94a3b8;font-size:14px}\n</style>\n</head>\n<body>\n<div class=\"top\">\n<div class=\"left\">\n<a class=\"btn\" href=\"javascript:history.back()\">\u{2190} Back</a>\n<div>\n<div>"@ + name + "</div>\n<div class=\"meta\">"@ + decimal(size)
        + " bytes</div>\n</div>\n</div>\n<a class=\"btn\" href=\""@ + uri + "?download=1"@;
    let head = a + p4.take(p4.len() - 5);
    let sec = escaped(contents);
    assert(p4 =~= p4.take(p4.len() - 5) + "<pre>"@);
    assert(head + "<pre>"@ + sec + "</pre>\n</div>\n</body>\n</html>"@ =~= preview_html(uri, name, size, contents));
    lemma_escaped_has_no_angle_brackets(contents);
    lemma_replace_chain_undoes_escape(contents);
}

} // verus!
