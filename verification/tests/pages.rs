use serve::escape::html_escape;
use serve::listing::{entry_link, listing_page, parent_of, DirEntry};
use serve::preview::preview_page;

#[test]
fn html_escape_replaces_markup_characters() {
    assert_eq!(html_escape("a<b>&c"), "a&lt;b&gt;&amp;c");
}

#[test]
fn html_escape_keeps_plain_text() {
    assert_eq!(html_escape(""), "");
    assert_eq!(html_escape("fn main() { \"x\" }"), "fn main() { \"x\" }");
    assert_eq!(html_escape("héllo ünïcode"), "héllo ünïcode");
}

#[test]
fn html_escape_escapes_existing_entities_again() {
    assert_eq!(html_escape("&amp;"), "&amp;amp;");
    assert_eq!(html_escape("<<>>"), "&lt;&lt;&gt;&gt;");
}

#[test]
fn parent_links() {
    assert_eq!(parent_of("/a/b/"), "/a");
    assert_eq!(parent_of("/a/b"), "/a");
    assert_eq!(parent_of("/a"), "/");
    assert_eq!(parent_of("/a///"), "/");
    assert_eq!(parent_of("a"), "/");
    assert_eq!(parent_of("//x"), "/");
}

#[test]
fn entry_links_are_percent_encoded() {
    assert_eq!(entry_link("/", &"a b.txt".chars().collect()), "/a%20b%2Etxt");
    assert_eq!(entry_link("/docs/", &"x".chars().collect()), "/docs/x");
    assert_eq!(entry_link("/docs", &"é".chars().collect()), "/docs/%C3%A9");
    assert_eq!(entry_link("/d//", &"\"<q>".chars().collect()), "/d/%22%3Cq%3E");
}

fn entry(name: &str, is_dir: bool) -> DirEntry {
    DirEntry { name: name.to_string(), is_dir }
}

#[test]
fn listing_of_root_has_no_up_link_and_sorted_groups() {
    let entries = vec![
        entry("zeta.txt", false),
        entry("src", true),
        entry("Alpha.md", false),
        entry("beta", false),
        entry("docs", true),
    ];
    let page = listing_page("/", &entries);
    assert_eq!(page.dir_count, 2);
    assert_eq!(page.file_count, 3);
    let html = page.html;
    assert!(html.starts_with("<!doctype html><html><head><meta charset=utf-8>"));
    assert!(html.ends_with("</div></div></body></html>"));
    assert!(!html.contains("UP</span>"));
    assert!(html.contains("<div class=top><div class=crumbs><a href=\"/\">root</a></div></div><div class=wrap><div class=grid>"));
    let docs = html.find("href=\"/docs\"").unwrap();
    let src = html.find("href=\"/src\"").unwrap();
    let alpha = html.find("href=\"/Alpha%2Emd\"").unwrap();
    let beta = html.find("href=\"/beta\"").unwrap();
    let zeta = html.find("href=\"/zeta%2Etxt\"").unwrap();
    assert!(docs < src && src < alpha && alpha < beta && beta < zeta);
    assert!(html.contains("<a class=card href=\"/docs\"><div class=left><span class=icon>📁</span><span class=name>docs</span></div><span class=\"tag dir\">DIR</span></a>"));
    assert!(html.contains("<a class=card href=\"/beta\"><div class=left><span class=icon>📄</span><span class=name>beta</span></div><span class=\"tag file\">FILE</span></a>"));
}

#[test]
fn listing_of_subdirectory_has_breadcrumbs_and_up_link() {
    let entries = vec![entry("b c", true), entry("f.rs", false)];
    let page = listing_page("/my docs/sub/", &entries);
    let html = page.html;
    assert!(html.contains("<a href=\"/\">root</a><a href=\"/my%20docs\">my docs</a><a href=\"/my%20docs/sub\">sub</a></div></div>"));
    assert!(html.contains("<a class=card href=\"/my docs\"><div class=left><span class=icon>⬅️</span><span class=name>..</span></div><span class=\"tag dir\">UP</span></a>"));
    assert!(html.contains("href=\"/my docs/sub/b%20c\""));
    assert!(html.contains("href=\"/my docs/sub/f%2Ers\""));
}

#[test]
fn listing_breadcrumbs_skip_dot_components() {
    let page = listing_page("/a/./../b", &vec![]);
    assert!(page.html.contains("<a href=\"/\">root</a><a href=\"/a\">a</a><a href=\"/a/b\">b</a></div>"));
    assert_eq!(page.dir_count, 0);
    assert_eq!(page.file_count, 0);
}

#[test]
fn listing_names_are_ordered_by_code_point() {
    let entries = vec![entry("b", false), entry("B", false), entry("a", false), entry("ab", false), entry("é", false)];
    let html = listing_page("/", &entries).html;
    let pos = |n: &str| html.find(&format!("<span class=name>{}</span>", n)).unwrap();
    assert!(pos("B") < pos("a"));
    assert!(pos("a") < pos("ab"));
    assert!(pos("ab") < pos("b"));
    assert!(pos("b") < pos("é"));
}

#[test]
fn preview_page_layout() {
    let page = preview_page("/notes/a.txt", Some("a.txt"), 12, "x < y & z");
    assert!(page.starts_with("<!doctype html>\n<html>\n<head>\n<meta charset=\"utf-8\">"));
    assert!(page.contains("<title>a.txt</title>"));
    assert!(page.contains("<div>a.txt</div>\n<div class=\"meta\">12 bytes</div>"));
    assert!(page.contains("<a class=\"btn\" href=\"/notes/a.txt?download=1\">Download</a>"));
    assert!(page.contains("<pre>x &lt; y &amp; z</pre>"));
    assert!(page.ends_with("</pre>\n</div>\n</body>\n</html>"));
    assert!(page.contains("*{box-sizing:border-box}"));
    assert!(page.contains("← Back"));
}

#[test]
fn preview_page_without_file_name_and_sizes() {
    let page = preview_page("/", None, 0, "");
    assert!(page.contains("<title>file</title>"));
    assert!(page.contains("<div class=\"meta\">0 bytes</div>"));
    let page = preview_page("/x", Some("x"), 18446744073709551615, "");
    assert!(page.contains("18446744073709551615 bytes"));
    let page = preview_page("/x", Some("x"), 4194304, "");
    assert!(page.contains("4194304 bytes"));
}

#[test]
fn replace_chain_undoes_html_escape() {
    for input in ["", "&lt;", "a<b>&c", "&amp;&gt;<<", "x &amp;lt; y", "é & ü"] {
        let back = html_escape(input)
            .replace("&lt;", "<")
            .replace("&gt;", ">")
            .replace("&amp;", "&");
        assert_eq!(back, input);
    }
}

#[test]
fn large_listing_is_sorted() {
    let n = 20000usize;
    let entries: Vec<DirEntry> = (0..n)
        .map(|i| entry(&format!("f{:05}", (i * 7919) % n), i % 3 == 0))
        .collect();
    let page = listing_page("/big/", &entries);
    assert_eq!(page.dir_count + page.file_count, n);
    let html = page.html;
    let mut names = Vec::new();
    let mut rest = html.as_str();
    while let Some(p) = rest.find("<span class=name>") {
        rest = &rest[p + 17..];
        let end = rest.find("</span>").unwrap();
        names.push(rest[..end].to_string());
    }
    assert_eq!(names.len(), n + 1);
    assert_eq!(names[0], "..");
    let dirs = &names[1..page.dir_count + 1];
    let files = &names[page.dir_count + 1..];
    assert!(dirs.windows(2).all(|w| w[0] < w[1]));
    assert!(files.windows(2).all(|w| w[0] < w[1]));
    assert_eq!(dirs.len(), page.dir_count);
}
