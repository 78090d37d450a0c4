//! The listing page of a directory: a breadcrumb trail of the request
//! path, a link to the parent, then the sub-directories and the files, each
//! group in name order.

use vstd::prelude::*;
use crate::encoding::{percent_encode_all, percent_encoded, is_encoded_char, lemma_percent_encoded_charset};
use crate::paths::{components, find_last, last_index_of, lemma_last_index_of_bounds, names_view, normal_names, path_names};
use crate::sort::{sort_names, sorted_names};
use crate::text::{chars_eq_str, chars_of, push_chars, string_of, trim_end_slashes, trimmed_end};

verus! {

/// One entry of a directory as read from the file system.
pub struct DirEntry {
    pub name: String,
    pub is_dir: bool,
}

/// A rendered listing, with the number of directories and files it shows.
pub struct Listing {
    pub html: String,
    pub dir_count: usize,
    pub file_count: usize,
}

/// The names of the entries that are (when `dirs`) or are not directories,
/// in the order read.
pub open spec fn entry_names(entries: Seq<DirEntry>, dirs: bool) -> Seq<Seq<char>>
    decreases entries.len(),
{
    if entries.len() == 0 {
        seq![]
    } else if entries.last().is_dir == dirs {
        entry_names(entries.drop_last(), dirs).push(entries.last().name@)
    } else {
        entry_names(entries.drop_last(), dirs)
    }
}

/// The link of the `k`-th breadcrumb: `/` and the percent-encoded name for
/// each of the first `k` names.
pub open spec fn crumb_path(names: Seq<Seq<char>>) -> Seq<char>
    decreases names.len(),
{
    if names.len() == 0 {
        seq![]
    } else {
        crumb_path(names.drop_last()) + seq!['/'] + percent_encoded(names.last())
    }
}

/// One link per name of the request path, each to the path up to that name.
pub open spec fn crumbs(names: Seq<Seq<char>>) -> Seq<char>
    decreases names.len(),
{
    if names.len() == 0 {
        seq![]
    } else {
        crumbs(names.drop_last()) + "<a href=\""@ + crumb_path(names) + "\">"@ + names.last() + "</a>"@
    }
}

/// The parent of a request path: the request path without its trailing
/// slashes and its last piece, or `/` when nothing would be left.
pub open spec fn parent_link(uri: Seq<char>) -> Seq<char> {
    let t = trim_end_slashes(uri);
    let k = last_index_of(t, '/');
    if k <= 0 {
        "/"@
    } else {
        t.take(k)
    }
}

/// The link of an entry `name` of the directory at request path `uri`.
pub open spec fn entry_href(uri: Seq<char>, name: Seq<char>) -> Seq<char> {
    if uri == "/"@ {
        "/"@ + percent_encoded(name)
    } else {
        trim_end_slashes(uri) + "/"@ + percent_encoded(name)
    }
}

/// The cards of the given names, each linking to its entry.
pub open spec fn cards(uri: Seq<char>, names: Seq<Seq<char>>, is_dir: bool) -> Seq<char>
    decreases names.len(),
{
    if names.len() == 0 {
        seq![]
    } else {
        cards(uri, names.drop_last(), is_dir) + card(uri, names.last(), is_dir)
    }
}

/// The card of one entry: its link, icon, name and tag.
pub open spec fn card(uri: Seq<char>, name: Seq<char>, is_dir: bool) -> Seq<char> {
    if is_dir {
        "<a class=card href=\""@ + entry_href(uri, name)
            + "\"><div class=left><span class=icon>\u{1f4c1}</span><span class=name>"@ + name
            + "</span></div><span class=\"tag dir\">DIR</span></a>"@
    } else {
        "<a class=card href=\""@ + entry_href(uri, name)
            + "\"><div class=left><span class=icon>\u{1f4c4}</span><span class=name>"@ + name
            + "</span></div><span class=\"tag file\">FILE</span></a>"@
    }
}

/// The card leading to the parent directory, shown everywhere but at `/`.
pub open spec fn up_card(uri: Seq<char>) -> Seq<char> {
    if uri == "/"@ {
        seq![]
    } else {
        "<a class=card href=\""@ + parent_link(uri)
            + "\"><div class=left><span class=icon>\u{2b05}\u{fe0f}</span><span class=name>..</span></div><span class=\"tag dir\">UP</span></a>"@
    }
}

/// The fixed start of every listing page: document head and style sheet.
pub open spec fn listing_head() -> Seq<char> {
    "<!doctype html><html><head><meta charset=utf-8><meta name=viewport content=\"width=device-width,initial-scale=1\"><title>serve</title><style>*{box-sizing:border-box}body{margin:0;background:#020617;color:#e2e8f0;font-family:Inter,Arial,sans-serif}.top{position:sticky;top:0;padding:18px;background:#0f172a;border-bottom:1px solid #1e293b;z-index:100}.crumbs{display:flex;flex-wrap:wrap;gap:10px}.crumbs a{background:#082f49;color:#38bdf8;padding:8px 14px;border-radius:12px;text-decoration:none;font-size:14px}.crumbs a:hover{background:#0c4a6e}.wrap{padding:22px}.grid{display:grid;grid-template-columns:repeat(auto-fill,minmax(260px,1fr));gap:14px}.card{display:flex;justify-content:space-between;align-items:center;padding:18px;border-radius:18px;background:#0f172a;border:1px solid #1e293b;text-decoration:none;color:#fff;transition:.15s}.card:hover{transform:translateY(-2px);border-color:#38bdf8;background:#111827}.left{display:flex;gap:12px;align-items:center;overflow:hidden}.icon{font-size:20px}.name{text-overflow:ellipsis;overflow:hidden;white-space:nowrap}.tag{font-size:11px;padding:6px 10px;border-radius:999px}.dir{background:#2563eb}.file{background:#475569}</style></head><body>"@
}

/// The listing page of the directory at request path `uri` whose
/// sub-directories and files, already in order, are `dirs` and `files`.
pub open spec fn listing_html(uri: Seq<char>, dirs: Seq<Seq<char>>, files: Seq<Seq<char>>) -> Seq<char> {
    listing_head() + "<div class=top><div class=crumbs>"@ + "<a href=\"/\">root</a>"@
        + crumbs(normal_names(components(uri))) + "</div></div>"@ + "<div class=wrap>"@
        + "<div class=grid>"@ + up_card(uri) + cards(uri, dirs, true) + cards(uri, files, false)
        + "</div></div></body></html>"@
}

/// The parent link of the request path `uri`.
pub fn parent_of(uri: &str) -> (r: String)
    ensures
        r@ == parent_link(uri@),
        ({
            let t = trim_end_slashes(uri@);
            &&& (exists|k: int| 0 < k < t.len() && t[k] == '/') ==> (exists|seg: Seq<char>|
                !seg.contains('/') && r@.len() > 0 && #[trigger] (r@ + seq!['/'] + seg) == t)
            &&& !(exists|k: int| 0 < k < t.len() && t[k] == '/') ==> r@ == "/"@
        }),
{
    proof {
        lemma_parent_link_one_level_up(uri@);
    }
    let u = chars_of(uri);
    let t = trimmed_end(&u);
    proof {
        lemma_last_index_of_bounds(t@, '/');
    }
    match find_last(&t, '/') {
        Some(k) => {
            if k == 0 {
                string_of(&chars_of("/"))
            } else {
                let mut r = String::new();
                let mut i: usize = 0;
                while i < k
                    invariant
                        k < t.len(),
                        i <= k,
                        r@ == t@.take(i as int),
                    decreases k - i,
                {
                    crate::text::push_char(&mut r, t[i]);
                    assert(t@.take(i + 1) =~= t@.take(i as int).push(t@[i as int]));
                    i = i + 1;
                }
                r
            }
        },
        None => string_of(&chars_of("/")),
    }
}

/// The link of the entry `name` in the directory at `uri`.
pub fn entry_link(uri: &str, name: &Vec<char>) -> (r: String)
    ensures
        r@ == entry_href(uri@, name@),
{
    let u = chars_of(uri);
    let encoded = percent_encode_all(string_of(name).as_str());
    let mut r = String::new();
    if chars_eq_str(&u, "/") {
        r.append("/");
    } else {
        push_chars(&mut r, &trimmed_end(&u));
        r.append("/");
    }
    r.append(encoded.as_str());
    r
}

/// Appends the cards of `names`.
fn push_cards(html: &mut String, uri: &str, names: &Vec<Vec<char>>, is_dir: bool)
    ensures
        final(html)@ == old(html)@ + cards(uri@, names_view(names@), is_dir),
{
    let ghost start = html@;
    let ghost s = names_view(names@);
    let mut k: usize = 0;
    assert(s.take(0) =~= Seq::<Seq<char>>::empty());
    while k < names.len()
        invariant
            s == names_view(names@),
            k <= names.len(),
            html@ == start + cards(uri@, s.take(k as int), is_dir),
        decreases names.len() - k,
    {
        let href = entry_link(uri, &names[k]);
        html.append("<a class=card href=\"");
        html.append(href.as_str());
        if is_dir {
            html.append("\"><div class=left><span class=icon>\u{1f4c1}</span><span class=name>");
            push_chars(html, &names[k]);
            html.append("</span></div><span class=\"tag dir\">DIR</span></a>");
        } else {
            html.append("\"><div class=left><span class=icon>\u{1f4c4}</span><span class=name>");
            push_chars(html, &names[k]);
            html.append("</span></div><span class=\"tag file\">FILE</span></a>");
        }
        assert(s.take(k + 1).drop_last() =~= s.take(k as int));
        assert(s.take(k + 1).last() == names@[k as int]@);
        k = k + 1;
    }
    assert(s.take(names.len() as int) =~= s);
}

/// Appends the breadcrumb links of the request path `uri`.
fn push_crumbs(html: &mut String, uri: &str)
    ensures
        final(html)@ == old(html)@ + crumbs(normal_names(components(uri@))),
{
    let names = path_names(uri);
    let ghost s = normal_names(components(uri@));
    let ghost start = html@;
    let mut current = String::new();
    let mut k: usize = 0;
    assert(s.take(0) =~= Seq::<Seq<char>>::empty());
    while k < names.len()
        invariant
            names_view(names@) == s,
            k <= names.len(),
            html@ == start + crumbs(s.take(k as int)),
            current@ == crumb_path(s.take(k as int)),
        decreases names.len() - k,
    {
        let encoded = percent_encode_all(string_of(&names[k]).as_str());
        proof {
            reveal_strlit("/");
        }
        current.append("/");
        current.append(encoded.as_str());
        html.append("<a href=\"");
        html.append(current.as_str());
        html.append("\">");
        push_chars(html, &names[k]);
        html.append("</a>");
        assert(s.take(k + 1).drop_last() =~= s.take(k as int));
        assert(s.take(k + 1).last() == names@[k as int]@);
        k = k + 1;
    }
    assert(s.take(names.len() as int) =~= s);
}

/// The names of the directories and of the other entries, in the order read.
fn split_entries(entries: &Vec<DirEntry>) -> (r: (Vec<Vec<char>>, Vec<Vec<char>>))
    ensures
        names_view(r.0@) == entry_names(entries@, true),
        names_view(r.1@) == entry_names(entries@, false),
{
    let mut dirs: Vec<Vec<char>> = Vec::new();
    let mut files: Vec<Vec<char>> = Vec::new();
    let mut k: usize = 0;
    assert(entries@.take(0) =~= Seq::<DirEntry>::empty());
    while k < entries.len()
        invariant
            k <= entries.len(),
            names_view(dirs@) == entry_names(entries@.take(k as int), true),
            names_view(files@) == entry_names(entries@.take(k as int), false),
        decreases entries.len() - k,
    {
        assert(entries@.take(k + 1).drop_last() =~= entries@.take(k as int));
        assert(entries@.take(k + 1).last() == entries@[k as int]);
        let name = chars_of(entries[k].name.as_str());
        if entries[k].is_dir {
            let ghost prev = names_view(dirs@);
            dirs.push(name);
            assert(names_view(dirs@) =~= prev.push(entries@[k as int].name@));
        } else {
            let ghost prev = names_view(files@);
            files.push(name);
            assert(names_view(files@) =~= prev.push(entries@[k as int].name@));
        }
        k = k + 1;
    }
    assert(entries@.take(entries.len() as int) =~= entries@);
    (dirs, files)
}

/// The listing page of the directory at request path `uri` holding
/// `entries`: directories first, then files, each group sorted by name.
pub fn listing_page(uri: &str, entries: &Vec<DirEntry>) -> (r: Listing)
    ensures
        r.html@ == listing_html(
            uri@,
            sorted_names(entry_names(entries@, true)),
            sorted_names(entry_names(entries@, false)),
        ),
        r.dir_count == entry_names(entries@, true).len(),
        r.file_count == entry_names(entries@, false).len(),
{
    let (dirs, files) = split_entries(entries);
    let dirs = sort_names(&dirs);
    let files = sort_names(&files);
    proof {
        crate::sort::lemma_sorted_names_law(entry_names(entries@, true));
        crate::sort::lemma_sorted_names_law(entry_names(entries@, false));
    }
    let mut html = String::new();
    html.append("<!doctype html><html><head><meta charset=utf-8><meta name=viewport content=\"width=device-width,initial-scale=1\"><title>serve</title><style>*{box-sizing:border-box}body{margin:0;background:#020617;color:#e2e8f0;font-family:Inter,Arial,sans-serif}.top{position:sticky;top:0;padding:18px;background:#0f172a;border-bottom:1px solid #1e293b;z-index:100}.crumbs{display:flex;flex-wrap:wrap;gap:10px}.crumbs a{background:#082f49;color:#38bdf8;padding:8px 14px;border-radius:12px;text-decoration:none;font-size:14px}.crumbs a:hover{background:#0c4a6e}.wrap{padding:22px}.grid{display:grid;grid-template-columns:repeat(auto-fill,minmax(260px,1fr));gap:14px}.card{display:flex;justify-content:space-between;align-items:center;padding:18px;border-radius:18px;background:#0f172a;border:1px solid #1e293b;text-decoration:none;color:#fff;transition:.15s}.card:hover{transform:translateY(-2px);border-color:#38bdf8;background:#111827}.left{display:flex;gap:12px;align-items:center;overflow:hidden}.icon{font-size:20px}.name{text-overflow:ellipsis;overflow:hidden;white-space:nowrap}.tag{font-size:11px;padding:6px 10px;border-radius:999px}.dir{background:#2563eb}.file{background:#475569}</style></head><body>");
    html.append("<div class=top><div class=crumbs>");
    html.append("<a href=\"/\">root</a>");
    push_crumbs(&mut html, uri);
    html.append("</div></div>");
    html.append("<div class=wrap>");
    html.append("<div class=grid>");
    let u = chars_of(uri);
    if !chars_eq_str(&u, "/") {
        let parent = parent_of(uri);
        html.append("<a class=card href=\"");
        html.append(parent.as_str());
        html.append("\"><div class=left><span class=icon>\u{2b05}\u{fe0f}</span><span class=name>..</span></div><span class=\"tag dir\">UP</span></a>");
    }
    push_cards(&mut html, uri, &dirs, true);
    push_cards(&mut html, uri, &files, false);
    html.append("</div></div></body></html>");
    Listing { html, dir_count: dirs.len(), file_count: files.len() }
}

/// The breadcrumb links are made of slashes and percent-encoded names only:
/// no quote, angle bracket or space can reach the `href` attribute.
pub proof fn lemma_crumb_links_are_encoded(names: Seq<Seq<char>>)
    ensures
        forall|i: int| 0 <= i < crumb_path(names).len() ==>
            #[trigger] crumb_path(names)[i] == '/' || is_encoded_char(crumb_path(names)[i]),
    decreases names.len(),
{
    if names.len() > 0 {
        lemma_crumb_links_are_encoded(names.drop_last());
        lemma_percent_encoded_charset(vstd::utf8::encode_utf8(names.last()));
        let a = crumb_path(names.drop_last());
        let e = percent_encoded(names.last());
        let t = crumb_path(names);
        assert(t == a + seq!['/'] + e);
        assert forall|i: int| 0 <= i < t.len() implies #[trigger] t[i] == '/' || is_encoded_char(t[i]) by {
            if i < a.len() {
                assert(t[i] == a[i]);
            } else if i > a.len() {
                assert(t[i] == e[i - a.len() - 1]);
            }
        }
    }
}

/// The link of an entry of the root directory is `/` and the
/// percent-encoded name: one slash, then letters, digits and `%` only.
pub proof fn lemma_root_entry_links_are_encoded(name: Seq<char>)
    ensures
        entry_href("/"@, name)[0] == '/',
        forall|i: int| 1 <= i < entry_href("/"@, name).len() ==> is_encoded_char(#[trigger] entry_href("/"@, name)[i]),
{
    reveal_strlit("/");
    lemma_percent_encoded_charset(vstd::utf8::encode_utf8(name));
    let e = percent_encoded(name);
    let t = entry_href("/"@, name);
    assert(t == "/"@ + e);
    assert forall|i: int| 1 <= i < t.len() implies is_encoded_char(#[trigger] t[i]) by {
        assert(t[i] == e[i - 1]);
    }
}

/// `trim_end_slashes(s)` is `s` up to its trailing slashes: a prefix of
/// `s`, followed in `s` by slashes only, and not ending in a slash itself.
pub proof fn lemma_trim_end_slashes(s: Seq<char>)
    ensures
        trim_end_slashes(s).len() <= s.len(),
        s.take(trim_end_slashes(s).len() as int) == trim_end_slashes(s),
        forall|i: int| trim_end_slashes(s).len() <= i < s.len() ==> s[i] == '/',
        trim_end_slashes(s).len() > 0 ==> trim_end_slashes(s).last() != '/',
    decreases s.len(),
{
    if s.len() > 0 && s.last() == '/' {
        lemma_trim_end_slashes(s.drop_last());
        let t = trim_end_slashes(s);
        assert(s.take(t.len() as int) =~= s.drop_last().take(t.len() as int));
        assert forall|i: int| t.len() <= i < s.len() implies s[i] == '/' by {
            if i < s.len() - 1 {
                assert(s[i] == s.drop_last()[i]);
            }
        }
    } else {
        assert(s.take(s.len() as int) =~= s);
    }
}

/// The up link goes exactly one level up. Let `t` be the request path
/// without its trailing slashes: when `t` has a `/` after its first
/// character, the link followed by `/` and one last piece free of slashes
/// gives back `t`; otherwise the link is `/`.
pub proof fn lemma_parent_link_one_level_up(uri: Seq<char>)
    ensures
        ({
            let t = trim_end_slashes(uri);
            &&& (exists|k: int| 0 < k < t.len() && t[k] == '/') ==> (exists|seg: Seq<char>|
                !seg.contains('/') && parent_link(uri).len() > 0 && #[trigger] (parent_link(uri) + seq!['/'] + seg) == t)
            &&& !(exists|k: int| 0 < k < t.len() && t[k] == '/') ==> parent_link(uri) == "/"@
        }),
{
    let t = trim_end_slashes(uri);
    lemma_last_index_of_bounds(t, '/');
    let k = last_index_of(t, '/');
    if exists|j: int| 0 < j < t.len() && t[j] == '/' {
        let j = choose|j: int| 0 < j < t.len() && t[j] == '/';
        assert(k >= j);
        let seg = t.skip(k + 1);
        assert(t.take(k) + seq!['/'] + seg =~= t);
        assert forall|i: int| 0 <= i < seg.len() implies seg[i] != '/' by {
            assert(seg[i] == t[k + 1 + i]);
        }
        assert(!seg.contains('/'));
        assert(parent_link(uri) + seq!['/'] + seg == t);
    } else {
        if k > 0 {
            assert(t[k] == '/');
        }
    }
}

} // verus!
