//! Deciding what a request is answered with: the accepted methods, the
//! file-system target of a request path, the route taken for it, whether a
//! file is shown as a preview page, and the headers of a raw file.

use vstd::prelude::*;
use crate::encoding::{percent_decode_lossy, percent_decoded_bytes, percent_decoded_lossy};
use vstd::utf8::{decode_utf8, encode_utf8, valid_utf8};
use crate::paths::{last_index_of, extension_of, file_extension, join, joined, lies_under, path_lies_under};
use crate::text::{
    ascii_lowercase, chars_eq_str, chars_of, contains_str, contains_text, is_ascii_text, push_chars, string_of, to_lowercase,
    trim_start_slashes, trimmed_start, unicode_lowercase,
};

verus! {

/// Only `GET` and `HEAD` requests are served; every other method is
/// answered with 405.
pub fn is_read_method(method: &str) -> (r: bool)
    ensures
        r == (method@ == "GET"@ || method@ == "HEAD"@),
{
    let m = chars_of(method);
    chars_eq_str(&m, "GET") || chars_eq_str(&m, "HEAD")
}

/// The answers that carry a short plain-text body.
#[derive(Clone, Copy, Debug, PartialEq, Eq, Structural)]
pub enum Failure {
    NotFound,
    MethodNotAllowed,
    Internal,
}

/// The HTTP status code of a failure answer.
pub fn failure_status(f: Failure) -> (code: u16)
    ensures
        f == Failure::NotFound ==> code == 404,
        f == Failure::MethodNotAllowed ==> code == 405,
        f == Failure::Internal ==> code == 500,
{
    match f {
        Failure::NotFound => 404,
        Failure::MethodNotAllowed => 405,
        Failure::Internal => 500,
    }
}

/// The plain-text body of a failure answer.
pub fn failure_body(f: Failure) -> (body: &'static str)
    ensures
        f == Failure::NotFound ==> body@ == "404 Not Found"@,
        f == Failure::MethodNotAllowed ==> body@ == "Method Not Allowed"@,
        f == Failure::Internal ==> body@ == "500"@,
{
    match f {
        Failure::NotFound => "404 Not Found",
        Failure::MethodNotAllowed => "Method Not Allowed",
        Failure::Internal => "500",
    }
}

/// How a logged status code is coloured.
#[derive(Clone, Copy, Debug, PartialEq, Eq, Structural)]
pub enum StatusClass {
    Success,
    Redirection,
    ClientError,
    Other,
}

/// Classifies a status code for the request log: 2xx, 3xx, 4xx, and the
/// rest.
pub fn status_class(code: u16) -> (c: StatusClass)
    ensures
        200 <= code <= 299 ==> c == StatusClass::Success,
        300 <= code <= 399 ==> c == StatusClass::Redirection,
        400 <= code <= 499 ==> c == StatusClass::ClientError,
        (code < 200 || code > 499) ==> c == StatusClass::Other,
{
    if 200 <= code && code <= 299 {
        StatusClass::Success
    } else if 300 <= code && code <= 399 {
        StatusClass::Redirection
    } else if 400 <= code && code <= 499 {
        StatusClass::ClientError
    } else {
        StatusClass::Other
    }
}

/// The client named in the request log: the `x-forwarded-for` header when
/// it is present and readable, otherwise `local`.
pub fn client_label(forwarded_for: Option<&str>) -> (r: String)
    ensures
        forwarded_for matches Some(v) ==> r@ == v@,
        forwarded_for is None ==> r@ == "local"@,
{
    match forwarded_for {
        Some(v) => string_of(&chars_of(v)),
        None => string_of(&chars_of("local")),
    }
}

/// The path a request names, before any check on the file system: the
/// percent-decoded request path, without its leading slashes, joined to the
/// served root.
pub open spec fn request_target_spec(uri: Seq<char>, root: Seq<char>) -> Seq<char> {
    joined(root, trim_start_slashes(percent_decoded_lossy(uri)))
}

/// The file-system path first tried for the request path `uri`.
pub fn request_target(uri: &str, root: &str) -> (r: String)
    ensures
        r@ == request_target_spec(uri@, root@),
        !uri@.contains('%') ==> r@ == joined(root@, trim_start_slashes(uri@)),
        valid_utf8(percent_decoded_bytes(encode_utf8(uri@))) ==> r@ == joined(
            root@,
            trim_start_slashes(decode_utf8(percent_decoded_bytes(encode_utf8(uri@)))),
        ),
{
    let decoded = percent_decode_lossy(uri);
    let dv = chars_of(decoded.as_str());
    let rel = string_of(&trimmed_start(&dv));
    join(root, rel.as_str())
}

/// Where a request is served from when the path first tried cannot be
/// used: its canonical form when that could be had and lies under the
/// served root, the root itself otherwise.
pub fn fallback_target(canonical: Option<&str>, root: &str) -> (r: String)
    ensures
        canonical matches Some(p) ==> (lies_under(p@, root@) ==> r@ == p@),
        canonical matches Some(p) ==> (!lies_under(p@, root@) ==> r@ == root@),
        canonical is None ==> r@ == root@,
        r@ == root@ || lies_under(r@, root@),
{
    match canonical {
        Some(p) => {
            if path_lies_under(p, root) {
                string_of(&chars_of(p))
            } else {
                string_of(&chars_of(root))
            }
        },
        None => string_of(&chars_of(root)),
    }
}

/// The path a request is served from: the path first tried when it exists
/// and lies under the root, otherwise the fallback (the canonical form of
/// the path first tried when it lies under the root, else the root). Every
/// answer is the root or lies under it.
pub fn served_target(joined: &str, joined_exists: bool, canonical: Option<&str>, root: &str) -> (r: String)
    ensures
        joined_exists && lies_under(joined@, root@) ==> r@ == joined@,
        !(joined_exists && lies_under(joined@, root@)) ==> (canonical matches Some(p) ==> (lies_under(p@, root@) ==> r@ == p@)),
        !(joined_exists && lies_under(joined@, root@)) ==> (canonical matches Some(p) ==> (!lies_under(p@, root@) ==> r@ == root@)),
        !(joined_exists && lies_under(joined@, root@)) && canonical is None ==> r@ == root@,
        r@ == root@ || lies_under(r@, root@),
{
    if joined_exists && path_lies_under(joined, root) {
        string_of(&chars_of(joined))
    } else {
        fallback_target(canonical, root)
    }
}

/// What a request for an existing or missing path is answered with.
#[derive(Clone, Copy, Debug, PartialEq, Eq, Structural)]
pub enum Route {
    /// The path does not exist: 404.
    NotFound,
    /// A directory with an `index.html` that is not ignored: that file.
    IndexFile,
    /// A directory shown as a listing.
    Listing,
    /// A file asked for with `download=1`: sent as an attachment.
    Download,
    /// A file shown as a preview page when it can be, raw otherwise.
    Preview,
}

/// The query part that asks for a download.
pub open spec fn asks_download(query: Seq<char>) -> bool {
    contains_text(query, "download=1"@)
}

/// Chooses the route for a request from what the file system says of its
/// target.
pub fn route(exists: bool, is_dir: bool, index_exists: bool, ignore_index: bool, query: &str) -> (r: Route)
    ensures
        !exists ==> r == Route::NotFound,
        exists && is_dir && index_exists && !ignore_index ==> r == Route::IndexFile,
        exists && is_dir && !(index_exists && !ignore_index) ==> r == Route::Listing,
        exists && !is_dir && asks_download(query@) ==> r == Route::Download,
        exists && !is_dir && !asks_download(query@) ==> r == Route::Preview,
{
    if !exists {
        return Route::NotFound;
    }
    if is_dir {
        if index_exists && !ignore_index {
            return Route::IndexFile;
        }
        return Route::Listing;
    }
    if contains_str(query, "download=1") {
        return Route::Download;
    }
    Route::Preview
}

/// The index file of a directory.
pub fn index_path(dir: &str) -> (r: String)
    ensures
        r@ == joined(dir@, "index.html"@),
{
    join(dir, "index.html")
}

/// Files larger than this many bytes are never shown as a preview page.
pub const PREVIEW_LIMIT: u64 = 1024 * 1024 * 4;

/// The extensions, in lower case, of the files shown as a preview page.
pub open spec fn is_previewable_extension(e: Seq<char>) -> bool {
    ||| e == "txt"@ ||| e == "md"@ ||| e == "rs"@ ||| e == "js"@ ||| e == "ts"@
    ||| e == "json"@ ||| e == "html"@ ||| e == "css"@ ||| e == "toml"@ ||| e == "yaml"@
    ||| e == "yml"@ ||| e == "py"@ ||| e == "java"@ ||| e == "c"@ ||| e == "cpp"@
    ||| e == "h"@ ||| e == "hpp"@ ||| e == "go"@ ||| e == "sh"@ ||| e == "php"@
    ||| e == "xml"@ ||| e == "swift"@ ||| e == "kt"@ ||| e == "lua"@ ||| e == "sql"@
    ||| e == "rb"@
}

fn previewable_extension(e: &Vec<char>) -> (r: bool)
    ensures
        r == is_previewable_extension(e@),
{
    chars_eq_str(e, "txt") || chars_eq_str(e, "md") || chars_eq_str(e, "rs")
        || chars_eq_str(e, "js") || chars_eq_str(e, "ts") || chars_eq_str(e, "json")
        || chars_eq_str(e, "html") || chars_eq_str(e, "css") || chars_eq_str(e, "toml")
        || chars_eq_str(e, "yaml") || chars_eq_str(e, "yml") || chars_eq_str(e, "py")
        || chars_eq_str(e, "java") || chars_eq_str(e, "c") || chars_eq_str(e, "cpp")
        || chars_eq_str(e, "h") || chars_eq_str(e, "hpp") || chars_eq_str(e, "go")
        || chars_eq_str(e, "sh") || chars_eq_str(e, "php") || chars_eq_str(e, "xml")
        || chars_eq_str(e, "swift") || chars_eq_str(e, "kt") || chars_eq_str(e, "lua")
        || chars_eq_str(e, "sql") || chars_eq_str(e, "rb")
}

/// The extension a file is judged by: its extension in lower case, or the
/// empty text when it has none.
pub open spec fn judged_extension(file_name: Option<Seq<char>>) -> Seq<char> {
    match file_name {
        Some(n) => match extension_of(n) {
            Some(e) => unicode_lowercase(e),
            None => seq![],
        },
        None => seq![],
    }
}

/// For a name in ASCII: its extension with `A`..`Z` lower-cased, or the
/// empty text when it has none.
pub open spec fn ascii_judged_extension(n: Seq<char>) -> Seq<char> {
    match extension_of(n) {
        Some(e) => ascii_lowercase(e),
        None => seq![],
    }
}

/// Whether a file of this name and size is shown as a preview page (if it
/// reads as text); otherwise it is sent raw. For ASCII names the extension
/// is compared regardless of case.
pub fn should_preview(file_name: Option<&str>, size: u64) -> (r: bool)
    ensures
        r == (is_previewable_extension(
            judged_extension(
                match file_name {
                    Some(n) => Some(n@),
                    None => None,
                },
            ),
        ) && size <= PREVIEW_LIMIT),
        file_name matches Some(n) ==> (is_ascii_text(n@) ==> r == (is_previewable_extension(
            ascii_judged_extension(n@),
        ) && size <= PREVIEW_LIMIT)),
{
    let ext: Vec<char> = match file_name {
        Some(n) => {
            let nv = chars_of(n);
            match file_extension(&nv) {
                Some(e) => {
                    let es = string_of(&e);
                    proof {
                        lemma_extension_is_suffix(n@);
                        if is_ascii_text(n@) {
                            assert forall|i: int| 0 <= i < es@.len() implies (#[trigger] es@[i] as u32) < 128 by {
                                let k = last_index_of(n@, '.');
                                assert(es@[i] == n@[k + 1 + i]);
                            }
                        }
                    }
                    chars_of(to_lowercase(es.as_str()).as_str())
                },
                None => Vec::new(),
            }
        },
        None => Vec::new(),
    };
    proof {
        if file_name is Some {
            let n = file_name.unwrap()@;
            if is_ascii_text(n) && extension_of(n) is None {
                assert(ext@ =~= ascii_judged_extension(n));
            }
        }
    }
    let previewable = previewable_extension(&ext);
    if !previewable || size > PREVIEW_LIMIT {
        return false;
    }
    true
}

proof fn lemma_extension_is_suffix(n: Seq<char>)
    ensures
        extension_of(n) matches Some(e) ==> ({
            let k = last_index_of(n, '.');
            0 < k < n.len() && e == n.skip(k + 1)
        }),
{
    crate::paths::lemma_last_index_of_bounds(n, '.');
}

/// The name shown for a file: its file name, or `file` when the path has
/// none.
pub open spec fn shown_name(file_name: Option<Seq<char>>) -> Seq<char> {
    match file_name {
        Some(n) => n,
        None => "file"@,
    }
}

/// The name shown for a file.
pub fn display_name(file_name: Option<&str>) -> (r: String)
    ensures
        r@ == shown_name(
            match file_name {
                Some(n) => Some(n@),
                None => None,
            },
        ),
{
    match file_name {
        Some(n) => string_of(&chars_of(n)),
        None => string_of(&chars_of("file")),
    }
}

/// The `Content-Disposition` value of a download.
pub fn attachment_disposition(file_name: Option<&str>) -> (r: String)
    ensures
        r@ == "attachment; filename=\""@ + shown_name(
            match file_name {
                Some(n) => Some(n@),
                None => None,
            },
        ) + "\""@,
{
    let mut r = string_of(&chars_of("attachment; filename=\""));
    let name = display_name(file_name);
    push_chars(&mut r, &chars_of(name.as_str()));
    push_chars(&mut r, &chars_of("\""));
    r
}

/// Name for what `mime_guess::from_ext(ext).first_or_octet_stream()`
/// renders as text: the first media type that the crate's table lists for
/// the extension, compared without regard to case, or
/// `application/octet-stream`.
pub uninterp spec fn media_type_for_extension(ext: Seq<char>) -> Seq<char>;

/// Calls `mime_guess::from_ext` and `first_or_octet_stream`. The result is
/// named; the one fact stated besides is what the source shows for an empty
/// extension: no guess, hence `application/octet-stream`.
#[verifier::external_body]
fn guess_media_type(ext: &str) -> (r: String)
    ensures
        r@ == media_type_for_extension(ext@),
        ext@.len() == 0 ==> r@ == "application/octet-stream"@,
{
    mime_guess::from_ext(ext).first_or_octet_stream().as_ref().to_string()
}

/// The media type a raw file is sent with: guessed from the extension of
/// its name, `application/octet-stream` when there is none.
pub open spec fn content_type_spec(file_name: Option<Seq<char>>) -> Seq<char> {
    match file_name {
        Some(n) => match extension_of(n) {
            Some(e) => media_type_for_extension(e),
            None => "application/octet-stream"@,
        },
        None => "application/octet-stream"@,
    }
}

/// The `Content-Type` of a raw file.
pub fn content_type(file_name: Option<&str>) -> (r: String)
    ensures
        r@ == content_type_spec(
            match file_name {
                Some(n) => Some(n@),
                None => None,
            },
        ),
{
    match file_name {
        Some(n) => {
            let nv = chars_of(n);
            match file_extension(&nv) {
                Some(e) => {
                    let es = string_of(&e);
                    guess_media_type(es.as_str())
                },
                None => string_of(&chars_of("application/octet-stream")),
            }
        },
        None => string_of(&chars_of("application/octet-stream")),
    }
}

/// The extension of a name `stem.e`, where `e` holds no `.` and `stem` is
/// not empty, is `e`: the text after the last `.`.
pub proof fn lemma_extension_after_last_dot(stem: Seq<char>, e: Seq<char>)
    requires
        stem.len() > 0,
        !e.contains('.'),
        stem + seq!['.'] + e != seq!['.', '.'],
    ensures
        extension_of(stem + seq!['.'] + e) == Some(e),
{
    let n = stem + seq!['.'] + e;
    crate::paths::lemma_last_index_of_bounds(n, '.');
    let k = last_index_of(n, '.');
    assert(n[stem.len() as int] == '.');
    assert(k >= stem.len());
    if k > stem.len() {
        assert(n[k] == e[k - stem.len() - 1]);
        assert(e.contains('.'));
    }
    assert(n.skip(k + 1) =~= e);
}

/// A name with no `.` after its first character has no extension.
pub proof fn lemma_no_extension(n: Seq<char>)
    requires
        forall|i: int| 0 < i < n.len() ==> n[i] != '.',
    ensures
        extension_of(n) is None,
{
    crate::paths::lemma_last_index_of_bounds(n, '.');
}

/// The media type of a raw file depends on its name only through the text
/// after the last `.`: a name `stem.e` (with `e` free of dots and `stem` not
/// empty) is sent as the type guessed for `e`.
pub proof fn lemma_content_type_by_last_extension(stem: Seq<char>, e: Seq<char>)
    requires
        stem.len() > 0,
        !e.contains('.'),
        stem + seq!['.'] + e != seq!['.', '.'],
    ensures
        content_type_spec(Some(stem + seq!['.'] + e)) == media_type_for_extension(e),
{
    lemma_extension_after_last_dot(stem, e);
}

/// A name with no `.` after its first character is sent as
/// `application/octet-stream`.
pub proof fn lemma_content_type_without_extension(n: Seq<char>)
    requires
        forall|i: int| 0 < i < n.len() ==> n[i] != '.',
    ensures
        content_type_spec(Some(n)) == "application/octet-stream"@,
{
    lemma_no_extension(n);
}

/// Which ASCII files are previewed: a name `stem.e` (with `e` free of dots
/// and `stem` not empty) of at most 4 MiB is previewed exactly when `e`,
/// lower-cased, is one of txt md rs js ts json html css toml yaml yml py java
/// c cpp h hpp go sh php xml swift kt lua sql rb.
pub proof fn lemma_previewed_extensions(stem: Seq<char>, e: Seq<char>, size: u64)
    requires
        stem.len() > 0,
        !e.contains('.'),
        stem + seq!['.'] + e != seq!['.', '.'],
    ensures
        ({
            let l = ascii_lowercase(e);
            (is_previewable_extension(ascii_judged_extension(stem + seq!['.'] + e)) && size <= PREVIEW_LIMIT)
                == ((l == "txt"@ || l == "md"@ || l == "rs"@ || l == "js"@ || l == "ts"@ || l == "json"@ || l == "html"@ || l == "css"@ || l == "toml"@ || l == "yaml"@ || l == "yml"@ || l == "py"@ || l == "java"@ || l == "c"@ || l == "cpp"@ || l == "h"@ || l == "hpp"@ || l == "go"@ || l == "sh"@ || l == "php"@ || l == "xml"@ || l == "swift"@ || l == "kt"@ || l == "lua"@ || l == "sql"@ || l == "rb"@) && size <= 4194304)
        }),
{
    lemma_extension_after_last_dot(stem, e);
}

} // verus!
