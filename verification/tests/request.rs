use serve::paths::{join, path_lies_under, path_starts_with};
use serve::request::served_target;
use serve::request::{
    attachment_disposition, client_label, content_type, display_name, failure_body,
    failure_status, fallback_target, index_path, is_read_method, request_target, route,
    should_preview, status_class, Failure, Route, StatusClass, PREVIEW_LIMIT,
};

#[test]
fn only_get_and_head_are_served() {
    assert!(is_read_method("GET"));
    assert!(is_read_method("HEAD"));
    assert!(!is_read_method("POST"));
    assert!(!is_read_method("get"));
    assert!(!is_read_method("GETS"));
    assert!(!is_read_method(""));
}

#[test]
fn failure_answers() {
    assert_eq!(failure_status(Failure::NotFound), 404);
    assert_eq!(failure_body(Failure::NotFound), "404 Not Found");
    assert_eq!(failure_status(Failure::MethodNotAllowed), 405);
    assert_eq!(failure_body(Failure::MethodNotAllowed), "Method Not Allowed");
    assert_eq!(failure_status(Failure::Internal), 500);
    assert_eq!(failure_body(Failure::Internal), "500");
}

#[test]
fn status_classes() {
    assert_eq!(status_class(200), StatusClass::Success);
    assert_eq!(status_class(299), StatusClass::Success);
    assert_eq!(status_class(301), StatusClass::Redirection);
    assert_eq!(status_class(404), StatusClass::ClientError);
    assert_eq!(status_class(405), StatusClass::ClientError);
    assert_eq!(status_class(500), StatusClass::Other);
    assert_eq!(status_class(100), StatusClass::Other);
}

#[test]
fn client_labels() {
    assert_eq!(client_label(Some("10.0.0.1")), "10.0.0.1");
    assert_eq!(client_label(None), "local");
}

#[test]
fn request_targets_are_joined_to_the_root() {
    assert_eq!(request_target("/a%20b/c.txt", "/srv"), "/srv/a b/c.txt");
    assert_eq!(request_target("/", "/srv"), "/srv/");
    assert_eq!(request_target("///x", "/srv/"), "/srv/x");
    assert_eq!(request_target("/x", "."), "./x");
    assert_eq!(request_target("/%2Fetc", "/srv"), "/srv/etc");
    assert_eq!(request_target("/%zz", "/srv"), "/srv/%zz");
    assert_eq!(request_target("/%FF", "/srv"), "/srv/\u{FFFD}");
}

#[test]
fn fallback_stays_under_the_root() {
    assert_eq!(fallback_target(Some("/srv/a/b"), "/srv"), "/srv/a/b");
    assert_eq!(fallback_target(Some("/srvx/a"), "/srv"), "/srv");
    assert_eq!(fallback_target(Some("/etc/passwd"), "/srv"), "/srv");
    assert_eq!(fallback_target(None, "/srv"), "/srv");
    assert_eq!(fallback_target(Some("/home/u/site/x"), "."), ".");
    assert_eq!(fallback_target(Some("/srv"), "/srv/"), "/srv");
    assert_eq!(fallback_target(Some("/srv/../etc"), "/srv"), "/srv");
}

#[test]
fn path_prefixes_are_by_component() {
    assert!(path_starts_with("/a/b", "/a"));
    assert!(path_starts_with("/a/b", "/a/"));
    assert!(path_starts_with("/a//b", "/a/./"));
    assert!(!path_starts_with("/ab", "/a"));
    assert!(!path_starts_with("/a", "/a/b"));
    assert!(path_starts_with("./x", "."));
    assert!(!path_starts_with("x", "."));
    assert!(!path_starts_with("/a/../b", "/b"));
}

#[test]
fn joining_paths() {
    assert_eq!(join("/srv", "index.html"), "/srv/index.html");
    assert_eq!(join("/srv/", "index.html"), "/srv/index.html");
    assert_eq!(join("", "a"), "a");
    assert_eq!(join("/srv", "/etc"), "/etc");
    assert_eq!(index_path("/srv/docs"), "/srv/docs/index.html");
}

#[test]
fn routes() {
    assert_eq!(route(false, false, false, false, ""), Route::NotFound);
    assert_eq!(route(false, true, true, false, "download=1"), Route::NotFound);
    assert_eq!(route(true, true, true, false, ""), Route::IndexFile);
    assert_eq!(route(true, true, true, true, ""), Route::Listing);
    assert_eq!(route(true, true, false, false, ""), Route::Listing);
    assert_eq!(route(true, true, false, false, "download=1"), Route::Listing);
    assert_eq!(route(true, false, false, false, "download=1"), Route::Download);
    assert_eq!(route(true, false, false, false, "a=2&download=10"), Route::Download);
    assert_eq!(route(true, false, false, false, "download=0"), Route::Preview);
    assert_eq!(route(true, false, true, false, ""), Route::Preview);
}

#[test]
fn preview_decisions() {
    assert!(should_preview(Some("main.rs"), 10));
    assert!(should_preview(Some("README.MD"), 10));
    assert!(should_preview(Some("a.b.json"), PREVIEW_LIMIT));
    assert!(!should_preview(Some("a.txt"), PREVIEW_LIMIT + 1));
    assert!(!should_preview(Some("image.png"), 1));
    assert!(!should_preview(Some("Makefile"), 1));
    assert!(!should_preview(Some(".txt"), 1));
    assert!(!should_preview(Some("notes."), 1));
    assert!(!should_preview(None, 1));
    assert!(should_preview(Some("x.\u{212A}t"), 1));
}

#[test]
fn content_types() {
    assert_eq!(content_type(Some("index.html")), "text/html");
    assert_eq!(content_type(Some("photo.PNG")), "image/png");
    assert_eq!(content_type(Some("archive")), "application/octet-stream");
    assert_eq!(content_type(Some("x.")), "application/octet-stream");
    assert_eq!(content_type(Some("x.nosuchext")), "application/octet-stream");
    assert_eq!(content_type(None), "application/octet-stream");
}

#[test]
fn download_headers() {
    assert_eq!(attachment_disposition(Some("a b.txt")), "attachment; filename=\"a b.txt\"");
    assert_eq!(attachment_disposition(None), "attachment; filename=\"file\"");
    assert_eq!(display_name(Some("x")), "x");
    assert_eq!(display_name(None), "file");
}

#[test]
fn served_targets() {
    assert_eq!(served_target("/srv/a", true, None, "/srv"), "/srv/a");
    assert_eq!(served_target("/srv/../etc", true, Some("/etc"), "/srv"), "/srv");
    assert_eq!(served_target("/a/..", true, Some("/"), "/a"), "/a");
    assert_eq!(served_target("/srv/x/../y", true, Some("/srv/y"), "/srv"), "/srv/y");
    assert_eq!(served_target("./a/../../etc", true, Some("/etc"), "."), ".");
    assert_eq!(served_target("./docs/a.txt", true, Some("/home/u/docs/a.txt"), "."), "./docs/a.txt");
    assert_eq!(served_target("/srv/a", true, Some("/srv/a"), "/srv/"), "/srv/a");
    assert_eq!(served_target("/srv/x", false, Some("/srv/x"), "/srv"), "/srv/x");
    assert_eq!(served_target("/srv/../etc", false, Some("/etc"), "/srv"), "/srv");
    assert_eq!(served_target("/srv/nope", false, None, "/srv"), "/srv");
}

#[test]
fn percent_decoding_of_request_paths() {
    assert_eq!(request_target("/%C3%A9t%c3%a9", "/srv"), "/srv/été");
    assert_eq!(request_target("/%41%4a", "/srv"), "/srv/AJ");
    assert_eq!(request_target("/a%2", "/srv"), "/srv/a%2");
}

#[test]
fn paths_lying_under_the_root() {
    assert!(path_lies_under("/srv", "/srv"));
    assert!(path_lies_under("/srv/a/b", "/srv"));
    assert!(path_lies_under("/srv/./a", "/srv/"));
    assert!(!path_lies_under("/srv/a/../b", "/srv"));
    assert!(!path_lies_under("/srv/..", "/srv"));
    assert!(!path_lies_under("/etc", "/srv"));
    assert!(path_lies_under("../site/x", "../site"));
    assert!(!path_lies_under("/srvx", "/srv"));
}

#[test]
fn request_traversal_is_not_served() {
    let joined = request_target("/..%2F..%2Fetc%2Fpasswd", "/srv/www");
    assert_eq!(joined, "/srv/www/../../etc/passwd");
    assert_eq!(served_target(&joined, true, Some("/etc/passwd"), "/srv/www"), "/srv/www");
    let joined = request_target("/..", "/a");
    assert_eq!(served_target(&joined, true, Some("/"), "/a"), "/a");
}

#[test]
fn preview_limit_and_case() {
    assert!(should_preview(Some("notes.MD"), 4194304));
    assert!(!should_preview(Some("notes.MD"), 4194305));
    assert!(should_preview(Some("a.TxT"), 0));
}
