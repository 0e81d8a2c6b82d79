use std::path::Path;

use guided_review::{content_type, index_fallback, resolve};

#[test]
fn rejects_dot_segments_that_would_escape_the_served_directory() {
    let dir = "/served";

    assert_eq!(resolve(dir, "/../secret"), None);
    assert_eq!(resolve(dir, "/nested/../../secret"), None);
    assert_eq!(resolve(dir, "/.hidden"), None);
}

#[test]
fn maps_plain_targets_below_the_served_directory() {
    let dir = "/served";

    assert_eq!(
        resolve(dir, "/owner-repo-1.html?live=1"),
        Some(
            Path::new(dir)
                .join("owner-repo-1.html")
                .to_string_lossy()
                .into_owned()
        )
    );
}

#[test]
fn resolve_joins_segments_like_path_push() {
    assert_eq!(resolve("/served", "/"), Some("/served".to_owned()));
    assert_eq!(resolve("/served", ""), Some("/served".to_owned()));
    assert_eq!(
        resolve("/served/", "//a//b/#frag"),
        Some("/served/a/b".to_owned())
    );
    assert_eq!(resolve("", "/a/b"), Some("a/b".to_owned()));
    assert_eq!(resolve("/served", "/a\\b"), None);
    assert_eq!(resolve("/served", "/a/%2e%2e/b"), Some("/served/a/%2e%2e/b".to_owned()));
    assert_eq!(resolve("/served", "/ok?/../x"), Some("/served/ok".to_owned()));
}

#[test]
fn directories_fall_back_to_their_index() {
    assert_eq!(
        index_fallback("/served/docs".to_owned(), true),
        "/served/docs/index.html"
    );
    assert_eq!(index_fallback("/served/".to_owned(), true), "/served/index.html");
    assert_eq!(index_fallback("/served/a.html".to_owned(), false), "/served/a.html");
}

#[test]
fn content_type_follows_the_extension() {
    assert_eq!(content_type("/style.css"), "text/css; charset=utf-8");
    assert_eq!(content_type("/app.js?v=2"), "text/javascript; charset=utf-8");
    assert_eq!(content_type("/data.json#top"), "application/json");
    assert_eq!(content_type("/logo.svg"), "image/svg+xml");
    assert_eq!(content_type("/logo.png"), "image/png");
    assert_eq!(content_type("/index.html"), "text/html; charset=utf-8");
    assert_eq!(content_type("/"), "text/html; charset=utf-8");
    assert_eq!(content_type("css"), "text/css; charset=utf-8");
    assert_eq!(content_type("/a.css.map"), "text/html; charset=utf-8");
}
