use uwgit::handlers::util::path_within;
use std::path::{Component, Path};

use uwgit::handlers::util::{
    append_page, append_ref, build_page_links, build_pager, build_path_components, content_type_for_extension,
    extension, file_name, is_safe_ref_name, is_safe_repo_name, is_safe_repo_path, lowercase_extension, parse_ref,
    to_ascii_lowercase, total_pages, PAGE_SIZE,
};
use uwgit::handlers::errors::AppError;

fn std_safe_repo_name(name: &str) -> bool {
    if name.is_empty() {
        return false;
    }
    let mut components = Path::new(name).components();
    matches!(components.next(), Some(Component::Normal(_))) && components.next().is_none()
}

fn std_safe_repo_path(path: &str) -> bool {
    if path.is_empty() {
        return true;
    }
    Path::new(path).components().all(|c| matches!(c, Component::Normal(_)))
}

fn sample_paths() -> Vec<&'static str> {
    vec![
        "", "a", "a/b", "/a", "a/../b", "..", "../a", "a/..", ".", "./a", "a/./b", "a/.", "a//b", "a/", "//",
        "/", ".a", "..a", "a..", "a/.../b", "src/main.rs", "./", "a/b/", ".hidden/x", "x/..y", "\\..", "a\\b",
        "../", "/..", "a/b/../../c", "ü/ß", " ", "a b",
    ]
}

#[test]
fn repo_names_match_std_paths() {
    for p in sample_paths() {
        assert_eq!(is_safe_repo_name(p), std_safe_repo_name(p), "name {:?}", p);
    }
}

#[test]
fn repo_paths_match_std_paths() {
    for p in sample_paths() {
        assert_eq!(is_safe_repo_path(p), std_safe_repo_path(p), "path {:?}", p);
    }
}

#[test]
fn ref_names() {
    assert!(is_safe_ref_name("main"));
    assert!(is_safe_ref_name("refs/heads/feature-1"));
    assert!(!is_safe_ref_name(""));
    assert!(!is_safe_ref_name("a b"));
    assert!(!is_safe_ref_name("a\tb"));
    assert!(!is_safe_ref_name("a\u{7f}"));
    assert!(!is_safe_ref_name("a\u{2003}b"));
    assert!(!is_safe_ref_name("x\u{85}"));
    for c in ['\u{0}', '\u{1f}', '\u{a0}', '\u{1680}', '\u{2028}', '\u{3000}', 'a', 'é', '漢'] {
        let s = format!("x{}y", c);
        let expected = !(c.is_control() || c.is_whitespace());
        assert_eq!(is_safe_ref_name(&s), expected, "char {:?}", c);
    }
}

#[test]
fn parsing_refs() {
    assert!(matches!(parse_ref(None), Ok((d, None)) if d.is_empty()));
    assert!(matches!(parse_ref(Some("HEAD".to_string())), Ok((d, None)) if d.is_empty()));
    match parse_ref(Some("main".to_string())) {
        Ok((d, Some(g))) => {
            assert_eq!(d, "main");
            assert_eq!(g, "main");
        }
        _ => panic!("main is a valid reference"),
    }
    assert!(matches!(parse_ref(Some("bad ref".to_string())), Err(AppError::BadRequest)));
    assert!(matches!(parse_ref(Some(String::new())), Err(AppError::BadRequest)));
}

#[test]
fn appending_parameters() {
    assert_eq!(append_ref("/r/log".to_string(), ""), "/r/log");
    assert_eq!(append_ref("/r/log".to_string(), "dev"), "/r/log?ref=dev");
    assert_eq!(append_ref("/r/tree?path=a".to_string(), "dev"), "/r/tree?path=a&ref=dev");
    assert_eq!(append_page("/r/log".to_string(), 1), "/r/log");
    assert_eq!(append_page("/r/log".to_string(), 0), "/r/log");
    assert_eq!(append_page("/r/log".to_string(), 3), "/r/log?page=3");
    assert_eq!(append_page("/r/log?ref=x".to_string(), 12), "/r/log?ref=x&page=12");
}

#[test]
fn counting_pages() {
    assert_eq!(total_pages(0, PAGE_SIZE), 1);
    assert_eq!(total_pages(1, PAGE_SIZE), 1);
    assert_eq!(total_pages(20, PAGE_SIZE), 1);
    assert_eq!(total_pages(21, PAGE_SIZE), 2);
    assert_eq!(total_pages(40, PAGE_SIZE), 2);
    assert_eq!(total_pages(41, PAGE_SIZE), 3);
    assert_eq!(total_pages(usize::MAX, 1), usize::MAX);
    for total in 0..200usize {
        for size in 1..30usize {
            assert_eq!(total_pages(total, size), total.div_ceil(size).max(1));
        }
    }
}

fn labels(base: &str, current: usize, total: usize) -> Vec<String> {
    build_page_links(base, "", current, total)
        .into_iter()
        .map(|l| if l.is_current { format!("[{}]", l.label) } else { l.label })
        .collect()
}

#[test]
fn page_link_windows() {
    assert!(build_page_links("/r/log", "", 1, 1).is_empty());
    assert!(build_page_links("/r/log", "", 1, 0).is_empty());
    assert_eq!(labels("/r/log", 1, 2), vec!["[1]", "2"]);
    assert_eq!(labels("/r/log", 1, 10), vec!["[1]", "2", "3", "...", "10"]);
    assert_eq!(labels("/r/log", 5, 10), vec!["1", "...", "3", "4", "[5]", "6", "7", "...", "10"]);
    assert_eq!(labels("/r/log", 4, 10), vec!["1", "2", "3", "[4]", "5", "6", "...", "10"]);
    assert_eq!(labels("/r/log", 10, 10), vec!["1", "...", "8", "9", "[10]"]);
    assert_eq!(labels("/r/log", 7, 10), vec!["1", "...", "5", "6", "[7]", "8", "9", "10"]);
    assert_eq!(labels("/r/log", 30, 10), vec!["1", "...", "28"]);
}

#[test]
fn page_link_targets() {
    let links = build_page_links("/r/log", "dev", 2, 3);
    let hrefs: Vec<String> = links.iter().map(|l| l.href.clone()).collect();
    assert_eq!(hrefs, vec!["/r/log?ref=dev", "/r/log?ref=dev&page=2", "/r/log?ref=dev&page=3"]);
    let gap = &build_page_links("/r/log", "", 9, 20)[1];
    assert!(gap.is_ellipsis);
    assert_eq!(gap.label, "...");
    assert_eq!(gap.href, "");
}

#[test]
fn pagers() {
    let p = build_pager("/r/refs", "", 1, 3);
    assert!(!p.has_prev);
    assert!(p.has_next);
    assert_eq!(p.prev_href, "");
    assert_eq!(p.next_href, "/r/refs?page=2");
    let p = build_pager("/r/refs", "v1", 3, 3);
    assert!(p.has_prev);
    assert!(!p.has_next);
    assert_eq!(p.prev_href, "/r/refs?ref=v1&page=2");
    assert_eq!(p.next_href, "");
    let p = build_pager("/r/refs", "", 2, 3);
    assert_eq!(p.prev_href, "/r/refs");
}

#[test]
fn path_components_link_their_prefixes() {
    let parts = build_path_components("repo", "src/bin/main.rs", "dev", false);
    let names: Vec<&str> = parts.iter().map(|c| c.name.as_str()).collect();
    assert_eq!(names, vec!["src", "bin", "main.rs"]);
    assert_eq!(parts[0].href.as_deref(), Some("/repo/tree?path=src&ref=dev"));
    assert_eq!(parts[1].href.as_deref(), Some("/repo/tree?path=src/bin&ref=dev"));
    assert_eq!(parts[2].href, None);
    let linked = build_path_components("repo", "src/bin", "", true);
    assert_eq!(linked[1].href.as_deref(), Some("/repo/tree?path=src/bin"));
    assert!(build_path_components("repo", "", "", true).is_empty());
    let odd = build_path_components("repo", "a//b/", "", true);
    let names: Vec<&str> = odd.iter().map(|c| c.name.as_str()).collect();
    assert_eq!(names, vec!["a", "", "b", ""]);
    assert_eq!(odd[3].href.as_deref(), Some("/repo/tree?path=a//b/"));
}

#[test]
fn media_types() {
    assert_eq!(content_type_for_extension("png"), "image/png");
    assert_eq!(content_type_for_extension("jpg"), "image/jpeg");
    assert_eq!(content_type_for_extension("jpeg"), "image/jpeg");
    assert_eq!(content_type_for_extension("gif"), "image/gif");
    assert_eq!(content_type_for_extension("svg"), "image/svg+xml");
    assert_eq!(content_type_for_extension("webp"), "image/webp");
    assert_eq!(content_type_for_extension("ico"), "image/x-icon");
    assert_eq!(content_type_for_extension("bmp"), "image/bmp");
    assert_eq!(content_type_for_extension("avif"), "image/avif");
    assert_eq!(content_type_for_extension("PNG"), "text/plain");
    assert_eq!(content_type_for_extension("rs"), "text/plain");
    assert_eq!(content_type_for_extension(""), "text/plain");
}

#[test]
fn names_and_extensions_match_std_paths() {
    let samples = [
        "a.txt", "dir/a.tar.gz", ".bashrc", "noext", "dir/", "a/..", "..", ".", "a.", "a/b.c/d", "/x.png",
        "x.PNG", "a//b.rs", "a/./", "ü.md", "..a", "a..b",
    ];
    for s in samples {
        let p = Path::new(s);
        assert_eq!(file_name(s).as_deref(), p.file_name().and_then(|n| n.to_str()), "file name of {:?}", s);
        assert_eq!(extension(s).as_deref(), p.extension().and_then(|n| n.to_str()), "extension of {:?}", s);
        let lower = p.extension().and_then(|e| e.to_str()).unwrap_or("").to_ascii_lowercase();
        assert_eq!(lowercase_extension(s), lower, "lower-case extension of {:?}", s);
    }
    assert_eq!(to_ascii_lowercase("ÄbC"), "Äbc");
}

#[test]
fn single_pages_have_no_links_whatever_the_current_page() {
    for current in [0usize, 1, 2, 7, usize::MAX - 1, usize::MAX] {
        assert!(build_page_links("/r/log", "", current, 1).is_empty());
        assert!(build_page_links("/r/log", "", current, 0).is_empty());
        assert!(build_pager("/r/log", "", current, 1).page_links.is_empty());
    }
    let p = build_pager("/r/log", "", usize::MAX, 1);
    assert!(p.has_prev);
    assert!(!p.has_next);
}

#[test]
fn containment_follows_path_components() {
    let cases = [
        ("/srv/git", "/srv/git/repo"),
        ("/srv/git", "/srv/git"),
        ("/srv/git", "/srv/gitx/repo"),
        ("/srv/git", "/srv"),
        ("/srv/git/", "/srv/git/repo/"),
        ("/srv//git", "/srv/git/./repo"),
        ("/srv/git", "srv/git/repo"),
        ("srv", "srv/a"),
        ("./srv", "srv/a"),
        ("./srv", "./srv/a"),
        (".", "./a"),
        (".", "a"),
        ("", "a"),
        ("", "/a"),
        ("/", "/a"),
        ("/a", "/"),
        ("/srv/git", "/srv/git/../etc"),
        ("a/..", "a/../b"),
        ("a", "a/.."),
    ];
    for (base, path) in cases {
        assert_eq!(path_within(base, path), Path::new(path).starts_with(base), "{:?} {:?}", base, path);
    }
    assert!(path_within("/srv/git", "/srv/git/repo"));
    assert!(!path_within("/srv/git", "/srv/gitx/repo"));
}
