use uwgit::text::first_line_of;
use uwgit::git::commits::short_hash;
use uwgit::git::refs::page_of;
use uwgit::git::repos::{list_repos, RepoInfo};
use uwgit::handlers::archive::sanitize_archive_component;
use uwgit::handlers::blob::blob_lines;
use uwgit::handlers::repo::rewrite_image_url;
use uwgit::handlers::util::{build_page_links, build_path_components, is_safe_repo_name, is_safe_repo_path};
use uwgit::highlight::escape_html;

#[test]
fn consecutive_pages_fit_together() {
    let items: Vec<u32> = (0..13).collect();
    for offset in 0..15usize {
        for a in 0..6usize {
            for b in 0..6usize {
                let (first, _) = page_of(items.clone(), offset, a);
                let (second, _) = page_of(items.clone(), offset + a, b);
                let (both, _) = page_of(items.clone(), offset, a + b);
                let joined: Vec<u32> = first.into_iter().chain(second).collect();
                assert_eq!(joined, both);
            }
        }
    }
}

#[test]
fn safe_names_are_safe_paths() {
    for p in ["a", "a/b", "..", "a/", "./a", "/a", "a/..", ".git", "x y"] {
        if is_safe_repo_name(p) {
            assert!(is_safe_repo_path(p), "{:?}", p);
        }
    }
}

#[test]
fn escaping_is_inert_and_piecewise() {
    let texts = ["<script>alert('x')</script>", "a \"quoted\" & 'single'", "plain", "", "<<>>", "é&ü"];
    for a in texts {
        let out = escape_html(a);
        assert!(!out.contains(['<', '>', '"', '\'']), "{:?}", out);
        for b in texts {
            assert_eq!(escape_html(&format!("{a}{b}")), format!("{}{}", escape_html(a), escape_html(b)));
        }
    }
}

#[test]
fn archive_components_are_clean() {
    for v in ["my repo", "--x--", "ü-ß", "a/b\\c", "", "-", "v1.2_3"] {
        let out = sanitize_archive_component(v);
        assert!(out.chars().all(|c| c.is_ascii_alphanumeric() || c == '.' || c == '_' || c == '-'), "{:?}", out);
        assert!(!out.starts_with('-') && !out.ends_with('-'), "{:?}", out);
    }
}

#[test]
fn file_lines_rejoin() {
    for text in ["a\nb", "a\nb\n", "", "\n", "\n\nx", "x\n\n"] {
        let lines = blob_lines(text.as_bytes());
        assert!(lines.iter().all(|l| !l.contains('\n')));
        let joined = lines.join("\n");
        assert!(joined == text || format!("{joined}\n") == text, "{:?}", text);
    }
}

#[test]
fn encoded_image_links_hold_no_separators() {
    let url = rewrite_image_url("a b&c=d#e?f\"g'<h>ü", "repo", "");
    let query = url.strip_prefix("/repo/blob?path=").unwrap().strip_suffix("&raw=1").unwrap();
    assert!(query.chars().all(|c| c.is_ascii_alphanumeric() || "-._~%".contains(c)), "{:?}", query);
}

#[test]
fn short_hashes_begin_hashes() {
    for h in ["0123456789abcdef", "abc", "", "ééééé", "1234567é"] {
        assert!(h.starts_with(&short_hash(h)), "{:?}", h);
    }
}

#[test]
fn sorting_keeps_every_repository() {
    let input = vec![
        RepoInfo { name: "b".into(), description: None },
        RepoInfo { name: "a".into(), description: Some("x".into()) },
        RepoInfo { name: "b".into(), description: Some("y".into()) },
    ];
    let mut before: Vec<(String, Option<String>)> = input.iter().map(|r| (r.name.clone(), r.description.clone())).collect();
    let sorted = list_repos(input);
    let mut after: Vec<(String, Option<String>)> = sorted.iter().map(|r| (r.name.clone(), r.description.clone())).collect();
    assert_eq!(after[1].1, None);
    assert_eq!(after[2].1.as_deref(), Some("y"));
    before.sort();
    after.sort();
    assert_eq!(before, after);
}

#[test]
fn breadcrumb_names_rejoin_the_path() {
    for path in ["", "a", "a/b/c", "a//b", "/a", "a/", "./x/../y", "dir/file.rs"] {
        let comps = build_path_components("r", path, "", false);
        let names: Vec<&str> = comps.iter().map(|c| c.name.as_str()).collect();
        assert_eq!(names.join("/"), path);
        let expected = if path.is_empty() { 0 } else { path.matches('/').count() + 1 };
        assert_eq!(comps.len(), expected, "{:?}", path);
    }
}

#[test]
fn page_lists_show_the_ends_and_the_window() {
    for total in 2..16usize {
        for current in 1..=total {
            let links = build_page_links("/r/log", "", current, total);
            let lo = if current >= 3 { current - 2 } else { 1 };
            let hi = (current + 2).min(total);
            let mut expected: Vec<usize> = vec![1, total];
            expected.extend(lo..=hi);
            expected.sort();
            expected.dedup();
            let pages: Vec<usize> = links.iter().filter(|l| !l.is_ellipsis).map(|l| l.label.parse().unwrap()).collect();
            assert_eq!(pages, expected, "page {} of {}", current, total);
            let mut previous: Option<usize> = None;
            let mut gap_seen = false;
            for link in &links {
                if link.is_ellipsis {
                    assert!(!gap_seen && previous.is_some());
                    assert_eq!(link.label, "...");
                    assert_eq!(link.href, "");
                    assert!(!link.is_current);
                    gap_seen = true;
                    continue;
                }
                let page: usize = link.label.parse().unwrap();
                if let Some(p) = previous {
                    assert_eq!(gap_seen, page > p + 1, "page {} of {}", current, total);
                }
                assert_eq!(link.is_current, page == current);
                previous = Some(page);
                gap_seen = false;
            }
        }
    }
}

#[test]
fn first_lines_follow_str_lines() {
    for text in ["fix\r", "a\r\nb", "a\nb", "", "\n", "\r\n", "a\rb\nc", "one", "x\r\r\ny", "\rz"] {
        assert_eq!(first_line_of(text), text.lines().next().unwrap_or(""), "{:?}", text);
    }
}
