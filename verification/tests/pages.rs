use uwgit::handlers::blob::blob_request_path;
use uwgit::handlers::util::context_request;
use uwgit::highlight::Syntaxes;

use uwgit::git::commits::commit_to_info;
use uwgit::git::diff::{CommitDiffSummary, DiffStats};
use uwgit::git::refs::{HeadState, RefInfo, RefLabel, ResolvedRef};
use uwgit::git::tree::{ReadmeContent, TreeEntry};
use uwgit::format::CommitDiffChange;
use uwgit::handlers::archive::{archive_disposition, archive_prefix_arg, archive_root_name, pretty_ref_name, sanitize_archive_component};
use uwgit::handlers::blob::{blob_lines, blob_page, number_lines, raw_blob_headers};
use uwgit::handlers::commit::{branch_lookup, commit_template, commit_title, encode_query_value, resolve_branch};
use uwgit::handlers::errors::{error_page, error_template, set_site_title, site_title, AppError, SiteTitle};
use uwgit::handlers::log::{labels_for_hash, log_page, log_template};
use uwgit::handlers::refs::refs_template;
use uwgit::handlers::repo::{image_destination, index_template, is_relative_url, rewrite_image_url};
use uwgit::handlers::tree::{parent_href, parent_path, tree_page, tree_request_path};
use uwgit::handlers::util::{display_time, full_date, relative_time_at, site_chrome, RepoRequestContext};
use uwgit::handlers::BlobQuery;

fn ctx(display_ref: &str) -> RepoRequestContext {
    let git_ref = if display_ref.is_empty() { None } else { Some(display_ref.to_string()) };
    RepoRequestContext::from_parts(
        "Site".to_string(),
        "css1",
        "js1",
        "repo".to_string(),
        display_ref.to_string(),
        git_ref,
        "main".to_string(),
        None,
    )
}

#[test]
fn request_context_parts() {
    let c = ctx("dev");
    assert_eq!(c.git_ref(), Some("dev"));
    assert_eq!(c.chrome.header_repo.as_deref(), Some("repo"));
    assert_eq!(c.chrome.header_branch.as_deref(), Some("main"));
    assert_eq!(c.append_ref("/repo/log".to_string()), "/repo/log?ref=dev");
    let nav = c.nav("tree");
    assert_eq!(nav.current_page, "tree");
    assert_eq!(nav.archive_href, "/repo/archive.tar.gz?ref=dev");
    assert_eq!(ctx("").git_ref(), None);
}

#[test]
fn relative_times() {
    assert_eq!(relative_time_at(100, 100), "0 seconds ago");
    assert_eq!(relative_time_at(101, 100), "1 second ago");
    assert_eq!(relative_time_at(100, 200), "0 seconds ago");
    assert_eq!(relative_time_at(159, 100), "59 seconds ago");
    assert_eq!(relative_time_at(160, 100), "1 minute ago");
    assert_eq!(relative_time_at(100 + 3600 * 5, 100), "5 hours ago");
    assert_eq!(relative_time_at(86400 * 29, 0), "29 days ago");
    assert_eq!(relative_time_at(86400 * 30, 0), "1 month ago");
    assert_eq!(relative_time_at(86400 * 364, 0), "12 months ago");
    assert_eq!(relative_time_at(86400 * 365 * 3, 0), "3 years ago");
    assert_eq!(relative_time_at(i64::MAX, i64::MIN), "584942417355 years ago");
}

#[test]
fn full_dates_match_the_time_crate() {
    let mut stamps = vec![0i64, 1, -1, 86399, 86400, 951782400, 1700000000, -62135596800, 253402300799, 253402300800,
        -377705116800, -377705116801, i64::MAX, i64::MIN];
    let mut x: i64 = 12345;
    for _ in 0..2000 {
        x = x.wrapping_mul(6364136223846793005).wrapping_add(1442695040888963407);
        stamps.push(x % 400_000_000_000);
    }
    for t in stamps {
        let expected = time::OffsetDateTime::from_unix_timestamp(t)
            .ok()
            .map(|d| {
                format!(
                    "{:04}-{:02}-{:02} {:02}:{:02}:{:02} UTC",
                    d.year(),
                    d.month() as u8,
                    d.day(),
                    d.hour(),
                    d.minute(),
                    d.second()
                )
            })
            .unwrap_or_else(|| format!("unix {}", t));
        assert_eq!(full_date(t), expected, "timestamp {}", t);
    }
    assert_eq!(full_date(0), "1970-01-01 00:00:00 UTC");
    assert_eq!(display_time(0).full, "1970-01-01 00:00:00 UTC");
}

#[test]
fn archive_names() {
    assert_eq!(pretty_ref_name("refs/heads/main"), "main");
    assert_eq!(pretty_ref_name("refs/tags/v1.0"), "v1.0");
    assert_eq!(pretty_ref_name("dev"), "dev");
    assert_eq!(sanitize_archive_component("my repo/x"), "my-repo-x");
    assert_eq!(sanitize_archive_component("--a--"), "a");
    assert_eq!(sanitize_archive_component("ü"), "");
    assert_eq!(sanitize_archive_component("v1.0_rc-2"), "v1.0_rc-2");
    assert_eq!(archive_root_name(&ctx("")), "repo-main");
    assert_eq!(archive_root_name(&ctx("refs/tags/v2")), "repo-v2");
    assert_eq!(archive_disposition("repo-main"), "attachment; filename=\"repo-main.tar.gz\"");
    assert_eq!(archive_prefix_arg("repo-main"), "--prefix=repo-main/");
}

#[test]
fn query_values() {
    assert_eq!(encode_query_value("src/main.rs"), "src/main.rs");
    assert_eq!(encode_query_value("a b&c=d?é"), "a%20b%26c%3Dd%3F%C3%A9");
    assert_eq!(encode_query_value("A-Z_a.z~0"), "A-Z_a.z~0");
}

#[test]
fn commit_titles_and_branches() {
    assert_eq!(commit_title("Fix bug\n\nDetails here.\n\n"), ("Fix bug".to_string(), "Fix bug\n\nDetails here.".to_string()));
    assert_eq!(commit_title(""), (String::new(), String::new()));
    assert_eq!(branch_lookup(None), None);
    assert_eq!(branch_lookup(Some("  ")), None);
    assert_eq!(branch_lookup(Some("HEAD")), None);
    assert_eq!(branch_lookup(Some(" refs/heads/dev ")), Some(("refs/heads/dev".to_string(), "dev".to_string())));
    assert_eq!(branch_lookup(Some("dev")), Some(("refs/heads/dev".to_string(), "dev".to_string())));
    assert_eq!(resolve_branch(Some("dev"), true, Some("main".into())), Some("dev".to_string()));
    assert_eq!(resolve_branch(Some("dev"), false, Some("main".into())), Some("main".to_string()));
    assert_eq!(resolve_branch(Some("HEAD"), true, None), None);
    assert_eq!(resolve_branch(None, true, Some("x".into())), Some("x".to_string()));
}

#[test]
fn commit_pages() {
    let hash = "aaaaaaaaaaaaaaaaaaaaaaaaaaaaaaaaaaaaaaaa";
    let info = commit_to_info(hash.to_string(), Some("Ann".into()), Some("a@x".into()), Some("Title\nbody\n".into()), 0);
    let files = vec![CommitDiffSummary {
        path: "dir/a b.rs".into(),
        adds: 2,
        dels: 1,
        is_binary: false,
        empty_label: None,
        change: CommitDiffChange::Added,
        old_size: None,
        new_size: Some(3),
    }];
    let page = commit_template(
        ctx("dev"),
        hash,
        info,
        files,
        DiffStats { files_changed: 1, insertions: 2, deletions: 1 },
        Some("main".into()),
        vec!["v1".into()],
    );
    assert_eq!(page.commit_title, "Title");
    assert_eq!(page.commit_message, "Title\nbody");
    assert_eq!(page.author, "Ann");
    assert_eq!(page.files.len(), 1);
    assert_eq!(page.files[0].diff_href, format!("/repo/commit/{}/diff?path=dir/a%20b.rs&ref=dev", hash));
    assert!(page.files[0].is_added);
    assert!(!page.files[0].is_deleted);
    assert_eq!((page.files_changed, page.insertions, page.deletions), (1, 2, 1));
    assert_eq!(page.nav.current_page, "commit");
    assert_eq!(page.time.full, "1970-01-01 00:00:00 UTC");
}

#[test]
fn log_pages() {
    assert_eq!(log_page(None), (1, 0));
    assert_eq!(log_page(Some(0)), (1, 0));
    assert_eq!(log_page(Some(3)), (3, 40));
    let hash = "bbbbbbbbbbbbbbbbbbbbbbbbbbbbbbbbbbbbbbbb";
    let labels = vec![(hash.to_string(), vec![
        RefLabel { name: "main".into(), kind: "branch".into() },
        RefLabel { name: "v1".into(), kind: "tag".into() },
    ])];
    assert_eq!(labels_for_hash(&labels, hash).len(), 2);
    assert!(labels_for_hash(&labels, "x").is_empty());
    let commits = vec![commit_to_info(hash.to_string(), None, None, Some("first line\nsecond".into()), 0)];
    let page = log_template(ctx(""), 2, commits, 45, &labels);
    assert_eq!(page.commits.len(), 1);
    let c = &page.commits[0];
    assert_eq!(c.href, format!("/repo/commit/{}", hash));
    assert_eq!(c.message, "first line");
    assert_eq!(c.short_hash, "bbbbbbbb");
    let refs: Vec<(&str, &str)> = c.refs.iter().map(|r| (r.name.as_str(), r.class)).collect();
    assert_eq!(refs, vec![("main", "commit-ref commit-branch"), ("v1", "commit-ref commit-tag")]);
    assert!(page.pager.has_prev && page.pager.has_next);
    assert_eq!(page.pager.prev_href, "/repo/log");
    assert_eq!(page.pager.next_href, "/repo/log?page=3");
    assert_eq!(page.pager.page_links.len(), 3);
}

#[test]
fn refs_pages() {
    let refs = vec![RefInfo { name: "v1".into(), ref_type: "tag".into(), author: "Bo".into(), time: 0 }];
    let page = refs_template(ctx("dev"), 1, refs, 1);
    assert_eq!(page.refs[0].href, "/repo/log?ref=v1");
    assert_eq!(page.refs[0].ref_type, "tag");
    assert_eq!(page.nav.current_page, "refs");
    assert!(page.pager.page_links.is_empty());
    assert!(!page.pager.has_prev && !page.pager.has_next);
}

#[test]
fn tree_pages() {
    assert_eq!(parent_path(""), "");
    assert_eq!(parent_path("a"), "");
    assert_eq!(parent_path("a/b/c"), "a/b");
    assert_eq!(parent_path("a/"), "a");
    assert_eq!(parent_href(&ctx(""), "a/b"), "/repo/tree?path=a");
    assert_eq!(parent_href(&ctx("dev"), "a"), "/repo/tree?ref=dev");
    assert_eq!(tree_request_path(None).unwrap(), "");
    assert_eq!(tree_request_path(Some("src".into())).unwrap(), "src");
    assert!(matches!(tree_request_path(Some("../etc".into())), Err(AppError::BadRequest)));
    let entries = vec![
        TreeEntry { name: "lib".into(), is_dir: true, size: Some(4), last_modified: Some(0) },
        TreeEntry { name: "a.rs".into(), is_dir: false, size: Some(2048), last_modified: None },
        TreeEntry { name: "b".into(), is_dir: true, size: None, last_modified: None },
    ];
    let page = tree_page(ctx("dev"), "src".to_string(), entries);
    let rows: Vec<(&str, &str, &str)> =
        page.entries.iter().map(|e| (e.name.as_str(), e.size_text.as_str(), e.href.as_str())).collect();
    assert_eq!(
        rows,
        vec![
            ("lib", "4 entries", "/repo/tree?path=src/lib&ref=dev"),
            ("a.rs", "2.0 KB", "/repo/blob?path=src/a.rs&ref=dev"),
            ("b", "", "/repo/tree?path=src/b&ref=dev"),
        ]
    );
    assert!(page.entries[0].time.is_some());
    assert!(page.entries[1].time.is_none());
    assert_eq!(page.parent_href, "/repo/tree?ref=dev");
    assert_eq!(page.root_href, "/repo/tree?ref=dev");
    assert_eq!(page.path_components.len(), 1);
    let top = tree_page(ctx(""), String::new(), vec![TreeEntry { name: "x".into(), is_dir: false, size: None, last_modified: None }]);
    assert_eq!(top.entries[0].href, "/repo/blob?path=x");
    assert!(top.path_components.is_empty());
}

#[test]
fn blob_lines_and_numbers() {
    assert_eq!(blob_lines(b"a\nb\n"), vec!["a", "b"]);
    assert_eq!(blob_lines(b"a\n\nb"), vec!["a", "", "b"]);
    assert!(blob_lines(b"").is_empty());
    assert_eq!(blob_lines(b"\n"), vec![""]);
    assert_eq!(blob_lines(&[0x61, 0xff, b'\n']), vec!["a\u{fffd}"]);
    for text in ["x\r\ny", "\n\n", "a\nb\nc\n\n", "no newline", "ü\nß"] {
        let expected: Vec<String> = text.split_terminator('\n').map(str::to_string).collect();
        assert_eq!(blob_lines(text.as_bytes()), expected);
    }
    let lines = number_lines(vec!["<b>x</b>".to_string(), "y".to_string()]);
    let got: Vec<(&str, &str, &str)> = lines.iter().map(|l| (l.class, l.num.as_str(), l.text.as_str())).collect();
    assert_eq!(got, vec![("", "1", "<b>x</b>"), ("", "2", "y")]);
}

#[test]
fn raw_downloads() {
    let r = raw_blob_headers("img/logo.PNG", b"\x89PNG\r\n\x1a\n\0\0");
    assert_eq!(r.content_type, "image/png");
    assert_eq!(r.disposition.as_deref(), Some("attachment; filename=\"logo.PNG\""));
    let r = raw_blob_headers("src/main.rs", b"fn main() {}\n");
    assert_eq!(r.content_type, "text/plain");
    assert_eq!(r.disposition, None);
    let r = raw_blob_headers("we\"ird", b"\0");
    assert_eq!(r.disposition.as_deref(), Some("attachment; filename=\"we_ird\""));
    let r = raw_blob_headers("..", b"\0");
    assert_eq!(r.disposition.as_deref(), Some("attachment; filename=\"blob\""));
    let raw = BlobQuery { ref_name: None, path: "a".into(), raw: Some(1) };
    assert!(raw.is_raw());
    let not_raw = BlobQuery { ref_name: None, path: "a".into(), raw: Some(2) };
    assert!(!not_raw.is_raw());
}

#[test]
fn blob_views() {
    let set = Syntaxes::new();
    let page = blob_page(ctx("dev"), &set, "docs/a.txt".to_string(), b"one\n<two>\n");
    assert!(!page.is_binary);
    assert!(!page.is_image);
    assert_eq!(page.lines.len(), 2);
    assert_eq!(page.lines[1].num, "2");
    assert!(page.lines[1].text.contains("&lt;two&gt;"));
    assert_eq!(page.blob_href, "/repo/blob?path=docs/a.txt&ref=dev");
    assert_eq!(page.root_href, "/repo/tree?ref=dev");
    assert_eq!(page.path_components.len(), 2);
    assert_eq!(page.path_components[1].href, None);
    let image = blob_page(ctx(""), &set, "logo.png".to_string(), b"\x89PNG\0");
    assert!(image.is_binary);
    assert!(image.is_image);
    assert!(image.lines.is_empty());
}

#[test]
fn readme_images() {
    assert!(is_relative_url("img/a.png"));
    assert!(is_relative_url("./a.png"));
    assert!(!is_relative_url("https://x/a.png"));
    assert!(!is_relative_url("http://x/a.png"));
    assert!(!is_relative_url("//cdn/a.png"));
    assert!(!is_relative_url("data:image/png;base64,xx"));
    assert!(!is_relative_url("#top"));
    assert_eq!(rewrite_image_url("./././img/a b.png", "repo", ""), "/repo/blob?path=img%2Fa%20b.png&raw=1");
    assert_eq!(rewrite_image_url("x.png", "repo", "refs/tags/v1"), "/repo/blob?path=x.png&raw=1&ref=refs%2Ftags%2Fv1");
    assert_eq!(rewrite_image_url("é~.png", "r", ""), format!("/r/blob?path={}&raw=1", urlencoding::encode("é~.png")));
    assert_eq!(image_destination("https://x/y.png", "repo", ""), "https://x/y.png");
    assert_eq!(image_destination("y.png", "repo", ""), "/repo/blob?path=y.png&raw=1");
}

#[test]
fn index_pages_render_readmes() {
    let page = index_template(ctx(""), Some(ReadmeContent { text: "# Hi\n\n![logo](logo.png)\n".into(), is_markdown: true }));
    let readme = page.readme.unwrap();
    assert!(readme.is_markdown);
    assert!(readme.content.contains("<h1>Hi</h1>"));
    assert!(readme.content.contains("src=\"/repo/blob?path=logo.png&amp;raw=1\""));
    let page = index_template(ctx(""), Some(ReadmeContent { text: "<script>x</script>".into(), is_markdown: false }));
    assert_eq!(page.readme.unwrap().content, "<script>x</script>");
    assert!(index_template(ctx(""), None).readme.is_none());
    assert_eq!(index_template(ctx(""), None).nav.current_page, "index");
}

#[test]
fn readme_html_is_sanitized() {
    let html = uwgit::handlers::repo::render_markdown("<script>alert(1)</script>\n\n*ok* <img src=\"a.png\" width=\"5\" onerror=\"x()\">\n", "repo", "");
    assert!(!html.contains("<script"));
    assert!(!html.contains("onerror"));
    assert!(!html.contains("width"));
    assert!(html.contains("<em>ok</em>"));
    assert!(html.contains("<img src=\"a.png\">"));
}

#[test]
fn errors_and_site_title() {
    assert_eq!(error_page(&AppError::BadRequest), (400, "Bad request", "The request was invalid or malformed."));
    assert_eq!(error_page(&AppError::NotFound), (404, "Not found", "The page you requested does not exist."));
    assert_eq!(error_page(&AppError::Internal("x".into())), (500, "Internal error", "An unexpected error occurred."));
    let mut title = SiteTitle::new();
    assert_eq!(site_title(&title), "uwgit");
    set_site_title(&mut title, "git.example.dev".to_string());
    assert_eq!(site_title(&title), "git.example.dev");
    set_site_title(&mut title, "other".to_string());
    assert_eq!(site_title(&title), "git.example.dev");
    let (status, page) = error_template(&AppError::NotFound, &title, "c", "j");
    assert_eq!(status, 404);
    assert_eq!(page.heading, "Not found");
    assert_eq!(page.chrome.site_title, "git.example.dev");
    assert!(page.chrome.header_repo.is_none());
    let chrome = site_chrome("T".to_string(), "c", "j");
    assert_eq!(chrome.site_title, "T");
}

#[test]
fn log_messages_keep_a_lone_carriage_return() {
    let hash = "cccccccccccccccccccccccccccccccccccccccc";
    let commits = vec![
        commit_to_info(hash.to_string(), None, None, Some("fix\r".into()), 0),
        commit_to_info(hash.to_string(), None, None, Some("subject\r\nbody".into()), 0),
        commit_to_info(hash.to_string(), None, None, Some("a\rb\nc".into()), 0),
    ];
    let page = log_template(ctx(""), 1, commits, 3, &Vec::new());
    let messages: Vec<&str> = page.commits.iter().map(|c| c.message.as_str()).collect();
    assert_eq!(messages, vec!["fix\r", "subject", "a\rb"]);
}

#[test]
fn a_single_page_has_no_links_for_any_current_page() {
    let page = log_template(ctx(""), usize::MAX, Vec::new(), 5, &Vec::new());
    assert!(page.pager.page_links.is_empty());
    assert!(page.pager.has_prev);
    assert!(!page.pager.has_next);
}

#[test]
fn blob_request_paths() {
    assert_eq!(blob_request_path("src/main.rs".into()).unwrap(), "src/main.rs");
    assert_eq!(blob_request_path(String::new()).unwrap(), "");
    assert!(matches!(blob_request_path("../secret".into()), Err(AppError::BadRequest)));
    assert!(matches!(blob_request_path("/etc/passwd".into()), Err(AppError::BadRequest)));
    assert!(matches!(blob_request_path("a/../../b".into()), Err(AppError::BadRequest)));
}

#[test]
fn repository_requests_check_the_repository_first() {
    assert!(matches!(context_request(false, Some("bad ref".into())), Err(AppError::NotFound)));
    assert!(matches!(context_request(false, None), Err(AppError::NotFound)));
    assert!(matches!(context_request(true, Some("bad ref".into())), Err(AppError::BadRequest)));
    assert_eq!(context_request(true, None).unwrap(), (String::new(), None));
    assert_eq!(context_request(true, Some("dev".into())).unwrap(), ("dev".to_string(), Some("dev".to_string())));
}

fn head_on(branch: &str) -> Option<HeadState> {
    Some(HeadState { is_branch: true, shorthand: Some(branch.to_string()), commit_branch: Some(Some(branch.to_string())) })
}

fn tag_on(name: &str, branch: &str) -> Option<ResolvedRef> {
    Some(ResolvedRef { is_branch: false, is_tag: true, shorthand: Some(name.to_string()), tag_branch: Some(branch.to_string()) })
}

#[test]
fn loading_a_request_context() {
    let load = |found: bool, name: Option<&str>, resolved: Option<ResolvedRef>, head: Option<HeadState>| {
        RepoRequestContext::load("Site".into(), "c", "j", "repo".into(), found, name.map(String::from), resolved, head)
    };
    assert!(matches!(load(false, Some("bad ref"), None, None), Err(AppError::NotFound)));
    assert!(matches!(load(true, Some("bad ref"), None, head_on("main")), Err(AppError::BadRequest)));
    let at_head = load(true, None, None, head_on("trunk")).unwrap();
    assert_eq!(at_head.display_ref, "");
    assert_eq!(at_head.git_ref(), None);
    assert_eq!(at_head.chrome.header_branch.as_deref(), Some("trunk"));
    assert_eq!(at_head.chrome.header_repo.as_deref(), Some("repo"));
    assert_eq!(at_head.chrome.site_title, "Site");
    let named_head = load(true, Some("HEAD"), tag_on("HEAD", "x"), head_on("trunk")).unwrap();
    assert_eq!(named_head.git_ref(), None);
    assert_eq!(named_head.chrome.header_branch.as_deref(), Some("trunk"));
    let tagged = load(true, Some("v1"), tag_on("v1", "main"), head_on("trunk")).unwrap();
    assert_eq!(tagged.display_ref, "v1");
    assert_eq!(tagged.git_ref(), Some("v1"));
    assert_eq!(tagged.chrome.header_tag.as_deref(), Some("v1"));
    assert_eq!(tagged.chrome.header_branch.as_deref(), Some("main"));
    let unknown = load(true, Some("nope"), None, head_on("trunk")).unwrap();
    assert_eq!(unknown.chrome.header_branch.as_deref(), Some("nope"));
    assert_eq!(unknown.chrome.header_tag, None);
}
