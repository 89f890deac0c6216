use uwgit::git::commits::{commit_to_info, short_hash};
use uwgit::git::diff::{
    change_from_delta, diff_line_text, diff_summary, file_diff_from_summary, is_binary_bytes, patch_stats,
    render_patch_lines, CommitDiffSummary, DeltaStatus, DiffFile, PatchHunk, PatchLine,
};
use uwgit::git::refs::{
    find_branch_for_commit, get_header_refs, header_refs_for_reference, list_refs, list_refs_paginated, page_of,
    reference_candidates, refs_for_commits, sort_newest_first, tags_for_commit, HeadState, RefInfo,
    ResolvedRef,
};
use uwgit::git::repos::{list_repos, RepoInfo};
use uwgit::git::tree::{get_readme, get_tree_entries, is_markdown_name, readme_names};
use uwgit::format::CommitDiffChange;

const A: &str = "aaaaaaaaaaaaaaaaaaaaaaaaaaaaaaaaaaaaaaaa";
const B: &str = "bbbbbbbbbbbbbbbbbbbbbbbbbbbbbbbbbbbbbbbb";
const C: &str = "cccccccccccccccccccccccccccccccccccccccc";

fn pairs(v: &[(&str, &str)]) -> Vec<(String, String)> {
    v.iter().map(|(a, b)| (a.to_string(), b.to_string())).collect()
}

#[test]
fn object_ids_parse_as_git2_does() {
    for s in [A, "ABCDEF0123456789abcdef0123456789ABCDEF01", "abc", "0", "", "xyz", "g", "a b", &"a".repeat(41)] {
        let theirs = git2::Oid::from_str(s).ok().map(|o| o.to_string());
        let tags = vec![("t".to_string(), theirs.clone().unwrap_or_else(|| "x".to_string()))];
        let ours = tags_for_commit(s, &tags);
        assert_eq!(ours.is_some(), theirs.is_some(), "id {:?}", s);
        if theirs.is_some() {
            assert_eq!(ours, Some(vec!["t".to_string()]), "id {:?}", s);
        }
    }
    let padded = vec![("t".to_string(), format!("abc{}", "0".repeat(37)))];
    assert_eq!(tags_for_commit("ABC", &padded), Some(vec!["t".to_string()]));
}

#[test]
fn short_hashes() {
    assert_eq!(short_hash(A), "aaaaaaaa");
    assert_eq!(short_hash("abc"), "abc");
    assert_eq!(short_hash("12345678"), "12345678");
    assert_eq!(short_hash("1234567ü9"), "1234567ü9");
    assert_eq!(short_hash("123456üx"), "123456ü");
}

#[test]
fn commit_info_defaults() {
    let info = commit_to_info(A.to_string(), None, None, None, 42);
    assert_eq!(info.hash, A);
    assert_eq!(info.short_hash, "aaaaaaaa");
    assert_eq!(info.author, "Unknown");
    assert_eq!(info.author_email, "");
    assert_eq!(info.message, "");
    assert_eq!(info.time, 42);
    let info = commit_to_info(B.to_string(), Some("Ann".into()), Some("a@x".into()), Some("fix\n".into()), -5);
    assert_eq!(info.author, "Ann");
    assert_eq!(info.author_email, "a@x");
    assert_eq!(info.message, "fix\n");
}

#[test]
fn labels_for_listed_commits() {
    let hashes = vec![A.to_string(), B.to_string(), "not-a-hash".to_string(), C.to_string()];
    let branches = pairs(&[("main", A), ("dev", C), ("topic", A)]);
    let tags = pairs(&[("v1", A), ("v0", B)]);
    let map = refs_for_commits(&hashes, &branches, &tags);
    let flat: Vec<(String, Vec<(String, String)>)> = map
        .into_iter()
        .map(|(h, ls)| (h, ls.into_iter().map(|l| (l.name, l.kind)).collect()))
        .collect();
    let s = |x: &str| x.to_string();
    assert_eq!(
        flat,
        vec![
            (s(A), vec![(s("main"), s("branch")), (s("topic"), s("branch")), (s("v1"), s("tag"))]),
            (s(B), vec![(s("v0"), s("tag"))]),
            (s(C), vec![(s("dev"), s("branch"))]),
        ]
    );
    assert!(refs_for_commits(&vec![s("zz")], &branches, &tags).is_empty());
}

#[test]
fn tags_of_a_commit_are_sorted_and_unique() {
    let tags = pairs(&[("v2", A), ("v1", A), ("other", B), ("v1", A), ("alpha", A)]);
    assert_eq!(tags_for_commit(A, &tags), Some(vec!["alpha".to_string(), "v1".to_string(), "v2".to_string()]));
    assert_eq!(tags_for_commit(C, &tags), Some(vec![]));
    assert_eq!(tags_for_commit("nope", &tags), None);
}

#[test]
fn branch_of_a_commit() {
    let branches = pairs(&[("dev", B), ("main", A), ("old", A)]);
    assert_eq!(find_branch_for_commit(A, &branches, &vec![false, false, false]), Some(Some("main".to_string())));
    assert_eq!(find_branch_for_commit(C, &branches, &vec![false, true, true]), Some(Some("main".to_string())));
    assert_eq!(find_branch_for_commit(C, &branches, &vec![false, false, false]), Some(None));
    assert_eq!(find_branch_for_commit("not hex", &branches, &vec![true, true, true]), None);
}

#[test]
fn header_of_pages() {
    let branch = ResolvedRef { is_branch: true, is_tag: false, shorthand: Some("main".into()), tag_branch: None };
    let h = header_refs_for_reference(&branch, "refs/heads/main");
    assert_eq!((h.branch.as_str(), h.tag.as_deref()), ("main", None));
    let tag = ResolvedRef { is_branch: false, is_tag: true, shorthand: Some("v1".into()), tag_branch: None };
    let h = header_refs_for_reference(&tag, "v1");
    assert_eq!((h.branch.as_str(), h.tag.as_deref()), ("HEAD", Some("v1")));
    let tag = ResolvedRef { is_branch: false, is_tag: true, shorthand: None, tag_branch: Some("main".into()) };
    let h = header_refs_for_reference(&tag, "v2");
    assert_eq!((h.branch.as_str(), h.tag.as_deref()), ("main", Some("v2")));
    let h = get_header_refs(Some("feature"), None, None);
    assert_eq!((h.branch.as_str(), h.tag.as_deref()), ("feature", None));
    let head = HeadState { is_branch: true, shorthand: Some("trunk".into()), commit_branch: None };
    let h = get_header_refs(None, None, Some(head));
    assert_eq!((h.branch.as_str(), h.tag.as_deref()), ("trunk", None));
    let detached = HeadState { is_branch: false, shorthand: None, commit_branch: Some(Some("dev".into())) };
    let h = get_header_refs(None, None, Some(detached));
    assert_eq!(h.branch, "dev");
    let detached = HeadState { is_branch: false, shorthand: None, commit_branch: Some(None) };
    assert_eq!(get_header_refs(None, None, Some(detached)).branch, "HEAD");
    assert_eq!(get_header_refs(None, None, None).branch, "HEAD");
    let names = reference_candidates("x");
    assert_eq!(names, vec!["x", "refs/heads/x", "refs/tags/x"]);
}

fn info(name: &str, kind: &str, time: i64) -> RefInfo {
    RefInfo { name: name.into(), ref_type: kind.into(), author: "a".into(), time }
}

#[test]
fn references_newest_first() {
    let sorted = sort_newest_first(vec![info("a", "branch", 1), info("b", "branch", 3), info("c", "tag", 3)]);
    let names: Vec<&str> = sorted.iter().map(|r| r.name.as_str()).collect();
    assert_eq!(names, vec!["b", "c", "a"]);
    let listed = list_refs(
        vec![("main".into(), Some(("Ann".into(), 5))), ("gone".into(), None), ("dev".into(), Some(("Bo".into(), 9)))],
        vec![("v1".into(), Some(("Cy".into(), 7)))],
    );
    let got: Vec<(&str, &str, &str, i64)> =
        listed.iter().map(|r| (r.name.as_str(), r.ref_type.as_str(), r.author.as_str(), r.time)).collect();
    assert_eq!(got, vec![("dev", "branch", "Bo", 9), ("main", "branch", "Ann", 5), ("v1", "tag", "Cy", 7)]);
}

#[test]
fn paging_lists() {
    let (page, total) = page_of((0..45).collect::<Vec<u32>>(), 40, 20);
    assert_eq!((page, total), ((40..45).collect::<Vec<u32>>(), 45));
    let (page, total) = page_of(vec![1, 2, 3], 5, 2);
    assert_eq!((page, total), (vec![], 3));
    let (page, _) = page_of(vec![1, 2, 3], 0, 2);
    assert_eq!(page, vec![1, 2]);
    let (refs, total) = list_refs_paginated(vec![info("a", "branch", 1), info("b", "tag", 2)], 1, 20);
    assert_eq!(total, 2);
    assert_eq!(refs.len(), 1);
    assert_eq!(refs[0].name, "b");
}

#[test]
fn repositories_by_name() {
    let repos = list_repos(vec![
        RepoInfo { name: "zeta".into(), description: None },
        RepoInfo { name: "Alpha".into(), description: Some("d".into()) },
        RepoInfo { name: "alpha".into(), description: None },
    ]);
    let names: Vec<&str> = repos.iter().map(|r| r.name.as_str()).collect();
    assert_eq!(names, vec!["Alpha", "alpha", "zeta"]);
}

#[test]
fn tree_entries_directories_first() {
    let entries = get_tree_entries(
        vec![
            (Some("b.txt".into()), false, Some(3)),
            (Some("src".into()), true, Some(2)),
            (None, false, Some(1)),
            (Some("a.txt".into()), false, None),
            (Some("docs".into()), true, None),
        ],
        99,
    );
    let got: Vec<(&str, bool, Option<u64>, Option<i64>)> =
        entries.iter().map(|e| (e.name.as_str(), e.is_dir, e.size, e.last_modified)).collect();
    assert_eq!(
        got,
        vec![
            ("docs", true, None, Some(99)),
            ("src", true, Some(2), Some(99)),
            ("a.txt", false, None, Some(99)),
            ("b.txt", false, Some(3), Some(99)),
        ]
    );
}

#[test]
fn readme_selection() {
    assert_eq!(readme_names(), vec!["README.md", "readme.md", "README", "readme"]);
    assert!(is_markdown_name("README.md"));
    assert!(is_markdown_name("notes.MD"));
    assert!(!is_markdown_name("README"));
    assert!(!is_markdown_name(".md"));
    let r = get_readme(vec![None, Some(vec![0xff, 0xfe]), Some(b"plain".to_vec()), Some(b"x".to_vec())]).unwrap();
    assert_eq!(r.text, "plain");
    assert!(!r.is_markdown);
    let r = get_readme(vec![Some(b"# Title".to_vec())]).unwrap();
    assert_eq!(r.text, "# Title");
    assert!(r.is_markdown);
    assert!(get_readme(vec![None, None, None, None]).is_none());
    assert!(get_readme(vec![]).is_none());
}

#[test]
fn binary_detection() {
    assert!(!is_binary_bytes(b""));
    assert!(!is_binary_bytes(b"hello\nworld\r\n\t"));
    assert!(is_binary_bytes(b"a\0b"));
    assert!(is_binary_bytes(&[1u8]));
    let mut text = vec![b'a'; 199];
    text.push(1);
    assert!(!is_binary_bytes(&text));
    text.push(2);
    assert!(!is_binary_bytes(&text));
    text.push(3);
    assert!(is_binary_bytes(&text));
}

#[test]
fn diff_summaries() {
    assert_eq!(change_from_delta(DeltaStatus::Added), CommitDiffChange::Added);
    assert_eq!(change_from_delta(DeltaStatus::Deleted), CommitDiffChange::Deleted);
    assert_eq!(change_from_delta(DeltaStatus::Renamed), CommitDiffChange::Modified);
    assert_eq!(patch_stats(None), (false, 0, 0));
    assert_eq!(patch_stats(Some((0, 0, 0))), (false, 0, 0));
    assert_eq!(patch_stats(Some((1, 2, 3))), (true, 2, 3));
    let old = DiffFile { exists: false, size: 0, is_binary: false, path: Some("a.txt".into()) };
    let new = DiffFile { exists: true, size: 0, is_binary: false, path: Some("a.txt".into()) };
    let s = diff_summary(&old, &new, DeltaStatus::Added, None);
    assert_eq!(s.path, "a.txt");
    assert_eq!(s.change, CommitDiffChange::Added);
    assert_eq!(s.empty_label, Some("empty added"));
    assert_eq!((s.old_size, s.new_size), (None, Some(0)));
    let gone = DiffFile { exists: false, size: 0, is_binary: false, path: None };
    let s = diff_summary(&new, &gone, DeltaStatus::Deleted, Some((0, 0, 4)));
    assert_eq!(s.path, "a.txt");
    assert_eq!((s.adds, s.dels), (0, 4));
    assert_eq!(s.empty_label, None);
}

fn line(origin: char, text: &str) -> PatchLine {
    PatchLine { origin, content: text.as_bytes().to_vec() }
}

#[test]
fn patch_lines_carry_their_numbers() {
    let hunks = vec![
        PatchHunk {
            old_start: 10,
            new_start: 20,
            lines: vec![line(' ', "ctx\n"), line('-', "old\r\n"), line('+', "new\n"), line('F', "skip"), line('=', "eq")],
        },
        PatchHunk { old_start: 1, new_start: 1, lines: vec![line('<', "x"), line('>', "y")] },
    ];
    let out: Vec<(&str, String, String)> =
        render_patch_lines(&hunks).into_iter().map(|l| (l.class, l.num, l.text)).collect();
    let s = |x: &str| x.to_string();
    assert_eq!(
        out,
        vec![
            ("", s("20"), s("ctx")),
            ("line-remove", s("11"), s("old")),
            ("line-add", s("21"), s("new")),
            ("", s("22"), s("eq")),
            ("line-remove", s("1"), s("x")),
            ("line-add", s("1"), s("y")),
        ]
    );
    assert_eq!(diff_line_text(b"a\n\n"), "a");
    assert_eq!(diff_line_text(b"a\r\n"), "a");
    assert_eq!(diff_line_text(b"a\n\r"), "a\n");
    assert_eq!(diff_line_text(&[0x61, 0xff]), "a\u{fffd}");
}

#[test]
fn file_diffs() {
    let summary = CommitDiffSummary {
        path: "x".into(),
        adds: 0,
        dels: 0,
        is_binary: true,
        empty_label: None,
        change: CommitDiffChange::Modified,
        old_size: Some(1),
        new_size: Some(2),
    };
    let diff = file_diff_from_summary(&summary, Some(render_patch_lines(&vec![PatchHunk {
        old_start: 1,
        new_start: 1,
        lines: vec![line('+', "a")],
    }])));
    assert!(diff.is_binary);
    assert!(diff.lines.is_empty());
    assert_eq!(
        diff.size_html,
        "<span class=\"size-old\">1 B</span> <span class=\"size-arrow\">→</span> <span class=\"size-new\">2 B</span>"
    );
}
