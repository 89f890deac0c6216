//! The data that each page is rendered from.

use vstd::prelude::*;

use crate::git::repos::RepoInfo;

verus! {

/// Site-wide parts of every page.
pub struct PageChrome {
    pub site_title: String,
    pub css_version: &'static str,
    pub js_version: &'static str,
    pub header_repo: Option<String>,
    pub header_branch: Option<String>,
    pub header_tag: Option<String>,
}

/// The navigation bar of a repository page.
pub struct RepoNav {
    pub repo_name: String,
    pub display_ref: String,
    pub current_page: &'static str,
    pub archive_href: String,
}

/// A time shown both relative to now and as a full date.
pub struct DisplayTime {
    pub relative: String,
    pub full: String,
}

/// One component of a path in the breadcrumb, with its link when it has one.
pub struct PathComponent {
    pub name: String,
    pub href: Option<String>,
}

/// Abstract value of a path component.
pub struct PathComponentView {
    pub name: Seq<char>,
    pub href: Option<Seq<char>>,
}

impl View for PathComponent {
    type V = PathComponentView;

    open spec fn view(&self) -> PathComponentView {
        PathComponentView {
            name: self.name@,
            href: match self.href {
                Some(h) => Some(h@),
                None => None,
            },
        }
    }
}

/// One entry of a page list: a page number, or an ellipsis.
pub struct PageLink {
    pub label: String,
    pub is_current: bool,
    pub is_ellipsis: bool,
    pub href: String,
}

/// Abstract value of a page link.
pub struct PageLinkView {
    pub label: Seq<char>,
    pub is_current: bool,
    pub is_ellipsis: bool,
    pub href: Seq<char>,
}

impl View for PageLink {
    type V = PageLinkView;

    open spec fn view(&self) -> PageLinkView {
        PageLinkView {
            label: self.label@,
            is_current: self.is_current,
            is_ellipsis: self.is_ellipsis,
            href: self.href@,
        }
    }
}

/// Links to the other pages of a paginated list.
pub struct Pager {
    pub page_links: Vec<PageLink>,
    pub has_prev: bool,
    pub has_next: bool,
    pub prev_href: String,
    pub next_href: String,
}

/// One rendered line of a diff or of a file.
pub struct DiffLine {
    pub class: &'static str,
    pub num: String,
    pub text: String,
}

/// Abstract value of a rendered line.
pub struct DiffLineView {
    pub class: Seq<char>,
    pub num: Seq<char>,
    pub text: Seq<char>,
}

impl View for DiffLine {
    type V = DiffLineView;

    open spec fn view(&self) -> DiffLineView {
        DiffLineView { class: self.class@, num: self.num@, text: self.text@ }
    }
}

/// The diff of one file.
pub struct FileDiff {
    pub is_binary: bool,
    pub empty_label: Option<String>,
    pub size_html: String,
    pub lines: Vec<DiffLine>,
}

/// One changed file in the summary of a commit.
pub struct CommitFileSummary {
    pub file_name: String,
    pub adds: usize,
    pub dels: usize,
    pub is_binary: bool,
    pub is_added: bool,
    pub is_deleted: bool,
    pub empty_label: Option<String>,
    pub diff_href: String,
}

/// The README shown on a repository's front page.
pub struct ReadmeDisplay {
    pub content: String,
    pub is_markdown: bool,
}

/// One branch or tag in the list of references.
pub struct RefDisplay {
    pub href: String,
    pub name: String,
    pub ref_type: String,
    pub author: String,
    pub time: DisplayTime,
}

/// One entry of a directory listing.
pub struct TreeEntryDisplay {
    pub name: String,
    pub is_dir: bool,
    pub size_text: String,
    pub time: Option<DisplayTime>,
    pub href: String,
}

/// One commit of the log.
pub struct CommitDisplay {
    pub href: String,
    pub hash: String,
    pub short_hash: String,
    pub author: String,
    pub message: String,
    pub time: DisplayTime,
    pub refs: Vec<CommitRefDisplay>,
}

/// A branch or tag label next to a commit of the log.
pub struct CommitRefDisplay {
    pub name: String,
    pub class: &'static str,
}

/// The list of repositories.
pub struct ReposTemplate {
    pub repos: Vec<RepoInfo>,
    pub owner: String,
    pub chrome: PageChrome,
}

/// A repository's front page.
pub struct IndexTemplate {
    pub chrome: PageChrome,
    pub nav: RepoNav,
    pub readme: Option<ReadmeDisplay>,
}

/// The list of branches and tags.
pub struct RefsTemplate {
    pub chrome: PageChrome,
    pub nav: RepoNav,
    pub refs: Vec<RefDisplay>,
    pub pager: Pager,
}

/// A directory listing.
pub struct TreeTemplate {
    pub chrome: PageChrome,
    pub nav: RepoNav,
    pub entries: Vec<TreeEntryDisplay>,
    pub path: String,
    pub parent_href: String,
    pub root_href: String,
    pub path_components: Vec<PathComponent>,
}

/// The commit log.
pub struct LogTemplate {
    pub chrome: PageChrome,
    pub nav: RepoNav,
    pub commits: Vec<CommitDisplay>,
    pub pager: Pager,
}

/// A file's content.
pub struct BlobTemplate {
    pub chrome: PageChrome,
    pub nav: RepoNav,
    pub file_path: String,
    pub lines: Vec<DiffLine>,
    pub blob_href: String,
    pub root_href: String,
    pub is_binary: bool,
    pub is_image: bool,
    pub path_components: Vec<PathComponent>,
}

/// A commit with the summary of its changes.
pub struct CommitTemplate {
    pub chrome: PageChrome,
    pub nav: RepoNav,
    pub commit_title: String,
    pub commit_message: String,
    pub commit_hash: String,
    pub branch: Option<String>,
    pub tags: Vec<String>,
    pub author: String,
    pub author_email: String,
    pub time: DisplayTime,
    pub files: Vec<CommitFileSummary>,
    pub files_changed: usize,
    pub insertions: usize,
    pub deletions: usize,
}

/// The diff of one file of a commit, loaded on demand.
pub struct CommitDiffBodyTemplate {
    pub diff: FileDiff,
}

/// An error page.
pub struct ErrorTemplate {
    pub chrome: PageChrome,
    pub heading: String,
    pub message: String,
}

} // verus!
