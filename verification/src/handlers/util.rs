//! Request checks, link building and paging shared by the pages.

use vstd::prelude::*;

use crate::git::refs::{get_header_refs, header_refs_spec, string_views, HeadState, ResolvedRef};
use crate::handlers::blob::join_with;
use crate::handlers::errors::AppError;
use crate::templates::{DisplayTime, RepoNav, PageChrome, PageLink, PageLinkView, Pager, PathComponent, PathComponentView};
use crate::text::{dec_int, dec_string_signed, char_is_control, char_is_whitespace, is_control_char, is_whitespace_char, chars_of, dec_nat, dec_string, has_char, owned, push_char, push_str, str_eq, string_of};

verus! {

/// Number of items on one page of a paginated list.
pub const PAGE_SIZE: usize = 20;

/// `url` with `key=value` added to its query string.
pub open spec fn with_param(url: Seq<char>, key: Seq<char>, value: Seq<char>) -> Seq<char> {
    url + seq![if url.contains('?') { '&' } else { '?' }] + key + seq!['='] + value
}

/// `url` with the reference added when there is one.
pub open spec fn with_ref(url: Seq<char>, display_ref: Seq<char>) -> Seq<char> {
    if display_ref.len() == 0 {
        url
    } else {
        with_param(url, "ref"@, display_ref)
    }
}

/// `url` with the page number added when it is past the first page.
pub open spec fn with_page(url: Seq<char>, page: nat) -> Seq<char> {
    if page <= 1 {
        url
    } else {
        with_param(url, "page"@, dec_nat(page))
    }
}

/// Link to a page of a list.
pub open spec fn page_url(base: Seq<char>, display_ref: Seq<char>, page: nat) -> Seq<char> {
    with_page(with_ref(base, display_ref), page)
}

fn append_param(url: String, key: &str, value: &str) -> (r: String)
    ensures
        r@ == with_param(url@, key@, value@),
{
    let mut url = url;
    let sep = if has_char(url.as_str(), '?') { '&' } else { '?' };
    push_char(&mut url, sep);
    push_str(&mut url, key);
    push_char(&mut url, '=');
    push_str(&mut url, value);
    url
}

/// Adds `ref=<display_ref>` to a link, unless the reference is empty.
pub fn append_ref(url: String, display_ref: &str) -> (r: String)
    ensures
        r@ == with_ref(url@, display_ref@),
{
    if display_ref.is_empty() {
        url
    } else {
        append_param(url, "ref", display_ref)
    }
}

/// Adds `page=<page>` to a link, unless it is the first page.
pub fn append_page(url: String, page: usize) -> (r: String)
    ensures
        r@ == with_page(url@, page as nat),
{
    if page <= 1 {
        return url;
    }
    let p = dec_string(page as u64);
    append_param(url, "page", p.as_str())
}

/// Number of pages that `total` items fill, at least one.
pub open spec fn page_count(total: nat, page_size: nat) -> nat {
    let pages = (total + page_size - 1) / (page_size as int);
    if pages < 1 {
        1
    } else {
        pages as nat
    }
}

/// Number of pages for `total` items, `page_size` to a page, at least one.
pub fn total_pages(total: usize, page_size: usize) -> (r: usize)
    requires
        page_size > 0,
    ensures
        r == page_count(total as nat, page_size as nat),
{
    assert(total % page_size != 0 ==> total / page_size < usize::MAX) by (nonlinear_arith)
        requires page_size > 0, total <= usize::MAX;
    let pages = total / page_size + if total % page_size == 0 { 0 } else { 1 };
    assert(pages == (total + page_size - 1) / (page_size as int)) by (nonlinear_arith)
        requires
            page_size > 0,
            pages == total / page_size + if total % page_size == 0 { 0int } else { 1int },
    ;
    if pages < 1 {
        1
    } else {
        pages
    }
}

fn page_href(base: &str, display_ref: &str, page: usize) -> (r: String)
    ensures
        r@ == page_url(base@, display_ref@, page as nat),
{
    append_page(append_ref(owned(base), display_ref), page)
}

/// The link to one page.
pub open spec fn numbered_link(base: Seq<char>, display_ref: Seq<char>, current: nat, page: nat) -> PageLinkView {
    PageLinkView {
        label: dec_nat(page),
        is_current: page == current,
        is_ellipsis: false,
        href: page_url(base, display_ref, page),
    }
}

/// The gap between page links.
pub open spec fn ellipsis_link() -> PageLinkView {
    PageLinkView { label: "..."@, is_current: false, is_ellipsis: true, href: Seq::empty() }
}

fn page_link(base: &str, display_ref: &str, current: usize, page: usize) -> (r: PageLink)
    ensures
        r@ == numbered_link(base@, display_ref@, current as nat, page as nat),
{
    PageLink {
        label: dec_string(page as u64),
        is_current: page == current,
        is_ellipsis: false,
        href: page_href(base, display_ref, page),
    }
}

fn ellipsis() -> (r: PageLink)
    ensures
        r@ == ellipsis_link(),
{
    PageLink { label: owned("..."), is_current: false, is_ellipsis: true, href: String::new() }
}

/// First page of the window around the current page.
pub open spec fn window_start(current: nat) -> nat {
    if current >= 3 {
        (current - 2) as nat
    } else {
        1
    }
}

/// Last page of the window around the current page.
pub open spec fn window_end(current: nat, total: nat) -> nat {
    let e = if current + 2 < total { current + 2 } else { total };
    if e < window_start(current) {
        window_start(current)
    } else {
        e
    }
}

/// The page list: the pages within two of the current one, the first and
/// the last page, and an ellipsis wherever pages are left out; nothing when
/// there is a single page.
pub open spec fn page_links(base: Seq<char>, display_ref: Seq<char>, current: nat, total: nat) -> Seq<PageLinkView> {
    if total <= 1 {
        Seq::empty()
    } else {
        let start = window_start(current);
        let end = window_end(current, total);
        let head = if start > 1 {
            seq![numbered_link(base, display_ref, current, 1)] + if start > 2 {
                seq![ellipsis_link()]
            } else {
                Seq::empty()
            }
        } else {
            Seq::empty()
        };
        let middle = Seq::new(
            (end - start + 1) as nat,
            |i: int| numbered_link(base, display_ref, current, (start + i) as nat),
        );
        let tail = if end < total {
            (if end + 1 < total { seq![ellipsis_link()] } else { Seq::empty() }) + seq![
                numbered_link(base, display_ref, current, total),
            ]
        } else {
            Seq::empty()
        };
        head + middle + tail
    }
}

/// Views of a list of page links.
pub open spec fn link_views(v: Seq<PageLink>) -> Seq<PageLinkView> {
    v.map_values(|l: PageLink| l@)
}

/// Builds the page list of a paginated view (see `page_links`).
pub fn build_page_links(base: &str, display_ref: &str, current: usize, total: usize) -> (r: Vec<PageLink>)
    requires
        total <= 1 || current + 2 <= usize::MAX,
    ensures
        link_views(r@) == page_links(base@, display_ref@, current as nat, total as nat),
{
    let mut links: Vec<PageLink> = Vec::new();
    if total <= 1 {
        assert(link_views(links@) =~= page_links(base@, display_ref@, current as nat, total as nat));
        return links;
    }
    let ghost b = base@;
    let ghost d = display_ref@;
    let ghost c = current as nat;
    let ghost t = total as nat;
    let window = 2usize;
    let s0 = if current >= window { current - window } else { 0 };
    let start = if s0 < 1 { 1 } else { s0 };
    let e0 = if current + window < total { current + window } else { total };
    let end = if e0 < start { start } else { e0 };
    assert(start as nat == window_start(c));
    assert(end as nat == window_end(c, t));
    let ghost head: Seq<PageLinkView> = if start > 1 {
        seq![numbered_link(b, d, c, 1)] + if start > 2 { seq![ellipsis_link()] } else { Seq::empty() }
    } else {
        Seq::empty()
    };
    if start > 1 {
        links.push(page_link(base, display_ref, current, 1));
        if start > 2 {
            links.push(ellipsis());
        }
    }
    assert(link_views(links@) =~= head);
    let count = end - start + 1;
    let mut k: usize = 0;
    while k < count
        invariant
            k <= count,
            count == end - start + 1,
            1 <= start <= end,
            b == base@,
            d == display_ref@,
            c == current as nat,
            link_views(links@) =~= head + Seq::new(
                k as nat,
                |i: int| numbered_link(b, d, c, (start + i) as nat),
            ),
        decreases count - k,
    {
        let ghost before = links@;
        links.push(page_link(base, display_ref, current, start + k));
        assert(link_views(links@) =~= link_views(before).push(links@[links@.len() - 1]@));
        k += 1;
        assert(link_views(links@) =~= head + Seq::new(
            k as nat,
            |i: int| numbered_link(b, d, c, (start + i) as nat),
        ));
    }
    let ghost mid = Seq::new(
        (end - start + 1) as nat,
        |i: int| numbered_link(b, d, c, (start + i) as nat),
    );
    assert(link_views(links@) =~= head + mid);
    if end < total {
        if end + 1 < total {
            links.push(ellipsis());
        }
        links.push(page_link(base, display_ref, current, total));
    }
    assert(link_views(links@) =~= page_links(b, d, c, t));
    links
}

/// Builds the page list and the previous/next links of a paginated view.
/// Whether `p` is the pager of page `current` of `total` pages: the page
/// list, and links to the previous and next pages where there are such.
pub open spec fn is_pager(p: Pager, base: Seq<char>, display_ref: Seq<char>, current: nat, total: nat) -> bool {
    &&& link_views(p.page_links@) == page_links(base, display_ref, current, total)
    &&& p.has_prev == (current > 1)
    &&& p.has_next == (current < total)
    &&& p.prev_href@ == (if current > 1 {
        page_url(base, display_ref, (current - 1) as nat)
    } else {
        Seq::<char>::empty()
    })
    &&& p.next_href@ == (if current < total {
        page_url(base, display_ref, (current + 1) as nat)
    } else {
        Seq::<char>::empty()
    })
}

/// Builds the page list and the previous/next links of a paginated view.
pub fn build_pager(base: &str, display_ref: &str, current: usize, total: usize) -> (r: Pager)
    requires
        total <= 1 || current + 2 <= usize::MAX,
    ensures
        is_pager(r, base@, display_ref@, current as nat, total as nat),
{
    let has_prev = current > 1;
    let has_next = current < total;
    Pager {
        page_links: build_page_links(base, display_ref, current, total),
        has_prev,
        has_next,
        prev_href: if has_prev { page_href(base, display_ref, current - 1) } else { String::new() },
        next_href: if has_next { page_href(base, display_ref, current + 1) } else { String::new() },
    }
}

/// The parts of a path between slashes, in order, empty ones included
/// (what `str::split('/')` yields).
pub open spec fn split_slash(s: Seq<char>) -> Seq<Seq<char>>
    decreases s.len(),
{
    if s.len() == 0 {
        seq![Seq::empty()]
    } else {
        let prev = split_slash(s.drop_last());
        if s.last() == '/' {
            prev.push(Seq::empty())
        } else {
            prev.update(prev.len() - 1, prev.last().push(s.last()))
        }
    }
}

pub proof fn lemma_split_slash_len(s: Seq<char>)
    ensures
        split_slash(s).len() >= 1,
    decreases s.len(),
{
    if s.len() > 0 {
        lemma_split_slash_len(s.drop_last());
    }
}

/// A part that names a directory entry: not empty and not ".".
pub open spec fn is_named_part(p: Seq<char>) -> bool {
    p.len() > 0 && p != seq!['.']
}

/// The parent-directory part "..".
pub open spec fn is_parent_part(p: Seq<char>) -> bool {
    p == seq!['.', '.']
}

/// Number of parts that name an entry.
pub open spec fn named_count(parts: Seq<Seq<char>>) -> nat
    decreases parts.len(),
{
    if parts.len() == 0 {
        0
    } else {
        named_count(parts.drop_last()) + if is_named_part(parts.last()) { 1nat } else { 0nat }
    }
}

/// Whether some part is "..".
pub open spec fn has_parent_part(parts: Seq<Seq<char>>) -> bool {
    exists|i: int| 0 <= i < parts.len() && is_parent_part(#[trigger] parts[i])
}

/// The path starts at the root.
pub open spec fn is_rooted(p: Seq<char>) -> bool {
    p.len() > 0 && p[0] == '/'
}

/// The path starts with the current directory "." as its own part.
pub open spec fn starts_with_cur_dir(p: Seq<char>) -> bool {
    p.len() > 0 && p[0] == '.' && (p.len() == 1 || p[1] == '/')
}

/// A repository name: exactly one plain path component (no root, no "."
/// or ".." component, no second component).
pub open spec fn safe_repo_name(p: Seq<char>) -> bool {
    &&& p.len() > 0
    &&& !is_rooted(p)
    &&& !starts_with_cur_dir(p)
    &&& !has_parent_part(split_slash(p))
    &&& named_count(split_slash(p)) == 1
}

/// A path inside a repository: empty, or only plain components (no root,
/// no leading ".", no "..").
pub open spec fn safe_repo_path(p: Seq<char>) -> bool {
    p.len() == 0 || (!is_rooted(p) && !starts_with_cur_dir(p) && !has_parent_part(split_slash(p)))
}

/// Facts about the parts of `p` found in one scan.
fn scan_parts(p: &Vec<char>) -> (r: (usize, bool))
    ensures
        r.0 as nat == named_count(split_slash(p@)),
        r.1 == has_parent_part(split_slash(p@)),
{
    let mut done_named: usize = 0;
    let mut done_parent = false;
    let mut cur: Vec<char> = Vec::new();
    let mut i: usize = 0;
    proof {
        assert(p@.take(0) =~= Seq::<char>::empty());
    }
    while i < p.len()
        invariant
            i <= p.len(),
            done_named + cur.len() <= i,
            ({
                let segs = split_slash(p@.take(i as int));
                &&& segs.len() >= 1
                &&& cur@ == segs.last()
                &&& done_named as nat == named_count(segs.drop_last())
                &&& done_parent == has_parent_part(segs.drop_last())
            }),
        decreases p.len() - i,
    {
        let ghost prev = split_slash(p@.take(i as int));
        assert(p@.take(i + 1).drop_last() =~= p@.take(i as int));
        let c = p[i];
        if c == '/' {
            let named = cur.len() > 0 && !(cur.len() == 1 && cur[0] == '.');
            let parent = cur.len() == 2 && cur[0] == '.' && cur[1] == '.';
            proof {
                assert(named == is_named_part(cur@)) by {
                    if cur.len() == 1 && cur[0] == '.' {
                        assert(cur@ =~= seq!['.']);
                    }
                }
                assert(parent == is_parent_part(cur@)) by {
                    if parent {
                        assert(cur@ =~= seq!['.', '.']);
                    }
                }
                let segs = split_slash(p@.take(i + 1));
                assert(segs == prev.push(Seq::empty()));
                assert(segs.drop_last() =~= prev);
                assert(prev =~= prev.drop_last().push(prev.last()));
                if has_parent_part(prev) && !has_parent_part(prev.drop_last()) {
                    let k = choose|k: int| 0 <= k < prev.len() && is_parent_part(#[trigger] prev[k]);
                    assert(k == prev.len() - 1);
                }
                if has_parent_part(prev.drop_last()) {
                    let k = choose|k: int| 0 <= k < prev.drop_last().len() && is_parent_part(#[trigger] prev.drop_last()[k]);
                    assert(is_parent_part(prev[k]));
                }
                if parent {
                    assert(is_parent_part(prev[prev.len() - 1]));
                }
            }
            if named {
                done_named += 1;
            }
            done_parent = done_parent || parent;
            cur = Vec::new();
            proof {
                let segs = split_slash(p@.take(i + 1));
                assert(cur@ =~= segs.last());
            }
        } else {
            cur.push(c);
            proof {
                let segs = split_slash(p@.take(i + 1));
                lemma_split_slash_len(p@.take(i as int));
                assert(segs == prev.update(prev.len() - 1, prev.last().push(c)));
                assert(segs.drop_last() =~= prev.drop_last());
                assert(cur@ =~= segs.last());
            }
        }
        i += 1;
    }
    assert(p@.take(p.len() as int) =~= p@);
    let ghost segs = split_slash(p@);
    let named = cur.len() > 0 && !(cur.len() == 1 && cur[0] == '.');
    let parent = cur.len() == 2 && cur[0] == '.' && cur[1] == '.';
    proof {
        assert(named == is_named_part(cur@)) by {
            if cur.len() == 1 && cur[0] == '.' {
                assert(cur@ =~= seq!['.']);
            }
        }
        assert(parent == is_parent_part(cur@)) by {
            if parent {
                assert(cur@ =~= seq!['.', '.']);
            }
        }
        assert(segs =~= segs.drop_last().push(segs.last()));
        if has_parent_part(segs) && !has_parent_part(segs.drop_last()) {
            let k = choose|k: int| 0 <= k < segs.len() && is_parent_part(#[trigger] segs[k]);
            assert(k == segs.len() - 1);
        }
        if has_parent_part(segs.drop_last()) {
            let k = choose|k: int| 0 <= k < segs.drop_last().len() && is_parent_part(#[trigger] segs.drop_last()[k]);
            assert(is_parent_part(segs[k]));
        }
        if parent {
            assert(is_parent_part(segs[segs.len() - 1]));
        }
    }
    let total = if named { done_named + 1 } else { done_named };
    (total, done_parent || parent)
}

fn rooted_or_cur_dir(p: &Vec<char>) -> (r: bool)
    ensures
        r == (is_rooted(p@) || starts_with_cur_dir(p@)),
{
    p.len() > 0 && (p[0] == '/' || (p[0] == '.' && (p.len() == 1 || p[1] == '/')))
}

/// Whether a name from a request names a single entry of the repository
/// folder (see `safe_repo_name`).
pub fn is_safe_repo_name(name: &str) -> (r: bool)
    ensures
        r == safe_repo_name(name@),
{
    let cs = chars_of(name);
    if cs.len() == 0 {
        return false;
    }
    if rooted_or_cur_dir(&cs) {
        return false;
    }
    let (named, parent) = scan_parts(&cs);
    !parent && named == 1
}

/// Whether a path from a request stays inside the repository (see
/// `safe_repo_path`).
pub fn is_safe_repo_path(path: &str) -> (r: bool)
    ensures
        r == safe_repo_path(path@),
{
    let cs = chars_of(path);
    if cs.len() == 0 {
        return true;
    }
    if rooted_or_cur_dir(&cs) {
        return false;
    }
    let (_named, parent) = scan_parts(&cs);
    !parent
}

/// The parts of a path that name entries, in order.
pub open spec fn named_parts(parts: Seq<Seq<char>>) -> Seq<Seq<char>>
    decreases parts.len(),
{
    if parts.len() == 0 {
        Seq::empty()
    } else if is_named_part(parts.last()) {
        named_parts(parts.drop_last()).push(parts.last())
    } else {
        named_parts(parts.drop_last())
    }
}

/// The components of a path as `Path::components` gives them on Unix: the
/// root as "/", a leading current directory as ".", then each part that
/// names an entry ("." parts, empty parts and a trailing '/' give none).
pub open spec fn path_components_of(p: Seq<char>) -> Seq<Seq<char>> {
    let lead: Seq<Seq<char>> = if is_rooted(p) {
        seq![seq!['/']]
    } else if starts_with_cur_dir(p) {
        seq![seq!['.']]
    } else {
        Seq::empty()
    };
    lead + named_parts(split_slash(p))
}

/// Whether `path` lies within `base`: the components of `base` begin those
/// of `path` (`Path::starts_with`).
pub open spec fn within(base: Seq<char>, path: Seq<char>) -> bool {
    let b = path_components_of(base);
    let q = path_components_of(path);
    b.len() <= q.len() && q.take(b.len() as int) == b
}

/// The parts of a path that name entries (see `named_parts`).
fn named_parts_of(p: &Vec<char>) -> (r: Vec<String>)
    ensures
        string_views(r@) == named_parts(split_slash(p@)),
{
    let mut done: Vec<String> = Vec::new();
    let mut cur: Vec<char> = Vec::new();
    let mut i: usize = 0;
    proof {
        assert(p@.take(0) =~= Seq::<char>::empty());
        assert(string_views(done@) =~= Seq::<Seq<char>>::empty());
    }
    while i < p.len()
        invariant
            i <= p.len(),
            ({
                let segs = split_slash(p@.take(i as int));
                &&& segs.len() >= 1
                &&& cur@ == segs.last()
                &&& string_views(done@) == named_parts(segs.drop_last())
            }),
        decreases p.len() - i,
    {
        let ghost prev = split_slash(p@.take(i as int));
        assert(p@.take(i + 1).drop_last() =~= p@.take(i as int));
        let c = p[i];
        if c == '/' {
            let named = cur.len() > 0 && !(cur.len() == 1 && cur[0] == '.');
            proof {
                assert(named == is_named_part(cur@)) by {
                    if cur.len() == 1 && cur[0] == '.' {
                        assert(cur@ =~= seq!['.']);
                    }
                }
                let segs = split_slash(p@.take(i + 1));
                assert(segs == prev.push(Seq::empty()));
                assert(segs.drop_last() =~= prev);
                assert(prev.drop_last().push(prev.last()) =~= prev);
            }
            if named {
                let ghost before = string_views(done@);
                done.push(string_of(&cur));
                assert(string_views(done@) =~= before.push(cur@));
            }
            cur = Vec::new();
            proof {
                let segs = split_slash(p@.take(i + 1));
                assert(cur@ =~= segs.last());
            }
        } else {
            cur.push(c);
            proof {
                let segs = split_slash(p@.take(i + 1));
                lemma_split_slash_len(p@.take(i as int));
                assert(segs == prev.update(prev.len() - 1, prev.last().push(c)));
                assert(segs.drop_last() =~= prev.drop_last());
                assert(cur@ =~= segs.last());
            }
        }
        i += 1;
    }
    assert(p@.take(p.len() as int) =~= p@);
    let ghost segs = split_slash(p@);
    let named = cur.len() > 0 && !(cur.len() == 1 && cur[0] == '.');
    proof {
        assert(named == is_named_part(cur@)) by {
            if cur.len() == 1 && cur[0] == '.' {
                assert(cur@ =~= seq!['.']);
            }
        }
        assert(segs.drop_last().push(segs.last()) =~= segs);
    }
    if named {
        let ghost before = string_views(done@);
        done.push(string_of(&cur));
        assert(string_views(done@) =~= before.push(cur@));
    }
    done
}

/// The components of a path (see `path_components_of`).
fn components_of(path: &str) -> (r: Vec<String>)
    ensures
        string_views(r@) == path_components_of(path@),
{
    let cs = chars_of(path);
    let mut out: Vec<String> = Vec::new();
    proof {
        reveal_strlit("/");
        reveal_strlit(".");
    }
    if cs.len() > 0 && cs[0] == '/' {
        out.push(owned("/"));
    } else if cs.len() > 0 && cs[0] == '.' && (cs.len() == 1 || cs[1] == '/') {
        out.push(owned("."));
    }
    let ghost lead = string_views(out@);
    let ghost lead_spec: Seq<Seq<char>> = if is_rooted(path@) {
        seq![seq!['/']]
    } else if starts_with_cur_dir(path@) {
        seq![seq!['.']]
    } else {
        Seq::empty()
    };
    proof {
        assert("/"@ =~= seq!['/']);
        assert("."@ =~= seq!['.']);
        assert(lead =~= lead_spec);
    }
    let named = named_parts_of(&cs);
    let mut i: usize = 0;
    while i < named.len()
        invariant
            i <= named@.len(),
            string_views(out@) == lead + string_views(named@).take(i as int),
        decreases named.len() - i,
    {
        let ghost before = string_views(out@);
        out.push(named[i].clone());
        assert(string_views(out@) =~= before.push(named@[i as int]@));
        assert(string_views(named@).take(i + 1) =~= string_views(named@).take(i as int).push(named@[i as int]@));
        i += 1;
    }
    assert(string_views(named@).take(named@.len() as int) =~= string_views(named@));
    assert(string_views(out@) =~= path_components_of(path@));
    out
}

/// Whether `path` lies within `base` (see `within`), as the repository
/// folder is checked to hold each repository it serves.
pub fn path_within(base: &str, path: &str) -> (r: bool)
    ensures
        r == within(base@, path@),
{
    let b = components_of(base);
    let q = components_of(path);
    if b.len() > q.len() {
        return false;
    }
    let mut i: usize = 0;
    while i < b.len()
        invariant
            i <= b@.len() <= q@.len(),
            string_views(b@) == path_components_of(base@),
            string_views(q@) == path_components_of(path@),
            forall|k: int| 0 <= k < i ==> (#[trigger] b@[k])@ == q@[k]@,
        decreases b.len() - i,
    {
        if !str_eq(b[i].as_str(), q[i].as_str()) {
            assert(string_views(q@).take(b@.len() as int)[i as int] != string_views(b@)[i as int]);
            return false;
        }
        i += 1;
    }
    assert(string_views(q@).take(b@.len() as int) =~= string_views(b@));
    true
}

/// What a request for a repository page gets before anything is read: not
/// found when the repository cannot be opened, else the reference it asks
/// for (see `parse_ref`).
pub fn context_request(repo_found: bool, ref_name: Option<String>) -> (r: Result<(String, Option<String>), AppError>)
    ensures
        !repo_found ==> r is Err && r->Err_0 is NotFound,
        repo_found ==> ({
            let name = requested_ref(opt_view(ref_name));
            match r {
                Ok((display_ref, git_ref)) => {
                    &&& safe_ref_name(name)
                    &&& name == "HEAD"@ ==> display_ref@.len() == 0 && git_ref is None
                    &&& name != "HEAD"@ ==> display_ref@ == name && opt_view(git_ref) == Some(name)
                },
                Err(e) => !safe_ref_name(name) && e is BadRequest,
            }
        }),
{
    if !repo_found {
        return Err(AppError::NotFound);
    }
    parse_ref(ref_name)
}

/// A reference name from a request: not empty, and without control or
/// whitespace characters.
pub open spec fn safe_ref_name(name: Seq<char>) -> bool {
    name.len() > 0 && forall|i: int|
        0 <= i < name.len() ==> !is_control_char(#[trigger] name[i]) && !is_whitespace_char(name[i])
}

/// Whether a reference name from a request may be looked up (see
/// `safe_ref_name`).
pub fn is_safe_ref_name(name: &str) -> (r: bool)
    ensures
        r == safe_ref_name(name@),
{
    let cs = chars_of(name);
    if cs.len() == 0 {
        return false;
    }
    let mut i: usize = 0;
    while i < cs.len()
        invariant
            cs@ == name@,
            i <= cs.len(),
            forall|j: int| 0 <= j < i ==> !is_control_char(#[trigger] cs@[j]) && !is_whitespace_char(cs@[j]),
        decreases cs.len() - i,
    {
        if char_is_control(cs[i]) || char_is_whitespace(cs[i]) {
            return false;
        }
        i += 1;
    }
    true
}

/// The media type served for a (lower-case) file extension: the common
/// image types, everything else as plain text.
pub open spec fn media_type(ext: Seq<char>) -> Seq<char> {
    if ext == "png"@ {
        "image/png"@
    } else if ext == "jpg"@ || ext == "jpeg"@ {
        "image/jpeg"@
    } else if ext == "gif"@ {
        "image/gif"@
    } else if ext == "svg"@ {
        "image/svg+xml"@
    } else if ext == "webp"@ {
        "image/webp"@
    } else if ext == "ico"@ {
        "image/x-icon"@
    } else if ext == "bmp"@ {
        "image/bmp"@
    } else if ext == "avif"@ {
        "image/avif"@
    } else {
        "text/plain"@
    }
}

/// Looks up the media type of a file extension (see `media_type`).
pub fn content_type_for_extension(ext: &str) -> (r: &'static str)
    ensures
        r@ == media_type(ext@),
{
    if str_eq(ext, "png") {
        "image/png"
    } else if str_eq(ext, "jpg") || str_eq(ext, "jpeg") {
        "image/jpeg"
    } else if str_eq(ext, "gif") {
        "image/gif"
    } else if str_eq(ext, "svg") {
        "image/svg+xml"
    } else if str_eq(ext, "webp") {
        "image/webp"
    } else if str_eq(ext, "ico") {
        "image/x-icon"
    } else if str_eq(ext, "bmp") {
        "image/bmp"
    } else if str_eq(ext, "avif") {
        "image/avif"
    } else {
        "text/plain"
    }
}

/// The breadcrumb parts of a path: each part between slashes with the
/// path up to the end of that part.
pub open spec fn crumbs(s: Seq<char>) -> Seq<(Seq<char>, Seq<char>)>
    decreases s.len(),
{
    if s.len() == 0 {
        seq![(Seq::empty(), Seq::empty())]
    } else {
        let prev = crumbs(s.drop_last());
        if s.last() == '/' {
            prev.push((Seq::empty(), s))
        } else {
            prev.update(prev.len() - 1, (prev.last().0.push(s.last()), s))
        }
    }
}

pub proof fn lemma_crumbs_len(s: Seq<char>)
    ensures
        crumbs(s).len() >= 1,
    decreases s.len(),
{
    if s.len() > 0 {
        lemma_crumbs_len(s.drop_last());
    }
}

/// How many times `c` occurs in `s`.
pub open spec fn occurrences(s: Seq<char>, c: char) -> nat
    decreases s.len(),
{
    if s.len() == 0 {
        0
    } else {
        occurrences(s.drop_last(), c) + if s.last() == c { 1nat } else { 0nat }
    }
}

/// The names of the breadcrumb's components.
pub open spec fn component_names(cs: Seq<PathComponentView>) -> Seq<Seq<char>> {
    cs.map_values(|c: PathComponentView| c.name)
}

/// The parts between slashes, rejoined with slashes, give back the text,
/// and there is one more part than there are slashes.
proof fn lemma_crumbs_rejoin(s: Seq<char>)
    ensures
        join_with(crumbs(s).map_values(|p: (Seq<char>, Seq<char>)| p.0), '/') == s,
        crumbs(s).len() == occurrences(s, '/') + 1,
    decreases s.len(),
{
    let names = crumbs(s).map_values(|p: (Seq<char>, Seq<char>)| p.0);
    if s.len() == 0 {
        assert(names =~= seq![Seq::<char>::empty()]);
    } else {
        let prev = crumbs(s.drop_last());
        let prev_names = prev.map_values(|p: (Seq<char>, Seq<char>)| p.0);
        lemma_crumbs_rejoin(s.drop_last());
        lemma_crumbs_len(s.drop_last());
        if s.last() == '/' {
            assert(names =~= prev_names.push(Seq::empty()));
            assert(names.drop_last() =~= prev_names);
            assert(join_with(names, '/') =~= s.drop_last() + seq!['/']);
        } else {
            assert(names =~= prev_names.update(prev_names.len() - 1, prev_names.last().push(s.last())));
            if prev_names.len() == 1 {
                assert(join_with(names, '/') =~= prev_names[0].push(s.last()));
            } else {
                assert(names.drop_last() =~= prev_names.drop_last());
                assert(join_with(names, '/') =~= join_with(prev_names.drop_last(), '/') + seq!['/']
                    + prev_names.last().push(s.last()));
            }
        }
        assert(s.drop_last().push(s.last()) =~= s);
    }
}

/// The breadcrumb of a path names every part between its slashes: the
/// names rejoined with '/' give back the path, and there is one component
/// per slash and one more (none for an empty path).
pub proof fn law_breadcrumb_rejoins_path(repo_name: Seq<char>, path: Seq<char>, display_ref: Seq<char>, link_last: bool)
    ensures
        join_with(component_names(path_components(repo_name, path, display_ref, link_last)), '/') == path,
        path_components(repo_name, path, display_ref, link_last).len() == if path.len() == 0 {
            0
        } else {
            occurrences(path, '/') + 1
        },
{
    if path.len() > 0 {
        lemma_crumbs_rejoin(path);
        assert(component_names(path_components(repo_name, path, display_ref, link_last)) =~= crumbs(path).map_values(
            |p: (Seq<char>, Seq<char>)| p.0,
        ));
    } else {
        assert(component_names(path_components(repo_name, path, display_ref, link_last)) =~= Seq::<Seq<char>>::empty());
    }
}

/// Link to a directory of a repository.
pub open spec fn tree_url(repo_name: Seq<char>, path: Seq<char>, display_ref: Seq<char>) -> Seq<char> {
    with_ref(seq!['/'] + repo_name + "/tree?path="@ + path, display_ref)
}

/// The breadcrumb of a path: one component per part between slashes, each
/// linked to its directory, except the last one unless `link_last`;
/// nothing for an empty path.
pub open spec fn path_components(
    repo_name: Seq<char>,
    path: Seq<char>,
    display_ref: Seq<char>,
    link_last: bool,
) -> Seq<PathComponentView> {
    if path.len() == 0 {
        Seq::empty()
    } else {
        let cr = crumbs(path);
        Seq::new(
            cr.len(),
            |k: int|
                PathComponentView {
                    name: cr[k].0,
                    href: if link_last || k < cr.len() - 1 {
                        Some(tree_url(repo_name, cr[k].1, display_ref))
                    } else {
                        None
                    },
                },
        )
    }
}

fn prefix_string(cs: &Vec<char>, n: usize) -> (r: String)
    requires
        n <= cs.len(),
    ensures
        r@ == cs@.take(n as int),
{
    let mut s = String::new();
    let mut i: usize = 0;
    while i < n
        invariant
            n <= cs.len(),
            i <= n,
            s@ == cs@.take(i as int),
        decreases n - i,
    {
        push_char(&mut s, cs[i]);
        i += 1;
        assert(s@ =~= cs@.take(i as int));
    }
    s
}

/// Builds the breadcrumb of a path (see `path_components`).
pub fn build_path_components(repo_name: &str, path: &str, display_ref: &str, link_last: bool) -> (r: Vec<PathComponent>)
    ensures
        r@.map_values(|c: PathComponent| c@) == path_components(repo_name@, path@, display_ref@, link_last),
{
    let mut out: Vec<PathComponent> = Vec::new();
    if path.is_empty() {
        assert(out@.map_values(|c: PathComponent| c@) =~= path_components(repo_name@, path@, display_ref@, link_last));
        return out;
    }
    let cs = chars_of(path);
    let mut names: Vec<Vec<char>> = Vec::new();
    let mut ends: Vec<usize> = Vec::new();
    names.push(Vec::new());
    ends.push(0);
    let mut i: usize = 0;
    assert(cs@.take(0) =~= Seq::<char>::empty());
    assert(crumbs(cs@.take(0)) =~= seq![(Seq::<char>::empty(), Seq::<char>::empty())]);
    while i < cs.len()
        invariant
            cs@ == path@,
            i <= cs.len(),
            ({
                let cr = crumbs(cs@.take(i as int));
                &&& names.len() == cr.len()
                &&& ends.len() == cr.len()
                &&& names.len() >= 1
                &&& forall|k: int| 0 <= k < cr.len() ==> (#[trigger] names@[k])@ == cr[k].0
                &&& forall|k: int| 0 <= k < cr.len() ==> #[trigger] ends@[k] <= i && cs@.take(ends@[k] as int) == cr[k].1
            }),
        decreases cs.len() - i,
    {
        let ghost prev = crumbs(cs@.take(i as int));
        assert(cs@.take(i + 1).drop_last() =~= cs@.take(i as int));
        let c = cs[i];
        if c == '/' {
            names.push(Vec::new());
            ends.push(i + 1);
            proof {
                let cr = crumbs(cs@.take(i + 1));
                assert(cr == prev.push((Seq::<char>::empty(), cs@.take(i + 1))));
                assert(names@[names.len() - 1]@ =~= Seq::<char>::empty());
            }
        } else {
            let mut last = names.pop().unwrap();
            last.push(c);
            names.push(last);
            ends.pop();
            ends.push(i + 1);
            proof {
                lemma_crumbs_len(cs@.take(i as int));
                let cr = crumbs(cs@.take(i + 1));
                assert(cr == prev.update(prev.len() - 1, (prev.last().0.push(c), cs@.take(i + 1))));
            }
        }
        i += 1;
    }
    assert(cs@.take(cs.len() as int) =~= cs@);
    let ghost cr = crumbs(path@);
    let count = names.len();
    let mut k: usize = 0;
    while k < count
        invariant
            cs@ == path@,
            path@.len() > 0,
            cr == crumbs(path@),
            count == names.len(),
            count == ends.len(),
            count == cr.len(),
            k <= count,
            forall|j: int| 0 <= j < cr.len() ==> (#[trigger] names@[j])@ == cr[j].0,
            forall|j: int| 0 <= j < cr.len() ==> #[trigger] ends@[j] <= cs.len() && cs@.take(ends@[j] as int) == cr[j].1,
            out@.map_values(|c: PathComponent| c@) =~= path_components(repo_name@, path@, display_ref@, link_last).take(k as int),
        decreases count - k,
    {
        let name = string_of(&names[k]);
        let href = if link_last || k + 1 < count {
            let mut url = String::new();
            push_char(&mut url, '/');
            push_str(&mut url, repo_name);
            push_str(&mut url, "/tree?path=");
            let pre = prefix_string(&cs, ends[k]);
            push_str(&mut url, pre.as_str());
            Some(append_ref(url, display_ref))
        } else {
            None
        };
        let ghost before = out@;
        out.push(PathComponent { name, href });
        proof {
            let pc = path_components(repo_name@, path@, display_ref@, link_last);
            assert(out@.map_values(|c: PathComponent| c@) =~= before.map_values(|c: PathComponent| c@).push(pc[k as int]));
            assert(pc.take(k + 1) =~= pc.take(k as int).push(pc[k as int]));
        }
        k += 1;
    }
    proof {
        let pc = path_components(repo_name@, path@, display_ref@, link_last);
        assert(pc.take(count as int) =~= pc);
    }
    out
}

/// The reference a request names, or "HEAD" when it names none.
pub open spec fn requested_ref(ref_name: Option<Seq<char>>) -> Seq<char> {
    match ref_name {
        Some(r) => r,
        None => "HEAD"@,
    }
}

/// Optional string view.
pub open spec fn opt_view(o: Option<String>) -> Option<Seq<char>> {
    match o {
        Some(s) => Some(s@),
        None => None,
    }
}

/// Splits a requested reference into the reference shown in links (empty
/// for "HEAD") and the reference to look up (none for "HEAD"); an unsafe
/// name is a bad request.
pub fn parse_ref(ref_name: Option<String>) -> (r: Result<(String, Option<String>), AppError>)
    ensures
        ({
            let name = requested_ref(opt_view(ref_name));
            match r {
                Ok((display_ref, git_ref)) => {
                    &&& safe_ref_name(name)
                    &&& name == "HEAD"@ ==> display_ref@.len() == 0 && git_ref is None
                    &&& name != "HEAD"@ ==> display_ref@ == name && opt_view(git_ref) == Some(name)
                },
                Err(e) => !safe_ref_name(name) && e is BadRequest,
            }
        }),
{
    let ref_name = match ref_name {
        Some(r) => r,
        None => owned("HEAD"),
    };
    if !is_safe_ref_name(ref_name.as_str()) {
        return Err(AppError::BadRequest);
    }
    if str_eq(ref_name.as_str(), "HEAD") {
        Ok((String::new(), None))
    } else {
        Ok((ref_name.clone(), Some(ref_name)))
    }
}

/// The site-wide parts of a page that is not about a repository.
pub fn site_chrome(site_title: String, css_version: &'static str, js_version: &'static str) -> (r: PageChrome)
    ensures
        r.site_title == site_title,
        r.css_version == css_version,
        r.js_version == js_version,
        r.header_repo is None,
        r.header_branch is None,
        r.header_tag is None,
{
    PageChrome {
        site_title,
        css_version,
        js_version,
        header_repo: None,
        header_branch: None,
        header_tag: None,
    }
}

/// "1 <unit> ago", or "<n> <unit>s ago".
pub open spec fn ago(n: int, unit: Seq<char>) -> Seq<char> {
    if n == 1 {
        "1 "@ + unit + " ago"@
    } else {
        dec_int(n) + seq![' '] + unit + "s ago"@
    }
}

/// How long before `now` the time `timestamp` was, in the largest unit that
/// fits (seconds, minutes, hours, days, months of 30 days, years of 365
/// days); times in the future count as 0 seconds.
pub open spec fn relative_phrase(now: int, timestamp: int) -> Seq<char> {
    let seconds = if now - timestamp > 0 { now - timestamp } else { 0 };
    let minutes = seconds / 60;
    let hours = minutes / 60;
    let days = hours / 24;
    if seconds < 60 {
        ago(seconds, "second"@)
    } else if minutes < 60 {
        ago(minutes, "minute"@)
    } else if hours < 24 {
        ago(hours, "hour"@)
    } else if days < 30 {
        ago(days, "day"@)
    } else if days < 365 {
        ago(days / 30, "month"@)
    } else {
        ago(days / 365, "year"@)
    }
}

fn push_ago(s: &mut String, n: u64, unit: &str)
    ensures
        final(s)@ == old(s)@ + ago(n as int, unit@),
{
    if n == 1 {
        push_str(s, "1 ");
        push_str(s, unit);
        push_str(s, " ago");
    } else {
        let d = dec_string(n);
        push_str(s, d.as_str());
        push_char(s, ' ');
        push_str(s, unit);
        push_str(s, "s ago");
    }
    assert(final(s)@ =~= old(s)@ + ago(n as int, unit@));
}

/// The relative time of `timestamp` seen at `now` (see `relative_phrase`).
pub fn relative_time_at(now: i64, timestamp: i64) -> (r: String)
    ensures
        r@ == relative_phrase(now as int, timestamp as int),
{
    let diff: i128 = now as i128 - timestamp as i128;
    let seconds: u64 = if diff > 0 { diff as u64 } else { 0 };
    let minutes = seconds / 60;
    let hours = minutes / 60;
    let days = hours / 24;
    let mut s = String::new();
    if seconds < 60 {
        push_ago(&mut s, seconds, "second");
    } else if minutes < 60 {
        push_ago(&mut s, minutes, "minute");
    } else if hours < 24 {
        push_ago(&mut s, hours, "hour");
    } else if days < 30 {
        push_ago(&mut s, days, "day");
    } else if days < 365 {
        push_ago(&mut s, days / 30, "month");
    } else {
        push_ago(&mut s, days / 365, "year");
    }
    assert(s@ =~= relative_phrase(now as int, timestamp as int));
    s
}

/// Seconds since the Unix epoch by the system clock, if the clock is not
/// before the epoch (`SystemTime::now` and `duration_since`). Nothing is
/// stated of the value: it is the time of the call.
#[verifier::external_body]
fn system_clock_secs() -> (r: Option<u64>) {
    std::time::SystemTime::now().duration_since(std::time::UNIX_EPOCH).ok().map(|d| d.as_secs())
}

/// How long ago `timestamp` was, by the system clock (see
/// `relative_phrase`); a clock before the epoch counts as the epoch.
pub fn relative_time(timestamp: i64) -> (r: String)
    ensures
        exists|now: i64| r@ == relative_phrase(now as int, timestamp as int),
{
    let now: i64 = match system_clock_secs() {
        Some(secs) => secs as i64,
        None => 0,
    };
    relative_time_at(now, timestamp)
}

/// The calendar parts of a Unix timestamp in UTC: year, month, day, hour,
/// minute and second.
pub uninterp spec fn utc_parts(timestamp: i64) -> Option<(i32, u8, u8, u8, u8, u8)>;

/// Earliest timestamp that has a date: -9999-01-01 00:00:00 UTC.
pub const MIN_DATED_TIMESTAMP: i64 = -377705116800;

/// Latest timestamp that has a date: 9999-12-31 23:59:59 UTC.
pub const MAX_DATED_TIMESTAMP: i64 = 253402300799;

/// Calendar parts of a timestamp (`time::OffsetDateTime::from_unix_timestamp`
/// and its `year`, `month`, `day`, `hour`, `minute`, `second`). The contract
/// names the result and states the range in which the crate gives one and
/// the ranges of the parts; it does not state the calendar arithmetic.
#[verifier::external_body]
fn utc_datetime_parts(timestamp: i64) -> (r: Option<(i32, u8, u8, u8, u8, u8)>)
    ensures
        r == utc_parts(timestamp),
        r is Some <==> MIN_DATED_TIMESTAMP <= timestamp <= MAX_DATED_TIMESTAMP,
        r matches Some((y, mo, d, h, mi, s)) ==> -9999 <= y <= 9999 && 1 <= mo <= 12 && 1 <= d <= 31
            && h < 24 && mi < 60 && s < 60,
{
    time::OffsetDateTime::from_unix_timestamp(timestamp).ok().map(
        |t| (t.year(), t.month() as u8, t.day(), t.hour(), t.minute(), t.second()),
    )
}

/// `n` zero-padded to `width` characters, after its sign (`{:0width}`).
pub open spec fn zero_padded(n: int, width: nat) -> Seq<char> {
    let digits = dec_nat((if n < 0 { -n } else { n }) as nat);
    let sign: Seq<char> = if n < 0 { seq!['-'] } else { Seq::empty() };
    let fill = width - sign.len() - digits.len();
    sign + Seq::new((if fill > 0 { fill } else { 0 }) as nat, |i: int| '0') + digits
}

/// The full date of calendar parts: "YYYY-MM-DD hh:mm:ss UTC".
pub open spec fn date_text(p: (i32, u8, u8, u8, u8, u8)) -> Seq<char> {
    zero_padded(p.0 as int, 4) + seq!['-'] + zero_padded(p.1 as int, 2) + seq!['-'] + zero_padded(
        p.2 as int,
        2,
    ) + seq![' '] + zero_padded(p.3 as int, 2) + seq![':'] + zero_padded(p.4 as int, 2) + seq![':']
        + zero_padded(p.5 as int, 2) + " UTC"@
}

/// The full date of a timestamp, or "unix <timestamp>" outside the range
/// of dates.
pub open spec fn full_date_text(timestamp: i64) -> Seq<char> {
    match utc_parts(timestamp) {
        Some(p) => date_text(p),
        None => "unix "@ + dec_int(timestamp as int),
    }
}

fn push_padded(s: &mut String, n: i64, width: usize)
    requires
        width <= 8,
    ensures
        final(s)@ == old(s)@ + zero_padded(n as int, width as nat),
{
    let ghost start = s@;
    let ghost digits = dec_nat((if n < 0 { -(n as int) } else { n as int }) as nat);
    let m: u64 = if n < 0 {
        if n == i64::MIN { 9223372036854775808u64 } else { (-n) as u64 }
    } else {
        n as u64
    };
    let d = dec_string(m);
    let dl = d.unicode_len();
    let sign_len: usize = if n < 0 { 1 } else { 0 };
    if n < 0 {
        push_char(s, '-');
    }
    let mut fill: usize = if dl < width && width - dl > sign_len { width - dl - sign_len } else { 0 };
    let ghost fill0 = fill;
    let ghost pre = s@;
    while fill > 0
        invariant
            fill <= fill0,
            s@ == pre + Seq::new((fill0 - fill) as nat, |i: int| '0'),
        decreases fill,
    {
        push_char(s, '0');
        fill -= 1;
        assert(s@ =~= pre + Seq::new((fill0 - fill) as nat, |i: int| '0'));
    }
    push_str(s, d.as_str());
    assert(final(s)@ =~= old(s)@ + zero_padded(n as int, width as nat));
}

/// Formats a timestamp as a full UTC date (see `full_date_text`).
pub fn full_date(timestamp: i64) -> (r: String)
    ensures
        r@ == full_date_text(timestamp),
{
    let mut s = String::new();
    match utc_datetime_parts(timestamp) {
        Some((y, mo, d, h, mi, se)) => {
            push_padded(&mut s, y as i64, 4);
            push_char(&mut s, '-');
            push_padded(&mut s, mo as i64, 2);
            push_char(&mut s, '-');
            push_padded(&mut s, d as i64, 2);
            push_char(&mut s, ' ');
            push_padded(&mut s, h as i64, 2);
            push_char(&mut s, ':');
            push_padded(&mut s, mi as i64, 2);
            push_char(&mut s, ':');
            push_padded(&mut s, se as i64, 2);
            push_str(&mut s, " UTC");
        },
        None => {
            push_str(&mut s, "unix ");
            let t = dec_string_signed(timestamp);
            push_str(&mut s, t.as_str());
        },
    }
    assert(s@ =~= full_date_text(timestamp));
    s
}

/// A timestamp shown relative to now and as a full date.
/// Whether `t` shows `timestamp`: how long before some present moment it
/// was, and its full UTC date.
pub open spec fn is_display_time(t: DisplayTime, timestamp: i64) -> bool {
    &&& exists|now: i64| t.relative@ == relative_phrase(now as int, timestamp as int)
    &&& t.full@ == full_date_text(timestamp)
}

pub fn display_time(timestamp: i64) -> (r: DisplayTime)
    ensures
        is_display_time(r, timestamp),
{
    DisplayTime { relative: relative_time(timestamp), full: full_date(timestamp) }
}

/// The last part of a path that names an entry, if it is not "..": the
/// file name of the path (`Path::file_name`).
pub open spec fn file_name_of(p: Seq<char>) -> Option<Seq<char>> {
    last_named(split_slash(p))
}

/// The last named part, unless it is "..".
pub open spec fn last_named(parts: Seq<Seq<char>>) -> Option<Seq<char>>
    decreases parts.len(),
{
    if parts.len() == 0 {
        None
    } else if is_named_part(parts.last()) {
        if is_parent_part(parts.last()) {
            None
        } else {
            Some(parts.last())
        }
    } else {
        last_named(parts.drop_last())
    }
}

/// The extension of a file name: what follows its last '.', when that dot
/// is not its first character (`Path::extension` on a file name).
pub open spec fn extension_of(name: Seq<char>) -> Option<Seq<char>> {
    if exists|i: int| 0 < i < name.len() && name[i] == '.' {
        let d = choose|d: int| 0 < d < name.len() && name[d] == '.' && forall|j: int| d < j < name.len() ==> name[j] != '.';
        Some(name.skip(d + 1))
    } else {
        None
    }
}

/// The extension of a path: that of its file name.
pub open spec fn path_extension(p: Seq<char>) -> Option<Seq<char>> {
    match file_name_of(p) {
        Some(n) => extension_of(n),
        None => None,
    }
}

fn last_named_part(cs: &Vec<char>) -> (r: Option<Vec<char>>)
    ensures
        match r {
            Some(v) => file_name_of(cs@) == Some(v@),
            None => file_name_of(cs@) is None,
        },
{
    // Parts are scanned from the end: the file name is the last part that is
    // neither empty nor ".", unless it is "..".
    let mut end = cs.len();
    assert(cs@.take(end as int) =~= cs@);
    loop
        invariant
            end <= cs.len(),
            end == cs.len() || cs@[end as int] == '/',
            last_named(split_slash(cs@)) == last_named(split_slash(cs@.take(end as int))),
        decreases end,
    {
        let mut start = end;
        while start > 0 && cs[start - 1] != '/'
            invariant
                start <= end,
                end <= cs.len(),
                forall|j: int| start <= j < end ==> cs@[j] != '/',
            decreases start,
        {
            start -= 1;
        }
        proof {
            lemma_split_slash_tail(cs@.take(end as int), start as int);
        }
        let len = end - start;
        let dot = len == 1 && cs[start] == '.';
        let dotdot = len == 2 && cs[start] == '.' && cs[start + 1] == '.';
        let ghost part = cs@.subrange(start as int, end as int);
        proof {
            assert(cs@.take(end as int).skip(start as int) =~= part);
            if dot {
                assert(part =~= seq!['.']);
            }
            if dotdot {
                assert(part =~= seq!['.', '.']);
            }
            if len == 1 && !dot {
                assert(part != seq!['.']) by {
                    assert(part[0] != '.');
                }
            }
            if len == 2 && !dotdot {
                assert(part != seq!['.', '.']) by {
                    assert(part[0] != '.' || part[1] != '.');
                }
            }
        }
        if len > 0 && !dot {
            if dotdot {
                return None;
            }
            let mut v: Vec<char> = Vec::new();
            let mut k = start;
            while k < end
                invariant
                    start <= k <= end,
                    end <= cs.len(),
                    v@ == cs@.subrange(start as int, k as int),
                decreases end - k,
            {
                v.push(cs[k]);
                k += 1;
                assert(v@ =~= cs@.subrange(start as int, k as int));
            }
            return Some(v);
        }
        proof {
            assert(!is_named_part(part));
            assert(split_slash(cs@.take(end as int)).last() == part);
        }
        if start == 0 {
            proof {
                let parts = split_slash(cs@.take(end as int));
                assert(parts.drop_last() =~= Seq::<Seq<char>>::empty());
                assert(last_named(parts) == last_named(parts.drop_last()));
                assert(last_named(Seq::<Seq<char>>::empty()) is None);
            }
            return None;
        }
        proof {
            assert(cs@.take(end as int).take(start - 1) =~= cs@.take(start - 1));
        }
        end = start - 1;
    }
}

/// Splitting a path whose last part starts at `start` gives the parts
/// before it and then that part.
pub proof fn lemma_split_slash_tail(s: Seq<char>, start: int)
    requires
        0 <= start <= s.len(),
        start == 0 || s[start - 1] == '/',
        forall|j: int| start <= j < s.len() ==> s[j] != '/',
    ensures
        split_slash(s).last() == s.skip(start),
        split_slash(s).len() >= 1,
        start > 0 ==> split_slash(s).drop_last() == split_slash(s.take(start - 1)),
        start == 0 ==> split_slash(s).len() == 1,
    decreases s.len(),
{
    lemma_split_slash_len(s);
    if s.len() == 0 {
        assert(s.skip(start) =~= Seq::<char>::empty());
    } else if s.len() == start {
        assert(s.last() == '/');
        assert(s.skip(start) =~= Seq::<char>::empty());
        assert(s.drop_last() =~= s.take(start - 1));
    } else {
        lemma_split_slash_tail(s.drop_last(), start);
        lemma_split_slash_len(s.drop_last());
        assert(s.drop_last().skip(start).push(s.last()) =~= s.skip(start));
        if start > 0 {
            assert(s.drop_last().take(start - 1) =~= s.take(start - 1));
        }
    }
}

fn extension_chars(name: &Vec<char>) -> (r: Option<Vec<char>>)
    ensures
        match r {
            Some(v) => extension_of(name@) == Some(v@),
            None => extension_of(name@) is None,
        },
{
    let mut d = name.len();
    while d > 0 && name[d - 1] != '.'
        invariant
            d <= name.len(),
            forall|j: int| d <= j < name.len() ==> name@[j] != '.',
        decreases d,
    {
        d -= 1;
    }
    // `d - 1` is the last dot, if any.
    if d <= 1 {
        proof {
            if exists|i: int| 0 < i < name@.len() && name@[i] == '.' {
                let i = choose|i: int| 0 < i < name@.len() && name@[i] == '.';
                assert(i < d);
            }
        }
        return None;
    }
    let dot = d - 1;
    proof {
        assert(0 < dot < name@.len() && name@[dot as int] == '.');
        let c = choose|c: int| 0 < c < name@.len() && name@[c] == '.' && forall|j: int| c < j < name@.len() ==> name@[j] != '.';
        assert(c == dot);
    }
    let mut v: Vec<char> = Vec::new();
    let mut k = d;
    while k < name.len()
        invariant
            d <= k <= name.len(),
            v@ == name@.subrange(d as int, k as int),
        decreases name.len() - k,
    {
        v.push(name[k]);
        k += 1;
        assert(v@ =~= name@.subrange(d as int, k as int));
    }
    assert(v@ =~= name@.skip(d as int));
    Some(v)
}

/// The extension of a path (see `path_extension`).
pub fn extension(path: &str) -> (r: Option<String>)
    ensures
        opt_view(r) == path_extension(path@),
{
    let cs = chars_of(path);
    match last_named_part(&cs) {
        Some(name) => match extension_chars(&name) {
            Some(e) => Some(string_of(&e)),
            None => None,
        },
        None => None,
    }
}

/// The file name of a path (see `file_name_of`).
pub fn file_name(path: &str) -> (r: Option<String>)
    ensures
        opt_view(r) == file_name_of(path@),
{
    let cs = chars_of(path);
    match last_named_part(&cs) {
        Some(name) => Some(string_of(&name)),
        None => None,
    }
}

/// ASCII upper-case letters turned to lower case, other characters kept.
pub open spec fn ascii_lower(s: Seq<char>) -> Seq<char> {
    s.map_values(|c: char| if 'A' <= c && c <= 'Z' { ((c as u32) + 32) as char } else { c })
}

fn lower_char(c: char) -> (r: char)
    ensures
        r == (if 'A' <= c && c <= 'Z' { ((c as u32) + 32) as char } else { c }),
{
    if 'A' <= c && c <= 'Z' {
        let b = (c as u32) as u8;
        (b + 32) as char
    } else {
        c
    }
}

/// ASCII lower case of a string (`str::to_ascii_lowercase`).
pub fn to_ascii_lowercase(s: &str) -> (r: String)
    ensures
        r@ == ascii_lower(s@),
{
    let cs = chars_of(s);
    let mut out = String::new();
    let mut i: usize = 0;
    while i < cs.len()
        invariant
            cs@ == s@,
            i <= cs.len(),
            out@ == ascii_lower(cs@.take(i as int)),
        decreases cs.len() - i,
    {
        push_char(&mut out, lower_char(cs[i]));
        i += 1;
        assert(out@ =~= ascii_lower(cs@.take(i as int)));
    }
    assert(cs@.take(cs.len() as int) =~= cs@);
    out
}

/// The media type of a file by its path: by its extension in lower case
/// (none counting as empty).
pub open spec fn media_type_of_path(path: Seq<char>) -> Seq<char> {
    media_type(ascii_lower(match path_extension(path) {
        Some(e) => e,
        None => Seq::empty(),
    }))
}

/// The lower-case extension of a path, empty when it has none.
pub fn lowercase_extension(path: &str) -> (r: String)
    ensures
        r@ == ascii_lower(match path_extension(path@) {
            Some(e) => e,
            None => Seq::empty(),
        }),
{
    match extension(path) {
        Some(e) => to_ascii_lowercase(e.as_str()),
        None => {
            assert(ascii_lower(Seq::<char>::empty()) =~= Seq::<char>::empty());
            String::new()
        },
    }
}

/// What a repository page knows of its request: the repository's name, the
/// reference shown in links, the site-wide page parts, and the reference
/// to look up (none for HEAD).
pub struct RepoRequestContext {
    pub repo_name: String,
    pub display_ref: String,
    pub chrome: PageChrome,
    pub git_ref: Option<String>,
}

/// Whether `n` is the navigation bar of page `current_page` of a
/// repository shown at `display_ref`, with the link to its archive.
pub open spec fn is_nav(n: RepoNav, repo_name: Seq<char>, display_ref: Seq<char>, current_page: Seq<char>) -> bool {
    &&& n.repo_name@ == repo_name
    &&& n.display_ref@ == display_ref
    &&& n.current_page@ == current_page
    &&& n.archive_href@ == with_ref(seq!['/'] + repo_name + "/archive.tar.gz"@, display_ref)
}

impl RepoRequestContext {
    /// The reference to look up.
    pub open spec fn git_ref_spec(&self) -> Option<Seq<char>> {
        opt_view(self.git_ref)
    }

    /// The context of a request for `repo_name`, once the reference was
    /// parsed into `display_ref` and `git_ref` and the header was found:
    /// the header shows the repository, its branch and its tag.
    pub fn from_parts(
        site_title: String,
        css_version: &'static str,
        js_version: &'static str,
        repo_name: String,
        display_ref: String,
        git_ref: Option<String>,
        header_branch: String,
        header_tag: Option<String>,
    ) -> (r: Self)
        ensures
            r.repo_name == repo_name,
            r.display_ref == display_ref,
            r.git_ref_spec() == opt_view(git_ref),
            r.chrome.site_title == site_title,
            r.chrome.css_version == css_version,
            r.chrome.js_version == js_version,
            opt_view(r.chrome.header_repo) == Some(repo_name@),
            opt_view(r.chrome.header_branch) == Some(header_branch@),
            r.chrome.header_tag == header_tag,
    {
        let header_repo = Some(repo_name.clone());
        RepoRequestContext {
            repo_name,
            display_ref,
            chrome: PageChrome {
                site_title,
                css_version,
                js_version,
                header_repo,
                header_branch: Some(header_branch),
                header_tag,
            },
            git_ref,
        }
    }

    /// The context of a request for repository `repo_name` asking for the
    /// reference `ref_name` (HEAD when none), given whether the repository
    /// could be opened and what looking up the requested reference and HEAD
    /// found: not found when the repository could not be opened, else a bad
    /// request when the reference name is unsafe (see `parse_ref`), else the
    /// context with the header of `header_refs_spec`.
    pub fn load(
        site_title: String,
        css_version: &'static str,
        js_version: &'static str,
        repo_name: String,
        repo_found: bool,
        ref_name: Option<String>,
        resolved: Option<ResolvedRef>,
        head: Option<HeadState>,
    ) -> (r: Result<Self, AppError>)
        ensures
            ({
                let name = requested_ref(opt_view(ref_name));
                let git_ref = if name == "HEAD"@ { None } else { Some(name) };
                if !repo_found {
                    r is Err && r->Err_0 is NotFound
                } else if !safe_ref_name(name) {
                    r is Err && r->Err_0 is BadRequest
                } else {
                    &&& r is Ok
                    &&& r.unwrap().repo_name == repo_name
                    &&& r.unwrap().display_ref@ == (if name == "HEAD"@ { Seq::empty() } else { name })
                    &&& r.unwrap().git_ref_spec() == git_ref
                    &&& r.unwrap().chrome.site_title == site_title
                    &&& r.unwrap().chrome.css_version == css_version
                    &&& r.unwrap().chrome.js_version == js_version
                    &&& opt_view(r.unwrap().chrome.header_repo) == Some(repo_name@)
                    &&& (opt_view(r.unwrap().chrome.header_branch).unwrap(), opt_view(r.unwrap().chrome.header_tag))
                        == header_refs_spec(git_ref, resolved, head)
                    &&& r.unwrap().chrome.header_branch is Some
                }
            }),
    {
        let (display_ref, git_ref) = match context_request(repo_found, ref_name) {
            Ok(parts) => parts,
            Err(e) => {
                return Err(e);
            },
        };
        let lookup: Option<&str> = match &git_ref {
            Some(g) => Some(g.as_str()),
            None => None,
        };
        let header = get_header_refs(lookup, resolved, head);
        Ok(Self::from_parts(
            site_title,
            css_version,
            js_version,
            repo_name,
            display_ref,
            git_ref,
            header.branch,
            header.tag,
        ))
    }

    /// The reference to look up, none for HEAD.
    pub fn git_ref(&self) -> (r: Option<&str>)
        ensures
            match r {
                Some(s) => self.git_ref_spec() == Some(s@),
                None => self.git_ref_spec() is None,
            },
    {
        match &self.git_ref {
            Some(s) => Some(s.as_str()),
            None => None,
        }
    }

    /// Adds this request's reference to a link.
    pub fn append_ref(&self, url: String) -> (r: String)
        ensures
            r@ == with_ref(url@, self.display_ref@),
    {
        append_ref(url, self.display_ref.as_str())
    }

    /// The navigation bar of a repository page, with the link to the archive
    /// of the shown reference.
    pub fn nav(&self, current_page: &'static str) -> (r: RepoNav)
        ensures
            is_nav(r, self.repo_name@, self.display_ref@, current_page@),
    {
        let mut url = String::new();
        push_char(&mut url, '/');
        push_str(&mut url, self.repo_name.as_str());
        push_str(&mut url, "/archive.tar.gz");
        RepoNav {
            repo_name: self.repo_name.clone(),
            display_ref: self.display_ref.clone(),
            current_page,
            archive_href: self.append_ref(url),
        }
    }

    /// The breadcrumb of a path in this repository (see `path_components`).
    pub fn path_components(&self, path: &str, link_last: bool) -> (r: Vec<PathComponent>)
        ensures
            r@.map_values(|c: PathComponent| c@) == path_components(self.repo_name@, path@, self.display_ref@, link_last),
    {
        build_path_components(self.repo_name.as_str(), path, self.display_ref.as_str(), link_last)
    }
}

/// There is always at least one page, the pages hold every item, and no
/// page but the first is empty.
pub proof fn law_page_count(total: nat, page_size: nat)
    requires
        page_size > 0,
    ensures
        page_count(total, page_size) >= 1,
        total <= page_count(total, page_size) * page_size,
        total > 0 ==> (page_count(total, page_size) - 1) * page_size < total,
{
    let q = (total + page_size - 1) / (page_size as int);
    assert(q * page_size <= total + page_size - 1 < (q + 1) * page_size) by (nonlinear_arith)
        requires
            page_size > 0,
            q == (total + page_size - 1) / (page_size as int),
            total + page_size - 1 >= 0,
    ;
    if q < 1 {
        assert(total == 0) by (nonlinear_arith)
            requires
                q < 1,
                q * page_size <= total + page_size - 1 < (q + 1) * page_size,
                page_size > 0,
        ;
    } else {
        assert(total <= q * page_size) by (nonlinear_arith)
            requires
                total + page_size - 1 < (q + 1) * page_size,
                page_size > 0,
        ;
        assert((q - 1) * page_size < total) by (nonlinear_arith)
            requires
                q * page_size <= total + page_size - 1,
                page_size > 0,
        ;
    }
}

/// When there are several pages and the current page is one of them, the
/// page list starts with the first page, ends with the last, shows the
/// current page, and marks no other link as current.
pub proof fn law_page_links_first_last_current(base: Seq<char>, display_ref: Seq<char>, current: nat, total: nat)
    requires
        1 <= current <= total,
        total > 1,
    ensures
        page_links(base, display_ref, current, total).len() > 0,
        page_links(base, display_ref, current, total)[0] == numbered_link(base, display_ref, current, 1),
        page_links(base, display_ref, current, total).last() == numbered_link(base, display_ref, current, total),
        exists|i: int|
            0 <= i < page_links(base, display_ref, current, total).len() && #[trigger] page_links(
                base,
                display_ref,
                current,
                total,
            )[i] == numbered_link(base, display_ref, current, current),
        forall|i: int|
            0 <= i < page_links(base, display_ref, current, total).len() && (#[trigger] page_links(
                base,
                display_ref,
                current,
                total,
            )[i]).is_current ==> page_links(base, display_ref, current, total)[i] == numbered_link(
                base,
                display_ref,
                current,
                current,
            ),
{
    let links = page_links(base, display_ref, current, total);
    let start = window_start(current);
    let end = window_end(current, total);
    assert(start <= current <= end <= total);
    let head = if start > 1 {
        seq![numbered_link(base, display_ref, current, 1)] + if start > 2 {
            seq![ellipsis_link()]
        } else {
            Seq::empty()
        }
    } else {
        Seq::empty()
    };
    let middle = Seq::new(
        (end - start + 1) as nat,
        |i: int| numbered_link(base, display_ref, current, (start + i) as nat),
    );
    let tail = if end < total {
        (if end + 1 < total { seq![ellipsis_link()] } else { Seq::empty() }) + seq![
            numbered_link(base, display_ref, current, total),
        ]
    } else {
        Seq::empty()
    };
    assert(links == head + middle + tail);
    let k = current - start;
    assert(links[head.len() + k] == middle[k]);
    assert(middle[k] == numbered_link(base, display_ref, current, current));
    assert forall|i: int| 0 <= i < links.len() && (#[trigger] links[i]).is_current implies links[i]
        == numbered_link(base, display_ref, current, current) by {
        if i < head.len() {
            assert(start > 1);
            assert(current >= 3);
        } else if i < head.len() + middle.len() {
            assert(links[i] == middle[i - head.len()]);
        } else {
            assert(links[i] == tail[i - head.len() - middle.len()]);
            assert(end < total);
        }
    }
    if start > 1 {
        assert(links[0] == head[0]);
    } else {
        assert(links[0] == middle[0]);
    }
    if end < total {
        assert(links.last() == tail.last());
    } else {
        assert(links.last() == middle.last());
    }
}

/// Page links for pages in increasing order, with an ellipsis before each
/// page that does not follow the one before it.
pub open spec fn with_gaps(base: Seq<char>, display_ref: Seq<char>, current: nat, pages: Seq<nat>) -> Seq<PageLinkView>
    decreases pages.len(),
{
    if pages.len() == 0 {
        Seq::empty()
    } else {
        let gap: Seq<PageLinkView> = if pages.len() >= 2 && pages.last() > pages[pages.len() - 2] + 1 {
            seq![ellipsis_link()]
        } else {
            Seq::empty()
        };
        with_gaps(base, display_ref, current, pages.drop_last()) + gap + seq![
            numbered_link(base, display_ref, current, pages.last()),
        ]
    }
}

/// The pages the page list shows, in increasing order: the first page, the
/// pages of the window around the current one, and the last page.
pub open spec fn shown_pages(current: nat, total: nat) -> Seq<nat> {
    let start = window_start(current);
    let end = window_end(current, total);
    let head: Seq<nat> = if start > 1 { seq![1nat] } else { Seq::empty() };
    let tail: Seq<nat> = if end < total { seq![total] } else { Seq::empty() };
    head + Seq::new((end - start + 1) as nat, |i: int| (start + i) as nat) + tail
}

/// The page links of the first pages of the window extend those before it
/// one page at a time, with no gap inside the window.
proof fn lemma_window_links(
    base: Seq<char>,
    display_ref: Seq<char>,
    current: nat,
    head: Seq<nat>,
    start: nat,
    k: nat,
)
    requires
        k >= 1,
        head.len() <= 1,
        head.len() == 1 ==> head[0] < start,
    ensures
        with_gaps(base, display_ref, current, head + Seq::new(k, |i: int| (start + i) as nat)) == with_gaps(
            base,
            display_ref,
            current,
            head,
        ) + (if head.len() == 1 && start > head[0] + 1 {
            seq![ellipsis_link()]
        } else {
            Seq::<PageLinkView>::empty()
        }) + Seq::new(k, |i: int| numbered_link(base, display_ref, current, (start + i) as nat)),
    decreases k,
{
    let pages = head + Seq::new(k, |i: int| (start + i) as nat);
    let gap_h: Seq<PageLinkView> = if head.len() == 1 && start > head[0] + 1 {
        seq![ellipsis_link()]
    } else {
        Seq::empty()
    };
    if k == 1 {
        assert(pages.drop_last() =~= head);
        assert(pages.last() == start);
        if head.len() == 1 {
            assert(pages[pages.len() - 2] == head[0]);
        }
        assert(Seq::new(1, |i: int| numbered_link(base, display_ref, current, (start + i) as nat)) =~= seq![
            numbered_link(base, display_ref, current, start),
        ]);
    } else {
        lemma_window_links(base, display_ref, current, head, start, (k - 1) as nat);
        assert(pages.drop_last() =~= head + Seq::new((k - 1) as nat, |i: int| (start + i) as nat));
        assert(pages.last() == start + k - 1);
        assert(pages[pages.len() - 2] == start + k - 2);
        assert(Seq::new(k, |i: int| numbered_link(base, display_ref, current, (start + i) as nat)) =~= Seq::new(
            (k - 1) as nat,
            |i: int| numbered_link(base, display_ref, current, (start + i) as nat),
        ).push(numbered_link(base, display_ref, current, (start + k - 1) as nat)));
        assert(with_gaps(base, display_ref, current, pages) =~= with_gaps(base, display_ref, current, head) + gap_h
            + Seq::new(k, |i: int| numbered_link(base, display_ref, current, (start + i) as nat)));
    }
}

/// The page list of page `current` of `total` pages shows the first page,
/// the last page and every page within two of the current one, each once
/// and in increasing order, and nothing else; an ellipsis stands between two
/// shown pages exactly where pages between them are left out; each link
/// goes to its page and only the current page is marked.
pub proof fn law_page_links_window(base: Seq<char>, display_ref: Seq<char>, current: nat, total: nat)
    requires
        2 <= total,
        1 <= current <= total,
    ensures
        page_links(base, display_ref, current, total) == with_gaps(
            base,
            display_ref,
            current,
            shown_pages(current, total),
        ),
        forall|i: int, j: int|
            0 <= i < j < shown_pages(current, total).len() ==> #[trigger] shown_pages(current, total)[i]
                < #[trigger] shown_pages(current, total)[j],
        forall|p: nat|
            #[trigger] shown_pages(current, total).contains(p) <==> (p == 1 || p == total || (window_start(current)
                <= p && p <= window_end(current, total))),
{
    let start = window_start(current);
    let end = window_end(current, total);
    assert(1 <= start <= current <= end <= total);
    let head: Seq<nat> = if start > 1 { seq![1nat] } else { Seq::empty() };
    let tail: Seq<nat> = if end < total { seq![total] } else { Seq::empty() };
    let k = (end - start + 1) as nat;
    let mid = Seq::new(k, |i: int| (start + i) as nat);
    let pages = shown_pages(current, total);
    assert(pages == head + mid + tail);
    lemma_window_links(base, display_ref, current, head, start, k);
    let hm = head + mid;
    let links_hm = with_gaps(base, display_ref, current, hm);
    if head.len() == 1 {
        assert(head.drop_last() =~= Seq::<nat>::empty());
        assert(with_gaps(base, display_ref, current, Seq::<nat>::empty()) == Seq::<PageLinkView>::empty());
        assert(head.last() == 1);
        assert(with_gaps(base, display_ref, current, head) =~= seq![numbered_link(base, display_ref, current, 1)]);
    } else {
        assert(with_gaps(base, display_ref, current, head) =~= Seq::<PageLinkView>::empty());
    }
    if end < total {
        assert(pages.drop_last() =~= hm);
        assert(pages.last() == total);
        assert(pages[pages.len() - 2] == end);
        assert(with_gaps(base, display_ref, current, pages) =~= links_hm + (if end + 1 < total {
            seq![ellipsis_link()]
        } else {
            Seq::<PageLinkView>::empty()
        }) + seq![numbered_link(base, display_ref, current, total)]);
    } else {
        assert(pages =~= hm);
    }
    assert(page_links(base, display_ref, current, total) =~= with_gaps(base, display_ref, current, pages));
    assert forall|i: int, j: int| 0 <= i < j < pages.len() implies #[trigger] pages[i] < #[trigger] pages[j] by {
        if i < head.len() {
            assert(pages[i] == 1);
        } else if i < head.len() + k {
            assert(pages[i] == start + (i - head.len()));
        }
        if j < head.len() + k {
            assert(pages[j] == start + (j - head.len()));
        } else {
            assert(pages[j] == total);
        }
    }
    assert forall|p: nat| #[trigger] pages.contains(p) <==> (p == 1 || p == total || (start <= p && p <= end)) by {
        if pages.contains(p) {
            let i = choose|i: int| 0 <= i < pages.len() && pages[i] == p;
            if i < head.len() {
                assert(pages[i] == 1);
            } else if i < head.len() + k {
                assert(pages[i] == start + (i - head.len()));
            } else {
                assert(pages[i] == total);
            }
        }
        if p == 1 {
            if start > 1 {
                assert(pages[0] == 1);
            } else {
                assert(pages[head.len() as int] == start);
            }
        } else if start <= p && p <= end {
            assert(pages[head.len() + (p - start)] == p);
        } else if p == total {
            if end < total {
                assert(pages[pages.len() - 1] == total);
            } else {
                assert(pages[head.len() + (end - start)] == p);
            }
        }
    }
}

/// A safe repository name is also a safe path inside a repository: it is
/// never absolute and never climbs out with "..".
pub proof fn law_repo_name_is_safe_path(name: Seq<char>)
    requires
        safe_repo_name(name),
    ensures
        safe_repo_path(name),
        !is_rooted(name),
        forall|i: int| 0 <= i < split_slash(name).len() ==> !is_parent_part(#[trigger] split_slash(name)[i]),
{
}

} // verus!
