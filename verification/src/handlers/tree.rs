//! The directory listing page.

use vstd::prelude::*;

use crate::format::{human_readable_size, size_text};
use crate::git::tree::TreeEntry;
use crate::handlers::errors::AppError;
use crate::handlers::util::{
    display_time, is_display_time, is_nav, is_safe_repo_path, path_components, safe_repo_path, with_ref,
    RepoRequestContext,
};
use crate::templates::{PathComponent, TreeTemplate};
use crate::templates::{DisplayTime, TreeEntryDisplay};
use crate::text::{chars_of, dec_nat, push_char, push_dec, push_str, string_of};

verus! {

/// What comes before the last '/' of a path, or nothing when it has none.
pub open spec fn before_last_slash(s: Seq<char>) -> Seq<char>
    decreases s.len(),
{
    if s.len() == 0 {
        Seq::empty()
    } else if s.last() == '/' {
        s.drop_last()
    } else {
        before_last_slash(s.drop_last())
    }
}

/// The directory that contains `path`, empty at the top.
pub fn parent_path(path: &str) -> (r: String)
    ensures
        r@ == before_last_slash(path@),
{
    let cs = chars_of(path);
    let mut i: usize = cs.len();
    assert(cs@.take(cs@.len() as int) =~= cs@);
    while i > 0
        invariant
            i <= cs@.len(),
            cs@ == path@,
            before_last_slash(cs@.take(i as int)) == before_last_slash(path@),
        decreases i,
    {
        assert(cs@.take(i as int).drop_last() =~= cs@.take(i - 1));
        if cs[i - 1] == '/' {
            let mut out: Vec<char> = Vec::new();
            let mut k: usize = 0;
            while k < i - 1
                invariant
                    k <= i - 1,
                    i <= cs@.len(),
                    out@ == cs@.take(k as int),
                decreases i - 1 - k,
            {
                out.push(cs[k]);
                k += 1;
                assert(out@ =~= cs@.take(k as int));
            }
            return string_of(&out);
        }
        i -= 1;
    }
    assert(cs@.take(0) =~= Seq::<char>::empty());
    String::new()
}

/// The path of an entry inside the directory `dir`.
pub open spec fn entry_path(dir: Seq<char>, name: Seq<char>) -> Seq<char> {
    if dir.len() == 0 {
        name
    } else {
        dir + seq!['/'] + name
    }
}

/// The size column: the number of entries of a directory, the size of a
/// file, empty when unknown.
pub open spec fn entry_size_text(is_dir: bool, size: Option<u64>) -> Seq<char> {
    match size {
        None => Seq::empty(),
        Some(n) => if is_dir {
            dec_nat(n as nat) + " entries"@
        } else {
            size_text(n as nat)
        },
    }
}

/// The link of an entry: the listing of a directory, the view of a file.
pub open spec fn entry_href(repo_name: Seq<char>, display_ref: Seq<char>, dir: Seq<char>, name: Seq<char>, is_dir: bool) -> Seq<char> {
    let page = if is_dir { "/tree?path="@ } else { "/blob?path="@ };
    with_ref(seq!['/'] + repo_name + page + entry_path(dir, name), display_ref)
}

fn entry_size(is_dir: bool, size: Option<u64>) -> (r: String)
    ensures
        r@ == entry_size_text(is_dir, size),
{
    match size {
        None => String::new(),
        Some(n) => if is_dir {
            let mut s = String::new();
            push_dec(&mut s, n);
            push_str(&mut s, " entries");
            s
        } else {
            human_readable_size(n)
        },
    }
}

/// Whether `d` is the row of `entry` in the listing of directory `dir`:
/// its name, its size column, its time when known, and its link.
pub open spec fn is_tree_entry_display(
    d: TreeEntryDisplay,
    repo_name: Seq<char>,
    display_ref: Seq<char>,
    dir: Seq<char>,
    entry: TreeEntry,
) -> bool {
    &&& d.href@ == entry_href(repo_name, display_ref, dir, entry.name@, entry.is_dir)
    &&& d.name@ == entry.name@
    &&& d.is_dir == entry.is_dir
    &&& d.size_text@ == entry_size_text(entry.is_dir, entry.size)
    &&& d.time.is_some() == entry.last_modified.is_some()
    &&& entry.last_modified.is_some() ==> is_display_time(d.time.unwrap(), entry.last_modified.unwrap())
}

/// One row of a directory listing (see `is_tree_entry_display`).
pub fn tree_entry_display(ctx: &RepoRequestContext, dir: &str, entry: TreeEntry) -> (d: TreeEntryDisplay)
    ensures
        is_tree_entry_display(d, ctx.repo_name@, ctx.display_ref@, dir@, entry),
{
    let mut url = String::new();
    push_char(&mut url, '/');
    push_str(&mut url, ctx.repo_name.as_str());
    if entry.is_dir {
        push_str(&mut url, "/tree?path=");
    } else {
        push_str(&mut url, "/blob?path=");
    }
    let ghost head = url@;
    assert(head =~= seq!['/'] + ctx.repo_name@ + (if entry.is_dir { "/tree?path="@ } else { "/blob?path="@ }));
    if !dir.is_empty() {
        push_str(&mut url, dir);
        push_char(&mut url, '/');
    }
    push_str(&mut url, entry.name.as_str());
    assert(url@ =~= head + entry_path(dir@, entry.name@));
    let href = ctx.append_ref(url);
    let size_text = entry_size(entry.is_dir, entry.size);
    let time: Option<DisplayTime> = match entry.last_modified {
        Some(t) => Some(display_time(t)),
        None => None,
    };
    TreeEntryDisplay { name: entry.name, is_dir: entry.is_dir, size_text, time, href }
}

/// The link one directory up: the root listing at the top level.
pub fn parent_href(ctx: &RepoRequestContext, path: &str) -> (r: String)
    ensures
        before_last_slash(path@).len() == 0 ==> r@ == with_ref(seq!['/'] + ctx.repo_name@ + "/tree"@, ctx.display_ref@),
        before_last_slash(path@).len() > 0 ==> r@ == with_ref(
            seq!['/'] + ctx.repo_name@ + "/tree?path="@ + before_last_slash(path@),
            ctx.display_ref@,
        ),
{
    let parent = parent_path(path);
    let mut url = String::new();
    push_char(&mut url, '/');
    push_str(&mut url, ctx.repo_name.as_str());
    if parent.as_str().is_empty() {
        push_str(&mut url, "/tree");
    } else {
        push_str(&mut url, "/tree?path=");
        push_str(&mut url, parent.as_str());
    }
    ctx.append_ref(url)
}

/// The directory a listing asks for: the top when none is given; a path
/// that could leave the repository is a bad request.
pub fn tree_request_path(path: Option<String>) -> (r: Result<String, AppError>)
    ensures
        match path {
            None => r is Ok && r.unwrap()@.len() == 0,
            Some(p) => if safe_repo_path(p@) {
                r is Ok && r.unwrap() == p
            } else {
                r is Err && r->Err_0 is BadRequest
            },
        },
{
    let p = match path {
        Some(p) => p,
        None => String::new(),
    };
    if !is_safe_repo_path(p.as_str()) {
        return Err(AppError::BadRequest);
    }
    Ok(p)
}

/// The listing of directory `path`, whose entries are `entries`: a row for
/// each, in order, the links one level up and to the top, and the path.
pub fn tree_page(ctx: RepoRequestContext, path: String, entries: Vec<TreeEntry>) -> (r: TreeTemplate)
    ensures
        r.chrome == ctx.chrome,
        is_nav(r.nav, ctx.repo_name@, ctx.display_ref@, "tree"@),
        r.path == path,
        r.entries@.len() == entries@.len(),
        forall|i: int|
            0 <= i < entries@.len() ==> is_tree_entry_display(
                #[trigger] r.entries@[i],
                ctx.repo_name@,
                ctx.display_ref@,
                path@,
                entries@[i],
            ),
        before_last_slash(path@).len() == 0 ==> r.parent_href == r.root_href,
        before_last_slash(path@).len() > 0 ==> r.parent_href@ == with_ref(
            seq!['/'] + ctx.repo_name@ + "/tree?path="@ + before_last_slash(path@),
            ctx.display_ref@,
        ),
        r.root_href@ == with_ref(seq!['/'] + ctx.repo_name@ + "/tree"@, ctx.display_ref@),
        r.path_components@.map_values(|c: PathComponent| c@) == path_components(
            ctx.repo_name@,
            path@,
            ctx.display_ref@,
            true,
        ),
{
    let nav = ctx.nav("tree");
    let mut root_url = String::new();
    push_char(&mut root_url, '/');
    push_str(&mut root_url, ctx.repo_name.as_str());
    push_str(&mut root_url, "/tree");
    let root_href = ctx.append_ref(root_url);
    let path_components = ctx.path_components(path.as_str(), true);
    let mut rows: Vec<TreeEntryDisplay> = Vec::new();
    let n = entries.len();
    let mut rest = entries;
    let ghost all = rest@;
    let mut i: usize = 0;
    while i < n
        invariant
            i <= n,
            n == all.len(),
            rest@ == all.skip(i as int),
            rows@.len() == i,
            forall|k: int|
                0 <= k < i ==> is_tree_entry_display(
                    #[trigger] rows@[k],
                    ctx.repo_name@,
                    ctx.display_ref@,
                    path@,
                    all[k],
                ),
        decreases n - i,
    {
        let entry = rest.remove(0);
        assert(rest@ =~= all.skip(i + 1));
        rows.push(tree_entry_display(&ctx, path.as_str(), entry));
        i += 1;
    }
    let parent = parent_path(path.as_str());
    let parent_href = if parent.as_str().is_empty() {
        root_href.clone()
    } else {
        let mut url = String::new();
        push_char(&mut url, '/');
        push_str(&mut url, ctx.repo_name.as_str());
        push_str(&mut url, "/tree?path=");
        push_str(&mut url, parent.as_str());
        ctx.append_ref(url)
    };
    TreeTemplate {
        chrome: ctx.chrome,
        nav,
        entries: rows,
        path,
        parent_href,
        root_href,
        path_components,
    }
}

} // verus!
