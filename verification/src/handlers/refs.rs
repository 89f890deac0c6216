//! The page that lists branches and tags.

use vstd::prelude::*;

use crate::git::refs::RefInfo;
use crate::handlers::util::{
    append_ref, build_pager, display_time, is_display_time, is_nav, is_pager, page_count, total_pages, with_ref,
    RepoRequestContext, PAGE_SIZE,
};
use crate::templates::{RefDisplay, RefsTemplate};
use crate::text::{push_char, push_str};

verus! {

/// Whether `d` is the row of reference `r` in the reference list: the
/// reference with a link to its log.
pub open spec fn is_ref_display(d: RefDisplay, repo_name: Seq<char>, r: RefInfo) -> bool {
    &&& d.href@ == with_ref(seq!['/'] + repo_name + "/log"@, r.name@)
    &&& d.name@ == r.name@
    &&& d.ref_type@ == r.ref_type@
    &&& d.author@ == r.author@
    &&& is_display_time(d.time, r.time)
}

/// One row of the reference list (see `is_ref_display`).
pub fn ref_display(repo_name: &str, r: RefInfo) -> (d: RefDisplay)
    ensures
        is_ref_display(d, repo_name@, r),
{
    let mut url = String::new();
    push_char(&mut url, '/');
    push_str(&mut url, repo_name);
    push_str(&mut url, "/log");
    let href = append_ref(url, r.name.as_str());
    RefDisplay { href, name: r.name, ref_type: r.ref_type, author: r.author, time: display_time(r.time) }
}

/// Page `page` of the reference list, whose references are `refs` out of
/// `total_refs`: a row for each, and the pager.
pub fn refs_template(ctx: RepoRequestContext, page: usize, refs: Vec<RefInfo>, total_refs: usize) -> (r: RefsTemplate)
    requires
        page_count(total_refs as nat, PAGE_SIZE as nat) <= 1 || page + 2 <= usize::MAX,
    ensures
        r.chrome == ctx.chrome,
        is_nav(r.nav, ctx.repo_name@, ctx.display_ref@, "refs"@),
        r.refs@.len() == refs@.len(),
        forall|i: int| 0 <= i < refs@.len() ==> is_ref_display(#[trigger] r.refs@[i], ctx.repo_name@, refs@[i]),
        is_pager(
            r.pager,
            seq!['/'] + ctx.repo_name@ + "/refs"@,
            ctx.display_ref@,
            page as nat,
            page_count(total_refs as nat, PAGE_SIZE as nat),
        ),
{
    let nav = ctx.nav("refs");
    let mut base = String::new();
    push_char(&mut base, '/');
    push_str(&mut base, ctx.repo_name.as_str());
    push_str(&mut base, "/refs");
    let n = refs.len();
    let mut rest = refs;
    let ghost all = rest@;
    let mut rows: Vec<RefDisplay> = Vec::new();
    let mut i: usize = 0;
    while i < n
        invariant
            i <= n,
            n == all.len(),
            rest@ == all.skip(i as int),
            rows@.len() == i,
            forall|k: int| 0 <= k < i ==> is_ref_display(#[trigger] rows@[k], ctx.repo_name@, all[k]),
        decreases n - i,
    {
        let r = rest.remove(0);
        assert(rest@ =~= all.skip(i + 1));
        rows.push(ref_display(ctx.repo_name.as_str(), r));
        i += 1;
    }
    let pages = total_pages(total_refs, PAGE_SIZE);
    let pager = build_pager(base.as_str(), ctx.display_ref.as_str(), page, pages);
    RefsTemplate { chrome: ctx.chrome, nav, refs: rows, pager }
}

} // verus!
