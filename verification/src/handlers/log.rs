//! The commit log page.

use vstd::prelude::*;

use crate::git::commits::CommitInfo;
use crate::git::refs::{label_views, RefLabel};
use crate::git::refs::entry_views;
use crate::handlers::util::{
    build_pager, display_time, is_display_time, is_nav, is_pager, page_count, total_pages, with_ref,
    RepoRequestContext, PAGE_SIZE,
};
use crate::templates::{CommitDisplay, CommitRefDisplay, LogTemplate};
use crate::text::{first_line, first_line_of, push_char, push_str, str_eq};

verus! {

/// The page requested (the first when none or 0), and the number of
/// commits before it.
pub open spec fn log_page_spec(page: Option<usize>) -> (nat, nat) {
    let p = match page {
        Some(p) => if p < 1 { 1 } else { p as nat },
        None => 1,
    };
    (p, ((p - 1) * PAGE_SIZE) as nat)
}

/// The page of a log or reference list request and its offset (see
/// `log_page_spec`).
pub fn log_page(page: Option<usize>) -> (r: (usize, usize))
    requires
        match page {
            Some(p) => p <= 1 || (p - 1) * PAGE_SIZE <= usize::MAX,
            None => true,
        },
    ensures
        (r.0 as nat, r.1 as nat) == log_page_spec(page),
{
    let p = match page {
        Some(p) => if p < 1 { 1 } else { p },
        None => 1,
    };
    (p, (p - 1) * PAGE_SIZE)
}

/// A copy of a label.
pub fn clone_label(l: &RefLabel) -> (r: RefLabel)
    ensures
        r@ == l@,
{
    RefLabel { name: l.name.clone(), kind: l.kind.clone() }
}

/// The labels of the first entry keyed by `hash`, none when there is none.
pub open spec fn labels_of(entries: Seq<(Seq<char>, Seq<(Seq<char>, Seq<char>)>)>, hash: Seq<char>) -> Seq<(Seq<char>, Seq<char>)>
    decreases entries.len(),
{
    if entries.len() == 0 {
        Seq::empty()
    } else if entries[0].0 == hash {
        entries[0].1
    } else {
        labels_of(entries.drop_first(), hash)
    }
}

/// Looks up the labels of a commit in the label map of the log (see
/// `labels_of`).
pub fn labels_for_hash(entries: &Vec<(String, Vec<RefLabel>)>, hash: &str) -> (r: Vec<RefLabel>)
    ensures
        label_views(r@) == labels_of(crate::git::refs::entry_views(entries@), hash@),
{
    let ghost ev = crate::git::refs::entry_views(entries@);
    let mut i: usize = 0;
    assert(ev.skip(0) =~= ev);
    while i < entries.len()
        invariant
            i <= entries.len(),
            ev == crate::git::refs::entry_views(entries@),
            labels_of(ev.skip(i as int), hash@) == labels_of(ev, hash@),
        decreases entries.len() - i,
    {
        assert(ev.skip(i as int)[0] == ev[i as int]);
        if str_eq(entries[i].0.as_str(), hash) {
            let src = &entries[i].1;
            let mut out: Vec<RefLabel> = Vec::new();
            let mut k: usize = 0;
            while k < src.len()
                invariant
                    k <= src.len(),
                    label_views(out@) == label_views(src@).take(k as int),
                decreases src.len() - k,
            {
                let ghost before = out@;
                let c = clone_label(&src[k]);
                out.push(c);
                assert(out@ == before.push(c));
                assert(label_views(out@) =~= label_views(before).push(src@[k as int]@));
                k += 1;
                assert(label_views(out@) =~= label_views(src@).take(k as int));
            }
            assert(label_views(src@).take(src.len() as int) =~= label_views(src@));
            return out;
        }
        assert(ev.skip(i as int).drop_first() =~= ev.skip(i + 1));
        i += 1;
    }
    let out: Vec<RefLabel> = Vec::new();
    assert(label_views(out@) =~= Seq::<(Seq<char>, Seq<char>)>::empty());
    out
}

/// The style of a label: branch or tag.
pub open spec fn label_class(kind: Seq<char>) -> Seq<char> {
    if kind == "branch"@ {
        "commit-ref commit-branch"@
    } else {
        "commit-ref commit-tag"@
    }
}

/// Whether `d` shows commit `c` in the log: its link, hash, short hash,
/// author, the first line of its message, its time, and its branch and tag
/// labels.
pub open spec fn is_commit_display(
    d: CommitDisplay,
    repo_name: Seq<char>,
    display_ref: Seq<char>,
    c: CommitInfo,
    labels: Seq<(Seq<char>, Seq<char>)>,
) -> bool {
    &&& d.href@ == with_ref(seq!['/'] + repo_name + "/commit/"@ + c.hash@, display_ref)
    &&& d.hash@ == c.hash@
    &&& d.short_hash@ == c.short_hash@
    &&& d.author@ == c.author@
    &&& d.message@ == first_line(c.message@)
    &&& is_display_time(d.time, c.time)
    &&& d.refs@.len() == labels.len()
    &&& forall|i: int| 0 <= i < labels.len() ==> (#[trigger] d.refs@[i]).name@ == labels[i].0
        && d.refs@[i].class@ == label_class(labels[i].1)
}

/// One commit of the log (see `is_commit_display`).
pub fn commit_display(ctx: &RepoRequestContext, c: CommitInfo, labels: Vec<RefLabel>) -> (r: CommitDisplay)
    ensures
        is_commit_display(r, ctx.repo_name@, ctx.display_ref@, c, label_views(labels@)),
{
    let mut href = String::new();
    push_char(&mut href, '/');
    push_str(&mut href, ctx.repo_name.as_str());
    push_str(&mut href, "/commit/");
    push_str(&mut href, c.hash.as_str());
    let mut refs: Vec<CommitRefDisplay> = Vec::new();
    let mut i: usize = 0;
    while i < labels.len()
        invariant
            i <= labels.len(),
            refs@.len() == i,
            forall|j: int| 0 <= j < i ==> (#[trigger] refs@[j]).name@ == labels@[j].name@ && refs@[j].class@
                == label_class(labels@[j].kind@),
        decreases labels.len() - i,
    {
        let class: &'static str = if str_eq(labels[i].kind.as_str(), "branch") {
            "commit-ref commit-branch"
        } else {
            "commit-ref commit-tag"
        };
        refs.push(CommitRefDisplay { name: labels[i].name.clone(), class });
        i += 1;
    }
    let message = first_line_of(c.message.as_str());
    CommitDisplay {
        href: ctx.append_ref(href),
        hash: c.hash,
        short_hash: c.short_hash,
        author: c.author,
        message,
        time: display_time(c.time),
        refs,
    }
}

/// Page `page` of the log, whose commits are `commits` out of
/// `total_commits`: each commit with its labels from `labels`, and the
/// pager.
pub fn log_template(
    ctx: RepoRequestContext,
    page: usize,
    commits: Vec<CommitInfo>,
    total_commits: usize,
    labels: &Vec<(String, Vec<RefLabel>)>,
) -> (r: LogTemplate)
    requires
        page_count(total_commits as nat, PAGE_SIZE as nat) <= 1 || page + 2 <= usize::MAX,
    ensures
        r.chrome == ctx.chrome,
        is_nav(r.nav, ctx.repo_name@, ctx.display_ref@, "log"@),
        r.commits@.len() == commits@.len(),
        forall|i: int|
            0 <= i < commits@.len() ==> is_commit_display(
                #[trigger] r.commits@[i],
                ctx.repo_name@,
                ctx.display_ref@,
                commits@[i],
                labels_of(entry_views(labels@), commits@[i].hash@),
            ),
        is_pager(
            r.pager,
            seq!['/'] + ctx.repo_name@ + "/log"@,
            ctx.display_ref@,
            page as nat,
            page_count(total_commits as nat, PAGE_SIZE as nat),
        ),
{
    let nav = ctx.nav("log");
    let mut base = String::new();
    push_char(&mut base, '/');
    push_str(&mut base, ctx.repo_name.as_str());
    push_str(&mut base, "/log");
    let n = commits.len();
    let mut rest = commits;
    let ghost all = rest@;
    let mut shown: Vec<CommitDisplay> = Vec::new();
    let mut i: usize = 0;
    while i < n
        invariant
            i <= n,
            n == all.len(),
            rest@ == all.skip(i as int),
            shown@.len() == i,
            forall|k: int|
                0 <= k < i ==> is_commit_display(
                    #[trigger] shown@[k],
                    ctx.repo_name@,
                    ctx.display_ref@,
                    all[k],
                    labels_of(entry_views(labels@), all[k].hash@),
                ),
        decreases n - i,
    {
        let c = rest.remove(0);
        assert(rest@ =~= all.skip(i + 1));
        let commit_labels = labels_for_hash(labels, c.hash.as_str());
        shown.push(commit_display(&ctx, c, commit_labels));
        i += 1;
    }
    let pages = total_pages(total_commits, PAGE_SIZE);
    let pager = build_pager(base.as_str(), ctx.display_ref.as_str(), page, pages);
    LogTemplate { chrome: ctx.chrome, nav, commits: shown, pager }
}

} // verus!
