//! Repositories in the served folder.

use vstd::prelude::*;

use crate::handlers::util::opt_view;
use crate::sorting::{lemma_stable_sort_step, stable_sort_of, total_preorder};
use crate::text::{lex_le, lex_lt, lemma_lex_total, lemma_lex_transitive, str_eq, str_lt};

verus! {

/// A repository and its description.
pub struct RepoInfo {
    pub name: String,
    pub description: Option<String>,
}

/// Abstract value of a repository entry.
pub type RepoView = (Seq<char>, Option<Seq<char>>);

impl View for RepoInfo {
    type V = RepoView;

    open spec fn view(&self) -> RepoView {
        (self.name@, opt_view(self.description))
    }
}

/// Views of repositories.
pub open spec fn repo_views(s: Seq<RepoInfo>) -> Seq<RepoView> {
    s.map_values(|r: RepoInfo| r@)
}

/// By name.
pub open spec fn by_name() -> spec_fn(RepoView, RepoView) -> bool {
    |a: RepoView, b: RepoView| lex_le(a.0, b.0)
}

pub proof fn lemma_by_name_total()
    ensures
        total_preorder(by_name()),
{
    let le = by_name();
    assert forall|a: RepoView, b: RepoView, c: RepoView| #[trigger] le(a, b) && #[trigger] le(b, c) implies le(a, c) by {
        if lex_lt(a.0, b.0) && lex_lt(b.0, c.0) {
            lemma_lex_transitive(a.0, b.0, c.0);
        }
    }
    assert forall|a: RepoView, b: RepoView| #[trigger] le(a, b) || le(b, a) by {
        lemma_lex_total(a.0, b.0);
    }
}

/// The repositories of the served folder sorted by name (stably), given
/// those found there.
pub fn list_repos(found: Vec<RepoInfo>) -> (r: Vec<RepoInfo>)
    ensures
        stable_sort_of(repo_views(r@), repo_views(found@), by_name()),
{
    let ghost orig = repo_views(found@);
    let ghost le = by_name();
    proof {
        lemma_by_name_total();
    }
    let mut input = found;
    let mut out: Vec<RepoInfo> = Vec::new();
    let ghost mut taken: int = 0;
    assert(orig.take(0) =~= Seq::<RepoView>::empty());
    assert(repo_views(out@) =~= Seq::<RepoView>::empty());
    while input.len() > 0
        invariant
            0 <= taken <= orig.len(),
            le == by_name(),
            total_preorder(le),
            repo_views(input@) == orig.skip(taken),
            stable_sort_of(repo_views(out@), orig.take(taken), le),
        decreases input.len(),
    {
        let ghost rest = input@;
        let x = input.remove(0);
        assert(repo_views(input@) =~= repo_views(rest).drop_first());
        assert(repo_views(rest)[0] == rest[0]@);
        let mut k: usize = 0;
        while k < out.len() && (str_lt(out[k].name.as_str(), x.name.as_str()) || str_eq(out[k].name.as_str(), x.name.as_str()))
            invariant
                k <= out.len(),
                forall|i: int| 0 <= i < k ==> le(#[trigger] repo_views(out@)[i], x@),
                le == by_name(),
            decreases out.len() - k,
        {
            assert(repo_views(out@)[k as int] == out@[k as int]@);
            k += 1;
        }
        let ghost ov = repo_views(out@);
        assert forall|i: int| k <= i < ov.len() implies !le(#[trigger] ov[i], x@) by {
            assert(ov[k as int] == out@[k as int]@);
            assert(!le(ov[k as int], x@));
            if i > k {
                assert(le(ov[k as int], ov[i]));
                if le(ov[i], x@) {
                    assert(le(ov[k as int], x@));
                }
            }
        }
        proof {
            lemma_stable_sort_step(ov, orig.take(taken), x@, k as int, le);
        }
        out.insert(k, x);
        assert(repo_views(out@) =~= ov.take(k as int).push(x@) + ov.skip(k as int));
        assert(orig.take(taken + 1) =~= orig.take(taken).push(x@));
        proof {
            taken = taken + 1;
        }
        assert(orig.skip(taken) =~= repo_views(input@));
    }
    assert(orig.take(taken) =~= orig);
    out
}

} // verus!
