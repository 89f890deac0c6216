//! Branches and tags: which ones point at the commits shown, the header of
//! a repository page, and the list of references.

use vstd::prelude::*;

use crate::handlers::util::opt_view;
use crate::sorting::{lemma_stable_sort_step, stable_sort_of, total_preorder};
use crate::text::{push_str, lex_le, lex_lt, lemma_lex_asymmetric, lemma_lex_irreflexive, lemma_lex_total, lemma_lex_transitive, owned, str_eq, str_lt};

verus! {

/// A branch or tag with the author and time of the commit it points at.
pub struct RefInfo {
    pub name: String,
    pub ref_type: String,
    pub author: String,
    pub time: i64,
}

/// A branch or tag label of a commit.
#[derive(Clone)]
pub struct RefLabel {
    pub name: String,
    pub kind: String,
}

impl View for RefLabel {
    type V = (Seq<char>, Seq<char>);

    open spec fn view(&self) -> (Seq<char>, Seq<char>) {
        (self.name@, self.kind@)
    }
}

/// The branch and tag shown in the header of a repository page.
pub struct HeaderRefs {
    pub branch: String,
    pub tag: Option<String>,
}

/// A hexadecimal digit, of either case.
pub open spec fn is_hex_char(c: char) -> bool {
    ('0' <= c && c <= '9') || ('a' <= c && c <= 'f') || ('A' <= c && c <= 'F')
}

/// A hexadecimal digit in lower case.
pub open spec fn lower_hex(c: char) -> char {
    if 'A' <= c && c <= 'F' {
        ((c as u32) + 32) as char
    } else {
        c
    }
}

/// The object id that a hexadecimal string denotes, written as git writes
/// it (40 lower-case digits): one to forty hex digits, the rest zero; none
/// for anything else.
pub open spec fn oid_hex(s: Seq<char>) -> Option<Seq<char>> {
    if 1 <= s.len() <= 40 && forall|i: int| 0 <= i < s.len() ==> is_hex_char(#[trigger] s[i]) {
        Some(Seq::new(40, |i: int| if i < s.len() { lower_hex(s[i]) } else { '0' }))
    } else {
        None
    }
}

/// Parses an object id (`git2::Oid::from_str`, then its `to_string`): the
/// crate accepts one to forty hex digits, pads with zeros, and writes ids
/// as forty lower-case digits.
#[verifier::external_body]
pub(crate) fn parse_oid(s: &str) -> (r: Option<String>)
    ensures
        opt_view(r) == oid_hex(s@),
{
    git2::Oid::from_str(s).ok().map(|oid| oid.to_string())
}

/// Views of (name, object id) pairs.
pub open spec fn pair_views(v: Seq<(String, String)>) -> Seq<(Seq<char>, Seq<char>)> {
    v.map_values(|p: (String, String)| (p.0@, p.1@))
}

/// Names of the references in `refs` (name, object id) that point at `oid`,
/// in order.
pub open spec fn names_at(refs: Seq<(Seq<char>, Seq<char>)>, oid: Seq<char>) -> Seq<Seq<char>>
    decreases refs.len(),
{
    if refs.len() == 0 {
        Seq::empty()
    } else {
        let prev = names_at(refs.drop_last(), oid);
        if refs.last().1 == oid {
            prev.push(refs.last().0)
        } else {
            prev
        }
    }
}

/// Labels of a commit: its branches, then its tags.
pub open spec fn labels_at(
    branches: Seq<(Seq<char>, Seq<char>)>,
    tags: Seq<(Seq<char>, Seq<char>)>,
    oid: Seq<char>,
) -> Seq<(Seq<char>, Seq<char>)> {
    names_at(branches, oid).map_values(|n: Seq<char>| (n, "branch"@)) + names_at(tags, oid).map_values(
        |n: Seq<char>| (n, "tag"@),
    )
}

/// Whether hash `i` of the list keys the labels of its commit: it is a valid
/// id, the last hash in the list for that id, and the commit has a label.
pub open spec fn keys_labels(
    hashes: Seq<Seq<char>>,
    branches: Seq<(Seq<char>, Seq<char>)>,
    tags: Seq<(Seq<char>, Seq<char>)>,
    i: int,
) -> bool {
    &&& oid_hex(hashes[i]) is Some
    &&& forall|j: int| i < j < hashes.len() ==> oid_hex(#[trigger] hashes[j]) != oid_hex(hashes[i])
    &&& labels_at(branches, tags, oid_hex(hashes[i])->0).len() > 0
}

/// The label map of the first `n` hashes: each keying hash with the labels
/// of its commit, in the order of the hashes.
pub open spec fn label_entries(
    hashes: Seq<Seq<char>>,
    branches: Seq<(Seq<char>, Seq<char>)>,
    tags: Seq<(Seq<char>, Seq<char>)>,
    n: int,
) -> Seq<(Seq<char>, Seq<(Seq<char>, Seq<char>)>)>
    decreases n,
{
    if n <= 0 {
        Seq::empty()
    } else {
        let prev = label_entries(hashes, branches, tags, n - 1);
        if keys_labels(hashes, branches, tags, n - 1) {
            prev.push((hashes[n - 1], labels_at(branches, tags, oid_hex(hashes[n - 1])->0)))
        } else {
            prev
        }
    }
}

/// Views of labels.
pub open spec fn label_views(v: Seq<RefLabel>) -> Seq<(Seq<char>, Seq<char>)> {
    v.map_values(|l: RefLabel| l@)
}

/// Views of label map entries.
pub open spec fn entry_views(v: Seq<(String, Vec<RefLabel>)>) -> Seq<(Seq<char>, Seq<(Seq<char>, Seq<char>)>)> {
    v.map_values(|e: (String, Vec<RefLabel>)| (e.0@, label_views(e.1@)))
}

fn push_names_at(out: &mut Vec<RefLabel>, refs: &Vec<(String, String)>, oid: &str, kind: &str)
    ensures
        label_views(final(out)@) == label_views(old(out)@)
            + names_at(pair_views(refs@), oid@).map_values(|n: Seq<char>| (n, kind@)),
{
    let ghost start = label_views(old(out)@);
    let mut i: usize = 0;
    assert(pair_views(refs@).take(0) =~= Seq::<(Seq<char>, Seq<char>)>::empty());
    while i < refs.len()
        invariant
            i <= refs.len(),
            label_views(out@) =~= start + names_at(pair_views(refs@).take(i as int), oid@).map_values(
                |n: Seq<char>| (n, kind@),
            ),
        decreases refs.len() - i,
    {
        let ghost before = out@;
        assert(pair_views(refs@).take(i + 1).drop_last() =~= pair_views(refs@).take(i as int));
        assert(pair_views(refs@).take(i + 1).last() == (refs@[i as int].0@, refs@[i as int].1@));
        if str_eq(refs[i].1.as_str(), oid) {
            out.push(RefLabel { name: refs[i].0.clone(), kind: owned(kind) });
            assert(label_views(out@) =~= label_views(before).push(
                (refs@[i as int].0@, kind@),
            ));
        }
        i += 1;
    }
    assert(pair_views(refs@).take(refs.len() as int) =~= pair_views(refs@));
}

fn labels_for(branches: &Vec<(String, String)>, tags: &Vec<(String, String)>, oid: &str) -> (r: Vec<RefLabel>)
    ensures
        label_views(r@) == labels_at(pair_views(branches@), pair_views(tags@), oid@),
{
    let mut out: Vec<RefLabel> = Vec::new();
    assert(label_views(out@) =~= Seq::<(Seq<char>, Seq<char>)>::empty());
    push_names_at(&mut out, branches, oid, "branch");
    push_names_at(&mut out, tags, oid, "tag");
    assert(label_views(out@) =~= labels_at(pair_views(branches@), pair_views(tags@), oid@));
    out
}

/// Views of strings.
pub open spec fn string_views(v: Seq<String>) -> Seq<Seq<char>> {
    v.map_values(|s: String| s@)
}

/// The branches and tags pointing at each commit of a list, given every
/// local branch and every tag with the commit it points at: one entry per
/// commit that has a label, keyed by its hash as given (the last one, when
/// two hashes denote the same commit), branches before tags. Hashes that are
/// not object ids are left out.
pub fn refs_for_commits(
    commit_hashes: &Vec<String>,
    branches: &Vec<(String, String)>,
    tags: &Vec<(String, String)>,
) -> (r: Vec<(String, Vec<RefLabel>)>)
    ensures
        entry_views(r@) == label_entries(
            string_views(commit_hashes@),
            pair_views(branches@),
            pair_views(tags@),
            commit_hashes@.len() as int,
        ),
{
    let ghost hs = string_views(commit_hashes@);
    let ghost bs = pair_views(branches@);
    let ghost ts = pair_views(tags@);
    let n = commit_hashes.len();
    let mut oids: Vec<Option<String>> = Vec::new();
    let mut k: usize = 0;
    while k < n
        invariant
            n == commit_hashes.len(),
            k <= n,
            hs == string_views(commit_hashes@),
            oids.len() == k,
            forall|j: int| 0 <= j < k ==> opt_view(#[trigger] oids@[j]) == oid_hex(hs[j]),
        decreases n - k,
    {
        oids.push(parse_oid(commit_hashes[k].as_str()));
        k += 1;
    }
    let mut out: Vec<(String, Vec<RefLabel>)> = Vec::new();
    let mut i: usize = 0;
    while i < n
        invariant
            n == commit_hashes.len(),
            n == oids.len(),
            i <= n,
            hs == string_views(commit_hashes@),
            bs == pair_views(branches@),
            ts == pair_views(tags@),
            forall|j: int| 0 <= j < n ==> opt_view(#[trigger] oids@[j]) == oid_hex(hs[j]),
            entry_views(out@) == label_entries(hs, bs, ts, i as int),
        decreases n - i,
    {
        let ghost before = out@;
        match &oids[i] {
            Some(o) => {
                let mut last = true;
                let mut j: usize = i + 1;
                while j < n
                    invariant
                        n == oids.len(),
                        i < j <= n,
                        oids@[i as int] == Some(*o),
                        forall|m: int| 0 <= m < n ==> opt_view(#[trigger] oids@[m]) == oid_hex(hs[m]),
                        last == (forall|m: int| i < m < j ==> oid_hex(#[trigger] hs[m]) != oid_hex(hs[i as int])),
                    decreases n - j,
                {
                    let same = match &oids[j] {
                        Some(p) => str_eq(p.as_str(), o.as_str()),
                        None => false,
                    };
                    proof {
                        assert(opt_view(oids@[j as int]) == oid_hex(hs[j as int]));
                        assert(opt_view(oids@[i as int]) == oid_hex(hs[i as int]));
                    }
                    if same {
                        last = false;
                    }
                    j += 1;
                }
                if last {
                    let labels = labels_for(branches, tags, o.as_str());
                    if labels.len() > 0 {
                        out.push((commit_hashes[i].clone(), labels));
                        assert(entry_views(out@) =~= entry_views(before).push(
                            (hs[i as int], labels_at(bs, ts, oid_hex(hs[i as int])->0)),
                        ));
                    }
                }
                assert(opt_view(oids@[i as int]) == oid_hex(hs[i as int]));
            },
            None => {
                assert(opt_view(oids@[i as int]) == oid_hex(hs[i as int]));
            },
        }
        i += 1;
    }
    out
}

/// Abstract value of a reference in the list: name, type, author, time.
pub type RefView = (Seq<char>, Seq<char>, Seq<char>, i64);

impl View for RefInfo {
    type V = RefView;

    open spec fn view(&self) -> RefView {
        (self.name@, self.ref_type@, self.author@, self.time)
    }
}

/// Views of references.
pub open spec fn ref_views(s: Seq<RefInfo>) -> Seq<RefView> {
    s.map_values(|r: RefInfo| r@)
}

/// Newer commits first.
pub open spec fn newest_first() -> spec_fn(RefView, RefView) -> bool {
    |a: RefView, b: RefView| a.3 >= b.3
}

pub proof fn lemma_newest_first_total()
    ensures
        total_preorder(newest_first()),
{
}

/// Views of looked-up references: each name with the author and time of
/// its commit, if the commit was found.
pub open spec fn lookup_views(v: Seq<(String, Option<(String, i64)>)>) -> Seq<(Seq<char>, Option<(Seq<char>, i64)>)> {
    v.map_values(
        |e: (String, Option<(String, i64)>)|
            (e.0@, match e.1 {
                Some(at) => Some((at.0@, at.1)),
                None => None,
            }),
    )
}

/// The references whose commit was found, in order, with their type.
pub open spec fn found_refs(list: Seq<(Seq<char>, Option<(Seq<char>, i64)>)>, kind: Seq<char>) -> Seq<RefView>
    decreases list.len(),
{
    if list.len() == 0 {
        Seq::empty()
    } else {
        let prev = found_refs(list.drop_last(), kind);
        match list.last().1 {
            Some((author, time)) => prev.push((list.last().0, kind, author, time)),
            None => prev,
        }
    }
}

fn collect_found(list: Vec<(String, Option<(String, i64)>)>, kind: &str) -> (r: Vec<RefInfo>)
    ensures
        ref_views(r@) == found_refs(lookup_views(list@), kind@),
{
    let ghost all = lookup_views(list@);
    let mut out: Vec<RefInfo> = Vec::new();
    let mut i: usize = 0;
    assert(all.take(0) =~= Seq::<(Seq<char>, Option<(Seq<char>, i64)>)>::empty());
    assert(ref_views(out@) =~= Seq::<RefView>::empty());
    while i < list.len()
        invariant
            i <= list.len(),
            all == lookup_views(list@),
            ref_views(out@) == found_refs(all.take(i as int), kind@),
        decreases list.len() - i,
    {
        assert(all.take(i + 1).drop_last() =~= all.take(i as int));
        let ghost before = out@;
        match &list[i].1 {
            Some((author, time)) => {
                out.push(RefInfo { name: list[i].0.clone(), ref_type: owned(kind), author: author.clone(), time: *time });
                assert(ref_views(out@) =~= ref_views(before).push(out@[out@.len() - 1]@));
            },
            None => {},
        }
        i += 1;
    }
    assert(all.take(list.len() as int) =~= all);
    out
}

/// Sorts references newest first, keeping the order of equally old ones.
pub fn sort_newest_first(refs: Vec<RefInfo>) -> (r: Vec<RefInfo>)
    ensures
        r@.len() == refs@.len(),
        stable_sort_of(ref_views(r@), ref_views(refs@), newest_first()),
{
    let ghost orig = ref_views(refs@);
    let ghost le = newest_first();
    proof {
        lemma_newest_first_total();
    }
    let mut input = refs;
    let mut out: Vec<RefInfo> = Vec::new();
    let ghost mut taken: int = 0;
    assert(orig.take(0) =~= Seq::<RefView>::empty());
    assert(ref_views(out@) =~= Seq::<RefView>::empty());
    while input.len() > 0
        invariant
            0 <= taken <= orig.len(),
            le == newest_first(),
            total_preorder(le),
            ref_views(input@) == orig.skip(taken),
            out@.len() == taken,
            orig.len() == refs@.len(),
            stable_sort_of(ref_views(out@), orig.take(taken), le),
        decreases input.len(),
    {
        let ghost rest = input@;
        let x = input.remove(0);
        assert(ref_views(input@) =~= ref_views(rest).drop_first());
        assert(ref_views(rest)[0] == rest[0]@);
        assert(x@ == orig[taken]);
        let mut k: usize = 0;
        while k < out.len() && out[k].time >= x.time
            invariant
                k <= out.len(),
                forall|i: int| 0 <= i < k ==> le(#[trigger] ref_views(out@)[i], x@),
                le == newest_first(),
            decreases out.len() - k,
        {
            k += 1;
        }
        let ghost ov = ref_views(out@);
        assert forall|i: int| k <= i < ov.len() implies !le(#[trigger] ov[i], x@) by {
            assert(!le(ov[k as int], x@));
            if i > k {
                assert(le(ov[k as int], ov[i]));
            }
        }
        proof {
            lemma_stable_sort_step(ov, orig.take(taken), x@, k as int, le);
        }
        out.insert(k, x);
        assert(ref_views(out@) =~= ov.take(k as int).push(x@) + ov.skip(k as int));
        assert(orig.take(taken + 1) =~= orig.take(taken).push(x@));
        proof {
            taken = taken + 1;
        }
        assert(orig.skip(taken) =~= ref_views(input@));
    }
    assert(orig.take(taken) =~= orig);
    out
}

/// The list of references: branches, then tags, each newest first (ties in
/// their listed order); references whose commit was not found are left out.
pub fn list_refs(
    branches: Vec<(String, Option<(String, i64)>)>,
    tags: Vec<(String, Option<(String, i64)>)>,
) -> (r: Vec<RefInfo>)
    ensures
        ({
            let bs = found_refs(lookup_views(branches@), "branch"@);
            let ts = found_refs(lookup_views(tags@), "tag"@);
            &&& r@.len() == bs.len() + ts.len()
            &&& stable_sort_of(ref_views(r@).take(bs.len() as int), bs, newest_first())
            &&& stable_sort_of(ref_views(r@).skip(bs.len() as int), ts, newest_first())
        }),
{
    let b = sort_newest_first(collect_found(branches, "branch"));
    let t = sort_newest_first(collect_found(tags, "tag"));
    let ghost bv = ref_views(b@);
    let ghost tv = ref_views(t@);
    let mut refs = b;
    let mut t = t;
    refs.append(&mut t);
    assert(ref_views(refs@) =~= bv + tv);
    assert(ref_views(refs@).take(bv.len() as int) =~= bv);
    assert(ref_views(refs@).skip(bv.len() as int) =~= tv);
    refs
}

/// The items of one page: `limit` items from `offset` on (fewer at the end,
/// none past it).
pub open spec fn page_items<T>(items: Seq<T>, offset: nat, limit: nat) -> Seq<T> {
    if offset >= items.len() {
        Seq::empty()
    } else {
        items.subrange(
            offset as int,
            if offset + limit < items.len() { (offset + limit) as int } else { items.len() as int },
        )
    }
}

/// One page of a list, with the length of the whole list.
pub fn page_of<T>(items: Vec<T>, offset: usize, limit: usize) -> (r: (Vec<T>, usize))
    ensures
        r.1 == items@.len(),
        r.0@ == page_items(items@, offset as nat, limit as nat),
{
    let total = items.len();
    if offset >= total {
        return (Vec::new(), total);
    }
    let end = if limit < total - offset { offset + limit } else { total };
    let mut items = items;
    let mut tail = items.split_off(offset);
    let _rest = tail.split_off(end - offset);
    assert(tail@ =~= page_items(items@.add(tail@).add(_rest@), offset as nat, limit as nat)) by {
    }
    (tail, total)
}

/// One page of the list of references, with the number of references.
pub fn list_refs_paginated(refs: Vec<RefInfo>, offset: usize, limit: usize) -> (r: (Vec<RefInfo>, usize))
    ensures
        r.1 == refs@.len(),
        r.0@ == page_items(refs@, offset as nat, limit as nat),
{
    page_of(refs, offset, limit)
}

/// Strictly increasing in string order (sorted, without repeats).
pub open spec fn strictly_sorted(s: Seq<Seq<char>>) -> bool {
    forall|i: int, j: int| 0 <= i < j < s.len() ==> lex_lt(#[trigger] s[i], #[trigger] s[j])
}

fn insert_unique_sorted(out: &mut Vec<String>, x: String)
    requires
        strictly_sorted(string_views(old(out)@)),
    ensures
        strictly_sorted(string_views(final(out)@)),
        string_views(final(out)@).to_set() == string_views(old(out)@).to_set().insert(x@),
{
    let ghost ov = string_views(out@);
    let mut k: usize = 0;
    while k < out.len() && str_lt(out[k].as_str(), x.as_str())
        invariant
            k <= out.len(),
            ov == string_views(out@),
            forall|i: int| 0 <= i < k ==> lex_lt(#[trigger] ov[i], x@),
        decreases out.len() - k,
    {
        k += 1;
    }
    if k < out.len() && str_eq(out[k].as_str(), x.as_str()) {
        assert(ov.to_set().insert(x@) =~= ov.to_set()) by {
            assert(ov[k as int] == x@);
            assert(ov.contains(x@));
        }
        return;
    }
    proof {
        if k < ov.len() {
            lemma_lex_total(ov[k as int], x@);
            assert(lex_lt(x@, ov[k as int]));
        }
        assert forall|i: int| k <= i < ov.len() implies lex_lt(x@, #[trigger] ov[i]) by {
            if i > k {
                lemma_lex_transitive(x@, ov[k as int], ov[i]);
            }
        }
    }
    out.insert(k, x);
    let ghost nv = string_views(out@);
    assert(nv =~= ov.take(k as int).push(x@) + ov.skip(k as int));
    assert forall|i: int, j: int| 0 <= i < j < nv.len() implies lex_lt(#[trigger] nv[i], #[trigger] nv[j]) by {
        if j < k {
            assert(nv[i] == ov[i] && nv[j] == ov[j]);
        } else if j == k {
            assert(nv[i] == ov[i]);
        } else if i < k {
            assert(nv[i] == ov[i] && nv[j] == ov[j - 1]);
            lemma_lex_transitive(ov[i], x@, ov[j - 1]);
        } else if i == k {
            assert(nv[j] == ov[j - 1]);
        } else {
            assert(nv[i] == ov[i - 1] && nv[j] == ov[j - 1]);
        }
    }
    assert forall|y: Seq<char>| nv.contains(y) <==> ov.to_set().insert(x@).contains(y) by {
        if nv.contains(y) {
            let i = choose|i: int| 0 <= i < nv.len() && nv[i] == y;
            if i < k {
                assert(ov[i] == y);
            } else if i > k {
                assert(ov[i - 1] == y);
            }
        }
        if ov.contains(y) {
            let i = choose|i: int| 0 <= i < ov.len() && ov[i] == y;
            if i < k {
                assert(nv[i] == y);
            } else {
                assert(nv[i + 1] == y);
            }
        }
        if y == x@ {
            assert(nv[k as int] == y);
        }
    }
    assert(nv.to_set() =~= ov.to_set().insert(x@));
}

/// The tags of a commit, sorted by name without repeats, given every tag
/// with the commit it points at; none when the hash is not an object id.
pub fn tags_for_commit(commit_hash: &str, tags: &Vec<(String, String)>) -> (r: Option<Vec<String>>)
    ensures
        match oid_hex(commit_hash@) {
            None => r is None,
            Some(oid) => r matches Some(names) && strictly_sorted(string_views(names@))
                && string_views(names@).to_set() == names_at(pair_views(tags@), oid).to_set(),
        },
{
    let oid = match parse_oid(commit_hash) {
        Some(o) => o,
        None => return None,
    };
    let ghost ts = pair_views(tags@);
    let mut out: Vec<String> = Vec::new();
    let mut i: usize = 0;
    assert(ts.take(0) =~= Seq::<(Seq<char>, Seq<char>)>::empty());
    assert(string_views(out@).to_set() =~= names_at(ts.take(0), oid@).to_set());
    while i < tags.len()
        invariant
            i <= tags.len(),
            ts == pair_views(tags@),
            strictly_sorted(string_views(out@)),
            string_views(out@).to_set() == names_at(ts.take(i as int), oid@).to_set(),
        decreases tags.len() - i,
    {
        assert(ts.take(i + 1).drop_last() =~= ts.take(i as int));
        assert(ts.take(i + 1).last() == (tags@[i as int].0@, tags@[i as int].1@));
        if str_eq(tags[i].1.as_str(), oid.as_str()) {
            insert_unique_sorted(&mut out, tags[i].0.clone());
            assert(names_at(ts.take(i + 1), oid@) == names_at(ts.take(i as int), oid@).push(tags@[i as int].0@));
            proof {
                names_at(ts.take(i as int), oid@).lemma_push_to_set_commute(tags@[i as int].0@);
            }
        }
        i += 1;
    }
    assert(ts.take(tags.len() as int) =~= ts);
    Some(out)
}

/// Name of the first reference in `refs` that points at `oid`.
pub open spec fn first_name_at(refs: Seq<(Seq<char>, Seq<char>)>, oid: Seq<char>) -> Option<Seq<char>>
    decreases refs.len(),
{
    if refs.len() == 0 {
        None
    } else if refs[0].1 == oid {
        Some(refs[0].0)
    } else {
        first_name_at(refs.drop_first(), oid)
    }
}

/// Name of the first reference whose flag is set.
pub open spec fn first_flagged(refs: Seq<(Seq<char>, Seq<char>)>, flags: Seq<bool>) -> Option<Seq<char>>
    decreases refs.len(),
{
    if refs.len() == 0 || flags.len() == 0 {
        None
    } else if flags[0] {
        Some(refs[0].0)
    } else {
        first_flagged(refs.drop_first(), flags.drop_first())
    }
}

/// The branch shown for a commit, given every local branch with the commit
/// it points at, and for each branch whether its commit descends from this
/// one: the first branch pointing at the commit, else the first branch
/// whose commit descends from it, else none. An invalid hash gives no
/// answer at all.
pub open spec fn branch_for_commit(
    commit_hash: Seq<char>,
    branches: Seq<(Seq<char>, Seq<char>)>,
    descends: Seq<bool>,
) -> Option<Option<Seq<char>>> {
    match oid_hex(commit_hash) {
        None => None,
        Some(oid) => match first_name_at(branches, oid) {
            Some(n) => Some(Some(n)),
            None => Some(first_flagged(branches, descends)),
        },
    }
}

/// The first reference pointing at `oid` is the one at index `i` when it
/// points there and none before it does.
proof fn lemma_first_name_at(refs: Seq<(Seq<char>, Seq<char>)>, oid: Seq<char>, i: int)
    requires
        0 <= i < refs.len(),
        refs[i].1 == oid,
        forall|j: int| 0 <= j < i ==> #[trigger] refs[j].1 != oid,
    ensures
        first_name_at(refs, oid) == Some(refs[i].0),
    decreases i,
{
    if i > 0 {
        assert(refs[0].1 != oid);
        assert forall|j: int| 0 <= j < i - 1 implies #[trigger] refs.drop_first()[j].1 != oid by {
            assert(refs.drop_first()[j] == refs[j + 1]);
        }
        lemma_first_name_at(refs.drop_first(), oid, i - 1);
    }
}

/// No reference points at `oid` when none of them does.
proof fn lemma_no_name_at(refs: Seq<(Seq<char>, Seq<char>)>, oid: Seq<char>)
    requires
        forall|j: int| 0 <= j < refs.len() ==> #[trigger] refs[j].1 != oid,
    ensures
        first_name_at(refs, oid) is None,
    decreases refs.len(),
{
    if refs.len() > 0 {
        assert(refs[0].1 != oid);
        assert forall|j: int| 0 <= j < refs.len() - 1 implies #[trigger] refs.drop_first()[j].1 != oid by {
            assert(refs.drop_first()[j] == refs[j + 1]);
        }
        lemma_no_name_at(refs.drop_first(), oid);
    }
}

/// The first flagged reference is the one at index `k` when its flag is set
/// and no flag before it is.
proof fn lemma_first_flagged(refs: Seq<(Seq<char>, Seq<char>)>, flags: Seq<bool>, k: int)
    requires
        0 <= k < refs.len(),
        k < flags.len(),
        flags[k],
        forall|j: int| 0 <= j < k ==> !#[trigger] flags[j],
    ensures
        first_flagged(refs, flags) == Some(refs[k].0),
    decreases k,
{
    if k > 0 {
        assert(!flags[0]);
        assert forall|j: int| 0 <= j < k - 1 implies !#[trigger] flags.drop_first()[j] by {
            assert(flags.drop_first()[j] == flags[j + 1]);
        }
        lemma_first_flagged(refs.drop_first(), flags.drop_first(), k - 1);
    }
}

/// No reference is flagged when no flag is set.
proof fn lemma_none_flagged(refs: Seq<(Seq<char>, Seq<char>)>, flags: Seq<bool>)
    requires
        forall|j: int| 0 <= j < flags.len() ==> !#[trigger] flags[j],
    ensures
        first_flagged(refs, flags) is None,
    decreases refs.len(),
{
    if refs.len() > 0 && flags.len() > 0 {
        assert forall|j: int| 0 <= j < flags.len() - 1 implies !#[trigger] flags.drop_first()[j] by {
            assert(flags.drop_first()[j] == flags[j + 1]);
        }
        lemma_none_flagged(refs.drop_first(), flags.drop_first());
    }
}

/// The branch shown for a commit is the first branch that points at the
/// commit itself, whatever the other branches' commits descend from; only
/// when no branch points at it is the first branch whose commit descends
/// from it shown, and none when no branch's commit does. A hash that is not
/// a commit id gives no answer.
pub proof fn law_branch_for_commit(
    commit_hash: Seq<char>,
    branches: Seq<(Seq<char>, Seq<char>)>,
    descends: Seq<bool>,
    i: int,
)
    requires
        descends.len() == branches.len(),
    ensures
        oid_hex(commit_hash) is None ==> branch_for_commit(commit_hash, branches, descends) is None,
        oid_hex(commit_hash) is Some && 0 <= i < branches.len() && branches[i].1 == oid_hex(commit_hash)->0 && (forall|
            j: int,
        | 0 <= j < i ==> #[trigger] branches[j].1 != oid_hex(commit_hash)->0) ==> branch_for_commit(
            commit_hash,
            branches,
            descends,
        ) == Some(Some(branches[i].0)),
        oid_hex(commit_hash) is Some && (forall|j: int|
            0 <= j < branches.len() ==> #[trigger] branches[j].1 != oid_hex(commit_hash)->0) && 0 <= i
            < branches.len() && descends[i] && (forall|j: int| 0 <= j < i ==> !#[trigger] descends[j])
            ==> branch_for_commit(commit_hash, branches, descends) == Some(Some(branches[i].0)),
        oid_hex(commit_hash) is Some && (forall|j: int|
            0 <= j < branches.len() ==> #[trigger] branches[j].1 != oid_hex(commit_hash)->0) && (forall|j: int|
            0 <= j < descends.len() ==> !#[trigger] descends[j]) ==> branch_for_commit(
            commit_hash,
            branches,
            descends,
        ) == Some(None::<Seq<char>>),
{
    if let Some(oid) = oid_hex(commit_hash) {
        if 0 <= i < branches.len() && branches[i].1 == oid && (forall|j: int|
            0 <= j < i ==> #[trigger] branches[j].1 != oid) {
            lemma_first_name_at(branches, oid, i);
        }
        if forall|j: int| 0 <= j < branches.len() ==> #[trigger] branches[j].1 != oid {
            lemma_no_name_at(branches, oid);
            if 0 <= i < branches.len() && descends[i] && (forall|j: int| 0 <= j < i ==> !#[trigger] descends[j]) {
                lemma_first_flagged(branches, descends, i);
            }
            if forall|j: int| 0 <= j < descends.len() ==> !#[trigger] descends[j] {
                lemma_none_flagged(branches, descends);
            }
        }
    }
}

/// Optional view of an optional string.
pub open spec fn opt_opt_view(o: Option<Option<String>>) -> Option<Option<Seq<char>>> {
    match o {
        None => None,
        Some(inner) => Some(opt_view(inner)),
    }
}

/// Finds the branch shown for a commit (see `branch_for_commit`).
pub fn find_branch_for_commit(
    commit_hash: &str,
    branches: &Vec<(String, String)>,
    descends: &Vec<bool>,
) -> (r: Option<Option<String>>)
    requires
        descends.len() == branches.len(),
    ensures
        opt_opt_view(r) == branch_for_commit(commit_hash@, pair_views(branches@), descends@),
{
    let parsed = parse_oid(commit_hash);
    let oid = match parsed {
        Some(o) => o,
        None => return None,
    };
    assert(oid_hex(commit_hash@) == Some(oid@));
    let ghost bs = pair_views(branches@);
    let mut i: usize = 0;
    assert(bs.skip(0) =~= bs);
    while i < branches.len()
        invariant
            i <= branches.len(),
            bs == pair_views(branches@),
            first_name_at(bs.skip(i as int), oid@) == first_name_at(bs, oid@),
            oid_hex(commit_hash@) == Some(oid@),
        decreases branches.len() - i,
    {
        assert(bs.skip(i as int)[0] == bs[i as int]);
        assert(bs[i as int] == (branches@[i as int].0@, branches@[i as int].1@));
        if str_eq(branches[i].1.as_str(), oid.as_str()) {
            let name = branches[i].0.clone();
            assert(first_name_at(bs.skip(i as int), oid@) == Some(bs[i as int].0));
            assert(name@ == bs[i as int].0);
            assert(oid_hex(commit_hash@) == Some(oid@));
            return Some(Some(name));
        }
        assert(bs.skip(i as int).drop_first() =~= bs.skip(i + 1));
        i += 1;
    }
    let mut k: usize = 0;
    let ghost ds = descends@;
    assert(ds.skip(0) =~= ds);
    while k < branches.len()
        invariant
            k <= branches.len(),
            bs == pair_views(branches@),
            ds == descends@,
            descends.len() == branches.len(),
            first_flagged(bs.skip(k as int), ds.skip(k as int)) == first_flagged(bs, ds),
            oid_hex(commit_hash@) == Some(oid@),
            first_name_at(bs, oid@) is None,
        decreases branches.len() - k,
    {
        assert(bs.skip(k as int)[0] == bs[k as int]);
        assert(ds.skip(k as int)[0] == ds[k as int]);
        assert(bs[k as int] == (branches@[k as int].0@, branches@[k as int].1@));
        if descends[k] {
            let name = branches[k].0.clone();
            assert(first_flagged(bs.skip(k as int), ds.skip(k as int)) == Some(bs[k as int].0));
            assert(name@ == bs[k as int].0);
            return Some(Some(name));
        }
        assert(bs.skip(k as int).drop_first() =~= bs.skip(k + 1));
        assert(ds.skip(k as int).drop_first() =~= ds.skip(k + 1));
        k += 1;
    }
    assert(first_flagged(bs.skip(k as int), ds.skip(k as int)) is None);
    Some(None)
}

/// What was found for a requested reference name.
pub struct ResolvedRef {
    /// It is a local branch.
    pub is_branch: bool,
    /// It is a tag.
    pub is_tag: bool,
    /// Its short name, when it has one.
    pub shorthand: Option<String>,
    /// For a tag: the branch shown for the tagged commit, if any.
    pub tag_branch: Option<String>,
}

/// What was found for the repository's HEAD.
pub struct HeadState {
    /// HEAD is a branch.
    pub is_branch: bool,
    /// HEAD's short name, when it has one.
    pub shorthand: Option<String>,
    /// When HEAD leads to a commit: the branch shown for that commit, if any.
    pub commit_branch: Option<Option<String>>,
}

/// `o`, or `d` when there is none.
pub open spec fn or_else(o: Option<Seq<char>>, d: Seq<char>) -> Seq<char> {
    match o {
        Some(s) => s,
        None => d,
    }
}

/// The header of a page for a found reference: a branch shows itself; a tag
/// shows itself and the branch of its commit (or HEAD); anything else shows
/// its name as the branch. A reference without a short name goes by the
/// name that was requested.
pub open spec fn header_for_reference(r: ResolvedRef, fallback: Seq<char>) -> (Seq<char>, Option<Seq<char>>) {
    if r.is_branch {
        (or_else(opt_view(r.shorthand), fallback), None)
    } else if r.is_tag {
        (or_else(opt_view(r.tag_branch), "HEAD"@), Some(or_else(opt_view(r.shorthand), fallback)))
    } else {
        (or_else(opt_view(r.shorthand), fallback), None)
    }
}

fn or_else_str(o: &Option<String>, d: &str) -> (r: String)
    ensures
        r@ == or_else(opt_view(*o), d@),
{
    match o {
        Some(s) => s.clone(),
        None => owned(d),
    }
}

/// The header of a page for a found reference (see `header_for_reference`).
pub fn header_refs_for_reference(reference: &ResolvedRef, fallback_name: &str) -> (r: HeaderRefs)
    ensures
        (r.branch@, opt_view(r.tag)) == header_for_reference(*reference, fallback_name@),
{
    if reference.is_branch {
        HeaderRefs { branch: or_else_str(&reference.shorthand, fallback_name), tag: None }
    } else if reference.is_tag {
        let tag = or_else_str(&reference.shorthand, fallback_name);
        HeaderRefs { branch: or_else_str(&reference.tag_branch, "HEAD"), tag: Some(tag) }
    } else {
        HeaderRefs { branch: or_else_str(&reference.shorthand, fallback_name), tag: None }
    }
}

/// The names under which a requested reference is looked up, in order: as
/// given, as a local branch, as a tag.
pub fn reference_candidates(name: &str) -> (r: Vec<String>)
    ensures
        string_views(r@) == seq![name@, "refs/heads/"@ + name@, "refs/tags/"@ + name@],
{
    let mut heads = owned("refs/heads/");
    push_str(&mut heads, name);
    let mut tags = owned("refs/tags/");
    push_str(&mut tags, name);
    let mut v: Vec<String> = Vec::new();
    v.push(owned(name));
    v.push(heads);
    v.push(tags);
    assert(string_views(v@) =~= seq![name@, "refs/heads/"@ + name@, "refs/tags/"@ + name@]);
    v
}

/// The header of a repository page: for a requested reference, what the
/// first of its candidate names that exists shows (or the name itself when
/// none exists); without one, HEAD's branch, or the branch of HEAD's
/// commit, or "HEAD".
pub open spec fn header_refs_spec(
    ref_name: Option<Seq<char>>,
    resolved: Option<ResolvedRef>,
    head: Option<HeadState>,
) -> (Seq<char>, Option<Seq<char>>) {
    match ref_name {
        Some(name) => match resolved {
            Some(r) => header_for_reference(r, name),
            None => (name, None),
        },
        None => match head {
            Some(h) => if h.is_branch {
                (or_else(opt_view(h.shorthand), "HEAD"@), None)
            } else {
                match h.commit_branch {
                    Some(b) => (or_else(opt_view(b), "HEAD"@), None),
                    None => ("HEAD"@, None),
                }
            },
            None => ("HEAD"@, None),
        },
    }
}

/// The header of a repository page (see `header_refs_spec`), given what
/// the lookups of the requested reference and of HEAD found.
pub fn get_header_refs(ref_name: Option<&str>, resolved: Option<ResolvedRef>, head: Option<HeadState>) -> (r: HeaderRefs)
    ensures
        (r.branch@, opt_view(r.tag)) == header_refs_spec(
            match ref_name {
                Some(n) => Some(n@),
                None => None,
            },
            resolved,
            head,
        ),
{
    match ref_name {
        Some(name) => match resolved {
            Some(r) => header_refs_for_reference(&r, name),
            None => HeaderRefs { branch: owned(name), tag: None },
        },
        None => match head {
            Some(h) => if h.is_branch {
                HeaderRefs { branch: or_else_str(&h.shorthand, "HEAD"), tag: None }
            } else {
                match h.commit_branch {
                    Some(b) => HeaderRefs { branch: or_else_str(&b, "HEAD"), tag: None },
                    None => HeaderRefs { branch: owned("HEAD"), tag: None },
                }
            },
            None => HeaderRefs { branch: owned("HEAD"), tag: None },
        },
    }
}

/// Consecutive pages fit together: a page of `a` items followed by the page
/// of `b` items after it is the page of `a + b` items.
pub proof fn law_pages_join<T>(items: Seq<T>, offset: nat, a: nat, b: nat)
    ensures
        page_items(items, offset, a) + page_items(items, offset + a, b) == page_items(items, offset, a + b),
{
    if offset >= items.len() {
        assert(page_items(items, offset, a) + page_items(items, offset + a, b) =~= Seq::<T>::empty());
    } else if offset + a >= items.len() {
        assert(page_items(items, offset, a) + page_items(items, offset + a, b) =~= page_items(items, offset, a + b));
    } else {
        assert(page_items(items, offset, a) + page_items(items, offset + a, b) =~= page_items(items, offset, a + b));
    }
}

} // verus!
