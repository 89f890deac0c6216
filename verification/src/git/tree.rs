//! Directory listings and README lookup.

use vstd::prelude::*;

use crate::handlers::util::{ascii_lower, lowercase_extension, opt_view, path_extension};
use crate::sorting::{lemma_stable_sort_step, stable_sort_of, total_preorder};
use crate::text::{lex_le, lex_lt, lemma_lex_irreflexive, lemma_lex_total, lemma_lex_transitive, owned, str_eq, str_lt};

verus! {

/// A README's text and whether it is Markdown.
pub struct ReadmeContent {
    pub text: String,
    pub is_markdown: bool,
}

/// One entry of a directory: its name, whether it is a directory, its size
/// (number of entries for a directory, bytes for a file) and the time of
/// the commit it is listed at.
pub struct TreeEntry {
    pub name: String,
    pub is_dir: bool,
    pub size: Option<u64>,
    pub last_modified: Option<i64>,
}

/// Abstract value of a directory entry.
pub type TreeEntryView = (Seq<char>, bool, Option<u64>, Option<i64>);

impl View for TreeEntry {
    type V = TreeEntryView;

    open spec fn view(&self) -> TreeEntryView {
        (self.name@, self.is_dir, self.size, self.last_modified)
    }
}

/// Views of entries.
pub open spec fn entry_views(s: Seq<TreeEntry>) -> Seq<TreeEntryView> {
    s.map_values(|e: TreeEntry| e@)
}

/// Directories first, then by name.
pub open spec fn dirs_then_name() -> spec_fn(TreeEntryView, TreeEntryView) -> bool {
    |a: TreeEntryView, b: TreeEntryView| (a.1 && !b.1) || (a.1 == b.1 && lex_le(a.0, b.0))
}

pub proof fn lemma_dirs_then_name_total()
    ensures
        total_preorder(dirs_then_name()),
{
    let le = dirs_then_name();
    assert forall|a: TreeEntryView, b: TreeEntryView, c: TreeEntryView| #[trigger] le(a, b) && #[trigger] le(b, c) implies le(a, c) by {
        if a.1 == b.1 && b.1 == c.1 {
            if lex_lt(a.0, b.0) && lex_lt(b.0, c.0) {
                lemma_lex_transitive(a.0, b.0, c.0);
            }
        }
    }
    assert forall|a: TreeEntryView, b: TreeEntryView| #[trigger] le(a, b) || le(b, a) by {
        lemma_lex_total(a.0, b.0);
    }
}

/// Entries of a listing that have a name, in order, each with the time of
/// the listed commit.
pub open spec fn named_entries(listing: Seq<(Option<Seq<char>>, bool, Option<u64>)>, time: i64) -> Seq<TreeEntryView>
    decreases listing.len(),
{
    if listing.len() == 0 {
        Seq::empty()
    } else {
        let prev = named_entries(listing.drop_last(), time);
        match listing.last().0 {
            Some(name) => prev.push((name, listing.last().1, listing.last().2, Some(time))),
            None => prev,
        }
    }
}

/// Views of a raw listing: the name (if it is UTF-8), whether it is a
/// directory, and the size.
pub open spec fn listing_views(v: Seq<(Option<String>, bool, Option<u64>)>) -> Seq<(Option<Seq<char>>, bool, Option<u64>)> {
    v.map_values(|e: (Option<String>, bool, Option<u64>)| (opt_view(e.0), e.1, e.2))
}

fn dir_name_le(a: &TreeEntry, b: &TreeEntry) -> (r: bool)
    ensures
        r == dirs_then_name()(a@, b@),
{
    (a.is_dir && !b.is_dir) || (a.is_dir == b.is_dir && (str_lt(a.name.as_str(), b.name.as_str()) || str_eq(
        a.name.as_str(),
        b.name.as_str(),
    )))
}

/// The entries of a directory, given its raw listing and the time of the
/// commit it is listed at: entries without a UTF-8 name are left out, each
/// entry carries the commit's time, and the entries are sorted directories
/// first, then by name (stably).
pub fn get_tree_entries(listing: Vec<(Option<String>, bool, Option<u64>)>, commit_time: i64) -> (r: Vec<TreeEntry>)
    ensures
        stable_sort_of(entry_views(r@), named_entries(listing_views(listing@), commit_time), dirs_then_name()),
{
    let ghost lv = listing_views(listing@);
    let mut entries: Vec<TreeEntry> = Vec::new();
    let mut i: usize = 0;
    assert(lv.take(0) =~= Seq::<(Option<Seq<char>>, bool, Option<u64>)>::empty());
    assert(entry_views(entries@) =~= Seq::<TreeEntryView>::empty());
    while i < listing.len()
        invariant
            i <= listing.len(),
            lv == listing_views(listing@),
            entry_views(entries@) == named_entries(lv.take(i as int), commit_time),
        decreases listing.len() - i,
    {
        assert(lv.take(i + 1).drop_last() =~= lv.take(i as int));
        let ghost before = entries@;
        match &listing[i].0 {
            Some(name) => {
                entries.push(TreeEntry {
                    name: name.clone(),
                    is_dir: listing[i].1,
                    size: listing[i].2,
                    last_modified: Some(commit_time),
                });
                assert(entry_views(entries@) =~= entry_views(before).push(entries@[entries@.len() - 1]@));
            },
            None => {},
        }
        i += 1;
    }
    assert(lv.take(listing.len() as int) =~= lv);
    sort_entries(entries)
}

fn sort_entries(entries: Vec<TreeEntry>) -> (r: Vec<TreeEntry>)
    ensures
        stable_sort_of(entry_views(r@), entry_views(entries@), dirs_then_name()),
{
    let ghost orig = entry_views(entries@);
    let ghost le = dirs_then_name();
    proof {
        lemma_dirs_then_name_total();
    }
    let mut input = entries;
    let mut out: Vec<TreeEntry> = Vec::new();
    let ghost mut taken: int = 0;
    assert(orig.take(0) =~= Seq::<TreeEntryView>::empty());
    assert(entry_views(out@) =~= Seq::<TreeEntryView>::empty());
    while input.len() > 0
        invariant
            0 <= taken <= orig.len(),
            le == dirs_then_name(),
            total_preorder(le),
            entry_views(input@) == orig.skip(taken),
            stable_sort_of(entry_views(out@), orig.take(taken), le),
        decreases input.len(),
    {
        let ghost rest = input@;
        let x = input.remove(0);
        assert(entry_views(input@) =~= entry_views(rest).drop_first());
        assert(entry_views(rest)[0] == rest[0]@);
        let mut k: usize = 0;
        while k < out.len() && dir_name_le(&out[k], &x)
            invariant
                k <= out.len(),
                forall|i: int| 0 <= i < k ==> le(#[trigger] entry_views(out@)[i], x@),
                le == dirs_then_name(),
            decreases out.len() - k,
        {
            k += 1;
        }
        let ghost ov = entry_views(out@);
        assert forall|i: int| k <= i < ov.len() implies !le(#[trigger] ov[i], x@) by {
            assert(!le(ov[k as int], x@));
            if i > k {
                assert(le(ov[k as int], ov[i]));
                if le(ov[i], x@) {
                    assert(le(ov[k as int], x@));
                }
            }
        }
        proof {
            lemma_stable_sort_step(ov, orig.take(taken), x@, k as int, le);
        }
        out.insert(k, x);
        assert(entry_views(out@) =~= ov.take(k as int).push(x@) + ov.skip(k as int));
        assert(orig.take(taken + 1) =~= orig.take(taken).push(x@));
        proof {
            taken = taken + 1;
        }
        assert(orig.skip(taken) =~= entry_views(input@));
    }
    assert(orig.take(taken) =~= orig);
    out
}

/// Whether a file name has the extension "md", in any case.
pub open spec fn is_markdown(name: Seq<char>) -> bool {
    match path_extension(name) {
        Some(e) => ascii_lower(e) == "md"@,
        None => false,
    }
}

/// Whether a README name is a Markdown file (see `is_markdown`).
pub fn is_markdown_name(name: &str) -> (r: bool)
    ensures
        r == is_markdown(name@),
{
    match crate::handlers::util::extension(name) {
        Some(e) => {
            let l = crate::handlers::util::to_ascii_lowercase(e.as_str());
            str_eq(l.as_str(), "md")
        },
        None => false,
    }
}

/// The names under which a README is looked for, in order.
pub open spec fn readme_names_spec() -> Seq<Seq<char>> {
    seq!["README.md"@, "readme.md"@, "README"@, "readme"@]
}

/// The names under which a README is looked for, in order.
pub fn readme_names() -> (r: Vec<&'static str>)
    ensures
        r@.map_values(|s: &str| s@) == readme_names_spec(),
{
    let v = vec!["README.md", "readme.md", "README", "readme"];
    assert(v@.map_values(|s: &str| s@) =~= readme_names_spec());
    v
}

/// Decodes bytes as UTF-8 (`String::from_utf8`): text exactly when the
/// bytes are valid UTF-8.
#[verifier::external_body]
fn utf8_decode(bytes: Vec<u8>) -> (r: Option<String>)
    ensures
        r is Some <==> vstd::utf8::valid_utf8(bytes@),
        r matches Some(s) ==> s@ == vstd::utf8::decode_utf8(bytes@),
{
    String::from_utf8(bytes).ok()
}

/// The README of a tree: the first of the README names, in order, whose
/// file exists and is valid UTF-8, with its decoded text and whether it is
/// Markdown.
pub open spec fn readme_choice(found: Seq<Option<Seq<u8>>>, k: int) -> Option<(Seq<char>, bool)>
    decreases found.len() - k,
{
    if k >= found.len() || k >= 4 {
        None
    } else {
        match found[k] {
            Some(bytes) => if vstd::utf8::valid_utf8(bytes) {
                Some((vstd::utf8::decode_utf8(bytes), is_markdown(readme_names_spec()[k])))
            } else {
                readme_choice(found, k + 1)
            },
            None => readme_choice(found, k + 1),
        }
    }
}

/// Views of the contents found for the README names.
pub open spec fn content_views(v: Seq<Option<Vec<u8>>>) -> Seq<Option<Seq<u8>>> {
    v.map_values(|o: Option<Vec<u8>>| match o {
        Some(b) => Some(b@),
        None => None,
    })
}

/// Picks the README of a tree (see `readme_choice`), given for each README
/// name in order the content of that file, if it exists.
pub fn get_readme(found: Vec<Option<Vec<u8>>>) -> (r: Option<ReadmeContent>)
    ensures
        match r {
            Some(c) => readme_choice(content_views(found@), 0) == Some((c.text@, c.is_markdown)),
            None => readme_choice(content_views(found@), 0) is None,
        },
{
    let ghost fv = content_views(found@);
    let names = readme_names();
    assert(names@.map_values(|s: &str| s@).len() == 4);
    let mut k: usize = 0;
    while k < found.len() && k < 4
        invariant
            k <= found.len(),
            names@.map_values(|s: &str| s@) == readme_names_spec(),
            names@.len() == 4,
            fv == content_views(found@),
            fv.len() == found.len(),
            forall|j: int| k <= j < fv.len() ==> fv[j] == match #[trigger] found@[j] {
                Some(b) => Some(b@),
                None => None,
            },
            readme_choice(fv, k as int) == readme_choice(fv, 0),
        decreases found.len() - k,
    {
        match &found[k] {
            Some(bytes) => {
                let copy = bytes.clone();
                assert(copy@ =~= bytes@);
                match utf8_decode(copy) {
                    Some(text) => {
                        assert(names@.map_values(|s: &str| s@)[k as int] == names@[k as int]@);
                        let md = is_markdown_name(names[k]);
                        assert(fv[k as int] == Some(bytes@));
                        assert(readme_choice(fv, k as int) == Some((text@, md)));
                        return Some(ReadmeContent { text, is_markdown: md });
                    },
                    None => {},
                }
            },
            None => {},
        }
        k += 1;
    }
    None
}

} // verus!
