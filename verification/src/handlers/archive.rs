//! Naming of the downloadable archive of a reference.

use vstd::prelude::*;

use crate::git::diff::trim_end_char;
use crate::handlers::util::RepoRequestContext;
use crate::text::{chars_of, push_char, push_str, starts_with, str_starts_with, string_of};

verus! {

/// A reference name without its "refs/heads/" or "refs/tags/" prefix.
pub open spec fn pretty_ref(r: Seq<char>) -> Seq<char> {
    if starts_with(r, "refs/heads/"@) {
        r.skip("refs/heads/"@.len() as int)
    } else if starts_with(r, "refs/tags/"@) {
        r.skip("refs/tags/"@.len() as int)
    } else {
        r
    }
}

/// The short form of a reference name (see `pretty_ref`).
pub fn pretty_ref_name(ref_name: &str) -> (r: &str)
    ensures
        r@ == pretty_ref(ref_name@),
{
    let n = ref_name.unicode_len();
    if str_starts_with(ref_name, "refs/heads/") {
        proof {
            reveal_strlit("refs/heads/");
        }
        ref_name.substring_char(11, n)
    } else if str_starts_with(ref_name, "refs/tags/") {
        proof {
            reveal_strlit("refs/tags/");
        }
        ref_name.substring_char(10, n)
    } else {
        ref_name
    }
}

/// A character kept in archive names: ASCII letters and digits, '.', '_'
/// and '-'.
pub open spec fn is_archive_char(c: char) -> bool {
    ('a' <= c && c <= 'z') || ('A' <= c && c <= 'Z') || ('0' <= c && c <= '9') || c == '.' || c == '_'
        || c == '-'
}

/// `s` without any leading `c`.
pub open spec fn trim_start_char(s: Seq<char>, c: char) -> Seq<char>
    decreases s.len(),
{
    if s.len() > 0 && s[0] == c {
        trim_start_char(s.drop_first(), c)
    } else {
        s
    }
}

/// An archive name component: every other character replaced by '-',
/// then leading and trailing '-' removed.
pub open spec fn sanitized(value: Seq<char>) -> Seq<char> {
    trim_end_char(
        trim_start_char(value.map_values(|c: char| if is_archive_char(c) { c } else { '-' }), '-'),
        '-',
    )
}

/// Turns a name into a component of an archive's name (see `sanitized`).
pub fn sanitize_archive_component(value: &str) -> (r: String)
    ensures
        r@ == sanitized(value@),
{
    let cs = chars_of(value);
    let ghost mapped = value@.map_values(|c: char| if is_archive_char(c) { c } else { '-' });
    let mut m: Vec<char> = Vec::new();
    let mut i: usize = 0;
    while i < cs.len()
        invariant
            cs@ == value@,
            i <= cs.len(),
            m@ == mapped.take(i as int),
            mapped == value@.map_values(|c: char| if is_archive_char(c) { c } else { '-' }),
        decreases cs.len() - i,
    {
        let c = cs[i];
        let keep = ('a' <= c && c <= 'z') || ('A' <= c && c <= 'Z') || ('0' <= c && c <= '9') || c == '.'
            || c == '_' || c == '-';
        m.push(if keep { c } else { '-' });
        i += 1;
        assert(m@ =~= mapped.take(i as int));
    }
    assert(mapped.take(cs.len() as int) =~= mapped);
    let mut start: usize = 0;
    assert(mapped.skip(0) =~= mapped);
    while start < m.len() && m[start] == '-'
        invariant
            start <= m.len(),
            m@ == mapped,
            trim_start_char(m@.skip(start as int), '-') == trim_start_char(mapped, '-'),
        decreases m.len() - start,
    {
        assert(m@.skip(start as int).drop_first() =~= m@.skip(start + 1));
        start += 1;
    }
    let mut end: usize = m.len();
    let ghost front = m@.skip(start as int);
    assert(front.take(front.len() as int) =~= front);
    while end > start && m[end - 1] == '-'
        invariant
            start <= end <= m.len(),
            m@ == mapped,
            front == m@.skip(start as int),
            trim_end_char(m@.subrange(start as int, end as int), '-') == trim_end_char(front, '-'),
        decreases end,
    {
        assert(m@.subrange(start as int, end as int).drop_last() =~= m@.subrange(start as int, end - 1));
        end -= 1;
    }
    assert(front.take(front.len() as int) =~= front);
    assert(m@.subrange(start as int, m@.len() as int) =~= front);
    let mut out = String::new();
    let mut k = start;
    while k < end
        invariant
            start <= k <= end,
            end <= m.len(),
            out@ == m@.subrange(start as int, k as int),
        decreases end - k,
    {
        push_char(&mut out, m[k]);
        k += 1;
        assert(out@ =~= m@.subrange(start as int, k as int));
    }
    out
}

/// The name of the archive of a repository at the shown reference:
/// "<repository>-<reference>", each part sanitized, where the reference is
/// the short form of the requested one, or the branch in the header (or
/// "HEAD") when none was requested.
pub open spec fn archive_root(repo_name: Seq<char>, display_ref: Seq<char>, header_branch: Option<Seq<char>>) -> Seq<char> {
    let r = if display_ref.len() == 0 {
        match header_branch {
            Some(b) => b,
            None => "HEAD"@,
        }
    } else {
        pretty_ref(display_ref)
    };
    sanitized(repo_name) + seq!['-'] + sanitized(r)
}

/// Names the archive of a request (see `archive_root`).
pub fn archive_root_name(ctx: &RepoRequestContext) -> (r: String)
    ensures
        r@ == archive_root(
            ctx.repo_name@,
            ctx.display_ref@,
            crate::handlers::util::opt_view(ctx.chrome.header_branch),
        ),
{
    let ref_name: &str = if ctx.display_ref.as_str().is_empty() {
        match &ctx.chrome.header_branch {
            Some(b) => b.as_str(),
            None => "HEAD",
        }
    } else {
        pretty_ref_name(ctx.display_ref.as_str())
    };
    let mut out = sanitize_archive_component(ctx.repo_name.as_str());
    push_char(&mut out, '-');
    let r = sanitize_archive_component(ref_name);
    push_str(&mut out, r.as_str());
    out
}

/// The `Content-Disposition` of an archive download: an attachment named
/// after the archive's root directory.
pub fn archive_disposition(archive_root: &str) -> (r: String)
    ensures
        r@ == "attachment; filename=\""@ + archive_root@ + ".tar.gz\""@,
{
    let mut value = String::new();
    push_str(&mut value, "attachment; filename=\"");
    push_str(&mut value, archive_root);
    push_str(&mut value, ".tar.gz\"");
    value
}

/// The `--prefix` argument that puts every file of an archive under its
/// root directory.
pub fn archive_prefix_arg(archive_root: &str) -> (r: String)
    ensures
        r@ == "--prefix="@ + archive_root@ + seq!['/'],
{
    let mut arg = String::new();
    push_str(&mut arg, "--prefix=");
    push_str(&mut arg, archive_root);
    push_char(&mut arg, '/');
    arg
}

proof fn lemma_trim_start_char(s: Seq<char>, c: char)
    ensures
        exists|k: int| 0 <= k <= s.len() && #[trigger] s.skip(k) == trim_start_char(s, c),
        trim_start_char(s, c).len() > 0 ==> trim_start_char(s, c)[0] != c,
    decreases s.len(),
{
    if s.len() > 0 && s[0] == c {
        lemma_trim_start_char(s.drop_first(), c);
        let k = choose|k: int| 0 <= k <= s.drop_first().len() && #[trigger] s.drop_first().skip(k) == trim_start_char(s.drop_first(), c);
        assert(s.skip(k + 1) =~= s.drop_first().skip(k));
    } else {
        assert(s.skip(0) =~= s);
    }
}

proof fn lemma_trim_end_char(s: Seq<char>, c: char)
    ensures
        exists|k: int| 0 <= k <= s.len() && #[trigger] s.take(k) == trim_end_char(s, c),
        trim_end_char(s, c).len() > 0 ==> trim_end_char(s, c).last() != c,
    decreases s.len(),
{
    if s.len() > 0 && s.last() == c {
        lemma_trim_end_char(s.drop_last(), c);
        let k = choose|k: int| 0 <= k <= s.drop_last().len() && #[trigger] s.drop_last().take(k) == trim_end_char(s.drop_last(), c);
        assert(s.take(k) =~= s.drop_last().take(k));
    } else {
        assert(s.take(s.len() as int) =~= s);
    }
}

/// An archive name component uses only ASCII letters, digits, '.', '_' and
/// '-', and neither starts nor ends with '-'.
pub proof fn law_sanitized_component(value: Seq<char>)
    ensures
        forall|i: int| 0 <= i < sanitized(value).len() ==> is_archive_char(#[trigger] sanitized(value)[i]),
        sanitized(value).len() > 0 ==> sanitized(value)[0] != '-' && sanitized(value).last() != '-',
{
    let mapped = value.map_values(|c: char| if is_archive_char(c) { c } else { '-' });
    let front = trim_start_char(mapped, '-');
    lemma_trim_start_char(mapped, '-');
    lemma_trim_end_char(front, '-');
    let k1 = choose|k: int| 0 <= k <= mapped.len() && #[trigger] mapped.skip(k) == front;
    let k2 = choose|k: int| 0 <= k <= front.len() && #[trigger] front.take(k) == trim_end_char(front, '-');
    assert forall|i: int| 0 <= i < sanitized(value).len() implies is_archive_char(#[trigger] sanitized(value)[i]) by {
        assert(sanitized(value)[i] == front[i]);
        assert(front[i] == mapped[k1 + i]);
    }
    if sanitized(value).len() > 0 {
        assert(sanitized(value)[0] == front[0]);
    }
}

} // verus!
