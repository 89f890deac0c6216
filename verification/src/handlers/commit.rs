//! The commit page: file summaries with their diff links, the branch shown,
//! and the commit's title.

use vstd::prelude::*;

use crate::format::opt_str_view;
use crate::git::diff::CommitDiffSummary;
use crate::format::CommitDiffChange;
use crate::git::commits::CommitInfo;
use crate::git::diff::DiffStats;
use crate::handlers::util::{display_time, is_display_time, is_nav, opt_view, with_ref, RepoRequestContext};
use crate::templates::{CommitFileSummary, CommitTemplate};
use crate::text::{
    char_is_whitespace, chars_of, is_whitespace_char, owned, push_char, push_str, starts_with, str_eq,
    str_starts_with, string_of,
};

verus! {

/// A byte left as it is in a query value: ASCII letters and digits, '-',
/// '_', '.', '~' and '/'.
pub open spec fn is_query_safe(b: u8) -> bool {
    (65 <= b && b <= 90) || (97 <= b && b <= 122) || (48 <= b && b <= 57) || b == 45 || b == 95 || b == 46
        || b == 126 || b == 47
}

/// Upper-case hexadecimal digit of a value below 16.
pub open spec fn hex_digit(v: u8) -> char {
    if v < 10 {
        ((48 + v) as u32) as char
    } else {
        ((55 + v) as u32) as char
    }
}

/// A byte as written in a query value: itself when safe, else '%' and its
/// two upper-case hex digits.
pub open spec fn encoded_byte(b: u8) -> Seq<char> {
    if is_query_safe(b) {
        seq![(b as u32) as char]
    } else {
        seq!['%', hex_digit(b / 16), hex_digit(b % 16)]
    }
}

/// Bytes written as a query value.
pub open spec fn encoded_bytes(bytes: Seq<u8>) -> Seq<char>
    decreases bytes.len(),
{
    if bytes.len() == 0 {
        Seq::empty()
    } else {
        encoded_bytes(bytes.drop_last()) + encoded_byte(bytes.last())
    }
}

fn hex_char(v: u8) -> (c: char)
    requires
        v < 16,
    ensures
        c == hex_digit(v),
{
    if v < 10 {
        (48 + v) as char
    } else {
        (55 + v) as char
    }
}

/// Percent-encodes a value for a query string: the UTF-8 bytes of `value`,
/// each kept when safe and otherwise written as '%XX'.
pub fn encode_query_value(value: &str) -> (r: String)
    ensures
        r@ == encoded_bytes(vstd::utf8::encode_utf8(value@)),
{
    let bytes = value.as_bytes();
    let mut out = String::new();
    let mut i: usize = 0;
    assert(bytes@.take(0) =~= Seq::<u8>::empty());
    while i < bytes.len()
        invariant
            i <= bytes.len(),
            bytes@ == vstd::utf8::encode_utf8(value@),
            out@ == encoded_bytes(bytes@.take(i as int)),
        decreases bytes.len() - i,
    {
        let b = bytes[i];
        assert(bytes@.take(i + 1).drop_last() =~= bytes@.take(i as int));
        if (65 <= b && b <= 90) || (97 <= b && b <= 122) || (48 <= b && b <= 57) || b == 45 || b == 95 || b == 46
            || b == 126 || b == 47 {
            push_char(&mut out, b as char);
        } else {
            push_char(&mut out, '%');
            push_char(&mut out, hex_char(b / 16));
            push_char(&mut out, hex_char(b % 16));
        }
        i += 1;
        assert(out@ =~= encoded_bytes(bytes@.take(i as int)));
    }
    assert(bytes@.take(bytes.len() as int) =~= bytes@);
    out
}

/// Whether `f` is the commit page's row for one changed file: its counts
/// and kind of change, with the link to its diff.
pub open spec fn is_file_summary(
    f: CommitFileSummary,
    repo_name: Seq<char>,
    display_ref: Seq<char>,
    commit_hash: Seq<char>,
    summary: CommitDiffSummary,
) -> bool {
    &&& f.file_name@ == summary.path@
    &&& f.adds == summary.adds
    &&& f.dels == summary.dels
    &&& f.is_binary == summary.is_binary
    &&& f.is_added == (summary.change == CommitDiffChange::Added)
    &&& f.is_deleted == (summary.change == CommitDiffChange::Deleted)
    &&& opt_view(f.empty_label) == opt_str_view(summary.empty_label)
    &&& f.diff_href@ == with_ref(
        seq!['/'] + repo_name + "/commit/"@ + commit_hash + "/diff?path="@ + encoded_bytes(
            vstd::utf8::encode_utf8(summary.path@),
        ),
        display_ref,
    )
}

/// The row of one changed file on a commit page (see `is_file_summary`).
pub fn build_commit_file_summary(
    ctx: &RepoRequestContext,
    commit_hash: &str,
    summary: CommitDiffSummary,
) -> (r: CommitFileSummary)
    ensures
        is_file_summary(r, ctx.repo_name@, ctx.display_ref@, commit_hash@, summary),
{
    let encoded = encode_query_value(summary.path.as_str());
    let mut url = String::new();
    push_char(&mut url, '/');
    push_str(&mut url, ctx.repo_name.as_str());
    push_str(&mut url, "/commit/");
    push_str(&mut url, commit_hash);
    push_str(&mut url, "/diff?path=");
    push_str(&mut url, encoded.as_str());
    CommitFileSummary {
        file_name: summary.path,
        adds: summary.adds,
        dels: summary.dels,
        is_binary: summary.is_binary,
        is_added: summary.change == CommitDiffChange::Added,
        is_deleted: summary.change == CommitDiffChange::Deleted,
        empty_label: match summary.empty_label {
            Some(l) => Some(owned(l)),
            None => None,
        },
        diff_href: ctx.append_ref(url),
    }
}

/// The title and message of a commit page: the message without trailing
/// whitespace, and its first line.
pub fn commit_title(message: &str) -> (r: (String, String))
    ensures
        r.1@ == crate::text::trim_ws_end(message@),
        r.0@ == crate::text::first_line(crate::text::trim_ws_end(message@)),
{
    let trimmed = crate::text::trim_end(message);
    let title = crate::text::first_line_of(trimmed.as_str());
    (title, trimmed)
}

/// The reference to look up, and the branch it shows, when a commit page is
/// requested with a reference: the reference trimmed of whitespace, unless
/// it is empty or "HEAD"; a full branch reference ("refs/heads/<b>") is
/// looked up as given and shows `<b>`; any other name is looked up as
/// "refs/heads/<name>" and shows the name.
pub open spec fn branch_lookup_spec(ref_name: Option<Seq<char>>) -> Option<(Seq<char>, Seq<char>)> {
    match ref_name {
        None => None,
        Some(r) => {
            let t = crate::text::trim_ws_end(crate::text::trim_ws_start(r));
            if t.len() == 0 || t == "HEAD"@ {
                None
            } else if starts_with(t, "refs/heads/"@) {
                Some((t, t.skip(11)))
            } else {
                Some(("refs/heads/"@ + t, t))
            }
        },
    }
}

/// Which reference a commit page looks up to name its branch (see
/// `branch_lookup_spec`). When the lookup fails, or there is none, the page
/// shows the branch found for the commit instead.
pub fn branch_lookup(ref_name: Option<&str>) -> (r: Option<(String, String)>)
    ensures
        match r {
            Some((lookup, branch)) => branch_lookup_spec(match ref_name {
                Some(n) => Some(n@),
                None => None,
            }) == Some((lookup@, branch@)),
            None => branch_lookup_spec(match ref_name {
                Some(n) => Some(n@),
                None => None,
            }) is None,
        },
{
    let name = match ref_name {
        Some(n) => crate::text::trim(n),
        None => return None,
    };
    if name.as_str().is_empty() || str_eq(name.as_str(), "HEAD") {
        return None;
    }
    if str_starts_with(name.as_str(), "refs/heads/") {
        proof {
            reveal_strlit("refs/heads/");
        }
        let n = name.as_str().unicode_len();
        let branch = owned(name.as_str().substring_char(11, n));
        Some((name, branch))
    } else {
        let mut lookup = owned("refs/heads/");
        push_str(&mut lookup, name.as_str());
        Some((lookup, name))
    }
}

/// The branch a commit page shows: the one the requested reference names
/// when that branch exists, else the branch found for the commit.
pub open spec fn resolved_branch(
    ref_name: Option<Seq<char>>,
    reference_found: bool,
    found_for_commit: Option<Seq<char>>,
) -> Option<Seq<char>> {
    match branch_lookup_spec(ref_name) {
        Some((_, branch)) => if reference_found {
            Some(branch)
        } else {
            found_for_commit
        },
        None => found_for_commit,
    }
}

/// The branch a commit page shows (see `resolved_branch`), once the
/// reference that `branch_lookup` names was looked up and the branch of
/// the commit was searched for.
pub fn resolve_branch(ref_name: Option<&str>, reference_found: bool, found_for_commit: Option<String>) -> (r: Option<String>)
    ensures
        opt_view(r) == resolved_branch(opt_str_view(ref_name), reference_found, opt_view(found_for_commit)),
{
    match branch_lookup(ref_name) {
        Some((_, branch)) => if reference_found {
            Some(branch)
        } else {
            found_for_commit
        },
        None => found_for_commit,
    }
}

/// The page of commit `info`, requested as `commit_hash`: its title and
/// message, hash, branch, tags, author and time, a row for each changed
/// file, and the totals.
pub fn commit_template(
    ctx: RepoRequestContext,
    commit_hash: &str,
    info: CommitInfo,
    files: Vec<CommitDiffSummary>,
    stats: DiffStats,
    branch: Option<String>,
    tags: Vec<String>,
) -> (r: CommitTemplate)
    ensures
        r.chrome == ctx.chrome,
        is_nav(r.nav, ctx.repo_name@, ctx.display_ref@, "commit"@),
        r.commit_message@ == crate::text::trim_ws_end(info.message@),
        r.commit_title@ == crate::text::first_line(crate::text::trim_ws_end(info.message@)),
        r.commit_hash == info.hash,
        r.branch == branch,
        r.tags == tags,
        r.author == info.author,
        r.author_email == info.author_email,
        is_display_time(r.time, info.time),
        r.files@.len() == files@.len(),
        forall|i: int|
            0 <= i < files@.len() ==> is_file_summary(
                #[trigger] r.files@[i],
                ctx.repo_name@,
                ctx.display_ref@,
                commit_hash@,
                files@[i],
            ),
        r.files_changed == stats.files_changed,
        r.insertions == stats.insertions,
        r.deletions == stats.deletions,
{
    let nav = ctx.nav("commit");
    let (commit_title, commit_message) = commit_title(info.message.as_str());
    let n = files.len();
    let mut rest = files;
    let ghost all = rest@;
    let mut rows: Vec<CommitFileSummary> = Vec::new();
    let mut i: usize = 0;
    while i < n
        invariant
            i <= n,
            n == all.len(),
            rest@ == all.skip(i as int),
            rows@.len() == i,
            forall|k: int|
                0 <= k < i ==> is_file_summary(
                    #[trigger] rows@[k],
                    ctx.repo_name@,
                    ctx.display_ref@,
                    commit_hash@,
                    all[k],
                ),
        decreases n - i,
    {
        let f = rest.remove(0);
        assert(rest@ =~= all.skip(i + 1));
        rows.push(build_commit_file_summary(&ctx, commit_hash, f));
        i += 1;
    }
    CommitTemplate {
        chrome: ctx.chrome,
        nav,
        commit_title,
        commit_message,
        commit_hash: info.hash,
        branch,
        tags,
        author: info.author,
        author_email: info.author_email,
        time: display_time(info.time),
        files: rows,
        files_changed: stats.files_changed,
        insertions: stats.insertions,
        deletions: stats.deletions,
    }
}

} // verus!
