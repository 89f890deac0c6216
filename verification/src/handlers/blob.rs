//! The page that shows one file, and its raw download.

use vstd::prelude::*;

use crate::git::diff::{is_binary_bytes, is_binary_content, lossy_utf8, utf8_lossy};
use crate::git::refs::string_views;
use crate::handlers::errors::AppError;
use crate::handlers::util::{
    is_safe_repo_path, safe_repo_path,
    content_type_for_extension, file_name, file_name_of, is_nav, lowercase_extension, media_type_of_path,
    path_components, with_ref, RepoRequestContext,
};
use crate::highlight::{highlight_lines, highlighted_lines, Syntaxes};
use crate::templates::{BlobTemplate, DiffLine, DiffLineView, PathComponent};
use crate::text::{chars_of, dec_nat, dec_string, push_char, push_str, starts_with, str_starts_with};

verus! {

/// The pieces of `s` between occurrences of `c` (`str::split`): one more
/// than there are occurrences.
pub open spec fn split_on(s: Seq<char>, c: char) -> Seq<Seq<char>>
    decreases s.len(),
{
    if s.len() == 0 {
        seq![Seq::empty()]
    } else {
        let p = split_on(s.drop_last(), c);
        if s.last() == c {
            p.push(Seq::empty())
        } else {
            p.update(p.len() - 1, p.last().push(s.last()))
        }
    }
}

pub proof fn lemma_split_on_nonempty(s: Seq<char>, c: char)
    ensures
        split_on(s, c).len() >= 1,
    decreases s.len(),
{
    if s.len() > 0 {
        lemma_split_on_nonempty(s.drop_last(), c);
    }
}

/// The pieces of `s` between occurrences of `c`, without the last one when
/// it is empty (`str::split_terminator`).
pub open spec fn split_terminator(s: Seq<char>, c: char) -> Seq<Seq<char>> {
    let p = split_on(s, c);
    if p.last().len() == 0 {
        p.drop_last()
    } else {
        p
    }
}

/// The lines of a file's content: the bytes decoded (invalid sequences
/// replaced), split at each newline, with no empty line after a final
/// newline.
pub fn blob_lines(content: &[u8]) -> (r: Vec<String>)
    ensures
        string_views(r@) == split_terminator(lossy_utf8(content@), '\n'),
{
    let text = utf8_lossy(content);
    let cs = chars_of(text.as_str());
    let mut pieces: Vec<String> = Vec::new();
    let mut cur: Vec<char> = Vec::new();
    let mut i: usize = 0;
    assert(cs@.take(0) =~= Seq::<char>::empty());
    assert(string_views(pieces@).push(cur@) =~= split_on(cs@.take(0), '\n'));
    while i < cs.len()
        invariant
            i <= cs@.len(),
            string_views(pieces@).push(cur@) == split_on(cs@.take(i as int), '\n'),
        decreases cs.len() - i,
    {
        let ghost before = string_views(pieces@).push(cur@);
        assert(cs@.take(i + 1).drop_last() =~= cs@.take(i as int));
        if cs[i] == '\n' {
            pieces.push(crate::text::string_of(&cur));
            cur = Vec::new();
            assert(string_views(pieces@) =~= before);
            assert(string_views(pieces@).push(cur@) =~= before.push(Seq::empty()));
        } else {
            cur.push(cs[i]);
            assert(string_views(pieces@).push(cur@) =~= before.update(before.len() - 1, before.last().push(cs@[i as int])));
        }
        i += 1;
    }
    assert(cs@.take(cs@.len() as int) =~= cs@);
    if cur.len() > 0 {
        pieces.push(crate::text::string_of(&cur));
    }
    assert(string_views(pieces@) =~= split_terminator(lossy_utf8(content@), '\n'));
    pieces
}

/// The numbered lines of a file view: line `k` (from 1) shows the `k`-th
/// highlighted line.
pub open spec fn numbered(html: Seq<Seq<char>>) -> Seq<DiffLineView> {
    Seq::new(html.len(), |k: int| DiffLineView { class: ""@, num: dec_nat((k + 1) as nat), text: html[k] })
}

/// Numbers the highlighted lines of a file (see `numbered`).
pub fn number_lines(highlighted: Vec<String>) -> (r: Vec<DiffLine>)
    ensures
        r@.map_values(|l: DiffLine| l@) == numbered(string_views(highlighted@)),
{
    let mut out: Vec<DiffLine> = Vec::new();
    let mut i: usize = 0;
    let n = highlighted.len();
    while i < n
        invariant
            i <= n,
            n == highlighted@.len(),
            out@.len() == i,
            forall|k: int| 0 <= k < i ==> (#[trigger] out@[k])@ == (DiffLineView {
                class: ""@,
                num: dec_nat((k + 1) as nat),
                text: highlighted@[k]@,
            }),
        decreases n - i,
    {
        let text = highlighted[i].clone();
        let num: usize = i + 1;
        out.push(DiffLine { class: "", num: dec_string(num as u64), text });
        i += 1;
    }
    assert(out@.map_values(|l: DiffLine| l@) =~= numbered(string_views(highlighted@)));
    out
}

/// `s` with each double quote replaced by an underscore.
pub open spec fn quotes_replaced(s: Seq<char>) -> Seq<char> {
    s.map_values(|c: char| if c == '"' { '_' } else { c })
}

/// The file name offered for a download: the last part of the path, or
/// "blob", with double quotes replaced.
pub open spec fn download_name(path: Seq<char>) -> Seq<char> {
    quotes_replaced(
        match file_name_of(path) {
            Some(n) => n,
            None => "blob"@,
        },
    )
}

/// The headers of a raw download: its media type, and for binary content
/// the `Content-Disposition` that makes it an attachment.
pub struct RawBlob {
    pub content_type: &'static str,
    pub disposition: Option<String>,
}

fn replace_quotes(s: &str) -> (r: String)
    ensures
        r@ == quotes_replaced(s@),
{
    let cs = chars_of(s);
    let mut out = String::new();
    let mut i: usize = 0;
    while i < cs.len()
        invariant
            i <= cs@.len(),
            cs@ == s@,
            out@ == quotes_replaced(s@).take(i as int),
        decreases cs.len() - i,
    {
        if cs[i] == '"' {
            push_char(&mut out, '_');
        } else {
            push_char(&mut out, cs[i]);
        }
        i += 1;
        assert(out@ =~= quotes_replaced(s@).take(i as int));
    }
    assert(quotes_replaced(s@).take(cs@.len() as int) =~= quotes_replaced(s@));
    out
}

/// The file a page asks for; a path that could leave the repository is a
/// bad request.
pub fn blob_request_path(path: String) -> (r: Result<String, AppError>)
    ensures
        safe_repo_path(path@) ==> r is Ok && r.unwrap() == path,
        !safe_repo_path(path@) ==> r is Err && r->Err_0 is BadRequest,
{
    if !is_safe_repo_path(path.as_str()) {
        return Err(AppError::BadRequest);
    }
    Ok(path)
}

/// The headers of the raw download of the file at `path`.
pub fn raw_blob_headers(path: &str, content: &[u8]) -> (r: RawBlob)
    ensures
        r.content_type@ == media_type_of_path(path@),
        r.disposition is Some <==> is_binary_content(content@),
        r.disposition is Some ==> r.disposition.unwrap()@ == "attachment; filename=\""@ + download_name(path@)
            + "\""@,
{
    let ext = lowercase_extension(path);
    let content_type = content_type_for_extension(ext.as_str());
    if !is_binary_bytes(content) {
        return RawBlob { content_type, disposition: None };
    }
    let name = match file_name(path) {
        Some(n) => n,
        None => crate::text::owned("blob"),
    };
    let mut value = String::new();
    push_str(&mut value, "attachment; filename=\"");
    let sanitized = replace_quotes(name.as_str());
    push_str(&mut value, sanitized.as_str());
    push_str(&mut value, "\"");
    RawBlob { content_type, disposition: Some(value) }
}

/// The view of the file at `path` whose content is `content`: its lines
/// highlighted and numbered unless it is binary, with the links and path
/// of the page.
pub fn blob_page(ctx: RepoRequestContext, syntaxes: &Syntaxes, path: String, content: &[u8]) -> (r: BlobTemplate)
    ensures
        r.chrome == ctx.chrome,
        is_nav(r.nav, ctx.repo_name@, ctx.display_ref@, "blob"@),
        r.file_path@ == path@,
        r.is_binary == is_binary_content(content@),
        r.is_image == starts_with(media_type_of_path(path@), "image/"@),
        r.blob_href@ == with_ref(seq!['/'] + ctx.repo_name@ + "/blob?path="@ + path@, ctx.display_ref@),
        r.root_href@ == with_ref(seq!['/'] + ctx.repo_name@ + "/tree"@, ctx.display_ref@),
        r.path_components@.map_values(|c: PathComponent| c@) == path_components(
            ctx.repo_name@,
            path@,
            ctx.display_ref@,
            false,
        ),
        r.is_binary ==> r.lines@.len() == 0,
        !r.is_binary ==> r.lines@.map_values(|l: DiffLine| l@) == numbered(
            highlighted_lines(path@, split_terminator(lossy_utf8(content@), '\n'), true),
        ),
{
    let ext = lowercase_extension(path.as_str());
    let content_type = content_type_for_extension(ext.as_str());
    let is_binary = is_binary_bytes(content);
    let is_image = str_starts_with(content_type, "image/");
    let lines: Vec<DiffLine> = if is_binary {
        Vec::new()
    } else {
        let raw_lines = blob_lines(content);
        let highlighted = highlight_lines(syntaxes, path.as_str(), &raw_lines, true);
        let numbered_lines = number_lines(highlighted);
        numbered_lines
    };
    let nav = ctx.nav("blob");
    let mut blob_url = String::new();
    push_char(&mut blob_url, '/');
    push_str(&mut blob_url, ctx.repo_name.as_str());
    push_str(&mut blob_url, "/blob?path=");
    push_str(&mut blob_url, path.as_str());
    let blob_href = ctx.append_ref(blob_url);
    let mut root_url = String::new();
    push_char(&mut root_url, '/');
    push_str(&mut root_url, ctx.repo_name.as_str());
    push_str(&mut root_url, "/tree");
    let root_href = ctx.append_ref(root_url);
    let path_components = ctx.path_components(path.as_str(), false);
    BlobTemplate {
        chrome: ctx.chrome,
        nav,
        file_path: path,
        lines,
        blob_href,
        root_href,
        is_binary,
        is_image,
        path_components,
    }
}

/// Pieces joined back together with `c` between them.
pub open spec fn join_with(parts: Seq<Seq<char>>, c: char) -> Seq<char>
    decreases parts.len(),
{
    if parts.len() == 0 {
        Seq::empty()
    } else if parts.len() == 1 {
        parts[0]
    } else {
        join_with(parts.drop_last(), c) + seq![c] + parts.last()
    }
}

/// Splitting loses nothing: no piece holds the separator, and the pieces
/// joined with the separator give back the text.
pub proof fn law_split_join(s: Seq<char>, c: char)
    ensures
        join_with(split_on(s, c), c) == s,
        forall|i: int| 0 <= i < split_on(s, c).len() ==> !(#[trigger] split_on(s, c)[i]).contains(c),
    decreases s.len(),
{
    if s.len() == 0 {
        assert(split_on(s, c) =~= seq![Seq::<char>::empty()]);
        assert(join_with(seq![Seq::<char>::empty()], c) == Seq::<char>::empty());
        assert(s =~= Seq::<char>::empty());
    } else {
        let prev = split_on(s.drop_last(), c);
        law_split_join(s.drop_last(), c);
        lemma_split_on_nonempty(s.drop_last(), c);
        let cur = split_on(s, c);
        if s.last() == c {
            assert(cur == prev.push(Seq::empty()));
            assert(cur.drop_last() =~= prev);
            assert(join_with(cur, c) =~= s);
            assert forall|i: int| 0 <= i < cur.len() implies !(#[trigger] cur[i]).contains(c) by {
                if i < prev.len() {
                    assert(cur[i] == prev[i]);
                }
            }
        } else {
            let last = prev.last().push(s.last());
            assert(cur == prev.update(prev.len() - 1, last));
            assert(cur.drop_last() =~= prev.drop_last());
            assert forall|i: int| 0 <= i < cur.len() implies !(#[trigger] cur[i]).contains(c) by {
                if i < prev.len() - 1 {
                    assert(cur[i] == prev[i]);
                } else {
                    assert(cur[i] == last);
                    assert(!prev.last().contains(c));
                    if last.contains(c) {
                        let j = choose|j: int| 0 <= j < last.len() && last[j] == c;
                        if j < prev.last().len() {
                            assert(prev.last()[j] == c);
                        }
                    }
                }
            }
            if prev.len() == 1 {
                assert(join_with(prev, c) == prev[0]);
                assert(cur.len() == 1);
                assert(join_with(cur, c) == cur[0]);
                assert(s =~= s.drop_last().push(s.last()));
            } else {
                assert(join_with(prev, c) == join_with(prev.drop_last(), c) + seq![c] + prev.last());
                assert(join_with(cur, c) == join_with(cur.drop_last(), c) + seq![c] + cur.last());
                assert(join_with(cur, c) =~= join_with(prev, c).push(s.last()));
                assert(s =~= s.drop_last().push(s.last()));
            }
        }
    }
}

/// The lines of a file hold no newline, and joined with newlines they give
/// back its text, but for a final newline.
pub proof fn law_blob_lines_rejoin(text: Seq<char>)
    ensures
        forall|i: int|
            0 <= i < split_terminator(text, '\n').len() ==> !(#[trigger] split_terminator(text, '\n')[i]).contains(
                '\n',
            ),
        join_with(split_terminator(text, '\n'), '\n') == text || join_with(split_terminator(text, '\n'), '\n')
            + seq!['\n'] == text,
{
    law_split_join(text, '\n');
    lemma_split_on_nonempty(text, '\n');
    let p = split_on(text, '\n');
    if p.last().len() == 0 {
        let q = p.drop_last();
        assert forall|i: int| 0 <= i < q.len() implies !(#[trigger] q[i]).contains('\n') by {
            assert(q[i] == p[i]);
        }
        if p.len() == 1 {
            assert(join_with(p, '\n') == p[0]);
            assert(text =~= Seq::<char>::empty());
            assert(join_with(q, '\n') =~= Seq::<char>::empty());
        } else {
            assert(join_with(p, '\n') == join_with(q, '\n') + seq!['\n'] + p.last());
            assert(join_with(q, '\n') + seq!['\n'] =~= text);
        }
    }
}

} // verus!
