//! The repository index page: the README, rendered from Markdown with its
//! relative images pointed at the raw files of the repository.

use vstd::prelude::*;

use crate::git::tree::ReadmeContent;
use crate::handlers::commit::hex_digit;
use crate::handlers::util::{is_nav, RepoRequestContext};
use crate::templates::{IndexTemplate, ReadmeDisplay};
use crate::text::{chars_of, push_char, push_str, starts_with, str_starts_with, string_of};
use pulldown_cmark::{html, CowStr, Event, Options, Parser, Tag};
use vstd::utf8::encode_utf8;

verus! {

/// Whether a link points into the repository: it names no scheme, host,
/// inline data or anchor.
pub open spec fn is_relative(url: Seq<char>) -> bool {
    !starts_with(url, "http://"@) && !starts_with(url, "https://"@) && !starts_with(url, "//"@)
        && !starts_with(url, "data:"@) && !starts_with(url, "#"@)
}

/// Whether a link points into the repository (see `is_relative`).
pub fn is_relative_url(url: &str) -> (r: bool)
    ensures
        r == is_relative(url@),
{
    !str_starts_with(url, "http://") && !str_starts_with(url, "https://") && !str_starts_with(url, "//")
        && !str_starts_with(url, "data:") && !str_starts_with(url, "#")
}

/// A byte that URL encoding keeps: ASCII letters and digits, '-', '.', '_'
/// and '~'.
pub open spec fn is_unreserved(b: u8) -> bool {
    (65 <= b && b <= 90) || (97 <= b && b <= 122) || (48 <= b && b <= 57) || b == 45 || b == 46 || b == 95
        || b == 126
}

/// A byte URL-encoded: itself when unreserved, else '%' and its two
/// upper-case hex digits.
pub open spec fn url_encoded_byte(b: u8) -> Seq<char> {
    if is_unreserved(b) {
        seq![(b as u32) as char]
    } else {
        seq!['%', hex_digit(b / 16), hex_digit(b % 16)]
    }
}

/// Bytes URL-encoded one by one.
pub open spec fn url_encoded(bytes: Seq<u8>) -> Seq<char>
    decreases bytes.len(),
{
    if bytes.len() == 0 {
        Seq::empty()
    } else {
        url_encoded(bytes.drop_last()) + url_encoded_byte(bytes.last())
    }
}

/// `urlencoding::encode`: the UTF-8 bytes of `s`, each unreserved byte kept
/// and every other written as '%' with two upper-case hex digits, as the
/// crate documents and its source does.
#[verifier::external_body]
fn url_encode(s: &str) -> (r: String)
    ensures
        r@ == url_encoded(encode_utf8(s@)),
{
    urlencoding::encode(s).into_owned()
}

/// `s` without any leading "./".
pub open spec fn trim_dot_slash(s: Seq<char>) -> Seq<char>
    decreases s.len(),
{
    if s.len() >= 2 && s[0] == '.' && s[1] == '/' {
        trim_dot_slash(s.skip(2))
    } else {
        s
    }
}

fn trim_leading_dot_slash(s: &str) -> (r: String)
    ensures
        r@ == trim_dot_slash(s@),
{
    let cs = chars_of(s);
    let mut i: usize = 0;
    assert(cs@.skip(0) =~= cs@);
    while cs.len() - i >= 2 && cs[i] == '.' && cs[i + 1] == '/'
        invariant
            i <= cs@.len(),
            cs@ == s@,
            trim_dot_slash(cs@.skip(i as int)) == trim_dot_slash(s@),
        decreases cs.len() - i,
    {
        assert(cs@.skip(i as int).skip(2) =~= cs@.skip(i + 2));
        i += 2;
    }
    let mut out: Vec<char> = Vec::new();
    let start = i;
    while i < cs.len()
        invariant
            start <= i <= cs@.len(),
            out@ == cs@.subrange(start as int, i as int),
        decreases cs.len() - i,
    {
        out.push(cs[i]);
        i += 1;
        assert(out@ =~= cs@.subrange(start as int, i as int));
    }
    assert(cs@.subrange(start as int, cs@.len() as int) =~= cs@.skip(start as int));
    string_of(&out)
}

/// The link to the raw file that a relative image names.
pub open spec fn raw_image_url(url: Seq<char>, repo_name: Seq<char>, display_ref: Seq<char>) -> Seq<char> {
    let base = seq!['/'] + repo_name + "/blob?path="@ + url_encoded(encode_utf8(trim_dot_slash(url)))
        + "&raw=1"@;
    if display_ref.len() == 0 {
        base
    } else {
        base + "&ref="@ + url_encoded(encode_utf8(display_ref))
    }
}

/// Points a relative image at the raw file in the repository (see
/// `raw_image_url`).
pub fn rewrite_image_url(url: &str, repo_name: &str, display_ref: &str) -> (r: String)
    ensures
        r@ == raw_image_url(url@, repo_name@, display_ref@),
{
    let path = trim_leading_dot_slash(url);
    let mut raw_url = String::new();
    push_char(&mut raw_url, '/');
    push_str(&mut raw_url, repo_name);
    push_str(&mut raw_url, "/blob?path=");
    let encoded = url_encode(path.as_str());
    push_str(&mut raw_url, encoded.as_str());
    push_str(&mut raw_url, "&raw=1");
    if !display_ref.is_empty() {
        push_str(&mut raw_url, "&ref=");
        let encoded_ref = url_encode(display_ref);
        push_str(&mut raw_url, encoded_ref.as_str());
    }
    raw_url
}

/// Where an image of a README points: relative images at the raw file, the
/// others where they did.
pub open spec fn image_target(url: Seq<char>, repo_name: Seq<char>, display_ref: Seq<char>) -> Seq<char> {
    if is_relative(url) {
        raw_image_url(url, repo_name, display_ref)
    } else {
        url
    }
}

/// Where an image of a README points (see `image_target`).
pub fn image_destination(url: &str, repo_name: &str, display_ref: &str) -> (r: String)
    ensures
        r@ == image_target(url@, repo_name@, display_ref@),
{
    if is_relative_url(url) {
        rewrite_image_url(url, repo_name, display_ref)
    } else {
        crate::text::owned(url)
    }
}

/// Markdown extensions a README may use: tables.
pub const MARKDOWN_TABLES: u32 = 2;

/// Markdown extensions a README may use: footnotes.
pub const MARKDOWN_FOOTNOTES: u32 = 4;

/// Markdown extensions a README may use: strikethrough.
pub const MARKDOWN_STRIKETHROUGH: u32 = 8;

/// Markdown extensions a README may use: task lists.
pub const MARKDOWN_TASKLISTS: u32 = 16;

/// The Markdown extensions of READMEs, as pulldown-cmark's option bits.
pub open spec fn readme_options() -> u32 {
    30
}

/// HTML that pulldown-cmark renders from Markdown with the given option
/// bits, each image pointed where `image_target` says.
pub uninterp spec fn markdown_html(source: Seq<char>, options: u32, repo_name: Seq<char>, display_ref: Seq<char>) -> Seq<char>;

/// `pulldown_cmark::Parser::new_ext` with `html::push_html`: renders
/// Markdown to HTML, each image's destination passed through
/// `image_destination`. The result is named, not stated.
#[verifier::external_body]
fn markdown_to_html(source: &str, options: u32, repo_name: &str, display_ref: &str) -> (r: String)
    ensures
        r@ == markdown_html(source@, options, repo_name@, display_ref@),
{
    let parser = Parser::new_ext(source, Options::from_bits_truncate(options)).map(|event| match event {
        Event::Start(Tag::Image { link_type, dest_url, title, id }) => Event::Start(Tag::Image {
            link_type,
            dest_url: CowStr::from(image_destination(&dest_url, repo_name, display_ref)),
            title,
            id,
        }),
        other => other,
    });
    let mut html_output = String::new();
    html::push_html(&mut html_output, parser);
    html_output
}

/// HTML that ammonia keeps of `html` under its default rules, with `tag`
/// allowed and given exactly the attributes `attributes`.
pub uninterp spec fn sanitized_html(html: Seq<char>, tag: Seq<char>, attributes: Seq<Seq<char>>) -> Seq<char>;

/// Whether ammonia's default rules take `tag` with exactly `attributes`:
/// not a tag whose content they remove ("script", "style"), and not "a"
/// with "rel" while they set `rel` on links themselves (`Builder::clean`
/// panics on those).
pub open spec fn sanitizer_accepts(tag: Seq<char>, attributes: Seq<Seq<char>>) -> bool {
    &&& tag != "script"@
    &&& tag != "style"@
    &&& !(tag == "a"@ && attributes.contains("rel"@))
}

/// `ammonia::Builder::clean` under the default rules, with `tag` added to
/// the allowed tags and its allowed attributes set to `attributes`; the
/// tags and attributes on which it panics are left out. The result is
/// named, not stated.
#[verifier::external_body]
fn sanitize_html(html: &str, tag: &'static str, attributes: &Vec<&'static str>) -> (r: String)
    requires
        sanitizer_accepts(tag@, attributes@.map_values(|a: &'static str| a@)),
    ensures
        r@ == sanitized_html(html@, tag@, attributes@.map_values(|a: &'static str| a@)),
{
    let mut tags = ammonia::Builder::default().clone_tags();
    tags.insert(tag);
    let mut tag_attrs = ammonia::Builder::default().clone_tag_attributes();
    tag_attrs.insert(tag, attributes.iter().copied().collect());
    let mut builder = ammonia::Builder::default();
    builder.tags(tags).tag_attributes(tag_attrs);
    builder.clean(html).to_string()
}

/// The attributes an image of a README keeps.
pub open spec fn image_attributes() -> Seq<Seq<char>> {
    seq!["src"@, "alt"@, "title"@]
}

/// Renders a Markdown README to safe HTML: tables, footnotes,
/// strikethrough and task lists on, relative images pointed at the raw
/// files, and the result sanitized with images allowed.
pub fn render_markdown(source: &str, repo_name: &str, display_ref: &str) -> (r: String)
    ensures
        r@ == sanitized_html(
            markdown_html(source@, readme_options(), repo_name@, display_ref@),
            "img"@,
            image_attributes(),
        ),
{
    let options = MARKDOWN_STRIKETHROUGH | MARKDOWN_TABLES | MARKDOWN_TASKLISTS | MARKDOWN_FOOTNOTES;
    assert(options == readme_options()) by (bit_vector)
        requires
            options == 8u32 | 2u32 | 16u32 | 4u32,
    ;
    let html_output = markdown_to_html(source, options, repo_name, display_ref);
    let attributes: Vec<&'static str> = vec!["src", "alt", "title"];
    assert(attributes@.map_values(|a: &'static str| a@) =~= image_attributes());
    proof {
        reveal_strlit("img");
        reveal_strlit("script");
        reveal_strlit("style");
        reveal_strlit("a");
    }
    assert("img"@.len() != "script"@.len() && "img"@.len() != "style"@.len() && "img"@.len() != "a"@.len());
    assert(sanitizer_accepts("img"@, image_attributes()));
    sanitize_html(html_output.as_str(), "img", &attributes)
}

/// What the index page shows of a README: Markdown rendered, other text as
/// it is.
pub fn render_readme(readme: ReadmeContent, repo_name: &str, display_ref: &str) -> (r: ReadmeDisplay)
    ensures
        r.is_markdown == readme.is_markdown,
        readme.is_markdown ==> r.content@ == sanitized_html(
            markdown_html(readme.text@, readme_options(), repo_name@, display_ref@),
            "img"@,
            image_attributes(),
        ),
        !readme.is_markdown ==> r.content@ == readme.text@,
{
    let content = if readme.is_markdown {
        render_markdown(readme.text.as_str(), repo_name, display_ref)
    } else {
        readme.text
    };
    ReadmeDisplay { content, is_markdown: readme.is_markdown }
}

/// The index page of a repository: its README, when it has one, rendered
/// for the reference shown.
pub fn index_template(ctx: RepoRequestContext, readme: Option<ReadmeContent>) -> (r: IndexTemplate)
    ensures
        r.chrome == ctx.chrome,
        is_nav(r.nav, ctx.repo_name@, ctx.display_ref@, "index"@),
        r.readme.is_some() == readme.is_some(),
        readme.is_some() ==> {
            let src = readme.unwrap();
            let shown = r.readme.unwrap();
            &&& shown.is_markdown == src.is_markdown
            &&& src.is_markdown ==> shown.content@ == sanitized_html(
                markdown_html(src.text@, readme_options(), ctx.repo_name@, ctx.display_ref@),
                "img"@,
                image_attributes(),
            )
            &&& !src.is_markdown ==> shown.content@ == src.text@
        },
{
    let nav = ctx.nav("index");
    let shown = match readme {
        Some(r) => Some(render_readme(r, ctx.repo_name.as_str(), ctx.display_ref.as_str())),
        None => None,
    };
    IndexTemplate { chrome: ctx.chrome, nav, readme: shown }
}

/// The characters URL encoding writes: ASCII letters and digits, '-', '.',
/// '_', '~' and '%'.
pub open spec fn is_url_text_char(c: char) -> bool {
    ('a' <= c && c <= 'z') || ('A' <= c && c <= 'Z') || ('0' <= c && c <= '9') || c == '-' || c == '.'
        || c == '_' || c == '~' || c == '%'
}

proof fn lemma_hex_digit(v: u8)
    requires
        v < 16,
    ensures
        is_url_text_char(hex_digit(v)),
{
    if v < 10 {
        assert((((48 + v) as u32) as char) as nat == 48 + v);
    } else {
        assert((((55 + v) as u32) as char) as nat == 55 + v);
    }
}

/// URL-encoded text is safe in a query: it holds only letters, digits,
/// '-', '.', '_', '~' and '%', so no '&', '=', '#', space or quote.
pub proof fn law_url_encoded_charset(bytes: Seq<u8>)
    ensures
        forall|i: int| 0 <= i < url_encoded(bytes).len() ==> is_url_text_char(#[trigger] url_encoded(bytes)[i]),
    decreases bytes.len(),
{
    if bytes.len() > 0 {
        law_url_encoded_charset(bytes.drop_last());
        let b = bytes.last();
        let head = url_encoded(bytes.drop_last());
        let tail = url_encoded_byte(b);
        if is_unreserved(b) {
            assert(((b as u32) as char) as nat == b as nat);
        } else {
            lemma_hex_digit(b / 16);
            lemma_hex_digit(b % 16);
        }
        assert forall|i: int| 0 <= i < tail.len() implies is_url_text_char(#[trigger] tail[i]) by {}
        assert forall|i: int| 0 <= i < url_encoded(bytes).len() implies is_url_text_char(
            #[trigger] url_encoded(bytes)[i],
        ) by {
            if i < head.len() {
                assert(url_encoded(bytes)[i] == head[i]);
            } else {
                assert(url_encoded(bytes)[i] == tail[i - head.len()]);
            }
        }
    }
}

} // verus!
