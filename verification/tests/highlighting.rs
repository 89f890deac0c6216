use syntect::easy::ScopeRegionIterator;
use syntect::parsing::{ParseState, Scope, ScopeStack, SyntaxSet};

use uwgit::highlight::{
    escape_html, escape_lines, highlight_lines, highlight_ops, highlight_parsed, is_scope_prefix, matches_prefixes,
    push_escaped, split_regions, token_class, ScopeNames, StackOp, Syntaxes, TokenScopes,
};

fn syntaxes() -> SyntaxSet {
    SyntaxSet::load_defaults_nonewlines()
}

/// Highlighting computed directly with syntect's scopes.
fn direct_highlight(set: &SyntaxSet, path: &str, lines: &[String]) -> Vec<String> {
    let p = std::path::Path::new(path);
    let syntax = p
        .file_name()
        .and_then(|n| n.to_str())
        .and_then(|n| set.find_syntax_by_token(n))
        .or_else(|| p.extension().and_then(|e| e.to_str()).and_then(|e| set.find_syntax_by_token(e)))
        .or_else(|| lines.first().and_then(|l| set.find_syntax_by_first_line(l)))
        .unwrap_or_else(|| set.find_syntax_plain_text());
    let rules: Vec<(&str, Vec<Scope>)> = TokenScopes::new()
        .rules
        .iter()
        .map(|r| (r.class, r.prefixes.iter().map(|p| Scope::new(p).unwrap()).collect()))
        .collect();
    let mut state = ParseState::new(syntax);
    let mut stack = ScopeStack::new();
    let mut out = Vec::new();
    for line in lines {
        let ops = state.parse_line(line, set).unwrap();
        let mut html = String::new();
        for (segment, op) in ScopeRegionIterator::new(&ops, line) {
            stack.apply(op).unwrap();
            if segment.is_empty() {
                continue;
            }
            let class = rules
                .iter()
                .find(|(_, prefixes)| {
                    stack.as_slice().iter().any(|s| prefixes.iter().any(|p| p.is_prefix_of(*s)))
                })
                .map(|(c, _)| *c);
            let text = escape_html(segment);
            match class {
                Some(c) => html.push_str(&format!("<span class=\"{}\">{}</span>", c, text)),
                None => html.push_str(&text),
            }
        }
        out.push(html);
    }
    out
}

fn lines_of(text: &str) -> Vec<String> {
    text.split_terminator('\n').map(str::to_string).collect()
}

#[test]
fn escaping() {
    assert_eq!(escape_html("<a href=\"x\">Tom & 'Jerry'</a>"), "&lt;a href=&quot;x&quot;&gt;Tom &amp; &#39;Jerry&#39;&lt;/a&gt;");
    assert_eq!(escape_html("plain ü"), "plain ü");
    assert_eq!(escape_html(""), "");
    let mut out = String::from("x");
    push_escaped(&mut out, "<>");
    assert_eq!(out, "x&lt;&gt;");
    assert_eq!(escape_lines(&vec!["a<b".to_string(), "&".to_string()]), vec!["a&lt;b", "&amp;"]);
}

#[test]
fn scope_prefixes_follow_atoms() {
    let cases = [
        ("string", "string.quoted.double", true),
        ("string", "string", true),
        ("string", "stringy", false),
        ("string.quoted", "string", false),
        ("keyword.control", "keyword.control.flow.rust", true),
        ("keyword.control", "keyword.operator", false),
        ("constant", "constant.numeric.integer", true),
    ];
    for (p, s, expected) in cases {
        assert_eq!(is_scope_prefix(p, s), expected, "{} of {}", p, s);
        assert_eq!(Scope::new(p).unwrap().is_prefix_of(Scope::new(s).unwrap()), expected, "syntect: {} of {}", p, s);
    }
    let stack = vec!["source.rust".to_string(), "string.quoted.double.rust".to_string()];
    assert!(matches_prefixes(&stack, &vec!["comment", "string"]));
    assert!(!matches_prefixes(&stack, &vec!["comment"]));
}

#[test]
fn token_classes() {
    let scopes = TokenScopes::new();
    let class = |names: &[&str]| token_class(&scopes, &names.iter().map(|s| s.to_string()).collect());
    assert_eq!(class(&["source.rust", "comment.line.double-slash.rust"]), Some("tok-comment"));
    assert_eq!(class(&["source.rust", "string.quoted.double.rust", "constant.character.escape.rust"]), Some("tok-string"));
    assert_eq!(class(&["source.rust", "constant.numeric.integer.decimal.rust"]), Some("tok-number"));
    assert_eq!(class(&["source.rust", "storage.type.struct.rust"]), Some("tok-type"));
    assert_eq!(class(&["source.c", "meta.preprocessor.include.c"]), Some("tok-macro"));
    assert_eq!(class(&["source.rust", "entity.name.function.rust"]), Some("tok-function"));
    assert_eq!(class(&["source.rust", "constant.language.rust"]), Some("tok-constant"));
    assert_eq!(class(&["source.rust", "keyword.control.rust"]), Some("tok-keyword-control"));
    assert_eq!(class(&["source.rust", "keyword.operator.rust"]), Some("tok-keyword"));
    assert_eq!(class(&["source.rust", "punctuation.section.block.begin.rust"]), Some("tok-keyword"));
    assert_eq!(class(&["source.rust", "variable.other.rust"]), Some("tok-variable"));
    assert_eq!(class(&["source.rust", "variable.parameter.rust"]), Some("tok-constant"));
    assert_eq!(class(&["source.rust"]), None);
    assert_eq!(class(&[]), None);
}

#[test]
fn regions_cut_at_byte_offsets() {
    let parts = split_regions("aé b", &vec![1, 3, 3]).unwrap();
    assert_eq!(parts, vec!["a", "é", "", " b"]);
    assert_eq!(split_regions("abc", &vec![]).unwrap(), vec!["abc"]);
    assert_eq!(split_regions("abc", &vec![3]).unwrap(), vec!["abc", ""]);
    assert!(split_regions("aé", &vec![2]).is_none());
    assert!(split_regions("abc", &vec![4]).is_none());
    assert!(split_regions("abc", &vec![2, 1]).is_none());
}

#[test]
fn highlighting_matches_syntect_scopes() {
    let set = syntaxes();
    let ours_set = Syntaxes::new();
    let samples = [
        ("src/main.rs", "fn main() {\n    // greet\n    let x = 42;\n    println!(\"hi {}\", x);\n}\n"),
        ("app.py", "def f(a, b=1):\n    return a < b  # compare\n"),
        ("index.html", "<div class=\"x\">Tom & Jerry</div>\n"),
        ("Makefile", "all:\n\techo 'done'\n"),
        ("script", "#!/bin/sh\necho \"$HOME\"\n"),
        ("notes.unknownext", "just <text>\n"),
        ("lib.c", "#include <stdio.h>\nint main(void) { return 0; }\n"),
        ("data.json", "{\"a\": [1, 2.5, true, null]}\n"),
    ];
    for (path, text) in samples {
        let lines = lines_of(text);
        let ours = highlight_lines(&ours_set, path, &lines, true);
        assert_eq!(ours, direct_highlight(&set, path, &lines), "highlighting of {}", path);
    }
}

#[test]
fn highlighted_rust_marks_tokens() {
    let set = Syntaxes::new();
    let out = highlight_lines(&set, "a.rs", &lines_of("let s = \"<x>\"; // c\n"), true);
    assert_eq!(out.len(), 1);
    assert!(out[0].contains("<span class=\"tok-string\">"));
    assert!(out[0].contains("&lt;x&gt;"));
    assert!(out[0].contains("<span class=\"tok-comment\">"));
    assert!(highlight_lines(&set, "a.rs", &vec![], true).is_empty());
}

fn names(v: &[&str]) -> Vec<String> {
    v.iter().map(|s| s.to_string()).collect()
}

#[test]
fn scope_stack_changes() {
    let mut stack = ScopeNames::new();
    assert!(stack.apply(&StackOp::Push("source.rust".into())));
    assert!(stack.apply(&StackOp::Push("string.quoted".into())));
    assert!(stack.apply(&StackOp::Push("constant.character.escape".into())));
    assert_eq!(stack.scopes, names(&["source.rust", "string.quoted", "constant.character.escape"]));
    assert!(stack.apply(&StackOp::ClearTop(2)));
    assert_eq!(stack.scopes, names(&["source.rust"]));
    assert_eq!(stack.cleared, vec![names(&["string.quoted", "constant.character.escape"])]);
    assert!(stack.apply(&StackOp::ClearAll));
    assert!(stack.scopes.is_empty());
    assert_eq!(stack.cleared.len(), 2);
    assert!(stack.apply(&StackOp::Noop));
    assert!(stack.apply(&StackOp::Restore));
    assert_eq!(stack.scopes, names(&["source.rust"]));
    assert!(stack.apply(&StackOp::Restore));
    assert_eq!(stack.scopes, names(&["source.rust", "string.quoted", "constant.character.escape"]));
    assert!(stack.cleared.is_empty());
    assert!(!stack.apply(&StackOp::Restore));
    assert_eq!(stack.scopes.len(), 3);
    assert!(stack.apply(&StackOp::Pop(2)));
    assert_eq!(stack.scopes, names(&["source.rust"]));
    assert!(stack.apply(&StackOp::Pop(5)));
    assert!(stack.scopes.is_empty());
    assert!(stack.apply(&StackOp::ClearTop(4)));
    assert_eq!(stack.cleared, vec![Vec::<String>::new()]);
}

#[test]
fn one_line_from_its_operations() {
    let scopes = TokenScopes::new();
    let mut stack = ScopeNames::new();
    assert!(stack.apply(&StackOp::Push("source.rust".into())));
    let ops = vec![
        (4, StackOp::Push("string.quoted.double".into())),
        (9, StackOp::Pop(1)),
        (11, StackOp::Push("comment.line".into())),
    ];
    let (html, after) = highlight_ops(&scopes, stack, "let \"<a>\"; // x", &ops).unwrap();
    assert_eq!(
        html,
        "let <span class=\"tok-string\">&quot;&lt;a&gt;&quot;</span>; <span class=\"tok-comment\">// x</span>"
    );
    assert_eq!(after.scopes, names(&["source.rust", "comment.line"]));
    let fresh = || ScopeNames::new();
    assert!(highlight_ops(&scopes, fresh(), "abc", &vec![(2, StackOp::Noop), (1, StackOp::Noop)]).is_none());
    assert!(highlight_ops(&scopes, fresh(), "é", &vec![(1, StackOp::Noop)]).is_none());
    assert!(highlight_ops(&scopes, fresh(), "abc", &vec![(1, StackOp::Restore)]).is_none());
    let (plain, empty) = highlight_ops(&scopes, fresh(), "a<b", &vec![]).unwrap();
    assert_eq!(plain, "a&lt;b");
    assert!(empty.scopes.is_empty());
}

#[test]
fn files_from_parsed_operations() {
    let lines = vec!["x = 1".to_string(), "<y>".to_string()];
    let parsed = vec![
        vec![(0, StackOp::Push("source.python".into())), (4, StackOp::Push("constant.numeric".into()))],
        vec![],
    ];
    assert_eq!(highlight_parsed(&lines, &parsed), vec!["x = <span class=\"tok-number\">1</span>", "<span class=\"tok-number\">&lt;y&gt;</span>"]);
    let first_only = vec![vec![(0, StackOp::Push("source.python".into()))]];
    assert_eq!(highlight_parsed(&lines, &first_only), vec!["x = 1", "&lt;y&gt;"]);
    let failing = vec![vec![], vec![(0, StackOp::Restore)]];
    assert_eq!(highlight_parsed(&lines, &failing), vec!["x = 1", "&lt;y&gt;"]);
    assert!(highlight_parsed(&vec![], &vec![]).is_empty());
}

#[test]
fn bundled_syntaxes_have_distinct_names() {
    let set = syntaxes();
    let mut names: Vec<&str> = set.syntaxes().iter().map(|s| s.name.as_str()).collect();
    let count = names.len();
    names.sort();
    names.dedup();
    assert_eq!(names.len(), count);
    assert!(set.find_syntax_by_name("Plain Text").is_some());
}

#[test]
fn the_first_line_hint_picks_the_syntax() {
    let set = Syntaxes::new();
    let lines = lines_of("#!/bin/sh\necho \"$HOME\" # x\n");
    let hinted = highlight_lines(&set, "script", &lines, true);
    let plain = highlight_lines(&set, "script", &lines, false);
    assert_ne!(hinted, plain);
    assert_eq!(plain, escape_lines(&lines));
}

fn shown_text(html: &str) -> String {
    let mut out = String::new();
    let mut rest = html;
    while let Some(start) = rest.find('<') {
        out.push_str(&rest[..start]);
        let end = rest[start..].find('>').unwrap();
        rest = &rest[start + end + 1..];
    }
    out.push_str(rest);
    out.replace("&lt;", "<").replace("&gt;", ">").replace("&quot;", "\"").replace("&#39;", "'").replace("&amp;", "&")
}

#[test]
fn highlighting_keeps_the_text_of_each_line() {
    let set = Syntaxes::new();
    let samples = [
        ("src/main.rs", "fn main() {\n    let s = \"<&>\"; // 'q'\n}\n"),
        ("page.html", "<p class=\"a\">x &amp; y</p>\n"),
        ("notes.txt", "a < b && c > d\n"),
    ];
    for (path, text) in samples {
        let lines = lines_of(text);
        let out = highlight_lines(&set, path, &lines, true);
        assert_eq!(out.len(), lines.len());
        for (line, html) in lines.iter().zip(&out) {
            assert_eq!(&shown_text(html), line, "{}", path);
        }
    }
}
