//! Syntax highlighting of file contents: escaping, the token classes that
//! scope names map to, and the line-by-line rendering driven by syntect.

use vstd::prelude::*;

use crate::format::opt_str_view;
use crate::git::refs::string_views;
use crate::handlers::util::{extension, file_name, file_name_of, opt_view, path_extension};
use syntect::parsing::{ClearAmount, ParseState, ScopeStackOp, SyntaxSet};
use crate::text::{chars_of, push_char, push_str, starts_with, str_starts_with};
use vstd::utf8::{decode_utf8, encode_utf8, is_char_boundary, valid_utf8};

verus! {

/// The HTML escape of one character.
pub open spec fn escape_char(c: char) -> Seq<char> {
    if c == '&' {
        "&amp;"@
    } else if c == '<' {
        "&lt;"@
    } else if c == '>' {
        "&gt;"@
    } else if c == '"' {
        "&quot;"@
    } else if c == '\'' {
        "&#39;"@
    } else {
        seq![c]
    }
}

/// The HTML escape of a text, character by character.
pub open spec fn escaped(s: Seq<char>) -> Seq<char>
    decreases s.len(),
{
    if s.len() == 0 {
        Seq::empty()
    } else {
        escaped(s.drop_last()) + escape_char(s.last())
    }
}

/// Appends the HTML escape of `text` to `out`.
pub fn push_escaped(out: &mut String, text: &str)
    ensures
        final(out)@ == old(out)@ + escaped(text@),
{
    let cs = chars_of(text);
    let ghost start = out@;
    let mut i: usize = 0;
    assert(cs@.take(0) =~= Seq::<char>::empty());
    assert(out@ =~= start + escaped(cs@.take(0)));
    while i < cs.len()
        invariant
            i <= cs@.len(),
            cs@ == text@,
            out@ == start + escaped(cs@.take(i as int)),
        decreases cs.len() - i,
    {
        let ch = cs[i];
        if ch == '&' {
            push_str(out, "&amp;");
        } else if ch == '<' {
            push_str(out, "&lt;");
        } else if ch == '>' {
            push_str(out, "&gt;");
        } else if ch == '"' {
            push_str(out, "&quot;");
        } else if ch == '\'' {
            push_str(out, "&#39;");
        } else {
            push_char(out, ch);
        }
        assert(cs@.take(i + 1).drop_last() =~= cs@.take(i as int));
        i += 1;
        assert(out@ =~= start + escaped(cs@.take(i as int)));
    }
    assert(cs@.take(cs@.len() as int) =~= cs@);
}

/// The HTML escape of a text.
pub fn escape_html(text: &str) -> (r: String)
    ensures
        r@ == escaped(text@),
{
    let mut escaped_text = String::new();
    push_escaped(&mut escaped_text, text);
    assert(escaped_text@ =~= escaped(text@));
    escaped_text
}

/// The HTML escape of each line.
pub open spec fn escaped_lines(lines: Seq<Seq<char>>) -> Seq<Seq<char>> {
    lines.map_values(|l: Seq<char>| escaped(l))
}

/// Escapes each line, the rendering used when a file cannot be highlighted.
pub fn escape_lines(lines: &Vec<String>) -> (r: Vec<String>)
    ensures
        r@.len() == lines@.len(),
        string_views(r@) == escaped_lines(string_views(lines@)),
{
    let mut out: Vec<String> = Vec::new();
    let mut i: usize = 0;
    while i < lines.len()
        invariant
            i <= lines@.len(),
            out@.len() == i,
            forall|k: int| 0 <= k < i ==> (#[trigger] out@[k])@ == escaped(lines@[k]@),
        decreases lines.len() - i,
    {
        out.push(escape_html(lines[i].as_str()));
        i += 1;
    }
    assert(string_views(out@) =~= escaped_lines(string_views(lines@)));
    out
}

/// Whether the scope named `prefix` covers the scope named `scope`: the
/// atoms of `prefix` (its dot-separated parts) begin the atoms of `scope`,
/// as `Scope::is_prefix_of` decides.
pub open spec fn scope_prefix(prefix: Seq<char>, scope: Seq<char>) -> bool {
    scope == prefix || (prefix.len() < scope.len() && starts_with(scope, prefix) && scope[prefix.len() as int]
        == '.')
}

/// Whether some scope on the stack is covered by one of the prefixes.
pub open spec fn matches_scope(stack: Seq<Seq<char>>, prefixes: Seq<Seq<char>>) -> bool {
    exists|i: int, j: int|
        0 <= i < stack.len() && 0 <= j < prefixes.len() && #[trigger] scope_prefix(prefixes[j], stack[i])
}

/// The token classes in the order they are tried, each with the scopes it
/// applies to.
pub open spec fn token_rules_spec() -> Seq<(Seq<char>, Seq<Seq<char>>)> {
    seq![
        ("tok-comment"@, seq!["comment"@]),
        ("tok-string"@, seq!["string"@, "constant.character.escape"@, "string.regexp"@]),
        ("tok-number"@, seq!["constant.numeric"@]),
        ("tok-attribute"@, seq!["entity.other.attribute-name"@]),
        ("tok-decorator"@, seq!["meta.annotation"@]),
        ("tok-type"@, seq![
            "entity.name.namespace"@, "support.namespace"@, "entity.name.type"@, "support.type"@,
            "storage.type"@, "storage.modifier"@, "entity.name.class"@, "entity.name.struct"@,
            "entity.name.enum"@, "entity.name.union"@, "entity.name.interface"@, "entity.name.trait"@,
        ]),
        ("tok-macro"@, seq!["entity.name.function.preprocessor"@, "entity.name.macro"@, "meta.preprocessor"@]),
        ("tok-function"@, seq![
            "entity.name.function"@, "entity.name.function.constructor"@, "variable.function"@,
            "support.function"@, "support.function.builtin"@, "support.variable"@,
            "support.constant.builtin"@,
        ]),
        ("tok-constant"@, seq![
            "constant"@, "support.constant"@, "constant.character"@, "variable.parameter"@,
            "variable.other.property"@, "variable.other.member"@, "entity.name.field"@,
        ]),
        ("tok-keyword-control"@, seq!["keyword.control"@]),
        ("tok-keyword"@, seq![
            "keyword"@, "constant.language.boolean"@, "constant.language.null"@,
            "storage.type.primitive"@, "support.type.builtin"@, "support.class.builtin"@,
            "entity.name.tag"@, "variable.language"@, "keyword.operator"@, "punctuation"@,
            "punctuation.definition"@, "punctuation.separator"@, "punctuation.terminator"@,
            "punctuation.section"@, "punctuation.accessor"@,
        ]),
        ("tok-variable"@, seq!["variable"@]),
    ]
}

/// The class of the first rule whose scopes match the stack.
pub open spec fn first_rule(rules: Seq<(Seq<char>, Seq<Seq<char>>)>, stack: Seq<Seq<char>>) -> Option<Seq<char>>
    decreases rules.len(),
{
    if rules.len() == 0 {
        None
    } else if matches_scope(stack, rules[0].1) {
        Some(rules[0].0)
    } else {
        first_rule(rules.drop_first(), stack)
    }
}

/// The class of a token whose scope stack has the given scope names.
pub open spec fn token_class_spec(stack: Seq<Seq<char>>) -> Option<Seq<char>> {
    first_rule(token_rules_spec(), stack)
}

/// Scopes all lying within `scope`, and at least one of them.
pub open spec fn all_within(stack: Seq<Seq<char>>, scope: Seq<char>) -> bool {
    stack.len() > 0 && forall|k: int| 0 <= k < stack.len() ==> scope_prefix(scope, #[trigger] stack[k])
}

/// A scope within `p` agrees with `p` on each of `p`'s characters.
proof fn lemma_within_agrees(p: Seq<char>, s: Seq<char>, i: int)
    requires
        scope_prefix(p, s),
        0 <= i < p.len(),
    ensures
        i < s.len() && s[i] == p[i],
{
    if s != p {
        assert(s.subrange(0, p.len() as int)[i] == s[i]);
    }
}

/// When `p` and `q` differ at a character both have, no scope within `p`
/// lies within `q`.
proof fn lemma_diverge_apart(p: Seq<char>, q: Seq<char>, i: int)
    requires
        0 <= i < p.len(),
        i < q.len(),
        p[i] != q[i],
    ensures
        forall|s: Seq<char>| scope_prefix(p, s) ==> !#[trigger] scope_prefix(q, s),
{
    assert forall|s: Seq<char>| scope_prefix(p, s) implies !#[trigger] scope_prefix(q, s) by {
        lemma_within_agrees(p, s, i);
        if scope_prefix(q, s) {
            lemma_within_agrees(q, s, i);
        }
    }
}

/// No scope within `p` lies within a scope whose first character differs
/// from `p`'s.
proof fn lemma_first_char_apart(p: Seq<char>)
    requires
        p.len() > 0,
    ensures
        forall|q: Seq<char>, s: Seq<char>|
            scope_prefix(p, s) && q.len() > 0 && q[0] != p[0] ==> !#[trigger] scope_prefix(q, s),
{
    assert forall|q: Seq<char>, s: Seq<char>| scope_prefix(p, s) && q.len() > 0 && q[0] != p[0] implies !#[trigger] scope_prefix(q, s) by {
        lemma_diverge_apart(p, q, 0);
    }
}

/// A scope within `b` lies within every scope that `b` lies within.
proof fn lemma_scope_prefix_trans_all(a: Seq<char>, b: Seq<char>)
    requires
        scope_prefix(a, b),
    ensures
        forall|s: Seq<char>| scope_prefix(b, s) ==> #[trigger] scope_prefix(a, s),
{
    assert forall|s: Seq<char>| scope_prefix(b, s) implies #[trigger] scope_prefix(a, s) by {
        if s != b && b != a {
            assert forall|i: int| 0 <= i < a.len() implies s.subrange(0, a.len() as int)[i] == a[i] by {
                lemma_within_agrees(b, s, i);
                lemma_within_agrees(a, b, i);
            }
            assert(s.subrange(0, a.len() as int) =~= a);
            lemma_within_agrees(b, s, a.len() as int);
        }
    }
}

/// The first rule that matches a stack gives its class.
proof fn lemma_first_rule_at(rules: Seq<(Seq<char>, Seq<Seq<char>>)>, stack: Seq<Seq<char>>, r: int)
    requires
        0 <= r < rules.len(),
        matches_scope(stack, rules[r].1),
        forall|k: int| 0 <= k < r ==> !matches_scope(stack, #[trigger] rules[k].1),
    ensures
        first_rule(rules, stack) == Some(rules[r].0),
    decreases r,
{
    if r > 0 {
        assert(!matches_scope(stack, rules[0].1));
        assert forall|k: int| 0 <= k < r - 1 implies !matches_scope(stack, #[trigger] rules.drop_first()[k].1) by {
            assert(rules.drop_first()[k] == rules[k + 1]);
        }
        lemma_first_rule_at(rules.drop_first(), stack, r - 1);
    }
}

/// A stack of scopes all within `comment` gets the class "tok-comment".
proof fn lemma_class_of_comment(stack: Seq<Seq<char>>)
    requires
        all_within(stack, "comment"@),
    ensures
        token_class_spec(stack) == Some("tok-comment"@),
{
    let rules = token_rules_spec();
    reveal_strlit("comment");
    lemma_first_char_apart("comment"@);
    assert(scope_prefix("comment"@, stack[0]));
    assert(rules[0].1[0] == "comment"@);
    assert(matches_scope(stack, rules[0].1));
    lemma_first_rule_at(rules, stack, 0);
}

/// A stack of scopes all within `string` gets the class "tok-string".
proof fn lemma_class_of_string(stack: Seq<Seq<char>>)
    requires
        all_within(stack, "string"@),
    ensures
        token_class_spec(stack) == Some("tok-string"@),
{
    let rules = token_rules_spec();
    reveal_strlit("comment");
    reveal_strlit("string");
    lemma_first_char_apart("string"@);
    assert(scope_prefix("string"@, stack[0]));
    assert(rules[1].1[0] == "string"@);
    assert(matches_scope(stack, rules[1].1));
    assert(!matches_scope(stack, rules[0].1));
    lemma_first_rule_at(rules, stack, 1);
}

/// A stack of scopes all within `constant.character.escape` gets the class "tok-string".
proof fn lemma_class_of_constant_character_escape(stack: Seq<Seq<char>>)
    requires
        all_within(stack, "constant.character.escape"@),
    ensures
        token_class_spec(stack) == Some("tok-string"@),
{
    let rules = token_rules_spec();
    reveal_strlit("comment");
    reveal_strlit("constant.character.escape");
    lemma_first_char_apart("constant.character.escape"@);
    lemma_diverge_apart("constant.character.escape"@, "comment"@, 2);
    assert(scope_prefix("constant.character.escape"@, stack[0]));
    assert(rules[1].1[1] == "constant.character.escape"@);
    assert(matches_scope(stack, rules[1].1));
    assert(!matches_scope(stack, rules[0].1));
    lemma_first_rule_at(rules, stack, 1);
}

/// A stack of scopes all within `string.regexp` gets the class "tok-string".
proof fn lemma_class_of_string_regexp(stack: Seq<Seq<char>>)
    requires
        all_within(stack, "string.regexp"@),
    ensures
        token_class_spec(stack) == Some("tok-string"@),
{
    let rules = token_rules_spec();
    reveal_strlit("comment");
    reveal_strlit("string");
    reveal_strlit("string.regexp");
    lemma_first_char_apart("string.regexp"@);
    assert("string.regexp"@.subrange(0, 6) =~= "string"@);
    lemma_scope_prefix_trans_all("string"@, "string.regexp"@);
    assert(scope_prefix("string"@, stack[0]));
    assert(rules[1].1[0] == "string"@);
    assert(matches_scope(stack, rules[1].1));
    assert(!matches_scope(stack, rules[0].1));
    lemma_first_rule_at(rules, stack, 1);
}

/// A stack of scopes all within `constant.numeric` gets the class "tok-number".
proof fn lemma_class_of_constant_numeric(stack: Seq<Seq<char>>)
    requires
        all_within(stack, "constant.numeric"@),
    ensures
        token_class_spec(stack) == Some("tok-number"@),
{
    let rules = token_rules_spec();
    reveal_strlit("comment");
    reveal_strlit("constant.character.escape");
    reveal_strlit("constant.numeric");
    reveal_strlit("string");
    reveal_strlit("string.regexp");
    lemma_first_char_apart("constant.numeric"@);
    lemma_diverge_apart("constant.numeric"@, "comment"@, 2);
    lemma_diverge_apart("constant.numeric"@, "constant.character.escape"@, 9);
    assert(scope_prefix("constant.numeric"@, stack[0]));
    assert(rules[2].1[0] == "constant.numeric"@);
    assert(matches_scope(stack, rules[2].1));
    assert(!matches_scope(stack, rules[0].1));
    assert(!matches_scope(stack, rules[1].1));
    lemma_first_rule_at(rules, stack, 2);
}

/// A stack of scopes all within `entity.other.attribute-name` gets the class "tok-attribute".
proof fn lemma_class_of_entity_other_attribute_name(stack: Seq<Seq<char>>)
    requires
        all_within(stack, "entity.other.attribute-name"@),
    ensures
        token_class_spec(stack) == Some("tok-attribute"@),
{
    let rules = token_rules_spec();
    reveal_strlit("comment");
    reveal_strlit("constant.character.escape");
    reveal_strlit("constant.numeric");
    reveal_strlit("entity.other.attribute-name");
    reveal_strlit("string");
    reveal_strlit("string.regexp");
    lemma_first_char_apart("entity.other.attribute-name"@);
    assert(scope_prefix("entity.other.attribute-name"@, stack[0]));
    assert(rules[3].1[0] == "entity.other.attribute-name"@);
    assert(matches_scope(stack, rules[3].1));
    assert(!matches_scope(stack, rules[0].1));
    assert(!matches_scope(stack, rules[1].1));
    assert(!matches_scope(stack, rules[2].1));
    lemma_first_rule_at(rules, stack, 3);
}

/// A stack of scopes all within `meta.annotation` gets the class "tok-decorator".
proof fn lemma_class_of_meta_annotation(stack: Seq<Seq<char>>)
    requires
        all_within(stack, "meta.annotation"@),
    ensures
        token_class_spec(stack) == Some("tok-decorator"@),
{
    let rules = token_rules_spec();
    reveal_strlit("comment");
    reveal_strlit("constant.character.escape");
    reveal_strlit("constant.numeric");
    reveal_strlit("entity.other.attribute-name");
    reveal_strlit("meta.annotation");
    reveal_strlit("string");
    reveal_strlit("string.regexp");
    lemma_first_char_apart("meta.annotation"@);
    assert(scope_prefix("meta.annotation"@, stack[0]));
    assert(rules[4].1[0] == "meta.annotation"@);
    assert(matches_scope(stack, rules[4].1));
    assert(!matches_scope(stack, rules[0].1));
    assert(!matches_scope(stack, rules[1].1));
    assert(!matches_scope(stack, rules[2].1));
    assert(!matches_scope(stack, rules[3].1));
    lemma_first_rule_at(rules, stack, 4);
}

/// A stack of scopes all within `entity.name.namespace` gets the class "tok-type".
proof fn lemma_class_of_entity_name_namespace(stack: Seq<Seq<char>>)
    requires
        all_within(stack, "entity.name.namespace"@),
    ensures
        token_class_spec(stack) == Some("tok-type"@),
{
    let rules = token_rules_spec();
    reveal_strlit("comment");
    reveal_strlit("constant.character.escape");
    reveal_strlit("constant.numeric");
    reveal_strlit("entity.name.namespace");
    reveal_strlit("entity.other.attribute-name");
    reveal_strlit("meta.annotation");
    reveal_strlit("string");
    reveal_strlit("string.regexp");
    lemma_first_char_apart("entity.name.namespace"@);
    lemma_diverge_apart("entity.name.namespace"@, "entity.other.attribute-name"@, 7);
    assert(scope_prefix("entity.name.namespace"@, stack[0]));
    assert(rules[5].1[0] == "entity.name.namespace"@);
    assert(matches_scope(stack, rules[5].1));
    assert(!matches_scope(stack, rules[0].1));
    assert(!matches_scope(stack, rules[1].1));
    assert(!matches_scope(stack, rules[2].1));
    assert(!matches_scope(stack, rules[3].1));
    assert(!matches_scope(stack, rules[4].1));
    lemma_first_rule_at(rules, stack, 5);
}

/// A stack of scopes all within `support.namespace` gets the class "tok-type".
proof fn lemma_class_of_support_namespace(stack: Seq<Seq<char>>)
    requires
        all_within(stack, "support.namespace"@),
    ensures
        token_class_spec(stack) == Some("tok-type"@),
{
    let rules = token_rules_spec();
    reveal_strlit("comment");
    reveal_strlit("constant.character.escape");
    reveal_strlit("constant.numeric");
    reveal_strlit("entity.other.attribute-name");
    reveal_strlit("meta.annotation");
    reveal_strlit("string");
    reveal_strlit("string.regexp");
    reveal_strlit("support.namespace");
    lemma_first_char_apart("support.namespace"@);
    lemma_diverge_apart("support.namespace"@, "string"@, 1);
    lemma_diverge_apart("support.namespace"@, "string.regexp"@, 1);
    assert(scope_prefix("support.namespace"@, stack[0]));
    assert(rules[5].1[1] == "support.namespace"@);
    assert(matches_scope(stack, rules[5].1));
    assert(!matches_scope(stack, rules[0].1));
    assert(!matches_scope(stack, rules[1].1));
    assert(!matches_scope(stack, rules[2].1));
    assert(!matches_scope(stack, rules[3].1));
    assert(!matches_scope(stack, rules[4].1));
    lemma_first_rule_at(rules, stack, 5);
}

/// A stack of scopes all within `entity.name.type` gets the class "tok-type".
proof fn lemma_class_of_entity_name_type(stack: Seq<Seq<char>>)
    requires
        all_within(stack, "entity.name.type"@),
    ensures
        token_class_spec(stack) == Some("tok-type"@),
{
    let rules = token_rules_spec();
    reveal_strlit("comment");
    reveal_strlit("constant.character.escape");
    reveal_strlit("constant.numeric");
    reveal_strlit("entity.name.type");
    reveal_strlit("entity.other.attribute-name");
    reveal_strlit("meta.annotation");
    reveal_strlit("string");
    reveal_strlit("string.regexp");
    lemma_first_char_apart("entity.name.type"@);
    lemma_diverge_apart("entity.name.type"@, "entity.other.attribute-name"@, 7);
    assert(scope_prefix("entity.name.type"@, stack[0]));
    assert(rules[5].1[2] == "entity.name.type"@);
    assert(matches_scope(stack, rules[5].1));
    assert(!matches_scope(stack, rules[0].1));
    assert(!matches_scope(stack, rules[1].1));
    assert(!matches_scope(stack, rules[2].1));
    assert(!matches_scope(stack, rules[3].1));
    assert(!matches_scope(stack, rules[4].1));
    lemma_first_rule_at(rules, stack, 5);
}

/// A stack of scopes all within `support.type` gets the class "tok-type".
proof fn lemma_class_of_support_type(stack: Seq<Seq<char>>)
    requires
        all_within(stack, "support.type"@),
    ensures
        token_class_spec(stack) == Some("tok-type"@),
{
    let rules = token_rules_spec();
    reveal_strlit("comment");
    reveal_strlit("constant.character.escape");
    reveal_strlit("constant.numeric");
    reveal_strlit("entity.other.attribute-name");
    reveal_strlit("meta.annotation");
    reveal_strlit("string");
    reveal_strlit("string.regexp");
    reveal_strlit("support.type");
    lemma_first_char_apart("support.type"@);
    lemma_diverge_apart("support.type"@, "string"@, 1);
    lemma_diverge_apart("support.type"@, "string.regexp"@, 1);
    assert(scope_prefix("support.type"@, stack[0]));
    assert(rules[5].1[3] == "support.type"@);
    assert(matches_scope(stack, rules[5].1));
    assert(!matches_scope(stack, rules[0].1));
    assert(!matches_scope(stack, rules[1].1));
    assert(!matches_scope(stack, rules[2].1));
    assert(!matches_scope(stack, rules[3].1));
    assert(!matches_scope(stack, rules[4].1));
    lemma_first_rule_at(rules, stack, 5);
}

/// A stack of scopes all within `storage.type` gets the class "tok-type".
proof fn lemma_class_of_storage_type(stack: Seq<Seq<char>>)
    requires
        all_within(stack, "storage.type"@),
    ensures
        token_class_spec(stack) == Some("tok-type"@),
{
    let rules = token_rules_spec();
    reveal_strlit("comment");
    reveal_strlit("constant.character.escape");
    reveal_strlit("constant.numeric");
    reveal_strlit("entity.other.attribute-name");
    reveal_strlit("meta.annotation");
    reveal_strlit("storage.type");
    reveal_strlit("string");
    reveal_strlit("string.regexp");
    lemma_first_char_apart("storage.type"@);
    lemma_diverge_apart("storage.type"@, "string"@, 2);
    lemma_diverge_apart("storage.type"@, "string.regexp"@, 2);
    assert(scope_prefix("storage.type"@, stack[0]));
    assert(rules[5].1[4] == "storage.type"@);
    assert(matches_scope(stack, rules[5].1));
    assert(!matches_scope(stack, rules[0].1));
    assert(!matches_scope(stack, rules[1].1));
    assert(!matches_scope(stack, rules[2].1));
    assert(!matches_scope(stack, rules[3].1));
    assert(!matches_scope(stack, rules[4].1));
    lemma_first_rule_at(rules, stack, 5);
}

/// A stack of scopes all within `storage.modifier` gets the class "tok-type".
proof fn lemma_class_of_storage_modifier(stack: Seq<Seq<char>>)
    requires
        all_within(stack, "storage.modifier"@),
    ensures
        token_class_spec(stack) == Some("tok-type"@),
{
    let rules = token_rules_spec();
    reveal_strlit("comment");
    reveal_strlit("constant.character.escape");
    reveal_strlit("constant.numeric");
    reveal_strlit("entity.other.attribute-name");
    reveal_strlit("meta.annotation");
    reveal_strlit("storage.modifier");
    reveal_strlit("string");
    reveal_strlit("string.regexp");
    lemma_first_char_apart("storage.modifier"@);
    lemma_diverge_apart("storage.modifier"@, "string"@, 2);
    lemma_diverge_apart("storage.modifier"@, "string.regexp"@, 2);
    assert(scope_prefix("storage.modifier"@, stack[0]));
    assert(rules[5].1[5] == "storage.modifier"@);
    assert(matches_scope(stack, rules[5].1));
    assert(!matches_scope(stack, rules[0].1));
    assert(!matches_scope(stack, rules[1].1));
    assert(!matches_scope(stack, rules[2].1));
    assert(!matches_scope(stack, rules[3].1));
    assert(!matches_scope(stack, rules[4].1));
    lemma_first_rule_at(rules, stack, 5);
}

/// A stack of scopes all within `entity.name.class` gets the class "tok-type".
proof fn lemma_class_of_entity_name_class(stack: Seq<Seq<char>>)
    requires
        all_within(stack, "entity.name.class"@),
    ensures
        token_class_spec(stack) == Some("tok-type"@),
{
    let rules = token_rules_spec();
    reveal_strlit("comment");
    reveal_strlit("constant.character.escape");
    reveal_strlit("constant.numeric");
    reveal_strlit("entity.name.class");
    reveal_strlit("entity.other.attribute-name");
    reveal_strlit("meta.annotation");
    reveal_strlit("string");
    reveal_strlit("string.regexp");
    lemma_first_char_apart("entity.name.class"@);
    lemma_diverge_apart("entity.name.class"@, "entity.other.attribute-name"@, 7);
    assert(scope_prefix("entity.name.class"@, stack[0]));
    assert(rules[5].1[6] == "entity.name.class"@);
    assert(matches_scope(stack, rules[5].1));
    assert(!matches_scope(stack, rules[0].1));
    assert(!matches_scope(stack, rules[1].1));
    assert(!matches_scope(stack, rules[2].1));
    assert(!matches_scope(stack, rules[3].1));
    assert(!matches_scope(stack, rules[4].1));
    lemma_first_rule_at(rules, stack, 5);
}

/// A stack of scopes all within `entity.name.struct` gets the class "tok-type".
proof fn lemma_class_of_entity_name_struct(stack: Seq<Seq<char>>)
    requires
        all_within(stack, "entity.name.struct"@),
    ensures
        token_class_spec(stack) == Some("tok-type"@),
{
    let rules = token_rules_spec();
    reveal_strlit("comment");
    reveal_strlit("constant.character.escape");
    reveal_strlit("constant.numeric");
    reveal_strlit("entity.name.struct");
    reveal_strlit("entity.other.attribute-name");
    reveal_strlit("meta.annotation");
    reveal_strlit("string");
    reveal_strlit("string.regexp");
    lemma_first_char_apart("entity.name.struct"@);
    lemma_diverge_apart("entity.name.struct"@, "entity.other.attribute-name"@, 7);
    assert(scope_prefix("entity.name.struct"@, stack[0]));
    assert(rules[5].1[7] == "entity.name.struct"@);
    assert(matches_scope(stack, rules[5].1));
    assert(!matches_scope(stack, rules[0].1));
    assert(!matches_scope(stack, rules[1].1));
    assert(!matches_scope(stack, rules[2].1));
    assert(!matches_scope(stack, rules[3].1));
    assert(!matches_scope(stack, rules[4].1));
    lemma_first_rule_at(rules, stack, 5);
}

/// A stack of scopes all within `entity.name.enum` gets the class "tok-type".
proof fn lemma_class_of_entity_name_enum(stack: Seq<Seq<char>>)
    requires
        all_within(stack, "entity.name.enum"@),
    ensures
        token_class_spec(stack) == Some("tok-type"@),
{
    let rules = token_rules_spec();
    reveal_strlit("comment");
    reveal_strlit("constant.character.escape");
    reveal_strlit("constant.numeric");
    reveal_strlit("entity.name.enum");
    reveal_strlit("entity.other.attribute-name");
    reveal_strlit("meta.annotation");
    reveal_strlit("string");
    reveal_strlit("string.regexp");
    lemma_first_char_apart("entity.name.enum"@);
    lemma_diverge_apart("entity.name.enum"@, "entity.other.attribute-name"@, 7);
    assert(scope_prefix("entity.name.enum"@, stack[0]));
    assert(rules[5].1[8] == "entity.name.enum"@);
    assert(matches_scope(stack, rules[5].1));
    assert(!matches_scope(stack, rules[0].1));
    assert(!matches_scope(stack, rules[1].1));
    assert(!matches_scope(stack, rules[2].1));
    assert(!matches_scope(stack, rules[3].1));
    assert(!matches_scope(stack, rules[4].1));
    lemma_first_rule_at(rules, stack, 5);
}

/// A stack of scopes all within `entity.name.union` gets the class "tok-type".
proof fn lemma_class_of_entity_name_union(stack: Seq<Seq<char>>)
    requires
        all_within(stack, "entity.name.union"@),
    ensures
        token_class_spec(stack) == Some("tok-type"@),
{
    let rules = token_rules_spec();
    reveal_strlit("comment");
    reveal_strlit("constant.character.escape");
    reveal_strlit("constant.numeric");
    reveal_strlit("entity.name.union");
    reveal_strlit("entity.other.attribute-name");
    reveal_strlit("meta.annotation");
    reveal_strlit("string");
    reveal_strlit("string.regexp");
    lemma_first_char_apart("entity.name.union"@);
    lemma_diverge_apart("entity.name.union"@, "entity.other.attribute-name"@, 7);
    assert(scope_prefix("entity.name.union"@, stack[0]));
    assert(rules[5].1[9] == "entity.name.union"@);
    assert(matches_scope(stack, rules[5].1));
    assert(!matches_scope(stack, rules[0].1));
    assert(!matches_scope(stack, rules[1].1));
    assert(!matches_scope(stack, rules[2].1));
    assert(!matches_scope(stack, rules[3].1));
    assert(!matches_scope(stack, rules[4].1));
    lemma_first_rule_at(rules, stack, 5);
}

/// A stack of scopes all within `entity.name.interface` gets the class "tok-type".
proof fn lemma_class_of_entity_name_interface(stack: Seq<Seq<char>>)
    requires
        all_within(stack, "entity.name.interface"@),
    ensures
        token_class_spec(stack) == Some("tok-type"@),
{
    let rules = token_rules_spec();
    reveal_strlit("comment");
    reveal_strlit("constant.character.escape");
    reveal_strlit("constant.numeric");
    reveal_strlit("entity.name.interface");
    reveal_strlit("entity.other.attribute-name");
    reveal_strlit("meta.annotation");
    reveal_strlit("string");
    reveal_strlit("string.regexp");
    lemma_first_char_apart("entity.name.interface"@);
    lemma_diverge_apart("entity.name.interface"@, "entity.other.attribute-name"@, 7);
    assert(scope_prefix("entity.name.interface"@, stack[0]));
    assert(rules[5].1[10] == "entity.name.interface"@);
    assert(matches_scope(stack, rules[5].1));
    assert(!matches_scope(stack, rules[0].1));
    assert(!matches_scope(stack, rules[1].1));
    assert(!matches_scope(stack, rules[2].1));
    assert(!matches_scope(stack, rules[3].1));
    assert(!matches_scope(stack, rules[4].1));
    lemma_first_rule_at(rules, stack, 5);
}

/// A stack of scopes all within `entity.name.trait` gets the class "tok-type".
proof fn lemma_class_of_entity_name_trait(stack: Seq<Seq<char>>)
    requires
        all_within(stack, "entity.name.trait"@),
    ensures
        token_class_spec(stack) == Some("tok-type"@),
{
    let rules = token_rules_spec();
    reveal_strlit("comment");
    reveal_strlit("constant.character.escape");
    reveal_strlit("constant.numeric");
    reveal_strlit("entity.name.trait");
    reveal_strlit("entity.other.attribute-name");
    reveal_strlit("meta.annotation");
    reveal_strlit("string");
    reveal_strlit("string.regexp");
    lemma_first_char_apart("entity.name.trait"@);
    lemma_diverge_apart("entity.name.trait"@, "entity.other.attribute-name"@, 7);
    assert(scope_prefix("entity.name.trait"@, stack[0]));
    assert(rules[5].1[11] == "entity.name.trait"@);
    assert(matches_scope(stack, rules[5].1));
    assert(!matches_scope(stack, rules[0].1));
    assert(!matches_scope(stack, rules[1].1));
    assert(!matches_scope(stack, rules[2].1));
    assert(!matches_scope(stack, rules[3].1));
    assert(!matches_scope(stack, rules[4].1));
    lemma_first_rule_at(rules, stack, 5);
}

/// A stack of scopes all within `entity.name.function.preprocessor` gets the class "tok-macro".
proof fn lemma_class_of_entity_name_function_preprocessor(stack: Seq<Seq<char>>)
    requires
        all_within(stack, "entity.name.function.preprocessor"@),
    ensures
        token_class_spec(stack) == Some("tok-macro"@),
{
    let rules = token_rules_spec();
    reveal_strlit("comment");
    reveal_strlit("constant.character.escape");
    reveal_strlit("constant.numeric");
    reveal_strlit("entity.name.class");
    reveal_strlit("entity.name.enum");
    reveal_strlit("entity.name.function.preprocessor");
    reveal_strlit("entity.name.interface");
    reveal_strlit("entity.name.namespace");
    reveal_strlit("entity.name.struct");
    reveal_strlit("entity.name.trait");
    reveal_strlit("entity.name.type");
    reveal_strlit("entity.name.union");
    reveal_strlit("entity.other.attribute-name");
    reveal_strlit("meta.annotation");
    reveal_strlit("storage.modifier");
    reveal_strlit("storage.type");
    reveal_strlit("string");
    reveal_strlit("string.regexp");
    reveal_strlit("support.namespace");
    reveal_strlit("support.type");
    lemma_first_char_apart("entity.name.function.preprocessor"@);
    lemma_diverge_apart("entity.name.function.preprocessor"@, "entity.other.attribute-name"@, 7);
    lemma_diverge_apart("entity.name.function.preprocessor"@, "entity.name.namespace"@, 12);
    lemma_diverge_apart("entity.name.function.preprocessor"@, "entity.name.type"@, 12);
    lemma_diverge_apart("entity.name.function.preprocessor"@, "entity.name.class"@, 12);
    lemma_diverge_apart("entity.name.function.preprocessor"@, "entity.name.struct"@, 12);
    lemma_diverge_apart("entity.name.function.preprocessor"@, "entity.name.enum"@, 12);
    lemma_diverge_apart("entity.name.function.preprocessor"@, "entity.name.union"@, 12);
    lemma_diverge_apart("entity.name.function.preprocessor"@, "entity.name.interface"@, 12);
    lemma_diverge_apart("entity.name.function.preprocessor"@, "entity.name.trait"@, 12);
    assert(scope_prefix("entity.name.function.preprocessor"@, stack[0]));
    assert(rules[6].1[0] == "entity.name.function.preprocessor"@);
    assert(matches_scope(stack, rules[6].1));
    assert(!matches_scope(stack, rules[0].1));
    assert(!matches_scope(stack, rules[1].1));
    assert(!matches_scope(stack, rules[2].1));
    assert(!matches_scope(stack, rules[3].1));
    assert(!matches_scope(stack, rules[4].1));
    assert(!matches_scope(stack, rules[5].1));
    lemma_first_rule_at(rules, stack, 6);
}

/// A stack of scopes all within `entity.name.macro` gets the class "tok-macro".
proof fn lemma_class_of_entity_name_macro(stack: Seq<Seq<char>>)
    requires
        all_within(stack, "entity.name.macro"@),
    ensures
        token_class_spec(stack) == Some("tok-macro"@),
{
    let rules = token_rules_spec();
    reveal_strlit("comment");
    reveal_strlit("constant.character.escape");
    reveal_strlit("constant.numeric");
    reveal_strlit("entity.name.class");
    reveal_strlit("entity.name.enum");
    reveal_strlit("entity.name.interface");
    reveal_strlit("entity.name.macro");
    reveal_strlit("entity.name.namespace");
    reveal_strlit("entity.name.struct");
    reveal_strlit("entity.name.trait");
    reveal_strlit("entity.name.type");
    reveal_strlit("entity.name.union");
    reveal_strlit("entity.other.attribute-name");
    reveal_strlit("meta.annotation");
    reveal_strlit("storage.modifier");
    reveal_strlit("storage.type");
    reveal_strlit("string");
    reveal_strlit("string.regexp");
    reveal_strlit("support.namespace");
    reveal_strlit("support.type");
    lemma_first_char_apart("entity.name.macro"@);
    lemma_diverge_apart("entity.name.macro"@, "entity.other.attribute-name"@, 7);
    lemma_diverge_apart("entity.name.macro"@, "entity.name.namespace"@, 12);
    lemma_diverge_apart("entity.name.macro"@, "entity.name.type"@, 12);
    lemma_diverge_apart("entity.name.macro"@, "entity.name.class"@, 12);
    lemma_diverge_apart("entity.name.macro"@, "entity.name.struct"@, 12);
    lemma_diverge_apart("entity.name.macro"@, "entity.name.enum"@, 12);
    lemma_diverge_apart("entity.name.macro"@, "entity.name.union"@, 12);
    lemma_diverge_apart("entity.name.macro"@, "entity.name.interface"@, 12);
    lemma_diverge_apart("entity.name.macro"@, "entity.name.trait"@, 12);
    assert(scope_prefix("entity.name.macro"@, stack[0]));
    assert(rules[6].1[1] == "entity.name.macro"@);
    assert(matches_scope(stack, rules[6].1));
    assert(!matches_scope(stack, rules[0].1));
    assert(!matches_scope(stack, rules[1].1));
    assert(!matches_scope(stack, rules[2].1));
    assert(!matches_scope(stack, rules[3].1));
    assert(!matches_scope(stack, rules[4].1));
    assert(!matches_scope(stack, rules[5].1));
    lemma_first_rule_at(rules, stack, 6);
}

/// A stack of scopes all within `meta.preprocessor` gets the class "tok-macro".
proof fn lemma_class_of_meta_preprocessor(stack: Seq<Seq<char>>)
    requires
        all_within(stack, "meta.preprocessor"@),
    ensures
        token_class_spec(stack) == Some("tok-macro"@),
{
    let rules = token_rules_spec();
    reveal_strlit("comment");
    reveal_strlit("constant.character.escape");
    reveal_strlit("constant.numeric");
    reveal_strlit("entity.name.class");
    reveal_strlit("entity.name.enum");
    reveal_strlit("entity.name.interface");
    reveal_strlit("entity.name.namespace");
    reveal_strlit("entity.name.struct");
    reveal_strlit("entity.name.trait");
    reveal_strlit("entity.name.type");
    reveal_strlit("entity.name.union");
    reveal_strlit("entity.other.attribute-name");
    reveal_strlit("meta.annotation");
    reveal_strlit("meta.preprocessor");
    reveal_strlit("storage.modifier");
    reveal_strlit("storage.type");
    reveal_strlit("string");
    reveal_strlit("string.regexp");
    reveal_strlit("support.namespace");
    reveal_strlit("support.type");
    lemma_first_char_apart("meta.preprocessor"@);
    lemma_diverge_apart("meta.preprocessor"@, "meta.annotation"@, 5);
    assert(scope_prefix("meta.preprocessor"@, stack[0]));
    assert(rules[6].1[2] == "meta.preprocessor"@);
    assert(matches_scope(stack, rules[6].1));
    assert(!matches_scope(stack, rules[0].1));
    assert(!matches_scope(stack, rules[1].1));
    assert(!matches_scope(stack, rules[2].1));
    assert(!matches_scope(stack, rules[3].1));
    assert(!matches_scope(stack, rules[4].1));
    assert(!matches_scope(stack, rules[5].1));
    lemma_first_rule_at(rules, stack, 6);
}

/// A stack of scopes all within `entity.name.function.constructor` gets the class "tok-function".
proof fn lemma_class_of_entity_name_function_constructor(stack: Seq<Seq<char>>)
    requires
        all_within(stack, "entity.name.function.constructor"@),
    ensures
        token_class_spec(stack) == Some("tok-function"@),
{
    let rules = token_rules_spec();
    reveal_strlit("comment");
    reveal_strlit("constant.character.escape");
    reveal_strlit("constant.numeric");
    reveal_strlit("entity.name.class");
    reveal_strlit("entity.name.enum");
    reveal_strlit("entity.name.function");
    reveal_strlit("entity.name.function.constructor");
    reveal_strlit("entity.name.function.preprocessor");
    reveal_strlit("entity.name.interface");
    reveal_strlit("entity.name.macro");
    reveal_strlit("entity.name.namespace");
    reveal_strlit("entity.name.struct");
    reveal_strlit("entity.name.trait");
    reveal_strlit("entity.name.type");
    reveal_strlit("entity.name.union");
    reveal_strlit("entity.other.attribute-name");
    reveal_strlit("meta.annotation");
    reveal_strlit("meta.preprocessor");
    reveal_strlit("storage.modifier");
    reveal_strlit("storage.type");
    reveal_strlit("string");
    reveal_strlit("string.regexp");
    reveal_strlit("support.namespace");
    reveal_strlit("support.type");
    lemma_first_char_apart("entity.name.function.constructor"@);
    lemma_diverge_apart("entity.name.function.constructor"@, "entity.other.attribute-name"@, 7);
    lemma_diverge_apart("entity.name.function.constructor"@, "entity.name.namespace"@, 12);
    lemma_diverge_apart("entity.name.function.constructor"@, "entity.name.type"@, 12);
    lemma_diverge_apart("entity.name.function.constructor"@, "entity.name.class"@, 12);
    lemma_diverge_apart("entity.name.function.constructor"@, "entity.name.struct"@, 12);
    lemma_diverge_apart("entity.name.function.constructor"@, "entity.name.enum"@, 12);
    lemma_diverge_apart("entity.name.function.constructor"@, "entity.name.union"@, 12);
    lemma_diverge_apart("entity.name.function.constructor"@, "entity.name.interface"@, 12);
    lemma_diverge_apart("entity.name.function.constructor"@, "entity.name.trait"@, 12);
    lemma_diverge_apart("entity.name.function.constructor"@, "entity.name.function.preprocessor"@, 21);
    lemma_diverge_apart("entity.name.function.constructor"@, "entity.name.macro"@, 12);
    assert("entity.name.function.constructor"@.subrange(0, 20) =~= "entity.name.function"@);
    lemma_scope_prefix_trans_all("entity.name.function"@, "entity.name.function.constructor"@);
    assert(scope_prefix("entity.name.function"@, stack[0]));
    assert(rules[7].1[0] == "entity.name.function"@);
    assert(matches_scope(stack, rules[7].1));
    assert(!matches_scope(stack, rules[0].1));
    assert(!matches_scope(stack, rules[1].1));
    assert(!matches_scope(stack, rules[2].1));
    assert(!matches_scope(stack, rules[3].1));
    assert(!matches_scope(stack, rules[4].1));
    assert(!matches_scope(stack, rules[5].1));
    assert(!matches_scope(stack, rules[6].1));
    lemma_first_rule_at(rules, stack, 7);
}

/// A stack of scopes all within `variable.function` gets the class "tok-function".
proof fn lemma_class_of_variable_function(stack: Seq<Seq<char>>)
    requires
        all_within(stack, "variable.function"@),
    ensures
        token_class_spec(stack) == Some("tok-function"@),
{
    let rules = token_rules_spec();
    reveal_strlit("comment");
    reveal_strlit("constant.character.escape");
    reveal_strlit("constant.numeric");
    reveal_strlit("entity.name.class");
    reveal_strlit("entity.name.enum");
    reveal_strlit("entity.name.function.preprocessor");
    reveal_strlit("entity.name.interface");
    reveal_strlit("entity.name.macro");
    reveal_strlit("entity.name.namespace");
    reveal_strlit("entity.name.struct");
    reveal_strlit("entity.name.trait");
    reveal_strlit("entity.name.type");
    reveal_strlit("entity.name.union");
    reveal_strlit("entity.other.attribute-name");
    reveal_strlit("meta.annotation");
    reveal_strlit("meta.preprocessor");
    reveal_strlit("storage.modifier");
    reveal_strlit("storage.type");
    reveal_strlit("string");
    reveal_strlit("string.regexp");
    reveal_strlit("support.namespace");
    reveal_strlit("support.type");
    reveal_strlit("variable.function");
    lemma_first_char_apart("variable.function"@);
    assert(scope_prefix("variable.function"@, stack[0]));
    assert(rules[7].1[2] == "variable.function"@);
    assert(matches_scope(stack, rules[7].1));
    assert(!matches_scope(stack, rules[0].1));
    assert(!matches_scope(stack, rules[1].1));
    assert(!matches_scope(stack, rules[2].1));
    assert(!matches_scope(stack, rules[3].1));
    assert(!matches_scope(stack, rules[4].1));
    assert(!matches_scope(stack, rules[5].1));
    assert(!matches_scope(stack, rules[6].1));
    lemma_first_rule_at(rules, stack, 7);
}

/// A stack of scopes all within `support.function` gets the class "tok-function".
proof fn lemma_class_of_support_function(stack: Seq<Seq<char>>)
    requires
        all_within(stack, "support.function"@),
    ensures
        token_class_spec(stack) == Some("tok-function"@),
{
    let rules = token_rules_spec();
    reveal_strlit("comment");
    reveal_strlit("constant.character.escape");
    reveal_strlit("constant.numeric");
    reveal_strlit("entity.name.class");
    reveal_strlit("entity.name.enum");
    reveal_strlit("entity.name.function.preprocessor");
    reveal_strlit("entity.name.interface");
    reveal_strlit("entity.name.macro");
    reveal_strlit("entity.name.namespace");
    reveal_strlit("entity.name.struct");
    reveal_strlit("entity.name.trait");
    reveal_strlit("entity.name.type");
    reveal_strlit("entity.name.union");
    reveal_strlit("entity.other.attribute-name");
    reveal_strlit("meta.annotation");
    reveal_strlit("meta.preprocessor");
    reveal_strlit("storage.modifier");
    reveal_strlit("storage.type");
    reveal_strlit("string");
    reveal_strlit("string.regexp");
    reveal_strlit("support.function");
    reveal_strlit("support.namespace");
    reveal_strlit("support.type");
    lemma_first_char_apart("support.function"@);
    lemma_diverge_apart("support.function"@, "string"@, 1);
    lemma_diverge_apart("support.function"@, "string.regexp"@, 1);
    lemma_diverge_apart("support.function"@, "support.namespace"@, 8);
    lemma_diverge_apart("support.function"@, "support.type"@, 8);
    lemma_diverge_apart("support.function"@, "storage.type"@, 1);
    lemma_diverge_apart("support.function"@, "storage.modifier"@, 1);
    assert(scope_prefix("support.function"@, stack[0]));
    assert(rules[7].1[3] == "support.function"@);
    assert(matches_scope(stack, rules[7].1));
    assert(!matches_scope(stack, rules[0].1));
    assert(!matches_scope(stack, rules[1].1));
    assert(!matches_scope(stack, rules[2].1));
    assert(!matches_scope(stack, rules[3].1));
    assert(!matches_scope(stack, rules[4].1));
    assert(!matches_scope(stack, rules[5].1));
    assert(!matches_scope(stack, rules[6].1));
    lemma_first_rule_at(rules, stack, 7);
}

/// A stack of scopes all within `support.function.builtin` gets the class "tok-function".
proof fn lemma_class_of_support_function_builtin(stack: Seq<Seq<char>>)
    requires
        all_within(stack, "support.function.builtin"@),
    ensures
        token_class_spec(stack) == Some("tok-function"@),
{
    let rules = token_rules_spec();
    reveal_strlit("comment");
    reveal_strlit("constant.character.escape");
    reveal_strlit("constant.numeric");
    reveal_strlit("entity.name.class");
    reveal_strlit("entity.name.enum");
    reveal_strlit("entity.name.function.preprocessor");
    reveal_strlit("entity.name.interface");
    reveal_strlit("entity.name.macro");
    reveal_strlit("entity.name.namespace");
    reveal_strlit("entity.name.struct");
    reveal_strlit("entity.name.trait");
    reveal_strlit("entity.name.type");
    reveal_strlit("entity.name.union");
    reveal_strlit("entity.other.attribute-name");
    reveal_strlit("meta.annotation");
    reveal_strlit("meta.preprocessor");
    reveal_strlit("storage.modifier");
    reveal_strlit("storage.type");
    reveal_strlit("string");
    reveal_strlit("string.regexp");
    reveal_strlit("support.function");
    reveal_strlit("support.function.builtin");
    reveal_strlit("support.namespace");
    reveal_strlit("support.type");
    lemma_first_char_apart("support.function.builtin"@);
    lemma_diverge_apart("support.function.builtin"@, "string"@, 1);
    lemma_diverge_apart("support.function.builtin"@, "string.regexp"@, 1);
    lemma_diverge_apart("support.function.builtin"@, "support.namespace"@, 8);
    lemma_diverge_apart("support.function.builtin"@, "support.type"@, 8);
    lemma_diverge_apart("support.function.builtin"@, "storage.type"@, 1);
    lemma_diverge_apart("support.function.builtin"@, "storage.modifier"@, 1);
    assert("support.function.builtin"@.subrange(0, 16) =~= "support.function"@);
    lemma_scope_prefix_trans_all("support.function"@, "support.function.builtin"@);
    assert(scope_prefix("support.function"@, stack[0]));
    assert(rules[7].1[3] == "support.function"@);
    assert(matches_scope(stack, rules[7].1));
    assert(!matches_scope(stack, rules[0].1));
    assert(!matches_scope(stack, rules[1].1));
    assert(!matches_scope(stack, rules[2].1));
    assert(!matches_scope(stack, rules[3].1));
    assert(!matches_scope(stack, rules[4].1));
    assert(!matches_scope(stack, rules[5].1));
    assert(!matches_scope(stack, rules[6].1));
    lemma_first_rule_at(rules, stack, 7);
}

/// A stack of scopes all within `support.variable` gets the class "tok-function".
proof fn lemma_class_of_support_variable(stack: Seq<Seq<char>>)
    requires
        all_within(stack, "support.variable"@),
    ensures
        token_class_spec(stack) == Some("tok-function"@),
{
    let rules = token_rules_spec();
    reveal_strlit("comment");
    reveal_strlit("constant.character.escape");
    reveal_strlit("constant.numeric");
    reveal_strlit("entity.name.class");
    reveal_strlit("entity.name.enum");
    reveal_strlit("entity.name.function.preprocessor");
    reveal_strlit("entity.name.interface");
    reveal_strlit("entity.name.macro");
    reveal_strlit("entity.name.namespace");
    reveal_strlit("entity.name.struct");
    reveal_strlit("entity.name.trait");
    reveal_strlit("entity.name.type");
    reveal_strlit("entity.name.union");
    reveal_strlit("entity.other.attribute-name");
    reveal_strlit("meta.annotation");
    reveal_strlit("meta.preprocessor");
    reveal_strlit("storage.modifier");
    reveal_strlit("storage.type");
    reveal_strlit("string");
    reveal_strlit("string.regexp");
    reveal_strlit("support.namespace");
    reveal_strlit("support.type");
    reveal_strlit("support.variable");
    lemma_first_char_apart("support.variable"@);
    lemma_diverge_apart("support.variable"@, "string"@, 1);
    lemma_diverge_apart("support.variable"@, "string.regexp"@, 1);
    lemma_diverge_apart("support.variable"@, "support.namespace"@, 8);
    lemma_diverge_apart("support.variable"@, "support.type"@, 8);
    lemma_diverge_apart("support.variable"@, "storage.type"@, 1);
    lemma_diverge_apart("support.variable"@, "storage.modifier"@, 1);
    assert(scope_prefix("support.variable"@, stack[0]));
    assert(rules[7].1[5] == "support.variable"@);
    assert(matches_scope(stack, rules[7].1));
    assert(!matches_scope(stack, rules[0].1));
    assert(!matches_scope(stack, rules[1].1));
    assert(!matches_scope(stack, rules[2].1));
    assert(!matches_scope(stack, rules[3].1));
    assert(!matches_scope(stack, rules[4].1));
    assert(!matches_scope(stack, rules[5].1));
    assert(!matches_scope(stack, rules[6].1));
    lemma_first_rule_at(rules, stack, 7);
}

/// A stack of scopes all within `support.constant.builtin` gets the class "tok-function".
proof fn lemma_class_of_support_constant_builtin(stack: Seq<Seq<char>>)
    requires
        all_within(stack, "support.constant.builtin"@),
    ensures
        token_class_spec(stack) == Some("tok-function"@),
{
    let rules = token_rules_spec();
    reveal_strlit("comment");
    reveal_strlit("constant.character.escape");
    reveal_strlit("constant.numeric");
    reveal_strlit("entity.name.class");
    reveal_strlit("entity.name.enum");
    reveal_strlit("entity.name.function.preprocessor");
    reveal_strlit("entity.name.interface");
    reveal_strlit("entity.name.macro");
    reveal_strlit("entity.name.namespace");
    reveal_strlit("entity.name.struct");
    reveal_strlit("entity.name.trait");
    reveal_strlit("entity.name.type");
    reveal_strlit("entity.name.union");
    reveal_strlit("entity.other.attribute-name");
    reveal_strlit("meta.annotation");
    reveal_strlit("meta.preprocessor");
    reveal_strlit("storage.modifier");
    reveal_strlit("storage.type");
    reveal_strlit("string");
    reveal_strlit("string.regexp");
    reveal_strlit("support.constant.builtin");
    reveal_strlit("support.namespace");
    reveal_strlit("support.type");
    lemma_first_char_apart("support.constant.builtin"@);
    lemma_diverge_apart("support.constant.builtin"@, "string"@, 1);
    lemma_diverge_apart("support.constant.builtin"@, "string.regexp"@, 1);
    lemma_diverge_apart("support.constant.builtin"@, "support.namespace"@, 8);
    lemma_diverge_apart("support.constant.builtin"@, "support.type"@, 8);
    lemma_diverge_apart("support.constant.builtin"@, "storage.type"@, 1);
    lemma_diverge_apart("support.constant.builtin"@, "storage.modifier"@, 1);
    assert(scope_prefix("support.constant.builtin"@, stack[0]));
    assert(rules[7].1[6] == "support.constant.builtin"@);
    assert(matches_scope(stack, rules[7].1));
    assert(!matches_scope(stack, rules[0].1));
    assert(!matches_scope(stack, rules[1].1));
    assert(!matches_scope(stack, rules[2].1));
    assert(!matches_scope(stack, rules[3].1));
    assert(!matches_scope(stack, rules[4].1));
    assert(!matches_scope(stack, rules[5].1));
    assert(!matches_scope(stack, rules[6].1));
    lemma_first_rule_at(rules, stack, 7);
}

/// A stack of scopes all within `variable.parameter` gets the class "tok-constant".
proof fn lemma_class_of_variable_parameter(stack: Seq<Seq<char>>)
    requires
        all_within(stack, "variable.parameter"@),
    ensures
        token_class_spec(stack) == Some("tok-constant"@),
{
    let rules = token_rules_spec();
    reveal_strlit("comment");
    reveal_strlit("constant.character.escape");
    reveal_strlit("constant.numeric");
    reveal_strlit("entity.name.class");
    reveal_strlit("entity.name.enum");
    reveal_strlit("entity.name.function");
    reveal_strlit("entity.name.function.constructor");
    reveal_strlit("entity.name.function.preprocessor");
    reveal_strlit("entity.name.interface");
    reveal_strlit("entity.name.macro");
    reveal_strlit("entity.name.namespace");
    reveal_strlit("entity.name.struct");
    reveal_strlit("entity.name.trait");
    reveal_strlit("entity.name.type");
    reveal_strlit("entity.name.union");
    reveal_strlit("entity.other.attribute-name");
    reveal_strlit("meta.annotation");
    reveal_strlit("meta.preprocessor");
    reveal_strlit("storage.modifier");
    reveal_strlit("storage.type");
    reveal_strlit("string");
    reveal_strlit("string.regexp");
    reveal_strlit("support.constant.builtin");
    reveal_strlit("support.function");
    reveal_strlit("support.function.builtin");
    reveal_strlit("support.namespace");
    reveal_strlit("support.type");
    reveal_strlit("support.variable");
    reveal_strlit("variable.function");
    reveal_strlit("variable.parameter");
    lemma_first_char_apart("variable.parameter"@);
    lemma_diverge_apart("variable.parameter"@, "variable.function"@, 9);
    assert(scope_prefix("variable.parameter"@, stack[0]));
    assert(rules[8].1[3] == "variable.parameter"@);
    assert(matches_scope(stack, rules[8].1));
    assert(!matches_scope(stack, rules[0].1));
    assert(!matches_scope(stack, rules[1].1));
    assert(!matches_scope(stack, rules[2].1));
    assert(!matches_scope(stack, rules[3].1));
    assert(!matches_scope(stack, rules[4].1));
    assert(!matches_scope(stack, rules[5].1));
    assert(!matches_scope(stack, rules[6].1));
    assert(!matches_scope(stack, rules[7].1));
    lemma_first_rule_at(rules, stack, 8);
}

/// A stack of scopes all within `variable.other.property` gets the class "tok-constant".
proof fn lemma_class_of_variable_other_property(stack: Seq<Seq<char>>)
    requires
        all_within(stack, "variable.other.property"@),
    ensures
        token_class_spec(stack) == Some("tok-constant"@),
{
    let rules = token_rules_spec();
    reveal_strlit("comment");
    reveal_strlit("constant.character.escape");
    reveal_strlit("constant.numeric");
    reveal_strlit("entity.name.class");
    reveal_strlit("entity.name.enum");
    reveal_strlit("entity.name.function");
    reveal_strlit("entity.name.function.constructor");
    reveal_strlit("entity.name.function.preprocessor");
    reveal_strlit("entity.name.interface");
    reveal_strlit("entity.name.macro");
    reveal_strlit("entity.name.namespace");
    reveal_strlit("entity.name.struct");
    reveal_strlit("entity.name.trait");
    reveal_strlit("entity.name.type");
    reveal_strlit("entity.name.union");
    reveal_strlit("entity.other.attribute-name");
    reveal_strlit("meta.annotation");
    reveal_strlit("meta.preprocessor");
    reveal_strlit("storage.modifier");
    reveal_strlit("storage.type");
    reveal_strlit("string");
    reveal_strlit("string.regexp");
    reveal_strlit("support.constant.builtin");
    reveal_strlit("support.function");
    reveal_strlit("support.function.builtin");
    reveal_strlit("support.namespace");
    reveal_strlit("support.type");
    reveal_strlit("support.variable");
    reveal_strlit("variable.function");
    reveal_strlit("variable.other.property");
    lemma_first_char_apart("variable.other.property"@);
    lemma_diverge_apart("variable.other.property"@, "variable.function"@, 9);
    assert(scope_prefix("variable.other.property"@, stack[0]));
    assert(rules[8].1[4] == "variable.other.property"@);
    assert(matches_scope(stack, rules[8].1));
    assert(!matches_scope(stack, rules[0].1));
    assert(!matches_scope(stack, rules[1].1));
    assert(!matches_scope(stack, rules[2].1));
    assert(!matches_scope(stack, rules[3].1));
    assert(!matches_scope(stack, rules[4].1));
    assert(!matches_scope(stack, rules[5].1));
    assert(!matches_scope(stack, rules[6].1));
    assert(!matches_scope(stack, rules[7].1));
    lemma_first_rule_at(rules, stack, 8);
}

/// A stack of scopes all within `variable.other.member` gets the class "tok-constant".
proof fn lemma_class_of_variable_other_member(stack: Seq<Seq<char>>)
    requires
        all_within(stack, "variable.other.member"@),
    ensures
        token_class_spec(stack) == Some("tok-constant"@),
{
    let rules = token_rules_spec();
    reveal_strlit("comment");
    reveal_strlit("constant.character.escape");
    reveal_strlit("constant.numeric");
    reveal_strlit("entity.name.class");
    reveal_strlit("entity.name.enum");
    reveal_strlit("entity.name.function");
    reveal_strlit("entity.name.function.constructor");
    reveal_strlit("entity.name.function.preprocessor");
    reveal_strlit("entity.name.interface");
    reveal_strlit("entity.name.macro");
    reveal_strlit("entity.name.namespace");
    reveal_strlit("entity.name.struct");
    reveal_strlit("entity.name.trait");
    reveal_strlit("entity.name.type");
    reveal_strlit("entity.name.union");
    reveal_strlit("entity.other.attribute-name");
    reveal_strlit("meta.annotation");
    reveal_strlit("meta.preprocessor");
    reveal_strlit("storage.modifier");
    reveal_strlit("storage.type");
    reveal_strlit("string");
    reveal_strlit("string.regexp");
    reveal_strlit("support.constant.builtin");
    reveal_strlit("support.function");
    reveal_strlit("support.function.builtin");
    reveal_strlit("support.namespace");
    reveal_strlit("support.type");
    reveal_strlit("support.variable");
    reveal_strlit("variable.function");
    reveal_strlit("variable.other.member");
    lemma_first_char_apart("variable.other.member"@);
    lemma_diverge_apart("variable.other.member"@, "variable.function"@, 9);
    assert(scope_prefix("variable.other.member"@, stack[0]));
    assert(rules[8].1[5] == "variable.other.member"@);
    assert(matches_scope(stack, rules[8].1));
    assert(!matches_scope(stack, rules[0].1));
    assert(!matches_scope(stack, rules[1].1));
    assert(!matches_scope(stack, rules[2].1));
    assert(!matches_scope(stack, rules[3].1));
    assert(!matches_scope(stack, rules[4].1));
    assert(!matches_scope(stack, rules[5].1));
    assert(!matches_scope(stack, rules[6].1));
    assert(!matches_scope(stack, rules[7].1));
    lemma_first_rule_at(rules, stack, 8);
}

/// A stack of scopes all within `entity.name.field` gets the class "tok-constant".
proof fn lemma_class_of_entity_name_field(stack: Seq<Seq<char>>)
    requires
        all_within(stack, "entity.name.field"@),
    ensures
        token_class_spec(stack) == Some("tok-constant"@),
{
    let rules = token_rules_spec();
    reveal_strlit("comment");
    reveal_strlit("constant.character.escape");
    reveal_strlit("constant.numeric");
    reveal_strlit("entity.name.class");
    reveal_strlit("entity.name.enum");
    reveal_strlit("entity.name.field");
    reveal_strlit("entity.name.function");
    reveal_strlit("entity.name.function.constructor");
    reveal_strlit("entity.name.function.preprocessor");
    reveal_strlit("entity.name.interface");
    reveal_strlit("entity.name.macro");
    reveal_strlit("entity.name.namespace");
    reveal_strlit("entity.name.struct");
    reveal_strlit("entity.name.trait");
    reveal_strlit("entity.name.type");
    reveal_strlit("entity.name.union");
    reveal_strlit("entity.other.attribute-name");
    reveal_strlit("meta.annotation");
    reveal_strlit("meta.preprocessor");
    reveal_strlit("storage.modifier");
    reveal_strlit("storage.type");
    reveal_strlit("string");
    reveal_strlit("string.regexp");
    reveal_strlit("support.constant.builtin");
    reveal_strlit("support.function");
    reveal_strlit("support.function.builtin");
    reveal_strlit("support.namespace");
    reveal_strlit("support.type");
    reveal_strlit("support.variable");
    reveal_strlit("variable.function");
    lemma_first_char_apart("entity.name.field"@);
    lemma_diverge_apart("entity.name.field"@, "entity.other.attribute-name"@, 7);
    lemma_diverge_apart("entity.name.field"@, "entity.name.namespace"@, 12);
    lemma_diverge_apart("entity.name.field"@, "entity.name.type"@, 12);
    lemma_diverge_apart("entity.name.field"@, "entity.name.class"@, 12);
    lemma_diverge_apart("entity.name.field"@, "entity.name.struct"@, 12);
    lemma_diverge_apart("entity.name.field"@, "entity.name.enum"@, 12);
    lemma_diverge_apart("entity.name.field"@, "entity.name.union"@, 12);
    lemma_diverge_apart("entity.name.field"@, "entity.name.interface"@, 12);
    lemma_diverge_apart("entity.name.field"@, "entity.name.trait"@, 12);
    lemma_diverge_apart("entity.name.field"@, "entity.name.function.preprocessor"@, 13);
    lemma_diverge_apart("entity.name.field"@, "entity.name.macro"@, 12);
    lemma_diverge_apart("entity.name.field"@, "entity.name.function"@, 13);
    lemma_diverge_apart("entity.name.field"@, "entity.name.function.constructor"@, 13);
    assert(scope_prefix("entity.name.field"@, stack[0]));
    assert(rules[8].1[6] == "entity.name.field"@);
    assert(matches_scope(stack, rules[8].1));
    assert(!matches_scope(stack, rules[0].1));
    assert(!matches_scope(stack, rules[1].1));
    assert(!matches_scope(stack, rules[2].1));
    assert(!matches_scope(stack, rules[3].1));
    assert(!matches_scope(stack, rules[4].1));
    assert(!matches_scope(stack, rules[5].1));
    assert(!matches_scope(stack, rules[6].1));
    assert(!matches_scope(stack, rules[7].1));
    lemma_first_rule_at(rules, stack, 8);
}

/// A stack of scopes all within `keyword.control` gets the class "tok-keyword-control".
proof fn lemma_class_of_keyword_control(stack: Seq<Seq<char>>)
    requires
        all_within(stack, "keyword.control"@),
    ensures
        token_class_spec(stack) == Some("tok-keyword-control"@),
{
    let rules = token_rules_spec();
    reveal_strlit("comment");
    reveal_strlit("constant");
    reveal_strlit("constant.character");
    reveal_strlit("constant.character.escape");
    reveal_strlit("constant.numeric");
    reveal_strlit("entity.name.class");
    reveal_strlit("entity.name.enum");
    reveal_strlit("entity.name.field");
    reveal_strlit("entity.name.function");
    reveal_strlit("entity.name.function.constructor");
    reveal_strlit("entity.name.function.preprocessor");
    reveal_strlit("entity.name.interface");
    reveal_strlit("entity.name.macro");
    reveal_strlit("entity.name.namespace");
    reveal_strlit("entity.name.struct");
    reveal_strlit("entity.name.trait");
    reveal_strlit("entity.name.type");
    reveal_strlit("entity.name.union");
    reveal_strlit("entity.other.attribute-name");
    reveal_strlit("keyword.control");
    reveal_strlit("meta.annotation");
    reveal_strlit("meta.preprocessor");
    reveal_strlit("storage.modifier");
    reveal_strlit("storage.type");
    reveal_strlit("string");
    reveal_strlit("string.regexp");
    reveal_strlit("support.constant");
    reveal_strlit("support.constant.builtin");
    reveal_strlit("support.function");
    reveal_strlit("support.function.builtin");
    reveal_strlit("support.namespace");
    reveal_strlit("support.type");
    reveal_strlit("support.variable");
    reveal_strlit("variable.function");
    reveal_strlit("variable.other.member");
    reveal_strlit("variable.other.property");
    reveal_strlit("variable.parameter");
    lemma_first_char_apart("keyword.control"@);
    assert(scope_prefix("keyword.control"@, stack[0]));
    assert(rules[9].1[0] == "keyword.control"@);
    assert(matches_scope(stack, rules[9].1));
    assert(!matches_scope(stack, rules[0].1));
    assert(!matches_scope(stack, rules[1].1));
    assert(!matches_scope(stack, rules[2].1));
    assert(!matches_scope(stack, rules[3].1));
    assert(!matches_scope(stack, rules[4].1));
    assert(!matches_scope(stack, rules[5].1));
    assert(!matches_scope(stack, rules[6].1));
    assert(!matches_scope(stack, rules[7].1));
    assert(!matches_scope(stack, rules[8].1));
    lemma_first_rule_at(rules, stack, 9);
}

/// A stack of scopes all within `support.class.builtin` gets the class "tok-keyword".
proof fn lemma_class_of_support_class_builtin(stack: Seq<Seq<char>>)
    requires
        all_within(stack, "support.class.builtin"@),
    ensures
        token_class_spec(stack) == Some("tok-keyword"@),
{
    let rules = token_rules_spec();
    reveal_strlit("comment");
    reveal_strlit("constant");
    reveal_strlit("constant.character");
    reveal_strlit("constant.character.escape");
    reveal_strlit("constant.numeric");
    reveal_strlit("entity.name.class");
    reveal_strlit("entity.name.enum");
    reveal_strlit("entity.name.field");
    reveal_strlit("entity.name.function");
    reveal_strlit("entity.name.function.constructor");
    reveal_strlit("entity.name.function.preprocessor");
    reveal_strlit("entity.name.interface");
    reveal_strlit("entity.name.macro");
    reveal_strlit("entity.name.namespace");
    reveal_strlit("entity.name.struct");
    reveal_strlit("entity.name.trait");
    reveal_strlit("entity.name.type");
    reveal_strlit("entity.name.union");
    reveal_strlit("entity.other.attribute-name");
    reveal_strlit("keyword.control");
    reveal_strlit("meta.annotation");
    reveal_strlit("meta.preprocessor");
    reveal_strlit("storage.modifier");
    reveal_strlit("storage.type");
    reveal_strlit("string");
    reveal_strlit("string.regexp");
    reveal_strlit("support.class.builtin");
    reveal_strlit("support.constant");
    reveal_strlit("support.constant.builtin");
    reveal_strlit("support.function");
    reveal_strlit("support.function.builtin");
    reveal_strlit("support.namespace");
    reveal_strlit("support.type");
    reveal_strlit("support.variable");
    reveal_strlit("variable.function");
    reveal_strlit("variable.other.member");
    reveal_strlit("variable.other.property");
    reveal_strlit("variable.parameter");
    lemma_first_char_apart("support.class.builtin"@);
    lemma_diverge_apart("support.class.builtin"@, "string"@, 1);
    lemma_diverge_apart("support.class.builtin"@, "string.regexp"@, 1);
    lemma_diverge_apart("support.class.builtin"@, "support.namespace"@, 8);
    lemma_diverge_apart("support.class.builtin"@, "support.type"@, 8);
    lemma_diverge_apart("support.class.builtin"@, "storage.type"@, 1);
    lemma_diverge_apart("support.class.builtin"@, "storage.modifier"@, 1);
    lemma_diverge_apart("support.class.builtin"@, "support.function"@, 8);
    lemma_diverge_apart("support.class.builtin"@, "support.function.builtin"@, 8);
    lemma_diverge_apart("support.class.builtin"@, "support.variable"@, 8);
    lemma_diverge_apart("support.class.builtin"@, "support.constant.builtin"@, 9);
    lemma_diverge_apart("support.class.builtin"@, "support.constant"@, 9);
    assert(scope_prefix("support.class.builtin"@, stack[0]));
    assert(rules[10].1[5] == "support.class.builtin"@);
    assert(matches_scope(stack, rules[10].1));
    assert(!matches_scope(stack, rules[0].1));
    assert(!matches_scope(stack, rules[1].1));
    assert(!matches_scope(stack, rules[2].1));
    assert(!matches_scope(stack, rules[3].1));
    assert(!matches_scope(stack, rules[4].1));
    assert(!matches_scope(stack, rules[5].1));
    assert(!matches_scope(stack, rules[6].1));
    assert(!matches_scope(stack, rules[7].1));
    assert(!matches_scope(stack, rules[8].1));
    assert(!matches_scope(stack, rules[9].1));
    lemma_first_rule_at(rules, stack, 10);
}

/// A stack of scopes all within `entity.name.tag` gets the class "tok-keyword".
proof fn lemma_class_of_entity_name_tag(stack: Seq<Seq<char>>)
    requires
        all_within(stack, "entity.name.tag"@),
    ensures
        token_class_spec(stack) == Some("tok-keyword"@),
{
    let rules = token_rules_spec();
    reveal_strlit("comment");
    reveal_strlit("constant");
    reveal_strlit("constant.character");
    reveal_strlit("constant.character.escape");
    reveal_strlit("constant.numeric");
    reveal_strlit("entity.name.class");
    reveal_strlit("entity.name.enum");
    reveal_strlit("entity.name.field");
    reveal_strlit("entity.name.function");
    reveal_strlit("entity.name.function.constructor");
    reveal_strlit("entity.name.function.preprocessor");
    reveal_strlit("entity.name.interface");
    reveal_strlit("entity.name.macro");
    reveal_strlit("entity.name.namespace");
    reveal_strlit("entity.name.struct");
    reveal_strlit("entity.name.tag");
    reveal_strlit("entity.name.trait");
    reveal_strlit("entity.name.type");
    reveal_strlit("entity.name.union");
    reveal_strlit("entity.other.attribute-name");
    reveal_strlit("keyword.control");
    reveal_strlit("meta.annotation");
    reveal_strlit("meta.preprocessor");
    reveal_strlit("storage.modifier");
    reveal_strlit("storage.type");
    reveal_strlit("string");
    reveal_strlit("string.regexp");
    reveal_strlit("support.constant");
    reveal_strlit("support.constant.builtin");
    reveal_strlit("support.function");
    reveal_strlit("support.function.builtin");
    reveal_strlit("support.namespace");
    reveal_strlit("support.type");
    reveal_strlit("support.variable");
    reveal_strlit("variable.function");
    reveal_strlit("variable.other.member");
    reveal_strlit("variable.other.property");
    reveal_strlit("variable.parameter");
    lemma_first_char_apart("entity.name.tag"@);
    lemma_diverge_apart("entity.name.tag"@, "entity.other.attribute-name"@, 7);
    lemma_diverge_apart("entity.name.tag"@, "entity.name.namespace"@, 12);
    lemma_diverge_apart("entity.name.tag"@, "entity.name.type"@, 13);
    lemma_diverge_apart("entity.name.tag"@, "entity.name.class"@, 12);
    lemma_diverge_apart("entity.name.tag"@, "entity.name.struct"@, 12);
    lemma_diverge_apart("entity.name.tag"@, "entity.name.enum"@, 12);
    lemma_diverge_apart("entity.name.tag"@, "entity.name.union"@, 12);
    lemma_diverge_apart("entity.name.tag"@, "entity.name.interface"@, 12);
    lemma_diverge_apart("entity.name.tag"@, "entity.name.trait"@, 13);
    lemma_diverge_apart("entity.name.tag"@, "entity.name.function.preprocessor"@, 12);
    lemma_diverge_apart("entity.name.tag"@, "entity.name.macro"@, 12);
    lemma_diverge_apart("entity.name.tag"@, "entity.name.function"@, 12);
    lemma_diverge_apart("entity.name.tag"@, "entity.name.function.constructor"@, 12);
    lemma_diverge_apart("entity.name.tag"@, "entity.name.field"@, 12);
    assert(scope_prefix("entity.name.tag"@, stack[0]));
    assert(rules[10].1[6] == "entity.name.tag"@);
    assert(matches_scope(stack, rules[10].1));
    assert(!matches_scope(stack, rules[0].1));
    assert(!matches_scope(stack, rules[1].1));
    assert(!matches_scope(stack, rules[2].1));
    assert(!matches_scope(stack, rules[3].1));
    assert(!matches_scope(stack, rules[4].1));
    assert(!matches_scope(stack, rules[5].1));
    assert(!matches_scope(stack, rules[6].1));
    assert(!matches_scope(stack, rules[7].1));
    assert(!matches_scope(stack, rules[8].1));
    assert(!matches_scope(stack, rules[9].1));
    lemma_first_rule_at(rules, stack, 10);
}

/// A stack of scopes all within `variable.language` gets the class "tok-keyword".
proof fn lemma_class_of_variable_language(stack: Seq<Seq<char>>)
    requires
        all_within(stack, "variable.language"@),
    ensures
        token_class_spec(stack) == Some("tok-keyword"@),
{
    let rules = token_rules_spec();
    reveal_strlit("comment");
    reveal_strlit("constant");
    reveal_strlit("constant.character");
    reveal_strlit("constant.character.escape");
    reveal_strlit("constant.numeric");
    reveal_strlit("entity.name.class");
    reveal_strlit("entity.name.enum");
    reveal_strlit("entity.name.field");
    reveal_strlit("entity.name.function");
    reveal_strlit("entity.name.function.constructor");
    reveal_strlit("entity.name.function.preprocessor");
    reveal_strlit("entity.name.interface");
    reveal_strlit("entity.name.macro");
    reveal_strlit("entity.name.namespace");
    reveal_strlit("entity.name.struct");
    reveal_strlit("entity.name.trait");
    reveal_strlit("entity.name.type");
    reveal_strlit("entity.name.union");
    reveal_strlit("entity.other.attribute-name");
    reveal_strlit("keyword.control");
    reveal_strlit("meta.annotation");
    reveal_strlit("meta.preprocessor");
    reveal_strlit("storage.modifier");
    reveal_strlit("storage.type");
    reveal_strlit("string");
    reveal_strlit("string.regexp");
    reveal_strlit("support.constant");
    reveal_strlit("support.constant.builtin");
    reveal_strlit("support.function");
    reveal_strlit("support.function.builtin");
    reveal_strlit("support.namespace");
    reveal_strlit("support.type");
    reveal_strlit("support.variable");
    reveal_strlit("variable.function");
    reveal_strlit("variable.language");
    reveal_strlit("variable.other.member");
    reveal_strlit("variable.other.property");
    reveal_strlit("variable.parameter");
    lemma_first_char_apart("variable.language"@);
    lemma_diverge_apart("variable.language"@, "variable.function"@, 9);
    lemma_diverge_apart("variable.language"@, "variable.parameter"@, 9);
    lemma_diverge_apart("variable.language"@, "variable.other.property"@, 9);
    lemma_diverge_apart("variable.language"@, "variable.other.member"@, 9);
    assert(scope_prefix("variable.language"@, stack[0]));
    assert(rules[10].1[7] == "variable.language"@);
    assert(matches_scope(stack, rules[10].1));
    assert(!matches_scope(stack, rules[0].1));
    assert(!matches_scope(stack, rules[1].1));
    assert(!matches_scope(stack, rules[2].1));
    assert(!matches_scope(stack, rules[3].1));
    assert(!matches_scope(stack, rules[4].1));
    assert(!matches_scope(stack, rules[5].1));
    assert(!matches_scope(stack, rules[6].1));
    assert(!matches_scope(stack, rules[7].1));
    assert(!matches_scope(stack, rules[8].1));
    assert(!matches_scope(stack, rules[9].1));
    lemma_first_rule_at(rules, stack, 10);
}

/// A stack of scopes all within `keyword.operator` gets the class "tok-keyword".
proof fn lemma_class_of_keyword_operator(stack: Seq<Seq<char>>)
    requires
        all_within(stack, "keyword.operator"@),
    ensures
        token_class_spec(stack) == Some("tok-keyword"@),
{
    let rules = token_rules_spec();
    reveal_strlit("comment");
    reveal_strlit("constant");
    reveal_strlit("constant.character");
    reveal_strlit("constant.character.escape");
    reveal_strlit("constant.numeric");
    reveal_strlit("entity.name.class");
    reveal_strlit("entity.name.enum");
    reveal_strlit("entity.name.field");
    reveal_strlit("entity.name.function");
    reveal_strlit("entity.name.function.constructor");
    reveal_strlit("entity.name.function.preprocessor");
    reveal_strlit("entity.name.interface");
    reveal_strlit("entity.name.macro");
    reveal_strlit("entity.name.namespace");
    reveal_strlit("entity.name.struct");
    reveal_strlit("entity.name.trait");
    reveal_strlit("entity.name.type");
    reveal_strlit("entity.name.union");
    reveal_strlit("entity.other.attribute-name");
    reveal_strlit("keyword");
    reveal_strlit("keyword.control");
    reveal_strlit("keyword.operator");
    reveal_strlit("meta.annotation");
    reveal_strlit("meta.preprocessor");
    reveal_strlit("storage.modifier");
    reveal_strlit("storage.type");
    reveal_strlit("string");
    reveal_strlit("string.regexp");
    reveal_strlit("support.constant");
    reveal_strlit("support.constant.builtin");
    reveal_strlit("support.function");
    reveal_strlit("support.function.builtin");
    reveal_strlit("support.namespace");
    reveal_strlit("support.type");
    reveal_strlit("support.variable");
    reveal_strlit("variable.function");
    reveal_strlit("variable.other.member");
    reveal_strlit("variable.other.property");
    reveal_strlit("variable.parameter");
    lemma_first_char_apart("keyword.operator"@);
    lemma_diverge_apart("keyword.operator"@, "keyword.control"@, 8);
    assert("keyword.operator"@.subrange(0, 7) =~= "keyword"@);
    lemma_scope_prefix_trans_all("keyword"@, "keyword.operator"@);
    assert(scope_prefix("keyword"@, stack[0]));
    assert(rules[10].1[0] == "keyword"@);
    assert(matches_scope(stack, rules[10].1));
    assert(!matches_scope(stack, rules[0].1));
    assert(!matches_scope(stack, rules[1].1));
    assert(!matches_scope(stack, rules[2].1));
    assert(!matches_scope(stack, rules[3].1));
    assert(!matches_scope(stack, rules[4].1));
    assert(!matches_scope(stack, rules[5].1));
    assert(!matches_scope(stack, rules[6].1));
    assert(!matches_scope(stack, rules[7].1));
    assert(!matches_scope(stack, rules[8].1));
    assert(!matches_scope(stack, rules[9].1));
    lemma_first_rule_at(rules, stack, 10);
}

/// A stack of scopes all within `punctuation` gets the class "tok-keyword".
proof fn lemma_class_of_punctuation(stack: Seq<Seq<char>>)
    requires
        all_within(stack, "punctuation"@),
    ensures
        token_class_spec(stack) == Some("tok-keyword"@),
{
    let rules = token_rules_spec();
    reveal_strlit("comment");
    reveal_strlit("constant");
    reveal_strlit("constant.character");
    reveal_strlit("constant.character.escape");
    reveal_strlit("constant.numeric");
    reveal_strlit("entity.name.class");
    reveal_strlit("entity.name.enum");
    reveal_strlit("entity.name.field");
    reveal_strlit("entity.name.function");
    reveal_strlit("entity.name.function.constructor");
    reveal_strlit("entity.name.function.preprocessor");
    reveal_strlit("entity.name.interface");
    reveal_strlit("entity.name.macro");
    reveal_strlit("entity.name.namespace");
    reveal_strlit("entity.name.struct");
    reveal_strlit("entity.name.trait");
    reveal_strlit("entity.name.type");
    reveal_strlit("entity.name.union");
    reveal_strlit("entity.other.attribute-name");
    reveal_strlit("keyword.control");
    reveal_strlit("meta.annotation");
    reveal_strlit("meta.preprocessor");
    reveal_strlit("punctuation");
    reveal_strlit("storage.modifier");
    reveal_strlit("storage.type");
    reveal_strlit("string");
    reveal_strlit("string.regexp");
    reveal_strlit("support.constant");
    reveal_strlit("support.constant.builtin");
    reveal_strlit("support.function");
    reveal_strlit("support.function.builtin");
    reveal_strlit("support.namespace");
    reveal_strlit("support.type");
    reveal_strlit("support.variable");
    reveal_strlit("variable.function");
    reveal_strlit("variable.other.member");
    reveal_strlit("variable.other.property");
    reveal_strlit("variable.parameter");
    lemma_first_char_apart("punctuation"@);
    assert(scope_prefix("punctuation"@, stack[0]));
    assert(rules[10].1[9] == "punctuation"@);
    assert(matches_scope(stack, rules[10].1));
    assert(!matches_scope(stack, rules[0].1));
    assert(!matches_scope(stack, rules[1].1));
    assert(!matches_scope(stack, rules[2].1));
    assert(!matches_scope(stack, rules[3].1));
    assert(!matches_scope(stack, rules[4].1));
    assert(!matches_scope(stack, rules[5].1));
    assert(!matches_scope(stack, rules[6].1));
    assert(!matches_scope(stack, rules[7].1));
    assert(!matches_scope(stack, rules[8].1));
    assert(!matches_scope(stack, rules[9].1));
    lemma_first_rule_at(rules, stack, 10);
}

/// A stack of scopes all within `punctuation.definition` gets the class "tok-keyword".
proof fn lemma_class_of_punctuation_definition(stack: Seq<Seq<char>>)
    requires
        all_within(stack, "punctuation.definition"@),
    ensures
        token_class_spec(stack) == Some("tok-keyword"@),
{
    let rules = token_rules_spec();
    reveal_strlit("comment");
    reveal_strlit("constant");
    reveal_strlit("constant.character");
    reveal_strlit("constant.character.escape");
    reveal_strlit("constant.numeric");
    reveal_strlit("entity.name.class");
    reveal_strlit("entity.name.enum");
    reveal_strlit("entity.name.field");
    reveal_strlit("entity.name.function");
    reveal_strlit("entity.name.function.constructor");
    reveal_strlit("entity.name.function.preprocessor");
    reveal_strlit("entity.name.interface");
    reveal_strlit("entity.name.macro");
    reveal_strlit("entity.name.namespace");
    reveal_strlit("entity.name.struct");
    reveal_strlit("entity.name.trait");
    reveal_strlit("entity.name.type");
    reveal_strlit("entity.name.union");
    reveal_strlit("entity.other.attribute-name");
    reveal_strlit("keyword.control");
    reveal_strlit("meta.annotation");
    reveal_strlit("meta.preprocessor");
    reveal_strlit("punctuation");
    reveal_strlit("punctuation.definition");
    reveal_strlit("storage.modifier");
    reveal_strlit("storage.type");
    reveal_strlit("string");
    reveal_strlit("string.regexp");
    reveal_strlit("support.constant");
    reveal_strlit("support.constant.builtin");
    reveal_strlit("support.function");
    reveal_strlit("support.function.builtin");
    reveal_strlit("support.namespace");
    reveal_strlit("support.type");
    reveal_strlit("support.variable");
    reveal_strlit("variable.function");
    reveal_strlit("variable.other.member");
    reveal_strlit("variable.other.property");
    reveal_strlit("variable.parameter");
    lemma_first_char_apart("punctuation.definition"@);
    assert("punctuation.definition"@.subrange(0, 11) =~= "punctuation"@);
    lemma_scope_prefix_trans_all("punctuation"@, "punctuation.definition"@);
    assert(scope_prefix("punctuation"@, stack[0]));
    assert(rules[10].1[9] == "punctuation"@);
    assert(matches_scope(stack, rules[10].1));
    assert(!matches_scope(stack, rules[0].1));
    assert(!matches_scope(stack, rules[1].1));
    assert(!matches_scope(stack, rules[2].1));
    assert(!matches_scope(stack, rules[3].1));
    assert(!matches_scope(stack, rules[4].1));
    assert(!matches_scope(stack, rules[5].1));
    assert(!matches_scope(stack, rules[6].1));
    assert(!matches_scope(stack, rules[7].1));
    assert(!matches_scope(stack, rules[8].1));
    assert(!matches_scope(stack, rules[9].1));
    lemma_first_rule_at(rules, stack, 10);
}

/// A stack of scopes all within `punctuation.separator` gets the class "tok-keyword".
proof fn lemma_class_of_punctuation_separator(stack: Seq<Seq<char>>)
    requires
        all_within(stack, "punctuation.separator"@),
    ensures
        token_class_spec(stack) == Some("tok-keyword"@),
{
    let rules = token_rules_spec();
    reveal_strlit("comment");
    reveal_strlit("constant");
    reveal_strlit("constant.character");
    reveal_strlit("constant.character.escape");
    reveal_strlit("constant.numeric");
    reveal_strlit("entity.name.class");
    reveal_strlit("entity.name.enum");
    reveal_strlit("entity.name.field");
    reveal_strlit("entity.name.function");
    reveal_strlit("entity.name.function.constructor");
    reveal_strlit("entity.name.function.preprocessor");
    reveal_strlit("entity.name.interface");
    reveal_strlit("entity.name.macro");
    reveal_strlit("entity.name.namespace");
    reveal_strlit("entity.name.struct");
    reveal_strlit("entity.name.trait");
    reveal_strlit("entity.name.type");
    reveal_strlit("entity.name.union");
    reveal_strlit("entity.other.attribute-name");
    reveal_strlit("keyword.control");
    reveal_strlit("meta.annotation");
    reveal_strlit("meta.preprocessor");
    reveal_strlit("punctuation");
    reveal_strlit("punctuation.separator");
    reveal_strlit("storage.modifier");
    reveal_strlit("storage.type");
    reveal_strlit("string");
    reveal_strlit("string.regexp");
    reveal_strlit("support.constant");
    reveal_strlit("support.constant.builtin");
    reveal_strlit("support.function");
    reveal_strlit("support.function.builtin");
    reveal_strlit("support.namespace");
    reveal_strlit("support.type");
    reveal_strlit("support.variable");
    reveal_strlit("variable.function");
    reveal_strlit("variable.other.member");
    reveal_strlit("variable.other.property");
    reveal_strlit("variable.parameter");
    lemma_first_char_apart("punctuation.separator"@);
    assert("punctuation.separator"@.subrange(0, 11) =~= "punctuation"@);
    lemma_scope_prefix_trans_all("punctuation"@, "punctuation.separator"@);
    assert(scope_prefix("punctuation"@, stack[0]));
    assert(rules[10].1[9] == "punctuation"@);
    assert(matches_scope(stack, rules[10].1));
    assert(!matches_scope(stack, rules[0].1));
    assert(!matches_scope(stack, rules[1].1));
    assert(!matches_scope(stack, rules[2].1));
    assert(!matches_scope(stack, rules[3].1));
    assert(!matches_scope(stack, rules[4].1));
    assert(!matches_scope(stack, rules[5].1));
    assert(!matches_scope(stack, rules[6].1));
    assert(!matches_scope(stack, rules[7].1));
    assert(!matches_scope(stack, rules[8].1));
    assert(!matches_scope(stack, rules[9].1));
    lemma_first_rule_at(rules, stack, 10);
}

/// A stack of scopes all within `punctuation.terminator` gets the class "tok-keyword".
proof fn lemma_class_of_punctuation_terminator(stack: Seq<Seq<char>>)
    requires
        all_within(stack, "punctuation.terminator"@),
    ensures
        token_class_spec(stack) == Some("tok-keyword"@),
{
    let rules = token_rules_spec();
    reveal_strlit("comment");
    reveal_strlit("constant");
    reveal_strlit("constant.character");
    reveal_strlit("constant.character.escape");
    reveal_strlit("constant.numeric");
    reveal_strlit("entity.name.class");
    reveal_strlit("entity.name.enum");
    reveal_strlit("entity.name.field");
    reveal_strlit("entity.name.function");
    reveal_strlit("entity.name.function.constructor");
    reveal_strlit("entity.name.function.preprocessor");
    reveal_strlit("entity.name.interface");
    reveal_strlit("entity.name.macro");
    reveal_strlit("entity.name.namespace");
    reveal_strlit("entity.name.struct");
    reveal_strlit("entity.name.trait");
    reveal_strlit("entity.name.type");
    reveal_strlit("entity.name.union");
    reveal_strlit("entity.other.attribute-name");
    reveal_strlit("keyword.control");
    reveal_strlit("meta.annotation");
    reveal_strlit("meta.preprocessor");
    reveal_strlit("punctuation");
    reveal_strlit("punctuation.terminator");
    reveal_strlit("storage.modifier");
    reveal_strlit("storage.type");
    reveal_strlit("string");
    reveal_strlit("string.regexp");
    reveal_strlit("support.constant");
    reveal_strlit("support.constant.builtin");
    reveal_strlit("support.function");
    reveal_strlit("support.function.builtin");
    reveal_strlit("support.namespace");
    reveal_strlit("support.type");
    reveal_strlit("support.variable");
    reveal_strlit("variable.function");
    reveal_strlit("variable.other.member");
    reveal_strlit("variable.other.property");
    reveal_strlit("variable.parameter");
    lemma_first_char_apart("punctuation.terminator"@);
    assert("punctuation.terminator"@.subrange(0, 11) =~= "punctuation"@);
    lemma_scope_prefix_trans_all("punctuation"@, "punctuation.terminator"@);
    assert(scope_prefix("punctuation"@, stack[0]));
    assert(rules[10].1[9] == "punctuation"@);
    assert(matches_scope(stack, rules[10].1));
    assert(!matches_scope(stack, rules[0].1));
    assert(!matches_scope(stack, rules[1].1));
    assert(!matches_scope(stack, rules[2].1));
    assert(!matches_scope(stack, rules[3].1));
    assert(!matches_scope(stack, rules[4].1));
    assert(!matches_scope(stack, rules[5].1));
    assert(!matches_scope(stack, rules[6].1));
    assert(!matches_scope(stack, rules[7].1));
    assert(!matches_scope(stack, rules[8].1));
    assert(!matches_scope(stack, rules[9].1));
    lemma_first_rule_at(rules, stack, 10);
}

/// A stack of scopes all within `punctuation.section` gets the class "tok-keyword".
proof fn lemma_class_of_punctuation_section(stack: Seq<Seq<char>>)
    requires
        all_within(stack, "punctuation.section"@),
    ensures
        token_class_spec(stack) == Some("tok-keyword"@),
{
    let rules = token_rules_spec();
    reveal_strlit("comment");
    reveal_strlit("constant");
    reveal_strlit("constant.character");
    reveal_strlit("constant.character.escape");
    reveal_strlit("constant.numeric");
    reveal_strlit("entity.name.class");
    reveal_strlit("entity.name.enum");
    reveal_strlit("entity.name.field");
    reveal_strlit("entity.name.function");
    reveal_strlit("entity.name.function.constructor");
    reveal_strlit("entity.name.function.preprocessor");
    reveal_strlit("entity.name.interface");
    reveal_strlit("entity.name.macro");
    reveal_strlit("entity.name.namespace");
    reveal_strlit("entity.name.struct");
    reveal_strlit("entity.name.trait");
    reveal_strlit("entity.name.type");
    reveal_strlit("entity.name.union");
    reveal_strlit("entity.other.attribute-name");
    reveal_strlit("keyword.control");
    reveal_strlit("meta.annotation");
    reveal_strlit("meta.preprocessor");
    reveal_strlit("punctuation");
    reveal_strlit("punctuation.section");
    reveal_strlit("storage.modifier");
    reveal_strlit("storage.type");
    reveal_strlit("string");
    reveal_strlit("string.regexp");
    reveal_strlit("support.constant");
    reveal_strlit("support.constant.builtin");
    reveal_strlit("support.function");
    reveal_strlit("support.function.builtin");
    reveal_strlit("support.namespace");
    reveal_strlit("support.type");
    reveal_strlit("support.variable");
    reveal_strlit("variable.function");
    reveal_strlit("variable.other.member");
    reveal_strlit("variable.other.property");
    reveal_strlit("variable.parameter");
    lemma_first_char_apart("punctuation.section"@);
    assert("punctuation.section"@.subrange(0, 11) =~= "punctuation"@);
    lemma_scope_prefix_trans_all("punctuation"@, "punctuation.section"@);
    assert(scope_prefix("punctuation"@, stack[0]));
    assert(rules[10].1[9] == "punctuation"@);
    assert(matches_scope(stack, rules[10].1));
    assert(!matches_scope(stack, rules[0].1));
    assert(!matches_scope(stack, rules[1].1));
    assert(!matches_scope(stack, rules[2].1));
    assert(!matches_scope(stack, rules[3].1));
    assert(!matches_scope(stack, rules[4].1));
    assert(!matches_scope(stack, rules[5].1));
    assert(!matches_scope(stack, rules[6].1));
    assert(!matches_scope(stack, rules[7].1));
    assert(!matches_scope(stack, rules[8].1));
    assert(!matches_scope(stack, rules[9].1));
    lemma_first_rule_at(rules, stack, 10);
}

/// A stack of scopes all within `punctuation.accessor` gets the class "tok-keyword".
proof fn lemma_class_of_punctuation_accessor(stack: Seq<Seq<char>>)
    requires
        all_within(stack, "punctuation.accessor"@),
    ensures
        token_class_spec(stack) == Some("tok-keyword"@),
{
    let rules = token_rules_spec();
    reveal_strlit("comment");
    reveal_strlit("constant");
    reveal_strlit("constant.character");
    reveal_strlit("constant.character.escape");
    reveal_strlit("constant.numeric");
    reveal_strlit("entity.name.class");
    reveal_strlit("entity.name.enum");
    reveal_strlit("entity.name.field");
    reveal_strlit("entity.name.function");
    reveal_strlit("entity.name.function.constructor");
    reveal_strlit("entity.name.function.preprocessor");
    reveal_strlit("entity.name.interface");
    reveal_strlit("entity.name.macro");
    reveal_strlit("entity.name.namespace");
    reveal_strlit("entity.name.struct");
    reveal_strlit("entity.name.trait");
    reveal_strlit("entity.name.type");
    reveal_strlit("entity.name.union");
    reveal_strlit("entity.other.attribute-name");
    reveal_strlit("keyword.control");
    reveal_strlit("meta.annotation");
    reveal_strlit("meta.preprocessor");
    reveal_strlit("punctuation");
    reveal_strlit("punctuation.accessor");
    reveal_strlit("storage.modifier");
    reveal_strlit("storage.type");
    reveal_strlit("string");
    reveal_strlit("string.regexp");
    reveal_strlit("support.constant");
    reveal_strlit("support.constant.builtin");
    reveal_strlit("support.function");
    reveal_strlit("support.function.builtin");
    reveal_strlit("support.namespace");
    reveal_strlit("support.type");
    reveal_strlit("support.variable");
    reveal_strlit("variable.function");
    reveal_strlit("variable.other.member");
    reveal_strlit("variable.other.property");
    reveal_strlit("variable.parameter");
    lemma_first_char_apart("punctuation.accessor"@);
    assert("punctuation.accessor"@.subrange(0, 11) =~= "punctuation"@);
    lemma_scope_prefix_trans_all("punctuation"@, "punctuation.accessor"@);
    assert(scope_prefix("punctuation"@, stack[0]));
    assert(rules[10].1[9] == "punctuation"@);
    assert(matches_scope(stack, rules[10].1));
    assert(!matches_scope(stack, rules[0].1));
    assert(!matches_scope(stack, rules[1].1));
    assert(!matches_scope(stack, rules[2].1));
    assert(!matches_scope(stack, rules[3].1));
    assert(!matches_scope(stack, rules[4].1));
    assert(!matches_scope(stack, rules[5].1));
    assert(!matches_scope(stack, rules[6].1));
    assert(!matches_scope(stack, rules[7].1));
    assert(!matches_scope(stack, rules[8].1));
    assert(!matches_scope(stack, rules[9].1));
    lemma_first_rule_at(rules, stack, 10);
}

/// A stack of scopes all within `variable.other.readwrite` gets the class "tok-variable".
proof fn lemma_class_of_variable_other_readwrite(stack: Seq<Seq<char>>)
    requires
        all_within(stack, "variable.other.readwrite"@),
    ensures
        token_class_spec(stack) == Some("tok-variable"@),
{
    let rules = token_rules_spec();
    reveal_strlit("comment");
    reveal_strlit("constant");
    reveal_strlit("constant.character");
    reveal_strlit("constant.character.escape");
    reveal_strlit("constant.language.boolean");
    reveal_strlit("constant.language.null");
    reveal_strlit("constant.numeric");
    reveal_strlit("entity.name.class");
    reveal_strlit("entity.name.enum");
    reveal_strlit("entity.name.field");
    reveal_strlit("entity.name.function");
    reveal_strlit("entity.name.function.constructor");
    reveal_strlit("entity.name.function.preprocessor");
    reveal_strlit("entity.name.interface");
    reveal_strlit("entity.name.macro");
    reveal_strlit("entity.name.namespace");
    reveal_strlit("entity.name.struct");
    reveal_strlit("entity.name.tag");
    reveal_strlit("entity.name.trait");
    reveal_strlit("entity.name.type");
    reveal_strlit("entity.name.union");
    reveal_strlit("entity.other.attribute-name");
    reveal_strlit("keyword");
    reveal_strlit("keyword.control");
    reveal_strlit("keyword.operator");
    reveal_strlit("meta.annotation");
    reveal_strlit("meta.preprocessor");
    reveal_strlit("punctuation");
    reveal_strlit("punctuation.accessor");
    reveal_strlit("punctuation.definition");
    reveal_strlit("punctuation.section");
    reveal_strlit("punctuation.separator");
    reveal_strlit("punctuation.terminator");
    reveal_strlit("storage.modifier");
    reveal_strlit("storage.type");
    reveal_strlit("storage.type.primitive");
    reveal_strlit("string");
    reveal_strlit("string.regexp");
    reveal_strlit("support.class.builtin");
    reveal_strlit("support.constant");
    reveal_strlit("support.constant.builtin");
    reveal_strlit("support.function");
    reveal_strlit("support.function.builtin");
    reveal_strlit("support.namespace");
    reveal_strlit("support.type");
    reveal_strlit("support.type.builtin");
    reveal_strlit("support.variable");
    reveal_strlit("variable");
    reveal_strlit("variable.function");
    reveal_strlit("variable.language");
    reveal_strlit("variable.other.member");
    reveal_strlit("variable.other.property");
    reveal_strlit("variable.other.readwrite");
    reveal_strlit("variable.parameter");
    lemma_first_char_apart("variable.other.readwrite"@);
    lemma_diverge_apart("variable.other.readwrite"@, "variable.function"@, 9);
    lemma_diverge_apart("variable.other.readwrite"@, "variable.parameter"@, 9);
    lemma_diverge_apart("variable.other.readwrite"@, "variable.other.property"@, 15);
    lemma_diverge_apart("variable.other.readwrite"@, "variable.other.member"@, 15);
    lemma_diverge_apart("variable.other.readwrite"@, "variable.language"@, 9);
    assert("variable.other.readwrite"@.subrange(0, 8) =~= "variable"@);
    lemma_scope_prefix_trans_all("variable"@, "variable.other.readwrite"@);
    assert(scope_prefix("variable"@, stack[0]));
    assert(rules[11].1[0] == "variable"@);
    assert(matches_scope(stack, rules[11].1));
    assert(!matches_scope(stack, rules[0].1));
    assert(!matches_scope(stack, rules[1].1));
    assert(!matches_scope(stack, rules[2].1));
    assert(!matches_scope(stack, rules[3].1));
    assert(!matches_scope(stack, rules[4].1));
    assert(!matches_scope(stack, rules[5].1));
    assert(!matches_scope(stack, rules[6].1));
    assert(!matches_scope(stack, rules[7].1));
    assert(!matches_scope(stack, rules[8].1));
    assert(!matches_scope(stack, rules[9].1));
    assert(!matches_scope(stack, rules[10].1));
    lemma_first_rule_at(rules, stack, 11);
}

/// Each family of scopes is given its own token class: a stack whose
/// scopes all lie within one of the scopes below gets that scope's class,
/// whatever the scopes go on to name (an attribute name is an attribute,
/// an annotation a decorator, a control keyword a control keyword, and so
/// on).
pub proof fn law_token_classes_of_scope_families(stack: Seq<Seq<char>>)
    ensures
        all_within(stack, "comment"@) ==> token_class_spec(stack) == Some("tok-comment"@),
        all_within(stack, "string"@) ==> token_class_spec(stack) == Some("tok-string"@),
        all_within(stack, "constant.character.escape"@) ==> token_class_spec(stack) == Some("tok-string"@),
        all_within(stack, "string.regexp"@) ==> token_class_spec(stack) == Some("tok-string"@),
        all_within(stack, "constant.numeric"@) ==> token_class_spec(stack) == Some("tok-number"@),
        all_within(stack, "entity.other.attribute-name"@) ==> token_class_spec(stack) == Some("tok-attribute"@),
        all_within(stack, "meta.annotation"@) ==> token_class_spec(stack) == Some("tok-decorator"@),
        all_within(stack, "entity.name.namespace"@) ==> token_class_spec(stack) == Some("tok-type"@),
        all_within(stack, "support.namespace"@) ==> token_class_spec(stack) == Some("tok-type"@),
        all_within(stack, "entity.name.type"@) ==> token_class_spec(stack) == Some("tok-type"@),
        all_within(stack, "support.type"@) ==> token_class_spec(stack) == Some("tok-type"@),
        all_within(stack, "storage.type"@) ==> token_class_spec(stack) == Some("tok-type"@),
        all_within(stack, "storage.modifier"@) ==> token_class_spec(stack) == Some("tok-type"@),
        all_within(stack, "entity.name.class"@) ==> token_class_spec(stack) == Some("tok-type"@),
        all_within(stack, "entity.name.struct"@) ==> token_class_spec(stack) == Some("tok-type"@),
        all_within(stack, "entity.name.enum"@) ==> token_class_spec(stack) == Some("tok-type"@),
        all_within(stack, "entity.name.union"@) ==> token_class_spec(stack) == Some("tok-type"@),
        all_within(stack, "entity.name.interface"@) ==> token_class_spec(stack) == Some("tok-type"@),
        all_within(stack, "entity.name.trait"@) ==> token_class_spec(stack) == Some("tok-type"@),
        all_within(stack, "entity.name.function.preprocessor"@) ==> token_class_spec(stack) == Some("tok-macro"@),
        all_within(stack, "entity.name.macro"@) ==> token_class_spec(stack) == Some("tok-macro"@),
        all_within(stack, "meta.preprocessor"@) ==> token_class_spec(stack) == Some("tok-macro"@),
        all_within(stack, "entity.name.function.constructor"@) ==> token_class_spec(stack) == Some("tok-function"@),
        all_within(stack, "variable.function"@) ==> token_class_spec(stack) == Some("tok-function"@),
        all_within(stack, "support.function"@) ==> token_class_spec(stack) == Some("tok-function"@),
        all_within(stack, "support.function.builtin"@) ==> token_class_spec(stack) == Some("tok-function"@),
        all_within(stack, "support.variable"@) ==> token_class_spec(stack) == Some("tok-function"@),
        all_within(stack, "support.constant.builtin"@) ==> token_class_spec(stack) == Some("tok-function"@),
        all_within(stack, "variable.parameter"@) ==> token_class_spec(stack) == Some("tok-constant"@),
        all_within(stack, "variable.other.property"@) ==> token_class_spec(stack) == Some("tok-constant"@),
        all_within(stack, "variable.other.member"@) ==> token_class_spec(stack) == Some("tok-constant"@),
        all_within(stack, "entity.name.field"@) ==> token_class_spec(stack) == Some("tok-constant"@),
        all_within(stack, "keyword.control"@) ==> token_class_spec(stack) == Some("tok-keyword-control"@),
        all_within(stack, "support.class.builtin"@) ==> token_class_spec(stack) == Some("tok-keyword"@),
        all_within(stack, "entity.name.tag"@) ==> token_class_spec(stack) == Some("tok-keyword"@),
        all_within(stack, "variable.language"@) ==> token_class_spec(stack) == Some("tok-keyword"@),
        all_within(stack, "keyword.operator"@) ==> token_class_spec(stack) == Some("tok-keyword"@),
        all_within(stack, "punctuation"@) ==> token_class_spec(stack) == Some("tok-keyword"@),
        all_within(stack, "punctuation.definition"@) ==> token_class_spec(stack) == Some("tok-keyword"@),
        all_within(stack, "punctuation.separator"@) ==> token_class_spec(stack) == Some("tok-keyword"@),
        all_within(stack, "punctuation.terminator"@) ==> token_class_spec(stack) == Some("tok-keyword"@),
        all_within(stack, "punctuation.section"@) ==> token_class_spec(stack) == Some("tok-keyword"@),
        all_within(stack, "punctuation.accessor"@) ==> token_class_spec(stack) == Some("tok-keyword"@),
        all_within(stack, "variable.other.readwrite"@) ==> token_class_spec(stack) == Some("tok-variable"@),
{
    if all_within(stack, "comment"@) {
        lemma_class_of_comment(stack);
    }
    if all_within(stack, "string"@) {
        lemma_class_of_string(stack);
    }
    if all_within(stack, "constant.character.escape"@) {
        lemma_class_of_constant_character_escape(stack);
    }
    if all_within(stack, "string.regexp"@) {
        lemma_class_of_string_regexp(stack);
    }
    if all_within(stack, "constant.numeric"@) {
        lemma_class_of_constant_numeric(stack);
    }
    if all_within(stack, "entity.other.attribute-name"@) {
        lemma_class_of_entity_other_attribute_name(stack);
    }
    if all_within(stack, "meta.annotation"@) {
        lemma_class_of_meta_annotation(stack);
    }
    if all_within(stack, "entity.name.namespace"@) {
        lemma_class_of_entity_name_namespace(stack);
    }
    if all_within(stack, "support.namespace"@) {
        lemma_class_of_support_namespace(stack);
    }
    if all_within(stack, "entity.name.type"@) {
        lemma_class_of_entity_name_type(stack);
    }
    if all_within(stack, "support.type"@) {
        lemma_class_of_support_type(stack);
    }
    if all_within(stack, "storage.type"@) {
        lemma_class_of_storage_type(stack);
    }
    if all_within(stack, "storage.modifier"@) {
        lemma_class_of_storage_modifier(stack);
    }
    if all_within(stack, "entity.name.class"@) {
        lemma_class_of_entity_name_class(stack);
    }
    if all_within(stack, "entity.name.struct"@) {
        lemma_class_of_entity_name_struct(stack);
    }
    if all_within(stack, "entity.name.enum"@) {
        lemma_class_of_entity_name_enum(stack);
    }
    if all_within(stack, "entity.name.union"@) {
        lemma_class_of_entity_name_union(stack);
    }
    if all_within(stack, "entity.name.interface"@) {
        lemma_class_of_entity_name_interface(stack);
    }
    if all_within(stack, "entity.name.trait"@) {
        lemma_class_of_entity_name_trait(stack);
    }
    if all_within(stack, "entity.name.function.preprocessor"@) {
        lemma_class_of_entity_name_function_preprocessor(stack);
    }
    if all_within(stack, "entity.name.macro"@) {
        lemma_class_of_entity_name_macro(stack);
    }
    if all_within(stack, "meta.preprocessor"@) {
        lemma_class_of_meta_preprocessor(stack);
    }
    if all_within(stack, "entity.name.function.constructor"@) {
        lemma_class_of_entity_name_function_constructor(stack);
    }
    if all_within(stack, "variable.function"@) {
        lemma_class_of_variable_function(stack);
    }
    if all_within(stack, "support.function"@) {
        lemma_class_of_support_function(stack);
    }
    if all_within(stack, "support.function.builtin"@) {
        lemma_class_of_support_function_builtin(stack);
    }
    if all_within(stack, "support.variable"@) {
        lemma_class_of_support_variable(stack);
    }
    if all_within(stack, "support.constant.builtin"@) {
        lemma_class_of_support_constant_builtin(stack);
    }
    if all_within(stack, "variable.parameter"@) {
        lemma_class_of_variable_parameter(stack);
    }
    if all_within(stack, "variable.other.property"@) {
        lemma_class_of_variable_other_property(stack);
    }
    if all_within(stack, "variable.other.member"@) {
        lemma_class_of_variable_other_member(stack);
    }
    if all_within(stack, "entity.name.field"@) {
        lemma_class_of_entity_name_field(stack);
    }
    if all_within(stack, "keyword.control"@) {
        lemma_class_of_keyword_control(stack);
    }
    if all_within(stack, "support.class.builtin"@) {
        lemma_class_of_support_class_builtin(stack);
    }
    if all_within(stack, "entity.name.tag"@) {
        lemma_class_of_entity_name_tag(stack);
    }
    if all_within(stack, "variable.language"@) {
        lemma_class_of_variable_language(stack);
    }
    if all_within(stack, "keyword.operator"@) {
        lemma_class_of_keyword_operator(stack);
    }
    if all_within(stack, "punctuation"@) {
        lemma_class_of_punctuation(stack);
    }
    if all_within(stack, "punctuation.definition"@) {
        lemma_class_of_punctuation_definition(stack);
    }
    if all_within(stack, "punctuation.separator"@) {
        lemma_class_of_punctuation_separator(stack);
    }
    if all_within(stack, "punctuation.terminator"@) {
        lemma_class_of_punctuation_terminator(stack);
    }
    if all_within(stack, "punctuation.section"@) {
        lemma_class_of_punctuation_section(stack);
    }
    if all_within(stack, "punctuation.accessor"@) {
        lemma_class_of_punctuation_accessor(stack);
    }
    if all_within(stack, "variable.other.readwrite"@) {
        lemma_class_of_variable_other_readwrite(stack);
    }
}

/// A token class and the scopes it applies to.
pub struct TokenRule {
    pub class: &'static str,
    pub prefixes: Vec<&'static str>,
}

/// Views of scope names.
pub open spec fn str_views(v: Seq<&'static str>) -> Seq<Seq<char>> {
    v.map_values(|s: &'static str| s@)
}

impl TokenRule {
    pub open spec fn view_rule(&self) -> (Seq<char>, Seq<Seq<char>>) {
        (self.class@, str_views(self.prefixes@))
    }
}

/// Views of token rules.
pub open spec fn rule_views(v: Seq<TokenRule>) -> Seq<(Seq<char>, Seq<Seq<char>>)> {
    v.map_values(|r: TokenRule| r.view_rule())
}

/// The table of token classes.
pub struct TokenScopes {
    pub rules: Vec<TokenRule>,
}

impl TokenScopes {
    /// Builds the table of token classes (see `token_rules_spec`).
    pub fn new() -> (r: TokenScopes)
        ensures
            rule_views(r.rules@) == token_rules_spec(),
    {
        let rules = vec![
            TokenRule { class: "tok-comment", prefixes: vec!["comment"] },
            TokenRule { class: "tok-string", prefixes: vec!["string", "constant.character.escape", "string.regexp"] },
            TokenRule { class: "tok-number", prefixes: vec!["constant.numeric"] },
            TokenRule { class: "tok-attribute", prefixes: vec!["entity.other.attribute-name"] },
            TokenRule { class: "tok-decorator", prefixes: vec!["meta.annotation"] },
            TokenRule {
                class: "tok-type",
                prefixes: vec![
                    "entity.name.namespace", "support.namespace", "entity.name.type", "support.type",
                    "storage.type", "storage.modifier", "entity.name.class", "entity.name.struct",
                    "entity.name.enum", "entity.name.union", "entity.name.interface", "entity.name.trait",
                ],
            },
            TokenRule {
                class: "tok-macro",
                prefixes: vec!["entity.name.function.preprocessor", "entity.name.macro", "meta.preprocessor"],
            },
            TokenRule {
                class: "tok-function",
                prefixes: vec![
                    "entity.name.function", "entity.name.function.constructor", "variable.function",
                    "support.function", "support.function.builtin", "support.variable",
                    "support.constant.builtin",
                ],
            },
            TokenRule {
                class: "tok-constant",
                prefixes: vec![
                    "constant", "support.constant", "constant.character", "variable.parameter",
                    "variable.other.property", "variable.other.member", "entity.name.field",
                ],
            },
            TokenRule { class: "tok-keyword-control", prefixes: vec!["keyword.control"] },
            TokenRule {
                class: "tok-keyword",
                prefixes: vec![
                    "keyword", "constant.language.boolean", "constant.language.null",
                    "storage.type.primitive", "support.type.builtin", "support.class.builtin",
                    "entity.name.tag", "variable.language", "keyword.operator", "punctuation",
                    "punctuation.definition", "punctuation.separator", "punctuation.terminator",
                    "punctuation.section", "punctuation.accessor",
                ],
            },
            TokenRule { class: "tok-variable", prefixes: vec!["variable"] },
        ];
        assert(rule_views(rules@) =~~= token_rules_spec());
        TokenScopes { rules }
    }
}

/// Whether the scope named `prefix` covers the scope named `scope` (see
/// `scope_prefix`).
pub fn is_scope_prefix(prefix: &str, scope: &str) -> (r: bool)
    ensures
        r == scope_prefix(prefix@, scope@),
{
    if !str_starts_with(scope, prefix) {
        proof {
            if scope@ == prefix@ {
                assert(scope@.subrange(0, prefix@.len() as int) =~= scope@);
            }
        }
        return false;
    }
    let p = chars_of(prefix);
    let s = chars_of(scope);
    if p.len() == s.len() {
        assert(s@ =~= p@) by {
            assert(s@.subrange(0, p@.len() as int) =~= s@);
        }
        return true;
    }
    let r = s[p.len()] == '.';
    proof {
        if scope@ == prefix@ {
            assert(false);
        }
    }
    r
}

/// Whether some scope on the stack is covered by one of the prefixes (see
/// `matches_scope`).
pub fn matches_prefixes(stack: &Vec<String>, prefixes: &Vec<&'static str>) -> (r: bool)
    ensures
        r == matches_scope(string_views(stack@), str_views(prefixes@)),
{
    let ghost sv = string_views(stack@);
    let ghost pv = str_views(prefixes@);
    let mut i: usize = 0;
    while i < stack.len()
        invariant
            i <= stack@.len(),
            sv == string_views(stack@),
            pv == str_views(prefixes@),
            forall|a: int, b: int| 0 <= a < i && 0 <= b < pv.len() ==> !#[trigger] scope_prefix(pv[b], sv[a]),
        decreases stack.len() - i,
    {
        let mut j: usize = 0;
        while j < prefixes.len()
            invariant
                i < stack@.len(),
                j <= prefixes@.len(),
                sv == string_views(stack@),
                pv == str_views(prefixes@),
                forall|a: int, b: int| 0 <= a < i && 0 <= b < pv.len() ==> !#[trigger] scope_prefix(pv[b], sv[a]),
                forall|b: int| 0 <= b < j ==> !#[trigger] scope_prefix(pv[b], sv[i as int]),
            decreases prefixes.len() - j,
        {
            if is_scope_prefix(prefixes[j], stack[i].as_str()) {
                assert(scope_prefix(pv[j as int], sv[i as int]));
                return true;
            }
            j += 1;
        }
        i += 1;
    }
    false
}

/// The class of a token whose scope stack has the given scope names, none
/// when no rule applies (see `token_class_spec`).
pub fn token_class(scopes: &TokenScopes, stack: &Vec<String>) -> (r: Option<&'static str>)
    requires
        rule_views(scopes.rules@) == token_rules_spec(),
    ensures
        match r {
            Some(c) => token_class_spec(string_views(stack@)) == Some(c@),
            None => token_class_spec(string_views(stack@)) is None,
        },
{
    let ghost rv = rule_views(scopes.rules@);
    let mut i: usize = 0;
    assert(rv.skip(0) =~= rv);
    while i < scopes.rules.len()
        invariant
            i <= scopes.rules@.len(),
            rv == rule_views(scopes.rules@),
            rv == token_rules_spec(),
            first_rule(rv.skip(i as int), string_views(stack@)) == token_class_spec(string_views(stack@)),
        decreases scopes.rules.len() - i,
    {
        assert(rv.skip(i as int)[0] == rv[i as int]);
        if matches_prefixes(stack, &scopes.rules[i].prefixes) {
            return Some(scopes.rules[i].class);
        }
        assert(rv.skip(i as int).drop_first() =~= rv.skip(i + 1));
        i += 1;
    }
    None
}

/// The texts joined end to end.
pub open spec fn joined(parts: Seq<Seq<char>>) -> Seq<char>
    decreases parts.len(),
{
    if parts.len() == 0 {
        Seq::empty()
    } else {
        joined(parts.drop_last()) + parts.last()
    }
}

/// Where region `k` of a line starts: the start of the line, then each
/// offset in turn, then the end of the line (`len` bytes).
pub open spec fn region_cut(offsets: Seq<usize>, len: nat, k: int) -> int {
    if k <= 0 {
        0
    } else if k <= offsets.len() {
        offsets[k - 1] as int
    } else {
        len as int
    }
}

/// Whether byte offsets cut a line into regions: they do not decrease, stay
/// within the line and fall between characters.
pub open spec fn regions_fit(bytes: Seq<u8>, offsets: Seq<usize>) -> bool {
    forall|k: int|
        0 <= k < offsets.len() ==> region_cut(offsets, bytes.len(), k) <= #[trigger] offsets[k] <= bytes.len()
            && is_char_boundary(bytes, offsets[k] as int)
}

/// Past a character boundary, the boundaries of the rest of a valid UTF-8
/// sequence are those of the whole, shifted.
proof fn lemma_boundary_shift(bytes: Seq<u8>, c: int, m: int)
    requires
        valid_utf8(bytes),
        0 <= c <= bytes.len(),
        is_char_boundary(bytes, c),
        0 <= m <= bytes.len() - c,
    ensures
        valid_utf8(bytes.subrange(c, bytes.len() as int)),
        is_char_boundary(bytes.subrange(c, bytes.len() as int), m) == is_char_boundary(bytes, c + m),
{
    let rest = bytes.subrange(c, bytes.len() as int);
    vstd::utf8::valid_utf8_split(bytes, c);
    vstd::utf8::is_char_boundary_start_end_of_seq(bytes);
    vstd::utf8::is_char_boundary_start_end_of_seq(rest);
    if m == 0 {
    } else if m == bytes.len() - c {
    } else {
        vstd::utf8::is_char_boundary_iff_not_is_continuation_byte(bytes, c + m);
        vstd::utf8::is_char_boundary_iff_not_is_continuation_byte(rest, m);
        assert(rest[m] == bytes[c + m]);
    }
}

/// Cuts a line into the regions between byte offsets, the way syntect's
/// `ScopeRegionIterator` does; none when the offsets do not fit the line.
pub fn split_regions(line: &str, offsets: &Vec<usize>) -> (r: Option<Vec<String>>)
    ensures
        r is Some <==> regions_fit(encode_utf8(line@), offsets@),
        r is Some ==> {
            let v = r.unwrap();
            &&& v@.len() == offsets@.len() + 1
            &&& joined(string_views(v@)) == line@
            &&& forall|k: int|
                0 <= k < v@.len() ==> encode_utf8(#[trigger] v@[k]@) == encode_utf8(line@).subrange(
                    region_cut(offsets@, encode_utf8(line@).len(), k),
                    region_cut(offsets@, encode_utf8(line@).len(), k + 1),
                )
        },
{
    let ghost bytes = encode_utf8(line@);
    let ghost len = bytes.len();
    proof {
        vstd::utf8::encode_utf8_valid_utf8(line@);
        vstd::utf8::is_char_boundary_start_end_of_seq(bytes);
        assert(bytes.subrange(0, len as int) =~= bytes);
    }
    let mut pieces: Vec<String> = Vec::new();
    let mut rest: &str = line;
    let mut consumed: usize = 0;
    let mut k: usize = 0;
    assert(joined(string_views(pieces@)) + rest@ =~= line@);
    while k < offsets.len()
        invariant
            k <= offsets@.len(),
            bytes == encode_utf8(line@),
            len == bytes.len(),
            valid_utf8(bytes),
            consumed <= len,
            consumed == region_cut(offsets@, len, k as int),
            is_char_boundary(bytes, consumed as int),
            encode_utf8(rest@) == bytes.subrange(consumed as int, len as int),
            pieces@.len() == k,
            forall|j: int|
                0 <= j < k ==> encode_utf8(#[trigger] pieces@[j]@) == bytes.subrange(
                    region_cut(offsets@, len, j),
                    region_cut(offsets@, len, j + 1),
                ),
            forall|j: int|
                0 <= j < k ==> region_cut(offsets@, len, j) <= #[trigger] offsets@[j] <= len
                    && is_char_boundary(bytes, offsets@[j] as int),
            joined(string_views(pieces@)) + rest@ == line@,
        decreases offsets.len() - k,
    {
        let off = offsets[k];
        if off < consumed {
            return None;
        }
        let mid = off - consumed;
        proof {
            if mid <= len - consumed {
                lemma_boundary_shift(bytes, consumed as int, mid as int);
            }
        }
        if !rest.is_char_boundary(mid) {
            return None;
        }
        let ghost rest_bytes = encode_utf8(rest@);
        let (a, b) = rest.split_at(mid);
        proof {
            vstd::utf8::encode_utf8_valid_utf8(rest@);
            vstd::utf8::decode_utf8_split(rest_bytes, mid as int);
            vstd::utf8::encode_utf8_decode_utf8(rest@);
            vstd::utf8::encode_utf8_decode_utf8(a@);
            vstd::utf8::encode_utf8_decode_utf8(b@);
            assert(rest@ == a@ + b@);
            assert(encode_utf8(a@) =~= bytes.subrange(consumed as int, off as int));
            assert(encode_utf8(b@) =~= bytes.subrange(off as int, len as int));
        }
        let ghost before = pieces@;
        pieces.push(a.to_owned());
        assert(string_views(pieces@).drop_last() =~= string_views(before));
        rest = b;
        consumed = off;
        k += 1;
    }
    let ghost before = pieces@;
    pieces.push(rest.to_owned());
    assert(string_views(pieces@).drop_last() =~= string_views(before));
    Some(pieces)
}

/// The HTML of one region of a line: nothing when it is empty, else its
/// escaped text, wrapped in a span of its token class when it has one.
pub open spec fn segment_html(text: Seq<char>, class: Option<Seq<char>>) -> Seq<char> {
    if text.len() == 0 {
        Seq::empty()
    } else {
        match class {
            Some(c) => "<span class=\""@ + c + "\">"@ + escaped(text) + "</span>"@,
            None => escaped(text),
        }
    }
}

/// The HTML of a line cut into regions, each with its token class.
pub open spec fn segments_html(segs: Seq<(Seq<char>, Option<Seq<char>>)>) -> Seq<char>
    decreases segs.len(),
{
    if segs.len() == 0 {
        Seq::empty()
    } else {
        segments_html(segs.drop_last()) + segment_html(segs.last().0, segs.last().1)
    }
}

/// The texts of the regions.
pub open spec fn segment_texts(segs: Seq<(Seq<char>, Option<Seq<char>>)>) -> Seq<Seq<char>> {
    segs.map_values(|s: (Seq<char>, Option<Seq<char>>)| s.0)
}

/// Whether a class is what some scope stack is given.
pub open spec fn class_of_some_stack(class: Option<Seq<char>>) -> bool {
    exists|names: Seq<Seq<char>>| #[trigger] token_class_spec(names) == class
}

/// Whether `html` is a highlighting of `line`: the line cut into regions,
/// each escaped and given the class of some scope stack.
pub open spec fn is_highlighting(line: Seq<char>, html: Seq<char>) -> bool {
    exists|segs: Seq<(Seq<char>, Option<Seq<char>>)>|
        #![trigger segments_html(segs)]
        joined(segment_texts(segs)) == line && segments_html(segs) == html && forall|k: int|
            0 <= k < segs.len() && segs[k].0.len() > 0 ==> class_of_some_stack(#[trigger] segs[k].1)
}

/// Appends the HTML of one region (see `segment_html`).
pub fn push_segment(html: &mut String, text: &str, class: Option<&'static str>)
    ensures
        final(html)@ == old(html)@ + segment_html(text@, opt_str_view(class)),
{
    if text.is_empty() {
        assert(old(html)@ + segment_html(text@, opt_str_view(class)) =~= old(html)@);
        return;
    }
    match class {
        Some(c) => {
            push_str(html, "<span class=\"");
            push_str(html, c);
            push_str(html, "\">");
            push_escaped(html, text);
            push_str(html, "</span>");
            assert(html@ =~= old(html)@ + segment_html(text@, opt_str_view(class)));
        },
        None => {
            push_escaped(html, text);
        },
    }
}

/// syntect's set of syntax definitions.
#[verifier::external_type_specification]
#[verifier::external_body]
pub struct ExSyntaxSet(SyntaxSet);

/// The syntaxes bundled with syntect (`SyntaxSet::load_defaults_nonewlines`),
/// the only ones files are highlighted with.
pub struct Syntaxes {
    set: SyntaxSet,
}

/// `SyntaxSet::load_defaults_nonewlines`: the syntaxes bundled with syntect.
#[verifier::external_body]
fn load_default_syntaxes() -> SyntaxSet {
    SyntaxSet::load_defaults_nonewlines()
}

impl Syntaxes {
    /// Loads the syntaxes bundled with syntect.
    pub fn new() -> Syntaxes {
        Syntaxes { set: load_default_syntaxes() }
    }
}

/// The name of the bundled syntax that `SyntaxSet::find_syntax_by_token`
/// finds for a token (a file extension, else a syntax name in any case).
pub uninterp spec fn token_syntax(token: Seq<char>) -> Option<Seq<char>>;

/// `SyntaxSet::find_syntax_by_token` on the bundled syntaxes: the name of
/// the syntax found for `token`, if any. The result is named, not stated.
#[verifier::external_body]
fn syntax_by_token(syntaxes: &Syntaxes, token: &str) -> (r: Option<String>)
    ensures
        opt_view(r) == token_syntax(token@),
{
    syntaxes.set.find_syntax_by_token(token).map(|s| s.name.clone())
}

/// The name of the bundled syntax that `SyntaxSet::find_syntax_by_first_line`
/// recognizes from a file's first line.
pub uninterp spec fn first_line_syntax(line: Seq<char>) -> Option<Seq<char>>;

/// `SyntaxSet::find_syntax_by_first_line` on the bundled syntaxes: the name
/// of the syntax that recognizes the first line, if any. The result is
/// named, not stated.
#[verifier::external_body]
fn syntax_by_first_line(syntaxes: &Syntaxes, line: &str) -> (r: Option<String>)
    ensures
        opt_view(r) == first_line_syntax(line@),
{
    syntaxes.set.find_syntax_by_first_line(line).map(|s| s.name.clone())
}

/// Whether a bundled syntax has the given name.
pub uninterp spec fn has_syntax(name: Seq<char>) -> bool;

/// `SyntaxSet::find_syntax_by_name` on the bundled syntaxes: the name of
/// the syntax found, which the lookup compares with `name` exactly; none
/// when no syntax has it. Whether one has it is named, not stated.
#[verifier::external_body]
fn syntax_by_name(syntaxes: &Syntaxes, name: &str) -> (r: Option<String>)
    ensures
        r is Some <==> has_syntax(name@),
        r is Some ==> r.unwrap()@ == name@,
{
    syntaxes.set.find_syntax_by_name(name).map(|s| s.name.clone())
}

/// The scope operations syntect parses from the lines of a file in the
/// bundled syntax with the given name, one entry per line, the parser
/// carried from line to line, up to the first line it fails on; none when
/// no syntax has the name.
pub uninterp spec fn syntect_ops(syntax: Seq<char>, lines: Seq<Seq<char>>) -> Seq<Seq<(usize, StackOp)>>;

/// `ParseState::new` on the bundled syntax with the given name, then
/// `ParseState::parse_line` on each line in turn, with the same set,
/// stopping at the first line it fails on; each operation converted to a
/// `StackOp` (a pushed scope by `Scope::build_string`). The syntax is looked
/// up here, in the set the lines are parsed with, so that the parser never
/// meets a syntax of another set. The result is named, not stated, beyond
/// one entry for each line parsed.
#[verifier::external_body]
fn parse_file(syntaxes: &Syntaxes, syntax: &str, lines: &Vec<String>) -> (r: Vec<Vec<(usize, StackOp)>>)
    ensures
        ops_views(r@) == syntect_ops(syntax@, string_views(lines@)),
        r@.len() <= lines@.len(),
{
    let mut parsed = Vec::new();
    let Some(found) = syntaxes.set.find_syntax_by_name(syntax) else { return parsed };
    let mut state = ParseState::new(found);
    for line in lines {
        let Ok(ops) = state.parse_line(line, &syntaxes.set) else { break };
        parsed.push(ops.into_iter().map(|(at, op)| (at, match op {
            ScopeStackOp::Push(scope) => StackOp::Push(scope.build_string()),
            ScopeStackOp::Pop(n) => StackOp::Pop(n),
            ScopeStackOp::Clear(ClearAmount::TopN(n)) => StackOp::ClearTop(n),
            ScopeStackOp::Clear(ClearAmount::All) => StackOp::ClearAll,
            ScopeStackOp::Restore => StackOp::Restore,
            ScopeStackOp::Noop => StackOp::Noop,
        })).collect());
    }
    parsed
}

/// A change of a scope stack, a pushed scope given by its dotted name.
pub enum StackOp {
    /// Pushes a scope.
    Push(String),
    /// Pops up to that many scopes.
    Pop(usize),
    /// Takes up to that many scopes off the top and keeps them aside.
    ClearTop(usize),
    /// Takes every scope off and keeps them aside.
    ClearAll,
    /// Puts back the scopes that were last kept aside.
    Restore,
    /// Changes nothing.
    Noop,
}

/// A stack of scope names, bottom first, with the groups of names that
/// clearing took off it, the last group on top.
pub struct ScopeNames {
    pub scopes: Vec<String>,
    pub cleared: Vec<Vec<String>>,
}

/// The names of each group, as sequences.
pub open spec fn group_views(groups: Seq<Vec<String>>) -> Seq<Seq<String>> {
    groups.map_values(|g: Vec<String>| g@)
}

impl View for ScopeNames {
    type V = (Seq<String>, Seq<Seq<String>>);

    open spec fn view(&self) -> (Seq<String>, Seq<Seq<String>>) {
        (self.scopes@, group_views(self.cleared@))
    }
}

/// How many of `len` scopes stay when `n` are taken off the top.
pub open spec fn kept(len: nat, n: usize) -> int {
    if n < len {
        len - n
    } else {
        0
    }
}

/// The stack after one change, as syntect's `ScopeStack::apply` makes it;
/// none when scopes are to be restored and none were kept aside.
pub open spec fn applied(st: (Seq<String>, Seq<Seq<String>>), op: StackOp) -> Option<
    (Seq<String>, Seq<Seq<String>>),
> {
    let scopes = st.0;
    let cleared = st.1;
    match op {
        StackOp::Push(s) => Some((scopes.push(s), cleared)),
        StackOp::Pop(n) => Some((scopes.take(kept(scopes.len(), n)), cleared)),
        StackOp::ClearTop(n) => Some(
            (scopes.take(kept(scopes.len(), n)), cleared.push(scopes.skip(kept(scopes.len(), n)))),
        ),
        StackOp::ClearAll => Some((Seq::empty(), cleared.push(scopes))),
        StackOp::Restore => if cleared.len() == 0 {
            None
        } else {
            Some((scopes + cleared.last(), cleared.drop_last()))
        },
        StackOp::Noop => Some(st),
    }
}

/// The stack of a file before its first line.
pub open spec fn empty_stack() -> (Seq<String>, Seq<Seq<String>>) {
    (Seq::empty(), Seq::empty())
}

impl ScopeNames {
    /// An empty stack with nothing kept aside.
    pub fn new() -> (r: ScopeNames)
        ensures
            r@ == empty_stack(),
    {
        let r = ScopeNames { scopes: Vec::new(), cleared: Vec::new() };
        assert(group_views(r.cleared@) =~= Seq::<Seq<String>>::empty());
        r
    }

    /// Applies a change (see `applied`); whether it could be applied. The
    /// stack is left as it was when it could not.
    pub fn apply(&mut self, op: &StackOp) -> (ok: bool)
        ensures
            ok == applied(old(self)@, *op) is Some,
            ok ==> final(self)@ == applied(old(self)@, *op).unwrap(),
            !ok ==> final(self)@ == old(self)@,
    {
        let ghost groups = self.cleared@;
        match op {
            StackOp::Push(s) => {
                self.scopes.push(s.clone());
                assert(self@ == applied(old(self)@, *op).unwrap());
            },
            StackOp::Pop(n) => {
                let keep: usize = if *n < self.scopes.len() {
                    self.scopes.len() - *n
                } else {
                    0
                };
                self.scopes.truncate(keep);
                assert(self@ == applied(old(self)@, *op).unwrap());
            },
            StackOp::ClearTop(n) => {
                let keep: usize = if *n < self.scopes.len() {
                    self.scopes.len() - *n
                } else {
                    0
                };
                let top = self.scopes.split_off(keep);
                assert(top@ == old(self)@.0.skip(keep as int));
                self.cleared.push(top);
                assert(group_views(self.cleared@) =~= group_views(groups).push(top@));
                assert(self@ == applied(old(self)@, *op).unwrap());
            },
            StackOp::ClearAll => {
                let all = self.scopes.split_off(0);
                assert(all@ =~= old(self)@.0);
                assert(self.scopes@ =~= Seq::<String>::empty());
                self.cleared.push(all);
                assert(group_views(self.cleared@) =~= group_views(groups).push(all@));
                assert(self@ == applied(old(self)@, *op).unwrap());
            },
            StackOp::Restore => {
                match self.cleared.pop() {
                    Some(mut top) => {
                        assert(group_views(self.cleared@) =~= group_views(groups).drop_last());
                        assert(top@ == group_views(groups).last());
                        self.scopes.append(&mut top);
                        assert(self@ == applied(old(self)@, *op).unwrap());
                    },
                    None => {
                        return false;
                    },
                }
            },
            StackOp::Noop => {},
        }
        true
    }
}

/// The syntax chosen for a file from what the lookups found: the one found
/// by the file's name, else by its extension, else by its first line, else
/// plain text; none when even plain text was not found.
pub open spec fn picked_syntax(
    by_name: Option<Seq<char>>,
    by_extension: Option<Seq<char>>,
    by_first_line: Option<Seq<char>>,
    plain: Option<Seq<char>>,
) -> Option<Seq<char>> {
    match by_name {
        Some(s) => Some(s),
        None => match by_extension {
            Some(s) => Some(s),
            None => match by_first_line {
                Some(s) => Some(s),
                None => plain,
            },
        },
    }
}

/// Picks the syntax for a file from what the lookups found (see
/// `picked_syntax`).
pub fn pick_syntax(
    by_name: Option<String>,
    by_extension: Option<String>,
    by_first_line: Option<String>,
    plain: Option<String>,
) -> (r: Option<String>)
    ensures
        opt_view(r) == picked_syntax(opt_view(by_name), opt_view(by_extension), opt_view(by_first_line), opt_view(plain)),
{
    match by_name {
        Some(s) => Some(s),
        None => match by_extension {
            Some(s) => Some(s),
            None => match by_first_line {
                Some(s) => Some(s),
                None => plain,
            },
        },
    }
}

/// The name of the bundled syntax a file is highlighted with: looked up by
/// the file's name, by its extension and by its first line when one is
/// given, else plain text (see `picked_syntax`).
pub open spec fn chosen_syntax(path: Seq<char>, first_line: Option<Seq<char>>) -> Option<Seq<char>> {
    picked_syntax(
        match file_name_of(path) {
            Some(n) => token_syntax(n),
            None => None,
        },
        match path_extension(path) {
            Some(e) => token_syntax(e),
            None => None,
        },
        match first_line {
            Some(l) => first_line_syntax(l),
            None => None,
        },
        if has_syntax("Plain Text"@) {
            Some("Plain Text"@)
        } else {
            None
        },
    )
}

/// The syntax for a file (see `chosen_syntax`).
fn syntax_for_path(syntaxes: &Syntaxes, path: &str, first_line: Option<&str>) -> (r: Option<String>)
    ensures
        opt_view(r) == chosen_syntax(path@, opt_str_view(first_line)),
{
    let by_name = match file_name(path) {
        Some(name) => syntax_by_token(syntaxes, name.as_str()),
        None => None,
    };
    let by_extension = match extension(path) {
        Some(ext) => syntax_by_token(syntaxes, ext.as_str()),
        None => None,
    };
    let by_first_line = match first_line {
        Some(line) => syntax_by_first_line(syntaxes, line),
        None => None,
    };
    pick_syntax(by_name, by_extension, by_first_line, syntax_by_name(syntaxes, "Plain Text"))
}

/// The byte offsets of scope operations.
pub open spec fn op_offsets(ops: Seq<(usize, StackOp)>) -> Seq<usize> {
    ops.map_values(|o: (usize, StackOp)| o.0)
}

fn offsets_of(ops: &Vec<(usize, StackOp)>) -> (r: Vec<usize>)
    ensures
        r@ == op_offsets(ops@),
{
    let mut offsets: Vec<usize> = Vec::new();
    let mut i: usize = 0;
    while i < ops.len()
        invariant
            i <= ops@.len(),
            offsets@ == op_offsets(ops@).take(i as int),
        decreases ops.len() - i,
    {
        offsets.push(ops[i].0);
        i += 1;
        assert(offsets@ =~= op_offsets(ops@).take(i as int));
    }
    assert(offsets@ =~= op_offsets(ops@));
    offsets
}

/// The stack after the first `k` operations of a line, starting from `st`;
/// none when one of them cannot be applied.
pub open spec fn stack_after(
    st: (Seq<String>, Seq<Seq<String>>),
    ops: Seq<(usize, StackOp)>,
    k: int,
) -> Option<(Seq<String>, Seq<Seq<String>>)>
    decreases k,
{
    if k <= 0 {
        Some(st)
    } else {
        match stack_after(st, ops, k - 1) {
            Some(s) => applied(s, ops[k - 1].1),
            None => None,
        }
    }
}

/// Once an operation cannot be applied, the line's stack stays undefined.
proof fn lemma_stack_after_stuck(st: (Seq<String>, Seq<Seq<String>>), ops: Seq<(usize, StackOp)>, j: int, k: int)
    requires
        0 <= j <= k,
        stack_after(st, ops, j) is None,
    ensures
        stack_after(st, ops, k) is None,
    decreases k - j,
{
    if j < k {
        lemma_stack_after_stuck(st, ops, j, k - 1);
    }
}

/// The texts of the regions that byte offsets cut a line into.
pub open spec fn line_regions(line: Seq<char>, offsets: Seq<usize>) -> Seq<Seq<char>> {
    let bytes = encode_utf8(line);
    Seq::new(
        (offsets.len() + 1) as nat,
        |k: int|
            decode_utf8(
                bytes.subrange(region_cut(offsets, bytes.len(), k), region_cut(offsets, bytes.len(), k + 1)),
            ),
    )
}

/// The HTML of the first `r` regions of a line: each escaped, in the class
/// of the scope stack after the operations before it.
pub open spec fn regions_html(
    st: (Seq<String>, Seq<Seq<String>>),
    ops: Seq<(usize, StackOp)>,
    regions: Seq<Seq<char>>,
    r: int,
) -> Seq<char>
    decreases r,
{
    if r <= 0 {
        Seq::empty()
    } else {
        regions_html(st, ops, regions, r - 1) + segment_html(
            regions[r - 1],
            token_class_spec(string_views(stack_after(st, ops, r - 1).unwrap().0)),
        )
    }
}

/// What a line gives from its scope operations and the stack carried over
/// from the lines before: its HTML and the stack after it; none when the
/// offsets do not cut the line into regions or an operation cannot be
/// applied.
pub open spec fn line_result(
    st: (Seq<String>, Seq<Seq<String>>),
    line: Seq<char>,
    ops: Seq<(usize, StackOp)>,
) -> Option<(Seq<char>, (Seq<String>, Seq<Seq<String>>))> {
    let offsets = op_offsets(ops);
    if !regions_fit(encode_utf8(line), offsets) {
        None
    } else {
        match stack_after(st, ops, ops.len() as int) {
            Some(end) => Some((regions_html(st, ops, line_regions(line, offsets), ops.len() + 1int), end)),
            None => None,
        }
    }
}

/// Highlights one line from the scope operations parsed from it, with the
/// stack carried over from the lines before: the line's HTML and the stack
/// after it (see `line_result`).
pub fn highlight_ops(scopes: &TokenScopes, stack: ScopeNames, line: &str, ops: &Vec<(usize, StackOp)>) -> (r:
    Option<(String, ScopeNames)>)
    requires
        rule_views(scopes.rules@) == token_rules_spec(),
    ensures
        match line_result(stack@, line@, ops@) {
            Some((html, end)) => r is Some && r.unwrap().0@ == html && r.unwrap().1@ == end,
            None => r is None,
        },
{
    let ghost st0 = stack@;
    let offsets = offsets_of(ops);
    let regions = match split_regions(line, &offsets) {
        Some(regions) => regions,
        None => {
            assert(!regions_fit(encode_utf8(line@), op_offsets(ops@)));
            assert(line_result(st0, line@, ops@) is None);
            return None;
        },
    };
    let ghost texts = line_regions(line@, op_offsets(ops@));
    proof {
        assert forall|k: int| 0 <= k < regions@.len() implies string_views(regions@)[k] == texts[k] by {
            vstd::utf8::encode_utf8_decode_utf8(regions@[k]@);
        }
        assert(string_views(regions@) =~= texts);
    }
    let mut current = stack;
    let mut html = String::new();
    let n = ops.len();
    let mut r: usize = 0;
    while r < regions.len()
        invariant
            r <= regions@.len(),
            regions@.len() == n + 1,
            n == ops@.len(),
            rule_views(scopes.rules@) == token_rules_spec(),
            string_views(regions@) == texts,
            texts.len() == n + 1,
            st0 == stack@,
            texts == line_regions(line@, op_offsets(ops@)),
            stack_after(st0, ops@, if r <= n { r as int } else { n as int }) == Some(current@),
            html@ == regions_html(st0, ops@, texts, r as int),
        decreases regions.len() - r,
    {
        let text = regions[r].as_str();
        assert(text@ == texts[r as int]);
        let class: Option<&'static str> = if text.is_empty() {
            None
        } else {
            token_class(scopes, &current.scopes)
        };
        proof {
            if text@.len() == 0 {
                assert(segment_html(text@, opt_str_view(class)) == segment_html(
                    text@,
                    token_class_spec(string_views(current@.0)),
                ));
            }
        }
        push_segment(&mut html, text, class);
        if r < n {
            let ghost cur = current@;
            if !current.apply(&ops[r].1) {
                proof {
                    assert(applied(cur, ops@[r as int].1) is None);
                    assert(stack_after(st0, ops@, r + 1) is None);
                    lemma_stack_after_stuck(st0, ops@, r + 1, n as int);
                    assert(line_result(st0, line@, ops@) is None);
                }
                return None;
            }
        }
        r += 1;
    }
    Some((html, current))
}

/// The scope operations of each parsed line, as sequences.
pub open spec fn ops_views(parsed: Seq<Vec<(usize, StackOp)>>) -> Seq<Seq<(usize, StackOp)>> {
    parsed.map_values(|v: Vec<(usize, StackOp)>| v@)
}

/// What the lines give from the scope operations parsed from them, the
/// stack carried from each line to the next: the HTML of each line; none
/// when a line has no operations parsed or `line_result` fails on one.
pub open spec fn lines_result(
    st: (Seq<String>, Seq<Seq<String>>),
    lines: Seq<Seq<char>>,
    parsed: Seq<Seq<(usize, StackOp)>>,
) -> Option<Seq<Seq<char>>>
    decreases lines.len(),
{
    if lines.len() == 0 {
        Some(Seq::empty())
    } else if parsed.len() == 0 {
        None
    } else {
        match line_result(st, lines[0], parsed[0]) {
            Some((html, next)) => match lines_result(next, lines.drop_first(), parsed.drop_first()) {
                Some(rest) => Some(seq![html] + rest),
                None => None,
            },
            None => None,
        }
    }
}

/// The lines already done put in front of what the rest gives.
pub open spec fn prepend_lines(done: Seq<Seq<char>>, rest: Option<Seq<Seq<char>>>) -> Option<Seq<Seq<char>>> {
    match rest {
        Some(r) => Some(done + r),
        None => None,
    }
}

/// The highlighted lines of a file from the scope operations parsed from
/// its lines, starting from an empty stack; every line escaped instead when
/// that fails (see `lines_result`).
pub open spec fn highlighted_file(lines: Seq<Seq<char>>, parsed: Seq<Seq<(usize, StackOp)>>) -> Seq<Seq<char>> {
    match lines_result(empty_stack(), lines, parsed) {
        Some(h) => h,
        None => escaped_lines(lines),
    }
}

/// What the lines give has one HTML string per line.
proof fn lemma_lines_result_len(
    st: (Seq<String>, Seq<Seq<String>>),
    lines: Seq<Seq<char>>,
    parsed: Seq<Seq<(usize, StackOp)>>,
)
    ensures
        lines_result(st, lines, parsed) is Some ==> lines_result(st, lines, parsed).unwrap().len() == lines.len(),
    decreases lines.len(),
{
    if lines.len() > 0 && parsed.len() > 0 {
        match line_result(st, lines[0], parsed[0]) {
            Some((html, next)) => lemma_lines_result_len(next, lines.drop_first(), parsed.drop_first()),
            None => {},
        }
    }
}

/// Highlights the lines of a file from the scope operations parsed from
/// them (see `highlighted_file`).
pub fn highlight_parsed(lines: &Vec<String>, parsed: &Vec<Vec<(usize, StackOp)>>) -> (r: Vec<String>)
    ensures
        string_views(r@) == highlighted_file(string_views(lines@), ops_views(parsed@)),
{
    let scopes = TokenScopes::new();
    let ghost ls = string_views(lines@);
    let ghost ps = ops_views(parsed@);
    let mut stack = ScopeNames::new();
    let mut out: Vec<String> = Vec::new();
    let mut i: usize = 0;
    assert(ls.skip(0) =~= ls);
    assert(ps.skip(0) =~= ps);
    assert(string_views(out@) =~= Seq::<Seq<char>>::empty());
    while i < lines.len()
        invariant
            i <= lines@.len(),
            i <= parsed@.len(),
            ls == string_views(lines@),
            ps == ops_views(parsed@),
            rule_views(scopes.rules@) == token_rules_spec(),
            lines_result(empty_stack(), ls, ps) == prepend_lines(
                string_views(out@),
                lines_result(stack@, ls.skip(i as int), ps.skip(i as int)),
            ),
        decreases lines.len() - i,
    {
        assert(ls.skip(i as int)[0] == lines@[i as int]@);
        assert(ls.skip(i as int).drop_first() =~= ls.skip(i + 1));
        if i >= parsed.len() {
            assert(ps.skip(i as int).len() == 0);
            return escape_lines(lines);
        }
        assert(ps.skip(i as int)[0] == parsed@[i as int]@);
        assert(ps.skip(i as int).drop_first() =~= ps.skip(i + 1));
        match highlight_ops(&scopes, stack, lines[i].as_str(), &parsed[i]) {
            Some((html, next)) => {
                let ghost before = string_views(out@);
                out.push(html);
                assert(string_views(out@) =~= before.push(html@));
                assert(before + (seq![html@] + lines_result(next@, ls.skip(i + 1), ps.skip(i + 1)).unwrap_or(
                    Seq::empty(),
                )) =~= before.push(html@) + lines_result(next@, ls.skip(i + 1), ps.skip(i + 1)).unwrap_or(
                    Seq::empty(),
                ));
                stack = next;
            },
            None => {
                return escape_lines(lines);
            },
        }
        i += 1;
    }
    assert(ls.skip(i as int).len() == 0);
    assert(string_views(out@) + Seq::<Seq<char>>::empty() =~= string_views(out@));
    out
}

/// The line a file's syntax may be recognized from: its first line, when
/// the hint is asked for and the file has one.
pub open spec fn hint_line(lines: Seq<Seq<char>>, use_first_line_hint: bool) -> Option<Seq<char>> {
    if use_first_line_hint && lines.len() > 0 {
        Some(lines[0])
    } else {
        None
    }
}

/// The scope operations syntect parses from a file's lines in the syntax
/// chosen for it (see `chosen_syntax`); none when no syntax was chosen.
pub open spec fn file_ops(path: Seq<char>, lines: Seq<Seq<char>>, use_first_line_hint: bool) -> Seq<
    Seq<(usize, StackOp)>,
> {
    match chosen_syntax(path, hint_line(lines, use_first_line_hint)) {
        Some(name) => syntect_ops(name, lines),
        None => Seq::empty(),
    }
}

/// The highlighted lines of the file at `path`: highlighted from the
/// operations syntect parses in the file's syntax (see `highlighted_file`).
pub open spec fn highlighted_lines(path: Seq<char>, lines: Seq<Seq<char>>, use_first_line_hint: bool) -> Seq<
    Seq<char>,
> {
    highlighted_file(lines, file_ops(path, lines, use_first_line_hint))
}

/// Highlights the lines of a file whose path is `path`, one HTML string per
/// line: the syntax is chosen for the file (see `chosen_syntax`), its lines
/// are parsed by syntect one after another until one fails, and the lines
/// are highlighted from the operations parsed (see `highlighted_lines`).
pub fn highlight_lines(syntaxes: &Syntaxes, path: &str, lines: &Vec<String>, use_first_line_hint: bool) -> (r: Vec<
    String,
>)
    ensures
        string_views(r@) == highlighted_lines(path@, string_views(lines@), use_first_line_hint),
        r@.len() == lines@.len(),
        forall|i: int| 0 <= i < lines@.len() ==> is_highlighting(#[trigger] lines@[i]@, r@[i]@),
{
    let ghost ls = string_views(lines@);
    let first_line: Option<&str> = if use_first_line_hint && lines.len() > 0 {
        Some(lines[0].as_str())
    } else {
        None
    };
    assert(opt_str_view(first_line) == hint_line(ls, use_first_line_hint));
    let parsed: Vec<Vec<(usize, StackOp)>> = match syntax_for_path(syntaxes, path, first_line) {
        Some(syntax) => parse_file(syntaxes, syntax.as_str(), lines),
        None => Vec::new(),
    };
    assert(ops_views(parsed@) == file_ops(path@, ls, use_first_line_hint));
    let r = highlight_parsed(lines, &parsed);
    proof {
        let ps = ops_views(parsed@);
        lemma_lines_result_len(empty_stack(), ls, ps);
        assert(string_views(r@).len() == r@.len());
        law_highlighting_keeps_the_text(ls, ps);
        assert forall|i: int| 0 <= i < lines@.len() implies is_highlighting(#[trigger] lines@[i]@, r@[i]@) by {
            assert(ls[i] == lines@[i]@);
            assert(string_views(r@)[i] == r@[i]@);
        }
    }
    r
}

/// Texts joined end to end, in two runs, are the two runs joined.
proof fn lemma_joined_concat(a: Seq<Seq<char>>, b: Seq<Seq<char>>)
    ensures
        joined(a + b) == joined(a) + joined(b),
    decreases b.len(),
{
    if b.len() == 0 {
        assert(a + b =~= a);
        assert(joined(a) + joined(b) =~= joined(a));
    } else {
        lemma_joined_concat(a, b.drop_last());
        assert((a + b).drop_last() =~= a + b.drop_last());
        assert(joined(a + b) =~= joined(a) + joined(b));
    }
}

/// The regions from the `k`-th on, joined, are the line from where the
/// `k`-th region starts.
proof fn lemma_regions_suffix(line: Seq<char>, offsets: Seq<usize>, k: int)
    requires
        regions_fit(encode_utf8(line), offsets),
        0 <= k <= offsets.len(),
    ensures
        ({
            let bytes = encode_utf8(line);
            joined(line_regions(line, offsets).skip(k)) == decode_utf8(
                bytes.subrange(region_cut(offsets, bytes.len(), k), bytes.len() as int),
            )
        }),
    decreases offsets.len() - k,
{
    let bytes = encode_utf8(line);
    let len = bytes.len();
    let regions = line_regions(line, offsets);
    let c = region_cut(offsets, len, k);
    let d = region_cut(offsets, len, k + 1);
    vstd::utf8::encode_utf8_valid_utf8(line);
    vstd::utf8::is_char_boundary_start_end_of_seq(bytes);
    assert(0 <= c <= d <= len && is_char_boundary(bytes, c) && is_char_boundary(bytes, d)) by {
        if k > 0 {
            assert(region_cut(offsets, len, k - 1) <= offsets[k - 1]);
        }
        if k < offsets.len() {
            assert(region_cut(offsets, len, k) <= offsets[k]);
        }
    }
    if k == offsets.len() {
        assert(regions.skip(k) =~= seq![regions[k]]);
        assert(seq![regions[k]].drop_last() =~= Seq::<Seq<char>>::empty());
        assert(joined(Seq::<Seq<char>>::empty()) == Seq::<char>::empty());
        assert(seq![regions[k]].last() == regions[k]);
        assert(joined(seq![regions[k]]) =~= regions[k]);
    } else {
        lemma_regions_suffix(line, offsets, k + 1);
        assert(regions.skip(k) =~= seq![regions[k]] + regions.skip(k + 1));
        lemma_joined_concat(seq![regions[k]], regions.skip(k + 1));
        assert(seq![regions[k]].drop_last() =~= Seq::<Seq<char>>::empty());
        assert(joined(Seq::<Seq<char>>::empty()) == Seq::<char>::empty());
        assert(seq![regions[k]].last() == regions[k]);
        assert(joined(seq![regions[k]]) =~= regions[k]);
        let rest = bytes.subrange(c, len as int);
        lemma_boundary_shift(bytes, c, d - c);
        vstd::utf8::decode_utf8_split(rest, d - c);
        assert(rest.subrange(0, d - c) =~= bytes.subrange(c, d));
        assert(rest.subrange(d - c, rest.len() as int) =~= bytes.subrange(d, len as int));
    }
}

/// Regions that fit a line, joined, give back the line.
proof fn lemma_regions_join(line: Seq<char>, offsets: Seq<usize>)
    requires
        regions_fit(encode_utf8(line), offsets),
    ensures
        joined(line_regions(line, offsets)) == line,
{
    lemma_regions_suffix(line, offsets, 0);
    let bytes = encode_utf8(line);
    assert(line_regions(line, offsets).skip(0) =~= line_regions(line, offsets));
    assert(bytes.subrange(0, bytes.len() as int) =~= bytes);
    vstd::utf8::encode_utf8_decode_utf8(line);
}

/// The regions of a line with the class each is given.
pub open spec fn classed_regions(
    st: (Seq<String>, Seq<Seq<String>>),
    ops: Seq<(usize, StackOp)>,
    regions: Seq<Seq<char>>,
) -> Seq<(Seq<char>, Option<Seq<char>>)> {
    Seq::new(
        regions.len(),
        |k: int| (regions[k], token_class_spec(string_views(stack_after(st, ops, k).unwrap().0))),
    )
}

/// The HTML of the first regions is that of the first classed regions.
proof fn lemma_regions_html_segments(
    st: (Seq<String>, Seq<Seq<String>>),
    ops: Seq<(usize, StackOp)>,
    regions: Seq<Seq<char>>,
    r: int,
)
    requires
        0 <= r <= regions.len(),
    ensures
        regions_html(st, ops, regions, r) == segments_html(classed_regions(st, ops, regions).take(r)),
    decreases r,
{
    let segs = classed_regions(st, ops, regions);
    if r == 0 {
        assert(segs.take(0) =~= Seq::<(Seq<char>, Option<Seq<char>>)>::empty());
    } else {
        lemma_regions_html_segments(st, ops, regions, r - 1);
        assert(segs.take(r).drop_last() =~= segs.take(r - 1));
    }
}

/// What a line gives is a highlighting of it: its regions, which join into
/// the line, each escaped in the class of a scope stack.
proof fn lemma_line_result_highlights(st: (Seq<String>, Seq<Seq<String>>), line: Seq<char>, ops: Seq<(usize, StackOp)>)
    requires
        line_result(st, line, ops) is Some,
    ensures
        is_highlighting(line, line_result(st, line, ops).unwrap().0),
{
    let offsets = op_offsets(ops);
    let regions = line_regions(line, offsets);
    let segs = classed_regions(st, ops, regions);
    lemma_regions_join(line, offsets);
    lemma_regions_html_segments(st, ops, regions, regions.len() as int);
    assert(segs.take(regions.len() as int) =~= segs);
    assert(segment_texts(segs) =~= regions);
    assert forall|k: int| 0 <= k < segs.len() && segs[k].0.len() > 0 implies class_of_some_stack(
        #[trigger] segs[k].1,
    ) by {
        let names = string_views(stack_after(st, ops, k).unwrap().0);
        assert(token_class_spec(names) == segs[k].1);
    }
    assert(segments_html(segs) == line_result(st, line, ops).unwrap().0);
}

/// What the lines give is, line by line, a highlighting of each.
proof fn lemma_lines_result_highlights(
    st: (Seq<String>, Seq<Seq<String>>),
    lines: Seq<Seq<char>>,
    parsed: Seq<Seq<(usize, StackOp)>>,
)
    requires
        lines_result(st, lines, parsed) is Some,
    ensures
        forall|i: int|
            0 <= i < lines.len() ==> is_highlighting(
                #[trigger] lines[i],
                lines_result(st, lines, parsed).unwrap()[i],
            ),
    decreases lines.len(),
{
    if lines.len() > 0 {
        let (html, next) = line_result(st, lines[0], parsed[0]).unwrap();
        lemma_line_result_highlights(st, lines[0], parsed[0]);
        lemma_lines_result_highlights(next, lines.drop_first(), parsed.drop_first());
        let rest = lines_result(next, lines.drop_first(), parsed.drop_first()).unwrap();
        lemma_lines_result_len(next, lines.drop_first(), parsed.drop_first());
        assert(lines_result(st, lines, parsed).unwrap() == seq![html] + rest);
        assert forall|i: int| 0 <= i < lines.len() implies is_highlighting(
            #[trigger] lines[i],
            lines_result(st, lines, parsed).unwrap()[i],
        ) by {
            if i > 0 {
                assert(lines[i] == lines.drop_first()[i - 1]);
                assert(lines_result(st, lines, parsed).unwrap()[i] == rest[i - 1]);
            }
        }
    }
}

/// Whatever syntect parsed from the lines of a file, each highlighted line
/// shows the line's own text: it is the line cut into regions, each escaped
/// and wrapped in the class of a scope stack, or the whole line escaped.
pub proof fn law_highlighting_keeps_the_text(lines: Seq<Seq<char>>, parsed: Seq<Seq<(usize, StackOp)>>)
    ensures
        highlighted_file(lines, parsed).len() == lines.len(),
        forall|i: int|
            0 <= i < lines.len() ==> is_highlighting(#[trigger] lines[i], highlighted_file(lines, parsed)[i]),
{
    lemma_lines_result_len(empty_stack(), lines, parsed);
    match lines_result(empty_stack(), lines, parsed) {
        Some(h) => {
            lemma_lines_result_highlights(empty_stack(), lines, parsed);
        },
        None => {
            assert forall|i: int| 0 <= i < lines.len() implies is_highlighting(
                #[trigger] lines[i],
                highlighted_file(lines, parsed)[i],
            ) by {
                law_escaped_line_is_highlighting(lines[i]);
            }
        },
    }
}

/// A text can be escaped piece by piece: the escape of two texts end to end
/// is their escapes end to end.
pub proof fn law_escaped_concat(a: Seq<char>, b: Seq<char>)
    ensures
        escaped(a + b) == escaped(a) + escaped(b),
    decreases b.len(),
{
    if b.len() == 0 {
        assert(a + b =~= a);
        assert(escaped(a) + escaped(b) =~= escaped(a));
    } else {
        law_escaped_concat(a, b.drop_last());
        assert((a + b).drop_last() =~= a + b.drop_last());
        assert((a + b).last() == b.last());
        assert(escaped(a + b) =~= escaped(a) + escaped(b));
    }
}

/// Whether a character opens or closes markup or an attribute value.
pub open spec fn is_markup_char(c: char) -> bool {
    c == '<' || c == '>' || c == '"' || c == '\''
}

/// Escaped text cannot open or close markup: it holds no '<', '>', '"' or
/// '\''.
pub proof fn law_escaped_is_inert(s: Seq<char>)
    ensures
        forall|i: int| 0 <= i < escaped(s).len() ==> !is_markup_char(#[trigger] escaped(s)[i]),
    decreases s.len(),
{
    if s.len() > 0 {
        law_escaped_is_inert(s.drop_last());
        reveal_strlit("&amp;");
        reveal_strlit("&lt;");
        reveal_strlit("&gt;");
        reveal_strlit("&quot;");
        reveal_strlit("&#39;");
        let head = escaped(s.drop_last());
        let tail = escape_char(s.last());
        assert forall|i: int| 0 <= i < escaped(s).len() implies !is_markup_char(#[trigger] escaped(s)[i]) by {
            if i < head.len() {
                assert(escaped(s)[i] == head[i]);
            } else {
                assert(escaped(s)[i] == tail[i - head.len()]);
            }
        }
    }
}

/// The escaped lines that stand in for a highlighting when syntect fails
/// are themselves a highlighting of each line: one region without a class.
pub proof fn law_escaped_line_is_highlighting(line: Seq<char>)
    ensures
        is_highlighting(line, escaped(line)),
{
    let segs = seq![(line, None::<Seq<char>>)];
    assert(segment_texts(segs) =~= seq![line]);
    assert(seq![line].drop_last() =~= Seq::<Seq<char>>::empty());
    assert(joined(Seq::<Seq<char>>::empty()) == Seq::<char>::empty());
    assert(joined(seq![line]) =~= line);
    assert(segs.drop_last() =~= Seq::<(Seq<char>, Option<Seq<char>>)>::empty());
    assert(segments_html(Seq::<(Seq<char>, Option<Seq<char>>)>::empty()) == Seq::<char>::empty());
    assert(segments_html(segs) =~= escaped(line));
    assert(token_class_spec(Seq::empty()) is None) by {
        reveal_with_fuel(first_rule, 13);
    }
    assert(class_of_some_stack(None));
}

} // verus!
