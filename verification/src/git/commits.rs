//! What the pages show of a commit.

use vstd::prelude::*;

use crate::handlers::util::opt_view;
use crate::text::{chars_of, owned, string_of};

verus! {

/// A commit as the log and the commit page show it.
pub struct CommitInfo {
    pub hash: String,
    pub short_hash: String,
    pub author: String,
    pub author_email: String,
    pub message: String,
    pub time: i64,
}

/// Number of bytes of a character in UTF-8.
pub open spec fn utf8_width(c: char) -> nat {
    if (c as u32) < 0x80 {
        1
    } else if (c as u32) < 0x800 {
        2
    } else if (c as u32) < 0x10000 {
        3
    } else {
        4
    }
}

/// The leading characters of `s` that take exactly `n` bytes in UTF-8, if
/// `n` bytes end on a character boundary within `s`.
pub open spec fn byte_prefix(s: Seq<char>, n: int) -> Option<Seq<char>>
    decreases s.len(),
{
    if n == 0 {
        Some(Seq::empty())
    } else if s.len() == 0 || utf8_width(s[0]) > n {
        None
    } else {
        match byte_prefix(s.drop_first(), n - utf8_width(s[0])) {
            Some(p) => Some(seq![s[0]] + p),
            None => None,
        }
    }
}

/// The short form of a commit hash: its first eight bytes, or the whole
/// hash when it is shorter or eight bytes would split a character.
pub open spec fn short_hash_of(hash: Seq<char>) -> Seq<char> {
    match byte_prefix(hash, 8) {
        Some(p) => p,
        None => hash,
    }
}

fn width_of(c: char) -> (r: usize)
    ensures
        r == utf8_width(c),
{
    let u = c as u32;
    if u < 0x80 {
        1
    } else if u < 0x800 {
        2
    } else if u < 0x10000 {
        3
    } else {
        4
    }
}

/// Computes the short form of a commit hash (see `short_hash_of`).
pub fn short_hash(hash: &str) -> (r: String)
    ensures
        r@ == short_hash_of(hash@),
{
    let cs = chars_of(hash);
    let mut budget: usize = 8;
    let mut i: usize = 0;
    assert(cs@.skip(0) =~= cs@);
    assert(cs@.take(0) =~= Seq::<char>::empty());
    while budget > 0 && i < cs.len() && width_of(cs[i]) <= budget
        invariant
            cs@ == hash@,
            i <= cs.len(),
            budget <= 8,
            byte_prefix(hash@, 8) == match byte_prefix(cs@.skip(i as int), budget as int) {
                Some(p) => Some(cs@.take(i as int) + p),
                None => None,
            },
        decreases cs.len() - i,
    {
        let w = width_of(cs[i]);
        proof {
            let rest = cs@.skip(i as int);
            assert(rest[0] == cs@[i as int]);
            assert(rest.drop_first() =~= cs@.skip(i + 1));
            assert(cs@.take(i + 1) =~= cs@.take(i as int) + seq![cs@[i as int]]);
            match byte_prefix(cs@.skip(i + 1), budget - w) {
                Some(p) => {
                    assert(cs@.take(i as int) + (seq![cs@[i as int]] + p) =~= cs@.take(i + 1) + p);
                },
                None => {},
            }
        }
        budget -= w;
        i += 1;
    }
    if budget == 0 {
        let mut pre: Vec<char> = Vec::new();
        let mut k: usize = 0;
        while k < i
            invariant
                i <= cs.len(),
                k <= i,
                pre@ == cs@.take(k as int),
            decreases i - k,
        {
            pre.push(cs[k]);
            k += 1;
            assert(pre@ =~= cs@.take(k as int));
        }
        assert(cs@.take(i as int) + Seq::<char>::empty() =~= cs@.take(i as int));
        string_of(&pre)
    } else {
        owned(hash)
    }
}

/// What a commit page shows of a commit: its hash and short hash, its
/// author ("Unknown" when the name is missing or not UTF-8), the author's
/// email and the message (empty when missing), and its time.
pub fn commit_to_info(
    hash: String,
    author_name: Option<String>,
    author_email: Option<String>,
    message: Option<String>,
    time: i64,
) -> (r: CommitInfo)
    ensures
        r.hash@ == hash@,
        r.short_hash@ == short_hash_of(hash@),
        r.author@ == (match opt_view(author_name) {
            Some(n) => n,
            None => "Unknown"@,
        }),
        r.author_email@ == (match opt_view(author_email) {
            Some(e) => e,
            None => Seq::<char>::empty(),
        }),
        r.message@ == (match opt_view(message) {
            Some(m) => m,
            None => Seq::<char>::empty(),
        }),
        r.time == time,
{
    let short = short_hash(hash.as_str());
    CommitInfo {
        hash,
        short_hash: short,
        author: match author_name {
            Some(n) => n,
            None => owned("Unknown"),
        },
        author_email: match author_email {
            Some(e) => e,
            None => String::new(),
        },
        message: match message {
            Some(m) => m,
            None => String::new(),
        },
        time,
    }
}

/// A prefix found by bytes is a prefix of the text.
proof fn lemma_byte_prefix(s: Seq<char>, n: int)
    ensures
        byte_prefix(s, n) is Some ==> byte_prefix(s, n).unwrap().len() <= s.len() && byte_prefix(s, n).unwrap()
            == s.take(byte_prefix(s, n).unwrap().len() as int),
    decreases s.len(),
{
    if n != 0 && s.len() > 0 && utf8_width(s[0]) <= n {
        lemma_byte_prefix(s.drop_first(), n - utf8_width(s[0]));
        if byte_prefix(s, n) is Some {
            let p = byte_prefix(s.drop_first(), n - utf8_width(s[0])).unwrap();
            assert(p == s.drop_first().take(p.len() as int));
            assert(seq![s[0]] + p =~= s.take(p.len() + 1int));
        }
    } else if n == 0 {
        assert(Seq::<char>::empty() =~= s.take(0));
    }
}

/// The short form of a hash begins the hash: it is the hash itself or one
/// of its prefixes.
pub proof fn law_short_hash_is_prefix(hash: Seq<char>)
    ensures
        short_hash_of(hash).len() <= hash.len(),
        short_hash_of(hash) == hash.take(short_hash_of(hash).len() as int),
{
    lemma_byte_prefix(hash, 8);
    if byte_prefix(hash, 8) is None {
        assert(hash.take(hash.len() as int) =~= hash);
    }
}

} // verus!
