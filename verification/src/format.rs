//! Human-readable sizes and the size/label snippets of a file diff.

use vstd::prelude::*;
use vstd::arithmetic::div_mod::lemma_div_denominator;

use crate::text::{dec_nat, dec_string, digit_char, push_char, push_str};

verus! {

/// How a file was changed by a commit.
#[derive(Copy, Clone, Debug, PartialEq, Eq, Structural)]
pub enum CommitDiffChange {
    Added,
    Deleted,
    Modified,
}

/// 2^53: integers below this are exact in a double.
pub const EXACT_LIMIT: u128 = 9007199254740992;

/// The power of two by which `b` must be scaled down so that its significand
/// fits the 53 bits of a double (searching upwards from `p`).
pub open spec fn float_scale(b: nat, p: nat) -> nat
    decreases b / p,
    when p >= 1
{
    if b / p < EXACT_LIMIT {
        p
    } else {
        proof {
            lemma_div_denominator(b as int, p as int, 2);
        }
        float_scale(b, 2 * p)
    }
}

/// `q` rounded to nearest with ties to even, where the exact value is
/// `q + r / d` (`r < d`).
pub open spec fn round_half_even(q: nat, r: nat, d: nat) -> nat {
    if 2 * r > d || (2 * r == d && q % 2 == 1) {
        q + 1
    } else {
        q
    }
}

/// The value of the double nearest to `b` (what `b as f64` holds).
pub open spec fn f64_of(b: nat) -> nat {
    let p = float_scale(b, 1);
    round_half_even(b / p, b % p, p) * p
}

/// Number of times 1024 divides into a double of value `f` before it drops
/// below 1024, capped at the largest unit.
pub open spec fn unit_index(f: nat) -> nat {
    if f >= 1099511627776 {
        4
    } else if f >= 1073741824 {
        3
    } else if f >= 1048576 {
        2
    } else if f >= 1024 {
        1
    } else {
        0
    }
}

/// 1024 to the power of a unit index.
pub open spec fn unit_divisor(u: nat) -> nat {
    if u == 4 {
        1099511627776
    } else if u == 3 {
        1073741824
    } else if u == 2 {
        1048576
    } else if u == 1 {
        1024
    } else {
        1
    }
}

/// Name of a unit index.
pub open spec fn unit_name(u: nat) -> Seq<char> {
    if u == 4 {
        seq!['T', 'B']
    } else if u == 3 {
        seq!['G', 'B']
    } else if u == 2 {
        seq!['M', 'B']
    } else if u == 1 {
        seq!['K', 'B']
    } else {
        seq!['B']
    }
}

/// The text of a size: whole bytes below 1 KB, otherwise the value in the
/// largest unit it reaches, rounded to one decimal (ties to even).
pub open spec fn size_text(bytes: nat) -> Seq<char> {
    let f = f64_of(bytes);
    let u = unit_index(f);
    if u == 0 {
        dec_nat(bytes) + seq![' ', 'B']
    } else {
        let d = unit_divisor(u);
        let t = round_half_even((10 * f) / d, (10 * f) % d, d);
        dec_nat(t / 10) + seq!['.', digit_char(t % 10), ' '] + unit_name(u)
    }
}

proof fn lemma_scale_bound(b: nat, p: nat)
    requires
        p >= 1,
        b / p >= EXACT_LIMIT,
        b < 0x1_0000_0000_0000_0000,
    ensures
        p < 2048,
{
    assert(p * (b / p) <= b) by (nonlinear_arith)
        requires p >= 1;
    assert(p * EXACT_LIMIT <= p * (b / p)) by (nonlinear_arith)
        requires b / p >= EXACT_LIMIT, p >= 1;
}

fn push_unit_name(s: &mut String, u: u32)
    requires
        1 <= u <= 4,
    ensures
        final(s)@ == old(s)@ + unit_name(u as nat),
{
    if u == 4 {
        push_char(s, 'T');
    } else if u == 3 {
        push_char(s, 'G');
    } else if u == 2 {
        push_char(s, 'M');
    } else {
        push_char(s, 'K');
    }
    push_char(s, 'B');
}

/// Formats a byte count the way file sizes are shown ("512 B", "1.5 KB").
pub fn human_readable_size(bytes: u64) -> (r: String)
    ensures
        r@ == size_text(bytes as nat),
{
    let b: u128 = bytes as u128;
    let mut p: u128 = 1;
    while b / p >= EXACT_LIMIT
        invariant
            p >= 1,
            p < 4096,
            b == bytes as u128,
            float_scale(b as nat, p as nat) == float_scale(b as nat, 1),
        decreases b / p,
    {
        proof {
            lemma_scale_bound(b as nat, p as nat);
            lemma_div_denominator(b as int, p as int, 2);
        }
        p = 2 * p;
    }
    let m = b / p;
    let r = b % p;
    let m2 = if 2 * r > p || (2 * r == p && m % 2 == 1) { m + 1 } else { m };
    assert(m * p <= b) by (nonlinear_arith)
        requires m == b / p, p >= 1;
    assert(m2 * p <= b + p) by (nonlinear_arith)
        requires m2 <= m + 1, m * p <= b, p >= 1;
    let f = m2 * p;
    assert(f as nat == f64_of(bytes as nat));
    let u: u32 = if f >= 1099511627776 {
        4
    } else if f >= 1073741824 {
        3
    } else if f >= 1048576 {
        2
    } else if f >= 1024 {
        1
    } else {
        0
    };
    assert(u as nat == unit_index(f as nat));
    let mut s = String::new();
    if u == 0 {
        s = dec_string(bytes);
        push_char(&mut s, ' ');
        push_char(&mut s, 'B');
        assert(s@ =~= size_text(bytes as nat));
    } else {
        let d: u128 = if u == 4 {
            1099511627776
        } else if u == 3 {
            1073741824
        } else if u == 2 {
            1048576
        } else {
            1024
        };
        assert(d as nat == unit_divisor(u as nat));
        let q = (10 * f) / d;
        let rr = (10 * f) % d;
        let t = if 2 * rr > d || (2 * rr == d && q % 2 == 1) { q + 1 } else { q };
        assert(q as int <= (10 * f as int) / 1024) by (nonlinear_arith)
            requires q as int == (10 * f as int) / (d as int), d >= 1024;
        let whole = (t / 10) as u64;
        let frac = (t % 10) as u32;
        s = dec_string(whole);
        push_char(&mut s, '.');
        let c = digit_of(frac);
        push_char(&mut s, c);
        push_char(&mut s, ' ');
        push_unit_name(&mut s, u);
        assert(s@ =~= size_text(bytes as nat));
    }
    s
}

fn digit_of(d: u32) -> (c: char)
    requires
        d < 10,
    ensures
        c == digit_char(d as nat),
{
    match d {
        0 => '0',
        1 => '1',
        2 => '2',
        3 => '3',
        4 => '4',
        5 => '5',
        6 => '6',
        7 => '7',
        8 => '8',
        _ => '9',
    }
}

/// HTML snippet showing how a file's size changed: both sizes with an
/// arrow, "+new" for an added file, "-old" for a deleted one, nothing when
/// neither size is known.
pub open spec fn size_html(old_size: Option<u64>, new_size: Option<u64>) -> Seq<char> {
    match (old_size, new_size) {
        (Some(o), Some(n)) => "<span class=\"size-old\">"@ + size_text(o as nat)
            + "</span> <span class=\"size-arrow\">\u{2192}</span> <span class=\"size-new\">"@
            + size_text(n as nat) + "</span>"@,
        (None, Some(n)) => "<span class=\"size-new\">+"@ + size_text(n as nat) + "</span>"@,
        (Some(o), None) => "<span class=\"size-old\">-"@ + size_text(o as nat) + "</span>"@,
        (None, None) => Seq::empty(),
    }
}

/// Renders the size change of a file (see `size_html`).
pub fn size_html_from_sizes(old_size: Option<u64>, new_size: Option<u64>) -> (r: String)
    ensures
        r@ == size_html(old_size, new_size),
{
    let mut s = String::new();
    match (old_size, new_size) {
        (Some(o), Some(n)) => {
            push_str(&mut s, "<span class=\"size-old\">");
            let a = human_readable_size(o);
            push_str(&mut s, a.as_str());
            push_str(&mut s, "</span> <span class=\"size-arrow\">\u{2192}</span> <span class=\"size-new\">");
            let b = human_readable_size(n);
            push_str(&mut s, b.as_str());
            push_str(&mut s, "</span>");
        },
        (None, Some(n)) => {
            push_str(&mut s, "<span class=\"size-new\">+");
            let b = human_readable_size(n);
            push_str(&mut s, b.as_str());
            push_str(&mut s, "</span>");
        },
        (Some(o), None) => {
            push_str(&mut s, "<span class=\"size-old\">-");
            let a = human_readable_size(o);
            push_str(&mut s, a.as_str());
            push_str(&mut s, "</span>");
        },
        (None, None) => {},
    }
    assert(s@ =~= size_html(old_size, new_size));
    s
}

/// The label of a file diff that shows no lines: "empty added" for an added
/// empty file, "empty deleted" for a deleted empty file, "empty" for a
/// modification between two empty files; none for a binary file or a diff
/// with lines.
pub open spec fn empty_label(
    is_binary: bool,
    has_lines: bool,
    old_size: Option<u64>,
    new_size: Option<u64>,
    change: CommitDiffChange,
) -> Option<Seq<char>> {
    if is_binary || has_lines {
        None
    } else {
        match change {
            CommitDiffChange::Added => if new_size == Some(0u64) { Some("empty added"@) } else { None },
            CommitDiffChange::Deleted => if old_size == Some(0u64) { Some("empty deleted"@) } else { None },
            CommitDiffChange::Modified => if old_size == Some(0u64) && new_size == Some(0u64) {
                Some("empty"@)
            } else {
                None
            },
        }
    }
}

/// The view of an optional string slice.
pub open spec fn opt_str_view(o: Option<&str>) -> Option<Seq<char>> {
    match o {
        Some(s) => Some(s@),
        None => None,
    }
}

/// Computes the label of an empty file diff (see `empty_label`).
pub fn empty_diff_label(
    is_binary: bool,
    has_lines: bool,
    old_size: Option<u64>,
    new_size: Option<u64>,
    change: CommitDiffChange,
) -> (r: Option<&'static str>)
    ensures
        opt_str_view(r) == empty_label(is_binary, has_lines, old_size, new_size, change),
{
    if is_binary || has_lines {
        return None;
    }
    match change {
        CommitDiffChange::Added => if new_size == Some(0u64) { Some("empty added") } else { None },
        CommitDiffChange::Deleted => if old_size == Some(0u64) { Some("empty deleted") } else { None },
        CommitDiffChange::Modified => if old_size == Some(0u64) && new_size == Some(0u64) {
            Some("empty")
        } else {
            None
        },
    }
}

/// Sizes below one kilobyte are shown exactly, in bytes.
pub proof fn law_small_sizes_in_bytes(bytes: nat)
    requires
        bytes < 1024,
    ensures
        size_text(bytes) == dec_nat(bytes) + seq![' ', 'B'],
{
    assert(float_scale(bytes, 1) == 1);
    assert(f64_of(bytes) == bytes);
}

} // verus!
