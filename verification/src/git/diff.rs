//! What a commit changed: per-file summaries, rendered diff lines, and the
//! binary-content test.

use vstd::prelude::*;

use crate::format::{
    empty_diff_label, empty_label, opt_str_view, size_html, size_html_from_sizes, CommitDiffChange,
};
use crate::templates::{DiffLine, DiffLineView, FileDiff};
use crate::text::{dec_int, dec_string_signed, owned};

verus! {

/// Totals over all files changed by a commit.
pub struct DiffStats {
    pub files_changed: usize,
    pub insertions: usize,
    pub deletions: usize,
}

/// One file changed by a commit.
#[derive(Clone)]
pub struct CommitDiffSummary {
    pub path: String,
    pub adds: usize,
    pub dels: usize,
    pub is_binary: bool,
    pub empty_label: Option<&'static str>,
    pub change: CommitDiffChange,
    pub old_size: Option<u64>,
    pub new_size: Option<u64>,
}

/// The kind of change git records for a file (git's delta status).
#[derive(Copy, Clone, Debug, PartialEq, Eq, Structural)]
pub enum DeltaStatus {
    Unmodified,
    Added,
    Deleted,
    Modified,
    Renamed,
    Copied,
    Ignored,
    Untracked,
    Typechange,
    Unreadable,
    Conflicted,
}

/// One side (before or after) of a changed file, as the diff describes it.
pub struct DiffFile {
    pub exists: bool,
    pub size: u64,
    pub is_binary: bool,
    pub path: Option<String>,
}

/// Whether a byte counts against text: a control byte other than newline,
/// carriage return and tab.
pub open spec fn is_non_text_byte(b: u8) -> bool {
    b < 32 && b != 10 && b != 13 && b != 9
}

/// Number of non-text bytes.
pub open spec fn non_text_count(s: Seq<u8>) -> nat
    decreases s.len(),
{
    if s.len() == 0 {
        0
    } else {
        non_text_count(s.drop_last()) + if is_non_text_byte(s.last()) { 1nat } else { 0nat }
    }
}

/// Content is binary when it holds a zero byte, or when more than one in a
/// hundred of its bytes (rounded down) are non-text bytes.
pub open spec fn is_binary_content(s: Seq<u8>) -> bool {
    s.len() > 0 && (s.contains(0u8) || non_text_count(s) > s.len() / 100)
}

proof fn lemma_non_text_count_prefix(s: Seq<u8>, i: int, j: int)
    requires
        0 <= i <= j <= s.len(),
    ensures
        non_text_count(s.take(i)) <= non_text_count(s.take(j)),
    decreases j - i,
{
    if i < j {
        lemma_non_text_count_prefix(s, i, j - 1);
        assert(s.take(j).drop_last() =~= s.take(j - 1));
    }
}

/// Whether file content is binary (see `is_binary_content`).
pub fn is_binary_bytes(content: &[u8]) -> (r: bool)
    ensures
        r == is_binary_content(content@),
        content@.contains(0u8) ==> r,
        (forall|i: int| 0 <= i < content@.len() ==> #[trigger] content@[i] >= 32 || content@[i] == 9 || content@[i]
            == 10 || content@[i] == 13) ==> !r,
{
    proof {
        if forall|i: int| 0 <= i < content@.len() ==> #[trigger] content@[i] >= 32 || content@[i] == 9 || content@[i]
            == 10 || content@[i] == 13 {
            law_text_bytes_are_not_binary(content@);
        }
    }
    if content.len() == 0 {
        return false;
    }
    let threshold = content.len() / 100;
    let mut non_text: usize = 0;
    let mut i: usize = 0;
    assert(content@.take(0) =~= Seq::<u8>::empty());
    while i < content.len()
        invariant
            i <= content.len(),
            threshold == content.len() / 100,
            non_text as nat == non_text_count(content@.take(i as int)),
            non_text <= threshold,
            forall|j: int| 0 <= j < i ==> content@[j] != 0u8,
        decreases content.len() - i,
    {
        let byte = content[i];
        assert(content@.take(i + 1).drop_last() =~= content@.take(i as int));
        if byte == 0 {
            assert(content@.contains(0u8));
            return true;
        }
        if byte < 32 && byte != 10 && byte != 13 && byte != 9 {
            non_text += 1;
            if non_text > threshold {
                proof {
                    lemma_non_text_count_prefix(content@, i + 1, content@.len() as int);
                    assert(content@.take(content@.len() as int) =~= content@);
                }
                return true;
            }
        }
        i += 1;
    }
    assert(content@.take(content@.len() as int) =~= content@);
    assert(!content@.contains(0u8));
    false
}

/// How a delta status shows in the summary: added, deleted, or modified for
/// everything else.
pub open spec fn change_of(status: DeltaStatus) -> CommitDiffChange {
    match status {
        DeltaStatus::Added => CommitDiffChange::Added,
        DeltaStatus::Deleted => CommitDiffChange::Deleted,
        _ => CommitDiffChange::Modified,
    }
}

/// Maps a delta status to the change shown (see `change_of`).
pub fn change_from_delta(status: DeltaStatus) -> (r: CommitDiffChange)
    ensures
        r == change_of(status),
{
    match status {
        DeltaStatus::Added => CommitDiffChange::Added,
        DeltaStatus::Deleted => CommitDiffChange::Deleted,
        _ => CommitDiffChange::Modified,
    }
}

/// Whether a patch shows any line, and its added and deleted line counts;
/// no patch shows nothing.
pub open spec fn patch_stats_spec(line_stats: Option<(usize, usize, usize)>) -> (bool, usize, usize) {
    match line_stats {
        None => (false, 0, 0),
        Some((context, additions, deletions)) => (context + additions + deletions > 0, additions, deletions),
    }
}

/// Counts of a patch given its context, added and deleted line counts (see
/// `patch_stats_spec`).
pub fn patch_stats(line_stats: Option<(usize, usize, usize)>) -> (r: (bool, usize, usize))
    ensures
        r == patch_stats_spec(line_stats),
{
    match line_stats {
        None => (false, 0, 0),
        Some((context, additions, deletions)) => (context > 0 || additions > 0 || deletions > 0, additions, deletions),
    }
}

/// The path shown for a changed file: the new path, else the old one, else
/// nothing.
pub open spec fn delta_path_spec(old_path: Option<Seq<char>>, new_path: Option<Seq<char>>) -> Seq<char> {
    match new_path {
        Some(p) => p,
        None => match old_path {
            Some(p) => p,
            None => Seq::empty(),
        },
    }
}

fn opt_string_view(o: &Option<String>) -> (r: Option<String>)
    ensures
        r == *o,
{
    match o {
        Some(s) => Some(s.clone()),
        None => None,
    }
}

fn delta_path(old_file: &DiffFile, new_file: &DiffFile) -> (r: String)
    ensures
        r@ == delta_path_spec(
            crate::handlers::util::opt_view(old_file.path),
            crate::handlers::util::opt_view(new_file.path),
        ),
{
    match opt_string_view(&new_file.path) {
        Some(p) => p,
        None => match opt_string_view(&old_file.path) {
            Some(p) => p,
            None => String::new(),
        },
    }
}

/// The size of one side of a change, when that side exists.
pub open spec fn side_size(f: DiffFile) -> Option<u64> {
    if f.exists {
        Some(f.size)
    } else {
        None
    }
}

/// Summarises one changed file from both sides of the change, its status
/// and its patch's line counts.
pub fn diff_summary(
    old_file: &DiffFile,
    new_file: &DiffFile,
    status: DeltaStatus,
    line_stats: Option<(usize, usize, usize)>,
) -> (r: CommitDiffSummary)
    ensures
        r.path@ == delta_path_spec(
            crate::handlers::util::opt_view(old_file.path),
            crate::handlers::util::opt_view(new_file.path),
        ),
        new_file.path is Some ==> r.path@ == new_file.path.unwrap()@,
        new_file.path is None && old_file.path is Some ==> r.path@ == old_file.path.unwrap()@,
        r.adds == patch_stats_spec(line_stats).1,
        r.dels == patch_stats_spec(line_stats).2,
        r.is_binary == (old_file.is_binary || new_file.is_binary),
        r.change == change_of(status),
        r.old_size == side_size(*old_file),
        r.new_size == side_size(*new_file),
        opt_str_view(r.empty_label) == empty_label(
            old_file.is_binary || new_file.is_binary,
            patch_stats_spec(line_stats).0,
            side_size(*old_file),
            side_size(*new_file),
            change_of(status),
        ),
{
    let old_size = if old_file.exists { Some(old_file.size) } else { None };
    let new_size = if new_file.exists { Some(new_file.size) } else { None };
    let path = delta_path(old_file, new_file);
    let (has_lines, adds, dels) = patch_stats(line_stats);
    let is_binary = old_file.is_binary || new_file.is_binary;
    let change = change_from_delta(status);
    CommitDiffSummary {
        path,
        adds,
        dels,
        is_binary,
        empty_label: empty_diff_label(is_binary, has_lines, old_size, new_size, change),
        change,
        old_size,
        new_size,
    }
}

/// One line of a patch hunk: its origin marker and its raw content.
pub struct PatchLine {
    pub origin: char,
    pub content: Vec<u8>,
}

/// One hunk of a patch: where it starts on each side, and its lines.
pub struct PatchHunk {
    pub old_start: u32,
    pub new_start: u32,
    pub lines: Vec<PatchLine>,
}

/// Text that lossy UTF-8 decoding gives for some bytes (each invalid
/// sequence becomes U+FFFD).
pub uninterp spec fn lossy_utf8(bytes: Seq<u8>) -> Seq<char>;

/// Decodes bytes as UTF-8, replacing invalid sequences
/// (`String::from_utf8_lossy`). The result is named; for valid UTF-8 it is
/// the decoded text, as the documentation states.
#[verifier::external_body]
pub(crate) fn utf8_lossy(bytes: &[u8]) -> (r: String)
    ensures
        r@ == lossy_utf8(bytes@),
        vstd::utf8::valid_utf8(bytes@) ==> r@ == vstd::utf8::decode_utf8(bytes@),
{
    String::from_utf8_lossy(bytes).into_owned()
}

/// `s` without any trailing `c`.
pub open spec fn trim_end_char(s: Seq<char>, c: char) -> Seq<char>
    decreases s.len(),
{
    if s.len() > 0 && s.last() == c {
        trim_end_char(s.drop_last(), c)
    } else {
        s
    }
}

fn trim_end_char_exec(s: &Vec<char>, c: char) -> (r: usize)
    ensures
        r <= s.len(),
        s@.take(r as int) == trim_end_char(s@, c),
{
    let mut n = s.len();
    assert(s@.take(n as int) =~= s@);
    while n > 0 && s[n - 1] == c
        invariant
            n <= s.len(),
            trim_end_char(s@.take(n as int), c) == trim_end_char(s@, c),
        decreases n,
    {
        assert(s@.take(n as int).drop_last() =~= s@.take(n - 1));
        n -= 1;
    }
    n
}

/// The text of a diff line: its content decoded, without trailing newlines
/// and then without trailing carriage returns.
pub open spec fn line_text(content: Seq<u8>) -> Seq<char> {
    trim_end_char(trim_end_char(lossy_utf8(content), '\n'), '\r')
}

/// Text of a diff line (see `line_text`).
pub fn diff_line_text(content: &[u8]) -> (r: String)
    ensures
        r@ == line_text(content@),
{
    let decoded = utf8_lossy(content);
    let cs = crate::text::chars_of(decoded.as_str());
    let n1 = trim_end_char_exec(&cs, '\n');
    let mut cs2: Vec<char> = Vec::new();
    let mut i: usize = 0;
    while i < n1
        invariant
            n1 <= cs.len(),
            i <= n1,
            cs2@ == cs@.take(i as int),
        decreases n1 - i,
    {
        cs2.push(cs[i]);
        i += 1;
        assert(cs2@ =~= cs@.take(i as int));
    }
    let n2 = trim_end_char_exec(&cs2, '\r');
    let mut out = String::new();
    let mut j: usize = 0;
    while j < n2
        invariant
            n2 <= cs2.len(),
            j <= n2,
            out@ == cs2@.take(j as int),
        decreases n2 - j,
    {
        crate::text::push_char(&mut out, cs2[j]);
        j += 1;
        assert(out@ =~= cs2@.take(j as int));
    }
    out
}

/// A line number as git's 32-bit start is read into a signed 32-bit number.
pub open spec fn as_i32(u: u32) -> int {
    if u > 0x7fff_ffff {
        u - 0x1_0000_0000
    } else {
        u as int
    }
}

/// Abstract value of a patch line.
pub open spec fn line_view(l: PatchLine) -> (char, Seq<u8>) {
    (l.origin, l.content@)
}

/// A rendered line.
pub open spec fn rendered(class: Seq<char>, num: int, content: Seq<u8>) -> DiffLineView {
    DiffLineView { class, num: dec_int(num), text: line_text(content) }
}

/// The lines of a hunk rendered with their line numbers, and the old and
/// new line numbers that follow: added lines ('+', '>') carry the new
/// number, removed lines ('-', '<') the old one, context lines (' ', '=')
/// the new one and advance both; other markers are skipped.
pub open spec fn hunk_render(old_start: int, new_start: int, lines: Seq<(char, Seq<u8>)>) -> (Seq<DiffLineView>, int, int)
    decreases lines.len(),
{
    if lines.len() == 0 {
        (Seq::empty(), old_start, new_start)
    } else {
        let (out, o, n) = hunk_render(old_start, new_start, lines.drop_last());
        let (origin, content) = lines.last();
        if origin == '+' || origin == '>' {
            (out.push(rendered("line-add"@, n, content)), o, n + 1)
        } else if origin == '-' || origin == '<' {
            (out.push(rendered("line-remove"@, o, content)), o + 1, n)
        } else if origin == ' ' || origin == '=' {
            (out.push(rendered(""@, n, content)), o + 1, n + 1)
        } else {
            (out, o, n)
        }
    }
}

proof fn lemma_hunk_render_monotone(o0: int, n0: int, lines: Seq<(char, Seq<u8>)>, k: int)
    requires
        0 <= k <= lines.len(),
    ensures
        hunk_render(o0, n0, lines.take(k)).1 <= hunk_render(o0, n0, lines).1,
        hunk_render(o0, n0, lines.take(k)).2 <= hunk_render(o0, n0, lines).2,
    decreases lines.len() - k,
{
    if k < lines.len() {
        lemma_hunk_render_monotone(o0, n0, lines, k + 1);
        assert(lines.take(k + 1).drop_last() =~= lines.take(k));
    } else {
        assert(lines.take(k) =~= lines);
    }
}

/// The abstract lines of a hunk.
pub open spec fn hunk_lines(h: PatchHunk) -> Seq<(char, Seq<u8>)> {
    h.lines@.map_values(|l: PatchLine| line_view(l))
}

/// Rendering of one hunk.
pub open spec fn render_hunk(h: PatchHunk) -> (Seq<DiffLineView>, int, int) {
    hunk_render(as_i32(h.old_start), as_i32(h.new_start), hunk_lines(h))
}

/// All hunks rendered in order.
pub open spec fn patch_render(hunks: Seq<PatchHunk>) -> Seq<DiffLineView>
    decreases hunks.len(),
{
    if hunks.len() == 0 {
        Seq::empty()
    } else {
        patch_render(hunks.drop_last()) + render_hunk(hunks.last()).0
    }
}

/// Line numbers of a hunk stay within a signed 32-bit number.
pub open spec fn hunk_numbers_fit(h: PatchHunk) -> bool {
    render_hunk(h).1 <= 0x7fff_ffff && render_hunk(h).2 <= 0x7fff_ffff
}

/// Views of rendered lines.
pub open spec fn line_views(v: Seq<DiffLine>) -> Seq<DiffLineView> {
    v.map_values(|l: DiffLine| l@)
}

/// Renders the hunks of a patch into numbered lines (see `hunk_render`).
pub fn render_patch_lines(hunks: &Vec<PatchHunk>) -> (r: Vec<DiffLine>)
    requires
        forall|h: int| 0 <= h < hunks.len() ==> hunk_numbers_fit(#[trigger] hunks@[h]),
    ensures
        line_views(r@) == patch_render(hunks@),
{
    let mut lines: Vec<DiffLine> = Vec::new();
    let mut h: usize = 0;
    assert(hunks@.take(0) =~= Seq::<PatchHunk>::empty());
    while h < hunks.len()
        invariant
            h <= hunks.len(),
            forall|k: int| 0 <= k < hunks.len() ==> hunk_numbers_fit(#[trigger] hunks@[k]),
            line_views(lines@) == patch_render(hunks@.take(h as int)),
        decreases hunks.len() - h,
    {
        let hunk = &hunks[h];
        let ghost o0 = as_i32(hunk.old_start);
        let ghost n0 = as_i32(hunk.new_start);
        let ghost hl = hunk_lines(*hunk);
        let ghost base = line_views(lines@);
        let mut old_line: i64 = if hunk.old_start > 0x7fff_ffff {
            hunk.old_start as i64 - 0x1_0000_0000
        } else {
            hunk.old_start as i64
        };
        let mut new_line: i64 = if hunk.new_start > 0x7fff_ffff {
            hunk.new_start as i64 - 0x1_0000_0000
        } else {
            hunk.new_start as i64
        };
        let mut k: usize = 0;
        assert(hl.take(0) =~= Seq::<(char, Seq<u8>)>::empty());
        while k < hunk.lines.len()
            invariant
                k <= hunk.lines.len(),
                hl == hunk_lines(*hunk),
                hunk_numbers_fit(*hunk),
                hunk_render(o0, n0, hl) == render_hunk(*hunk),
                ({
                    let st = hunk_render(o0, n0, hl.take(k as int));
                    &&& line_views(lines@) == base + st.0
                    &&& old_line as int == st.1
                    &&& new_line as int == st.2
                }),
            decreases hunk.lines.len() - k,
        {
            proof {
                lemma_hunk_render_monotone(o0, n0, hl, k + 1);
                assert(hl.take(k + 1).drop_last() =~= hl.take(k as int));
                assert(hl.take(k + 1).last() == line_view(hunk.lines@[k as int]));
            }
            let line = &hunk.lines[k];
            let origin = line.origin;
            let ghost before = lines@;
            if origin == '+' || origin == '>' {
                let text = diff_line_text(line.content.as_slice());
                lines.push(DiffLine { class: "line-add", num: dec_string_signed(new_line), text });
                new_line += 1;
            } else if origin == '-' || origin == '<' {
                let text = diff_line_text(line.content.as_slice());
                lines.push(DiffLine { class: "line-remove", num: dec_string_signed(old_line), text });
                old_line += 1;
            } else if origin == ' ' || origin == '=' {
                let text = diff_line_text(line.content.as_slice());
                lines.push(DiffLine { class: "", num: dec_string_signed(new_line), text });
                old_line += 1;
                new_line += 1;
            }
            proof {
                if lines@.len() > before.len() {
                    assert(line_views(lines@) =~= line_views(before).push(lines@[before.len() as int]@));
                } else {
                    assert(lines@ == before);
                }
            }
            k += 1;
        }
        proof {
            assert(hl.take(hunk.lines.len() as int) =~= hl);
            assert(hunks@.take(h + 1).drop_last() =~= hunks@.take(h as int));
            assert(hunks@.take(h + 1).last() == hunks@[h as int]);
        }
        h += 1;
    }
    assert(hunks@.take(hunks.len() as int) =~= hunks@);
    lines
}

/// The diff of one file from its summary and its rendered lines (none when
/// there is no patch); a binary file shows no lines.
pub fn file_diff_from_summary(summary: &CommitDiffSummary, lines: Option<Vec<DiffLine>>) -> (r: FileDiff)
    ensures
        r.is_binary == summary.is_binary,
        crate::handlers::util::opt_view(r.empty_label) == opt_str_view(summary.empty_label),
        r.size_html@ == size_html(summary.old_size, summary.new_size),
        line_views(r.lines@) == (if summary.is_binary {
            Seq::empty()
        } else {
            match lines {
                Some(l) => line_views(l@),
                None => Seq::empty(),
            }
        }),
{
    let ghost given = lines;
    let mut lines = match lines {
        Some(l) => l,
        None => Vec::new(),
    };
    if summary.is_binary {
        lines = Vec::new();
    }
    assert(line_views(lines@) =~= (if summary.is_binary {
        Seq::empty()
    } else {
        match given {
            Some(l) => line_views(l@),
            None => Seq::empty(),
        }
    }));
    FileDiff {
        is_binary: summary.is_binary,
        empty_label: match summary.empty_label {
            Some(l) => Some(owned(l)),
            None => None,
        },
        size_html: size_html_from_sizes(summary.old_size, summary.new_size),
        lines,
    }
}

/// Whether the line numbers of a hunk stay within 32 bits as it is rendered
/// (see `hunk_numbers_fit`).
pub fn hunk_fits(h: &PatchHunk) -> (r: bool)
    ensures
        r == hunk_numbers_fit(*h),
{
    let ghost lines = hunk_lines(*h);
    let mut o: i128 = if h.old_start > 0x7fff_ffff { h.old_start as i128 - 0x1_0000_0000 } else { h.old_start as i128 };
    let mut n: i128 = if h.new_start > 0x7fff_ffff { h.new_start as i128 - 0x1_0000_0000 } else { h.new_start as i128 };
    let mut i: usize = 0;
    assert(lines.take(0) =~= Seq::<(char, Seq<u8>)>::empty());
    while i < h.lines.len()
        invariant
            i <= h.lines@.len(),
            lines == hunk_lines(*h),
            lines.len() == h.lines@.len(),
            hunk_render(as_i32(h.old_start), as_i32(h.new_start), lines.take(i as int)).1 == o,
            hunk_render(as_i32(h.old_start), as_i32(h.new_start), lines.take(i as int)).2 == n,
            -0x8000_0000 <= o <= 0x7fff_ffff + i,
            -0x8000_0000 <= n <= 0x7fff_ffff + i,
        decreases h.lines.len() - i,
    {
        let origin = h.lines[i].origin;
        assert(lines.take(i + 1).drop_last() =~= lines.take(i as int));
        assert(lines.take(i + 1).last() == lines[i as int]);
        if origin == '+' || origin == '>' {
            n = n + 1;
        } else if origin == '-' || origin == '<' {
            o = o + 1;
        } else if origin == ' ' || origin == '=' {
            o = o + 1;
            n = n + 1;
        }
        i += 1;
    }
    assert(lines.take(h.lines@.len() as int) =~= lines);
    o <= 0x7fff_ffff && n <= 0x7fff_ffff
}

/// Whether a patch line lies on the old side: removed ('-', '<') or context
/// (' ', '=').
pub open spec fn on_old_side(origin: char) -> bool {
    origin == '-' || origin == '<' || origin == ' ' || origin == '='
}

/// Whether a patch line lies on the new side: added ('+', '>') or context
/// (' ', '=').
pub open spec fn on_new_side(origin: char) -> bool {
    origin == '+' || origin == '>' || origin == ' ' || origin == '='
}

/// How many of the lines lie on the old side.
pub open spec fn old_side_count(lines: Seq<(char, Seq<u8>)>) -> nat
    decreases lines.len(),
{
    if lines.len() == 0 {
        0
    } else {
        old_side_count(lines.drop_last()) + if on_old_side(lines.last().0) { 1nat } else { 0nat }
    }
}

/// How many of the lines lie on the new side.
pub open spec fn new_side_count(lines: Seq<(char, Seq<u8>)>) -> nat
    decreases lines.len(),
{
    if lines.len() == 0 {
        0
    } else {
        new_side_count(lines.drop_last()) + if on_new_side(lines.last().0) { 1nat } else { 0nat }
    }
}

/// After the lines of a hunk, the old line number has advanced once for
/// each line on the old side and the new line number once for each line on
/// the new side.
pub proof fn law_hunk_counters(old_start: int, new_start: int, lines: Seq<(char, Seq<u8>)>)
    ensures
        hunk_render(old_start, new_start, lines).1 == old_start + old_side_count(lines),
        hunk_render(old_start, new_start, lines).2 == new_start + new_side_count(lines),
    decreases lines.len(),
{
    if lines.len() > 0 {
        law_hunk_counters(old_start, new_start, lines.drop_last());
    }
}

/// The lines rendered for the first lines of a hunk begin the lines
/// rendered for the whole hunk.
pub proof fn law_hunk_render_prefix(old_start: int, new_start: int, lines: Seq<(char, Seq<u8>)>, k: int)
    requires
        0 <= k <= lines.len(),
    ensures
        hunk_render(old_start, new_start, lines.take(k)).0.len() <= hunk_render(old_start, new_start, lines).0.len(),
        hunk_render(old_start, new_start, lines).0.take(
            hunk_render(old_start, new_start, lines.take(k)).0.len() as int,
        ) == hunk_render(old_start, new_start, lines.take(k)).0,
    decreases lines.len() - k,
{
    if k == lines.len() {
        assert(lines.take(k) =~= lines);
        assert(hunk_render(old_start, new_start, lines).0.take(hunk_render(old_start, new_start, lines).0.len() as int)
            =~= hunk_render(old_start, new_start, lines).0);
    } else {
        law_hunk_render_prefix(old_start, new_start, lines, k + 1);
        assert(lines.take(k + 1).drop_last() =~= lines.take(k));
        let a = hunk_render(old_start, new_start, lines.take(k)).0;
        let b = hunk_render(old_start, new_start, lines.take(k + 1)).0;
        let c = hunk_render(old_start, new_start, lines).0;
        assert(b.take(a.len() as int) =~= a);
        assert(c.take(a.len() as int) =~= c.take(b.len() as int).take(a.len() as int));
    }
}

/// Line `k` of a hunk is rendered, after the lines before it, with the
/// number of its side counted from the hunk's start: a removed line gets the
/// old start plus the old-side lines before it, an added or context line
/// the new start plus the new-side lines before it; other markers are not
/// shown.
pub proof fn law_hunk_line_numbers(old_start: int, new_start: int, lines: Seq<(char, Seq<u8>)>, k: int)
    requires
        0 <= k < lines.len(),
    ensures
        ({
            let before = hunk_render(old_start, new_start, lines.take(k)).0;
            let through = hunk_render(old_start, new_start, lines.take(k + 1)).0;
            let (origin, content) = lines[k];
            let old_num = old_start + old_side_count(lines.take(k));
            let new_num = new_start + new_side_count(lines.take(k));
            &&& (origin == '-' || origin == '<') ==> through == before.push(
                DiffLineView { class: "line-remove"@, num: dec_int(old_num), text: line_text(content) },
            )
            &&& (origin == '+' || origin == '>') ==> through == before.push(
                DiffLineView { class: "line-add"@, num: dec_int(new_num), text: line_text(content) },
            )
            &&& (origin == ' ' || origin == '=') ==> through == before.push(
                DiffLineView { class: ""@, num: dec_int(new_num), text: line_text(content) },
            )
            &&& !on_old_side(origin) && !on_new_side(origin) ==> through == before
        }),
{
    law_hunk_counters(old_start, new_start, lines.take(k));
    assert(lines.take(k + 1).drop_last() =~= lines.take(k));
    assert(lines.take(k + 1).last() == lines[k]);
}

/// The path a changed file is listed under is the path of its new side
/// when that side has one, so a renamed file is listed under its new name;
/// the old side's path stands in only when the new side has none.
pub proof fn law_changed_file_path(old_path: Option<Seq<char>>, new_path: Option<Seq<char>>)
    ensures
        new_path is Some ==> delta_path_spec(old_path, new_path) == new_path.unwrap(),
        new_path is None && old_path is Some ==> delta_path_spec(old_path, new_path) == old_path.unwrap(),
        new_path is None && old_path is None ==> delta_path_spec(old_path, new_path).len() == 0,
{
}

/// Bytes that are all printable or whitespace hold no non-text byte.
proof fn lemma_no_non_text(content: Seq<u8>)
    requires
        forall|i: int| 0 <= i < content.len() ==> #[trigger] content[i] >= 32 || content[i] == 9 || content[i] == 10
            || content[i] == 13,
    ensures
        non_text_count(content) == 0,
    decreases content.len(),
{
    if content.len() > 0 {
        lemma_no_non_text(content.drop_last());
        assert(content.last() == content[content.len() - 1]);
    }
}

/// Content whose bytes are all printable (32 or more) or a newline,
/// carriage return or tab is text, not binary; UTF-8 text without control
/// characters is such content, whatever its letters.
pub proof fn law_text_bytes_are_not_binary(content: Seq<u8>)
    requires
        forall|i: int| 0 <= i < content.len() ==> #[trigger] content[i] >= 32 || content[i] == 9 || content[i] == 10
            || content[i] == 13,
    ensures
        !is_binary_content(content),
{
    lemma_no_non_text(content);
    if content.contains(0u8) {
        let i = choose|i: int| 0 <= i < content.len() && content[i] == 0u8;
        assert(content[i] >= 32 || content[i] == 9 || content[i] == 10 || content[i] == 13);
    }
}

/// Content holding a zero byte is binary.
pub proof fn law_zero_byte_is_binary(content: Seq<u8>)
    requires
        content.contains(0u8),
    ensures
        is_binary_content(content),
{
}

} // verus!
