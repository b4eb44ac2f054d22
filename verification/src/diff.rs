use vstd::prelude::*;

use crate::text::chars_of;

verus! {

/// `i` is the first character of a line of `s`.
pub open spec fn is_line_start(s: Seq<char>, i: int) -> bool {
    0 <= i < s.len() && (i == 0 || s[i - 1] == '\n')
}

/// The three characters of `s` from `i` on are all `c`.
pub open spec fn triple_at(s: Seq<char>, i: int, c: char) -> bool {
    0 <= i && i + 2 < s.len() && s[i] == c && s[i + 1] == c && s[i + 2] == c
}

/// The line starting at `i` begins with `+` but not with `+++`.
pub open spec fn added_line_at(s: Seq<char>, i: int) -> bool {
    is_line_start(s, i) && s[i] == '+' && !triple_at(s, i, '+')
}

/// The line starting at `i` begins with `-` but not with `---`.
pub open spec fn removed_line_at(s: Seq<char>, i: int) -> bool {
    is_line_start(s, i) && s[i] == '-' && !triple_at(s, i, '-')
}

/// Number of added lines that start before index `n`.
pub open spec fn added_before(s: Seq<char>, n: int) -> nat
    decreases n,
{
    if n <= 0 {
        0
    } else {
        added_before(s, n - 1) + if added_line_at(s, n - 1) {
            1nat
        } else {
            0nat
        }
    }
}

/// Number of removed lines that start before index `n`.
pub open spec fn removed_before(s: Seq<char>, n: int) -> nat
    decreases n,
{
    if n <= 0 {
        0
    } else {
        removed_before(s, n - 1) + if removed_line_at(s, n - 1) {
            1nat
        } else {
            0nat
        }
    }
}

/// Added and removed line counts of a unified diff text.
pub open spec fn diff_stats(s: Seq<char>) -> (nat, nat) {
    (added_before(s, s.len() as int), removed_before(s, s.len() as int))
}

proof fn lemma_counts_bounded(s: Seq<char>, n: int)
    requires
        0 <= n,
    ensures
        added_before(s, n) <= n,
        removed_before(s, n) <= n,
    decreases n,
{
    if n > 0 {
        lemma_counts_bounded(s, n - 1);
    }
}

/// Counts the lines of a unified diff that add (`+`, not `+++`) and remove
/// (`-`, not `---`) text.
pub fn count_diff_stats(diff: &str) -> (r: (usize, usize))
    ensures
        r.0 == diff_stats(diff@).0,
        r.1 == diff_stats(diff@).1,
{
    let v = chars_of(diff);
    let mut additions: usize = 0;
    let mut deletions: usize = 0;
    let mut i: usize = 0;
    while i < v.len()
        invariant
            v@ == diff@,
            i <= v.len(),
            additions == added_before(diff@, i as int),
            deletions == removed_before(diff@, i as int),
        decreases v.len() - i,
    {
        proof {
            lemma_counts_bounded(diff@, i as int);
        }
        let line_start = i == 0 || v[i - 1] == '\n';
        if line_start {
            let c = v[i];
            let triple = v.len() - i > 2 && v[i + 1] == c && v[i + 2] == c;
            if c == '+' && !triple {
                additions = additions + 1;
            } else if c == '-' && !triple {
                deletions = deletions + 1;
            }
        }
        i = i + 1;
    }
    (additions, deletions)
}

/// How a line of a unified diff is displayed.
#[derive(Clone, Copy, Debug, PartialEq, Eq, Structural)]
pub enum DiffLineKind {
    /// `+++` or `---` file header.
    FileHeader,
    /// `@@` hunk header.
    HunkHeader,
    /// Added line (`+`).
    Added,
    /// Removed line (`-`).
    Removed,
    /// Context or anything else.
    Context,
}

/// The display kind of one diff line.
pub open spec fn diff_line_kind(l: Seq<char>) -> DiffLineKind {
    if seq!['+', '+', '+'].is_prefix_of(l) || seq!['-', '-', '-'].is_prefix_of(l) {
        DiffLineKind::FileHeader
    } else if seq!['@', '@'].is_prefix_of(l) {
        DiffLineKind::HunkHeader
    } else if l.len() > 0 && l[0] == '+' {
        DiffLineKind::Added
    } else if l.len() > 0 && l[0] == '-' {
        DiffLineKind::Removed
    } else {
        DiffLineKind::Context
    }
}

/// Classifies one line of a unified diff for display: file headers first, then
/// hunk headers, then added and removed lines; everything else is context.
pub fn classify_diff_line(line: &str) -> (r: DiffLineKind)
    ensures
        r == diff_line_kind(line@),
{
    let v = chars_of(line);
    let n = v.len();
    if n >= 3 && ((v[0] == '+' && v[1] == '+' && v[2] == '+') || (v[0] == '-' && v[1] == '-'
        && v[2] == '-')) {
        assert(seq!['+', '+', '+'].is_prefix_of(line@) || seq!['-', '-', '-'].is_prefix_of(line@)) by {
            assert(line@.subrange(0, 3) =~= seq![v@[0], v@[1], v@[2]]);
        }
        return DiffLineKind::FileHeader;
    }
    assert(!seq!['+', '+', '+'].is_prefix_of(line@)) by {
        if seq!['+', '+', '+'].is_prefix_of(line@) {
            assert(line@.subrange(0, 3)[0] == line@[0]);
            assert(line@.subrange(0, 3)[1] == line@[1]);
            assert(line@.subrange(0, 3)[2] == line@[2]);
        }
    }
    assert(!seq!['-', '-', '-'].is_prefix_of(line@)) by {
        if seq!['-', '-', '-'].is_prefix_of(line@) {
            assert(line@.subrange(0, 3)[0] == line@[0]);
            assert(line@.subrange(0, 3)[1] == line@[1]);
            assert(line@.subrange(0, 3)[2] == line@[2]);
        }
    }
    if n >= 2 && v[0] == '@' && v[1] == '@' {
        assert(seq!['@', '@'].is_prefix_of(line@)) by {
            assert(line@.subrange(0, 2) =~= seq![v@[0], v@[1]]);
        }
        return DiffLineKind::HunkHeader;
    }
    assert(!seq!['@', '@'].is_prefix_of(line@)) by {
        if seq!['@', '@'].is_prefix_of(line@) {
            assert(line@.subrange(0, 2)[0] == line@[0]);
            assert(line@.subrange(0, 2)[1] == line@[1]);
        }
    }
    if n >= 1 && v[0] == '+' {
        DiffLineKind::Added
    } else if n >= 1 && v[0] == '-' {
        DiffLineKind::Removed
    } else {
        DiffLineKind::Context
    }
}

/// Index of the newline that ends the line running through `i` (or the length).
pub open spec fn line_end(s: Seq<char>, i: int) -> int
    decreases s.len() - i,
{
    if i < 0 || i >= s.len() || s[i] == '\n' {
        i
    } else {
        line_end(s, i + 1)
    }
}

/// The text of the line that starts at `i`, without its newline.
pub open spec fn line_at(s: Seq<char>, i: int) -> Seq<char> {
    s.subrange(i, line_end(s, i))
}

proof fn lemma_line_end(s: Seq<char>, i: int)
    requires
        0 <= i <= s.len(),
    ensures
        i <= line_end(s, i) <= s.len(),
        forall|k: int| i <= k < line_end(s, i) ==> s[k] != '\n',
    decreases s.len() - i,
{
    if i < s.len() && s[i] != '\n' {
        lemma_line_end(s, i + 1);
    }
}

proof fn lemma_line_end_past(s: Seq<char>, i: int, j: int)
    requires
        0 <= i <= j < s.len(),
        forall|k: int| i <= k <= j ==> s[k] != '\n',
    ensures
        line_end(s, i) > j,
    decreases j - i,
{
    if i < j {
        lemma_line_end_past(s, i + 1, j);
    } else {
        lemma_line_end(s, i + 1);
    }
}

/// A line is counted as added (resp. removed) exactly when it is displayed as an
/// added (resp. removed) line.
pub proof fn law_counted_lines_match_display(s: Seq<char>, i: int)
    requires
        is_line_start(s, i),
    ensures
        added_line_at(s, i) <==> diff_line_kind(line_at(s, i)) == DiffLineKind::Added,
        removed_line_at(s, i) <==> diff_line_kind(line_at(s, i)) == DiffLineKind::Removed,
{
    lemma_line_end(s, i);
    let l = line_at(s, i);
    if s[i] == '+' || s[i] == '-' {
        lemma_line_end_past(s, i, i);
        assert(l[0] == s[i]);
        let c = s[i];
        if triple_at(s, i, c) {
            lemma_line_end_past(s, i, i + 2);
            assert(l.subrange(0, 3) =~= seq![c, c, c]);
        } else {
            if seq!['+', '+', '+'].is_prefix_of(l) || seq!['-', '-', '-'].is_prefix_of(l) {
                assert(l.subrange(0, 3)[1] == l[1]);
                assert(l.subrange(0, 3)[2] == l[2]);
                assert(l[1] == s[i + 1]);
                assert(l[2] == s[i + 2]);
            }
            if seq!['@', '@'].is_prefix_of(l) {
                assert(l.subrange(0, 2)[0] == l[0]);
            }
        }
    } else {
        if l.len() > 0 {
            assert(l[0] == s[i]);
            if seq!['+', '+', '+'].is_prefix_of(l) || seq!['-', '-', '-'].is_prefix_of(l) {
                assert(l.subrange(0, 3)[0] == l[0]);
            }
            if seq!['@', '@'].is_prefix_of(l) {
                assert(l.subrange(0, 2)[0] == l[0]);
            }
        }
    }
}

/// The line `l` starts with `c` but not with three of them.
pub open spec fn marked_line(l: Seq<char>, c: char) -> bool {
    l.len() > 0 && l[0] == c && !(l.len() >= 3 && l[1] == c && l[2] == c)
}

proof fn lemma_stats_keep_prefix(s: Seq<char>, t: Seq<char>, n: int)
    requires
        s.len() == 0 || s.last() == '\n',
        s.len() <= t.len(),
        t.subrange(0, s.len() as int) == s,
        0 <= n <= s.len(),
    ensures
        added_before(t, n) == added_before(s, n),
        removed_before(t, n) == removed_before(s, n),
    decreases n,
{
    if n > 0 {
        lemma_stats_keep_prefix(s, t, n - 1);
        let i = n - 1;
        assert(t[i] == s[i]);
        if i > 0 {
            assert(t[i - 1] == s[i - 1]);
        }
        if i + 2 < s.len() {
            assert(t[i + 1] == s[i + 1]);
            assert(t[i + 2] == s[i + 2]);
        } else if i + 2 == s.len() {
            assert(t[i + 1] == s[i + 1]);
        }
    }
}

proof fn lemma_stats_new_line(s: Seq<char>, l: Seq<char>, n: int)
    requires
        s.len() == 0 || s.last() == '\n',
        forall|j: int| 0 <= j < l.len() ==> l[j] != '\n',
        s.len() < n <= s.len() + l.len() + 1,
    ensures
        added_before(s + l + seq!['\n'], n) == added_before(s, s.len() as int) + if marked_line(
            l,
            '+',
        ) {
            1nat
        } else {
            0nat
        },
        removed_before(s + l + seq!['\n'], n) == removed_before(s, s.len() as int) + if marked_line(
            l,
            '-',
        ) {
            1nat
        } else {
            0nat
        },
    decreases n,
{
    let t = s + l + seq!['\n'];
    let m = s.len() as int;
    if n == m + 1 {
        assert(t.subrange(0, m) =~= s);
        lemma_stats_keep_prefix(s, t, m);
        if m > 0 {
            assert(t[m - 1] == s[m - 1]);
        }
        if l.len() > 0 {
            assert(t[m] == l[0]);
            if l.len() >= 2 {
                assert(t[m + 1] == l[1]);
            }
            if l.len() >= 3 {
                assert(t[m + 2] == l[2]);
            } else if l.len() == 2 {
                assert(t[m + 2] == '\n');
            }
        } else {
            assert(t[m] == '\n');
        }
    } else {
        lemma_stats_new_line(s, l, n - 1);
        let k = n - 1;
        assert(t[k - 1] == l[k - 1 - m]);
        assert(!is_line_start(t, k));
    }
}

/// Appending one complete line `l` (no newline inside) to a diff text that
/// ends at a line boundary adds one added line exactly when `l` starts with `+`
/// but not `+++` (whatever follows, an empty added line `+` included), one
/// removed line exactly when it starts with `-` but not `---`, and nothing
/// otherwise. Reading a diff line by line, the counts are therefore the number
/// of such lines.
pub proof fn law_diff_stats_append_line(s: Seq<char>, l: Seq<char>)
    requires
        s.len() == 0 || s.last() == '\n',
        forall|j: int| 0 <= j < l.len() ==> l[j] != '\n',
    ensures
        diff_stats(s + l + seq!['\n']).0 == diff_stats(s).0 + if marked_line(l, '+') {
            1nat
        } else {
            0nat
        },
        diff_stats(s + l + seq!['\n']).1 == diff_stats(s).1 + if marked_line(l, '-') {
            1nat
        } else {
            0nat
        },
{
    lemma_stats_new_line(s, l, (s.len() + l.len() + 1) as int);
}

/// How each diff line is shown: `+++` and `---` lines are file headers, `@@`
/// lines hunk headers, other lines starting with `+` (an empty `+` included)
/// added lines, other lines starting with `-` removed lines, and the rest
/// context.
pub proof fn law_diff_line_kinds(l: Seq<char>)
    ensures
        l.len() >= 3 && ((l[0] == '+' && l[1] == '+' && l[2] == '+') || (l[0] == '-' && l[1] == '-'
            && l[2] == '-')) ==> diff_line_kind(l) == DiffLineKind::FileHeader,
        l.len() >= 2 && l[0] == '@' && l[1] == '@' ==> diff_line_kind(l) == DiffLineKind::HunkHeader,
        marked_line(l, '+') ==> diff_line_kind(l) == DiffLineKind::Added,
        marked_line(l, '-') ==> diff_line_kind(l) == DiffLineKind::Removed,
        (l.len() == 0 || (l[0] != '+' && l[0] != '-' && !(l.len() >= 2 && l[1] == '@' && l[0]
            == '@'))) ==> diff_line_kind(l) == DiffLineKind::Context,
{
    if l.len() >= 3 {
        assert(l.subrange(0, 3) =~= seq![l[0], l[1], l[2]]);
    }
    if l.len() >= 2 {
        assert(l.subrange(0, 2) =~= seq![l[0], l[1]]);
    }
    if seq!['+', '+', '+'].is_prefix_of(l) || seq!['-', '-', '-'].is_prefix_of(l) {
        assert(l.subrange(0, 3)[0] == l[0]);
        assert(l.subrange(0, 3)[1] == l[1]);
        assert(l.subrange(0, 3)[2] == l[2]);
    }
    if seq!['@', '@'].is_prefix_of(l) {
        assert(l.subrange(0, 2)[0] == l[0]);
        assert(l.subrange(0, 2)[1] == l[1]);
    }
}

} // verus!
