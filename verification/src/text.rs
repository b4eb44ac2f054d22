use vstd::prelude::*;
use vstd::string::*;
use vstd::utf8::char_u32_cast;

verus! {

/// The characters of `s`, one by one.
pub fn chars_of(s: &str) -> (v: Vec<char>)
    ensures
        v@ == s@,
{
    let mut v: Vec<char> = Vec::new();
    for c in it: s.chars()
        invariant
            v@ == it.seq().take(it.index() as int),
            it.seq() == s@,
    {
        v.push(c);
    }
    v
}

/// Appends one character to a `String` (`String::push`).
#[verifier::external_body]
pub(crate) fn push_char(s: &mut String, c: char)
    ensures
        final(s)@ == old(s)@.push(c),
{
    s.push(c);
}

/// A `String` holding exactly the characters of `v[from..to]`.
pub fn string_from_chars(v: &Vec<char>, from: usize, to: usize) -> (r: String)
    requires
        from <= to <= v.len(),
    ensures
        r@ == v@.subrange(from as int, to as int),
{
    let mut r = String::new();
    let mut i = from;
    while i < to
        invariant
            from <= i <= to <= v.len(),
            r@ == v@.subrange(from as int, i as int),
        decreases to - i,
    {
        push_char(&mut r, v[i]);
        i = i + 1;
        assert(r@ =~= v@.subrange(from as int, i as int));
    }
    r
}

/// Whether `a` and `b` hold the same characters.
pub fn str_eq(a: &str, b: &str) -> (r: bool)
    ensures
        r == (a@ == b@),
{
    let va = chars_of(a);
    let vb = chars_of(b);
    if va.len() != vb.len() {
        return false;
    }
    let mut i: usize = 0;
    while i < va.len()
        invariant
            va@ == a@,
            vb@ == b@,
            va.len() == vb.len(),
            i <= va.len(),
            forall|j: int| 0 <= j < i ==> va@[j] == vb@[j],
        decreases va.len() - i,
    {
        if va[i] != vb[i] {
            return false;
        }
        i = i + 1;
    }
    assert(va@ =~= vb@);
    true
}

/// Whether `s` begins with the characters of `prefix`.
pub fn has_prefix(s: &str, prefix: &str) -> (r: bool)
    ensures
        r == prefix@.is_prefix_of(s@),
{
    let vs = chars_of(s);
    let vp = chars_of(prefix);
    if vp.len() > vs.len() {
        return false;
    }
    let mut i: usize = 0;
    while i < vp.len()
        invariant
            vs@ == s@,
            vp@ == prefix@,
            vp.len() <= vs.len(),
            i <= vp.len(),
            forall|j: int| 0 <= j < i ==> vp@[j] == vs@[j],
        decreases vp.len() - i,
    {
        if vp[i] != vs[i] {
            return false;
        }
        i = i + 1;
    }
    true
}

/// Unicode `White_Space` code points, the ones `char::is_whitespace` accepts.
pub open spec fn is_white_space(c: char) -> bool {
    let u = c as u32;
    ||| u == 0x20
    ||| 0x09 <= u <= 0x0d
    ||| u == 0x85
    ||| u == 0xa0
    ||| u == 0x1680
    ||| 0x2000 <= u <= 0x200a
    ||| u == 0x2028
    ||| u == 0x2029
    ||| u == 0x202f
    ||| u == 0x205f
    ||| u == 0x3000
}

/// `char::is_whitespace`.
pub fn white_space(c: char) -> (r: bool)
    ensures
        r == is_white_space(c),
{
    let u = c as u32;
    u == 0x20 || (0x09 <= u && u <= 0x0d) || u == 0x85 || u == 0xa0 || u == 0x1680 || (0x2000
        <= u && u <= 0x200a) || u == 0x2028 || u == 0x2029 || u == 0x202f || u == 0x205f || u
        == 0x3000
}

/// Index of the first character at or after `i` that is not white space (or the length).
pub open spec fn skip_white_space(s: Seq<char>, i: int) -> int
    decreases s.len() - i,
{
    if i < 0 || i >= s.len() {
        s.len() as int
    } else if is_white_space(s[i]) {
        skip_white_space(s, i + 1)
    } else {
        i
    }
}

/// Index just past the last character before `j` that is not white space, never below `lo`.
pub open spec fn skip_white_space_back(s: Seq<char>, lo: int, j: int) -> int
    decreases j - lo,
{
    if j <= lo {
        lo
    } else if is_white_space(s[j - 1]) {
        skip_white_space_back(s, lo, j - 1)
    } else {
        j
    }
}

/// `s` without its leading and trailing white space (`str::trim`).
pub open spec fn trimmed(s: Seq<char>) -> Seq<char> {
    let lo = skip_white_space(s, 0);
    s.subrange(lo, skip_white_space_back(s, lo, s.len() as int))
}

proof fn lemma_skip_white_space(s: Seq<char>, i: int)
    requires
        0 <= i <= s.len(),
    ensures
        i <= skip_white_space(s, i) <= s.len(),
        skip_white_space(s, i) < s.len() ==> !is_white_space(s[skip_white_space(s, i)]),
        forall|j: int| i <= j < skip_white_space(s, i) ==> is_white_space(s[j]),
    decreases s.len() - i,
{
    if i < s.len() && is_white_space(s[i]) {
        lemma_skip_white_space(s, i + 1);
    }
}

proof fn lemma_skip_white_space_back(s: Seq<char>, lo: int, j: int)
    requires
        lo <= j,
    ensures
        lo <= skip_white_space_back(s, lo, j) <= j,
        skip_white_space_back(s, lo, j) > lo ==> !is_white_space(
            s[skip_white_space_back(s, lo, j) - 1],
        ),
        forall|k: int| skip_white_space_back(s, lo, j) <= k < j ==> is_white_space(s[k]),
    decreases j - lo,
{
    if j > lo && is_white_space(s[j - 1]) {
        lemma_skip_white_space_back(s, lo, j - 1);
    }
}

/// Trimming keeps one stretch of `s`, inner characters included: everything
/// before and after it is white space, and it starts and ends with a character
/// that is not (or is empty when `s` is all white space).
pub proof fn law_trimmed_shape(s: Seq<char>) -> (span: (int, int))
    ensures
        0 <= span.0 <= span.1 <= s.len(),
        trimmed(s) == s.subrange(span.0, span.1),
        forall|j: int| 0 <= j < span.0 ==> is_white_space(s[j]),
        forall|j: int| span.1 <= j < s.len() ==> is_white_space(s[j]),
        span.0 < span.1 ==> !is_white_space(s[span.0]) && !is_white_space(s[span.1 - 1]),
        span.0 == span.1 ==> span.0 == s.len(),
{
    lemma_skip_white_space(s, 0);
    let lo = skip_white_space(s, 0);
    lemma_skip_white_space_back(s, lo, s.len() as int);
    let hi = skip_white_space_back(s, lo, s.len() as int);
    if lo == hi && lo < s.len() {
        assert(!is_white_space(s[lo]));
        assert(is_white_space(s[lo]));
    }
    (lo, hi)
}

/// Trimming twice is trimming once.
pub proof fn law_trim_idempotent(s: Seq<char>)
    ensures
        trimmed(trimmed(s)) == trimmed(s),
{
    lemma_skip_white_space(s, 0);
    let lo = skip_white_space(s, 0);
    lemma_skip_white_space_back(s, lo, s.len() as int);
    let t = trimmed(s);
    if t.len() > 0 {
        assert(t[0] == s[lo]);
        assert(skip_white_space(t, 0) == 0);
        assert(t[t.len() - 1] == s[skip_white_space_back(s, lo, s.len() as int) - 1]);
        assert(skip_white_space_back(t, 0, t.len() as int) == t.len());
        assert(t.subrange(0, t.len() as int) =~= t);
    } else {
        assert(trimmed(t) =~= t);
    }
}

/// `str::trim`: `s` without leading and trailing white space.
pub fn trim_ws(s: &str) -> (r: &str)
    ensures
        r@ == trimmed(s@),
{
    let v = chars_of(s);
    let mut lo: usize = 0;
    while lo < v.len() && white_space(v[lo])
        invariant
            v@ == s@,
            lo <= v.len(),
            skip_white_space(s@, lo as int) == skip_white_space(s@, 0),
        decreases v.len() - lo,
    {
        lo = lo + 1;
    }
    let mut hi: usize = v.len();
    while hi > lo && white_space(v[hi - 1])
        invariant
            v@ == s@,
            lo == skip_white_space(s@, 0),
            lo <= hi <= v.len(),
            skip_white_space_back(s@, lo as int, hi as int) == skip_white_space_back(
                s@,
                lo as int,
                s@.len() as int,
            ),
        decreases hi - lo,
    {
        hi = hi - 1;
    }
    s.substring_char(lo, hi)
}

/// Index of the first occurrence of `c` in `s` at or after `i`.
pub open spec fn find_char(s: Seq<char>, c: char, i: int) -> Option<int>
    decreases s.len() - i,
{
    if i < 0 || i >= s.len() {
        None
    } else if s[i] == c {
        Some(i)
    } else {
        find_char(s, c, i + 1)
    }
}

pub proof fn lemma_find_char(s: Seq<char>, c: char, i: int)
    requires
        0 <= i,
    ensures
        match find_char(s, c, i) {
            Some(k) => i <= k < s.len() && s[k] == c && forall|j: int| i <= j < k ==> s[j] != c,
            None => forall|j: int| i <= j < s.len() ==> s[j] != c,
        },
    decreases s.len() - i,
{
    if i < s.len() && s[i] != c {
        lemma_find_char(s, c, i + 1);
    }
}

/// ASCII upper-case letters become lower-case; every other character stays.
pub open spec fn ascii_lower_char(c: char) -> char {
    if 'A' <= c && c <= 'Z' {
        ((c as u32) + 32) as char
    } else {
        c
    }
}

/// `str::to_ascii_lowercase` on a character sequence.
pub open spec fn ascii_lower(s: Seq<char>) -> Seq<char> {
    s.map_values(|c: char| ascii_lower_char(c))
}

/// Whether `ext[from..]` in ASCII lower case equals `lower`.
pub fn lower_case_equals(ext: &Vec<char>, from: usize, lower: &str) -> (r: bool)
    requires
        from <= ext.len(),
    ensures
        r == (ascii_lower(ext@.subrange(from as int, ext.len() as int)) == lower@),
{
    let l = chars_of(lower);
    let ghost e = ext@.subrange(from as int, ext.len() as int);
    if ext.len() - from != l.len() {
        assert(ascii_lower(e).len() != lower@.len());
        return false;
    }
    let mut i: usize = 0;
    while i < l.len()
        invariant
            l@ == lower@,
            from <= ext.len(),
            e == ext@.subrange(from as int, ext.len() as int),
            e.len() == l.len(),
            i <= l.len(),
            forall|j: int| 0 <= j < i ==> ascii_lower_char(e[j]) == l@[j],
        decreases l.len() - i,
    {
        let c = ext[from + i];
        let d = l[i];
        let same = if 'A' <= c && c <= 'Z' {
            (c as u32) + 32 == (d as u32)
        } else {
            c == d
        };
        assert(e[i as int] == c);
        proof {
            char_u32_cast(d, d as u32);
        }
        if !same {
            assert(ascii_lower(e)[i as int] != lower@[i as int]);
            return false;
        }
        i = i + 1;
    }
    assert(ascii_lower(e) =~= lower@);
    true
}

/// `s` with every leading repetition of `p` removed (`str::trim_start_matches`
/// with a string pattern).
pub open spec fn strip_repeated_prefix(s: Seq<char>, p: Seq<char>) -> Seq<char>
    decreases s.len(),
{
    if p.len() > 0 && p.is_prefix_of(s) {
        strip_repeated_prefix(s.subrange(p.len() as int, s.len() as int), p)
    } else {
        s
    }
}

/// `str::trim_start_matches(s, p)` for a string pattern `p`.
pub fn trim_start_matches<'a>(s: &'a str, p: &str) -> (r: &'a str)
    ensures
        r@ == strip_repeated_prefix(s@, p@),
{
    let vs = chars_of(s);
    let vp = chars_of(p);
    if vp.len() == 0 {
        return s;
    }
    let mut i: usize = 0;
    assert(s@.subrange(0, s@.len() as int) =~= s@);
    loop
        invariant
            vs@ == s@,
            vp@ == p@,
            vp.len() > 0,
            i <= vs.len(),
            strip_repeated_prefix(s@.subrange(i as int, s@.len() as int), p@)
                == strip_repeated_prefix(s@, p@),
        decreases vs.len() - i,
    {
        let ghost rest = s@.subrange(i as int, s@.len() as int);
        if vs.len() - i < vp.len() {
            assert(!p@.is_prefix_of(rest));
            return s.substring_char(i, vs.len());
        }
        let mut k: usize = 0;
        while k < vp.len() && vs[i + k] == vp[k]
            invariant
                vs@ == s@,
                vp@ == p@,
                i + vp.len() <= vs.len(),
                k <= vp.len(),
                forall|j: int| 0 <= j < k ==> vs@[i + j] == vp@[j],
            decreases vp.len() - k,
        {
            k = k + 1;
        }
        if k < vp.len() {
            assert(!p@.is_prefix_of(rest)) by {
                assert(rest[k as int] == s@[i + k]);
                if p@.is_prefix_of(rest) {
                    assert(rest.subrange(0, p@.len() as int)[k as int] == p@[k as int]);
                }
            }
            return s.substring_char(i, vs.len());
        }
        assert(p@.is_prefix_of(rest)) by {
            assert(rest.subrange(0, p@.len() as int) =~= p@);
        }
        assert(rest.subrange(p@.len() as int, rest.len() as int) =~= s@.subrange(
            i + vp.len(),
            s@.len() as int,
        ));
        i = i + vp.len();
    }
}

/// The words of `ws` joined with single spaces (`[String]::join(" ")`).
pub open spec fn join_words(ws: Seq<Seq<char>>) -> Seq<char>
    decreases ws.len(),
{
    if ws.len() == 0 {
        Seq::empty()
    } else if ws.len() == 1 {
        ws[0]
    } else {
        join_words(ws.drop_last()) + seq![' '] + ws.last()
    }
}

/// Joins `words` with single spaces.
pub fn join_with_spaces(words: &Vec<String>) -> (r: String)
    ensures
        r@ == join_words(words@.map_values(|w: String| w@)),
{
    let ghost ws = words@.map_values(|w: String| w@);
    let mut r = String::new();
    let mut i: usize = 0;
    while i < words.len()
        invariant
            ws == words@.map_values(|w: String| w@),
            i <= words.len(),
            r@ == join_words(ws.take(i as int)),
        decreases words.len() - i,
    {
        if i > 0 {
            r.append(" ");
        }
        r.append(words[i].as_str());
        proof {
            assert(ws.take(i + 1).drop_last() =~= ws.take(i as int));
            if i == 0 {
                assert(r@ =~= join_words(ws.take(1)));
            } else {
                assert(" "@ == seq![' ']) by {
                    reveal_strlit(" ");
                }
            }
        }
        i = i + 1;
    }
    assert(ws.take(words.len() as int) =~= ws);
    r
}

} // verus!
