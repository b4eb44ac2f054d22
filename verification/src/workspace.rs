use vstd::prelude::*;
use vstd::string::*;
use vstd::utf8::*;
use vstd::set_lib::{lemma_int_range, lemma_subset_equality, set_int_range};

use crate::text::{ascii_lower, chars_of, lower_case_equals, push_char, str_eq};

verus! {

broadcast use encode_utf8_valid_utf8, encode_utf8_decode_utf8;

/// The largest character boundary of `bytes` that is not above `n`.
pub open spec fn floor_char_boundary(bytes: Seq<u8>, n: int) -> int
    decreases n,
{
    if n <= 0 {
        0
    } else if is_char_boundary(bytes, n) {
        n
    } else {
        floor_char_boundary(bytes, n - 1)
    }
}

/// Marker appended to a text that had to be cut.
pub open spec fn truncation_mark() -> Seq<char> {
    "\n... [truncated] ..."@
}

/// `content` when its UTF-8 encoding fits in `max_bytes`; otherwise its longest
/// prefix of at most `max_bytes` bytes that ends on a character boundary,
/// followed by the truncation mark.
pub open spec fn spec_trim_text(content: Seq<char>, max_bytes: int) -> Seq<char> {
    let bytes = encode_utf8(content);
    if bytes.len() <= max_bytes {
        content
    } else {
        decode_utf8(bytes.subrange(0, floor_char_boundary(bytes, max_bytes))) + truncation_mark()
    }
}

proof fn lemma_floor_char_boundary(bytes: Seq<u8>, n: int)
    requires
        valid_utf8(bytes),
        0 <= n <= bytes.len(),
    ensures
        0 <= floor_char_boundary(bytes, n) <= n,
        is_char_boundary(bytes, floor_char_boundary(bytes, n)),
    decreases n,
{
    if n > 0 && !is_char_boundary(bytes, n) {
        lemma_floor_char_boundary(bytes, n - 1);
    }
}

/// Cutting keeps a prefix of the text whose encoding fits in the byte budget,
/// then the truncation mark; a text that fits is kept whole.
pub proof fn law_trim_text_keeps_a_prefix(content: Seq<char>, max_bytes: nat)
    ensures
        encode_utf8(content).len() <= max_bytes ==> spec_trim_text(content, max_bytes as int)
            == content,
        encode_utf8(content).len() > max_bytes ==> exists|k: int|
            0 <= k <= content.len() && #[trigger] content.subrange(0, k) + truncation_mark()
                == spec_trim_text(content, max_bytes as int) && encode_utf8(
                content.subrange(0, k),
            ).len() <= max_bytes,
{
    let bytes = encode_utf8(content);
    if bytes.len() > max_bytes {
        lemma_floor_char_boundary(bytes, max_bytes as int);
        let f = floor_char_boundary(bytes, max_bytes as int);
        valid_utf8_split(bytes, f);
        decode_utf8_split(bytes, f);
        let kept = decode_utf8(bytes.subrange(0, f));
        decode_utf8_encode_utf8(bytes.subrange(0, f));
        assert(decode_utf8(bytes) == content);
        let k = kept.len() as int;
        assert(content.subrange(0, k) =~= kept);
        assert(content.subrange(0, k) + truncation_mark() == spec_trim_text(
            content,
            max_bytes as int,
        ));
    }
}

/// Cuts `content` to at most `max_bytes` bytes (on a character boundary) and
/// marks the cut.
pub fn trim_text(content: &str, max_bytes: usize) -> (r: String)
    ensures
        r@ == spec_trim_text(content@, max_bytes as int),
{
    let bytes = content.as_bytes();
    if bytes.len() <= max_bytes {
        return content.to_owned();
    }
    let ghost b = content.spec_bytes();
    let mut end = max_bytes;
    while !content.is_char_boundary(end)
        invariant
            b == content.spec_bytes(),
            valid_utf8(b),
            end <= max_bytes < b.len(),
            floor_char_boundary(b, end as int) == floor_char_boundary(b, max_bytes as int),
        decreases end,
    {
        end = end - 1;
    }
    let (head, _tail) = content.split_at(end);
    assert(head@ == decode_utf8(head.spec_bytes()));
    let mut r = head.to_owned();
    r.append("\n... [truncated] ...");
    r
}

/// Directory names that are never walked.
pub open spec fn is_ignored_dir_name(name: Seq<char>) -> bool {
    ||| name == ".git"@
    ||| name == "target"@
    ||| name == "node_modules"@
    ||| name == "dist"@
    ||| name == "build"@
}

/// Lock files that are never shown to the model.
pub open spec fn is_lock_file_name(name: Seq<char>) -> bool {
    ||| name == "Cargo.lock"@
    ||| name == "package-lock.json"@
    ||| name == "pnpm-lock.yaml"@
    ||| name == "yarn.lock"@
}

/// `.git`, `target`, `node_modules`, `dist` and `build` are never walked,
/// whether they are files or directories; the lock files `Cargo.lock`,
/// `package-lock.json`, `pnpm-lock.yaml` and `yarn.lock` are left out when they
/// are files and walked when they are directories.
pub proof fn law_skipped_names(name: Seq<char>, is_file: bool)
    ensures
        (name == ".git"@ || name == "target"@ || name == "node_modules"@ || name == "dist"@ || name
            == "build"@) ==> (is_ignored_dir_name(name) || (is_file && is_lock_file_name(name))),
        (name == "Cargo.lock"@ || name == "package-lock.json"@ || name == "pnpm-lock.yaml"@ || name
            == "yarn.lock"@) ==> ((is_ignored_dir_name(name) || (is_file && is_lock_file_name(name)))
            == is_file),
{
    reveal_strlit(".git");
    reveal_strlit("target");
    reveal_strlit("node_modules");
    reveal_strlit("dist");
    reveal_strlit("build");
    reveal_strlit("Cargo.lock");
    reveal_strlit("package-lock.json");
    reveal_strlit("pnpm-lock.yaml");
    reveal_strlit("yarn.lock");
    assert(".git"@.len() == 4 && "target"@.len() == 6 && "node_modules"@.len() == 12 && "dist"@.len()
        == 4 && "build"@.len() == 5);
    assert("Cargo.lock"@.len() == 10 && "package-lock.json"@.len() == 17 && "pnpm-lock.yaml"@.len()
        == 14 && "yarn.lock"@.len() == 9);
}

/// Whether a directory entry named `file_name` is left out of the workspace
/// context; `is_file` tells whether the entry is a regular file.
pub fn should_skip(file_name: &str, is_file: bool) -> (r: bool)
    ensures
        r == (is_ignored_dir_name(file_name@) || (is_file && is_lock_file_name(file_name@))),
{
    if str_eq(file_name, ".git") || str_eq(file_name, "target") || str_eq(file_name, "node_modules")
        || str_eq(file_name, "dist") || str_eq(file_name, "build") {
        return true;
    }
    if is_file {
        return str_eq(file_name, "Cargo.lock") || str_eq(file_name, "package-lock.json") || str_eq(
            file_name,
            "pnpm-lock.yaml",
        ) || str_eq(file_name, "yarn.lock");
    }
    false
}

/// Index of the last `.` of `s` before index `n`.
pub open spec fn last_dot_before(s: Seq<char>, n: int) -> Option<int>
    decreases n,
{
    if n <= 0 {
        None
    } else if s[n - 1] == '.' {
        Some(n - 1)
    } else {
        last_dot_before(s, n - 1)
    }
}

/// The extension of a file name as `Path::extension` reads it: the text after
/// the last `.`; none for `..`, for a name without `.`, and for a name whose
/// only `.` leads it.
pub open spec fn file_extension(name: Seq<char>) -> Option<Seq<char>> {
    if name == seq!['.', '.'] {
        None
    } else {
        match last_dot_before(name, name.len() as int) {
            None => None,
            Some(i) => if i == 0 {
                None
            } else {
                Some(name.subrange(i + 1, name.len() as int))
            },
        }
    }
}

/// Extensions (in lower case) of the files that are read as text.
pub open spec fn text_extensions() -> Seq<Seq<char>> {
    seq![
        "rs"@, "md"@, "toml"@, "json"@, "txt"@, "yaml"@, "yml"@, "js"@, "ts"@, "tsx"@, "jsx"@,
        "py"@, "go"@, "java"@, "c"@, "cpp"@, "h"@, "html"@, "css"@, "sh"@, "ps1"@,
    ]
}

/// A file is read as text when its extension, in ASCII lower case, is one of
/// `text_extensions()`.
pub open spec fn is_text_file_name(name: Seq<char>) -> bool {
    match file_extension(name) {
        Some(ext) => text_extensions().contains(ascii_lower(ext)),
        None => false,
    }
}

/// Whether a file named `file_name` is shown to the model as text, going by its
/// extension (ASCII case does not matter).
pub fn is_supported_text_file(file_name: &str) -> (r: bool)
    ensures
        r == is_text_file_name(file_name@),
{
    let v = chars_of(file_name);
    if str_eq(file_name, "..") {
        assert(file_name@ == seq!['.', '.']) by {
            reveal_strlit("..");
        }
        return false;
    }
    assert(file_name@ != seq!['.', '.']) by {
        reveal_strlit("..");
        assert(".."@ =~= seq!['.', '.']);
    }
    let mut n = v.len();
    while n > 0 && v[n - 1] != '.'
        invariant
            v@ == file_name@,
            n <= v.len(),
            last_dot_before(file_name@, n as int) == last_dot_before(
                file_name@,
                file_name@.len() as int,
            ),
        decreases n,
    {
        n = n - 1;
    }
    if n <= 1 {
        return false;
    }
    let from = n;
    let exts: [&str; 21] = [
        "rs", "md", "toml", "json", "txt", "yaml", "yml", "js", "ts", "tsx", "jsx", "py", "go",
        "java", "c", "cpp", "h", "html", "css", "sh", "ps1",
    ];
    assert(exts@.map_values(|e: &str| e@) =~= text_extensions());
    let mut k: usize = 0;
    while k < 21
        invariant
            v@ == file_name@,
            1 <= from - 1 < v.len(),
            file_extension(file_name@) == Some(v@.subrange(from as int, v.len() as int)),
            exts@.map_values(|e: &str| e@) == text_extensions(),
            k <= 21,
            forall|j: int|
                0 <= j < k ==> text_extensions()[j] != ascii_lower(
                    v@.subrange(from as int, v.len() as int),
                ),
        decreases 21 - k,
    {
        if lower_case_equals(&v, from, exts[k]) {
            assert(text_extensions()[k as int] == exts@[k as int]@);
            return true;
        }
        assert(text_extensions()[k as int] == exts@[k as int]@);
        k = k + 1;
    }
    false
}

/// Rank of a byte when paths are ordered: the separator `/` comes before every
/// other byte, so that `a/b` sorts before `a.b` and `a-b`.
pub open spec fn path_byte_rank(b: u8) -> int {
    if b == 0x2f {
        -1
    } else {
        b as int
    }
}

/// `a` sorts strictly before `b` in path order: the order `Path` gives, where
/// `/` is the only separator (Unix), to two relative paths made of plain
/// components (no empty or `.` component), that is component by component,
/// each compared byte by byte.
pub open spec fn path_before(a: Seq<u8>, b: Seq<u8>) -> bool
    decreases a.len(),
{
    if b.len() == 0 {
        false
    } else if a.len() == 0 {
        true
    } else if a[0] != b[0] {
        path_byte_rank(a[0]) < path_byte_rank(b[0])
    } else {
        path_before(a.drop_first(), b.drop_first())
    }
}

/// No path sorts before itself.
pub proof fn law_path_before_irreflexive(a: Seq<u8>)
    ensures
        !path_before(a, a),
    decreases a.len(),
{
    if a.len() > 0 {
        law_path_before_irreflexive(a.drop_first());
    }
}

/// Path order is transitive.
pub proof fn law_path_before_transitive(a: Seq<u8>, b: Seq<u8>, c: Seq<u8>)
    requires
        path_before(a, b),
        path_before(b, c),
    ensures
        path_before(a, c),
    decreases a.len(),
{
    if a.len() > 0 && a[0] == b[0] && b[0] == c[0] {
        law_path_before_transitive(a.drop_first(), b.drop_first(), c.drop_first());
    }
}

/// Two different paths are ordered one way and never both ways.
pub proof fn law_path_before_total(a: Seq<u8>, b: Seq<u8>)
    ensures
        a != b ==> path_before(a, b) || path_before(b, a),
        !(path_before(a, b) && path_before(b, a)),
    decreases a.len(),
{
    if a.len() > 0 && b.len() > 0 && a[0] == b[0] {
        law_path_before_total(a.drop_first(), b.drop_first());
        if a != b {
            assert(a.drop_first() != b.drop_first()) by {
                if a.drop_first() == b.drop_first() {
                    assert forall|i: int| 0 <= i < a.len() implies a[i] == b[i] by {
                        if i > 0 {
                            assert(a[i] == a.drop_first()[i - 1]);
                            assert(b[i] == b.drop_first()[i - 1]);
                        }
                    }
                    assert(a =~= b);
                }
            }
        }
    } else if a.len() == 0 && b.len() == 0 {
        assert(a =~= b);
    }
}

/// Whether `a` sorts strictly before `b` in path order.
pub fn path_sorts_before(a: &Vec<u8>, b: &Vec<u8>) -> (r: bool)
    ensures
        r == path_before(a@, b@),
{
    let mut i: usize = 0;
    assert(a@.skip(0) =~= a@);
    assert(b@.skip(0) =~= b@);
    while i < a.len() && i < b.len() && a[i] == b[i]
        invariant
            i <= a.len(),
            i <= b.len(),
            path_before(a@.skip(i as int), b@.skip(i as int)) == path_before(a@, b@),
        decreases a.len() - i,
    {
        assert(a@.skip(i as int).drop_first() =~= a@.skip(i + 1));
        assert(b@.skip(i as int).drop_first() =~= b@.skip(i + 1));
        i = i + 1;
    }
    if i == b.len() {
        false
    } else if i == a.len() {
        true
    } else {
        let ra: i32 = if a[i] == 0x2f {
            -1
        } else {
            a[i] as i32
        };
        let rb: i32 = if b[i] == 0x2f {
            -1
        } else {
            b[i] as i32
        };
        assert(a@.skip(i as int)[0] == a@[i as int]);
        assert(b@.skip(i as int)[0] == b@[i as int]);
        ra < rb
    }
}

/// The key at position `i` of `order`.
pub open spec fn key_at(keys: Seq<Vec<u8>>, order: Seq<usize>, i: int) -> Seq<u8> {
    keys[order[i] as int]@
}

/// `order` lists the indices of `keys` once each, so that the keys come in
/// path order, equal keys in index order (a stable sort).
pub open spec fn is_stable_path_order(keys: Seq<Vec<u8>>, order: Seq<usize>) -> bool {
    &&& order.len() == keys.len()
    &&& forall|i: int| 0 <= i < order.len() ==> #[trigger] order[i] < keys.len()
    &&& forall|i: int, j: int| 0 <= i < j < order.len() ==> order[i] != order[j]
    &&& forall|i: int, j: int|
        0 <= i < j < order.len() ==> !path_before(
            #[trigger] key_at(keys, order, j),
            #[trigger] key_at(keys, order, i),
        )
    &&& forall|i: int, j: int|
        0 <= i < j < order.len() && key_at(keys, order, i) == key_at(keys, order, j) ==> order[i]
            < order[j]
}

proof fn lemma_order_covers(keys: Seq<Vec<u8>>, order: Seq<usize>, x: int)
    requires
        is_stable_path_order(keys, order),
        0 <= x < keys.len(),
    ensures
        exists|j: int| 0 <= j < order.len() && order[j] == x,
{
    let n = keys.len() as int;
    let oi = order.map_values(|v: usize| v as int);
    assert(oi.no_duplicates()) by {
        assert forall|i: int, j: int| 0 <= i < oi.len() && 0 <= j < oi.len() && i != j implies oi[i]
            != oi[j] by {
            if i < j {
                assert(order[i] != order[j]);
            } else {
                assert(order[j] != order[i]);
            }
        }
    }
    oi.unique_seq_to_set();
    lemma_int_range(0, n);
    assert(oi.to_set().subset_of(set_int_range(0, n))) by {
        assert forall|v: int| oi.to_set().contains(v) implies set_int_range(0, n).contains(v) by {
            let j = choose|j: int| 0 <= j < oi.len() && oi[j] == v;
            assert(order[j] < keys.len());
        }
    }
    lemma_subset_equality(oi.to_set(), set_int_range(0, n));
    assert(set_int_range(0, n).contains(x));
    assert(oi.to_set().contains(x));
    let j = choose|j: int| 0 <= j < oi.len() && oi[j] == x;
    assert(order[j] == x);
}

/// Index `x` comes before index `y` in the stable path order of `keys`.
pub open spec fn index_before(keys: Seq<Vec<u8>>, x: int, y: int) -> bool {
    path_before(keys[x]@, keys[y]@) || (keys[x]@ == keys[y]@ && x < y)
}

proof fn lemma_order_increasing(keys: Seq<Vec<u8>>, order: Seq<usize>, i: int, j: int)
    requires
        is_stable_path_order(keys, order),
        0 <= i < j < order.len(),
    ensures
        index_before(keys, order[i] as int, order[j] as int),
{
    law_path_before_total(key_at(keys, order, i), key_at(keys, order, j));
}

proof fn lemma_orders_agree_at(keys: Seq<Vec<u8>>, o1: Seq<usize>, o2: Seq<usize>, i: int)
    requires
        is_stable_path_order(keys, o1),
        is_stable_path_order(keys, o2),
        0 <= i < keys.len(),
        forall|k: int| 0 <= k < i ==> o1[k] == o2[k],
    ensures
        o1[i] == o2[i],
{
    if o1[i] != o2[i] {
        lemma_order_covers(keys, o2, o1[i] as int);
        let j = choose|j: int| 0 <= j < o2.len() && o2[j] == o1[i];
        if j < i {
            assert(o1[j] == o2[j]);
            assert(false);
        }
        lemma_order_covers(keys, o1, o2[i] as int);
        let m = choose|m: int| 0 <= m < o1.len() && o1[m] == o2[i];
        if m < i {
            assert(o2[m] == o1[m]);
            assert(false);
        }
        lemma_order_increasing(keys, o2, i, j);
        lemma_order_increasing(keys, o1, i, m);
        let x = o1[i] as int;
        let y = o2[i] as int;
        law_path_before_total(keys[x]@, keys[y]@);
        law_path_before_irreflexive(keys[x]@);
        assert(false);
    }
}

proof fn lemma_orders_agree_below(keys: Seq<Vec<u8>>, o1: Seq<usize>, o2: Seq<usize>, i: int)
    requires
        is_stable_path_order(keys, o1),
        is_stable_path_order(keys, o2),
        0 <= i <= keys.len(),
    ensures
        forall|k: int| 0 <= k < i ==> o1[k] == o2[k],
    decreases i,
{
    if i > 0 {
        lemma_orders_agree_below(keys, o1, o2, i - 1);
        lemma_orders_agree_at(keys, o1, o2, i - 1);
    }
}

/// There is only one stable path order of a list of keys, so
/// `sorted_path_order` is fully determined by its contract.
pub proof fn law_stable_path_order_unique(keys: Seq<Vec<u8>>, o1: Seq<usize>, o2: Seq<usize>)
    requires
        is_stable_path_order(keys, o1),
        is_stable_path_order(keys, o2),
    ensures
        o1 == o2,
{
    lemma_orders_agree_below(keys, o1, o2, keys.len() as int);
    assert(o1 =~= o2);
}

/// The order in which files are listed: their paths relative to the root
/// (given as bytes), sorted in path order; files with the same key keep their
/// order.
pub fn sorted_path_order(keys: &Vec<Vec<u8>>) -> (order: Vec<usize>)
    ensures
        is_stable_path_order(keys@, order@),
{
    let mut order: Vec<usize> = Vec::new();
    let mut k: usize = 0;
    while k < keys.len()
        invariant
            k <= keys.len(),
            order.len() == k,
            forall|i: int| 0 <= i < order.len() ==> #[trigger] order@[i] < k,
            forall|i: int, j: int| 0 <= i < j < order.len() ==> order@[i] != order@[j],
            forall|i: int, j: int|
                0 <= i < j < order.len() ==> !path_before(
                    #[trigger] key_at(keys@, order@, j),
                    #[trigger] key_at(keys@, order@, i),
                ),
            forall|i: int, j: int|
                0 <= i < j < order.len() && key_at(keys@, order@, i) == key_at(keys@, order@, j)
                    ==> order@[i] < order@[j],
        decreases keys.len() - k,
    {
        let ghost kk = keys@[k as int]@;
        let mut p: usize = 0;
        while p < order.len() && !path_sorts_before(&keys[k], &keys[order[p]])
            invariant
                k < keys.len(),
                kk == keys@[k as int]@,
                order.len() == k,
                p <= order.len(),
                forall|i: int| 0 <= i < order.len() ==> #[trigger] order@[i] < k,
                forall|q: int| 0 <= q < p ==> !path_before(kk, #[trigger] key_at(keys@, order@, q)),
            decreases order.len() - p,
        {
            p = p + 1;
        }
        let ghost old_order = order@;
        order.insert(p, k);
        proof {
            assert forall|i: int| 0 <= i < order.len() implies #[trigger] order@[i] < k + 1 by {
                if i < p {
                    assert(order@[i] == old_order[i]);
                } else if i > p {
                    assert(order@[i] == old_order[i - 1]);
                }
            }
            assert forall|i: int, j: int| 0 <= i < j < order.len() implies order@[i] != order@[j] by {
                if j < p {
                } else if j == p {
                    assert(order@[i] == old_order[i]);
                } else if i < p {
                    assert(order@[j] == old_order[j - 1]);
                } else if i == p {
                    assert(order@[j] == old_order[j - 1]);
                } else {
                    assert(order@[i] == old_order[i - 1]);
                    assert(order@[j] == old_order[j - 1]);
                }
            }
            assert forall|i: int, j: int| 0 <= i < j < order.len() implies !path_before(
                #[trigger] key_at(keys@, order@, j),
                #[trigger] key_at(keys@, order@, i),
            ) && (key_at(keys@, order@, i) == key_at(keys@, order@, j) ==> order@[i] < order@[j]) by {
                if j < p {
                    assert(key_at(keys@, order@, i) == key_at(keys@, old_order, i));
                    assert(key_at(keys@, order@, j) == key_at(keys@, old_order, j));
                    assert(order@[i] == old_order[i]);
                    assert(order@[j] == old_order[j]);
                } else if j == p {
                    assert(order@[j] == k);
                    assert(key_at(keys@, order@, j) == kk);
                    assert(key_at(keys@, order@, i) == key_at(keys@, old_order, i));
                    assert(order@[i] == old_order[i]);
                    assert(!path_before(kk, key_at(keys@, old_order, i)));
                } else if i == p {
                    assert(order@[i] == k);
                    let oj = key_at(keys@, old_order, j - 1);
                    assert(key_at(keys@, order@, j) == oj);
                    assert(order@[j] == old_order[j - 1]);
                    // the found position holds a key after `kk`, and `oj` is not before it
                    let op = key_at(keys@, old_order, p as int);
                    assert(path_before(kk, op));
                    if j - 1 > p {
                        assert(!path_before(oj, op));
                    }
                    assert(key_at(keys@, order@, i) == kk);
                    if path_before(oj, kk) {
                        law_path_before_transitive(oj, kk, op);
                        law_path_before_irreflexive(op);
                        assert(false);
                    }
                    law_path_before_irreflexive(kk);
                    if kk == oj {
                        law_path_before_irreflexive(op);
                        if j - 1 > p {
                            assert(!path_before(kk, op));
                        }
                        assert(false);
                    }
                } else if i < p {
                    assert(key_at(keys@, order@, i) == key_at(keys@, old_order, i));
                    assert(key_at(keys@, order@, j) == key_at(keys@, old_order, j - 1));
                    assert(order@[i] == old_order[i]);
                    assert(order@[j] == old_order[j - 1]);
                } else {
                    assert(key_at(keys@, order@, i) == key_at(keys@, old_order, i - 1));
                    assert(key_at(keys@, order@, j) == key_at(keys@, old_order, j - 1));
                    assert(order@[i] == old_order[i - 1]);
                    assert(order@[j] == old_order[j - 1]);
                }
            }
        }
        k = k + 1;
    }
    order
}

/// Most files shown to the model.
pub const MAX_FILES: usize = 24;

/// Once this many bytes of file sections are used, no further file is added.
pub const MAX_BYTES: usize = 120000;

/// Longest file text (in bytes) shown before it is cut.
pub const MAX_FILE_BYTES: usize = 20000;

/// `s` with every backslash turned into a forward slash.
pub open spec fn forward_slashes(s: Seq<char>) -> Seq<char> {
    s.map_values(|c: char| if c == '\\' { '/' } else { c })
}

/// Replaces every backslash of `s` by a forward slash.
pub fn to_forward_slashes(s: &str) -> (r: String)
    ensures
        r@ == forward_slashes(s@),
{
    let v = chars_of(s);
    let mut r = String::new();
    let mut i: usize = 0;
    while i < v.len()
        invariant
            v@ == s@,
            i <= v.len(),
            r@ == forward_slashes(s@.subrange(0, i as int)),
        decreases v.len() - i,
    {
        let c = v[i];
        push_char(&mut r, if c == '\\' { '/' } else { c });
        i = i + 1;
        assert(forward_slashes(s@.subrange(0, i as int)) =~= forward_slashes(
            s@.subrange(0, i - 1),
        ).push(if c == '\\' { '/' } else { c }));
    }
    assert(s@.subrange(0, v.len() as int) =~= s@);
    r
}

/// Opening lines of the workspace context for the workspace rooted at `root`.
pub open spec fn context_header(root: Seq<char>) -> Seq<char> {
    "Workspace root: "@ + root + "\nUse only these files as source of truth.\n\nFiles:\n"@
}

/// The section that shows one file: its path relative to the root, with forward
/// slashes, and its text cut to `MAX_FILE_BYTES`.
pub open spec fn file_section(relative_path: Seq<char>, content: Seq<char>) -> Seq<char> {
    "\n--- FILE: "@ + forward_slashes(relative_path) + "\n"@ + spec_trim_text(
        content,
        MAX_FILE_BYTES as int,
    ) + "\n"@
}

/// Line added when no file could be shown.
pub open spec fn no_files_note() -> Seq<char> {
    "\n(no readable text files found)\n"@
}

/// Abstract state of a workspace context under construction.
pub struct ContextView {
    /// Text gathered so far.
    pub text: Seq<char>,
    /// Bytes of file sections counted so far (saturating at `usize::MAX`).
    pub bytes_used: nat,
    /// Number of files shown so far.
    pub included: nat,
}

/// Builds the workspace context shown to the model: a header, then one section
/// per readable text file, in order, until `MAX_FILES` files are shown or
/// `MAX_BYTES` bytes of sections are used.
pub struct ContextBuilder {
    output: String,
    bytes_used: usize,
    included: usize,
}

impl View for ContextBuilder {
    type V = ContextView;

    closed spec fn view(&self) -> ContextView {
        ContextView {
            text: self.output@,
            bytes_used: self.bytes_used as nat,
            included: self.included as nat,
        }
    }
}

/// Whether a builder in state `st` still takes a file.
pub open spec fn context_accepts(st: ContextView) -> bool {
    st.included < MAX_FILES && st.bytes_used < MAX_BYTES
}

/// `a + b`, saturating at `usize::MAX`.
pub open spec fn saturating_sum(a: nat, b: nat) -> nat {
    if a + b > usize::MAX {
        usize::MAX as nat
    } else {
        a + b
    }
}

impl ContextBuilder {
    /// A context with only the header for the workspace rooted at `root`.
    pub fn new(root: &str) -> (r: ContextBuilder)
        ensures
            r@ == (ContextView { text: context_header(root@), bytes_used: 0, included: 0 }),
    {
        let mut output = String::new();
        output.append("Workspace root: ");
        output.append(root);
        output.append("\nUse only these files as source of truth.\n\nFiles:\n");
        ContextBuilder { output, bytes_used: 0, included: 0 }
    }

    /// Whether another file may still be added.
    pub fn accepts_more(&self) -> (r: bool)
        ensures
            r == context_accepts(self@),
    {
        self.included < MAX_FILES && self.bytes_used < MAX_BYTES
    }

    /// Adds the section of the file at `relative_path` (relative to the root)
    /// whose text is `content`.
    pub fn add_file(&mut self, relative_path: &str, content: &str)
        requires
            context_accepts(old(self)@),
        ensures
            final(self)@.text == old(self)@.text + file_section(relative_path@, content@),
            final(self)@.included == old(self)@.included + 1,
            final(self)@.included <= MAX_FILES,
            final(self)@.bytes_used == saturating_sum(
                old(self)@.bytes_used,
                encode_utf8(file_section(relative_path@, content@)).len(),
            ),
    {
        let relative = to_forward_slashes(relative_path);
        let trimmed = trim_text(content, MAX_FILE_BYTES);
        let mut section = String::new();
        section.append("\n--- FILE: ");
        section.append(relative.as_str());
        section.append("\n");
        section.append(trimmed.as_str());
        section.append("\n");
        let section_bytes = section.as_str().as_bytes().len();
        self.bytes_used = self.bytes_used.saturating_add(section_bytes);
        self.included = self.included + 1;
        self.output.append(section.as_str());
    }

    /// The finished context; a note stands in for the file list when no file
    /// was added.
    pub fn finish(self) -> (r: String)
        ensures
            r@ == if self@.included == 0 {
                self@.text + no_files_note()
            } else {
                self@.text
            },
    {
        let mut output = self.output;
        if self.included == 0 {
            output.append("\n(no readable text files found)\n");
        }
        output
    }
}

} // verus!
