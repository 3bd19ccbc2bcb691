//! Which files of the extraction directory are frames, and their order.
//!
//! The frames are the files whose extension is the format's, taken in the
//! order of their names; the names number the frames, so that order is the
//! order of the recording.

use vstd::prelude::*;
use vstd::string::*;

use crate::text::{chars_of, str_equal};

verus! {

/// The position of the last `.` of a name, or -1 when it has none.
pub open spec fn last_dot(s: Seq<char>) -> int
    decreases s.len(),
{
    if s.len() == 0 {
        -1
    } else if s.last() == '.' {
        s.len() - 1
    } else {
        last_dot(s.drop_last())
    }
}

/// The extension of a file name, as `Path::extension` reads it: the text
/// after the last `.`, unless there is none, the only `.` starts the name,
/// or the name is `..`.
pub open spec fn file_extension(name: Seq<char>) -> Option<Seq<char>> {
    if name == ".."@ {
        None
    } else if last_dot(name) > 0 {
        Some(name.subrange(last_dot(name) + 1, name.len() as int))
    } else {
        None
    }
}

/// `p` is the last `.` of `s` (or -1 for none) when no `.` follows it.
pub proof fn lemma_last_dot(s: Seq<char>, p: int)
    requires
        -1 <= p < s.len(),
        p >= 0 ==> s[p] == '.',
        forall|q: int| p < q < s.len() ==> s[q] != '.',
    ensures
        last_dot(s) == p,
    decreases s.len(),
{
    if s.len() > 0 && s.last() != '.' {
        let t = s.drop_last();
        assert forall|q: int| p < q < t.len() implies t[q] != '.' by {
            assert(t[q] == s[q]);
        }
        if p >= 0 {
            assert(t[p] == s[p]);
        }
        lemma_last_dot(t, p);
    }
}

/// A name made of a non-empty stem, a `.` and a text without `.` has that
/// text as its extension; a name without `.`, or whose only `.` starts it,
/// has none.
pub proof fn lemma_file_extension_of_parts(stem: Seq<char>, ext: Seq<char>)
    requires
        stem.len() > 0,
        !(stem == "."@ && ext.len() == 0),
        forall|q: int| 0 <= q < ext.len() ==> ext[q] != '.',
    ensures
        file_extension(stem + "."@ + ext) == Some(ext),
        (forall|q: int| 0 <= q < stem.len() ==> stem[q] != '.') ==> file_extension(stem) is None,
        (forall|q: int| 0 <= q < ext.len() ==> ext[q] != '.') ==> file_extension("."@ + ext) is None,
{
    reveal_strlit(".");
    reveal_strlit("..");
    let name = stem + "."@ + ext;
    let p = stem.len() as int;
    assert(name[p] == '.');
    assert forall|q: int| p < q < name.len() implies name[q] != '.' by {
        assert(name[q] == ext[q - p - 1]);
    }
    lemma_last_dot(name, p);
    assert(name.subrange(p + 1, name.len() as int) =~= ext);
    if name == ".."@ {
        assert(name.len() == 2);
        assert(stem.len() == 1 && ext.len() == 0);
        assert(name[0] == stem[0] && ".."@[0] == '.' && "."@[0] == '.');
        assert(stem =~= "."@);
    }
    if forall|q: int| 0 <= q < stem.len() ==> stem[q] != '.' {
        lemma_last_dot(stem, -1);
        if stem == ".."@ {
            assert(stem[0] == '.');
        }
    }
    let dotted = "."@ + ext;
    assert(dotted[0] == '.');
    assert forall|q: int| 0 < q < dotted.len() implies dotted[q] != '.' by {
        assert(dotted[q] == ext[q - 1]);
    }
    lemma_last_dot(dotted, 0);
}

/// Whether the characters of `v` from `start` on are those of `e`.
fn suffix_equals(v: &Vec<char>, start: usize, e: &Vec<char>) -> (r: bool)
    requires
        start <= v.len(),
    ensures
        r == (v@.subrange(start as int, v.len() as int) == e@),
{
    if v.len() - start != e.len() {
        return false;
    }
    let mut k: usize = 0;
    while k < e.len()
        invariant
            start <= v.len(),
            v.len() - start == e.len(),
            k <= e.len(),
            forall|j: int| 0 <= j < k ==> v@[start + j] == e@[j],
        decreases e.len() - k,
    {
        if v[start + k] != e[k] {
            assert(v@.subrange(start as int, v.len() as int)[k as int] != e@[k as int]);
            return false;
        }
        k = k + 1;
    }
    assert(v@.subrange(start as int, v.len() as int) =~= e@);
    true
}

/// Whether a file name has the given extension.
pub fn has_extension(name: &str, extension: &str) -> (r: bool)
    ensures
        r == (file_extension(name@) == Some(extension@)),
{
    if str_equal(name, "..") {
        return false;
    }
    let v = chars_of(name);
    let e = chars_of(extension);
    let mut j: usize = v.len();
    while j > 0 && v[j - 1] != '.'
        invariant
            j <= v.len(),
            forall|q: int| j <= q < v.len() ==> v@[q] != '.',
        decreases j,
    {
        j = j - 1;
    }
    proof {
        lemma_last_dot(v@, j - 1);
    }
    if j <= 1 {
        return false;
    }
    suffix_equals(&v, j, &e)
}

/// Whether `a` comes no later than `b` in the order of their characters
/// (for UTF-8 text, the order of their bytes).
pub open spec fn text_le(a: Seq<char>, b: Seq<char>) -> bool
    decreases a.len(),
{
    if a.len() == 0 {
        true
    } else if b.len() == 0 {
        false
    } else if a[0] != b[0] {
        a[0] < b[0]
    } else {
        text_le(a.drop_first(), b.drop_first())
    }
}

/// Two texts that agree before position `k` and differ at `k` are ordered
/// by their characters at `k`.
pub proof fn lemma_text_le_first_difference(a: Seq<char>, b: Seq<char>, k: int)
    requires
        0 <= k < a.len(),
        k < b.len(),
        a.take(k) == b.take(k),
        a[k] != b[k],
    ensures
        text_le(a, b) == (a[k] < b[k]),
        text_le(b, a) == (b[k] < a[k]),
    decreases k,
{
    if k > 0 {
        assert(a[0] == a.take(k)[0] && b[0] == b.take(k)[0]);
        assert(a.drop_first().take(k - 1) =~= a.take(k).drop_first());
        assert(b.drop_first().take(k - 1) =~= b.take(k).drop_first());
        lemma_text_le_first_difference(a.drop_first(), b.drop_first(), k - 1);
    }
}

/// A text comes no later than any text it begins, and strictly before a
/// longer one.
pub proof fn lemma_text_le_prefix(a: Seq<char>, b: Seq<char>)
    requires
        a.len() <= b.len(),
        b.take(a.len() as int) == a,
    ensures
        text_le(a, b),
        a.len() < b.len() ==> !text_le(b, a),
    decreases a.len(),
{
    if a.len() > 0 {
        assert(a[0] == b.take(a.len() as int)[0]);
        assert(b.drop_first().take(a.len() - 1) =~= a.drop_first());
        lemma_text_le_prefix(a.drop_first(), b.drop_first());
    }
}

/// The order of file names is the lexicographic order read from the first
/// character: where two names first differ, the smaller character comes
/// first, and a name comes before every longer name that it begins.
pub proof fn lemma_text_le_lexicographic(a: Seq<char>, b: Seq<char>)
    ensures
        forall|k: int|
            0 <= k < a.len() && k < b.len() && a.take(k) == b.take(k) && a[k] != b[k] ==> (
            text_le(a, b) <==> #[trigger] a[k] < b[k]),
        a.len() < b.len() && b.take(a.len() as int) == a ==> text_le(a, b) && !text_le(b, a),
        text_le(a, a),
{
    assert forall|k: int|
        0 <= k < a.len() && k < b.len() && a.take(k) == b.take(k) && a[k] != b[k] implies (text_le(
        a,
        b,
    ) <==> #[trigger] a[k] < b[k]) by {
        lemma_text_le_first_difference(a, b, k);
    }
    if a.len() < b.len() && b.take(a.len() as int) == a {
        lemma_text_le_prefix(a, b);
    }
    assert(a.take(a.len() as int) =~= a);
    lemma_text_le_prefix(a, a);
}

/// The order of texts is total.
pub proof fn lemma_text_le_total(a: Seq<char>, b: Seq<char>)
    ensures
        text_le(a, b) || text_le(b, a),
    decreases a.len(),
{
    if a.len() > 0 && b.len() > 0 {
        if a[0] == b[0] {
            lemma_text_le_total(a.drop_first(), b.drop_first());
        }
    }
}

/// The order of texts is transitive.
pub proof fn lemma_text_le_transitive(a: Seq<char>, b: Seq<char>, c: Seq<char>)
    requires
        text_le(a, b),
        text_le(b, c),
    ensures
        text_le(a, c),
    decreases a.len(),
{
    if a.len() > 0 && b.len() > 0 && c.len() > 0 && a[0] == b[0] && b[0] == c[0] {
        lemma_text_le_transitive(a.drop_first(), b.drop_first(), c.drop_first());
    }
}

/// Compares two texts in the order of their characters.
pub fn text_le_exec(a: &str, b: &str) -> (r: bool)
    ensures
        r == text_le(a@, b@),
{
    let va = chars_of(a);
    let vb = chars_of(b);
    let mut i: usize = 0;
    assert(va@.skip(0) =~= va@ && vb@.skip(0) =~= vb@);
    while i < va.len() && i < vb.len()
        invariant
            va@ == a@,
            vb@ == b@,
            i <= va.len(),
            i <= vb.len(),
            text_le(va@, vb@) == text_le(va@.skip(i as int), vb@.skip(i as int)),
        decreases va.len() - i,
    {
        let (ca, cb) = (va[i], vb[i]);
        assert(va@.skip(i as int)[0] == ca && vb@.skip(i as int)[0] == cb);
        if ca != cb {
            return ca < cb;
        }
        assert(va@.skip(i as int).drop_first() =~= va@.skip(i + 1));
        assert(vb@.skip(i as int).drop_first() =~= vb@.skip(i + 1));
        i = i + 1;
    }
    i == va.len()
}

/// Whether `order` lists each frame file of `names` once, the files being
/// the names with the extension, in the order of their names.
pub open spec fn frame_order(names: Seq<String>, extension: Seq<char>, order: Seq<usize>) -> bool {
    &&& forall|k: int|
        0 <= k < order.len() ==> #[trigger] order[k] < names.len() && file_extension(
            names[order[k] as int]@,
        ) == Some(extension)
    &&& forall|i: int|
        0 <= i < names.len() && file_extension(#[trigger] names[i]@) == Some(extension)
            ==> order.contains(i as usize)
    &&& forall|k: int, l: int| 0 <= k < l < order.len() ==> order[k] != order[l]
    &&& forall|k: int, l: int|
        0 <= k < l < order.len() ==> text_le(names[order[k] as int]@, names[order[l] as int]@)
}

/// In a frame order, of two listed names the earlier one has the smaller
/// character where they first differ, and is not a longer name beginning
/// with the later one.
pub proof fn lemma_frame_order_by_name(names: Seq<String>, extension: Seq<char>, order: Seq<usize>, k: int, l: int)
    requires
        frame_order(names, extension, order),
        0 <= k < l < order.len(),
    ensures
        ({
            let x = names[order[k] as int]@;
            let y = names[order[l] as int]@;
            &&& forall|j: int|
                0 <= j < x.len() && j < y.len() && x.take(j) == y.take(j) && x[j] != y[j] ==> #[trigger] x[j]
                    < y[j]
            &&& !(y.len() < x.len() && x.take(y.len() as int) == y)
        }),
{
    let x = names[order[k] as int]@;
    let y = names[order[l] as int]@;
    assert(text_le(x, y));
    lemma_text_le_lexicographic(x, y);
    lemma_text_le_lexicographic(y, x);
}

/// The frame files among the files of the extraction directory: the
/// positions of the names with the format's extension, in the order of the
/// names.
pub fn frame_files(names: &Vec<String>, extension: &str) -> (order: Vec<usize>)
    ensures
        frame_order(names@, extension@, order@),
{
    let mut out: Vec<usize> = Vec::new();
    let mut i: usize = 0;
    while i < names.len()
        invariant
            i <= names.len(),
            forall|k: int|
                0 <= k < out.len() ==> #[trigger] out@[k] < i && file_extension(
                    names@[out@[k] as int]@,
                ) == Some(extension@),
            forall|j: int|
                0 <= j < i && file_extension(#[trigger] names@[j]@) == Some(extension@)
                    ==> out@.contains(j as usize),
            forall|k: int, l: int| 0 <= k < l < out.len() ==> out@[k] != out@[l],
            forall|k: int, l: int|
                0 <= k < l < out.len() ==> text_le(
                    names@[out@[k] as int]@,
                    names@[out@[l] as int]@,
                ),
        decreases names.len() - i,
    {
        if has_extension(names[i].as_str(), extension) {
            let ghost x = names@[i as int]@;
            let mut p: usize = 0;
            while p < out.len() && text_le_exec(names[out[p]].as_str(), names[i].as_str())
                invariant
                    p <= out.len(),
                    forall|k: int| 0 <= k < out.len() ==> #[trigger] out@[k] < names.len(),
                    forall|k: int| 0 <= k < p ==> text_le(#[trigger] names@[out@[k] as int]@, x),
                    x == names@[i as int]@,
                    i < names.len(),
                decreases out.len() - p,
            {
                p = p + 1;
            }
            let ghost before = out@;
            proof {
                if p < out.len() {
                    lemma_text_le_total(names@[out@[p as int] as int]@, x);
                    assert forall|l: int| p <= l < before.len() implies text_le(
                        x,
                        names@[before[l] as int]@,
                    ) by {
                        if l > p {
                            lemma_text_le_transitive(
                                x,
                                names@[before[p as int] as int]@,
                                names@[before[l] as int]@,
                            );
                        }
                    }
                }
            }
            out.insert(p, i);
            assert forall|k: int| 0 <= k < out.len() implies (k < p ==> #[trigger] out@[k] == before[k])
                && (k == p ==> out@[k] == i) && (k > p ==> out@[k] == before[k - 1]) by {}
            assert forall|j: int|
                0 <= j < i + 1 && file_extension(#[trigger] names@[j]@) == Some(extension@)
                    implies out@.contains(j as usize) by {
                if j == i {
                    assert(out@[p as int] == i);
                } else {
                    let k = choose|k: int| 0 <= k < before.len() && before[k] == j as usize;
                    if k < p {
                        assert(out@[k] == j as usize);
                    } else {
                        assert(out@[k + 1] == j as usize);
                    }
                }
            }
            assert forall|k: int, l: int| 0 <= k < l < out.len() implies text_le(
                names@[out@[k] as int]@,
                names@[out@[l] as int]@,
            ) by {
                if l == p {
                } else if k == p {
                } else if k < p && l > p {
                    lemma_text_le_transitive(
                        names@[out@[k] as int]@,
                        x,
                        names@[out@[l] as int]@,
                    );
                }
            }
        } else {
            assert forall|j: int|
                0 <= j < i + 1 && file_extension(#[trigger] names@[j]@) == Some(extension@)
                    implies out@.contains(j as usize) by {
            }
        }
        i = i + 1;
    }
    out
}

} // verus!
