use vstd::prelude::*;

use crate::classify::is_permutation;

verus! {

/// Strict lexicographic order on texts, character by character; a proper
/// prefix comes first.
pub open spec fn text_lt(a: Seq<char>, b: Seq<char>) -> bool
    decreases a.len(),
{
    if a.len() == 0 {
        b.len() > 0
    } else if b.len() == 0 {
        false
    } else if a[0] != b[0] {
        a[0] < b[0]
    } else {
        text_lt(a.drop_first(), b.drop_first())
    }
}

/// Of two different texts, one comes first.
pub proof fn text_lt_total(a: Seq<char>, b: Seq<char>)
    ensures
        a != b ==> text_lt(a, b) || text_lt(b, a),
    decreases a.len(),
{
    if a.len() == 0 {
        if b.len() == 0 {
            assert(a =~= b);
        }
    } else if b.len() > 0 && a[0] == b[0] {
        text_lt_total(a.drop_first(), b.drop_first());
        if a.drop_first() == b.drop_first() {
            assert(a.drop_first().len() == b.drop_first().len());
            assert(a.len() == b.len());
            assert forall|i: int| 0 <= i < a.len() implies a[i] == b[i] by {
                if i > 0 {
                    assert(a[i] == a.drop_first()[i - 1]);
                    assert(b[i] == b.drop_first()[i - 1]);
                }
            }
            assert(a =~= b);
        }
    }
}

/// The order is transitive.
pub proof fn text_lt_transitive(a: Seq<char>, b: Seq<char>, c: Seq<char>)
    requires
        text_lt(a, b),
        text_lt(b, c),
    ensures
        text_lt(a, c),
    decreases a.len(),
{
    if a.len() > 0 && b.len() > 0 && c.len() > 0 && a[0] == b[0] && b[0] == c[0] {
        text_lt_transitive(a.drop_first(), b.drop_first(), c.drop_first());
    }
}

/// Whether `a` comes strictly before `b`.
pub fn text_less(a: &str, b: &str) -> (r: bool)
    ensures
        r == text_lt(a@, b@),
{
    let n = a.unicode_len();
    let m = b.unicode_len();
    let mut i: usize = 0;
    assert(a@.subrange(0, n as int) =~= a@);
    assert(b@.subrange(0, m as int) =~= b@);
    while i < n && i < m
        invariant
            n == a@.len(),
            m == b@.len(),
            i <= n,
            i <= m,
            text_lt(a@, b@) == text_lt(a@.subrange(i as int, n as int), b@.subrange(i as int, m as int)),
        decreases n - i,
    {
        let x = a.get_char(i);
        let y = b.get_char(i);
        let ghost sa = a@.subrange(i as int, n as int);
        let ghost sb = b@.subrange(i as int, m as int);
        assert(sa[0] == x && sb[0] == y);
        if x != y {
            return x < y;
        }
        assert(sa.drop_first() =~= a@.subrange(i as int + 1, n as int));
        assert(sb.drop_first() =~= b@.subrange(i as int + 1, m as int));
        i = i + 1;
    }
    i == n && i < m
}

/// Along `order`, the texts never decrease, and equal texts keep index order.
pub open spec fn ranks_ascending(order: Seq<usize>, texts: Seq<Seq<char>>) -> bool {
    forall|i: int, j: int|
        0 <= i < j < order.len() ==> text_lt(texts[order[i] as int], texts[order[j] as int]) || (
        texts[order[i] as int] == texts[order[j] as int] && order[i] < order[j])
}

/// The views of a list of strings.
pub open spec fn texts_of(v: Seq<String>) -> Seq<Seq<char>> {
    v.map_values(|s: String| s@)
}

/// The indices of `names`, ordered so that their texts ascend.
fn rank_texts(names: &Vec<String>) -> (r: Vec<usize>)
    ensures
        is_permutation(r@, names@.len()),
        ranks_ascending(r@, texts_of(names@)),
{
    let ghost t = texts_of(names@);
    let n = names.len();
    let mut out: Vec<usize> = Vec::new();
    let mut k: usize = 0;
    while k < n
        invariant
            k <= n == names@.len() == t.len(),
            t == texts_of(names@),
            is_permutation(out@, k as nat),
            ranks_ascending(out@, t),
        decreases n - k,
    {
        let mut p: usize = 0;
        while p < out.len() && !text_less(names[k].as_str(), names[out[p]].as_str())
            invariant
                k < n == names@.len() == t.len(),
                t == texts_of(names@),
                p <= out@.len(),
                is_permutation(out@, k as nat),
                forall|i: int| 0 <= i < p ==> !text_lt(t[k as int], #[trigger] t[out@[i] as int]),
            decreases out@.len() - p,
        {
            p = p + 1;
        }
        let ghost before = out@;
        out.insert(p, k);
        proof {
            let after = out@;
            let tk = t[k as int];
            assert(after == before.insert(p as int, k));
            assert forall|i: int| 0 <= i < after.len() implies (#[trigger] after[i]) < k + 1 by {
                if i < p {
                    assert(after[i] == before[i]);
                } else if i > p {
                    assert(after[i] == before[i - 1]);
                }
            }
            assert forall|i: int, j: int| 0 <= i < j < after.len() implies after[i] != after[j] by {
                if i < p {
                    assert(after[i] == before[i]);
                } else if i > p {
                    assert(after[i] == before[i - 1]);
                }
                if j < p {
                    assert(after[j] == before[j]);
                } else if j > p {
                    assert(after[j] == before[j - 1]);
                }
            }
            assert forall|x: usize| x < k + 1 implies #[trigger] after.contains(x) by {
                if x == k {
                    assert(after[p as int] == k);
                } else {
                    assert(before.contains(x));
                    let i = choose|i: int| 0 <= i < before.len() && before[i] == x;
                    if i < p {
                        assert(after[i] == x);
                    } else {
                        assert(after[i + 1] == x);
                    }
                }
            }
            if p < before.len() {
                assert(text_lt(tk, t[before[p as int] as int]));
            }
            assert forall|i: int, j: int| 0 <= i < j < after.len() implies text_lt(t[after[i] as int], t[after[j] as int])
                || (t[after[i] as int] == t[after[j] as int] && after[i] < after[j]) by {
                if j < p {
                    assert(after[i] == before[i] && after[j] == before[j]);
                } else if j == p {
                    let u = t[before[i] as int];
                    assert(after[i] == before[i]);
                    assert(!text_lt(tk, u));
                    text_lt_total(tk, u);
                    assert(before[i] < k);
                } else if i == p {
                    let w = t[before[j - 1] as int];
                    let first = t[before[p as int] as int];
                    assert(after[j] == before[j - 1]);
                    if j - 1 > p {
                        if text_lt(first, w) {
                            text_lt_transitive(tk, first, w);
                        }
                    }
                } else if i < p {
                    assert(after[i] == before[i] && after[j] == before[j - 1]);
                } else {
                    assert(after[i] == before[i - 1] && after[j] == before[j - 1]);
                }
            }
        }
        k = k + 1;
    }
    out
}

/// `names` in ascending text order, each exactly as often as it occurs.
pub fn order_versions(names: &Vec<String>) -> (r: Vec<String>)
    ensures
        r@.len() == names@.len(),
        exists|order: Seq<usize>|
            is_permutation(order, names@.len()) && forall|i: int|
                0 <= i < order.len() ==> (#[trigger] r@[i])@ == names@[order[i] as int]@,
        forall|i: int, j: int| 0 <= i < j < r@.len() ==> text_lt(r@[i]@, r@[j]@) || r@[i]@ == r@[j]@,
{
    let order = rank_texts(names);
    let mut out: Vec<String> = Vec::new();
    let mut i: usize = 0;
    while i < order.len()
        invariant
            i <= order@.len() == names@.len(),
            is_permutation(order@, names@.len()),
            ranks_ascending(order@, texts_of(names@)),
            out@.len() == i,
            forall|j: int| 0 <= j < i ==> (#[trigger] out@[j])@ == names@[order@[j] as int]@,
        decreases order@.len() - i,
    {
        out.push(names[order[i]].clone());
        i = i + 1;
    }
    proof {
        let t = texts_of(names@);
        assert forall|i: int, j: int| 0 <= i < j < out@.len() implies text_lt(out@[i]@, out@[j]@)
            || out@[i]@ == out@[j]@ by {
            assert(t[order@[i] as int] == out@[i]@);
            assert(t[order@[j] as int] == out@[j]@);
        }
    }
    out
}

} // verus!
