//! A stable sort by (rank, text) keys, the order in which listings are shown.

use vstd::prelude::*;

verus! {

/// A sort key: first a rank, then a text compared character by character
/// (the order of `u64` and then of `String`).
pub struct SortKey {
    pub rank: u64,
    pub text: Vec<char>,
}

impl View for SortKey {
    type V = (u64, Seq<char>);

    open spec fn view(&self) -> (u64, Seq<char>) {
        (self.rank, self.text@)
    }
}

/// Lexicographic order on character sequences by code point: the order of
/// `String` (whose bytes are UTF-8, which keeps code-point order).
pub open spec fn chars_le(a: Seq<char>, b: Seq<char>) -> bool
    decreases a.len(),
{
    if a.len() == 0 {
        true
    } else if b.len() == 0 {
        false
    } else if a[0] != b[0] {
        (a[0] as int) < (b[0] as int)
    } else {
        chars_le(a.drop_first(), b.drop_first())
    }
}

/// The order of keys: by rank, then by text.
pub open spec fn key_le(a: (u64, Seq<char>), b: (u64, Seq<char>)) -> bool {
    a.0 < b.0 || (a.0 == b.0 && chars_le(a.1, b.1))
}

/// `p` lists each of `0..n` exactly once.
pub open spec fn is_permutation(p: Seq<int>, n: nat) -> bool {
    &&& p.len() == n
    &&& forall|i: int| 0 <= i < n ==> 0 <= #[trigger] p[i] < n
    &&& forall|i: int, j: int| 0 <= i < n && 0 <= j < n && i != j ==> #[trigger] p[i] != #[trigger] p[j]
}

/// `output` is `input` rearranged by `p`, in key order, with items of equal
/// keys in their input order.
pub open spec fn is_stable_sort_of<T>(
    input: Seq<T>,
    output: Seq<T>,
    keys: spec_fn(T) -> (u64, Seq<char>),
    p: Seq<int>,
) -> bool {
    &&& is_permutation(p, input.len())
    &&& output.len() == input.len()
    &&& forall|i: int| 0 <= i < output.len() ==> #[trigger] output[i] == input[p[i]]
    &&& forall|i: int, j: int|
        0 <= i < j < output.len() ==> key_le(keys(#[trigger] output[i]), keys(#[trigger] output[j]))
    &&& forall|i: int, j: int|
        0 <= i < j < output.len() && key_le(keys(#[trigger] output[j]), keys(#[trigger] output[i]))
            ==> p[i] < p[j]
}

/// Some rearrangement makes `output` a stable sort of `input` by `keys`.
pub open spec fn stably_sorted<T>(
    input: Seq<T>,
    output: Seq<T>,
    keys: spec_fn(T) -> (u64, Seq<char>),
) -> bool {
    exists|p: Seq<int>| is_stable_sort_of(input, output, keys, p)
}

// ---------------------------------------------------------------------------
// The order is total and transitive
// ---------------------------------------------------------------------------

/// Any two sequences are ordered one way or the other.
pub proof fn lemma_chars_le_total(a: Seq<char>, b: Seq<char>)
    ensures
        chars_le(a, b) || chars_le(b, a),
    decreases a.len(),
{
    if a.len() > 0 && b.len() > 0 && a[0] == b[0] {
        lemma_chars_le_total(a.drop_first(), b.drop_first());
    }
}

/// The order is transitive.
pub proof fn lemma_chars_le_transitive(a: Seq<char>, b: Seq<char>, c: Seq<char>)
    requires
        chars_le(a, b),
        chars_le(b, c),
    ensures
        chars_le(a, c),
    decreases a.len(),
{
    if a.len() > 0 && b.len() > 0 && c.len() > 0 && a[0] == b[0] && b[0] == c[0] {
        lemma_chars_le_transitive(a.drop_first(), b.drop_first(), c.drop_first());
    }
}

/// Keys are totally ordered.
pub proof fn lemma_key_le_total(a: (u64, Seq<char>), b: (u64, Seq<char>))
    ensures
        key_le(a, b) || key_le(b, a),
{
    lemma_chars_le_total(a.1, b.1);
}

/// The key order is transitive.
pub proof fn lemma_key_le_transitive(a: (u64, Seq<char>), b: (u64, Seq<char>), c: (u64, Seq<char>))
    requires
        key_le(a, b),
        key_le(b, c),
    ensures
        key_le(a, c),
{
    if a.0 == b.0 && b.0 == c.0 {
        lemma_chars_le_transitive(a.1, b.1, c.1);
    }
}

// ---------------------------------------------------------------------------
// Comparison
// ---------------------------------------------------------------------------

proof fn lemma_chars_le_skip(a: Seq<char>, b: Seq<char>, i: int)
    requires
        0 <= i < a.len(),
        i < b.len(),
        a[i] == b[i],
    ensures
        chars_le(a.skip(i), b.skip(i)) == chars_le(a.skip(i + 1), b.skip(i + 1)),
{
    assert(a.skip(i).drop_first() =~= a.skip(i + 1));
    assert(b.skip(i).drop_first() =~= b.skip(i + 1));
}

/// `a` comes no later than `b` in text order.
pub fn chars_le_exec(a: &Vec<char>, b: &Vec<char>) -> (res: bool)
    ensures
        res == chars_le(a@, b@),
{
    let mut i: usize = 0;
    assert(a@.skip(0) =~= a@);
    assert(b@.skip(0) =~= b@);
    loop
        invariant
            i <= a@.len(),
            i <= b@.len(),
            chars_le(a@, b@) == chars_le(a@.skip(i as int), b@.skip(i as int)),
        decreases a@.len() - i,
    {
        if i == a.len() {
            return true;
        }
        if i == b.len() {
            return false;
        }
        let x = a[i];
        let y = b[i];
        if x != y {
            proof {
                assert(a@.skip(i as int)[0] == x && b@.skip(i as int)[0] == y);
            }
            return x < y;
        }
        proof {
            lemma_chars_le_skip(a@, b@, i as int);
        }
        i = i + 1;
    }
}

/// `a` comes no later than `b` in key order.
pub fn key_le_exec(a: &SortKey, b: &SortKey) -> (res: bool)
    ensures
        res == key_le(a@, b@),
{
    if a.rank < b.rank {
        true
    } else if a.rank == b.rank {
        chars_le_exec(&a.text, &b.text)
    } else {
        false
    }
}

// ---------------------------------------------------------------------------
// Sorting
// ---------------------------------------------------------------------------

/// Where index `a` of the list after moving the item at `i` to `pos` came from.
spec fn moved_from(a: int, pos: int, i: int) -> int {
    if a < pos {
        a
    } else if a == pos {
        i
    } else if a <= i {
        a - 1
    } else {
        a
    }
}

spec fn keys_view(keys: Seq<SortKey>) -> Seq<(u64, Seq<char>)> {
    keys.map_values(|k: SortKey| k@)
}

/// The prefix `0..i` of `kv` is in key order and stable with respect to `p`.
spec fn sorted_prefix(kv: Seq<(u64, Seq<char>)>, p: Seq<int>, i: int) -> bool {
    &&& forall|a: int, b: int| 0 <= a < b < i ==> key_le(#[trigger] kv[a], #[trigger] kv[b])
    &&& forall|a: int, b: int|
        0 <= a < b < i && key_le(#[trigger] kv[b], #[trigger] kv[a]) ==> p[a] < p[b]
}

/// Sorts `items` by `keys` (the same length), stably; the two lists are
/// rearranged alike.  Returns the rearrangement: item `k` of the result was
/// item `p[k]` before.
pub fn sort_by_keys<T>(items: &mut Vec<T>, keys: &mut Vec<SortKey>) -> (p: Ghost<Seq<int>>)
    requires
        old(items).len() == old(keys).len(),
    ensures
        is_permutation(p@, old(items).len() as nat),
        final(items).len() == old(items).len(),
        final(keys).len() == old(keys).len(),
        forall|k: int| 0 <= k < final(items).len() ==> #[trigger] final(items)@[k] == old(items)@[p@[k]],
        forall|k: int| 0 <= k < final(keys).len() ==> #[trigger] final(keys)@[k] == old(keys)@[p@[k]],
        forall|a: int, b: int|
            0 <= a < b < final(keys).len() ==> key_le(
                #[trigger] final(keys)@[a]@,
                #[trigger] final(keys)@[b]@,
            ),
        forall|a: int, b: int|
            0 <= a < b < final(keys).len() && key_le(
                #[trigger] final(keys)@[b]@,
                #[trigger] final(keys)@[a]@,
            ) ==> p@[a] < p@[b],
{
    let n = items.len();
    let ghost items0 = items@;
    let ghost keys0 = keys@;
    let ghost mut p: Seq<int> = Seq::new(n as nat, |k: int| k);
    if n == 0 {
        return Ghost(p);
    }
    let mut i: usize = 1;
    while i < n
        invariant
            1 <= i <= n,
            n == old(items).len(),
            items0 == old(items)@,
            keys0 == old(keys)@,
            items.len() == n,
            keys.len() == n,
            is_permutation(p, n as nat),
            forall|k: int| 0 <= k < n ==> #[trigger] items@[k] == items0[p[k]],
            forall|k: int| 0 <= k < n ==> #[trigger] keys@[k] == keys0[p[k]],
            forall|k: int| i <= k < n ==> #[trigger] p[k] == k,
            forall|k: int| 0 <= k < i ==> #[trigger] p[k] < i,
            sorted_prefix(keys_view(keys@), p, i as int),
        decreases n - i,
    {
        let ghost kv_old = keys_view(keys@);
        let ghost keys_pre = keys@;
        let ghost items_pre = items@;
        let ghost p_old = p;
        let x = items.remove(i);
        let xk = keys.remove(i);
        let ghost keys_mid = keys@;
        // Find the first position whose key is strictly greater than `xk`.
        let mut pos: usize = 0;
        while pos < i && key_le_exec(&keys[pos], &xk)
            invariant
                pos <= i,
                i < n,
                keys.len() == n - 1,
                keys@ == keys_mid,
                forall|a: int| 0 <= a < pos ==> key_le(#[trigger] keys@[a]@, xk@),
            decreases i - pos,
        {
            pos = pos + 1;
        }
        proof {
            assert(xk@ == kv_old[i as int]);
        }
        items.insert(pos, x);
        keys.insert(pos, xk);
        proof {
            let ghost pi = pos as int;
            let ghost ii = i as int;
            let p_new = Seq::new(n as nat, |a: int| p_old[moved_from(a, pi, ii)]);
            let kv_new = keys_view(keys@);
            assert forall|a: int| 0 <= a < n implies #[trigger] keys@[a] == keys_pre[moved_from(a, pi, ii)]
                && items@[a] == items_pre[moved_from(a, pi, ii)] by {
                if a < pi {
                } else if a == pi {
                } else if a <= ii {
                    assert(keys@[a] == keys_mid[a - 1]);
                    assert(items@[a] == items_pre.remove(ii)[a - 1]);
                } else {
                    assert(keys@[a] == keys_mid[a - 1]);
                    assert(items@[a] == items_pre.remove(ii)[a - 1]);
                }
            }
            assert forall|a: int| 0 <= a < n implies #[trigger] keys@[a] == keys0[p_new[a]] && items@[a]
                == items0[p_new[a]] by {
                assert(0 <= moved_from(a, pi, ii) < n);
                assert(keys@[a] == keys_pre[moved_from(a, pi, ii)]);
            }
            assert forall|a: int| 0 <= a < n implies #[trigger] kv_new[a] == kv_old[moved_from(a, pi, ii)] by {
                assert(kv_new[a] == keys@[a]@);
                assert(keys@[a] == keys_pre[moved_from(a, pi, ii)]);
                assert(0 <= moved_from(a, pi, ii) < n);
            }
            // The new rearrangement is a permutation.
            assert forall|a: int, b: int|
                0 <= a < n && 0 <= b < n && a != b implies #[trigger] p_new[a] != #[trigger] p_new[b] by {
                let fa = moved_from(a, pi, ii);
                let fb = moved_from(b, pi, ii);
                assert(fa != fb);
                assert(0 <= fa < n && 0 <= fb < n);
            }
            assert forall|a: int| 0 <= a < n implies 0 <= #[trigger] p_new[a] < n by {
                assert(0 <= moved_from(a, pi, ii) < n);
            }
            assert forall|k: int| ii + 1 <= k < n implies #[trigger] p_new[k] == k by {
                assert(moved_from(k, pi, ii) == k);
            }
            assert forall|k: int| 0 <= k < ii + 1 implies #[trigger] p_new[k] < ii + 1 by {
                let fk = moved_from(k, pi, ii);
                assert(0 <= fk <= ii);
                if fk < ii {
                    assert(p_old[fk] < ii);
                } else {
                    assert(p_old[ii] == ii);
                }
            }
            // The prefix 0..i+1 is sorted and stable.
            let xv = kv_old[ii];
            assert forall|a: int, b: int| 0 <= a < b < ii + 1 implies key_le(
                #[trigger] kv_new[a],
                #[trigger] kv_new[b],
            ) by {
                let fa = moved_from(a, pi, ii);
                let fb = moved_from(b, pi, ii);
                if a == pi {
                    // b > pos: kv_new[b] == kv_old[b - 1] with b - 1 >= pos
                    assert(pi < ii);
                    assert(!key_le(kv_old[pi], xv));
                    lemma_key_le_total(kv_old[pi], xv);
                    if fb > pi {
                        assert(key_le(kv_old[pi], kv_old[fb]));
                        lemma_key_le_transitive(xv, kv_old[pi], kv_old[fb]);
                    }
                } else if b == pi {
                    assert(key_le(keys_mid[a]@, xv));
                    assert(kv_new[a] == kv_old[a]);
                } else {
                    assert(fa < fb);
                    assert(key_le(kv_old[fa], kv_old[fb]));
                }
            }
            assert forall|a: int, b: int|
                0 <= a < b < ii + 1 && key_le(#[trigger] kv_new[b], #[trigger] kv_new[a]) implies p_new[a]
                < p_new[b] by {
                let fa = moved_from(a, pi, ii);
                let fb = moved_from(b, pi, ii);
                if a == pi {
                    assert(pi < ii);
                    assert(!key_le(kv_old[pi], xv));
                    if fb > pi {
                        assert(key_le(kv_old[pi], kv_old[fb]));
                        lemma_key_le_transitive(kv_old[pi], kv_old[fb], xv);
                    }
                } else if b == pi {
                    assert(p_old[fa] < ii);
                    assert(p_old[ii] == ii);
                } else {
                    assert(fa < fb);
                }
            }
            p = p_new;
        }
        i = i + 1;
    }
    proof {
        let kv = keys_view(keys@);
        assert forall|a: int, b: int| 0 <= a < b < n implies key_le(
            #[trigger] keys@[a]@,
            #[trigger] keys@[b]@,
        ) by {
            assert(kv[a] == keys@[a]@ && kv[b] == keys@[b]@);
        }
        assert forall|a: int, b: int|
            0 <= a < b < n && key_le(#[trigger] keys@[b]@, #[trigger] keys@[a]@) implies p[a] < p[b] by {
            assert(kv[a] == keys@[a]@ && kv[b] == keys@[b]@);
        }
    }
    Ghost(p)
}

/// Sorts `items` stably by keys given alongside them; `key_of` names, for
/// the contract, the key of each item.
pub fn sort_with_keys<T>(
    items: Vec<T>,
    keys: Vec<SortKey>,
    Ghost(key_of): Ghost<spec_fn(T) -> (u64, Seq<char>)>,
) -> (res: Vec<T>)
    requires
        items.len() == keys.len(),
        forall|k: int| 0 <= k < items.len() ==> #[trigger] keys@[k]@ == key_of(items@[k]),
    ensures
        stably_sorted(items@, res@, key_of),
{
    let ghost items0 = items@;
    let ghost keys0 = keys@;
    let mut items = items;
    let mut keys = keys;
    let p = sort_by_keys(&mut items, &mut keys);
    proof {
        let n = items.len() as int;
        assert forall|k: int| 0 <= k < n implies #[trigger] key_of(items@[k]) == keys@[k]@ by {
            assert(items@[k] == items0[p@[k]]);
            assert(keys@[k] == keys0[p@[k]]);
        }
        assert forall|a: int, b: int| 0 <= a < b < n implies key_le(
            key_of(#[trigger] items@[a]),
            key_of(#[trigger] items@[b]),
        ) by {
            assert(key_of(items@[a]) == keys@[a]@);
            assert(key_of(items@[b]) == keys@[b]@);
        }
        assert forall|a: int, b: int|
            0 <= a < b < n && key_le(key_of(#[trigger] items@[b]), key_of(#[trigger] items@[a])) implies p@[a]
            < p@[b] by {
            assert(key_of(items@[a]) == keys@[a]@);
            assert(key_of(items@[b]) == keys@[b]@);
        }
        assert(is_stable_sort_of(items0, items@, key_of, p@));
    }
    items
}

/// A stable sort of items is a stable sort of their views, by the same key
/// read from the views.
pub proof fn lemma_stably_sorted_views<T: View>(
    input: Seq<T>,
    output: Seq<T>,
    key_of_item: spec_fn(T) -> (u64, Seq<char>),
    key_of_view: spec_fn(T::V) -> (u64, Seq<char>),
)
    requires
        stably_sorted(input, output, key_of_item),
        forall|t: T| #[trigger] key_of_item(t) == key_of_view(t@),
    ensures
        stably_sorted(
            input.map_values(|t: T| t@),
            output.map_values(|t: T| t@),
            key_of_view,
        ),
{
    let p = choose|p: Seq<int>| #[trigger] is_stable_sort_of(input, output, key_of_item, p);
    let vi = input.map_values(|t: T| t@);
    let vo = output.map_values(|t: T| t@);
    assert forall|i: int| 0 <= i < vo.len() implies #[trigger] vo[i] == vi[p[i]] by {
        assert(output[i] == input[p[i]]);
    }
    assert forall|a: int, b: int| 0 <= a < b < vo.len() implies key_le(
        key_of_view(#[trigger] vo[a]),
        key_of_view(#[trigger] vo[b]),
    ) by {
        assert(key_le(key_of_item(output[a]), key_of_item(output[b])));
    }
    assert forall|a: int, b: int|
        0 <= a < b < vo.len() && key_le(key_of_view(#[trigger] vo[b]), key_of_view(#[trigger] vo[a]))
            implies p[a] < p[b] by {
        assert(key_le(key_of_item(output[b]), key_of_item(output[a])));
    }
    assert(is_stable_sort_of(vi, vo, key_of_view, p));
}

} // verus!
