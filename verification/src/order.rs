//! Stable ordering by an integer key: the order that a stable sort by that
//! key, ascending or descending, puts a list in.

use vstd::prelude::*;

verus! {

/// In a stable sort of `keys` (descending when `desc`), the element at
/// index `i` comes before the one at index `j`.
pub open spec fn precedes(keys: Seq<i128>, desc: bool, i: int, j: int) -> bool {
    if keys[i] == keys[j] {
        i < j
    } else if desc {
        keys[i] > keys[j]
    } else {
        keys[i] < keys[j]
    }
}

/// `ord` lists the indices of `keys`, each once, in the order a stable sort
/// by key (descending when `desc`) leaves them.
pub open spec fn is_stable_order(keys: Seq<i128>, desc: bool, ord: Seq<usize>) -> bool {
    &&& ord.len() == keys.len()
    &&& forall|k: int| 0 <= k < ord.len() ==> (#[trigger] ord[k]) < keys.len()
    &&& forall|k: int, l: int| 0 <= k < l < ord.len() ==> precedes(keys, desc, #[trigger] ord[k] as int, #[trigger] ord[l] as int)
}

proof fn lemma_precedes_total(keys: Seq<i128>, desc: bool, a: int, b: int)
    requires
        a != b,
    ensures
        precedes(keys, desc, a, b) || precedes(keys, desc, b, a),
        !(precedes(keys, desc, a, b) && precedes(keys, desc, b, a)),
{
}

proof fn lemma_precedes_trans(keys: Seq<i128>, desc: bool, a: int, b: int, c: int)
    requires
        precedes(keys, desc, a, b),
        precedes(keys, desc, b, c),
    ensures
        precedes(keys, desc, a, c),
{
}

/// A key `a` sorts strictly before a key `b`.
fn key_first(a: i128, b: i128, desc: bool) -> (r: bool)
    ensures
        r == (a != b && (if desc {
            a > b
        } else {
            a < b
        })),
{
    if a == b {
        false
    } else if desc {
        a > b
    } else {
        a < b
    }
}

/// The stable order of the indices of `keys`.
pub fn stable_order(keys: &Vec<i128>, desc: bool) -> (ord: Vec<usize>)
    ensures
        is_stable_order(keys@, desc, ord@),
{
    let n = keys.len();
    let mut ord: Vec<usize> = Vec::new();
    let mut i: usize = 0;
    while i < n
        invariant
            n == keys@.len(),
            i <= n,
            ord@.len() == i,
            forall|k: int| 0 <= k < ord@.len() ==> (#[trigger] ord@[k]) < i,
            forall|k: int, l: int|
                0 <= k < l < ord@.len() ==> precedes(keys@, desc, #[trigger] ord@[k] as int, #[trigger] ord@[l] as int),
        decreases n - i,
    {
        let ki = keys[i];
        let mut p: usize = 0;
        while p < ord.len() && !key_first(ki, keys[ord[p]], desc)
            invariant
                n == keys@.len(),
                i < n,
                ki == keys@[i as int],
                p <= ord@.len(),
                ord@.len() == i,
                forall|k: int| 0 <= k < ord@.len() ==> (#[trigger] ord@[k]) < i,
                forall|k: int| 0 <= k < p ==> precedes(keys@, desc, #[trigger] ord@[k] as int, i as int),
            decreases ord@.len() - p,
        {
            proof {
                let e = ord@[p as int] as int;
                assert(e < i);
                assert(precedes(keys@, desc, e, i as int));
            }
            p = p + 1;
        }
        let ghost old_ord = ord@;
        proof {
            if p < old_ord.len() {
                let e = old_ord[p as int] as int;
                assert(e < i);
                assert(precedes(keys@, desc, i as int, e));
            }
        }
        ord.insert(p, i);
        proof {
            assert(ord@ == old_ord.insert(p as int, i));
            assert forall|k: int| 0 <= k < ord@.len() implies (#[trigger] ord@[k]) < i + 1 by {
                if k < p {
                    assert(ord@[k] == old_ord[k]);
                } else if k > p {
                    assert(ord@[k] == old_ord[k - 1]);
                }
            }
            assert forall|k: int, l: int| 0 <= k < l < ord@.len() implies precedes(
                keys@,
                desc,
                #[trigger] ord@[k] as int,
                #[trigger] ord@[l] as int,
            ) by {
                if l < p {
                    assert(ord@[k] == old_ord[k] && ord@[l] == old_ord[l]);
                } else if l == p {
                    assert(ord@[k] == old_ord[k]);
                } else if k == p {
                    assert(ord@[l] == old_ord[l - 1]);
                    if l - 1 > p {
                        lemma_precedes_trans(
                            keys@,
                            desc,
                            i as int,
                            old_ord[p as int] as int,
                            old_ord[l - 1] as int,
                        );
                    }
                } else if k < p {
                    assert(ord@[k] == old_ord[k] && ord@[l] == old_ord[l - 1]);
                } else {
                    assert(ord@[k] == old_ord[k - 1] && ord@[l] == old_ord[l - 1]);
                }
            }
        }
        i = i + 1;
    }
    ord
}


/// `ord` lists each index below `n` exactly once.
pub open spec fn is_permutation(ord: Seq<usize>, n: nat) -> bool {
    &&& ord.len() == n
    &&& forall|k: int| 0 <= k < ord.len() ==> (#[trigger] ord[k]) < n
    &&& forall|k: int, l: int| 0 <= k < l < ord.len() ==> #[trigger] ord[k] != #[trigger] ord[l]
}

/// A stable order lists each index once.
pub proof fn lemma_stable_order_is_permutation(keys: Seq<i128>, desc: bool, ord: Seq<usize>)
    requires
        is_stable_order(keys, desc, ord),
    ensures
        is_permutation(ord, keys.len()),
{
    assert forall|k: int, l: int| 0 <= k < l < ord.len() implies #[trigger] ord[k] != #[trigger] ord[l] by {
        assert(precedes(keys, desc, ord[k] as int, ord[l] as int));
    }
}

/// The items rearranged so that the `k`-th one is `items[ord[k]]`.
pub fn apply_order<T>(items: Vec<T>, ord: &Vec<usize>) -> (r: Vec<T>)
    requires
        is_permutation(ord@, items@.len()),
    ensures
        r@ == Seq::new(ord@.len(), |k: int| items@[ord@[k] as int]),
{
    let n = items.len();
    let ghost target = Seq::new(ord@.len(), |k: int| items@[ord@[k] as int]);
    let mut slots: Vec<Option<T>> = Vec::new();
    let mut items = items;
    let ghost orig = items@;
    while items.len() > 0
        invariant
            items@.len() + slots@.len() == n,
            orig.len() == n,
            items@ == orig.subrange(0, items@.len() as int),
            forall|j: int| 0 <= j < slots@.len() ==> slots@[j] == Some(orig[n - 1 - j]),
        decreases items@.len(),
    {
        let x = items.pop().unwrap();
        assert(x == orig[items@.len() as int]);
        slots.push(Some(x));
        assert(items@ =~= orig.subrange(0, items@.len() as int));
    }
    let mut out: Vec<T> = Vec::new();
    let mut k: usize = 0;
    while k < n
        invariant
            n == orig.len(),
            slots@.len() == n,
            is_permutation(ord@, n as nat),
            k <= n,
            out@ == target.subrange(0, k as int),
            target == Seq::new(ord@.len(), |t: int| orig[ord@[t] as int]),
            forall|j: int|
                0 <= j < n ==> (#[trigger] slots@[j] == Some(orig[n - 1 - j]) || exists|t: int|
                    0 <= t < k && ord@[t] == n - 1 - j),
        decreases n - k,
    {
        let idx = ord[k];
        let slot = n - 1 - idx;
        let mut taken: Option<T> = None;
        proof {
            assert(slots@[slot as int] == Some(orig[idx as int])) by {
                if !(slots@[slot as int] == Some(orig[n - 1 - slot])) {
                    let t = choose|t: int| 0 <= t < k && ord@[t] == n - 1 - slot;
                    assert(ord@[t] == ord@[k as int]);
                    assert(false);
                }
            }
        }
        let ghost before = slots@;
        std::mem::swap(&mut slots[slot], &mut taken);
        assert(taken == before[slot as int]);
        let item = match taken {
            Some(it) => it,
            None => {
                assert(false);
                return Vec::new();
            },
        };
        out.push(item);
        proof {
            assert(out@ =~= target.subrange(0, k + 1));
            assert forall|j: int|
                0 <= j < n implies (#[trigger] slots@[j] == Some(orig[n - 1 - j]) || exists|t: int|
                    0 <= t < k + 1 && ord@[t] == n - 1 - j) by {
                if j == slot {
                    assert(ord@[k as int] == n - 1 - j);
                } else {
                    assert(slots@[j] == before[j]);
                }
            }
        }
        k = k + 1;
    }
    assert(out@ =~= target);
    out
}

/// `a` and `b` agree on their first `k` characters.
pub open spec fn chars_agree(a: Seq<char>, b: Seq<char>, k: int) -> bool {
    forall|j: int| 0 <= j < k ==> a[j] == b[j]
}

/// `a` and `b` first differ at `k`, where `a` has the smaller character.
pub open spec fn lt_at(a: Seq<char>, b: Seq<char>, k: int) -> bool {
    &&& 0 <= k < a.len()
    &&& k < b.len()
    &&& chars_agree(a, b, k)
    &&& (a[k] as int) < (b[k] as int)
}

/// Lexicographic order of names by character, for names of one length.
pub open spec fn name_lt(a: Seq<char>, b: Seq<char>) -> bool {
    exists|k: int| #[trigger] lt_at(a, b, k)
}

proof fn lemma_lt_at_unique(a: Seq<char>, b: Seq<char>, k: int, l: int)
    ensures
        !(lt_at(a, b, k) && lt_at(b, a, l)),
{
    if !(lt_at(a, b, k) && lt_at(b, a, l)) {
    } else if k < l {
        assert(b[k] == a[k]);
    } else if l < k {
        assert(a[l] == b[l]);
    }
}

proof fn lemma_first_difference(a: Seq<char>, b: Seq<char>, j: int) -> (k: int)
    requires
        0 <= j < a.len(),
        j < b.len(),
        a[j] != b[j],
    ensures
        0 <= k <= j,
        chars_agree(a, b, k),
        a[k] != b[k],
    decreases j,
{
    if chars_agree(a, b, j) {
        j
    } else {
        let i = choose|i: int| 0 <= i < j && a[i] != b[i];
        lemma_first_difference(a, b, i)
    }
}

pub proof fn lemma_name_lt_total(a: Seq<char>, b: Seq<char>)
    requires
        a.len() == b.len(),
        a != b,
    ensures
        name_lt(a, b) || name_lt(b, a),
        !(name_lt(a, b) && name_lt(b, a)),
{
    if name_lt(a, b) && name_lt(b, a) {
        let k = choose|k: int| #[trigger] lt_at(a, b, k);
        let l = choose|l: int| #[trigger] lt_at(b, a, l);
        lemma_lt_at_unique(a, b, k, l);
    }
    let j = choose|j: int| 0 <= j < a.len() && a[j] != b[j];
    if !(exists|j: int| 0 <= j < a.len() && a[j] != b[j]) {
        assert(a =~= b);
    }
    let k = lemma_first_difference(a, b, j);
    if (a[k] as int) < (b[k] as int) {
        assert(lt_at(a, b, k));
    } else {
        assert(lt_at(b, a, k));
    }
}

pub proof fn lemma_name_lt_trans(a: Seq<char>, b: Seq<char>, c: Seq<char>)
    requires
        name_lt(a, b),
        name_lt(b, c),
    ensures
        name_lt(a, c),
{
    let k = choose|k: int| #[trigger] lt_at(a, b, k);
    let l = choose|l: int| #[trigger] lt_at(b, c, l);
    if k < l {
        assert(lt_at(a, c, k));
    } else if l < k {
        assert(lt_at(a, c, l));
    } else {
        assert(lt_at(a, c, k));
    }
}

pub proof fn lemma_name_lt_irreflexive(a: Seq<char>)
    ensures
        !name_lt(a, a),
{
}

/// Whether name `a` sorts before name `b` of the same length.
pub fn name_before(a: &str, b: &str) -> (r: bool)
    requires
        a@.len() == b@.len(),
    ensures
        r == name_lt(a@, b@),
{
    let n = a.unicode_len();
    let mut i: usize = 0;
    while i < n && a.get_char(i) == b.get_char(i)
        invariant
            n == a@.len(),
            n == b@.len(),
            i <= n,
            chars_agree(a@, b@, i as int),
        decreases n - i,
    {
        i = i + 1;
    }
    if i == n {
        assert(a@ =~= b@);
        proof {
            lemma_name_lt_irreflexive(a@);
        }
        return false;
    }
    let ca = a.get_char(i);
    let cb = b.get_char(i);
    proof {
        if name_lt(a@, b@) {
            let k = choose|k: int| #[trigger] lt_at(a@, b@, k);
            if k > i {
                assert(a@[i as int] == b@[i as int]);
            }
        }
    }
    if (ca as u32) < (cb as u32) {
        assert(lt_at(a@, b@, i as int));
        true
    } else {
        false
    }
}


/// `a` sorts before `b` as strings do, character by character: at their
/// first difference, or as a proper prefix of `b`.
pub open spec fn text_lt(a: Seq<char>, b: Seq<char>) -> bool {
    name_lt(a, b) || (a.len() < b.len() && chars_agree(a, b, a.len() as int))
}

/// `text_lt` is a strict total order.
pub proof fn lemma_text_lt_order(a: Seq<char>, b: Seq<char>, c: Seq<char>)
    ensures
        !text_lt(a, a),
        a != b ==> text_lt(a, b) || text_lt(b, a),
        !(text_lt(a, b) && text_lt(b, a)),
        text_lt(a, b) && text_lt(b, c) ==> text_lt(a, c),
{
    lemma_name_lt_irreflexive(a);
    if a != b {
        if exists|j: int| 0 <= j < a.len() && j < b.len() && a[j] != b[j] {
            let j = choose|j: int| 0 <= j < a.len() && j < b.len() && a[j] != b[j];
            let k = lemma_first_difference(a, b, j);
            if (a[k] as int) < (b[k] as int) {
                assert(lt_at(a, b, k));
            } else {
                assert(lt_at(b, a, k));
            }
        } else if a.len() == b.len() {
            assert(a =~= b);
        }
    }
    if text_lt(a, b) && text_lt(b, a) {
        if name_lt(a, b) && name_lt(b, a) {
            let k = choose|k: int| #[trigger] lt_at(a, b, k);
            let l = choose|l: int| #[trigger] lt_at(b, a, l);
            lemma_lt_at_unique(a, b, k, l);
        } else if name_lt(a, b) {
            let k = choose|k: int| #[trigger] lt_at(a, b, k);
            assert(b[k] == a[k]);
        } else if name_lt(b, a) {
            let l = choose|l: int| #[trigger] lt_at(b, a, l);
            assert(a[l] == b[l]);
        }
    }
    if text_lt(a, b) && text_lt(b, c) {
        if name_lt(a, b) && name_lt(b, c) {
            lemma_name_lt_trans(a, b, c);
        } else if name_lt(a, b) {
            let k = choose|k: int| #[trigger] lt_at(a, b, k);
            assert(c[k] == b[k]);
            assert(lt_at(a, c, k));
        } else if name_lt(b, c) {
            let l = choose|l: int| #[trigger] lt_at(b, c, l);
            if l < a.len() {
                assert(a[l] == b[l]);
                assert(lt_at(a, c, l));
            } else {
                assert(chars_agree(a, c, a.len() as int));
            }
        } else {
            assert(chars_agree(a, c, a.len() as int));
        }
    }
}

/// Whether `a` sorts before `b` as strings do.
pub fn text_before(a: &str, b: &str) -> (r: bool)
    ensures
        r == text_lt(a@, b@),
{
    let la = a.unicode_len();
    let lb = b.unicode_len();
    let mut i: usize = 0;
    while i < la && i < lb && a.get_char(i) == b.get_char(i)
        invariant
            la == a@.len(),
            lb == b@.len(),
            i <= la,
            i <= lb,
            chars_agree(a@, b@, i as int),
        decreases la - i,
    {
        i = i + 1;
    }
    proof {
        lemma_name_lt_irreflexive(a@);
    }
    if i < la && i < lb {
        let ca = a.get_char(i);
        let cb = b.get_char(i);
        proof {
            if name_lt(a@, b@) {
                let k = choose|k: int| #[trigger] lt_at(a@, b@, k);
                if k > i {
                    assert(a@[i as int] == b@[i as int]);
                }
            }
        }
        if (ca as u32) < (cb as u32) {
            assert(lt_at(a@, b@, i as int));
            true
        } else {
            false
        }
    } else {
        proof {
            if name_lt(a@, b@) {
                let k = choose|k: int| #[trigger] lt_at(a@, b@, k);
                assert(k < i);
                assert(a@[k] == b@[k]);
            }
        }
        la < lb
    }
}

} // verus!
