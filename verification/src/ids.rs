//! Lists of saved place and area IDs: what adding one to a list and
//! deleting one from it give.

use vstd::prelude::*;

verus! {

/// `saved` after saving `id`: appended when not yet listed, unchanged otherwise.
pub open spec fn added<T>(saved: Seq<T>, id: T) -> Seq<T> {
    if saved.contains(id) {
        saved
    } else {
        saved.push(id)
    }
}

/// Keeps what differs from `id`.
pub open spec fn differs_from<T>(id: T) -> spec_fn(T) -> bool {
    |x: T| x != id
}

/// `saved` after deleting `id`: every occurrence goes, the rest keep their order.
pub open spec fn removed<T>(saved: Seq<T>, id: T) -> Seq<T> {
    saved.filter(differs_from(id))
}

pub fn contains_id(v: &Vec<i64>, x: i64) -> (r: bool)
    ensures
        r == v@.contains(x),
{
    let mut i: usize = 0;
    while i < v.len()
        invariant
            i <= v@.len(),
            forall|j: int| 0 <= j < i ==> v@[j] != x,
        decreases v@.len() - i,
    {
        if v[i] == x {
            return true;
        }
        i = i + 1;
    }
    false
}

/// The saved list after saving `id`, as `POST .../saved` stores it.
pub fn post_saved_ids(saved: Vec<i64>, id: i64) -> (r: Vec<i64>)
    ensures
        r@ == added(saved@, id),
{
    let mut saved = saved;
    if !contains_id(&saved, id) {
        saved.push(id);
    }
    saved
}

/// The saved list after deleting `id`, as `DELETE .../saved/{id}` stores it.
pub fn delete_saved_ids(saved: Vec<i64>, id: i64) -> (r: Vec<i64>)
    ensures
        r@ == removed(saved@, id),
{
    let mut out: Vec<i64> = Vec::new();
    let mut i: usize = 0;
    assert(saved@.subrange(0, 0) =~= Seq::<i64>::empty());
    proof {
        reveal_with_fuel(Seq::filter, 1);
    }
    while i < saved.len()
        invariant
            i <= saved@.len(),
            out@ == saved@.subrange(0, i as int).filter(differs_from(id)),
        decreases saved@.len() - i,
    {
        let x = saved[i];
        proof {
            let nxt = saved@.subrange(0, i + 1);
            assert(nxt.drop_last() =~= saved@.subrange(0, i as int));
            reveal_with_fuel(Seq::filter, 1);
        }
        if x != id {
            out.push(x);
        }
        i = i + 1;
    }
    assert(saved@.subrange(0, saved@.len() as int) =~= saved@);
    out
}

proof fn lemma_removed_contains<T>(s: Seq<T>, id: T, x: T)
    ensures
        removed(s, id).contains(x) == (x != id && s.contains(x)),
    decreases s.len(),
{
    reveal_with_fuel(Seq::filter, 1);
    if s.len() > 0 {
        let t = s.drop_last();
        lemma_removed_contains(t, id, x);
        let ft = t.filter(differs_from(id));
        let fs = s.filter(differs_from(id));
        assert(s =~= t.push(s.last()));
        if s.contains(x) && !t.contains(x) {
            let i = choose|i: int| 0 <= i < s.len() && s[i] == x;
            if i < t.len() {
                assert(t[i] == x);
            }
            assert(s.last() == x);
        }
        if t.contains(x) {
            let i = choose|i: int| 0 <= i < t.len() && t[i] == x;
            assert(s[i] == x);
        }
        if s.last() != id {
            assert(fs == ft.push(s.last()));
            if fs.contains(x) {
                let j = choose|j: int| 0 <= j < fs.len() && fs[j] == x;
                if j < ft.len() {
                    assert(ft[j] == x);
                }
            }
            if ft.contains(x) {
                let j = choose|j: int| 0 <= j < ft.len() && ft[j] == x;
                assert(fs[j] == x);
            }
            if x == s.last() {
                assert(fs[ft.len() as int] == x);
            }
        } else {
            assert(fs == ft);
        }
    }
}

/// Saving an ID lists it; saving it again changes nothing.
pub proof fn law_saved_add<T>(s: Seq<T>, id: T)
    ensures
        added(s, id).contains(id),
        added(added(s, id), id) == added(s, id),
        forall|x: T| x != id ==> (added(s, id).contains(x) == s.contains(x)),
{
    if !s.contains(id) {
        assert(s.push(id)[s.len() as int] == id);
    }
    assert forall|x: T| x != id implies (added(s, id).contains(x) == s.contains(x)) by {
        if !s.contains(id) {
            if s.contains(x) {
                let i = choose|i: int| 0 <= i < s.len() && s[i] == x;
                assert(s.push(id)[i] == x);
            }
            if s.push(id).contains(x) {
                let i = choose|i: int| 0 <= i < s.len() + 1 && s.push(id)[i] == x;
                assert(s[i] == x);
            }
        }
    }
}

/// Deleting an ID unlists it and keeps every other listed ID.
pub proof fn law_saved_delete<T>(s: Seq<T>, id: T)
    ensures
        !removed(s, id).contains(id),
        forall|x: T| x != id ==> (#[trigger] removed(s, id).contains(x) == s.contains(x)),
{
    lemma_removed_contains(s, id, id);
    assert forall|x: T| x != id implies (#[trigger] removed(s, id).contains(x) == s.contains(x)) by {
        lemma_removed_contains(s, id, x);
    }
}

/// Deleting an ID that saving just added gives back the list from before.
pub proof fn law_saved_add_then_delete<T>(s: Seq<T>, id: T)
    requires
        !s.contains(id),
    ensures
        removed(added(s, id), id) == s,
{
    reveal_with_fuel(Seq::filter, 1);
    assert(s.push(id).drop_last() =~= s);
    assert(s.filter(differs_from(id)) =~= s) by {
        lemma_filter_keeps_all(s, id);
    }
}

proof fn lemma_filter_keeps_all<T>(s: Seq<T>, id: T)
    requires
        !s.contains(id),
    ensures
        s.filter(differs_from(id)) == s,
    decreases s.len(),
{
    reveal_with_fuel(Seq::filter, 1);
    if s.len() > 0 {
        let t = s.drop_last();
        assert(!t.contains(id)) by {
            if t.contains(id) {
                let i = choose|i: int| 0 <= i < t.len() && t[i] == id;
                assert(s[i] == id);
            }
        }
        lemma_filter_keeps_all(t, id);
        assert(s.last() != id) by {
            assert(s[s.len() - 1] == s.last());
        }
        assert(t.push(s.last()) =~= s);
    }
}

} // verus!
