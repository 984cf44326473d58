//! Records kept in the order of their identifiers.
//!
//! A book holds each kind of record in a vector whose identifiers rise
//! strictly from front to back. That one property makes an identifier
//! name at most one record, and makes walking the vector the same as
//! walking the records by identifier.

use vstd::prelude::*;

verus! {

/// A record that carries its own identifier.
pub trait Keyed {
    /// The identifier of the record.
    spec fn key(&self) -> u32;

    /// The identifier of the record.
    fn id(&self) -> (r: u32)
        ensures
            r == self.key(),
    ;
}

/// The identifiers rise strictly from front to back.
pub open spec fn ascending<T: Keyed>(s: Seq<T>) -> bool {
    forall|i: int, j: int|
        0 <= i < j < s.len() ==> (#[trigger] s[i]).key() < (#[trigger] s[j]).key()
}

/// Every identifier was handed out by a counter that now stands at `last`.
pub open spec fn issued<T: Keyed>(s: Seq<T>, last: u32) -> bool {
    forall|i: int| 0 <= i < s.len() ==> 1 <= (#[trigger] s[i]).key() <= last
}

/// Some record in `s` has the identifier `id`.
pub open spec fn holds<T: Keyed>(s: Seq<T>, id: u32) -> bool {
    exists|i: int| 0 <= i < s.len() && (#[trigger] s[i]).key() == id
}

/// Where in `s` the record with the identifier `id` stands.
pub open spec fn place<T: Keyed>(s: Seq<T>, id: u32) -> int
    recommends
        holds(s, id),
{
    choose|i: int| 0 <= i < s.len() && (#[trigger] s[i]).key() == id
}

/// The record with the identifier `id`, if `s` has one.
pub open spec fn lookup<T: Keyed>(s: Seq<T>, id: u32) -> Option<T> {
    if holds(s, id) {
        Some(s[place(s, id)])
    } else {
        None
    }
}

/// In an ascending sequence a record stands where its identifier is found.
pub proof fn lemma_place_is<T: Keyed>(s: Seq<T>, i: int)
    requires
        ascending(s),
        0 <= i < s.len(),
    ensures
        holds(s, s[i].key()),
        place(s, s[i].key()) == i,
        lookup(s, s[i].key()) == Some(s[i]),
{
    let p = place(s, s[i].key());
    assert(0 <= p < s.len() && s[p].key() == s[i].key());
    if p < i {
        assert(s[p].key() < s[i].key());
    } else if i < p {
        assert(s[i].key() < s[p].key());
    }
}

/// A found place is within the sequence and holds the identifier sought.
pub proof fn lemma_place_holds<T: Keyed>(s: Seq<T>, id: u32)
    requires
        holds(s, id),
    ensures
        0 <= place(s, id) < s.len(),
        s[place(s, id)].key() == id,
{
}

/// A record appended under an identifier above all others keeps the order,
/// and leaves every other identifier where it was.
pub proof fn lemma_push_keeps_order<T: Keyed>(s: Seq<T>, last: u32, r: T)
    requires
        ascending(s),
        issued(s, last),
        r.key() > last,
    ensures
        ascending(s.push(r)),
        issued(s.push(r), r.key()),
        !holds(s, r.key()),
        forall|id: u32| id != r.key() ==> holds(s.push(r), id) == holds(s, id),
        forall|id: u32| holds(s, id) ==> place(s.push(r), id) == place(s, id),
{
    let t = s.push(r);
    assert forall|i: int, j: int| 0 <= i < j < t.len() implies (#[trigger] t[i]).key() < (
    #[trigger] t[j]).key() by {
        if j < s.len() {
            assert(s[i].key() < s[j].key());
        } else {
            assert(1 <= s[i].key() <= last);
        }
    }
    assert forall|i: int| 0 <= i < t.len() implies 1 <= (#[trigger] t[i]).key() <= r.key() by {
        if i < s.len() {
            assert(1 <= s[i].key() <= last);
        }
    }
    if holds(s, r.key()) {
        let p = place(s, r.key());
        assert(1 <= s[p].key() <= last);
    }
    assert forall|id: u32| id != r.key() implies holds(t, id) == holds(s, id) by {
        if holds(s, id) {
            let p = place(s, id);
            assert(t[p].key() == id);
        }
        if holds(t, id) {
            let p = place(t, id);
            assert(p < s.len());
            assert(s[p].key() == id);
        }
    }
    assert forall|id: u32| holds(s, id) implies place(t, id) == place(s, id) by {
        let p = place(s, id);
        assert(t[p].key() == id);
        lemma_place_is(t, p);
    }
}

/// A record replaced by one with the same identifier keeps the order, and
/// every identifier stays where it was.
pub proof fn lemma_update_keeps_order<T: Keyed>(s: Seq<T>, last: u32, i: int, r: T)
    requires
        ascending(s),
        issued(s, last),
        0 <= i < s.len(),
        r.key() == s[i].key(),
    ensures
        ascending(s.update(i, r)),
        issued(s.update(i, r), last),
        forall|id: u32| holds(s.update(i, r), id) == holds(s, id),
        forall|id: u32| holds(s, id) ==> place(s.update(i, r), id) == place(s, id),
{
    let t = s.update(i, r);
    assert forall|a: int, b: int| 0 <= a < b < t.len() implies (#[trigger] t[a]).key() < (
    #[trigger] t[b]).key() by {
        assert(s[a].key() < s[b].key());
    }
    assert forall|a: int| 0 <= a < t.len() implies 1 <= (#[trigger] t[a]).key() <= last by {
        assert(1 <= s[a].key() <= last);
    }
    assert forall|id: u32| holds(t, id) == holds(s, id) by {
        if holds(s, id) {
            let p = place(s, id);
            assert(t[p].key() == id);
        }
        if holds(t, id) {
            let p = place(t, id);
            assert(s[p].key() == id);
        }
    }
    assert forall|id: u32| holds(s, id) implies place(t, id) == place(s, id) by {
        let p = place(s, id);
        assert(t[p].key() == id);
        lemma_place_is(t, p);
    }
}

/// A record taken out leaves the others in order, and only its own
/// identifier goes missing.
pub proof fn lemma_remove_keeps_order<T: Keyed>(s: Seq<T>, last: u32, i: int)
    requires
        ascending(s),
        issued(s, last),
        0 <= i < s.len(),
    ensures
        ascending(s.remove(i)),
        issued(s.remove(i), last),
        !holds(s.remove(i), s[i].key()),
        forall|id: u32| id != s[i].key() ==> holds(s.remove(i), id) == holds(s, id),
        forall|id: u32|
            id != s[i].key() && holds(s, id) ==> lookup(s.remove(i), id) == lookup(s, id),
{
    let t = s.remove(i);
    assert forall|a: int, b: int| 0 <= a < b < t.len() implies (#[trigger] t[a]).key() < (
    #[trigger] t[b]).key() by {
        let low = if a < i { a } else { a + 1 };
        let high = if b < i { b } else { b + 1 };
        assert(s[low].key() < s[high].key());
    }
    assert forall|a: int| 0 <= a < t.len() implies 1 <= (#[trigger] t[a]).key() <= last by {
        let low = if a < i { a } else { a + 1 };
        assert(1 <= s[low].key() <= last);
    }
    if holds(t, s[i].key()) {
        let p = place(t, s[i].key());
        let at = if p < i { p } else { p + 1 };
        assert(s[at].key() == s[i].key());
        if at < i {
            assert(s[at].key() < s[i].key());
        } else {
            assert(s[i].key() < s[at].key());
        }
    }
    assert forall|id: u32| id != s[i].key() implies holds(t, id) == holds(s, id) by {
        if holds(s, id) {
            let p = place(s, id);
            let q = if p < i { p } else { p - 1 };
            assert(t[q].key() == id);
        }
        if holds(t, id) {
            let p = place(t, id);
            let at = if p < i { p } else { p + 1 };
            assert(s[at].key() == id);
        }
    }
    assert forall|id: u32| id != s[i].key() && holds(s, id) implies lookup(t, id) == lookup(
        s,
        id,
    ) by {
        let p = place(s, id);
        let q = if p < i { p } else { p - 1 };
        assert(t[q].key() == id);
        lemma_place_is(t, q);
    }
}

/// Finds the record with the identifier `id`.
pub fn find<T: Keyed>(v: &Vec<T>, id: u32) -> (r: Option<usize>)
    requires
        ascending(v@),
    ensures
        r is Some == holds(v@, id),
        r is Some ==> r->0 == place(v@, id),
{
    let mut i: usize = 0;
    while i < v.len()
        invariant
            i <= v.len(),
            ascending(v@),
            forall|k: int| 0 <= k < i ==> (#[trigger] v@[k]).key() != id,
        decreases v.len() - i,
    {
        if v[i].id() == id {
            proof {
                lemma_place_is(v@, i as int);
            }
            return Some(i);
        }
        i += 1;
    }
    None
}

/// Whether the identifiers of `v` rise strictly and lie between one and
/// `last`.
pub fn in_order<T: Keyed>(v: &Vec<T>, last: u32) -> (r: bool)
    ensures
        r == (ascending(v@) && issued(v@, last)),
{
    let mut i: usize = 0;
    let mut below: u32 = 0;
    while i < v.len()
        invariant
            i <= v.len(),
            forall|a: int, b: int|
                0 <= a < b < i ==> (#[trigger] v@[a]).key() < (#[trigger] v@[b]).key(),
            forall|a: int| 0 <= a < i ==> 1 <= (#[trigger] v@[a]).key() <= last,
            forall|a: int| 0 <= a < i ==> (#[trigger] v@[a]).key() <= below,
            i > 0 ==> below == v@[i - 1].key(),
            i == 0 ==> below == 0,
        decreases v.len() - i,
    {
        let id: u32 = v[i].id();
        if id <= below || id > last {
            proof {
                if ascending(v@) && issued(v@, last) {
                    assert(1 <= v@[i as int].key() <= last);
                    if i > 0 {
                        assert(v@[i - 1].key() < v@[i as int].key());
                    }
                }
            }
            return false;
        }
        below = id;
        i += 1;
    }
    true
}

/// Keeping the records that pass a test, one record further along.
pub proof fn lemma_filter_step<T>(s: Seq<T>, pred: spec_fn(T) -> bool, i: int)
    requires
        0 <= i < s.len(),
    ensures
        s.take(i + 1).filter(pred) == if pred(s[i]) {
            s.take(i).filter(pred).push(s[i])
        } else {
            s.take(i).filter(pred)
        },
{
    reveal(Seq::filter);
    assert(s.take(i + 1).drop_last() =~= s.take(i));
}

} // verus!
