//! Ordered index lists threaded through an arena.
//!
//! An index keeps arena blocks in priority order: the head is the best
//! entry, and following each block's link walks the entries from best to
//! worst. The index is generic over a payload capability: a total priority
//! preorder (`before`) that keeps the list sorted, and a lookup equality
//! (`key_match`). Several indices can share one arena; operations touch only
//! blocks of their own list plus the block they allocate or free, so sibling
//! indices are unaffected.

use vstd::prelude::*;

use crate::arena::Arena;
use crate::constants::NIL;
use crate::error::ManifestError;

verus! {

/// The ordering and equality capability an index payload supplies.
pub trait OrderedPayload: Sized + Copy {
    /// `self` sorts no later than `other`: a total preorder.
    spec fn before_spec(self, other: Self) -> bool;

    /// `self` is the entry that a lookup probe `other` searches for.
    spec fn key_match_spec(self, other: Self) -> bool;

    proof fn lemma_before_total(a: Self, b: Self)
        ensures
            a.before_spec(b) || b.before_spec(a),
    ;

    proof fn lemma_before_trans(a: Self, b: Self, c: Self)
        requires
            a.before_spec(b),
            b.before_spec(c),
        ensures
            a.before_spec(c),
    ;

    fn before(&self, other: &Self) -> (r: bool)
        ensures
            r == self.before_spec(*other),
    ;

    fn key_match(&self, other: &Self) -> (r: bool)
        ensures
            r == self.key_match_spec(*other),
    ;
}

/// One index list: its head index and, in ghost state, the chain of block
/// indices it threads through the arena.
pub struct OrderedList {
    pub head: u32,
    pub elems: Ghost<Seq<u32>>,
}

/// The chain is live, linked in order, duplicate-free and headed correctly.
pub open spec fn list_linked<P>(l: OrderedList, a: Arena<P>) -> bool {
    &&& (forall|k: int| 0 <= k < l.elems@.len() ==> a.is_live(#[trigger] l.elems@[k]))
    &&& (forall|k: int|
        0 <= k < l.elems@.len() ==> a.next_of(#[trigger] l.elems@[k]) == (if k + 1
            < l.elems@.len() {
            l.elems@[k + 1]
        } else {
            NIL
        }))
    &&& (forall|j: int, k: int| 0 <= j < k < l.elems@.len() ==> l.elems@[j] != l.elems@[k])
    &&& l.head == (if l.elems@.len() == 0 {
        NIL
    } else {
        l.elems@[0]
    })
}

/// The payloads of the chain, best first.
pub open spec fn payloads<P>(l: OrderedList, a: Arena<P>) -> Seq<P> {
    l.elems@.map(|_k: int, i: u32| a.payload_of(i))
}

/// Every earlier entry sorts no later than every later one.
pub open spec fn list_sorted<P: OrderedPayload>(l: OrderedList, a: Arena<P>) -> bool {
    forall|j: int, k: int|
        0 <= j < k < l.elems@.len() ==> a.payload_of(#[trigger] l.elems@[j]).before_spec(
            a.payload_of(#[trigger] l.elems@[k]),
        )
}

pub open spec fn list_wf<P: OrderedPayload>(l: OrderedList, a: Arena<P>) -> bool {
    list_linked(l, a) && list_sorted(l, a)
}

impl OrderedList {
    /// An empty index.
    pub fn new() -> (r: Self)
        ensures
            r.elems@.len() == 0,
            r.head == NIL,
    {
        OrderedList { head: NIL, elems: Ghost(Seq::empty()) }
    }

    /// The best entry's index, or `NIL` on an empty index.
    pub fn best(&self) -> (r: u32)
        ensures
            r == self.head,
    {
        self.head
    }
}

/// A list untouched by a mutation keeps its shape: if every block of `l`
/// reads the same in `a2` as in `a1`, the list is as well-formed over `a2`.
pub proof fn lemma_list_frame<P: OrderedPayload>(l: OrderedList, a1: Arena<P>, a2: Arena<P>)
    requires
        list_wf(l, a1),
        a2.num_allocated >= a1.num_allocated,
        a2.blocks@.len() >= a1.blocks@.len(),
        forall|k: int|
            0 <= k < l.elems@.len() ==> a2.blocks@[#[trigger] l.elems@[k] as int]
                == a1.blocks@[l.elems@[k] as int],
    ensures
        list_wf(l, a2),
        payloads(l, a2) == payloads(l, a1),
{
    assert(payloads(l, a2) =~= payloads(l, a1));
}

/// What a sequence contains after inserting one element.
pub proof fn lemma_insert_contains<A>(s: Seq<A>, pos: int, v: A)
    requires
        0 <= pos <= s.len(),
    ensures
        s.insert(pos, v).contains(v),
        forall|x: A| s.contains(x) ==> #[trigger] s.insert(pos, v).contains(x),
        forall|x: A| #[trigger] s.insert(pos, v).contains(x) ==> s.contains(x) || x == v,
{
    let s2 = s.insert(pos, v);
    assert(s2[pos] == v);
    assert forall|x: A| s.contains(x) implies #[trigger] s2.contains(x) by {
        let k = choose|k: int| 0 <= k < s.len() && s[k] == x;
        if k < pos {
            assert(s2[k] == x);
        } else {
            assert(s2[k + 1] == x);
        }
    }
    assert forall|x: A| #[trigger] s2.contains(x) implies s.contains(x) || x == v by {
        let k = choose|k: int| 0 <= k < s2.len() && s2[k] == x;
        if k < pos {
            assert(s[k] == x);
        } else if k > pos {
            assert(s[k - 1] == x);
        }
    }
}

/// What a sequence contains after removing one position.
pub proof fn lemma_remove_contains<A>(s: Seq<A>, pos: int)
    requires
        0 <= pos < s.len(),
    ensures
        forall|x: A| #[trigger] s.remove(pos).contains(x) ==> s.contains(x),
        forall|x: A| s.contains(x) && x != s[pos] ==> #[trigger] s.remove(pos).contains(x),
{
    let s2 = s.remove(pos);
    assert forall|x: A| #[trigger] s2.contains(x) implies s.contains(x) by {
        let k = choose|k: int| 0 <= k < s2.len() && s2[k] == x;
        if k < pos {
            assert(s[k] == x);
        } else {
            assert(s[k + 1] == x);
        }
    }
    assert forall|x: A| s.contains(x) && x != s[pos] implies #[trigger] s2.contains(x) by {
        let k = choose|k: int| 0 <= k < s.len() && s[k] == x;
        if k < pos {
            assert(s2[k] == x);
        } else {
            assert(s2[k - 1] == x);
        }
    }
}

/// Inserting anywhere adds exactly one copy to the multiset of entries.
pub proof fn lemma_insert_to_multiset<A>(s: Seq<A>, pos: int, v: A)
    requires
        0 <= pos <= s.len(),
    ensures
        s.insert(pos, v).to_multiset() == s.to_multiset().insert(v),
{
    broadcast use vstd::seq_lib::group_to_multiset_ensures;

    let s2 = s.insert(pos, v);
    assert(s2 =~= s.take(pos).push(v) + s.skip(pos));
    vstd::seq_lib::lemma_multiset_commutative(s.take(pos).push(v), s.skip(pos));
    vstd::seq_lib::lemma_multiset_commutative(s.take(pos), s.skip(pos));
    assert(s =~= s.take(pos) + s.skip(pos));
    assert(s.take(pos).push(v).to_multiset() == s.take(pos).to_multiset().insert(v));
    assert(s2.to_multiset() =~= s.to_multiset().insert(v));
}

/// Inserts `p` behind every entry that sorts no later than it, so equal
/// priorities keep first-in-first-out order. Fails only when the arena is
/// exhausted, leaving everything unchanged.
#[verifier::loop_isolation(false)]
#[verifier::rlimit(100)]
pub fn list_insert<P: OrderedPayload>(l: &mut OrderedList, a: &mut Arena<P>, p: P) -> (r: (
    Result<u32, ManifestError>,
    Ghost<int>,
))
    requires
        old(a).wf(),
        list_wf(*old(l), *old(a)),
    ensures
        final(a).wf(),
        list_wf(*final(l), *final(a)),
        final(a).capacity() == old(a).capacity(),
        final(a).allocated() >= old(a).allocated(),
        r.0 is Ok <==> old(a).can_allocate(),
        match r.0 {
            Ok(idx) => {
                &&& !old(a).is_live(idx)
                &&& final(a).is_live(idx)
                &&& final(a).allocated() - final(a).free_count() == old(a).allocated() - old(
                    a,
                ).free_count() + 1
                &&& (forall|i: u32|
                    old(a).is_live(i) ==> #[trigger] final(a).is_live(i) && final(a).allocated()
                        >= old(a).allocated())
                &&& (forall|i: u32| #[trigger] final(a).is_live(i) ==> old(a).is_live(i) || i == idx)
                &&& (forall|i: u32|
                    old(a).is_live(i) && !old(l).elems@.contains(i)
                        ==> #[trigger] final(a).blocks@[i as int] == old(a).blocks@[i as int])
                &&& ({
                    let pos = r.1@;
                    &&& 0 <= pos <= old(l).elems@.len()
                    &&& final(l).elems@ == old(l).elems@.insert(pos, idx)
                    &&& payloads(*final(l), *final(a)) == payloads(*old(l), *old(a)).insert(
                        pos,
                        p,
                    )
                    &&& (forall|j: int|
                        0 <= j < pos ==> payloads(*old(l), *old(a))[j].before_spec(p))
                    &&& (pos < old(l).elems@.len() ==> !payloads(*old(l), *old(a))[pos].before_spec(
                        p,
                    ))
                })
            },
            Err(e) => {
                &&& *final(l) == *old(l)
                &&& *final(a) == *old(a)
                &&& e == ManifestError::CapacityExhausted
            },
        },
{
    let ghost old_elems: Seq<u32> = l.elems@;
    let ghost ps: Seq<P> = payloads(*l, *a);
    let mut cur: u32 = l.head;
    let mut prev: u32 = NIL;
    let ghost mut k: int = 0;
    while cur != NIL && a.get_payload(cur).before(&p)
        invariant
            0 <= k <= old_elems.len(),
            cur == (if k < old_elems.len() {
                old_elems[k]
            } else {
                NIL
            }),
            prev == (if k == 0 {
                NIL
            } else {
                old_elems[k - 1]
            }),
            forall|j: int| 0 <= j < k ==> ps[j].before_spec(p),
        decreases old_elems.len() - k,
    {
        prev = cur;
        cur = a.read_next(cur);
        proof {
            k = k + 1;
        }
    }
    proof {
        if k < old_elems.len() {
            assert(a.is_live(old_elems[k]));
            assert(cur != NIL);
            assert(!ps[k].before_spec(p));
        }
    }
    let idx: u32 = match a.allocate(p, cur) {
        Ok(idx) => idx,
        Err(e) => {
            return (Err(e), Ghost(0int));
        },
    };
    proof {
        assert forall|j: int| 0 <= j < old_elems.len() implies old_elems[j] != idx by {
            assert(old(a).is_live(old_elems[j]));
        }
    }
    if prev == NIL {
        l.head = idx;
    } else {
        a.set_next(prev, idx);
    }
    proof {
        l.elems@ = old_elems.insert(k, idx);
        let a2 = *a;
        // Every old chain block reads the same, except the predecessor whose
        // link now points at the new block; payloads are untouched.
        assert forall|j: int| 0 <= j < old_elems.len() implies a2.is_live(#[trigger] old_elems[j])
            && a2.payload_of(old_elems[j]) == old(a).payload_of(old_elems[j]) by {
            assert(old(a).is_live(old_elems[j]));
        }
        assert forall|j: int, k2: int|
            0 <= j < k2 < l.elems@.len() implies a2.payload_of(
            #[trigger] l.elems@[j],
        ).before_spec(a2.payload_of(#[trigger] l.elems@[k2])) by {
            if k2 < k {
                assert(l.elems@[j] == old_elems[j] && l.elems@[k2] == old_elems[k2]);
            } else if j < k && k2 == k {
                assert(ps[j].before_spec(p));
            } else if j < k && k2 > k {
                assert(l.elems@[k2] == old_elems[k2 - 1]);
                if j == k2 - 1 {
                    assert(false);
                }
            } else if j == k {
                assert(k < old_elems.len());
                assert(!ps[k].before_spec(p));
                P::lemma_before_total(ps[k], p);
                assert(l.elems@[k2] == old_elems[k2 - 1]);
                if k2 - 1 > k {
                    P::lemma_before_trans(p, ps[k], ps[k2 - 1]);
                }
            } else {
                assert(l.elems@[j] == old_elems[j - 1] && l.elems@[k2] == old_elems[k2 - 1]);
            }
        }
        assert(payloads(*l, a2) =~= ps.insert(k, p));
        assert(l.elems@ == old_elems.insert(k, idx));
    }
    (Ok(idx), Ghost(k))
}

/// Unlinks the entry at block `idx` and recycles its block.
#[verifier::loop_isolation(false)]
#[verifier::rlimit(100)]
pub fn list_remove<P: OrderedPayload>(l: &mut OrderedList, a: &mut Arena<P>, idx: u32) -> (r:
    Ghost<int>)
    requires
        old(a).wf(),
        list_wf(*old(l), *old(a)),
        old(l).elems@.contains(idx),
    ensures
        final(a).wf(),
        list_wf(*final(l), *final(a)),
        final(a).capacity() == old(a).capacity(),
        final(a).allocated() == old(a).allocated(),
        final(a).free_count() == old(a).free_count() + 1,
        !final(a).is_live(idx),
        (forall|i: u32|
            old(a).is_live(i) && i != idx ==> #[trigger] final(a).is_live(i)),
        (forall|i: u32| #[trigger] final(a).is_live(i) ==> old(a).is_live(i) && i != idx),
        (forall|i: u32|
            old(a).is_live(i) && !old(l).elems@.contains(i) ==> #[trigger] final(a).blocks@[i as int]
                == old(a).blocks@[i as int]),
        ({
            let pos = r@;
            &&& 0 <= pos < old(l).elems@.len()
            &&& old(l).elems@[pos] == idx
            &&& final(l).elems@ == old(l).elems@.remove(pos)
            &&& payloads(*final(l), *final(a)) == payloads(*old(l), *old(a)).remove(pos)
        }),
{
    let ghost old_elems: Seq<u32> = l.elems@;
    let ghost ps: Seq<P> = payloads(*l, *a);
    let ghost pos: int = choose|pos: int|
        0 <= pos < old_elems.len() && old_elems[pos] == idx;
    let mut cur: u32 = l.head;
    let mut prev: u32 = NIL;
    let ghost mut k: int = 0;
    while cur != idx
        invariant
            0 <= k <= pos,
            cur == old_elems[k],
            prev == (if k == 0 {
                NIL
            } else {
                old_elems[k - 1]
            }),
        decreases pos - k,
    {
        proof {
            if k == pos {
                assert(false);
            }
        }
        prev = cur;
        cur = a.read_next(cur);
        proof {
            k = k + 1;
        }
    }
    proof {
        if k != pos {
            assert(old_elems[k] == old_elems[pos]);
        }
    }
    let succ: u32 = a.read_next(idx);
    if prev == NIL {
        l.head = succ;
    } else {
        a.set_next(prev, succ);
    }
    a.free(idx);
    proof {
        l.elems@ = old_elems.remove(pos);
        let a2 = *a;
        assert forall|j: int| 0 <= j < l.elems@.len() implies a2.is_live(#[trigger] l.elems@[j])
            && a2.payload_of(l.elems@[j]) == old(a).payload_of(l.elems@[j]) by {
            let jo = if j < pos {
                j
            } else {
                j + 1
            };
            assert(l.elems@[j] == old_elems[jo]);
            assert(old(a).is_live(old_elems[jo]));
            assert(old_elems[jo] != idx);
        }
        assert forall|j: int| 0 <= j < l.elems@.len() implies a2.next_of(#[trigger] l.elems@[j])
            == (if j + 1 < l.elems@.len() {
            l.elems@[j + 1]
        } else {
            NIL
        }) by {
            let jo = if j < pos {
                j
            } else {
                j + 1
            };
            assert(l.elems@[j] == old_elems[jo]);
            if jo == pos - 1 {
                assert(old_elems[jo] == prev);
            } else {
                assert(old_elems[jo] != idx);
                assert(old_elems[jo] != prev || pos == 0);
            }
        }
        assert(payloads(*l, a2) =~= ps.remove(pos));
        assert(l.elems@ == old_elems.remove(pos));
    }
    Ghost(pos)
}

/// The first entry that `probe` key-matches, or `NIL` when none does.
#[verifier::loop_isolation(false)]
pub fn list_lookup<P: OrderedPayload>(l: &OrderedList, a: &Arena<P>, probe: &P) -> (r: u32)
    requires
        a.wf(),
        list_wf(*l, *a),
    ensures
        r == NIL ==> (forall|j: int|
            0 <= j < l.elems@.len() ==> !payloads(*l, *a)[j].key_match_spec(*probe)),
        r != NIL ==> (exists|j: int|
            {
                &&& 0 <= j < l.elems@.len()
                &&& #[trigger] l.elems@[j] == r
                &&& payloads(*l, *a)[j].key_match_spec(*probe)
                &&& (forall|j2: int|
                    0 <= j2 < j ==> !payloads(*l, *a)[j2].key_match_spec(*probe))
            }),
{
    let mut cur: u32 = l.head;
    let ghost mut k: int = 0;
    while cur != NIL && !a.get_payload(cur).key_match(probe)
        invariant
            0 <= k <= l.elems@.len(),
            cur == (if k < l.elems@.len() {
                l.elems@[k]
            } else {
                NIL
            }),
            forall|j: int| 0 <= j < k ==> !payloads(*l, *a)[j].key_match_spec(*probe),
        decreases l.elems@.len() - k,
    {
        cur = a.read_next(cur);
        proof {
            k = k + 1;
        }
    }
    proof {
        if k < l.elems@.len() {
            assert(a.is_live(l.elems@[k]));
            assert(cur != NIL);
            assert(payloads(*l, *a)[k].key_match_spec(*probe));
        }
    }
    cur
}

/// All entries in priority order, best first.
#[verifier::loop_isolation(false)]
pub fn list_collect<P: OrderedPayload>(l: &OrderedList, a: &Arena<P>) -> (r: Vec<P>)
    requires
        a.wf(),
        list_wf(*l, *a),
    ensures
        r@ == payloads(*l, *a),
{
    let mut out: Vec<P> = Vec::new();
    let mut cur: u32 = l.head;
    let ghost mut k: int = 0;
    while cur != NIL
        invariant
            0 <= k <= l.elems@.len(),
            cur == (if k < l.elems@.len() {
                l.elems@[k]
            } else {
                NIL
            }),
            out@ == payloads(*l, *a).take(k),
        decreases l.elems@.len() - k,
    {
        let cp: &P = a.get_payload(cur);
        out.push(*cp);
        cur = a.read_next(cur);
        proof {
            k = k + 1;
            assert(out@ =~= payloads(*l, *a).take(k));
        }
    }
    proof {
        assert(out@ =~= payloads(*l, *a));
    }
    out
}

} // verus!
