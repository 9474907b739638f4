use vstd::prelude::*;

use crate::record::{Beer, BeerView};

verus! {

/// What adding one record to given contents yields: the contents unchanged
/// when the record is already present, otherwise the record appended.
pub open spec fn spec_add(s: Seq<BeerView>, b: BeerView) -> Seq<BeerView> {
    if s.contains(b) {
        s
    } else {
        s.push(b)
    }
}

/// No two positions hold the same record.
pub open spec fn pairwise_distinct(s: Seq<BeerView>) -> bool {
    forall|i: int, j: int| 0 <= i < j < s.len() ==> s[i] != s[j]
}

/// The in-memory collection of known records.
///
/// It holds each record at most once; adding a record that is already present
/// leaves the contents unchanged.  Nothing removes or rewrites a record: the
/// store only grows, and lives exactly as long as the process that made it.
#[derive(Debug)]
pub struct Store {
    records: Vec<Beer>,
}

impl View for Store {
    type V = Seq<BeerView>;

    closed spec fn view(&self) -> Seq<BeerView> {
        Seq::new(self.records@.len(), |i: int| self.records@[i]@)
    }
}

impl Store {
    /// The store never holds two equal records.
    pub open spec fn wf(&self) -> bool {
        pairwise_distinct(self@)
    }

    /// A store with nothing in it yet.
    pub fn new() -> (s: Store)
        ensures
            s@ == Seq::<BeerView>::empty(),
            s.wf(),
    {
        let s = Store { records: Vec::new() };
        proof {
            assert(s@ =~= Seq::<BeerView>::empty());
        }
        s
    }

    /// How many records the store holds.
    pub fn len(&self) -> (n: usize)
        ensures
            n == self@.len(),
    {
        self.records.len()
    }

    /// The record at one position of the current contents.
    pub fn get(&self, i: usize) -> (b: &Beer)
        requires
            i < self@.len(),
        ensures
            b@ == self@[i as int],
    {
        &self.records[i]
    }

    /// Whether a record with the same two fields is already present.
    pub fn contains(&self, beer: &Beer) -> (r: bool)
        ensures
            r == self@.contains(beer@),
    {
        let n = self.records.len();
        let mut i: usize = 0;
        while i < n
            invariant
                n == self@.len(),
                i <= n,
                forall|k: int| 0 <= k < i ==> self@[k] != beer@,
            decreases n - i,
        {
            if &self.records[i] == beer {
                proof {
                    assert(self@[i as int] == beer@);
                }
                return true;
            }
            i = i + 1;
        }
        false
    }

    /// Put a record in: a no-op when an equal record is already there,
    /// an append at the end otherwise.
    pub fn add(&mut self, beer: Beer)
        requires
            old(self).wf(),
        ensures
            final(self)@ == spec_add(old(self)@, beer@),
            final(self).wf(),
    {
        let ghost pre = self@;
        let ghost bv = beer@;
        let present = self.contains(&beer);
        if !present {
            self.records.push(beer);
            proof {
                assert(self@ =~= pre.push(bv));
            }
        }
    }
}

/// A record is in a pushed sequence exactly when it is in the original
/// sequence or is the pushed record itself.
pub proof fn lemma_push_contains(s: Seq<BeerView>, y: BeerView, x: BeerView)
    ensures
        s.push(y).contains(x) <==> s.contains(x) || x == y,
{
    if s.contains(x) {
        let i = choose|i: int| 0 <= i < s.len() && s[i] == x;
        assert(s.push(y)[i] == x);
    }
    if x == y {
        assert(s.push(y)[s.len() as int] == x);
    }
    if s.push(y).contains(x) {
        let i = choose|i: int| 0 <= i < s.push(y).len() && s.push(y)[i] == x;
        if i < s.len() {
            assert(s[i] == x);
        }
    }
}

/// Adding the same record twice leaves the same contents as adding it once.
pub proof fn lemma_add_idempotent(s: Seq<BeerView>, b: BeerView)
    ensures
        spec_add(spec_add(s, b), b) == spec_add(s, b),
{
    if !s.contains(b) {
        assert(s.push(b)[s.len() as int] == b);
        assert(spec_add(s, b).contains(b));
    }
}

/// Two different records both stand in the contents after each is added,
/// in whichever order.
pub proof fn lemma_distinct_coexist(s: Seq<BeerView>, b1: BeerView, b2: BeerView)
    requires
        b1 != b2,
    ensures
        spec_add(spec_add(s, b1), b2).contains(b1),
        spec_add(spec_add(s, b1), b2).contains(b2),
{
    let s1 = spec_add(s, b1);
    if !s.contains(b1) {
        assert(s.push(b1)[s.len() as int] == b1);
    }
    assert(s1.contains(b1));
    if !s1.contains(b2) {
        lemma_push_contains(s1, b2, b1);
        lemma_push_contains(s1, b2, b2);
    }
}

/// The contents after adding each record of `rs` in turn, starting from `s`.
pub open spec fn spec_add_all(s: Seq<BeerView>, rs: Seq<BeerView>) -> Seq<BeerView>
    decreases rs.len(),
{
    if rs.len() == 0 {
        s
    } else {
        spec_add_all(spec_add(s, rs[0]), rs.drop_first())
    }
}

/// Adding pairwise-distinct records, none of them present yet, keeps every
/// old record, puts every new one in exactly once, and loses nothing: the
/// count grows by the number of new records and no duplicate appears.
pub proof fn lemma_add_all_distinct(s: Seq<BeerView>, rs: Seq<BeerView>)
    requires
        pairwise_distinct(rs),
        forall|k: int| 0 <= k < rs.len() ==> !s.contains(#[trigger] rs[k]),
    ensures
        spec_add_all(s, rs).len() == s.len() + rs.len(),
        forall|b: BeerView|
            #[trigger] spec_add_all(s, rs).contains(b) <==> s.contains(b) || rs.contains(b),
        pairwise_distinct(s) ==> pairwise_distinct(spec_add_all(s, rs)),
    decreases rs.len(),
{
    if rs.len() == 0 {
        assert(forall|b: BeerView| !rs.contains(b));
    } else {
        let b0 = rs[0];
        let tail = rs.drop_first();
        assert(!s.contains(b0));
        let s1 = s.push(b0);
        assert(spec_add(s, b0) == s1);
        assert forall|k: int| 0 <= k < tail.len() implies !s1.contains(#[trigger] tail[k]) by {
            assert(tail[k] == rs[k + 1]);
            assert(rs[0] != rs[k + 1]);
            lemma_push_contains(s, b0, tail[k]);
        }
        assert(pairwise_distinct(tail)) by {
            assert(forall|i: int, j: int|
                0 <= i < j < tail.len() ==> tail[i] == rs[i + 1] && tail[j] == rs[j + 1]);
        }
        lemma_add_all_distinct(s1, tail);
        assert(spec_add_all(s, rs) == spec_add_all(s1, tail));
        assert forall|b: BeerView|
            #[trigger] spec_add_all(s, rs).contains(b) <==> s.contains(b) || rs.contains(b) by {
            lemma_push_contains(s, b0, b);
            if rs.contains(b) {
                let i = choose|i: int| 0 <= i < rs.len() && rs[i] == b;
                if i > 0 {
                    assert(tail[i - 1] == b);
                }
            }
            if tail.contains(b) {
                let i = choose|i: int| 0 <= i < tail.len() && tail[i] == b;
                assert(rs[i + 1] == b);
            }
        }
        if pairwise_distinct(s) {
            assert forall|i: int, j: int| 0 <= i < j < s1.len() implies s1[i] != s1[j] by {
                if j < s.len() {
                    assert(s[i] != s[j]);
                } else {
                    assert(s1[j] == b0);
                    assert(!s.contains(b0));
                    assert(s1[i] == s[i]);
                }
            }
        }
    }
}

/// Filling an empty store with pairwise-distinct records yields exactly those
/// records: as many entries as records, each record present, nothing else
/// present, and no entry twice.
pub proof fn lemma_fill_from_empty(rs: Seq<BeerView>)
    requires
        pairwise_distinct(rs),
    ensures
        spec_add_all(Seq::<BeerView>::empty(), rs).len() == rs.len(),
        forall|b: BeerView|
            #[trigger] spec_add_all(Seq::<BeerView>::empty(), rs).contains(b) <==> rs.contains(b),
        pairwise_distinct(spec_add_all(Seq::<BeerView>::empty(), rs)),
{
    let e = Seq::<BeerView>::empty();
    assert(forall|k: int| 0 <= k < rs.len() ==> !e.contains(#[trigger] rs[k]));
    lemma_add_all_distinct(e, rs);
}

} // verus!
