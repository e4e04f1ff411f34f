use vstd::prelude::*;

verus! {

/// A finite set of message values, kept as a list in which nothing occurs
/// twice, in the order in which the values were first added.
#[derive(Clone, Debug)]
pub struct ValueSet {
    items: Vec<usize>,
}

impl View for ValueSet {
    type V = Set<usize>;

    closed spec fn view(&self) -> Set<usize> {
        members(self.items@)
    }
}

proof fn lemma_push_contains(s: Seq<usize>, v: usize, x: usize)
    ensures
        s.push(v).contains(x) <==> (s.contains(x) || x == v),
{
    if s.contains(x) {
        let i = choose|i: int| 0 <= i < s.len() && s[i] == x;
        assert(s.push(v)[i] == x);
    }
    if x == v {
        assert(s.push(v)[s.len() as int] == v);
    }
    if s.push(v).contains(x) {
        let i = choose|i: int| 0 <= i < s.push(v).len() && s.push(v)[i] == x;
        if i < s.len() {
            assert(s[i] == x);
        }
    }
}

/// The values that occur in a list.
pub open spec fn members(s: Seq<usize>) -> Set<usize> {
    Set::new(|x: usize| s.contains(x))
}

proof fn lemma_push_set(s: Seq<usize>, v: usize)
    ensures
        members(s.push(v)) == members(s).insert(v),
{
    assert forall|x: usize| #[trigger]
        members(s.push(v)).contains(x) == members(s).insert(v).contains(x) by {
        lemma_push_contains(s, v, x);
    }
    assert(members(s.push(v)) =~= members(s).insert(v));
}

impl ValueSet {
    /// Nothing occurs twice in the list.
    pub closed spec fn wf(&self) -> bool {
        self.items@.no_duplicates()
    }

    /// The values in the order in which they were first added.
    pub closed spec fn order(&self) -> Seq<usize> {
        self.items@
    }

    /// The list and the set hold the same values.
    pub proof fn order_holds_view(&self)
        ensures
            forall|v: usize| self.order().contains(v) <==> self@.contains(v),
            self.wf() ==> self.order().no_duplicates(),
    {
    }

    pub fn new() -> (s: ValueSet)
        ensures
            s.wf(),
            s@ == Set::<usize>::empty(),
            s.order() == Seq::<usize>::empty(),
    {
        let s = ValueSet { items: Vec::new() };
        assert(s@ =~= Set::<usize>::empty());
        s
    }

    pub fn len(&self) -> (n: usize)
        ensures
            n == self.order().len(),
    {
        self.items.len()
    }

    pub fn contains(&self, v: usize) -> (b: bool)
        ensures
            b == self@.contains(v),
    {
        let mut i: usize = 0;
        while i < self.items.len()
            invariant
                i <= self.items@.len(),
                forall|j: int| 0 <= j < i ==> self.items@[j] != v,
            decreases self.items@.len() - i,
        {
            if self.items[i] == v {
                return true;
            }
            i = i + 1;
        }
        false
    }

    /// Adds `v`; says whether it was new.
    pub fn insert(&mut self, v: usize) -> (added: bool)
        requires
            old(self).wf(),
        ensures
            final(self).wf(),
            final(self)@ == old(self)@.insert(v),
            added == !old(self)@.contains(v),
            final(self).order() == (if added {
                old(self).order().push(v)
            } else {
                old(self).order()
            }),
    {
        if self.contains(v) {
            assert(self@ =~= self@.insert(v));
            false
        } else {
            proof {
                lemma_push_set(self.items@, v);
            }
            self.items.push(v);
            true
        }
    }

    /// Adds every value of `other`.
    pub fn extend(&mut self, other: &ValueSet)
        requires
            old(self).wf(),
        ensures
            final(self).wf(),
            final(self)@ == old(self)@.union(other@),
    {
        let mut i: usize = 0;
        while i < other.items.len()
            invariant
                i <= other.items@.len(),
                self.wf(),
                self@ == old(self)@.union(members(other.items@.take(i as int))),
            decreases other.items@.len() - i,
        {
            proof {
                assert(other.items@.take(i + 1) =~= other.items@.take(i as int).push(
                    other.items@[i as int],
                ));
                lemma_push_set(other.items@.take(i as int), other.items@[i as int]);
            }
            let _ = self.insert(other.items[i]);
            assert(self@ =~= old(self)@.union(
                members(other.items@.take(i + 1)),
            ));
            i = i + 1;
        }
        proof {
            assert(other.items@.take(i as int) =~= other.items@);
        }
    }

    /// The values of `self` that are not in `other`.
    pub fn difference(&self, other: &ValueSet) -> (d: ValueSet)
        ensures
            d.wf(),
            d@ == self@.difference(other@),
    {
        let mut d = ValueSet::new();
        let mut i: usize = 0;
        while i < self.items.len()
            invariant
                i <= self.items@.len(),
                d.wf(),
                d@ == members(self.items@.take(i as int)).difference(
                    other@,
                ),
            decreases self.items@.len() - i,
        {
            proof {
                assert(self.items@.take(i + 1) =~= self.items@.take(i as int).push(
                    self.items@[i as int],
                ));
                lemma_push_set(self.items@.take(i as int), self.items@[i as int]);
            }
            let v: usize = self.items[i];
            if !other.contains(v) {
                let _ = d.insert(v);
            }
            assert(d@ =~= members(self.items@.take(i + 1)).difference(
                other@,
            ));
            i = i + 1;
        }
        proof {
            assert(self.items@.take(i as int) =~= self.items@);
        }
        d
    }

    /// The set of the values of a list, whatever occurs in it more than
    /// once taken once.
    pub fn from_vec(values: Vec<usize>) -> (s: ValueSet)
        ensures
            s.wf(),
            s@ == values@.to_set(),
    {
        let mut s = ValueSet::new();
        let mut i: usize = 0;
        while i < values.len()
            invariant
                i <= values@.len(),
                s.wf(),
                s@ == members(values@.take(i as int)),
            decreases values@.len() - i,
        {
            proof {
                assert(values@.take(i + 1) =~= values@.take(i as int).push(values@[i as int]));
                lemma_push_set(values@.take(i as int), values@[i as int]);
            }
            let _ = s.insert(values[i]);
            i = i + 1;
        }
        proof {
            assert(values@.take(i as int) =~= values@);
            assert(s@ =~= values@.to_set());
        }
        s
    }

    /// The values as a list, each once.
    pub fn to_vec(&self) -> (values: Vec<usize>)
        ensures
            values@ == self.order(),
    {
        self.items.clone()
    }

    /// A copy of the set as it is now.
    pub fn snapshot(&self) -> (s: ValueSet)
        ensures
            s@ == self@,
            s.order() == self.order(),
            s.wf() == self.wf(),
    {
        ValueSet { items: self.items.clone() }
    }
}

} // verus!
