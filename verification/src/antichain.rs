//! Frontiers. An antichain is a set of pairwise-incomparable timestamps;
//! since a [`Timestamp`](crate::codec::Timestamp) is totally ordered, a
//! well-formed antichain here is empty (the frontier beyond all times) or
//! a single element. A [`Description`] is the (lower, upper, since) triple
//! bounding a batch's time interval and compaction watermark.

use vstd::prelude::*;
use crate::codec::Timestamp;

verus! {

/// The frontier order: `a <= b` iff every element of `b` is dominated by
/// some element of `a`. The empty antichain is the greatest.
pub open spec fn ac_le<T: Timestamp>(a: Seq<T>, b: Seq<T>) -> bool {
    forall|i: int| #![trigger b[i]]
        0 <= i < b.len() ==> exists|j: int| 0 <= j < a.len() && a[j].le_spec(b[i])
}

/// Instantiates the frontier order at `b`'s first element.
pub proof fn lemma_ac_le_elim<T: Timestamp>(a: Seq<T>, b: Seq<T>)
    requires
        ac_le(a, b),
        b.len() > 0,
    ensures
        exists|j: int| 0 <= j < a.len() && #[trigger] a[j].le_spec(b[0]),
{
    assert(0 <= 0 < b.len());
    assert(exists|j: int| 0 <= j < a.len() && a[j].le_spec(b[0])) by {
        assert(b[0] == b[0]);
    }
}

/// Left fold of the element order's minimum.
pub open spec fn fold_min<T: Timestamp>(s: Seq<T>, acc: T) -> T
    decreases s.len(),
{
    if s.len() == 0 {
        acc
    } else {
        fold_min(
            s.drop_first(),
            if s[0].le_spec(acc) {
                s[0]
            } else {
                acc
            },
        )
    }
}

/// The minimal antichain of an arbitrary list of timestamps: empty for an
/// empty list, else the single least element.
pub open spec fn min_antichain<T: Timestamp>(s: Seq<T>) -> Seq<T> {
    if s.len() == 0 {
        Seq::empty()
    } else {
        seq![fold_min(s.drop_first(), s[0])]
    }
}

/// Compares two timestamps for equality via the order.
pub fn ts_eq<T: Timestamp>(a: &T, b: &T) -> (r: bool)
    ensures
        r == (a == b),
{
    let r = a.ts_le(b) && b.ts_le(a);
    proof {
        T::lemma_le_total(*a, *b);
        T::lemma_le_antisymmetric(*a, *b);
    }
    r
}

#[derive(Debug, PartialEq, Eq)]
pub struct Antichain<T> {
    elements: Vec<T>,
}

impl<T> View for Antichain<T> {
    type V = Seq<T>;

    closed spec fn view(&self) -> Seq<T> {
        self.elements@
    }
}

impl<T: Timestamp> Antichain<T> {
    /// Well-formed antichains of a total order hold at most one element.
    pub open spec fn wf(self) -> bool {
        self@.len() <= 1
    }

    /// The empty frontier, beyond every time.
    pub fn new() -> (r: Antichain<T>)
        ensures
            r@ == Seq::<T>::empty(),
            r.wf(),
    {
        Antichain { elements: Vec::new() }
    }

    pub fn from_elem(t: T) -> (r: Antichain<T>)
        ensures
            r@ == seq![t],
            r.wf(),
    {
        let mut elements: Vec<T> = Vec::new();
        elements.push(t);
        assert(elements@ =~= seq![t]);
        Antichain { elements }
    }

    /// Retains the minimal element of an arbitrary list.
    pub fn from_vec(v: &Vec<T>) -> (r: Antichain<T>)
        ensures
            r@ == min_antichain(v@),
            r.wf(),
    {
        if v.len() == 0 {
            let r = Self::new();
            assert(r@ =~= min_antichain(v@));
            r
        } else {
            let mut m = v[0];
            let mut i: usize = 1;
            while i < v.len()
                invariant
                    1 <= i <= v@.len(),
                    fold_min(v@.skip(i as int), m) == fold_min(v@.skip(1), v@[0]),
                decreases v@.len() - i,
            {
                assert(v@.skip(i as int)[0] == v@[i as int]);
                assert(v@.skip(i as int).drop_first() =~= v@.skip(i as int + 1));
                if v[i].ts_le(&m) {
                    m = v[i];
                }
                i = i + 1;
            }
            assert(v@.skip(v@.len() as int).len() == 0);
            Self::from_elem(m)
        }
    }

    pub fn elements(&self) -> (r: &Vec<T>)
        ensures
            r@ == self@,
    {
        &self.elements
    }

    pub fn ac_eq(&self, other: &Antichain<T>) -> (r: bool)
        requires
            self.wf(),
            other.wf(),
        ensures
            r == (self@ == other@),
    {
        if self.elements.len() == 0 && other.elements.len() == 0 {
            assert(self@ =~= other@);
            true
        } else if self.elements.len() == 1 && other.elements.len() == 1 {
            let r = ts_eq(&self.elements[0], &other.elements[0]);
            proof {
                if r {
                    assert(self@ =~= other@);
                }
            }
            r
        } else {
            assert(self@.len() != other@.len());
            false
        }
    }

    pub fn less_equal(&self, other: &Antichain<T>) -> (r: bool)
        requires
            self.wf(),
            other.wf(),
        ensures
            r == ac_le(self@, other@),
    {
        if other.elements.len() == 0 {
            assert(ac_le(self@, other@));
            true
        } else if self.elements.len() == 0 {
            proof {
                if ac_le(self@, other@) {
                    lemma_ac_le_elim(self@, other@);
                }
            }
            false
        } else {
            let r = self.elements[0].ts_le(&other.elements[0]);
            proof {
                if r {
                    assert forall|i: int| #![trigger other@[i]]
                        0 <= i < other@.len() implies exists|j: int|
                        0 <= j < self@.len() && self@[j].le_spec(other@[i]) by {
                        assert(self@[0].le_spec(other@[i]));
                    }
                    assert(ac_le(self@, other@));
                } else if ac_le(self@, other@) {
                    lemma_ac_le_elim(self@, other@);
                    let j = choose|j: int| 0 <= j < self@.len() && self@[j].le_spec(other@[0]);
                    assert(j == 0);
                }
            }
            r
        }
    }

    /// The strict frontier order: `<=` and not equal.
    pub fn less_than(&self, other: &Antichain<T>) -> (r: bool)
        requires
            self.wf(),
            other.wf(),
        ensures
            r == (ac_le(self@, other@) && self@ != other@),
    {
        self.less_equal(other) && !self.ac_eq(other)
    }
}

impl<T: Timestamp> Clone for Antichain<T> {
    fn clone(&self) -> (r: Self)
        ensures
            r@ == self@,
    {
        let mut elements: Vec<T> = Vec::new();
        let mut i: usize = 0;
        while i < self.elements.len()
            invariant
                i <= self@.len(),
                elements@ == self@.take(i as int),
            decreases self@.len() - i,
        {
            elements.push(self.elements[i]);
            assert(elements@ =~= self@.take(i as int + 1));
            i = i + 1;
        }
        assert(elements@ =~= self@);
        Antichain { elements }
    }
}

/// On well-formed antichains the frontier order is total.
pub proof fn lemma_ac_le_total<T: Timestamp>(a: Seq<T>, b: Seq<T>)
    requires
        a.len() <= 1,
        b.len() <= 1,
    ensures
        ac_le(a, b) || ac_le(b, a),
{
    if b.len() == 0 {
        assert(ac_le(a, b));
    } else if a.len() == 0 {
        assert(ac_le(b, a));
    } else {
        T::lemma_le_total(a[0], b[0]);
        if a[0].le_spec(b[0]) {
            assert forall|i: int| #![trigger b[i]]
                0 <= i < b.len() implies exists|j: int|
                0 <= j < a.len() && a[j].le_spec(b[i]) by {
                assert(a[0].le_spec(b[i]));
            }
        } else {
            assert forall|i: int| #![trigger a[i]]
                0 <= i < a.len() implies exists|j: int|
                0 <= j < b.len() && b[j].le_spec(a[i]) by {
                assert(b[0].le_spec(a[i]));
            }
        }
    }
}

/// A batch description: the half-open time interval `[lower, upper)` it
/// covers and the `since` frontier it has been compacted through.
#[derive(Debug, PartialEq, Eq)]
pub struct Description<T> {
    lower: Antichain<T>,
    upper: Antichain<T>,
    since: Antichain<T>,
}

/// The mathematical contents of a [`Description`].
pub struct DescriptionView<T> {
    pub lower: Seq<T>,
    pub upper: Seq<T>,
    pub since: Seq<T>,
}

impl<T> View for Description<T> {
    type V = DescriptionView<T>;

    closed spec fn view(&self) -> DescriptionView<T> {
        DescriptionView { lower: self.lower@, upper: self.upper@, since: self.since@ }
    }
}

impl<T: Timestamp> Description<T> {
    pub open spec fn wf(self) -> bool {
        self@.lower.len() <= 1 && self@.upper.len() <= 1 && self@.since.len() <= 1
    }

    pub fn new(lower: Antichain<T>, upper: Antichain<T>, since: Antichain<T>) -> (r: Description<
        T,
    >)
        ensures
            r@.lower == lower@ && r@.upper == upper@ && r@.since == since@,
            lower.wf() && upper.wf() && since.wf() ==> r.wf(),
    {
        Description { lower, upper, since }
    }

    pub fn lower(&self) -> (r: &Antichain<T>)
        ensures
            r@ == self@.lower,
    {
        &self.lower
    }

    pub fn upper(&self) -> (r: &Antichain<T>)
        ensures
            r@ == self@.upper,
    {
        &self.upper
    }

    pub fn since(&self) -> (r: &Antichain<T>)
        ensures
            r@ == self@.since,
    {
        &self.since
    }
}

impl<T: Timestamp> Clone for Description<T> {
    fn clone(&self) -> (r: Self)
        ensures
            r@.lower == self@.lower && r@.upper == self@.upper && r@.since == self@.since,
    {
        Description {
            lower: self.lower.clone(),
            upper: self.upper.clone(),
            since: self.since.clone(),
        }
    }
}

} // verus!
