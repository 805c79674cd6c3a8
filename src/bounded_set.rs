use vstd::laws_eq::obeys_concrete_eq;
use vstd::math::min;
use vstd::prelude::*;

verus! {

/// Relies on `rand::thread_rng` and `rand::Rng::gen_range`: a number drawn
/// from `0..n` (the range is not empty, so the call does not panic).
#[verifier::external_body]
fn random_below(n: usize) -> (r: usize)
    requires
        n > 0,
    ensures
        r < n,
{
    rand::Rng::gen_range(&mut rand::thread_rng(), 0..n)
}

/// Equality of elements, for a type whose `==` is structural.
fn same<E: PartialEq>(a: &E, b: &E) -> (r: bool)
    requires
        obeys_concrete_eq::<E>(),
    ensures
        r == (*a == *b),
{
    proof {
        reveal(obeys_concrete_eq);
    }
    *a == *b
}

/// Where `e` stands in `v`, if it does.
pub(crate) fn position<E: PartialEq>(v: &Vec<E>, e: &E) -> (r: Option<usize>)
    requires
        obeys_concrete_eq::<E>(),
    ensures
        match r {
            Some(i) => i < v@.len() && v@[i as int] == *e,
            None => !v@.contains(*e),
        },
{
    let mut i: usize = 0;
    while i < v.len()
        invariant
            i <= v@.len(),
            obeys_concrete_eq::<E>(),
            forall|j: int| 0 <= j < i ==> v@[j] != *e,
        decreases v@.len() - i,
    {
        if same(&v[i], e) {
            return Some(i);
        }
        i += 1;
    }
    None
}

/// Index of the `t`-th element of a walk over `n` places that starts at `start`.
pub open spec fn rotated(start: usize, t: int, n: usize) -> int {
    if start + t < n { start + t } else { start + t - n }
}

/// Whether a fill step takes `x`: every element when `wanted` is `None`,
/// else those whose membership in `filter` is `wanted`.
pub open spec fn chosen<E>(x: E, filter: Set<E>, wanted: Option<bool>) -> bool {
    match wanted {
        None => true,
        Some(b) => filter.contains(x) == b,
    }
}

/// Whether `e` occurs in `v`, for a type whose `==` is structural.
fn member<E: PartialEq>(v: &Vec<E>, e: &E) -> (r: bool)
    ensures
        obeys_concrete_eq::<E>() ==> r == v@.contains(*e),
{
    let mut i: usize = 0;
    while i < v.len()
        invariant
            i <= v@.len(),
            obeys_concrete_eq::<E>() ==> forall|j: int| 0 <= j < i ==> v@[j] != *e,
        decreases v@.len() - i,
    {
        let hit = v[i] == *e;
        proof {
            reveal(obeys_concrete_eq);
        }
        if hit {
            return true;
        }
        i += 1;
    }
    false
}

/// Whether every element of `a` occurs in `b`.
fn included<E: PartialEq>(a: &Vec<E>, b: &Vec<E>) -> (r: bool)
    ensures
        obeys_concrete_eq::<E>() ==> r == a@.to_set().subset_of(b@.to_set()),
{
    let mut i: usize = 0;
    while i < a.len()
        invariant
            i <= a@.len(),
            obeys_concrete_eq::<E>() ==> forall|j: int| 0 <= j < i ==> b@.contains(#[trigger] a@[j]),
        decreases a@.len() - i,
    {
        if !member(b, &a[i]) {
            proof {
                assert(a@.to_set().contains(a@[i as int]));
            }
            return false;
        }
        i += 1;
    }
    proof {
        assert forall|x: E| obeys_concrete_eq::<E>() && #[trigger] a@.to_set().contains(x)
            implies b@.to_set().contains(x) by {
            let j = choose|j: int| 0 <= j < a@.len() && a@[j] == x;
        }
    }
    true
}

/// `after` is what merging `to_merge` into `before` under capacity `cap`
/// gives, up to which elements of one kind find room: it holds as many as
/// fit of them all; room goes first to `to_merge`, so that an element of it
/// is missing only when `to_merge` alone fills the set; then to the members
/// of `before` outside `drop`, which are missing only when those two kinds
/// fill it; the members inside `drop` come last.
pub open spec fn merged<E>(
    before: Set<E>,
    to_merge: Set<E>,
    drop: Set<E>,
    cap: usize,
    after: Set<E>,
) -> bool {
    &&& after.subset_of(to_merge.union(before))
    &&& after.len() == min(cap as int, to_merge.union(before).len() as int)
    &&& !to_merge.subset_of(after) ==> after.subset_of(to_merge)
    &&& !before.difference(drop).subset_of(after) ==> after.subset_of(
        to_merge.union(before.difference(drop)),
    )
}

/// A set that never grows past its capacity.
#[derive(Debug)]
pub struct BoundedSet<E> {
    capacity: usize,
    wraps: Vec<E>,
}

impl<E> View for BoundedSet<E> {
    type V = Set<E>;

    closed spec fn view(&self) -> Set<E> {
        self.wraps@.to_set()
    }
}

impl<E: Copy + PartialEq> Clone for BoundedSet<E> {
    fn clone(&self) -> (r: Self)
        ensures
            r@ == self@,
            r.limit() == self.limit(),
            self.wf() ==> r.wf(),
    {
        let mut wraps: Vec<E> = Vec::new();
        let mut i: usize = 0;
        while i < self.wraps.len()
            invariant
                i <= self.wraps@.len(),
                wraps@ == self.wraps@.subrange(0, i as int),
            decreases self.wraps@.len() - i,
        {
            wraps.push(self.wraps[i]);
            i += 1;
            proof {
                assert(wraps@ =~= self.wraps@.subrange(0, i as int));
            }
        }
        proof {
            assert(wraps@ =~= self.wraps@);
        }
        BoundedSet { capacity: self.capacity, wraps }
    }
}

/// Two bounded sets are equal when they hold the same elements and have the
/// same capacity.
impl<E: Copy + PartialEq> PartialEq for BoundedSet<E> {
    fn eq(&self, other: &Self) -> (r: bool) {
        let r = self.capacity == other.capacity && included(&self.wraps, &other.wraps)
            && included(&other.wraps, &self.wraps);
        proof {
            if obeys_concrete_eq::<E>() && r {
                assert(self@ =~= other@);
            }
        }
        r
    }
}

impl<E: Copy + PartialEq> vstd::std_specs::cmp::PartialEqSpecImpl for BoundedSet<E> {
    open spec fn obeys_eq_spec() -> bool {
        obeys_concrete_eq::<E>()
    }

    open spec fn eq_spec(&self, other: &Self) -> bool {
        self.limit() == other.limit() && self@ == other@
    }
}

impl<E: Copy + PartialEq> BoundedSet<E> {
    /// The elements are distinct and compare structurally.
    pub closed spec fn wf(&self) -> bool {
        &&& self.wraps@.no_duplicates()
        &&& obeys_concrete_eq::<E>()
    }

    /// The most elements that an insertion admits.
    pub closed spec fn limit(&self) -> usize {
        self.capacity
    }

    /// The elements of a well-formed set are finitely many.
    pub proof fn lemma_finite(&self)
        requires
            self.wf(),
        ensures
            self@.finite(),
    {
    }

    proof fn lemma_len(&self)
        requires
            self.wf(),
        ensures
            self@.finite(),
            self@.len() == self.wraps@.len(),
    {
        self.wraps@.unique_seq_to_set();
    }

    /// An empty set of the given capacity.
    pub fn new(capacity: usize) -> (r: Self)
        requires
            obeys_concrete_eq::<E>(),
        ensures
            r.wf(),
            r@ == Set::<E>::empty(),
            r.limit() == capacity,
    {
        let r = BoundedSet { capacity, wraps: Vec::new() };
        proof {
            assert(r@ =~= Set::<E>::empty());
        }
        r
    }

    /// A set that holds `singleton` alone.
    pub fn single(capacity: usize, singleton: E) -> (r: Self)
        requires
            obeys_concrete_eq::<E>(),
            capacity >= 1,
        ensures
            r.wf(),
            r@ == set![singleton],
            r.limit() == capacity,
    {
        let mut wraps: Vec<E> = Vec::new();
        wraps.push(singleton);
        proof {
            assert(wraps@[0] == singleton);
            assert(wraps@.to_set() =~= set![singleton]);
        }
        BoundedSet::init(capacity, wraps)
    }

    /// A set that holds the distinct elements of `wraps`, which must fit.
    pub fn init(capacity: usize, wraps: Vec<E>) -> (r: Self)
        requires
            obeys_concrete_eq::<E>(),
            wraps@.no_duplicates(),
            wraps@.len() <= capacity,
        ensures
            r.wf(),
            r@ == wraps@.to_set(),
            r.limit() == capacity,
    {
        BoundedSet { capacity, wraps }
    }

    /// The most elements that an insertion admits.
    pub fn capacity(&self) -> (r: usize)
        ensures
            r == self.limit(),
    {
        self.capacity
    }

    /// Changes the capacity; members beyond a smaller one stay, and only
    /// insertions are refused until the set has shrunk below it.
    pub fn set_capacity(&mut self, capacity: usize)
        requires
            old(self).wf(),
        ensures
            final(self).wf(),
            final(self)@ == old(self)@,
            final(self).limit() == capacity,
    {
        self.capacity = capacity;
    }

    /// Whether the set holds exactly as many elements as its capacity.
    pub fn is_full(&self) -> (r: bool)
        requires
            self.wf(),
        ensures
            r == (self@.len() == self.limit()),
    {
        proof {
            self.lemma_len();
        }
        self.capacity == self.wraps.len()
    }

    /// An arbitrary (randomly drawn) element, or `None` when the set is empty.
    pub fn sample_one(&self) -> (r: Option<&E>)
        requires
            self.wf(),
        ensures
            r is None <==> self@.len() == 0,
            r matches Some(e) ==> self@.contains(*e),
    {
        proof {
            self.lemma_len();
        }
        if self.wraps.len() == 0 {
            None
        } else {
            let i = random_below(self.wraps.len());
            proof {
                assert(self.wraps@.contains(self.wraps@[i as int]));
            }
            Some(&self.wraps[i])
        }
    }

    /// `min(max_size, len())` distinct elements of the set, arbitrarily (randomly) chosen.
    pub fn sample(&self, max_size: usize) -> (r: Vec<E>)
        requires
            self.wf(),
        ensures
            r@.no_duplicates(),
            r@.to_set().subset_of(self@),
            r@.len() == if max_size < self@.len() { max_size as int } else { self@.len() as int },
    {
        proof {
            self.lemma_len();
        }
        let n = self.wraps.len();
        let k = if max_size < n { max_size } else { n };
        let mut r: Vec<E> = Vec::new();
        if n == 0 {
            proof {
                assert(r@.to_set() =~= Set::<E>::empty());
            }
            return r;
        }
        let start = random_below(n);
        let mut j: usize = 0;
        while j < k
            invariant
                self.wf(),
                n == self.wraps@.len(),
                k <= n,
                start < n,
                j <= k,
                r@.len() == j,
                forall|t: int| 0 <= t < j ==> #[trigger] r@[t] == self.wraps@[rotated(start, t, n)],
            decreases k - j,
        {
            let at = if j < n - start { start + j } else { j - (n - start) };
            r.push(self.wraps[at]);
            j += 1;
        }
        proof {
            assert forall|a: int, b: int| 0 <= a < r@.len() && 0 <= b < r@.len() && a != b
                implies r@[a] != r@[b] by {
                assert(rotated(start, a, n) != rotated(start, b, n));
            }
            assert forall|x: E| r@.to_set().contains(x) implies self@.contains(x) by {
                let t = choose|t: int| 0 <= t < r@.len() && r@[t] == x;
                assert(self.wraps@[rotated(start, t, n)] == x);
            }
        }
        r
    }

    /// Every element, each once, in no particular order.
    pub fn elements(&self) -> (r: Vec<E>)
        requires
            self.wf(),
        ensures
            r@.no_duplicates(),
            r@.to_set() == self@,
    {
        let r = self.clone();
        r.wraps
    }

    /// Whether `elem` belongs to the set.
    pub fn contains(&self, elem: &E) -> (r: bool)
        requires
            self.wf(),
        ensures
            r == self@.contains(*elem),
    {
        position(&self.wraps, elem).is_some()
    }

    /// Adds `elem` when there is room (an element already present counts as
    /// added); a set at or over its capacity is left as it is.
    pub fn insert(&mut self, elem: E) -> (r: bool)
        requires
            old(self).wf(),
        ensures
            final(self).wf(),
            final(self).limit() == old(self).limit(),
            r == (old(self)@.len() < old(self).limit()),
            final(self)@ == if r { old(self)@.insert(elem) } else { old(self)@ },
            old(self)@.len() <= old(self).limit() ==> final(self)@.len() <= final(self).limit(),
    {
        proof {
            self.lemma_len();
        }
        if self.wraps.len() < self.capacity {
            if position(&self.wraps, &elem).is_none() {
                proof {
                    self.wraps@.lemma_push_to_set_commute(elem);
                }
                self.wraps.push(elem);
                proof {
                    assert forall|a: int, b: int|
                        0 <= a < self.wraps@.len() && 0 <= b < self.wraps@.len() && a != b
                        implies self.wraps@[a] != self.wraps@[b] by {
                        if a == self.wraps@.len() - 1 {
                            assert(old(self).wraps@.contains(self.wraps@[b]));
                        }
                        if b == self.wraps@.len() - 1 {
                            assert(old(self).wraps@.contains(self.wraps@[a]));
                        }
                    }
                }
            } else {
                proof {
                    assert(old(self)@.insert(elem) =~= old(self)@);
                }
            }
            proof {
                self.lemma_len();
            }
            true
        } else {
            false
        }
    }

    /// Takes `elem` out; says whether it was there.
    pub fn remove(&mut self, elem: &E) -> (r: bool)
        requires
            old(self).wf(),
        ensures
            final(self).wf(),
            final(self).limit() == old(self).limit(),
            r == old(self)@.contains(*elem),
            final(self)@ == old(self)@.remove(*elem),
    {
        match position(&self.wraps, elem) {
            Some(i) => {
                let ghost before = self.wraps@;
                self.wraps.remove(i);
                proof {
                    let after = self.wraps@;
                    assert(after =~= before.remove(i as int));
                    assert forall|x: E| after.contains(x) <==> (before.contains(x) && x != *elem) by {
                        if after.contains(x) {
                            let k = choose|k: int| 0 <= k < after.len() && after[k] == x;
                            if k < i {
                                assert(before[k] == x);
                            } else {
                                assert(before[k + 1] == x);
                            }
                        }
                        if before.contains(x) && x != *elem {
                            let k = choose|k: int| 0 <= k < before.len() && before[k] == x;
                            if k < i {
                                assert(after[k] == x);
                            } else {
                                assert(after[k - 1] == x);
                            }
                        }
                    }
                    assert(self@ =~= old(self)@.remove(*elem));
                }
                true
            },
            None => {
                proof {
                    assert(old(self)@.remove(*elem) =~= old(self)@);
                }
                false
            },
        }
    }

    /// How many elements the set holds.
    pub fn len(&self) -> (r: usize)
        requires
            self.wf(),
        ensures
            r == self@.len(),
    {
        proof {
            self.lemma_len();
        }
        self.wraps.len()
    }

    /// Adds, while there is room, the elements of `from` that `wanted`
    /// selects with respect to `filter`.
    fn fill(&mut self, from: &Vec<E>, filter: &Vec<E>, wanted: Option<bool>)
        requires
            old(self).wf(),
        ensures
            final(self).wf(),
            final(self).limit() == old(self).limit(),
            old(self)@.subset_of(final(self)@),
            final(self)@.subset_of(
                old(self)@.union(from@.to_set().filter(|x: E| chosen(x, filter@.to_set(), wanted))),
            ),
            from@.to_set().filter(|x: E| chosen(x, filter@.to_set(), wanted)).subset_of(final(self)@)
                || final(self)@.len() >= final(self).limit(),
            final(self)@.len() <= final(self).limit() || final(self)@ == old(self)@,
            old(self)@.len() >= old(self).limit() ==> final(self)@ == old(self)@,
    {
        let ghost start = self.wraps@;
        let ghost fset = filter@.to_set();
        proof {
            self.lemma_len();
        }
        let mut i: usize = 0;
        while i < from.len()
            invariant
                self.wf(),
                self.limit() == old(self).limit(),
                start == old(self).wraps@,
                fset == filter@.to_set(),
                i <= from@.len(),
                start.to_set().subset_of(self@),
                forall|x: E| #[trigger] self@.contains(x) ==> start.to_set().contains(x)
                    || (from@.contains(x) && chosen(x, fset, wanted)),
                self.wraps@.len() < self.capacity ==> forall|j: int|
                    0 <= j < i && chosen(from@[j], fset, wanted) ==> self@.contains(#[trigger] from@[j]),
                self.wraps@.len() <= self.capacity || self.wraps@ == start,
                start.len() >= self.capacity ==> self.wraps@ == start,
                self.wraps@.len() >= start.len(),
            decreases from@.len() - i,
        {
            let x = from[i];
            let take = match wanted {
                None => true,
                Some(b) => position(filter, &x).is_some() == b,
            };
            proof {
                if wanted is Some {
                    assert(filter@.contains(x) == fset.contains(x));
                }
            }
            if take && self.wraps.len() < self.capacity && position(&self.wraps, &x).is_none() {
                let ghost before = self.wraps@;
                proof {
                    before.lemma_push_to_set_commute(x);
                }
                self.wraps.push(x);
                proof {
                    assert forall|a: int, b: int|
                        0 <= a < self.wraps@.len() && 0 <= b < self.wraps@.len() && a != b
                        implies self.wraps@[a] != self.wraps@[b] by {
                        if a == self.wraps@.len() - 1 {
                            assert(before.contains(self.wraps@[b]));
                        }
                        if b == self.wraps@.len() - 1 {
                            assert(before.contains(self.wraps@[a]));
                        }
                    }
                    assert(from@.contains(x));
                }
            }
            i += 1;
        }
        proof {
            self.lemma_len();
            old(self).lemma_len();
            let c = from@.to_set().filter(|x: E| chosen(x, filter@.to_set(), wanted));
            assert forall|x: E| #[trigger] c.contains(x) && self.wraps@.len() < self.capacity
                implies self@.contains(x) by {
                let j = choose|j: int| 0 <= j < from@.len() && from@[j] == x;
                assert(chosen(from@[j], fset, wanted));
            }
            assert forall|x: E| #[trigger] self@.contains(x) implies old(self)@.union(c).contains(x) by {
            }
        }
    }

    /// Merges `to_merge` into the set without passing its capacity. Room goes
    /// first to `to_merge`, then to the members outside `drop_priority`, and
    /// last to the members inside it; whatever finds no room is dropped.
    pub fn bounded_union(&mut self, to_merge: &Vec<E>, drop_priority: &Vec<E>)
        requires
            old(self).wf(),
        ensures
            final(self).wf(),
            final(self).limit() == old(self).limit(),
            final(self)@.len() <= final(self).limit(),
            merged(
                old(self)@,
                to_merge@.to_set(),
                drop_priority@.to_set(),
                old(self).limit(),
                final(self)@,
            ),
    {
        let mut incumbents: Vec<E> = Vec::new();
        std::mem::swap(&mut self.wraps, &mut incumbents);
        let ghost cap = self.capacity as int;
        let ghost t = to_merge@.to_set();
        let ghost o = incumbents@.to_set();
        let ghost d = drop_priority@.to_set();
        proof {
            assert(self@ =~= Set::<E>::empty());
            incumbents@.unique_seq_to_set();
        }
        self.fill(to_merge, drop_priority, None);
        let ghost r1 = self@;
        self.fill(&incumbents, drop_priority, Some(false));
        let ghost r2 = self@;
        self.fill(&incumbents, drop_priority, Some(true));
        proof {
            let r3 = self@;
            let c1 = to_merge@.to_set().filter(|x: E| chosen(x, drop_priority@.to_set(), None));
            let c2 = incumbents@.to_set().filter(|x: E| chosen(x, drop_priority@.to_set(), Some(false)));
            let c3 = incumbents@.to_set().filter(|x: E| chosen(x, drop_priority@.to_set(), Some(true)));
            assert(c1 =~= t);
            assert(c2 =~= o.difference(d));
            assert(c3 =~= o.intersect(d));
            let all = t.union(o);
            assert(r3.subset_of(all));
            self.lemma_finite();
            vstd::set_lib::lemma_len_subset(r1, r3);
            vstd::set_lib::lemma_len_subset(r2, r3);
            vstd::set_lib::lemma_len_subset(r3, all);
            if r3.len() < cap {
                assert(r3 =~= all);
            }
        }
    }
}

} // verus!
