//! The injectors that a run can reach, by the id that its steps name.
use vstd::prelude::*;

use crate::harness::error;
use crate::harness::error::HarnessError;
use crate::harness::fault::{Call, FaultContext, FaultInjector};

#[allow(unused_imports)]
use crate::harness::error::ErrorView;

verus! {

/// Injectors by id. No id is held twice.
pub struct InjectorRegistry {
    items: Vec<(String, Box<dyn FaultInjector>)>,
}

impl View for InjectorRegistry {
    type V = Map<Seq<char>, bool>;

    /// The ids that are registered, each with whether its injector is armed.
    closed spec fn view(&self) -> Map<Seq<char>, bool> {
        Map::new(
            |id: Seq<char>| exists|i: int| 0 <= i < self.items@.len() && self.id_at(i) == id,
            |id: Seq<char>| self.armed_at(self.index_of(id)),
        )
    }
}

impl InjectorRegistry {
    spec fn id_at(&self, i: int) -> Seq<char> {
        self.items@[i].0@
    }

    spec fn armed_at(&self, i: int) -> bool {
        self.items@[i].1.armed()
    }

    spec fn index_of(&self, id: Seq<char>) -> int {
        choose|i: int| 0 <= i < self.items@.len() && self.id_at(i) == id
    }

    spec fn may_at(
        &self,
        i: int,
        calls: Seq<Call>,
        call: Call,
        armed: bool,
        failure: Option<ErrorView>,
    ) -> bool {
        self.items@[i].1.may_after(calls, call, armed, failure)
    }

    spec fn had_at(&self, before: &Self, i: int, calls: Seq<Call>) -> bool {
        forall|more: Seq<Call>, call: Call, armed: bool, failure: Option<ErrorView>| #[trigger]
            self.may_at(i, more, call, armed, failure) == before.may_at(
                i,
                calls + more,
                call,
                armed,
                failure,
            )
    }

    /// The ids in the order in which they were first registered.
    pub closed spec fn ids(&self) -> Seq<Seq<char>> {
        Seq::new(self.items@.len(), |i: int| self.id_at(i))
    }

    /// Whether this call to the injector of this id, after those before it, may
    /// leave it armed or not and come to this.
    pub closed spec fn may_after(
        &self,
        id: Seq<char>,
        calls: Seq<Call>,
        call: Call,
        armed: bool,
        failure: Option<ErrorView>,
    ) -> bool {
        self.may_at(self.index_of(id), calls, call, armed, failure)
    }

    /// Whether the injector of this id is the one of `before`, after these calls
    /// and no others.
    pub open spec fn has_had(&self, before: &Self, id: Seq<char>, calls: Seq<Call>) -> bool {
        forall|more: Seq<Call>, call: Call, armed: bool, failure: Option<ErrorView>| #[trigger]
            self.may_after(id, more, call, armed, failure) == before.may_after(
                id,
                calls + more,
                call,
                armed,
                failure,
            )
    }

    /// Whether the injector of this id is, in every respect, as `other` holds
    /// it.
    pub closed spec fn holds_as(&self, other: &Self, id: Seq<char>) -> bool {
        self.items@[self.index_of(id)].1 == other.items@[other.index_of(id)].1
    }

    /// No id is held twice.
    pub closed spec fn well_formed(&self) -> bool {
        forall|i: int, j: int|
            0 <= i < j < self.items@.len() ==> #[trigger] self.id_at(i) != #[trigger] self.id_at(j)
    }

    /// An id is found where it is held, and nowhere else.
    proof fn lemma_index(&self, i: int)
        requires
            self.well_formed(),
            0 <= i < self.items@.len(),
        ensures
            self.index_of(self.id_at(i)) == i,
            self@.dom().contains(self.id_at(i)),
            self@[self.id_at(i)] == self.armed_at(i),
    {
        let k = self.index_of(self.id_at(i));
        assert(0 <= k < self.items@.len() && self.id_at(k) == self.id_at(i));
    }

    /// Two registries that hold the same ids, and differ in one injector at
    /// most.
    proof fn lemma_one_changed(&self, other: &Self, i: int)
        requires
            self.well_formed(),
            0 <= i < self.items@.len(),
            other.items@.len() == self.items@.len(),
            forall|j: int| 0 <= j < self.items@.len() ==> other.id_at(j) == self.id_at(j),
            forall|j: int|
                0 <= j < self.items@.len() && j != i ==> other.armed_at(j) == self.armed_at(j),
        ensures
            other.well_formed(),
            other@ == self@.insert(self.id_at(i), other.armed_at(i)),
            other@[self.id_at(i)] == other.armed_at(i),
    {
        let id = self.id_at(i);
        assert(other.well_formed());
        other.lemma_index(i);
        let expected = self@.insert(id, other.armed_at(i));
        assert forall|x: Seq<char>| #[trigger]
            other@.dom().contains(x) <==> expected.dom().contains(x) by {
            if other@.dom().contains(x) {
                let j = choose|j: int| 0 <= j < other.items@.len() && other.id_at(j) == x;
                self.lemma_index(j);
            }
            if expected.dom().contains(x) && x != id {
                let j = choose|j: int| 0 <= j < self.items@.len() && self.id_at(j) == x;
                other.lemma_index(j);
            }
        }
        assert forall|x: Seq<char>| #[trigger] other@.dom().contains(x) implies other@[x]
            == expected[x] by {
            let j = choose|j: int| 0 <= j < other.items@.len() && other.id_at(j) == x;
            self.lemma_index(j);
            other.lemma_index(j);
        }
        assert(other@ =~= expected);
    }

    /// Where every place but one has the injector it had, so has every id but
    /// the one held there.
    proof fn lemma_others_are_held(&self, other: &Self, i: int)
        requires
            self.well_formed(),
            other.well_formed(),
            self.items@.len() <= other.items@.len(),
            0 <= i < other.items@.len(),
            forall|j: int|
                0 <= j < self.items@.len() && j != i ==> other.items@[j] == self.items@[j],
        ensures
            forall|id: Seq<char>|
                self@.dom().contains(id) && (i < self.items@.len() ==> id != self.id_at(i))
                    ==> #[trigger] other.holds_as(self, id),
    {
        assert forall|id: Seq<char>|
            self@.dom().contains(id) && (i < self.items@.len() ==> id != self.id_at(i)) implies
            #[trigger] other.holds_as(self, id) by {
            let j = self.index_of(id);
            self.lemma_index(j);
            other.lemma_index(j);
        }
    }

    /// An injector that is held as it was is armed as it was, and has had no
    /// call.
    pub proof fn lemma_held_alike(&self, before: &Self, id: Seq<char>)
        requires
            self@.dom().contains(id),
            before@.dom().contains(id),
            self.holds_as(before, id),
        ensures
            self@[id] == before@[id],
            self.has_had(before, id, Seq::empty()),
    {
        assert forall|more: Seq<Call>, call: Call, armed: bool, failure: Option<ErrorView>|
            #[trigger]
            self.may_after(id, more, call, armed, failure) == before.may_after(
                id,
                Seq::<Call>::empty() + more,
                call,
                armed,
                failure,
            ) by {
            assert(Seq::<Call>::empty() + more =~= more);
        }
    }

    /// The ids are those that are registered, and none stands twice.
    pub proof fn lemma_ids(&self)
        requires
            self.well_formed(),
        ensures
            forall|id: Seq<char>| #[trigger]
                self@.dom().contains(id) <==> self.ids().contains(id),
            self.ids().no_duplicates(),
    {
        assert forall|id: Seq<char>| #[trigger]
            self@.dom().contains(id) <==> self.ids().contains(id) by {
            if self@.dom().contains(id) {
                assert(self.ids()[self.index_of(id)] == id);
            }
            if self.ids().contains(id) {
                let i = choose|i: int| 0 <= i < self.ids().len() && self.ids()[i] == id;
                self.lemma_index(i);
            }
        }
        assert forall|i: int, j: int|
            0 <= i < j < self.ids().len() implies self.ids()[i] != self.ids()[j] by {
            assert(self.id_at(i) != self.id_at(j));
        }
    }

    /// A registry that holds one more id than another.
    proof fn lemma_one_added(&self, other: &Self, id: Seq<char>)
        requires
            self.well_formed(),
            !self@.dom().contains(id),
            other.items@.len() == self.items@.len() + 1,
            forall|j: int| 0 <= j < self.items@.len() ==> other.id_at(j) == self.id_at(j),
            forall|j: int| 0 <= j < self.items@.len() ==> other.armed_at(j) == self.armed_at(j),
            other.id_at(self.items@.len() as int) == id,
        ensures
            other.well_formed(),
            other@ == self@.insert(id, other.armed_at(self.items@.len() as int)),
    {
        let n = self.items@.len() as int;
        assert forall|i: int, j: int| 0 <= i < j < other.items@.len() implies #[trigger] other.id_at(
            i,
        ) != #[trigger] other.id_at(j) by {
            self.lemma_index(i);
        }
        other.lemma_index(n);
        let expected = self@.insert(id, other.armed_at(n));
        assert forall|x: Seq<char>| #[trigger]
            other@.dom().contains(x) <==> expected.dom().contains(x) by {
            if other@.dom().contains(x) {
                let j = choose|j: int| 0 <= j < other.items@.len() && other.id_at(j) == x;
                if j < n {
                    self.lemma_index(j);
                }
            }
            if expected.dom().contains(x) && x != id {
                let j = choose|j: int| 0 <= j < self.items@.len() && self.id_at(j) == x;
                other.lemma_index(j);
            }
        }
        assert forall|x: Seq<char>| #[trigger] other@.dom().contains(x) implies other@[x]
            == expected[x] by {
            let j = choose|j: int| 0 <= j < other.items@.len() && other.id_at(j) == x;
            if j < n {
                self.lemma_index(j);
            }
            other.lemma_index(j);
        }
        assert(other@ =~= expected);
    }

    /// What became of the injector at a place when everything that was armed
    /// was disarmed.
    spec fn disarmed_at(
        &self,
        after: &Self,
        i: int,
        outcomes: Map<Seq<char>, Option<ErrorView>>,
    ) -> bool {
        let id = self.id_at(i);
        if self.armed_at(i) {
            &&& outcomes.dom().contains(id)
            &&& self.may_at(i, Seq::empty(), Call::Disarm, after.armed_at(i), outcomes[id])
            &&& outcomes[id] is None ==> !after.armed_at(i)
            &&& after.had_at(self, i, seq![Call::Disarm])
        } else {
            after.items@[i].1 == self.items@[i].1
        }
    }

    /// Whether `outcomes` holds none but those of the first `n` injectors that
    /// are armed.
    spec fn outcomes_within(&self, n: int, outcomes: Map<Seq<char>, Option<ErrorView>>) -> bool {
        forall|id: Seq<char>| #[trigger]
            outcomes.dom().contains(id) ==> exists|j: int|
                0 <= j < n && #[trigger] self.id_at(j) == id && self.armed_at(j)
    }

    /// An outcome more does not change what those before it add up to.
    proof fn lemma_first_failure_keeps(
        &self,
        n: int,
        known: Map<Seq<char>, Option<ErrorView>>,
        outcomes: Map<Seq<char>, Option<ErrorView>>,
    )
        requires
            0 <= n <= self.items@.len(),
            forall|j: int|
                0 <= j < n ==> known.dom().contains(#[trigger] self.id_at(j))
                    == outcomes.dom().contains(self.id_at(j)) && known[self.id_at(j)]
                    == outcomes[self.id_at(j)],
        ensures
            first_failure(self.ids().take(n), known) == first_failure(
                self.ids().take(n),
                outcomes,
            ),
        decreases n,
    {
        if n > 0 {
            self.lemma_first_failure_keeps(n - 1, known, outcomes);
            let ids = self.ids().take(n);
            assert(ids.drop_last() =~= self.ids().take(n - 1));
            assert(ids.last() == self.id_at(n - 1));
        }
    }

    pub fn new() -> (r: Self)
        ensures
            r.well_formed(),
            r@ == Map::<Seq<char>, bool>::empty(),
            r.ids() == Seq::<Seq<char>>::empty(),
    {
        let r = InjectorRegistry { items: Vec::new() };
        assert(r@ =~= Map::<Seq<char>, bool>::empty());
        assert(r.ids() =~= Seq::<Seq<char>>::empty());
        r
    }

    /// Where the id is held.
    fn find(&self, id: &String) -> (r: Option<usize>)
        requires
            self.well_formed(),
        ensures
            match r {
                Some(i) => i < self.items@.len() && self.id_at(i as int) == id@ && self@.dom().contains(
                    id@,
                ) && self@[id@] == self.armed_at(i as int),
                None => !self@.dom().contains(id@),
            },
    {
        let mut i: usize = 0;
        while i < self.items.len()
            invariant
                i <= self.items@.len(),
                self.well_formed(),
                forall|j: int| 0 <= j < i ==> self.id_at(j) != id@,
            decreases self.items@.len() - i,
        {
            if self.items[i].0 == *id {
                proof {
                    self.lemma_index(i as int);
                }
                return Some(i);
            }
            i = i + 1;
        }
        None
    }

    /// Registers an injector. One that was registered under the same id is
    /// replaced.
    pub fn insert(&mut self, id: String, injector: Box<dyn FaultInjector>)
        requires
            old(self).well_formed(),
        ensures
            final(self).well_formed(),
            final(self)@ == old(self)@.insert(id@, injector.armed()),
            final(self).ids() == (if old(self)@.dom().contains(id@) {
                old(self).ids()
            } else {
                old(self).ids().push(id@)
            }),
            forall|calls: Seq<Call>, call: Call, armed: bool, failure: Option<ErrorView>| #[trigger]
                final(self).may_after(id@, calls, call, armed, failure) == injector.may_after(
                    calls,
                    call,
                    armed,
                    failure,
                ),
            forall|other: Seq<char>|
                old(self)@.dom().contains(other) && other != id@ ==> #[trigger] final(self).holds_as(
                    old(self),
                    other,
                ),
    {
        match self.find(&id) {
            Some(i) => {
                let entry = (id, injector);
                self.items[i] = entry;
                assert(self.items@ == old(self).items@.update(i as int, entry));
                proof {
                    old(self).lemma_one_changed(self, i as int);
                    assert(self.armed_at(i as int) == injector.armed());
                    self.lemma_index(i as int);
                    old(self).lemma_others_are_held(self, i as int);
                }
            },
            None => {
                let entry = (id, injector);
                self.items.push(entry);
                assert(self.items@ == old(self).items@.push(entry));
                proof {
                    old(self).lemma_one_added(self, id@);
                    assert(self.armed_at(old(self).items@.len() as int) == injector.armed());
                    self.lemma_index(old(self).items@.len() as int);
                    old(self).lemma_others_are_held(self, old(self).items@.len() as int);
                }
            },
        }
    }

    pub fn contains(&self, id: &String) -> (r: bool)
        requires
            self.well_formed(),
        ensures
            r == self@.dom().contains(id@),
    {
        self.find(id).is_some()
    }

    /// Whether the injector of this id is armed, where there is one.
    pub fn is_armed(&self, id: &String) -> (r: Option<bool>)
        requires
            self.well_formed(),
        ensures
            r == (if self@.dom().contains(id@) {
                Some(self@[id@])
            } else {
                None
            }),
    {
        match self.find(id) {
            Some(i) => Some(self.items[i].1.is_armed()),
            None => None,
        }
    }

    /// Arms the injector of this id. No other injector is touched.
    pub fn arm(&mut self, id: &String, ctx: &FaultContext) -> (r: Result<(), HarnessError>)
        requires
            old(self).well_formed(),
            old(self)@.dom().contains(id@),
        ensures
            final(self).well_formed(),
            final(self)@ == old(self)@.insert(id@, final(self)@[id@]),
            r is Ok ==> final(self)@[id@],
            final(self).ids() == old(self).ids(),
            old(self).may_after(
                id@,
                Seq::empty(),
                Call::Arm(*ctx),
                final(self)@[id@],
                error::failure_of(r),
            ),
            final(self).has_had(old(self), id@, seq![Call::Arm(*ctx)]),
            forall|other: Seq<char>|
                old(self)@.dom().contains(other) && other != id@ ==> #[trigger] final(self).holds_as(
                    old(self),
                    other,
                ),
    {
        match self.find(id) {
            Some(i) => {
                let r = self.items[i].1.arm(ctx);
                proof {
                    old(self).lemma_one_changed(self, i as int);
                    old(self).lemma_index(i as int);
                    self.lemma_index(i as int);
                    old(self).lemma_others_are_held(self, i as int);
                }
                r
            },
            None => Ok(()),
        }
    }

    /// Disarms the injector of this id. No other injector is touched.
    pub fn disarm(&mut self, id: &String) -> (r: Result<(), HarnessError>)
        requires
            old(self).well_formed(),
            old(self)@.dom().contains(id@),
        ensures
            final(self).well_formed(),
            final(self)@ == old(self)@.insert(id@, final(self)@[id@]),
            r is Ok ==> !final(self)@[id@],
            final(self).ids() == old(self).ids(),
            old(self).may_after(
                id@,
                Seq::empty(),
                Call::Disarm,
                final(self)@[id@],
                error::failure_of(r),
            ),
            final(self).has_had(old(self), id@, seq![Call::Disarm]),
            forall|other: Seq<char>|
                old(self)@.dom().contains(other) && other != id@ ==> #[trigger] final(self).holds_as(
                    old(self),
                    other,
                ),
    {
        match self.find(id) {
            Some(i) => {
                let r = self.items[i].1.disarm();
                proof {
                    old(self).lemma_one_changed(self, i as int);
                    old(self).lemma_index(i as int);
                    self.lemma_index(i as int);
                    old(self).lemma_others_are_held(self, i as int);
                }
                r
            },
            None => Ok(()),
        }
    }

    /// Disarms everything that is armed. A failure does not keep the rest from
    /// being disarmed; the first one, in the order of registration, is
    /// returned.
    pub fn disarm_all(&mut self) -> (r: Result<(), HarnessError>)
        requires
            old(self).well_formed(),
        ensures
            final(self).well_formed(),
            exists|outcomes: Map<Seq<char>, Option<ErrorView>>| #[trigger]
                each_disarmed(*old(self), outcomes, *final(self), error::failure_of(r)),
    {
        let mut first_err: Option<HarnessError> = None;
        let mut i: usize = 0;
        let ghost mut outcomes: Map<Seq<char>, Option<ErrorView>> = Map::empty();
        assert(self.ids().take(0) =~= Seq::<Seq<char>>::empty());
        while i < self.items.len()
            invariant
                i <= self.items@.len() == old(self).items@.len(),
                old(self).well_formed(),
                forall|j: int| 0 <= j < self.items@.len() ==> self.id_at(j) == old(self).id_at(j),
                forall|j: int|
                    i <= j < self.items@.len() ==> self.items@[j] == #[trigger] old(self).items@[j],
                forall|j: int| 0 <= j < i ==> #[trigger] old(self).disarmed_at(&*self, j, outcomes),
                old(self).outcomes_within(i as int, outcomes),
                (match first_err {
                    Some(e) => Some(e@),
                    None => None,
                }) == first_failure(old(self).ids().take(i as int), outcomes),
            decreases old(self).items@.len() - i,
        {
            let ghost before = *self;
            let ghost id = old(self).id_at(i as int);
            let ghost known = outcomes;
            assert(self.items@[i as int] == old(self).items@[i as int]);
            assert(!known.dom().contains(id));
            proof {
                let ids = old(self).ids().take(i + 1);
                assert(ids.drop_last() =~= old(self).ids().take(i as int));
                assert(ids.last() == id);
            }
            if self.items[i].1.is_armed() {
                assert(old(self).armed_at(i as int));
                let result = self.items[i].1.disarm();
                proof {
                    outcomes = outcomes.insert(id, error::failure_of(result));
                    assert(old(self).may_at(
                        i as int,
                        Seq::empty(),
                        Call::Disarm,
                        self.armed_at(i as int),
                        outcomes[id],
                    ));
                    assert(self.had_at(old(self), i as int, seq![Call::Disarm]));
                    assert(old(self).disarmed_at(&*self, i as int, outcomes));
                    assert forall|j: int| 0 <= j < i implies #[trigger] old(self).disarmed_at(
                        &*self,
                        j,
                        outcomes,
                    ) by {
                        assert(old(self).disarmed_at(&before, j, known));
                        assert(self.items@[j] == before.items@[j]);
                        assert(old(self).id_at(j) != id);
                        if old(self).armed_at(j) {
                            assert(before.had_at(old(self), j, seq![Call::Disarm]));
                            assert forall|
                                more: Seq<Call>,
                                call: Call,
                                armed: bool,
                                failure: Option<ErrorView>,
                            | #[trigger]
                                self.may_at(j, more, call, armed, failure) == old(self).may_at(
                                    j,
                                    seq![Call::Disarm] + more,
                                    call,
                                    armed,
                                    failure,
                                ) by {
                                assert(self.may_at(j, more, call, armed, failure)
                                    == before.may_at(j, more, call, armed, failure));
                            }
                        }
                    }
                    old(self).lemma_first_failure_keeps(i as int, known, outcomes);
                    assert(old(self).outcomes_within(i + 1, outcomes)) by {
                        assert forall|x: Seq<char>| #[trigger]
                            outcomes.dom().contains(x) implies exists|j: int|
                            0 <= j < i + 1 && #[trigger] old(self).id_at(j) == x && old(self).armed_at(j) by {
                            if x == id {
                                assert(old(self).id_at(i as int) == x);
                            } else {
                                assert(known.dom().contains(x));
                                let j = choose|j: int|
                                    0 <= j < i && #[trigger] old(self).id_at(j) == x && old(self).armed_at(j);
                                assert(old(self).id_at(j) == x);
                            }
                        }
                    }
                }
                first_err = keep_first(first_err, result);
            } else {
                proof {
                    assert(!old(self).armed_at(i as int));
                    assert(old(self).disarmed_at(&*self, i as int, outcomes));
                    assert forall|x: Seq<char>| #[trigger]
                        outcomes.dom().contains(x) implies exists|j: int|
                        0 <= j < i + 1 && #[trigger] old(self).id_at(j) == x && old(self).armed_at(
                            j,
                        ) by {
                        let j = choose|j: int|
                            0 <= j < i && #[trigger] old(self).id_at(j) == x && old(self).armed_at(
                                j,
                            );
                        assert(old(self).id_at(j) == x);
                    }
                }
            }
            i = i + 1;
        }
        proof {
            assert(self.well_formed());
            assert(old(self).ids().take(i as int) =~= old(self).ids());
            old(self).lemma_each_disarmed(&*self, outcomes);
        }
        match first_err {
            Some(e) => Err(e),
            None => Ok(()),
        }
    }

    /// From place by place to id by id.
    proof fn lemma_each_disarmed(
        &self,
        after: &Self,
        outcomes: Map<Seq<char>, Option<ErrorView>>,
    )
        requires
            self.well_formed(),
            after.well_formed(),
            after.items@.len() == self.items@.len(),
            forall|j: int| 0 <= j < self.items@.len() ==> after.id_at(j) == self.id_at(j),
            forall|j: int|
                0 <= j < self.items@.len() ==> #[trigger] self.disarmed_at(after, j, outcomes),
            self.outcomes_within(self.items@.len() as int, outcomes),
        ensures
            each_disarmed(*self, outcomes, *after, first_failure(self.ids(), outcomes)),
    {
        assert forall|id: Seq<char>| #[trigger]
            after@.dom().contains(id) <==> self@.dom().contains(id) by {
            if after@.dom().contains(id) {
                self.lemma_index(after.index_of(id));
            }
            if self@.dom().contains(id) {
                after.lemma_index(self.index_of(id));
            }
        }
        assert(after@.dom() =~= self@.dom());
        assert(after.ids() =~= self.ids());
        assert forall|id: Seq<char>| #[trigger]
            outcomes.dom().contains(id) <==> self@.dom().contains(id) && self@[id] by {
            if self@.dom().contains(id) {
                let j = self.index_of(id);
                self.lemma_index(j);
                assert(self.disarmed_at(after, j, outcomes));
            }
            if outcomes.dom().contains(id) {
                let j = choose|j: int|
                    0 <= j < self.items@.len() && #[trigger] self.id_at(j) == id && self.armed_at(j);
                self.lemma_index(j);
            }
        }
        assert forall|id: Seq<char>| self@.dom().contains(id) && !self@[id] implies
            #[trigger] after.holds_as(self, id) by {
            let j = self.index_of(id);
            self.lemma_index(j);
            after.lemma_index(j);
            assert(self.disarmed_at(after, j, outcomes));
        }
        assert forall|id: Seq<char>| #[trigger] outcomes.dom().contains(id) implies tried(
            *self,
            *after,
            id,
            outcomes[id],
        ) by {
            let j = self.index_of(id);
            self.lemma_index(j);
            after.lemma_index(j);
            assert(self.disarmed_at(after, j, outcomes));
            assert(after.had_at(self, j, seq![Call::Disarm]));
            assert forall|more: Seq<Call>, call: Call, armed: bool, failure: Option<ErrorView>|
                #[trigger]
                after.may_after(id, more, call, armed, failure) == self.may_after(
                    id,
                    seq![Call::Disarm] + more,
                    call,
                    armed,
                    failure,
                ) by {
                assert(after.may_at(j, more, call, armed, failure) == self.may_at(
                    j,
                    seq![Call::Disarm] + more,
                    call,
                    armed,
                    failure,
                ));
            }
        }
    }
}

/// The first failure, in the order of these ids.
pub open spec fn first_failure(
    ids: Seq<Seq<char>>,
    outcomes: Map<Seq<char>, Option<ErrorView>>,
) -> Option<ErrorView>
    decreases ids.len(),
{
    if ids.len() == 0 {
        None
    } else {
        match first_failure(ids.drop_last(), outcomes) {
            Some(e) => Some(e),
            None => if outcomes.dom().contains(ids.last()) {
                outcomes[ids.last()]
            } else {
                None
            },
        }
    }
}

/// Whether the fault was told to disarm, once, and it came to this.
pub open spec fn tried(
    before: InjectorRegistry,
    after: InjectorRegistry,
    id: Seq<char>,
    failure: Option<ErrorView>,
) -> bool {
    &&& before.may_after(id, Seq::empty(), Call::Disarm, after@[id], failure)
    &&& failure is None ==> !after@[id]
    &&& after.has_had(&before, id, seq![Call::Disarm])
}

/// Whether every fault that was armed was tried, with these outcomes: `None`
/// for one that was disarmed, otherwise its error. What was not armed is left
/// alone. What comes of it all is the first of the errors, where there is one.
pub open spec fn each_disarmed(
    before: InjectorRegistry,
    outcomes: Map<Seq<char>, Option<ErrorView>>,
    after: InjectorRegistry,
    failure: Option<ErrorView>,
) -> bool {
    &&& after@.dom() == before@.dom()
    &&& after.ids() == before.ids()
    &&& forall|id: Seq<char>| #[trigger]
        outcomes.dom().contains(id) <==> before@.dom().contains(id) && before@[id]
    &&& forall|id: Seq<char>| #[trigger]
        outcomes.dom().contains(id) ==> tried(before, after, id, outcomes[id])
    &&& forall|id: Seq<char>|
        before@.dom().contains(id) && !before@[id] ==> #[trigger] after.holds_as(&before, id)
    &&& failure == first_failure(before.ids(), outcomes)
}

/// Calls that follow calls add up.
pub proof fn lemma_calls_follow(
    first: InjectorRegistry,
    then: InjectorRegistry,
    last: InjectorRegistry,
    id: Seq<char>,
    sooner: Seq<Call>,
    later: Seq<Call>,
)
    requires
        then.has_had(&first, id, sooner),
        last.has_had(&then, id, later),
    ensures
        last.has_had(&first, id, sooner + later),
{
    assert forall|more: Seq<Call>, call: Call, armed: bool, failure: Option<ErrorView>| #[trigger]
        last.may_after(id, more, call, armed, failure) == first.may_after(
            id,
            sooner + later + more,
            call,
            armed,
            failure,
        ) by {
        assert(then.may_after(id, later + more, call, armed, failure) == first.may_after(
            id,
            sooner + (later + more),
            call,
            armed,
            failure,
        ));
        assert(sooner + (later + more) =~= sooner + later + more);
    }
}

/// The earlier of two errors: what has been kept, or else the error of this
/// result.
pub fn keep_first(
    kept: Option<HarnessError>,
    result: Result<(), HarnessError>,
) -> (r: Option<HarnessError>)
    ensures
        r == (match (kept, result) {
            (Some(e), _) => Some(e),
            (None, Err(e)) => Some(e),
            (None, Ok(_)) => None,
        }),
{
    match kept {
        Some(e) => Some(e),
        None => match result {
            Ok(()) => None,
            Err(e) => Some(e),
        },
    }
}

} // verus!
