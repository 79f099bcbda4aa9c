//! The names under which events are registered; a name is taken at most once.
use vstd::prelude::*;
use vstd::string::*;

verus! {

/// No name occurs twice in `names`.
pub open spec fn names_distinct(names: Seq<String>) -> bool {
    forall|i: int, j: int|
        0 <= i < names.len() && 0 <= j < names.len() && i != j ==> #[trigger] names[i]@
            != #[trigger] names[j]@
}

/// The names of the registered events.
#[derive(Debug)]
pub struct EventNames {
    names: Vec<String>,
}

impl View for EventNames {
    type V = Set<Seq<char>>;

    /// The set of registered names.
    closed spec fn view(&self) -> Set<Seq<char>> {
        Set::new(
            |name: Seq<char>|
                exists|i: int| 0 <= i < self.names@.len() && #[trigger] self.names@[i]@ == name,
        )
    }
}

impl EventNames {
    #[verifier::type_invariant]
    spec fn no_duplicates(self) -> bool {
        names_distinct(self.names@)
    }

    /// The registered names, in the order they were registered.
    spec fn name_seq(self) -> Seq<Seq<char>> {
        self.names@.map_values(|name: String| name@)
    }

    /// The set of names is that of a list without duplicates: finite, and
    /// as large as the list is long.
    proof fn lemma_finite(self)
        requires
            names_distinct(self.names@),
        ensures
            self@ == self.name_seq().to_set(),
            self@.finite(),
            self@.len() == self.names@.len(),
    {
        let seq = self.name_seq();
        assert forall|n: Seq<char>| self@.contains(n) <==> seq.to_set().contains(n) by {
            if self@.contains(n) {
                let i = choose|i: int| 0 <= i < self.names@.len() && #[trigger] self.names@[i]@ == n;
                assert(seq[i] == n);
            }
            if seq.contains(n) {
                let i = choose|i: int| 0 <= i < seq.len() && seq[i] == n;
                assert(self.names@[i]@ == n);
            }
        }
        assert(self@ =~= seq.to_set());
        assert(seq.no_duplicates()) by {
            assert forall|i: int, j: int|
                0 <= i < seq.len() && 0 <= j < seq.len() && i != j implies seq[i] != seq[j] by {
                assert(self.names@[i]@ != self.names@[j]@);
            }
        }
        seq.unique_seq_to_set();
        vstd::seq_lib::seq_to_set_is_finite(seq);
    }

    /// No event is registered.
    pub fn new() -> (names: Self)
        ensures
            names@ == Set::<Seq<char>>::empty(),
            names@.finite(),
    {
        let names = EventNames { names: Vec::new() };
        assert(names@ =~= Set::<Seq<char>>::empty());
        names
    }

    /// How many events are registered.
    pub fn len(&self) -> (n: usize)
        ensures
            self@.finite(),
            n == self@.len(),
    {
        proof {
            use_type_invariant(self);
            self.lemma_finite();
        }
        self.names.len()
    }

    /// The event `name` is registered.
    pub fn contains(&self, name: &str) -> (found: bool)
        ensures
            found == self@.contains(name@),
    {
        let wanted = String::from_str(name);
        let n = self.names.len();
        for i in 0..n
            invariant
                n == self.names@.len(),
                wanted@ == name@,
                forall|j: int| 0 <= j < i ==> self.names@[j]@ != name@,
        {
            if self.names[i] == wanted {
                assert(self@.contains(self.names@[i as int]@));
                return true;
            }
        }
        proof {
            if self@.contains(name@) {
                let j = choose|j: int|
                    0 <= j < self.names@.len() && #[trigger] self.names@[j]@ == name@;
                assert(self.names@[j]@ != name@);
            }
        }
        false
    }

    /// Registers the event `name`, unless a registered event already has
    /// that name; says whether it registered it.
    pub fn register(&mut self, name: &str) -> (registered: bool)
        ensures
            registered == !old(self)@.contains(name@),
            final(self)@ == old(self)@.insert(name@),
            final(self)@.finite(),
    {
        proof {
            use_type_invariant(&*self);
            self.lemma_finite();
        }
        if self.contains(name) {
            assert(self@.insert(name@) =~= self@);
            return false;
        }
        proof {
            use_type_invariant(&*self);
        }
        let mut names: Vec<String> = Vec::new();
        std::mem::swap(&mut names, &mut self.names);
        let ghost before = names@;
        names.push(String::from_str(name));
        proof {
            assert forall|i: int, j: int|
                0 <= i < names@.len() && 0 <= j < names@.len() && i != j implies #[trigger] names@[i]@
                != #[trigger] names@[j]@ by {
                if i == before.len() {
                    assert(names@[j] == before[j]);
                    assert(old(self)@.contains(before[j]@));
                } else if j == before.len() {
                    assert(names@[i] == before[i]);
                    assert(old(self)@.contains(before[i]@));
                } else {
                    assert(names@[i] == before[i]);
                    assert(names@[j] == before[j]);
                }
            }
        }
        self.names = names;
        proof {
            assert forall|n: Seq<char>| self@.contains(n) <==> old(self)@.insert(name@).contains(n) by {
                if old(self)@.contains(n) {
                    let i = choose|i: int| 0 <= i < before.len() && #[trigger] before[i]@ == n;
                    assert(self.names@[i] == before[i]);
                }
                if n == name@ {
                    assert(self.names@[before.len() as int]@ == n);
                }
                if self@.contains(n) {
                    let i = choose|i: int| 0 <= i < self.names@.len() && #[trigger] self.names@[i]@ == n;
                    if i < before.len() {
                        assert(self.names@[i] == before[i]);
                    }
                }
            }
            assert(self@ =~= old(self)@.insert(name@));
            old(self).lemma_finite();
        }
        true
    }
}

/// Once a name is registered, registering it again is refused: a second event
/// never takes a name that is already taken.
pub proof fn law_name_taken_once(before: EventNames, after: EventNames, name: Seq<char>)
    requires
        after@ == before@.insert(name),
    ensures
        after@.contains(name),
        after@.insert(name) == after@,
{
    assert(after@.insert(name) =~= after@);
}

/// After `k` registrations the registry holds exactly the first `k` names.
proof fn lemma_prefix_registered(states: Seq<EventNames>, names: Seq<Seq<char>>, k: int)
    requires
        states.len() == names.len() + 1,
        states[0]@ == Set::<Seq<char>>::empty(),
        forall|i: int| 0 <= i < names.len() ==> #[trigger] states[i + 1]@ == states[i]@.insert(names[i]),
        0 <= k <= names.len(),
    ensures
        states[k]@ == names.take(k).to_set(),
    decreases k,
{
    if k == 0 {
        assert(names.take(0).to_set() =~= Set::<Seq<char>>::empty());
    } else {
        lemma_prefix_registered(states, names, k - 1);
        assert(states[(k - 1) + 1]@ == states[k - 1]@.insert(names[k - 1]));
        assert(names.take(k) =~= names.take(k - 1).push(names[k - 1]));
        names.take(k - 1).lemma_push_to_set_commute(names[k - 1]);
    }
}

/// Registering `names` one after another into an empty registry: the
/// registry then holds exactly those names; every registration succeeds
/// exactly when no name repeats an earlier one, and then the registry holds as
/// many names as were registered. A further name is refused exactly when it is
/// one of them.
pub proof fn law_registrations(states: Seq<EventNames>, names: Seq<Seq<char>>)
    requires
        states.len() == names.len() + 1,
        states[0]@ == Set::<Seq<char>>::empty(),
        forall|i: int| 0 <= i < names.len() ==> #[trigger] states[i + 1]@ == states[i]@.insert(names[i]),
    ensures
        states.last()@ == names.to_set(),
        states.last()@.finite(),
        (forall|i: int| 0 <= i < names.len() ==> !(#[trigger] states[i]@).contains(names[i]))
            <==> names.no_duplicates(),
        names.no_duplicates() ==> states.last()@.len() == names.len(),
        forall|name: Seq<char>| states.last()@.contains(name) <==> names.contains(name),
{
    let n = names.len() as int;
    lemma_prefix_registered(states, names, n);
    assert(names.take(n) =~= names);
    vstd::seq_lib::seq_to_set_is_finite(names);
    assert forall|i: int| 0 <= i < n implies states[i]@ == names.take(i).to_set() by {
        lemma_prefix_registered(states, names, i);
    }
    if forall|i: int| 0 <= i < names.len() ==> !(#[trigger] states[i]@).contains(names[i]) {
        assert forall|i: int, j: int|
            0 <= i < n && 0 <= j < n && i != j implies names[i] != names[j] by {
            let (a, b) = if i < j { (i, j) } else { (j, i) };
            assert(!states[b]@.contains(names[b]));
            assert(names.take(b)[a] == names[a]);
            assert(names.take(b).contains(names[a]));
        }
    }
    if names.no_duplicates() {
        assert forall|i: int| 0 <= i < names.len() implies !(#[trigger] states[i]@).contains(
            names[i],
        ) by {
            if names.take(i).contains(names[i]) {
                let j = choose|j: int| 0 <= j < i && names.take(i)[j] == names[i];
                assert(names[j] == names[i]);
            }
        }
        names.unique_seq_to_set();
    }
}

impl Default for EventNames {
    /// No event is registered.
    fn default() -> (names: Self)
        ensures
            names@ == Set::<Seq<char>>::empty(),
    {
        EventNames::new()
    }
}

} // verus!
