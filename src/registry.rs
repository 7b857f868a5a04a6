use vstd::prelude::*;

use crate::profile::Profile;
use crate::state::{empty_view, State, StateView};

verus! {

/// Identifier order: lexicographic by character.
pub open spec fn id_less(a: Seq<char>, b: Seq<char>) -> bool
    decreases a.len(),
{
    if a.len() == 0 {
        b.len() > 0
    } else if b.len() == 0 {
        false
    } else if a[0] != b[0] {
        a[0] < b[0]
    } else {
        id_less(a.drop_first(), b.drop_first())
    }
}

proof fn lemma_id_less_asymmetric(a: Seq<char>, b: Seq<char>)
    ensures
        !(id_less(a, b) && id_less(b, a)),
    decreases a.len(),
{
    if a.len() > 0 && b.len() > 0 && a[0] == b[0] {
        lemma_id_less_asymmetric(a.drop_first(), b.drop_first());
    }
}

proof fn lemma_id_less_total(a: Seq<char>, b: Seq<char>)
    ensures
        a != b ==> id_less(a, b) || id_less(b, a),
    decreases a.len(),
{
    if a.len() > 0 && b.len() > 0 {
        if a[0] == b[0] {
            lemma_id_less_total(a.drop_first(), b.drop_first());
            if a.drop_first() == b.drop_first() {
                assert(a =~= seq![a[0]] + a.drop_first());
                assert(b =~= seq![b[0]] + b.drop_first());
            }
        }
    } else if a.len() == 0 && b.len() == 0 {
        assert(a =~= b);
    }
}

proof fn lemma_id_less_transitive(a: Seq<char>, b: Seq<char>, c: Seq<char>)
    requires
        id_less(a, b),
        id_less(b, c),
    ensures
        id_less(a, c),
    decreases a.len(),
{
    if a.len() > 0 && b.len() > 0 && c.len() > 0 && a[0] == b[0] && b[0] == c[0] {
        lemma_id_less_transitive(a.drop_first(), b.drop_first(), c.drop_first());
    }
}

/// Compares two identifiers.
pub fn string_less(a: &String, b: &String) -> (r: bool)
    ensures
        r == id_less(a@, b@),
{
    let sa = a.as_str();
    let sb = b.as_str();
    let la = sa.unicode_len();
    let lb = sb.unicode_len();
    let mut i: usize = 0;
    assert(a@.subrange(0, la as int) =~= a@);
    assert(b@.subrange(0, lb as int) =~= b@);
    while i < la && i < lb
        invariant
            i <= la,
            i <= lb,
            la == a@.len(),
            lb == b@.len(),
            sa@ == a@,
            sb@ == b@,
            id_less(a@, b@) == id_less(a@.subrange(i as int, la as int), b@.subrange(i as int, lb as int)),
        decreases la - i,
    {
        let ca = sa.get_char(i);
        let cb = sb.get_char(i);
        let ghost x = a@.subrange(i as int, la as int);
        let ghost y = b@.subrange(i as int, lb as int);
        assert(x[0] == ca && y[0] == cb);
        if ca != cb {
            return ca < cb;
        }
        assert(x.drop_first() =~= a@.subrange(i + 1, la as int));
        assert(y.drop_first() =~= b@.subrange(i + 1, lb as int));
        i = i + 1;
    }
    i == la && i < lb
}

/// No two profiles share an identifier.
pub open spec fn ids_unique(ps: Seq<Profile>) -> bool {
    forall|i: int, j: int| 0 <= i < ps.len() && 0 <= j < ps.len() && i != j ==> ps[i].id@ != ps[j].id@
}

/// Profile `i` is enabled and comes first in identifier order among the
/// enabled ones.
pub open spec fn is_least_enabled(ps: Seq<Profile>, s: StateView, i: int) -> bool {
    &&& 0 <= i < ps.len()
    &&& ps[i].spec_is_enabled(s)
    &&& forall|j: int|
        0 <= j < ps.len() && j != i && (#[trigger] ps[j]).spec_is_enabled(s) ==> id_less(ps[i].id@, ps[j].id@)
}

/// The profile to be active after a state change: the current one while it
/// stays enabled, else the first enabled one in identifier order, else none.
pub open spec fn select(ps: Seq<Profile>, current: Option<usize>, s: StateView) -> Option<int> {
    if current is Some && current->0 < ps.len() && ps[current->0 as int].spec_is_enabled(s) {
        Some(current->0 as int)
    } else if exists|i: int| is_least_enabled(ps, s, i) {
        Some(choose|i: int| is_least_enabled(ps, s, i))
    } else {
        None
    }
}

pub open spec fn as_index(o: Option<int>) -> Option<usize> {
    match o {
        Some(i) => Some(i as usize),
        None => None,
    }
}

proof fn lemma_least_unique(ps: Seq<Profile>, s: StateView, i: int, j: int)
    requires
        is_least_enabled(ps, s, i),
        is_least_enabled(ps, s, j),
    ensures
        i == j,
{
    if i != j {
        assert(ps[j].spec_is_enabled(s));
        assert(ps[i].spec_is_enabled(s));
        lemma_id_less_asymmetric(ps[i].id@, ps[j].id@);
    }
}

/// Some profile of the list has this identifier.
pub open spec fn has_id(ps: Seq<Profile>, id: Seq<char>) -> bool {
    exists|k: int| 0 <= k < ps.len() && #[trigger] ps[k].id@ == id
}

/// `p` is the last profile of the list with its identifier.
pub open spec fn last_of_id(ps: Seq<Profile>, j: int) -> bool {
    &&& 0 <= j < ps.len()
    &&& forall|l: int| j < l < ps.len() ==> (#[trigger] ps[l]).id@ != ps[j].id@
}

/// `p` is the last profile of the list with its identifier.
pub open spec fn is_last_of_its_id(ps: Seq<Profile>, p: Profile) -> bool {
    exists|j: int| last_of_id(ps, j) && p == ps[j]
}

/// The loaded profiles and which one is active.
pub struct Profiles {
    pub current: Option<usize>,
    pub profiles: Vec<Profile>,
}

impl Profiles {
    pub open spec fn wf(&self) -> bool {
        &&& ids_unique(self.profiles@)
        &&& self.current matches Some(c) ==> c < self.profiles@.len()
    }

    /// The registry of the given profiles, where a later profile replaces an
    /// earlier one with the same identifier, with the profile selected for
    /// the empty state active.
    pub fn new(list: Vec<Profile>) -> (r: Profiles)
        ensures
            r.wf(),
            forall|k: int| 0 <= k < r.profiles@.len() ==> is_last_of_its_id(list@, #[trigger] r.profiles@[k]),
            forall|j: int|
                last_of_id(list@, j) ==> exists|k: int|
                    0 <= k < r.profiles@.len() && #[trigger] r.profiles@[k] == list@[j],
            r.current == as_index(select(r.profiles@, None, empty_view())),
    {
        let ghost input = list@;
        let mut rest = list;
        let mut profiles: Vec<Profile> = Vec::new();
        while rest.len() > 0
            invariant
                rest@ =~= input.take(rest@.len() as int),
                rest@.len() <= input.len(),
                ids_unique(profiles@),
                forall|k: int|
                    0 <= k < profiles@.len() ==> exists|j: int|
                        rest@.len() <= j && last_of_id(input, j) && #[trigger] profiles@[k] == input[j],
                forall|j: int| rest@.len() <= j < input.len() ==> has_id(profiles@, (#[trigger] input[j]).id@),
            decreases rest@.len(),
        {
            let ghost n = rest@.len() - 1;
            let p = match rest.pop() {
                Some(p) => p,
                None => {
                    assert(false);
                    return Profiles { current: None, profiles };
                },
            };
            assert(p == input[n]);
            let mut seen = false;
            let mut k: usize = 0;
            while k < profiles.len()
                invariant
                    k <= profiles@.len(),
                    !seen ==> forall|l: int| 0 <= l < k ==> (#[trigger] profiles@[l]).id@ != p.id@,
                    seen ==> exists|l: int| 0 <= l < profiles@.len() && (#[trigger] profiles@[l]).id@ == p.id@,
                decreases profiles@.len() - k,
            {
                if profiles[k].id.eq(&p.id) {
                    seen = true;
                }
                k = k + 1;
            }
            if !seen {
                proof {
                    assert forall|l: int| n < l < input.len() implies (#[trigger] input[l]).id@ != input[n].id@ by {
                        if input[l].id@ == input[n].id@ {
                            assert(has_id(profiles@, input[l].id@));
                            let k2 = choose|k2: int| 0 <= k2 < profiles@.len() && #[trigger] profiles@[k2].id@ == input[l].id@;
                            assert(profiles@[k2].id@ == p.id@);
                        }
                    }
                    assert(last_of_id(input, n));
                }
                let ghost before = profiles@;
                profiles.push(p);
                proof {
                    assert forall|k2: int| 0 <= k2 < profiles@.len() implies exists|j: int|
                        rest@.len() <= j && last_of_id(input, j) && #[trigger] profiles@[k2] == input[j] by {
                        if k2 < before.len() {
                            assert(profiles@[k2] == before[k2]);
                        } else {
                            assert(profiles@[k2] == input[n]);
                        }
                    }
                    assert forall|j: int| rest@.len() <= j < input.len() implies has_id(profiles@, (#[trigger] input[j]).id@) by {
                        if j == n {
                            assert(profiles@[before.len() as int].id@ == input[j].id@);
                        } else {
                            assert(has_id(before, input[j].id@));
                            let k2 = choose|k2: int| 0 <= k2 < before.len() && #[trigger] before[k2].id@ == input[j].id@;
                            assert(profiles@[k2] == before[k2]);
                        }
                    }
                }
            } else {
                proof {
                    assert forall|j: int| rest@.len() <= j < input.len() implies has_id(profiles@, (#[trigger] input[j]).id@) by {
                        if j == n {
                            let l = choose|l: int| 0 <= l < profiles@.len() && (#[trigger] profiles@[l]).id@ == p.id@;
                            assert(profiles@[l].id@ == input[j].id@);
                        }
                    }
                }
            }
        }
        proof {
            assert forall|j: int| last_of_id(input, j) implies exists|k: int|
                0 <= k < profiles@.len() && #[trigger] profiles@[k] == input[j] by {
                assert(has_id(profiles@, input[j].id@));
                let k = choose|k: int| 0 <= k < profiles@.len() && #[trigger] profiles@[k].id@ == input[j].id@;
                let j2 = choose|j2: int| rest@.len() <= j2 && last_of_id(input, j2) && #[trigger] profiles@[k] == input[j2];
                if j < j2 {
                    assert(input[j2].id@ == input[j].id@);
                } else if j2 < j {
                    assert(input[j].id@ == input[j2].id@);
                }
            }
        }
        let mut registry = Profiles { current: None, profiles };
        let empty = State::new();
        registry.state_update(&empty);
        assert(registry.profiles@ == profiles@);
        assert forall|k: int| 0 <= k < registry.profiles@.len() implies is_last_of_its_id(
            input,
            #[trigger] registry.profiles@[k],
        ) by {
            assert(profiles@[k] == registry.profiles@[k]);
            let j = choose|j: int| rest@.len() <= j && last_of_id(input, j) && #[trigger] profiles@[k] == input[j];
            assert(last_of_id(input, j) && registry.profiles@[k] == input[j]);
        }
        registry
    }

    /// Re-evaluates which profile is active after a state change: the
    /// current one stays while it is enabled; otherwise the first enabled
    /// profile in identifier order becomes active, or none.
    pub fn state_update(&mut self, state: &State) -> (r: Option<usize>)
        requires
            old(self).wf(),
        ensures
            final(self).wf(),
            final(self).profiles == old(self).profiles,
            final(self).current == r,
            r == as_index(select(old(self).profiles@, old(self).current, state@)),
    {
        if let Some(c) = self.current {
            if self.profiles[c].is_enabled(state) {
                return Some(c);
            }
        }
        let ghost ps = self.profiles@;
        let mut best: Option<usize> = None;
        let mut i: usize = 0;
        while i < self.profiles.len()
            invariant
                i <= ps.len(),
                ps == self.profiles@,
                ids_unique(ps),
                match best {
                    Some(b) => b < i && ps[b as int].spec_is_enabled(state@) && forall|j: int|
                        0 <= j < i && j != b && (#[trigger] ps[j]).spec_is_enabled(state@) ==> id_less(
                            ps[b as int].id@,
                            ps[j].id@,
                        ),
                    None => forall|j: int| 0 <= j < i ==> !(#[trigger] ps[j]).spec_is_enabled(state@),
                },
            decreases ps.len() - i,
        {
            if self.profiles[i].is_enabled(state) {
                match best {
                    Some(b) => {
                        if string_less(&self.profiles[i].id, &self.profiles[b].id) {
                            proof {
                                assert forall|j: int|
                                    0 <= j < i + 1 && j != i && (#[trigger] ps[j]).spec_is_enabled(state@) implies id_less(
                                    ps[i as int].id@,
                                    ps[j].id@,
                                ) by {
                                    if j != b {
                                        lemma_id_less_transitive(ps[i as int].id@, ps[b as int].id@, ps[j].id@);
                                    }
                                }
                            }
                            best = Some(i);
                        } else {
                            proof {
                                lemma_id_less_total(ps[i as int].id@, ps[b as int].id@);
                            }
                        }
                    },
                    None => {
                        best = Some(i);
                    },
                }
            }
            i = i + 1;
        }
        proof {
            match best {
                Some(b) => {
                    assert(is_least_enabled(ps, state@, b as int));
                    let c = choose|c: int| is_least_enabled(ps, state@, c);
                    lemma_least_unique(ps, state@, b as int, c);
                },
                None => {
                    assert(!exists|c: int| is_least_enabled(ps, state@, c));
                },
            }
        }
        self.current = best;
        best
    }

    /// Activates the profile with this identifier if it exists and is
    /// enabled; otherwise nothing changes and none is returned.
    pub fn set_profile(&mut self, id: &String, state: &State) -> (r: Option<usize>)
        requires
            old(self).wf(),
        ensures
            final(self).wf(),
            final(self).profiles == old(self).profiles,
            match r {
                Some(i) => i < old(self).profiles@.len() && old(self).profiles@[i as int].id@ == id@
                    && old(self).profiles@[i as int].spec_is_enabled(state@) && final(self).current == Some(i),
                None => final(self).current == old(self).current && forall|i: int|
                    0 <= i < old(self).profiles@.len() && (#[trigger] old(self).profiles@[i]).id@ == id@
                        ==> !old(self).profiles@[i].spec_is_enabled(state@),
            },
    {
        let mut i: usize = 0;
        while i < self.profiles.len()
            invariant
                i <= self.profiles@.len(),
                self.profiles == old(self).profiles,
                self.current == old(self).current,
                old(self).wf(),
                forall|j: int| 0 <= j < i ==> (#[trigger] self.profiles@[j]).id@ != id@,
            decreases self.profiles@.len() - i,
        {
            if self.profiles[i].id.eq(id) {
                if self.profiles[i].is_enabled(state) {
                    self.current = Some(i);
                    return Some(i);
                } else {
                    proof {
                        assert forall|j: int|
                            0 <= j < self.profiles@.len() && (#[trigger] self.profiles@[j]).id@ == id@ implies
                            !self.profiles@[j].spec_is_enabled(state@) by {
                            if j != i {
                                assert(self.profiles@[i as int].id@ == self.profiles@[j].id@);
                            }
                        }
                    }
                    return None;
                }
            }
            i = i + 1;
        }
        None
    }

    /// The active profile, if any.
    pub fn current_profile(&self) -> (r: Option<&Profile>)
        requires
            self.wf(),
        ensures
            match self.current {
                Some(c) => r == Some(&self.profiles@[c as int]),
                None => r is None,
            },
    {
        match self.current {
            Some(c) => Some(&self.profiles[c]),
            None => None,
        }
    }
}

/// While the active profile stays enabled it stays active, whichever other
/// profiles are enabled too.
pub proof fn lemma_stability(ps: Seq<Profile>, c: usize, s: StateView)
    requires
        c < ps.len(),
        ps[c as int].spec_is_enabled(s),
    ensures
        select(ps, Some(c), s) == Some(c as int),
{
}

/// When the active profile becomes disabled, the first enabled profile in
/// identifier order takes over.
pub proof fn lemma_switch_to_first_enabled(ps: Seq<Profile>, a: usize, b: int, s: StateView)
    requires
        a < ps.len(),
        !ps[a as int].spec_is_enabled(s),
        is_least_enabled(ps, s, b),
    ensures
        select(ps, Some(a), s) == Some(b),
{
    let c = choose|c: int| is_least_enabled(ps, s, c);
    lemma_least_unique(ps, s, b, c);
}

} // verus!
