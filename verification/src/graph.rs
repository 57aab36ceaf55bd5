use vstd::prelude::*;

use crate::common::{HasPrototypeBase, PrototypeBase};
use crate::text::string_views;

verus! {

/// What researching a technology unlocks, as far as availability reads it.
#[derive(Debug, Clone)]
pub enum Modifier {
    UnlockRecipe { recipe: String },
    UnlockSpaceLocation { space_location: String },
    UnlockQuality { quality: String },
    /// Any other effect.
    Other,
}

/// What must be done in the game to complete a technology by trigger.
#[derive(Debug, Clone)]
pub enum ResearchTrigger {
    MineEntity { entity: String },
    CraftItem { item: String },
    CraftFluid { fluid: String },
    SendItemToOrbit { item: String },
    CaptureSpawner { entity: Option<String> },
    BuildEntity { entity: String },
    CreateSpacePlatform,
    Unknown,
}

/// A technology effect that switches something on or off.
#[derive(Debug, Clone, Copy, PartialEq, Eq, Structural)]
pub struct BoolModifier {
    pub modifier: bool,
}

/// The parts of a technology prototype that availability reads.
#[derive(Debug, Clone, Default)]
pub struct TechnologyPrototype {
    pub base: PrototypeBase,
    pub essential: bool,
    /// Names of the technologies it needs first.
    pub prerequisites: Vec<String>,
    pub effects: Vec<Modifier>,
}

impl HasPrototypeBase for TechnologyPrototype {
    open spec fn prototype_base(&self) -> PrototypeBase {
        self.base
    }

    fn base(&self) -> (b: &PrototypeBase) {
        &self.base
    }
}

pub open spec fn node_name(techs: Seq<TechnologyPrototype>, k: int) -> Seq<char> {
    techs[k].base.name@
}

pub open spec fn node_needs(techs: Seq<TechnologyPrototype>, k: int, p: Seq<char>) -> bool {
    exists|q: int| 0 <= q < techs[k].prerequisites.len() && #[trigger] techs[k].prerequisites@[q]@ == p
}

/// A milestone `(name, false)` holds `name` back.
pub open spec fn milestone_locked(milestones: Seq<(String, bool)>, n: Seq<char>) -> bool {
    exists|i: int| 0 <= i < milestones.len() && #[trigger] milestones[i].0@ == n && !milestones[i].1
}

/// `chain` is a path of technologies along which a lock spreads: the first
/// needs a technology that a milestone holds back, and each needs the one
/// before it.
pub open spec fn is_lock_chain(
    techs: Seq<TechnologyPrototype>,
    milestones: Seq<(String, bool)>,
    chain: Seq<int>,
) -> bool {
    &&& chain.len() >= 1
    &&& forall|j: int| 0 <= j < chain.len() ==> 0 <= #[trigger] chain[j] < techs.len()
    &&& exists|p: Seq<char>| node_needs(techs, chain[0], p) && #[trigger] milestone_locked(milestones, p)
    &&& forall|j: int|
        0 <= j < chain.len() - 1 ==> node_needs(
            techs,
            #[trigger] chain[j + 1],
            node_name(techs, chain[j]),
        )
}

/// Technology `k` is held back: by a milestone of its own, or because it
/// depends, directly or through others, on one that a milestone holds back.
pub open spec fn tech_locked(techs: Seq<TechnologyPrototype>, milestones: Seq<(String, bool)>, k: int) -> bool {
    ||| milestone_locked(milestones, node_name(techs, k))
    ||| exists|chain: Seq<int>| #[trigger] is_lock_chain(techs, milestones, chain) && chain.last() == k
}

/// Some technology of this name is not held back.
pub open spec fn is_available(techs: Seq<TechnologyPrototype>, milestones: Seq<(String, bool)>, n: Seq<char>) -> bool {
    exists|k: int|
        0 <= k < techs.len() && #[trigger] node_name(techs, k) == n && !tech_locked(techs, milestones, k)
}

pub open spec fn names_distinct(techs: Seq<TechnologyPrototype>) -> bool {
    forall|k: int, l: int|
        0 <= k < techs.len() && 0 <= l < techs.len() && k != l ==> #[trigger] node_name(techs, k)
            != #[trigger] node_name(techs, l)
}

pub open spec fn count_unlocked(locked: Seq<bool>) -> nat
    decreases locked.len(),
{
    if locked.len() == 0 {
        0
    } else {
        count_unlocked(locked.drop_last()) + if locked.last() { 0nat } else { 1nat }
    }
}

proof fn lemma_count_set_true(locked: Seq<bool>, k: int)
    requires
        0 <= k < locked.len(),
        !locked[k],
    ensures
        count_unlocked(locked.update(k, true)) + 1 == count_unlocked(locked),
    decreases locked.len(),
{
    let u = locked.update(k, true);
    if k == locked.len() - 1 {
        assert(u.drop_last() =~= locked.drop_last());
    } else {
        assert(u.drop_last() =~= locked.drop_last().update(k, true));
        lemma_count_set_true(locked.drop_last(), k);
    }
}

/// Whether a milestone holds back the technology named `n`.
fn is_milestone_locked(milestones: &Vec<(String, bool)>, n: &String) -> (r: bool)
    ensures
        r == milestone_locked(milestones@, n@),
{
    let mut i: usize = 0;
    while i < milestones.len()
        invariant
            i <= milestones.len(),
            forall|j: int| 0 <= j < i ==> !(#[trigger] milestones@[j].0@ == n@ && !milestones@[j].1),
        decreases milestones.len() - i,
    {
        if milestones[i].0 == *n && !milestones[i].1 {
            return true;
        }
        i = i + 1;
    }
    false
}

/// Locks that may spread: a technology name is blocked when a milestone
/// holds it back or a technology of that name is marked.
pub open spec fn name_blocked(
    techs: Seq<TechnologyPrototype>,
    milestones: Seq<(String, bool)>,
    locked: Seq<bool>,
    p: Seq<char>,
) -> bool {
    milestone_locked(milestones, p) || exists|j: int|
        0 <= j < techs.len() && #[trigger] locked[j] && node_name(techs, j) == p
}

pub open spec fn needs_blocked(
    techs: Seq<TechnologyPrototype>,
    milestones: Seq<(String, bool)>,
    locked: Seq<bool>,
    k: int,
) -> bool {
    exists|p: Seq<char>| node_needs(techs, k, p) && #[trigger] name_blocked(techs, milestones, locked, p)
}

/// Whether technology `k` needs one that is held back.
fn needs_blocked_exec(
    techs: &Vec<TechnologyPrototype>,
    milestones: &Vec<(String, bool)>,
    locked: &Vec<bool>,
    k: usize,
) -> (r: bool)
    requires
        k < techs.len(),
        locked.len() == techs.len(),
    ensures
        r == needs_blocked(techs@, milestones@, locked@, k as int),
{
    let prereqs = &techs[k].prerequisites;
    let mut q: usize = 0;
    while q < prereqs.len()
        invariant
            k < techs.len(),
            locked.len() == techs.len(),
            prereqs == techs@[k as int].prerequisites,
            q <= prereqs.len(),
            forall|t: int|
                0 <= t < q ==> !name_blocked(techs@, milestones@, locked@, #[trigger] prereqs@[t]@),
        decreases prereqs.len() - q,
    {
        let p = &prereqs[q];
        proof {
            assert(q < techs@[k as int].prerequisites.len());
            assert(techs@[k as int].prerequisites@[q as int]@ == p@);
            assert(node_needs(techs@, k as int, p@));
        }
        if is_milestone_locked(milestones, p) {
            proof {
                assert(node_needs(techs@, k as int, p@));
                assert(name_blocked(techs@, milestones@, locked@, p@));
            }
            return true;
        }
        let mut j: usize = 0;
        while j < techs.len()
            invariant
                k < techs.len(),
                locked.len() == techs.len(),
                j <= techs.len(),
                node_needs(techs@, k as int, p@),
                forall|i: int| 0 <= i < j ==> !(#[trigger] locked@[i] && node_name(techs@, i) == p@),
            decreases techs.len() - j,
        {
            if locked[j] && techs[j].base.name == *p {
                proof {
                    assert(node_needs(techs@, k as int, p@));
                    assert(name_blocked(techs@, milestones@, locked@, p@));
                }
                return true;
            }
            j = j + 1;
        }
        q = q + 1;
    }
    proof {
        assert forall|p: Seq<char>| node_needs(techs@, k as int, p) implies !#[trigger] name_blocked(
            techs@,
            milestones@,
            locked@,
            p,
        ) by {
            let t = choose|t: int| 0 <= t < prereqs.len() && #[trigger] prereqs@[t]@ == p;
        }
    }
    false
}

/// Every marked technology is truly held back.
pub open spec fn marks_sound(techs: Seq<TechnologyPrototype>, milestones: Seq<(String, bool)>, locked: Seq<bool>) -> bool {
    forall|k: int| 0 <= k < locked.len() && #[trigger] locked[k] ==> tech_locked(techs, milestones, k)
}

proof fn lemma_mark_sound(
    techs: Seq<TechnologyPrototype>,
    milestones: Seq<(String, bool)>,
    locked: Seq<bool>,
    k: int,
)
    requires
        locked.len() == techs.len(),
        0 <= k < techs.len(),
        marks_sound(techs, milestones, locked),
        needs_blocked(techs, milestones, locked, k),
    ensures
        tech_locked(techs, milestones, k),
{
    let p = choose|p: Seq<char>| node_needs(techs, k, p) && #[trigger] name_blocked(techs, milestones, locked, p);
    if milestone_locked(milestones, p) {
        let chain = seq![k];
        assert(is_lock_chain(techs, milestones, chain));
    } else {
        let j = choose|j: int| 0 <= j < techs.len() && #[trigger] locked[j] && node_name(techs, j) == p;
        assert(tech_locked(techs, milestones, j));
        if milestone_locked(milestones, node_name(techs, j)) {
            let chain = seq![k];
            assert(is_lock_chain(techs, milestones, chain));
        } else {
            let c = choose|c: Seq<int>| #[trigger] is_lock_chain(techs, milestones, c) && c.last() == j;
            let chain = c.push(k);
            assert(chain[0] == c[0]);
            assert forall|t: int| 0 <= t < chain.len() - 1 implies node_needs(
                techs,
                #[trigger] chain[t + 1],
                node_name(techs, chain[t]),
            ) by {
                if t < c.len() - 1 {
                    assert(chain[t + 1] == c[t + 1] && chain[t] == c[t]);
                } else {
                    assert(chain[t] == j);
                }
            }
            assert(is_lock_chain(techs, milestones, chain));
        }
    }
}

proof fn lemma_closed_complete(
    techs: Seq<TechnologyPrototype>,
    milestones: Seq<(String, bool)>,
    locked: Seq<bool>,
    chain: Seq<int>,
)
    requires
        locked.len() == techs.len(),
        forall|k: int| 0 <= k < techs.len() && !#[trigger] locked[k] ==> !needs_blocked(techs, milestones, locked, k),
        is_lock_chain(techs, milestones, chain),
    ensures
        locked[chain.last()],
    decreases chain.len(),
{
    let k = chain.last();
    if chain.len() == 1 {
        let p = choose|p: Seq<char>| node_needs(techs, chain[0], p) && #[trigger] milestone_locked(milestones, p);
        assert(name_blocked(techs, milestones, locked, p));
        assert(needs_blocked(techs, milestones, locked, k));
    } else {
        let c = chain.drop_last();
        assert(c[0] == chain[0]);
        assert forall|t: int| 0 <= t < c.len() - 1 implies node_needs(
            techs,
            #[trigger] c[t + 1],
            node_name(techs, c[t]),
        ) by {
            assert(c[t + 1] == chain[t + 1] && c[t] == chain[t]);
        }
        assert(is_lock_chain(techs, milestones, c));
        lemma_closed_complete(techs, milestones, locked, c);
        let j = c.last();
        assert(chain[chain.len() - 2] == j);
        assert(node_needs(techs, chain[(chain.len() - 2) + 1], node_name(techs, chain[chain.len() - 2])));
        assert(node_needs(techs, k, node_name(techs, j)));
        assert(name_blocked(techs, milestones, locked, node_name(techs, j)));
        assert(needs_blocked(techs, milestones, locked, k));
    }
}

/// The names of the unmarked technologies among the first `k`, in order.
pub open spec fn unlocked_names(techs: Seq<TechnologyPrototype>, locked: Seq<bool>, k: int) -> Seq<Seq<char>>
    decreases k,
{
    if k <= 0 {
        Seq::empty()
    } else if locked[k - 1] {
        unlocked_names(techs, locked, k - 1)
    } else {
        unlocked_names(techs, locked, k - 1).push(node_name(techs, k - 1))
    }
}

proof fn lemma_unlocked_names(techs: Seq<TechnologyPrototype>, milestones: Seq<(String, bool)>, locked: Seq<bool>, k: int)
    requires
        0 <= k <= techs.len(),
        locked.len() == techs.len(),
        names_distinct(techs),
    ensures
        unlocked_names(techs, locked, k).no_duplicates(),
        unlocked_names(techs, locked, k).len() <= k,
        forall|n: Seq<char>| #[trigger] unlocked_names(techs, locked, k).contains(n) <==> exists|i: int|
            0 <= i < k && node_name(techs, i) == n && !locked[i],
    decreases k,
{
    if k > 0 {
        lemma_unlocked_names(techs, milestones, locked, k - 1);
        let prev = unlocked_names(techs, locked, k - 1);
        let cur = unlocked_names(techs, locked, k);
        assert forall|n: Seq<char>| #[trigger] cur.contains(n) <==> exists|i: int|
            0 <= i < k && node_name(techs, i) == n && !locked[i] by {
            if !locked[k - 1] {
                if cur.contains(n) {
                    let t = choose|t: int| 0 <= t < cur.len() && cur[t] == n;
                    if t < prev.len() {
                        assert(prev[t] == n);
                        assert(prev.contains(n));
                    }
                }
                if exists|i: int| 0 <= i < k && node_name(techs, i) == n && !locked[i] {
                    let i = choose|i: int| 0 <= i < k && node_name(techs, i) == n && !locked[i];
                    if i == k - 1 {
                        assert(cur[cur.len() - 1] == n);
                    } else {
                        assert(prev.contains(n));
                        let t = choose|t: int| 0 <= t < prev.len() && prev[t] == n;
                        assert(cur[t] == n);
                    }
                }
            }
        }
        if !locked[k - 1] {
            let nk = node_name(techs, k - 1);
            assert(!prev.contains(nk)) by {
                if prev.contains(nk) {
                    let i = choose|i: int| 0 <= i < k - 1 && node_name(techs, i) == nk && !locked[i];
                    assert(node_name(techs, i) != node_name(techs, k - 1));
                }
            }
            assert forall|a: int, b: int| 0 <= a < cur.len() && 0 <= b < cur.len() && a != b implies cur[a] != cur[b] by {
                if a == cur.len() - 1 {
                    assert(cur[b] == prev[b]);
                    assert(prev.contains(prev[b]));
                } else if b == cur.len() - 1 {
                    assert(cur[a] == prev[a]);
                    assert(prev.contains(prev[a]));
                } else {
                    assert(cur[a] == prev[a] && cur[b] == prev[b]);
                }
            }
        }
    }
}

/// Spreading the locks ends: no chain along which a lock spreads is longer
/// than there are technologies, so no lock reaches a cycle of
/// prerequisites (along a cycle, a lock would spread for ever).
pub open spec fn locks_end(techs: Seq<TechnologyPrototype>, milestones: Seq<(String, bool)>) -> bool {
    forall|chain: Seq<int>| #[trigger] is_lock_chain(techs, milestones, chain) ==> chain.len() <= techs.len()
}

/// Some chain of `len` technologies along which a lock spreads ends at `k`.
pub open spec fn ends_lock_chain(
    techs: Seq<TechnologyPrototype>,
    milestones: Seq<(String, bool)>,
    len: int,
    k: int,
) -> bool {
    exists|chain: Seq<int>| #[trigger] is_lock_chain(techs, milestones, chain) && chain.len() == len && chain.last() == k
}

proof fn lemma_first_links(techs: Seq<TechnologyPrototype>, milestones: Seq<(String, bool)>, locked: Seq<bool>, k: int)
    requires
        0 <= k < techs.len(),
        locked.len() == techs.len(),
        forall|j: int| 0 <= j < locked.len() ==> !#[trigger] locked[j],
    ensures
        ends_lock_chain(techs, milestones, 1, k) <==> needs_blocked(techs, milestones, locked, k),
{
    if ends_lock_chain(techs, milestones, 1, k) {
        let c = choose|c: Seq<int>| #[trigger] is_lock_chain(techs, milestones, c) && c.len() == 1 && c.last() == k;
        let p = choose|p: Seq<char>| node_needs(techs, c[0], p) && #[trigger] milestone_locked(milestones, p);
        assert(name_blocked(techs, milestones, locked, p));
    }
    if needs_blocked(techs, milestones, locked, k) {
        let p = choose|p: Seq<char>| node_needs(techs, k, p) && #[trigger] name_blocked(techs, milestones, locked, p);
        let c = seq![k];
        assert(milestone_locked(milestones, p));
        assert(is_lock_chain(techs, milestones, c));
    }
}

proof fn lemma_next_links(
    techs: Seq<TechnologyPrototype>,
    milestones: Seq<(String, bool)>,
    none: Seq<(String, bool)>,
    reach: Seq<bool>,
    len: int,
    k: int,
)
    requires
        0 <= k < techs.len(),
        len >= 1,
        none.len() == 0,
        reach.len() == techs.len(),
        forall|j: int| 0 <= j < reach.len() ==> #[trigger] reach[j] == ends_lock_chain(techs, milestones, len, j),
    ensures
        ends_lock_chain(techs, milestones, len + 1, k) <==> needs_blocked(techs, none, reach, k),
{
    if ends_lock_chain(techs, milestones, len + 1, k) {
        let chain = choose|c: Seq<int>| #[trigger] is_lock_chain(techs, milestones, c) && c.len() == len + 1 && c.last() == k;
        let c = chain.drop_last();
        assert(c[0] == chain[0]);
        assert forall|t: int| 0 <= t < c.len() - 1 implies node_needs(
            techs,
            #[trigger] c[t + 1],
            node_name(techs, c[t]),
        ) by {
            assert(c[t + 1] == chain[t + 1] && c[t] == chain[t]);
        }
        assert(is_lock_chain(techs, milestones, c));
        let j = c.last();
        assert(chain[len - 1] == j);
        assert(reach[j]);
        assert(node_needs(techs, chain[(len - 1) + 1], node_name(techs, chain[len - 1])));
        assert(name_blocked(techs, none, reach, node_name(techs, j)));
    }
    if needs_blocked(techs, none, reach, k) {
        let p = choose|p: Seq<char>| node_needs(techs, k, p) && #[trigger] name_blocked(techs, none, reach, p);
        assert(!milestone_locked(none, p));
        let j = choose|j: int| 0 <= j < techs.len() && #[trigger] reach[j] && node_name(techs, j) == p;
        let c = choose|c: Seq<int>| #[trigger] is_lock_chain(techs, milestones, c) && c.len() == len && c.last() == j;
        let chain = c.push(k);
        assert(chain[0] == c[0]);
        assert forall|t: int| 0 <= t < chain.len() - 1 implies node_needs(
            techs,
            #[trigger] chain[t + 1],
            node_name(techs, chain[t]),
        ) by {
            if t < c.len() - 1 {
                assert(chain[t + 1] == c[t + 1] && chain[t] == c[t]);
            } else {
                assert(chain[t] == j);
            }
        }
        assert(is_lock_chain(techs, milestones, chain));
        assert(chain.last() == k);
    }
}

proof fn lemma_locks_end_iff(techs: Seq<TechnologyPrototype>, milestones: Seq<(String, bool)>)
    ensures
        locks_end(techs, milestones) <==> forall|k: int|
            0 <= k < techs.len() ==> !#[trigger] ends_lock_chain(techs, milestones, techs.len() + 1int, k),
{
    let n = techs.len() as int;
    if !locks_end(techs, milestones) {
        let chain = choose|chain: Seq<int>| #[trigger] is_lock_chain(techs, milestones, chain) && !(chain.len() <= n);
        let c = chain.take(n + 1);
        assert(c[0] == chain[0]);
        assert forall|t: int| 0 <= t < c.len() - 1 implies node_needs(
            techs,
            #[trigger] c[t + 1],
            node_name(techs, c[t]),
        ) by {
            assert(c[t + 1] == chain[t + 1] && c[t] == chain[t]);
        }
        assert forall|t: int| 0 <= t < c.len() implies 0 <= #[trigger] c[t] < techs.len() by {
            assert(c[t] == chain[t]);
        }
        assert(is_lock_chain(techs, milestones, c));
        assert(c.last() == chain[n]);
        assert(ends_lock_chain(techs, milestones, n + 1, chain[n]));
    }
    if exists|k: int| 0 <= k < n && #[trigger] ends_lock_chain(techs, milestones, n + 1, k) {
        let k = choose|k: int| 0 <= k < n && #[trigger] ends_lock_chain(techs, milestones, n + 1, k);
        let c = choose|c: Seq<int>| #[trigger] is_lock_chain(techs, milestones, c) && c.len() == n + 1 && c.last() == k;
    }
}

/// Whether spreading the locks of `milestones` ends: no technology that a
/// milestone holds back leads, through the technologies that need it, into
/// a cycle of prerequisites. This is what `resolve_dependency` needs of
/// its input.
pub fn locks_spread_end(techs: &Vec<TechnologyPrototype>, milestones: &Vec<(String, bool)>) -> (r: bool)
    ensures
        r == locks_end(techs@, milestones@),
{
    let n = techs.len();
    let mut unmarked: Vec<bool> = Vec::new();
    let mut k: usize = 0;
    while k < n
        invariant
            n == techs.len(),
            k <= n,
            unmarked.len() == k,
            forall|j: int| 0 <= j < k ==> !#[trigger] unmarked@[j],
        decreases n - k,
    {
        unmarked.push(false);
        k = k + 1;
    }
    let mut reach: Vec<bool> = Vec::new();
    let mut k: usize = 0;
    while k < n
        invariant
            n == techs.len(),
            k <= n,
            unmarked.len() == n,
            forall|j: int| 0 <= j < n ==> !#[trigger] unmarked@[j],
            reach.len() == k,
            forall|j: int| 0 <= j < k ==> #[trigger] reach@[j] == ends_lock_chain(techs@, milestones@, 1, j),
        decreases n - k,
    {
        let b = needs_blocked_exec(techs, milestones, &unmarked, k);
        proof {
            lemma_first_links(techs@, milestones@, unmarked@, k as int);
        }
        reach.push(b);
        k = k + 1;
    }
    let none: Vec<(String, bool)> = Vec::new();
    let mut round: usize = 0;
    while round < n
        invariant
            n == techs.len(),
            round <= n,
            none@.len() == 0,
            reach.len() == n,
            forall|j: int| 0 <= j < n ==> #[trigger] reach@[j] == ends_lock_chain(techs@, milestones@, round + 1int, j),
        decreases n - round,
    {
        let mut next: Vec<bool> = Vec::new();
        let mut k: usize = 0;
        while k < n
            invariant
                n == techs.len(),
                k <= n,
                none@.len() == 0,
                reach.len() == n,
                forall|j: int| 0 <= j < n ==> #[trigger] reach@[j] == ends_lock_chain(techs@, milestones@, round + 1int, j),
                next.len() == k,
                forall|j: int| 0 <= j < k ==> #[trigger] next@[j] == ends_lock_chain(techs@, milestones@, round + 2int, j),
            decreases n - k,
        {
            let b = needs_blocked_exec(techs, &none, &reach, k);
            proof {
                lemma_next_links(techs@, milestones@, none@, reach@, round + 1int, k as int);
            }
            next.push(b);
            k = k + 1;
        }
        reach = next;
        round = round + 1;
    }
    proof {
        lemma_locks_end_iff(techs@, milestones@);
    }
    let mut k: usize = 0;
    while k < n
        invariant
            n == techs.len(),
            k <= n,
            reach.len() == n,
            forall|j: int| 0 <= j < n ==> #[trigger] reach@[j] == ends_lock_chain(techs@, milestones@, n + 1int, j),
            forall|j: int| 0 <= j < k ==> !#[trigger] ends_lock_chain(techs@, milestones@, n + 1int, j),
        decreases n - k,
    {
        if reach[k] {
            return false;
        }
        k = k + 1;
    }
    true
}

/// The technologies that stay available once the milestones are applied.
///
/// A milestone `(name, false)` holds its technology back, and with it every
/// technology that depends on it, directly or through others; a
/// milestone `(name, true)` holds nothing back. The result lists the
/// names of the other technologies, each once. A lock must not reach a
/// cycle of prerequisites: spreading it would never end.
pub fn resolve_dependency(techs: &Vec<TechnologyPrototype>, milestones: &Vec<(String, bool)>) -> (r: Vec<String>)
    requires
        names_distinct(techs@),
        locks_end(techs@, milestones@),
    ensures
        r.len() <= techs.len(),
        string_views(r@).no_duplicates(),
        forall|n: Seq<char>| #[trigger]
            string_views(r@).contains(n) <==> is_available(techs@, milestones@, n),
{
    let mut locked: Vec<bool> = Vec::new();
    let mut k: usize = 0;
    while k < techs.len()
        invariant
            k <= techs.len(),
            locked.len() == k,
            forall|i: int| 0 <= i < k ==> #[trigger] locked@[i] == milestone_locked(milestones@, node_name(techs@, i)),
        decreases techs.len() - k,
    {
        locked.push(is_milestone_locked(milestones, &techs[k].base.name));
        k = k + 1;
    }
    proof {
        assert forall|i: int| 0 <= i < locked.len() && #[trigger] locked@[i] implies tech_locked(techs@, milestones@, i) by {
        }
    }
    loop
        invariant
            locked.len() == techs.len(),
            marks_sound(techs@, milestones@, locked@),
            forall|i: int| 0 <= i < techs.len() && milestone_locked(milestones@, node_name(techs@, i)) ==> #[trigger] locked@[i],
        ensures
            locked.len() == techs.len(),
            marks_sound(techs@, milestones@, locked@),
            forall|i: int| 0 <= i < techs.len() && milestone_locked(milestones@, node_name(techs@, i)) ==> #[trigger] locked@[i],
            forall|i: int| 0 <= i < techs.len() && !#[trigger] locked@[i] ==> !needs_blocked(techs@, milestones@, locked@, i),
        decreases count_unlocked(locked@),
    {
        let ghost start = locked@;
        let mut changed = false;
        let mut k: usize = 0;
        while k < techs.len()
            invariant
                k <= techs.len(),
                locked.len() == techs.len(),
                marks_sound(techs@, milestones@, locked@),
                forall|i: int| 0 <= i < techs.len() && milestone_locked(milestones@, node_name(techs@, i)) ==> #[trigger] locked@[i],
                forall|i: int| 0 <= i < techs.len() && #[trigger] start[i] ==> locked@[i],
                start.len() == techs.len(),
                changed ==> count_unlocked(locked@) < count_unlocked(start),
                !changed ==> locked@ == start,
                !changed ==> forall|i: int| 0 <= i < k && !#[trigger] locked@[i] ==> !needs_blocked(techs@, milestones@, locked@, i),
            decreases techs.len() - k,
        {
            if !locked[k] && needs_blocked_exec(techs, milestones, &locked, k) {
                proof {
                    lemma_mark_sound(techs@, milestones@, locked@, k as int);
                    lemma_count_set_true(locked@, k as int);
                }
                let ghost before = locked@;
                locked.set(k, true);
                proof {
                    assert(locked@ == before.update(k as int, true));
                    assert forall|i: int| 0 <= i < locked.len() && #[trigger] locked@[i] implies tech_locked(techs@, milestones@, i) by {
                        if i != k {
                            assert(before[i]);
                        }
                    }
                }
                changed = true;
            }
            k = k + 1;
        }
        if !changed {
            break;
        }
    }
    proof {
        assert forall|i: int| 0 <= i < techs.len() && tech_locked(techs@, milestones@, i) implies #[trigger] locked@[i] by {
            if !milestone_locked(milestones@, node_name(techs@, i)) {
                let c = choose|c: Seq<int>| #[trigger] is_lock_chain(techs@, milestones@, c) && c.last() == i;
                lemma_closed_complete(techs@, milestones@, locked@, c);
            }
        }
    }
    let mut r: Vec<String> = Vec::new();
    let mut k: usize = 0;
    while k < techs.len()
        invariant
            k <= techs.len(),
            locked.len() == techs.len(),
            string_views(r@) == unlocked_names(techs@, locked@, k as int),
        decreases techs.len() - k,
    {
        if !locked[k] {
            r.push(techs[k].base.name.clone());
        }
        proof {
            assert(string_views(r@) =~= unlocked_names(techs@, locked@, k + 1));
        }
        k = k + 1;
    }
    proof {
        assert forall|i: int| 0 <= i < techs.len() implies (#[trigger] locked@[i] <==> tech_locked(techs@, milestones@, i)) by {
        }
        lemma_unlocked_names(techs@, milestones@, locked@, techs.len() as int);
        assert forall|n: Seq<char>| #[trigger] string_views(r@).contains(n) <==> is_available(techs@, milestones@, n) by {
            if string_views(r@).contains(n) {
                let i = choose|i: int| 0 <= i < techs.len() && node_name(techs@, i) == n && !locked@[i];
                assert(!tech_locked(techs@, milestones@, i));
            }
            if is_available(techs@, milestones@, n) {
                let i = choose|k: int| 0 <= k < techs.len() && #[trigger] node_name(techs@, k) == n && !tech_locked(techs@, milestones@, k);
                assert(!locked@[i]);
            }
        }
    }
    r
}

/// With no milestone set to `false`, nothing is held back.
pub proof fn lemma_no_locks_all_available(
    techs: Seq<TechnologyPrototype>,
    milestones: Seq<(String, bool)>,
    k: int,
)
    requires
        forall|i: int| 0 <= i < milestones.len() ==> #[trigger] milestones[i].1,
        0 <= k < techs.len(),
    ensures
        !tech_locked(techs, milestones, k),
{
    if exists|chain: Seq<int>| #[trigger] is_lock_chain(techs, milestones, chain) && chain.last() == k {
        let chain = choose|chain: Seq<int>| #[trigger] is_lock_chain(techs, milestones, chain) && chain.last() == k;
        let p = choose|p: Seq<char>| node_needs(techs, chain[0], p) && #[trigger] milestone_locked(milestones, p);
        let i = choose|i: int| 0 <= i < milestones.len() && #[trigger] milestones[i].0@ == p && !milestones[i].1;
    }
}

/// A technology held back takes every technology that needs it along.
pub proof fn lemma_lock_spreads(
    techs: Seq<TechnologyPrototype>,
    milestones: Seq<(String, bool)>,
    k: int,
    l: int,
)
    requires
        0 <= k < techs.len(),
        0 <= l < techs.len(),
        tech_locked(techs, milestones, k),
        node_needs(techs, l, node_name(techs, k)),
    ensures
        tech_locked(techs, milestones, l),
{
    if milestone_locked(milestones, node_name(techs, k)) {
        let chain = seq![l];
        assert(is_lock_chain(techs, milestones, chain));
    } else {
        let c = choose|c: Seq<int>| #[trigger] is_lock_chain(techs, milestones, c) && c.last() == k;
        let chain = c.push(l);
        assert(chain[0] == c[0]);
        assert forall|t: int| 0 <= t < chain.len() - 1 implies node_needs(
            techs,
            #[trigger] chain[t + 1],
            node_name(techs, chain[t]),
        ) by {
            if t < c.len() - 1 {
                assert(chain[t + 1] == c[t + 1] && chain[t] == c[t]);
            } else {
                assert(chain[t] == k);
            }
        }
        assert(is_lock_chain(techs, milestones, chain));
    }
}

} // verus!
