use vstd::prelude::*;

verus! {

/// Slot `(i, j)` names instance `j` of mechanic `i`; it exists when the
/// mechanic has more than `j` instances.
pub open spec fn slot_exists(p: (usize, usize), lens: Seq<usize>) -> bool {
    p.0 < lens.len() && p.1 < lens[p.0 as int]
}

/// The slots of `s` that exist, in order.
pub open spec fn existing_slots(s: Seq<(usize, usize)>, lens: Seq<usize>) -> Seq<(usize, usize)>
    decreases s.len(),
{
    if s.len() == 0 {
        Seq::empty()
    } else if slot_exists(s.last(), lens) {
        existing_slots(s.drop_last(), lens).push(s.last())
    } else {
        existing_slots(s.drop_last(), lens)
    }
}

proof fn lemma_existing_slots(s: Seq<(usize, usize)>, lens: Seq<usize>)
    ensures
        forall|p: (usize, usize)| #[trigger]
            existing_slots(s, lens).contains(p) <==> s.contains(p) && slot_exists(p, lens),
        forall|t: int|
            0 <= t < existing_slots(s, lens).len() ==> slot_exists(
                #[trigger] existing_slots(s, lens)[t],
                lens,
            ),
    decreases s.len(),
{
    if s.len() > 0 {
        let q = s.drop_last();
        lemma_existing_slots(q, lens);
        let e = existing_slots(q, lens);
        assert(s =~= q.push(s.last()));
        assert forall|p: (usize, usize)| #[trigger]
            existing_slots(s, lens).contains(p) <==> s.contains(p) && slot_exists(p, lens) by {
            if s.contains(p) && p != s.last() {
                let i = choose|i: int| 0 <= i < s.len() && s[i] == p;
                assert(q[i] == p);
            }
            if q.contains(p) {
                let i = choose|i: int| 0 <= i < q.len() && q[i] == p;
                assert(s[i] == p);
            }
            if slot_exists(s.last(), lens) {
                let ep = e.push(s.last());
                if ep.contains(p) && p != s.last() {
                    let i = choose|i: int| 0 <= i < ep.len() && ep[i] == p;
                    assert(e[i] == p);
                }
                if e.contains(p) {
                    let i = choose|i: int| 0 <= i < e.len() && e[i] == p;
                    assert(ep[i] == p);
                }
                assert(ep[e.len() as int] == s.last());
            }
        }
        assert forall|t: int|
            0 <= t < existing_slots(s, lens).len() implies slot_exists(
                #[trigger] existing_slots(s, lens)[t],
                lens,
            ) by {
            if slot_exists(s.last(), lens) && t < e.len() {
                assert(existing_slots(s, lens)[t] == e[t]);
            }
        }
    }
}

pub open spec fn slot_lt(p: (usize, usize), q: (usize, usize)) -> bool {
    p.0 < q.0 || (p.0 == q.0 && p.1 < q.1)
}

/// `new` is `old` brought up to date: its existing slots in their order,
/// then the missing existing slots in order of mechanic and instance.
pub open spec fn is_reset_of(
    new: Seq<(usize, usize)>,
    old: Seq<(usize, usize)>,
    lens: Seq<usize>,
) -> bool {
    let kept = existing_slots(old, lens);
    let added = new.skip(kept.len() as int);
    &&& kept.len() <= new.len()
    &&& new.take(kept.len() as int) == kept
    &&& forall|t: int|
        0 <= t < added.len() ==> slot_exists(#[trigger] added[t], lens) && !kept.contains(added[t])
    &&& forall|p: (usize, usize)|
        slot_exists(p, lens) && !kept.contains(p) ==> #[trigger] added.contains(p)
    &&& forall|t: int, u: int| 0 <= t < u < added.len() ==> slot_lt(added[t], added[u])
}

/// Brings the list of instance slots up to date with the number of
/// instances of each mechanic: slots that no longer exist are dropped,
/// keeping the order of the rest, and every existing slot that is not
/// listed is added after them, in order of mechanic and then instance.
pub fn reset_instances(instances: &mut Vec<(usize, usize)>, instance_lens: &Vec<usize>)
    ensures
        is_reset_of(final(instances)@, old(instances)@, instance_lens@),
{
    let ghost lens = instance_lens@;
    let mut kept: Vec<(usize, usize)> = Vec::new();
    let mut k: usize = 0;
    while k < instances.len()
        invariant
            k <= instances.len(),
            instances@ == old(instances)@,
            lens == instance_lens@,
            kept@ == existing_slots(instances@.take(k as int), lens),
        decreases instances.len() - k,
    {
        let p = instances[k];
        proof {
            assert(instances@.take(k + 1).drop_last() =~= instances@.take(k as int));
            assert(instances@.take(k + 1).last() == p);
        }
        if p.0 < instance_lens.len() && p.1 < instance_lens[p.0] {
            kept.push(p);
        }
        k = k + 1;
    }
    proof {
        assert(instances@.take(k as int) =~= old(instances)@);
        lemma_existing_slots(old(instances)@, lens);
    }
    let ghost retained = kept@;
    let mut i: usize = 0;
    while i < instance_lens.len()
        invariant
            i <= instance_lens.len(),
            lens == instance_lens@,
            retained == existing_slots(old(instances)@, lens),
            forall|p: (usize, usize)| #[trigger] retained.contains(p) ==> slot_exists(p, lens),
            retained.len() <= kept.len(),
            kept@.take(retained.len() as int) == retained,
            forall|t: int|
                retained.len() <= t < kept.len() ==> slot_exists(#[trigger] kept@[t], lens)
                    && !retained.contains(kept@[t]) && kept@[t].0 < i,
            forall|p: (usize, usize)|
                slot_exists(p, lens) && !retained.contains(p) && p.0 < i ==> #[trigger] kept@.contains(p),
            forall|t: int, u: int|
                retained.len() <= t < u < kept.len() ==> slot_lt(kept@[t], kept@[u]),
        decreases instance_lens.len() - i,
    {
        let mut j: usize = 0;
        while j < instance_lens[i]
            invariant
                i < instance_lens.len(),
                j <= instance_lens[i as int],
                lens == instance_lens@,
                retained == existing_slots(old(instances)@, lens),
                forall|p: (usize, usize)| #[trigger] retained.contains(p) ==> slot_exists(p, lens),
                retained.len() <= kept.len(),
                kept@.take(retained.len() as int) == retained,
                forall|t: int|
                    retained.len() <= t < kept.len() ==> slot_exists(#[trigger] kept@[t], lens)
                        && !retained.contains(kept@[t]) && slot_lt(kept@[t], (i, j)),
                forall|p: (usize, usize)|
                    slot_exists(p, lens) && !retained.contains(p) && slot_lt(p, (i, j)) ==> #[trigger] kept@.contains(p),
                forall|t: int, u: int|
                    retained.len() <= t < u < kept.len() ==> slot_lt(kept@[t], kept@[u]),
            decreases instance_lens[i as int] - j,
        {
            let p = (i, j);
            let mut found = false;
            let mut t: usize = 0;
            while t < kept.len()
                invariant
                    t <= kept.len(),
                    found == exists|s: int| 0 <= s < t && kept@[s] == p,
                decreases kept.len() - t,
            {
                if kept[t].0 == p.0 && kept[t].1 == p.1 {
                    found = true;
                }
                t = t + 1;
            }
            let ghost before = kept@;
            proof {
                // `p` is after every added slot, so it is listed only if retained.
                if retained.contains(p) {
                    let s = choose|s: int| 0 <= s < retained.len() && retained[s] == p;
                    assert(before.take(retained.len() as int)[s] == p);
                    assert(before[s] == p);
                }
                if found {
                    let s = choose|s: int| 0 <= s < before.len() && before[s] == p;
                    if s >= retained.len() {
                        assert(slot_lt(before[s], (i, j)));
                    } else {
                        assert(before.take(retained.len() as int)[s] == p);
                    }
                }
            }
            if !found {
                kept.push(p);
                proof {
                    assert(kept@.take(retained.len() as int) =~= before.take(retained.len() as int));
                    assert forall|q: (usize, usize)|
                        slot_exists(q, lens) && !retained.contains(q) && slot_lt(q, (i, (j + 1) as usize)) implies #[trigger] kept@.contains(q) by {
                        if q == p {
                            assert(kept@[kept.len() - 1] == p);
                        } else {
                            assert(slot_lt(q, (i, j)));
                            assert(before.contains(q));
                            let s = choose|s: int| 0 <= s < before.len() && before[s] == q;
                            assert(kept@[s] == q);
                        }
                    }
                }
            } else {
                proof {
                    assert forall|q: (usize, usize)|
                        slot_exists(q, lens) && !retained.contains(q) && slot_lt(q, (i, (j + 1) as usize)) implies #[trigger] kept@.contains(q) by {
                        if q != p {
                            assert(slot_lt(q, (i, j)));
                        }
                    }
                }
            }
            j = j + 1;
        }
        proof {
            assert forall|q: (usize, usize)|
                slot_exists(q, lens) && !retained.contains(q) && q.0 < i + 1 implies #[trigger] kept@.contains(q) by {
                if q.0 == i {
                    assert(slot_lt(q, (i, j)));
                }
            }
        }
        i = i + 1;
    }
    let ghost result = kept@;
    instances.clear();
    instances.append(&mut kept);
    proof {
        assert(instances@ =~= result);
        let added = result.skip(retained.len() as int);
        assert forall|t: int| 0 <= t < added.len() implies slot_exists(#[trigger] added[t], lens)
            && !retained.contains(added[t]) by {
            assert(added[t] == result[t + retained.len()]);
        }
        assert forall|p: (usize, usize)|
            slot_exists(p, lens) && !retained.contains(p) implies #[trigger] added.contains(p) by {
            assert(result.contains(p));
            let s = choose|s: int| 0 <= s < result.len() && result[s] == p;
            if s < retained.len() {
                assert(result.take(retained.len() as int)[s] == p);
            }
            assert(added[s - retained.len()] == p);
        }
        assert forall|t: int, u: int| 0 <= t < u < added.len() implies slot_lt(added[t], added[u]) by {
            assert(added[t] == result[t + retained.len()] && added[u] == result[u + retained.len()]);
        }
    }
}

proof fn lemma_existing_slots_distinct(s: Seq<(usize, usize)>, lens: Seq<usize>)
    requires
        s.no_duplicates(),
    ensures
        existing_slots(s, lens).no_duplicates(),
    decreases s.len(),
{
    if s.len() > 0 {
        let q = s.drop_last();
        assert(q.no_duplicates()) by {
            assert forall|a: int, b: int| 0 <= a < q.len() && 0 <= b < q.len() && a != b implies q[a] != q[b] by {
                assert(q[a] == s[a] && q[b] == s[b]);
            }
        }
        lemma_existing_slots_distinct(q, lens);
        lemma_existing_slots(q, lens);
        let e = existing_slots(q, lens);
        if slot_exists(s.last(), lens) {
            assert(!q.contains(s.last())) by {
                if q.contains(s.last()) {
                    let i = choose|i: int| 0 <= i < q.len() && q[i] == s.last();
                    assert(s[i] == s[s.len() - 1]);
                }
            }
            assert(!e.contains(s.last()));
            let ep = e.push(s.last());
            assert forall|a: int, b: int| 0 <= a < ep.len() && 0 <= b < ep.len() && a != b implies ep[a] != ep[b] by {
                if a == e.len() {
                    assert(ep[b] == e[b]);
                    assert(e.contains(e[b]));
                } else if b == e.len() {
                    assert(ep[a] == e[a]);
                    assert(e.contains(e[a]));
                } else {
                    assert(ep[a] == e[a] && ep[b] == e[b]);
                }
            }
        }
    }
}

/// After bringing the slots up to date, the list holds exactly the slots
/// that exist, and, when no slot was listed twice before, none is listed
/// twice after.
pub proof fn lemma_reset_lists_existing_slots(
    new: Seq<(usize, usize)>,
    old: Seq<(usize, usize)>,
    lens: Seq<usize>,
)
    requires
        is_reset_of(new, old, lens),
    ensures
        forall|p: (usize, usize)| #[trigger] new.contains(p) <==> slot_exists(p, lens),
        old.no_duplicates() ==> new.no_duplicates(),
{
    lemma_existing_slots(old, lens);
    let kept = existing_slots(old, lens);
    let added = new.skip(kept.len() as int);
    assert(new =~= kept + added);
    assert forall|p: (usize, usize)| #[trigger] new.contains(p) <==> slot_exists(p, lens) by {
        if new.contains(p) {
            let i = choose|i: int| 0 <= i < new.len() && new[i] == p;
            if i < kept.len() {
                assert(kept[i] == p);
            } else {
                assert(added[i - kept.len()] == p);
            }
        }
        if slot_exists(p, lens) {
            if kept.contains(p) {
                let i = choose|i: int| 0 <= i < kept.len() && kept[i] == p;
                assert(new[i] == p);
            } else {
                assert(added.contains(p));
                let i = choose|i: int| 0 <= i < added.len() && added[i] == p;
                assert(new[i + kept.len()] == p);
            }
        }
    }
    if old.no_duplicates() {
        lemma_existing_slots_distinct(old, lens);
        assert forall|a: int, b: int| 0 <= a < new.len() && 0 <= b < new.len() && a != b implies new[a] != new[b] by {
            if a < kept.len() && b < kept.len() {
                assert(new[a] == kept[a] && new[b] == kept[b]);
            } else if a >= kept.len() && b >= kept.len() {
                assert(new[a] == added[a - kept.len()] && new[b] == added[b - kept.len()]);
                if a < b {
                    assert(slot_lt(added[a - kept.len()], added[b - kept.len()]));
                } else {
                    assert(slot_lt(added[b - kept.len()], added[a - kept.len()]));
                }
            } else if a < kept.len() {
                assert(new[a] == kept[a] && new[b] == added[b - kept.len()]);
                assert(kept.contains(kept[a]));
            } else {
                assert(new[b] == kept[b] && new[a] == added[a - kept.len()]);
                assert(kept.contains(kept[b]));
            }
        }
    }
}

} // verus!
