use vstd::prelude::*;

verus! {

/// The first entry from `from` on whose key is `n`, if any.
pub open spec fn first_index(keys: Seq<String>, n: Seq<char>, from: int) -> Option<int>
    decreases keys.len() - from,
{
    if from < 0 || from >= keys.len() {
        None
    } else if keys[from]@ == n {
        Some(from)
    } else {
        first_index(keys, n, from + 1)
    }
}

pub open spec fn normal_key() -> Seq<char> {
    seq!['n', 'o', 'r', 'm', 'a', 'l']
}

/// The name of the level after entry `i`: its `next`, or the empty name.
pub open spec fn next_name(nexts: Seq<Option<String>>, i: int) -> Seq<char> {
    match nexts[i] {
        Some(n) => n@,
        None => Seq::empty(),
    }
}

/// The entry reached after `k` steps up the chain from `"normal"`, if the
/// chain goes that far.
pub open spec fn chain_entry(keys: Seq<String>, nexts: Seq<Option<String>>, k: nat) -> Option<int>
    decreases k,
{
    if k == 0 {
        first_index(keys, normal_key(), 0)
    } else {
        match chain_entry(keys, nexts, (k - 1) as nat) {
            Some(i) => first_index(keys, next_name(nexts, i), 0),
            None => None,
        }
    }
}

/// The chain from `"normal"` ends: some step leads to no entry.
pub open spec fn chain_ends(keys: Seq<String>, nexts: Seq<Option<String>>) -> bool {
    exists|k: nat| #[trigger] chain_entry(keys, nexts, k) is None
}

proof fn lemma_first_index(keys: Seq<String>, n: Seq<char>, from: int)
    requires
        0 <= from,
    ensures
        match first_index(keys, n, from) {
            Some(i) => from <= i < keys.len() && keys[i]@ == n && forall|t: int| from <= t < i ==> keys[t]@ != n,
            None => forall|t: int| from <= t < keys.len() ==> keys[t]@ != n,
        },
    decreases keys.len() - from,
{
    if from < keys.len() && keys[from]@ != n {
        lemma_first_index(keys, n, from + 1);
    }
}

proof fn lemma_chain_stays_ended(keys: Seq<String>, nexts: Seq<Option<String>>, a: nat, b: nat)
    requires
        chain_entry(keys, nexts, a) is None,
        a <= b,
    ensures
        chain_entry(keys, nexts, b) is None,
    decreases b - a,
{
    if a < b {
        lemma_chain_stays_ended(keys, nexts, a, (b - 1) as nat);
    }
}

proof fn lemma_chain_in_range(keys: Seq<String>, nexts: Seq<Option<String>>, k: nat)
    ensures
        chain_entry(keys, nexts, k) matches Some(i) ==> 0 <= i < keys.len(),
    decreases k,
{
    if k == 0 {
        lemma_first_index(keys, normal_key(), 0);
    } else {
        lemma_chain_in_range(keys, nexts, (k - 1) as nat);
        if let Some(i) = chain_entry(keys, nexts, (k - 1) as nat) {
            lemma_first_index(keys, next_name(nexts, i), 0);
        }
    }
}

fn find_key(keys: &Vec<String>, n: &String) -> (r: Option<usize>)
    ensures
        match r {
            Some(i) => first_index(keys@, n@, 0) == Some(i as int),
            None => first_index(keys@, n@, 0) is None,
        },
{
    proof {
        lemma_first_index(keys@, n@, 0);
    }
    let mut j: usize = 0;
    while j < keys.len()
        invariant
            j <= keys.len(),
            forall|t: int| 0 <= t < j ==> keys@[t]@ != n@,
            first_index(keys@, n@, 0) == first_index(keys@, n@, j as int),
        decreases keys.len() - j,
    {
        if keys[j] == *n {
            return Some(j);
        }
        j = j + 1;
    }
    None
}

/// The quality levels in order, lowest first: the entry keyed `"normal"`,
/// then each level named as the next of the one before, until a next
/// names no entry (no next counts as the empty name). Entry `i` is keyed
/// `keys[i]` and names `nexts[i]` as its next. The game's data keys a
/// `"normal"` level, and its chain ends.
pub fn quality_chain(keys: &Vec<String>, nexts: &Vec<Option<String>>) -> (r: Vec<usize>)
    requires
        keys.len() == nexts.len(),
        chain_entry(keys@, nexts@, 0) is Some,
        chain_ends(keys@, nexts@),
    ensures
        chain_entry(keys@, nexts@, r.len() as nat) is None,
        forall|t: int| 0 <= t < r.len() ==> chain_entry(keys@, nexts@, t as nat) == Some(#[trigger] r@[t] as int),
{
    let ghost end = choose|k: nat| #[trigger] chain_entry(keys@, nexts@, k) is None;
    let normal = "normal".to_string();
    proof {
        reveal_strlit("normal");
        assert(normal@ =~= normal_key());
    }
    let mut r: Vec<usize> = Vec::new();
    let mut cur = find_key(keys, &normal);
    let empty = String::new();
    while cur.is_some()
        invariant
            keys.len() == nexts.len(),
            chain_entry(keys@, nexts@, end) is None,
            empty@ == Seq::<char>::empty(),
            match cur {
                Some(i) => chain_entry(keys@, nexts@, r.len() as nat) == Some(i as int),
                None => chain_entry(keys@, nexts@, r.len() as nat) is None,
            },
            forall|t: int| 0 <= t < r.len() ==> chain_entry(keys@, nexts@, t as nat) == Some(#[trigger] r@[t] as int),
        decreases end - r.len(),
    {
        let i = cur.unwrap();
        proof {
            if end <= r.len() {
                lemma_chain_stays_ended(keys@, nexts@, end, r.len() as nat);
            }
            lemma_chain_in_range(keys@, nexts@, r.len() as nat);
        }
        r.push(i);
        let next = match &nexts[i] {
            Some(n) => n,
            None => &empty,
        };
        cur = find_key(keys, next);
    }
    r
}

} // verus!
