use vstd::prelude::*;

verus! {

/// `serde_json::Value`, declared so that a value of it can be carried
/// through; nothing is read from it and nothing is claimed of it.
#[verifier::external_type_specification]
#[verifier::external_body]
pub struct ExJsonValue(serde_json::Value);

/// A kind of module effect.
#[derive(Debug, Clone, Copy, PartialEq, Eq, Structural)]
pub enum EffectType {
    Consumption,
    Speed,
    Productivity,
    Pollution,
    Quality,
}

/// Which module effects a machine or beacon lets through, as the game's
/// data writes it: one effect, a list of effects, or an empty value.
#[derive(Debug)]
pub enum EffectTypeLimitation {
    Single(EffectType),
    Multiple(Vec<EffectType>),
    Empty(serde_json::Value),
}

/// The effects that a limitation lets through, in the order written.
pub open spec fn allowed(l: EffectTypeLimitation) -> Seq<EffectType> {
    match l {
        EffectTypeLimitation::Single(e) => seq![e],
        EffectTypeLimitation::Multiple(v) => v@,
        EffectTypeLimitation::Empty(_) => Seq::empty(),
    }
}

pub open spec fn flag_effect(allow: bool, e: EffectType) -> Seq<EffectType> {
    if allow {
        seq![e]
    } else {
        Seq::empty()
    }
}

/// The elements of `s` that also occur in `t`, in the order of `s`.
pub open spec fn kept_in(s: Seq<EffectType>, t: Seq<EffectType>) -> Seq<EffectType>
    decreases s.len(),
{
    if s.len() == 0 {
        Seq::empty()
    } else if t.contains(s.last()) {
        kept_in(s.drop_last(), t).push(s.last())
    } else {
        kept_in(s.drop_last(), t)
    }
}

pub proof fn lemma_kept_in_contains(s: Seq<EffectType>, t: Seq<EffectType>, e: EffectType)
    ensures
        kept_in(s, t).contains(e) <==> (s.contains(e) && t.contains(e)),
    decreases s.len(),
{
    if s.len() > 0 {
        let p = s.drop_last();
        lemma_kept_in_contains(p, t, e);
        assert(s =~= p.push(s.last()));
        if s.contains(e) && e != s.last() {
            let i = choose|i: int| 0 <= i < s.len() && s[i] == e;
            assert(p[i] == e);
        }
        if p.contains(e) {
            let i = choose|i: int| 0 <= i < p.len() && p[i] == e;
            assert(s[i] == e);
        }
        let k = kept_in(p, t);
        if t.contains(s.last()) {
            if k.push(s.last()).contains(e) && e != s.last() {
                let i = choose|i: int| 0 <= i < k.push(s.last()).len() && k.push(s.last())[i] == e;
                assert(k[i] == e);
            }
            if k.contains(e) {
                let i = choose|i: int| 0 <= i < k.len() && k[i] == e;
                assert(k.push(s.last())[i] == e);
            }
            if e == s.last() {
                assert(k.push(s.last())[k.len() as int] == e);
            }
        }
    }
}

fn effect_listed(v: &Vec<EffectType>, e: EffectType) -> (r: bool)
    ensures
        r == v@.contains(e),
{
    let mut i: usize = 0;
    while i < v.len()
        invariant
            i <= v.len(),
            forall|j: int| 0 <= j < i ==> v@[j] != e,
        decreases v.len() - i,
    {
        if v[i] == e {
            return true;
        }
        i = i + 1;
    }
    false
}

impl EffectTypeLimitation {
    /// The list of the effects whose flag is set, in the order consumption,
    /// speed, productivity, pollution, quality.
    pub fn new(
        allow_consumption: bool,
        allow_speed: bool,
        allow_productivity: bool,
        allow_pollution: bool,
        allow_quality: bool,
    ) -> (r: Self)
        ensures
            r is Multiple,
            allowed(r) == flag_effect(allow_consumption, EffectType::Consumption) + flag_effect(
                allow_speed,
                EffectType::Speed,
            ) + flag_effect(allow_productivity, EffectType::Productivity) + flag_effect(
                allow_pollution,
                EffectType::Pollution,
            ) + flag_effect(allow_quality, EffectType::Quality),
    {
        let mut ret: Vec<EffectType> = Vec::new();
        if allow_consumption {
            ret.push(EffectType::Consumption);
        }
        if allow_speed {
            ret.push(EffectType::Speed);
        }
        if allow_productivity {
            ret.push(EffectType::Productivity);
        }
        if allow_pollution {
            ret.push(EffectType::Pollution);
        }
        if allow_quality {
            ret.push(EffectType::Quality);
        }
        let r = EffectTypeLimitation::Multiple(ret);
        proof {
            assert(allowed(r) =~= flag_effect(allow_consumption, EffectType::Consumption)
                + flag_effect(allow_speed, EffectType::Speed) + flag_effect(
                allow_productivity,
                EffectType::Productivity,
            ) + flag_effect(allow_pollution, EffectType::Pollution) + flag_effect(
                allow_quality,
                EffectType::Quality,
            ));
        }
        r
    }

    /// The same effects written as a list.
    pub fn normalized(&self) -> (r: Self)
        ensures
            r is Multiple,
            allowed(r) == allowed(*self),
    {
        match self {
            EffectTypeLimitation::Single(s) => {
                let mut v: Vec<EffectType> = Vec::new();
                v.push(*s);
                proof {
                    assert(v@ =~= seq![*s]);
                }
                EffectTypeLimitation::Multiple(v)
            },
            EffectTypeLimitation::Empty(_) => EffectTypeLimitation::Multiple(Vec::new()),
            EffectTypeLimitation::Multiple(v) => {
                let mut w: Vec<EffectType> = Vec::new();
                let mut i: usize = 0;
                while i < v.len()
                    invariant
                        i <= v.len(),
                        w@ == v@.take(i as int),
                    decreases v.len() - i,
                {
                    w.push(v[i]);
                    proof {
                        assert(v@.take(i + 1) =~= v@.take(i as int).push(v@[i as int]));
                    }
                    i = i + 1;
                }
                proof {
                    assert(v@.take(v.len() as int) =~= v@);
                }
                EffectTypeLimitation::Multiple(w)
            },
        }
    }

    /// The effects that both limitations let through, in the order of `self`.
    pub fn intersect(&self, other: &EffectTypeLimitation) -> (r: EffectTypeLimitation)
        ensures
            r is Multiple,
            allowed(r) == kept_in(allowed(*self), allowed(*other)),
            forall|e: EffectType|
                #[trigger] allowed(r).contains(e) <==> allowed(*self).contains(e) && allowed(
                    *other,
                ).contains(e),
    {
        let a = self.normalized();
        let b = other.normalized();
        match (a, b) {
            (EffectTypeLimitation::Multiple(v1), EffectTypeLimitation::Multiple(v2)) => {
                let mut w: Vec<EffectType> = Vec::new();
                let mut i: usize = 0;
                while i < v1.len()
                    invariant
                        i <= v1.len(),
                        w@ == kept_in(v1@.take(i as int), v2@),
                    decreases v1.len() - i,
                {
                    proof {
                        assert(v1@.take(i + 1).drop_last() =~= v1@.take(i as int));
                        assert(v1@.take(i + 1).last() == v1@[i as int]);
                    }
                    if effect_listed(&v2, v1[i]) {
                        w.push(v1[i]);
                    }
                    i = i + 1;
                }
                proof {
                    assert(v1@.take(v1.len() as int) =~= v1@);
                    assert forall|e: EffectType|
                        #[trigger] w@.contains(e) <==> allowed(*self).contains(e) && allowed(
                            *other,
                        ).contains(e) by {
                        lemma_kept_in_contains(v1@, v2@, e);
                    }
                }
                EffectTypeLimitation::Multiple(w)
            },
            _ => EffectTypeLimitation::Multiple(Vec::new()),
        }
    }
}

impl Default for EffectTypeLimitation {
    fn default() -> (r: Self)
        ensures
            r is Multiple,
            allowed(r) == Seq::<EffectType>::empty(),
    {
        EffectTypeLimitation::Multiple(Vec::new())
    }
}

/// Intersecting limitations lets through the same effects in either order.
pub proof fn lemma_intersect_symmetric(a: EffectTypeLimitation, b: EffectTypeLimitation, e: EffectType)
    ensures
        kept_in(allowed(a), allowed(b)).contains(e) == kept_in(allowed(b), allowed(a)).contains(e),
{
    lemma_kept_in_contains(allowed(a), allowed(b), e);
    lemma_kept_in_contains(allowed(b), allowed(a), e);
}

} // verus!
