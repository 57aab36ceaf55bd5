use vstd::prelude::*;

use crate::common::{IdWithQuality, PrototypeBase};
use crate::data::{DataContext, GenericItem};
use crate::model::{contains_name, vec_contains, EntityPrototype, TilePrototype};

verus! {

/// What a planet's map generator names: the autoplace controls it sets,
/// and the entities and tiles that have settings of their own.
#[derive(Debug, Clone, Default)]
pub struct PlanetMapGenSettings {
    pub autoplace_controls: Vec<String>,
    pub entity_settings: Vec<String>,
    pub tile_settings: Vec<String>,
}

/// The parts of a planet prototype that the planner reads.
#[derive(Debug, Clone, Default)]
pub struct PlanetPrototype {
    pub base: PrototypeBase,
    pub entities_require_heating: bool,
    pub pollutant_type: Option<String>,
    pub map_gen_settings: PlanetMapGenSettings,
}

pub open spec fn resource_type() -> Seq<char> {
    seq!['r', 'e', 's', 'o', 'u', 'r', 'c', 'e']
}

pub open spec fn asteroid_chunk_type() -> Seq<char> {
    seq!['a', 's', 't', 'e', 'r', 'o', 'i', 'd', '-', 'c', 'h', 'u', 'n', 'k']
}

/// The planet's map generator places the resource or asteroid chunk `e`:
/// it sets `e`'s control, or has settings for `e` itself.
pub open spec fn entity_autoplaced(planet: PlanetPrototype, e: EntityPrototype) -> bool {
    &&& (e.base.prototype_type@ == resource_type() || e.base.prototype_type@ == asteroid_chunk_type())
    &&& e.autoplace is Some
    &&& (contains_name(planet.map_gen_settings.autoplace_controls@, e.autoplace->0.control@)
        || contains_name(planet.map_gen_settings.entity_settings@, e.base.name@))
}

/// The planet's map generator places the fluid tile `t`.
pub open spec fn tile_autoplaced(planet: PlanetPrototype, t: TilePrototype) -> bool {
    &&& t.autoplace is Some
    &&& t.fluid is Some
    &&& (contains_name(planet.map_gen_settings.autoplace_controls@, t.autoplace->0.control@)
        || contains_name(planet.map_gen_settings.tile_settings@, t.base.name@))
}

/// Some entity that the planet places is named `n`.
pub open spec fn places_entity(planet: PlanetPrototype, data: DataContext, n: Seq<char>) -> bool {
    exists|j: int|
        0 <= j < data.entities.len() && #[trigger] entity_autoplaced(planet, data.entities@[j])
            && data.entities@[j].base.name@ == n
}

/// Some fluid tile that the planet places gives the fluid `n`.
pub open spec fn places_fluid(planet: PlanetPrototype, data: DataContext, n: Seq<char>) -> bool {
    exists|j: int|
        0 <= j < data.tiles.len() && #[trigger] tile_autoplaced(planet, data.tiles@[j]) && data.tiles@[j].fluid->0@
            == n
}

/// `g` is what an autoplaced entity or tile gives: the entity at the
/// lowest quality, or the tile's fluid at any temperature.
pub open spec fn autoplaced_item(planet: PlanetPrototype, data: DataContext, g: GenericItem) -> bool {
    match g {
        GenericItem::Entity(id) => id.1 == 0 && places_entity(planet, data, id.0@),
        GenericItem::Fluid { name, temperature } => temperature@ == seq![i32::MIN, i32::MAX] && places_fluid(
            planet,
            data,
            name@,
        ),
        _ => false,
    }
}

/// The name that `g` lists, for the kinds that map generation gives.
pub open spec fn placed_name(g: GenericItem) -> Seq<char> {
    match g {
        GenericItem::Entity(id) => id.0@,
        GenericItem::Fluid { name, .. } => name@,
        _ => Seq::empty(),
    }
}

pub open spec fn distinct_names(v: Seq<String>) -> bool {
    forall|k: int, l: int| 0 <= k < l < v.len() ==> #[trigger] v[k]@ != #[trigger] v[l]@
}

impl PlanetPrototype {
    /// The names of the entities that the map generator places, each once.
    fn autoplaced_entity_names(&self, data: &DataContext) -> (r: Vec<String>)
        ensures
            distinct_names(r@),
            forall|k: int| 0 <= k < r.len() ==> places_entity(*self, *data, #[trigger] r@[k]@),
            forall|n: Seq<char>| places_entity(*self, *data, n) ==> #[trigger] contains_name(r@, n),
    {
        let resource = "resource".to_string();
        let asteroid = "asteroid-chunk".to_string();
        proof {
            reveal_strlit("resource");
            reveal_strlit("asteroid-chunk");
            assert(resource@ =~= resource_type());
            assert(asteroid@ =~= asteroid_chunk_type());
        }
        let settings = &self.map_gen_settings;
        let mut names: Vec<String> = Vec::new();
        let mut j: usize = 0;
        while j < data.entities.len()
            invariant
                j <= data.entities.len(),
                settings == &self.map_gen_settings,
                resource@ == resource_type(),
                asteroid@ == asteroid_chunk_type(),
                distinct_names(names@),
                forall|k: int| 0 <= k < names.len() ==> places_entity(*self, *data, #[trigger] names@[k]@),
                forall|t: int|
                    0 <= t < j && #[trigger] entity_autoplaced(*self, data.entities@[t]) ==> contains_name(
                        names@,
                        data.entities@[t].base.name@,
                    ),
            decreases data.entities.len() - j,
        {
            let entity = &data.entities[j];
            let ghost before = names@;
            if entity.base.prototype_type == resource || entity.base.prototype_type == asteroid {
                match &entity.autoplace {
                    Some(autoplace) => {
                        if vec_contains(&settings.autoplace_controls, &autoplace.control) || vec_contains(
                            &settings.entity_settings,
                            &entity.base.name,
                        ) {
                            assert(entity_autoplaced(*self, data.entities@[j as int]));
                            if !vec_contains(&names, &entity.base.name) {
                                names.push(entity.base.name.clone());
                                assert(names@[names.len() - 1]@ == data.entities@[j as int].base.name@);
                                assert forall|t: int|
                                    0 <= t < j && #[trigger] entity_autoplaced(*self, data.entities@[t]) implies contains_name(
                                        names@,
                                        data.entities@[t].base.name@,
                                    ) by {
                                    let a = choose|a: int| 0 <= a < before.len() && before[a]@ == data.entities@[t].base.name@;
                                    assert(names@[a] == before[a]);
                                }
                            }
                        }
                    },
                    None => {},
                }
            }
            j = j + 1;
        }
        proof {
            assert forall|n: Seq<char>| places_entity(*self, *data, n) implies #[trigger] contains_name(names@, n) by {
                let e = choose|e: int|
                    0 <= e < data.entities.len() && #[trigger] entity_autoplaced(*self, data.entities@[e])
                        && data.entities@[e].base.name@ == n;
            }
        }
        names
    }

    /// The fluids of the tiles that the map generator places, each once.
    fn autoplaced_fluid_names(&self, data: &DataContext) -> (r: Vec<String>)
        ensures
            distinct_names(r@),
            forall|k: int| 0 <= k < r.len() ==> places_fluid(*self, *data, #[trigger] r@[k]@),
            forall|n: Seq<char>| places_fluid(*self, *data, n) ==> #[trigger] contains_name(r@, n),
    {
        let settings = &self.map_gen_settings;
        let mut names: Vec<String> = Vec::new();
        let mut t: usize = 0;
        while t < data.tiles.len()
            invariant
                t <= data.tiles.len(),
                settings == &self.map_gen_settings,
                distinct_names(names@),
                forall|k: int| 0 <= k < names.len() ==> places_fluid(*self, *data, #[trigger] names@[k]@),
                forall|u: int|
                    0 <= u < t && #[trigger] tile_autoplaced(*self, data.tiles@[u]) ==> contains_name(
                        names@,
                        data.tiles@[u].fluid->0@,
                    ),
            decreases data.tiles.len() - t,
        {
            let tile = &data.tiles[t];
            let ghost before = names@;
            match (&tile.autoplace, &tile.fluid) {
                (Some(autoplace), Some(fluid)) => {
                    if vec_contains(&settings.autoplace_controls, &autoplace.control) || vec_contains(
                        &settings.tile_settings,
                        &tile.base.name,
                    ) {
                        assert(tile_autoplaced(*self, data.tiles@[t as int]));
                        if !vec_contains(&names, fluid) {
                            names.push(fluid.clone());
                            assert(names@[names.len() - 1]@ == data.tiles@[t as int].fluid->0@);
                            assert forall|u: int|
                                0 <= u < t && #[trigger] tile_autoplaced(*self, data.tiles@[u]) implies contains_name(
                                    names@,
                                    data.tiles@[u].fluid->0@,
                                ) by {
                                let a = choose|a: int| 0 <= a < before.len() && before[a]@ == data.tiles@[u].fluid->0@;
                                assert(names@[a] == before[a]);
                            }
                        }
                    }
                },
                _ => {},
            }
            t = t + 1;
        }
        proof {
            assert forall|n: Seq<char>| places_fluid(*self, *data, n) implies #[trigger] contains_name(names@, n) by {
                let u = choose|u: int|
                    0 <= u < data.tiles.len() && #[trigger] tile_autoplaced(*self, data.tiles@[u])
                        && data.tiles@[u].fluid->0@ == n;
            }
        }
        names
    }

    /// The resources, asteroid chunks and fluids that the planet's map
    /// generator places, each once: entities at the lowest quality,
    /// fluids at any temperature.
    pub fn collect_autoplaced(&self, data: &DataContext) -> (r: Vec<GenericItem>)
        ensures
            forall|k: int| 0 <= k < r.len() ==> #[trigger] autoplaced_item(*self, *data, r@[k]),
            forall|n: Seq<char>|
                places_entity(*self, *data, n) ==> exists|k: int|
                    0 <= k < r.len() && r@[k] is Entity && #[trigger] placed_name(r@[k]) == n,
            forall|n: Seq<char>|
                places_fluid(*self, *data, n) ==> exists|k: int|
                    0 <= k < r.len() && r@[k] is Fluid && #[trigger] placed_name(r@[k]) == n,
            forall|k: int, l: int|
                0 <= k < l < r.len() && (r@[k] is Entity <==> r@[l] is Entity) ==> placed_name(
                    #[trigger] r@[k],
                ) != placed_name(#[trigger] r@[l]),
    {
        let entities = self.autoplaced_entity_names(data);
        let fluids = self.autoplaced_fluid_names(data);
        let mut r: Vec<GenericItem> = Vec::new();
        let mut k: usize = 0;
        while k < entities.len()
            invariant
                k <= entities.len(),
                r.len() == k,
                forall|a: int| 0 <= a < k ==> #[trigger] r@[a] == GenericItem::Entity(IdWithQuality(entities@[a], 0)),
            decreases entities.len() - k,
        {
            r.push(GenericItem::Entity(IdWithQuality(entities[k].clone(), 0)));
            k = k + 1;
        }
        let ne = entities.len();
        let mut f: usize = 0;
        while f < fluids.len()
            invariant
                f <= fluids.len(),
                ne == entities.len(),
                r.len() == ne + f,
                forall|a: int| 0 <= a < ne ==> #[trigger] r@[a] == GenericItem::Entity(IdWithQuality(entities@[a], 0)),
                forall|a: int|
                    ne <= a < r.len() ==> #[trigger] r@[a] == (GenericItem::Fluid {
                        name: fluids@[a - ne],
                        temperature: [i32::MIN, i32::MAX],
                    }),
            decreases fluids.len() - f,
        {
            r.push(GenericItem::Fluid { name: fluids[f].clone(), temperature: [i32::MIN, i32::MAX] });
            f = f + 1;
        }
        proof {
            let range: [i32; 2] = [i32::MIN, i32::MAX];
            assert(range@ =~= seq![i32::MIN, i32::MAX]);
            assert forall|a: int| 0 <= a < r.len() implies #[trigger] autoplaced_item(*self, *data, r@[a]) by {
                if a < ne {
                    assert(places_entity(*self, *data, entities@[a]@));
                } else {
                    assert(places_fluid(*self, *data, fluids@[a - ne]@));
                }
            }
            assert forall|n: Seq<char>| places_entity(*self, *data, n) implies exists|a: int|
                0 <= a < r.len() && r@[a] is Entity && #[trigger] placed_name(r@[a]) == n by {
                assert(contains_name(entities@, n));
                let a = choose|a: int| 0 <= a < entities.len() && #[trigger] entities@[a]@ == n;
                assert(placed_name(r@[a]) == n);
            }
            assert forall|n: Seq<char>| places_fluid(*self, *data, n) implies exists|a: int|
                0 <= a < r.len() && r@[a] is Fluid && #[trigger] placed_name(r@[a]) == n by {
                assert(contains_name(fluids@, n));
                let a = choose|a: int| 0 <= a < fluids.len() && #[trigger] fluids@[a]@ == n;
                assert(placed_name(r@[ne + a]) == n);
            }
            assert forall|a: int, b: int|
                0 <= a < b < r.len() && (r@[a] is Entity <==> r@[b] is Entity) implies placed_name(
                    #[trigger] r@[a],
                ) != placed_name(#[trigger] r@[b]) by {
                if b < ne {
                    assert(entities@[a]@ != entities@[b]@);
                } else {
                    assert(a >= ne);
                    assert(fluids@[a - ne]@ != fluids@[b - ne]@);
                }
            }
        }
        r
    }
}

} // verus!
