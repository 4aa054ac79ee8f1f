//! The corpus aggregator and the route-resolution policy of the responder.
//!
//! Aggregation is a pure fold: the entities of every source unit, in visiting
//! order, with no deduplication. Two entities sharing a route both stay in
//! the catalog; when a route is looked up or registered, the first entity
//! with that route wins, matching the order a reader expects from reading a
//! source tree top to bottom.

use vstd::prelude::*;

use crate::extract::{extract, extract_spec};
use crate::schema::{Entity, EntityView};
use crate::source::{SourceUnit, SourceUnitView};
use crate::text::str_eq;

verus! {

/// The catalog of a sequence of source units: the concatenation of each
/// unit's entities, in unit order.
pub open spec fn catalog_of(units: Seq<SourceUnitView>) -> Seq<EntityView>
    decreases units.len(),
{
    if units.len() == 0 {
        Seq::empty()
    } else {
        catalog_of(units.drop_last()) + extract_spec(units.last())
    }
}

/// Builds the schema catalog for a whole source tree: extraction applied to
/// every unit, results concatenated in visiting order, duplicates kept.
pub fn aggregate(units: &Vec<SourceUnit>) -> (catalog: Vec<Entity>)
    ensures
        catalog@.map_values(|e: Entity| e@) == catalog_of(
            units@.map_values(|u: SourceUnit| u@),
        ),
{
    let ghost uv = units@.map_values(|u: SourceUnit| u@);
    let n = units.len();
    let mut catalog: Vec<Entity> = Vec::new();
    let mut i: usize = 0;
    proof {
        assert(uv.subrange(0, 0) =~= Seq::<SourceUnitView>::empty());
        assert(catalog@.map_values(|e: Entity| e@) =~= Seq::<EntityView>::empty());
    }
    while i < n
        invariant
            i <= n,
            n == units.len(),
            uv == units@.map_values(|u: SourceUnit| u@),
            catalog@.map_values(|e: Entity| e@) == catalog_of(uv.subrange(0, i as int)),
        decreases n - i,
    {
        let ghost pre = uv.subrange(0, i as int);
        let ghost post = uv.subrange(0, i as int + 1);
        proof {
            assert(post.drop_last() =~= pre);
            assert(post.last() == uv[i as int]);
        }
        let ghost old_cat = catalog@;
        let mut found = extract(&units[i]);
        let ghost fv = found@;
        catalog.append(&mut found);
        proof {
            assert(catalog@.map_values(|e: Entity| e@) =~= old_cat.map_values(
                |e: Entity| e@,
            ) + fv.map_values(|e: Entity| e@));
        }
        i = i + 1;
    }
    proof {
        assert(uv.subrange(0, n as int) =~= uv);
    }
    catalog
}

/// The entity a request for `route` resolves to: the first entity of the
/// catalog with that route, if any.
pub open spec fn resolved_for(catalog: Seq<EntityView>, route: Seq<char>) -> Option<
    EntityView,
>
    decreases catalog.len(),
{
    if catalog.len() == 0 {
        None
    } else if catalog[0].route == route {
        Some(catalog[0])
    } else {
        resolved_for(catalog.subrange(1, catalog.len() as int), route)
    }
}

/// Whether some entity of the catalog has this route.
pub open spec fn route_present(catalog: Seq<EntityView>, route: Seq<char>) -> bool {
    exists|i: int| 0 <= i < catalog.len() && #[trigger] catalog[i].route == route
}

/// Whether `i` is the first index of the catalog holding its route.
pub open spec fn first_occurrence(catalog: Seq<EntityView>, i: int) -> bool {
    forall|k: int| 0 <= k < i ==> #[trigger] catalog[k].route != catalog[i].route
}

/// Finds the entity a route resolves to: the first one with that route.
pub fn find_entity<'a>(catalog: &'a Vec<Entity>, route: &str) -> (r: Option<&'a Entity>)
    ensures
        match r {
            Some(e) => resolved_for(catalog@.map_values(|e2: Entity| e2@), route@)
                == Some(e@),
            None => resolved_for(catalog@.map_values(|e2: Entity| e2@), route@) is None,
        },
{
    let ghost cat = catalog@.map_values(|e2: Entity| e2@);
    let n = catalog.len();
    let mut i: usize = 0;
    proof {
        assert(cat.subrange(0, cat.len() as int) =~= cat);
    }
    while i < n
        invariant
            i <= n,
            n == catalog.len(),
            cat == catalog@.map_values(|e2: Entity| e2@),
            resolved_for(cat, route@) == resolved_for(
                cat.subrange(i as int, cat.len() as int),
                route@,
            ),
        decreases n - i,
    {
        let ghost rem = cat.subrange(i as int, cat.len() as int);
        proof {
            assert(rem[0] == cat[i as int]);
            assert(rem.subrange(1, rem.len() as int) =~= cat.subrange(
                i as int + 1,
                cat.len() as int,
            ));
        }
        if str_eq(catalog[i].route.as_str(), route) {
            return Some(&catalog[i]);
        }
        i = i + 1;
    }
    proof {
        assert(cat.subrange(n as int, cat.len() as int) =~= Seq::<EntityView>::empty());
    }
    None
}

/// The indices of the catalog entries that handler registration keeps: for
/// each route, exactly the first entity holding it, in catalog order.
pub fn registration_indices(catalog: &Vec<Entity>) -> (idx: Vec<usize>)
    ensures
        forall|j: int|
            0 <= j < idx@.len() ==> idx@[j] < catalog@.len() && first_occurrence(
                catalog@.map_values(|e: Entity| e@),
                idx@[j] as int,
            ),
        forall|i: int|
            0 <= i < catalog@.len() && first_occurrence(
                catalog@.map_values(|e: Entity| e@),
                i,
            ) ==> #[trigger] idx@.contains(i as usize),
        forall|j1: int, j2: int|
            0 <= j1 < j2 < idx@.len() ==> idx@[j1] < idx@[j2],
{
    let ghost cat = catalog@.map_values(|e: Entity| e@);
    let n = catalog.len();
    let mut idx: Vec<usize> = Vec::new();
    let mut i: usize = 0;
    while i < n
        invariant
            i <= n,
            n == catalog.len(),
            cat == catalog@.map_values(|e: Entity| e@),
            forall|j: int|
                0 <= j < idx@.len() ==> idx@[j] < i && first_occurrence(
                    cat,
                    idx@[j] as int,
                ),
            forall|k: int|
                0 <= k < i && #[trigger] first_occurrence(cat, k) ==> idx@.contains(
                    k as usize,
                ),
            forall|j1: int, j2: int| 0 <= j1 < j2 < idx@.len() ==> idx@[j1] < idx@[j2],
        decreases n - i,
    {
        let mut seen = false;
        let mut k: usize = 0;
        while k < i
            invariant
                k <= i,
                i < n,
                n == catalog.len(),
                cat == catalog@.map_values(|e: Entity| e@),
                seen == exists|k2: int|
                    0 <= k2 < k && #[trigger] cat[k2].route == cat[i as int].route,
            decreases i - k,
        {
            let same = str_eq(catalog[k].route.as_str(), catalog[i].route.as_str());
            proof {
                assert(cat[k as int] == catalog@[k as int]@);
                assert(cat[i as int] == catalog@[i as int]@);
            }
            if same {
                seen = true;
                proof {
                    assert(cat[k as int].route == cat[i as int].route);
                }
            } else {
                proof {
                    if !seen {
                        assert forall|k2: int|
                            0 <= k2 < k as int + 1 implies #[trigger] cat[k2].route
                            != cat[i as int].route by {
                            if k2 == k as int {
                                assert(cat[k2].route != cat[i as int].route);
                            }
                        }
                    }
                }
            }
            k = k + 1;
        }
        if !seen {
            let ghost old_idx = idx@;
            idx.push(i);
            proof {
                assert(forall|j: int|
                    0 <= j < old_idx.len() ==> idx@[j] == old_idx[j]);
                assert(idx@[idx@.len() - 1] == i);
            }
        }
        i = i + 1;
    }
    idx
}

/// Resolution succeeds exactly when some entity of the catalog has the
/// requested route.
pub proof fn lemma_resolved_iff_present(catalog: Seq<EntityView>, route: Seq<char>)
    ensures
        resolved_for(catalog, route) is Some <==> route_present(catalog, route),
    decreases catalog.len(),
{
    if catalog.len() == 0 {
    } else if catalog[0].route == route {
        assert(route_present(catalog, route)) by {
            assert(catalog[0].route == route);
        }
    } else {
        let sub = catalog.subrange(1, catalog.len() as int);
        lemma_resolved_iff_present(sub, route);
        assert(route_present(sub, route) ==> route_present(catalog, route)) by {
            if route_present(sub, route) {
                let i = choose|i: int|
                    0 <= i < sub.len() && #[trigger] sub[i].route == route;
                assert(catalog[i + 1].route == route);
            }
        }
        assert(route_present(catalog, route) ==> route_present(sub, route)) by {
            if route_present(catalog, route) {
                let i = choose|i: int|
                    0 <= i < catalog.len() && #[trigger] catalog[i].route == route;
                assert(i != 0);
                assert(sub[i - 1].route == route);
            }
        }
    }
}

/// Duplicate routes both stay in the catalog, yet requests resolve
/// deterministically: whenever a route occurs anywhere in the catalog,
/// resolution yields the entity at its least index — the first registered —
/// and therefore the same entity on every request for the life of the
/// catalog.
pub proof fn lemma_first_registered_wins(catalog: Seq<EntityView>, route: Seq<char>, w: int)
    requires
        0 <= w < catalog.len(),
        catalog[w].route == route,
    ensures
        resolved_for(catalog, route) matches Some(e) && exists|i: int|
            {
                &&& 0 <= i <= w
                &&& #[trigger] catalog[i] == e
                &&& catalog[i].route == route
                &&& first_occurrence(catalog, i)
            },
    decreases catalog.len(),
{
    if catalog[0].route == route {
        assert(first_occurrence(catalog, 0));
        assert(catalog[0] == catalog[0]);
    } else {
        let sub = catalog.subrange(1, catalog.len() as int);
        assert(sub[w - 1] == catalog[w]);
        lemma_first_registered_wins(sub, route, w - 1);
        let i0 = choose|i: int|
            {
                &&& 0 <= i <= w - 1
                &&& #[trigger] sub[i] == resolved_for(sub, route).unwrap()
                &&& sub[i].route == route
                &&& first_occurrence(sub, i)
            };
        assert(catalog[i0 + 1] == sub[i0]);
        assert(first_occurrence(catalog, i0 + 1)) by {
            assert forall|k: int| 0 <= k < i0 + 1 implies #[trigger] catalog[k].route
                != catalog[i0 + 1].route by {
                if k > 0 {
                    assert(catalog[k] == sub[k - 1]);
                }
            }
        }
    }
}

} // verus!
