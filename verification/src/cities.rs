//! Cities and ordering them by population.

use vstd::prelude::*;
use vstd::multiset::Multiset;

verus! {

broadcast use vstd::seq_lib::group_to_multiset_ensures;

/// A city and the figures it is sorted by.
#[derive(Clone, Debug)]
pub struct City {
    pub name: String,
    pub population: i64,
    pub country: String,
}

/// Populations never go up along the sequence.
pub open spec fn sorted_by_population_desc(s: Seq<City>) -> bool {
    forall|i: int, j: int|
        0 <= i <= j < s.len() ==> (#[trigger] s[i]).population >= (#[trigger] s[j]).population
}

/// Sort the cities by population, largest first: afterwards the vector
/// holds exactly the same cities, in descending population order.
pub fn sort_cities(cities: &mut Vec<City>)
    ensures
        final(cities)@.len() == old(cities)@.len(),
        sorted_by_population_desc(final(cities)@),
        final(cities)@.to_multiset() == old(cities)@.to_multiset(),
{
    let mut out: Vec<City> = Vec::new();
    proof {
        assert(out@.to_multiset().add(cities@.to_multiset()) =~= old(cities)@.to_multiset());
    }
    while cities.len() > 0
        invariant
            out@.to_multiset().add(cities@.to_multiset()) == old(cities)@.to_multiset(),
            out@.len() + cities@.len() == old(cities)@.len(),
            sorted_by_population_desc(out@),
            forall|i: int, j: int|
                0 <= i < out@.len() && 0 <= j < cities@.len() ==> (#[trigger] out@[i]).population
                    >= (#[trigger] cities@[j]).population,
        decreases cities@.len(),
    {
        let mut m: usize = 0;
        let mut i: usize = 1;
        while i < cities.len()
            invariant
                m < i <= cities@.len(),
                cities@.len() > 0,
                forall|j: int| 0 <= j < i ==> (#[trigger] cities@[j]).population
                    <= cities@[m as int].population,
            decreases cities@.len() - i,
        {
            if cities[i].population > cities[m].population {
                m = i;
            }
            i = i + 1;
        }
        let ghost before = cities@;
        let ghost out_before = out@;
        let c = cities.remove(m);
        out.push(c);
        proof {
            assert(out_before.to_multiset().add(before.to_multiset()) == old(
                cities,
            )@.to_multiset());
            assert(out_before.push(c).to_multiset() =~= out_before.to_multiset().insert(c));
            assert(out@.to_multiset() =~= out_before.to_multiset().insert(c));
            assert(before.remove(m as int).to_multiset() =~= before.to_multiset().remove(
                before[m as int],
            ));
            assert(cities@.to_multiset() =~= before.to_multiset().remove(c));
            assert(out@.to_multiset().add(cities@.to_multiset()) =~= old(
                cities,
            )@.to_multiset()) by {
                assert forall|x: City| #[trigger] out@.to_multiset().add(
                    cities@.to_multiset(),
                ).count(x) == old(cities)@.to_multiset().count(x) by {
                    if x == c {
                        assert(before.to_multiset().count(c) >= 1) by {
                            assert(before.contains(c));
                        }
                    }
                }
            }
            assert forall|i0: int, j0: int|
                0 <= i0 < out@.len() && 0 <= j0 < cities@.len() implies (
            #[trigger] out@[i0]).population >= (#[trigger] cities@[j0]).population by {
                if j0 < m {
                    assert(cities@[j0] == before[j0]);
                } else {
                    assert(cities@[j0] == before[j0 + 1]);
                }
                if i0 < out@.len() - 1 {
                    assert(out@[i0] == out_before[i0]);
                } else {
                    assert(out@[i0] == c);
                }
            }
        }
    }
    proof {
        assert(cities@.to_multiset() =~= Multiset::<City>::empty());
        assert(out@.to_multiset().add(cities@.to_multiset()) =~= out@.to_multiset());
    }
    *cities = out;
}

} // verus!
