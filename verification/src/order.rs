//! The order in which the properties of an instance are emitted: sorted by
//! name, whatever the order in which the instance stores them.

use crate::text::lemma_name_lt_strict_total;
use crate::text::name_lt;
use crate::text::str_lt;
use crate::tree::Property;
use crate::tree::PropertyView;
use vstd::prelude::*;

verus! {

/// The names of properties, in storage order.
pub open spec fn property_names(properties: Seq<Property>) -> Seq<Seq<char>> {
    properties.map_values(|p: Property| p.name@)
}

/// The first position at or after `from` in `order` whose name is strictly
/// greater than `name`, or the length of `order` if there is none. `order`
/// holds positions in `names`.
pub open spec fn insertion_point(
    names: Seq<Seq<char>>,
    order: Seq<usize>,
    name: Seq<char>,
    from: int,
) -> int
    decreases order.len() - from,
{
    if from < 0 || from >= order.len() {
        order.len() as int
    } else if name_lt(name, names[order[from] as int]) {
        from
    } else {
        insertion_point(names, order, name, from + 1)
    }
}

/// The positions of the first `count` names, sorted by name. Each position
/// is placed behind those with a smaller or equal name, so that equal names
/// keep their storage order.
pub open spec fn emission_order_of(names: Seq<Seq<char>>, count: nat) -> Seq<usize>
    decreases count,
{
    if count == 0 {
        Seq::empty()
    } else {
        let earlier = emission_order_of(names, (count - 1) as nat);
        let at = insertion_point(names, earlier, names[count - 1], 0);
        earlier.insert(at, (count - 1) as usize)
    }
}

/// The positions of all names, sorted by name.
pub open spec fn emission_order(names: Seq<Seq<char>>) -> Seq<usize> {
    emission_order_of(names, names.len())
}

/// The insertion point lies within the order, from `from` on.
pub proof fn lemma_insertion_point_bounds(
    names: Seq<Seq<char>>,
    order: Seq<usize>,
    name: Seq<char>,
    from: int,
)
    requires
        0 <= from <= order.len(),
    ensures
        from <= insertion_point(names, order, name, from) <= order.len(),
    decreases order.len() - from,
{
    if from < order.len() && !name_lt(name, names[order[from] as int]) {
        lemma_insertion_point_bounds(names, order, name, from + 1);
    }
}

/// Whether `order` lists positions below `count` only.
pub open spec fn positions_below(order: Seq<usize>, count: int) -> bool {
    forall|k: int| 0 <= k < order.len() ==> #[trigger] order[k] < count
}

/// The order of the first `count` properties has `count` entries, each the
/// position of one of them.
pub proof fn lemma_emission_order_shape(names: Seq<Seq<char>>, count: nat)
    requires
        count <= names.len(),
        names.len() <= usize::MAX,
    ensures
        emission_order_of(names, count).len() == count,
        positions_below(emission_order_of(names, count), count as int),
    decreases count,
{
    if count > 0 {
        let earlier = emission_order_of(names, (count - 1) as nat);
        lemma_emission_order_shape(names, (count - 1) as nat);
        lemma_insertion_point_bounds(names, earlier, names[count - 1], 0);
    }
}

/// No property before the insertion point has a name greater than `name`,
/// and the property at the insertion point has one.
pub proof fn lemma_insertion_point_splits(
    names: Seq<Seq<char>>,
    order: Seq<usize>,
    name: Seq<char>,
    from: int,
)
    requires
        0 <= from <= order.len(),
    ensures
        forall|k: int|
            from <= k < insertion_point(names, order, name, from) ==> !name_lt(
                name,
                #[trigger] names[order[k] as int],
            ),
        insertion_point(names, order, name, from) < order.len() ==> name_lt(
            name,
            names[order[insertion_point(names, order, name, from)] as int],
        ),
    decreases order.len() - from,
{
    lemma_insertion_point_bounds(names, order, name, from);
    if from < order.len() && !name_lt(name, names[order[from] as int]) {
        lemma_insertion_point_splits(names, order, name, from + 1);
    }
}

/// Whether `order` lists the properties by ascending name, those of the
/// same name in storage order.
pub open spec fn sorted_by_name(names: Seq<Seq<char>>, order: Seq<usize>) -> bool {
    forall|a: int, b: int|
        0 <= a < b < order.len() ==> {
            let first = names[#[trigger] order[a] as int];
            let second = names[#[trigger] order[b] as int];
            name_lt(first, second) || (first == second && order[a] < order[b])
        }
}

/// Properties are emitted sorted by name: the emission order lists every
/// position exactly once, by ascending name, and properties of the same
/// name in the order in which they are stored.
pub proof fn lemma_emission_order_sorted(names: Seq<Seq<char>>, count: nat)
    requires
        count <= names.len(),
        names.len() <= usize::MAX,
    ensures
        emission_order_of(names, count).len() == count,
        positions_below(emission_order_of(names, count), count as int),
        emission_order_of(names, count).no_duplicates(),
        forall|position: usize|
            position < count ==> #[trigger] emission_order_of(names, count).contains(position),
        sorted_by_name(names, emission_order_of(names, count)),
    decreases count,
{
    lemma_emission_order_shape(names, count);
    if count > 0 {
        let earlier = emission_order_of(names, (count - 1) as nat);
        let name = names[count - 1];
        let at = insertion_point(names, earlier, name, 0);
        let order = emission_order_of(names, count);
        let added = (count - 1) as usize;
        lemma_emission_order_sorted(names, (count - 1) as nat);
        lemma_emission_order_shape(names, (count - 1) as nat);
        lemma_insertion_point_bounds(names, earlier, name, 0);
        lemma_insertion_point_splits(names, earlier, name, 0);
        assert(order == earlier.insert(at, added));
        assert forall|a: int, b: int| 0 <= a < b < order.len() && order[a] == order[b] implies
            false by {
            let before_a = if a < at { a } else { a - 1 };
            let before_b = if b < at { b } else { b - 1 };
            if a != at && b != at {
                assert(earlier[before_a] == earlier[before_b]);
            } else if a == at {
                assert(earlier[before_b] < count - 1);
            } else {
                assert(earlier[before_a] < count - 1);
            }
        }
        assert forall|position: usize| position < count implies #[trigger] order.contains(
            position,
        ) by {
            if position == count - 1 {
                assert(order[at] == added);
            } else {
                assert(earlier.contains(position));
                let k = choose|k: int| 0 <= k < earlier.len() && earlier[k] == position;
                let moved = if k < at { k } else { k + 1 };
                assert(order[moved] == position);
            }
        }
        assert forall|a: int, b: int| 0 <= a < b < order.len() implies {
            let first = names[#[trigger] order[a] as int];
            let second = names[#[trigger] order[b] as int];
            name_lt(first, second) || (first == second && order[a] < order[b])
        } by {
            let first = names[order[a] as int];
            let second = names[order[b] as int];
            let before_a = if a < at { a } else { a - 1 };
            let before_b = if b < at { b } else { b - 1 };
            if a != at && b != at {
                assert(earlier[before_a] == order[a]);
                assert(earlier[before_b] == order[b]);
            } else if b == at {
                // an earlier property comes before the added one
                assert(earlier[a] == order[a]);
                assert(!name_lt(name, names[earlier[a] as int]));
                lemma_name_lt_strict_total(first, name, name);
                assert(earlier[a] < count - 1);
            } else {
                // the added property comes before a later one
                let pivot = names[earlier[at] as int];
                assert(earlier[before_b] == order[b]);
                assert(name_lt(name, pivot));
                if before_b > at {
                    lemma_name_lt_strict_total(name, pivot, second);
                }
            }
        }
    }
}

/// The names of properties, in storage order.
pub open spec fn names_of(properties: Seq<PropertyView>) -> Seq<Seq<char>> {
    properties.map_values(|p: PropertyView| p.name)
}

/// The first `count` properties in the order in which they are emitted.
pub open spec fn sorted_prefix(properties: Seq<PropertyView>, count: nat) -> Seq<PropertyView> {
    emission_order_of(names_of(properties), count).map_values(|i: usize| properties[i as int])
}

/// The properties in the order in which they are emitted.
pub open spec fn sorted_properties(properties: Seq<PropertyView>) -> Seq<PropertyView> {
    sorted_prefix(properties, properties.len())
}

/// Whether no two properties have the same name.
pub open spec fn distinct_names(properties: Seq<PropertyView>) -> bool {
    forall|i: int, j: int|
        0 <= i < j < properties.len() ==> (#[trigger] properties[i]).name != (
        #[trigger] properties[j]).name
}

/// Whether the properties stand in strictly ascending order of their names.
pub open spec fn strictly_sorted(properties: Seq<PropertyView>) -> bool {
    forall|i: int, j: int|
        0 <= i < j < properties.len() ==> name_lt(
            (#[trigger] properties[i]).name,
            (#[trigger] properties[j]).name,
        )
}

/// Sorting keeps the properties: the properties in emission order are the
/// stored properties, each as often as it is stored. Where no two
/// properties have the same name, they stand in strictly ascending order.
pub proof fn lemma_sorted_prefix_permutes(properties: Seq<PropertyView>, count: nat)
    requires
        count <= properties.len(),
        properties.len() <= usize::MAX,
    ensures
        sorted_prefix(properties, count).to_multiset() == properties.take(
            count as int,
        ).to_multiset(),
        distinct_names(properties) ==> strictly_sorted(sorted_prefix(properties, count)),
    decreases count,
{
    broadcast use vstd::seq_lib::group_to_multiset_ensures;

    let names = names_of(properties);
    lemma_emission_order_sorted(names, count);
    let order = emission_order_of(names, count);
    let sorted = sorted_prefix(properties, count);
    if count == 0 {
        assert(properties.take(0) =~= Seq::empty());
        assert(sorted =~= Seq::empty());
    } else {
        let earlier = emission_order_of(names, (count - 1) as nat);
        let at = insertion_point(names, earlier, names[count - 1], 0);
        lemma_sorted_prefix_permutes(properties, (count - 1) as nat);
        lemma_emission_order_shape(names, (count - 1) as nat);
        lemma_insertion_point_bounds(names, earlier, names[count - 1], 0);
        let before = sorted_prefix(properties, (count - 1) as nat);
        assert(sorted =~= before.insert(at, properties[count - 1]));
        assert(properties.take(count as int) =~= properties.take(count - 1).push(
            properties[count - 1],
        ));
    }
    if distinct_names(properties) {
        assert forall|i: int, j: int| 0 <= i < j < sorted.len() implies name_lt(
            (#[trigger] sorted[i]).name,
            (#[trigger] sorted[j]).name,
        ) by {
            let first = names[order[i] as int];
            let second = names[order[j] as int];
            assert(name_lt(first, second) || (first == second && order[i] < order[j]));
            if first == second {
                assert(properties[order[i] as int].name == properties[order[j] as int].name);
            }
        }
    }
}

/// Two sequences of properties in strictly ascending order that hold the
/// same properties are equal.
pub proof fn lemma_strictly_sorted_unique(first: Seq<PropertyView>, second: Seq<PropertyView>)
    requires
        strictly_sorted(first),
        strictly_sorted(second),
        first.to_multiset() == second.to_multiset(),
    ensures
        first == second,
    decreases first.len(),
{
    broadcast use vstd::seq_lib::group_to_multiset_ensures;

    vstd::seq_lib::to_multiset_len(first);
    vstd::seq_lib::to_multiset_len(second);
    assert(first.len() == second.len());
    if first.len() == 0 {
        assert(first =~= second);
    } else {
        assert(first.contains(first[0]));
        assert(second.to_multiset().count(first[0]) > 0);
        assert(second.contains(first[0]));
        let j = choose|j: int| 0 <= j < second.len() && second[j] == first[0];
        assert(second.contains(second[0]));
        assert(first.to_multiset().count(second[0]) > 0);
        assert(first.contains(second[0]));
        let i = choose|i: int| 0 <= i < first.len() && first[i] == second[0];
        lemma_name_lt_strict_total(first[0].name, second[0].name, first[0].name);
        if j > 0 {
            assert(name_lt(second[0].name, second[j].name));
            if i > 0 {
                assert(name_lt(first[0].name, first[i].name));
            }
        }
        assert(first[0] == second[0]);
        assert(first.remove(0) =~= first.drop_first());
        assert(second.remove(0) =~= second.drop_first());
        assert(first.drop_first().to_multiset() == second.drop_first().to_multiset());
        assert forall|a: int, b: int| 0 <= a < b < first.drop_first().len() implies name_lt(
            (#[trigger] first.drop_first()[a]).name,
            (#[trigger] first.drop_first()[b]).name,
        ) by {
            assert(first.drop_first()[a] == first[a + 1]);
            assert(first.drop_first()[b] == first[b + 1]);
        }
        assert forall|a: int, b: int| 0 <= a < b < second.drop_first().len() implies name_lt(
            (#[trigger] second.drop_first()[a]).name,
            (#[trigger] second.drop_first()[b]).name,
        ) by {
            assert(second.drop_first()[a] == second[a + 1]);
            assert(second.drop_first()[b] == second[b + 1]);
        }
        lemma_strictly_sorted_unique(first.drop_first(), second.drop_first());
        assert(first =~= seq![first[0]] + first.drop_first());
        assert(second =~= seq![second[0]] + second.drop_first());
    }
}

/// The emission order does not depend on the storage order: two lists that
/// hold the same properties, none of them two of the same name, are
/// emitted in the same order.
pub proof fn lemma_order_independent_of_storage(
    first: Seq<PropertyView>,
    second: Seq<PropertyView>,
)
    requires
        first.to_multiset() == second.to_multiset(),
        distinct_names(first),
        distinct_names(second),
        first.len() <= usize::MAX,
    ensures
        sorted_properties(first) == sorted_properties(second),
{
    broadcast use vstd::seq_lib::group_to_multiset_ensures;

    vstd::seq_lib::to_multiset_len(first);
    vstd::seq_lib::to_multiset_len(second);
    assert(first.len() == second.len());
    lemma_sorted_prefix_permutes(first, first.len());
    lemma_sorted_prefix_permutes(second, second.len());
    assert(first.take(first.len() as int) =~= first);
    assert(second.take(second.len() as int) =~= second);
    lemma_strictly_sorted_unique(sorted_properties(first), sorted_properties(second));
}

/// Finds the place at which a property named `name` is inserted into
/// `order`.
fn find_insertion_point(properties: &Vec<Property>, order: &Vec<usize>, name: &str) -> (at: usize)
    requires
        positions_below(order@, properties@.len() as int),
    ensures
        at as int == insertion_point(property_names(properties@), order@, name@, 0),
        at <= order@.len(),
{
    let mut at: usize = 0;
    while at < order.len()
        invariant
            at <= order@.len(),
            positions_below(order@, properties@.len() as int),
            insertion_point(property_names(properties@), order@, name@, 0) == insertion_point(
                property_names(properties@),
                order@,
                name@,
                at as int,
            ),
        decreases order@.len() - at,
    {
        if str_lt(name, properties[order[at]].name.as_str()) {
            return at;
        }
        at += 1;
    }
    at
}

/// Computes the order in which the properties are emitted.
pub fn sorted_property_order(properties: &Vec<Property>) -> (order: Vec<usize>)
    ensures
        order@ == emission_order(property_names(properties@)),
        order@.len() == properties@.len(),
        positions_below(order@, properties@.len() as int),
{
    let mut order: Vec<usize> = Vec::new();
    let mut i: usize = 0;
    while i < properties.len()
        invariant
            i <= properties@.len(),
            order@ == emission_order_of(property_names(properties@), i as nat),
            order@.len() == i,
            positions_below(order@, i as int),
        decreases properties@.len() - i,
    {
        let at = find_insertion_point(properties, &order, properties[i].name.as_str());
        order.insert(at, i);
        i += 1;
    }
    order
}

} // verus!
