//! What holds of names and their order.

use vstd::prelude::*;

use crate::names::{first_named, is_first, is_last, place_among, precedes, sorted_by_name, Named};

verus! {

/// Of two names the one comes first that has the smaller character where they first differ.
pub proof fn law_first_difference_decides(
    common: Seq<char>,
    a: char,
    b: char,
    rest: Seq<char>,
    other: Seq<char>,
)
    requires
        a != b,
    ensures
        precedes(common.push(a) + rest, common.push(b) + other) <==> a < b,
    decreases common.len(),
{
    let x = common.push(a) + rest;
    let y = common.push(b) + other;
    if common.len() > 0 {
        law_first_difference_decides(common.drop_first(), a, b, rest, other);
        assert(x[0] == y[0]);
        assert(x.drop_first() =~= common.drop_first().push(a) + rest);
        assert(y.drop_first() =~= common.drop_first().push(b) + other);
    } else {
        assert(x[0] == a && y[0] == b);
    }
}

/// A name comes before every longer one that begins with it, and not after it.
pub proof fn law_beginnings_come_first(name: Seq<char>, rest: Seq<char>)
    requires
        rest.len() > 0,
    ensures
        precedes(name, name + rest),
        !precedes(name + rest, name),
    decreases name.len(),
{
    let longer = name + rest;
    if name.len() > 0 {
        law_beginnings_come_first(name.drop_first(), rest);
        assert(longer[0] == name[0]);
        assert(longer.drop_first() =~= name.drop_first() + rest);
    }
}

/// What goes by a name is the first value that has it.
pub proof fn law_first_value_goes_by_a_name<K: Named>(values: Seq<K>, at: int)
    requires
        0 <= at < values.len(),
        forall|j: int| 0 <= j < at ==> (#[trigger] values[j]).name() != values[at].name(),
    ensures
        first_named(values, values[at].name()) == values[at],
{
    let name = values[at].name();
    assert(is_first(values, name, at));
    let chosen = choose|chosen: int| is_first(values, name, chosen);
    assert(is_first(values, name, chosen));
    if chosen < at {
        assert(values[chosen].name() != name);
    } else if at < chosen {
        assert(values[at].name() != name);
    }
}

/// There is one last place of a name, and no value behind it has it.
pub proof fn law_last_place_is_the_last<K: Named>(values: Seq<K>, name: Seq<char>, at: int, other: int)
    requires
        is_last(values, name, at),
        0 <= other < values.len(),
        values[other].name() == name,
    ensures
        values[at].name() == name,
        other <= at,
{
}

/// Sorting by name loses nothing and adds nothing.
pub proof fn law_sorting_reorders<K: Named>(values: Seq<K>)
    ensures
        sorted_by_name(values).to_multiset() == values.to_multiset(),
        sorted_by_name(values).len() == values.len(),
    decreases values.len(),
{
    broadcast use vstd::seq_lib::group_to_multiset_ensures;

    if values.len() > 0 {
        let front = values.drop_last();
        let last = values.last();
        law_sorting_reorders(front);
        let rest = sorted_by_name(front);
        let at = place_among(rest, last.name());
        lemma_place_within(rest, last.name());
        assert(values =~= front.push(last));
        vstd::seq_lib::to_multiset_insert(rest, at, last);
        assert(values.to_multiset() =~= front.to_multiset().insert(last));
        assert(sorted_by_name(values).to_multiset() =~= rest.to_multiset().insert(last));
    } else {
        assert(sorted_by_name(values) =~= values);
    }
}

proof fn lemma_place_within<K: Named>(values: Seq<K>, name: Seq<char>)
    ensures
        0 <= place_among(values, name) <= values.len(),
    decreases values.len(),
{
    if values.len() > 0 && precedes(name, values.last().name()) {
        lemma_place_within(values.drop_last(), name);
    }
}

} // verus!
