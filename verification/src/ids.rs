//! Identifier virtualisation: the small integers shown to the model in place
//! of interface selectors, recomputed for every tree snapshot.

use vstd::prelude::*;
use vstd::std_specs::cmp::PartialEqSpec;

verus! {

/// A factor by which to multiply the index of a selector in the list of all
/// selectors in the element tree. Only multiples of it are identifiers.
pub const SELECTOR_TO_ID_FACTOR: usize = 3;

/// Index of the first selector of `selectors` that equals `selector`, or
/// `selectors.len()` if none does.
pub open spec fn position<S: PartialEq>(selectors: Seq<S>, selector: S) -> int
    decreases selectors.len(),
{
    if selectors.len() == 0 || selectors[0].eq_spec(&selector) {
        0
    } else {
        1 + position(selectors.drop_first(), selector)
    }
}

/// Whether some selector of `selectors` equals `selector`.
pub open spec fn occurs<S: PartialEq>(selectors: Seq<S>, selector: S) -> bool {
    position(selectors, selector) < selectors.len()
}

/// The identifier shown to the model for `selector`.
pub open spec fn virtual_id<S: PartialEq>(selectors: Seq<S>, selector: S) -> int {
    position(selectors, selector) * SELECTOR_TO_ID_FACTOR as int
}

/// The selector that `id` stands for: none unless `id` is a multiple of the
/// factor whose quotient is an index into `selectors`.
pub open spec fn resolve<S>(id: int, selectors: Seq<S>) -> Option<S> {
    if id >= 0 && id % (SELECTOR_TO_ID_FACTOR as int) == 0 && id / (SELECTOR_TO_ID_FACTOR as int)
        < selectors.len() {
        Some(selectors[id / (SELECTOR_TO_ID_FACTOR as int)])
    } else {
        None
    }
}

/// `position` is the least index that holds an equal selector.
pub proof fn lemma_position<S: PartialEq>(selectors: Seq<S>, selector: S)
    ensures
        0 <= position(selectors, selector) <= selectors.len(),
        forall|j: int|
            0 <= j < position(selectors, selector) ==> !(#[trigger] selectors[j]).eq_spec(
                &selector,
            ),
        occurs(selectors, selector) ==> selectors[position(selectors, selector)].eq_spec(
            &selector,
        ),
    decreases selectors.len(),
{
    if selectors.len() == 0 || selectors[0].eq_spec(&selector) {
    } else {
        let t = selectors.drop_first();
        lemma_position(t, selector);
        assert forall|j: int| 0 <= j < position(selectors, selector) implies !(
        #[trigger] selectors[j]).eq_spec(&selector) by {
            if j > 0 {
                assert(selectors[j] == t[j - 1]);
            }
        }
    }
}

/// An index that holds an equal selector, with none before it, is `position`.
pub proof fn lemma_position_is<S: PartialEq>(selectors: Seq<S>, selector: S, i: int)
    requires
        0 <= i <= selectors.len(),
        forall|j: int| 0 <= j < i ==> !(#[trigger] selectors[j]).eq_spec(&selector),
        i < selectors.len() ==> selectors[i].eq_spec(&selector),
    ensures
        position(selectors, selector) == i,
{
    lemma_position(selectors, selector);
    let p = position(selectors, selector);
    if p < i {
        assert(!selectors[p].eq_spec(&selector));
    } else if i < p {
        assert(selectors[i].eq_spec(&selector));
    }
}

/// An identifier made from a selector of the list resolves to the first
/// selector equal to it, and nothing but multiples of the factor resolves.
pub proof fn lemma_id_round_trip<S: PartialEq>(selectors: Seq<S>, selector: S)
    requires
        occurs(selectors, selector),
    ensures
        resolve(virtual_id(selectors, selector), selectors) is Some,
        resolve(virtual_id(selectors, selector), selectors)->0.eq_spec(&selector),
        resolve(virtual_id(selectors, selector), selectors)->0 == selectors[position(
            selectors,
            selector,
        )],
{
    lemma_position(selectors, selector);
}

/// Two positions of one list have the same identifier only if they are the
/// same position.
pub proof fn lemma_ids_distinct(i: int, j: int)
    requires
        0 <= i,
        0 <= j,
        i * (SELECTOR_TO_ID_FACTOR as int) == j * (SELECTOR_TO_ID_FACTOR as int),
    ensures
        i == j,
{
}

/// Converts the given selector to an ID, based on a list of all selectors in
/// the element tree.
pub fn selector_to_id<S: PartialEq>(selector: &S, selectors: &Vec<S>) -> (id: usize)
    requires
        S::obeys_eq_spec(),
        occurs(selectors@, *selector),
        selectors.len() * SELECTOR_TO_ID_FACTOR <= usize::MAX,
    ensures
        id == virtual_id(selectors@, *selector),
{
    let mut i: usize = 0;
    proof {
        lemma_position(selectors@, *selector);
    }
    while i < selectors.len() && !(selectors[i] == *selector)
        invariant
            i <= selectors.len(),
            S::obeys_eq_spec(),
            forall|j: int| 0 <= j < i ==> !(#[trigger] selectors@[j]).eq_spec(selector),
        decreases selectors.len() - i,
    {
        i += 1;
    }
    proof {
        lemma_position_is(selectors@, *selector, i as int);
    }
    i * SELECTOR_TO_ID_FACTOR
}

/// Converts the given ID to a selector, given a list of all selectors in the
/// element tree.
pub fn id_to_selector<S>(id: usize, selectors: &Vec<S>) -> (r: Option<&S>)
    ensures
        match r {
            Some(s) => resolve(id as int, selectors@) == Some(*s),
            None => resolve::<S>(id as int, selectors@) is None,
        },
{
    if id % SELECTOR_TO_ID_FACTOR != 0 {
        return None;
    }
    let index = id / SELECTOR_TO_ID_FACTOR;
    if index < selectors.len() {
        Some(&selectors[index])
    } else {
        None
    }
}

} // verus!
