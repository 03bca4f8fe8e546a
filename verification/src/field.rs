//! What a generated patch does, field by field.
//!
//! A patch struct holds one patch field per field of the struct it patches,
//! and the kind of each field decides how it is applied, merged, added,
//! diffed and tested for emptiness:
//!
//! - a plain field `T` is patched by an `Option<T>`: `None` leaves it,
//!   `Some(v)` sets it to `v`;
//! - a field with an empty value (`#[patch(empty_value = ..)]`) is patched
//!   by a `T`, and the empty value stands for "no change";
//! - a field that is already an `Option<T>` with `#[patch(skip_wrap)]` is
//!   patched by an `Option<T>`: `None` leaves it, `Some(v)` sets it to
//!   `Some(v)`;
//! - a field whose patch type is named (`#[patch(name = ..)]`) is patched by
//!   an `Option` of that type, applied through the field's own `Patch` impl;
//! - a filler fills an `Option` field only where it is `None`.
//!
//! List fields are in [`crate::list`].
use vstd::prelude::*;

use crate::traits::{Merge, Patch};
use vstd::laws_eq::obeys_concrete_eq;
use vstd::std_specs::cmp::PartialEqSpec;

verus! {

// ---------------------------------------------------------------------------
// Plain fields: patched by `Option<T>`.
/// The value of a plain field after its patch is applied.
pub open spec fn patched<T>(value: T, patch: Option<T>) -> T {
    match patch {
        Some(v) => v,
        None => value,
    }
}

/// The patch of a plain field whose value went from `previous` to
/// `current`: nothing where the two compare equal, else the current value.
pub open spec fn diffed<T: PartialEq>(current: T, previous: T) -> Option<T> {
    if current.eq_spec(&previous) {
        None
    } else {
        Some(current)
    }
}

/// Two patches of a plain field in one: the second wins where it is set.
pub open spec fn merged<T>(first: Option<T>, second: Option<T>) -> Option<T> {
    match second {
        Some(v) => Some(v),
        None => first,
    }
}

/// Apply the patch of a plain field: set the field where the patch holds a
/// value, leave it otherwise.
pub fn apply_field<T>(field: &mut T, patch: Option<T>)
    ensures
        *final(field) == patched(*old(field), patch),
{
    if let Some(v) = patch {
        *field = v;
    }
}

/// The patch of a plain field that turns `previous` into `current`.
pub fn diff_field<T: PartialEq>(current: T, previous: T) -> (patch: Option<T>)
    ensures
        T::obeys_eq_spec() ==> patch == diffed(current, previous),
{
    if current != previous {
        Some(current)
    } else {
        None
    }
}

/// Merge two patches of a plain field; the later one wins where both are
/// set.
pub fn merge_fields<T>(first: Option<T>, second: Option<T>) -> (patch: Option<T>)
    ensures
        patch == merged(first, second),
{
    match second {
        Some(v) => Some(v),
        None => first,
    }
}

/// Add two patches of a plain field whose values add up: where both are
/// set, the patch holds what `sum` makes of the two; where one is set, that
/// one.
pub fn add_fields<T, G: Fn(T, T) -> T>(first: Option<T>, second: Option<T>, sum: G) -> (patch:
    Option<T>)
    requires
        first is Some && second is Some ==> call_requires(
            sum,
            (first->Some_0, second->Some_0),
        ),
    ensures
        !(first is Some && second is Some) ==> patch == merged(first, second),
        first is Some && second is Some ==> patch is Some && call_ensures(
            sum,
            (first->Some_0, second->Some_0),
            patch->Some_0,
        ),
{
    match (first, second) {
        (Some(a), Some(b)) => Some(sum(a, b)),
        (Some(a), None) => Some(a),
        (None, Some(b)) => Some(b),
        (None, None) => None,
    }
}

/// Add two patches of a plain field that do not both set it.
pub fn add_disjoint_fields<T>(first: Option<T>, second: Option<T>) -> (patch: Option<T>)
    requires
        !(first is Some && second is Some),
    ensures
        patch == merged(first, second),
{
    match (first, second) {
        (Some(a), _) => Some(a),
        (None, b) => b,
    }
}

/// Whether the patch of a plain field sets it.
pub fn field_is_set<T>(patch: &Option<T>) -> (set: bool)
    ensures
        set == patch is Some,
{
    patch.is_some()
}

// ---------------------------------------------------------------------------
// Fields with an empty value: patched by a `T`, where `empty` means "no
// change".
/// The value of a field with an empty value after its patch is applied.
pub open spec fn patched_unless_empty<T: PartialEq>(value: T, patch: T, empty: T) -> T {
    if patch.eq_spec(&empty) {
        value
    } else {
        patch
    }
}

/// The patch of a field with an empty value that went from `previous` to
/// `current`: the empty value where the two compare equal, else the
/// current value.
pub open spec fn diffed_or_empty<T: PartialEq>(current: T, previous: T, empty: T) -> T {
    if current.eq_spec(&previous) {
        empty
    } else {
        current
    }
}

/// Apply the patch of a field with an empty value: set the field unless the
/// patch is the empty value.
pub fn apply_field_unless_empty<T: PartialEq>(field: &mut T, patch: T, empty: &T)
    ensures
        T::obeys_eq_spec() ==> *final(field) == patched_unless_empty(*old(field), patch, *empty),
{
    if patch != *empty {
        *field = patch;
    }
}

/// The patch of a field with an empty value that turns `previous` into
/// `current`.
pub fn diff_field_or_empty<T: PartialEq>(current: T, previous: T, empty: T) -> (patch: T)
    ensures
        T::obeys_eq_spec() ==> patch == diffed_or_empty(current, previous, empty),
{
    if current != previous {
        current
    } else {
        empty
    }
}

/// Merge two patches of a field with an empty value: where both are set,
/// their own merge; where one is set, that one; else the empty value.
pub fn merge_fields_unless_empty<T: PartialEq + Merge>(first: T, second: T, empty: T) -> (patch: T)
    ensures
        T::obeys_eq_spec() && first.eq_spec(&empty) ==> patch == if second.eq_spec(&empty) {
            empty
        } else {
            second
        },
        T::obeys_eq_spec() && !first.eq_spec(&empty) && second.eq_spec(&empty) ==> patch == first,
        T::obeys_eq_spec() && !first.eq_spec(&empty) && !second.eq_spec(&empty) ==> call_ensures(
            T::merge,
            (first, second),
            patch,
        ),
{
    let first_empty = first == empty;
    let second_empty = second == empty;
    if !first_empty && !second_empty {
        first.merge(second)
    } else if !first_empty {
        first
    } else if !second_empty {
        second
    } else {
        empty
    }
}

/// Whether the patch of a field with an empty value sets it: it differs
/// from the empty value.
pub fn field_is_set_unless_empty<T: PartialEq>(patch: &T, empty: &T) -> (set: bool)
    ensures
        T::obeys_eq_spec() ==> set == !patch.eq_spec(empty),
{
    *patch != *empty
}

/// Add two patches of a field with an empty value whose values add up:
/// where both are set, what `sum` makes of the two; where one is set, that
/// one; else the empty value.
pub fn add_fields_unless_empty<T: PartialEq, G: Fn(T, T) -> T>(
    first: T,
    second: T,
    empty: T,
    sum: G,
) -> (patch: T)
    requires
        !T::obeys_eq_spec() || (!first.eq_spec(&empty) && !second.eq_spec(&empty))
            ==> call_requires(sum, (first, second)),
    ensures
        T::obeys_eq_spec() && first.eq_spec(&empty) ==> patch == if second.eq_spec(&empty) {
            empty
        } else {
            second
        },
        T::obeys_eq_spec() && !first.eq_spec(&empty) && second.eq_spec(&empty) ==> patch == first,
        T::obeys_eq_spec() && !first.eq_spec(&empty) && !second.eq_spec(&empty) ==> call_ensures(
            sum,
            (first, second),
            patch,
        ),
{
    let first_empty = first == empty;
    let second_empty = second == empty;
    if !first_empty && !second_empty {
        sum(first, second)
    } else if !first_empty {
        first
    } else if !second_empty {
        second
    } else {
        empty
    }
}

/// Add two patches of a field with an empty value that do not both set it.
pub fn add_disjoint_fields_unless_empty<T: PartialEq>(first: T, second: T, empty: T) -> (patch: T)
    requires
        T::obeys_eq_spec() ==> first.eq_spec(&empty) || second.eq_spec(&empty),
    ensures
        T::obeys_eq_spec() && first.eq_spec(&empty) ==> patch == if second.eq_spec(&empty) {
            empty
        } else {
            second
        },
        T::obeys_eq_spec() && !first.eq_spec(&empty) ==> patch == first,
{
    let first_empty = first == empty;
    let second_empty = second == empty;
    if !first_empty {
        first
    } else if !second_empty {
        second
    } else {
        empty
    }
}

// ---------------------------------------------------------------------------
// `Option` fields that keep their type in the patch (`skip_wrap`).
/// The value of an `Option` field after its unwrapped patch is applied.
pub open spec fn patched_wrapped<T>(value: Option<T>, patch: Option<T>) -> Option<T> {
    match patch {
        Some(v) => Some(v),
        None => value,
    }
}

/// The unwrapped patch of an `Option` field that went from `previous` to
/// `current`: `None` where the two compare equal, else the current value.
pub open spec fn diffed_wrapped<T: PartialEq>(current: Option<T>, previous: Option<T>) -> Option<
    T,
> {
    if current.eq_spec(&previous) {
        None
    } else {
        current
    }
}

/// Apply the unwrapped patch of an `Option` field: `None` keeps the field,
/// `Some(v)` sets it to `Some(v)`.
pub fn apply_wrapped_field<T>(field: &mut Option<T>, patch: Option<T>)
    ensures
        *final(field) == patched_wrapped(*old(field), patch),
{
    if let Some(v) = patch {
        *field = Some(v);
    }
}

/// The unwrapped patch of an `Option` field that turns `previous` into
/// `current`.
pub fn diff_wrapped_field<T: PartialEq>(current: Option<T>, previous: Option<T>) -> (patch: Option<
    T,
>)
    ensures
        T::obeys_eq_spec() ==> patch == diffed_wrapped(current, previous),
{
    let same = match (&current, &previous) {
        (Some(a), Some(b)) => *a == *b,
        (None, None) => true,
        _ => false,
    };
    if !same {
        current
    } else {
        None
    }
}

// ---------------------------------------------------------------------------
// Fields patched through their own `Patch` impl (`#[patch(name = ..)]`).
/// Apply the patch of a field with a patch type of its own: where it is
/// set, through the field's `Patch` impl; where it is not, the field keeps
/// its value.
pub fn apply_nested_field<T: Patch<P>, P>(field: &mut T, patch: Option<P>)
    ensures
        patch is None ==> *final(field) == *old(field),
        T::obeys_patch_spec() ==> *final(field) == match patch {
            Some(v) => old(field).patched_by(v),
            None => *old(field),
        },
{
    if let Some(v) = patch {
        field.apply(v);
    }
}

/// Apply the patch of a field with a patch type of its own and an empty
/// value: through the field's `Patch` impl unless the patch is the empty
/// value, which leaves the field as it is.
pub fn apply_nested_field_unless_empty<T: Patch<P>, P: PartialEq>(field: &mut T, patch: P, empty: &P)
    ensures
        P::obeys_eq_spec() && patch.eq_spec(empty) ==> *final(field) == *old(field),
        P::obeys_eq_spec() && !patch.eq_spec(empty) && T::obeys_patch_spec() ==> *final(field)
            == old(field).patched_by(patch),
{
    if patch != *empty {
        field.apply(patch);
    }
}

/// The patch of a field with a patch type of its own and an empty value
/// that went from `previous` to `current`: the empty value where the two
/// compare equal, else the field's own diff.
pub fn diff_nested_field_or_empty<T: PartialEq + Patch<P>, P>(current: T, previous: T, empty: P) -> (patch: P)
    ensures
        T::obeys_eq_spec() && current.eq_spec(&previous) ==> patch == empty,
        T::obeys_eq_spec() && !current.eq_spec(&previous) ==> call_ensures(
            T::into_patch_by_diff,
            (current, previous),
            patch,
        ),
{
    if current != previous {
        current.into_patch_by_diff(previous)
    } else {
        empty
    }
}

/// The patch of a field with a patch type of its own that went from
/// `previous` to `current`: nothing where the two compare equal, else the
/// field's own diff.
pub fn diff_nested_field<T: PartialEq + Patch<P>, P>(current: T, previous: T) -> (patch: Option<P>)
    ensures
        T::obeys_eq_spec() ==> (patch is None <==> current.eq_spec(&previous)),
        patch is Some ==> call_ensures(T::into_patch_by_diff, (current, previous), patch->Some_0),
{
    if current != previous {
        Some(current.into_patch_by_diff(previous))
    } else {
        None
    }
}

/// Merge two patches of a field with a patch type of its own: where both
/// are set, their own merge; where one is set, that one.
pub fn merge_nested_fields<P: Merge>(first: Option<P>, second: Option<P>) -> (patch: Option<P>)
    ensures
        !(first is Some && second is Some) ==> patch == merged(first, second),
        first is Some && second is Some ==> patch is Some && call_ensures(
            P::merge,
            (first->Some_0, second->Some_0),
            patch->Some_0,
        ),
{
    match (first, second) {
        (Some(a), Some(b)) => Some(a.merge(b)),
        (Some(a), None) => Some(a),
        (None, Some(b)) => Some(b),
        (None, None) => None,
    }
}

// ---------------------------------------------------------------------------
// Fillers.
/// The value of an `Option` field after a filler is applied: a field that
/// holds a value keeps it; an empty one takes the filler's.
pub open spec fn filled<T>(value: Option<T>, filler: Option<T>) -> Option<T> {
    match value {
        Some(v) => Some(v),
        None => filler,
    }
}

/// Apply a filler to an `Option` field: only an empty field takes the
/// filler's value.
pub fn fill_field<T>(field: &mut Option<T>, filler: Option<T>)
    ensures
        *final(field) == filled(*old(field), filler),
{
    if field.is_none() {
        *field = filler;
    }
}

/// Apply a filler to a `Vec` field: only an empty field takes the
/// filler's elements; one that holds elements keeps them.
pub fn fill_vec_field<T>(field: &mut Vec<T>, filler: Vec<T>)
    ensures
        final(field)@ == if old(field)@.len() == 0 {
            filler@
        } else {
            old(field)@
        },
{
    if field.len() == 0 {
        let mut rest = filler;
        field.append(&mut rest);
    }
}

// ---------------------------------------------------------------------------
// Laws.
/// Applying the full patch of a plain field (`Some` of its value) turns any
/// value into that value.
pub proof fn law_field_into_patch<T>(value: T, other: T)
    ensures
        patched(other, Some(value)) == value,
{
}

/// The empty patch of a plain field changes nothing.
pub proof fn law_field_empty_patch<T>(value: T)
    ensures
        patched(value, None) == value,
{
}

/// Applying the diff of a plain field against its previous value turns the
/// previous value into the current one, where `==` on the field's type is
/// equality.
pub proof fn law_field_diff<T: PartialEq>(current: T, previous: T)
    requires
        obeys_concrete_eq::<T>(),
    ensures
        patched(previous, diffed(current, previous)) == current,
{
    reveal(obeys_concrete_eq);
}

/// Applying the merge of two patches of a plain field is applying the
/// first, then the second.
pub proof fn law_field_merge<T>(value: T, first: Option<T>, second: Option<T>)
    ensures
        patched(value, merged(first, second)) == patched(patched(value, first), second),
{
}

/// Merging patches of a plain field is associative, with the empty patch
/// as its identity.
pub proof fn law_field_merge_monoid<T>(a: Option<T>, b: Option<T>, c: Option<T>)
    ensures
        merged(merged(a, b), c) == merged(a, merged(b, c)),
        merged(None, a) == a,
        merged(a, None) == a,
{
}

/// Applying the full patch of a field with an empty value (the value
/// itself) turns any other value into it, unless the value is the empty
/// value and the other one differs from it.
pub proof fn law_field_unless_empty_into_patch<T: PartialEq>(value: T, other: T, empty: T)
    requires
        obeys_concrete_eq::<T>(),
        value == empty ==> other == value,
    ensures
        patched_unless_empty(other, value, empty) == value,
{
    reveal(obeys_concrete_eq);
}

/// Applying the diff of a field with an empty value against its previous
/// value turns the previous value into the current one, unless the current
/// value is the empty value and differs from the previous one.
pub proof fn law_field_unless_empty_diff<T: PartialEq>(current: T, previous: T, empty: T)
    requires
        obeys_concrete_eq::<T>(),
        current == empty ==> current == previous,
    ensures
        patched_unless_empty(previous, diffed_or_empty(current, previous, empty), empty)
            == current,
{
    reveal(obeys_concrete_eq);
}

/// The empty value as a patch changes nothing.
pub proof fn law_field_unless_empty_empty_patch<T: PartialEq>(value: T, empty: T)
    requires
        obeys_concrete_eq::<T>(),
    ensures
        patched_unless_empty(value, empty, empty) == value,
{
    reveal(obeys_concrete_eq);
}

/// Applying the full unwrapped patch of an `Option` field (the field's
/// value itself) turns any other value into it, unless the value is `None`
/// and the other one is not.
pub proof fn law_wrapped_into_patch<T>(value: Option<T>, other: Option<T>)
    requires
        value is None ==> other is None,
    ensures
        patched_wrapped(other, value) == value,
{
}

/// Applying the unwrapped diff of an `Option` field against its previous
/// value turns the previous value into the current one, unless the current
/// value is `None` and the previous one is not.
pub proof fn law_wrapped_diff<T: PartialEq>(current: Option<T>, previous: Option<T>)
    requires
        obeys_concrete_eq::<T>(),
        current is None ==> previous is None,
    ensures
        patched_wrapped(previous, diffed_wrapped(current, previous)) == current,
{
    reveal(obeys_concrete_eq);
}

/// Applying the merge of two unwrapped patches of an `Option` field is
/// applying the first, then the second.
pub proof fn law_wrapped_merge<T>(value: Option<T>, first: Option<T>, second: Option<T>)
    ensures
        patched_wrapped(value, merged(first, second)) == patched_wrapped(
            patched_wrapped(value, first),
            second,
        ),
{
}

/// A filler never changes a field that holds a value, and filling twice is
/// filling once with the first filler that holds a value.
pub proof fn law_fill_only_empty<T>(value: Option<T>, first: Option<T>, second: Option<T>)
    ensures
        value is Some ==> filled(value, first) == value,
        filled(filled(value, first), second) == filled(value, filled(first, second)),
{
}

} // verus!
