//! List patching support.
//!
//! When a struct field is a `Vec<T>` and `T` itself is patchable, the field
//! can be patched with fine-grained operations: prepend, append, insert-at,
//! modify-by-id and delete-by-id. The patch field of such a list is a
//! `Vec<ListPatchOp<T, TPatch, ID>>`, and applying it runs
//! [`ListPatchOp::apply_to`] for each operation in turn with the id closure
//! given for the field.
//!
//! What `Modify` and `Delete` do is stated over the identifiers that the id
//! closure gives, so a caller learns the result of one on given values only
//! where the closure states what it returns in an `ensures` clause (such as
//! `|x: &Item| -> (r: u64) ensures r == x.id { x.id }`); a closure without
//! one promises nothing of its results. The id closure is called only by
//! `Modify` and `Delete`, and only they ask that it accept every element.
//! The new value of the element a `Modify` patches is the element type's
//! [`Patch::patched_by`], where that type's impl follows its specification.
use vstd::prelude::*;

use crate::traits::Patch;
use vstd::laws_eq::obeys_concrete_eq;
use vstd::std_specs::cmp::PartialEqSpec;

verus! {

/// A single fine-grained operation on a list field.
///
/// `T` is the element type, `TPatch` is its patch type, and `ID` is the
/// identifier type used to address individual elements.
#[derive(Debug, Clone, PartialEq)]
#[allow(inconsistent_fields)]
pub enum ListPatchOp<T, TPatch, ID> {
    /// Insert `value` at the front of the list.
    Prepend { value: T },
    /// Push `value` to the back of the list.
    Append { value: T },
    /// Insert `value` at the given index. Clamps to `vec.len()` so an
    /// out-of-range index is treated as an append.
    Insert { index: usize, value: T },
    /// Find the element whose id matches and apply a sub-patch to it.
    Modify { id: ID, value: TPatch },
    /// Remove the element whose id matches.
    Delete { id: ID },
}

/// The identifier that `id_fn` gives `x` (the one it gives, where it gives
/// exactly one; see [`is_id_fn`]).
pub open spec fn id_of<T, ID, F: Fn(&T) -> ID>(id_fn: F, x: T) -> ID {
    choose|id: ID| call_ensures(id_fn, (&x,), id)
}

/// `id_fn` can be called on every element.
pub open spec fn accepts_all<T, ID, F: Fn(&T) -> ID>(id_fn: F) -> bool {
    forall|x: &T| #[trigger] call_requires(id_fn, (x,))
}

/// `id_fn` accepts every element and gives each element a single
/// identifier, as a function of the element.
pub open spec fn is_id_fn<T, ID, F: Fn(&T) -> ID>(id_fn: F) -> bool {
    &&& accepts_all(id_fn)
    &&& forall|x: &T, a: ID, b: ID|
        #![trigger call_ensures(id_fn, (x,), a), call_ensures(id_fn, (x,), b)]
        call_ensures(id_fn, (x,), a) && call_ensures(id_fn, (x,), b) ==> a == b
}

/// The identifier of `x` compares equal to `id`.
pub open spec fn hits<T, ID: PartialEq, F: Fn(&T) -> ID>(id_fn: F, x: T, id: ID) -> bool {
    id_of(id_fn, x).eq_spec(&id)
}

/// The index at which an insertion at `index` lands in a list of length
/// `len`: `index`, or the end of the list where `index` is past it.
pub open spec fn clamped(index: usize, len: nat) -> int {
    if index <= len {
        index as int
    } else {
        len as int
    }
}

/// `k` is the index of the first element of `s` whose identifier is `id`,
/// or `s.len()` where there is none.
pub open spec fn first_hit_at<T, ID: PartialEq, F: Fn(&T) -> ID>(
    s: Seq<T>,
    id_fn: F,
    id: ID,
    k: int,
) -> bool {
    &&& 0 <= k <= s.len()
    &&& forall|j: int| 0 <= j < k ==> !hits(id_fn, #[trigger] s[j], id)
    &&& k < s.len() ==> hits(id_fn, s[k], id)
}

/// `r` is `s` with at most the first element whose identifier is `id`
/// replaced, by what applying `patch` onto it makes where the element
/// type's `Patch` impl follows its specification, and equal to `s` where no
/// element has that identifier.
pub open spec fn modified_first<T: Patch<TPatch>, TPatch, ID: PartialEq, F: Fn(&T) -> ID>(
    s: Seq<T>,
    r: Seq<T>,
    id_fn: F,
    id: ID,
    patch: TPatch,
) -> bool {
    &&& r.len() == s.len()
    &&& exists|k: int|
        #[trigger] first_hit_at(s, id_fn, id, k) && (forall|j: int|
            0 <= j < s.len() && j != k ==> r[j] == s[j]) && (T::obeys_patch_spec() && k < s.len()
            ==> r[k] == s[k].patched_by(patch))
}

/// `s` without the elements whose identifier is `id`, in their order.
pub open spec fn without_id<T, ID: PartialEq, F: Fn(&T) -> ID>(s: Seq<T>, id_fn: F, id: ID) -> Seq<
    T,
> {
    s.filter(|x: T| !hits(id_fn, x, id))
}

/// `r` is a possible result of applying `op` to the list `s`.
///
/// Every operation but `Modify` has exactly one result; a `Modify` leaves
/// the new value of the element it patches to that element's `Patch` impl.
pub open spec fn op_result<T: Patch<TPatch>, TPatch, ID: PartialEq, F: Fn(&T) -> ID>(
    op: ListPatchOp<T, TPatch, ID>,
    id_fn: F,
    s: Seq<T>,
    r: Seq<T>,
) -> bool {
    match op {
        ListPatchOp::Prepend { value } => r == seq![value] + s,
        ListPatchOp::Append { value } => r == s.push(value),
        ListPatchOp::Insert { index, value } => r == s.insert(clamped(index, s.len()), value),
        ListPatchOp::Modify { id, value } => modified_first(s, r, id_fn, id, value),
        ListPatchOp::Delete { id } => r == without_id(s, id_fn, id),
    }
}

/// Whether the result of `op` depends on identifiers.
pub open spec fn addresses_by_id<T, TPatch, ID>(op: ListPatchOp<T, TPatch, ID>) -> bool {
    op is Modify || op is Delete
}

/// A call of `id_fn` on `x` was made, so that the identifier it gives `x`
/// is a result of `id_fn` on `x` (and so meets what `id_fn` promises).
pub open spec fn id_witnessed<T, ID, F: Fn(&T) -> ID>(id_fn: F, x: T) -> bool {
    call_ensures(id_fn, (&x,), id_of(id_fn, x))
}

/// The calls of `id_fn` that applying `op` to `s` makes: every element for
/// a `Delete`; for a `Modify`, the elements up to the first with the
/// identifier (where `id_fn` is a function and `==` on identifiers follows
/// its specification).
pub open spec fn op_ids_witnessed<T, TPatch, ID: PartialEq, F: Fn(&T) -> ID>(
    op: ListPatchOp<T, TPatch, ID>,
    id_fn: F,
    s: Seq<T>,
) -> bool {
    match op {
        ListPatchOp::Delete { id: _ } => forall|j: int|
            0 <= j < s.len() ==> id_witnessed(id_fn, #[trigger] s[j]),
        ListPatchOp::Modify { id, value: _ } => is_id_fn(id_fn) && ID::obeys_eq_spec() ==> forall|
            j: int,
        |
            0 <= j < s.len() && (forall|i: int| 0 <= i < j ==> !hits(id_fn, #[trigger] s[i], id))
                ==> id_witnessed(id_fn, #[trigger] s[j]),
        _ => true,
    }
}

/// A call that returned `id` on `x` witnesses the identifier of `x`.
proof fn lemma_witness<T, ID, F: Fn(&T) -> ID>(id_fn: F, x: T, id: ID)
    requires
        call_ensures(id_fn, (&x,), id),
    ensures
        id_witnessed(id_fn, x),
{
    let c = id_of(id_fn, x);
    assert(call_ensures(id_fn, (&x,), c));
}

/// Where `id_fn` is a function, the identifier it gives `x` is the one a
/// call returned.
pub proof fn lemma_id_of<T, ID, F: Fn(&T) -> ID>(id_fn: F, x: T, id: ID)
    requires
        is_id_fn(id_fn),
        call_ensures(id_fn, (&x,), id),
    ensures
        id_of(id_fn, x) == id,
{
    let c = id_of(id_fn, x);
    assert(call_ensures(id_fn, (&x,), c));
}

impl<T, TPatch, ID> ListPatchOp<T, TPatch, ID> {
    /// Build a `Prepend` op.
    pub fn prepend(value: T) -> (op: Self)
        ensures
            op == (ListPatchOp::<T, TPatch, ID>::Prepend { value }),
    {
        ListPatchOp::Prepend { value }
    }

    /// Build an `Append` op.
    pub fn append(value: T) -> (op: Self)
        ensures
            op == (ListPatchOp::<T, TPatch, ID>::Append { value }),
    {
        ListPatchOp::Append { value }
    }

    /// Build an `Insert` op at the given index.
    pub fn insert(index: usize, value: T) -> (op: Self)
        ensures
            op == (ListPatchOp::<T, TPatch, ID>::Insert { index, value }),
    {
        ListPatchOp::Insert { index, value }
    }

    /// Build a `Delete` op. Available without the `Patch` bound on `T`.
    pub fn delete(id: ID) -> (op: Self)
        ensures
            op == (ListPatchOp::<T, TPatch, ID>::Delete { id }),
    {
        ListPatchOp::Delete { id }
    }
}

impl<T, TPatch, ID> ListPatchOp<T, TPatch, ID> where T: Patch<TPatch>, ID: PartialEq {
    /// Build a `Modify` op.
    pub fn modify(id: ID, patch: TPatch) -> (op: Self)
        ensures
            op == (ListPatchOp::<T, TPatch, ID>::Modify { id, value: patch }),
    {
        ListPatchOp::Modify { id, value: patch }
    }

    /// Apply this single op to a `Vec<T>`, using `id_fn` to compute ids.
    ///
    /// Unknown ids in `Modify` / `Delete` are silently ignored.
    /// An out-of-range `index` in `Insert` clamps to `vec.len()`.
    pub fn apply_to(self, vec: &mut Vec<T>, id_fn: impl Fn(&T) -> ID)
        requires
            addresses_by_id(self) ==> accepts_all(id_fn),
        ensures
            !addresses_by_id(self) || (is_id_fn(id_fn) && ID::obeys_eq_spec()) ==> op_result(
                self,
                id_fn,
                old(vec)@,
                final(vec)@,
            ),
            op_ids_witnessed(self, id_fn, old(vec)@),
    {
        apply_op(self, vec, &id_fn)
    }
}

/// Apply `op` to `vec`, with `id_fn` borrowed so that a sequence of ops can
/// share it.
fn apply_op<T, TPatch, ID, F>(op: ListPatchOp<T, TPatch, ID>, vec: &mut Vec<T>, id_fn: &F) where
    T: Patch<TPatch>,
    ID: PartialEq,
    F: Fn(&T) -> ID,

    requires
        addresses_by_id(op) ==> accepts_all(*id_fn),
    ensures
        !addresses_by_id(op) || (is_id_fn(*id_fn) && ID::obeys_eq_spec()) ==> op_result(
            op,
            *id_fn,
            old(vec)@,
            final(vec)@,
        ),
        op_ids_witnessed(op, *id_fn, old(vec)@),
{
    match op {
        ListPatchOp::Prepend { value } => {
            vec.insert(0, value);
            assert(vec@ =~= seq![value] + old(vec)@);
        },
        ListPatchOp::Append { value } => vec.push(value),
        ListPatchOp::Insert { index, value } => {
            let idx = index.min(vec.len());
            vec.insert(idx, value);
        },
        ListPatchOp::Modify { id, value: patch } => {
            let k = find_id(vec, id_fn, &id);
            if k < vec.len() {
                vec[k].apply(patch);
            }
            proof {
                if is_id_fn(*id_fn) && ID::obeys_eq_spec() {
                    assert(first_hit_at(old(vec)@, *id_fn, id, k as int));
                    assert forall|j: int|
                        0 <= j < old(vec)@.len() && (forall|i: int|
                            0 <= i < j ==> !hits(*id_fn, #[trigger] old(vec)@[i], id))
                            implies id_witnessed(*id_fn, #[trigger] old(vec)@[j]) by {
                        if j > k {
                            assert(!hits(*id_fn, old(vec)@[k as int], id));
                        }
                    }
                }
            }
        },
        ListPatchOp::Delete { id } => {
            retain_other_ids(vec, id_fn, &id);
        },
    }
}

/// The index of the first element of `vec` whose identifier is `id`, or
/// `vec.len()` where there is none.
fn find_id<T, ID, F>(vec: &Vec<T>, id_fn: &F, id: &ID) -> (k: usize) where
    ID: PartialEq,
    F: Fn(&T) -> ID,

    requires
        accepts_all(*id_fn),
    ensures
        k <= vec@.len(),
        is_id_fn(*id_fn) && ID::obeys_eq_spec() ==> first_hit_at(vec@, *id_fn, *id, k as int),
        forall|j: int| 0 <= j <= k && j < vec@.len() ==> id_witnessed(*id_fn, #[trigger] vec@[j]),
{
    let mut i: usize = 0;
    while i < vec.len()
        invariant
            i <= vec@.len(),
            accepts_all(*id_fn),
            forall|j: int| 0 <= j < i ==> id_witnessed(*id_fn, #[trigger] vec@[j]),
            is_id_fn(*id_fn) && ID::obeys_eq_spec() ==> forall|j: int|
                0 <= j < i ==> !hits(*id_fn, #[trigger] vec@[j], *id),
        decreases vec@.len() - i,
    {
        let x_id = id_fn(&vec[i]);
        let hit = x_id == *id;
        proof {
            lemma_witness(*id_fn, vec@[i as int], x_id);
            if is_id_fn(*id_fn) && ID::obeys_eq_spec() {
                lemma_id_of(*id_fn, vec@[i as int], x_id);
            }
        }
        if hit {
            return i;
        }
        i = i + 1;
    }
    i
}

/// Remove from `vec` every element whose identifier is `id`, keeping the
/// order of the others.
fn retain_other_ids<T, ID, F>(vec: &mut Vec<T>, id_fn: &F, id: &ID) where
    ID: PartialEq,
    F: Fn(&T) -> ID,

    requires
        accepts_all(*id_fn),
    ensures
        is_id_fn(*id_fn) && ID::obeys_eq_spec() ==> final(vec)@ == without_id(
            old(vec)@,
            *id_fn,
            *id,
        ),
        forall|j: int| 0 <= j < old(vec)@.len() ==> id_witnessed(*id_fn, #[trigger] old(vec)@[j]),
{
    let ghost s = vec@;
    let ghost pred = |x: T| !hits(*id_fn, x, *id);
    let ghost mut c: int = 0;
    let mut i: usize = 0;
    while i < vec.len()
        invariant
            accepts_all(*id_fn),
            pred == (|x: T| !hits(*id_fn, x, *id)),
            0 <= c <= s.len(),
            i <= c,
            s == old(vec)@,
            forall|j: int| 0 <= j < c ==> id_witnessed(*id_fn, #[trigger] s[j]),
            vec@.len() == i + (s.len() - c),
            vec@.subrange(i as int, vec@.len() as int) == s.subrange(c, s.len() as int),
            is_id_fn(*id_fn) && ID::obeys_eq_spec() ==> vec@.subrange(0, i as int) == s.subrange(
                0,
                c,
            ).filter(pred),
        decreases vec@.len() - i,
    {
        let ghost before = vec@;
        let ghost old_i = i;
        let x_id = id_fn(&vec[i]);
        let hit = x_id == *id;
        proof {
            assert(vec@[i as int] == s[c]) by {
                assert(vec@.subrange(i as int, vec@.len() as int)[0] == s.subrange(
                    c,
                    s.len() as int,
                )[0]);
            }
            lemma_witness(*id_fn, s[c], x_id);
            if is_id_fn(*id_fn) && ID::obeys_eq_spec() {
                lemma_id_of(*id_fn, s[c], x_id);
                let a = s.subrange(0, c);
                assert(s.subrange(0, c + 1) == a + seq![s[c]]);
                Seq::filter_distributes_over_add(a, seq![s[c]], pred);
                reveal_with_fuel(Seq::filter, 2);
                assert(seq![s[c]].drop_last() == Seq::<T>::empty());
            }
        }
        if hit {
            vec.remove(i);
            proof {
                assert(vec@.subrange(0, i as int) == before.subrange(0, i as int));
                assert(vec@.subrange(i as int, vec@.len() as int) == before.subrange(
                    i + 1,
                    before.len() as int,
                ));
            }
        } else {
            proof {
                assert(vec@.subrange(0, i + 1) == vec@.subrange(0, i as int).push(vec@[i as int]));
            }
            i = i + 1;
        }
        proof {
            c = c + 1;
            assert(vec@.subrange(i as int, vec@.len() as int) =~= s.subrange(c, s.len() as int)) by {
                assert forall|j: int| 0 <= j < vec@.len() - i implies #[trigger] vec@.subrange(
                    i as int,
                    vec@.len() as int,
                )[j] == s.subrange(c, s.len() as int)[j] by {
                    assert(before.subrange(old_i as int, before.len() as int)[j + 1] == s.subrange(
                        c - 1,
                        s.len() as int,
                    )[j + 1]);
                }
            }
        }
    }
    proof {
        assert(s.subrange(0, s.len() as int) == s);
        assert(vec@.subrange(0, i as int) == vec@);
    }
}

/// `id_fn` gives each element one identifier and `==` on identifiers
/// follows its specification, so that the ops that address elements by
/// identifier have the results [`op_result`] gives.
pub open spec fn ids_exact<T, ID: PartialEq, F: Fn(&T) -> ID>(id_fn: F) -> bool {
    is_id_fn(id_fn) && ID::obeys_eq_spec()
}

/// One step of a run: what applying `op` to `s` promises of the list `r`
/// it leaves, for every closure and identifier type. `r` is a result of
/// `op` on `s` where `op` does not address elements by identifier or
/// [`ids_exact`] holds; and the calls of `id_fn` that applying `op` makes
/// on the elements of `s` were made.
pub open spec fn op_step<T: Patch<TPatch>, TPatch, ID: PartialEq, F: Fn(&T) -> ID>(
    op: ListPatchOp<T, TPatch, ID>,
    id_fn: F,
    s: Seq<T>,
    r: Seq<T>,
) -> bool {
    &&& !addresses_by_id(op) || ids_exact(id_fn) ==> op_result(op, id_fn, s, r)
    &&& op_ids_witnessed(op, id_fn, s)
}

/// `trace` is a run of `ops` over lists: it starts with the list the first
/// op applies to, and each op turns its list into the next one.
pub open spec fn ops_trace<T: Patch<TPatch>, TPatch, ID: PartialEq, F: Fn(&T) -> ID>(
    ops: Seq<ListPatchOp<T, TPatch, ID>>,
    id_fn: F,
    trace: Seq<Seq<T>>,
) -> bool {
    &&& trace.len() == ops.len() + 1
    &&& forall|i: int|
        0 <= i < ops.len() ==> op_step(#[trigger] ops[i], id_fn, trace[i], trace[i + 1])
}

/// `r` can be what applying `ops`, one after the other, to the list `s`
/// leaves: a run of [`op_step`]s from `s` to `r`.
pub open spec fn ops_result<T: Patch<TPatch>, TPatch, ID: PartialEq, F: Fn(&T) -> ID>(
    ops: Seq<ListPatchOp<T, TPatch, ID>>,
    id_fn: F,
    s: Seq<T>,
    r: Seq<T>,
) -> bool {
    exists|trace: Seq<Seq<T>>|
        #[trigger] ops_trace(ops, id_fn, trace) && trace[0] == s && trace.last() == r
}

/// Applying one more op after `ops` extends the results of `ops` by a step.
pub proof fn lemma_ops_result_push<T: Patch<TPatch>, TPatch, ID: PartialEq, F: Fn(&T) -> ID>(
    ops: Seq<ListPatchOp<T, TPatch, ID>>,
    op: ListPatchOp<T, TPatch, ID>,
    id_fn: F,
    s: Seq<T>,
    m: Seq<T>,
    r: Seq<T>,
)
    requires
        ops_result(ops, id_fn, s, m),
        op_step(op, id_fn, m, r),
    ensures
        ops_result(ops.push(op), id_fn, s, r),
{
    let trace = choose|trace: Seq<Seq<T>>|
        #[trigger] ops_trace(ops, id_fn, trace) && trace[0] == s && trace.last() == m;
    let t2 = trace.push(r);
    let o2 = ops.push(op);
    assert forall|i: int| 0 <= i < o2.len() implies op_step(
        #[trigger] o2[i],
        id_fn,
        t2[i],
        t2[i + 1],
    ) by {
        if i < ops.len() {
            assert(o2[i] == ops[i]);
        }
    }
    assert(ops_trace(o2, id_fn, t2));
}

/// Helper trait used by generated code so that the `T: Patch<TPatch>` bound
/// only kicks in when actually applying list patches.
pub trait ListPatchApply {
    /// Element type (the `T` in `Vec<T>`).
    type Elem;

    /// Apply a sequence of list-patch ops to `self`.
    fn apply_list_patch_ops<TPatch, ID, F: Fn(&Self::Elem) -> ID>(
        &mut self,
        ops: Vec<ListPatchOp<Self::Elem, TPatch, ID>>,
        id_fn: F,
    ) where Self::Elem: Patch<TPatch>, ID: PartialEq
        requires
            (exists|i: int| 0 <= i < ops@.len() && addresses_by_id(#[trigger] ops@[i]))
                ==> accepts_all::<Self::Elem, ID, F>(id_fn),
    ;
}

impl<T> ListPatchApply for Vec<T> {
    type Elem = T;

    fn apply_list_patch_ops<TPatch, ID, F: Fn(&T) -> ID>(
        &mut self,
        ops: Vec<ListPatchOp<T, TPatch, ID>>,
        id_fn: F,
    ) where T: Patch<TPatch>, ID: PartialEq
        ensures
            ops_result(ops@, id_fn, old(self)@, final(self)@),
    {
        let ghost all = ops@;
        let ghost start = self@;
        let ghost callable = exists|i: int|
            0 <= i < all.len() && addresses_by_id(#[trigger] all[i]);
        proof {
            let trace = seq![start];
            assert(ops_trace(all.take(0), id_fn, trace));
        }
        for op in it: ops.into_iter()
            invariant
                it.seq() == all,
                callable == (exists|i: int|
                    0 <= i < all.len() && addresses_by_id(#[trigger] all[i])),
                callable ==> accepts_all(id_fn),
                ops_result(all.take(it.index() as int), id_fn, start, self@),
        {
            let ghost before = self@;
            let ghost i = it.index() as int;
            proof {
                assert(all[i] == op);
            }
            apply_op(op, self, &id_fn);
            proof {
                let t = all.take(i + 1);
                assert(t.drop_last() =~= all.take(i));
                assert(t.last() == op);
                assert(op_step(op, id_fn, before, self@));
                lemma_ops_result_push(all.take(i), op, id_fn, start, before, self@);
                assert(all.take(i).push(op) =~= t);
            }
        }
        proof {
            assert(all.take(all.len() as int) =~= all);
        }
    }
}

/// The ops that append the elements of `items`, in their order.
pub open spec fn appended<T, TPatch, ID>(items: Seq<T>) -> Seq<ListPatchOp<T, TPatch, ID>> {
    items.map_values(|x: T| (ListPatchOp::<T, TPatch, ID>::Append { value: x }))
}

/// The list patch that rebuilds a list from nothing: one `Append` per
/// element, in order. This is what `into_patch` gives for a list field.
pub fn into_list_patch<T, TPatch, ID>(items: Vec<T>) -> (ops: Vec<ListPatchOp<T, TPatch, ID>>)
    ensures
        ops@ == appended::<T, TPatch, ID>(items@),
{
    let ghost all = items@;
    let mut ops: Vec<ListPatchOp<T, TPatch, ID>> = Vec::new();
    for x in it: items.into_iter()
        invariant
            it.seq() == all,
            ops@ == appended::<T, TPatch, ID>(all.take(it.index() as int)),
    {
        let ghost i = it.index() as int;
        proof {
            assert(all[i] == x);
        }
        ops.push(ListPatchOp::append(x));
        proof {
            assert(all.take(i + 1) =~= all.take(i).push(x));
            assert(ops@ =~= appended::<T, TPatch, ID>(all.take(i + 1)));
        }
    }
    proof {
        assert(all.take(all.len() as int) =~= all);
    }
    ops
}

/// Two list patches in one: the ops of `first`, then those of `second`.
/// This is how list fields merge and add.
pub fn merge_list_patches<T, TPatch, ID>(
    first: Vec<ListPatchOp<T, TPatch, ID>>,
    second: Vec<ListPatchOp<T, TPatch, ID>>,
) -> (ops: Vec<ListPatchOp<T, TPatch, ID>>)
    ensures
        ops@ == first@ + second@,
{
    let mut v = first;
    let mut rest = second;
    v.append(&mut rest);
    v
}

/// The index of the first element of `s` whose identifier is `id`, or
/// `s.len()` where there is none.
pub open spec fn first_hit<T, ID: PartialEq, F: Fn(&T) -> ID>(s: Seq<T>, id_fn: F, id: ID) -> int
    decreases s.len(),
{
    if s.len() == 0 {
        0
    } else if hits(id_fn, s[0], id) {
        0
    } else {
        1 + first_hit(s.drop_first(), id_fn, id)
    }
}

/// [`first_hit_at`] names at most one index, the one [`first_hit`] gives.
pub proof fn lemma_first_hit<T, ID: PartialEq, F: Fn(&T) -> ID>(
    s: Seq<T>,
    id_fn: F,
    id: ID,
    k: int,
)
    requires
        first_hit_at(s, id_fn, id, k),
    ensures
        first_hit(s, id_fn, id) == k,
    decreases s.len(),
{
    if s.len() > 0 && k > 0 {
        assert(!hits(id_fn, s[0], id));
        let t = s.drop_first();
        assert forall|j: int| 0 <= j < k - 1 implies !hits(id_fn, #[trigger] t[j], id) by {
            assert(t[j] == s[j + 1]);
        }
        if k - 1 < t.len() {
            assert(t[k - 1] == s[k]);
        }
        lemma_first_hit(t, id_fn, id, k - 1);
    }
}

/// The elements of `previous` that no element of `current` is matched
/// with, where each element of `current` in turn takes the first remaining
/// element of `previous` with its identifier.
pub open spec fn unmatched<T, ID: PartialEq, F: Fn(&T) -> ID>(
    current: Seq<T>,
    previous: Seq<T>,
    id_fn: F,
) -> Seq<T>
    decreases current.len(),
{
    if current.len() == 0 {
        previous
    } else {
        let rest = unmatched(current.drop_last(), previous, id_fn);
        let k = first_hit(rest, id_fn, id_of(id_fn, current.last()));
        if k < rest.len() {
            rest.remove(k)
        } else {
            rest
        }
    }
}

/// Element `i` of `current` finds an element of `previous` with its
/// identifier that no earlier element of `current` took.
pub open spec fn is_matched<T, ID: PartialEq, F: Fn(&T) -> ID>(
    current: Seq<T>,
    previous: Seq<T>,
    id_fn: F,
    i: int,
) -> bool {
    let rest = unmatched(current.take(i), previous, id_fn);
    first_hit(rest, id_fn, id_of(id_fn, current[i])) < rest.len()
}

/// The element of `previous` that element `i` of `current` is matched with
/// (see [`is_matched`]): the first element with its identifier that no
/// earlier element of `current` took.
pub open spec fn matched_with<T, ID: PartialEq, F: Fn(&T) -> ID>(
    current: Seq<T>,
    previous: Seq<T>,
    id_fn: F,
    i: int,
) -> T {
    let rest = unmatched(current.take(i), previous, id_fn);
    rest[first_hit(rest, id_fn, id_of(id_fn, current[i]))]
}

/// `ops` has the shape of the diff of `current` against `previous`: for
/// each element of `current` in order, a `Modify` of its identifier where
/// it is matched, carrying a diff (by the element's own
/// `into_patch_by_diff`) of it against the element it is matched with,
/// else an `Append` of it; then a `Delete` of each unmatched element of
/// `previous`, in order.
pub open spec fn is_list_diff<T: Patch<TPatch>, TPatch, ID: PartialEq, F: Fn(&T) -> ID>(
    ops: Seq<ListPatchOp<T, TPatch, ID>>,
    current: Seq<T>,
    previous: Seq<T>,
    id_fn: F,
) -> bool {
    let rem = unmatched(current, previous, id_fn);
    &&& ops.len() == current.len() + rem.len()
    &&& forall|i: int|
        0 <= i < current.len() ==> if is_matched(current, previous, id_fn, i) {
            &&& #[trigger] ops[i] is Modify
            &&& ops[i]->Modify_id == id_of(id_fn, current[i])
            &&& call_ensures(
                T::into_patch_by_diff,
                (current[i], matched_with(current, previous, id_fn, i)),
                ops[i]->Modify_value,
            )
        } else {
            ops[i] == (ListPatchOp::<T, TPatch, ID>::Append { value: current[i] })
        }
    &&& forall|j: int|
        0 <= j < rem.len() ==> #[trigger] ops[current.len() + j] == (ListPatchOp::<
            T,
            TPatch,
            ID,
        >::Delete { id: id_of(id_fn, rem[j]) })
}

/// The list patch that turns `previous` into `current`, by identifiers:
/// each element of `current` that finds an element of `previous` with its
/// identifier gets a `Modify` carrying its own diff against that element;
/// the others are appended; the elements of `previous` left over are
/// deleted. This is what `into_patch_by_diff` gives for a list field.
pub fn diff_list_patch<T, TPatch, ID, F>(current: Vec<T>, previous: Vec<T>, id_fn: F) -> (ops: Vec<
    ListPatchOp<T, TPatch, ID>,
>) where T: Patch<TPatch>, ID: PartialEq, F: Fn(&T) -> ID
    requires
        accepts_all(id_fn),
    ensures
        is_id_fn(id_fn) && ID::obeys_eq_spec() ==> is_list_diff(ops@, current@, previous@, id_fn),
        forall|i: int| 0 <= i < current@.len() ==> id_witnessed(id_fn, #[trigger] current@[i]),
        forall|j: int| 0 <= j < previous@.len() ==> id_witnessed(id_fn, #[trigger] previous@[j]),
{
    let ghost cur = current@;
    let ghost old_prev = previous@;
    let ghost exact = is_id_fn(id_fn) && ID::obeys_eq_spec();
    let mut prev = previous;
    let mut ops: Vec<ListPatchOp<T, TPatch, ID>> = Vec::new();
    for x in it: current.into_iter()
        invariant
            it.seq() == cur,
            accepts_all(id_fn),
            exact == (is_id_fn(id_fn) && ID::obeys_eq_spec()),
            ops@.len() == it.index(),
            exact ==> prev@ == unmatched(cur.take(it.index() as int), old_prev, id_fn),
            forall|i: int| 0 <= i < it.index() ==> id_witnessed(id_fn, #[trigger] cur[i]),
            forall|j: int|
                0 <= j < old_prev.len() ==> id_witnessed(id_fn, #[trigger] old_prev[j])
                    || prev@.contains(old_prev[j]),
            exact ==> forall|i: int|
                0 <= i < it.index() ==> if is_matched(cur, old_prev, id_fn, i) {
                    &&& #[trigger] ops@[i] is Modify
                    &&& ops@[i]->Modify_id == id_of(id_fn, cur[i])
                    &&& call_ensures(
                        T::into_patch_by_diff,
                        (cur[i], matched_with(cur, old_prev, id_fn, i)),
                        ops@[i]->Modify_value,
                    )
                } else {
                    ops@[i] == (ListPatchOp::<T, TPatch, ID>::Append { value: cur[i] })
                },
    {
        let ghost i = it.index() as int;
        let ghost before = prev@;
        proof {
            assert(cur[i] == x);
        }
        let id_x = id_fn(&x);
        let idx = find_id(&prev, &id_fn, &id_x);
        proof {
            lemma_witness(id_fn, x, id_x);
            if exact {
                lemma_id_of(id_fn, x, id_x);
                lemma_first_hit(before, id_fn, id_x, idx as int);
                assert(cur.take(i + 1).drop_last() =~= cur.take(i));
                assert(cur.take(i + 1).last() == x);
                assert(cur.take(i + 1).take(i) =~= cur.take(i));
            }
        }
        if idx < prev.len() {
            let prev_x = prev.remove(idx);
            proof {
                if exact {
                    assert(cur.take(i).len() == i);
                    assert(prev_x == matched_with(cur, old_prev, id_fn, i));
                }
            }
            proof {
                assert forall|j: int|
                    0 <= j < old_prev.len() && !id_witnessed(id_fn, #[trigger] old_prev[j])
                        implies prev@.contains(old_prev[j]) by {
                    let p = choose|p: int| 0 <= p < before.len() && before[p] == old_prev[j];
                    if p < idx {
                        assert(prev@[p] == old_prev[j]);
                    } else if p > idx {
                        assert(prev@[p - 1] == old_prev[j]);
                    }
                }
            }
            ops.push(ListPatchOp::modify(id_x, x.into_patch_by_diff(prev_x)));
        } else {
            ops.push(ListPatchOp::append(x));
        }
    }
    let ghost n = cur.len();
    let ghost rem = prev@;
    proof {
        if exact {
            assert(cur.take(n as int) =~= cur);
        }
    }
    for p in it: prev.into_iter()
        invariant
            it.seq() == rem,
            accepts_all(id_fn),
            exact == (is_id_fn(id_fn) && ID::obeys_eq_spec()),
            ops@.len() == n + it.index(),
            forall|i: int| 0 <= i < n ==> id_witnessed(id_fn, #[trigger] cur[i]),
            forall|j: int|
                0 <= j < old_prev.len() ==> id_witnessed(id_fn, #[trigger] old_prev[j])
                    || rem.contains(old_prev[j]),
            forall|j: int| 0 <= j < it.index() ==> id_witnessed(id_fn, #[trigger] rem[j]),
            exact ==> rem == unmatched(cur, old_prev, id_fn),
            exact ==> forall|i: int|
                0 <= i < n ==> if is_matched(cur, old_prev, id_fn, i) {
                    &&& #[trigger] ops@[i] is Modify
                    &&& ops@[i]->Modify_id == id_of(id_fn, cur[i])
                    &&& call_ensures(
                        T::into_patch_by_diff,
                        (cur[i], matched_with(cur, old_prev, id_fn, i)),
                        ops@[i]->Modify_value,
                    )
                } else {
                    ops@[i] == (ListPatchOp::<T, TPatch, ID>::Append { value: cur[i] })
                },
            exact ==> forall|j: int|
                0 <= j < it.index() ==> #[trigger] ops@[n + j] == (ListPatchOp::<
                    T,
                    TPatch,
                    ID,
                >::Delete { id: id_of(id_fn, rem[j]) }),
    {
        let ghost j = it.index() as int;
        proof {
            assert(rem[j] == p);
        }
        let id_p = id_fn(&p);
        proof {
            lemma_witness(id_fn, p, id_p);
            if exact {
                lemma_id_of(id_fn, p, id_p);
            }
        }
        ops.push(ListPatchOp::delete(id_p));
    }
    proof {
        assert forall|j: int| 0 <= j < old_prev.len() implies id_witnessed(
            id_fn,
            #[trigger] old_prev[j],
        ) by {
            if !id_witnessed(id_fn, old_prev[j]) {
                let p = choose|p: int| 0 <= p < rem.len() && rem[p] == old_prev[j];
                assert(id_witnessed(id_fn, rem[p]));
            }
        }
    }
    ops
}

/// Applying no ops leaves the list as it is.
pub proof fn law_list_no_ops<T: Patch<TPatch>, TPatch, ID: PartialEq, F: Fn(&T) -> ID>(
    id_fn: F,
    s: Seq<T>,
    r: Seq<T>,
)
    ensures
        ops_result(Seq::<ListPatchOp<T, TPatch, ID>>::empty(), id_fn, s, r) <==> r == s,
{
    let ops = Seq::<ListPatchOp<T, TPatch, ID>>::empty();
    if r == s {
        assert(ops_trace(ops, id_fn, seq![s]));
        assert(seq![s].last() == s);
    }
}

/// Applying a single op is one step: what `apply_to` promises of it.
pub proof fn law_list_one_op<T: Patch<TPatch>, TPatch, ID: PartialEq, F: Fn(&T) -> ID>(
    op: ListPatchOp<T, TPatch, ID>,
    id_fn: F,
    s: Seq<T>,
    r: Seq<T>,
)
    ensures
        ops_result(seq![op], id_fn, s, r) <==> op_step(op, id_fn, s, r),
{
    let ops = seq![op];
    if ops_result(ops, id_fn, s, r) {
        let trace = choose|trace: Seq<Seq<T>>|
            #[trigger] ops_trace(ops, id_fn, trace) && trace[0] == s && trace.last() == r;
        assert(ops[0] == op);
    }
    if op_step(op, id_fn, s, r) {
        let trace = seq![s, r];
        assert(ops[0] == op);
        assert(ops_trace(ops, id_fn, trace));
    }
}

/// Applying the merge of two list patches (their concatenation) has the
/// results of applying the first, then the second.
pub proof fn law_list_merge<T: Patch<TPatch>, TPatch, ID: PartialEq, F: Fn(&T) -> ID>(
    first: Seq<ListPatchOp<T, TPatch, ID>>,
    second: Seq<ListPatchOp<T, TPatch, ID>>,
    id_fn: F,
    s: Seq<T>,
    r: Seq<T>,
)
    ensures
        ops_result(first + second, id_fn, s, r) <==> exists|m: Seq<T>|
            ops_result(first, id_fn, s, m) && #[trigger] ops_result(second, id_fn, m, r),
{
    let ops = first + second;
    let n = first.len() as int;
    if ops_result(ops, id_fn, s, r) {
        let trace = choose|trace: Seq<Seq<T>>|
            #[trigger] ops_trace(ops, id_fn, trace) && trace[0] == s && trace.last() == r;
        let t1 = trace.take(n + 1);
        let t2 = trace.skip(n);
        assert forall|i: int| 0 <= i < first.len() implies op_step(
            #[trigger] first[i],
            id_fn,
            t1[i],
            t1[i + 1],
        ) by {
            assert(ops[i] == first[i]);
        }
        assert forall|i: int| 0 <= i < second.len() implies op_step(
            #[trigger] second[i],
            id_fn,
            t2[i],
            t2[i + 1],
        ) by {
            assert(ops[n + i] == second[i]);
        }
        assert(ops_trace(first, id_fn, t1));
        assert(ops_trace(second, id_fn, t2));
        assert(ops_result(second, id_fn, trace[n], r));
    }
    if exists|m: Seq<T>| ops_result(first, id_fn, s, m) && #[trigger] ops_result(second, id_fn, m, r) {
        let m = choose|m: Seq<T>|
            ops_result(first, id_fn, s, m) && #[trigger] ops_result(second, id_fn, m, r);
        let t1 = choose|trace: Seq<Seq<T>>|
            #[trigger] ops_trace(first, id_fn, trace) && trace[0] == s && trace.last() == m;
        let t2 = choose|trace: Seq<Seq<T>>|
            #[trigger] ops_trace(second, id_fn, trace) && trace[0] == m && trace.last() == r;
        let trace = t1 + t2.drop_first();
        assert forall|i: int| 0 <= i < ops.len() implies op_step(
            #[trigger] ops[i],
            id_fn,
            trace[i],
            trace[i + 1],
        ) by {
            if i < n {
                assert(ops[i] == first[i]);
            } else {
                assert(ops[i] == second[i - n]);
                assert(trace[i] == t2[i - n]);
                assert(trace[i + 1] == t2[i - n + 1]);
            }
        }
        assert(ops_trace(ops, id_fn, trace));
    }
}

/// The list patch of appends of `items` turns a list `s` into `s` followed
/// by `items`, and nothing else; so applied to an empty list, the full
/// patch of a list rebuilds it.
pub proof fn law_list_into_patch<T: Patch<TPatch>, TPatch, ID: PartialEq, F: Fn(&T) -> ID>(
    items: Seq<T>,
    id_fn: F,
    s: Seq<T>,
    r: Seq<T>,
)
    ensures
        ops_result(appended::<T, TPatch, ID>(items), id_fn, s, r) <==> r == s + items,
        ops_result(appended::<T, TPatch, ID>(items), id_fn, Seq::empty(), r) <==> r == items,
{
    lemma_appended_result::<T, TPatch, ID, F>(items, id_fn, s, r);
    lemma_appended_result::<T, TPatch, ID, F>(items, id_fn, Seq::empty(), r);
    assert(Seq::<T>::empty() + items =~= items);
}

/// The results of a run of appends of `items` from `s`.
proof fn lemma_appended_result<T: Patch<TPatch>, TPatch, ID: PartialEq, F: Fn(&T) -> ID>(
    items: Seq<T>,
    id_fn: F,
    s: Seq<T>,
    r: Seq<T>,
)
    ensures
        ops_result(appended::<T, TPatch, ID>(items), id_fn, s, r) <==> r == s + items,
{
    let ops = appended::<T, TPatch, ID>(items);
    let canonical = Seq::new(items.len() + 1, |i: int| s + items.take(i));
    assert forall|i: int| 0 <= i < ops.len() implies op_step(
        #[trigger] ops[i],
        id_fn,
        canonical[i],
        canonical[i + 1],
    ) by {
        assert(items.take(i + 1) =~= items.take(i).push(items[i]));
    }
    assert(ops_trace(ops, id_fn, canonical));
    assert(items.take(items.len() as int) =~= items);
    assert(canonical[0] =~= s);
    if ops_result(ops, id_fn, s, r) {
        let trace = choose|trace: Seq<Seq<T>>|
            #[trigger] ops_trace(ops, id_fn, trace) && trace[0] == s && trace.last() == r;
        assert forall|i: int| 0 <= i <= items.len() implies #[trigger] trace[i] == canonical[i] by {
            lemma_appended_trace::<T, TPatch, ID, F>(items, id_fn, s, trace, i);
        }
    }
}

/// Every list in a run of appends of `items` from `s` is `s` followed by the
/// items appended so far.
proof fn lemma_appended_trace<T: Patch<TPatch>, TPatch, ID: PartialEq, F: Fn(&T) -> ID>(
    items: Seq<T>,
    id_fn: F,
    s: Seq<T>,
    trace: Seq<Seq<T>>,
    i: int,
)
    requires
        ops_trace(appended::<T, TPatch, ID>(items), id_fn, trace),
        trace[0] == s,
        0 <= i <= items.len(),
    ensures
        trace[i] == s + items.take(i),
    decreases i,
{
    if i == 0 {
        assert(s + items.take(0) =~= s);
    } else {
        lemma_appended_trace::<T, TPatch, ID, F>(items, id_fn, s, trace, i - 1);
        let ops = appended::<T, TPatch, ID>(items);
        assert(op_result(ops[i - 1], id_fn, trace[i - 1], trace[i]));
        assert(items.take(i) =~= items.take(i - 1).push(items[i - 1]));
        assert(trace[i] =~= s + items.take(i));
    }
}

/// An `Insert` at an index past the end of the list is an `Append`.
pub proof fn law_insert_clamps<T: Patch<TPatch>, TPatch, ID: PartialEq, F: Fn(&T) -> ID>(
    index: usize,
    value: T,
    id_fn: F,
    s: Seq<T>,
    r: Seq<T>,
)
    requires
        index >= s.len(),
    ensures
        op_result(ListPatchOp::<T, TPatch, ID>::Insert { index, value }, id_fn, s, r) <==> op_result(
            ListPatchOp::<T, TPatch, ID>::Append { value },
            id_fn,
            s,
            r,
        ),
{
    assert(s.insert(s.len() as int, value) =~= s.push(value));
}

/// A `Modify` or a `Delete` of an identifier that no element of the list
/// has leaves the list as it is.
pub proof fn law_unknown_id_ignored<T: Patch<TPatch>, TPatch, ID: PartialEq, F: Fn(&T) -> ID>(
    id: ID,
    patch: TPatch,
    id_fn: F,
    s: Seq<T>,
    r: Seq<T>,
)
    requires
        forall|j: int| 0 <= j < s.len() ==> !hits(id_fn, #[trigger] s[j], id),
    ensures
        op_result(ListPatchOp::<T, TPatch, ID>::Modify { id, value: patch }, id_fn, s, r) <==> r
            == s,
        op_result(ListPatchOp::<T, TPatch, ID>::Delete { id }, id_fn, s, r) <==> r == s,
{
    assert(first_hit_at(s, id_fn, id, s.len() as int));
    if modified_first(s, r, id_fn, id, patch) {
        let k = choose|k: int|
            #[trigger] first_hit_at(s, id_fn, id, k) && forall|j: int|
                0 <= j < s.len() && j != k ==> r[j] == s[j];
        assert(k == s.len());
        assert(r =~= s);
    }
    lemma_filter_keeps_all(s, |x: T| !hits(id_fn, x, id));
}

/// Filtering by a predicate that holds of every element keeps them all.
proof fn lemma_filter_keeps_all<A>(s: Seq<A>, pred: spec_fn(A) -> bool)
    requires
        forall|j: int| 0 <= j < s.len() ==> pred(#[trigger] s[j]),
    ensures
        s.filter(pred) == s,
    decreases s.len(),
{
    reveal_with_fuel(Seq::filter, 1);
    if s.len() > 0 {
        let t = s.drop_last();
        assert forall|j: int| 0 <= j < t.len() implies pred(#[trigger] t[j]) by {
            assert(t[j] == s[j]);
        }
        lemma_filter_keeps_all(t, pred);
        assert(s.filter(pred) =~= t.filter(pred).push(s.last()));
        assert(t.push(s.last()) =~= s);
    } else {
        assert(s.filter(pred) =~= s);
    }
}

// ---------------------------------------------------------------------------
// What a diff, applied, rebuilds.
/// Some element of `s` has identifier `id`.
pub open spec fn has_id<T, ID, F: Fn(&T) -> ID>(s: Seq<T>, id_fn: F, id: ID) -> bool {
    exists|i: int| 0 <= i < s.len() && id_of(id_fn, #[trigger] s[i]) == id
}

/// No two elements of `s` have the same identifier.
pub open spec fn unique_ids<T, ID, F: Fn(&T) -> ID>(s: Seq<T>, id_fn: F) -> bool {
    forall|i: int, j: int|
        0 <= i < j < s.len() ==> id_of(id_fn, #[trigger] s[i]) != id_of(id_fn, #[trigger] s[j])
}

/// Applying a diff that the element type's `into_patch_by_diff` makes of
/// one element against another onto the other gives the first element
/// back, where the element type's `Patch` impl follows its specification.
spec fn element_diff_rebuilds<T: Patch<TPatch>, TPatch>() -> bool {
    &&& T::obeys_patch_spec()
    &&& forall|x: T, y: T, p: TPatch|
        #[trigger] call_ensures(T::into_patch_by_diff, (x, y), p) ==> y.patched_by(p) == x
}

/// What `into_patch_by_diff` promises gives [`element_diff_rebuilds`].
proof fn lemma_element_diff_rebuilds<T: Patch<TPatch>, TPatch>()
    requires
        T::obeys_patch_spec(),
    ensures
        element_diff_rebuilds::<T, TPatch>(),
{
    assert forall|x: T, y: T, p: TPatch|
        #[trigger] call_ensures(T::into_patch_by_diff, (x, y), p) implies y.patched_by(p) == x by {
    }
}

/// `s` holds each element of `s` at `q` either in `rem`, where its
/// identifier is one of `rem`'s, or in `current`.
spec fn kept_or_current<T, ID, F: Fn(&T) -> ID>(
    s: Seq<T>,
    rem: Seq<T>,
    current: Seq<T>,
    id_fn: F,
) -> bool {
    forall|q: int|
        0 <= q < s.len() ==> if has_id(rem, id_fn, id_of(id_fn, #[trigger] s[q])) {
            rem.contains(s[q])
        } else {
            current.contains(s[q])
        }
}

/// Applying the diff of `current` against `previous` to `previous` gives
/// back the elements of `current`, each once, where identifiers are unique
/// in both lists and the element type's `Patch` impl follows its
/// specification (so that the diff of an element, applied onto the element
/// it was made against, gives the element back). The order can differ: the
/// elements matched in `previous` keep its order, and the new ones come
/// after them.
pub proof fn law_list_diff<T: Patch<TPatch>, TPatch, ID: PartialEq, F: Fn(&T) -> ID>(
    current: Seq<T>,
    previous: Seq<T>,
    ops: Seq<ListPatchOp<T, TPatch, ID>>,
    id_fn: F,
    trace: Seq<Seq<T>>,
)
    requires
        is_id_fn(id_fn),
        obeys_concrete_eq::<ID>(),
        T::obeys_patch_spec(),
        unique_ids(previous, id_fn),
        unique_ids(current, id_fn),
        is_list_diff(ops, current, previous, id_fn),
        ops_trace(ops, id_fn, trace),
        trace[0] == previous,
    ensures
        unique_ids(trace.last(), id_fn),
        forall|id: ID| has_id(trace.last(), id_fn, id) <==> has_id(current, id_fn, id),
        trace.last().len() == current.len(),
        forall|k: int| 0 <= k < trace.last().len() ==> current.contains(#[trigger] trace.last()[k]),
        forall|i: int| 0 <= i < current.len() ==> trace.last().contains(#[trigger] current[i]),
{
    lemma_element_diff_rebuilds::<T, TPatch>();
    reveal(obeys_concrete_eq);
    let n = current.len() as int;
    let rem = unmatched(current, previous, id_fn);
    lemma_diff_first_phase(current, previous, ops, id_fn, trace, n);
    assert(current.take(n) =~= current);
    lemma_diff_second_phase(current, previous, ops, id_fn, trace, rem.len() as int);
    assert(rem.take(rem.len() as int) =~= rem);
    let r = trace.last();
    assert(trace.len() == n + rem.len() + 1);
    assert forall|id: ID| has_id(r, id_fn, id) <==> has_id(current, id_fn, id) by {
        if has_id(current, id_fn, id) {
            if has_id(rem, id_fn, id) {
                let i = choose|i: int| 0 <= i < rem.len() && id_of(id_fn, #[trigger] rem[i]) == id;
                assert(has_id(rem.take(rem.len() as int), id_fn, id)) by {
                    assert(rem.take(rem.len() as int)[i] == rem[i]);
                }
            }
        }
    }
    lemma_unique_ids_same_len(r, current, id_fn);
    assert forall|k: int| 0 <= k < r.len() implies current.contains(#[trigger] r[k]) by {
        assert(has_id(r, id_fn, id_of(id_fn, r[k])));
    }
    assert forall|i: int| 0 <= i < current.len() implies r.contains(#[trigger] current[i]) by {
        let c = id_of(id_fn, current[i]);
        assert(has_id(current, id_fn, c));
        let q = choose|q: int| 0 <= q < r.len() && id_of(id_fn, #[trigger] r[q]) == c;
        assert(current.contains(r[q]));
        let p = choose|p: int| 0 <= p < current.len() && current[p] == r[q];
        assert(p == i) by {
            if p < i {
                assert(id_of(id_fn, current[p]) != id_of(id_fn, current[i]));
            } else if p > i {
                assert(id_of(id_fn, current[i]) != id_of(id_fn, current[p]));
            }
        }
    }
}

/// Two lists with unique identifiers and the same identifiers have the same
/// length.
proof fn lemma_unique_ids_same_len<T, ID, F: Fn(&T) -> ID>(a: Seq<T>, b: Seq<T>, id_fn: F)
    requires
        unique_ids(a, id_fn),
        unique_ids(b, id_fn),
        forall|id: ID| has_id(a, id_fn, id) <==> has_id(b, id_fn, id),
    ensures
        a.len() == b.len(),
{
    let ia = a.map_values(|x: T| id_of(id_fn, x));
    let ib = b.map_values(|x: T| id_of(id_fn, x));
    assert(ia.no_duplicates()) by {
        assert forall|i: int, j: int|
            0 <= i < ia.len() && 0 <= j < ia.len() && i != j implies ia[i] != ia[j] by {
            if i < j {
                assert(id_of(id_fn, a[i]) != id_of(id_fn, a[j]));
            } else {
                assert(id_of(id_fn, a[j]) != id_of(id_fn, a[i]));
            }
        }
    }
    assert(ib.no_duplicates()) by {
        assert forall|i: int, j: int|
            0 <= i < ib.len() && 0 <= j < ib.len() && i != j implies ib[i] != ib[j] by {
            if i < j {
                assert(id_of(id_fn, b[i]) != id_of(id_fn, b[j]));
            } else {
                assert(id_of(id_fn, b[j]) != id_of(id_fn, b[i]));
            }
        }
    }
    assert(ia.to_set() =~= ib.to_set()) by {
        assert forall|id: ID| ia.contains(id) <==> ib.contains(id) by {
            if ia.contains(id) {
                let i = choose|i: int| 0 <= i < ia.len() && ia[i] == id;
                assert(has_id(a, id_fn, id));
                let j = choose|j: int| 0 <= j < b.len() && id_of(id_fn, #[trigger] b[j]) == id;
                assert(ib[j] == id);
            }
            if ib.contains(id) {
                let i = choose|i: int| 0 <= i < ib.len() && ib[i] == id;
                assert(has_id(b, id_fn, id));
                let j = choose|j: int| 0 <= j < a.len() && id_of(id_fn, #[trigger] a[j]) == id;
                assert(ia[j] == id);
            }
        }
    }
    ia.unique_seq_to_set();
    ib.unique_seq_to_set();
}

/// [`first_hit`] is the index that [`first_hit_at`] describes.
proof fn lemma_first_hit_is_at<T, ID: PartialEq, F: Fn(&T) -> ID>(s: Seq<T>, id_fn: F, id: ID)
    ensures
        first_hit_at(s, id_fn, id, first_hit(s, id_fn, id)),
    decreases s.len(),
{
    if s.len() > 0 && !hits(id_fn, s[0], id) {
        let t = s.drop_first();
        lemma_first_hit_is_at(t, id_fn, id);
        let k = first_hit(t, id_fn, id);
        assert forall|j: int| 0 <= j < k + 1 implies !hits(id_fn, #[trigger] s[j], id) by {
            if j > 0 {
                assert(s[j] == t[j - 1]);
            }
        }
        if k < t.len() {
            assert(s[k + 1] == t[k]);
        }
    }
}

/// Where identifiers are unique, removing the elements with identifier `d`
/// removes the one element at `k` that has it.
proof fn lemma_without_unique_id<T, ID: PartialEq, F: Fn(&T) -> ID>(
    s: Seq<T>,
    id_fn: F,
    d: ID,
    k: int,
)
    requires
        forall|x: T| #[trigger] hits(id_fn, x, d) <==> id_of(id_fn, x) == d,
        unique_ids(s, id_fn),
        0 <= k < s.len(),
        id_of(id_fn, s[k]) == d,
    ensures
        without_id(s, id_fn, d) == s.remove(k),
    decreases s.len(),
{
    let pred = |x: T| !hits(id_fn, x, d);
    let t = s.drop_last();
    reveal_with_fuel(Seq::filter, 1);
    assert(s.filter(pred) == if pred(s.last()) {
        t.filter(pred).push(s.last())
    } else {
        t.filter(pred)
    });
    assert(unique_ids(t, id_fn)) by {
        assert forall|i: int, j: int| 0 <= i < j < t.len() implies id_of(id_fn, #[trigger] t[i])
            != id_of(id_fn, #[trigger] t[j]) by {
            assert(t[i] == s[i] && t[j] == s[j]);
        }
    }
    if k == s.len() - 1 {
        assert forall|j: int| 0 <= j < t.len() implies pred(#[trigger] t[j]) by {
            assert(t[j] == s[j]);
            assert(id_of(id_fn, s[j]) != id_of(id_fn, s[k]));
        }
        lemma_filter_keeps_all(t, pred);
        assert(s.remove(k) =~= t);
    } else {
        assert(id_of(id_fn, s[k]) != id_of(id_fn, s[s.len() - 1]));
        assert(t[k] == s[k]);
        lemma_without_unique_id(t, id_fn, d, k);
        assert(s.remove(k) =~= t.remove(k).push(s.last()));
    }
}

/// What holds after the first `t` ops of the diff (those for the elements
/// of `current`) are applied.
spec fn diff_phase_one<T, ID: PartialEq, F: Fn(&T) -> ID>(
    current: Seq<T>,
    previous: Seq<T>,
    id_fn: F,
    t: int,
    l: Seq<T>,
) -> bool {
    let rem = unmatched(current.take(t), previous, id_fn);
    let taken = current.take(t);
    &&& unique_ids(rem, id_fn)
    &&& forall|x: ID| #[trigger]
        has_id(rem, id_fn, x) <==> has_id(previous, id_fn, x) && !has_id(taken, id_fn, x)
    &&& unique_ids(l, id_fn)
    &&& forall|x: ID| #[trigger]
        has_id(l, id_fn, x) <==> has_id(previous, id_fn, x) || has_id(taken, id_fn, x)
    &&& kept_or_current(l, rem, current, id_fn)
}

proof fn lemma_diff_first_phase<T: Patch<TPatch>, TPatch, ID: PartialEq, F: Fn(&T) -> ID>(
    current: Seq<T>,
    previous: Seq<T>,
    ops: Seq<ListPatchOp<T, TPatch, ID>>,
    id_fn: F,
    trace: Seq<Seq<T>>,
    t: int,
)
    requires
        ids_exact(id_fn),
        forall|x: T, id: ID| #[trigger] hits(id_fn, x, id) <==> id_of(id_fn, x) == id,
        unique_ids(previous, id_fn),
        unique_ids(current, id_fn),
        is_list_diff(ops, current, previous, id_fn),
        ops_trace(ops, id_fn, trace),
        trace[0] == previous,
        element_diff_rebuilds::<T, TPatch>(),
        0 <= t <= current.len(),
    ensures
        diff_phase_one(current, previous, id_fn, t, trace[t]),
    decreases t,
{
    if t == 0 {
        assert(current.take(0) =~= Seq::<T>::empty());
        assert forall|x: T| #![auto] !current.take(0).contains(x) by {}
        assert forall|q: int| 0 <= q < previous.len() implies previous.contains(
            #[trigger] previous[q],
        ) by {}
    } else {
        let i = t - 1;
        lemma_diff_first_phase(current, previous, ops, id_fn, trace, i);
        let taken = current.take(i);
        let taken2 = current.take(t);
        let rem = unmatched(taken, previous, id_fn);
        let rem2 = unmatched(taken2, previous, id_fn);
        let l = trace[i];
        let l2 = trace[t];
        let c = id_of(id_fn, current[i]);
        assert(taken2.drop_last() =~= taken);
        assert(taken2.last() == current[i]);
        assert(taken2 =~= taken.push(current[i]));
        assert forall|x: ID| #[trigger] has_id(taken2, id_fn, x) <==> has_id(taken, id_fn, x) || x == c by {
            if has_id(taken2, id_fn, x) {
                let j = choose|j: int| 0 <= j < taken2.len() && id_of(id_fn, #[trigger] taken2[j]) == x;
                if j < i {
                    assert(taken[j] == taken2[j]);
                }
            }
            if has_id(taken, id_fn, x) {
                let j = choose|j: int| 0 <= j < taken.len() && id_of(id_fn, #[trigger] taken[j]) == x;
                assert(taken2[j] == taken[j]);
            }
            if x == c {
                assert(taken2[i] == current[i]);
            }
        }
        assert(!has_id(taken, id_fn, c)) by {
            if has_id(taken, id_fn, c) {
                let j = choose|j: int| 0 <= j < taken.len() && id_of(id_fn, #[trigger] taken[j]) == c;
                assert(taken[j] == current[j]);
            }
        }
        let k = first_hit(rem, id_fn, c);
        lemma_first_hit_is_at(rem, id_fn, c);
        assert(is_matched(current, previous, id_fn, i) == (k < rem.len()));
        assert(op_result(ops[i], id_fn, l, l2));
        if k < rem.len() {
            // The element of `current` finds its match: `Modify`.
            assert(rem2 == rem.remove(k));
            assert(hits(id_fn, rem[k], c));
            assert(has_id(rem, id_fn, c));
            assert(has_id(previous, id_fn, c));
            assert(ops[i] is Modify && ops[i]->Modify_id == c);
            assert(unique_ids(rem2, id_fn)) by {
                assert forall|a: int, b: int| 0 <= a < b < rem2.len() implies id_of(
                    id_fn,
                    #[trigger] rem2[a],
                ) != id_of(id_fn, #[trigger] rem2[b]) by {
                    let a0 = if a < k { a } else { a + 1 };
                    let b0 = if b < k { b } else { b + 1 };
                    assert(rem2[a] == rem[a0] && rem2[b] == rem[b0]);
                }
            }
            assert forall|x: ID| #[trigger] has_id(rem2, id_fn, x) <==> has_id(rem, id_fn, x) && x != c by {
                if has_id(rem2, id_fn, x) {
                    let j = choose|j: int| 0 <= j < rem2.len() && id_of(id_fn, #[trigger] rem2[j]) == x;
                    let j0 = if j < k { j } else { j + 1 };
                    assert(rem2[j] == rem[j0]);
                    assert(id_of(id_fn, rem[j0]) != id_of(id_fn, rem[k]) || j0 == k);
                }
                if has_id(rem, id_fn, x) && x != c {
                    let j = choose|j: int| 0 <= j < rem.len() && id_of(id_fn, #[trigger] rem[j]) == x;
                    assert(j != k);
                    let j2 = if j < k { j } else { j - 1 };
                    assert(rem2[j2] == rem[j]);
                }
            }
            let w = choose|w: int|
                #[trigger] first_hit_at(l, id_fn, c, w) && (forall|j: int|
                    0 <= j < l.len() && j != w ==> l2[j] == l[j]) && (T::obeys_patch_spec() && w
                    < l.len() ==> l2[w] == l[w].patched_by(ops[i]->Modify_value));
            assert(l2.len() == l.len());
            // The element found is the one of `previous` that `current[i]` is
            // matched with, and the diff turns it into `current[i]`.
            assert(has_id(l, id_fn, c));
            assert(w < l.len()) by {
                if w == l.len() {
                    let j = choose|j: int| 0 <= j < l.len() && id_of(id_fn, #[trigger] l[j]) == c;
                    assert(hits(id_fn, l[j], c));
                }
            }
            assert(id_of(id_fn, l[w]) == c) by {
                assert(hits(id_fn, l[w], c));
            }
            assert(rem.contains(l[w]));
            let p = choose|p: int| 0 <= p < rem.len() && rem[p] == l[w];
            assert(p == k) by {
                if p != k {
                    assert(id_of(id_fn, rem[p]) == id_of(id_fn, rem[k]));
                }
            }
            assert(current.take(i).len() == i);
            assert(matched_with(current, previous, id_fn, i) == rem[k]);
            assert(call_ensures(T::into_patch_by_diff, (current[i], rem[k]), ops[i]->Modify_value));
            assert(l2[w] == current[i]);
            assert(forall|j: int| 0 <= j < l.len() ==> id_of(id_fn, #[trigger] l2[j]) == id_of(id_fn, l[j]));
            assert(unique_ids(l2, id_fn)) by {
                assert forall|a: int, b: int| 0 <= a < b < l2.len() implies id_of(id_fn, #[trigger] l2[a])
                    != id_of(id_fn, #[trigger] l2[b]) by {
                    assert(id_of(id_fn, l[a]) != id_of(id_fn, l[b]));
                }
            }
            assert forall|x: ID| #[trigger] has_id(l2, id_fn, x) <==> has_id(l, id_fn, x) by {
                if has_id(l2, id_fn, x) {
                    let j = choose|j: int| 0 <= j < l2.len() && id_of(id_fn, #[trigger] l2[j]) == x;
                    assert(id_of(id_fn, l[j]) == x);
                }
                if has_id(l, id_fn, x) {
                    let j = choose|j: int| 0 <= j < l.len() && id_of(id_fn, #[trigger] l[j]) == x;
                    assert(id_of(id_fn, l2[j]) == x);
                }
            }
            assert forall|q: int| 0 <= q < l2.len() implies if has_id(
                rem2,
                id_fn,
                id_of(id_fn, #[trigger] l2[q]),
            ) {
                rem2.contains(l2[q])
            } else {
                current.contains(l2[q])
            } by {
                if q == w {
                    assert(current[i] == l2[q]);
                } else {
                    assert(l2[q] == l[q]);
                    let x = id_of(id_fn, l[q]);
                    if q < w {
                        assert(id_of(id_fn, l[q]) != id_of(id_fn, l[w]));
                    } else {
                        assert(id_of(id_fn, l[w]) != id_of(id_fn, l[q]));
                    }
                    if has_id(rem, id_fn, x) {
                        assert(rem.contains(l[q]));
                        let p2 = choose|p2: int| 0 <= p2 < rem.len() && rem[p2] == l[q];
                        assert(p2 != k);
                        let p3 = if p2 < k { p2 } else { p2 - 1 };
                        assert(rem2[p3] == rem[p2]);
                    }
                }
            }
        } else {
            // The element of `current` is new: `Append`.
            assert(rem2 == rem);
            assert(!has_id(rem, id_fn, c)) by {
                if has_id(rem, id_fn, c) {
                    let j = choose|j: int| 0 <= j < rem.len() && id_of(id_fn, #[trigger] rem[j]) == c;
                    assert(hits(id_fn, rem[j], c));
                }
            }
            assert(!has_id(previous, id_fn, c));
            assert(ops[i] == (ListPatchOp::<T, TPatch, ID>::Append { value: current[i] }));
            assert(l2 == l.push(current[i]));
            assert(!has_id(l, id_fn, c));
            assert(unique_ids(l2, id_fn)) by {
                assert forall|a: int, b: int| 0 <= a < b < l2.len() implies id_of(id_fn, #[trigger] l2[a])
                    != id_of(id_fn, #[trigger] l2[b]) by {
                    if b == l.len() {
                        assert(l2[a] == l[a]);
                        if id_of(id_fn, l[a]) == c {
                            assert(has_id(l, id_fn, c));
                        }
                    } else {
                        assert(l2[a] == l[a] && l2[b] == l[b]);
                    }
                }
            }
            assert forall|x: ID| #[trigger] has_id(l2, id_fn, x) <==> has_id(l, id_fn, x) || x == c by {
                if has_id(l2, id_fn, x) {
                    let j = choose|j: int| 0 <= j < l2.len() && id_of(id_fn, #[trigger] l2[j]) == x;
                    if j < l.len() {
                        assert(l2[j] == l[j]);
                    }
                }
                if has_id(l, id_fn, x) {
                    let j = choose|j: int| 0 <= j < l.len() && id_of(id_fn, #[trigger] l[j]) == x;
                    assert(l2[j] == l[j]);
                }
                if x == c {
                    assert(l2[l.len() as int] == current[i]);
                }
            }
            assert forall|q: int| 0 <= q < l2.len() implies if has_id(
                rem2,
                id_fn,
                id_of(id_fn, #[trigger] l2[q]),
            ) {
                rem2.contains(l2[q])
            } else {
                current.contains(l2[q])
            } by {
                if q < l.len() {
                    assert(l2[q] == l[q]);
                } else {
                    assert(current[i] == l2[q]);
                }
            }
        }
    }
}

/// What holds after the `Delete`s of the first `j` unmatched elements of
/// `previous`, which follow the ops for the elements of `current`.
spec fn diff_phase_two<T, ID: PartialEq, F: Fn(&T) -> ID>(
    current: Seq<T>,
    previous: Seq<T>,
    id_fn: F,
    j: int,
    l: Seq<T>,
) -> bool {
    let rem = unmatched(current, previous, id_fn);
    &&& unique_ids(l, id_fn)
    &&& forall|x: ID| #[trigger]
        has_id(l, id_fn, x) <==> (has_id(previous, id_fn, x) || has_id(current, id_fn, x))
            && !has_id(rem.take(j), id_fn, x)
    &&& kept_or_current(l, rem, current, id_fn)
}

proof fn lemma_diff_second_phase<T: Patch<TPatch>, TPatch, ID: PartialEq, F: Fn(&T) -> ID>(
    current: Seq<T>,
    previous: Seq<T>,
    ops: Seq<ListPatchOp<T, TPatch, ID>>,
    id_fn: F,
    trace: Seq<Seq<T>>,
    j: int,
)
    requires
        ids_exact(id_fn),
        forall|x: T, id: ID| #[trigger] hits(id_fn, x, id) <==> id_of(id_fn, x) == id,
        unique_ids(previous, id_fn),
        unique_ids(current, id_fn),
        is_list_diff(ops, current, previous, id_fn),
        ops_trace(ops, id_fn, trace),
        trace[0] == previous,
        element_diff_rebuilds::<T, TPatch>(),
        0 <= j <= unmatched(current, previous, id_fn).len(),
    ensures
        diff_phase_two(current, previous, id_fn, j, trace[current.len() + j]),
    decreases j,
{
    let n = current.len() as int;
    let rem = unmatched(current, previous, id_fn);
    lemma_diff_first_phase(current, previous, ops, id_fn, trace, n);
    assert(current.take(n) =~= current);
    if j == 0 {
        assert(rem.take(0) =~= Seq::<T>::empty());
    } else {
        let i = j - 1;
        lemma_diff_second_phase(current, previous, ops, id_fn, trace, i);
        let l = trace[n + i];
        let l2 = trace[n + j];
        let d = id_of(id_fn, rem[i]);
        assert(ops[n + i] == (ListPatchOp::<T, TPatch, ID>::Delete { id: d }));
        assert(op_result(ops[n + i], id_fn, l, l2));
        assert(l2 == without_id(l, id_fn, d));
        assert(has_id(rem, id_fn, d));
        assert(rem.take(j) =~= rem.take(i).push(rem[i]));
        assert forall|x: ID| #[trigger] has_id(rem.take(j), id_fn, x) <==> has_id(rem.take(i), id_fn, x) || x == d by {
            let tj = rem.take(j);
            let ti = rem.take(i);
            if has_id(tj, id_fn, x) {
                let q = choose|q: int| 0 <= q < tj.len() && id_of(id_fn, #[trigger] tj[q]) == x;
                if q < i {
                    assert(ti[q] == tj[q]);
                }
            }
            if has_id(ti, id_fn, x) {
                let q = choose|q: int| 0 <= q < ti.len() && id_of(id_fn, #[trigger] ti[q]) == x;
                assert(tj[q] == ti[q]);
            }
            if x == d {
                assert(tj[i] == rem[i]);
            }
        }
        assert(!has_id(rem.take(i), id_fn, d)) by {
            if has_id(rem.take(i), id_fn, d) {
                let q = choose|q: int| 0 <= q < i && id_of(id_fn, #[trigger] rem.take(i)[q]) == d;
                assert(rem.take(i)[q] == rem[q]);
            }
        }
        assert(has_id(l, id_fn, d));
        let kk = choose|kk: int| 0 <= kk < l.len() && id_of(id_fn, #[trigger] l[kk]) == d;
        lemma_without_unique_id(l, id_fn, d, kk);
        assert(l2 == l.remove(kk));
        assert(unique_ids(l2, id_fn)) by {
            assert forall|a: int, b: int| 0 <= a < b < l2.len() implies id_of(id_fn, #[trigger] l2[a])
                != id_of(id_fn, #[trigger] l2[b]) by {
                let a0 = if a < kk { a } else { a + 1 };
                let b0 = if b < kk { b } else { b + 1 };
                assert(l2[a] == l[a0] && l2[b] == l[b0]);
            }
        }
        assert forall|x: ID| #[trigger] has_id(l2, id_fn, x) <==> has_id(l, id_fn, x) && x != d by {
            if has_id(l2, id_fn, x) {
                let q = choose|q: int| 0 <= q < l2.len() && id_of(id_fn, #[trigger] l2[q]) == x;
                let q0 = if q < kk { q } else { q + 1 };
                assert(l2[q] == l[q0]);
                assert(id_of(id_fn, l[q0]) != id_of(id_fn, l[kk]) || q0 == kk);
            }
            if has_id(l, id_fn, x) && x != d {
                let q = choose|q: int| 0 <= q < l.len() && id_of(id_fn, #[trigger] l[q]) == x;
                assert(q != kk);
                let q2 = if q < kk { q } else { q - 1 };
                assert(l2[q2] == l[q]);
            }
        }
        assert forall|q: int| 0 <= q < l2.len() implies if has_id(
            rem,
            id_fn,
            id_of(id_fn, #[trigger] l2[q]),
        ) {
            rem.contains(l2[q])
        } else {
            current.contains(l2[q])
        } by {
            let q0 = if q < kk { q } else { q + 1 };
            assert(l2[q] == l[q0]);
        }
    }
}

} // verus!
