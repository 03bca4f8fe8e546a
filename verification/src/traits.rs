use vstd::prelude::*;

verus! {

/// A struct that a patch of type `P` can be applied to.
///
/// `apply` replaces the fields that the patch sets and leaves the others
/// unchanged; `into_patch` gives a patch that turns any struct of the same
/// type into `self`; `into_patch_by_diff` gives a patch that turns
/// `previous_struct` into `self`; `new_empty_patch` gives a patch that
/// changes nothing.
///
/// The contracts of `apply` and `into_patch` speak of spec functions that
/// each impl may define ([`Patch::patched_by`], [`Patch::full_patch`]) and
/// hold where the impl says it follows them ([`Patch::obeys_patch_spec`]);
/// an impl that does not is held to nothing. The default
/// `into_patch_by_diff` gives what `into_patch` gives, for every impl.
pub trait Patch<P>: Sized {
    /// Whether this type's `apply` and `into_patch` follow [`Patch::patched_by`]
    /// and [`Patch::full_patch`]. An impl that gives those two their meaning
    /// says so here; where it does not, nothing is claimed of its methods.
    open spec fn obeys_patch_spec() -> bool {
        false
    }

    /// The struct that applying `patch` onto `self` makes, as this type's
    /// `apply` makes it (meaningful where [`Patch::obeys_patch_spec`] holds).
    open spec fn patched_by(self, patch: P) -> Self {
        arbitrary()
    }

    /// The patch that this type's `into_patch` makes of `self` (meaningful
    /// where [`Patch::obeys_patch_spec`] holds).
    open spec fn full_patch(self) -> P {
        arbitrary()
    }

    /// Apply a patch
    fn apply(&mut self, patch: P)
        ensures
            Self::obeys_patch_spec() ==> *final(self) == old(self).patched_by(patch),
    ;

    /// Returns a patch that when applied turns any struct of the same type into `Self`
    fn into_patch(self) -> (patch: P)
        ensures
            Self::obeys_patch_spec() ==> patch == self.full_patch(),
            Self::obeys_patch_spec() ==> forall|other: Self| #[trigger] other.patched_by(patch) == self,
    ;

    /// Returns a patch that when applied turns `previous_struct` into `Self`.
    ///
    /// Types that cannot compare their fields keep this default, which
    /// falls back to a full patch.
    fn into_patch_by_diff(self, previous_struct: Self) -> (patch: P)
        where Self: Sized,
        ensures
            Self::obeys_patch_spec() ==> previous_struct.patched_by(patch) == self,
        default_ensures
            Self::obeys_patch_spec() ==> patch == self.full_patch(),
            call_ensures(Self::into_patch, (self,), patch),
    {
        let _ = previous_struct;
        self.into_patch()
    }

    /// Get an empty patch instance
    fn new_empty_patch() -> (patch: P)
        ensures
            Self::obeys_patch_spec() ==> forall|value: Self| #[trigger] value.patched_by(patch) == value,
    ;
}

/// A struct whose empty fields a filler of type `F` can fill.
pub trait Filler<F> {
    /// Apply a filler
    fn apply(&mut self, filler: F);

    /// Get an empty filler instance
    fn new_empty_filler() -> F;
}

/// A patch struct with extra status information
pub trait Status {
    /// Returns `true` if all fields are `None`, `false` otherwise.
    fn is_empty(&self) -> bool;
}

/// A patch struct that can be merged to another one
pub trait Merge {
    fn merge(self, other: Self) -> Self;
}

/// A substrate struct that can expose the fields information thereof
pub trait Substrate {
    fn expose_content() -> &'static str;

    /// Expose the field information, by call this function in Build.rs
    fn expose();
}

/// A catalyst struct that can expose the fields information thereof
pub trait Catalyst<S, Cpx> {
    /// catalyst bind on substrate and generate complex
    fn bind(self, substrate: S) -> Cpx;
}

/// A complex struct that can decouple return catalyst and substrate
pub trait Complex<Cat, S> {
    /// complex decouple to catalyst and substrate
    fn decouple(self) -> (Cat, S);
}

} // verus!
