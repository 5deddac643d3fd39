use vstd::prelude::*;

use std::marker::PhantomData;

use crate::cast::CastInto;
use crate::value::ErrorValue;

verus! {

/// Builds a value from another, or hands the other back unchanged so that
/// another way can be tried.
pub trait BuildFrom<Src>: Sized {
    /// What `build_from(from)` gives.
    spec fn spec_build_from(from: Src) -> Result<Self, Src>;

    fn build_from(from: Src) -> (r: Result<Self, Src>)
        ensures
            r == Self::spec_build_from(from),
            r matches Err(e) ==> e == from,
    ;
}

/// Every value builds itself.
impl<T> BuildFrom<T> for T {
    open spec fn spec_build_from(from: T) -> Result<T, T> {
        Ok(from)
    }

    fn build_from(from: T) -> (r: Result<T, T>)
        ensures
            r == Ok::<T, T>(from),
    {
        Ok(from)
    }
}

/// Chooses, through method resolution on `&Marker`, `&mut &Marker` and
/// `&mut &mut &Marker`, how a `Src` is turned into a `Dst`: by
/// [`BuildFrom`] where `Dst` has it, else by casting a `Src` that has
/// [`CastInto`] to the atomic error of type `target`, else not at all.
pub struct Marker<Src, Dst> {
    pub target: String,
    pub types: PhantomData<(Src, Dst)>,
}

impl<Src, Dst> Marker<Src, Dst> {
    /// A marker for turning a `Src` into a `Dst`, whose casts look for the
    /// atomic error of type `target`.
    pub fn new(target: String) -> (r: Marker<Src, Dst>)
        ensures
            r.target == target,
    {
        Marker { target, types: PhantomData }
    }
}

/// Turns a `Src` into a `Dst`, or hands it back unchanged.
pub trait SBuildFrom<Src, Dst> {
    fn sbuild_from(&self, from: Src) -> (r: Result<Dst, Src>)
        ensures
            r matches Err(e) ==> e == from,
    ;
}

/// The last resort: no way to turn a `Src` into a `Dst`.
impl<'a, Src, Dst> SBuildFrom<Src, Dst> for &'a Marker<Src, Dst> {
    fn sbuild_from(&self, from: Src) -> (r: Result<Dst, Src>)
        ensures
            r == Err::<Dst, Src>(from),
    {
        Err(from)
    }
}

/// Casts `from` to the atomic error it holds, where that has type `target`.
impl<'a, 'b, Src: CastInto> SBuildFrom<Src, ErrorValue> for &'b mut &'a Marker<Src, ErrorValue> {
    fn sbuild_from(&self, from: Src) -> (r: Result<ErrorValue, Src>)
        ensures
            r == if from.cast_leaf() matches Some(l) && l.ty_name() == old(*self).target@ {
                Ok::<ErrorValue, Src>(from.cast_leaf()->0)
            } else {
                Err::<ErrorValue, Src>(from)
            },
    {
        if from.has(&self.target) {
            Ok(from.cast(&self.target))
        } else {
            Err(from)
        }
    }
}

/// Builds a `Dst` by its [`BuildFrom`].
impl<'a, 'b, 'c, Src, Dst: BuildFrom<Src>> SBuildFrom<Src, Dst> for &'c mut &'b mut &'a Marker<
    Src,
    Dst,
> {
    fn sbuild_from(&self, from: Src) -> (r: Result<Dst, Src>)
        ensures
            r == Dst::spec_build_from(from),
    {
        Dst::build_from(from)
    }
}

} // verus!
