use vstd::prelude::*;

use crate::value::{ErrorValue, Leaf};

verus! {

/// An error that is not composed of other errors: casting it gives it back.
pub trait AtomicError: CastInto {}

impl AtomicError for Leaf {}

/// Extracts the atomic error at the end of a nest of enum variants.
pub trait CastInto: Sized {
    /// The atomic error that the value holds at the end of its variants, if
    /// it holds one.
    spec fn cast_leaf(&self) -> Option<ErrorValue>;

    /// Whether the atomic error that the value holds has type `ty`.
    fn has_ty(&self, ty: &String) -> (r: bool)
        ensures
            r == (self.cast_leaf() matches Some(l) && l.ty_name() == ty@),
    ;

    /// Whether the atomic error that the value holds has type `ty`.
    fn has(&self, ty: &String) -> (r: bool)
        ensures
            r == (self.cast_leaf() matches Some(l) && l.ty_name() == ty@),
    {
        self.has_ty(ty)
    }

    /// The atomic error that the value holds.
    fn cast_into(self) -> (r: ErrorValue)
        requires
            self.cast_leaf() is Some,
        ensures
            Some(r) == self.cast_leaf(),
    ;

    /// The atomic error that the value holds, which has type `ty`: owed
    /// exactly where `has(ty)` answers `true`, and only there.
    fn cast(self, ty: &String) -> (r: ErrorValue)
        requires
            self.cast_leaf() matches Some(l) && l.ty_name() == ty@,
        ensures
            Some(r) == self.cast_leaf(),
    {
        self.cast_into()
    }
}

/// An atomic error casts to itself.
impl CastInto for Leaf {
    open spec fn cast_leaf(&self) -> Option<ErrorValue> {
        Some(ErrorValue::Atomic(*self))
    }

    fn has_ty(&self, ty: &String) -> (r: bool) {
        self.ty == *ty
    }

    fn cast_into(self) -> (r: ErrorValue) {
        ErrorValue::Atomic(self)
    }
}

impl ErrorValue {
    /// The atomic error at the end of the value's variants; a value that
    /// holds a bubble, or a variant without fields, has none.
    pub open spec fn leaf(self) -> Option<ErrorValue>
        decreases self,
    {
        match self {
            ErrorValue::Atomic(_) => Some(self),
            ErrorValue::Variant { field, .. } => (*field).leaf(),
            ErrorValue::Bubbled { .. } => None,
            ErrorValue::Unit { .. } => None,
        }
    }
}

impl CastInto for ErrorValue {
    open spec fn cast_leaf(&self) -> Option<ErrorValue> {
        self.leaf()
    }

    fn has_ty(&self, ty: &String) -> (r: bool)
        decreases self,
    {
        match self {
            ErrorValue::Atomic(leaf) => leaf.has_ty(ty),
            ErrorValue::Variant { field, .. } => (**field).has_ty(ty),
            ErrorValue::Bubbled { .. } => false,
            ErrorValue::Unit { .. } => false,
        }
    }

    fn cast_into(self) -> (r: ErrorValue)
        decreases self,
    {
        match self {
            ErrorValue::Variant { field, .. } => (*field).cast_into(),
            other => other,
        }
    }

}

/// Casting squashes a value to the atomic error at the end of its variants:
/// whatever a value holds, and however deep, what it casts to is atomic.
pub proof fn lemma_leaf_is_atomic(e: ErrorValue)
    ensures
        e.leaf() matches Some(l) ==> l is Atomic,
    decreases e,
{
    match e {
        ErrorValue::Variant { field, .. } => lemma_leaf_is_atomic(*field),
        _ => {},
    }
}

/// Wrapping a value in one more enum variant does not change what it casts
/// to, whether or not the variant takes it as its source.
pub proof fn lemma_wrap_keeps_leaf(ty: String, variant: String, field: ErrorValue, is_source: bool)
    ensures
        (ErrorValue::Variant { ty, variant, field: Box::new(field), is_source }).leaf()
            == field.leaf(),
{
}

} // verus!
