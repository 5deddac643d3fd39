//! Bubbling error variants up through nested error enums.
//!
//! An error value is modelled by [`ErrorValue`]: the name of its type, and,
//! for a variant of an error enum, the variant and what it holds. The source
//! chain of a value is the value, its source, the source of that, and so on.
//!
//! * [`Bubble`] wraps an error whose source chain holds an error of a given
//!   type, and finds that error again.
//! * [`CastInto`] squashes a nested enum value to the atomic error at its end.
//! * [`BuildFrom`] and [`SBuildFrom`] build one error from another, or hand
//!   the input back unchanged so that the next way can be tried.
//! * [`first_match`] picks the first error of a type in a source chain, for
//!   bubbles over real errors.
//! * [`BubbleInput::reconstruct`] plans the impls that the `Bubble` derive
//!   writes for an error enum, and [`Conversion`] runs one of them.

pub mod value;
pub mod bubble;
pub mod cast;
pub mod dispatch;
pub mod derive;
pub mod conversion;

pub use bubble::Bubble;
pub use cast::{AtomicError, CastInto};
pub use conversion::{Branch, CastBranch, Conversion, LastStep};
pub use derive::{
    BubbleBranch, BubbleField, BubbleInput, BubbleVariant, BuildFromImpl, DeriveError,
    FinalStep, ForwardedAttr, GenericArgument, InputData, MarkerBranch, PathArguments, PathSegment,
    TypeExpr,
    TypeRef, VariantImpls,
};
pub use dispatch::{BuildFrom, Marker, SBuildFrom};
pub use value::{first_match, ErrorValue, Leaf, SourceIter};
