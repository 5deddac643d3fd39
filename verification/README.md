# bubble

Bubbling error variants up through nested error enums, verified with Verus.

Where an enum `Top` has a variant `A(Bubble<A>)` and another `Sub(#[bubble(from)] Sub)`,
converting a `Sub` whose source chain holds an `A` gives `Top::A`, not `Top::Sub`.
Where an earlier variant of `Top` holds a type `N` and the `Sub` value holds an
atomic `N` at the end of its variants, the conversion gives that variant, with
the `N` in it; where the type of that variant has a `BuildFrom` of its own
from the converted type, the conversion goes through it
(`Conversion::with_builder`). Variants without fields get no impls.

Error values are modelled as plain data (`ErrorValue`: a type name, and for an
enum variant, what it holds and whether that is its source), so that the rules
can be proved. A type is named by its path as it is written in the enum
(`std::io::Error`, `Wrapper<A, Bubble<B>>`); the derive sees tokens only, so
two paths to one type (`io::Error`, `std::io::Error`) get two names:

- `src/value.rs`: error values, source chains, `SourceIter`.
- `src/bubble.rs`: `Bubble`, which wraps an error whose source chain holds an
  error of a given type and finds that error again.
- `src/cast.rs`: `CastInto` and `AtomicError`, squashing a nested value to its
  atomic error.
- `src/dispatch.rs`: `BuildFrom`, `Marker` and `SBuildFrom`.
- `src/derive.rs`: what the `Bubble` derive reads of an enum, and the impls it
  plans for each variant (`BubbleInput::reconstruct`).
- `src/conversion.rs`: what those impls do (`Conversion::build_from`, `from`).
- `app/lib.rs`: the derive itself, reading the enum with darling and syn and
  writing the planned impls with quote.
- `app/runtime.rs`: what the written code runs on for real errors: a generic
  `Bubble<T>` that walks a `dyn Error` source chain and lets `first_match`
  pick the error, `CastInto` by `TypeId`, the `AtomicError` marker trait
  (`impl AtomicError for MyLeafError {}`), and `Marker`.
