// Scenarios on nested error enums, as error values.
//
// An enum becomes a derive input, and its values error values: a value
// `Top::Middle(Middle::Bottom(Bottom::A(A)))` is a chain of variants ending in
// the atomic error `A`; `?` goes through the `From` impl that the derive writes.

use bubble::{
    Bubble, BubbleField, BubbleInput, BubbleVariant, CastInto, Conversion, ErrorValue,
    ForwardedAttr, GenericArgument, InputData, Leaf, Marker, PathArguments, PathSegment,
    SBuildFrom, SourceIter, TypeExpr,
};

pub fn atomic(ty: &str) -> ErrorValue {
    ErrorValue::Atomic(Leaf { ty: ty.to_string() })
}

pub fn variant(ty: &str, name: &str, field: ErrorValue, is_source: bool) -> ErrorValue {
    ErrorValue::Variant {
        ty: ty.to_string(),
        variant: name.to_string(),
        field: Box::new(field),
        is_source,
    }
}

pub fn path(name: &str) -> TypeExpr {
    TypeExpr::Path(vec![PathSegment { ident: name.to_string(), arguments: PathArguments::Empty }])
}

pub fn bubble_of(name: &str) -> TypeExpr {
    TypeExpr::Path(vec![PathSegment {
        ident: "Bubble".to_string(),
        arguments: PathArguments::AngleBracketed(vec![GenericArgument::Type(path(name))]),
    }])
}

pub fn field(ty: TypeExpr, from: bool, bubble: bool, attrs: Vec<ForwardedAttr>) -> BubbleField {
    BubbleField { ty, from, bubble, attrs }
}

pub fn enum_input(ident: &str, variants: Vec<(&str, Vec<BubbleField>)>) -> BubbleInput {
    BubbleInput {
        ident: ident.to_string(),
        data: InputData::Enum(
            variants
                .into_iter()
                .map(|(name, fields)| BubbleVariant { ident: name.to_string(), fields })
                .collect(),
        ),
    }
}

/// The conversion that the derive writes for the variant at `index`.
pub fn conversion_of(input: &BubbleInput, index: usize) -> Conversion {
    let impls = input.reconstruct().unwrap();
    input.conversion(impls[index].as_ref().unwrap())
}

// ---- hand-written BuildFrom impls over markers

// `Top { A(A), Middle(Middle) }`, `Middle { Bottom(Bottom) }`,
// `Bottom { A(A), B(B) }`: enums without sources, cast through CastInto.

fn top_build_from_a(from: ErrorValue) -> Result<ErrorValue, ErrorValue> {
    Ok(variant("Top", "A", from, false))
}

fn top_build_from_middle(from: ErrorValue) -> Result<ErrorValue, ErrorValue> {
    // For `Marker<Middle, A>` method resolution picks the cast impl, on
    // `&mut &Marker`; for `Marker<Middle, Middle>` the `BuildFrom` impl, on
    // `&mut &mut &Marker`. Both are named here directly, since both types are
    // `ErrorValue`.
    Err(from)
        .or_else(|from| {
            (&mut &Marker::<ErrorValue, ErrorValue>::new("A".to_string()))
                .sbuild_from(from)
                .map(|a| variant("Top", "A", a, false))
        })
        .or_else(|from| {
            (&mut &mut &Marker::<ErrorValue, ErrorValue>::new("Middle".to_string()))
                .sbuild_from(from)
                .map(|m| variant("Top", "Middle", m, false))
        })
}

fn middle_bottom(bottom: ErrorValue) -> ErrorValue {
    variant("Middle", "Bottom", bottom, false)
}

#[test]
fn test_build_from() {
    let top = top_build_from_a(atomic("A")).unwrap();
    assert_eq!(top, variant("Top", "A", atomic("A"), false));

    let top = top_build_from_middle(middle_bottom(variant("Bottom", "A", atomic("A"), false)))
        .unwrap();
    assert_eq!(top, variant("Top", "A", atomic("A"), false));

    let top = top_build_from_middle(middle_bottom(variant("Bottom", "B", atomic("B"), false)))
        .unwrap();
    assert_eq!(
        top,
        variant("Top", "Middle", middle_bottom(variant("Bottom", "B", atomic("B"), false)), false)
    );
}

// ---- casting nested enum values

#[test]
fn cast_into_test_top() {
    let a_ty = "A".to_string();
    let top = variant("Top", "A", atomic("A"), false);
    let a = top.cast(&a_ty);
    assert_eq!(a, atomic("A"));

    let top = variant(
        "Top",
        "Middle",
        middle_bottom(variant("Bottom", "A", atomic("A"), false)),
        false,
    );
    let a = top.cast(&a_ty);
    assert_eq!(a, atomic("A"));
}

// ---- Bubble over `#[source]` chains

// `Top { A(Bubble<A>), Middle(#[source] Middle) }`, `Middle { Bottom(#[from] Bottom) }`,
// `Bottom { A(#[from] A), B(B) }`.

fn print_error(error: &ErrorValue) {
    let mut sources = SourceIter::new(error);
    let Some(source) = sources.next() else {
        return;
    };
    println!("ERROR: {}", describe(source));
    while let Some(source) = sources.next() {
        println!("  CAUSED BY: {}", describe(source));
    }
}

fn describe(error: &ErrorValue) -> String {
    match error {
        ErrorValue::Atomic(leaf) => leaf.ty.clone(),
        ErrorValue::Variant { ty, variant, .. } | ErrorValue::Bubbled { ty, variant, .. } => {
            format!("{}::{}", ty, variant)
        }
        ErrorValue::Unit { ty, variant } => format!("{}::{}", ty, variant),
    }
}

fn strukt_bottom_a() -> ErrorValue {
    variant("Bottom", "A", atomic("A"), true)
}

fn strukt_top_middle() -> ErrorValue {
    variant("Top", "Middle", variant("Middle", "Bottom", strukt_bottom_a(), true), true)
}

#[test]
fn strukt_test_top() {
    let a = Bubble::build("A".to_string(), atomic("A")).unwrap();
    let a = a.downcast_ref();
    print_error(a);
    assert_eq!(*a, atomic("A"));

    let a = Bubble::build("A".to_string(), strukt_bottom_a()).unwrap();
    let a = a.downcast_ref();
    print_error(a);
    assert_eq!(*a, atomic("A"));

    let a = Bubble::build("A".to_string(), strukt_top_middle()).unwrap();
    let a = a.downcast_ref();
    print_error(a);
    assert_eq!(*a, atomic("A"));

    let a = Bubble::build("A".to_string(), strukt_top_middle()).unwrap();
    print_error(a.full_error());
    assert_eq!(*a.full_error(), strukt_top_middle());
}

// ---- the derive on `Top`, `Intermediate` and `Bottom`

// enum Top {
//     B(#[source] #[bubble(from)] Bottom),
//     C(#[from] C),
//     Intermediate(#[source] #[bubble(from)] Intermediate),
//     A(#[bubble(bubble)] Bubble<A>),
// }
fn top_input() -> BubbleInput {
    enum_input(
        "Top",
        vec![
            ("B", vec![field(path("Bottom"), true, false, vec![ForwardedAttr::Source])]),
            ("C", vec![field(path("C"), false, false, vec![ForwardedAttr::From])]),
            (
                "Intermediate",
                vec![field(path("Intermediate"), true, false, vec![ForwardedAttr::Source])],
            ),
            ("A", vec![field(bubble_of("A"), false, true, vec![])]),
        ],
    )
}

// enum Intermediate { Bottom(#[source] #[bubble(from)] Bottom) }
fn intermediate_input() -> BubbleInput {
    enum_input(
        "Intermediate",
        vec![("Bottom", vec![field(path("Bottom"), true, false, vec![ForwardedAttr::Source])])],
    )
}

// enum Bottom { A(#[from] A), B(#[from] B) }
fn bottom_input() -> BubbleInput {
    enum_input(
        "Bottom",
        vec![
            ("A", vec![field(path("A"), false, false, vec![ForwardedAttr::From])]),
            ("B", vec![field(path("B"), false, false, vec![ForwardedAttr::From])]),
        ],
    )
}

// `#[from]` makes the `From` impl thiserror's, which wraps the value as the
// generated `build_from` does for an enum without bubble variants.
fn bottom_a() -> Result<(), ErrorValue> {
    Err(conversion_of(&bottom_input(), 0).build_from(atomic("A")).unwrap())
}

fn bottom_b() -> Result<(), ErrorValue> {
    Err(conversion_of(&bottom_input(), 1).build_from(atomic("B")).unwrap())
}

fn top_inner_a() -> Result<(), ErrorValue> {
    bottom_a().map_err(|e| conversion_of(&top_input(), 0).from(e))?;
    Ok(())
}

fn top_outer_a() -> Result<(), ErrorValue> {
    Err(conversion_of(&top_input(), 3).from(atomic("A")))
}

fn top_b() -> Result<(), ErrorValue> {
    bottom_b().map_err(|e| conversion_of(&top_input(), 0).from(e))?;
    Ok(())
}

// `C(#[from] C)`: thiserror's `From`, which wraps as the generated
// `BuildFrom<C>` does here.
fn top_c() -> Result<(), ErrorValue> {
    Err(conversion_of(&top_input(), 1).build_from(atomic("C")).unwrap())
}

fn top_intermediate() -> Result<(), ErrorValue> {
    intermediate().map_err(|e| conversion_of(&top_input(), 2).from(e))?;
    Ok(())
}

fn intermediate() -> Result<(), ErrorValue> {
    bottom_a().map_err(|e| conversion_of(&intermediate_input(), 0).from(e))?;
    Ok(())
}

fn is_variant(e: &ErrorValue, ty: &str, name: &str) -> bool {
    match e {
        ErrorValue::Variant { ty: t, variant, .. }
        | ErrorValue::Bubbled { ty: t, variant, .. }
        | ErrorValue::Unit { ty: t, variant } => t == ty && variant == name,
        ErrorValue::Atomic(_) => false,
    }
}

#[test]
fn test_inner_a() {
    let res = top_inner_a().unwrap_err();
    assert!(matches!(&res, ErrorValue::Bubbled { variant, .. } if variant == "A"));
}

#[test]
fn test_b() {
    let res = top_b().unwrap_err();
    assert!(matches!(&res, ErrorValue::Variant { variant, field, .. }
        if variant == "B" && is_variant(field, "Bottom", "B")));
}

#[test]
fn test_c() {
    let res = top_c().unwrap_err();
    assert!(matches!(&res, ErrorValue::Variant { variant, .. } if variant == "C"));
}

#[test]
fn test_outer_a() {
    let res = top_outer_a().unwrap_err();
    assert!(matches!(&res, ErrorValue::Bubbled { variant, .. } if variant == "A"));
}

#[test]
fn test_intermediate() {
    let res = top_intermediate().unwrap_err();
    println!("{:?}", &res);
    assert!(matches!(&res, ErrorValue::Bubbled { variant, .. } if variant == "A"));
}
