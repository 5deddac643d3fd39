// Tests of the library's functions and laws on concrete values.

use bubble::{
    Bubble, BubbleBranch, BubbleField, BubbleInput, BubbleVariant, BuildFrom, CastInto,
    Conversion, DeriveError, FinalStep, ForwardedAttr, GenericArgument, InputData, LastStep,
    Leaf, Marker, PathArguments, PathSegment, SBuildFrom, SourceIter, TypeExpr, TypeRef,
    ErrorValue, first_match, MarkerBranch, CastBranch,
};

pub fn atomic(ty: &str) -> ErrorValue {
    ErrorValue::Atomic(Leaf { ty: ty.to_string() })
}

pub fn variant(ty: &str, name: &str, field: ErrorValue, is_source: bool) -> ErrorValue {
    ErrorValue::Variant {
        ty: ty.to_string(),
        variant: name.to_string(),
        field: Box::new(field),
        is_source,
    }
}

pub fn path(name: &str) -> TypeExpr {
    TypeExpr::Path(vec![PathSegment { ident: name.to_string(), arguments: PathArguments::Empty }])
}

pub fn bubble_of(name: &str) -> TypeExpr {
    TypeExpr::Path(vec![PathSegment {
        ident: "Bubble".to_string(),
        arguments: PathArguments::AngleBracketed(vec![GenericArgument::Type(path(name))]),
    }])
}

pub fn field(ty: TypeExpr, from: bool, bubble: bool, attrs: Vec<ForwardedAttr>) -> BubbleField {
    BubbleField { ty, from, bubble, attrs }
}

pub fn enum_input(ident: &str, variants: Vec<(&str, Vec<BubbleField>)>) -> BubbleInput {
    BubbleInput {
        ident: ident.to_string(),
        data: InputData::Enum(
            variants
                .into_iter()
                .map(|(name, fields)| BubbleVariant { ident: name.to_string(), fields })
                .collect(),
        ),
    }
}

/// The conversion that the derive writes for the variant at `index`.
pub fn conversion_of(input: &BubbleInput, index: usize) -> Conversion {
    let impls = input.reconstruct().unwrap();
    input.conversion(impls[index].as_ref().unwrap())
}

fn names_in_chain(e: &ErrorValue) -> Vec<String> {
    let mut names = Vec::new();
    let mut iter = SourceIter::new(e);
    while let Some(x) = iter.next() {
        names.push(match x {
            ErrorValue::Atomic(leaf) => leaf.ty.clone(),
            ErrorValue::Variant { ty, .. }
            | ErrorValue::Bubbled { ty, .. }
            | ErrorValue::Unit { ty, .. } => ty.clone(),
        });
    }
    names
}

// Top::Middle(Middle::Bottom(Bottom::A(A))), every field a source.
fn deep_a() -> ErrorValue {
    variant("Top", "Middle", variant("Middle", "Bottom", variant("Bottom", "A", atomic("A"), true), true), true)
}

// ---- source chains

#[test]
fn source_iter_walks_the_chain() {
    assert_eq!(names_in_chain(&deep_a()), vec!["Top", "Middle", "Bottom", "A"]);
    // a field that is not a source ends the chain
    let e = variant("Bottom", "B", atomic("B"), false);
    assert_eq!(names_in_chain(&e), vec!["Bottom"]);
    assert_eq!(names_in_chain(&atomic("A")), vec!["A"]);
}

#[test]
fn source_and_is() {
    let e = variant("Bottom", "A", atomic("A"), true);
    assert_eq!(e.source(), Some(&atomic("A")));
    assert_eq!(atomic("A").source(), None);
    assert_eq!(variant("Bottom", "B", atomic("B"), false).source(), None);
    assert!(e.is(&"Bottom".to_string()));
    assert!(!e.is(&"A".to_string()));
}

// ---- Bubble

#[test]
fn bubble_build_finds_target_at_any_depth() {
    let b = Bubble::build("A".to_string(), deep_a()).unwrap();
    assert_eq!(*b.downcast_ref(), atomic("A"));
    assert_eq!(*b.full_error(), deep_a());
    let b = Bubble::build("Middle".to_string(), deep_a()).unwrap();
    assert_eq!(*b.downcast_ref(), variant("Middle", "Bottom", variant("Bottom", "A", atomic("A"), true), true));
}

#[test]
fn bubble_build_hands_back_error_without_target() {
    assert_eq!(Bubble::build("C".to_string(), deep_a()), Err(deep_a()));
    // the target behind a field that is no source is not in the chain
    let e = variant("Bottom", "B", atomic("B"), false);
    assert_eq!(Bubble::build("B".to_string(), variant("Bottom", "B", atomic("B"), false)), Err(e));
}

#[test]
fn bubble_build_does_not_look_into_bubbles() {
    let inner = Bubble::build("A".to_string(), atomic("A")).unwrap();
    let e = ErrorValue::Bubbled { ty: "Top".to_string(), variant: "A".to_string(), bubble: Box::new(inner) };
    let back = Bubble::build("A".to_string(), e).unwrap_err();
    assert!(matches!(back, ErrorValue::Bubbled { .. }));
}

#[test]
fn bubble_downcast_ref_gives_first_of_type() {
    // Wrap { Wrap { A } }: the outer Wrap comes first
    let e = variant("Wrap", "Outer", variant("Wrap", "Inner", atomic("A"), true), true);
    let b = Bubble::build("Wrap".to_string(), e).unwrap();
    assert!(matches!(b.downcast_ref(), ErrorValue::Variant { variant, .. } if variant == "Outer"));
}

// ---- CastInto and AtomicError

#[test]
fn cast_squashes_to_the_leaf() {
    let a = "A".to_string();
    let top = "Top".to_string();
    assert!(deep_a().has_ty(&a));
    assert!(deep_a().has(&a));
    assert!(!deep_a().has_ty(&top));
    assert_eq!(deep_a().cast_into(), atomic("A"));
    assert_eq!(deep_a().cast(&a), atomic("A"));
    // a field that is no source is still cast through
    assert_eq!(variant("Bottom", "B", atomic("B"), false).cast_into(), atomic("B"));
}

#[test]
fn cast_stops_at_a_bubble() {
    let inner = Bubble::build("A".to_string(), atomic("A")).unwrap();
    let e = ErrorValue::Bubbled { ty: "Top".to_string(), variant: "A".to_string(), bubble: Box::new(inner) };
    assert!(!e.has_ty(&"A".to_string()));
    assert!(!e.has_ty(&"Top".to_string()));
}

#[test]
fn leaf_is_atomic_error() {
    let leaf = Leaf { ty: "A".to_string() };
    assert!(leaf.has_ty(&"A".to_string()));
    assert!(!leaf.has(&"B".to_string()));
    assert_eq!(Leaf { ty: "A".to_string() }.cast_into(), atomic("A"));
}

// ---- BuildFrom and SBuildFrom

#[test]
fn build_from_itself() {
    assert_eq!(<ErrorValue as BuildFrom<ErrorValue>>::build_from(deep_a()), Ok(deep_a()));
}

#[test]
fn sbuild_from_each_way() {
    // the last resort hands the value back
    let r: Result<ErrorValue, ErrorValue> = (&Marker::<ErrorValue, ErrorValue>::new("A".to_string())).sbuild_from(deep_a());
    assert_eq!(r, Err(deep_a()));
    // casting, to the right leaf and to a wrong one
    let r = (&mut &Marker::<ErrorValue, ErrorValue>::new("A".to_string())).sbuild_from(deep_a());
    assert_eq!(r, Ok(atomic("A")));
    let r = (&mut &Marker::<ErrorValue, ErrorValue>::new("B".to_string())).sbuild_from(deep_a());
    assert_eq!(r, Err(deep_a()));
    // a leaf casts too
    let r = (&mut &Marker::<Leaf, ErrorValue>::new("A".to_string())).sbuild_from(Leaf { ty: "A".to_string() });
    assert_eq!(r, Ok(atomic("A")));
    // method resolution prefers BuildFrom where the target type has it
    let r = (&mut &mut &Marker::<ErrorValue, ErrorValue>::new("B".to_string())).sbuild_from(deep_a());
    assert_eq!(r, Ok(deep_a()));
}

// ---- the derive's analysis

fn top_input() -> BubbleInput {
    enum_input(
        "Top",
        vec![
            ("B", vec![field(path("Bottom"), true, false, vec![ForwardedAttr::Source])]),
            ("C", vec![field(path("C"), false, false, vec![ForwardedAttr::From])]),
            ("Intermediate", vec![field(path("Intermediate"), true, false, vec![ForwardedAttr::Source])]),
            ("A", vec![field(bubble_of("A"), false, true, vec![])]),
        ],
    )
}

#[test]
fn field_ty_takes_first_marked_field() {
    let v = BubbleVariant {
        ident: "V".to_string(),
        fields: vec![
            field(path("Plain"), false, false, vec![]),
            field(path("Marked"), false, false, vec![ForwardedAttr::Source]),
            field(path("Later"), true, false, vec![]),
        ],
    };
    assert_eq!(v.selected_field(), Some(1));
    assert_eq!(v.field_ty(), Ok(&path("Marked")));
    assert!(v.field_is_source());
    let w = BubbleVariant { ident: "W".to_string(), fields: vec![field(path("Plain"), false, false, vec![])] };
    assert_eq!(w.field_ty(), Err(DeriveError::MissingSourceField { variant: "W".to_string() }));
    assert!(!w.field_is_source());
}

#[test]
fn has_from_and_has_bubble() {
    let f = field(path("C"), false, false, vec![ForwardedAttr::Source, ForwardedAttr::From]);
    assert!(f.has_from());
    assert!(!field(path("C"), false, false, vec![ForwardedAttr::Source]).has_from());
    let v = BubbleVariant { ident: "A".to_string(), fields: vec![field(bubble_of("A"), false, true, vec![])] };
    assert!(v.has_bubble());
    assert!(!v.has_from());
}

#[test]
fn extract_from_bubble_cases() {
    assert_eq!(BubbleVariant::extract_from_bubble(&bubble_of("A")), Ok(&path("A")));
    assert_eq!(BubbleVariant::extract_from_bubble(&TypeExpr::Other), Err(DeriveError::ExpectedBubbleType));
    assert!(bubble_of("A").extract_halts());
    assert!(TypeExpr::Other.extract_halts());
    assert!(!path("A").extract_halts());
    assert_eq!(bubble_of("A").name(), Some("Bubble<A>".to_string()));
    assert_eq!(TypeExpr::Other.name(), None);
}

#[test]
fn reconstruct_plans_each_variant() {
    let input = top_input();
    assert!(input.reconstruct_returns());
    let impls = input.reconstruct().unwrap();
    assert_eq!(impls.len(), 4);
    // B: From<Bottom> and BuildFrom<Bottom>, trying the bubble variant A first
    assert_eq!(impls[0].as_ref().unwrap().from_impl, Some(TypeRef::Field { variant: 0 }));
    assert_eq!(impls[0].as_ref().unwrap().build_from.branches, vec![BubbleBranch { variant: 3 }]);
    assert_eq!(impls[0].as_ref().unwrap().build_from.last, FinalStep::Wrap { variant: 0 });
    // C carries #[from]: its From impl comes from elsewhere
    assert_eq!(impls[1].as_ref().unwrap().from_impl, None);
    // A: From<A>, building a Bubble<A>
    assert_eq!(impls[3].as_ref().unwrap().from_impl, Some(TypeRef::BubbleArgument { variant: 3 }));
    assert_eq!(impls[3].as_ref().unwrap().build_from.field_ty, TypeRef::BubbleArgument { variant: 3 });
    assert_eq!(impls[3].as_ref().unwrap().build_from.last, FinalStep::Bubble { variant: 3 });
    let branch = input.reconstruct_build_from().unwrap();
    assert_eq!(branch[2].as_ref().unwrap().build_from.branches, vec![BubbleBranch { variant: 3 }]);
    assert_eq!(
        input.variants().unwrap()[3].reconstruct_build_bubble_from_branch(3),
        Ok(BubbleBranch { variant: 3 })
    );
    assert_eq!(input.variants().unwrap()[3].reconstruct_from(3), Ok(Some(TypeRef::BubbleArgument { variant: 3 })));
}

#[test]
fn reconstruct_errors() {
    let missing = enum_input("E", vec![("V", vec![field(path("X"), false, false, vec![])])]);
    assert_eq!(missing.reconstruct(), Err(DeriveError::MissingSourceField { variant: "V".to_string() }));
    let not_bubble_path = enum_input("E", vec![("V", vec![field(TypeExpr::Other, false, true, vec![])])]);
    assert!(not_bubble_path.reconstruct_returns());
    assert_eq!(not_bubble_path.reconstruct(), Err(DeriveError::ExpectedBubbleType));
    let not_enum = BubbleInput { ident: "S".to_string(), data: InputData::NotEnum };
    assert_eq!(not_enum.variants(), Err(DeriveError::OnlyEnums { ident: "S".to_string() }));
    assert_eq!(not_enum.reconstruct(), Err(DeriveError::OnlyEnums { ident: "S".to_string() }));
}

#[test]
fn reconstruct_returns_cases() {
    // a bubble field whose path type is not Bubble<T> makes the derive loop
    let looping = enum_input("E", vec![("V", vec![field(path("A"), false, true, vec![])])]);
    assert!(!looping.reconstruct_returns());
    // unless an error comes first
    let error_first = enum_input(
        "E",
        vec![("W", vec![field(path("X"), false, false, vec![])]), ("V", vec![field(path("A"), false, true, vec![])])],
    );
    assert!(error_first.reconstruct_returns());
    assert_eq!(error_first.reconstruct(), Err(DeriveError::MissingSourceField { variant: "W".to_string() }));
}

// ---- running what the derive writes

#[test]
fn conversion_names_the_types() {
    let input = top_input();
    let impls = input.reconstruct().unwrap();
    let c = input.conversion(impls[0].as_ref().unwrap());
    assert_eq!(c.top, "Top");
    assert_eq!(c.field_ty, "Bottom");
    assert!(c.generates_from);
    assert_eq!(c.branches, vec![bubble::Branch { target: "A".to_string(), variant: "A".to_string() }]);
    assert_eq!(c.last, LastStep::Wrap { variant: "B".to_string(), is_source: true });
    let c = input.conversion(impls[3].as_ref().unwrap());
    assert_eq!(c.field_ty, "A");
    assert_eq!(c.last, LastStep::Build { target: "A".to_string(), variant: "A".to_string() });
}

fn two_bubbles() -> Conversion {
    // enum Top { X(#[bubble(bubble)] Bubble<X>), Y(#[bubble(bubble)] Bubble<Y>), W(#[source] #[bubble(from)] W) }
    let input = enum_input(
        "Top",
        vec![
            ("X", vec![field(bubble_of("X"), false, true, vec![])]),
            ("Y", vec![field(bubble_of("Y"), false, true, vec![])]),
            ("W", vec![field(path("W"), true, false, vec![ForwardedAttr::Source])]),
        ],
    );
    conversion_of(&input, 2)
}

#[test]
fn earliest_bubble_variant_wins() {
    let c = two_bubbles();
    // W::Y(Y::X(X)): the chain holds both X and Y; X comes first among the variants
    let w = variant("W", "Y", variant("Y", "X", atomic("X"), true), true);
    let r = c.from(w);
    assert!(matches!(&r, ErrorValue::Bubbled { variant, bubble, .. }
        if variant == "X" && *bubble.full_error() == variant_w_y_x()));
    // only Y in the chain
    let r = c.from(variant("W", "Y", atomic("Y"), true));
    assert!(matches!(&r, ErrorValue::Bubbled { variant, .. } if variant == "Y"));
    // neither: the value is wrapped as it is
    let r = c.from(variant("W", "Z", atomic("Z"), true));
    assert_eq!(r, variant("Top", "W", variant("W", "Z", atomic("Z"), true), true));
}

fn variant_w_y_x() -> ErrorValue {
    variant("W", "Y", variant("Y", "X", atomic("X"), true), true)
}

#[test]
fn build_from_hands_back_what_it_cannot_build() {
    let input = enum_input("Top", vec![("A", vec![field(bubble_of("A"), false, true, vec![])])]);
    let c = conversion_of(&input, 0);
    // a value of another type, whose chain lacks A
    assert_eq!(c.build_from(atomic("B")), Err(atomic("B")));
    assert!(c.build_from(atomic("A")).is_ok());
}


// ---- variants without fields, and marker branches

// enum SubOperationError { NetworkFailed(#[from] NetworkError), CustomValidationFailed }
fn sub_operation_input() -> BubbleInput {
    enum_input(
        "SubOperationError",
        vec![
            ("NetworkFailed", vec![field(path("NetworkError"), false, false, vec![ForwardedAttr::From])]),
            ("CustomValidationFailed", vec![]),
        ],
    )
}

// enum OperationError {
//     NetworkFailed(#[from] NetworkError),
//     SubOperation(#[bubble(from)] SubOperationError),
//     IO(#[from] std::io::Error),
// }
fn operation_input() -> BubbleInput {
    enum_input(
        "OperationError",
        vec![
            ("NetworkFailed", vec![field(path("NetworkError"), false, false, vec![ForwardedAttr::From])]),
            ("SubOperation", vec![field(path("SubOperationError"), true, false, vec![])]),
            (
                "IO",
                vec![field(
                    TypeExpr::Path(vec![
                        PathSegment { ident: "std".to_string(), arguments: PathArguments::Empty },
                        PathSegment { ident: "io".to_string(), arguments: PathArguments::Empty },
                        PathSegment { ident: "Error".to_string(), arguments: PathArguments::Empty },
                    ]),
                    false,
                    false,
                    vec![ForwardedAttr::From],
                )],
            ),
        ],
    )
}

#[test]
fn variant_without_fields_gets_no_impls() {
    let impls = sub_operation_input().reconstruct().unwrap();
    assert_eq!(impls.len(), 2);
    assert!(impls[0].is_some());
    assert!(impls[1].is_none());
}

#[test]
fn readme_network_error_bubbles_past_sub_operation() {
    let c = conversion_of(&operation_input(), 1);
    assert_eq!(
        c.casts,
        vec![CastBranch {
            target: "NetworkError".to_string(),
            variant: "NetworkFailed".to_string(),
            is_source: true,
            builder: None,
        }]
    );
    let sub = variant("SubOperationError", "NetworkFailed", atomic("NetworkError"), true);
    assert_eq!(c.from(sub), variant("OperationError", "NetworkFailed", atomic("NetworkError"), true));
    // a value that holds no atomic error of an earlier variant is wrapped
    let unit = || ErrorValue::Unit {
        ty: "SubOperationError".to_string(),
        variant: "CustomValidationFailed".to_string(),
    };
    assert_eq!(c.from(unit()), variant("OperationError", "SubOperation", unit(), false));
}

#[test]
fn markers_cover_earlier_variants_or_all() {
    let impls = operation_input().reconstruct().unwrap();
    assert_eq!(impls[0].as_ref().unwrap().build_from.markers, vec![]);
    assert_eq!(impls[1].as_ref().unwrap().build_from.markers, vec![MarkerBranch { variant: 0 }]);
    assert_eq!(
        impls[2].as_ref().unwrap().build_from.markers,
        vec![MarkerBranch { variant: 0 }, MarkerBranch { variant: 1 }]
    );
    // a bubble variant tries every other variant with fields
    let impls = top_input().reconstruct().unwrap();
    assert_eq!(
        impls[3].as_ref().unwrap().build_from.markers,
        vec![MarkerBranch { variant: 0 }, MarkerBranch { variant: 1 }, MarkerBranch { variant: 2 }]
    );
    assert!(top_input().variants().unwrap()[0].is_marker());
    assert!(!top_input().variants().unwrap()[3].is_marker());
    assert!(!sub_operation_input().variants().unwrap()[1].is_marker());
}

#[test]
fn marker_branch_takes_a_value_of_its_own_type() {
    // enum Top { A(#[from] A), B(#[source] #[bubble(from)] B) }: a B whose
    // value is an A itself goes to Top::A
    let input = enum_input(
        "Top",
        vec![
            ("A", vec![field(path("A"), false, false, vec![ForwardedAttr::From])]),
            ("B", vec![field(path("B"), true, false, vec![ForwardedAttr::Source])]),
        ],
    );
    let c = conversion_of(&input, 1);
    assert_eq!(c.build_from(atomic("A")), Ok(variant("Top", "A", atomic("A"), true)));
    assert_eq!(c.build_from(atomic("B")), Ok(variant("Top", "B", atomic("B"), true)));
}

#[test]
fn unit_value_has_no_source_and_no_leaf() {
    let unit_value = || ErrorValue::Unit { ty: "E".to_string(), variant: "U".to_string() };
    let unit = unit_value();
    assert_eq!(unit.source(), None);
    assert!(unit.is(&"E".to_string()));
    assert!(!unit.has_ty(&"E".to_string()));
    assert_eq!(names_in_chain(&unit), vec!["E"]);
    // a unit value ends a chain
    let e = variant("Top", "V", unit_value(), true);
    assert_eq!(names_in_chain(&e), vec!["Top", "E"]);
    assert!(!e.has_ty(&"E".to_string()));
}

#[test]
fn first_match_picks_the_first_true() {
    assert_eq!(first_match(&vec![]), None);
    assert_eq!(first_match(&vec![false, false]), None);
    assert_eq!(first_match(&vec![false, true, true]), Some(1));
    assert_eq!(first_match(&vec![true]), Some(0));
}

#[test]
fn cast_marker_gives_back_the_leaf_value() {
    let leaf = Leaf { ty: "A".to_string() };
    let r = (&mut &Marker::<Leaf, ErrorValue>::new("A".to_string())).sbuild_from(leaf);
    assert_eq!(r, Ok(ErrorValue::Atomic(Leaf { ty: "A".to_string() })));
    // a unit value casts to nothing
    let unit = || ErrorValue::Unit { ty: "E".to_string(), variant: "U".to_string() };
    let r = (&mut &Marker::<ErrorValue, ErrorValue>::new("E".to_string())).sbuild_from(unit());
    assert_eq!(r, Err(unit()));
}

fn segment(ident: &str, arguments: PathArguments) -> PathSegment {
    PathSegment { ident: ident.to_string(), arguments }
}

#[test]
fn a_type_is_named_by_its_whole_path() {
    let io = TypeExpr::Path(vec![
        segment("std", PathArguments::Empty),
        segment("io", PathArguments::Empty),
        segment("Error", PathArguments::Empty),
    ]);
    let fmt = TypeExpr::Path(vec![segment("fmt", PathArguments::Empty), segment("Error", PathArguments::Empty)]);
    assert_eq!(io.name(), Some("std::io::Error".to_string()));
    assert_eq!(fmt.name(), Some("fmt::Error".to_string()));
    let generic = TypeExpr::Path(vec![segment(
        "Wrapper",
        PathArguments::AngleBracketed(vec![
            GenericArgument::Type(path("A")),
            GenericArgument::Other,
            GenericArgument::Type(TypeExpr::Other),
            GenericArgument::Type(bubble_of("B")),
        ]),
    )]);
    assert_eq!(generic.name(), Some("Wrapper<A, _, _, Bubble<B>>".to_string()));
    let function = TypeExpr::Path(vec![segment("Fn", PathArguments::Parenthesized)]);
    assert_eq!(function.name(), Some("Fn(..)".to_string()));
    assert_eq!(TypeExpr::Path(vec![]).name(), None);
}

#[test]
fn conversion_names_types_by_path() {
    let c = conversion_of(&operation_input(), 2);
    assert_eq!(c.field_ty, "std::io::Error");
    assert_eq!(c.last, LastStep::Wrap { variant: "IO".to_string(), is_source: true });
    // a std::io::Error is not a NetworkError, nor does it hold one
    let e = ErrorValue::Atomic(Leaf { ty: "std::io::Error".to_string() });
    assert_eq!(
        c.from(e),
        variant("OperationError", "IO", atomic("std::io::Error"), true)
    );
}

// enum Top { M(#[source] Middle), B(#[source] Bottom) },
// where `Middle { X(#[from] Bottom) }` derives `BuildFrom<Bottom>` too.
fn top_over_middle() -> Conversion {
    let top = enum_input(
        "Top",
        vec![
            ("M", vec![field(path("Middle"), false, false, vec![ForwardedAttr::Source])]),
            ("B", vec![field(path("Bottom"), false, false, vec![ForwardedAttr::Source])]),
        ],
    );
    conversion_of(&top, 1)
}

fn middle_from_bottom() -> Conversion {
    let middle = enum_input(
        "Middle",
        vec![("X", vec![field(path("Bottom"), false, false, vec![ForwardedAttr::From])])],
    );
    conversion_of(&middle, 0)
}

#[test]
fn marker_branch_builds_through_the_target_types_build_from() {
    let c = top_over_middle().with_builder(0, middle_from_bottom());
    assert_eq!(c.casts[0].builder, Some(Box::new(middle_from_bottom())));
    let bottom = variant("Bottom", "A", atomic("A"), true);
    assert_eq!(
        c.from(bottom),
        variant("Top", "M", variant("Middle", "X", variant("Bottom", "A", atomic("A"), true), true), true)
    );
}

#[test]
fn marker_branch_without_builder_casts_or_passes() {
    // without the BuildFrom of Middle, a Bottom that holds no Middle goes to B
    let c = top_over_middle();
    assert_eq!(c.casts[0].builder, None);
    let bottom = variant("Bottom", "A", atomic("A"), true);
    assert_eq!(c.from(bottom), variant("Top", "B", variant("Bottom", "A", atomic("A"), true), true));
}

#[test]
fn marker_branch_passes_on_where_the_builder_gives_nothing() {
    // a BuildFrom<Bottom> for Middle { Q(Bubble<Q>) } written by hand, which
    // gives a Middle::Q only where the chain of the Bottom holds a Q
    let middle = enum_input("Middle", vec![("Q", vec![field(bubble_of("Q"), false, true, vec![])])]);
    let builder = Conversion { field_ty: "Bottom".to_string(), ..conversion_of(&middle, 0) };
    let c = top_over_middle().with_builder(0, builder);
    let bottom = variant("Bottom", "A", atomic("A"), true);
    assert_eq!(c.from(bottom), variant("Top", "B", variant("Bottom", "A", atomic("A"), true), true));
    let with_q = variant("Bottom", "Q", atomic("Q"), true);
    let r = c.from(with_q);
    assert!(matches!(&r, ErrorValue::Variant { variant, field, .. }
        if variant == "M" && matches!(&**field, ErrorValue::Bubbled { variant, .. } if variant == "Q")));
}

#[test]
fn bubble_always_holds_its_target() {
    let b = Bubble::build("Bottom".to_string(), deep_a()).unwrap();
    assert!(matches!(b.downcast_ref(), ErrorValue::Variant { ty, .. } if ty == "Bottom"));
}
