use vstd::prelude::*;

verus! {

// ---------------------------------------------------------------------------
// What the derive reads of the enum it is put on.
// ---------------------------------------------------------------------------

/// An attribute that the derive keeps from a field: `#[from]` or `#[source]`.
#[derive(Clone, Copy, Debug, PartialEq, Eq, Structural)]
pub enum ForwardedAttr {
    From,
    Source,
}

/// A generic argument in angle brackets: a type, or anything else
/// (a lifetime, a constant, a binding).
#[derive(Debug, PartialEq, Eq)]
pub enum GenericArgument {
    Type(TypeExpr),
    Other,
}

/// The arguments of a path segment.
#[derive(Debug, PartialEq, Eq)]
pub enum PathArguments {
    Empty,
    AngleBracketed(Vec<GenericArgument>),
    Parenthesized,
}

/// A segment of a path, such as `Bubble<A>` in `bubble::Bubble<A>`.
#[derive(Debug, PartialEq, Eq)]
pub struct PathSegment {
    pub ident: String,
    pub arguments: PathArguments,
}

/// The type of a field: a path, or any other kind of type.
#[derive(Debug, PartialEq, Eq)]
pub enum TypeExpr {
    Path(Vec<PathSegment>),
    Other,
}

/// A field of a variant, with its `#[bubble(from)]` and `#[bubble(bubble)]`
/// flags and its forwarded attributes.
#[derive(Debug, PartialEq, Eq)]
pub struct BubbleField {
    pub ty: TypeExpr,
    pub from: bool,
    pub bubble: bool,
    pub attrs: Vec<ForwardedAttr>,
}

/// A variant of the enum.
#[derive(Debug, PartialEq, Eq)]
pub struct BubbleVariant {
    pub ident: String,
    pub fields: Vec<BubbleField>,
}

/// The body of the item the derive is put on.
#[derive(Debug, PartialEq, Eq)]
pub enum InputData {
    Enum(Vec<BubbleVariant>),
    /// A struct or a union.
    NotEnum,
}

/// The item the derive is put on.
#[derive(Debug, PartialEq, Eq)]
pub struct BubbleInput {
    pub ident: String,
    pub data: InputData,
}

/// Why the derive refuses an item.
#[derive(Debug, PartialEq, Eq)]
pub enum DeriveError {
    /// "Variant should have at least one of: #[source], #[from], #[bubble]",
    /// at the variant.
    MissingSourceField { variant: String },
    /// "Expected a Bubble type".
    ExpectedBubbleType,
    /// "Only enums are supported", at the item.
    OnlyEnums { ident: String },
}

// ---------------------------------------------------------------------------
// What the derive writes, by the indices of the variants it speaks of.
// ---------------------------------------------------------------------------

/// A type that a generated impl names: the type of the variant's selected
/// field, or the `T` of that field's `Bubble<T>`.
#[derive(Clone, Copy, Debug, PartialEq, Eq, Structural)]
pub enum TypeRef {
    Field { variant: usize },
    BubbleArgument { variant: usize },
}

/// `.or_else(|from| Bubble::<T>::build(from).map(Top::V))`, where `V` is the
/// variant and `T` the argument of its `Bubble<T>` field.
#[derive(Clone, Copy, Debug, PartialEq, Eq, Structural)]
pub struct BubbleBranch {
    pub variant: usize,
}

/// `.or_else(|from| marker!(X, T).sbuild_from(from).map(Top::V))`, where `V`
/// is the variant and `T` the type of its field: builds a `T` from `from` by
/// `BuildFrom` where `T` has it, else casts `from` to an atomic `T` it holds.
#[derive(Clone, Copy, Debug, PartialEq, Eq, Structural)]
pub struct MarkerBranch {
    pub variant: usize,
}

/// The last step of a generated `build_from`.
#[derive(Clone, Copy, Debug, PartialEq, Eq, Structural)]
pub enum FinalStep {
    /// `Ok(Top::V(from))`.
    Wrap { variant: usize },
    /// `Bubble::<T>::build(from).map(Top::V)`, for a `Bubble<T>` field.
    Bubble { variant: usize },
}

/// `impl BuildFrom<field_ty> for Top`: the bubble branches, in order, then
/// the marker branches, in order, then the last step.
#[derive(Debug, PartialEq, Eq)]
pub struct BuildFromImpl {
    pub field_ty: TypeRef,
    pub branches: Vec<BubbleBranch>,
    pub markers: Vec<MarkerBranch>,
    pub last: FinalStep,
}

/// What the derive writes for one variant with fields: `impl From<T> for Top`
/// where `from_impl` is `Some(T)`, and `impl BuildFrom<..> for Top`.
#[derive(Debug, PartialEq, Eq)]
pub struct VariantImpls {
    pub from_impl: Option<TypeRef>,
    pub build_from: BuildFromImpl,
}

/// A [`VariantImpls`] as plain values.
pub struct VariantPlan {
    pub from_impl: Option<TypeRef>,
    pub field_ty: TypeRef,
    pub branches: Seq<BubbleBranch>,
    pub markers: Seq<MarkerBranch>,
    pub last: FinalStep,
}

impl View for VariantImpls {
    type V = VariantPlan;

    open spec fn view(&self) -> VariantPlan {
        VariantPlan {
            from_impl: self.from_impl,
            field_ty: self.build_from.field_ty,
            branches: self.build_from.branches@,
            markers: self.build_from.markers@,
            last: self.build_from.last,
        }
    }
}

// ---------------------------------------------------------------------------
// Specifications. `None` stands for an input on which the analysis has no
// result: a field marked `#[bubble(bubble)]` whose type is a path but not
// `Bubble<T>` (the search for `Bubble` in it never ends), or is `Bubble<>`
// (there is no argument to take). The functions leave such input out by
// their `requires`; the derive asks `reconstruct_returns` first and refuses
// such an enum with an error before any impl is planned.
// ---------------------------------------------------------------------------

impl BubbleField {
    /// The field carries `#[from]`.
    pub open spec fn spec_has_from(self) -> bool {
        exists|k: int| 0 <= k < self.attrs@.len() && self.attrs@[k] == ForwardedAttr::From
    }

    /// The field is the one that the variant's impls are about.
    pub open spec fn selected(self) -> bool {
        self.from || self.bubble || self.attrs@.len() > 0
    }
}

/// The index of the first selected field at or after `start`.
pub open spec fn first_selected(fields: Seq<BubbleField>, start: int) -> Option<int>
    decreases fields.len() - start,
{
    if start < 0 || start >= fields.len() {
        None
    } else if fields[start].selected() {
        Some(start)
    } else {
        first_selected(fields, start + 1)
    }
}

/// The first selected field at or after `start`, stated directly: it is
/// selected and none before it from `start` on is; without one, none is.
pub proof fn lemma_first_selected_is(fields: Seq<BubbleField>, start: int)
    requires
        0 <= start,
    ensures
        match first_selected(fields, start) {
            Some(f) => start <= f < fields.len() && fields[f].selected() && forall|g: int|
                start <= g < f ==> !(#[trigger] fields[g]).selected(),
            None => forall|g: int| start <= g < fields.len() ==> !(#[trigger] fields[g]).selected(),
        },
    decreases fields.len() - start,
{
    if start < fields.len() && !fields[start].selected() {
        lemma_first_selected_is(fields, start + 1);
    }
}

impl BubbleVariant {
    /// Some field of the variant carries `#[bubble(bubble)]`.
    pub open spec fn spec_has_bubble(self) -> bool {
        exists|k: int| 0 <= k < self.fields@.len() && self.fields@[k].bubble
    }

    /// Some field of the variant carries `#[from]`.
    pub open spec fn spec_has_from(self) -> bool {
        exists|k: int| 0 <= k < self.fields@.len() && self.fields@[k].spec_has_from()
    }

    /// The type of the first field with `#[bubble(..)]`, `#[from]` or
    /// `#[source]`.
    pub open spec fn spec_field_ty(self) -> Option<TypeExpr> {
        match first_selected(self.fields@, 0) {
            Some(i) => Some(self.fields@[i].ty),
            None => None,
        }
    }

    /// Whether the selected field is the variant's source.
    pub open spec fn spec_field_is_source(self) -> bool {
        match first_selected(self.fields@, 0) {
            Some(i) => self.fields@[i].attrs@.len() > 0,
            None => false,
        }
    }
}

impl TypeExpr {
    /// The type is `..::Bubble<T, ..>` with a type `T`.
    pub open spec fn is_bubble_path(self) -> bool {
        match self {
            TypeExpr::Path(segments) => segments@.len() > 0 && segments@.last().ident@
                == "Bubble"@ && match segments@.last().arguments {
                PathArguments::AngleBracketed(args) => args@.len() > 0 && args@[0] is Type,
                _ => false,
            },
            TypeExpr::Other => false,
        }
    }

    /// The `T` of `Bubble<T>`.
    pub open spec fn bubble_argument(self) -> TypeExpr
        recommends
            self.is_bubble_path(),
    {
        match self {
            TypeExpr::Path(segments) => match segments@.last().arguments {
                PathArguments::AngleBracketed(args) => match args@[0] {
                    GenericArgument::Type(t) => t,
                    GenericArgument::Other => self,
                },
                _ => self,
            },
            TypeExpr::Other => self,
        }
    }

    /// What extracting the `T` of `Bubble<T>` gives: the argument for a
    /// `Bubble<T>` path, an error for a type that is no path, and no result
    /// for any other path.
    pub open spec fn spec_extract(self) -> Option<Result<TypeExpr, DeriveError>> {
        match self {
            TypeExpr::Path(_) => if self.is_bubble_path() {
                Some(Ok(self.bubble_argument()))
            } else {
                None
            },
            TypeExpr::Other => Some(Err(DeriveError::ExpectedBubbleType)),
        }
    }
}

/// The bubble branches of the variants from `start` on, in order, or the
/// first error met.
pub open spec fn spec_branches(variants: Seq<BubbleVariant>, start: int) -> Option<
    Result<Seq<BubbleBranch>, DeriveError>,
>
    decreases variants.len() - start,
{
    if start < 0 || start >= variants.len() {
        Some(Ok(Seq::empty()))
    } else if !variants[start].spec_has_bubble() {
        spec_branches(variants, start + 1)
    } else {
        match variants[start].spec_field_ty() {
            None => Some(Err(DeriveError::MissingSourceField { variant: variants[start].ident })),
            Some(t) => match t.spec_extract() {
                None => None,
                Some(Err(e)) => Some(Err(e)),
                Some(Ok(_)) => match spec_branches(variants, start + 1) {
                    None => None,
                    Some(Err(e)) => Some(Err(e)),
                    Some(Ok(rest)) => Some(
                        Ok(seq![BubbleBranch { variant: start as usize }] + rest),
                    ),
                },
            },
        }
    }
}

impl BubbleVariant {
    /// What `reconstruct_from` gives for the variant at `index`.
    pub open spec fn spec_from_impl(self, index: usize) -> Option<
        Result<Option<TypeRef>, DeriveError>,
    > {
        match self.spec_field_ty() {
            None => Some(Err(DeriveError::MissingSourceField { variant: self.ident })),
            Some(t) => if self.spec_has_from() {
                Some(Ok(None))
            } else if self.spec_has_bubble() {
                match t.spec_extract() {
                    None => None,
                    Some(Err(e)) => Some(Err(e)),
                    Some(Ok(_)) => Some(Ok(Some(TypeRef::BubbleArgument { variant: index }))),
                }
            } else {
                Some(Ok(Some(TypeRef::Field { variant: index })))
            },
        }
    }
}

impl BubbleVariant {
    /// A variant that can stand in the marker branches: one with fields and
    /// without a `#[bubble(bubble)]` field.
    pub open spec fn spec_is_marker(self) -> bool {
        self.fields@.len() > 0 && !self.spec_has_bubble()
    }
}

/// The marker branches for the variants before `end`, from `start` on, in
/// order.
pub open spec fn marker_variants(variants: Seq<BubbleVariant>, start: int, end: int) -> Seq<
    MarkerBranch,
>
    decreases end - start,
{
    if start < 0 || start >= end || start >= variants.len() {
        Seq::empty()
    } else if variants[start].spec_is_marker() {
        seq![MarkerBranch { variant: start as usize }] + marker_variants(variants, start + 1, end)
    } else {
        marker_variants(variants, start + 1, end)
    }
}

/// What the derive writes for the variant at `index` of `variants`, which
/// has fields. The marker branches of a variant with a `#[bubble(bubble)]`
/// field cover all variants; those of any other variant, the variants before
/// it, since its own comes next and always succeeds.
pub open spec fn spec_variant_plan(variants: Seq<BubbleVariant>, index: usize) -> Option<
    Result<VariantPlan, DeriveError>,
> {
    let v = variants[index as int];
    match v.spec_field_ty() {
        None => Some(Err(DeriveError::MissingSourceField { variant: v.ident })),
        Some(t) => match spec_branches(variants, 0) {
            None => None,
            Some(Err(e)) => Some(Err(e)),
            Some(Ok(branches)) => match v.spec_from_impl(index) {
                None => None,
                Some(Err(e)) => Some(Err(e)),
                Some(Ok(from_impl)) => if v.spec_has_bubble() {
                    match t.spec_extract() {
                        None => None,
                        Some(Err(e)) => Some(Err(e)),
                        Some(Ok(_)) => Some(
                            Ok(
                                VariantPlan {
                                    from_impl,
                                    field_ty: TypeRef::BubbleArgument { variant: index },
                                    branches,
                                    markers: marker_variants(variants, 0, variants.len() as int),
                                    last: FinalStep::Bubble { variant: index },
                                },
                            ),
                        ),
                    }
                } else {
                    Some(
                        Ok(
                            VariantPlan {
                                from_impl,
                                field_ty: TypeRef::Field { variant: index },
                                branches,
                                markers: marker_variants(variants, 0, index as int),
                                last: FinalStep::Wrap { variant: index },
                            },
                        ),
                    )
                },
            },
        },
    }
}

/// What the derive writes for the variants from `start` on, or the first
/// error met: nothing for a variant without fields.
pub open spec fn spec_plans(variants: Seq<BubbleVariant>, start: int) -> Option<
    Result<Seq<Option<VariantPlan>>, DeriveError>,
>
    decreases variants.len() - start,
{
    if start < 0 || start >= variants.len() || start > usize::MAX {
        Some(Ok(Seq::empty()))
    } else if variants[start].fields@.len() == 0 {
        match spec_plans(variants, start + 1) {
            None => None,
            Some(Err(e)) => Some(Err(e)),
            Some(Ok(rest)) => Some(Ok(seq![None::<VariantPlan>] + rest)),
        }
    } else {
        match spec_variant_plan(variants, start as usize) {
            None => None,
            Some(Err(e)) => Some(Err(e)),
            Some(Ok(p)) => match spec_plans(variants, start + 1) {
                None => None,
                Some(Err(e)) => Some(Err(e)),
                Some(Ok(rest)) => Some(Ok(seq![Some(p)] + rest)),
            },
        }
    }
}

impl BubbleInput {
    /// What the derive writes for the item, or why it refuses it.
    pub open spec fn spec_reconstruct(self) -> Option<Result<Seq<Option<VariantPlan>>, DeriveError>> {
        match self.data {
            InputData::Enum(variants) => spec_plans(variants@, 0),
            InputData::NotEnum => Some(Err(DeriveError::OnlyEnums { ident: self.ident })),
        }
    }
}

/// What the derive writes for one variant, as plain values.
pub open spec fn plan_of(impls: Option<VariantImpls>) -> Option<VariantPlan> {
    match impls {
        Some(i) => Some(i@),
        None => None,
    }
}

/// A run's result as plain values.
pub open spec fn plans_of(r: Result<Vec<Option<VariantImpls>>, DeriveError>) -> Result<
    Seq<Option<VariantPlan>>,
    DeriveError,
> {
    match r {
        Ok(v) => Ok(v@.map_values(|i: Option<VariantImpls>| plan_of(i))),
        Err(e) => Err(e),
    }
}

/// The plan's field type is the one its last step is about.
pub open spec fn consistent(plan: VariantPlan) -> bool {
    match plan.last {
        FinalStep::Wrap { variant } => plan.field_ty == TypeRef::Field { variant },
        FinalStep::Bubble { variant } => plan.field_ty == TypeRef::BubbleArgument { variant },
    }
}

/// The bubble branches of the variants from `start` on: one for each variant
/// with a `#[bubble(bubble)]` field, in order.
pub open spec fn bubble_variants(variants: Seq<BubbleVariant>, start: int) -> Seq<BubbleBranch>
    decreases variants.len() - start,
{
    if start < 0 || start >= variants.len() {
        Seq::empty()
    } else if variants[start].spec_has_bubble() {
        seq![BubbleBranch { variant: start as usize }] + bubble_variants(variants, start + 1)
    } else {
        bubble_variants(variants, start + 1)
    }
}

proof fn lemma_branches_are_bubble_variants(
    variants: Seq<BubbleVariant>,
    start: int,
    branches: Seq<BubbleBranch>,
)
    requires
        spec_branches(variants, start) == Some(Ok::<Seq<BubbleBranch>, DeriveError>(branches)),
    ensures
        branches == bubble_variants(variants, start),
    decreases variants.len() - start,
{
    if 0 <= start < variants.len() {
        if !variants[start].spec_has_bubble() {
            lemma_branches_are_bubble_variants(variants, start + 1, branches);
        } else {
            let rest = spec_branches(variants, start + 1)->0->Ok_0;
            lemma_branches_are_bubble_variants(variants, start + 1, rest);
        }
    }
}

/// What the derive writes for the variant at `index`: nothing for a variant
/// without fields; for any other, a plan that speaks of that variant.
pub open spec fn plan_shape(variants: Seq<BubbleVariant>, index: int, o: Option<VariantPlan>) -> bool {
    let v = variants[index];
    if v.fields@.len() == 0 {
        o is None
    } else {
        o matches Some(p) && {
            &&& v.spec_field_ty() is Some
            &&& consistent(p)
            &&& p.last == if v.spec_has_bubble() {
                FinalStep::Bubble { variant: index as usize }
            } else {
                FinalStep::Wrap { variant: index as usize }
            }
            &&& (p.from_impl is None <==> v.spec_has_from())
            &&& (p.from_impl matches Some(t) ==> t == p.field_ty)
            &&& p.branches == bubble_variants(variants, 0)
            &&& p.markers == marker_variants(
                variants,
                0,
                if v.spec_has_bubble() {
                    variants.len() as int
                } else {
                    index
                },
            )
        }
    }
}

proof fn lemma_plans_shape_from(
    variants: Seq<BubbleVariant>,
    start: int,
    plans: Seq<Option<VariantPlan>>,
)
    requires
        0 <= start <= variants.len(),
        variants.len() <= usize::MAX,
        spec_plans(variants, start) == Some(Ok::<Seq<Option<VariantPlan>>, DeriveError>(plans)),
    ensures
        plans.len() == variants.len() - start,
        forall|k: int| 0 <= k < plans.len() ==> plan_shape(variants, start + k, #[trigger] plans[k]),
    decreases variants.len() - start,
{
    if start < variants.len() {
        let rest = spec_plans(variants, start + 1)->0->Ok_0;
        lemma_plans_shape_from(variants, start + 1, rest);
        if variants[start].fields@.len() > 0 {
            let p = spec_variant_plan(variants, start as usize)->0->Ok_0;
            lemma_branches_are_bubble_variants(
                variants,
                0,
                spec_branches(variants, 0)->0->Ok_0,
            );
            assert(plans == seq![Some(p)] + rest);
        } else {
            assert(plans == seq![None::<VariantPlan>] + rest);
        }
        assert forall|k: int| 0 <= k < plans.len() implies plan_shape(
            variants,
            start + k,
            #[trigger] plans[k],
        ) by {
            if k > 0 {
                assert(plans[k] == rest[k - 1]);
            }
        }
    }
}

/// What the derive writes for an enum it accepts: one entry per variant, in
/// order; nothing for a variant without fields; for any other, a plan whose
/// last step wraps the variant's field, or builds a bubble where the variant
/// has a `#[bubble(bubble)]` field; a `From` impl comes exactly for the
/// variants without `#[from]`, and converts from the type that the
/// `BuildFrom` impl converts from; every `build_from` first tries the bubble
/// variants of the enum, in order, then the other variants with fields, in
/// order (all of them, or those before its own).
pub proof fn lemma_reconstruct_shape(input: BubbleInput, plans: Seq<Option<VariantPlan>>)
    requires
        input.spec_reconstruct() == Some(Ok::<Seq<Option<VariantPlan>>, DeriveError>(plans)),
        input.data matches InputData::Enum(vs) && vs@.len() <= usize::MAX,
    ensures
        input.data matches InputData::Enum(vs) && plans.len() == vs@.len() && forall|i: int|
            0 <= i < plans.len() ==> plan_shape(vs@, i, #[trigger] plans[i]),
{
    match input.data {
        InputData::Enum(vs) => {
            lemma_plans_shape_from(vs@, 0, plans);
        },
        InputData::NotEnum => {},
    }
}

proof fn lemma_marker_variants_members(variants: Seq<BubbleVariant>, start: int, end: int)
    requires
        0 <= start,
        end <= variants.len(),
        variants.len() <= usize::MAX,
    ensures
        forall|k: int|
            (exists|j: int|
                0 <= j < marker_variants(variants, start, end).len() && #[trigger] marker_variants(
                    variants,
                    start,
                    end,
                )[j].variant as int == k) <==> (start <= k < end && variants[k].fields@.len() > 0
                && forall|f: int|
                0 <= f < variants[k].fields@.len() ==> !(#[trigger] variants[k].fields@[f]).bubble),
        forall|j1: int, j2: int|
            0 <= j1 < j2 < marker_variants(variants, start, end).len() ==> (#[trigger] marker_variants(
                variants,
                start,
                end,
            )[j1]).variant < (#[trigger] marker_variants(variants, start, end)[j2]).variant,
        forall|j: int|
            0 <= j < marker_variants(variants, start, end).len() ==> start <= (
            #[trigger] marker_variants(variants, start, end)[j]).variant,
    decreases end - start,
{
    let m = marker_variants(variants, start, end);
    if start < end {
        lemma_marker_variants_members(variants, start + 1, end);
        let rest = marker_variants(variants, start + 1, end);
        if variants[start].spec_is_marker() {
            assert(m == seq![MarkerBranch { variant: start as usize }] + rest);
            assert forall|k: int|
                (exists|j: int| 0 <= j < m.len() && #[trigger] m[j].variant as int == k) <==> (
                start <= k < end && variants[k].fields@.len() > 0 && forall|f: int|
                    0 <= f < variants[k].fields@.len() ==> !(
                    #[trigger] variants[k].fields@[f]).bubble) by {
                if exists|j: int| 0 <= j < m.len() && #[trigger] m[j].variant as int == k {
                    let j = choose|j: int| 0 <= j < m.len() && #[trigger] m[j].variant as int == k;
                    if j > 0 {
                        assert(m[j] == rest[j - 1]);
                    }
                }
                if start < k < end && variants[k].fields@.len() > 0 && forall|f: int|
                    0 <= f < variants[k].fields@.len() ==> !(
                    #[trigger] variants[k].fields@[f]).bubble {
                    let j = choose|j: int| 0 <= j < rest.len() && #[trigger] rest[j].variant as int == k;
                    assert(m[j + 1] == rest[j]);
                }
                if k == start {
                    assert(m[0].variant as int == k);
                }
            }
            assert forall|j1: int, j2: int| 0 <= j1 < j2 < m.len() implies (#[trigger] m[j1]).variant
                < (#[trigger] m[j2]).variant by {
                assert(m[j2] == rest[j2 - 1]);
                if j1 > 0 {
                    assert(m[j1] == rest[j1 - 1]);
                }
            }
            assert forall|j: int| 0 <= j < m.len() implies start <= (#[trigger] m[j]).variant by {
                if j > 0 {
                    assert(m[j] == rest[j - 1]);
                }
            }
        } else {
            assert(m == rest);
            assert forall|k: int|
                (exists|j: int| 0 <= j < m.len() && #[trigger] m[j].variant as int == k) <==> (
                start <= k < end && variants[k].fields@.len() > 0 && forall|f: int|
                    0 <= f < variants[k].fields@.len() ==> !(
                    #[trigger] variants[k].fields@[f]).bubble) by {
                if k == start && variants[k].fields@.len() > 0 {
                    let f = choose|f: int| 0 <= f < variants[k].fields@.len() && variants[k].fields@[f].bubble;
                    assert(variants[k].fields@[f].bubble);
                }
            }
        }
    }
}

/// The marker branches of a variant's `build_from` are exactly the variants
/// with fields and without a `#[bubble(bubble)]` field that come before it
/// (or, for a variant with a `#[bubble(bubble)]` field, all of them), in
/// increasing order: a variant that cannot be tried never hides the ones
/// after it.
pub proof fn lemma_markers_are_the_earlier_plain_variants(
    input: BubbleInput,
    plans: Seq<Option<VariantPlan>>,
    i: int,
)
    requires
        input.spec_reconstruct() == Some(Ok::<Seq<Option<VariantPlan>>, DeriveError>(plans)),
        input.data matches InputData::Enum(vs) && vs@.len() <= usize::MAX && 0 <= i < vs@.len(),
    ensures
        input.data matches InputData::Enum(vs) && (plans[i] matches Some(p) ==> {
            let end = if exists|f: int| 0 <= f < vs@[i].fields@.len() && vs@[i].fields@[f].bubble {
                vs@.len() as int
            } else {
                i
            };
            &&& forall|k: int|
                (exists|j: int| 0 <= j < p.markers.len() && #[trigger] p.markers[j].variant as int == k)
                    <==> (0 <= k < end && vs@[k].fields@.len() > 0 && forall|f: int|
                    0 <= f < vs@[k].fields@.len() ==> !(#[trigger] vs@[k].fields@[f]).bubble)
            &&& forall|j1: int, j2: int|
                0 <= j1 < j2 < p.markers.len() ==> (#[trigger] p.markers[j1]).variant < (
                #[trigger] p.markers[j2]).variant
        }),
{
    lemma_reconstruct_shape(input, plans);
    match input.data {
        InputData::Enum(vs) => {
            assert(plan_shape(vs@, i, plans[i]));
            if vs@[i].spec_has_bubble() {
                lemma_marker_variants_members(vs@, 0, vs@.len() as int);
            } else {
                lemma_marker_variants_members(vs@, 0, i);
            }
        },
        InputData::NotEnum => {},
    }
}

proof fn lemma_bubble_variants_members(variants: Seq<BubbleVariant>, start: int)
    requires
        0 <= start,
        variants.len() <= usize::MAX,
    ensures
        forall|k: int|
            #![trigger variants[k]]
            (exists|j: int|
                0 <= j < bubble_variants(variants, start).len() && #[trigger] bubble_variants(
                    variants,
                    start,
                )[j].variant as int == k) <==> (start <= k < variants.len() && exists|f: int|
                0 <= f < variants[k].fields@.len() && (#[trigger] variants[k].fields@[f]).bubble),
        forall|j1: int, j2: int|
            0 <= j1 < j2 < bubble_variants(variants, start).len() ==> (
            #[trigger] bubble_variants(variants, start)[j1]).variant < (#[trigger] bubble_variants(
                variants,
                start,
            )[j2]).variant,
        forall|j: int|
            0 <= j < bubble_variants(variants, start).len() ==> start <= (
            #[trigger] bubble_variants(variants, start)[j]).variant,
    decreases variants.len() - start,
{
    let m = bubble_variants(variants, start);
    if start < variants.len() {
        lemma_bubble_variants_members(variants, start + 1);
        let rest = bubble_variants(variants, start + 1);
        if variants[start].spec_has_bubble() {
            assert(m == seq![BubbleBranch { variant: start as usize }] + rest);
            assert forall|k: int|
                #![trigger variants[k]]
                (exists|j: int| 0 <= j < m.len() && #[trigger] m[j].variant as int == k) <==> (
                start <= k < variants.len() && exists|f: int|
                    0 <= f < variants[k].fields@.len() && (
                    #[trigger] variants[k].fields@[f]).bubble) by {
                if exists|j: int| 0 <= j < m.len() && #[trigger] m[j].variant as int == k {
                    let j = choose|j: int| 0 <= j < m.len() && #[trigger] m[j].variant as int == k;
                    if j > 0 {
                        assert(m[j] == rest[j - 1]);
                    }
                }
                if start < k < variants.len() && exists|f: int|
                    0 <= f < variants[k].fields@.len() && (
                    #[trigger] variants[k].fields@[f]).bubble {
                    let j = choose|j: int| 0 <= j < rest.len() && #[trigger] rest[j].variant as int == k;
                    assert(m[j + 1] == rest[j]);
                }
                if k == start {
                    assert(m[0].variant as int == k);
                }
            }
            assert forall|j1: int, j2: int| 0 <= j1 < j2 < m.len() implies (#[trigger] m[j1]).variant
                < (#[trigger] m[j2]).variant by {
                assert(m[j2] == rest[j2 - 1]);
                if j1 > 0 {
                    assert(m[j1] == rest[j1 - 1]);
                }
            }
            assert forall|j: int| 0 <= j < m.len() implies start <= (#[trigger] m[j]).variant by {
                if j > 0 {
                    assert(m[j] == rest[j - 1]);
                }
            }
        } else {
            assert(m == rest);
        }
    }
}

/// The bubble branches of every `build_from` that the derive writes are
/// exactly the variants with a `#[bubble(bubble)]` field, in increasing
/// order.
pub proof fn lemma_bubble_branches_are_the_bubble_variants(
    input: BubbleInput,
    plans: Seq<Option<VariantPlan>>,
    i: int,
)
    requires
        input.spec_reconstruct() == Some(Ok::<Seq<Option<VariantPlan>>, DeriveError>(plans)),
        input.data matches InputData::Enum(vs) && vs@.len() <= usize::MAX && 0 <= i < vs@.len(),
    ensures
        input.data matches InputData::Enum(vs) && (plans[i] matches Some(p) ==> {
            &&& forall|k: int|
                #![trigger vs@[k]]
                (exists|j: int| 0 <= j < p.branches.len() && #[trigger] p.branches[j].variant as int == k)
                    <==> (0 <= k < vs@.len() && exists|f: int|
                    0 <= f < vs@[k].fields@.len() && (#[trigger] vs@[k].fields@[f]).bubble)
            &&& forall|j1: int, j2: int|
                0 <= j1 < j2 < p.branches.len() ==> (#[trigger] p.branches[j1]).variant < (
                #[trigger] p.branches[j2]).variant
        }),
{
    lemma_reconstruct_shape(input, plans);
    match input.data {
        InputData::Enum(vs) => {
            assert(plan_shape(vs@, i, plans[i]));
            lemma_bubble_variants_members(vs@, 0);
        },
        InputData::NotEnum => {},
    }
}

/// Extracting the `T` of `..::Bubble<T, ..>` reads the last segment of the
/// path alone: whatever segments come before it, the result is its first
/// argument.
pub proof fn lemma_extract_reads_the_last_segment(t: TypeExpr, arg: TypeExpr)
    requires
        t matches TypeExpr::Path(segments) && segments@.len() > 0 && segments@.last().ident@
            == "Bubble"@ && (segments@.last().arguments matches PathArguments::AngleBracketed(
            args,
        ) && args@.len() > 0 && args@[0] == GenericArgument::Type(arg)),
    ensures
        t.spec_extract() == Some(Ok::<TypeExpr, DeriveError>(arg)),
{
}

// ---------------------------------------------------------------------------
// The derive's analysis.
// ---------------------------------------------------------------------------

impl BubbleField {
    /// Whether the field carries `#[from]`.
    pub fn has_from(&self) -> (r: bool)
        ensures
            r == self.spec_has_from(),
    {
        let mut i: usize = 0;
        while i < self.attrs.len()
            invariant
                i <= self.attrs@.len(),
                forall|k: int| 0 <= k < i ==> self.attrs@[k] != ForwardedAttr::From,
            decreases self.attrs@.len() - i,
        {
            if self.attrs[i] == ForwardedAttr::From {
                return true;
            }
            i += 1;
        }
        false
    }
}

impl BubbleVariant {
    /// Whether some field carries `#[from]`.
    pub fn has_from(&self) -> (r: bool)
        ensures
            r == self.spec_has_from(),
    {
        let mut i: usize = 0;
        while i < self.fields.len()
            invariant
                i <= self.fields@.len(),
                forall|k: int| 0 <= k < i ==> !self.fields@[k].spec_has_from(),
            decreases self.fields@.len() - i,
        {
            if self.fields[i].has_from() {
                return true;
            }
            i += 1;
        }
        false
    }

    /// Whether some field carries `#[bubble(bubble)]`.
    pub fn has_bubble(&self) -> (r: bool)
        ensures
            r == self.spec_has_bubble(),
    {
        let mut i: usize = 0;
        while i < self.fields.len()
            invariant
                i <= self.fields@.len(),
                forall|k: int| 0 <= k < i ==> !self.fields@[k].bubble,
            decreases self.fields@.len() - i,
        {
            if self.fields[i].bubble {
                return true;
            }
            i += 1;
        }
        false
    }

    /// The index of the first field with `#[bubble(..)]`, `#[from]` or
    /// `#[source]`.
    pub fn selected_field(&self) -> (r: Option<usize>)
        ensures
            match r {
                Some(i) => i < self.fields@.len() && first_selected(self.fields@, 0) == Some(
                    i as int,
                ),
                None => first_selected(self.fields@, 0) is None,
            },
    {
        let mut i: usize = 0;
        while i < self.fields.len()
            invariant
                i <= self.fields@.len(),
                first_selected(self.fields@, 0) == first_selected(self.fields@, i as int),
            decreases self.fields@.len() - i,
        {
            let field = &self.fields[i];
            if field.from || field.bubble || field.attrs.len() > 0 {
                return Some(i);
            }
            i += 1;
        }
        None
    }

    /// The type of the first field with `#[bubble(..)]`, `#[from]` or
    /// `#[source]`.
    pub fn field_ty(&self) -> (r: Result<&TypeExpr, DeriveError>)
        ensures
            match self.spec_field_ty() {
                Some(t) => r matches Ok(x) && *x == t,
                None => r == Err::<&TypeExpr, DeriveError>(
                    DeriveError::MissingSourceField { variant: self.ident },
                ),
            },
    {
        match self.selected_field() {
            Some(i) => Ok(&self.fields[i].ty),
            None => Err(DeriveError::MissingSourceField { variant: self.ident.clone() }),
        }
    }

    /// The `T` of a field type `Bubble<T>`. A type that is no path is
    /// refused. A path that is not `Bubble<T>`, on which the search for
    /// `Bubble` never ends, and `Bubble<>`, which has no argument to take,
    /// are left out by the precondition ([`BubbleInput::reconstruct_returns`]
    /// tells them apart beforehand).
    pub fn extract_from_bubble(field_ty: &TypeExpr) -> (r: Result<&TypeExpr, DeriveError>)
        requires
            field_ty.spec_extract() is Some,
        ensures
            field_ty.spec_extract() == Some(
                match r {
                    Ok(t) => Ok::<TypeExpr, DeriveError>(*t),
                    Err(e) => Err(e),
                },
            ),
    {
        match field_ty {
            TypeExpr::Path(segments) => {
                let last = &segments[segments.len() - 1];
                match &last.arguments {
                    PathArguments::AngleBracketed(args) => match &args[0] {
                        GenericArgument::Type(ty) => Ok(ty),
                        GenericArgument::Other => Err(DeriveError::ExpectedBubbleType),
                    },
                    _ => Err(DeriveError::ExpectedBubbleType),
                }
            },
            TypeExpr::Other => Err(DeriveError::ExpectedBubbleType),
        }
    }

    /// The bubble branch that the variant at `index` adds to every
    /// `build_from` of the enum.
    pub fn reconstruct_build_bubble_from_branch(&self, index: usize) -> (r: Result<
        BubbleBranch,
        DeriveError,
    >)
        requires
            self.spec_field_ty() matches Some(t) ==> t.spec_extract() is Some,
        ensures
            match self.spec_field_ty() {
                None => r == Err::<BubbleBranch, DeriveError>(
                    DeriveError::MissingSourceField { variant: self.ident },
                ),
                Some(t) => match t.spec_extract() {
                    Some(Ok(_)) => r == Ok::<BubbleBranch, DeriveError>(
                        BubbleBranch { variant: index },
                    ),
                    Some(Err(e)) => r == Err::<BubbleBranch, DeriveError>(e),
                    None => false,
                },
            },
    {
        let field_ty = match self.field_ty() {
            Ok(t) => t,
            Err(e) => return Err(e),
        };
        match Self::extract_from_bubble(field_ty) {
            Ok(_) => Ok(BubbleBranch { variant: index }),
            Err(e) => Err(e),
        }
    }

    /// The type of the `From` impl that the derive writes for the variant at
    /// `index`; none where the field carries `#[from]`, whose `From` impl
    /// comes from elsewhere.
    pub fn reconstruct_from(&self, index: usize) -> (r: Result<Option<TypeRef>, DeriveError>)
        requires
            self.spec_from_impl(index) is Some,
        ensures
            self.spec_from_impl(index) == Some(r),
    {
        let field_ty = match self.field_ty() {
            Ok(t) => t,
            Err(e) => return Err(e),
        };
        if self.has_from() {
            return Ok(None);
        }
        if self.has_bubble() {
            match Self::extract_from_bubble(field_ty) {
                Ok(_) => Ok(Some(TypeRef::BubbleArgument { variant: index })),
                Err(e) => Err(e),
            }
        } else {
            Ok(Some(TypeRef::Field { variant: index }))
        }
    }

    /// What the derive writes for the variant at `index` of `top`.
    pub fn reconstruct_build_from(&self, index: usize, top: &BubbleInput) -> (r: Result<
        VariantImpls,
        DeriveError,
    >)
        requires
            top.data matches InputData::Enum(variants) && index < variants@.len()
                && variants@[index as int] == *self && spec_variant_plan(variants@, index) is Some,
        ensures
            top.data matches InputData::Enum(variants) && spec_variant_plan(variants@, index)
                == Some(
                match r {
                    Ok(i) => Ok::<VariantPlan, DeriveError>(i@),
                    Err(e) => Err(e),
                },
            ),
    {
        let ghost variants = match &top.data {
            InputData::Enum(vs) => vs@,
            InputData::NotEnum => Seq::empty(),
        };
        let field_ty = match self.field_ty() {
            Ok(t) => t,
            Err(e) => return Err(e),
        };
        let all = match top.variants() {
            Ok(vs) => vs,
            Err(e) => return Err(e),
        };
        let mut branches: Vec<BubbleBranch> = Vec::new();
        let mut i: usize = 0;
        while i < all.len()
            invariant
                all@ == variants,
                top.data matches InputData::Enum(vs) && vs@ == variants,
                index < variants.len(),
                variants[index as int] == *self,
                self.spec_field_ty() is Some,
                i <= variants.len(),
                spec_branches(variants, 0) == match spec_branches(variants, i as int) {
                    None => None,
                    Some(Err(e)) => Some(Err(e)),
                    Some(Ok(rest)) => Some(Ok::<Seq<BubbleBranch>, DeriveError>(branches@ + rest)),
                },
                spec_branches(variants, 0) is Some,
            decreases variants.len() - i,
        {
            let v = &all[i];
            if v.has_bubble() {
                match v.reconstruct_build_bubble_from_branch(i) {
                    Ok(b) => {
                        let ghost before = branches@;
                        branches.push(b);
                        proof {
                            assert(before + (seq![b] + match spec_branches(variants, i + 1) {
                                Some(Ok(rest)) => rest,
                                _ => Seq::empty(),
                            }) =~= branches@ + match spec_branches(variants, i + 1) {
                                Some(Ok(rest)) => rest,
                                _ => Seq::empty(),
                            });
                        }
                    },
                    Err(e) => {
                        assert(spec_branches(variants, i as int) == Some(
                            Err::<Seq<BubbleBranch>, DeriveError>(e),
                        ));
                        return Err(e);
                    },
                }
            }
            i += 1;
        }
        proof {
            assert(branches@ + Seq::<BubbleBranch>::empty() =~= branches@);
        }
        let from_impl = match self.reconstruct_from(index) {
            Ok(f) => f,
            Err(e) => return Err(e),
        };
        if self.has_bubble() {
            match Self::extract_from_bubble(field_ty) {
                Ok(_) => {},
                Err(e) => return Err(e),
            }
            Ok(
                VariantImpls {
                    from_impl,
                    build_from: BuildFromImpl {
                        field_ty: TypeRef::BubbleArgument { variant: index },
                        branches,
                        markers: collect_markers(all, all.len()),
                        last: FinalStep::Bubble { variant: index },
                    },
                },
            )
        } else {
            Ok(
                VariantImpls {
                    from_impl,
                    build_from: BuildFromImpl {
                        field_ty: TypeRef::Field { variant: index },
                        branches,
                        markers: collect_markers(all, index),
                        last: FinalStep::Wrap { variant: index },
                    },
                },
            )
        }
    }
}

impl BubbleVariant {
    /// Whether the variant can stand in the marker branches: it has fields,
    /// and none of them carries `#[bubble(bubble)]`.
    pub fn is_marker(&self) -> (r: bool)
        ensures
            r == self.spec_is_marker(),
    {
        self.fields.len() > 0 && !self.has_bubble()
    }
}

/// The marker branches for the variants before `end`, in order.
fn collect_markers(variants: &Vec<BubbleVariant>, end: usize) -> (r: Vec<MarkerBranch>)
    requires
        end <= variants@.len(),
    ensures
        r@ == marker_variants(variants@, 0, end as int),
{
    let mut markers: Vec<MarkerBranch> = Vec::new();
    let mut i: usize = 0;
    while i < end
        invariant
            end <= variants@.len(),
            i <= end,
            marker_variants(variants@, 0, end as int) == markers@ + marker_variants(
                variants@,
                i as int,
                end as int,
            ),
        decreases end - i,
    {
        if variants[i].is_marker() {
            let ghost before = markers@;
            markers.push(MarkerBranch { variant: i });
            proof {
                assert(before + (seq![MarkerBranch { variant: i }] + marker_variants(
                    variants@,
                    i + 1,
                    end as int,
                )) =~= markers@ + marker_variants(variants@, i + 1, end as int));
            }
        }
        i += 1;
    }
    proof {
        assert(markers@ + Seq::<MarkerBranch>::empty() =~= markers@);
    }
    markers
}

impl BubbleInput {
    /// The variants of the enum; other items are refused.
    pub fn variants(&self) -> (r: Result<&Vec<BubbleVariant>, DeriveError>)
        ensures
            match self.data {
                InputData::Enum(vs) => r matches Ok(x) && *x == vs,
                InputData::NotEnum => r == Err::<&Vec<BubbleVariant>, DeriveError>(
                    DeriveError::OnlyEnums { ident: self.ident },
                ),
            },
    {
        match &self.data {
            InputData::Enum(variants) => Ok(variants),
            InputData::NotEnum => Err(DeriveError::OnlyEnums { ident: self.ident.clone() }),
        }
    }

    /// What the derive writes for each variant, in order, or the first
    /// error met.
    pub fn reconstruct_build_from(&self) -> (r: Result<Vec<Option<VariantImpls>>, DeriveError>)
        requires
            self.spec_reconstruct() is Some,
        ensures
            self.spec_reconstruct() == Some(plans_of(r)),
    {
        let variants = match self.variants() {
            Ok(vs) => vs,
            Err(e) => return Err(e),
        };
        let mut impls: Vec<Option<VariantImpls>> = Vec::new();
        let mut i: usize = 0;
        while i < variants.len()
            invariant
                self.data == InputData::Enum(*variants),
                i <= variants@.len(),
                spec_plans(variants@, 0) == match spec_plans(variants@, i as int) {
                    None => None,
                    Some(Err(e)) => Some(Err(e)),
                    Some(Ok(rest)) => Some(
                        Ok::<Seq<Option<VariantPlan>>, DeriveError>(
                            impls@.map_values(|x: Option<VariantImpls>| plan_of(x)) + rest,
                        ),
                    ),
                },
                spec_plans(variants@, 0) is Some,
            decreases variants@.len() - i,
        {
            let entry = if variants[i].fields.len() == 0 {
                None
            } else {
                match variants[i].reconstruct_build_from(i, self) {
                    Ok(x) => Some(x),
                    Err(e) => return Err(e),
                }
            };
            let ghost before = impls@.map_values(|x: Option<VariantImpls>| plan_of(x));
            impls.push(entry);
            proof {
                let rest = match spec_plans(variants@, i + 1) {
                    Some(Ok(rest)) => rest,
                    _ => Seq::empty(),
                };
                assert(impls@.map_values(|x: Option<VariantImpls>| plan_of(x)) =~= before.push(
                    plan_of(entry),
                ));
                assert(before + (seq![plan_of(entry)] + rest) =~= before.push(plan_of(entry))
                    + rest);
            }
            i += 1;
        }
        proof {
            let done = impls@.map_values(|x: Option<VariantImpls>| plan_of(x));
            assert(done + Seq::<Option<VariantPlan>>::empty() =~= done);
        }
        Ok(impls)
    }

    /// What the derive writes for the item, or why it refuses it.
    pub fn reconstruct(&self) -> (r: Result<Vec<Option<VariantImpls>>, DeriveError>)
        requires
            self.spec_reconstruct() is Some,
        ensures
            self.spec_reconstruct() == Some(plans_of(r)),
    {
        self.reconstruct_build_from()
    }
}

/// How a type is written: a path as its segments joined by `::`, each
/// segment as its identifier followed by its generic arguments in angle
/// brackets, joined by `, `; a parenthesized argument list as `(..)`; a
/// type that is no path, and a generic argument that is no type, as `_`.
pub open spec fn type_text(t: TypeExpr) -> Seq<char>
    decreases t, 0int,
{
    match t {
        TypeExpr::Path(segments) => segments_text(segments@, segments@.len() as int),
        TypeExpr::Other => seq!['_'],
    }
}

/// The first `n` segments of a path, joined by `::`.
pub open spec fn segments_text(segments: Seq<PathSegment>, n: int) -> Seq<char>
    decreases segments, n,
{
    if n <= 0 || n > segments.len() {
        Seq::empty()
    } else if n == 1 {
        segment_text(segments[0])
    } else {
        segments_text(segments, n - 1) + seq![':', ':'] + segment_text(segments[n - 1])
    }
}

/// A path segment: its identifier and its generic arguments.
pub open spec fn segment_text(segment: PathSegment) -> Seq<char>
    decreases segment, 0int,
{
    segment.ident@ + match segment.arguments {
        PathArguments::Empty => Seq::empty(),
        PathArguments::AngleBracketed(args) => seq!['<'] + arguments_text(
            args@,
            args@.len() as int,
        ) + seq!['>'],
        PathArguments::Parenthesized => seq!['(', '.', '.', ')'],
    }
}

/// The first `n` generic arguments, joined by `, `.
pub open spec fn arguments_text(args: Seq<GenericArgument>, n: int) -> Seq<char>
    decreases args, n,
{
    if n <= 0 || n > args.len() {
        Seq::empty()
    } else if n == 1 {
        argument_text(args[0])
    } else {
        arguments_text(args, n - 1) + seq![',', ' '] + argument_text(args[n - 1])
    }
}

/// A generic argument: a type as it is written, anything else as `_`.
pub open spec fn argument_text(arg: GenericArgument) -> Seq<char>
    decreases arg, 0int,
{
    match arg {
        GenericArgument::Type(t) => type_text(t),
        GenericArgument::Other => seq!['_'],
    }
}

impl TypeExpr {
    /// The name of a path type: the path as it is written
    /// ([`type_text`]).
    pub open spec fn spec_name(self) -> Option<Seq<char>> {
        match self {
            TypeExpr::Path(segments) => if segments@.len() > 0 {
                Some(type_text(self))
            } else {
                None
            },
            TypeExpr::Other => None,
        }
    }

    /// The name of a path type: the path as it is written.
    pub fn name(&self) -> (r: Option<String>)
        ensures
            match r {
                Some(n) => self.spec_name() == Some(n@),
                None => self.spec_name() is None,
            },
    {
        match self {
            TypeExpr::Path(segments) => if segments.len() > 0 {
                let mut text = String::new();
                write_type(self, &mut text);
                Some(text)
            } else {
                None
            },
            TypeExpr::Other => None,
        }
    }
}

/// Appends [`type_text`] of `t` to `text`.
fn write_type(t: &TypeExpr, text: &mut String)
    ensures
        final(text)@ == old(text)@ + type_text(*t),
    decreases *t,
{
    match t {
        TypeExpr::Path(segments) => {
            let ghost start = text@;
            let mut i: usize = 0;
            while i < segments.len()
                invariant
                    *t == TypeExpr::Path(*segments),
                    i <= segments@.len(),
                    text@ == start + segments_text(segments@, i as int),
                decreases segments@.len() - i,
            {
                if i > 0 {
                    proof {
                        reveal_strlit("::");
                    }
                    text.append("::");
                }
                proof {
                    assert(decreases_to!(*t => (*t)->Path_0));
                    assert(decreases_to!(*segments => segments@[i as int]));
                }
                write_segment(&segments[i], text);
                i += 1;
            }
            assert(text@ == start + type_text(*t));
        },
        TypeExpr::Other => {
            proof {
                reveal_strlit("_");
            }
            text.append("_");
        },
    }
}

/// Appends [`segment_text`] of `segment` to `text`.
fn write_segment(segment: &PathSegment, text: &mut String)
    ensures
        final(text)@ == old(text)@ + segment_text(*segment),
    decreases *segment,
{
    let ghost start = text@;
    text.append(segment.ident.as_str());
    match &segment.arguments {
        PathArguments::Empty => {
            assert(text@ == start + segment_text(*segment));
        },
        PathArguments::AngleBracketed(args) => {
            proof {
                reveal_strlit("<");
                reveal_strlit(">");
            }
            text.append("<");
            let ghost open = text@;
            let mut i: usize = 0;
            while i < args.len()
                invariant
                    segment.arguments == PathArguments::AngleBracketed(*args),
                    i <= args@.len(),
                    text@ == open + arguments_text(args@, i as int),
                decreases args@.len() - i,
            {
                if i > 0 {
                    proof {
                        reveal_strlit(", ");
                    }
                    text.append(", ");
                }
                proof {
                    assert(decreases_to!(*segment => segment.arguments));
                    assert(decreases_to!(segment.arguments => segment.arguments->AngleBracketed_0));
                    assert(decreases_to!(*args => args@[i as int]));
                }
                write_argument(&args[i], text);
                i += 1;
            }
            text.append(">");
            assert(text@ == start + segment_text(*segment));
        },
        PathArguments::Parenthesized => {
            proof {
                reveal_strlit("(..)");
            }
            text.append("(..)");
            assert(text@ == start + segment_text(*segment));
        },
    }
}

/// Appends [`argument_text`] of `arg` to `text`.
fn write_argument(arg: &GenericArgument, text: &mut String)
    ensures
        final(text)@ == old(text)@ + argument_text(*arg),
    decreases *arg,
{
    match arg {
        GenericArgument::Type(t) => write_type(t, text),
        GenericArgument::Other => {
            proof {
                reveal_strlit("_");
            }
            text.append("_");
        },
    }
}

impl BubbleVariant {
    /// Whether the selected field is the variant's source: it carries
    /// `#[source]` or `#[from]`.
    pub fn field_is_source(&self) -> (r: bool)
        ensures
            r == self.spec_field_is_source(),
    {
        match self.selected_field() {
            Some(i) => self.fields[i].attrs.len() > 0,
            None => false,
        }
    }
}

impl TypeExpr {
    /// Whether extracting the `T` of `Bubble<T>` from this type returns.
    pub fn extract_halts(&self) -> (r: bool)
        ensures
            r == self.spec_extract() is Some,
    {
        match self {
            TypeExpr::Path(segments) => {
                if segments.len() == 0 {
                    return false;
                }
                let last = &segments[segments.len() - 1];
                let bubble = "Bubble".to_owned();
                if last.ident != bubble {
                    return false;
                }
                match &last.arguments {
                    PathArguments::AngleBracketed(args) => args.len() > 0 && match &args[0] {
                        GenericArgument::Type(_) => true,
                        GenericArgument::Other => false,
                    },
                    _ => false,
                }
            },
            TypeExpr::Other => true,
        }
    }
}

/// Whether collecting the bubble branches of `variants` returns (`None` where
/// it does not), and if so whether it succeeds.
fn bubble_branches_outcome(variants: &Vec<BubbleVariant>) -> (r: Option<bool>)
    ensures
        match r {
            None => spec_branches(variants@, 0) is None,
            Some(ok) => spec_branches(variants@, 0) matches Some(res) && (res is Ok) == ok,
        },
{
    let mut i: usize = 0;
    while i < variants.len()
        invariant
            i <= variants@.len(),
            match spec_branches(variants@, i as int) {
                None => spec_branches(variants@, 0) is None,
                Some(Err(_)) => spec_branches(variants@, 0) matches Some(res) && res is Err,
                Some(Ok(_)) => spec_branches(variants@, 0) matches Some(res) && res is Ok,
            },
        decreases variants@.len() - i,
    {
        let v = &variants[i];
        if v.has_bubble() {
            match v.field_ty() {
                Err(_) => return Some(false),
                Ok(t) => {
                    if !t.extract_halts() {
                        return None;
                    }
                    if let TypeExpr::Other = t {
                        return Some(false);
                    }
                },
            }
        }
        i += 1;
    }
    Some(true)
}

impl BubbleInput {
    /// Whether the analysis has a result on this item: it has none where a
    /// field type marked `#[bubble(bubble)]` is a path but not `Bubble<T>`
    /// (the search for `Bubble` in it never ends), or is `Bubble<>` (no
    /// argument to take), and no earlier error stops it. The derive asks
    /// this first and refuses such an enum with an error.
    pub fn reconstruct_returns(&self) -> (r: bool)
        ensures
            r == self.spec_reconstruct() is Some,
    {
        let variants = match &self.data {
            InputData::Enum(vs) => vs,
            InputData::NotEnum => return true,
        };
        let branches = bubble_branches_outcome(variants);
        let mut i: usize = 0;
        while i < variants.len()
            invariant
                self.data == InputData::Enum(*variants),
                i <= variants@.len(),
                match branches {
                    None => spec_branches(variants@, 0) is None,
                    Some(ok) => spec_branches(variants@, 0) matches Some(res) && (res is Ok)
                        == ok,
                },
                (spec_plans(variants@, 0) is Some) == (spec_plans(variants@, i as int) is Some),
            decreases variants@.len() - i,
        {
            let v = &variants[i];
            if v.fields.len() == 0 {
                i += 1;
                continue;
            }
            let t = match v.field_ty() {
                Err(_) => return true,
                Ok(t) => t,
            };
            match branches {
                None => return false,
                Some(false) => return true,
                Some(true) => {},
            }
            if v.has_bubble() {
                if !t.extract_halts() {
                    return false;
                }
                if let TypeExpr::Other = t {
                    return true;
                }
            }
            i += 1;
        }
        true
    }
}

} // verus!
