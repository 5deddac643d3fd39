use vstd::prelude::*;

use crate::bubble::Bubble;
use crate::cast::CastInto;
use crate::derive::{
    BubbleInput, BubbleVariant, DeriveError, FinalStep, InputData, TypeRef, VariantImpls,
    VariantPlan, consistent, lemma_reconstruct_shape, plan_shape, first_selected, ForwardedAttr, BubbleField,
    lemma_first_selected_is,
};
use crate::value::ErrorValue;

verus! {

/// `.or_else(|from| Bubble::<target>::build(from).map(Top::variant))`.
#[derive(Debug, PartialEq, Eq)]
pub struct Branch {
    pub target: String,
    pub variant: String,
}

/// `.or_else(|from| marker!(X, target).sbuild_from(from).map(Top::variant))`,
/// where `X` is the field type of the conversion. Where the type `target` has
/// a `BuildFrom<X>` of its own, `builder` is what that does, and the branch
/// puts its result in the variant, or passes `from` on where it gives none.
/// Otherwise the branch takes `from` itself where it has type `target`, else
/// the atomic error of type `target` that `from` holds. `is_source` tells
/// whether the variant's field is its source.
#[derive(Debug, PartialEq, Eq)]
pub struct CastBranch {
    pub target: String,
    pub variant: String,
    pub is_source: bool,
    pub builder: Option<Box<Conversion>>,
}

/// The last step of a generated `build_from`.
#[derive(Debug, PartialEq, Eq)]
pub enum LastStep {
    /// `Ok(Top::variant(from))`; `is_source` tells whether the variant's
    /// field is its source.
    Wrap { variant: String, is_source: bool },
    /// `Bubble::<target>::build(from).map(Top::variant)`.
    Build { target: String, variant: String },
}

/// What the code that the derive writes for one variant of the enum `top`
/// does: `impl BuildFrom<field_ty> for top`, and, where `generates_from`,
/// `impl From<field_ty> for top`, which unwraps its result. Types are named.
#[derive(Debug, PartialEq, Eq)]
pub struct Conversion {
    pub top: String,
    pub field_ty: String,
    pub generates_from: bool,
    pub branches: Vec<Branch>,
    pub casts: Vec<CastBranch>,
    pub last: LastStep,
}

/// Whether a marker branch without a builder turns `e` into a value: `e` has
/// type `target`, or holds an atomic error of type `target`.
pub open spec fn cast_applies(target: Seq<char>, e: ErrorValue) -> bool {
    e.ty_name() == target || (e.leaf() matches Some(l) && l.ty_name() == target)
}

/// What a marker branch without a builder turns `e` into.
pub open spec fn cast_value(target: Seq<char>, e: ErrorValue) -> ErrorValue {
    if e.ty_name() == target {
        e
    } else {
        e.leaf()->0
    }
}

/// Whether the marker branch `cast` turns `e` into a value: by its builder
/// where it has one, else by [`cast_applies`].
pub open spec fn branch_applies(cast: CastBranch, e: ErrorValue) -> bool
    decreases cast, 0int,
{
    match cast.builder {
        Some(c) => (*c).succeeds(e),
        None => cast_applies(cast.target@, e),
    }
}

/// The index of the first marker branch at or after `start` that turns `e`
/// into a value.
pub open spec fn first_cast(casts: Seq<CastBranch>, e: ErrorValue, start: int) -> Option<int>
    decreases casts, casts.len() - start,
{
    if start < 0 || start >= casts.len() {
        None
    } else if branch_applies(casts[start], e) {
        Some(start)
    } else {
        first_cast(casts, e, start + 1)
    }
}

/// The index of the first branch at or after `start` whose target the source
/// chain of `e` holds.
pub open spec fn first_branch(branches: Seq<Branch>, e: ErrorValue, start: int) -> Option<int>
    decreases branches.len() - start,
{
    if start < 0 || start >= branches.len() {
        None
    } else if e.chain_has(branches[start].target@) {
        Some(start)
    } else {
        first_branch(branches, e, start + 1)
    }
}

/// `r` is `Ok(top::variant(b))` for a bubble `b` built for `target` around
/// `from`.
pub open spec fn bubbled(
    r: Result<ErrorValue, ErrorValue>,
    top: String,
    variant: String,
    target: Seq<char>,
    from: ErrorValue,
) -> bool {
    r matches Ok(ErrorValue::Bubbled { ty, variant: v, bubble }) && ty == top && v == variant
        && (*bubble).target_name() == target && (*bubble).wrapped() == from
}

impl Conversion {
    /// Whether `build_from(from)` gives a value.
    pub open spec fn succeeds(self, from: ErrorValue) -> bool
        decreases self, 0int,
    {
        ||| first_branch(self.branches@, from, 0) is Some
        ||| first_cast(self.casts@, from, 0) is Some
        ||| self.last is Wrap
        ||| (self.last matches LastStep::Build { target, .. } && from.chain_has(target@))
    }

    /// What `build_from(from)` gives: the first bubble branch whose target
    /// the source chain of `from` holds wins; without one, the first marker
    /// branch that applies; without one, the last step decides.
    pub open spec fn converts(self, from: ErrorValue, r: Result<ErrorValue, ErrorValue>) -> bool
        decreases self,
    {
        match first_branch(self.branches@, from, 0) {
            Some(j) => bubbled(
                r,
                self.top,
                self.branches@[j].variant,
                self.branches@[j].target@,
                from,
            ),
            None => match first_cast(self.casts@, from, 0) {
                Some(k) => if 0 <= k < self.casts@.len() {
                    match self.casts@[k].builder {
                        Some(c) => r matches Ok(
                            ErrorValue::Variant { ty, variant, field, is_source },
                        ) && ty == self.top && variant == self.casts@[k].variant && is_source
                            == self.casts@[k].is_source && (*c).converts(from, Ok(*field)),
                        None => r == Ok::<ErrorValue, ErrorValue>(
                            ErrorValue::Variant {
                                ty: self.top,
                                variant: self.casts@[k].variant,
                                field: Box::new(cast_value(self.casts@[k].target@, from)),
                                is_source: self.casts@[k].is_source,
                            },
                        ),
                    }
                } else {
                    false
                },
                None => match self.last {
                LastStep::Wrap { variant, is_source } => r == Ok::<ErrorValue, ErrorValue>(
                    ErrorValue::Variant { ty: self.top, variant, field: Box::new(from), is_source },
                ),
                LastStep::Build { target, variant } => if from.chain_has(target@) {
                    bubbled(r, self.top, variant, target@, from)
                } else {
                    r == Err::<ErrorValue, ErrorValue>(from)
                },
                },
            },
        }
    }

    /// A last step that builds a bubble builds it for the field's type.
    pub open spec fn wf(self) -> bool {
        self.last matches LastStep::Build { target, .. } ==> target@ == self.field_ty@
    }

    /// `BuildFrom::build_from`: tries the branches in order, then the last
    /// step; hands `from` back unchanged where none applies.
    pub fn build_from(&self, from: ErrorValue) -> (r: Result<ErrorValue, ErrorValue>)
        ensures
            self.converts(from, r),
            r is Ok <==> self.succeeds(from),
            r matches Err(e) ==> e == from,
        decreases self,
    {
        let ghost original = from;
        let mut current = from;
        let mut i: usize = 0;
        while i < self.branches.len()
            invariant
                current == original,
                original == from,
                i <= self.branches@.len(),
                first_branch(self.branches@, original, 0) == first_branch(
                    self.branches@,
                    original,
                    i as int,
                ),
            decreases self.branches@.len() - i,
        {
            let branch = &self.branches[i];
            match Bubble::build(branch.target.clone(), current) {
                Ok(b) => {
                    return Ok(
                        ErrorValue::Bubbled {
                            ty: self.top.clone(),
                            variant: branch.variant.clone(),
                            bubble: Box::new(b),
                        },
                    );
                },
                Err(e) => {
                    current = e;
                },
            }
            i += 1;
        }
        let mut k: usize = 0;
        while k < self.casts.len()
            invariant
                current == original,
                original == from,
                first_branch(self.branches@, original, 0) is None,
                k <= self.casts@.len(),
                first_cast(self.casts@, original, 0) == first_cast(
                    self.casts@,
                    original,
                    k as int,
                ),
            decreases self.casts@.len() - k,
        {
            let cast = &self.casts[k];
            match &cast.builder {
                Some(c) => {
                    proof {
                        assert(decreases_to!(*self => self.casts));
                        assert(decreases_to!(self.casts => self.casts@[k as int]));
                        assert(decreases_to!(self.casts@[k as int] => self.casts@[k as int].builder));
                        assert(decreases_to!(self.casts@[k as int].builder => self.casts@[k as int].builder->Some_0));
                    }
                    match c.build_from(current) {
                        Ok(v) => {
                            proof {
                                assert(self.casts@[k as int].builder == Some(*c));
                                assert(branch_applies(self.casts@[k as int], original));
                                assert(first_cast(self.casts@, original, k as int) == Some(k as int));
                            }
                            return Ok(
                                ErrorValue::Variant {
                                    ty: self.top.clone(),
                                    variant: cast.variant.clone(),
                                    field: Box::new(v),
                                    is_source: cast.is_source,
                                },
                            );
                        },
                        Err(e) => {
                            proof {
                                assert(self.casts@[k as int].builder == Some(*c));
                                assert(!branch_applies(self.casts@[k as int], original));
                            }
                            current = e;
                        },
                    }
                },
                None => {
                    proof {
                        assert(self.casts@[k as int].builder is None);
                    }
                    if current.is(&cast.target) {
                        proof {
                            assert(branch_applies(self.casts@[k as int], original));
                            assert(first_cast(self.casts@, original, k as int) == Some(k as int));
                        }
                        return Ok(
                            ErrorValue::Variant {
                                ty: self.top.clone(),
                                variant: cast.variant.clone(),
                                field: Box::new(current),
                                is_source: cast.is_source,
                            },
                        );
                    }
                    if current.has(&cast.target) {
                        proof {
                            assert(branch_applies(self.casts@[k as int], original));
                            assert(first_cast(self.casts@, original, k as int) == Some(k as int));
                        }
                        return Ok(
                            ErrorValue::Variant {
                                ty: self.top.clone(),
                                variant: cast.variant.clone(),
                                field: Box::new(current.cast(&cast.target)),
                                is_source: cast.is_source,
                            },
                        );
                    }
                    proof {
                        assert(!branch_applies(self.casts@[k as int], original));
                    }
                },
            }
            k += 1;
        }
        match &self.last {
            LastStep::Wrap { variant, is_source } => Ok(
                ErrorValue::Variant {
                    ty: self.top.clone(),
                    variant: variant.clone(),
                    field: Box::new(current),
                    is_source: *is_source,
                },
            ),
            LastStep::Build { target, variant } => match Bubble::build(target.clone(), current) {
                Ok(b) => Ok(
                    ErrorValue::Bubbled {
                        ty: self.top.clone(),
                        variant: variant.clone(),
                        bubble: Box::new(b),
                    },
                ),
                Err(e) => Err(e),
            },
        }
    }

    /// The same conversion, where the type of the marker branch at `k` has a
    /// `BuildFrom` of its own from the field type, which does what `builder`
    /// does: the one that the derive writes for an enum that has a variant
    /// of the field type, say.
    pub fn with_builder(self, k: usize, builder: Conversion) -> (r: Conversion)
        requires
            k < self.casts@.len(),
            builder.top == self.casts@[k as int].target,
            builder.field_ty == self.field_ty,
        ensures
            r.top == self.top,
            r.field_ty == self.field_ty,
            r.generates_from == self.generates_from,
            r.branches@ == self.branches@,
            r.last == self.last,
            r.casts@ == self.casts@.update(
                k as int,
                CastBranch {
                    target: self.casts@[k as int].target,
                    variant: self.casts@[k as int].variant,
                    is_source: self.casts@[k as int].is_source,
                    builder: Some(Box::new(builder)),
                },
            ),
    {
        let mut casts = self.casts;
        let target = casts[k].target.clone();
        let variant = casts[k].variant.clone();
        let is_source = casts[k].is_source;
        casts.set(k, CastBranch { target, variant, is_source, builder: Some(Box::new(builder)) });
        Conversion {
            top: self.top,
            field_ty: self.field_ty,
            generates_from: self.generates_from,
            branches: self.branches,
            casts,
            last: self.last,
        }
    }

    /// `From::from`: `build_from(from).unwrap()`, which never fails on a value
    /// of the field's type.
    pub fn from(&self, from: ErrorValue) -> (r: ErrorValue)
        requires
            self.generates_from,
            self.wf(),
            from.ty_name() == self.field_ty@,
        ensures
            self.converts(from, Ok(r)),
    {
        match self.build_from(from) {
            Ok(v) => v,
            Err(e) => {
                proof {
                    assert(first_branch(self.branches@, from, 0) is None);
                    assert(first_cast(self.casts@, from, 0) is None);
                    assert(from.chain_has(self.field_ty@));
                    assert(false);
                }
                e
            },
        }
    }
}

/// The name of the type that `r` stands for among `variants`.
pub open spec fn resolve(variants: Seq<BubbleVariant>, r: TypeRef) -> Option<Seq<char>> {
    match r {
        TypeRef::Field { variant } => if variant < variants.len() {
            match variants[variant as int].spec_field_ty() {
                Some(t) => t.spec_name(),
                None => None,
            }
        } else {
            None
        },
        TypeRef::BubbleArgument { variant } => if variant < variants.len() {
            match variants[variant as int].spec_field_ty() {
                Some(t) => if t.is_bubble_path() {
                    t.bubble_argument().spec_name()
                } else {
                    None
                },
                None => None,
            }
        } else {
            None
        },
    }
}

/// Every type that `plan` names has a name among `variants`.
pub open spec fn resolvable(variants: Seq<BubbleVariant>, plan: VariantPlan) -> bool {
    &&& resolve(variants, plan.field_ty) is Some
    &&& forall|k: int|
        0 <= k < plan.branches.len() ==> resolve(
            variants,
            TypeRef::BubbleArgument { variant: #[trigger] plan.branches[k].variant },
        ) is Some
    &&& forall|k: int|
        0 <= k < plan.markers.len() ==> resolve(
            variants,
            TypeRef::Field { variant: #[trigger] plan.markers[k].variant },
        ) is Some
    &&& match plan.last {
        FinalStep::Wrap { variant } => resolve(variants, TypeRef::Field { variant }) is Some,
        FinalStep::Bubble { variant } => resolve(variants, TypeRef::BubbleArgument { variant })
            is Some,
    }
}

/// The name of the type that `r` stands for among `variants`.
fn resolve_type(variants: &Vec<BubbleVariant>, r: TypeRef) -> (s: String)
    requires
        resolve(variants@, r) is Some,
    ensures
        resolve(variants@, r) == Some(s@),
{
    match r {
        TypeRef::Field { variant } => {
            let ty = variants[variant].field_ty().unwrap();
            ty.name().unwrap()
        },
        TypeRef::BubbleArgument { variant } => {
            let ty = variants[variant].field_ty().unwrap();
            let arg = BubbleVariant::extract_from_bubble(ty).unwrap();
            arg.name().unwrap()
        },
    }
}

/// `c` is what the impls that `plan` stands for do, with types named.
pub open spec fn describes(
    top: String,
    vs: Seq<BubbleVariant>,
    plan: VariantPlan,
    c: Conversion,
) -> bool {
    &&& c.top == top
    &&& resolve(vs, plan.field_ty) == Some(c.field_ty@)
    &&& c.generates_from == plan.from_impl is Some
    &&& c.branches@.len() == plan.branches.len()
    &&& forall|k: int|
        0 <= k < plan.branches.len() ==> {
            &&& resolve(vs, TypeRef::BubbleArgument { variant: plan.branches[k].variant }) == Some(
                #[trigger] c.branches@[k].target@,
            )
            &&& c.branches@[k].variant == vs[plan.branches[k].variant as int].ident
        }
    &&& c.casts@.len() == plan.markers.len()
    &&& forall|k: int|
        0 <= k < plan.markers.len() ==> {
            &&& resolve(vs, TypeRef::Field { variant: plan.markers[k].variant }) == Some(
                #[trigger] c.casts@[k].target@,
            )
            &&& c.casts@[k].variant == vs[plan.markers[k].variant as int].ident
            &&& c.casts@[k].is_source == vs[plan.markers[k].variant as int].spec_field_is_source()
            &&& c.casts@[k].builder is None
        }
    &&& match plan.last {
        FinalStep::Wrap { variant } => c.last == LastStep::Wrap {
            variant: vs[variant as int].ident,
            is_source: vs[variant as int].spec_field_is_source(),
        },
        FinalStep::Bubble { variant } => c.last matches LastStep::Build { target, variant: v }
            && resolve(vs, TypeRef::BubbleArgument { variant }) == Some(target@) && v
            == vs[variant as int].ident,
    }
}

impl BubbleInput {
    /// What the impls that the derive writes for a variant do, with the
    /// types they name by their names.
    pub fn conversion(&self, impls: &VariantImpls) -> (r: Conversion)
        requires
            self.data matches InputData::Enum(variants) && resolvable(variants@, impls@),
        ensures
            self.data matches InputData::Enum(variants) && describes(
                self.ident,
                variants@,
                impls@,
                r,
            ),
            consistent(impls@) ==> r.wf(),
    {
        let variants = match &self.data {
            InputData::Enum(vs) => vs,
            InputData::NotEnum => {
                proof {
                    assert(false);
                }
                return Conversion {
                    top: self.ident.clone(),
                    field_ty: self.ident.clone(),
                    generates_from: false,
                    branches: Vec::new(),
                    casts: Vec::new(),
                    last: LastStep::Wrap { variant: self.ident.clone(), is_source: false },
                };
            },
        };
        let plan = &impls.build_from;
        let mut branches: Vec<Branch> = Vec::new();
        let mut k: usize = 0;
        while k < plan.branches.len()
            invariant
                self.data == InputData::Enum(*variants),
                resolvable(variants@, impls@),
                plan == &impls.build_from,
                k <= plan.branches@.len(),
                branches@.len() == k,
                forall|j: int|
                    0 <= j < k ==> {
                        &&& resolve(
                            variants@,
                            TypeRef::BubbleArgument { variant: plan.branches@[j].variant },
                        ) == Some(#[trigger] branches@[j].target@)
                        &&& branches@[j].variant == variants@[plan.branches@[j].variant as int].ident
                    },
            decreases plan.branches@.len() - k,
        {
            let w: usize = plan.branches[k].variant;
            let target = resolve_type(variants, TypeRef::BubbleArgument { variant: w });
            branches.push(Branch { target, variant: variants[w].ident.clone() });
            k += 1;
        }
        let mut casts: Vec<CastBranch> = Vec::new();
        let mut m: usize = 0;
        while m < plan.markers.len()
            invariant
                self.data == InputData::Enum(*variants),
                resolvable(variants@, impls@),
                plan == &impls.build_from,
                m <= plan.markers@.len(),
                casts@.len() == m,
                forall|j: int|
                    0 <= j < m ==> {
                        &&& resolve(
                            variants@,
                            TypeRef::Field { variant: plan.markers@[j].variant },
                        ) == Some(#[trigger] casts@[j].target@)
                        &&& casts@[j].variant == variants@[plan.markers@[j].variant as int].ident
                        &&& casts@[j].is_source == variants@[plan.markers@[j].variant as int].spec_field_is_source()
                    },
                forall|j: int| 0 <= j < m ==> (#[trigger] casts@[j]).builder is None,
            decreases plan.markers@.len() - m,
        {
            let w: usize = plan.markers[m].variant;
            let target = resolve_type(variants, TypeRef::Field { variant: w });
            casts.push(
                CastBranch {
                    target,
                    variant: variants[w].ident.clone(),
                    is_source: variants[w].field_is_source(),
                    builder: None,
                },
            );
            assert(casts@[m as int].builder is None);
            m += 1;
        }
        let field_ty = resolve_type(variants, plan.field_ty);
        let last = match plan.last {
            FinalStep::Wrap { variant } => LastStep::Wrap {
                variant: variants[variant].ident.clone(),
                is_source: variants[variant].field_is_source(),
            },
            FinalStep::Bubble { variant } => LastStep::Build {
                target: resolve_type(variants, TypeRef::BubbleArgument { variant }),
                variant: variants[variant].ident.clone(),
            },
        };
        Conversion {
            top: self.ident.clone(),
            field_ty,
            generates_from: impls.from_impl.is_some(),
            branches,
            casts,
            last,
        }
    }
}

proof fn lemma_first_branch_at_most(branches: Seq<Branch>, e: ErrorValue, start: int, i: int)
    requires
        0 <= start <= i < branches.len(),
        e.chain_has(branches[i].target@),
    ensures
        first_branch(branches, e, start) matches Some(k) && start <= k <= i && e.chain_has(
            branches[k].target@,
        ) && forall|j: int| start <= j < k ==> !e.chain_has(#[trigger] branches[j].target@),
    decreases i - start,
{
    if !e.chain_has(branches[start].target@) {
        lemma_first_branch_at_most(branches, e, start + 1, i);
    }
}

/// The order of the variants matters: where the source chain holds the
/// targets of several bubble branches, the earliest of them wins.
pub proof fn lemma_earliest_branch_wins(
    c: Conversion,
    from: ErrorValue,
    r: Result<ErrorValue, ErrorValue>,
    i: int,
)
    requires
        c.converts(from, r),
        0 <= i < c.branches@.len(),
        from.chain_has(c.branches@[i].target@),
    ensures
        exists|k: int|
            0 <= k <= i && from.chain_has(c.branches@[k].target@) && (forall|j: int|
                0 <= j < k ==> !from.chain_has(#[trigger] c.branches@[j].target@)) && bubbled(
                r,
                c.top,
                c.branches@[k].variant,
                c.branches@[k].target@,
                from,
            ),
{
    lemma_first_branch_at_most(c.branches@, from, 0, i);
}

proof fn lemma_first_branch_found(branches: Seq<Branch>, e: ErrorValue, start: int)
    ensures
        first_branch(branches, e, start) matches Some(k) ==> 0 <= k < branches.len(),
    decreases branches.len() - start,
{
    if 0 <= start < branches.len() && !e.chain_has(branches[start].target@) {
        lemma_first_branch_found(branches, e, start + 1);
    }
}

proof fn lemma_first_cast_found(casts: Seq<CastBranch>, e: ErrorValue, start: int)
    ensures
        first_cast(casts, e, start) matches Some(k) ==> 0 <= k < casts.len() && branch_applies(
            casts[k],
            e,
        ),
    decreases casts.len() - start,
{
    if 0 <= start < casts.len() && !branch_applies(casts[start], e) {
        lemma_first_cast_found(casts, e, start + 1);
    }
}

/// `v` keeps `from`: it is `from`, or the atomic error at the end of
/// `from`, or a bubble around all of `from`, or a variant that holds a value
/// that keeps `from`.
pub open spec fn keeps(v: ErrorValue, from: ErrorValue) -> bool
    decreases v,
{
    ||| v == from
    ||| Some(v) == from.leaf()
    ||| (v matches ErrorValue::Bubbled { bubble, .. } && (*bubble).wrapped() == from)
    ||| (v matches ErrorValue::Variant { field, .. } && keeps(*field, from))
}

/// What a conversion keeps of the error it converts: a bubble keeps all of
/// it; a variant holds all of it, or, where a marker branch casts it, only
/// the atomic error at its end (the context around it is lost), or, where
/// a marker branch builds through the `BuildFrom` of its type, what that
/// keeps; and where there is no result, the error comes back unchanged.
pub proof fn lemma_conversion_keeps_error(
    c: Conversion,
    from: ErrorValue,
    r: Result<ErrorValue, ErrorValue>,
)
    requires
        c.converts(from, r),
    ensures
        match r {
            Ok(ErrorValue::Bubbled { ty, bubble, .. }) => ty == c.top && (*bubble).wrapped()
                == from,
            Ok(ErrorValue::Variant { ty, field, .. }) => ty == c.top && keeps(*field, from),
            Ok(_) => false,
            Err(e) => e == from,
        },
    decreases c,
{
    lemma_first_branch_found(c.branches@, from, 0);
    lemma_first_cast_found(c.casts@, from, 0);
    if first_branch(c.branches@, from, 0) is None {
        if let Some(k) = first_cast(c.casts@, from, 0) {
            if let Some(b) = c.casts@[k].builder {
                let field = r->Ok_0->field;
                assert(decreases_to!(c => c.casts));
                assert(decreases_to!(c.casts => c.casts@[k]));
                assert(decreases_to!(c.casts@[k] => c.casts@[k].builder));
                assert(decreases_to!(c.casts@[k].builder => c.casts@[k].builder->Some_0));
                lemma_conversion_keeps_error(*b, from, Ok(*field));
            }
        }
    }
}

proof fn lemma_no_branch_applies(branches: Seq<Branch>, e: ErrorValue, start: int)
    requires
        forall|j: int| 0 <= j < branches.len() ==> !e.chain_has(#[trigger] branches[j].target@),
    ensures
        first_branch(branches, e, start) is None,
    decreases branches.len() - start,
{
    if 0 <= start < branches.len() {
        lemma_no_branch_applies(branches, e, start + 1);
    }
}

proof fn lemma_first_cast_is(casts: Seq<CastBranch>, e: ErrorValue, start: int, k: int)
    requires
        0 <= start <= k < casts.len(),
        branch_applies(casts[k], e),
        forall|j: int| start <= j < k ==> !branch_applies(#[trigger] casts[j], e),
    ensures
        first_cast(casts, e, start) == Some(k),
    decreases k - start,
{
    if start < k {
        lemma_first_cast_is(casts, e, start + 1, k);
    }
}

/// A marker branch without a builder takes the atomic error at the end of
/// the converted value, however deep in nested variants it lies: where no
/// bubble branch applies, and the `k`-th marker branch is the first whose
/// type is that of the value or of its atomic error, the result is that
/// branch's variant, holding the value itself where it has the branch's
/// type and its atomic error otherwise, with the variant's own source flag.
pub proof fn lemma_marker_takes_the_leaf_at_any_depth(
    c: Conversion,
    from: ErrorValue,
    r: Result<ErrorValue, ErrorValue>,
    k: int,
    l: ErrorValue,
)
    requires
        c.converts(from, r),
        forall|j: int| 0 <= j < c.branches@.len() ==> !from.chain_has(#[trigger] c.branches@[j].target@),
        0 <= k < c.casts@.len(),
        forall|j: int| 0 <= j <= k ==> (#[trigger] c.casts@[j]).builder is None,
        from.leaf() == Some(l),
        l.ty_name() == c.casts@[k].target@,
        forall|j: int|
            0 <= j < k ==> from.ty_name() != (#[trigger] c.casts@[j]).target@ && l.ty_name()
                != c.casts@[j].target@,
    ensures
        r == Ok::<ErrorValue, ErrorValue>(
            ErrorValue::Variant {
                ty: c.top,
                variant: c.casts@[k].variant,
                field: Box::new(
                    if from.ty_name() == c.casts@[k].target@ {
                        from
                    } else {
                        l
                    },
                ),
                is_source: c.casts@[k].is_source,
            },
        ),
{
    lemma_no_branch_applies(c.branches@, from, 0);
    assert forall|j: int| 0 <= j < k implies !branch_applies(#[trigger] c.casts@[j], from) by {
        assert(c.casts@[j].builder is None);
    }
    assert(c.casts@[k].builder is None);
    lemma_first_cast_is(c.casts@, from, 0, k);
}

/// A conversion that ends in a variant of the enum gives that variant the
/// source flag of its own field: the flag of a marker branch for that
/// variant, or of the last step that wraps into it.
pub proof fn lemma_result_keeps_the_variants_source_flag(
    c: Conversion,
    from: ErrorValue,
    r: Result<ErrorValue, ErrorValue>,
)
    requires
        c.converts(from, r),
    ensures
        r matches Ok(ErrorValue::Variant { variant, is_source, .. }) ==> (exists|k: int|
            0 <= k < c.casts@.len() && (#[trigger] c.casts@[k]).variant == variant
                && c.casts@[k].is_source == is_source) || (c.last matches LastStep::Wrap {
            variant: v,
            is_source: s,
        } && v == variant && s == is_source),
{
    lemma_first_branch_found(c.branches@, from, 0);
    lemma_first_cast_found(c.casts@, from, 0);
    if first_branch(c.branches@, from, 0) is None {
        if let Some(k) = first_cast(c.casts@, from, 0) {
            if let Ok(ErrorValue::Variant { variant, is_source, .. }) = r {
                assert(c.casts@[k].variant == variant && c.casts@[k].is_source == is_source);
            }
        }
    }
}

/// `f` is the first field of `fields` with `#[bubble(..)]`, `#[from]` or
/// `#[source]`.
pub open spec fn first_marked_field(fields: Seq<BubbleField>, f: int) -> bool {
    &&& 0 <= f < fields.len()
    &&& (fields[f].from || fields[f].bubble || fields[f].attrs@.len() > 0)
    &&& forall|g: int|
        0 <= g < f ==> !((#[trigger] fields[g]).from || fields[g].bubble || fields[g].attrs@.len()
            > 0)
}

/// The field carries `#[from]` or `#[source]`.
pub open spec fn carries_source_attr(field: BubbleField) -> bool {
    exists|a: int|
        0 <= a < field.attrs@.len() && (field.attrs@[a] == ForwardedAttr::From || field.attrs@[a]
            == ForwardedAttr::Source)
}

/// Each marker branch of the conversion that the derive writes for a
/// variant carries the source flag of the variant it tries: set exactly
/// where that variant's first field with `#[bubble(..)]`, `#[from]` or
/// `#[source]` carries `#[from]` or `#[source]`.
pub proof fn lemma_cast_branches_carry_their_variants_source_flag(
    top: String,
    vs: Seq<BubbleVariant>,
    plan: VariantPlan,
    c: Conversion,
)
    requires
        describes(top, vs, plan, c),
    ensures
        forall|k: int|
            0 <= k < c.casts@.len() ==> ((#[trigger] c.casts@[k]).is_source <==> exists|f: int|
                first_marked_field(vs[plan.markers[k].variant as int].fields@, f)
                    && carries_source_attr(vs[plan.markers[k].variant as int].fields@[f])),
{
    assert forall|k: int| 0 <= k < c.casts@.len() implies ((#[trigger] c.casts@[k]).is_source
        <==> exists|f: int|
        first_marked_field(vs[plan.markers[k].variant as int].fields@, f) && carries_source_attr(
            vs[plan.markers[k].variant as int].fields@[f],
        )) by {
        let fields = vs[plan.markers[k].variant as int].fields@;
        lemma_first_selected_is(fields, 0);
        assert(c.casts@[k].target@ == c.casts@[k].target@);
        assert(c.casts@[k].is_source == vs[plan.markers[k].variant as int].spec_field_is_source());
        match first_selected(fields, 0) {
            Some(f) => {
                assert(first_marked_field(fields, f));
                if fields[f].attrs@.len() > 0 {
                    match fields[f].attrs@[0] {
                        ForwardedAttr::From => {},
                        ForwardedAttr::Source => {},
                    }
                    assert(carries_source_attr(fields[f]));
                }
                assert forall|g: int| first_marked_field(fields, g) implies g == f by {
                    if g < f {
                        assert(fields[g].selected());
                    }
                    if f < g {
                        assert(!fields[f].selected());
                    }
                }
            },
            None => {
                assert forall|g: int| !first_marked_field(fields, g) by {
                    if 0 <= g < fields.len() {
                        assert(!fields[g].selected());
                    }
                }
            },
        }
    }
}

/// The `From` impl that the derive writes for a variant of an enum it
/// accepts never fails on a value of its field type: whatever
/// `build_from` gives is `Ok`.
pub proof fn lemma_generated_from_never_fails(
    input: BubbleInput,
    plans: Seq<Option<VariantPlan>>,
    i: int,
    c: Conversion,
    x: ErrorValue,
    r: Result<ErrorValue, ErrorValue>,
)
    requires
        input.spec_reconstruct() == Some(Ok::<Seq<Option<VariantPlan>>, DeriveError>(plans)),
        input.data matches InputData::Enum(vs) && vs@.len() <= usize::MAX && 0 <= i < vs@.len()
            && (plans[i] matches Some(p) && p.from_impl is Some && describes(
            input.ident,
            vs@,
            p,
            c,
        )),
        x.ty_name() == c.field_ty@,
        c.converts(x, r),
    ensures
        c.generates_from,
        c.wf(),
        r is Ok,
{
    lemma_reconstruct_shape(input, plans);
    match input.data {
        InputData::Enum(vs) => {
            assert(plan_shape(vs@, i, plans[i]));
        },
        InputData::NotEnum => {},
    }
}

} // verus!
