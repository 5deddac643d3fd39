use vstd::prelude::*;

use crate::bubble::Bubble;

verus! {

/// An error that is not composed of other errors, known by its type's name.
#[derive(Debug, PartialEq, Eq)]
pub struct Leaf {
    pub ty: String,
}

/// An error value: the name of its type and, for a variant of an error
/// enum, the variant and what the variant holds.
#[derive(Debug, PartialEq, Eq)]
pub enum ErrorValue {
    /// A value of an atomic error type.
    Atomic(Leaf),
    /// A variant of an error enum holding another error. `is_source` tells
    /// whether that error is the variant's source (`#[source]` or `#[from]`).
    Variant { ty: String, variant: String, field: Box<ErrorValue>, is_source: bool },
    /// A variant of an error enum holding a [`Bubble`]. A bubble is not an
    /// error itself, so such a value has no source.
    Bubbled { ty: String, variant: String, bubble: Box<Bubble> },
    /// A variant of an error enum without fields.
    Unit { ty: String, variant: String },
}

impl ErrorValue {
    /// The name of the value's type.
    pub open spec fn ty_name(self) -> Seq<char> {
        match self {
            ErrorValue::Atomic(leaf) => leaf.ty@,
            ErrorValue::Variant { ty, .. } => ty@,
            ErrorValue::Bubbled { ty, .. } => ty@,
            ErrorValue::Unit { ty, .. } => ty@,
        }
    }

    /// The source chain: the value itself, its source, the source of that, ...
    pub open spec fn sources(self) -> Seq<ErrorValue>
        decreases self,
    {
        match self {
            ErrorValue::Variant { field, is_source, .. } => if is_source {
                seq![self] + (*field).sources()
            } else {
                seq![self]
            },
            _ => seq![self],
        }
    }

    /// The first error of type `ty` in the source chain, if there is one.
    pub open spec fn find_in_chain(self, ty: Seq<char>) -> Option<ErrorValue>
        decreases self,
    {
        if self.ty_name() == ty {
            Some(self)
        } else {
            match self {
                ErrorValue::Variant { field, is_source, .. } => if is_source {
                    (*field).find_in_chain(ty)
                } else {
                    None
                },
                _ => None,
            }
        }
    }

    /// Whether some error in the source chain has type `ty`.
    pub open spec fn chain_has(self, ty: Seq<char>) -> bool {
        self.find_in_chain(ty) is Some
    }

    /// The number of errors in the source chain.
    pub open spec fn chain_len(self) -> nat
        decreases self,
    {
        match self {
            ErrorValue::Variant { field, is_source, .. } => if is_source {
                1 + (*field).chain_len()
            } else {
                1
            },
            _ => 1,
        }
    }

    /// The value's source, by reference.
    pub open spec fn source_ref(&self) -> Option<&ErrorValue> {
        match self {
            ErrorValue::Variant { field, is_source, .. } => if *is_source {
                Some(&**field)
            } else {
                None
            },
            _ => None,
        }
    }

    /// The value's source (`Error::source`).
    pub fn source(&self) -> (r: Option<&ErrorValue>)
        ensures
            r == self.source_ref(),
    {
        match self {
            ErrorValue::Variant { field, is_source, .. } => if *is_source {
                Some(&**field)
            } else {
                None
            },
            _ => None,
        }
    }

    /// Whether the value's type is named `ty` (`Error::is`).
    pub fn is(&self, ty: &String) -> (r: bool)
        ensures
            r == (self.ty_name() == ty@),
    {
        match self {
            ErrorValue::Atomic(leaf) => leaf.ty == *ty,
            ErrorValue::Variant { ty: name, .. } => *name == *ty,
            ErrorValue::Bubbled { ty: name, .. } => *name == *ty,
            ErrorValue::Unit { ty: name, .. } => *name == *ty,
        }
    }
}

/// Where a walk along a source chain goes from `current`: to its source.
pub open spec fn step(current: Option<&ErrorValue>) -> Option<&ErrorValue> {
    match current {
        Some(e) => e.source_ref(),
        None => None,
    }
}

/// Where `n` steps along a source chain go from `current`.
pub open spec fn walk(current: Option<&ErrorValue>, n: nat) -> Option<&ErrorValue>
    decreases n,
{
    if n == 0 {
        current
    } else {
        walk(step(current), (n - 1) as nat)
    }
}

/// Walks a source chain, from an error to its source and on.
pub struct SourceIter<'a> {
    pub current: Option<&'a ErrorValue>,
}

impl<'a> SourceIter<'a> {
    /// An iterator over the source chain of `error`, starting with `error`.
    pub fn new(error: &'a ErrorValue) -> (r: SourceIter<'a>)
        ensures
            r.current == Some(error),
    {
        SourceIter { current: Some(error) }
    }

    /// Hands out the current error and moves on to its source.
    pub fn next(&mut self) -> (r: Option<&'a ErrorValue>)
        ensures
            r == old(self).current,
            final(self).current == step(old(self).current),
    {
        let current = self.current;
        self.current = match current {
            Some(e) => e.source(),
            None => None,
        };
        current
    }
}

/// The first error of a type in the source chain, as [`ErrorValue::find_in_chain`]
/// finds it, is the first error of that type in [`ErrorValue::sources`]:
/// the chain holds an error of type `t` exactly where some error in it has
/// type `t`, at any depth.
pub proof fn lemma_find_in_chain_is_first_in_sources(e: ErrorValue, t: Seq<char>)
    ensures
        e.chain_has(t) <==> exists|i: int|
            0 <= i < e.sources().len() && (#[trigger] e.sources()[i]).ty_name() == t,
        e.find_in_chain(t) matches Some(x) ==> exists|i: int|
            0 <= i < e.sources().len() && e.sources()[i] == x && x.ty_name() == t && forall|
                j: int,
            |
                0 <= j < i ==> (#[trigger] e.sources()[j]).ty_name() != t,
    decreases e,
{
    match e {
        ErrorValue::Variant { field, is_source, .. } => {
            if is_source {
                lemma_find_in_chain_is_first_in_sources(*field, t);
                let rest = (*field).sources();
                assert(e.sources() == seq![e] + rest);
                assert(e.sources()[0] == e);
                assert forall|i: int| 0 < i < e.sources().len() implies e.sources()[i] == rest[i
                    - 1] by {}
                if e.ty_name() != t {
                    if (*field).chain_has(t) {
                        let i: int = choose|i: int|
                            0 <= i < rest.len() && (#[trigger] rest[i]).ty_name() == t;
                        assert(e.sources()[i + 1] == rest[i]);
                        let x = (*field).find_in_chain(t)->0;
                        let i2: int = choose|i: int|
                            0 <= i < rest.len() && rest[i] == x && x.ty_name() == t && forall|
                                j: int,
                            |
                                0 <= j < i ==> (#[trigger] rest[j]).ty_name() != t;
                        assert(e.sources()[i2 + 1] == x);
                        assert forall|j: int| 0 <= j < i2 + 1 implies (
                        #[trigger] e.sources()[j]).ty_name() != t by {
                            if j > 0 {
                                assert(e.sources()[j] == rest[j - 1]);
                            }
                        }
                    } else {
                        assert forall|i: int| 0 <= i < e.sources().len() implies (
                        #[trigger] e.sources()[i]).ty_name() != t by {
                            if i > 0 {
                                assert(e.sources()[i] == rest[i - 1]);
                            }
                        }
                    }
                }
            } else {
                assert(e.sources()[0] == e);
            }
        },
        _ => {
            assert(e.sources()[0] == e);
        },
    }
}

/// Calling [`SourceIter::next`] again and again on `SourceIter::new(e)`
/// yields the source chain of `e` in order, then nothing: call `k + 1`
/// returns `walk(Some(&e), k)`, which is the `k`-th error of the chain while
/// `k` is below its length, and nothing after.
pub proof fn lemma_next_walks_chain(e: &ErrorValue, k: nat)
    ensures
        (walk(Some(e), k) is Some) <==> k < e.sources().len(),
        walk(Some(e), k) matches Some(x) ==> *x == e.sources()[k as int],
    decreases k,
{
    if k > 0 {
        match e {
            ErrorValue::Variant { field, is_source, .. } => {
                assert(walk(Some(e), k) == walk(step(Some(e)), (k - 1) as nat));
                if *is_source {
                    lemma_next_walks_chain(&**field, (k - 1) as nat);
                    assert(e.sources() == seq![*e] + (**field).sources());
                } else {
                    lemma_walk_none((k - 1) as nat);
                }
            },
            _ => {
                assert(walk(Some(e), k) == walk(step(Some(e)), (k - 1) as nat));
                lemma_walk_none((k - 1) as nat);
            },
        }
    }
}

proof fn lemma_walk_none(n: nat)
    ensures
        walk(None, n) is None,
    decreases n,
{
    if n > 0 {
        lemma_walk_none((n - 1) as nat);
    }
}

/// The index of the first `true` in `matches`. Where `matches[k]` tells
/// whether the `k`-th error of a source chain has some type, it is the first
/// error of that type in the chain.
pub fn first_match(matches: &Vec<bool>) -> (r: Option<usize>)
    ensures
        match r {
            Some(k) => k < matches@.len() && matches@[k as int] && forall|j: int|
                0 <= j < k ==> !matches@[j],
            None => forall|j: int| 0 <= j < matches@.len() ==> !matches@[j],
        },
{
    let mut k: usize = 0;
    while k < matches.len()
        invariant
            k <= matches@.len(),
            forall|j: int| 0 <= j < k ==> !matches@[j],
        decreases matches@.len() - k,
    {
        if matches[k] {
            return Some(k);
        }
        k += 1;
    }
    None
}

/// Where `matches` tells for each error of the source chain of `e` whether it
/// has type `t`, [`first_match`] picks the error that
/// [`ErrorValue::find_in_chain`] finds.
pub proof fn lemma_first_match_is_find(e: ErrorValue, t: Seq<char>, matches: Seq<bool>, k: int)
    requires
        matches.len() == e.sources().len(),
        forall|j: int| 0 <= j < matches.len() ==> matches[j] == (e.sources()[j].ty_name() == t),
        0 <= k < matches.len(),
        matches[k],
        forall|j: int| 0 <= j < k ==> !matches[j],
    ensures
        e.find_in_chain(t) == Some(e.sources()[k]),
{
    lemma_find_in_chain_is_first_in_sources(e, t);
    assert(matches[k]);
    let x = e.find_in_chain(t)->0;
    let i = choose|i: int|
        0 <= i < e.sources().len() && e.sources()[i] == x && x.ty_name() == t && forall|j: int|
            0 <= j < i ==> (#[trigger] e.sources()[j]).ty_name() != t;
    if i < k {
        assert(matches[i]);
    } else if k < i {
        assert(!matches[k]);
    }
}

} // verus!
