use vstd::prelude::*;

use crate::value::{ErrorValue, SourceIter, lemma_find_in_chain_is_first_in_sources};

verus! {

/// An error whose source chain holds an error of the type named `target`.
/// The error is kept whole; the error of type `target` can be had back with
/// [`Bubble::downcast_ref`].
#[derive(Debug, PartialEq, Eq)]
pub struct Bubble {
    target: String,
    error: Box<ErrorValue>,
}

impl Bubble {
    #[verifier::type_invariant]
    spec fn holds_target(self) -> bool {
        (*self.error).chain_has(self.target@)
    }

    /// The name of the type that the bubble was built for.
    pub closed spec fn target_name(self) -> Seq<char> {
        self.target@
    }

    /// The whole error that the bubble holds.
    pub closed spec fn wrapped(self) -> ErrorValue {
        *self.error
    }

    /// Wraps `error` if its source chain holds an error of type `target`;
    /// hands `error` back unchanged otherwise.
    pub fn build(target: String, error: ErrorValue) -> (r: Result<Bubble, ErrorValue>)
        ensures
            r is Ok <==> error.chain_has(target@),
            r matches Ok(b) ==> b.wrapped() == error && b.target_name() == target@,
            r matches Err(e) ==> e == error,
    {
        let original = error;
        let mut iter = SourceIter::new(&original);
        loop
            invariant
                original == error,
                match iter.current {
                    Some(c) => original.chain_has(target@) == c.chain_has(target@),
                    None => !original.chain_has(target@),
                },
            decreases
                match iter.current {
                    Some(c) => c.chain_len(),
                    None => 0,
                },
        {
            match iter.next() {
                Some(source) => {
                    if source.is(&target) {
                        return Ok(Bubble { target, error: Box::new(original) });
                    }
                },
                None => {
                    return Err(original);
                },
            }
        }
    }

    /// The whole error that the bubble holds, whose source chain always
    /// holds an error of the bubble's type.
    pub fn full_error(&self) -> (r: &ErrorValue)
        ensures
            *r == self.wrapped(),
            r.chain_has(self.target_name()),
    {
        proof {
            use_type_invariant(self);
        }
        &*self.error
    }

    /// The first error of the target type in the source chain of the error
    /// that the bubble holds. There always is one, so this never fails.
    pub fn downcast_ref(&self) -> (r: &ErrorValue)
        ensures
            self.wrapped().find_in_chain(self.target_name()) == Some(*r),
            r.ty_name() == self.target_name(),
    {
        proof {
            use_type_invariant(self);
        }
        let mut iter = SourceIter::new(&*self.error);
        loop
            invariant
                iter.current matches Some(c) && (*self.error).find_in_chain(self.target@)
                    == c.find_in_chain(self.target@),
                (*self.error).chain_has(self.target@),
            decreases
                match iter.current {
                    Some(c) => c.chain_len(),
                    None => 0,
                },
        {
            let source = iter.next().unwrap();
            if source.is(&self.target) {
                return source;
            }
        }
    }
}

/// Building a bubble and reading it back: a bubble built for `target` around
/// `error` holds all of `error`, and the error that it finds again is one of
/// type `target` from `error`'s source chain, the first such.
pub proof fn lemma_bubble_round_trip(b: Bubble, target: Seq<char>, error: ErrorValue)
    requires
        b.wrapped() == error,
        b.target_name() == target,
        error.chain_has(target),
    ensures
        b.wrapped().find_in_chain(b.target_name()) matches Some(x) && x.ty_name() == target
            && exists|i: int|
            0 <= i < error.sources().len() && error.sources()[i] == x && forall|j: int|
                0 <= j < i ==> (#[trigger] error.sources()[j]).ty_name() != target,
{
    lemma_find_in_chain_is_first_in_sources(error, target);
}

} // verus!
