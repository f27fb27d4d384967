use vstd::prelude::*;
use crate::error::EAnimationError;

verus! {

/// The identity of an animated object.
pub type IDAnimatableTarget = usize;

/// The identity of an attribute of an animated object.
pub type IDAnimatableAttr = u8;

/// What handing out an identity does to an allocator, and what it returns.
pub open spec fn spec_allocated(
    free: Seq<IDAnimatableTarget>,
    next: IDAnimatableTarget,
    r: Result<IDAnimatableTarget, EAnimationError>,
    free_after: Seq<IDAnimatableTarget>,
    next_after: IDAnimatableTarget,
) -> bool {
    if free.len() > 0 {
        &&& r == Ok::<IDAnimatableTarget, EAnimationError>(free.last())
        &&& free_after == free.drop_last()
        &&& next_after == next
    } else if next < IDAnimatableTarget::MAX {
        &&& r == Ok::<IDAnimatableTarget, EAnimationError>(next)
        &&& free_after == free
        &&& next_after == next + 1
    } else {
        &&& r == Err::<IDAnimatableTarget, EAnimationError>(
            EAnimationError::KeyTargetCannotAllocMore,
        )
        &&& free_after == free
        &&& next_after == next
    }
}

/// A source of target identities.
pub trait IDAnimatableTargetAllocator {
    /// The identities that were handed back and wait to be handed out
    /// again, the last of them first.
    spec fn spec_free(&self) -> Seq<IDAnimatableTarget>;

    /// The identity that is handed out next when none waits.
    spec fn spec_next(&self) -> IDAnimatableTarget;

    /// Hands out an identity: the one that was handed back last, if any
    /// waits; else the next fresh one, or an error once they are used up.
    fn allocat(&mut self) -> (r: Result<IDAnimatableTarget, EAnimationError>)
        ensures
            spec_allocated(
                old(self).spec_free(),
                old(self).spec_next(),
                r,
                final(self).spec_free(),
                final(self).spec_next(),
            ),
    ;

    /// Takes an identity back.
    fn collect(&mut self, id: IDAnimatableTarget)
        ensures
            final(self).spec_free() == old(self).spec_free().push(id),
            final(self).spec_next() == old(self).spec_next(),
    ;
}

/// The allocator that the runtime offers by default: it counts up, and
/// hands out again what was handed back.
pub struct IDAnimatableTargetAllocatorDefault {
    id_pool: Vec<IDAnimatableTarget>,
    counter: IDAnimatableTarget,
}

impl Default for IDAnimatableTargetAllocatorDefault {
    fn default() -> (r: IDAnimatableTargetAllocatorDefault)
        ensures
            r.spec_free().len() == 0,
            r.spec_next() == 0,
    {
        IDAnimatableTargetAllocatorDefault { id_pool: Vec::new(), counter: 0 }
    }
}

impl IDAnimatableTargetAllocator for IDAnimatableTargetAllocatorDefault {
    closed spec fn spec_free(&self) -> Seq<IDAnimatableTarget> {
        self.id_pool@
    }

    closed spec fn spec_next(&self) -> IDAnimatableTarget {
        self.counter
    }

    fn allocat(&mut self) -> (r: Result<IDAnimatableTarget, EAnimationError>) {
        match self.id_pool.pop() {
            Some(id) => Ok(id),
            None => {
                if self.counter == IDAnimatableTarget::MAX {
                    Err(EAnimationError::KeyTargetCannotAllocMore)
                } else {
                    let id: IDAnimatableTarget = self.counter;
                    self.counter += 1;
                    Ok(id)
                }
            },
        }
    }

    fn collect(&mut self, id: IDAnimatableTarget) {
        self.id_pool.push(id);
    }
}

/// The host's side of the last step of a tick: it takes the value that was
/// computed for an attribute and applies it to the object.
pub trait TAnimatableTargetModifier<T> {
    fn anime_modify(&mut self, attr: IDAnimatableAttr, value: T) -> (r: Result<(), EAnimationError>);
}

/// An object that knows under which identity it is animated.
pub trait TAnimatableTargetId<T> {
    fn anime_target_id(&self) -> T;
}

} // verus!
