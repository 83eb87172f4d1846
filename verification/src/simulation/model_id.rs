//! Identification of model instances.

use vstd::prelude::*;

verus! {

/// A unique index assigned to a model instance.
///
/// This is a thin wrapper over a `usize` which encodes a lack of value as
/// `usize::MAX`.
#[derive(Clone, Copy, Debug, PartialEq, Eq, Structural)]
pub struct ModelId(usize);

impl ModelId {
    /// The index, if any.
    pub closed spec fn index(self) -> Option<usize> {
        if self.0 != usize::MAX {
            Some(self.0)
        } else {
            None
        }
    }

    /// Creates an identifier without an index.
    pub fn none() -> (id: Self)
        ensures
            id.index() is None,
    {
        ModelId(usize::MAX)
    }

    /// Creates an identifier with the specified index, which may not be
    /// `usize::MAX`.
    pub fn new(id: usize) -> (model_id: Self)
        requires
            id != usize::MAX,
        ensures
            model_id.index() == Some(id),
    {
        ModelId(id)
    }

    /// Returns the index, if any.
    pub fn get(&self) -> (id: Option<usize>)
        ensures
            id == self.index(),
    {
        if self.0 != usize::MAX {
            Some(self.0)
        } else {
            None
        }
    }
}

impl Default for ModelId {
    fn default() -> (id: Self)
        ensures
            id.index() is None,
    {
        ModelId(usize::MAX)
    }
}

/// A future that belongs to a model.
pub struct ModelFuture<F> {
    fut: F,
    id: ModelId,
}

impl<F> ModelFuture<F> {
    /// The future itself.
    pub closed spec fn inner(self) -> F {
        self.fut
    }

    /// The identifier of the model.
    pub closed spec fn owner(self) -> ModelId {
        self.id
    }

    /// Associates a future with a model.
    pub fn new(fut: F, id: ModelId) -> (future: Self)
        ensures
            future.inner() == fut,
            future.owner() == id,
    {
        ModelFuture { fut, id }
    }

    /// Starts polling the future, as recorded in the identifier of the current
    /// model.
    ///
    /// The identifier is not reset automatically because it must survive panics
    /// to identify the last model that was polled.
    pub fn enter(&mut self, current: &mut ModelId) -> (fut: &mut F)
        ensures
            *fut == old(self).inner(),
            final(self).inner() == *final(fut),
            final(self).owner() == old(self).owner(),
            *final(current) == old(self).owner(),
    {
        *current = self.id;
        &mut self.fut
    }
}

/// Takes note that no model is polled anymore.
///
/// This is done right after polling so as to distinguish between panics
/// generated by models and panics generated by the executor itself.
pub fn leave_model(current: &mut ModelId)
    ensures
        final(current).index() is None,
{
    *current = ModelId::none();
}

} // verus!
