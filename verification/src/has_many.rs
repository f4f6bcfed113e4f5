use vstd::prelude::*;

verus! {

/// The two-state holder of a to-many association's resolved children: a field
/// starts out not loaded and carries its items only once the resolver has
/// attached them. Reading a never-resolved association is a programming
/// error, caught by `expect_items`'s precondition rather than by a silent
/// empty list.
#[derive(Debug)]
pub enum HasMany<T> {
    NotLoaded,
    Items(Vec<T>),
}

impl<T> Default for HasMany<T> {
    fn default() -> (r: Self)
        ensures
            r is NotLoaded,
    {
        HasMany::NotLoaded
    }
}

impl<T> HasMany<T> {
    /// The resolved items. The message documents, at the call site, which
    /// invariant would have been violated had the association never been
    /// resolved; the precondition rules that out.
    pub fn expect_items(&self, msg: &str) -> (r: &[T])
        requires
            *self is Items,
        ensures
            r@ == self->Items_0@,
    {
        match self {
            HasMany::Items(i) => i.as_slice(),
            HasMany::NotLoaded => {
                // unreachable under the precondition; hand back an empty slice
                // shape that the verifier knows cannot be taken
                proof {
                    assert(false);
                }
                unreached()
            },
        }
    }

    /// Whether the association has been resolved.
    pub fn is_loaded(&self) -> (r: bool)
        ensures
            r == (*self is Items),
    {
        matches!(self, HasMany::Items(_))
    }
}

} // verus!
