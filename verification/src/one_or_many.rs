use vstd::prelude::*;

verus! {

/// An ordered collection that holds at least one element.
///
/// The pipeline uses it for the fragments extracted from one document and
/// for the embeddings attributed to one document: neither is ever empty.
#[derive(Debug)]
pub struct OneOrMany<T> {
    items: Vec<T>,
}

/// Error returned when a `OneOrMany` is built from an empty list.
#[derive(Debug)]
pub struct EmptyListError;

impl<T> View for OneOrMany<T> {
    type V = Seq<T>;

    closed spec fn view(&self) -> Seq<T> {
        self.items@
    }
}

impl<T> OneOrMany<T> {
    /// The one fact every value of this type carries: it is never empty.
    #[verifier::type_invariant]
    pub closed spec fn non_empty(self) -> bool {
        self.items@.len() >= 1
    }

    /// Reads the type invariant back as a statement about the view; pair it
    /// with `use_type_invariant` at a use site.
    pub proof fn lemma_non_empty(self)
        requires
            self.non_empty(),
        ensures
            self@.len() >= 1,
    {
    }

    /// Build a collection holding exactly one element.
    pub fn one(item: T) -> (r: Self)
        ensures
            r@ == seq![item],
    {
        let mut items: Vec<T> = Vec::new();
        items.push(item);
        assert(items@ =~= seq![item]);
        Self { items }
    }

    /// Build a collection from a plain list; an empty list is refused.
    pub fn many(items: Vec<T>) -> (r: Result<Self, EmptyListError>)
        ensures
            items@.len() >= 1 ==> (r matches Ok(o) && o@ == items@),
            items@.len() == 0 ==> (r matches Err(_)),
    {
        if items.len() == 0 {
            Err(EmptyListError)
        } else {
            Ok(Self { items })
        }
    }

    /// Append one element at the end.
    pub fn push(self, item: T) -> (r: Self)
        ensures
            r@ == self@.push(item),
    {
        let mut items = self.items;
        items.push(item);
        Self { items }
    }

    /// Number of elements; always at least one.
    pub fn len(&self) -> (n: usize)
        ensures
            n == self@.len(),
            n >= 1,
    {
        proof {
            use_type_invariant(self);
        }
        self.items.len()
    }

    /// The element at position `i`.
    pub fn get(&self, i: usize) -> (r: &T)
        requires
            i < self@.len(),
        ensures
            *r == self@[i as int],
    {
        &self.items[i]
    }

    /// Give the elements up as a plain vector.
    pub fn into_vec(self) -> (r: Vec<T>)
        ensures
            r@ == self@,
    {
        self.items
    }
}

} // verus!
