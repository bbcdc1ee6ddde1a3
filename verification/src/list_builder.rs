use vstd::prelude::*;

verus! {

/// `ListBuilder` collects the t values of intersections before the object
/// they belong to is known, then pairs every t value with that object.
pub struct ListBuilder<O, T> {
    object: Option<O>,
    t: Vec<T>,
}

impl<O, T> ListBuilder<O, T> {
    /// The object set so far, if any.
    pub closed spec fn object_spec(&self) -> Option<O> {
        self.object
    }

    /// The t values added so far, in order.
    pub closed spec fn t_spec(&self) -> Seq<T> {
        self.t@
    }

    /// A builder with no object and no t values.
    pub fn new() -> (r: Self)
        ensures
            r.object_spec() is None,
            r.t_spec() == Seq::<T>::empty(),
    {
        ListBuilder { object: None, t: Vec::new() }
    }

    /// Sets the object that the intersections belong to.
    pub fn object(self, object: O) -> (r: Self)
        ensures
            r.object_spec() == Some(object),
            r.t_spec() == self.t_spec(),
    {
        ListBuilder { object: Some(object), t: self.t }
    }

    /// Adds one t value.
    pub fn add_t(self, t: T) -> (r: Self)
        ensures
            r.object_spec() == self.object_spec(),
            r.t_spec() == self.t_spec().push(t),
    {
        let mut values = self.t;
        values.push(t);
        ListBuilder { object: self.object, t: values }
    }
}

impl<O, T> Default for ListBuilder<O, T> {
    fn default() -> (r: Self)
        ensures
            r.object_spec() is None,
            r.t_spec() == Seq::<T>::empty(),
    {
        Self::new()
    }
}

impl<O: Copy, T: Copy> ListBuilder<O, T> {
    /// One intersection `(object, t)` per t value, in the order they were
    /// added. There must be an object and at least one t value.
    pub fn build(self) -> (r: Vec<(O, T)>)
        requires
            self.object_spec() is Some,
            self.t_spec().len() > 0,
        ensures
            r@.len() == self.t_spec().len(),
            forall|i: int|
                0 <= i < r@.len() ==> #[trigger] r@[i] == (self.object_spec().unwrap(), self.t_spec()[i]),
    {
        let object = self.object.unwrap();
        let mut list: Vec<(O, T)> = Vec::new();
        let mut i: usize = 0;
        while i < self.t.len()
            invariant
                i <= self.t@.len(),
                list@.len() == i,
                forall|j: int| 0 <= j < i ==> #[trigger] list@[j] == (object, self.t@[j]),
            decreases self.t@.len() - i,
        {
            list.push((object, self.t[i]));
            i = i + 1;
        }
        list
    }
}

} // verus!
