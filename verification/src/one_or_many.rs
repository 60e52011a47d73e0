use crate::text::views;
use vstd::prelude::*;

verus! {

/// One string or several: an ordered list of strings that is never empty.
///
/// The list is only reached through the functions below, so no value of this
/// type holds an empty list. In JSON a list of one is written as a bare
/// string, a longer one as an array.
#[derive(Debug, PartialEq, Eq)]
pub struct OneOrMany {
    items: Vec<String>,
}

impl View for OneOrMany {
    type V = Seq<Seq<char>>;

    closed spec fn view(&self) -> Seq<Seq<char>> {
        views(self.items@)
    }
}

impl OneOrMany {
    #[verifier::type_invariant]
    spec fn inv(&self) -> bool {
        self.items@.len() >= 1
    }

    /// The list that holds `item` alone.
    pub fn one(item: String) -> (r: Self)
        ensures
            r@ == seq![item@],
    {
        let mut items: Vec<String> = Vec::new();
        items.push(item);
        let r = OneOrMany { items };
        assert(r@ =~= seq![item@]);
        r
    }

    /// The list that holds `items` in their order; `None` where `items` is
    /// empty.
    pub fn many(items: Vec<String>) -> (r: Option<Self>)
        ensures
            r is Some <==> items@.len() >= 1,
            r matches Some(m) ==> m@ == views(items@),
    {
        if items.len() == 0 {
            None
        } else {
            Some(OneOrMany { items })
        }
    }

    /// The number of strings, which is at least one.
    pub fn len(&self) -> (n: usize)
        ensures
            n == self@.len(),
            n >= 1,
    {
        proof {
            use_type_invariant(self);
        }
        self.items.len()
    }

    /// Whether the list holds exactly one string.
    pub fn is_one(&self) -> (b: bool)
        ensures
            b == (self@.len() == 1),
    {
        self.items.len() == 1
    }

    /// The string at position `i`, if there is one.
    pub fn get(&self, i: usize) -> (r: Option<&String>)
        ensures
            i < self@.len() ==> (r matches Some(s) && s@ == self@[i as int]),
            i >= self@.len() ==> r is None,
    {
        if i < self.items.len() {
            Some(&self.items[i])
        } else {
            None
        }
    }

    /// The first string.
    pub fn first(&self) -> (s: &String)
        ensures
            self@.len() >= 1,
            s@ == self@[0],
    {
        proof {
            use_type_invariant(self);
        }
        &self.items[0]
    }

    /// The strings as a slice, whether there is one or there are many.
    pub fn as_slice(&self) -> (r: &[String])
        ensures
            views(r@) == self@,
    {
        self.items.as_slice()
    }
}

impl Clone for OneOrMany {
    fn clone(&self) -> (r: Self)
        ensures
            r@ == self@,
    {
        proof {
            use_type_invariant(self);
        }
        let mut items: Vec<String> = Vec::new();
        let mut i: usize = 0;
        while i < self.items.len()
            invariant
                i <= self.items@.len(),
                items@.len() == i,
                forall|j: int| 0 <= j < i ==> items@[j]@ == self.items@[j]@,
            decreases self.items@.len() - i,
        {
            items.push(self.items[i].clone());
            i += 1;
        }
        assert(views(items@) =~= views(self.items@));
        OneOrMany { items }
    }
}

} // verus!
