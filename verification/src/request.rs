use crate::input::InputValue;
use crate::order::str_eq;
use vstd::prelude::*;

verus! {

/// One level of a client request: a field name, the arguments attached to it,
/// and the fields selected beneath it, in request order.
///
/// A request is built once per operation and read immutably afterwards.
#[derive(Debug)]
pub struct SelectionField {
    pub name: String,
    pub arguments: Vec<(String, InputValue)>,
    pub children: Vec<SelectionField>,
}

/// The first argument carrying `name`, if any.
pub open spec fn spec_named_argument(
    args: Seq<(String, InputValue)>,
    name: Seq<char>,
) -> Option<InputValue>
    decreases args.len(),
{
    if args.len() == 0 {
        None
    } else if args[0].0@ == name {
        Some(args[0].1)
    } else {
        spec_named_argument(args.drop_first(), name)
    }
}

/// The first child field carrying `name`, if any.
pub open spec fn spec_named_child(
    children: Seq<SelectionField>,
    name: Seq<char>,
) -> Option<SelectionField>
    decreases children.len(),
{
    if children.len() == 0 {
        None
    } else if children[0].name@ == name {
        Some(children[0])
    } else {
        spec_named_child(children.drop_first(), name)
    }
}

impl SelectionField {
    /// The literal bound to the named argument at this level.
    pub open spec fn spec_argument(self, name: Seq<char>) -> Option<InputValue> {
        spec_named_argument(self.arguments@, name)
    }

    /// The named child field of this level.
    pub open spec fn spec_child(self, name: Seq<char>) -> Option<SelectionField> {
        spec_named_child(self.children@, name)
    }

    /// Whether a child field of that name was requested.
    pub open spec fn spec_has_child(self, name: Seq<char>) -> bool {
        self.spec_child(name) is Some
    }

    /// Looks up an argument by name.
    pub fn argument<'a>(&'a self, name: &str) -> (r: Option<&'a InputValue>)
        ensures
            match self.spec_argument(name@) {
                Some(v) => r is Some && *r.unwrap() == v,
                None => r is None,
            },
    {
        let args = &self.arguments;
        let mut i: usize = 0;
        proof {
            assert(args@.skip(0) =~= args@);
        }
        while i < args.len()
            invariant
                i <= args@.len(),
                args == &self.arguments,
                spec_named_argument(args@, name@) == spec_named_argument(
                    args@.skip(i as int),
                    name@,
                ),
            decreases args@.len() - i,
        {
            proof {
                assert(args@.skip(i as int)[0] == args@[i as int]);
            }
            if str_eq(args[i].0.as_str(), name) {
                return Some(&args[i].1);
            }
            proof {
                assert(args@.skip(i as int).drop_first() =~= args@.skip(i + 1));
            }
            i = i + 1;
        }
        proof {
            assert(args@.skip(args@.len() as int) =~= Seq::<(String, InputValue)>::empty());
        }
        None
    }

    /// Descends into the named child's own sub-selection.
    pub fn select_child<'a>(&'a self, name: &str) -> (r: Option<&'a SelectionField>)
        ensures
            match self.spec_child(name@) {
                Some(c) => r is Some && *r.unwrap() == c,
                None => r is None,
            },
    {
        let children = &self.children;
        let mut i: usize = 0;
        proof {
            assert(children@.skip(0) =~= children@);
        }
        while i < children.len()
            invariant
                i <= children@.len(),
                children == &self.children,
                spec_named_child(children@, name@) == spec_named_child(
                    children@.skip(i as int),
                    name@,
                ),
            decreases children@.len() - i,
        {
            proof {
                assert(children@.skip(i as int)[0] == children@[i as int]);
            }
            if str_eq(children[i].name.as_str(), name) {
                return Some(&children[i]);
            }
            proof {
                assert(children@.skip(i as int).drop_first() =~= children@.skip(i + 1));
            }
            i = i + 1;
        }
        proof {
            assert(children@.skip(children@.len() as int) =~= Seq::<SelectionField>::empty());
        }
        None
    }

    /// Whether a child field of that name was requested.
    pub fn has_child(&self, name: &str) -> (r: bool)
        ensures
            r == self.spec_has_child(name@),
    {
        self.select_child(name).is_some()
    }
}

} // verus!
