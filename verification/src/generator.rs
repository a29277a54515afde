//! Bounds for generated test data: an inclusive constraint on sizes, and the
//! boundary-value samplers used to exercise a codec around its limits.

use vstd::prelude::*;

verus! {

/// An inclusive range with optional ends.
#[derive(Clone, Copy, PartialEq, Eq, Structural, Debug)]
pub struct Constraint {
    pub lower: Option<usize>,
    pub upper: Option<usize>,
}

pub open spec fn in_constraint(c: Constraint, e: usize) -> bool {
    &&& (c.lower matches Some(l) ==> l <= e)
    &&& (c.upper matches Some(u) ==> e <= u)
}

impl Constraint {
    pub fn new(lower: Option<usize>, upper: Option<usize>) -> (r: Constraint)
        ensures
            r == (Constraint { lower, upper }),
    {
        Constraint { lower, upper }
    }

    /// Whether `e` lies within the constraint.
    pub fn contains(&self, e: &usize) -> (r: bool)
        ensures
            r == in_constraint(*self, *e),
    {
        let lower_ok = match self.lower {
            Some(l) => l <= *e,
            None => true,
        };
        let upper_ok = match self.upper {
            Some(u) => *e <= u,
            None => true,
        };
        lower_ok && upper_ok
    }
}

/// What part of a structure a generated value stands in.
#[derive(Clone, PartialEq, Eq, Structural, Debug)]
pub enum ItemKind {
    Root,
    Field,
    Index(usize),
}

/// The two ends of a constraint: the simplest values worth testing.
pub fn range_simple(r: &Constraint) -> (out: Vec<usize>)
    ensures
        out@.len() == 2,
        out@[0] == (match r.lower {
            Some(l) => l,
            None => 0,
        }),
        out@[1] == (match r.upper {
            Some(u) => u,
            None => usize::MAX,
        }),
{
    let start = match r.lower {
        Some(l) => l,
        None => 0,
    };
    let end = match r.upper {
        Some(u) => u,
        None => usize::MAX,
    };
    let mut v: Vec<usize> = Vec::new();
    v.push(start);
    v.push(end);
    v
}

/// The two ends of a constraint, and the values just outside them where they
/// exist.
pub fn range_extended(r: &Constraint) -> (out: Vec<usize>)
    ensures
        out@.len() >= 2,
        out@[0] == (match r.lower {
            Some(l) => l,
            None => 0,
        }),
        out@[1] == (match r.upper {
            Some(u) => u,
            None => usize::MAX,
        }),
        out@[0] > 0 ==> out@.len() >= 3 && out@[2] == out@[0] - 1,
        out@[0] == 0 && out@[1] < usize::MAX ==> out@.len() == 3 && out@[2] == out@[1] + 1,
        out@[0] > 0 && out@[1] < usize::MAX ==> out@.len() == 4 && out@[3] == out@[1] + 1,
{
    let start = match r.lower {
        Some(l) => l,
        None => 0,
    };
    let end = match r.upper {
        Some(u) => u,
        None => usize::MAX,
    };
    let mut v: Vec<usize> = Vec::new();
    v.push(start);
    v.push(end);
    if start > 0 {
        v.push(start - 1);
    }
    if end < usize::MAX {
        v.push(end + 1);
    }
    v
}


/// A cursor over a fixed run of values that always has a current value.
pub struct IterValue<T> {
    items: Vec<T>,
    pos: usize,
}

impl<T: Copy> IterValue<T> {
    /// Starts the cursor on the first value. Fails exactly on an empty run.
    pub fn new(items: Vec<T>) -> (r: Option<IterValue<T>>)
        ensures
            r is Some <==> items@.len() > 0,
            r matches Some(it) ==> it.items_view() == items@ && it.position() == 0 && it.wf(),
    {
        if items.len() == 0 {
            None
        } else {
            Some(IterValue { items, pos: 0 })
        }
    }

    pub closed spec fn wf(&self) -> bool {
        self.pos < self.items@.len()
    }

    pub closed spec fn items_view(&self) -> Seq<T> {
        self.items@
    }

    pub closed spec fn position(&self) -> int {
        self.pos as int
    }

    /// The current value.
    pub fn value(&self) -> (r: T)
        requires
            self.wf(),
        ensures
            r == self.items_view()[self.position()],
    {
        self.items[self.pos]
    }

    /// Moves to the next value; reports whether one was there.
    pub fn has_next(&mut self) -> (r: bool)
        requires
            old(self).wf(),
        ensures
            final(self).wf(),
            final(self).items_view() == old(self).items_view(),
            r <==> old(self).position() + 1 < old(self).items_view().len(),
            r ==> final(self).position() == old(self).position() + 1,
            !r ==> final(self).position() == old(self).position(),
    {
        let n = self.items.len();
        if self.pos < n - 1 {
            self.pos = self.pos + 1;
            true
        } else {
            false
        }
    }
}

} // verus!
