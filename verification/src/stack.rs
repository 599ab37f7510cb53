//! The value stack: an ordered sequence of values, pushed and popped at the
//! top, with the four stack-shuffle primitives.

use vstd::prelude::*;
use crate::error::{RuntimeError, RuntimeErrorV};
use crate::val::{Val, ValV};

verus! {

/// The machine's value stack. Its view is the sequence of value images,
/// oldest first: the last element is the top of the stack.
#[derive(Debug)]
pub struct Stack {
    vals: Vec<Val>,
}

impl View for Stack {
    type V = Seq<ValV>;

    closed spec fn view(&self) -> Seq<ValV> {
        self.vals@.map_values(|v: Val| v@)
    }
}

/// `dup` on the stack image: `(a -- a a)`.
pub open spec fn stack_dup(s: Seq<ValV>) -> Result<Seq<ValV>, RuntimeErrorV> {
    if s.len() < 1 {
        Err(RuntimeErrorV::EmptyStackError)
    } else {
        Ok(s.push(s.last()))
    }
}

/// `swap` on the stack image: `(a b -- b a)`.
pub open spec fn stack_swap(s: Seq<ValV>) -> Result<Seq<ValV>, RuntimeErrorV> {
    if s.len() < 2 {
        Err(RuntimeErrorV::EmptyStackError)
    } else {
        Ok(s.subrange(0, s.len() - 2) + seq![s[s.len() - 1], s[s.len() - 2]])
    }
}

/// `over` on the stack image: `(a b -- a b a)`.
pub open spec fn stack_over(s: Seq<ValV>) -> Result<Seq<ValV>, RuntimeErrorV> {
    if s.len() < 2 {
        Err(RuntimeErrorV::EmptyStackError)
    } else {
        Ok(s.subrange(0, s.len() - 2) + seq![s[s.len() - 2], s[s.len() - 1], s[s.len() - 2]])
    }
}

/// `rot` on the stack image: `(a b c -- b c a)`, a left rotation of the
/// three topmost elements.
pub open spec fn stack_rot(s: Seq<ValV>) -> Result<Seq<ValV>, RuntimeErrorV> {
    if s.len() < 3 {
        Err(RuntimeErrorV::EmptyStackError)
    } else {
        Ok(
            s.subrange(0, s.len() - 3) + seq![
                s[s.len() - 2],
                s[s.len() - 1],
                s[s.len() - 3],
            ],
        )
    }
}

impl Stack {
    /// An empty stack.
    pub fn new() -> (r: Self)
        ensures
            r@ == Seq::<ValV>::empty(),
    {
        Stack { vals: Vec::new() }
    }

    /// The number of values held.
    pub fn len(&self) -> (r: usize)
        ensures
            r == self@.len(),
    {
        self.vals.len()
    }

    /// Push a value on top.
    pub fn push(&mut self, val: Val)
        ensures
            final(self)@ == old(self)@.push(val@),
    {
        self.vals.push(val);
        proof {
            assert(final(self)@ =~= old(self)@.push(val@));
        }
    }

    /// Pop the top value; an empty stack is the defined failure.
    pub fn pop(&mut self) -> (r: Result<Val, RuntimeError>)
        ensures
            old(self)@.len() > 0 ==> (r matches Ok(v) && v@ == old(self)@.last()
                && final(self)@ == old(self)@.drop_last()),
            old(self)@.len() == 0 ==> (r matches Err(e) && e@
                == RuntimeErrorV::EmptyStackError && final(self)@ == old(self)@),
    {
        match self.vals.pop() {
            Some(v) => {
                proof {
                    assert(final(self)@ =~= old(self)@.drop_last());
                }
                Ok(v)
            },
            None => Err(RuntimeError::EmptyStackError),
        }
    }

    /// Borrow the top value without removing it.
    pub fn peek(&self) -> (r: Result<&Val, RuntimeError>)
        ensures
            self@.len() > 0 ==> (r matches Ok(v) && v@ == self@.last()),
            self@.len() == 0 ==> (r matches Err(e) && e@ == RuntimeErrorV::EmptyStackError),
    {
        if self.vals.len() > 0 {
            Ok(&self.vals[self.vals.len() - 1])
        } else {
            Err(RuntimeError::EmptyStackError)
        }
    }

    /// `(a -- a a)`: duplicate the top value.
    pub fn dup(&mut self) -> (r: Result<(), RuntimeError>)
        ensures
            old(self)@.len() >= 1 ==> r is Ok && stack_dup(old(self)@) == Ok::<_, RuntimeErrorV>(
                final(self)@,
            ),
            old(self)@.len() == 0 ==> (r matches Err(e) && e@
                == RuntimeErrorV::EmptyStackError && final(self)@ == old(self)@),
    {
        let top = match self.peek() {
            Ok(v) => v.clone(),
            Err(e) => {
                return Err(e);
            },
        };
        self.push(top);
        Ok(())
    }

    /// `(a b -- b a)`: exchange the two topmost values. When only one value
    /// is held, it is consumed before the failure is noticed, as popping
    /// twice would do.
    pub fn swap(&mut self) -> (r: Result<(), RuntimeError>)
        ensures
            old(self)@.len() >= 2 ==> r is Ok && stack_swap(old(self)@) == Ok::<_, RuntimeErrorV>(
                final(self)@,
            ),
            old(self)@.len() < 2 ==> (r matches Err(e) && e@
                == RuntimeErrorV::EmptyStackError && final(self)@ == Seq::<ValV>::empty()),
    {
        let b = match self.pop() {
            Ok(v) => v,
            Err(e) => {
                return Err(e);
            },
        };
        let a = match self.pop() {
            Ok(v) => v,
            Err(e) => {
                return Err(e);
            },
        };
        self.push(b);
        self.push(a);
        proof {
            if old(self)@.len() >= 2 {
                assert(final(self)@ =~= old(self)@.subrange(0, old(self)@.len() - 2) + seq![
                    old(self)@[old(self)@.len() - 1],
                    old(self)@[old(self)@.len() - 2],
                ]);
            }
        }
        Ok(())
    }

    /// `(a b -- a b a)`: push a copy of the value beneath the top. When only
    /// one value is held, it is consumed before the failure is noticed.
    pub fn over(&mut self) -> (r: Result<(), RuntimeError>)
        ensures
            old(self)@.len() >= 2 ==> r is Ok && stack_over(old(self)@) == Ok::<_, RuntimeErrorV>(
                final(self)@,
            ),
            old(self)@.len() < 2 ==> (r matches Err(e) && e@
                == RuntimeErrorV::EmptyStackError && final(self)@ == Seq::<ValV>::empty()),
    {
        let b = match self.pop() {
            Ok(v) => v,
            Err(e) => {
                return Err(e);
            },
        };
        let a = match self.pop() {
            Ok(v) => v,
            Err(e) => {
                return Err(e);
            },
        };
        self.push(a.clone());
        self.push(b);
        self.push(a);
        proof {
            if old(self)@.len() >= 2 {
                assert(final(self)@ =~= old(self)@.subrange(0, old(self)@.len() - 2) + seq![
                    old(self)@[old(self)@.len() - 2],
                    old(self)@[old(self)@.len() - 1],
                    old(self)@[old(self)@.len() - 2],
                ]);
            }
        }
        Ok(())
    }

    /// `(a b c -- b c a)`: rotate the three topmost values left. When fewer
    /// than three values are held, the ones popped are consumed before the
    /// failure is noticed.
    pub fn rot(&mut self) -> (r: Result<(), RuntimeError>)
        ensures
            old(self)@.len() >= 3 ==> r is Ok && stack_rot(old(self)@) == Ok::<_, RuntimeErrorV>(
                final(self)@,
            ),
            old(self)@.len() < 3 ==> (r matches Err(e) && e@
                == RuntimeErrorV::EmptyStackError && final(self)@ == Seq::<ValV>::empty()),
    {
        let c = match self.pop() {
            Ok(v) => v,
            Err(e) => {
                return Err(e);
            },
        };
        let b = match self.pop() {
            Ok(v) => v,
            Err(e) => {
                return Err(e);
            },
        };
        let a = match self.pop() {
            Ok(v) => v,
            Err(e) => {
                return Err(e);
            },
        };
        self.push(b);
        self.push(c);
        self.push(a);
        proof {
            if old(self)@.len() >= 3 {
                assert(final(self)@ =~= old(self)@.subrange(0, old(self)@.len() - 3) + seq![
                    old(self)@[old(self)@.len() - 2],
                    old(self)@[old(self)@.len() - 1],
                    old(self)@[old(self)@.len() - 3],
                ]);
            }
        }
        Ok(())
    }
}

impl Clone for Stack {
    fn clone(&self) -> (r: Self)
        ensures
            r@ == self@,
    {
        let mut vals: Vec<Val> = Vec::new();
        let mut i: usize = 0;
        while i < self.vals.len()
            invariant
                i <= self.vals.len(),
                vals@.len() == i,
                forall|j: int| 0 <= j < i ==> vals@[j] == self.vals@[j],
            decreases self.vals.len() - i,
        {
            vals.push(self.vals[i].clone());
            i = i + 1;
        }
        proof {
            assert(vals@ =~= self.vals@);
        }
        Stack { vals }
    }
}

} // verus!
