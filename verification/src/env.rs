//! The lexical environment: a stack of bindings.

use vstd::prelude::*;
use crate::value::{Val, Value};

verus! {

/// The bindings in scope, outermost first.
pub struct Env {
    pub bindings: Vec<(String, Value)>,
}

impl View for Env {
    type V = Seq<(Seq<char>, Val)>;

    open spec fn view(&self) -> Seq<(Seq<char>, Val)> {
        Seq::new(self.bindings@.len(), |i: int| (self.bindings@[i].0@, self.bindings@[i].1@))
    }
}

/// The position of the innermost of the first `i` bindings of `env` that
/// binds `name`, or -1.
pub open spec fn binding_index(env: Seq<(Seq<char>, Val)>, name: Seq<char>, i: int) -> int
    decreases i,
{
    if i <= 0 || i > env.len() {
        -1
    } else if env[i - 1].0 == name {
        i - 1
    } else {
        binding_index(env, name, i - 1)
    }
}

/// The value of the innermost binding of `name`.
pub open spec fn lookup_in(env: Seq<(Seq<char>, Val)>, name: Seq<char>) -> Option<Val> {
    let i = binding_index(env, name, env.len() as int);
    if i < 0 {
        None
    } else {
        Some(env[i].1)
    }
}

impl Env {
    /// An environment without bindings.
    pub fn new() -> (r: Env)
        ensures
            r@ == Seq::<(Seq<char>, Val)>::empty(),
    {
        let r = Env { bindings: Vec::new() };
        assert(r@ =~= Seq::<(Seq<char>, Val)>::empty());
        r
    }

    /// Binds `name` to `value`, innermost.
    pub fn push(&mut self, name: String, value: Value)
        ensures
            final(self)@ == old(self)@.push((name@, value@)),
    {
        self.bindings.push((name, value));
        assert(self@ =~= old(self)@.push((name@, value@)));
    }

    /// Drops the innermost binding; without bindings there is nothing to drop.
    pub fn pop(&mut self)
        ensures
            old(self)@.len() > 0 ==> final(self)@ == old(self)@.drop_last(),
            old(self)@.len() == 0 ==> final(self)@ == old(self)@,
    {
        let _ = self.bindings.pop();
        assert(old(self)@.len() > 0 ==> self@ =~= old(self)@.drop_last());
        assert(old(self)@.len() == 0 ==> self@ =~= old(self)@);
    }

    /// The value of the innermost binding of `name`.
    pub fn lookup(&self, name: &String) -> (r: Option<&Value>)
        ensures
            match r {
                Some(v) => lookup_in(self@, name@) == Some(v@),
                None => lookup_in(self@, name@) is None,
            },
    {
        let mut i: usize = self.bindings.len();
        while i > 0
            invariant
                i <= self.bindings.len(),
                binding_index(self@, name@, self@.len() as int) == binding_index(
                    self@,
                    name@,
                    i as int,
                ),
            decreases i,
        {
            if self.bindings[i - 1].0 == *name {
                return Some(&self.bindings[i - 1].1);
            }
            i -= 1;
        }
        None
    }
}

} // verus!
