use crate::ast::{Val, Value};
use vstd::hash_map::StringHashMap;
use vstd::prelude::*;

verus! {

/// The values that variables stand for during an evaluation, by name.
pub struct Context {
    vars: StringHashMap<Value>,
}

impl View for Context {
    type V = Map<Seq<char>, Val>;

    closed spec fn view(&self) -> Map<Seq<char>, Val> {
        self.vars@.map_values(|v: Value| v@)
    }
}

impl Context {
    /// A context in which no variable is bound.
    pub fn new() -> (r: Context)
        ensures
            r@ == Map::<Seq<char>, Val>::empty(),
    {
        let r = Context { vars: StringHashMap::new() };
        assert(r@ =~= Map::<Seq<char>, Val>::empty());
        r
    }

    /// Binds `name` to `value`, in place of what it was bound to, if anything.
    pub fn insert(&mut self, name: String, value: Value)
        ensures
            final(self)@ == old(self)@.insert(name@, value@),
    {
        self.vars.insert(name, value);
        assert(self@ =~= old(self)@.insert(name@, value@));
    }

    /// What `name` is bound to, if anything.
    pub fn get(&self, name: &String) -> (r: Option<&Value>)
        ensures
            match r {
                Some(v) => self@.contains_key(name@) && self@[name@] == v@,
                None => !self@.contains_key(name@),
            },
    {
        self.vars.get(name.as_str())
    }
}

} // verus!
