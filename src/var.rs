use vstd::prelude::*;

verus! {

/// A program variable: a unique id with an optional display name.
#[derive(Debug, Clone, PartialEq, Eq)]
pub struct Var {
    pub name: Option<String>,
    pub id: u32,
}

impl Var {
    /// An exact copy of this variable.
    pub fn dup(&self) -> (r: Var)
        ensures
            r == *self,
    {
        let name = match &self.name {
            Some(n) => Some(n.clone()),
            None => None,
        };
        Var { name, id: self.id }
    }
}

/// Issues variables with increasing ids.
pub struct VarFactory {
    next_var_id: u32,
}

impl VarFactory {
    /// The id that the next variable will get.
    pub closed spec fn next_id(&self) -> nat {
        self.next_var_id as nat
    }

    /// Whether the factory can still issue a variable.
    pub open spec fn can_issue(&self) -> bool {
        self.next_id() < u32::MAX
    }

    pub fn new() -> (r: Self)
        ensures
            r.next_id() == 0,
    {
        VarFactory { next_var_id: 0 }
    }

    /// Whether the ids are used up.
    pub fn exhausted(&self) -> (r: bool)
        ensures
            r == !self.can_issue(),
    {
        self.next_var_id == u32::MAX
    }

    /// A fresh variable without a name.
    pub fn tmp(&mut self) -> (r: Var)
        requires
            old(self).can_issue(),
        ensures
            r.id == old(self).next_id(),
            r.name.is_none(),
            final(self).next_id() == old(self).next_id() + 1,
    {
        Var { name: None, id: self.id() }
    }

    /// A fresh variable with a display name.
    pub fn named(&mut self, name: String) -> (r: Var)
        requires
            old(self).can_issue(),
        ensures
            r.id == old(self).next_id(),
            r.name == Some(name),
            final(self).next_id() == old(self).next_id() + 1,
    {
        Var { name: Some(name), id: self.id() }
    }

    fn id(&mut self) -> (r: u32)
        requires
            old(self).can_issue(),
        ensures
            r == old(self).next_id(),
            final(self).next_id() == old(self).next_id() + 1,
    {
        let id = self.next_var_id;
        self.next_var_id = self.next_var_id + 1;
        id
    }
}

} // verus!
