//! Name-to-id registries of the game data.
use vstd::prelude::*;

verus! {

#[derive(Debug, Clone, Copy, PartialEq, Eq, Structural)]
pub enum RegistryError {
    /// The name is registered already.
    DuplicateName,
    /// Every `u32` id is taken.
    Full,
}

/// Values registered under unique names; the id of a value is its rank of
/// registration.
pub struct Registry<T> {
    pub names: Vec<String>,
    pub values: Vec<T>,
}

impl<T> Registry<T> {
    /// The registered names, in id order.
    pub open spec fn names_view(&self) -> Seq<Seq<char>> {
        Seq::new(self.names@.len(), |i: int| self.names@[i]@)
    }

    pub open spec fn wf(&self) -> bool {
        &&& self.names@.len() == self.values@.len()
        &&& self.names@.len() <= u32::MAX
        &&& forall|i: int, j: int| 0 <= i < j < self.names@.len() ==> self.names@[i]@ != self.names@[j]@
    }

    pub fn new() -> (r: Registry<T>)
        ensures
            r.wf(),
            r.names_view() == Seq::<Seq<char>>::empty(),
            r.values@ == Seq::<T>::empty(),
    {
        let r = Registry { names: Vec::new(), values: Vec::new() };
        assert(r.names_view() =~= Seq::<Seq<char>>::empty());
        r
    }

    pub fn len(&self) -> (r: usize)
        requires
            self.wf(),
        ensures
            r == self.names@.len(),
    {
        self.names.len()
    }

    /// The id of `name`, if it is registered.
    pub fn get_id_by_name(&self, name: &String) -> (r: Option<u32>)
        requires
            self.wf(),
        ensures
            r matches Some(i) ==> i < self.names@.len() && self.names_view()[i as int] == name@,
            r is None ==> !self.names_view().contains(name@),
    {
        let mut i: usize = 0;
        while i < self.names.len()
            invariant
                i <= self.names@.len(),
                self.wf(),
                forall|j: int| 0 <= j < i ==> self.names@[j]@ != name@,
            decreases self.names@.len() - i,
        {
            if self.names[i] == *name {
                return Some(i as u32);
            }
            i += 1;
        }
        None
    }

    /// The value of id `id`, if it is registered.
    pub fn get_value_by_id(&self, id: u32) -> (r: Option<&T>)
        requires
            self.wf(),
        ensures
            r is Some <==> (id as int) < self.values@.len(),
            r matches Some(v) ==> *v == self.values@[id as int],
    {
        if (id as usize) < self.values.len() {
            Some(&self.values[id as usize])
        } else {
            None
        }
    }

    /// Registers `value` under `name`, returning its id; fails, changing
    /// nothing, when `name` is taken or no id is left.
    pub fn register(&mut self, name: String, value: T) -> (r: Result<u32, RegistryError>)
        requires
            old(self).wf(),
        ensures
            final(self).wf(),
            r == Err::<u32, RegistryError>(RegistryError::DuplicateName) <==> old(self).names_view().contains(name@),
            r == Err::<u32, RegistryError>(RegistryError::Full) <==> !old(self).names_view().contains(name@)
                && old(self).names@.len() >= u32::MAX,
            r is Ok <==> !old(self).names_view().contains(name@) && old(self).names@.len() < u32::MAX,
            r is Err ==> final(self).names_view() == old(self).names_view() && final(self).values@ == old(self).values@,
            r matches Ok(id) ==> id == old(self).names@.len() && final(self).names_view() == old(self).names_view().push(name@)
                && final(self).values@ == old(self).values@.push(value),
    {
        let mut i: usize = 0;
        while i < self.names.len()
            invariant
                i <= self.names@.len(),
                *self == *old(self),
                old(self).wf(),
                forall|j: int| 0 <= j < i ==> self.names@[j]@ != name@,
            decreases self.names@.len() - i,
        {
            if self.names[i] == name {
                assert(self.names_view()[i as int] == name@);
                return Err(RegistryError::DuplicateName);
            }
            i += 1;
        }
        assert(!self.names_view().contains(name@));
        if self.names.len() >= u32::MAX as usize {
            return Err(RegistryError::Full);
        }
        let id = self.names.len() as u32;
        self.names.push(name);
        self.values.push(value);
        assert(self.names_view() =~= old(self).names_view().push(name@));
        Ok(id)
    }
}

} // verus!
