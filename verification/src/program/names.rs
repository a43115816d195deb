//! The table of interned names.

use super::ids::VarNameId;
use indexmap::IndexSet;
use vstd::prelude::*;

verus! {

/// `indexmap::IndexSet`: a set that keeps its items in the order in which
/// they were put in. Nothing is known of what is inside it but what the functions
/// below say.
#[verifier::external_type_specification]
#[verifier::external_body]
#[verifier::reject_recursive_types(T)]
#[verifier::reject_recursive_types(S)]
pub struct ExIndexSet<T, S>(IndexSet<T, S>);

/// The names that a set holds, in the order in which they were first put in.
pub uninterp spec fn names_of(set: IndexSet<String>) -> Seq<Seq<char>>;

/// `IndexSet::new`: a set that holds nothing.
#[verifier::external_body]
fn set_new() -> (r: IndexSet<String>)
    ensures
        names_of(r) == Seq::<Seq<char>>::empty(),
{
    IndexSet::new()
}

/// `IndexSet::get_index`: the name at position `index`, if the set holds
/// that many.
#[verifier::external_body]
fn set_get_index(set: &IndexSet<String>, index: usize) -> (r: Option<&String>)
    ensures
        match r {
            Some(name) => index < names_of(*set).len() && name@ == names_of(*set)[index as int],
            None => index >= names_of(*set).len(),
        },
{
    set.get_index(index)
}

/// `IndexSet::insert_full`: where the set holds `name` already, its position
/// and `false`, and the set is unchanged; else the name is put in last, and
/// its position and `true` come back. No name is held twice.
#[verifier::external_body]
fn set_insert_full(set: &mut IndexSet<String>, name: String) -> (r: (usize, bool))
    ensures
        r.0 < names_of(*final(set)).len(),
        names_of(*final(set))[r.0 as int] == name@,
        names_of(*final(set)).no_duplicates(),
        r.1 ==> !names_of(*old(set)).contains(name@) && names_of(*final(set)) == names_of(
            *old(set),
        ).push(name@),
        !r.1 ==> names_of(*old(set)).contains(name@) && names_of(*final(set)) == names_of(
            *old(set),
        ),
{
    set.insert_full(name)
}

/// `IndexSet::clone`: a set that holds the same names in the same order.
#[verifier::external_body]
fn set_clone(set: &IndexSet<String>) -> (r: IndexSet<String>)
    ensures
        names_of(r) == names_of(*set),
{
    set.clone()
}

/// The names of variables and fields, each under the number it was given
/// when it was first seen.
#[derive(Debug)]
pub struct VarNames(pub IndexSet<String>);

impl View for VarNames {
    type V = Seq<Seq<char>>;

    open spec fn view(&self) -> Seq<Seq<char>> {
        names_of(self.0)
    }
}

/// The names after `name` has been interned: unchanged where `name` is
/// among them, else with `name` added last.
pub open spec fn interned(names: Seq<Seq<char>>, name: Seq<char>) -> Seq<Seq<char>> {
    if names.contains(name) {
        names
    } else {
        names.push(name)
    }
}

/// The number of `name` after it has been interned in `names`: the one it
/// has, or the next free one.
pub open spec fn interned_id(names: Seq<Seq<char>>, name: Seq<char>) -> int {
    interned(names, name).index_of(name)
}

impl Clone for VarNames {
    fn clone(&self) -> (r: Self)
        ensures
            r@ == self@,
    {
        VarNames(set_clone(&self.0))
    }
}

impl Default for VarNames {
    fn default() -> (r: Self)
        ensures
            r@ == Seq::<Seq<char>>::empty(),
    {
        VarNames(set_new())
    }
}

impl VarNames {
    /// The name that has the number `id`, if any has.
    pub fn evaluate(&self, id: VarNameId) -> (r: Option<&str>)
        ensures
            match r {
                Some(name) => id.0 < self@.len() && name@ == self@[id.0 as int],
                None => id.0 >= self@.len(),
            },
    {
        match set_get_index(&self.0, id.0) {
            Some(name) => Some(name.as_str()),
            None => None,
        }
    }

    /// The number of `name`, which is given the next free number where it
    /// has none yet. The numbers of all other names stay as they are.
    pub fn replace(&mut self, name: &str) -> (r: VarNameId)
        ensures
            final(self)@ == interned(old(self)@, name@),
            final(self)@.no_duplicates(),
            r.0 < final(self)@.len(),
            final(self)@[r.0 as int] == name@,
            r.0 == interned_id(old(self)@, name@),
    {
        let (id, _) = set_insert_full(&mut self.0, name.to_owned());
        proof {
            let names = self@;
            assert(names.contains(name@));
            let j = names.index_of(name@);
            assert(names[j] == name@);
            assert(names[id as int] == name@);
        }
        VarNameId(id)
    }
}

} // verus!
