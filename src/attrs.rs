//! Looking up and taking out attributes of an ordered list of pairs.
use vstd::prelude::*;

use crate::value::Attr;

verus! {

/// The index of the first pair at or after `t` whose key is `name`.
pub open spec fn first_from(ps: Seq<Attr>, name: Seq<char>, t: int) -> Option<int>
    decreases ps.len() - t,
{
    if t < 0 || t >= ps.len() {
        None
    } else if ps[t].0@ == name {
        Some(t)
    } else {
        first_from(ps, name, t + 1)
    }
}

/// The index of the first pair whose key is `name`.
pub open spec fn find_first(ps: Seq<Attr>, name: Seq<char>) -> Option<int> {
    first_from(ps, name, 0)
}

/// The list left after taking out the pair at `i`: the last pair moves
/// into its place.
pub open spec fn swap_removed(ps: Seq<Attr>, i: int) -> Seq<Attr> {
    ps.update(i, ps.last()).drop_last()
}

/// Taking the first pair whose key is `name`: what is left, and the pair.
pub open spec fn take_result(ps: Seq<Attr>, name: Seq<char>) -> (Seq<Attr>, Option<Attr>) {
    match find_first(ps, name) {
        Some(i) => (swap_removed(ps, i), Some(ps[i])),
        None => (ps, None),
    }
}

/// What `first_from` finds is the first pair with the key from `t` on.
pub proof fn lemma_first_from(ps: Seq<Attr>, name: Seq<char>, t: int)
    requires
        0 <= t,
    ensures
        first_from(ps, name, t) matches Some(i) ==> t <= i < ps.len() && ps[i].0@ == name
            && forall|u: int| t <= u < i ==> (#[trigger] ps[u]).0@ != name,
        first_from(ps, name, t) is None ==> forall|u: int|
            t <= u < ps.len() ==> (#[trigger] ps[u]).0@ != name,
    decreases ps.len() - t,
{
    if t < ps.len() && ps[t].0@ != name {
        lemma_first_from(ps, name, t + 1);
    }
}

/// Whether some pair has the key `name`.
pub open spec fn has_key(ps: Seq<Attr>, name: Seq<char>) -> bool {
    exists|u: int| 0 <= u < ps.len() && (#[trigger] ps[u]).0@ == name
}

/// The first pair with a key is found exactly when some pair has it.
pub proof fn lemma_find_first(ps: Seq<Attr>, name: Seq<char>)
    ensures
        find_first(ps, name) is Some <==> has_key(ps, name),
        find_first(ps, name) matches Some(i) ==> 0 <= i < ps.len() && ps[i].0@ == name
            && forall|u: int| 0 <= u < i ==> (#[trigger] ps[u]).0@ != name,
{
    lemma_first_from(ps, name, 0);
}

/// Takes out the first pair whose key is `name`; the last pair takes its
/// place, so that the removal moves a single pair.
pub fn int_take_attribute(attrs: &mut Vec<Attr>, name: &str) -> (r: Option<Attr>)
    ensures
        (final(attrs)@, r) == take_result(old(attrs)@, name@),
{
    let key = String::from_str(name);
    let mut t: usize = 0;
    while t < attrs.len()
        invariant
            attrs@ == old(attrs)@,
            t <= attrs@.len(),
            key@ == name@,
            find_first(attrs@, name@) == first_from(attrs@, name@, t as int),
        decreases attrs@.len() - t,
    {
        if attrs[t].0 == key {
            return Some(attrs.swap_remove(t));
        }
        t = t + 1;
    }
    None
}

/// The first pair whose key is `name`.
pub fn int_get_attribute<'a>(attrs: &'a Vec<Attr>, name: &str) -> (r: Option<&'a Attr>)
    ensures
        match find_first(attrs@, name@) {
            Some(i) => r matches Some(p) && *p == attrs@[i],
            None => r is None,
        },
{
    let key = String::from_str(name);
    let mut t: usize = 0;
    while t < attrs.len()
        invariant
            t <= attrs@.len(),
            key@ == name@,
            find_first(attrs@, name@) == first_from(attrs@, name@, t as int),
        decreases attrs@.len() - t,
    {
        if attrs[t].0 == key {
            return Some(&attrs[t]);
        }
        t = t + 1;
    }
    None
}

/// An entity that keeps the attributes that its extraction left over.
pub trait HasGMLAttributes {
    /// The attributes held.
    spec fn attr_list(&self) -> Seq<Attr>;

    /// Whether the two agree in everything but the attributes.
    spec fn same_fields(&self, other: &Self) -> bool;

    fn attributes(&self) -> (r: &Vec<Attr>)
        ensures
            r@ == self.attr_list(),
    ;

    fn attributes_mut(&mut self) -> (r: &mut Vec<Attr>)
        ensures
            r@ == old(self).attr_list(),
            final(self).attr_list() == final(r)@,
            final(self).same_fields(old(self)),
    ;
}

/// Reading and taking out the attributes that an entity keeps.
pub trait ReadableGMLAttributes<'a>: HasGMLAttributes {
    /// Takes out the first attribute whose key is `name`.
    fn take_attribute(&mut self, name: &str) -> (r: Option<Attr>)
        ensures
            (final(self).attr_list(), r) == take_result(old(self).attr_list(), name@),
            final(self).same_fields(old(self)),
    ;

    /// The first attribute whose key is `name`.
    fn get_attribute(&'a self, name: &str) -> (r: Option<&'a Attr>)
        ensures
            match find_first(self.attr_list(), name@) {
                Some(i) => r matches Some(p) && *p == self.attr_list()[i],
                None => r is None,
            },
    ;
}

} // verus!
