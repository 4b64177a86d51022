//! The classification map: every color of a bitmap with its role.

use crate::color::{lemma_hex_injective, Color, ColorType};
use std::collections::HashMap;
use vstd::pervasive::unreached;
use vstd::prelude::*;

verus! {

broadcast use vstd::std_specs::hash::group_hash_axioms;

/// A map from colors to roles that remembers the order in which its colors
/// were first inserted.
#[derive(Debug)]
pub struct ColorMap {
    colors: Vec<Color>,
    roles: Vec<ColorType>,
    index: HashMap<u32, usize>,
}

impl View for ColorMap {
    type V = Map<Color, ColorType>;

    closed spec fn view(&self) -> Map<Color, ColorType> {
        Map::new(
            |c: Color| self.colors@.contains(c),
            |c: Color| self.roles@[self.index@[c.spec_to_hex()] as int],
        )
    }
}

impl ColorMap {
    /// The colors of the map, in the order of their first insertion.
    pub closed spec fn keys(&self) -> Seq<Color> {
        self.colors@
    }

    /// The invariant of the type: every color has one position, one role, and
    /// one entry in the lookup table.
    pub closed spec fn wf(&self) -> bool {
        &&& self.colors@.len() == self.roles@.len()
        &&& forall|j: int|
            0 <= j < self.colors@.len() ==> self.index@.contains_key(
                #[trigger] self.colors@[j].spec_to_hex(),
            ) && self.index@[self.colors@[j].spec_to_hex()] == j
        &&& forall|k: u32| #[trigger]
            self.index@.contains_key(k) ==> self.index@[k] < self.colors@.len()
                && self.colors@[self.index@[k] as int].spec_to_hex() == k
    }

    /// Every color appears exactly once: the keys hold no color twice, and
    /// they are the domain of the map.
    pub proof fn lemma_keys(&self)
        requires
            self.wf(),
        ensures
            self.keys().no_duplicates(),
            self@.dom() == self.keys().to_set(),
            self@.dom().finite(),
            self@.dom().len() == self.keys().len(),
            forall|c: Color| self@.contains_key(c) <==> self.keys().contains(c),
    {
        assert forall|i: int, j: int|
            0 <= i < self.colors@.len() && 0 <= j < self.colors@.len() && i != j implies self.colors@[i]
            != self.colors@[j] by {
            let a = self.colors@[i].spec_to_hex();
            let b = self.colors@[j].spec_to_hex();
            assert(self.index@[a] == i && self.index@[b] == j);
        }
        assert(self@.dom() =~= self.keys().to_set());
        self.keys().unique_seq_to_set();
        vstd::seq_lib::seq_to_set_is_finite(self.keys());
    }

    /// An empty map.
    pub fn new() -> (m: ColorMap)
        ensures
            m.wf(),
            m@ == Map::<Color, ColorType>::empty(),
            m.keys() == Seq::<Color>::empty(),
    {
        let m = ColorMap { colors: Vec::new(), roles: Vec::new(), index: HashMap::new() };
        assert(m@ =~= Map::<Color, ColorType>::empty());
        m
    }

    /// The number of colors in the map.
    pub fn len(&self) -> (n: usize)
        requires
            self.wf(),
        ensures
            n == self.keys().len(),
            n == self@.dom().len(),
    {
        proof {
            self.lemma_keys();
        }
        self.colors.len()
    }

    /// The position of a color among the keys, if it is one of them.
    pub fn position(&self, c: &Color) -> (p: Option<usize>)
        requires
            self.wf(),
        ensures
            match p {
                Some(j) => j < self.keys().len() && self.keys()[j as int] == *c,
                None => !self.keys().contains(*c),
            },
            p is Some <==> self@.contains_key(*c),
    {
        let key: u32 = c.to_hex();
        match self.index.get(&key) {
            Some(j) => {
                proof {
                    lemma_hex_injective(self.colors@[*j as int], *c);
                }
                Some(*j)
            },
            None => {
                assert forall|j: int| 0 <= j < self.colors@.len() implies self.colors@[j] != *c by {
                    if self.colors@[j] == *c {
                        assert(self.index@.contains_key(self.colors@[j].spec_to_hex()));
                    }
                }
                None
            },
        }
    }

    /// Is `c` a color of the map?
    pub fn contains_key(&self, c: &Color) -> (found: bool)
        requires
            self.wf(),
        ensures
            found == self@.contains_key(*c),
    {
        self.position(c).is_some()
    }

    /// The role of a color, if the map holds it.
    pub fn get(&self, c: &Color) -> (role: Option<ColorType>)
        requires
            self.wf(),
        ensures
            role == (if self@.contains_key(*c) {
                Some(self@[*c])
            } else {
                None
            }),
    {
        match self.position(c) {
            Some(j) => Some(self.roles[j]),
            None => None,
        }
    }

    /// The role of a color that the map holds. A color that was never
    /// inserted cannot be asked for.
    pub fn role_of(&self, c: &Color) -> (role: ColorType)
        requires
            self.wf(),
            self@.contains_key(*c),
        ensures
            role == self@[*c],
    {
        match self.position(c) {
            Some(j) => self.roles[j],
            None => unreached(),
        }
    }

    /// The color at position `j` of the keys.
    pub fn key_at(&self, j: usize) -> (c: Color)
        requires
            self.wf(),
            j < self.keys().len(),
        ensures
            c == self.keys()[j as int],
    {
        self.colors[j]
    }

    /// The role of the color at position `j` of the keys.
    pub fn role_at(&self, j: usize) -> (role: ColorType)
        requires
            self.wf(),
            j < self.keys().len(),
        ensures
            self@.contains_key(self.keys()[j as int]),
            role == self@[self.keys()[j as int]],
    {
        assert(self.index@.contains_key(self.colors@[j as int].spec_to_hex()));
        self.roles[j]
    }

    /// Gives the color at position `j` of the keys a new role.
    pub fn set_role_at(&mut self, j: usize, role: ColorType)
        requires
            old(self).wf(),
            j < old(self).keys().len(),
        ensures
            final(self).wf(),
            final(self).keys() == old(self).keys(),
            final(self)@ == old(self)@.insert(old(self).keys()[j as int], role),
    {
        proof {
            old(self).lemma_keys();
        }
        self.roles.set(j, role);
        proof {
            let c = self.colors@[j as int];
            assert(self.index@.contains_key(c.spec_to_hex()) && self.index@[c.spec_to_hex()] == j);
            assert forall|d: Color| self.colors@.contains(d) implies #[trigger] self@[d] == old(
                self,
            )@.insert(c, role)[d] by {
                let i = choose|i: int| 0 <= i < self.colors@.len() && self.colors@[i] == d;
                assert(self.index@[self.colors@[i].spec_to_hex()] == i);
            }
            assert(self@ =~= old(self)@.insert(c, role));
        }
    }

    /// Inserts a color with a role unless the map already holds the color:
    /// the role that was inserted first stays.
    pub fn insert_if_absent(&mut self, c: Color, role: ColorType)
        requires
            old(self).wf(),
        ensures
            final(self).wf(),
            old(self)@.contains_key(c) ==> final(self)@ == old(self)@ && final(self).keys() == old(
                self,
            ).keys(),
            !old(self)@.contains_key(c) ==> final(self)@ == old(self)@.insert(c, role)
                && final(self).keys() == old(self).keys().push(c),
    {
        if self.position(&c).is_none() {
            let j: usize = self.colors.len();
            let key: u32 = c.to_hex();
            proof {
                if self.index@.contains_key(key) {
                    lemma_hex_injective(self.colors@[self.index@[key] as int], c);
                }
            }
            self.index.insert(key, j);
            self.colors.push(c);
            self.roles.push(role);
            proof {
                assert forall|i: int| 0 <= i < self.colors@.len() implies self.index@.contains_key(
                    #[trigger] self.colors@[i].spec_to_hex(),
                ) && self.index@[self.colors@[i].spec_to_hex()] == i by {
                    if i < j {
                        assert(self.colors@[i] == old(self).colors@[i]);
                        assert(old(self).index@.contains_key(old(self).colors@[i].spec_to_hex()));
                        if old(self).colors@[i].spec_to_hex() == key {
                            lemma_hex_injective(old(self).colors@[i], c);
                        }
                    }
                }
                assert forall|d: Color| #[trigger] self.colors@.contains(d) <==> (old(
                    self,
                ).colors@.contains(d) || d == c) by {
                    if old(self).colors@.contains(d) {
                        let i = choose|i: int| 0 <= i < j && old(self).colors@[i] == d;
                        assert(self.colors@[i] == d);
                    }
                    if d == c {
                        assert(self.colors@[j as int] == d);
                    }
                }
                assert forall|d: Color| self.colors@.contains(d) implies #[trigger] self@[d] == old(
                    self,
                )@.insert(c, role)[d] by {
                    let i = choose|i: int| 0 <= i < self.colors@.len() && self.colors@[i] == d;
                    assert(self.index@[self.colors@[i].spec_to_hex()] == i);
                    if i < j {
                        assert(old(self).colors@[i] == d);
                        assert(old(self).index@[old(self).colors@[i].spec_to_hex()] == i);
                    }
                }
                assert(self@ =~= old(self)@.insert(c, role));
            }
        }
    }
}

} // verus!
