//! The code generator's name tables: an interner that numbers names in the
//! order they are first seen, and a table from those numbers to the storage
//! of variables. Both keep their entries in an `FxHashMap` of the `fxhash`
//! crate.
use crate::ast::Type;
use fxhash::FxHashMap;
use vstd::prelude::*;

verus! {

/// A hash map from names to numbers.
#[verifier::external_body]
pub struct NameMap {
    inner: FxHashMap<String, usize>,
}

/// The entries of a [`NameMap`], by the characters of the name.
pub uninterp spec fn name_map_entries(m: NameMap) -> Map<Seq<char>, usize>;

/// `FxHashMap::default()`: a map with no entries.
#[verifier::external_body]
fn name_map_new() -> (r: NameMap)
    ensures
        forall|k: Seq<char>| !name_map_entries(r).contains_key(k),
{
    NameMap { inner: FxHashMap::default() }
}

/// `HashMap::get`: the number stored for `key`, if any.
#[verifier::external_body]
fn name_map_get(m: &NameMap, key: &String) -> (r: Option<usize>)
    ensures
        match r {
            Some(v) => name_map_entries(*m).contains_key(key@) && name_map_entries(*m)[key@] == v,
            None => !name_map_entries(*m).contains_key(key@),
        },
{
    m.inner.get(key.as_str()).copied()
}

/// `HashMap::insert`: stores `value` for `key`, replacing what was there.
#[verifier::external_body]
fn name_map_insert(m: &mut NameMap, key: String, value: usize)
    ensures
        name_map_entries(*final(m)) == name_map_entries(*old(m)).insert(key@, value),
{
    m.inner.insert(key, value);
}

/// Where the code generator keeps a variable: its type and the stack slot
/// that holds it.
#[derive(Debug, Clone, Copy, PartialEq, Eq, Structural)]
pub struct Vardata {
    pub ty: Type,
    pub ptr: usize,
}

/// A hash map from variable numbers to their storage.
#[verifier::external_body]
pub struct SlotMap {
    inner: FxHashMap<usize, Vardata>,
}

/// The entries of a [`SlotMap`].
pub uninterp spec fn slot_map_entries(m: SlotMap) -> Map<usize, Vardata>;

/// `FxHashMap::default()`: a map with no entries.
#[verifier::external_body]
fn slot_map_new() -> (r: SlotMap)
    ensures
        forall|k: usize| !slot_map_entries(r).contains_key(k),
{
    SlotMap { inner: FxHashMap::default() }
}

/// `HashMap::get`: the storage kept for `key`, if any.
#[verifier::external_body]
fn slot_map_get(m: &SlotMap, key: usize) -> (r: Option<Vardata>)
    ensures
        match r {
            Some(v) => slot_map_entries(*m).contains_key(key) && slot_map_entries(*m)[key] == v,
            None => !slot_map_entries(*m).contains_key(key),
        },
{
    m.inner.get(&key).copied()
}

/// `HashMap::insert`: keeps `value` for `key`, replacing what was there.
#[verifier::external_body]
fn slot_map_insert(m: &mut SlotMap, key: usize, value: Vardata)
    ensures
        slot_map_entries(*final(m)) == slot_map_entries(*old(m)).insert(key, value),
{
    m.inner.insert(key, value);
}

/// Numbers names in the order they are first seen.
pub struct StringInterner {
    string: Vec<String>,
    map: NameMap,
}

impl View for StringInterner {
    /// The names, in the order of their numbers.
    type V = Seq<Seq<char>>;

    closed spec fn view(&self) -> Seq<Seq<char>> {
        self.string@.map_values(|s: String| s@)
    }
}

impl StringInterner {
    /// The map holds exactly the names, each with its number; so no name
    /// occurs twice.
    pub closed spec fn wf(&self) -> bool {
        &&& forall|i: int|
            0 <= i < self.string@.len() ==> name_map_entries(self.map).contains_key(
                #[trigger] self.string@[i]@,
            ) && name_map_entries(self.map)[self.string@[i]@] == i
        &&& forall|k: Seq<char>|
            #[trigger] name_map_entries(self.map).contains_key(k) ==> {
                let i = name_map_entries(self.map)[k];
                0 <= i < self.string@.len() && self.string@[i as int]@ == k
            }
    }

    /// Law: in a well-formed interner no two numbers stand for the same
    /// name, so a name interned once keeps the number it was given.
    pub proof fn law_ids_unique(&self, i: int, j: int)
        requires
            self.wf(),
            0 <= i < self@.len(),
            0 <= j < self@.len(),
            self@[i] == self@[j],
        ensures
            i == j,
    {
        assert(self.string@[i]@ == self@[i]);
        assert(self.string@[j]@ == self@[j]);
    }

    /// No names.
    pub fn new() -> (r: StringInterner)
        ensures
            r.wf(),
            r@ == Seq::<Seq<char>>::empty(),
    {
        let r = StringInterner { string: Vec::new(), map: name_map_new() };
        assert(r@ =~= Seq::<Seq<char>>::empty());
        r
    }

    /// The number of `name`, which is given the next number when it is new.
    pub fn itern(&mut self, name: String) -> (id: usize)
        requires
            old(self).wf(),
        ensures
            final(self).wf(),
            old(self)@.contains(name@) ==> final(self)@ == old(self)@ && id < old(self)@.len()
                && old(self)@[id as int] == name@,
            !old(self)@.contains(name@) ==> final(self)@ == old(self)@.push(name@) && id == old(
                self,
            )@.len(),
    {
        match name_map_get(&self.map, &name) {
            Some(id) => {
                assert(self@[id as int] == name@);
                id
            },
            None => {
                assert(!self@.contains(name@)) by {
                    if self@.contains(name@) {
                        let i = choose|i: int| 0 <= i < self@.len() && self@[i] == name@;
                        assert(self.string@[i]@ == name@);
                    }
                }
                let id = self.string.len();
                let ghost before = self.string@;
                self.string.push(name.clone());
                name_map_insert(&mut self.map, name, id);
                assert(self@ =~= before.map_values(|s: String| s@).push(self.string@[id as int]@));
                id
            },
        }
    }

    /// The number of `name`, which must have one.
    pub fn lookup(&self, name: &String) -> (id: usize)
        requires
            self.wf(),
            self@.contains(name@),
        ensures
            id < self@.len(),
            self@[id as int] == name@,
    {
        proof {
            let i = choose|i: int| 0 <= i < self@.len() && self@[i] == name@;
            assert(self.string@[i]@ == name@);
        }
        match name_map_get(&self.map, name) {
            Some(id) => id,
            None => 0,
        }
    }

    /// Whether `name` has a number.
    pub fn contains(&self, name: &String) -> (b: bool)
        requires
            self.wf(),
        ensures
            b == self@.contains(name@),
    {
        match name_map_get(&self.map, name) {
            Some(id) => {
                assert(self@[id as int] == name@);
                true
            },
            None => {
                proof {
                    if self@.contains(name@) {
                        let i = choose|i: int| 0 <= i < self@.len() && self@[i] == name@;
                        assert(self.string@[i]@ == name@);
                    }
                }
                false
            },
        }
    }

    /// The name numbered `id`.
    pub fn name(&self, id: usize) -> (r: &String)
        requires
            id < self@.len(),
        ensures
            r@ == self@[id as int],
    {
        &self.string[id]
    }

    /// How many names have numbers.
    pub fn len(&self) -> (n: usize)
        ensures
            n == self@.len(),
    {
        self.string.len()
    }
}

/// Where each numbered variable is kept.
pub struct SymbolHash {
    vars: SlotMap,
}

impl View for SymbolHash {
    type V = Map<usize, Vardata>;

    closed spec fn view(&self) -> Map<usize, Vardata> {
        slot_map_entries(self.vars)
    }
}

impl SymbolHash {
    /// No variables.
    pub fn new() -> (r: SymbolHash)
        ensures
            r@ == Map::<usize, Vardata>::empty(),
    {
        let r = SymbolHash { vars: slot_map_new() };
        assert(r@ =~= Map::<usize, Vardata>::empty());
        r
    }

    /// Keeps `var` as the storage of variable `id`.
    pub fn save(&mut self, var: Vardata, id: usize)
        ensures
            final(self)@ == old(self)@.insert(id, var),
    {
        slot_map_insert(&mut self.vars, id, var);
    }

    /// The storage of variable `id`, if it has one.
    pub fn get_var(&self, id: usize) -> (r: Option<Vardata>)
        ensures
            match r {
                Some(v) => self@.contains_key(id) && self@[id] == v,
                None => !self@.contains_key(id),
            },
    {
        slot_map_get(&self.vars, id)
    }
}

} // verus!
