//! The store of named integers, and the operand resolver that reads it.
use vstd::prelude::*;
use vstd::hash_map::StringHashMap;
use crate::fault::ErrorKind;
use crate::literal::{literal, parse_i32};

verus! {

/// The store: each variable name has at most one value.  It starts empty,
/// gains and overwrites entries through [`istore`] and loses them through
/// [`free`].  Its view is the map from names to values.
pub struct Memory {
    cells: StringHashMap<i32>,
}

impl View for Memory {
    type V = Map<Seq<char>, i32>;

    closed spec fn view(&self) -> Map<Seq<char>, i32> {
        self.cells@
    }
}

/// The value stored under `name`, or the fault for a name that is not stored.
pub open spec fn lookup(store: Map<Seq<char>, i32>, name: Seq<char>) -> Result<i32, ErrorKind> {
    if store.contains_key(name) {
        Ok(store[name])
    } else {
        Err(ErrorKind::UndefinedVariable)
    }
}

/// What a source operand stands for: its own value when it is a literal,
/// else the value stored under it.  A literal always wins, also where a
/// variable of the same spelling is stored.
pub open spec fn resolved(store: Map<Seq<char>, i32>, token: Seq<char>) -> Result<
    i32,
    ErrorKind,
> {
    match literal(token) {
        Some(v) => Ok(v),
        None => lookup(store, token),
    }
}

impl Memory {
    /// The empty store.
    pub fn new() -> (mem: Memory)
        ensures
            mem@ == Map::<Seq<char>, i32>::empty(),
    {
        Memory { cells: StringHashMap::new() }
    }

    /// Whether `var` is stored.
    pub fn contains(&self, var: &str) -> (r: bool)
        ensures
            r == self@.contains_key(var@),
    {
        self.cells.contains_key(var)
    }

    /// The number of stored variables.
    pub fn len(&self) -> (n: usize)
        ensures
            n == self@.len(),
    {
        broadcast use vstd::hash_map::group_hash_map_axioms;

        self.cells.len()
    }
}

/// Stores `val` under `var`, creating the entry or overwriting it.
pub fn istore(var: &str, val: &i32, mem: &mut Memory)
    ensures
        final(mem)@ == old(mem)@.insert(var@, *val),
{
    mem.cells.insert(String::from_str(var), *val);
}

/// The value stored under `var`; a name that is not stored is an
/// [`ErrorKind::UndefinedVariable`].
pub fn get_val(var: &str, mem: &Memory) -> (r: Result<i32, ErrorKind>)
    ensures
        r == lookup(mem@, var@),
{
    match mem.cells.get(var) {
        Some(v) => Ok(*v),
        None => Err(ErrorKind::UndefinedVariable),
    }
}

/// Removes `var` from the store.  Removing a name that is not stored changes
/// nothing and is no error.
pub fn free(var: &str, mem: &mut Memory)
    ensures
        final(mem)@ == old(mem)@.remove(var@),
{
    mem.cells.remove(var);
}

/// Resolves a source operand: `token` read as a literal if it is one, else
/// looked up as a variable name.
pub fn resolve(token: &str, mem: &Memory) -> (r: Result<i32, ErrorKind>)
    ensures
        r == resolved(mem@, token@),
{
    match parse_i32(token) {
        Some(v) => Ok(v),
        None => get_val(token, mem),
    }
}

/// Freeing is idempotent, and a freed name is undefined until stored again.
pub proof fn lemma_free_twice(store: Map<Seq<char>, i32>, name: Seq<char>)
    ensures
        store.remove(name).remove(name) == store.remove(name),
        lookup(store.remove(name), name) == Err::<i32, ErrorKind>(ErrorKind::UndefinedVariable),
{
    assert(store.remove(name).remove(name) =~= store.remove(name));
}

/// What was stored last under a name is what a lookup finds.
pub proof fn lemma_store_then_lookup(store: Map<Seq<char>, i32>, name: Seq<char>, val: i32)
    ensures
        lookup(store.insert(name, val), name) == Ok::<i32, ErrorKind>(val),
{
}

} // verus!
