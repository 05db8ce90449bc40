//! The memory of a session: variables by name, and the slot kept for functions.

use vstd::prelude::*;
use vstd::hash_map::StringHashMap;
use crate::status::{failure, success, Response, STATUS_REJECT};

verus! {

/// The definition of a function: its parameters, the values they take when
/// none is given, and its program. Nothing in the engine reads or runs it;
/// only the name under which it is kept counts.
pub struct FunDef {
    pub variables: Vec<String>,
    pub standard_values: Vec<u32>,
    pub program: Vec<String>,
}

/// A memory as the contracts see it.
pub struct MemoryView {
    /// The number that each variable holds.
    pub variables: Map<Seq<char>, u32>,
    /// The names under which a function is kept.
    pub functions: Set<Seq<char>>,
}

impl MemoryView {
    /// This memory with `name` holding `value`, whatever it held before.
    pub open spec fn bind(self, name: Seq<char>, value: u32) -> MemoryView {
        MemoryView { variables: self.variables.insert(name, value), functions: self.functions }
    }

    /// What reading the variable `name` gives: its number, or a rejection
    /// where no such variable is kept.
    pub open spec fn variable(self, name: Seq<char>) -> Response<u32> {
        if self.variables.contains_key(name) {
            success(self.variables[name])
        } else {
            failure(STATUS_REJECT)
        }
    }

    /// What resolving the function `name` gives: positive zero where such a
    /// function is kept, a rejection otherwise.
    pub open spec fn function(self, name: Seq<char>) -> Response<u32> {
        if self.functions.contains(name) {
            success(0)
        } else {
            failure(STATUS_REJECT)
        }
    }
}

/// The variables and functions of one session.
pub struct Memory {
    variables: StringHashMap<u32>,
    functions: StringHashMap<FunDef>,
}

impl View for Memory {
    type V = MemoryView;

    closed spec fn view(&self) -> MemoryView {
        MemoryView { variables: self.variables@, functions: self.functions@.dom() }
    }
}

impl Memory {
    /// A memory that holds nothing.
    pub fn new() -> (mem: Memory)
        ensures
            mem@.variables == Map::<Seq<char>, u32>::empty(),
            mem@.functions == Set::<Seq<char>>::empty(),
    {
        Memory { variables: StringHashMap::new(), functions: StringHashMap::new() }
    }

    /// The number that the variable `name` holds, if there is such a variable.
    pub fn get(&self, name: &str) -> (value: Option<u32>)
        ensures
            value == (if self@.variables.contains_key(name@) {
                Some(self@.variables[name@])
            } else {
                None
            }),
    {
        match self.variables.get(name) {
            Some(x) => Some(*x),
            None => None,
        }
    }

    /// Stores `value` under `name`, in place of what the name held.
    pub fn set(&mut self, name: String, value: u32)
        ensures
            final(self)@ == old(self)@.bind(name@, value),
    {
        self.variables.insert(name, value);
    }

    /// Tells whether a function is kept under `name`.
    pub fn has_function(&self, name: &str) -> (known: bool)
        ensures
            known == self@.functions.contains(name@),
    {
        self.functions.contains_key(name)
    }

    /// Keeps `definition` under `name`, in place of what the name held.
    pub fn define(&mut self, name: String, definition: FunDef)
        ensures
            final(self)@.variables == old(self)@.variables,
            final(self)@.functions == old(self)@.functions.insert(name@),
    {
        self.functions.insert(name, definition);
        assert(self.functions@.dom() =~= old(self).functions@.dom().insert(name@));
    }
}

/// Reads the variable `input`.
pub fn resolve_var(input: &String, mem: &Memory) -> (r: Response<u32>)
    ensures
        r == mem@.variable(input@),
{
    match mem.get(input.as_str()) {
        Some(x) => Response::ok(x),
        None => Response { status: STATUS_REJECT, value: 0 },
    }
}

/// Resolves the function `input`. Calling functions is not part of the
/// engine: a function that is kept resolves to positive zero.
pub fn resolve_fn(input: &String, mem: &Memory) -> (r: Response<u32>)
    ensures
        r == mem@.function(input@),
{
    if mem.has_function(input.as_str()) {
        Response::ok(0)
    } else {
        Response::reject()
    }
}

} // verus!
