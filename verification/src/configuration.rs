//! Where the evaluator finds variables and functions.

use crate::function::{Function, SpecFunction};
use crate::value::{SpecValue, Value};
use vstd::hash_map::StringHashMap;
use vstd::prelude::*;

verus! {

/// What a configuration holds: the values of its variables and its
/// functions, each by name.
pub struct Context {
    pub variables: Map<Seq<char>, SpecValue>,
    pub functions: Map<Seq<char>, SpecFunction>,
}

/// The context that holds nothing.
pub open spec fn empty_context() -> Context {
    Context { variables: Map::empty(), functions: Map::empty() }
}

/// A source of variables and functions for the evaluator.
pub trait Configuration {
    /// What the configuration holds.
    spec fn context(&self) -> Context;

    /// The value of the variable `identifier`, if there is one.
    fn get_variable(&self, identifier: &str) -> (r: Option<&Value>)
        ensures
            match r {
                Some(value) => self.context().variables.contains_key(identifier@)
                    && self.context().variables[identifier@] == value@,
                None => !self.context().variables.contains_key(identifier@),
            },
    ;

    /// The function `identifier`, if there is one.
    fn get_function(&self, identifier: &str) -> (r: Option<&Function>)
        ensures
            match r {
                Some(function) => self.context().functions.contains_key(identifier@)
                    && self.context().functions[identifier@] == function@,
                None => !self.context().functions.contains_key(identifier@),
            },
    ;
}

/// The configuration without variables and functions.
pub struct EmptyConfiguration;

impl Configuration for EmptyConfiguration {
    open spec fn context(&self) -> Context {
        empty_context()
    }

    fn get_variable(&self, identifier: &str) -> (r: Option<&Value>) {
        None
    }

    fn get_function(&self, identifier: &str) -> (r: Option<&Function>) {
        None
    }
}

/// A configuration that holds its variables and functions in maps from
/// names. Setting a name again replaces what it stood for.
pub struct HashMapConfiguration {
    variables: StringHashMap<Value>,
    functions: StringHashMap<Function>,
}

impl Configuration for HashMapConfiguration {
    closed spec fn context(&self) -> Context {
        Context {
            variables: Map::new(
                |name: Seq<char>| self.variables@.contains_key(name),
                |name: Seq<char>| self.variables@[name]@,
            ),
            functions: Map::new(
                |name: Seq<char>| self.functions@.contains_key(name),
                |name: Seq<char>| self.functions@[name]@,
            ),
        }
    }

    fn get_variable(&self, identifier: &str) -> (r: Option<&Value>) {
        self.variables.get(identifier)
    }

    fn get_function(&self, identifier: &str) -> (r: Option<&Function>) {
        self.functions.get(identifier)
    }
}

impl HashMapConfiguration {
    /// A configuration that holds nothing yet.
    pub fn new() -> (configuration: HashMapConfiguration)
        ensures
            configuration.context() == empty_context(),
    {
        let configuration = HashMapConfiguration {
            variables: StringHashMap::new(),
            functions: StringHashMap::new(),
        };
        proof {
            assert(configuration.context().variables =~= Map::empty());
            assert(configuration.context().functions =~= Map::empty());
        }
        configuration
    }

    /// Binds the variable `identifier` to `value`, in place of what it was
    /// bound to before.
    pub fn insert_variable(&mut self, identifier: String, value: Value)
        ensures
            final(self).context().variables == old(self).context().variables.insert(
                identifier@,
                value@,
            ),
            final(self).context().functions == old(self).context().functions,
    {
        self.variables.insert(identifier, value);
        proof {
            assert(final(self).context().variables =~= old(self).context().variables.insert(
                identifier@,
                value@,
            ));
            assert(final(self).context().functions =~= old(self).context().functions);
        }
    }

    /// Binds the function `identifier` to `function`, in place of what it
    /// was bound to before.
    pub fn insert_function(&mut self, identifier: String, function: Function)
        ensures
            final(self).context().functions == old(self).context().functions.insert(
                identifier@,
                function@,
            ),
            final(self).context().variables == old(self).context().variables,
    {
        self.functions.insert(identifier, function);
        proof {
            assert(final(self).context().functions =~= old(self).context().functions.insert(
                identifier@,
                function@,
            ));
            assert(final(self).context().variables =~= old(self).context().variables);
        }
    }
}

} // verus!
