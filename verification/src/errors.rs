use vstd::prelude::*;

use crate::bind_docs::{builtin_name, builtin_name_str};
use crate::interner::{Interner, Sym};
use crate::types::LispError;

verus! {

/// The symbol that an error names, if any.
pub open spec fn error_symbol(e: LispError) -> Option<Sym> {
    match e {
        LispError::SymbolNotFound(s) => Some(s),
        LispError::DefNamespace(s) => Some(s),
        LispError::VarExists(s) => Some(s),
        LispError::UndefNotDefined(s) => Some(s),
        LispError::RefUnbound(s) => Some(s),
        _ => None,
    }
}

/// The text that reports `e`, with symbols spelled by `names`.
pub open spec fn error_message(e: LispError, names: Seq<Seq<char>>) -> Seq<char> {
    match e {
        LispError::SymbolNotFound(s) => "Symbol "@ + names[s as int] + " not found."@,
        LispError::NotCallable => "Not a callable form."@,
        LispError::TooManyForms(b) => builtin_name(b) + ": too many forms"@,
        LispError::BindingKeyNotSymbol => "first form (binding key) must be a symbol"@,
        LispError::BindingArity => "bindings requires a key, optional docstring and value"@,
        LispError::SetUnbound => "set's first form must evaluate to an existing symbol"@,
        LispError::DefNamespace(s) => "def namespaced symbol "@ + names[s as int]
            + " not valid or namespace not a parent namespace"@,
        LispError::VarExists(s) => "var: Symbol "@ + names[s as int]
            + " already exists in local scope, use set! to change it"@,
        LispError::VarNoScope => "var: Can only be used in a local lexical scope (not a namespace- use def for that)"@,
        LispError::UndefNotDefined(s) => "undef: symbol "@ + names[s as int]
            + " not defined in current scope (can only undef symbols in current scope)."@,
        LispError::UndefArity => "undef: can only have one expression (symbol)"@,
        LispError::DynKeyNotSymbol => "first form (binding key) must evaluate to a symbol"@,
        LispError::DynKeyValue => "dyn requires a key and value"@,
        LispError::DynArity => "dyn requires three expressions (symbol, value, form to evaluate)"@,
        LispError::IsDefListNotSymbol => "def?: takes a symbol to lookup (list must eval to symbol)"@,
        LispError::IsDefNotSymbol => "def?: takes a symbol to lookup"@,
        LispError::IsDefArity => "def? takes one form (symbol)"@,
        LispError::RefUnbound(s) => "ref: symbol "@ + names[s as int] + " not bound"@,
        LispError::RefNotSymbol => "ref: takes a bound symbol"@,
        LispError::RefArity => "ref: takes one form (symbol)"@,
    }
}

/// `before`, the name of `s`, then `after`.
fn with_name(interner: &Interner, before: &str, s: Sym, after: &str) -> (r: String)
    requires
        s < interner.view_names().len(),
    ensures
        r@ == before@ + interner.view_names()[s as int] + after@,
{
    let mut r = String::from_str(before);
    r.append(interner.name(s));
    r.append(after);
    r
}

impl LispError {
    /// The text that reports this error.
    pub fn message(&self, interner: &Interner) -> (r: String)
        requires
            error_symbol(*self) matches Some(s) ==> s < interner.view_names().len(),
        ensures
            r@ == error_message(*self, interner.view_names()),
    {
        match *self {
            LispError::SymbolNotFound(s) => with_name(interner, "Symbol ", s, " not found."),
            LispError::NotCallable => String::from_str("Not a callable form."),
            LispError::TooManyForms(b) => {
                let mut r = String::from_str(builtin_name_str(b));
                r.append(": too many forms");
                r
            },
            LispError::BindingKeyNotSymbol => String::from_str("first form (binding key) must be a symbol"),
            LispError::BindingArity => String::from_str("bindings requires a key, optional docstring and value"),
            LispError::SetUnbound => String::from_str("set's first form must evaluate to an existing symbol"),
            LispError::DefNamespace(s) => with_name(
                interner,
                "def namespaced symbol ",
                s,
                " not valid or namespace not a parent namespace",
            ),
            LispError::VarExists(s) => with_name(
                interner,
                "var: Symbol ",
                s,
                " already exists in local scope, use set! to change it",
            ),
            LispError::VarNoScope => String::from_str(
                "var: Can only be used in a local lexical scope (not a namespace- use def for that)",
            ),
            LispError::UndefNotDefined(s) => with_name(
                interner,
                "undef: symbol ",
                s,
                " not defined in current scope (can only undef symbols in current scope).",
            ),
            LispError::UndefArity => String::from_str("undef: can only have one expression (symbol)"),
            LispError::DynKeyNotSymbol => String::from_str("first form (binding key) must evaluate to a symbol"),
            LispError::DynKeyValue => String::from_str("dyn requires a key and value"),
            LispError::DynArity => String::from_str("dyn requires three expressions (symbol, value, form to evaluate)"),
            LispError::IsDefListNotSymbol => String::from_str("def?: takes a symbol to lookup (list must eval to symbol)"),
            LispError::IsDefNotSymbol => String::from_str("def?: takes a symbol to lookup"),
            LispError::IsDefArity => String::from_str("def? takes one form (symbol)"),
            LispError::RefUnbound(s) => with_name(interner, "ref: symbol ", s, " not bound"),
            LispError::RefNotSymbol => String::from_str("ref: takes a bound symbol"),
            LispError::RefArity => String::from_str("ref: takes one form (symbol)"),
        }
    }
}

} // verus!
