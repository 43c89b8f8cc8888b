use vstd::prelude::*;

use crate::types::{Builtin, Node};

verus! {

/// Documentation of `lex`.
pub const LEX_DOC: &'static str = "Usage: (lex exp0 ... expN) -> expN

Evaluatate each form and return the last like do but it creates a new lexical scope around the call.
This is basically like wrapping in a fn call but without the fn call or like a let
without the initial bindings (you can use var to bind symbols in the new scope instead).

Section: core

Example:
(def test-do-one \"One1\")
(def test-do-two \"Two1\")
(def test-do-three (lex (var test-do-one \"One\")(set! test-do-two \"Two\")(test::assert-equal \"One\" test-do-one)\"Three\"))
(test::assert-equal \"One1\" test-do-one)
(test::assert-equal \"Two\" test-do-two)
(test::assert-equal \"Three\" test-do-three)
";

/// Documentation of `set!`.
pub const SET_DOC: &'static str = "Usage: (set! symbol expression) -> expression

Sets an existing expression in the current scope(s).  Return the expression that was set.
Symbol is not evaluted.

Set will set the first binding it finds starting in the current scope and then
trying enclosing scopes until exhausted.

Section: core

Example:
(def test-do-one nil)
(def test-do-two nil)
(def test-do-three (do (set! test-do-one \"One\")(set! test-do-two \"Two\")\"Three\"))
(test::assert-equal \"One\" test-do-one)
(test::assert-equal \"Two\" test-do-two)
(test::assert-equal \"Three\" test-do-three)
(let ((test-do-one nil))
    ; set the currently scoped value.
    (test::assert-equal \"1111\" (set! test-do-one \"1111\"))
    (test::assert-equal \"1111\" test-do-one))
; Original outer scope not changed.
(test::assert-equal \"One\" test-do-one)
";

/// Documentation of `def`.
pub const DEF_DOC: &'static str = "Usage: (def symbol expression) -> expression

Adds an expression to the current namespace.  Return the expression that was defined.
Symbol is not evaluted.

Section: core

Example:
(def test-do-one nil)
(def test-do-two nil)
(def test-do-three (do (set! test-do-one \"One\")(set! test-do-two \"Two\")\"Three\"))
(test::assert-equal \"One\" test-do-one)
(test::assert-equal \"Two\" test-do-two)
(test::assert-equal \"Three\" test-do-three)
(let ((test-do-one nil))
    ; Add this to tthe let's scope (shadow the outer test-do-two).
    (test::assert-equal \"Default\" (def ns::test-do-four \"Default\"))
    ; set the currently scoped value.
    (set! test-do-one \"1111\")
    (set! test-do-two \"2222\")
    (test::assert-equal \"1111\" test-do-one)
    (test::assert-equal \"2222\" test-do-two)
    (test::assert-equal \"Default\" test-do-four))
; Original outer scope not changed.
(test::assert-equal \"One\" test-do-one)
(test::assert-equal \"Default\" test-do-four)
";

/// Documentation of `var`.
pub const VAR_DOC: &'static str = "Usage: (var symbol expression) -> expression

Adds an expression to the current lexical scope.  Return the expression that was defined.
This will not add to a namespace (use def for that), use it within functions or
lex forms to create local bindings.
Symbol is not evaluted.

Section: core

Example:
(lex
(var test-do-one nil)
(var test-do-two nil)
(var test-do-three (do (set! test-do-one \"One\")(set! test-do-two \"Two\")\"Three\"))
(test::assert-equal \"One\" test-do-one)
(test::assert-equal \"Two\" test-do-two)
(test::assert-equal \"Three\" test-do-three)
(let ((test-do-one nil))
    ; Add this to tthe let's scope (shadow the outer test-do-two).
    (test::assert-equal \"Default\" (var test-do-two \"Default\"))
    ; set the currently scoped value.
    (set! test-do-one \"1111\")
    (set! test-do-two \"2222\")
    (test::assert-equal \"1111\" test-do-one)
    (test::assert-equal \"2222\" test-do-two))
; Original outer scope not changed.
(test::assert-equal \"One\" test-do-one)
(test::assert-equal \"Two\" test-do-two))
";

/// Documentation of `undef`.
pub const UNDEF_DOC: &'static str = "Usage: (undef symbol) -> expression

Remove a symbol from the current scope (if it exists).  Returns the expression
that was removed.  It is an error if symbol is not defined in the current scope.
Symbol is not evaluted.

Section: core

Example:
(def test-undef nil)
(test::assert-true (def? test-undef))
(undef test-undef)
(test::assert-false (def? test-undef))
(def test-undef \"undef\")
(test::assert-equal \"undef\" (undef test-undef))
(test::assert-false (def? test-undef))
(test::assert-equal \"undef: symbol test-undef not defined in current scope (can only undef symbols in current scope).\" (cadr (get-error (undef test-undef))))
";

/// Documentation of `dyn`.
pub const DYN_DOC: &'static str = "Usage: (dyn key value expression) -> result_of_expression

Creates a dynamic binding for key, assigns value to it and evals expression under it.

The binding is gone once the dyn form ends. The binding will take precedence over
any other binding in any scope with that name for any form that evaluates as a
result of the dynamic binding (for instance creating a dynamic binding for
*stdout* will cause all output to stdout to use the new binding in any print's
used indirectly).  Calls to dyn can be nested and previous dynamic values will
be restored as interior dyn's exit.

Section: core

Example:
(defn test-dyn-fn () (print \"Print dyn out\"))
(dyn '*stdout* (open \"/tmp/sl-sh.dyn.test\" :create :truncate) (do (test-dyn-fn)))
(test::assert-equal \"Print dyn out\" (read-line (open \"/tmp/sl-sh.dyn.test\" :read)))
";

/// Documentation of `def?`.
pub const IS_DEF_DOC: &'static str = "Usage: (def? expression) -> t|nil

Return true if is a defined symbol (bound within the current scope). If expression
is a symbol it is not evaluted and if a list it is evaluted to produce a symbol.

Section: core

Example:
(def test-is-def t)
(def test-is-def2 'test-is-def)
(test::assert-true (def? test-is-def))
(test::assert-true (def? (sym \"test-is-def\")))
(test::assert-true (def? (ref test-is-def2)))
(test::assert-false (def? test-is-def-not-defined))
(test::assert-false (def? (sym \"test-is-def-not-defined\")))
(test::assert-error (def? (ref test-is-def)))
";

/// Documentation of `ref`.
pub const REF_DOC: &'static str = "Usage: (ref? symbol) -> expression

Return the expression that is referenced by symbol.
Symbol is not evaluated and must be bound in the current scope or an error is raised.

Section: core

Example:
(def test-is-def t)
(test::assert-true (ref test-is-def))
(set! test-is-def '(1 2 3))
(test::assert-equal '(1 2 3) (ref test-is-def))
(test::assert-error (ref test-is-def-no-exist))
";

/// The order in which the binding forms are installed.
pub open spec fn builtin_index(b: Builtin) -> int {
    match b {
        Builtin::Lex => 0,
        Builtin::SetBang => 1,
        Builtin::Def => 2,
        Builtin::Var => 3,
        Builtin::Undef => 4,
        Builtin::Dyn => 5,
        Builtin::IsDef => 6,
        Builtin::Ref => 7,
    }
}

/// Number of binding forms.
pub const BUILTIN_COUNT: usize = 8;

/// The binding form installed in position `i`.
pub open spec fn builtin_at(i: int) -> Builtin {
    if i <= 0 {
        Builtin::Lex
    } else if i == 1 {
        Builtin::SetBang
    } else if i == 2 {
        Builtin::Def
    } else if i == 3 {
        Builtin::Var
    } else if i == 4 {
        Builtin::Undef
    } else if i == 5 {
        Builtin::Dyn
    } else if i == 6 {
        Builtin::IsDef
    } else {
        Builtin::Ref
    }
}

/// The symbol name that a binding form is installed under.
pub open spec fn builtin_name(b: Builtin) -> Seq<char> {
    match b {
        Builtin::Lex => "lex"@,
        Builtin::SetBang => "set!"@,
        Builtin::Def => "def"@,
        Builtin::Var => "var"@,
        Builtin::Undef => "undef"@,
        Builtin::Dyn => "dyn"@,
        Builtin::IsDef => "def?"@,
        Builtin::Ref => "ref"@,
    }
}

/// The documentation of a binding form.
pub open spec fn builtin_doc(b: Builtin) -> Seq<char> {
    match b {
        Builtin::Lex => LEX_DOC@,
        Builtin::SetBang => SET_DOC@,
        Builtin::Def => DEF_DOC@,
        Builtin::Var => VAR_DOC@,
        Builtin::Undef => UNDEF_DOC@,
        Builtin::Dyn => DYN_DOC@,
        Builtin::IsDef => IS_DEF_DOC@,
        Builtin::Ref => REF_DOC@,
    }
}

/// Whether a binding form is installed as a function (else as a special form).
pub open spec fn builtin_is_function(b: Builtin) -> bool {
    b is Dyn || b is Ref
}

/// The heap node of a binding form.
pub open spec fn builtin_node(b: Builtin) -> Node {
    if builtin_is_function(b) {
        Node::Function(b)
    } else {
        Node::Special(b)
    }
}

/// The binding form installed at position `i`.
pub fn builtin_at_index(i: usize) -> (b: Builtin)
    requires
        i < BUILTIN_COUNT,
    ensures
        b == builtin_at(i as int),
        builtin_index(b) == i,
{
    if i == 0 {
        Builtin::Lex
    } else if i == 1 {
        Builtin::SetBang
    } else if i == 2 {
        Builtin::Def
    } else if i == 3 {
        Builtin::Var
    } else if i == 4 {
        Builtin::Undef
    } else if i == 5 {
        Builtin::Dyn
    } else if i == 6 {
        Builtin::IsDef
    } else {
        Builtin::Ref
    }
}

/// The name that binding form `b` is bound under.
pub fn builtin_name_str(b: Builtin) -> (s: &'static str)
    ensures
        s@ == builtin_name(b),
{
    match b {
        Builtin::Lex => "lex",
        Builtin::SetBang => "set!",
        Builtin::Def => "def",
        Builtin::Var => "var",
        Builtin::Undef => "undef",
        Builtin::Dyn => "dyn",
        Builtin::IsDef => "def?",
        Builtin::Ref => "ref",
    }
}

/// The documentation of binding form `b`.
pub fn builtin_doc_str(b: Builtin) -> (s: &'static str)
    ensures
        s@ == builtin_doc(b),
{
    match b {
        Builtin::Lex => LEX_DOC,
        Builtin::SetBang => SET_DOC,
        Builtin::Def => DEF_DOC,
        Builtin::Var => VAR_DOC,
        Builtin::Undef => UNDEF_DOC,
        Builtin::Dyn => DYN_DOC,
        Builtin::IsDef => IS_DEF_DOC,
        Builtin::Ref => REF_DOC,
    }
}

/// Whether binding form `b` is installed as a function (else as a special form).
pub fn builtin_is_function_exec(b: Builtin) -> (r: bool)
    ensures
        r == builtin_is_function(b),
{
    match b {
        Builtin::Dyn => true,
        Builtin::Ref => true,
        _ => false,
    }
}

/// The binding forms have distinct names, and none is `root`.
pub proof fn lemma_builtin_names_distinct()
    ensures
        forall|a: Builtin, b: Builtin| a != b ==> builtin_name(a) != builtin_name(b),
        forall|a: Builtin| builtin_name(a) != "root"@,
{
    reveal_strlit("lex");
    reveal_strlit("set!");
    reveal_strlit("def");
    reveal_strlit("var");
    reveal_strlit("undef");
    reveal_strlit("dyn");
    reveal_strlit("def?");
    reveal_strlit("ref");
    reveal_strlit("root");
    assert forall|a: Builtin, b: Builtin| a != b implies builtin_name(a) != builtin_name(b) by {
        if builtin_name(a).len() == builtin_name(b).len() {
            assert(builtin_name(a)[0] != builtin_name(b)[0] || builtin_name(a)[1] != builtin_name(b)[1]
                || builtin_name(a)[2] != builtin_name(b)[2]);
        }
    }
    assert forall|a: Builtin| builtin_name(a) != "root"@ by {
        if builtin_name(a).len() == 4 {
            assert(builtin_name(a)[0] != "root"@[0]);
        }
    }
}

} // verus!
