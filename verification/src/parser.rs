//! The parser: variables, functions, and the scope that parses a block of
//! tokens and keeps the variables that the block declares.

use vstd::prelude::*;
use vstd::string::StringExecFns;
use crate::error::ErrorHandler;
use crate::error::ErrorTypes;
use crate::error::ErrorView;
use crate::error::Failure;
use crate::error::Res;
use crate::position::Position;
use crate::semantics::assign;
use crate::semantics::assignment_outcome;
use crate::semantics::block_outcome;
use crate::semantics::builtin_scope;
use crate::semantics::call_outcome;
use crate::semantics::declaration_outcome;
use crate::semantics::declare;
use crate::semantics::depth;
use crate::semantics::done;
use crate::semantics::fold_expression;
use crate::semantics::Folded;
use crate::semantics::FunctionView;
use crate::semantics::has_unmatched_close;
use crate::semantics::is_control;
use crate::semantics::is_first_unmatched_close;
use crate::semantics::is_separator;
use crate::semantics::is_type_word;
use crate::semantics::is_unmatched_close;
use crate::semantics::joined_text;
use crate::semantics::lemma_failure_ends_run;
use crate::semantics::lemma_first_unmatched_close;
use crate::semantics::name_outcome;
use crate::semantics::print_function;
use crate::semantics::run_statements;
use crate::semantics::ScopeView;
use crate::semantics::statement_outcome;
use crate::semantics::statement_start;
use crate::semantics::VariableView;
use crate::text::str_eq;
use crate::token::ControlVariants;
use crate::token::Token;
use crate::token::token_views;
use crate::token::TokenTypes;
use crate::token::WordVariants;

verus! {

/// A declared variable. Its value is kept as text: nothing is computed.
pub struct Variable {
    name: String,
    position: Position,
    var_type: String,
    value: String,
}

impl View for Variable {
    type V = VariableView;

    closed spec fn view(&self) -> VariableView {
        VariableView {
            name: self.name@,
            var_type: self.var_type@,
            position: self.position@,
            value: self.value@,
        }
    }
}

/// The rendering of a variable for a trace.
pub open spec fn variable_trace(v: VariableView) -> Seq<char> {
    "Variable { '"@ + v.name + "' at "@ + v.position.text() + " with type "@ + v.var_type
        + " and value '"@ + v.value + "' }"@
}

impl Variable {
    /// A variable of these four parts.
    pub fn new(var_type: String, name: String, position: Position, value: String) -> (v: Variable)
        ensures
            v@ == (VariableView {
                name: name@,
                var_type: var_type@,
                position: position@,
                value: value@,
            }),
    {
        Variable { name, position, var_type, value }
    }

    /// The name of the variable.
    pub fn name(&self) -> (s: &str)
        ensures
            s@ == self@.name,
    {
        self.name.as_str()
    }

    /// The name of the declared type: `str`, `bool` or `num`.
    pub fn var_type(&self) -> (s: &str)
        ensures
            s@ == self@.var_type,
    {
        self.var_type.as_str()
    }

    /// Where the variable was declared: the position of its name.
    pub fn position(&self) -> (p: &Position)
        ensures
            p@ == self@.position,
    {
        &self.position
    }

    /// The value as text; empty until a value is assigned.
    pub fn value(&self) -> (s: &str)
        ensures
            s@ == self@.value,
    {
        self.value.as_str()
    }

    /// The rendering of the variable for a trace.
    pub fn debug_string(&self) -> (s: String)
        ensures
            s@ == variable_trace(self@),
    {
        let mut s = "Variable { '".to_string();
        s.append(self.name.as_str());
        s.append("' at ");
        self.position.write_to(&mut s);
        s.append(" with type ");
        s.append(self.var_type.as_str());
        s.append(" and value '");
        s.append(self.value.as_str());
        s.append("' }");
        assert(s@ =~= variable_trace(self@));
        s
    }
}

/// The views of a run of variables.
pub open spec fn variable_views(variables: Seq<Variable>) -> Seq<VariableView> {
    variables.map_values(|v: Variable| v@)
}

/// A function: its name, where it was declared, its parameters, and a
/// word that stands for its body.
pub struct Function {
    name: String,
    position: Position,
    parameter: Vec<Variable>,
    expression: String,
}

impl View for Function {
    type V = FunctionView;

    closed spec fn view(&self) -> FunctionView {
        FunctionView {
            name: self.name@,
            position: self.position@,
            parameter: variable_views(self.parameter@),
            expression: self.expression@,
        }
    }
}

impl Function {
    /// A function of these four parts.
    pub fn new(name: String, position: Position, parameter: Vec<Variable>, expression: String) -> (f:
        Function)
        ensures
            f@ == (FunctionView {
                name: name@,
                position: position@,
                parameter: variable_views(parameter@),
                expression: expression@,
            }),
    {
        Function { name, position, parameter, expression }
    }

    /// The name of the function.
    pub fn name(&self) -> (s: &str)
        ensures
            s@ == self@.name,
    {
        self.name.as_str()
    }

    /// Where the function was declared.
    pub fn position(&self) -> (p: &Position)
        ensures
            p@ == self@.position,
    {
        &self.position
    }

    /// The parameters of the function.
    pub fn parameter(&self) -> (v: &Vec<Variable>)
        ensures
            variable_views(v@) == self@.parameter,
    {
        &self.parameter
    }

    /// The word that stands for the body of the function.
    pub fn expression(&self) -> (s: &str)
        ensures
            s@ == self@.expression,
    {
        self.expression.as_str()
    }
}

/// Whether the variable at `i` has the name `name`.
pub open spec fn is_named(variables: Seq<VariableView>, i: int, name: Seq<char>) -> bool {
    0 <= i < variables.len() && variables[i].name == name
}

/// Whether no two of the variables have the same name.
pub open spec fn distinct_names(variables: Seq<VariableView>) -> bool {
    forall|i: int, j: int|
        0 <= i < j < variables.len() ==> (#[trigger] variables[i]).name != (
        #[trigger] variables[j]).name
}

/// The variables by their names.
pub open spec fn by_name(variables: Seq<VariableView>) -> Map<Seq<char>, VariableView> {
    Map::new(
        |name: Seq<char>| exists|i: int| is_named(variables, i, name),
        |name: Seq<char>| variables[choose|i: int| is_named(variables, i, name)],
    )
}

/// With distinct names, each variable is what its name finds.
pub proof fn lemma_by_name_finds(variables: Seq<VariableView>, i: int)
    requires
        distinct_names(variables),
        0 <= i < variables.len(),
    ensures
        by_name(variables).contains_key(variables[i].name),
        by_name(variables)[variables[i].name] == variables[i],
{
    let name = variables[i].name;
    assert(is_named(variables, i, name));
    let k = choose|k: int| is_named(variables, k, name);
    assert(k == i);
}

/// A new variable at the end, under a name that was free.
pub proof fn lemma_by_name_push(variables: Seq<VariableView>, v: VariableView)
    requires
        distinct_names(variables),
        forall|i: int| 0 <= i < variables.len() ==> (#[trigger] variables[i]).name != v.name,
    ensures
        distinct_names(variables.push(v)),
        by_name(variables.push(v)) == by_name(variables).insert(v.name, v),
{
    let after = variables.push(v);
    assert(distinct_names(after));
    assert forall|name: Seq<char>| #[trigger]
        by_name(after).contains_key(name) == by_name(variables).insert(v.name, v).contains_key(
            name,
        ) by {
        if by_name(after).contains_key(name) {
            let k = choose|k: int| is_named(after, k, name);
            if k < variables.len() {
                assert(is_named(variables, k, name));
            }
        }
        if by_name(variables).contains_key(name) {
            let k = choose|k: int| is_named(variables, k, name);
            assert(is_named(after, k, name));
        }
        if name == v.name {
            assert(is_named(after, variables.len() as int, name));
        }
    }
    assert forall|name: Seq<char>| #[trigger] by_name(after).contains_key(name) implies by_name(
        after,
    )[name] == by_name(variables).insert(v.name, v)[name] by {
        let k = choose|k: int| is_named(after, k, name);
        lemma_by_name_finds(after, k);
        if k < variables.len() {
            assert(after[k] == variables[k]);
            lemma_by_name_finds(variables, k);
        }
    }
    assert(by_name(after) =~= by_name(variables).insert(v.name, v));
}

/// Another variable in the place of one, under the same name.
pub proof fn lemma_by_name_update(variables: Seq<VariableView>, i: int, v: VariableView)
    requires
        distinct_names(variables),
        0 <= i < variables.len(),
        variables[i].name == v.name,
    ensures
        distinct_names(variables.update(i, v)),
        by_name(variables.update(i, v)) == by_name(variables).insert(v.name, v),
{
    let after = variables.update(i, v);
    assert(distinct_names(after));
    assert forall|name: Seq<char>| #[trigger]
        by_name(after).contains_key(name) == by_name(variables).insert(v.name, v).contains_key(
            name,
        ) by {
        if by_name(after).contains_key(name) {
            let k = choose|k: int| is_named(after, k, name);
            assert(is_named(variables, k, name));
        }
        if by_name(variables).contains_key(name) {
            let k = choose|k: int| is_named(variables, k, name);
            assert(is_named(after, k, name));
        }
        if name == v.name {
            assert(is_named(after, i, name));
        }
    }
    assert forall|name: Seq<char>| #[trigger] by_name(after).contains_key(name) implies by_name(
        after,
    )[name] == by_name(variables).insert(v.name, v)[name] by {
        let k = choose|k: int| is_named(after, k, name);
        lemma_by_name_finds(after, k);
        if k != i {
            assert(after[k] == variables[k]);
            lemma_by_name_finds(variables, k);
        }
    }
    assert(by_name(after) =~= by_name(variables).insert(v.name, v));
}

/// The views of a run of functions.
pub open spec fn function_views(functions: Seq<Function>) -> Seq<FunctionView> {
    functions.map_values(|f: Function| f@)
}

/// Whether the function at `i` has the name `name`.
pub open spec fn is_function_named(functions: Seq<FunctionView>, i: int, name: Seq<char>) -> bool {
    0 <= i < functions.len() && functions[i].name == name
}

/// The functions by their names.
pub open spec fn functions_by_name(functions: Seq<FunctionView>) -> Map<Seq<char>, FunctionView> {
    Map::new(
        |name: Seq<char>| exists|i: int| is_function_named(functions, i, name),
        |name: Seq<char>| functions[choose|i: int| is_function_named(functions, i, name)],
    )
}

/// Whether no two of the functions have the same name.
pub open spec fn distinct_function_names(functions: Seq<FunctionView>) -> bool {
    forall|i: int, j: int|
        0 <= i < j < functions.len() ==> (#[trigger] functions[i]).name != (
        #[trigger] functions[j]).name
}

/// With distinct names, each function is what its name finds.
pub proof fn lemma_function_by_name_finds(functions: Seq<FunctionView>, i: int)
    requires
        distinct_function_names(functions),
        0 <= i < functions.len(),
    ensures
        functions_by_name(functions).contains_key(functions[i].name),
        functions_by_name(functions)[functions[i].name] == functions[i],
{
    let name = functions[i].name;
    assert(is_function_named(functions, i, name));
    let k = choose|k: int| is_function_named(functions, k, name);
    assert(k == i);
}

/// Whether `r` reports what `expected` says.
pub open spec fn reports(r: Res<()>, expected: Option<ErrorView>) -> bool {
    match r {
        Ok(_) => expected is None,
        Err(Failure::Compiler(e)) => expected == Some(e@),
        Err(Failure::Plain(_)) => false,
    }
}

/// Whether `r` holds what `expected` says.
pub open spec fn folds_to(r: Res<(String, String)>, expected: Result<Folded, ErrorView>) -> bool {
    match r {
        Ok(pair) => expected == Ok::<Folded, ErrorView>(
            Folded { value_type: pair.0@, value: pair.1@ },
        ),
        Err(Failure::Compiler(e)) => expected == Err::<Folded, ErrorView>(e@),
        Err(Failure::Plain(_)) => false,
    }
}

/// The views of a part of the tokens are that part of the views.
pub proof fn lemma_views_subrange(tokens: Seq<Token>, from: int, to: int)
    requires
        0 <= from <= to <= tokens.len(),
    ensures
        token_views(tokens.subrange(from, to)) == token_views(tokens).subrange(from, to),
{
    assert(token_views(tokens.subrange(from, to)) =~= token_views(tokens).subrange(from, to));
}

/// Whether the token is the control symbol.
fn is_symbol(token: &Token, symbol: ControlVariants) -> (b: bool)
    ensures
        b == is_control(token@, symbol),
{
    match &token.token {
        TokenTypes::Control(c) => *c == symbol,
        _ => false,
    }
}

/// Whether the token is one of the words `str`, `bool` and `num`.
fn is_type_keyword(token: &Token) -> (b: bool)
    ensures
        b == is_type_word(token@),
{
    match &token.token {
        TokenTypes::Word(WordVariants::Str) => true,
        TokenTypes::Word(WordVariants::Bool) => true,
        TokenTypes::Word(WordVariants::Num) => true,
        _ => false,
    }
}

/// Whether the token is a name.
fn is_name(token: &Token) -> (b: bool)
    ensures
        b == (token@.kind is Name),
{
    match &token.token {
        TokenTypes::Name(_) => true,
        _ => false,
    }
}

/// The message `before` + the canonical text of `token` + `after`.
fn message_about(before: &str, token: &Token, after: &str) -> (m: String)
    ensures
        m@ == before@ + token@.kind.text() + after@,
{
    let mut m = before.to_string();
    let text = token.token.to_string();
    m.append(text.as_str());
    m.append(after);
    m
}

/// The canonical texts of the tokens, one behind the other.
fn joined(tokens: &[Token]) -> (s: String)
    ensures
        s@ == joined_text(token_views(tokens@)),
{
    let ghost views = token_views(tokens@);
    let mut s = String::new();
    let mut i: usize = 0;
    while i < tokens.len()
        invariant
            i <= tokens.len(),
            views == token_views(tokens@),
            s@ == joined_text(views.take(i as int)),
        decreases tokens.len() - i,
    {
        let text = tokens[i].token.to_string();
        s.append(text.as_str());
        proof {
            assert(views.take(i + 1).drop_last() =~= views.take(i as int));
        }
        i = i + 1;
    }
    assert(views.take(tokens.len() as int) =~= views);
    s
}

/// The variables and functions that one block can see. Each block has a
/// scope of its own, which starts with the built-in functions and nothing
/// else.
pub struct Scope {
    variables: Vec<Variable>,
    functions: Vec<Function>,
}

impl View for Scope {
    type V = ScopeView;

    closed spec fn view(&self) -> ScopeView {
        ScopeView {
            variables: by_name(variable_views(self.variables@)),
            functions: functions_by_name(function_views(self.functions@)),
        }
    }
}

impl Scope {
    /// The invariant of a scope: no name stands for two variables, nor for
    /// two functions.
    pub closed spec fn wf(&self) -> bool {
        &&& distinct_names(variable_views(self.variables@))
        &&& distinct_function_names(function_views(self.functions@))
    }

    /// A scope with the built-in function `print` and no variables.
    pub fn new() -> (s: Self)
        ensures
            s.wf(),
            s@ == builtin_scope(),
    {
        let print = Function::new(
            "print".to_string(),
            Position::new("<builtin>".to_string(), 0, 0),
            Vec::new(),
            "print".to_string(),
        );
        let mut functions: Vec<Function> = Vec::new();
        functions.push(print);
        let s = Scope { variables: Vec::new(), functions };
        proof {
            let fs = function_views(s.functions@);
            assert(fs[0].parameter =~= Seq::empty());
            assert(fs[0] == print_function());
            assert(is_function_named(fs, 0, "print"@));
            assert(s@.functions =~= builtin_scope().functions);
            assert(s@.variables =~= builtin_scope().variables);
        }
        s
    }

    /// The variables of the scope, each once.
    pub fn variables(&self) -> (r: &Vec<Variable>)
        requires
            self.wf(),
        ensures
            distinct_names(variable_views(r@)),
            by_name(variable_views(r@)) == self@.variables,
    {
        &self.variables
    }

    /// The variable called `name`, if the scope has one.
    pub fn variable(&self, name: &str) -> (r: Option<&Variable>)
        requires
            self.wf(),
        ensures
            match r {
                Some(v) => self@.variables.contains_key(name@) && self@.variables[name@] == v@,
                None => !self@.variables.contains_key(name@),
            },
    {
        match self.find(name) {
            Some(i) => {
                proof {
                    lemma_by_name_finds(variable_views(self.variables@), i as int);
                }
                Some(&self.variables[i])
            },
            None => None,
        }
    }

    /// The function called `name`, if the scope has one.
    pub fn function(&self, name: &str) -> (r: Option<&Function>)
        requires
            self.wf(),
        ensures
            match r {
                Some(f) => self@.functions.contains_key(name@) && self@.functions[name@] == f@,
                None => !self@.functions.contains_key(name@),
            },
    {
        let ghost views = function_views(self.functions@);
        let mut i: usize = 0;
        while i < self.functions.len()
            invariant
                i <= self.functions.len(),
                views == function_views(self.functions@),
                distinct_function_names(views),
                forall|j: int| 0 <= j < i ==> !is_function_named(views, j, name@),
            decreases self.functions.len() - i,
        {
            if str_eq(self.functions[i].name.as_str(), name) {
                proof {
                    lemma_function_by_name_finds(views, i as int);
                }
                return Some(&self.functions[i]);
            }
            i = i + 1;
        }
        None
    }

    /// Where the variable called `name` is kept.
    fn find(&self, name: &str) -> (r: Option<usize>)
        ensures
            match r {
                Some(i) => is_named(variable_views(self.variables@), i as int, name@),
                None => !self@.variables.contains_key(name@),
            },
    {
        let mut i: usize = 0;
        while i < self.variables.len()
            invariant
                i <= self.variables.len(),
                forall|j: int| 0 <= j < i ==> !is_named(variable_views(self.variables@), j, name@),
            decreases self.variables.len() - i,
        {
            if str_eq(self.variables[i].name.as_str(), name) {
                return Some(i);
            }
            i = i + 1;
        }
        None
    }

    /// Declares the variable anew, without a value, in the place of an
    /// earlier one of that name if there is one.
    fn create_variable(&mut self, variable_type: String, variable_name: String, name_position: Position)
        requires
            old(self).wf(),
        ensures
            final(self).wf(),
            final(self)@ == declare(old(self)@, variable_type@, variable_name@, name_position@),
    {
        let found = self.find(variable_name.as_str());
        let variable = Variable::new(variable_type, variable_name, name_position, String::new());
        let ghost before = variable_views(self.variables@);
        match found {
            Some(i) => {
                proof {
                    lemma_by_name_update(before, i as int, variable@);
                    assert(variable_views(self.variables@.update(i as int, variable)) =~= before.update(
                        i as int,
                        variable@,
                    ));
                }
                self.variables[i] = variable;
            },
            None => {
                proof {
                    assert forall|j: int| 0 <= j < before.len() implies (#[trigger] before[j]).name
                        != variable@.name by {
                        if before[j].name == variable@.name {
                            assert(is_named(before, j, variable@.name));
                        }
                    }
                    lemma_by_name_push(before, variable@);
                    assert(variable_views(self.variables@.push(variable)) =~= before.push(
                        variable@,
                    ));
                }
                self.variables.push(variable);
            },
        }
    }

    /// Stores `value`, which is of type `value_type`, in the variable that
    /// the token names.
    fn asign_variable(&mut self, variable_name: Token, value_type: String, value: String) -> (r:
        Res<()>)
        requires
            old(self).wf(),
        ensures
            final(self).wf(),
            final(self)@ == assign(old(self)@, variable_name@, value_type@, value@).scope,
            reports(r, assign(old(self)@, variable_name@, value_type@, value@).failure),
    {
        let name = variable_name.token.to_string();
        let ghost before = variable_views(self.variables@);
        match self.find(name.as_str()) {
            Some(i) => {
                proof {
                    lemma_by_name_finds(before, i as int);
                }
                let var = &self.variables[i];
                if str_eq(var.var_type.as_str(), value_type.as_str()) {
                    let stored = Variable::new(
                        var.var_type.clone(),
                        var.name.clone(),
                        var.position.clone(),
                        value,
                    );
                    proof {
                        lemma_by_name_update(before, i as int, stored@);
                        assert(variable_views(self.variables@.update(i as int, stored)) =~= before.update(
                            i as int,
                            stored@,
                        ));
                    }
                    self.variables[i] = stored;
                    Ok(())
                } else {
                    let mut message = "expected ".to_string();
                    message.append(var.var_type.as_str());
                    message.append("-type but found a ");
                    message.append(value_type.as_str());
                    message.append("-type");
                    ErrorHandler::compiler_err(
                        ErrorTypes::MismatchedTypes,
                        message,
                        variable_name.position,
                    )
                }
            },
            None => {
                let mut message = "expected a variable name, but found no '".to_string();
                message.append(name.as_str());
                message.append("' in this scope");
                ErrorHandler::compiler_err(
                    ErrorTypes::UnexpectedSymbol,
                    message,
                    variable_name.position,
                )
            },
        }
    }

    /// Parses the block: checks its braces and its last `;`, then runs its
    /// statements in their order, up to the first that fails. The variables
    /// that the statements declare and assign are in the scope afterwards.
    pub fn parse_block(&mut self, tokens: Vec<Token>) -> (r: Res<()>)
        requires
            old(self).wf(),
        ensures
            final(self).wf(),
            final(self)@ == block_outcome(old(self)@, token_views(tokens@)).scope,
            reports(r, block_outcome(old(self)@, token_views(tokens@)).failure),
    {
        self.parse_tokens(tokens.as_slice())
    }

    /// Parses the block, given as a slice so that a nested block is parsed
    /// where it stands.
    ///
    /// A first pass looks for a `}` that closes more than was opened and for
    /// a last statement without its `;`. Only then does a second pass run the
    /// statements.
    fn parse_tokens(&mut self, tokens: &[Token]) -> (r: Res<()>)
        requires
            old(self).wf(),
        ensures
            final(self).wf(),
            final(self)@ == block_outcome(old(self)@, token_views(tokens@)).scope,
            reports(r, block_outcome(old(self)@, token_views(tokens@)).failure),
        decreases tokens.len(), 1nat,
    {
        let ghost views = token_views(tokens@);
        let ghost scope = self@;
        let n = tokens.len();
        let mut nesting: usize = 0;
        let mut start: usize = 0;
        let mut i: usize = 0;
        while i < n
            invariant
                i <= n,
                n == tokens.len(),
                views == token_views(tokens@),
                nesting == depth(views, i as int),
                nesting <= i,
                forall|j: int| 0 <= j < i ==> !is_unmatched_close(views, j),
                start == statement_start(views, i as int),
                start <= i,
                self@ == scope,
                self.wf(),
            decreases n - i,
        {
            let token = &tokens[i];
            if is_symbol(token, ControlVariants::OpenCurly) {
                nesting = nesting + 1;
            } else if is_symbol(token, ControlVariants::CloseCurly) {
                if nesting == 0 {
                    proof {
                        assert(is_first_unmatched_close(views, i as int));
                        lemma_first_unmatched_close(views, i as int);
                    }
                    return ErrorHandler::compiler_err(
                        ErrorTypes::UnexpectedSymbol,
                        "no opened block to close".to_string(),
                        token.position.clone(),
                    );
                }
                nesting = nesting - 1;
            } else if is_symbol(token, ControlVariants::Semicolon) && nesting == 0 {
                start = i + 1;
            }
            i = i + 1;
        }
        assert(!has_unmatched_close(views));
        if start < n {
            return ErrorHandler::compiler_err(
                ErrorTypes::UnclosedStatement,
                "expected ';', but found end of block".to_string(),
                tokens[start].position.clone(),
            );
        }
        nesting = 0;
        start = 0;
        i = 0;
        while i < n
            invariant
                i <= n,
                n == tokens.len(),
                views == token_views(tokens@),
                nesting == depth(views, i as int),
                nesting <= i,
                forall|j: int| 0 <= j < n ==> !is_unmatched_close(views, j),
                !has_unmatched_close(views),
                statement_start(views, n as int) >= n,
                start == statement_start(views, i as int),
                start <= i,
                self.wf(),
                scope == old(self)@,
                run_statements(scope, views, i as int) == done(self@),
            decreases n - i,
        {
            let token = &tokens[i];
            if is_symbol(token, ControlVariants::OpenCurly) {
                nesting = nesting + 1;
            } else if is_symbol(token, ControlVariants::CloseCurly) {
                assert(!is_unmatched_close(views, i as int));
                nesting = nesting - 1;
            } else if is_symbol(token, ControlVariants::Semicolon) && nesting == 0 {
                if start < i {
                    proof {
                        lemma_views_subrange(tokens@, start as int, i as int);
                    }
                    match self.parse_statement(&tokens[start..i]) {
                        Ok(_) => {
                            proof {
                                let o = run_statements(scope, views, i + 1);
                                assert(is_separator(views, i as int));
                                assert(o.failure is None);
                            }
                        },
                        Err(e) => {
                            proof {
                                assert(is_separator(views, i as int));
                                assert(run_statements(scope, views, i + 1).failure is Some);
                                lemma_failure_ends_run(scope, views, i + 1, n as int);
                            }
                            return Err(e);
                        },
                    }
                }
                start = i + 1;
            }
            i = i + 1;
        }
        Ok(())
    }

    /// Parses one statement, without its `;`, by its first token.
    fn parse_statement(&mut self, tokens: &[Token]) -> (r: Res<()>)
        requires
            old(self).wf(),
            tokens.len() >= 1,
        ensures
            final(self).wf(),
            final(self)@ == statement_outcome(old(self)@, token_views(tokens@)).scope,
            reports(r, statement_outcome(old(self)@, token_views(tokens@)).failure),
        decreases tokens.len(), 0nat,
    {
        let n = tokens.len();
        let first = &tokens[0];
        if is_symbol(first, ControlVariants::OpenCurly) {
            if n >= 2 && is_symbol(&tokens[n - 1], ControlVariants::CloseCurly) {
                proof {
                    lemma_views_subrange(tokens@, 1, n - 1);
                }
                let mut inner = Scope::new();
                inner.parse_tokens(&tokens[1..n - 1])
            } else {
                ErrorHandler::compiler_err(
                    ErrorTypes::UnclosedBlock,
                    "expected '}', but encountered ';'".to_string(),
                    first.position.clone(),
                )
            }
        } else if is_type_keyword(first) {
            self.parse_variable_instantiation(tokens)
        } else if is_name(first) {
            self.parse_name_expression(tokens)
        } else if first.token.is_literal() {
            match self.parse_expression(tokens) {
                Ok(_) => Ok(()),
                Err(e) => Err(e),
            }
        } else {
            ErrorHandler::compiler_err(
                ErrorTypes::UnexpectedSymbol,
                message_about("cannot start statement with '", first, "'"),
                first.position.clone(),
            )
        }
    }

    /// Parses a declaration: a type word, a name, `=` and an expression.
    fn parse_variable_instantiation(&mut self, tokens: &[Token]) -> (r: Res<()>)
        requires
            old(self).wf(),
            tokens.len() >= 1,
        ensures
            final(self).wf(),
            final(self)@ == declaration_outcome(old(self)@, token_views(tokens@)).scope,
            reports(r, declaration_outcome(old(self)@, token_views(tokens@)).failure),
    {
        let n = tokens.len();
        let variable_type = &tokens[0];
        if n < 2 {
            return ErrorHandler::compiler_err(
                ErrorTypes::InvalidStatement,
                "expected a name but found nothing".to_string(),
                variable_type.position.clone(),
            );
        }
        let name = &tokens[1];
        if !is_name(name) {
            return ErrorHandler::compiler_err(
                ErrorTypes::InvalidStatement,
                message_about("expected a name but found '", name, "'"),
                name.position.clone(),
            );
        }
        if n < 3 {
            return ErrorHandler::compiler_err(
                ErrorTypes::InvalidStatement,
                "expected '=' but found nothing".to_string(),
                name.position.clone(),
            );
        }
        let sign = &tokens[2];
        if !is_symbol(sign, ControlVariants::Asign) {
            return ErrorHandler::compiler_err(
                ErrorTypes::InvalidStatement,
                message_about("expected '=' but found '", sign, "'"),
                sign.position.clone(),
            );
        }
        self.create_variable(
            variable_type.token.to_string(),
            name.token.to_string(),
            name.position.clone(),
        );
        proof {
            lemma_views_subrange(tokens@, 1, n as int);
        }
        self.parse_variable_asignment(&tokens[1..n])
    }

    /// Parses an assignment: a name, `=` and an expression.
    fn parse_variable_asignment(&mut self, tokens: &[Token]) -> (r: Res<()>)
        requires
            old(self).wf(),
            tokens.len() >= 2,
        ensures
            final(self).wf(),
            final(self)@ == assignment_outcome(old(self)@, token_views(tokens@)).scope,
            reports(r, assignment_outcome(old(self)@, token_views(tokens@)).failure),
    {
        let n = tokens.len();
        let variable_name = &tokens[0];
        let name = variable_name.token.to_string();
        if self.find(name.as_str()).is_none() {
            return ErrorHandler::compiler_err(
                ErrorTypes::UnexpectedSymbol,
                message_about(
                    "expected a variable name, but found no '",
                    variable_name,
                    "' in this scope",
                ),
                variable_name.position.clone(),
            );
        }
        if n <= 2 {
            return ErrorHandler::compiler_err(
                ErrorTypes::InvalidStatement,
                "expected an expression, but found nothing".to_string(),
                tokens[1].position.clone(),
            );
        }
        proof {
            lemma_views_subrange(tokens@, 2, n as int);
        }
        match self.parse_expression(&tokens[2..n]) {
            Ok(folded) => self.asign_variable(variable_name.clone(), folded.0, folded.1),
            Err(e) => Err(e),
        }
    }

    /// Parses a statement that starts with a name: an assignment or a call.
    fn parse_name_expression(&mut self, tokens: &[Token]) -> (r: Res<()>)
        requires
            old(self).wf(),
            tokens.len() >= 1,
        ensures
            final(self).wf(),
            final(self)@ == name_outcome(old(self)@, token_views(tokens@)).scope,
            reports(r, name_outcome(old(self)@, token_views(tokens@)).failure),
    {
        let variable_name = &tokens[0];
        if tokens.len() < 2 {
            return ErrorHandler::compiler_err(
                ErrorTypes::InvalidStatement,
                "expected '=' but found nothing".to_string(),
                variable_name.position.clone(),
            );
        }
        let next = &tokens[1];
        if is_symbol(next, ControlVariants::Asign) {
            self.parse_variable_asignment(tokens)
        } else if is_symbol(next, ControlVariants::OpenParanthesis) {
            self.parse_function_call(tokens)
        } else {
            ErrorHandler::compiler_err(
                ErrorTypes::InvalidStatement,
                message_about("expected '=' but found '", next, "'"),
                next.position.clone(),
            )
        }
    }

    /// Parses a call: a name, `(`, an expression and one more token. The
    /// expression is checked; nothing is called.
    fn parse_function_call(&self, tokens: &[Token]) -> (r: Res<()>)
        requires
            tokens.len() >= 2,
        ensures
            reports(r, call_outcome(self@, token_views(tokens@)).failure),
    {
        let n = tokens.len();
        if n <= 3 {
            return ErrorHandler::compiler_err(
                ErrorTypes::InvalidStatement,
                "expected function parameters, but found nothing".to_string(),
                tokens[1].position.clone(),
            );
        }
        proof {
            lemma_views_subrange(tokens@, 2, n - 1);
        }
        match self.parse_expression(&tokens[2..n - 1]) {
            Ok(_) => Ok(()),
            Err(e) => Err(e),
        }
    }

    /// Folds an expression into its type and its text.
    fn parse_expression(&self, tokens: &[Token]) -> (r: Res<(String, String)>)
        requires
            tokens.len() >= 1,
        ensures
            folds_to(r, fold_expression(token_views(tokens@))),
        decreases tokens.len(),
    {
        let n = tokens.len();
        if n == 1 {
            let token = &tokens[0];
            if token.token.is_literal() {
                Ok((token.token.token_type().to_string(), token.token.to_string()))
            } else {
                ErrorHandler::compiler_err(
                    ErrorTypes::InvalidStatement,
                    message_about("expected literal but found '", token, "'"),
                    token.position.clone(),
                )
            }
        } else if n % 2 == 1 {
            proof {
                lemma_views_subrange(tokens@, 0, 1);
                lemma_views_subrange(tokens@, 2, n as int);
            }
            let left = match self.parse_expression(&tokens[0..1]) {
                Ok(folded) => folded,
                Err(e) => {
                    return Err(e);
                },
            };
            let operator = &tokens[1];
            let right = match self.parse_expression(&tokens[2..n]) {
                Ok(folded) => folded,
                Err(e) => {
                    return Err(e);
                },
            };
            if is_symbol(operator, ControlVariants::Comma) {
                let mut value_type = left.0;
                value_type.append(", ");
                value_type.append(right.0.as_str());
                let mut value = left.1;
                value.append(", ");
                value.append(right.1.as_str());
                Ok((value_type, value))
            } else if !str_eq(right.0.as_str(), left.0.as_str()) {
                let mut message = "expected ".to_string();
                message.append(left.0.as_str());
                message.append("-type but found ");
                message.append(right.0.as_str());
                message.append("-type");
                ErrorHandler::compiler_err(
                    ErrorTypes::MismatchedTypes,
                    message,
                    tokens[n - 1].position.clone(),
                )
            } else {
                let mut value = left.1;
                value.append(" ");
                let symbol = operator.token.to_string();
                value.append(symbol.as_str());
                value.append(" ");
                value.append(right.1.as_str());
                Ok((left.0, value))
            }
        } else {
            let mut message = "expected expression but found '".to_string();
            let text = joined(tokens);
            message.append(text.as_str());
            message.append("'");
            ErrorHandler::compiler_err(
                ErrorTypes::InvalidStatement,
                message,
                tokens[n - 1].position.clone(),
            )
        }
    }
}

} // verus!
