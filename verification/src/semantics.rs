//! What a block of tokens means: which diagnostic it ends in, if any, and
//! which variables its scope holds afterwards.
//!
//! Everything here is a function on the views of tokens and scopes. The
//! parser is proved to compute these functions.

use vstd::prelude::*;
use crate::error::ErrorTypes;
use crate::error::ErrorView;
use crate::position::PositionView;
use crate::token::ControlVariants;
use crate::token::TokenKind;
use crate::token::TokenView;
use crate::token::WordVariants;

verus! {

/// What a variable is: its name, the name of its declared type, where it
/// was declared, and its value as text.
pub struct VariableView {
    pub name: Seq<char>,
    pub var_type: Seq<char>,
    pub position: PositionView,
    pub value: Seq<char>,
}

/// What a function is.
pub struct FunctionView {
    pub name: Seq<char>,
    pub position: PositionView,
    pub parameter: Seq<VariableView>,
    pub expression: Seq<char>,
}

/// What a scope is: its variables and its functions, each found by name.
pub struct ScopeView {
    pub variables: Map<Seq<char>, VariableView>,
    pub functions: Map<Seq<char>, FunctionView>,
}

/// Where the built-in functions count as declared.
pub open spec fn builtin_position() -> PositionView {
    PositionView { file: "<builtin>"@, row: 0, column: 0 }
}

/// The built-in function `print`.
pub open spec fn print_function() -> FunctionView {
    FunctionView {
        name: "print"@,
        position: builtin_position(),
        parameter: Seq::empty(),
        expression: "print"@,
    }
}

/// The scope that every block starts from: no variables, and the built-in
/// functions.
pub open spec fn builtin_scope() -> ScopeView {
    ScopeView { variables: Map::empty(), functions: Map::empty().insert("print"@, print_function()) }
}

/// How parsing ended, and the scope it left.
pub struct Outcome {
    pub scope: ScopeView,
    /// The diagnostic that ended it, or `None` if all went well.
    pub failure: Option<ErrorView>,
}

/// All went well, and left `scope`.
pub open spec fn done(scope: ScopeView) -> Outcome {
    Outcome { scope, failure: None }
}

/// Parsing ended in the diagnostic made of the kind, the message and the
/// position, and left `scope`.
pub open spec fn fail(scope: ScopeView, kind: ErrorTypes, message: Seq<char>, position: PositionView)
    -> Outcome {
    Outcome { scope, failure: Some(ErrorView { kind, message, position }) }
}

/// Whether `t` is the control symbol `c`.
pub open spec fn is_control(t: TokenView, c: ControlVariants) -> bool {
    t.kind == TokenKind::Control(c)
}

/// Whether `t` is one of the words `str`, `bool` and `num`.
pub open spec fn is_type_word(t: TokenView) -> bool {
    ||| t.kind == TokenKind::Word(WordVariants::Str)
    ||| t.kind == TokenKind::Word(WordVariants::Bool)
    ||| t.kind == TokenKind::Word(WordVariants::Num)
}

/// The canonical texts of the tokens, one behind the other.
pub open spec fn joined_text(tokens: Seq<TokenView>) -> Seq<char>
    decreases tokens.len(),
{
    if tokens.len() == 0 {
        Seq::empty()
    } else {
        joined_text(tokens.drop_last()) + tokens.last().kind.text()
    }
}

/// The type and the text of an expression.
pub struct Folded {
    pub value_type: Seq<char>,
    pub value: Seq<char>,
}

/// Folds an expression into its type and its text. Nothing is computed and
/// no operator binds tighter than another.
///
/// One token must be a literal, and gives its type and its canonical text.
/// An odd number of tokens is a first token, an operator and the rest, each
/// side folded by itself. A comma joins the types and the texts of both sides
/// with `, `. Any other operator asks for the same type on both sides, which
/// is then the type of the whole, and joins the texts with the operator
/// between two spaces. An even number of tokens is no expression.
pub open spec fn fold_expression(tokens: Seq<TokenView>) -> Result<Folded, ErrorView>
    decreases tokens.len(),
{
    if tokens.len() == 1 {
        let t = tokens[0];
        if t.kind.is_literal() {
            Ok(Folded { value_type: t.kind.kind_name(), value: t.kind.text() })
        } else {
            Err(
                ErrorView {
                    kind: ErrorTypes::InvalidStatement,
                    message: "expected literal but found '"@ + t.kind.text() + "'"@,
                    position: t.position,
                },
            )
        }
    } else if tokens.len() % 2 == 1 {
        match fold_expression(tokens.take(1)) {
            Err(e) => Err(e),
            Ok(left) => match fold_expression(tokens.skip(2)) {
                Err(e) => Err(e),
                Ok(right) => {
                    if is_control(tokens[1], ControlVariants::Comma) {
                        Ok(
                            Folded {
                                value_type: left.value_type + ", "@ + right.value_type,
                                value: left.value + ", "@ + right.value,
                            },
                        )
                    } else if right.value_type != left.value_type {
                        Err(
                            ErrorView {
                                kind: ErrorTypes::MismatchedTypes,
                                message: "expected "@ + left.value_type + "-type but found "@
                                    + right.value_type + "-type"@,
                                position: tokens.last().position,
                            },
                        )
                    } else {
                        Ok(
                            Folded {
                                value_type: left.value_type,
                                value: left.value + " "@ + tokens[1].kind.text() + " "@
                                    + right.value,
                            },
                        )
                    }
                },
            },
        }
    } else {
        Err(
            ErrorView {
                kind: ErrorTypes::InvalidStatement,
                message: "expected expression but found '"@ + joined_text(tokens) + "'"@,
                position: tokens.last().position,
            },
        )
    }
}

/// The scope with the variable `name` declared anew, without a value. An
/// earlier variable of that name is replaced.
pub open spec fn declare(
    scope: ScopeView,
    var_type: Seq<char>,
    name: Seq<char>,
    position: PositionView,
) -> ScopeView {
    ScopeView {
        variables: scope.variables.insert(
            name,
            VariableView { name, var_type, position, value: Seq::empty() },
        ),
        ..scope
    }
}

/// The scope with `value` stored in the variable `name`.
pub open spec fn store(scope: ScopeView, name: Seq<char>, value: Seq<char>) -> ScopeView {
    ScopeView {
        variables: scope.variables.insert(
            name,
            VariableView { value, ..scope.variables[name] },
        ),
        ..scope
    }
}

/// The diagnostic for a name that this scope has no variable of.
pub open spec fn unknown_variable(scope: ScopeView, target: TokenView) -> Outcome {
    fail(
        scope,
        ErrorTypes::UnexpectedSymbol,
        "expected a variable name, but found no '"@ + target.kind.text() + "' in this scope"@,
        target.position,
    )
}

/// Stores a value of type `value_type` in the variable that the token
/// `target` names. The variable must be in this very scope, and of that
/// type.
pub open spec fn assign(
    scope: ScopeView,
    target: TokenView,
    value_type: Seq<char>,
    value: Seq<char>,
) -> Outcome {
    let name = target.kind.text();
    if !scope.variables.contains_key(name) {
        unknown_variable(scope, target)
    } else if scope.variables[name].var_type != value_type {
        fail(
            scope,
            ErrorTypes::MismatchedTypes,
            "expected "@ + scope.variables[name].var_type + "-type but found a "@ + value_type
                + "-type"@,
            target.position,
        )
    } else {
        done(store(scope, name, value))
    }
}

/// The outcome of `name = expression`, where `stmt` starts with the name
/// and the `=`.
///
/// The name is looked up first, in this scope alone. Then the expression is
/// folded, then its type is held against the declared type of the variable,
/// and then its text becomes the value of the variable.
pub open spec fn assignment_outcome(scope: ScopeView, stmt: Seq<TokenView>) -> Outcome
    recommends
        stmt.len() >= 2,
{
    if !scope.variables.contains_key(stmt[0].kind.text()) {
        unknown_variable(scope, stmt[0])
    } else if stmt.len() <= 2 {
        fail(
            scope,
            ErrorTypes::InvalidStatement,
            "expected an expression, but found nothing"@,
            stmt[1].position,
        )
    } else {
        match fold_expression(stmt.skip(2)) {
            Err(e) => Outcome { scope, failure: Some(e) },
            Ok(folded) => assign(scope, stmt[0], folded.value_type, folded.value),
        }
    }
}

/// The outcome of a declaration, which starts with one of the words `str`,
/// `bool` and `num`: a name and `=` must follow. The variable is then
/// declared with that word as its type, and what stands behind the word is
/// an assignment to it.
pub open spec fn declaration_outcome(scope: ScopeView, stmt: Seq<TokenView>) -> Outcome
    recommends
        stmt.len() >= 1,
{
    if stmt.len() < 2 {
        fail(
            scope,
            ErrorTypes::InvalidStatement,
            "expected a name but found nothing"@,
            stmt[0].position,
        )
    } else if !(stmt[1].kind is Name) {
        fail(
            scope,
            ErrorTypes::InvalidStatement,
            "expected a name but found '"@ + stmt[1].kind.text() + "'"@,
            stmt[1].position,
        )
    } else if stmt.len() < 3 {
        fail(
            scope,
            ErrorTypes::InvalidStatement,
            "expected '=' but found nothing"@,
            stmt[1].position,
        )
    } else if !is_control(stmt[2], ControlVariants::Asign) {
        fail(
            scope,
            ErrorTypes::InvalidStatement,
            "expected '=' but found '"@ + stmt[2].kind.text() + "'"@,
            stmt[2].position,
        )
    } else {
        assignment_outcome(
            declare(scope, stmt[0].kind.text(), stmt[1].kind.text(), stmt[1].position),
            stmt.skip(1),
        )
    }
}

/// The outcome of a call, where `stmt` starts with the name and the `(`.
/// The last token is taken for the `)`. What stands between the two is
/// folded as an expression, to see that it is one, and there must be
/// something; nothing is called, and the name need not be that of a
/// function.
pub open spec fn call_outcome(scope: ScopeView, stmt: Seq<TokenView>) -> Outcome
    recommends
        stmt.len() >= 2,
{
    if stmt.len() <= 3 {
        fail(
            scope,
            ErrorTypes::InvalidStatement,
            "expected function parameters, but found nothing"@,
            stmt[1].position,
        )
    } else {
        match fold_expression(stmt.subrange(2, stmt.len() - 1)) {
            Err(e) => Outcome { scope, failure: Some(e) },
            Ok(_) => done(scope),
        }
    }
}

/// The outcome of a statement that starts with a name: an assignment if
/// `=` follows, a call if `(` follows.
pub open spec fn name_outcome(scope: ScopeView, stmt: Seq<TokenView>) -> Outcome
    recommends
        stmt.len() >= 1,
{
    if stmt.len() < 2 {
        fail(
            scope,
            ErrorTypes::InvalidStatement,
            "expected '=' but found nothing"@,
            stmt[0].position,
        )
    } else if is_control(stmt[1], ControlVariants::Asign) {
        assignment_outcome(scope, stmt)
    } else if is_control(stmt[1], ControlVariants::OpenParanthesis) {
        call_outcome(scope, stmt)
    } else {
        fail(
            scope,
            ErrorTypes::InvalidStatement,
            "expected '=' but found '"@ + stmt[1].kind.text() + "'"@,
            stmt[1].position,
        )
    }
}

/// The outcome of a statement that starts with a literal: the whole of it
/// is folded as an expression, and changes nothing.
pub open spec fn expression_outcome(scope: ScopeView, stmt: Seq<TokenView>) -> Outcome {
    match fold_expression(stmt) {
        Err(e) => Outcome { scope, failure: Some(e) },
        Ok(_) => done(scope),
    }
}

/// The nesting depth after the first `n` tokens: the number of `{` among
/// them less the number of `}`.
pub open spec fn depth(tokens: Seq<TokenView>, n: int) -> int
    decreases n,
{
    if n <= 0 {
        0
    } else if is_control(tokens[n - 1], ControlVariants::OpenCurly) {
        depth(tokens, n - 1) + 1
    } else if is_control(tokens[n - 1], ControlVariants::CloseCurly) {
        depth(tokens, n - 1) - 1
    } else {
        depth(tokens, n - 1)
    }
}

/// Whether the token at `i` is a `}` that closes more than was opened.
pub open spec fn is_unmatched_close(tokens: Seq<TokenView>, i: int) -> bool {
    0 <= i < tokens.len() && depth(tokens, i + 1) < 0
}

/// Whether some `}` closes more than was opened.
pub open spec fn has_unmatched_close(tokens: Seq<TokenView>) -> bool {
    exists|i: int| is_unmatched_close(tokens, i)
}

/// Whether the token at `i` is the first `}` that closes more than was
/// opened.
pub open spec fn is_first_unmatched_close(tokens: Seq<TokenView>, i: int) -> bool {
    &&& is_unmatched_close(tokens, i)
    &&& forall|j: int| 0 <= j < i ==> !is_unmatched_close(tokens, j)
}

/// Where the first `}` stands that closes more than was opened.
pub open spec fn first_unmatched_close(tokens: Seq<TokenView>) -> int {
    choose|i: int| is_first_unmatched_close(tokens, i)
}

/// Whether the token at `i` ends a statement: a `;` outside every nested
/// block.
pub open spec fn is_separator(tokens: Seq<TokenView>, i: int) -> bool {
    &&& 0 <= i < tokens.len()
    &&& is_control(tokens[i], ControlVariants::Semicolon)
    &&& depth(tokens, i) == 0
}

/// Where the statement begins that the token at `n` belongs to: behind the
/// last separator before `n`, or at 0.
pub open spec fn statement_start(tokens: Seq<TokenView>, n: int) -> int
    decreases n,
{
    if n <= 0 {
        0
    } else if is_separator(tokens, n - 1) {
        n
    } else {
        statement_start(tokens, n - 1)
    }
}

/// The outcome of one statement, by its first token.
///
/// A `{` asks for a `}` at the end; what stands between them is a block, and
/// is parsed in a scope of its own that starts as [`builtin_scope`] does and
/// is dropped afterwards: the block sees none of the variables around it and
/// leaves none behind.
pub open spec fn statement_outcome(scope: ScopeView, stmt: Seq<TokenView>) -> Outcome
    recommends
        stmt.len() >= 1,
    decreases stmt.len(), 0nat, 0nat,
{
    let first = stmt[0];
    if is_control(first, ControlVariants::OpenCurly) {
        if stmt.len() >= 2 && is_control(stmt.last(), ControlVariants::CloseCurly) {
            Outcome {
                scope,
                failure: block_outcome(builtin_scope(), stmt.subrange(1, stmt.len() - 1)).failure,
            }
        } else {
            fail(
                scope,
                ErrorTypes::UnclosedBlock,
                "expected '}', but encountered ';'"@,
                first.position,
            )
        }
    } else if is_type_word(first) {
        declaration_outcome(scope, stmt)
    } else if first.kind is Name {
        name_outcome(scope, stmt)
    } else if first.kind.is_literal() {
        expression_outcome(scope, stmt)
    } else {
        fail(
            scope,
            ErrorTypes::UnexpectedSymbol,
            "cannot start statement with '"@ + first.kind.text() + "'"@,
            first.position,
        )
    }
}

/// The outcome of the statements that end among the first `n` tokens, one
/// after the other. Empty statements are passed over. The first statement
/// that fails ends the run.
pub open spec fn run_statements(scope: ScopeView, tokens: Seq<TokenView>, n: int) -> Outcome
    decreases tokens.len(), 1nat, n,
{
    if n <= 0 || n > tokens.len() {
        done(scope)
    } else {
        let before = run_statements(scope, tokens, n - 1);
        let start = statement_start(tokens, n - 1);
        if before.failure is Some {
            before
        } else if is_separator(tokens, n - 1) && 0 <= start < n - 1 {
            statement_outcome(before.scope, tokens.subrange(start, n - 1))
        } else {
            before
        }
    }
}

/// The outcome of a block.
///
/// A `}` that closes more than was opened fails the block before anything
/// else; so does, after that, a last statement without its `;`. Then the
/// statements are run in their order.
pub open spec fn block_outcome(scope: ScopeView, tokens: Seq<TokenView>) -> Outcome
    decreases tokens.len(), 2nat, 0nat,
{
    if has_unmatched_close(tokens) {
        fail(
            scope,
            ErrorTypes::UnexpectedSymbol,
            "no opened block to close"@,
            tokens[first_unmatched_close(tokens)].position,
        )
    } else if statement_start(tokens, tokens.len() as int) < tokens.len() {
        fail(
            scope,
            ErrorTypes::UnclosedStatement,
            "expected ';', but found end of block"@,
            tokens[statement_start(tokens, tokens.len() as int)].position,
        )
    } else {
        run_statements(scope, tokens, tokens.len() as int)
    }
}

/// Once a statement has failed, the run stays as it is.
pub proof fn lemma_failure_ends_run(scope: ScopeView, tokens: Seq<TokenView>, n: int, m: int)
    requires
        0 <= n <= m <= tokens.len(),
        run_statements(scope, tokens, n).failure is Some,
    ensures
        run_statements(scope, tokens, m) == run_statements(scope, tokens, n),
    decreases m - n,
{
    if n < m {
        lemma_failure_ends_run(scope, tokens, n, m - 1);
    }
}

/// With no unmatched `}` before it, a `}` at depth 0 is the first one.
pub proof fn lemma_first_unmatched_close(tokens: Seq<TokenView>, i: int)
    requires
        is_first_unmatched_close(tokens, i),
    ensures
        has_unmatched_close(tokens),
        first_unmatched_close(tokens) == i,
{
    let k = first_unmatched_close(tokens);
    assert(is_first_unmatched_close(tokens, k));
    if k < i {
        assert(!is_unmatched_close(tokens, k));
    }
    if i < k {
        assert(!is_unmatched_close(tokens, i));
    }
}

/// Where a `}` closes more than was opened, there is a first that does.
pub proof fn lemma_some_close_is_first(tokens: Seq<TokenView>, i: int)
    requires
        is_unmatched_close(tokens, i),
    ensures
        has_unmatched_close(tokens),
        is_first_unmatched_close(tokens, first_unmatched_close(tokens)),
        first_unmatched_close(tokens) <= i,
    decreases i,
{
    if exists|j: int| 0 <= j < i && is_unmatched_close(tokens, j) {
        let j = choose|j: int| 0 <= j < i && is_unmatched_close(tokens, j);
        lemma_some_close_is_first(tokens, j);
    } else {
        assert(is_first_unmatched_close(tokens, i));
        lemma_first_unmatched_close(tokens, i);
    }
}

/// A block in which a `}` closes more than was opened fails with
/// `UnexpectedSymbol` at the first such `}`, whatever else it holds, and
/// leaves the scope as it was.
pub proof fn law_unmatched_close_fails(scope: ScopeView, tokens: Seq<TokenView>, i: int)
    requires
        is_unmatched_close(tokens, i),
    ensures
        is_first_unmatched_close(tokens, first_unmatched_close(tokens)),
        block_outcome(scope, tokens) == fail(
            scope,
            ErrorTypes::UnexpectedSymbol,
            "no opened block to close"@,
            tokens[first_unmatched_close(tokens)].position,
        ),
{
    lemma_some_close_is_first(tokens, i);
}

/// A block whose last token does not end a statement fails with
/// `UnclosedStatement` at the first token of the statement that is left
/// open, and leaves the scope as it was. This is of blocks in which no `}`
/// closes more than was opened: those fail for that.
pub proof fn law_unclosed_statement_fails(scope: ScopeView, tokens: Seq<TokenView>)
    requires
        tokens.len() > 0,
        !is_separator(tokens, tokens.len() - 1),
        !has_unmatched_close(tokens),
    ensures
        0 <= statement_start(tokens, tokens.len() as int) < tokens.len(),
        block_outcome(scope, tokens) == fail(
            scope,
            ErrorTypes::UnclosedStatement,
            "expected ';', but found end of block"@,
            tokens[statement_start(tokens, tokens.len() as int)].position,
        ),
{
    lemma_statement_start_bounds(tokens, tokens.len() - 1);
}

/// A statement begins at or before each of its tokens.
pub proof fn lemma_statement_start_bounds(tokens: Seq<TokenView>, n: int)
    requires
        0 <= n,
    ensures
        0 <= statement_start(tokens, n) <= n,
    decreases n,
{
    if n > 0 {
        lemma_statement_start_bounds(tokens, n - 1);
    }
}

/// Before the first separator no statement has begun but the first, and
/// none has been run.
pub proof fn lemma_before_first_separator(scope: ScopeView, tokens: Seq<TokenView>, n: int)
    requires
        0 <= n <= tokens.len(),
        forall|j: int| 0 <= j < n ==> !is_separator(tokens, j),
    ensures
        statement_start(tokens, n) == 0,
        run_statements(scope, tokens, n) == done(scope),
    decreases n,
{
    if n > 0 {
        lemma_before_first_separator(scope, tokens, n - 1);
    }
}

/// A nested block is parsed by itself: what comes of the statement
/// `{ ... }` does not depend on the scope around it, and that scope is left
/// as it was. The diagnostic, if any, is that of the block between the braces
/// in a scope that holds the built-in functions and no variable.
pub proof fn law_nested_block_is_isolated(scope: ScopeView, stmt: Seq<TokenView>)
    requires
        stmt.len() >= 2,
        is_control(stmt[0], ControlVariants::OpenCurly),
        is_control(stmt.last(), ControlVariants::CloseCurly),
    ensures
        statement_outcome(scope, stmt).scope == scope,
        statement_outcome(scope, stmt).failure == block_outcome(
            builtin_scope(),
            stmt.subrange(1, stmt.len() - 1),
        ).failure,
{
}

/// A variable of the scope around a nested block is not known inside it:
/// a nested block that begins with an assignment fails there with
/// `UnexpectedSymbol`, at the name, whatever the scope around it holds and
/// whatever follows the `=`. This is of nested blocks that get as far as
/// running their statements: each `}` in them closes a `{`, and their last
/// token ends a statement. `end` is where the assignment ends.
pub proof fn law_outer_variable_is_unknown_inside(
    scope: ScopeView,
    stmt: Seq<TokenView>,
    end: int,
)
    requires
        stmt.len() >= 2,
        is_control(stmt[0], ControlVariants::OpenCurly),
        is_control(stmt.last(), ControlVariants::CloseCurly),
        ({
            let inner = stmt.subrange(1, stmt.len() - 1);
            &&& inner.len() >= 2
            &&& inner[0].kind is Name
            &&& is_control(inner[1], ControlVariants::Asign)
            &&& !has_unmatched_close(inner)
            &&& is_separator(inner, inner.len() - 1)
            &&& is_separator(inner, end)
            &&& forall|j: int| 0 <= j < end ==> !is_separator(inner, j)
        }),
    ensures
        statement_outcome(scope, stmt) == unknown_variable(scope, stmt[1]),
{
    let inner = stmt.subrange(1, stmt.len() - 1);
    let fresh = builtin_scope();
    assert(inner[0] == stmt[1]);
    assert(!is_separator(inner, 0));
    assert(!is_separator(inner, 1));
    assert(end >= 2);
    lemma_before_first_separator(fresh, inner, end);
    let first = inner.subrange(0, end);
    assert(first[0] == inner[0]);
    assert(first[1] == inner[1]);
    assert(!fresh.variables.contains_key(first[0].kind.text()));
    assert(statement_outcome(fresh, first) == unknown_variable(fresh, inner[0]));
    assert(run_statements(fresh, inner, end + 1) == statement_outcome(fresh, first));
    lemma_failure_ends_run(fresh, inner, end + 1, inner.len() as int);
    assert(statement_start(inner, inner.len() as int) == inner.len());
}

} // verus!
