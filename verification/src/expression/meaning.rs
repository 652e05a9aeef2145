//! What expressions compute, as trees and as code. The meaning of a tree follows its nodes; the
//! meaning of code is read from its tokens alone, as the language defines it. Both are given for
//! any meaning of literals, functions and comparisons.

use crate::expression::codegen;
use crate::expression::codegen::{
    Assignment, AstFunction, AstNode, BooleanComparator, BooleanExpression, BooleanOperator,
    Branch, DataType, ExpressionAst, Parameter,
};
use crate::tokens;
use crate::tokens::{Bracketing, Token};
use vstd::prelude::*;
use vstd::string::*;

verus! {

/// What the parts of an expression mean that are not made of other parts.
#[verifier::reject_recursive_types(V)]
pub struct Meaning<V> {
    /// The value where there are no data.
    pub none: V,
    /// The value of a literal.
    pub literal: spec_fn(Seq<Token>) -> V,
    /// The result of a function, by its name, for arguments.
    pub call: spec_fn(Seq<char>, Seq<V>) -> V,
    /// Whether a comparison of two values holds.
    pub compare: spec_fn(BooleanComparator, V, V) -> bool,
}

/// The value of a node under values of the variables.
pub open spec fn node_value<V>(
    node: AstNode,
    variables: Map<Seq<char>, V>,
    meaning: Meaning<V>,
) -> V
    decreases node, 0nat,
{
    match node {
        AstNode::Constant(literal) => (meaning.literal)(tokens::stream_tokens(literal)),
        AstNode::NoData => meaning.none,
        AstNode::Variable { name, data_type } => variables[name@],
        AstNode::Function { function, args } => (meaning.call)(
            function.name_view(),
            argument_values(args@, args@.len(), variables, meaning),
        ),
        AstNode::Branch { condition_branches, else_branch } => match chosen_value(
            condition_branches@,
            0,
            variables,
            meaning,
        ) {
            Some(value) => value,
            None => node_value(*else_branch, variables, meaning),
        },
        AstNode::AssignmentsAndExpression { assignments, expression } => node_value(
            *expression,
            assigned(assignments@, assignments@.len(), variables, meaning),
            meaning,
        ),
    }
}

/// The values of the first `n` arguments.
pub open spec fn argument_values<V>(
    args: Seq<AstNode>,
    n: nat,
    variables: Map<Seq<char>, V>,
    meaning: Meaning<V>,
) -> Seq<V>
    decreases args, n,
{
    if n == 0 || n > args.len() {
        Seq::empty()
    } else {
        argument_values(args, (n - 1) as nat, variables, meaning).push(
            node_value(args[n - 1], variables, meaning),
        )
    }
}

/// The value of a branch, if its condition holds.
pub open spec fn branch_value<V>(
    branch: Branch,
    variables: Map<Seq<char>, V>,
    meaning: Meaning<V>,
) -> Option<V>
    decreases branch, 0nat,
{
    if condition_holds(branch.condition, variables, meaning) {
        Some(node_value(branch.body, variables, meaning))
    } else {
        None
    }
}

/// The value of the first branch from position `i` on whose condition holds.
pub open spec fn chosen_value<V>(
    branches: Seq<Branch>,
    i: nat,
    variables: Map<Seq<char>, V>,
    meaning: Meaning<V>,
) -> Option<V>
    decreases branches, branches.len() - i,
{
    if i >= branches.len() {
        None
    } else {
        match branch_value(branches[i as int], variables, meaning) {
            Some(value) => Some(value),
            None => chosen_value(branches, i + 1, variables, meaning),
        }
    }
}

/// Whether a condition holds.
pub open spec fn condition_holds<V>(
    condition: BooleanExpression,
    variables: Map<Seq<char>, V>,
    meaning: Meaning<V>,
) -> bool
    decreases condition, 0nat,
{
    match condition {
        BooleanExpression::Constant(b) => b,
        BooleanExpression::Comparison { left, op, right } => (meaning.compare)(
            op,
            node_value(*left, variables, meaning),
            node_value(*right, variables, meaning),
        ),
        BooleanExpression::Operation { left, op: BooleanOperator::And, right } => {
            condition_holds(*left, variables, meaning) && condition_holds(*right, variables, meaning)
        },
        BooleanExpression::Operation { left, op: BooleanOperator::Or, right } => {
            condition_holds(*left, variables, meaning) || condition_holds(*right, variables, meaning)
        },
    }
}

/// The values of the variables after an assignment.
pub open spec fn after_assignment<V>(
    assignment: Assignment,
    variables: Map<Seq<char>, V>,
    meaning: Meaning<V>,
) -> Map<Seq<char>, V>
    decreases assignment, 0nat,
{
    variables.insert(
        assignment.identifier@,
        node_value(assignment.expression, variables, meaning),
    )
}

/// The values of the variables after the first `n` assignments.
pub open spec fn assigned<V>(
    assignments: Seq<Assignment>,
    n: nat,
    variables: Map<Seq<char>, V>,
    meaning: Meaning<V>,
) -> Map<Seq<char>, V>
    decreases assignments, n,
{
    if n == 0 || n > assignments.len() {
        variables
    } else {
        after_assignment(
            assignments[n - 1],
            assigned(assignments, (n - 1) as nat, variables, meaning),
            meaning,
        )
    }
}

/// Whether a token is a given punctuation character.
pub open spec fn is_mark(token: Token, c: char) -> bool {
    token matches Token::Punct(d, _) && c == d
}

/// Whether a token is a given word.
pub open spec fn is_word(token: Token, word: Seq<char>) -> bool {
    token matches Token::Ident(name) && name == word
}

/// The position of the first one of given punctuation characters, or the end.
pub open spec fn first_mark(code: Seq<Token>, c: char) -> nat
    decreases code.len(),
{
    if code.len() == 0 || is_mark(code[0], c) {
        0
    } else {
        1 + first_mark(code.skip(1), c)
    }
}

/// The value that code computes: a sequence of `let` statements with an expression behind it, a
/// chain of `if` and `else`, a call, `Some` of a literal, `None`, or a variable. Other code has
/// no value.
pub open spec fn code_value<V>(
    code: Seq<Token>,
    variables: Map<Seq<char>, V>,
    meaning: Meaning<V>,
) -> Option<V>
    decreases code, 0nat,
{
    if code.len() == 0 {
        None
    } else if is_word(code[0], "let"@) {
        let end = first_mark(code, ';') as int;
        if 3 < end < code.len() && is_mark(code[2], '=') {
            match (code[1], code_value(code.subrange(3, end), variables, meaning)) {
                (Token::Ident(name), Some(value)) => code_value(
                    code.subrange(end + 1, code.len() as int),
                    variables.insert(name, value),
                    meaning,
                ),
                _ => None,
            }
        } else {
            None
        }
    } else if is_word(code[0], "if"@) {
        if code.len() >= 5 && is_word(code[3], "else"@) {
            match code_truth(code[1], variables, meaning) {
                Some(true) => enclosed_value(code[2], Bracketing::Brace, variables, meaning),
                Some(false) => if is_word(code[4], "if"@) {
                    code_value(code.subrange(4, code.len() as int), variables, meaning)
                } else if code.len() == 5 {
                    enclosed_value(code[4], Bracketing::Brace, variables, meaning)
                } else {
                    None
                },
                None => None,
            }
        } else {
            None
        }
    } else if code.len() == 1 {
        match code[0] {
            Token::Ident(name) => if name == "None"@ {
                Some(meaning.none)
            } else {
                Some(variables[name])
            },
            _ => None,
        }
    } else if code.len() == 2 {
        match code[0] {
            Token::Ident(name) => call_value(name, code[1], variables, meaning),
            _ => None,
        }
    } else {
        None
    }
}

/// The value that enclosed code computes.
pub open spec fn enclosed_value<V>(
    token: Token,
    brackets: Bracketing,
    variables: Map<Seq<char>, V>,
    meaning: Meaning<V>,
) -> Option<V>
    decreases token, 0nat,
{
    match token {
        Token::Group(bracketing, content) => if bracketing == brackets {
            code_value(content, variables, meaning)
        } else {
            None
        },
        _ => None,
    }
}

/// The value of a call with the arguments in parentheses.
pub open spec fn call_value<V>(
    name: Seq<char>,
    token: Token,
    variables: Map<Seq<char>, V>,
    meaning: Meaning<V>,
) -> Option<V>
    decreases token, 0nat,
{
    match token {
        Token::Group(Bracketing::Parenthesis, content) => if name == "Some"@ {
            Some((meaning.literal)(content))
        } else {
            match code_arguments(content, variables, meaning) {
                Some(values) => Some((meaning.call)(name, values)),
                None => None,
            }
        },
        _ => None,
    }
}

/// The values of arguments, which are separated by commas.
pub open spec fn code_arguments<V>(
    code: Seq<Token>,
    variables: Map<Seq<char>, V>,
    meaning: Meaning<V>,
) -> Option<Seq<V>>
    decreases code, 1nat,
{
    let end = first_mark(code, ',') as int;
    if code.len() == 0 {
        Some(Seq::empty())
    } else if end >= code.len() {
        match code_value(code, variables, meaning) {
            Some(value) => Some(seq![value]),
            None => None,
        }
    } else {
        match (
            code_value(code.subrange(0, end), variables, meaning),
            code_arguments(code.subrange(end + 1, code.len() as int), variables, meaning),
        ) {
            (Some(value), Some(values)) => Some(seq![value] + values),
            _ => None,
        }
    }
}

/// The comparison that an operator stands for.
pub open spec fn read_comparator(operator: Seq<Token>) -> Option<BooleanComparator> {
    if operator.len() == 1 {
        if is_mark(operator[0], '<') {
            Some(BooleanComparator::LessThan)
        } else if is_mark(operator[0], '>') {
            Some(BooleanComparator::GreaterThan)
        } else {
            None
        }
    } else if operator.len() == 2 && (operator[0] matches Token::Punct(_, true)) && is_mark(
        operator[1],
        '=',
    ) {
        if is_mark(operator[0], '=') {
            Some(BooleanComparator::Equal)
        } else if is_mark(operator[0], '!') {
            Some(BooleanComparator::NotEqual)
        } else if is_mark(operator[0], '<') {
            Some(BooleanComparator::LessThanOrEqual)
        } else if is_mark(operator[0], '>') {
            Some(BooleanComparator::GreaterThanOrEqual)
        } else {
            None
        }
    } else {
        None
    }
}

/// Whether an operator consists of a character twice, without a space.
pub open spec fn is_doubled(operator: Seq<Token>, c: char) -> bool {
    operator.len() == 2 && operator[0] == Token::Punct(c, true) && is_mark(operator[1], c)
}

/// The truth value of a condition that is a single token: `true`, `false`, or two operands in
/// parentheses with an operator between them.
pub open spec fn code_truth<V>(
    token: Token,
    variables: Map<Seq<char>, V>,
    meaning: Meaning<V>,
) -> Option<bool>
    decreases token, 0nat,
{
    match token {
        Token::Ident(word) => if word == "true"@ {
            Some(true)
        } else if word == "false"@ {
            Some(false)
        } else {
            None
        },
        Token::Group(Bracketing::Parenthesis, content) => operation_truth(
            content,
            variables,
            meaning,
        ),
        _ => None,
    }
}

/// The truth value of two operands with an operator between them.
pub open spec fn operation_truth<V>(
    code: Seq<Token>,
    variables: Map<Seq<char>, V>,
    meaning: Meaning<V>,
) -> Option<bool>
    decreases code, 0nat,
{
    if code.len() < 3 {
        None
    } else {
        let operator = code.subrange(1, code.len() - 1);
        let left = code[0];
        let right = code[code.len() - 1];
        if is_doubled(operator, '&') || is_doubled(operator, '|') {
            match (
                enclosed_truth(left, variables, meaning),
                enclosed_truth(right, variables, meaning),
            ) {
                (Some(a), Some(b)) => Some(
                    if is_doubled(operator, '&') {
                        a && b
                    } else {
                        a || b
                    },
                ),
                _ => None,
            }
        } else {
            match (
                read_comparator(operator),
                enclosed_value(left, Bracketing::Parenthesis, variables, meaning),
                enclosed_value(right, Bracketing::Parenthesis, variables, meaning),
            ) {
                (Some(op), Some(a), Some(b)) => Some((meaning.compare)(op, a, b)),
                _ => None,
            }
        }
    }
}

/// The truth value of a condition in parentheses.
pub open spec fn enclosed_truth<V>(
    token: Token,
    variables: Map<Seq<char>, V>,
    meaning: Meaning<V>,
) -> Option<bool>
    decreases token, 1nat,
{
    match token {
        Token::Group(Bracketing::Parenthesis, content) => sole_truth(content, variables, meaning),
        _ => None,
    }
}

/// The truth value of a condition that is all of the code.
pub open spec fn sole_truth<V>(
    code: Seq<Token>,
    variables: Map<Seq<char>, V>,
    meaning: Meaning<V>,
) -> Option<bool>
    decreases code, 0nat,
{
    if code.len() == 1 {
        code_truth(code[0], variables, meaning)
    } else {
        None
    }
}

/// Whether the code of a node is an expression of the language: the names in it are no keywords,
/// branches have a condition, and assignments stand only where statements can.
pub open spec fn is_value(node: AstNode) -> bool
    decreases node, 0nat,
{
    match node {
        AstNode::Constant(_) => true,
        AstNode::NoData => true,
        AstNode::Variable { name, data_type } => name@ != "let"@ && name@ != "if"@ && name@
            != "None"@,
        AstNode::Function { function, args } => {
            &&& function.name_view() != "let"@
            &&& function.name_view() != "if"@
            &&& function.name_view() != "Some"@
            &&& forall|i: int| 0 <= i < args@.len() ==> is_value(#[trigger] args@[i])
        },
        AstNode::Branch { condition_branches, else_branch } => {
            &&& condition_branches@.len() > 0
            &&& forall|i: int|
                0 <= i < condition_branches@.len() ==> branch_readable(
                    #[trigger] condition_branches@[i],
                )
            &&& is_block(*else_branch)
        },
        AstNode::AssignmentsAndExpression { .. } => false,
    }
}

/// Whether the code of a node is an expression, possibly behind assignments.
pub open spec fn is_block(node: AstNode) -> bool
    decreases node, 1nat,
{
    match node {
        AstNode::AssignmentsAndExpression { assignments, expression } => {
            &&& forall|i: int|
                0 <= i < assignments@.len() ==> assignment_readable(#[trigger] assignments@[i])
            &&& is_block(*expression)
        },
        _ => is_value(node),
    }
}

/// Whether the code of an assignment assigns an expression.
pub open spec fn assignment_readable(assignment: Assignment) -> bool
    decreases assignment, 0nat,
{
    is_value(assignment.expression)
}

/// Whether the code of a branch is part of an expression.
pub open spec fn branch_readable(branch: Branch) -> bool
    decreases branch, 0nat,
{
    condition_readable(branch.condition) && is_block(branch.body)
}

/// Whether the code of a condition compares expressions.
pub open spec fn condition_readable(condition: BooleanExpression) -> bool
    decreases condition, 0nat,
{
    match condition {
        BooleanExpression::Constant(_) => true,
        BooleanExpression::Comparison { left, op, right } => is_value(*left) && is_value(*right),
        BooleanExpression::Operation { left, op, right } => condition_readable(*left)
            && condition_readable(*right),
    }
}

/// An expression can stand where assignments may come before it.
proof fn lemma_value_is_block(node: AstNode)
    requires
        is_value(node),
    ensures
        is_block(node),
{
    reveal_with_fuel(is_block, 2);
    reveal_with_fuel(is_value, 2);
}

/// The words of the language are different.
proof fn lemma_words()
    ensures
        "let"@ != "if"@,
        "let"@ != "None"@,
        "let"@ != "Some"@,
        "if"@ != "None"@,
        "if"@ != "Some"@,
        "Some"@ != "None"@,
        "true"@ != "false"@,
{
    reveal_strlit("let");
    reveal_strlit("if");
    reveal_strlit("None");
    reveal_strlit("Some");
    reveal_strlit("true");
    reveal_strlit("false");
    assert("let"@.len() == 3 && "if"@.len() == 2 && "None"@.len() == 4 && "Some"@.len() == 4);
    assert("true"@.len() == 4 && "false"@.len() == 5);
    assert("None"@[0] == 'N' && "Some"@[0] == 'S');
}

/// Whether code holds neither a comma nor a semicolon outside of brackets.
spec fn unmarked(code: Seq<Token>) -> bool {
    forall|i: int|
        0 <= i < code.len() ==> !is_mark(#[trigger] code[i], ',') && !is_mark(code[i], ';')
}

proof fn lemma_first_mark(front: Seq<Token>, mark: Token, back: Seq<Token>, c: char)
    requires
        forall|i: int| 0 <= i < front.len() ==> !is_mark(#[trigger] front[i], c),
        is_mark(mark, c),
    ensures
        first_mark(front, c) == front.len(),
        first_mark(front + seq![mark] + back, c) == front.len(),
    decreases front.len(),
{
    let whole = front + seq![mark] + back;
    if front.len() > 0 {
        let rest = front.skip(1);
        assert forall|i: int| 0 <= i < rest.len() implies !is_mark(#[trigger] rest[i], c) by {
            assert(rest[i] == front[i + 1]);
        }
        lemma_first_mark(rest, mark, back, c);
        assert(whole.skip(1) =~= rest + seq![mark] + back);
        assert(whole[0] == front[0]);
    } else {
        assert(whole[0] == mark);
    }
}

/// The code of a condition is a single token.
proof fn lemma_condition_token(condition: BooleanExpression)
    ensures
        codegen::condition_tokens(condition).len() == 1,
        unmarked(codegen::condition_tokens(condition)),
        codegen::condition_tokens(condition)[0] is Ident || codegen::condition_tokens(
            condition,
        )[0] is Group,
{
}

proof fn lemma_branches_unmarked(branches: Seq<Branch>, n: nat)
    ensures
        unmarked(codegen::branch_tokens(branches, n)),
    decreases n,
{
    if 0 < n <= branches.len() {
        lemma_branches_unmarked(branches, (n - 1) as nat);
        lemma_condition_token(branches[n - 1].condition);
        assert(unmarked(codegen::guarded_tokens(branches[n - 1])));
    }
}

/// The code of an expression holds neither a comma nor a semicolon outside of brackets.
proof fn lemma_value_unmarked(node: AstNode)
    requires
        is_value(node),
    ensures
        codegen::node_tokens(node).len() > 0,
        unmarked(codegen::node_tokens(node)),
{
    if let AstNode::Branch { condition_branches, else_branch } = node {
        lemma_branches_unmarked(condition_branches@, condition_branches@.len());
    }
}

/// The code of the arguments from position `i` on.
spec fn later_arguments(args: Seq<AstNode>, i: nat) -> Seq<Token>
    decreases args.len() - i,
{
    if i >= args.len() {
        Seq::empty()
    } else if i + 1 == args.len() {
        codegen::node_tokens(args[i as int])
    } else {
        codegen::node_tokens(args[i as int]) + tokens::punct(',') + later_arguments(args, i + 1)
    }
}

proof fn lemma_later_arguments(args: Seq<AstNode>, i: nat)
    requires
        i < args.len(),
    ensures
        codegen::argument_tokens(args, args.len()) == if i == 0 {
            later_arguments(args, 0)
        } else {
            codegen::argument_tokens(args, i) + tokens::punct(',') + later_arguments(args, i)
        },
    decreases args.len() - i,
{
    if i + 1 < args.len() {
        lemma_later_arguments(args, i + 1);
        assert(codegen::argument_tokens(args, args.len()) =~= if i == 0 {
            later_arguments(args, 0)
        } else {
            codegen::argument_tokens(args, i) + tokens::punct(',') + later_arguments(args, i)
        });
    } else {
        assert(codegen::argument_tokens(args, args.len()) =~= if i == 0 {
            later_arguments(args, 0)
        } else {
            codegen::argument_tokens(args, i) + tokens::punct(',') + later_arguments(args, i)
        });
    }
}

proof fn lemma_argument_values_len<V>(
    args: Seq<AstNode>,
    n: nat,
    variables: Map<Seq<char>, V>,
    meaning: Meaning<V>,
)
    requires
        n <= args.len(),
    ensures
        argument_values(args, n, variables, meaning).len() == n,
        forall|i: int|
            0 <= i < n ==> #[trigger] argument_values(args, n, variables, meaning)[i] == node_value(
                args[i],
                variables,
                meaning,
            ),
    decreases n,
{
    if n > 0 {
        lemma_argument_values_len(args, (n - 1) as nat, variables, meaning);
    }
}

proof fn lemma_arguments<V>(
    args: Seq<AstNode>,
    i: nat,
    variables: Map<Seq<char>, V>,
    meaning: Meaning<V>,
)
    requires
        i < args.len(),
        forall|k: int| 0 <= k < args.len() ==> is_value(#[trigger] args[k]),
    ensures
        code_arguments(later_arguments(args, i), variables, meaning) == Some(
            argument_values(args, args.len(), variables, meaning).skip(i as int),
        ),
    decreases args, args.len() - i,
{
    let values = argument_values(args, args.len(), variables, meaning);
    lemma_argument_values_len(args, args.len(), variables, meaning);
    let own = codegen::node_tokens(args[i as int]);
    let code = later_arguments(args, i);
    lemma_value_unmarked(args[i as int]);
    law_code_computes_tree(args[i as int], variables, meaning);
    if i + 1 == args.len() {
        lemma_first_mark(own, Token::Punct(',', false), Seq::empty(), ',');
        assert(values.skip(i as int) =~= seq![values[i as int]]);
    } else {
        let rest = later_arguments(args, i + 1);
        lemma_arguments(args, i + 1, variables, meaning);
        lemma_first_mark(own, Token::Punct(',', false), rest, ',');
        assert(code =~= own + seq![Token::Punct(',', false)] + rest);
        assert(code.subrange(0, own.len() as int) =~= own);
        assert(code.subrange(own.len() as int + 1, code.len() as int) =~= rest);
        assert(values.skip(i as int) =~= seq![values[i as int]] + values.skip(i as int + 1));
    }
}

/// The code of the branches from position `i` on, with what holds otherwise.
spec fn later_branches(branches: Seq<Branch>, i: nat, otherwise: Seq<Token>) -> Seq<Token>
    decreases branches.len() - i,
{
    if i >= branches.len() {
        tokens::group(Bracketing::Brace, otherwise)
    } else {
        codegen::guarded_tokens(branches[i as int]) + tokens::ident("else"@) + later_branches(
            branches,
            i + 1,
            otherwise,
        )
    }
}

proof fn lemma_later_branches(branches: Seq<Branch>, i: nat, otherwise: Seq<Token>)
    requires
        i <= branches.len(),
        branches.len() > 0,
    ensures
        codegen::branch_tokens(branches, branches.len()) + tokens::ident("else"@) + tokens::group(
            Bracketing::Brace,
            otherwise,
        ) == codegen::branch_tokens(branches, i) + if i == 0 {
            Seq::empty()
        } else {
            tokens::ident("else"@)
        } + later_branches(branches, i, otherwise),
    decreases branches.len() - i,
{
    let whole = codegen::branch_tokens(branches, branches.len()) + tokens::ident("else"@)
        + tokens::group(Bracketing::Brace, otherwise);
    if i < branches.len() {
        lemma_later_branches(branches, i + 1, otherwise);
    }
    assert(whole =~= codegen::branch_tokens(branches, i) + if i == 0 {
        Seq::empty()
    } else {
        tokens::ident("else"@)
    } + later_branches(branches, i, otherwise));
}

#[verifier::spinoff_prover]
#[verifier::rlimit(40)]
proof fn lemma_branches<V>(
    branches: Seq<Branch>,
    i: nat,
    otherwise: Seq<Token>,
    value: V,
    variables: Map<Seq<char>, V>,
    meaning: Meaning<V>,
)
    requires
        i < branches.len(),
        forall|k: int| 0 <= k < branches.len() ==> branch_readable(#[trigger] branches[k]),
        code_value(otherwise, variables, meaning) == Some(value),
    ensures
        code_value(later_branches(branches, i, otherwise), variables, meaning) == Some(
            match chosen_value(branches, i, variables, meaning) {
                Some(chosen) => chosen,
                None => value,
            },
        ),
    decreases branches, branches.len() - i,
{
    lemma_words();
    reveal_with_fuel(code_value, 2);
    reveal_with_fuel(enclosed_value, 2);
    reveal_with_fuel(chosen_value, 2);
    reveal_with_fuel(branch_value, 2);
    reveal_with_fuel(sole_truth, 2);
    let branch = branches[i as int];
    let rest = later_branches(branches, i + 1, otherwise);
    let code = later_branches(branches, i, otherwise);
    lemma_branch(branch, variables, meaning);
    lemma_condition_token(branch.condition);
    let condition = codegen::condition_tokens(branch.condition)[0];
    assert(code =~= seq![
        Token::Ident("if"@),
        condition,
        Token::Group(Bracketing::Brace, codegen::node_tokens(branch.body)),
        Token::Ident("else"@),
    ] + rest);
    assert(code.subrange(4, code.len() as int) =~= rest);
    assert(code[4] == rest[0]);
    if i + 1 < branches.len() {
        lemma_branches(branches, i + 1, otherwise, value, variables, meaning);
        assert(rest[0] == Token::Ident("if"@));
    } else {
        assert(rest =~= seq![Token::Group(Bracketing::Brace, otherwise)]);
    }
}

proof fn lemma_branch<V>(branch: Branch, variables: Map<Seq<char>, V>, meaning: Meaning<V>)
    requires
        branch_readable(branch),
    ensures
        sole_truth(codegen::condition_tokens(branch.condition), variables, meaning) == Some(
            condition_holds(branch.condition, variables, meaning),
        ),
        code_value(codegen::node_tokens(branch.body), variables, meaning) == Some(
            node_value(branch.body, variables, meaning),
        ),
    decreases branch, 0nat,
{
    law_code_decides_condition(branch.condition, variables, meaning);
    law_code_computes_tree(branch.body, variables, meaning);
}

/// The code of a condition is true exactly if the condition holds, whatever the operands of its
/// comparisons are and whatever the comparisons mean.
pub proof fn law_code_decides_condition<V>(
    condition: BooleanExpression,
    variables: Map<Seq<char>, V>,
    meaning: Meaning<V>,
)
    requires
        condition_readable(condition),
    ensures
        sole_truth(codegen::condition_tokens(condition), variables, meaning) == Some(
            condition_holds(condition, variables, meaning),
        ),
    decreases condition, 0nat,
{
    lemma_words();
    match condition {
        BooleanExpression::Constant(_) => {},
        BooleanExpression::Comparison { left, op, right } => {
            lemma_value_is_block(*left);
            lemma_value_is_block(*right);
            law_code_computes_tree(*left, variables, meaning);
            law_code_computes_tree(*right, variables, meaning);
            reveal_with_fuel(sole_truth, 2);
            reveal_with_fuel(operation_truth, 2);
            reveal_with_fuel(enclosed_value, 2);
            let a = Token::Group(Bracketing::Parenthesis, codegen::node_tokens(*left));
            let b = Token::Group(Bracketing::Parenthesis, codegen::node_tokens(*right));
            let content = seq![a] + op.tokens() + seq![b];
            assert(codegen::condition_tokens(condition)[0] == Token::Group(
                Bracketing::Parenthesis,
                content,
            ));
            assert(content.subrange(1, content.len() - 1) =~= op.tokens());
        },
        BooleanExpression::Operation { left, op, right } => {
            law_code_decides_condition(*left, variables, meaning);
            law_code_decides_condition(*right, variables, meaning);
            reveal_with_fuel(sole_truth, 2);
            reveal_with_fuel(operation_truth, 2);
            reveal_with_fuel(enclosed_truth, 2);
            let a = Token::Group(Bracketing::Parenthesis, codegen::condition_tokens(*left));
            let b = Token::Group(Bracketing::Parenthesis, codegen::condition_tokens(*right));
            let content = seq![a] + op.tokens() + seq![b];
            assert(codegen::condition_tokens(condition)[0] == Token::Group(
                Bracketing::Parenthesis,
                content,
            ));
            assert(content.subrange(1, content.len() - 1) =~= op.tokens());
        },
    }
}

/// The code of the assignments from position `i` on.
spec fn later_assignments(assignments: Seq<Assignment>, i: nat) -> Seq<Token>
    decreases assignments.len() - i,
{
    if i >= assignments.len() {
        Seq::empty()
    } else {
        codegen::let_tokens(assignments[i as int]) + later_assignments(assignments, i + 1)
    }
}

proof fn lemma_later_assignments(assignments: Seq<Assignment>, i: nat)
    requires
        i <= assignments.len(),
    ensures
        codegen::assignment_tokens(assignments, assignments.len()) == codegen::assignment_tokens(
            assignments,
            i,
        ) + later_assignments(assignments, i),
    decreases assignments.len() - i,
{
    if i < assignments.len() {
        lemma_later_assignments(assignments, i + 1);
    }
    assert(codegen::assignment_tokens(assignments, assignments.len())
        =~= codegen::assignment_tokens(assignments, i) + later_assignments(assignments, i));
}

#[verifier::spinoff_prover]
#[verifier::rlimit(40)]
proof fn lemma_assignments<V>(
    assignments: Seq<Assignment>,
    i: nat,
    behind: Seq<Token>,
    value: V,
    variables: Map<Seq<char>, V>,
    meaning: Meaning<V>,
)
    requires
        i <= assignments.len(),
        forall|k: int| 0 <= k < assignments.len() ==> assignment_readable(#[trigger] assignments[k]),
        code_value(
            behind,
            assigned(assignments, assignments.len(), variables, meaning),
            meaning,
        ) == Some(value),
    ensures
        code_value(
            later_assignments(assignments, i) + behind,
            assigned(assignments, i, variables, meaning),
            meaning,
        ) == Some(value),
    decreases assignments, assignments.len() - i,
{
    if i < assignments.len() {
        reveal_with_fuel(code_value, 2);
        reveal_with_fuel(assigned, 2);
        reveal_with_fuel(after_assignment, 2);
        lemma_words();
        lemma_assignments(assignments, i + 1, behind, value, variables, meaning);
        let assignment = assignments[i as int];
        let before = assigned(assignments, i, variables, meaning);
        lemma_assignment(assignment, before, meaning);
        let own = codegen::node_tokens(assignment.expression);
        let rest = later_assignments(assignments, i + 1) + behind;
        let code = later_assignments(assignments, i) + behind;
        let front = seq![
            Token::Ident("let"@),
            Token::Ident(assignment.identifier@),
            Token::Punct('=', false),
        ] + own;
        assert(code =~= front + seq![Token::Punct(';', false)] + rest);
        assert forall|k: int| 0 <= k < front.len() implies !is_mark(#[trigger] front[k], ';') by {
            if k >= 3 {
                assert(front[k] == own[k - 3]);
            }
        }
        lemma_first_mark(front, Token::Punct(';', false), rest, ';');
        let end = front.len() as int;
        assert(code.subrange(3, end) =~= own);
        assert(code.subrange(end + 1, code.len() as int) =~= rest);
    } else {
        assert(later_assignments(assignments, i) + behind =~= behind);
    }
}

proof fn lemma_assignment<V>(
    assignment: Assignment,
    variables: Map<Seq<char>, V>,
    meaning: Meaning<V>,
)
    requires
        assignment_readable(assignment),
    ensures
        codegen::node_tokens(assignment.expression).len() > 0,
        unmarked(codegen::node_tokens(assignment.expression)),
        code_value(codegen::node_tokens(assignment.expression), variables, meaning) == Some(
            node_value(assignment.expression, variables, meaning),
        ),
    decreases assignment, 0nat,
{
    lemma_value_unmarked(assignment.expression);
    law_code_computes_tree(assignment.expression, variables, meaning);
}

/// The code of a tree computes what the tree means: for all values of the variables, and whatever
/// literals, functions and comparisons mean, reading the code gives the value of the tree.
#[verifier::spinoff_prover]
#[verifier::rlimit(40)]
pub proof fn law_code_computes_tree<V>(
    node: AstNode,
    variables: Map<Seq<char>, V>,
    meaning: Meaning<V>,
)
    requires
        is_block(node),
    ensures
        code_value(codegen::node_tokens(node), variables, meaning) == Some(
            node_value(node, variables, meaning),
        ),
    decreases node, 0nat,
{
    lemma_words();
    reveal_with_fuel(is_block, 3);
    reveal_with_fuel(is_value, 3);
    reveal_with_fuel(code_value, 2);
    reveal_with_fuel(call_value, 2);
    reveal_with_fuel(node_value, 2);
    let code = codegen::node_tokens(node);
    match node {
        AstNode::Constant(literal) => {
            assert(code =~= seq![
                Token::Ident("Some"@),
                Token::Group(Bracketing::Parenthesis, tokens::stream_tokens(literal)),
            ]);
            assert(!is_word(code[0], "let"@) && !is_word(code[0], "if"@));
            assert(call_value("Some"@, code[1], variables, meaning) == Some(
                (meaning.literal)(tokens::stream_tokens(literal)),
            ));
            assert(node_value(node, variables, meaning) == (meaning.literal)(
                tokens::stream_tokens(literal),
            ));
        },
        AstNode::NoData => {
            assert(code.len() == 1 && is_word(code[0], "None"@));
        },
        AstNode::Variable { name, data_type } => {
            assert(code.len() == 1 && code[0] == Token::Ident(name@));
        },
        AstNode::Function { function, args } => {
            let content = codegen::argument_tokens(args@, args@.len());
            assert(code =~= seq![
                Token::Ident(function.name_view()),
                Token::Group(Bracketing::Parenthesis, content),
            ]);
            if args@.len() > 0 {
                lemma_later_arguments(args@, 0);
                lemma_arguments(args@, 0, variables, meaning);
                let values = argument_values(args@, args@.len(), variables, meaning);
                assert(values.skip(0) =~= values);
            }
        },
        AstNode::Branch { condition_branches, else_branch } => {
            let otherwise = codegen::node_tokens(*else_branch);
            law_code_computes_tree(*else_branch, variables, meaning);
            lemma_later_branches(condition_branches@, 0, otherwise);
            lemma_branches(
                condition_branches@,
                0,
                otherwise,
                node_value(*else_branch, variables, meaning),
                variables,
                meaning,
            );
            assert(code =~= later_branches(condition_branches@, 0, otherwise));
        },
        AstNode::AssignmentsAndExpression { assignments, expression } => {
            let behind = codegen::node_tokens(*expression);
            let after = assigned(assignments@, assignments@.len(), variables, meaning);
            law_code_computes_tree(*expression, after, meaning);
            lemma_later_assignments(assignments@, 0);
            lemma_assignments(
                assignments@,
                0,
                behind,
                node_value(*expression, after, meaning),
                variables,
                meaning,
            );
            assert(code =~= later_assignments(assignments@, 0) + behind);
        },
    }
}

/// The data type that the code of a type stands for: `f64`, or a collection of points, lines or
/// polygons with `f64` coordinates.
pub open spec fn read_type(code: Seq<Token>) -> Option<DataType> {
    if code.len() == 1 && is_word(code[0], "f64"@) {
        Some(DataType::Number)
    } else if code.len() == 16 && is_word(code[0], "geo"@) && is_word(code[3], "geometry"@)
        && is_mark(code[7], '<') && is_word(code[8], "geo"@) && is_mark(code[12], '<') && is_word(
        code[13],
        "f64"@,
    ) {
        if is_word(code[6], "MultiPoint"@) && is_word(code[11], "Point"@) {
            Some(DataType::MultiPoint)
        } else if is_word(code[6], "MultiLineString"@) && is_word(code[11], "LineString"@) {
            Some(DataType::MultiLineString)
        } else if is_word(code[6], "MultiPolygon"@) && is_word(code[11], "Polygon"@) {
            Some(DataType::MultiPolygon)
        } else {
            None
        }
    } else {
        None
    }
}

/// The code of a data type stands for that type, and holds no commas.
pub proof fn law_type_code_denotes(data_type: DataType)
    ensures
        read_type(data_type.tokens()) == Some(data_type),
        forall|i: int|
            0 <= i < data_type.tokens().len() ==> !is_mark(#[trigger] data_type.tokens()[i], ','),
{
    reveal_strlit("MultiPoint");
    reveal_strlit("MultiLineString");
    reveal_strlit("MultiPolygon");
    reveal_with_fuel(tokens::path, 4);
    assert("MultiPoint"@.len() == 10 && "MultiLineString"@.len() == 15 && "MultiPolygon"@.len()
        == 12);
    if data_type != DataType::Number {
        let (outer, inner) = match data_type {
            DataType::MultiPoint => ("MultiPoint"@, "Point"@),
            DataType::MultiLineString => ("MultiLineString"@, "LineString"@),
            _ => ("MultiPolygon"@, "Polygon"@),
        };
        let first = seq!["geo"@, "geometry"@, outer];
        assert(first.drop_last() =~= seq!["geo"@, "geometry"@]);
        assert(first.drop_last().drop_last() =~= seq!["geo"@]);
        let second = seq!["geo"@, inner];
        assert(second.drop_last() =~= seq!["geo"@]);
    }
}

/// The name and the type that a declaration `name: Option<type>` states.
pub open spec fn read_declaration(code: Seq<Token>) -> Option<(Seq<char>, DataType)> {
    if code.len() > 5 && is_mark(code[1], ':') && is_word(code[2], "Option"@) && is_mark(
        code[3],
        '<',
    ) && is_mark(code.last(), '>') {
        match (code[0], read_type(code.subrange(4, code.len() - 1))) {
            (Token::Ident(name), Some(data_type)) => Some((name, data_type)),
            _ => None,
        }
    } else {
        None
    }
}

/// The names and types that a list of declarations states.
pub open spec fn read_declarations(code: Seq<Token>) -> Option<Seq<(Seq<char>, DataType)>>
    decreases code.len(),
{
    let end = first_mark(code, ',') as int;
    if code.len() == 0 {
        Some(Seq::empty())
    } else if end >= code.len() {
        match read_declaration(code) {
            Some(declaration) => Some(seq![declaration]),
            None => None,
        }
    } else {
        match (
            read_declaration(code.subrange(0, end)),
            read_declarations(code.subrange(end + 1, code.len() as int)),
        ) {
            (Some(declaration), Some(others)) => Some(seq![declaration] + others),
            _ => None,
        }
    }
}

/// The names and types of parameters.
pub open spec fn signature(parameters: Seq<Parameter>) -> Seq<(Seq<char>, DataType)> {
    Seq::new(parameters.len(), |i: int| (parameters[i].name()@, parameters[i].value_type()))
}

/// The code of the parameters from position `i` on.
spec fn later_parameters(parameters: Seq<Parameter>, i: nat) -> Seq<Token>
    decreases parameters.len() - i,
{
    if i >= parameters.len() {
        Seq::empty()
    } else if i + 1 == parameters.len() {
        parameters[i as int].tokens()
    } else {
        parameters[i as int].tokens() + tokens::punct(',') + later_parameters(parameters, i + 1)
    }
}

proof fn lemma_later_parameters(parameters: Seq<Parameter>, i: nat)
    requires
        i < parameters.len(),
    ensures
        codegen::parameter_tokens(parameters, parameters.len()) == if i == 0 {
            later_parameters(parameters, 0)
        } else {
            codegen::parameter_tokens(parameters, i) + tokens::punct(',') + later_parameters(
                parameters,
                i,
            )
        },
    decreases parameters.len() - i,
{
    if i + 1 < parameters.len() {
        lemma_later_parameters(parameters, i + 1);
    }
    assert(codegen::parameter_tokens(parameters, parameters.len()) =~= if i == 0 {
        later_parameters(parameters, 0)
    } else {
        codegen::parameter_tokens(parameters, i) + tokens::punct(',') + later_parameters(
            parameters,
            i,
        )
    });
}

proof fn lemma_declarations(parameters: Seq<Parameter>, i: nat)
    requires
        i < parameters.len(),
    ensures
        read_declarations(later_parameters(parameters, i)) == Some(
            signature(parameters).skip(i as int),
        ),
    decreases parameters.len() - i,
{
    let parameter = parameters[i as int];
    let own = parameter.tokens();
    let inner = parameter.value_type().tokens();
    let code = later_parameters(parameters, i);
    law_type_code_denotes(parameter.value_type());
    assert(own =~= seq![
        Token::Ident(parameter.name()@),
        Token::Punct(':', false),
        Token::Ident("Option"@),
        Token::Punct('<', false),
    ] + inner + seq![Token::Punct('>', false)]);
    assert(own.subrange(4, own.len() - 1) =~= inner);
    assert forall|k: int| 0 <= k < own.len() implies !is_mark(#[trigger] own[k], ',') by {
        if 4 <= k < own.len() - 1 {
            assert(own[k] == inner[k - 4]);
        }
    }
    let all = signature(parameters);
    if i + 1 == parameters.len() {
        lemma_first_mark(own, Token::Punct(',', false), Seq::empty(), ',');
        assert(all.skip(i as int) =~= seq![all[i as int]]);
    } else {
        let rest = later_parameters(parameters, i + 1);
        lemma_declarations(parameters, i + 1);
        lemma_first_mark(own, Token::Punct(',', false), rest, ',');
        assert(code =~= own + seq![Token::Punct(',', false)] + rest);
        assert(code.subrange(0, own.len() as int) =~= own);
        assert(code.subrange(own.len() as int + 1, code.len() as int) =~= rest);
        assert(all.skip(i as int) =~= seq![all[i as int]] + all.skip(i as int + 1));
    }
}

/// The parameters are declared in their order, each with its name and its type.
pub proof fn law_parameters_are_declared(parameters: Seq<Parameter>)
    ensures
        read_declarations(codegen::parameter_tokens(parameters, parameters.len())) == Some(
            signature(parameters),
        ),
{
    let all = signature(parameters);
    if parameters.len() > 0 {
        lemma_later_parameters(parameters, 0);
        lemma_declarations(parameters, 0);
        assert(all.skip(0) =~= all);
    } else {
        assert(all =~= Seq::empty());
    }
}

/// Whether code, from position `k` on, is the head of a function with the given name, parameters
/// and result, up to the body at the end.
pub open spec fn heads_function(
    code: Seq<Token>,
    k: int,
    name: Seq<char>,
    parameters: Seq<(Seq<char>, DataType)>,
    out_type: DataType,
) -> bool {
    &&& 0 <= k < code.len() - 9
    &&& is_word(code[k], "fn"@)
    &&& is_word(code[k + 1], name)
    &&& code[k + 2] matches Token::Group(Bracketing::Parenthesis, list)
    &&& read_declarations(list) == Some(parameters)
    &&& is_mark(code[k + 3], '-')
    &&& is_mark(code[k + 4], '>')
    &&& is_word(code[k + 5], "Option"@)
    &&& is_mark(code[k + 6], '<')
    &&& read_type(code.subrange(k + 7, code.len() - 2)) == Some(out_type)
    &&& is_mark(code[code.len() - 2], '>')
}

/// The function that is generated for an expression computes the value of its tree: its body, the
/// last token of the code, does. It has the name, the parameters and the result of the expression.
pub proof fn law_function_computes_expression<V>(
    expression: ExpressionAst,
    variables: Map<Seq<char>, V>,
    meaning: Meaning<V>,
)
    requires
        is_block(expression.root_view()),
    ensures
        enclosed_value(expression.tokens().last(), Bracketing::Brace, variables, meaning) == Some(
            node_value(expression.root_view(), variables, meaning),
        ),
        exists|k: int| #[trigger]
            heads_function(
                expression.tokens(),
                k,
                expression.name_view(),
                signature(expression.parameters_view()),
                expression.out_type_view(),
            ),
{
    law_code_computes_tree(expression.root_view(), variables, meaning);
    law_parameters_are_declared(expression.parameters_view());
    law_type_code_denotes(expression.out_type_view());
    let functions = expression.functions_view();
    let k = codegen::function_tokens(functions, functions.len()).len() as int + 5;
    let code = expression.tokens();
    assert(code.subrange(k + 7, code.len() - 2) =~= expression.out_type_view().tokens());
    assert(heads_function(
        code,
        k,
        expression.name_view(),
        signature(expression.parameters_view()),
        expression.out_type_view(),
    ));
}

/// Whether a definition stands in code from position `p` on, behind the mark that it is inlined.
pub open spec fn defines_at(code: Seq<Token>, p: int, definition: Seq<Token>) -> bool {
    &&& 2 <= p <= p + definition.len() <= code.len()
    &&& code.subrange(p, p + definition.len()) == definition
    &&& is_mark(code[p - 2], '#')
    &&& code[p - 1] == Token::Group(Bracketing::Bracket, seq![Token::Ident("inline"@)])
}

/// Every function that an expression uses is defined in its code, marked to be inlined.
pub proof fn law_functions_are_defined(expression: ExpressionAst, i: int)
    requires
        0 <= i < expression.functions_view().len(),
    ensures
        exists|p: int| #[trigger]
            defines_at(
                expression.tokens(),
                p,
                expression.functions_view()[i].function.tokens(),
            ),
{
    let functions = expression.functions_view();
    let code = expression.tokens();
    let definition = functions[i].function.tokens();
    let all = codegen::function_tokens(functions, functions.len());
    let p = lemma_definition_at(functions, functions.len(), i);
    assert(code.subrange(p, p + definition.len()) =~= all.subrange(p, p + definition.len()));
    assert(code[p - 2] == all[p - 2] && code[p - 1] == all[p - 1]);
    assert(defines_at(code, p, definition));
}

proof fn lemma_definition_at(functions: Seq<AstFunction>, n: nat, i: int) -> (p: int)
    requires
        0 <= i < n <= functions.len(),
    ensures
        defines_at(codegen::function_tokens(functions, n), p, functions[i].function.tokens()),
    decreases n,
{
    let all = codegen::function_tokens(functions, n);
    let before = codegen::function_tokens(functions, (n - 1) as nat);
    let own = functions[n - 1].tokens();
    let definition = functions[i].function.tokens();
    assert(all == before + own);
    if i == n - 1 {
        let p = before.len() as int + 2;
        assert(all.subrange(p, p + definition.len()) =~= definition);
        p
    } else {
        let p = lemma_definition_at(functions, (n - 1) as nat, i);
        assert(all.subrange(p, p + definition.len()) =~= before.subrange(p, p + definition.len()));
        p
    }
}

/// The type of a branch does not depend on its conditions, but on what holds otherwise; that of an
/// expression behind assignments does not depend on them.
pub proof fn law_type_of_result(
    condition_branches: Vec<Branch>,
    assignments: Vec<Assignment>,
    last: Box<AstNode>,
)
    ensures
        codegen::node_type(AstNode::Branch { condition_branches, else_branch: last })
            == codegen::node_type(*last),
        codegen::node_type(AstNode::AssignmentsAndExpression { assignments, expression: last })
            == codegen::node_type(*last),
{
    reveal_with_fuel(codegen::node_type, 2);
}

} // verus!
