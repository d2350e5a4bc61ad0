//! Expressions: leaves joined by binary operators, grouped by binding power.

use crate::ast::expression::{BinaryOp, Expression, ExpressionView, Literal, LiteralView};
use crate::lexer::{in_order, Token, TokenView};
use crate::parser::{
    advanced, agrees, parse_term, read_expected, stands_at, term, token_at, unexpected_failure,
    ParseInput, Parsed, ParserError, ParserErrorView, Tape,
};
use crate::spans::{joined, MBox, Span, M};
use vstd::prelude::*;

verus! {

/// How strongly an operator binds what stands to its left and to its right.
/// The higher power binds tighter. An operator whose right power is the
/// higher one groups to the left; `or` alone groups to the right.
pub open spec fn binding_power(op: BinaryOp) -> (u8, u8) {
    match op {
        BinaryOp::LogicalOr => (10, 1),
        BinaryOp::LogicalAnd => (20, 21),
        BinaryOp::EQ | BinaryOp::NEQ => (30, 31),
        BinaryOp::LT | BinaryOp::LTE | BinaryOp::GT | BinaryOp::GTE => (40, 41),
        BinaryOp::Add | BinaryOp::Sub => (50, 51),
        BinaryOp::Mul | BinaryOp::Div | BinaryOp::Mod => (60, 61),
    }
}

pub fn infix_binding_power(op: BinaryOp) -> (power: (u8, u8))
    ensures
        power == binding_power(op),
{
    match op {
        BinaryOp::LogicalOr => (10, 1),
        BinaryOp::LogicalAnd => (20, 21),
        BinaryOp::EQ | BinaryOp::NEQ => (30, 31),
        BinaryOp::LT | BinaryOp::LTE | BinaryOp::GT | BinaryOp::GTE => (40, 41),
        BinaryOp::Add | BinaryOp::Sub => (50, 51),
        BinaryOp::Mul | BinaryOp::Div | BinaryOp::Mod => (60, 61),
    }
}

/// The binary operator that a token stands for.
pub open spec fn binary_operator(token: TokenView) -> Option<BinaryOp> {
    match token {
        TokenView::LogicalOr => Some(BinaryOp::LogicalOr),
        TokenView::LogicalAnd => Some(BinaryOp::LogicalAnd),
        TokenView::EQ => Some(BinaryOp::EQ),
        TokenView::NEQ => Some(BinaryOp::NEQ),
        TokenView::LT => Some(BinaryOp::LT),
        TokenView::LTE => Some(BinaryOp::LTE),
        TokenView::GT => Some(BinaryOp::GT),
        TokenView::GTE => Some(BinaryOp::GTE),
        TokenView::Add => Some(BinaryOp::Add),
        TokenView::Sub => Some(BinaryOp::Sub),
        TokenView::Star => Some(BinaryOp::Mul),
        TokenView::Div => Some(BinaryOp::Div),
        TokenView::Mod => Some(BinaryOp::Mod),
        _ => None,
    }
}

/// The constant that a token stands for.
pub open spec fn literal_of(token: TokenView) -> Option<LiteralView> {
    match token {
        TokenView::BoolLiteral(value) => Some(LiteralView::Bool(Some(value))),
        TokenView::BoolNullLiteral => Some(LiteralView::Bool(None)),
        TokenView::IntLiteral(value) => Some(LiteralView::Int(Some(value))),
        TokenView::IntNullLiteral => Some(LiteralView::Int(None)),
        TokenView::LongLiteral(value) => Some(LiteralView::Long(Some(value))),
        TokenView::LongNullLiteral => Some(LiteralView::Long(None)),
        TokenView::RealLiteral(value) => Some(LiteralView::Real(Some(value))),
        TokenView::RealNullLiteral => Some(LiteralView::Real(None)),
        TokenView::StringLiteral(value) => Some(LiteralView::String(value)),
        _ => None,
    }
}

/// Reads one token where it is a constant.
pub open spec fn literal(tape: Tape, index: usize) -> Parsed<M<LiteralView>> {
    Parsed {
        index: advanced(index),
        result: match token_at(tape, index as int) {
            Some(found) => match literal_of(found.value) {
                Some(value) => Ok(M { span: found.span, value }),
                None => Err(unexpected_failure(tape, advanced(index), "Parse Literal"@)),
            },
            None => Err(ParserErrorView::EndOfInput),
        },
    }
}

/// How many tokens are left from a position on.
pub open spec fn remaining(tape: Tape, index: usize) -> nat {
    if index <= tape.len() {
        (tape.len() - index) as nat
    } else {
        0
    }
}

/// What a definition yields where a part that was read did not move on.
/// Every part that is read moves on, so this is never what is read from a
/// tape; it stands in the definitions to show that they end.
pub open spec fn stuck<T>(index: usize) -> Parsed<T> {
    Parsed { index, result: Err(ParserErrorView::EndOfInput) }
}

/// The node of a binary operator between two operands.
pub open spec fn binary_node(
    left: MBox<ExpressionView>,
    op: M<BinaryOp>,
    right: MBox<ExpressionView>,
) -> MBox<ExpressionView> {
    MBox {
        span: joined(left.span, right.span),
        value: Box::new(ExpressionView::BinaryOp { left, op, right }),
    }
}

/// Reads an expression whose operators all bind at least as strongly, to
/// their left, as `min_bp`: a leaf, and then operators with their right
/// operands for as long as that holds.
pub open spec fn expression(tape: Tape, index: usize, min_bp: u8) -> Parsed<MBox<ExpressionView>>
    decreases remaining(tape, index), 3nat,
    when tape.len() <= usize::MAX
{
    let first = leaf(tape, index);
    match first.result {
        Err(_) => first,
        Ok(lhs) => if index <= first.index {
            operands(tape, first.index, lhs, min_bp)
        } else {
            stuck(first.index)
        },
    }
}

/// Reads the operators that follow a left operand, each with its right
/// operand, and joins them to it from the left. It stops before an operator
/// that binds more weakly than `min_bp`, and before anything else.
pub open spec fn operands(tape: Tape, index: usize, lhs: MBox<ExpressionView>, min_bp: u8) -> Parsed<
    MBox<ExpressionView>,
>
    decreases remaining(tape, index), 0nat,
    when tape.len() <= usize::MAX
{
    match token_at(tape, index as int) {
        Some(found) => match binary_operator(found.value) {
            Some(op) => if binding_power(op).0 < min_bp {
                Parsed { index, result: Ok(lhs) }
            } else {
                let rhs = expression(tape, (index + 1) as usize, binding_power(op).1);
                match rhs.result {
                    Err(_) => rhs,
                    Ok(right) => if index < rhs.index {
                        operands(
                            tape,
                            rhs.index,
                            binary_node(lhs, M { span: found.span, value: op }, right),
                            min_bp,
                        )
                    } else {
                        stuck(rhs.index)
                    },
                }
            },
            None => Parsed { index, result: Ok(lhs) },
        },
        None => Parsed { index, result: Ok(lhs) },
    }
}

/// Reads a leaf: an expression in parentheses, a constant, a call of a
/// function, or an identifier, whichever is the first to fit.
pub open spec fn leaf(tape: Tape, index: usize) -> Parsed<MBox<ExpressionView>>
    decreases remaining(tape, index), 2nat,
    when tape.len() <= usize::MAX
{
    let group = parenthetical(tape, index);
    if group.result is Ok {
        group
    } else {
        let constant = literal(tape, index);
        match constant.result {
            Ok(value) => Parsed {
                index: constant.index,
                result: Ok(
                    MBox {
                        span: value.span,
                        value: Box::new(ExpressionView::Literal { value: value.value }),
                    },
                ),
            },
            Err(_) => {
                let name = term(tape, index);
                match name.result {
                    Ok(name_read) => if stands_at(tape, name.index, TokenView::LParen) {
                        call(tape, index, name_read)
                    } else {
                        Parsed {
                            index: name.index,
                            result: Ok(
                                MBox {
                                    span: name_read.span,
                                    value: Box::new(ExpressionView::Identifier { name: name_read }),
                                },
                            ),
                        }
                    },
                    Err(_) => Parsed {
                        index: advanced(name.index),
                        result: Err(
                            unexpected_failure(tape, advanced(name.index), "Parse Leaf"@),
                        ),
                    },
                }
            },
        }
    }
}

/// Reads an expression between `(` and `)`. The expression is the result.
pub open spec fn parenthetical(tape: Tape, index: usize) -> Parsed<MBox<ExpressionView>>
    decreases remaining(tape, index), 1nat,
    when tape.len() <= usize::MAX
{
    let open = read_expected(tape, index, TokenView::LParen, "Left parenthesis '('"@);
    match open.result {
        Err(error) => Parsed { index: open.index, result: Err(error) },
        Ok(_) => if index < tape.len() {
            let inner = expression(tape, (index + 1) as usize, 0);
            match inner.result {
                Err(_) => inner,
                Ok(expr) => {
                    let close = read_expected(
                        tape,
                        inner.index,
                        TokenView::RParen,
                        "Right parenthesis ')'"@,
                    );
                    match close.result {
                        Err(error) => Parsed { index: close.index, result: Err(error) },
                        Ok(_) => Parsed { index: close.index, result: Ok(expr) },
                    }
                },
            }
        } else {
            stuck(open.index)
        },
    }
}

/// Reads the call of a function whose name stands at `index`, with `(` after
/// it: one argument or more, separated by commas, and `)`.
pub open spec fn call(tape: Tape, index: usize, name: M<Seq<char>>) -> Parsed<MBox<ExpressionView>>
    decreases remaining(tape, index), 1nat,
    when tape.len() <= usize::MAX
{
    if index + 1 < tape.len() {
        let first = expression(tape, (index + 2) as usize, 0);
        match first.result {
            Err(_) => first,
            Ok(argument) => if index + 1 < first.index {
                call_end(tape, index, name, arguments(tape, first.index, seq![argument]))
            } else {
                stuck(first.index)
            },
        }
    } else {
        stuck(index)
    }
}

/// Reads the `)` that ends the call of a function whose name stands at
/// `index`, after its arguments, and yields the call.
pub open spec fn call_end(
    tape: Tape,
    index: usize,
    name: M<Seq<char>>,
    rest: Parsed<Seq<MBox<ExpressionView>>>,
) -> Parsed<MBox<ExpressionView>> {
    match rest.result {
        Err(error) => Parsed { index: rest.index, result: Err(error) },
        Ok(args) => {
            let close = read_expected(
                tape,
                rest.index,
                TokenView::RParen,
                "No closing parenthesis for function call"@,
            );
            match close.result {
                Err(error) => Parsed { index: close.index, result: Err(error) },
                Ok(close_paren_sym) => Parsed {
                    index: close.index,
                    result: Ok(
                        MBox {
                            span: joined(name.span, close_paren_sym),
                            value: Box::new(
                                ExpressionView::FuncCall {
                                    name,
                                    open_paren_sym: tape[index + 1].span,
                                    args,
                                    close_paren_sym,
                                },
                            ),
                        },
                    ),
                },
            }
        },
    }
}

/// Reads the arguments that follow those read already, each after a comma.
pub open spec fn arguments(tape: Tape, index: usize, args: Seq<MBox<ExpressionView>>) -> Parsed<
    Seq<MBox<ExpressionView>>,
>
    decreases remaining(tape, index), 0nat,
    when tape.len() <= usize::MAX
{
    if stands_at(tape, index, TokenView::Comma) {
        let next = expression(tape, (index + 1) as usize, 0);
        match next.result {
            Err(error) => Parsed { index: next.index, result: Err(error) },
            Ok(argument) => if index < next.index {
                arguments(tape, next.index, args.push(argument))
            } else {
                stuck(next.index)
            },
        }
    } else {
        Parsed { index, result: Ok(args) }
    }
}

/// An expression that is read ends on the tape, after where it begins.
pub proof fn lemma_expression_moves_on(tape: Tape, index: usize, min_bp: u8)
    requires
        tape.len() <= usize::MAX,
    ensures
        expression(tape, index, min_bp).result is Ok ==> index < expression(
            tape,
            index,
            min_bp,
        ).index <= tape.len(),
    decreases remaining(tape, index), 3nat,
{
    let first = leaf(tape, index);
    lemma_leaf_moves_on(tape, index);
    if first.result is Ok {
        lemma_operands_move_on(tape, first.index, first.result->Ok_0, min_bp);
    }
}

/// The operands that are read after a left operand end on the tape, not
/// before where they begin.
pub proof fn lemma_operands_move_on(
    tape: Tape,
    index: usize,
    lhs: MBox<ExpressionView>,
    min_bp: u8,
)
    requires
        index <= tape.len() <= usize::MAX,
    ensures
        operands(tape, index, lhs, min_bp).result is Ok ==> index <= operands(
            tape,
            index,
            lhs,
            min_bp,
        ).index <= tape.len(),
    decreases remaining(tape, index), 0nat,
{
    if index < tape.len() {
        let found = tape[index as int];
        if let Some(op) = binary_operator(found.value) {
            if binding_power(op).0 >= min_bp {
                let next = (index + 1) as usize;
                let rhs = expression(tape, next, binding_power(op).1);
                lemma_expression_moves_on(tape, next, binding_power(op).1);
                if rhs.result is Ok {
                    lemma_operands_move_on(
                        tape,
                        rhs.index,
                        binary_node(lhs, M { span: found.span, value: op }, rhs.result->Ok_0),
                        min_bp,
                    );
                }
            }
        }
    }
}

/// A leaf that is read ends on the tape, after where it begins.
pub proof fn lemma_leaf_moves_on(tape: Tape, index: usize)
    requires
        tape.len() <= usize::MAX,
    ensures
        leaf(tape, index).result is Ok ==> index < leaf(tape, index).index <= tape.len(),
    decreases remaining(tape, index), 2nat,
{
    lemma_parenthetical_moves_on(tape, index);
    if parenthetical(tape, index).result is Err && literal(tape, index).result is Err {
        let name = term(tape, index);
        if name.result is Ok && stands_at(tape, name.index, TokenView::LParen) {
            lemma_call_moves_on(tape, index, name.result->Ok_0);
        }
    }
}

/// An expression in parentheses that is read ends on the tape, after where
/// it begins.
pub proof fn lemma_parenthetical_moves_on(tape: Tape, index: usize)
    requires
        tape.len() <= usize::MAX,
    ensures
        parenthetical(tape, index).result is Ok ==> index < parenthetical(tape, index).index
            <= tape.len(),
    decreases remaining(tape, index), 1nat,
{
    if stands_at(tape, index, TokenView::LParen) {
        lemma_expression_moves_on(tape, (index + 1) as usize, 0);
    }
}

/// A call that is read ends on the tape, after where it begins.
pub proof fn lemma_call_moves_on(tape: Tape, index: usize, name: M<Seq<char>>)
    requires
        tape.len() <= usize::MAX,
    ensures
        call(tape, index, name).result is Ok ==> index < call(tape, index, name).index
            <= tape.len(),
    decreases remaining(tape, index), 1nat,
{
    if index + 1 < tape.len() {
        let first = expression(tape, (index + 2) as usize, 0);
        lemma_expression_moves_on(tape, (index + 2) as usize, 0);
        if first.result is Ok {
            lemma_arguments_move_on(tape, first.index, seq![first.result->Ok_0]);
        }
    }
}

/// The arguments that are read after others end on the tape, not before
/// where they begin.
pub proof fn lemma_arguments_move_on(tape: Tape, index: usize, args: Seq<MBox<ExpressionView>>)
    requires
        index <= tape.len() <= usize::MAX,
    ensures
        arguments(tape, index, args).result is Ok ==> index <= arguments(tape, index, args).index
            <= tape.len(),
    decreases remaining(tape, index), 0nat,
{
    if stands_at(tape, index, TokenView::Comma) {
        let next = expression(tape, (index + 1) as usize, 0);
        lemma_expression_moves_on(tape, (index + 1) as usize, 0);
        if next.result is Ok {
            lemma_arguments_move_on(tape, next.index, args.push(next.result->Ok_0));
        }
    }
}

/// The rank of an operator: one of a higher rank binds tighter.
pub open spec fn precedence(op: BinaryOp) -> nat {
    match op {
        BinaryOp::LogicalOr => 1,
        BinaryOp::LogicalAnd => 2,
        BinaryOp::EQ | BinaryOp::NEQ => 3,
        BinaryOp::LT | BinaryOp::LTE | BinaryOp::GT | BinaryOp::GTE => 4,
        BinaryOp::Add | BinaryOp::Sub => 5,
        BinaryOp::Mul | BinaryOp::Div | BinaryOp::Mod => 6,
    }
}

/// Whether, of two operators in a row, the second takes the operand between
/// them: it does when it is of a higher rank, and `or` does after `or`.
pub open spec fn second_binds_first(first: BinaryOp, second: BinaryOp) -> bool {
    precedence(second) > precedence(first) || (first == BinaryOp::LogicalOr && second
        == BinaryOp::LogicalOr)
}

/// The binding powers say the same as the ranks.
pub proof fn lemma_binding_power_follows_precedence(first: BinaryOp, second: BinaryOp)
    ensures
        binding_power(second).0 >= binding_power(first).1 <==> second_binds_first(first, second),
{
}

/// The leaf that a single token is: a constant or an identifier.
pub open spec fn token_leaf(token: M<TokenView>) -> Option<MBox<ExpressionView>> {
    match literal_of(token.value) {
        Some(value) => Some(
            MBox { span: token.span, value: Box::new(ExpressionView::Literal { value }) },
        ),
        None => match token.value {
            TokenView::Term(name) => Some(
                MBox {
                    span: token.span,
                    value: Box::new(
                        ExpressionView::Identifier { name: M { span: token.span, value: name } },
                    ),
                },
            ),
            _ => None,
        },
    }
}

/// A constant or an identifier that no `(` follows is read as a leaf.
pub proof fn lemma_token_leaf(tape: Tape, index: usize)
    requires
        index < tape.len() <= usize::MAX,
        token_leaf(tape[index as int]) is Some,
        !stands_at(tape, (index + 1) as usize, TokenView::LParen),
    ensures
        leaf(tape, index) == (Parsed {
            index: (index + 1) as usize,
            result: Ok::<MBox<ExpressionView>, ParserErrorView>(
                token_leaf(tape[index as int])->0,
            ),
        }),
{
    reveal_with_fuel(parenthetical, 2);
}

/// Of three operands with two operators between them, the second operator
/// takes the middle operand where it is of a higher rank than the first.
/// Otherwise the first takes it and the expression groups to the left, but
/// for `or` after `or`, which groups to the right.
pub proof fn lemma_two_operators_group_by_precedence(tape: Tape, first: BinaryOp, second: BinaryOp)
    requires
        tape.len() == 5,
        token_leaf(tape[0]) is Some,
        binary_operator(tape[1].value) == Some(first),
        token_leaf(tape[2]) is Some,
        binary_operator(tape[3].value) == Some(second),
        token_leaf(tape[4]) is Some,
    ensures
        expression(tape, 0, 0) == (Parsed {
            index: 5,
            result: Ok::<MBox<ExpressionView>, ParserErrorView>(
                {
                    let a = token_leaf(tape[0])->0;
                    let b = token_leaf(tape[2])->0;
                    let c = token_leaf(tape[4])->0;
                    let op1 = M { span: tape[1].span, value: first };
                    let op2 = M { span: tape[3].span, value: second };
                    if second_binds_first(first, second) {
                        binary_node(a, op1, binary_node(b, op2, c))
                    } else {
                        binary_node(binary_node(a, op1, b), op2, c)
                    }
                },
            ),
        }),
{
    let a = token_leaf(tape[0])->0;
    let b = token_leaf(tape[2])->0;
    let c = token_leaf(tape[4])->0;
    let op1 = M { span: tape[1].span, value: first };
    let op2 = M { span: tape[3].span, value: second };
    lemma_binding_power_follows_precedence(first, second);
    lemma_token_leaf(tape, 0);
    lemma_token_leaf(tape, 2);
    lemma_token_leaf(tape, 4);
    let r1 = binding_power(first).1;
    let r2 = binding_power(second).1;
    // the last operand, read after the second operator
    assert(operands(tape, 5, c, r2) == Parsed { index: 5usize, result: Ok(c) });
    assert(expression(tape, 4, r2) == Parsed { index: 5usize, result: Ok(c) });
    if second_binds_first(first, second) {
        let bc = binary_node(b, op2, c);
        assert(operands(tape, 5, bc, r1) == Parsed { index: 5usize, result: Ok(bc) });
        assert(operands(tape, 3, b, r1) == Parsed { index: 5usize, result: Ok(bc) });
        assert(expression(tape, 2, r1) == Parsed { index: 5usize, result: Ok(bc) });
        let abc = binary_node(a, op1, bc);
        assert(operands(tape, 5, abc, 0) == Parsed { index: 5usize, result: Ok(abc) });
        assert(operands(tape, 1, a, 0) == Parsed { index: 5usize, result: Ok(abc) });
    } else {
        assert(operands(tape, 3, b, r1) == Parsed { index: 3usize, result: Ok(b) });
        assert(expression(tape, 2, r1) == Parsed { index: 3usize, result: Ok(b) });
        let ab = binary_node(a, op1, b);
        let abc = binary_node(ab, op2, c);
        assert(operands(tape, 5, abc, 0) == Parsed { index: 5usize, result: Ok(abc) });
        assert(operands(tape, 3, ab, 0) == Parsed { index: 5usize, result: Ok(abc) });
        assert(operands(tape, 1, a, 0) == Parsed { index: 5usize, result: Ok(abc) });
    }
}

/// The operator at the root of an expression, if it has one.
pub open spec fn root_operator(expr: MBox<ExpressionView>) -> Option<BinaryOp> {
    match *expr.value {
        ExpressionView::BinaryOp { left: _, op, right: _ } => Some(op.value),
        _ => None,
    }
}

/// Whether the operators of an expression group by their binding powers:
/// an operator at the root of a right operand binds, to its left, at least
/// as strongly as the operator above it binds to its right; an operator at
/// the root of a left operand binds, to its right, more strongly than the
/// operator above it binds to its left.
pub open spec fn grouped(expr: MBox<ExpressionView>) -> bool
    decreases expr,
{
    match *expr.value {
        ExpressionView::BinaryOp { left, op, right } => {
            &&& grouped(left)
            &&& grouped(right)
            &&& root_operator(left) matches Some(below) ==> binding_power(op.value).0
                < binding_power(below).1
            &&& root_operator(right) matches Some(below) ==> binding_power(below).0
                >= binding_power(op.value).1
        },
        _ => true,
    }
}

/// Whether a tape holds operands and operators in turn, from its start to
/// its end: a constant or an identifier, then an operator and a constant or
/// an identifier any number of times. Such a tape holds neither parentheses
/// nor calls.
pub open spec fn flat(tape: Tape) -> bool {
    &&& tape.len() % 2 == 1
    &&& forall|i: int|
        0 <= i < tape.len() ==> if i % 2 == 0 {
            token_leaf(#[trigger] tape[i]) is Some
        } else {
            binary_operator(tape[i].value) is Some
        }
}

/// Whether reading stopped where it had to: at the end of the tape, or
/// before an operator that binds more weakly to its left than `min_bp`.
pub open spec fn stopped(tape: Tape, index: usize, min_bp: u8) -> bool {
    index == tape.len() || (index < tape.len() && match binary_operator(
        tape[index as int].value,
    ) {
        Some(op) => binding_power(op).0 < min_bp,
        None => false,
    })
}

/// In every expression without parentheses and calls, the operators group
/// by their binding powers. Read from an operand on, such an expression
/// takes operands and operators up to the end of the tape or up to an
/// operator that binds more weakly than asked for, and no operator at its
/// root binds more weakly than that.
pub proof fn lemma_flat_expression_is_grouped(tape: Tape, index: usize, min_bp: u8)
    requires
        flat(tape),
        tape.len() <= usize::MAX,
        index < tape.len(),
        index % 2 == 0,
    ensures
        ({
            let read = expression(tape, index, min_bp);
            &&& read.result is Ok
            &&& grouped(read.result->Ok_0)
            &&& root_operator(read.result->Ok_0) matches Some(op) ==> binding_power(op).0 >= min_bp
            &&& index < read.index <= tape.len()
            &&& read.index % 2 == 1
            &&& stopped(tape, read.index, min_bp)
        }),
    decreases remaining(tape, index), 3nat,
{
    assert(token_leaf(tape[index as int]) is Some);
    if index + 1 < tape.len() {
        assert(binary_operator(tape[index + 1].value) is Some);
    }
    lemma_token_leaf(tape, index);
    let first = token_leaf(tape[index as int])->0;
    lemma_flat_operands_are_grouped(tape, (index + 1) as usize, first, min_bp);
}

/// The operators that follow a left operand in an expression without
/// parentheses and calls group by their binding powers.
pub proof fn lemma_flat_operands_are_grouped(
    tape: Tape,
    index: usize,
    lhs: MBox<ExpressionView>,
    min_bp: u8,
)
    requires
        flat(tape),
        tape.len() <= usize::MAX,
        index <= tape.len(),
        index % 2 == 1,
        grouped(lhs),
        root_operator(lhs) matches Some(op) ==> binding_power(op).0 >= min_bp,
        root_operator(lhs) matches Some(op) ==> stopped(tape, index, binding_power(op).1),
    ensures
        ({
            let read = operands(tape, index, lhs, min_bp);
            &&& read.result is Ok
            &&& grouped(read.result->Ok_0)
            &&& root_operator(read.result->Ok_0) matches Some(op) ==> binding_power(op).0 >= min_bp
            &&& index <= read.index <= tape.len()
            &&& read.index % 2 == 1
            &&& stopped(tape, read.index, min_bp)
        }),
    decreases remaining(tape, index), 0nat,
{
    if index < tape.len() {
        let found = tape[index as int];
        assert(binary_operator(found.value) is Some);
        let op = binary_operator(found.value)->0;
        if binding_power(op).0 >= min_bp {
            let next = (index + 1) as usize;
            lemma_flat_expression_is_grouped(tape, next, binding_power(op).1);
            let rhs = expression(tape, next, binding_power(op).1);
            let node = binary_node(lhs, M { span: found.span, value: op }, rhs.result->Ok_0);
            assert(grouped(node));
            lemma_flat_operands_are_grouped(tape, rhs.index, node, min_bp);
        }
    }
}

/// Whether a range lies within the tokens from one position up to another.
pub open spec fn covers(tape: Tape, from: usize, to: usize, span: Span) -> bool {
    &&& from < to <= tape.len()
    &&& tape[from as int].span.offset <= span.offset
    &&& span.end() <= tape[to - 1].span.end()
}

/// Whether the ranges of an expression fit together: the range of every
/// part lies inside the range of the expression that it is a part of, the
/// range of an expression with parts reaches from the start of its first
/// part to the end of its last, and the parts stand one after the other,
/// without overlap: the left operand before the operator and the operator
/// before the right operand; the name of a function before the `(`, the
/// arguments between `(` and `)`, each before the next.
pub open spec fn nested(expr: MBox<ExpressionView>) -> bool
    decreases expr,
{
    match *expr.value {
        ExpressionView::Identifier { name } => expr.span == name.span,
        ExpressionView::FuncCall { name, open_paren_sym, args, close_paren_sym } => {
            &&& expr.span == joined(name.span, close_paren_sym)
            &&& expr.span.contains(name.span)
            &&& expr.span.contains(open_paren_sym)
            &&& expr.span.contains(close_paren_sym)
            &&& name.span.end() <= open_paren_sym.offset
            &&& open_paren_sym.end() <= close_paren_sym.offset
            &&& forall|i: int|
                0 <= i < args.len() ==> {
                    &&& expr.span.contains((#[trigger] args[i]).span)
                    &&& nested(args[i])
                    &&& open_paren_sym.end() <= args[i].span.offset
                    &&& args[i].span.end() <= close_paren_sym.offset
                }
            &&& forall|i: int, j: int|
                0 <= i < j < args.len() ==> (#[trigger] args[i]).span.end() <= (
                #[trigger] args[j]).span.offset
        },
        ExpressionView::BinaryOp { left, op, right } => {
            &&& expr.span == joined(left.span, right.span)
            &&& expr.span.contains(left.span)
            &&& expr.span.contains(op.span)
            &&& expr.span.contains(right.span)
            &&& left.span.end() <= op.span.offset
            &&& op.span.end() <= right.span.offset
            &&& nested(left)
            &&& nested(right)
        },
        ExpressionView::Literal { value: _ } => true,
    }
}

/// An expression that is read from tokens in order lies within the tokens
/// that were read for it.
pub proof fn lemma_expression_covers(tape: Tape, index: usize, min_bp: u8)
    requires
        in_order(tape),
        tape.len() <= usize::MAX,
    ensures
        expression(tape, index, min_bp).result matches Ok(expr) ==> covers(
            tape,
            index,
            expression(tape, index, min_bp).index,
            expr.span,
        ),
    decreases remaining(tape, index), 3nat,
{
    let first = leaf(tape, index);
    lemma_leaf_covers(tape, index);
    if first.result is Ok {
        lemma_operands_cover(tape, index, first.index, first.result->Ok_0, min_bp);
    }
}

/// The expression that the operands after a left operand make lies within
/// the tokens that were read for the left operand and for them.
pub proof fn lemma_operands_cover(
    tape: Tape,
    start: usize,
    index: usize,
    lhs: MBox<ExpressionView>,
    min_bp: u8,
)
    requires
        in_order(tape),
        tape.len() <= usize::MAX,
        covers(tape, start, index, lhs.span),
    ensures
        operands(tape, index, lhs, min_bp).result matches Ok(expr) ==> covers(
            tape,
            start,
            operands(tape, index, lhs, min_bp).index,
            expr.span,
        ),
    decreases remaining(tape, index), 0nat,
{
    if index < tape.len() {
        let found = tape[index as int];
        if let Some(op) = binary_operator(found.value) {
            if binding_power(op).0 >= min_bp {
                let next = (index + 1) as usize;
                let rhs = expression(tape, next, binding_power(op).1);
                lemma_expression_covers(tape, next, binding_power(op).1);
                if rhs.result is Ok {
                    let right = rhs.result->Ok_0;
                    let node = binary_node(lhs, M { span: found.span, value: op }, right);
                    assert(tape[index - 1].span.end() <= tape[index + 1].span.offset);
                    assert(tape[start as int].span.offset <= lhs.span.offset);
                    assert(node.span.end() == right.span.end());
                    lemma_operands_cover(tape, start, rhs.index, node, min_bp);
                }
            }
        }
    }
}

/// A leaf that is read from tokens in order lies within the tokens that
/// were read for it.
pub proof fn lemma_leaf_covers(tape: Tape, index: usize)
    requires
        in_order(tape),
        tape.len() <= usize::MAX,
    ensures
        leaf(tape, index).result matches Ok(expr) ==> covers(
            tape,
            index,
            leaf(tape, index).index,
            expr.span,
        ),
    decreases remaining(tape, index), 2nat,
{
    lemma_parenthetical_covers(tape, index);
    if parenthetical(tape, index).result is Err && literal(tape, index).result is Err {
        let name = term(tape, index);
        if name.result is Ok && stands_at(tape, name.index, TokenView::LParen) {
            lemma_call_covers(tape, index, name.result->Ok_0);
        }
    }
}

/// An expression in parentheses lies within the tokens between them.
pub proof fn lemma_parenthetical_covers(tape: Tape, index: usize)
    requires
        in_order(tape),
        tape.len() <= usize::MAX,
    ensures
        parenthetical(tape, index).result matches Ok(expr) ==> covers(
            tape,
            index,
            parenthetical(tape, index).index,
            expr.span,
        ),
    decreases remaining(tape, index), 1nat,
{
    if stands_at(tape, index, TokenView::LParen) {
        let inner = expression(tape, (index + 1) as usize, 0);
        lemma_expression_covers(tape, (index + 1) as usize, 0);
        if inner.result is Ok && parenthetical(tape, index).result is Ok {
            assert(tape[index as int].span.end() <= tape[index + 1].span.offset);
            assert(tape[inner.index - 1].span.end() <= tape[inner.index as int].span.offset);
        }
    }
}

/// A call reaches from its name to its closing parenthesis.
pub proof fn lemma_call_covers(tape: Tape, index: usize, name: M<Seq<char>>)
    requires
        in_order(tape),
        tape.len() <= usize::MAX,
        index < tape.len(),
        name.span == tape[index as int].span,
    ensures
        call(tape, index, name).result matches Ok(expr) ==> covers(
            tape,
            index,
            call(tape, index, name).index,
            expr.span,
        ),
    decreases remaining(tape, index), 1nat,
{
    if index + 1 < tape.len() {
        let first = expression(tape, (index + 2) as usize, 0);
        lemma_expression_moves_on(tape, (index + 2) as usize, 0);
        if first.result is Ok {
            let rest = arguments(tape, first.index, seq![first.result->Ok_0]);
            lemma_arguments_move_on(tape, first.index, seq![first.result->Ok_0]);
            if rest.result is Ok && call(tape, index, name).result is Ok {
                assert(tape[index as int].span.end() <= tape[rest.index as int].span.offset);
            }
        }
    }
}

/// In an expression that is read from tokens in order, the range of every
/// part lies inside the range of the expression that it is a part of.
pub proof fn lemma_expression_nested(tape: Tape, index: usize, min_bp: u8)
    requires
        in_order(tape),
        tape.len() <= usize::MAX,
    ensures
        expression(tape, index, min_bp).result matches Ok(expr) ==> nested(expr),
    decreases remaining(tape, index), 3nat,
{
    let first = leaf(tape, index);
    lemma_leaf_nested(tape, index);
    lemma_leaf_covers(tape, index);
    if first.result is Ok {
        lemma_operands_nested(tape, index, first.index, first.result->Ok_0, min_bp);
    }
}

/// The operands after a left operand whose ranges fit together make an
/// expression whose ranges fit together.
pub proof fn lemma_operands_nested(
    tape: Tape,
    start: usize,
    index: usize,
    lhs: MBox<ExpressionView>,
    min_bp: u8,
)
    requires
        in_order(tape),
        tape.len() <= usize::MAX,
        covers(tape, start, index, lhs.span),
        nested(lhs),
    ensures
        operands(tape, index, lhs, min_bp).result matches Ok(expr) ==> nested(expr),
    decreases remaining(tape, index), 0nat,
{
    if index < tape.len() {
        let found = tape[index as int];
        if let Some(op) = binary_operator(found.value) {
            if binding_power(op).0 >= min_bp {
                let next = (index + 1) as usize;
                let rhs = expression(tape, next, binding_power(op).1);
                lemma_expression_covers(tape, next, binding_power(op).1);
                lemma_expression_nested(tape, next, binding_power(op).1);
                if rhs.result is Ok {
                    let right = rhs.result->Ok_0;
                    let node = binary_node(lhs, M { span: found.span, value: op }, right);
                    assert(tape[index - 1].span.end() <= tape[index as int].span.offset);
                    assert(tape[index as int].span.end() <= tape[index + 1].span.offset);
                    assert(tape[start as int].span.offset <= lhs.span.offset);
                    assert(node.span.end() == right.span.end());
                    assert(nested(node));
                    lemma_operands_nested(tape, start, rhs.index, node, min_bp);
                }
            }
        }
    }
}

/// The ranges of a leaf that is read from tokens in order fit together.
pub proof fn lemma_leaf_nested(tape: Tape, index: usize)
    requires
        in_order(tape),
        tape.len() <= usize::MAX,
    ensures
        leaf(tape, index).result matches Ok(expr) ==> nested(expr),
    decreases remaining(tape, index), 2nat,
{
    if stands_at(tape, index, TokenView::LParen) {
        lemma_expression_nested(tape, (index + 1) as usize, 0);
    }
    if parenthetical(tape, index).result is Err && literal(tape, index).result is Err {
        let name = term(tape, index);
        if name.result is Ok && stands_at(tape, name.index, TokenView::LParen) {
            lemma_call_nested(tape, index, name.result->Ok_0);
        }
    }
}

/// The ranges of a call that is read from tokens in order fit together.
pub proof fn lemma_call_nested(tape: Tape, index: usize, name: M<Seq<char>>)
    requires
        in_order(tape),
        tape.len() <= usize::MAX,
        index < tape.len(),
        name.span == tape[index as int].span,
    ensures
        call(tape, index, name).result matches Ok(expr) ==> nested(expr),
    decreases remaining(tape, index), 1nat,
{
    if index + 1 < tape.len() {
        let from = (index + 2) as usize;
        let first = expression(tape, from, 0);
        lemma_expression_covers(tape, from, 0);
        lemma_expression_nested(tape, from, 0);
        if first.result is Ok {
            let rest = arguments(tape, first.index, seq![first.result->Ok_0]);
            lemma_arguments_nested(tape, index, first.index, seq![first.result->Ok_0]);
            if rest.result is Ok && call(tape, index, name).result is Ok {
                let args = rest.result->Ok_0;
                let close = tape[rest.index as int].span;
                let whole = call(tape, index, name).result->Ok_0;
                assert(tape[index as int].span.end() <= tape[index + 1].span.offset);
                assert(tape[index + 1].span.end() <= tape[rest.index as int].span.offset);
                assert(tape[index as int].span.end() <= tape[rest.index as int].span.offset);
                assert forall|i: int| 0 <= i < args.len() implies {
                    &&& whole.span.contains((#[trigger] args[i]).span)
                    &&& nested(args[i])
                    &&& tape[index + 1].span.end() <= args[i].span.offset
                    &&& args[i].span.end() <= close.offset
                } by {
                    assert(tape[rest.index - 1].span.end() <= tape[rest.index as int].span.offset);
                }
                assert(nested(whole));
            }
        }
    }
}

/// The arguments that are read after others lie, like the others, after
/// the `(` of the call and within the tokens read, and their ranges fit
/// together.
pub proof fn lemma_arguments_nested(
    tape: Tape,
    start: usize,
    index: usize,
    args: Seq<MBox<ExpressionView>>,
)
    requires
        in_order(tape),
        tape.len() <= usize::MAX,
        start + 2 <= index <= tape.len(),
        forall|i: int|
            0 <= i < args.len() ==> {
                let argument = #[trigger] args[i];
                &&& nested(argument)
                &&& tape[start + 1].span.end() <= argument.span.offset
                &&& argument.span.end() <= tape[index - 1].span.end()
            },
        forall|i: int, j: int|
            0 <= i < j < args.len() ==> (#[trigger] args[i]).span.end() <= (
            #[trigger] args[j]).span.offset,
    ensures
        arguments(tape, index, args).result matches Ok(all) ==> (forall|i: int|
            0 <= i < all.len() ==> {
                let argument = #[trigger] all[i];
                &&& nested(argument)
                &&& tape[start + 1].span.end() <= argument.span.offset
                &&& argument.span.end() <= tape[arguments(tape, index, args).index - 1].span.end()
            }) && (forall|i: int, j: int|
            0 <= i < j < all.len() ==> (#[trigger] all[i]).span.end() <= (
            #[trigger] all[j]).span.offset) && index <= arguments(tape, index, args).index
            <= tape.len(),
    decreases remaining(tape, index), 0nat,
{
    if stands_at(tape, index, TokenView::Comma) {
        let from = (index + 1) as usize;
        let next = expression(tape, from, 0);
        lemma_expression_covers(tape, from, 0);
        lemma_expression_nested(tape, from, 0);
        if next.result is Ok {
            let longer = args.push(next.result->Ok_0);
            assert forall|i: int| 0 <= i < longer.len() implies {
                let argument = #[trigger] longer[i];
                &&& nested(argument)
                &&& tape[start + 1].span.end() <= argument.span.offset
                &&& argument.span.end() <= tape[next.index - 1].span.end()
            } by {
                if i < args.len() {
                    assert(longer[i] == args[i]);
                    assert(tape[index - 1].span.end() <= tape[next.index - 1].span.offset);
                } else {
                    assert(tape[start + 1].span.end() <= tape[from as int].span.offset);
                }
            }
            assert forall|i: int, j: int| 0 <= i < j < longer.len() implies (
            #[trigger] longer[i]).span.end() <= (#[trigger] longer[j]).span.offset by {
                assert(longer[i] == args[i]);
                if j < args.len() {
                    assert(longer[j] == args[j]);
                } else {
                    assert(args[i].span.end() <= tape[index - 1].span.end());
                    assert(tape[index - 1].span.end() <= tape[from as int].span.offset);
                }
            }
            lemma_arguments_nested(tape, start, next.index, longer);
        }
    }
}

/// Whether a parsing function read an expression as the grammar says, and,
/// where it read one, the expression lies within the tokens read.
pub open spec fn reads(
    before: ParseInput,
    after: ParseInput,
    result: Result<MBox<Expression>, ParserError>,
    expected: Parsed<MBox<ExpressionView>>,
) -> bool {
    &&& agrees(before, after, result, expected)
    &&& result matches Ok(expr) ==> covers(
        before.tape(),
        before.position(),
        after.position(),
        expr.span,
    )
}

/// Reads an expression.
///
/// The expression that is read lies within the tokens read for it, and the
/// range of every part of it lies inside the range of the expression that
/// it is a part of.
pub fn parse_expression(input: &mut ParseInput) -> (result: Result<MBox<Expression>, ParserError>)
    requires
        in_order(old(input).tape()),
    ensures
        reads(
            *old(input),
            *final(input),
            result,
            expression(old(input).tape(), old(input).position(), 0),
        ),
        result matches Ok(expr) ==> nested(expr.deep_view()),
    decreases remaining(old(input).tape(), old(input).position()), 4nat,
{
    proof {
        input.lemma_tape_fits();
        lemma_expression_nested(input.tape(), input.position(), 0);
    }
    pratt_parse(input, 0)
}

/// Reads an expression whose operators all bind at least as strongly, to
/// their left, as `min_bp`.
///
/// The expression that is read lies within the tokens read for it, and its
/// ranges fit together: the range of a binary node is the join of those of
/// its operands, and the left operand, the operator and the right operand
/// stand in it one after the other.
pub fn pratt_parse(input: &mut ParseInput, min_bp: u8) -> (result: Result<
    MBox<Expression>,
    ParserError,
>)
    requires
        in_order(old(input).tape()),
    ensures
        reads(
            *old(input),
            *final(input),
            result,
            expression(old(input).tape(), old(input).position(), min_bp),
        ),
        result matches Ok(expr) ==> nested(expr.deep_view()),
    decreases remaining(old(input).tape(), old(input).position()), 3nat,
{
    let ghost tape = input.tape();
    let ghost start = input.position();
    proof {
        input.lemma_tape_fits();
        lemma_expression_nested(tape, start, min_bp);
    }
    let mut lhs = parse_leaf(input)?;
    loop
        invariant_except_break
            input.tape() == tape,
            tape == old(input).tape(),
            start == old(input).position(),
            in_order(tape),
            tape.len() <= usize::MAX,
            expression(tape, start, min_bp) == operands(
                tape,
                input.position(),
                lhs.deep_view(),
                min_bp,
            ),
            covers(tape, start, input.position(), lhs.span),
        ensures
            reads(*old(input), *input, Ok(lhs), expression(tape, start, min_bp)),
        decreases remaining(tape, input.position()),
    {
        let checkpoint = input.checkpoint();
        if let Some(bin_op) = try_parse_bin_op(input) {
            let (l_bp, r_bp) = infix_binding_power(bin_op.value);

            if l_bp < min_bp {
                input.restore(checkpoint);
                break ;
            }
            let rhs = pratt_parse(input, r_bp)?;
            let left = lhs.span;
            let right = rhs.span;
            let ghost lhs_view = lhs.deep_view();
            let ghost rhs_view = rhs.deep_view();
            let new_root = Expression::BinaryOp { left: lhs, op: bin_op, right: rhs };
            lhs = MBox::new_range(new_root, left, right);
            assert(lhs.deep_view() == binary_node(lhs_view, bin_op, rhs_view));
        } else {
            break ;
        }
    }
    Ok(lhs)
}

pub fn parse_leaf(input: &mut ParseInput) -> (result: Result<MBox<Expression>, ParserError>)
    requires
        in_order(old(input).tape()),
    ensures
        reads(*old(input), *final(input), result, leaf(old(input).tape(), old(input).position())),
        result matches Ok(expr) ==> nested(expr.deep_view()),
    decreases remaining(old(input).tape(), old(input).position()), 2nat,
{
    proof {
        input.lemma_tape_fits();
        lemma_leaf_nested(input.tape(), input.position());
    }
    let checkpoint = input.checkpoint();
    match parse_parenthetical(input) {
        Ok(value) => {
            return Ok(value);
        },
        Err(_) => {},
    }
    input.restore(checkpoint);
    match parse_literal(input) {
        Ok(value) => {
            let span = value.span;
            return Ok(MBox::new(Expression::Literal { value: value.value }, span));
        },
        Err(_) => {},
    }
    input.restore(checkpoint);
    match parse_term(input) {
        Ok(term) => {
            let span = term.span;
            if let Some(open_paren_sym) = input.next_if(Token::LParen) {
                return parse_call(input, term, open_paren_sym);
            } else {
                return Ok(MBox::new(Expression::Identifier { name: term }, span));
            }
        },
        Err(_) => {},
    }
    // one more token is read: the error names the token after the one that
    // begins no leaf
    let _ = input.next();
    Err(input.unexpected_token("Parse Leaf"))
}

/// Reads the rest of the call of a function whose name and `(` were read
/// last.
fn parse_call(input: &mut ParseInput, term: M<String>, open_paren_sym: Span) -> (result: Result<
    MBox<Expression>,
    ParserError,
>)
    requires
        in_order(old(input).tape()),
        2 <= old(input).position() <= old(input).tape().len(),
        old(input).tape()[old(input).position() - 2].span == term.span,
        old(input).tape()[old(input).position() - 1].span == open_paren_sym,
    ensures
        agrees(
            *old(input),
            *final(input),
            result,
            call(old(input).tape(), (old(input).position() - 2) as usize, term.deep_view()),
        ),
        result matches Ok(expr) ==> covers(
            old(input).tape(),
            (old(input).position() - 2) as usize,
            final(input).position(),
            expr.span,
        ),
    decreases remaining(old(input).tape(), (old(input).position() - 2) as usize), 1nat,
{
    let ghost tape = input.tape();
    let ghost start = (input.position() - 2) as usize;
    let ghost name = term.deep_view();
    proof {
        input.lemma_tape_fits();
    }
    let span = term.span;
    let mut args: Vec<MBox<Expression>> = Vec::new();
    let first = parse_expression(input)?;
    let ghost first_view = first.deep_view();
    args.push(first);
    assert(args.deep_view() =~= seq![first_view]);
    loop
        invariant_except_break
            input.tape() == tape,
            tape == old(input).tape(),
            start + 2 == old(input).position(),
            name == term.deep_view(),
            in_order(tape),
            tape.len() <= usize::MAX,
            start + 2 < input.position() <= tape.len(),
            call(tape, start, name) == call_end(
                tape,
                start,
                name,
                arguments(tape, input.position(), args.deep_view()),
            ),
        ensures
            input.tape() == tape,
            start + 2 < input.position() <= tape.len(),
            call(tape, start, name) == call_end(
                tape,
                start,
                name,
                Parsed {
                    index: input.position(),
                    result: Ok::<Seq<MBox<ExpressionView>>, ParserErrorView>(args.deep_view()),
                },
            ),
        decreases remaining(tape, input.position()),
    {
        if input.next_if(Token::Comma).is_none() {
            break ;
        }
        let ghost before = args.deep_view();
        let argument = parse_expression(input)?;
        let ghost argument_view = argument.deep_view();
        args.push(argument);
        assert(args.deep_view() =~= before.push(argument_view));
    }
    let ghost args_view = args.deep_view();
    let ghost close_at = input.position();
    let close_paren_sym = input.assert_next(
        Token::RParen,
        "No closing parenthesis for function call",
    )?;
    let end_span = close_paren_sym;
    let node = Expression::FuncCall { name: term, open_paren_sym, args, close_paren_sym };
    assert(node.deep_view()->FuncCall_args =~= args_view);
    assert(close_paren_sym == tape[close_at as int].span);
    assert(tape[start as int].span.end() <= tape[close_at as int].span.offset);
    Ok(MBox::new_range(node, span, end_span))
}

pub fn parse_parenthetical(input: &mut ParseInput) -> (result: Result<MBox<Expression>, ParserError>)
    requires
        in_order(old(input).tape()),
    ensures
        reads(
            *old(input),
            *final(input),
            result,
            parenthetical(old(input).tape(), old(input).position()),
        ),
        result matches Ok(expr) ==> nested(expr.deep_view()),
    decreases remaining(old(input).tape(), old(input).position()), 1nat,
{
    proof {
        if stands_at(input.tape(), input.position(), TokenView::LParen) {
            input.lemma_tape_fits();
            lemma_expression_nested(input.tape(), (input.position() + 1) as usize, 0);
        }
        input.lemma_tape_fits();
    }
    let _left = input.assert_next(Token::LParen, "Left parenthesis '('")?;
    let inner = parse_expression(input)?;
    let _right = input.assert_next(Token::RParen, "Right parenthesis ')'")?;
    Ok(inner)
}

pub fn parse_literal(input: &mut ParseInput) -> (result: Result<M<Literal>, ParserError>)
    ensures
        agrees(*old(input), *final(input), result, literal(old(input).tape(), old(input).position())),
        result matches Ok(value) ==> token_at(old(input).tape(), old(input).position() as int)
            matches Some(token) && token.span == value.span && final(input).position() == old(
            input,
        ).position() + 1,
{
    let next = input.next()?;
    let span = next.span;
    let value = match &next.value {
        // booleans
        Token::BoolLiteral(value) => Literal::Bool(Some(*value)),
        Token::BoolNullLiteral => Literal::Bool(None),
        // ints
        Token::IntLiteral(value) => Literal::Int(Some(*value)),
        Token::IntNullLiteral => Literal::Int(None),
        // longs
        Token::LongLiteral(value) => Literal::Long(Some(*value)),
        Token::LongNullLiteral => Literal::Long(None),
        // reals
        Token::RealLiteral(value) => Literal::Real(Some(value.duplicate())),
        Token::RealNullLiteral => Literal::Real(None),
        // strings
        Token::StringLiteral(value) => Literal::String(value.clone()),
        // errors
        _ => {
            return Err(input.unexpected_token("Parse Literal"));
        },
    };
    Ok(M::new(value, span))
}

/// Reads the next token if it is a binary operator.
fn try_parse_bin_op(input: &mut ParseInput) -> (found: Option<M<BinaryOp>>)
    ensures
        final(input).tape() == old(input).tape(),
        match found {
            Some(op) => token_at(old(input).tape(), old(input).position() as int) matches Some(
                token,
            ) && binary_operator(token.value) == Some(op.value) && op.span == token.span
                && final(input).position() == old(input).position() + 1,
            None => final(input).position() == old(input).position() && (token_at(
                old(input).tape(),
                old(input).position() as int,
            ) matches Some(token) ==> binary_operator(token.value) is None),
        },
{
    let op = match input.peek() {
        Ok(next) => {
            let span = next.span;
            let op = match &next.value {
                Token::LogicalOr => BinaryOp::LogicalOr,
                Token::LogicalAnd => BinaryOp::LogicalAnd,
                Token::EQ => BinaryOp::EQ,
                Token::NEQ => BinaryOp::NEQ,
                Token::LT => BinaryOp::LT,
                Token::LTE => BinaryOp::LTE,
                Token::GT => BinaryOp::GT,
                Token::GTE => BinaryOp::GTE,
                Token::Add => BinaryOp::Add,
                Token::Sub => BinaryOp::Sub,
                Token::Star => BinaryOp::Mul,
                Token::Div => BinaryOp::Div,
                Token::Mod => BinaryOp::Mod,
                _ => {
                    return None;
                },
            };
            M::new(op, span)
        },
        Err(_) => {
            return None;
        },
    };
    let _ = input.next();
    Some(op)
}

} // verus!
