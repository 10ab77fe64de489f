use vstd::prelude::*;
use crate::arena::arena_of;
use crate::ast::{build, build_from, classify, fault_at, node_fits, Ast, BuildErrorKind, BuildFault, Class, Shape};
use crate::node::{LiteralExpr, LiteralType, Node, NodeKey};
use crate::token::{LexToken, TokenType};

verus! {

/// A stream that starts with `+` fails at once for want of a left operand.
pub proof fn lemma_leading_plus(ts: Seq<LexToken>)
    requires
        ts.len() >= 1,
        ts[0].kind == TokenType::Plus,
    ensures
        build(ts) == Err::<(Seq<Shape>, bool), BuildFault>(
            fault_at(BuildErrorKind::MissingLeftOperand, ts[0]),
        ),
{
}

/// A walk that builds `p` from `i` without reaching an end-of-input token
/// takes the same steps over `p` followed by anything.
proof fn lemma_build_prefix(p: Seq<LexToken>, q: Seq<LexToken>, i: int, acc: Seq<Shape>, done: Seq<Shape>)
    requires
        0 <= i <= p.len(),
        build_from(p, i, acc) == Ok::<(Seq<Shape>, bool), BuildFault>((done, false)),
    ensures
        build_from(p + q, i, acc) == build_from(p + q, p.len() as int, done),
    decreases p.len() - i,
{
    let ts = p + q;
    if i < p.len() {
        assert(ts[i] == p[i]);
        if p[i].kind == TokenType::Plus {
            assert(i + 1 < p.len());
            assert(ts[i + 1] == p[i + 1]);
            let sh = classify(p[i + 1])->Matched_0;
            lemma_build_prefix(
                p,
                q,
                i + 2,
                acc.push(sh).push(Shape::Bin(crate::node::BinaryOp::Plus, acc.len() - 1, acc.len() as int)),
                done,
            );
        } else {
            match classify(p[i]) {
                Class::Matched(sh) => lemma_build_prefix(p, q, i + 1, acc.push(sh), done),
                Class::NoMatch => lemma_build_prefix(p, q, i + 1, acc, done),
                _ => {},
            }
        }
    } else {
        assert(acc == done);
    }
}

/// A `+` right before the end-of-input token fails for want of a right
/// operand, once the tokens before it build to at least one node without
/// reaching an end-of-input token of their own.
pub proof fn lemma_plus_before_end(p: Seq<LexToken>, plus: LexToken, end: LexToken)
    requires
        plus.kind == TokenType::Plus,
        end.kind == TokenType::EndFile,
        build(p) matches Ok((shapes, ended)) && !ended && shapes.len() > 0,
    ensures
        build(p + seq![plus, end]) == Err::<(Seq<Shape>, bool), BuildFault>(
            fault_at(BuildErrorKind::MissingRightOperandAtEnd, end),
        ),
{
    let q = seq![plus, end];
    let done = build(p)->Ok_0.0;
    lemma_build_prefix(p, q, 0, Seq::empty(), done);
    let ts = p + q;
    assert(ts[p.len() as int] == plus);
    assert(ts[p.len() + 1int] == end);
}

/// Two nodes agree when they are literals of the same kind and value, or
/// binary expressions with the same operator whose operands stand at the
/// same positions of their trees' key lists.
pub open spec fn nodes_agree(n1: Node, keys1: Seq<NodeKey>, n2: Node, keys2: Seq<NodeKey>) -> bool {
    match (n1, n2) {
        (Node::BinaryExpr(x), Node::BinaryExpr(y)) => x.op == y.op && exists|l: int, r: int|
            0 <= l < keys1.len() && l < keys2.len() && 0 <= r < keys1.len() && r < keys2.len()
                && x.ln == keys1[l] && y.ln == keys2[l] && x.rn == keys1[r] && y.rn == keys2[r],
        (
            Node::StringLitExpr(LiteralExpr { typ: LiteralType::String(x) }),
            Node::StringLitExpr(LiteralExpr { typ: LiteralType::String(y) }),
        ) => x@ == y@,
        (
            Node::NumberLitExpr(LiteralExpr { typ: LiteralType::Integer(x) }),
            Node::NumberLitExpr(LiteralExpr { typ: LiteralType::Integer(y) }),
        ) => x == y,
        (
            Node::NumberLitExpr(LiteralExpr { typ: LiteralType::Number(x) }),
            Node::NumberLitExpr(LiteralExpr { typ: LiteralType::Number(y) }),
        ) => x@ == y@,
        _ => false,
    }
}

/// Building is repeatable: two trees built from the same tokens hold the
/// same number of top-level nodes, and the nodes at each position agree,
/// whatever keys their arenas handed out.
pub proof fn lemma_build_repeatable(a: Ast, b: Ast, ts: Seq<LexToken>)
    requires
        a.wf(),
        b.wf(),
        build(ts) matches Ok((shapes, _)) && a.shapes@ == shapes && b.shapes@ == shapes,
    ensures
        a.keys@.len() == b.keys@.len(),
        forall|i: int|
            0 <= i < a.keys@.len() ==> nodes_agree(
                #[trigger] arena_of(a.tree)[a.keys@[i]],
                a.keys@,
                arena_of(b.tree)[b.keys@[i]],
                b.keys@,
            ),
{
    let sh = a.shapes@;
    assert forall|i: int| 0 <= i < a.keys@.len() implies nodes_agree(
        #[trigger] arena_of(a.tree)[a.keys@[i]],
        a.keys@,
        arena_of(b.tree)[b.keys@[i]],
        b.keys@,
    ) by {
        let ka = a.keys@[i];
        let kb = b.keys@[i];
        assert(node_fits(arena_of(a.tree)[ka], sh[i], a.keys@));
        assert(node_fits(arena_of(b.tree)[kb], sh[i], b.keys@));
        match sh[i] {
            Shape::Bin(op, l, r) => {
                let n1 = arena_of(a.tree)[ka];
                let n2 = arena_of(b.tree)[kb];
                assert(n1 is BinaryExpr && n2 is BinaryExpr);
                let x = n1->BinaryExpr_0;
                let y = n2->BinaryExpr_0;
                assert(x.ln == a.keys@[l] && y.ln == b.keys@[l] && x.rn == a.keys@[r] && y.rn
                    == b.keys@[r]);
            },
            _ => {},
        }
    }
}

} // verus!
