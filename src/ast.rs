use vstd::prelude::*;
use crate::arena::{arena_get, arena_insert, arena_len, arena_of, new_arena, Arena};
use crate::lexer::views;
use crate::node::{BinaryExpr, BinaryOp, LiteralExpr, LiteralType, Node, NodeKey};
use crate::number::{number_value, read_number, NumberRead, NumberValue};
use crate::token::{LexToken, Token, TokenType};

verus! {

/// The most tokens a builder takes: the arena indexes its slots by `u32`.
pub const MAX_TOKENS: usize = 0xFFFF_FFF0;

/// The ways building can fail.
#[derive(Debug, Clone, Copy, PartialEq, Eq, Structural)]
pub enum BuildErrorKind {
    /// The builder was given no tokens at all.
    EmptyStream,
    /// A `+` with no node before it.
    MissingLeftOperand,
    /// A `+` followed by a token that is no operand.
    MissingRightOperand,
    /// A `+` followed by the end of input.
    MissingRightOperandAtEnd,
    /// A number token whose text is no valid literal.
    MalformedNumber,
}

/// A build failure: what went wrong, and the text and line of the token at
/// fault.
#[derive(Debug, Clone)]
pub struct BuildError {
    pub kind: BuildErrorKind,
    pub lexeme: String,
    pub line: usize,
}

pub struct BuildFault {
    pub kind: BuildErrorKind,
    pub text: Seq<char>,
    pub line: nat,
}

impl View for BuildError {
    type V = BuildFault;

    open spec fn view(&self) -> BuildFault {
        BuildFault { kind: self.kind, text: self.lexeme@, line: self.line as nat }
    }
}

/// A top-level node without its keys: a binary expression names its
/// operands by their positions in the ordered key list.
pub enum Shape {
    Str(Seq<char>),
    Num(NumberValue),
    Bin(BinaryOp, int, int),
}

/// How one token classifies on its own.
pub enum Class {
    Matched(Shape),
    NoMatch,
    End,
    Bad(BuildFault),
}

pub open spec fn fault_at(kind: BuildErrorKind, t: LexToken) -> BuildFault {
    BuildFault { kind, text: t.text, line: t.line }
}

/// A literal token gives a node, the sentinel ends the stream, any other
/// token matches nothing.
pub open spec fn classify(t: LexToken) -> Class {
    if t.kind == TokenType::NumberLit {
        match number_value(t.text) {
            Some(v) => Class::Matched(Shape::Num(v)),
            None => Class::Bad(fault_at(BuildErrorKind::MalformedNumber, t)),
        }
    } else if t.kind == TokenType::StringLit {
        Class::Matched(Shape::Str(t.text))
    } else if t.kind == TokenType::EndFile {
        Class::End
    } else {
        Class::NoMatch
    }
}

/// The shapes built from `ts` on from index `i`, after `acc`, and whether
/// the end-of-input token was reached; or the first failure. A `+` takes
/// the latest node as its left operand and the next token, which must be a
/// literal, as its right one.
pub open spec fn build_from(ts: Seq<LexToken>, i: int, acc: Seq<Shape>) -> Result<
    (Seq<Shape>, bool),
    BuildFault,
>
    decreases ts.len() - i,
{
    if i < 0 || i >= ts.len() {
        Ok((acc, false))
    } else if ts[i].kind == TokenType::Plus {
        if acc.len() == 0 {
            Err(fault_at(BuildErrorKind::MissingLeftOperand, ts[i]))
        } else if i + 1 >= ts.len() {
            Err(fault_at(BuildErrorKind::MissingRightOperandAtEnd, ts[i]))
        } else {
            match classify(ts[i + 1]) {
                Class::Matched(sh) => build_from(
                    ts,
                    i + 2,
                    acc.push(sh).push(Shape::Bin(BinaryOp::Plus, acc.len() - 1, acc.len() as int)),
                ),
                Class::End => Err(fault_at(BuildErrorKind::MissingRightOperandAtEnd, ts[i + 1])),
                Class::NoMatch => Err(fault_at(BuildErrorKind::MissingRightOperand, ts[i + 1])),
                Class::Bad(f) => Err(f),
            }
        }
    } else {
        match classify(ts[i]) {
            Class::Matched(sh) => build_from(ts, i + 1, acc.push(sh)),
            Class::End => Ok((acc, true)),
            Class::NoMatch => build_from(ts, i + 1, acc),
            Class::Bad(f) => Err(f),
        }
    }
}

/// The build of a whole token stream.
pub open spec fn build(ts: Seq<LexToken>) -> Result<(Seq<Shape>, bool), BuildFault> {
    build_from(ts, 0, Seq::empty())
}

/// `n` is the literal node that `sh` describes.
pub open spec fn literal_fits(n: Node, sh: Shape) -> bool {
    match sh {
        Shape::Str(t) => n matches Node::StringLitExpr(LiteralExpr { typ: LiteralType::String(x) })
            && x@ == t,
        Shape::Num(NumberValue::Int(v)) => n matches Node::NumberLitExpr(
            LiteralExpr { typ: LiteralType::Integer(x) },
        ) && x == v,
        Shape::Num(NumberValue::Float(t)) => n matches Node::NumberLitExpr(
            LiteralExpr { typ: LiteralType::Number(x) },
        ) && x@ == t,
        Shape::Bin(..) => false,
    }
}

/// `n` is the node that `sh` describes, its operands resolved through `keys`.
pub open spec fn node_fits(n: Node, sh: Shape, keys: Seq<NodeKey>) -> bool {
    match sh {
        Shape::Bin(op, l, r) => n matches Node::BinaryExpr(b) && b.op == op && 0 <= l < keys.len()
            && 0 <= r < keys.len() && b.ln == keys[l] && b.rn == keys[r],
        _ => literal_fits(n, sh),
    }
}

/// Operands of a binary shape come before it.
pub open spec fn operands_before(sh: Shape, i: int) -> bool {
    match sh {
        Shape::Bin(_, l, r) => l < i && r < i,
        _ => true,
    }
}

/// Result of classifying one token on its own.
enum Classified {
    Node(Node),
    NoMatch,
    End,
}

/// Result of one step of the builder.
enum AstRes {
    /// A node was built and stored under this key.
    Match(NodeKey),
    /// The token builds nothing.
    NoMatch,
    /// The end-of-input token.
    End,
}

/// A syntax tree under construction: the token stream with a cursor, the
/// arena, the root key, the ordered keys of the top-level nodes and the key
/// of the end marker once it is reached.
pub struct Ast {
    pub stream: Vec<Token>,
    pub tree: Arena,
    pub root: NodeKey,
    pub keys: Vec<NodeKey>,
    pub end: Option<NodeKey>,
    /// Index of the current token.
    pub cursor: usize,
    /// The shapes of the nodes under `keys`, in order.
    pub shapes: Ghost<Seq<Shape>>,
}

impl Ast {
    /// The token stream, as values.
    pub open spec fn tokens(&self) -> Seq<LexToken> {
        views(self.stream@)
    }

    /// Well-formed between steps: no more top-level nodes than tokens
    /// consumed.
    pub open spec fn wf(&self) -> bool {
        self.wf_within(0)
    }

    /// Well-formed, with up to `slack` top-level nodes more than tokens
    /// consumed (a `+` stores two nodes while the cursor is on its second
    /// token): the arena holds exactly the root, the top-level nodes and the
    /// end marker, under distinct keys, and each top-level node is the one
    /// its shape describes.
    pub open spec fn wf_within(&self, slack: int) -> bool {
        let m = arena_of(self.tree);
        let keys = self.keys@;
        &&& self.stream.len() < MAX_TOKENS
        &&& self.cursor <= self.stream.len()
        &&& keys.len() <= self.cursor + slack
        &&& self.shapes@.len() == keys.len()
        &&& m.dom().finite()
        &&& m.dom().len() == 1 + keys.len() + if self.end is Some { 1int } else { 0int }
        &&& m.contains_key(self.root)
        &&& m[self.root] == Node::RootNode
        &&& forall|i: int|
            0 <= i < keys.len() ==> {
                &&& m.contains_key(#[trigger] keys[i])
                &&& keys[i] != self.root
                &&& node_fits(m[keys[i]], self.shapes@[i], keys)
                &&& operands_before(self.shapes@[i], i)
            }
        &&& forall|i: int, j: int| 0 <= i < j < keys.len() ==> keys[i] != keys[j]
        &&& self.end matches Some(e) ==> {
            &&& m.contains_key(e)
            &&& m[e] == Node::EndNode
            &&& e != self.root
            &&& !keys.contains(e)
            &&& self.cursor == self.stream.len()
        }
    }

    /// A builder over `tokens` whose arena holds only the root; fails on an
    /// empty stream.
    pub fn new(tokens: Vec<Token>) -> (r: Result<Ast, BuildError>)
        requires
            tokens.len() < MAX_TOKENS,
        ensures
            tokens.len() == 0 <==> r is Err,
            r matches Err(e) ==> e.kind == BuildErrorKind::EmptyStream,
            r matches Ok(a) ==> {
                &&& a.wf()
                &&& a.stream@ == tokens@
                &&& a.cursor == 0
                &&& a.keys@.len() == 0
                &&& a.shapes@.len() == 0
                &&& a.end is None
                &&& arena_of(a.tree) == Map::<NodeKey, Node>::empty().insert(a.root, Node::RootNode)
            },
    {
        if tokens.len() == 0 {
            return Err(BuildError { kind: BuildErrorKind::EmptyStream, lexeme: String::new(), line: 0 });
        }
        let mut tree = new_arena();
        let root = arena_insert(&mut tree, Node::RootNode);
        let keys: Vec<NodeKey> = Vec::new();
        let ast = Ast { stream: tokens, tree, root, keys, end: None, cursor: 0, shapes: Ghost(Seq::empty()) };
        assert(arena_of(ast.tree).dom() =~= Set::empty().insert(root));
        Ok(ast)
    }

    /// The error of `kind` at the token under `i`.
    fn error_at(&self, i: usize, kind: BuildErrorKind) -> (e: BuildError)
        requires
            i < self.stream.len(),
        ensures
            e@ == fault_at(kind, self.tokens()[i as int]),
    {
        let t = &self.stream[i];
        BuildError { kind, lexeme: t.lexeme.clone(), line: t.line }
    }

    /// Stores a top-level node and records its key.
    fn push_node(&mut self, node: Node, sh: Ghost<Shape>) -> (k: NodeKey)
        requires
            old(self).wf_within(1),
            old(self).end is None,
            old(self).keys@.len() <= old(self).cursor,
            node_fits(node, sh@, old(self).keys@),
            operands_before(sh@, old(self).keys@.len() as int),
        ensures
            final(self).wf_within(1),
            final(self).keys@ == old(self).keys@.push(k),
            final(self).shapes@ == old(self).shapes@.push(sh@),
            final(self).stream == old(self).stream,
            final(self).root == old(self).root,
            final(self).cursor == old(self).cursor,
            final(self).end == old(self).end,
    {
        let ghost old_keys = self.keys@;
        let k = arena_insert(&mut self.tree, node);
        self.keys.push(k);
        self.shapes = Ghost(self.shapes@.push(sh@));
        proof {
            let m = arena_of(self.tree);
            let keys = self.keys@;
            assert forall|i: int| 0 <= i < keys.len() implies {
                &&& m.contains_key(#[trigger] keys[i])
                &&& keys[i] != self.root
                &&& node_fits(m[keys[i]], self.shapes@[i], keys)
                &&& operands_before(self.shapes@[i], i)
            } by {
                if i < old_keys.len() {
                    assert(keys[i] == old_keys[i]);
                    assert(old_keys.contains(old_keys[i]));
                }
            }
        }
        k
    }

    /// Classifies the token under `i` on its own, building the literal node
    /// it stands for.
    fn classify_token(&self, i: usize) -> (r: Result<Classified, BuildError>)
        requires
            i < self.stream.len(),
        ensures
            match classify(self.tokens()[i as int]) {
                Class::Matched(sh) => r matches Ok(Classified::Node(n)) && literal_fits(n, sh),
                Class::NoMatch => r matches Ok(Classified::NoMatch),
                Class::End => r matches Ok(Classified::End),
                Class::Bad(f) => r matches Err(e) && e@ == f,
            },
    {
        let t = &self.stream[i];
        match t.token_type {
            TokenType::NumberLit => match read_number(t.lexeme.as_str()) {
                Some(NumberRead::Int(v)) => Ok(
                    Classified::Node(
                        Node::NumberLitExpr(LiteralExpr { typ: LiteralType::Integer(v) }),
                    ),
                ),
                Some(NumberRead::Float) => Ok(
                    Classified::Node(
                        Node::NumberLitExpr(LiteralExpr { typ: LiteralType::Number(t.lexeme.clone()) }),
                    ),
                ),
                None => Err(self.error_at(i, BuildErrorKind::MalformedNumber)),
            },
            TokenType::StringLit => Ok(
                Classified::Node(
                    Node::StringLitExpr(LiteralExpr { typ: LiteralType::String(t.lexeme.clone()) }),
                ),
            ),
            TokenType::EndFile => Ok(Classified::End),
            _ => Ok(Classified::NoMatch),
        }
    }

    /// One step of the builder at the current token. A literal is stored; a
    /// `+` takes the latest node as its left operand, moves to the next token
    /// for its right one, and stores both that operand and itself.
    fn match_token(&mut self) -> (r: Result<AstRes, BuildError>)
        requires
            old(self).wf(),
            old(self).end is None,
            old(self).cursor < old(self).stream.len(),
        ensures
            final(self).stream == old(self).stream,
            final(self).root == old(self).root,
            ({
                let outcome = build_from(old(self).tokens(), old(self).cursor as int, old(self).shapes@);
                match r {
                    Ok(AstRes::Match(_)) => {
                        &&& final(self).wf_within(1)
                        &&& final(self).end is None
                        &&& old(self).cursor <= final(self).cursor < final(self).stream.len()
                        &&& old(self).keys@.is_prefix_of(final(self).keys@)
                        &&& outcome == build_from(old(self).tokens(), final(self).cursor + 1, final(self).shapes@)
                    },
                    Ok(AstRes::NoMatch) => {
                        &&& *final(self) == *old(self)
                        &&& outcome == build_from(old(self).tokens(), old(self).cursor + 1, old(self).shapes@)
                    },
                    Ok(AstRes::End) => {
                        &&& *final(self) == *old(self)
                        &&& outcome == Ok::<(Seq<Shape>, bool), BuildFault>((old(self).shapes@, true))
                    },
                    Err(e) => outcome == Err::<(Seq<Shape>, bool), BuildFault>(e@),
                }
            }),
    {
        let i = self.cursor;
        if self.stream[i].token_type == TokenType::Plus {
            let n = self.keys.len();
            if n == 0 {
                return Err(self.error_at(i, BuildErrorKind::MissingLeftOperand));
            }
            let left = self.keys[n - 1];
            if !self.advance() {
                return Err(self.error_at(i, BuildErrorKind::MissingRightOperandAtEnd));
            }
            let ghost right_class = classify(self.tokens()[i + 1]);
            match self.classify_token(i + 1) {
                Err(e) => Err(e),
                Ok(Classified::End) => Err(self.error_at(i + 1, BuildErrorKind::MissingRightOperandAtEnd)),
                Ok(Classified::NoMatch) => Err(self.error_at(i + 1, BuildErrorKind::MissingRightOperand)),
                Ok(Classified::Node(operand)) => {
                    let ghost sh = right_class->Matched_0;
                    let ghost old_keys = self.keys@;
                    let right = self.push_node(operand, Ghost(sh));
                    let bin = Node::BinaryExpr(BinaryExpr { op: BinaryOp::Plus, ln: left, rn: right });
                    let ghost bsh = Shape::Bin(BinaryOp::Plus, n - 1, n as int);
                    assert(self.keys@[n - 1] == old_keys[n - 1]);
                    let k = self.push_node(bin, Ghost(bsh));
                    Ok(AstRes::Match(k))
                },
            }
        } else {
            let ghost class = classify(self.tokens()[i as int]);
            match self.classify_token(i) {
                Err(e) => Err(e),
                Ok(Classified::End) => Ok(AstRes::End),
                Ok(Classified::NoMatch) => Ok(AstRes::NoMatch),
                Ok(Classified::Node(node)) => {
                    let k = self.push_node(node, Ghost(class->Matched_0));
                    Ok(AstRes::Match(k))
                },
            }
        }
    }

    /// Builds the tree from the current token on: each step's node is
    /// stored in order, the end-of-input token adds the end marker and
    /// stops, and the first failure aborts the build.
    pub fn parse(&mut self) -> (r: Result<(), BuildError>)
        requires
            old(self).wf(),
        ensures
            final(self).stream == old(self).stream,
            final(self).root == old(self).root,
            match build_from(old(self).tokens(), old(self).cursor as int, old(self).shapes@) {
                Ok((shapes, ended)) => {
                    &&& r is Ok
                    &&& final(self).wf()
                    &&& final(self).shapes@ == shapes
                    &&& old(self).keys@.is_prefix_of(final(self).keys@)
                    &&& (final(self).end is Some <==> (old(self).end is Some || ended))
                },
                Err(f) => r matches Err(e) && e@ == f,
            },
    {
        if self.end.is_some() {
            return Ok(());
        }
        let ghost ts = self.tokens();
        let ghost outcome = build_from(ts, self.cursor as int, self.shapes@);
        loop
            invariant
                self.wf(),
                self.end is None,
                self.stream == old(self).stream,
                self.root == old(self).root,
                ts == old(self).tokens(),
                old(self).end is None,
                old(self).keys@.is_prefix_of(self.keys@),
                outcome == build_from(old(self).tokens(), old(self).cursor as int, old(self).shapes@),
                outcome == build_from(ts, self.cursor as int, self.shapes@),
            decreases self.stream.len() - self.cursor,
        {
            if self.cursor >= self.stream.len() {
                return Ok(());
            }
            match self.match_token() {
                Err(e) => {
                    return Err(e);
                },
                Ok(AstRes::End) => {
                    let k = arena_insert(&mut self.tree, Node::EndNode);
                    self.end = Some(k);
                    self.cursor = self.stream.len();
                    return Ok(());
                },
                Ok(_) => {},
            }
            if !self.advance() {
                return Ok(());
            }
        }
    }

    /// The node stored under `k`, if `k` is a live key of this tree.
    pub fn node(&self, k: NodeKey) -> (r: Option<&Node>)
        ensures
            r == (if arena_of(self.tree).contains_key(k) {
                Some(&arena_of(self.tree)[k])
            } else {
                None
            }),
    {
        arena_get(&self.tree, k)
    }

    /// The number of nodes in the arena, the root and end marker included.
    pub fn node_count(&self) -> (r: usize)
        requires
            self.wf(),
        ensures
            r == 1 + self.keys@.len() + if self.end is Some { 1int } else { 0int },
    {
        arena_len(&self.tree)
    }

    /// Moves to the next token; false when the stream is exhausted.
    fn advance(&mut self) -> (r: bool)
        requires
            old(self).cursor < old(self).stream.len(),
        ensures
            final(self).cursor == old(self).cursor + 1,
            r == (final(self).cursor < final(self).stream.len()),
            final(self).stream == old(self).stream,
            final(self).tree == old(self).tree,
            final(self).root == old(self).root,
            final(self).keys == old(self).keys,
            final(self).shapes == old(self).shapes,
            final(self).end == old(self).end,
    {
        self.cursor = self.cursor + 1;
        self.cursor < self.stream.len()
    }
}

} // verus!
