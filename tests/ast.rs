use frontend::{
    Ast, BinaryOp, BuildErrorKind, Lexer, LiteralExpr, LiteralType, Node, NodeKey, Token,
    TokenType,
};

fn tok(kind: TokenType, lexeme: &str) -> Token {
    Token::new(kind, lexeme.to_string(), 1)
}

fn num(text: &str) -> Token {
    tok(TokenType::NumberLit, text)
}

fn plus() -> Token {
    tok(TokenType::Plus, "+")
}

fn int_node(v: i32) -> Node {
    Node::NumberLitExpr(LiteralExpr { typ: LiteralType::Integer(v) })
}

fn binary(ast: &Ast, k: NodeKey) -> (BinaryOp, NodeKey, NodeKey) {
    match ast.node(k) {
        Some(Node::BinaryExpr(b)) => (b.op, b.ln, b.rn),
        other => panic!("not a binary node: {:?}", other),
    }
}

fn built(tokens: Vec<Token>) -> Ast {
    let mut ast = Ast::new(tokens).unwrap();
    ast.parse().unwrap();
    ast
}

#[test]
fn one_plus_two() {
    let ast = built(vec![num("1"), plus(), num("2"), Token::end(1)]);
    assert_eq!(ast.node(ast.root), Some(&Node::RootNode));
    assert_eq!(ast.keys.len(), 3);
    let (op, l, r) = binary(&ast, ast.keys[2]);
    assert_eq!(op, BinaryOp::Plus);
    assert_eq!(l, ast.keys[0]);
    assert_eq!(r, ast.keys[1]);
    assert_eq!(ast.node(l), Some(&int_node(1)));
    assert_eq!(ast.node(r), Some(&int_node(2)));
    let end = ast.end.unwrap();
    assert_eq!(ast.node(end), Some(&Node::EndNode));
    assert_eq!(ast.node_count(), 5);
}

#[test]
fn leading_plus_misses_its_left_operand() {
    let mut ast = Ast::new(vec![plus(), num("1"), Token::end(1)]).unwrap();
    let e = ast.parse().unwrap_err();
    assert_eq!(e.kind, BuildErrorKind::MissingLeftOperand);
    assert_eq!(e.lexeme, "+");
    assert_eq!(ast.node_count(), 1);
    assert!(ast.keys.is_empty());
}

#[test]
fn plus_before_end_misses_its_right_operand() {
    let mut ast = Ast::new(vec![num("1"), plus(), Token::end(4)]).unwrap();
    let e = ast.parse().unwrap_err();
    assert_eq!(e.kind, BuildErrorKind::MissingRightOperandAtEnd);
    assert_eq!(e.lexeme, "<-- END OF FILE -->");
    assert_eq!(e.line, 4);
}

#[test]
fn plus_at_end_of_stream_misses_its_right_operand() {
    let mut ast = Ast::new(vec![num("1"), plus()]).unwrap();
    let e = ast.parse().unwrap_err();
    assert_eq!(e.kind, BuildErrorKind::MissingRightOperandAtEnd);
    assert_eq!(e.lexeme, "+");
}

#[test]
fn operator_is_no_right_operand() {
    let mut ast = Ast::new(vec![num("1"), plus(), tok(TokenType::Minus, "-"), Token::end(1)]).unwrap();
    let e = ast.parse().unwrap_err();
    assert_eq!(e.kind, BuildErrorKind::MissingRightOperand);
    assert_eq!(e.lexeme, "-");
}

#[test]
fn empty_stream_is_refused() {
    let e = Ast::new(Vec::new()).err().unwrap();
    assert_eq!(e.kind, BuildErrorKind::EmptyStream);
}

#[test]
fn malformed_number_token() {
    let mut ast = Ast::new(vec![num("12a"), Token::end(1)]).unwrap();
    let e = ast.parse().unwrap_err();
    assert_eq!(e.kind, BuildErrorKind::MalformedNumber);
    assert_eq!(e.lexeme, "12a");
}

#[test]
fn oversized_integer_token() {
    let mut ast = Ast::new(vec![num("4294967296"), Token::end(1)]).unwrap();
    let e = ast.parse().unwrap_err();
    assert_eq!(e.kind, BuildErrorKind::MalformedNumber);
}

#[test]
fn float_and_string_literals() {
    let ast = built(vec![num("2.5"), tok(TokenType::StringLit, "hi"), Token::end(1)]);
    assert_eq!(
        ast.node(ast.keys[0]),
        Some(&Node::NumberLitExpr(LiteralExpr { typ: LiteralType::Number("2.5".to_string()) }))
    );
    assert_eq!(
        ast.node(ast.keys[1]),
        Some(&Node::StringLitExpr(LiteralExpr { typ: LiteralType::String("hi".to_string()) }))
    );
    assert_eq!(ast.node_count(), 4);
}

#[test]
fn additions_fold_to_the_left() {
    let ast = built(vec![num("1"), plus(), num("2"), plus(), num("3"), Token::end(1)]);
    assert_eq!(ast.keys.len(), 5);
    let (_, l, r) = binary(&ast, ast.keys[4]);
    assert_eq!(l, ast.keys[2]);
    assert_eq!(r, ast.keys[3]);
    assert_eq!(ast.node(r), Some(&int_node(3)));
}

#[test]
fn left_operand_is_the_latest_node() {
    let ast = built(vec![
        num("1"),
        tok(TokenType::NewLn, "newline"),
        tok(TokenType::Cout, "cout"),
        plus(),
        num("2"),
        Token::end(2),
    ]);
    let (_, l, _) = binary(&ast, ast.keys[2]);
    assert_eq!(l, ast.keys[0]);
}

#[test]
fn stream_without_sentinel_stops_at_its_end() {
    let ast = built(vec![num("7")]);
    assert_eq!(ast.keys.len(), 1);
    assert!(ast.end.is_none());
    assert_eq!(ast.node_count(), 2);
}

#[test]
fn tokens_after_the_sentinel_are_ignored() {
    let ast = built(vec![num("1"), Token::end(1), num("2")]);
    assert_eq!(ast.keys.len(), 1);
    assert!(ast.end.is_some());
}

#[test]
fn building_twice_gives_the_same_tree() {
    let tokens = vec![num("1"), plus(), num("2"), tok(TokenType::StringLit, "s"), Token::end(1)];
    let a = built(tokens.clone());
    let b = built(tokens);
    assert_eq!(a.keys.len(), b.keys.len());
    for i in 0..a.keys.len() {
        match (a.node(a.keys[i]).unwrap(), b.node(b.keys[i]).unwrap()) {
            (Node::BinaryExpr(x), Node::BinaryExpr(y)) => {
                assert_eq!(x.op, y.op);
                let pa = a.keys.iter().position(|k| *k == x.ln);
                let pb = b.keys.iter().position(|k| *k == y.ln);
                assert_eq!(pa, pb);
            }
            (x, y) => assert_eq!(x, y),
        }
    }
}

#[test]
fn tokenize_then_build() {
    let text = "1 + 2";
    let mut lexer = Lexer::new(text.chars().collect(), vec![text.to_string()]);
    lexer.scan().unwrap();
    let ast = built(lexer.tokens);
    let (op, l, r) = binary(&ast, ast.keys[2]);
    assert_eq!(op, BinaryOp::Plus);
    assert_eq!(ast.node(l), Some(&int_node(1)));
    assert_eq!(ast.node(r), Some(&int_node(2)));
}
