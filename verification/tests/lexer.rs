use latte::frontend::ast::{BinaryOperator, ExpressionKind, StatementKind};
use latte::frontend::parser::lexer::{tokenize, Sym, Token, Word};
use latte::frontend::parser::parse_tokens;

#[test]
fn tokens_have_byte_offsets() {
    let (toks, end) = tokenize("int x = 42; // c\n").unwrap();
    assert_eq!(end, 17);
    assert_eq!(toks.len(), 5);
    assert!(matches!(toks[0], (Token::Word { w: Word::Int }, 0)));
    assert!(matches!(&toks[1], (Token::Ident { name }, 4) if name == "x"));
    assert!(matches!(toks[2], (Token::Sym { s: Sym::Assign }, 6)));
    assert!(matches!(toks[3], (Token::IntLit { value: 42 }, 8)));
    assert!(matches!(toks[4], (Token::Sym { s: Sym::Semi }, 10)));
}

#[test]
fn words_are_longest() {
    let (toks, _) = tokenize("intx if2 while").unwrap();
    assert!(matches!(&toks[0].0, Token::Ident { name } if name == "intx"));
    assert!(matches!(&toks[1].0, Token::Ident { name } if name == "if2"));
    assert!(matches!(toks[2].0, Token::Word { w: Word::While }));
}

#[test]
fn two_character_symbols() {
    let (toks, _) = tokenize("a<=b&&c!=d++").unwrap();
    assert!(matches!(toks[1].0, Token::Sym { s: Sym::Le }));
    assert!(matches!(toks[3].0, Token::Sym { s: Sym::AndAnd }));
    assert!(matches!(toks[5].0, Token::Sym { s: Sym::Ne }));
    assert!(matches!(toks[7].0, Token::Sym { s: Sym::Incr }));
}

#[test]
fn string_literals_keep_quotes() {
    let (toks, _) = tokenize("\"a\\\"b\"").unwrap();
    assert_eq!(toks.len(), 1);
    assert!(matches!(&toks[0].0, Token::StrLit { text } if text == "\"a\\\"b\""));
}

#[test]
fn offsets_count_bytes() {
    let (toks, _) = tokenize("/* \u{e9} */ x").unwrap();
    assert_eq!(toks.len(), 1);
    assert_eq!(toks[0].1, 9);
}

#[test]
fn lexical_errors_are_located() {
    let e = tokenize("x = \"abc").err().unwrap();
    assert_eq!(e.meta.offset, 4);
    let e = tokenize("x = 2147483648;").err().unwrap();
    assert_eq!(e.meta.offset, 4);
    let e = tokenize("x $ y").err().unwrap();
    assert_eq!(e.meta.offset, 2);
    let e = tokenize("/* open").err().unwrap();
    assert_eq!(e.meta.offset, 0);
}

#[test]
fn largest_integer_is_accepted() {
    let (toks, _) = tokenize("2147483647").unwrap();
    assert!(matches!(toks[0].0, Token::IntLit { value: 2147483647 }));
}

#[test]
fn no_tokens_is_an_error_at_the_end() {
    let errors = parse_tokens(&Vec::new(), 7).err().unwrap();
    assert_eq!(errors[0].meta.offset, 7);
}

#[test]
fn expressions_follow_precedence() {
    let (toks, end) = tokenize("int main() { return 1 + 2 * 3 - 4; }").unwrap();
    let program = parse_tokens(&toks, end).unwrap();
    let main = &program.functions.entries[0].1;
    let stmt = &main.item.block.item.stmts[0];
    match &stmt.item {
        StatementKind::Return { expr: Some(e) } => match &e.item {
            ExpressionKind::Binary { left, op: BinaryOperator::Minus, right } => {
                assert!(matches!(right.item, ExpressionKind::LitInt { val: 4 }));
                match &left.item {
                    ExpressionKind::Binary { left: one, op: BinaryOperator::Plus, right: product } => {
                        assert!(matches!(one.item, ExpressionKind::LitInt { val: 1 }));
                        assert!(matches!(product.item, ExpressionKind::Binary { op: BinaryOperator::Times, .. }));
                    }
                    other => panic!("unexpected {:?}", other),
                }
            }
            other => panic!("unexpected {:?}", other),
        },
        other => panic!("unexpected {:?}", other),
    }
}
