use latte::frontend::ast::StatementKind;
use latte::frontend::parser::parse_program;
use latte::frontend::preprocessor::{optimize_constants, organize_blocks};

#[test]
fn constant_false_condition_is_removed() {
    let program = parse_program(String::from("int main() { if (false) return 1; return 0; }")).unwrap();
    let optimized = optimize_constants(program).unwrap();
    let stmts = &optimized.functions.entries[0].1.item.block.item.stmts;
    assert_eq!(stmts.len(), 1);
    assert!(matches!(stmts[0].item, StatementKind::Return { .. }));
}

#[test]
fn constant_true_condition_keeps_its_branch() {
    let program = parse_program(String::from("int main() { if (true) return 1; else return 2; }")).unwrap();
    let optimized = optimize_constants(program).unwrap();
    let stmts = &optimized.functions.entries[0].1.item.block.item.stmts;
    assert_eq!(stmts.len(), 1);
    assert!(matches!(stmts[0].item, StatementKind::Return { .. }));
}

#[test]
fn statements_after_return_are_dropped() {
    let program = parse_program(String::from("int main() { return 0; printInt(1); }")).unwrap();
    let organized = organize_blocks(program).unwrap();
    let stmts = &organized.functions.entries[0].1.item.block.item.stmts;
    assert_eq!(stmts.len(), 1);
    assert!(matches!(stmts[0].item, StatementKind::Return { expr: Some(_) }));
}

#[test]
fn void_function_gets_a_return() {
    let program = parse_program(String::from("void f() { printInt(1); } int main() { return 0; }")).unwrap();
    let organized = organize_blocks(program).unwrap();
    let stmts = &organized.functions.entries[0].1.item.block.item.stmts;
    assert_eq!(stmts.len(), 1);
    match &stmts[0].item {
        StatementKind::Block { block } => {
            assert_eq!(block.item.stmts.len(), 2);
            assert!(matches!(block.item.stmts[0].item, StatementKind::Expr { .. }));
            assert!(matches!(block.item.stmts[1].item, StatementKind::Return { expr: None }));
        }
        other => panic!("unexpected {:?}", other),
    }
}
