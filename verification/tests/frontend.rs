use latte::frontend::ast::Type;
use latte::frontend::error::{FrontendErrorKind, type_to_text};
use latte::frontend::{check_code, process_code};

#[test]
fn good_program_is_accepted() {
    let source = "class Counter { int n; void inc() { n++; } int get() { return n; } }\n\
                  int main() {\n\
                    Counter c = new Counter;\n\
                    int i = 0;\n\
                    while (i < 10) { c.inc(); i++; }\n\
                    int[] a = new int[3];\n\
                    for (int x : a) { printInt(x); }\n\
                    if (c.get() == 10) printString(\"ok\"); else error();\n\
                    return 0;\n\
                  }";
    let result = process_code(String::from("good.lat"), String::from(source));
    assert!(result.is_ok(), "{:?}", result.err());
}

#[test]
fn empty_source_is_rejected() {
    let result = process_code(String::from("empty.lat"), String::new());
    assert!(result.is_err());
}

#[test]
fn type_error_is_reported_with_location() {
    let source = "int main() {\n  int x = true;\n  return 0;\n}";
    let errors = process_code(String::from("bad.lat"), String::from(source)).err().unwrap();
    assert!(errors.len() >= 1);
    match &errors[0].item {
        FrontendErrorKind::TypeError { expected, actual } => {
            assert_eq!(*expected, Type::Int);
            assert_eq!(*actual, Type::Bool);
        }
        other => panic!("unexpected error {:?}", other),
    }
    assert_eq!(errors[0].meta, "bad.lat:2:11");
}

#[test]
fn columns_count_characters() {
    let source = "int main() {\n  string s = \"\u{e9}\"; int x = true;\n  return 0;\n}";
    let errors = process_code(String::from("u.lat"), String::from(source)).err().unwrap();
    assert_eq!(errors[0].meta, "u.lat:2:27");
}

#[test]
fn missing_main_is_reported() {
    let errors = check_code(String::from("int f() { return 1; }")).err().unwrap();
    assert_eq!(errors.len(), 1);
    assert_eq!(
        errors[0].item.to_string(),
        "EnvironmentError: Missing function main with signature `int main()`"
    );
}

#[test]
fn missing_return_is_reported() {
    let result = check_code(String::from("int main() { int x = 1; }"));
    assert!(result.is_err());
}

#[test]
fn constant_false_condition_needs_no_return() {
    let result = check_code(String::from("int main() { if (true) return 0; }"));
    assert!(result.is_ok(), "{:?}", result.err());
}

#[test]
fn undeclared_variable_is_reported() {
    let result = check_code(String::from("int main() { x = 1; return 0; }"));
    assert!(result.is_err());
}

#[test]
fn error_kinds_are_written_with_prefix() {
    let parse = FrontendErrorKind::ParseError { message: String::from("m") };
    assert_eq!(parse.to_string(), "ParseError: m");
    let env = FrontendErrorKind::EnvError { message: String::from("m") };
    assert_eq!(env.to_string(), "EnvironmentError: m");
    let arg = FrontendErrorKind::ArgumentError { message: String::from("m") };
    assert_eq!(arg.to_string(), "ArgumentError: m");
    let sys = FrontendErrorKind::SystemError { message: String::from("m") };
    assert_eq!(sys.to_string(), "SystemError: m");
    let t = FrontendErrorKind::TypeError {
        expected: Type::Array { item_t: Box::new(Type::Int) },
        actual: Type::Class { ident: String::from("A") },
    };
    assert_eq!(t.to_string(), "TypeError: expected `Array { item_t: Int }`, got `Class { ident: \"A\" }`");
}

#[test]
fn type_text_matches_debug_form() {
    let types = vec![
        Type::Int,
        Type::Str,
        Type::Bool,
        Type::Void,
        Type::Null,
        Type::Class { ident: String::from("Point") },
        Type::Array { item_t: Box::new(Type::Str) },
        Type::Function { args: vec![Box::new(Type::Int), Box::new(Type::Bool)], ret: Box::new(Type::Void) },
        Type::Function { args: vec![], ret: Box::new(Type::Int) },
        Type::Reference { t: Box::new(Type::Int) },
        Type::Any,
        Type::Object,
        Type::Error,
    ];
    for t in types.iter() {
        assert_eq!(type_to_text(t), format!("{:?}", t));
    }
}

#[test]
fn short_sources_fit_codemap_positions() {
    assert!(latte::frontend::fits_codemap(&String::from("int main() { return 0; }")));
    assert!(latte::frontend::fits_codemap(&String::new()));
}

#[test]
fn builtin_function_names_are_rejected() {
    let source = "void printInt(int x) { return; }\nint main() { return 0; }";
    assert!(check_code(String::from(source)).is_err());
}

#[test]
fn loop_condition_must_be_boolean() {
    let source = "int main() {\n  while (1) {}\n  return 0;\n}";
    let errors = process_code(String::from("loop.lat"), String::from(source)).err().unwrap();
    match &errors[0].item {
        FrontendErrorKind::TypeError { expected, actual } => {
            assert_eq!(*expected, Type::Bool);
            assert_eq!(*actual, Type::Int);
        }
        other => panic!("unexpected error {:?}", other),
    }
    assert_eq!(errors[0].meta, "loop.lat:2:10");
}

#[test]
fn repeated_declaration_is_an_environment_error() {
    let source = "int main() {\n  int x;\n  int x;\n  return 0;\n}";
    let errors = process_code(String::from("dup.lat"), String::from(source)).err().unwrap();
    assert!(errors.iter().any(|e| matches!(e.item, FrontendErrorKind::EnvError { .. }) && e.meta.starts_with("dup.lat:3:")), "{:?}", errors);
}

#[test]
fn arrays_have_only_a_length() {
    let good = "int main() { int[] a = new int[2]; return a.length; }";
    assert!(check_code(String::from(good)).is_ok());
    let bad = "int main() { int[] a = new int[2]; return a.size; }";
    let errors = check_code(String::from(bad)).err().unwrap();
    assert!(matches!(errors[0].item, FrontendErrorKind::EnvError { .. }), "{:?}", errors);
}

#[test]
fn name_repeated_in_one_declaration_is_reported_there() {
    let source = "int main() {\n  int x, x;\n  return 0;\n}";
    let errors = process_code(String::from("dup2.lat"), String::from(source)).err().unwrap();
    assert!(errors.iter().any(|e| e.item == FrontendErrorKind::EnvError { message: String::from("Duplicated declaration of x") }
        && e.meta == "dup2.lat:2:10"), "{:?}", errors);
}

#[test]
fn operands_of_different_types_are_reported_at_the_right_one() {
    let source = "int main() {\n  int x = 1 + true;\n  return 0;\n}";
    let errors = process_code(String::from("op.lat"), String::from(source)).err().unwrap();
    assert_eq!(errors.len(), 1);
    assert_eq!(errors[0].item, FrontendErrorKind::TypeError { expected: Type::Int, actual: Type::Bool });
    assert_eq!(errors[0].meta, "op.lat:2:15");
}

#[test]
fn operator_on_wrong_type_is_reported_at_the_left_operand() {
    let source = "int main() {\n  boolean b = true - false;\n  return 0;\n}";
    let errors = process_code(String::from("op2.lat"), String::from(source)).err().unwrap();
    assert_eq!(errors.len(), 1);
    assert_eq!(errors[0].item, FrontendErrorKind::ArgumentError { message: String::from("Invalid argument type for operator") });
    assert_eq!(errors[0].meta, "op2.lat:2:15");
}

#[test]
fn undefined_variable_is_named_at_its_reference() {
    let source = "int main() {\n  return y;\n}";
    let errors = process_code(String::from("undef.lat"), String::from(source)).err().unwrap();
    assert_eq!(errors[0].item, FrontendErrorKind::EnvError { message: String::from("Undefined variable: y") });
    assert_eq!(errors[0].meta, "undef.lat:2:10");
}

#[test]
fn condition_of_if_must_be_boolean() {
    let source = "int main() {\n  if (1) return 1; else return 0;\n}";
    let errors = process_code(String::from("if.lat"), String::from(source)).err().unwrap();
    assert_eq!(errors[0].item, FrontendErrorKind::TypeError { expected: Type::Bool, actual: Type::Int });
    assert_eq!(errors[0].meta, "if.lat:2:7");
}

#[test]
fn checked_operands_keep_their_places() {
    let program = check_code(String::from("int main() { int x = 1; return x - 2; }")).ok().unwrap();
    let text = latte::backend::compile(program);
    assert!(text.contains("sub i32 1, 2"), "{}", text);
}

#[test]
fn each_repeated_argument_is_reported_in_order() {
    use_repeated_arguments();
}

fn use_repeated_arguments() {
    let arg = |name: &str, at: usize| latte::meta::Meta::new(latte::frontend::ast::ArgItem { t: Type::Int, ident: String::from(name) }, at);
    let args = vec![arg("a", 10), arg("b", 11), arg("a", 12), arg("a", 13)];
    let block = latte::meta::Meta::new(latte::frontend::ast::BlockItem { stmts: vec![] }, 0usize);
    let errors = latte::frontend::ast::FunctionItem::new(Type::Int, String::from("f"), args, block).err().unwrap();
    assert_eq!(errors.len(), 2);
    assert_eq!(errors[0].meta, 12);
    assert_eq!(errors[1].meta, 13);
    assert_eq!(errors[0].item, FrontendErrorKind::EnvError { message: String::from("Duplicate declaration of a") });
}
