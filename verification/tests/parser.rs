use latte::frontend::error::FrontendErrorKind;
use latte::frontend::parser::parse_program;

#[test]
fn empty_program_fails() -> Result<(), String> {
    let result = parse_program(String::from(""));
    match result {
        Ok(_) => Err(String::from("Empty program should not be parsed")),
        Err(errors) => match errors.get(0) {
            Some(e) => {
                if e.get_meta().offset == 0usize {
                    Ok(())
                } else {
                    Err(format!("Invalid error location, expected {} got {:?}", 0, e.get_meta()))
                }
            }
            None => Err(String::from("Missing ParseError in parsing results")),
        },
    }
}

#[test]
fn minimal_program_is_parsed() {
    let program = parse_program(String::from("int main() { return 0; }")).unwrap();
    assert_eq!(program.functions.entries.len(), 1);
    assert_eq!(program.functions.entries[0].0, "main");
    assert_eq!(program.classes.entries.len(), 0);
}

#[test]
fn comments_are_skipped() {
    let source = "// line comment\n# hash comment\n/* block\ncomment */ int main() { return 0; }";
    let program = parse_program(String::from(source)).unwrap();
    assert_eq!(program.functions.entries.len(), 1);
}

#[test]
fn classes_and_functions_are_parsed() {
    let source = "class A { int x; int get() { return self.x; } }\n\
                  class B extends A { boolean b; }\n\
                  void f(int a, string s) { printString(s); }\n\
                  int main() { A a = new A; f(1, \"x\"); return a.get(); }";
    let program = parse_program(String::from(source)).unwrap();
    assert_eq!(program.classes.entries.len(), 2);
    assert_eq!(program.functions.entries.len(), 2);
    assert_eq!(program.classes.entries[1].1.item.parent, Some(String::from("A")));
}

#[test]
fn syntax_error_is_located() {
    let result = parse_program(String::from("int main() { return 0 }"));
    let errors = result.err().unwrap();
    assert!(errors.len() >= 1);
    assert_eq!(errors[0].get_meta().offset, 22);
    assert!(matches!(errors[0].item, FrontendErrorKind::ParseError { .. }));
}

#[test]
fn duplicate_functions_are_reported() {
    let result = parse_program(String::from("int f() { return 1; } int f() { return 2; } int main() { return 0; }"));
    let errors = result.err().unwrap();
    assert!(matches!(errors[0].item, FrontendErrorKind::EnvError { .. }));
}

#[test]
fn duplicate_function_names_are_rejected() {
    let result = parse_program(String::from("int f() { return 0; } int f() { return 1; } int main() { return 0; }"));
    assert!(result.is_err());
}
