use nexa::ast::Declaration;
use nexa::compile::{compile_source_to_program, compile_source_to_wat, CompileErrorKind};
use nexa::lexer::LexError;
use nexa::parser::ParseError;
use nexa::resolver::{MemSourceProvider, ResolveError};
use nexa::semantic::SemanticError;

const APP: &str = r#"app App {
  server { port: 3000; }
  public window HomePage {
    public render() => Component {
      return Page { Text("Hi") };
    }
  }
  route "/" => HomePage;
}"#;

fn compile(source: &str, files: MemSourceProvider) -> Result<String, nexa::compile::CompileError> {
    compile_source_to_wat(source, files, "/src/main/app.nx", "/src/main", "/", "main")
}

#[test]
fn app_source_compiles_to_a_module_with_a_start_function() {
    let wat = compile(APP, MemSourceProvider::new()).ok().unwrap();
    assert!(wat.contains("(module"));
    assert_eq!(wat.lines().filter(|l| !l.trim().is_empty()).last(), Some(")"));
    assert!(wat.contains("HomePage"));
    assert!(wat.contains("_nexa_start"));
    assert!(wat.contains("\"Hi\""));
}

#[test]
fn imported_classes_are_compiled_too() {
    let mut files = MemSourceProvider::new();
    files.add("/src/main/User.nx", "class User { public String name; }");
    let source = format!("import User;\n{APP}");
    let wat = compile(&source, files).ok().unwrap();
    assert!(wat.contains("User"));
}

#[test]
fn lex_error_is_reported_with_the_source() {
    let e = compile("app App { # }", MemSourceProvider::new()).err().unwrap();
    assert!(matches!(e.kind, CompileErrorKind::Lex(LexError::UnexpectedChar('#', _))));
    assert_eq!(e.file.as_deref(), Some("/src/main/app.nx"));
    assert_eq!(e.source.as_deref(), Some("app App { # }"));
    assert_eq!(e.span.col, 11);
}

#[test]
fn parse_error_is_reported_with_the_source() {
    let e = compile("app { }", MemSourceProvider::new()).err().unwrap();
    assert!(matches!(e.kind, CompileErrorKind::Parse(ParseError::Expected(..))));
    assert_eq!(e.source.as_deref(), Some("app { }"));
}

#[test]
fn missing_import_is_a_resolve_error_without_source() {
    let source = format!("import missing.Thing;\n{APP}");
    let e = compile(&source, MemSourceProvider::new()).err().unwrap();
    assert!(matches!(e.kind, CompileErrorKind::Resolve(ResolveError::NotFound(..))));
    assert!(e.span.is_dummy());
    assert_eq!(e.source, None);
}

#[test]
fn semantic_error_is_reported_with_the_source() {
    let source = "app App { window W { } route \"/\" => Nowhere; }";
    let e = compile(source, MemSourceProvider::new()).err().unwrap();
    assert!(matches!(e.kind, CompileErrorKind::Semantic(SemanticError::UndefinedType { .. })));
    assert_eq!(e.source.as_deref(), Some(source));
}

#[test]
fn program_for_a_bundle_is_resolved_and_optimized() {
    let mut files = MemSourceProvider::new();
    files.add("/src/main/Unused.nx", "class Unused { }");
    let source = format!("import Unused;\n{APP}");
    let p = compile_source_to_program(&source, files, "/src/main/app.nx", "/src/main", "/", "main").ok().unwrap();
    assert_eq!(p.name, "App");
    assert_eq!(p.routes.len(), 1);
    let names: Vec<String> = p
        .declarations
        .iter()
        .filter_map(|d| if let Declaration::Class(c) = d { Some(c.name.clone()) } else { None })
        .collect();
    // dead-code removal drops the class that no route reaches
    assert_eq!(names, vec!["HomePage"]);
}

#[test]
fn program_for_a_bundle_reports_the_first_error() {
    let e = compile_source_to_program("app App {", MemSourceProvider::new(), "/src/main/app.nx", "/src/main", "/", "main")
        .err()
        .unwrap();
    assert!(matches!(e.kind, CompileErrorKind::Parse(_)));
    assert_eq!(e.file.as_deref(), Some("/src/main/app.nx"));
}
