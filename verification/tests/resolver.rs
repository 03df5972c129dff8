use nexa::ast::{Declaration, Program};
use nexa::lexer::Lexer;
use nexa::parser::Parser;
use nexa::resolver::{MemSourceProvider, ResolveError, Resolver};

fn parse_entry(source: &str) -> Program {
    let tokens = Lexer::new(source).tokenize().unwrap();
    Parser::new(tokens).parse().unwrap()
}

fn make_resolver(root: &str, provider: MemSourceProvider) -> Resolver {
    Resolver::new(root, "", "core", provider)
}

fn class_names(p: &Program) -> Vec<String> {
    p.declarations
        .iter()
        .filter_map(|d| if let Declaration::Class(c) = d { Some(c.name.clone()) } else { None })
        .collect()
}

#[test]
fn resolve_no_imports_returns_entry_declarations() {
    let source = r#"app App {
  server { port: 3000; }
  public window HomePage {
    public render() => Component {
      return Page { Text("Hi") };
    }
  }
  route "/" => HomePage;
}"#;
    let entry = parse_entry(source);
    let decl_count = entry.declarations.len();

    let provider = MemSourceProvider::new();
    let mut resolver = make_resolver("/src/main", provider);
    let resolved = resolver.resolve(&entry, "/src/main/app.nx").unwrap();

    assert_eq!(resolved.declarations.len(), decl_count);
}

#[test]
fn resolve_single_import_from_memory() {
    let lib_source = r#"class User {
  public String name;
}"#;
    let entry_source = r#"import models.User;
app App {
  server { port: 3000; }
  public window HomePage {
    public render() => Component {
      return Page { Text("Hi") };
    }
  }
  route "/" => HomePage;
}"#;
    let entry = parse_entry(entry_source);

    let mut provider = MemSourceProvider::new();
    provider.add("/src/main/User.nx", lib_source);

    let mut resolver = make_resolver("/src/main", provider);
    let resolved = resolver.resolve(&entry, "/src/main/app.nx").unwrap();

    let has_user = resolved
        .declarations
        .iter()
        .any(|d| matches!(d, Declaration::Class(c) if c.name == "User"));
    assert!(has_user, "resolved program should contain imported User class");
}

#[test]
fn resolve_missing_import_returns_not_found() {
    let entry_source = r#"import missing.Module;
app App {
  server { port: 3000; }
  public window HomePage {
    public render() => Component {
      return Page { Text("Hi") };
    }
  }
  route "/" => HomePage;
}"#;
    let entry = parse_entry(entry_source);
    let provider = MemSourceProvider::new();
    let mut resolver = make_resolver("/src", provider);
    let err = resolver.resolve(&entry, "/src/main/app.nx").unwrap_err();
    assert!(matches!(err, ResolveError::NotFound(..)));
}

#[test]
fn resolve_cached_import_not_reparsed() {
    let lib_source = r#"class Shared { public String id; }"#;
    let entry_source = r#"import Shared;
import Shared;
app App {
  server { port: 3000; }
  public window HomePage {
    public render() => Component {
      return Page { Text("Hi") };
    }
  }
  route "/" => HomePage;
}"#;
    let entry = parse_entry(entry_source);
    let mut provider = MemSourceProvider::new();
    provider.add("/src/main/Shared.nx", lib_source);

    let mut resolver = make_resolver("/src/main", provider);
    let resolved = resolver.resolve(&entry, "/src/main/app.nx").unwrap();

    let has_shared = resolved
        .declarations
        .iter()
        .any(|d| matches!(d, Declaration::Class(c) if c.name == "Shared"));
    assert!(has_shared, "resolved program should contain the imported Shared class");
}

#[test]
fn resolve_cross_module_import() {
    let button_src = r#"class Button { public String label; }"#;
    let entry_source = r#"import core.Button;
app App {
  window Home { }
  route "/" => Home;
}"#;
    let entry = parse_entry(entry_source);

    let mut provider = MemSourceProvider::new();
    provider.add("/project/modules/core/src/main/Button.nx", button_src);

    let mut resolver = Resolver::new("/project/modules/api/src/main", "/project", "api", provider);
    let resolved = resolver.resolve(&entry, "/project/modules/api/src/main/app.nx").unwrap();

    let has_button = resolved
        .declarations
        .iter()
        .any(|d| matches!(d, Declaration::Class(c) if c.name == "Button"));
    assert!(has_button, "cross-module Button should be resolved");
}

#[test]
fn resolve_transitive_imports() {
    let c_src = r#"class C { }"#;
    let b_src = r#"import C;
class B { }"#;
    let entry_source = r#"import B;
app App { window W { } route "/" => W; }"#;

    let entry = parse_entry(entry_source);
    let mut provider = MemSourceProvider::new();
    provider.add("/src/main/B.nx", b_src);
    provider.add("/src/main/C.nx", c_src);

    let mut resolver = make_resolver("/src/main", provider);
    let resolved = resolver.resolve(&entry, "/src/main/app.nx").unwrap();

    let names = class_names(&resolved);
    assert!(names.contains(&"B".to_string()), "B should be in resolved declarations");
    assert!(names.contains(&"C".to_string()), "C should be in resolved declarations");
}

#[test]
fn resolve_circular_import_returns_error() {
    let cycle_src = r#"import Cycle;
class Cycle { }"#;
    let cycle_entry = parse_entry("import Cycle; app App { window W { } route \"/\" => W; }");
    let mut p2 = MemSourceProvider::new();
    p2.add("/src/main/Cycle.nx", cycle_src);
    let mut r2 = make_resolver("/src/main", p2);
    let err = r2.resolve(&cycle_entry, "/src/main/app.nx").unwrap_err();
    assert!(matches!(err, ResolveError::Cycle(_)));
}

#[test]
fn imported_declarations_come_first_in_import_order() {
    let mut provider = MemSourceProvider::new();
    provider.add("/src/main/B.nx", "import C;\nclass B { }");
    provider.add("/src/main/C.nx", "class C { }");
    provider.add("/src/main/D.nx", "class D { }");
    let entry = parse_entry("import B; import D; app App { window W { } route \"/\" => W; }");
    let mut resolver = make_resolver("/src/main", provider);
    let resolved = resolver.resolve(&entry, "/src/main/app.nx").unwrap();
    assert_eq!(class_names(&resolved), vec!["C", "B", "D", "W"]);
    assert_eq!(resolved.imports.len(), 2);
    assert_eq!(resolved.routes.len(), 1);
}

#[test]
fn not_found_lists_the_places_tried() {
    let entry = parse_entry("import a.Thing; app App { window W { } route \"/\" => W; }");
    let mut resolver = make_resolver("/src/main", MemSourceProvider::new());
    match resolver.resolve(&entry, "/src/main/app.nx").unwrap_err() {
        ResolveError::NotFound(imp, tried) => {
            assert_eq!(imp, "a.Thing");
            assert_eq!(tried, "tried: /src/main/Thing.nx, /src/main/a/Thing.nx (module lib, project lib, cross-module)");
        }
        other => panic!("expected NotFound, got {:?}", other),
    }
}

#[test]
fn lex_and_parse_errors_name_the_file() {
    let mut provider = MemSourceProvider::new();
    provider.add("/src/main/Bad.nx", "class Bad { # }");
    provider.add("/src/main/Worse.nx", "class { }");
    let entry = parse_entry("import Bad; app App { window W { } route \"/\" => W; }");
    let mut resolver = make_resolver("/src/main", provider);
    match resolver.resolve(&entry, "/src/main/app.nx").unwrap_err() {
        ResolveError::Lex(path, _) => assert_eq!(path, "/src/main/Bad.nx"),
        other => panic!("expected Lex, got {:?}", other),
    }
    let entry = parse_entry("import Worse; app App { window W { } route \"/\" => W; }");
    let mut provider = MemSourceProvider::new();
    provider.add("/src/main/Worse.nx", "class { }");
    let mut resolver = make_resolver("/src/main", provider);
    match resolver.resolve(&entry, "/src/main/app.nx").unwrap_err() {
        ResolveError::Parse(path, _) => assert_eq!(path, "/src/main/Worse.nx"),
        other => panic!("expected Parse, got {:?}", other),
    }
}

#[test]
fn adding_a_path_again_replaces_its_source() {
    let mut provider = MemSourceProvider::new();
    provider.add("/src/main/X.nx", "class Old { }");
    provider.add("/src/main/X.nx", "class New { }");
    let entry = parse_entry("import X; app App { window W { } route \"/\" => W; }");
    let mut resolver = make_resolver("/src/main", provider);
    let resolved = resolver.resolve(&entry, "/src/main/app.nx").unwrap();
    assert_eq!(class_names(&resolved), vec!["New", "W"]);
}

#[test]
fn a_loaded_import_is_served_from_the_cache() {
    let mut provider = MemSourceProvider::new();
    provider.add("/src/main/Shared.nx", "class Shared { }");
    let entry = parse_entry("import Shared; import Shared; app App { window W { } route \"/\" => W; }");
    let mut resolver = make_resolver("/src/main", provider);
    let first = resolver.resolve(&entry, "/src/main/app.nx").unwrap();
    assert_eq!(class_names(&first), vec!["Shared", "Shared", "W"]);
    let again = resolver.resolve(&entry, "/src/main/app.nx").unwrap();
    assert_eq!(class_names(&again), vec!["Shared", "Shared", "W"]);
}

#[test]
fn provider_reads_back_what_was_added() {
    let mut provider = MemSourceProvider::new();
    let p: Vec<char> = "/src/main/A.nx".chars().collect();
    let q: Vec<char> = "/src/main/B.nx".chars().collect();
    assert!(!provider.has_source(&p));
    assert_eq!(provider.read_source(&p), None);
    assert_eq!(provider.canonicalize(&p), None);
    provider.add("/src/main/A.nx", "class A { }");
    assert!(provider.has_source(&p));
    assert!(!provider.has_source(&q));
    assert_eq!(provider.read_source(&p), Some("class A { }".to_string()));
    assert_eq!(provider.canonicalize(&p), Some(p.clone()));
    assert_eq!(provider.read_source(&q), None);
    provider.add("/src/main/A.nx", "class A2 { }");
    assert_eq!(provider.read_source(&p), Some("class A2 { }".to_string()));
}

#[test]
fn resolution_keeps_the_entry_fields_and_ends_with_its_declarations() {
    let mut provider = MemSourceProvider::new();
    provider.add("/src/main/Lib.nx", "class Lib { }");
    let entry = parse_entry("package demo; import Lib; app App { server { port: 8080; } window W { } route \"/\" => W; }");
    let mut resolver = make_resolver("/src/main", provider);
    let resolved = resolver.resolve(&entry, "/src/main/app.nx").unwrap();
    assert_eq!(resolved.name, entry.name);
    assert_eq!(resolved.package, entry.package);
    assert_eq!(resolved.imports.len(), entry.imports.len());
    assert_eq!(resolved.routes.len(), entry.routes.len());
    assert_eq!(class_names(&resolved), vec!["Lib", "W"]);
}
