use nexa::cli::{parse_app_type, parse_platform, to_pascal_case, AppType, Platform};

#[test]
fn commands_pascal_case_conversion() {
    assert_eq!(to_pascal_case("my-app"), "MyApp");
    assert_eq!(to_pascal_case("hello_world"), "HelloWorld");
    assert_eq!(to_pascal_case("my-cool-app"), "MyCoolApp");
    assert_eq!(to_pascal_case("app"), "App");
    assert_eq!(to_pascal_case("a-b-c"), "ABC");
    assert_eq!(to_pascal_case(""), "");
}

#[test]
fn init_pascal_case_conversion() {
    assert_eq!(to_pascal_case("my-app"), "MyApp");
    assert_eq!(to_pascal_case("hello_world"), "HelloWorld");
    assert_eq!(to_pascal_case("my-cool-app"), "MyCoolApp");
    assert_eq!(to_pascal_case("app"), "App");
    assert_eq!(to_pascal_case("a-b-c"), "ABC");
    assert_eq!(to_pascal_case(""), "");
}

#[test]
fn parse_app_type_known_variants() {
    assert_eq!(parse_app_type("backend"), AppType::Backend);
    assert_eq!(parse_app_type("cli"), AppType::Cli);
    assert_eq!(parse_app_type("desktop"), AppType::Desktop);
    assert_eq!(parse_app_type("package"), AppType::Package);
    assert_eq!(parse_app_type("web"), AppType::Web);
}

#[test]
fn parse_app_type_unknown_falls_back_to_web() {
    assert_eq!(parse_app_type("unknown"), AppType::Web);
    assert_eq!(parse_app_type(""), AppType::Web);
}

#[test]
fn parse_platform_all_variants() {
    assert_eq!(parse_platform("browser"), Some(Platform::Browser));
    assert_eq!(parse_platform("native"), Some(Platform::Native));
    assert_eq!(parse_platform("native-linux"), Some(Platform::NativeLinux));
    assert_eq!(parse_platform("native-macos"), Some(Platform::NativeMacos));
    assert_eq!(parse_platform("native-windows"), Some(Platform::NativeWindows));
    assert_eq!(parse_platform("macos"), Some(Platform::Macos));
    assert_eq!(parse_platform("windows"), Some(Platform::Windows));
    assert_eq!(parse_platform("linux"), Some(Platform::Linux));
    assert_eq!(parse_platform("ios"), Some(Platform::Ios));
    assert_eq!(parse_platform("android"), Some(Platform::Android));
}

#[test]
fn parse_platform_unknown_returns_none() {
    assert_eq!(parse_platform("unknown"), None);
    assert_eq!(parse_platform(""), None);
}

#[test]
fn pascal_case_keeps_inner_capitals_and_skips_empty_parts() {
    assert_eq!(to_pascal_case("myApp"), "MyApp");
    assert_eq!(to_pascal_case("--a__b"), "AB");
    assert_eq!(to_pascal_case("HelloWorld"), "HelloWorld");
}

use nexa::cli::{app_nx, project_json, valid_project_name};

#[test]
fn project_names() {
    assert!(valid_project_name("my-app_2"));
    assert!(valid_project_name("Ünï"));
    assert!(valid_project_name(""));
    assert!(!valid_project_name("my app"));
    assert!(!valid_project_name("a.b"));
}

#[test]
fn new_project_files() {
    let expected = format!(
        r#"{{
  "name": "{name}",
  "version": "{ver}",
  "author": "{author}",
  "main": "app.nx",
  "dependencies": {{}}
}}
"#,
        name = "my-app",
        ver = "0.1.0",
        author = "Dev",
    );
    assert_eq!(project_json("my-app", "0.1.0", "Dev"), expected);
    let app = format!(
        r#"package {pkg};

app {app} {{
  server {{ port: 3000; }}

  public window HomePage {{
    public render() => Component {{
      return Page {{
        Heading("Welcome to {app}!")
      }};
    }}
  }}

  route "/" => HomePage;
}}
"#,
        pkg = "my_cool_app",
        app = "MyCoolApp",
    );
    assert_eq!(app_nx("my-cool-app"), app);
}

use nexa::cli::{module_app_nx, module_type_field, parse_platform_list};

#[test]
fn platform_lists() {
    assert_eq!(parse_platform_list("macos, linux"), vec![Platform::Macos, Platform::Linux]);
    assert_eq!(parse_platform_list(" ios ,, bogus,android "), vec![Platform::Ios, Platform::Android]);
    assert_eq!(parse_platform_list(""), vec![]);
    assert_eq!(parse_platform_list(",,,"), vec![]);
    assert_eq!(parse_platform_list("native-windows"), vec![Platform::NativeWindows]);
}

#[test]
fn platform_names_read_back() {
    for p in [
        Platform::Browser,
        Platform::Native,
        Platform::NativeLinux,
        Platform::NativeMacos,
        Platform::NativeWindows,
        Platform::Macos,
        Platform::Windows,
        Platform::Linux,
        Platform::Ios,
        Platform::Android,
    ] {
        assert_eq!(parse_platform(p.as_str()), Some(p));
    }
}

#[test]
fn module_files() {
    assert_eq!(module_type_field(AppType::Web), None);
    assert_eq!(module_type_field(AppType::Backend), Some("backend"));
    assert_eq!(module_type_field(AppType::Package), Some("package"));
    let expected = format!(
        r#"package {pkg};

app {app} {{
  server {{ port: 3000; }}

  public window HomePage {{
    public render() => Component {{
      return Page {{
        Heading("Module {app}")
      }};
    }}
  }}

  route "/" => HomePage;
}}
"#,
        pkg = "billing_api",
        app = "BillingApi",
    );
    assert_eq!(module_app_nx("billing-api"), expected);
}
