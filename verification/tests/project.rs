use nexa::project::{CompilerConfig, PrivateRegistry};

fn config(
    only: Option<Vec<&str>>,
    exclude: Vec<&str>,
    registry: Option<&str>,
    private: Vec<(&str, &str)>,
) -> CompilerConfig {
    CompilerConfig {
        version: "0.1".to_string(),
        main_module: "core".to_string(),
        include_modules: only.map(|v| v.into_iter().map(String::from).collect()),
        exclude_modules: exclude.into_iter().map(String::from).collect(),
        registry: registry.map(String::from),
        private_registries: private
            .into_iter()
            .map(|(u, k)| PrivateRegistry { url: u.to_string(), key: k.to_string() })
            .collect(),
    }
}

#[test]
fn active_modules_all_by_default() {
    let cfg = config(None, vec![], None, vec![]);
    let all = vec!["core".to_string(), "api".to_string()];
    assert_eq!(cfg.active_modules(&all), vec!["core", "api"]);
}

#[test]
fn active_modules_with_exclude() {
    let cfg = config(None, vec!["api"], None, vec![]);
    let all = vec!["core".to_string(), "api".to_string()];
    assert_eq!(cfg.active_modules(&all), vec!["core"]);
}

#[test]
fn active_modules_include_overrides_exclude() {
    let cfg = config(Some(vec!["core"]), vec!["core"], None, vec![]);
    let all = vec!["core".to_string(), "api".to_string()];
    assert_eq!(cfg.active_modules(&all), vec!["core"]);
}

#[test]
fn compiler_config_all_registries_order() {
    let cfg = config(None, vec![], Some("https://pub.reg"), vec![("https://priv.reg", "k")]);
    let regs = cfg.all_registries();
    assert_eq!(regs[0].0, "https://priv.reg");
    assert_eq!(regs[1].0, "https://pub.reg");
}

#[test]
fn default_registry_is_public_and_last() {
    let cfg = config(None, vec![], None, vec![("a", "1"), ("b", "2")]);
    let regs = cfg.all_registries();
    assert_eq!(
        regs,
        vec![
            ("a".to_string(), Some("1".to_string())),
            ("b".to_string(), Some("2".to_string())),
            ("https://registry.nexa-lang.org".to_string(), None),
        ]
    );
}

#[test]
fn included_modules_need_not_exist() {
    let cfg = config(Some(vec!["ghost", "core"]), vec![], None, vec![]);
    let all = vec!["core".to_string()];
    assert_eq!(cfg.active_modules(&all), vec!["ghost", "core"]);
}

use nexa::project::{check_modules, ConfigError, NexaProject, ProjectConfig};
use std::collections::HashMap;
use std::path::PathBuf;

fn project(modules: Vec<&str>) -> ProjectConfig {
    ProjectConfig {
        name: "app".into(),
        version: "0.1.0".into(),
        author: "me".into(),
        modules: modules.into_iter().map(String::from).collect(),
        dependencies: HashMap::new(),
    }
}

#[test]
fn module_checks() {
    let cfg = config(None, vec![], None, vec![]);
    assert!(matches!(check_modules(&project(vec![]), &cfg), Err(ConfigError::NoModules)));
    match check_modules(&project(vec!["api"]), &cfg) {
        Err(ConfigError::UnknownMainModule(m)) => assert_eq!(m, "core"),
        _ => panic!("expected an unknown main module"),
    }
    assert!(check_modules(&project(vec!["api", "core"]), &cfg).is_ok());
}

#[test]
fn main_module_name_comes_from_the_compiler_config() {
    let p = NexaProject {
        root: PathBuf::from("."),
        project: project(vec!["core"]),
        compiler: config(None, vec![], None, vec![]),
        modules: HashMap::new(),
    };
    assert_eq!(p.main_module_name(), "core");
}
