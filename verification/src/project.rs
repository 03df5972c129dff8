//! Project configuration: the contents of `project.json`, `module.json` and
//! `nexa-compiler.yaml`, and the choices the compiler makes from them.
use vstd::prelude::*;
use std::collections::HashMap;
use std::path::PathBuf;
use crate::ast::string_views;
use crate::text::str_eq;

verus! {

/// The contents of `project.json` at the project root.
pub struct ProjectConfig {
    pub name: String,
    pub version: String,
    pub author: String,
    /// List of module names (subdirectories of `modules/`).
    pub modules: Vec<String>,
    /// Project-level package dependencies shared across all modules.
    pub dependencies: HashMap<String, String>,
}

/// The contents of `modules/<name>/module.json`.
pub struct ModuleConfig {
    pub name: String,
    /// Entry file name inside `src/main/`, e.g. `"app.nx"`.
    pub main: String,
    /// Module-specific dependencies (installed in `modules/<name>/lib/`).
    pub dependencies: HashMap<String, String>,
}

/// A private registry declared in `nexa-compiler.yaml`.
pub struct PrivateRegistry {
    /// Registry base URL.
    pub url: String,
    /// API key used for authenticated requests.
    pub key: String,
}

/// The contents of `nexa-compiler.yaml` at the project root.
pub struct CompilerConfig {
    pub version: String,
    /// The module to use as the compilation entry point (default: `"core"`).
    pub main_module: String,
    /// If set, only these modules are compiled. Overrides `exclude_modules`.
    pub include_modules: Option<Vec<String>>,
    /// Modules to skip during compilation (ignored if `include_modules` is set).
    pub exclude_modules: Vec<String>,
    /// Public registry URL (default: `https://registry.nexa-lang.org`).
    pub registry: Option<String>,
    /// Private registries with API keys, tried before the public registry.
    pub private_registries: Vec<PrivateRegistry>,
}

/// The public registry used when the configuration names none.
pub const DEFAULT_REGISTRY: &'static str = "https://registry.nexa-lang.org";

/// The registries to try, in order: each private one with its key, then the
/// public one (`public`) without a key.
pub open spec fn registries(private: Seq<PrivateRegistry>, public: Seq<char>) -> Seq<(Seq<char>, Option<Seq<char>>)> {
    private.map_values(|r: PrivateRegistry| (r.url@, Some(r.key@))).push((public, None))
}

/// The modules of `all`, in order, that `excluded` does not name.
pub open spec fn not_excluded(all: Seq<Seq<char>>, excluded: Seq<Seq<char>>) -> Seq<Seq<char>>
    decreases all.len(),
{
    if all.len() == 0 {
        Seq::empty()
    } else if excluded.contains(all.last()) {
        not_excluded(all.drop_last(), excluded)
    } else {
        not_excluded(all.drop_last(), excluded).push(all.last())
    }
}

/// The modules compiled: those included when a list is given, else every
/// module not excluded.
pub open spec fn active(only: Option<Seq<Seq<char>>>, excluded: Seq<Seq<char>>, all: Seq<Seq<char>>) -> Seq<
    Seq<char>,
> {
    match only {
        Some(inc) => inc,
        None => not_excluded(all, excluded),
    }
}

/// Without a list of modules to compile, the active modules are modules of
/// the project, none of them excluded.
pub proof fn lemma_active_not_excluded(excluded: Seq<Seq<char>>, all: Seq<Seq<char>>, k: int)
    requires
        0 <= k < active(None, excluded, all).len(),
    ensures
        all.contains(active(None, excluded, all)[k]),
        !excluded.contains(active(None, excluded, all)[k]),
    decreases all.len(),
{
    let rest = not_excluded(all.drop_last(), excluded);
    if excluded.contains(all.last()) {
        lemma_active_not_excluded(excluded, all.drop_last(), k);
        assert(all.drop_last().contains(rest[k]));
        let j = choose|j: int| 0 <= j < all.drop_last().len() && all.drop_last()[j] == rest[k];
        assert(all[j] == rest[k]);
    } else if k < rest.len() {
        lemma_active_not_excluded(excluded, all.drop_last(), k);
        assert(rest.push(all.last())[k] == rest[k]);
        let j = choose|j: int| 0 <= j < all.drop_last().len() && all.drop_last()[j] == rest[k];
        assert(all[j] == rest[k]);
    } else {
        assert(rest.push(all.last())[k] == all.last());
        assert(all[all.len() - 1] == all.last());
    }
}

/// The views of a list of string slices.
pub open spec fn str_views(s: Seq<&str>) -> Seq<Seq<char>> {
    s.map_values(|x: &str| x@)
}

/// Whether `name` is among `list`.
fn listed(list: &Vec<String>, name: &String) -> (b: bool)
    ensures
        b == string_views(list@).contains(name@),
{
    let mut i: usize = 0;
    while i < list.len()
        invariant
            i <= list.len(),
            forall|j: int| 0 <= j < i ==> list@[j]@ != name@,
        decreases list.len() - i,
    {
        if str_eq(list[i].as_str(), name.as_str()) {
            assert(string_views(list@)[i as int] == name@);
            return true;
        }
        i = i + 1;
    }
    assert forall|j: int| 0 <= j < list@.len() implies string_views(list@)[j] != name@ by {
        assert(string_views(list@)[j] == list@[j]@);
    }
    false
}

impl CompilerConfig {
    /// Returns all registries to try in order: private first, then public.
    pub fn all_registries(&self) -> (out: Vec<(String, Option<String>)>)
        ensures
            out@.map_values(|e: (String, Option<String>)| (e.0@, crate::ast::opt_string_view(e.1))) == registries(
                self.private_registries@,
                match self.registry {
                    Some(r) => r@,
                    None => DEFAULT_REGISTRY@,
                },
            ),
    {
        let mut out: Vec<(String, Option<String>)> = Vec::new();
        let mut i: usize = 0;
        while i < self.private_registries.len()
            invariant
                i <= self.private_registries.len(),
                out@.map_values(|e: (String, Option<String>)| (e.0@, crate::ast::opt_string_view(e.1)))
                    == self.private_registries@.take(i as int).map_values(
                    |r: PrivateRegistry| (r.url@, Some(r.key@)),
                ),
            decreases self.private_registries.len() - i,
        {
            let r = &self.private_registries[i];
            let ghost prev = out@;
            let e = (r.url.clone(), Some(r.key.clone()));
            out.push(e);
            assert(out@.map_values(|e: (String, Option<String>)| (e.0@, crate::ast::opt_string_view(e.1))) =~= prev.map_values(
                |e: (String, Option<String>)| (e.0@, crate::ast::opt_string_view(e.1)),
            ).push((r.url@, Some(r.key@))));
            assert(self.private_registries@.take(i + 1).map_values(|r: PrivateRegistry| (r.url@, Some(r.key@)))
                =~= self.private_registries@.take(i as int).map_values(|r: PrivateRegistry| (r.url@, Some(r.key@))).push(
                (r.url@, Some(r.key@)),
            ));
            assert(out@.map_values(|e: (String, Option<String>)| (e.0@, crate::ast::opt_string_view(e.1)))
                =~= self.private_registries@.take(i + 1).map_values(|r: PrivateRegistry| (r.url@, Some(r.key@))));
            i = i + 1;
        }
        assert(self.private_registries@.take(self.private_registries.len() as int) =~= self.private_registries@);
        let public = match &self.registry {
            Some(r) => r.clone(),
            None => DEFAULT_REGISTRY.to_string(),
        };
        out.push((public, None));
        assert(out@.map_values(|e: (String, Option<String>)| (e.0@, crate::ast::opt_string_view(e.1)))
            =~= registries(
            self.private_registries@,
            match self.registry {
                Some(r) => r@,
                None => DEFAULT_REGISTRY@,
            },
        ));
        out
    }

    /// Returns the list of modules that should be compiled, applying
    /// `include_modules` / `exclude_modules` filters.
    pub fn active_modules<'a>(&'a self, all_modules: &'a [String]) -> (out: Vec<&'a str>)
        ensures
            str_views(out@) == active(
                match self.include_modules {
                    Some(inc) => Some(string_views(inc@)),
                    None => None,
                },
                string_views(self.exclude_modules@),
                string_views(all_modules@),
            ),
    {
        let mut out: Vec<&'a str> = Vec::new();
        if let Some(only) = &self.include_modules {
            let mut i: usize = 0;
            while i < only.len()
                invariant
                    i <= only.len(),
                    str_views(out@) == string_views(only@.take(i as int)),
                decreases only.len() - i,
            {
                let ghost prev = out@;
                let x = only[i].as_str();
                out.push(x);
                assert(str_views(out@) =~= str_views(prev).push(x@));
                assert(string_views(only@.take(i + 1)) =~= string_views(only@.take(i as int)).push(only@[i as int]@));
                assert(str_views(out@) =~= string_views(only@.take(i + 1)));
                i = i + 1;
            }
            assert(only@.take(only.len() as int) =~= only@);
            return out;
        }
        let mut i: usize = 0;
        while i < all_modules.len()
            invariant
                i <= all_modules.len(),
                str_views(out@) == not_excluded(
                    string_views(all_modules@.take(i as int)),
                    string_views(self.exclude_modules@),
                ),
            decreases all_modules.len() - i,
        {
            let m = &all_modules[i];
            assert(string_views(all_modules@.take(i + 1)).drop_last() =~= string_views(all_modules@.take(i as int)));
            assert(string_views(all_modules@.take(i + 1)).last() == m@);
            if !listed(&self.exclude_modules, m) {
                let ghost before = str_views(out@);
                out.push(m.as_str());
                assert(str_views(out@) =~= before.push(m@));
            }
            i = i + 1;
        }
        assert(all_modules@.take(all_modules.len() as int) =~= all_modules@);
        out
    }
}


/// A path of the standard library, carried through unread.
#[verifier::external_type_specification]
#[verifier::external_body]
pub struct ExPathBuf(PathBuf);

/// A loaded project: its root directory and its configuration files.
pub struct NexaProject {
    pub root: PathBuf,
    pub project: ProjectConfig,
    pub compiler: CompilerConfig,
    /// Loaded module configs keyed by module name.
    pub modules: HashMap<String, ModuleConfig>,
}

/// What is wrong with a project's configuration.
pub enum ConfigError {
    /// `project.json` lists no module.
    NoModules,
    /// The main module of `nexa-compiler.yaml` is not among the modules.
    UnknownMainModule(String),
}

/// Checks the project configuration before its modules are loaded: some
/// module must be listed, and the main module must be one of them.
pub fn check_modules(project: &ProjectConfig, compiler: &CompilerConfig) -> (r: Result<(), ConfigError>)
    ensures
        string_views(project.modules@).len() == 0 ==> r matches Err(ConfigError::NoModules),
        string_views(project.modules@).len() > 0 && !string_views(project.modules@).contains(
            compiler.main_module@,
        ) ==> (r matches Err(ConfigError::UnknownMainModule(m)) && m@ == compiler.main_module@),
        string_views(project.modules@).len() > 0 && string_views(project.modules@).contains(
            compiler.main_module@,
        ) ==> r is Ok,
{
    if project.modules.len() == 0 {
        return Err(ConfigError::NoModules);
    }
    if !listed(&project.modules, &compiler.main_module) {
        return Err(ConfigError::UnknownMainModule(compiler.main_module.clone()));
    }
    Ok(())
}

impl NexaProject {
    /// Returns the name of the main (entry) module as defined in `nexa-compiler.yaml`.
    pub fn main_module_name(&self) -> (n: &str)
        ensures
            n@ == self.compiler.main_module@,
    {
        self.compiler.main_module.as_str()
    }
}

} // verus!
