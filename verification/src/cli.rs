//! Command-line helpers: project names, module types and target platforms.
use vstd::prelude::*;
use crate::updater::{find_char_from, find_from, trim, trim_range};
use crate::text::{
    chars_vec, is_alphanumeric, push_str, str_eq, string_from_chars, to_uppercase, unicode_alphabetic, unicode_numeric,
    unicode_to_upper,
};

verus! {

/// `s` in PascalCase: split at `-` and `_`, drop empty pieces, and write each
/// piece with its first character upper-cased, one after another.
pub open spec fn pascal(s: Seq<char>, at_start: bool) -> Seq<char>
    decreases s.len(),
{
    if s.len() == 0 {
        Seq::empty()
    } else if s[0] == '-' || s[0] == '_' {
        pascal(s.skip(1), true)
    } else if at_start {
        unicode_to_upper(s[0]) + pascal(s.skip(1), false)
    } else {
        seq![s[0]] + pascal(s.skip(1), false)
    }
}

/// Convert a kebab- or snake-case name to PascalCase (`my-cool_app` → `MyCoolApp`).
pub fn to_pascal_case(s: &str) -> (r: String)
    ensures
        r@ == pascal(s@, true),
{
    let chars = chars_vec(s);
    let mut out = String::new();
    let mut at_start = true;
    let mut i: usize = 0;
    assert(s@.skip(0) =~= s@);
    assert(out@ + pascal(s@, true) =~= pascal(s@, true));
    while i < chars.len()
        invariant
            i <= chars.len(),
            chars@ == s@,
            out@ + pascal(s@.skip(i as int), at_start) == pascal(s@, true),
        decreases chars.len() - i,
    {
        let c = chars[i];
        let ghost rest = s@.skip(i as int);
        assert(rest[0] == c);
        assert(rest.skip(1) =~= s@.skip(i + 1));
        let ghost before = out@;
        if c == '-' || c == '_' {
            at_start = true;
        } else if at_start {
            let up = to_uppercase(c);
            out.append(up.as_str());
            at_start = false;
            assert(before + pascal(rest, true) =~= out@ + pascal(s@.skip(i + 1), false));
        } else {
            let one = crate::text::string_from_chars(&[c]);
            out.append(one.as_str());
            assert(before + pascal(rest, false) =~= out@ + pascal(s@.skip(i + 1), false));
        }
        i = i + 1;
    }
    assert(s@.skip(i as int) =~= Seq::<char>::empty());
    assert(out@ + Seq::<char>::empty() =~= out@);
    out
}

/// The kind of application a module builds.
#[derive(Debug, Clone, Copy, PartialEq, Eq, Structural)]
pub enum AppType {
    Web,
    Backend,
    Cli,
    Desktop,
    Package,
}

/// A target platform of a module.
#[derive(Debug, Clone, Copy, PartialEq, Eq, Structural)]
pub enum Platform {
    Browser,
    Native,
    NativeLinux,
    NativeMacos,
    NativeWindows,
    Macos,
    Windows,
    Linux,
    Ios,
    Android,
}

/// The application type a kebab-case name stands for; unknown names are web apps.
pub open spec fn app_type_of(s: Seq<char>) -> AppType {
    if s == "backend"@ {
        AppType::Backend
    } else if s == "cli"@ {
        AppType::Cli
    } else if s == "desktop"@ {
        AppType::Desktop
    } else if s == "package"@ {
        AppType::Package
    } else {
        AppType::Web
    }
}

/// The platform a kebab-case name stands for, if any.
pub open spec fn platform_of(s: Seq<char>) -> Option<Platform> {
    if s == "browser"@ {
        Some(Platform::Browser)
    } else if s == "native"@ {
        Some(Platform::Native)
    } else if s == "native-linux"@ {
        Some(Platform::NativeLinux)
    } else if s == "native-macos"@ {
        Some(Platform::NativeMacos)
    } else if s == "native-windows"@ {
        Some(Platform::NativeWindows)
    } else if s == "macos"@ {
        Some(Platform::Macos)
    } else if s == "windows"@ {
        Some(Platform::Windows)
    } else if s == "linux"@ {
        Some(Platform::Linux)
    } else if s == "ios"@ {
        Some(Platform::Ios)
    } else if s == "android"@ {
        Some(Platform::Android)
    } else {
        None
    }
}

/// Parse a kebab-case string into an [`AppType`].
/// Unknown strings fall back to [`AppType::Web`].
pub fn parse_app_type(s: &str) -> (t: AppType)
    ensures
        t == app_type_of(s@),
{
    if str_eq(s, "backend") {
        AppType::Backend
    } else if str_eq(s, "cli") {
        AppType::Cli
    } else if str_eq(s, "desktop") {
        AppType::Desktop
    } else if str_eq(s, "package") {
        AppType::Package
    } else {
        AppType::Web
    }
}

/// Parse a single kebab-case platform string into a [`Platform`].
/// Returns `None` for unrecognised values.
pub fn parse_platform(s: &str) -> (p: Option<Platform>)
    ensures
        p == platform_of(s@),
{
    if str_eq(s, "browser") {
        Some(Platform::Browser)
    } else if str_eq(s, "native") {
        Some(Platform::Native)
    } else if str_eq(s, "native-linux") {
        Some(Platform::NativeLinux)
    } else if str_eq(s, "native-macos") {
        Some(Platform::NativeMacos)
    } else if str_eq(s, "native-windows") {
        Some(Platform::NativeWindows)
    } else if str_eq(s, "macos") {
        Some(Platform::Macos)
    } else if str_eq(s, "windows") {
        Some(Platform::Windows)
    } else if str_eq(s, "linux") {
        Some(Platform::Linux)
    } else if str_eq(s, "ios") {
        Some(Platform::Ios)
    } else if str_eq(s, "android") {
        Some(Platform::Android)
    } else {
        None
    }
}


// ── New projects ────────────────────────────────────────────────────────────

/// A character allowed in a project name: a letter, a digit, `-` or `_`.
pub open spec fn project_name_char(c: char) -> bool {
    unicode_alphabetic(c) || unicode_numeric(c) || c == '-' || c == '_'
}

/// Whether every character of the name is allowed in a project name.
pub fn valid_project_name(name: &str) -> (b: bool)
    ensures
        b == (forall|i: int| 0 <= i < name@.len() ==> project_name_char(#[trigger] name@[i])),
{
    let cs = chars_vec(name);
    let mut i: usize = 0;
    while i < cs.len()
        invariant
            i <= cs.len(),
            cs@ == name@,
            forall|j: int| 0 <= j < i ==> project_name_char(#[trigger] cs@[j]),
        decreases cs.len() - i,
    {
        let c = cs[i];
        if !(is_alphanumeric(c) || c == '-' || c == '_') {
            assert(!project_name_char(name@[i as int]));
            return false;
        }
        i = i + 1;
    }
    true
}

/// The `project.json` of a new project.
pub open spec fn project_json_text(name: Seq<char>, version: Seq<char>, author: Seq<char>) -> Seq<char> {
    "{\n  \"name\": \""@ + name + "\",\n  \"version\": \""@ + version + "\",\n  \"author\": \""@ + author
        + "\",\n  \"main\": \"app.nx\",\n  \"dependencies\": {}\n}\n"@
}

/// The `project.json` of a new project.
pub fn project_json(name: &str, version: &str, author: &str) -> (s: String)
    ensures
        s@ == project_json_text(name@, version@, author@),
{
    let mut out: Vec<char> = Vec::new();
    push_str(&mut out, "{\n  \"name\": \"");
    push_str(&mut out, name);
    push_str(&mut out, "\",\n  \"version\": \"");
    push_str(&mut out, version);
    push_str(&mut out, "\",\n  \"author\": \"");
    push_str(&mut out, author);
    push_str(&mut out, "\",\n  \"main\": \"app.nx\",\n  \"dependencies\": {}\n}\n");
    assert(out@ =~= project_json_text(name@, version@, author@));
    string_from_chars(out.as_slice())
}

/// The name with each `-` turned into `_`.
pub open spec fn underscored(s: Seq<char>) -> Seq<char> {
    s.map_values(|c: char| if c == '-' { '_' } else { c })
}

/// The `src/main/app.nx` of a new project: a package named after the
/// project (with `_` for `-`), an app named in PascalCase, a server on port
/// 3000, a home page and its route.
pub open spec fn app_nx_text(project_name: Seq<char>) -> Seq<char> {
    let app = pascal(project_name, true);
    "package "@ + underscored(project_name) + ";\n\napp "@ + app + " {\n  server { port: 3000; }\n\n  public window HomePage {\n    public render() => Component {\n      return Page {\n        Heading(\"Welcome to "@
        + app + "!\")\n      };\n    }\n  }\n\n  route \"/\" => HomePage;\n}\n"@
}

/// The `src/main/app.nx` of a new project.
pub fn app_nx(project_name: &str) -> (s: String)
    ensures
        s@ == app_nx_text(project_name@),
{
    let app = to_pascal_case(project_name);
    let pkg = underscored_exec(project_name);
    let mut out: Vec<char> = Vec::new();
    push_str(&mut out, "package ");
    let ghost before = out@;
    let mut k: usize = 0;
    while k < pkg.len()
        invariant
            k <= pkg.len(),
            out@ == before + pkg@.take(k as int),
        decreases pkg.len() - k,
    {
        out.push(pkg[k]);
        assert(out@ =~= before + pkg@.take(k + 1));
        k = k + 1;
    }
    assert(pkg@.take(pkg.len() as int) =~= pkg@);
    push_str(&mut out, ";\n\napp ");
    push_str(&mut out, app.as_str());
    push_str(
        &mut out,
        " {\n  server { port: 3000; }\n\n  public window HomePage {\n    public render() => Component {\n      return Page {\n        Heading(\"Welcome to ",
    );
    push_str(&mut out, app.as_str());
    push_str(&mut out, "!\")\n      };\n    }\n  }\n\n  route \"/\" => HomePage;\n}\n");
    assert(out@ =~= app_nx_text(project_name@));
    string_from_chars(out.as_slice())
}


// ── New modules ─────────────────────────────────────────────────────────────

/// The kebab-case name of a platform.
pub open spec fn platform_name(p: Platform) -> Seq<char> {
    match p {
        Platform::Browser => "browser"@,
        Platform::Native => "native"@,
        Platform::NativeLinux => "native-linux"@,
        Platform::NativeMacos => "native-macos"@,
        Platform::NativeWindows => "native-windows"@,
        Platform::Macos => "macos"@,
        Platform::Windows => "windows"@,
        Platform::Linux => "linux"@,
        Platform::Ios => "ios"@,
        Platform::Android => "android"@,
    }
}

impl Platform {
    /// The kebab-case name of the platform, as `parse_platform` reads it.
    pub fn as_str(&self) -> (s: &'static str)
        ensures
            s@ == platform_name(*self),
    {
        match self {
            Platform::Browser => "browser",
            Platform::Native => "native",
            Platform::NativeLinux => "native-linux",
            Platform::NativeMacos => "native-macos",
            Platform::NativeWindows => "native-windows",
            Platform::Macos => "macos",
            Platform::Windows => "windows",
            Platform::Linux => "linux",
            Platform::Ios => "ios",
            Platform::Android => "android",
        }
    }
}

/// A platform's name reads back as that platform.
pub proof fn lemma_platform_name_round_trip(p: Platform)
    ensures
        platform_of(platform_name(p)) == Some(p),
{
    reveal_strlit("browser");
    reveal_strlit("native");
    reveal_strlit("native-linux");
    reveal_strlit("native-macos");
    reveal_strlit("native-windows");
    reveal_strlit("macos");
    reveal_strlit("windows");
    reveal_strlit("linux");
    reveal_strlit("ios");
    reveal_strlit("android");
    assert("browser"@.len() == 7);
    assert("native"@.len() == 6);
    assert("native-linux"@.len() == 12);
    assert("native-macos"@.len() == 12);
    assert("native-windows"@.len() == 14);
    assert("macos"@.len() == 5);
    assert("windows"@.len() == 7);
    assert("linux"@.len() == 5);
    assert("ios"@.len() == 3);
    assert("android"@.len() == 7);
    assert("browser"@[0] == 'b' && "windows"@[0] == 'w' && "android"@[0] == 'a');
    assert("native-linux"@[7] == 'l' && "native-macos"@[7] == 'm');
    assert("macos"@[0] == 'm' && "linux"@[0] == 'l');
}

/// The `"type"` recorded in `module.json`: none for a web module (the
/// default), else the type's kebab-case name.
pub open spec fn type_field(t: AppType) -> Option<Seq<char>> {
    match t {
        AppType::Web => None,
        AppType::Backend => Some("backend"@),
        AppType::Cli => Some("cli"@),
        AppType::Desktop => Some("desktop"@),
        AppType::Package => Some("package"@),
    }
}

/// The `"type"` recorded in `module.json` for an application type.
pub fn module_type_field(t: AppType) -> (s: Option<&'static str>)
    ensures
        match type_field(t) {
            Some(n) => s matches Some(x) && x@ == n,
            None => s is None,
        },
{
    match t {
        AppType::Web => None,
        AppType::Backend => Some("backend"),
        AppType::Cli => Some("cli"),
        AppType::Desktop => Some("desktop"),
        AppType::Package => Some("package"),
    }
}

/// The platforms named in the comma-separated list from `start` on: each
/// piece trimmed, empty pieces and unknown names skipped.
pub open spec fn platforms_from(s: Seq<char>, start: int) -> Seq<Platform>
    decreases s.len() - start,
    when 0 <= start <= s.len()
{
    let j = find_from(s, ',', start);
    let end = if j < 0 {
        s.len() as int
    } else {
        j
    };
    proof {
        crate::updater::lemma_find_from_at_least(s, ',', start);
    }
    let piece = trim(s.subrange(start, end));
    let here = match platform_of(piece) {
        Some(p) => if piece.len() > 0 {
            seq![p]
        } else {
            Seq::empty()
        },
        None => Seq::empty(),
    };
    if j < 0 {
        here
    } else {
        here + platforms_from(s, j + 1)
    }
}

/// Parse comma-separated platforms, silently ignoring unknown values.
pub fn parse_platform_list(raw: &str) -> (v: Vec<Platform>)
    ensures
        v@ == platforms_from(raw@, 0),
{
    let cs = chars_vec(raw);
    let n = cs.len();
    let mut out: Vec<Platform> = Vec::new();
    let mut start: usize = 0;
    loop
        invariant
            start <= n,
            n == cs@.len(),
            cs@ == raw@,
            out@ + platforms_from(cs@, start as int) == platforms_from(cs@, 0),
        decreases n - start,
    {
        let j = find_char_from(&cs, ',', start);
        let end = match j {
            Some(k) => k,
            None => n,
        };
        proof {
            crate::updater::lemma_find_from_at_least(cs@, ',', start as int);
        }
        let (lo, hi) = trim_range(&cs, start, end);
        let piece = string_of_chars_range(&cs, lo, hi);
        let ghost before = out@;
        if lo < hi {
            match parse_platform(piece.as_str()) {
                Some(p) => out.push(p),
                None => {},
            }
        } else {
            let _ = parse_platform(piece.as_str());
        }
        match j {
            Some(k) => {
                assert(out@ + platforms_from(cs@, k + 1) =~= before + platforms_from(cs@, start as int));
                start = k + 1;
            },
            None => {
                assert(out@ =~= before + platforms_from(cs@, start as int));
                assert(out@ + platforms_from(cs@, n as int) =~= out@) by {
                    assert(platforms_from(cs@, n as int) =~= Seq::<Platform>::empty()) by {
                        assert(trim(cs@.subrange(n as int, n as int)) =~= Seq::<char>::empty()) by {
                            assert(cs@.subrange(n as int, n as int) =~= Seq::<char>::empty());
                        }
                    }
                }
                return out;
            },
        }
    }
}

/// The characters `v[lo..hi]` as a string.
fn string_of_chars_range(v: &Vec<char>, lo: usize, hi: usize) -> (s: String)
    requires
        lo <= hi <= v@.len(),
    ensures
        s@ == v@.subrange(lo as int, hi as int),
{
    let mut part: Vec<char> = Vec::new();
    let mut i = lo;
    while i < hi
        invariant
            lo <= i <= hi <= v@.len(),
            part@ == v@.subrange(lo as int, i as int),
        decreases hi - i,
    {
        part.push(v[i]);
        assert(part@ =~= v@.subrange(lo as int, i + 1));
        i = i + 1;
    }
    string_from_chars(part.as_slice())
}

/// The `src/main/app.nx` of a new module: like a new project's, with the
/// heading `Module <Name>`.
pub open spec fn module_app_nx_text(name: Seq<char>) -> Seq<char> {
    let app = pascal(name, true);
    "package "@ + underscored(name) + ";\n\napp "@ + app + " {\n  server { port: 3000; }\n\n  public window HomePage {\n    public render() => Component {\n      return Page {\n        Heading(\"Module "@
        + app + "\")\n      };\n    }\n  }\n\n  route \"/\" => HomePage;\n}\n"@
}

/// The name with each `-` turned into `_`.
fn underscored_exec(name: &str) -> (v: Vec<char>)
    ensures
        v@ == underscored(name@),
{
    let cs = chars_vec(name);
    let mut pkg: Vec<char> = Vec::new();
    let mut i: usize = 0;
    while i < cs.len()
        invariant
            i <= cs.len(),
            cs@ == name@,
            pkg@ == underscored(cs@.take(i as int)),
        decreases cs.len() - i,
    {
        let c = cs[i];
        pkg.push(if c == '-' { '_' } else { c });
        assert(pkg@ =~= underscored(cs@.take(i + 1)));
        i = i + 1;
    }
    assert(cs@.take(cs.len() as int) =~= cs@);
    pkg
}

/// The `src/main/app.nx` of a new module.
pub fn module_app_nx(name: &str) -> (s: String)
    ensures
        s@ == module_app_nx_text(name@),
{
    let app = to_pascal_case(name);
    let pkg = underscored_exec(name);
    let mut out: Vec<char> = Vec::new();
    push_str(&mut out, "package ");
    let ghost before = out@;
    let mut k: usize = 0;
    while k < pkg.len()
        invariant
            k <= pkg.len(),
            out@ == before + pkg@.take(k as int),
        decreases pkg.len() - k,
    {
        out.push(pkg[k]);
        assert(out@ =~= before + pkg@.take(k + 1));
        k = k + 1;
    }
    assert(pkg@.take(pkg.len() as int) =~= pkg@);
    push_str(&mut out, ";\n\napp ");
    push_str(&mut out, app.as_str());
    push_str(
        &mut out,
        " {\n  server { port: 3000; }\n\n  public window HomePage {\n    public render() => Component {\n      return Page {\n        Heading(\"Module ",
    );
    push_str(&mut out, app.as_str());
    push_str(&mut out, "\")\n      };\n    }\n  }\n\n  route \"/\" => HomePage;\n}\n");
    assert(out@ =~= module_app_nx_text(name@));
    string_from_chars(out.as_slice())
}

} // verus!
