//! Multi-file resolution over sources held in memory: import paths like
//! `com.myapp.models.User` are mapped to file paths, the files are lexed and
//! parsed as libraries, their own imports are loaded depth first, circular
//! imports are refused, and every imported declaration is merged, ahead of
//! the entry file's own, into one program.
//!
//! Paths are `/`-separated strings. Joining follows `Path::join` on Unix
//! (an absolute part replaces the base); the directory of a file is what
//! precedes its last `/`.
use vstd::prelude::*;
use crate::ast::{
    Declaration, EnumDecl, EnumVariant, ImportDecl, Program, Route, SpecDeclaration,
    SpecProgram, TestDecl, Type, types_view, views,
};
use crate::lexer::{LexError, LexState, Lexer, lex_from, spanned_views};
use crate::grammar::{PState, SpecParseError, g_lib};
use crate::parser::{ParseError, Parser};
use crate::text::{chars_vec, push_str, string_from_chars};
use crate::semantic::passes::{dup_class, dup_iface, dup_stmts};

verus! {

// ── Paths as strings ────────────────────────────────────────────────────────

/// `base` joined with `part`: an absolute part replaces the base, an empty
/// base gives the part, otherwise one `/` stands between them.
pub open spec fn join_path(base: Seq<char>, part: Seq<char>) -> Seq<char> {
    if part.len() > 0 && part[0] == '/' {
        part
    } else if base.len() == 0 {
        part
    } else if base.last() == '/' {
        base + part
    } else {
        base + seq!['/'] + part
    }
}

/// The index of the last `c` in `s`, if any.
pub open spec fn last_index_of(s: Seq<char>, c: char) -> Option<int>
    decreases s.len(),
{
    if s.len() == 0 {
        None
    } else if s.last() == c {
        Some(s.len() - 1)
    } else {
        last_index_of(s.drop_last(), c)
    }
}

/// Where the last occurrence of a character stands.
pub proof fn lemma_last_index_of(s: Seq<char>, c: char)
    ensures
        last_index_of(s, c) matches Some(i) ==> 0 <= i < s.len() && s[i] == c && forall|j: int|
            i < j < s.len() ==> #[trigger] s[j] != c,
        last_index_of(s, c) is None ==> forall|j: int| 0 <= j < s.len() ==> #[trigger] s[j] != c,
    decreases s.len(),
{
    if s.len() > 0 && s.last() != c {
        lemma_last_index_of(s.drop_last(), c);
        assert forall|j: int| 0 <= j < s.len() - 1 implies #[trigger] s[j] == s.drop_last()[j] by {}
    }
}

/// The directory of a file: what precedes its last `/` (`/` itself for a
/// file at the root, empty for a bare name, `.` for the root).
pub open spec fn parent_dir(p: Seq<char>) -> Seq<char> {
    match last_index_of(p, '/') {
        None => Seq::empty(),
        Some(i) => if i > 0 {
            p.take(i)
        } else if p.len() > 1 {
            seq!['/']
        } else {
            seq!['.']
        },
    }
}

/// The dot-separated parts of an import path.
pub open spec fn split_dots(s: Seq<char>) -> Seq<Seq<char>>
    decreases s.len(),
{
    match last_index_of(s, '.') {
        None => seq![s],
        Some(i) => {
            proof {
                lemma_last_index_of(s, '.');
            }
            split_dots(s.take(i)).push(s.skip(i + 1))
        },
    }
}

/// A file name: the part followed by `.nx`.
pub open spec fn nx_file(part: Seq<char>) -> Seq<char> {
    part + ".nx"@
}

/// `base` joined with every part in turn, the last one as a `.nx` file.
pub open spec fn parts_path(base: Seq<char>, parts: Seq<Seq<char>>) -> Seq<char>
    decreases parts.len(),
{
    if parts.len() == 0 {
        base
    } else if parts.len() == 1 {
        join_path(base, nx_file(parts[0]))
    } else {
        parts_path(join_path(base, parts[0]), parts.drop_first())
    }
}

// ── Sources held in memory ──────────────────────────────────────────────────

/// The last entry of `files` for `path`.
pub open spec fn find_file(files: Seq<(Seq<char>, Seq<char>)>, path: Seq<char>) -> Option<int>
    decreases files.len(),
{
    if files.len() == 0 {
        None
    } else if files.last().0 == path {
        Some(files.len() - 1)
    } else {
        find_file(files.drop_last(), path)
    }
}

/// The source stored for `path`.
pub open spec fn file_text(files: Seq<(Seq<char>, Seq<char>)>, path: Seq<char>) -> Option<Seq<char>> {
    match find_file(files, path) {
        Some(i) => Some(files[i].1),
        None => None,
    }
}

proof fn lemma_find_file(files: Seq<(Seq<char>, Seq<char>)>, path: Seq<char>)
    ensures
        find_file(files, path) matches Some(i) ==> 0 <= i < files.len() && files[i].0 == path,
        find_file(files, path) is None ==> forall|j: int| 0 <= j < files.len() ==> #[trigger] files[j].0 != path,
    decreases files.len(),
{
    if files.len() > 0 {
        lemma_find_file(files.drop_last(), path);
        if files.last().0 != path {
            assert forall|j: int| 0 <= j < files.len() - 1 implies #[trigger] files[j].0 == files.drop_last()[j].0 by {}
        }
    }
}

/// Test adapter: serves source files from memory.
pub struct MemSourceProvider {
    files: Vec<(String, String)>,
}

impl View for MemSourceProvider {
    type V = Seq<(Seq<char>, Seq<char>)>;

    closed spec fn view(&self) -> Seq<(Seq<char>, Seq<char>)> {
        self.files@.map_values(|e: (String, String)| (e.0@, e.1@))
    }
}

/// Whether two character vectors hold the same characters.
fn chars_same(a: &Vec<char>, b: &Vec<char>) -> (r: bool)
    ensures
        r == (a@ == b@),
{
    if a.len() != b.len() {
        return false;
    }
    let mut i: usize = 0;
    while i < a.len()
        invariant
            a@.len() == b@.len(),
            i <= a.len(),
            forall|j: int| 0 <= j < i ==> a@[j] == b@[j],
        decreases a.len() - i,
    {
        if a[i] != b[i] {
            return false;
        }
        i = i + 1;
    }
    assert(a@ =~= b@);
    true
}

impl MemSourceProvider {
    /// No file yet.
    pub fn new() -> (p: MemSourceProvider)
        ensures
            p@ == Seq::<(Seq<char>, Seq<char>)>::empty(),
    {
        let p = MemSourceProvider { files: Vec::new() };
        assert(p@ =~= Seq::<(Seq<char>, Seq<char>)>::empty());
        p
    }

    /// The position of the last entry for `path`.
    fn find(&self, path: &Vec<char>) -> (r: Option<usize>)
        ensures
            match r {
                Some(i) => find_file(self@, path@) == Some(i as int),
                None => find_file(self@, path@) is None,
            },
    {
        let mut i: usize = self.files.len();
        assert(self@.take(i as int) =~= self@);
        while i > 0
            invariant
                i <= self.files.len(),
                find_file(self@, path@) == find_file(self@.take(i as int), path@),
            decreases i,
        {
            let k = chars_vec(self.files[i - 1].0.as_str());
            assert(self@.take(i as int).drop_last() =~= self@.take(i - 1));
            if chars_same(&k, path) {
                return Some(i - 1);
            }
            i = i - 1;
        }
        None
    }

    /// Stores `content` as the source of `path`, replacing what was there.
    pub fn add(&mut self, path: &str, content: &str)
        ensures
            final(self)@ == added(old(self)@, path@, content@),
    {
        let key = chars_vec(path);
        match self.find(&key) {
            Some(i) => {
                proof {
                    lemma_find_file(self@, path@);
                }
                self.files.set(i, (string_from_chars(chars_vec(path).as_slice()), string_from_chars(chars_vec(content).as_slice())));
            },
            None => {
                self.files.push((string_from_chars(chars_vec(path).as_slice()), string_from_chars(chars_vec(content).as_slice())));
            },
        }
        assert(self@ =~= added(old(self)@, path@, content@));
    }

    /// The source stored for `path`.
    pub fn read_source(&self, path: &Vec<char>) -> (r: Option<String>)
        ensures
            match r {
                Some(s) => file_text(self@, path@) == Some(s@),
                None => file_text(self@, path@) is None,
            },
    {
        match self.find(path) {
            Some(i) => {
                proof {
                    lemma_find_file(self@, path@);
                }
                Some(self.files[i].1.clone())
            },
            None => None,
        }
    }

    /// The canonical form of a stored path: the path itself, when a source
    /// is stored for it.
    pub fn canonicalize(&self, path: &Vec<char>) -> (r: Option<Vec<char>>)
        ensures
            match r {
                Some(p) => find_file(self@, path@) is Some && p@ == path@,
                None => find_file(self@, path@) is None,
            },
    {
        match self.find(path) {
            Some(_) => {
                let mut v: Vec<char> = Vec::new();
                let mut i: usize = 0;
                while i < path.len()
                    invariant
                        i <= path.len(),
                        v@ == path@.take(i as int),
                    decreases path.len() - i,
                {
                    v.push(path[i]);
                    assert(v@ =~= path@.take(i + 1));
                    i = i + 1;
                }
                assert(path@.take(path.len() as int) =~= path@);
                Some(v)
            },
            None => None,
        }
    }

    /// Whether a source is stored for `path`.
    pub fn has_source(&self, path: &Vec<char>) -> (r: bool)
        ensures
            r == (find_file(self@, path@) is Some),
    {
        self.find(path).is_some()
    }
}

// ── The resolution ─────────────────────────────────────────────────────────

/// Why resolution failed.
#[derive(Debug)]
pub enum ResolveError {
    /// A file could not be read: its path and the reason.
    Io(String, String),
    /// A file did not lex: its path and the error.
    Lex(String, LexError),
    /// A file did not parse: its path and the error.
    Parse(String, ParseError),
    /// An import that leads back to a file still being loaded.
    Cycle(String),
    /// An import that names no file: the import and the places tried.
    NotFound(String, String),
}

/// The view of a [`ResolveError`].
pub enum SpecResolveErr {
    Io(Seq<char>, Seq<char>),
    Lex(Seq<char>, LexError),
    Parse(Seq<char>, SpecParseError),
    Cycle(Seq<char>),
    NotFound(Seq<char>, Seq<char>),
}

impl View for ResolveError {
    type V = SpecResolveErr;

    open spec fn view(&self) -> SpecResolveErr {
        match self {
            ResolveError::Io(p, m) => SpecResolveErr::Io(p@, m@),
            ResolveError::Lex(p, e) => SpecResolveErr::Lex(p@, *e),
            ResolveError::Parse(p, e) => SpecResolveErr::Parse(p@, e@),
            ResolveError::Cycle(i) => SpecResolveErr::Cycle(i@),
            ResolveError::NotFound(i, t) => SpecResolveErr::NotFound(i@, t@),
        }
    }
}

/// What resolution works with: the sources, the `src/main/` directory of
/// the module being compiled, and the project root.
pub struct ResolveCtx {
    pub files: Seq<(Seq<char>, Seq<char>)>,
    pub root: Seq<char>,
    pub project_root: Seq<char>,
}

/// Parsed declarations per loaded file.
pub type DeclCache = Seq<(Seq<char>, Seq<SpecDeclaration>)>;

/// Whether a source is stored for `p`.
pub open spec fn has_file(ctx: ResolveCtx, p: Seq<char>) -> bool {
    find_file(ctx.files, p) is Some
}

/// The text of a failed lookup.
pub open spec fn tried_msg(simple: Seq<char>, rel: Seq<char>) -> Seq<char> {
    "tried: "@ + simple + ", "@ + rel + " (module lib, project lib, cross-module)"@
}

/// The file an import names: next to the importing file, then under the
/// module's `src/main/` with every part as a directory, then, for a dotted
/// path, in `<project>/modules/<first part>/src/main/`. Installed packages,
/// found by listing directories on disk, are not searched.
pub open spec fn resolve_path_spec(ctx: ResolveCtx, imp: Seq<char>, rel_root: Seq<char>) -> Result<
    Seq<char>,
    SpecResolveErr,
> {
    let parts = split_dots(imp);
    let last = parts.last();
    let simple = join_path(rel_root, nx_file(last));
    let rel = parts_path(ctx.root, parts);
    let cross = join_path(
        join_path(join_path(join_path(join_path(ctx.project_root, "modules"@), parts[0]), "src"@), "main"@),
        nx_file(last),
    );
    if has_file(ctx, simple) {
        Ok(simple)
    } else if has_file(ctx, rel) {
        Ok(rel)
    } else if parts.len() >= 2 && has_file(ctx, cross) {
        Ok(cross)
    } else {
        Err(SpecResolveErr::NotFound(imp, tried_msg(simple, rel)))
    }
}

/// The declarations cached for `p`.
pub open spec fn cache_find(c: DeclCache, p: Seq<char>) -> Option<Seq<SpecDeclaration>>
    decreases c.len(),
{
    if c.len() == 0 {
        None
    } else if c.last().0 == p {
        Some(c.last().1)
    } else {
        cache_find(c.drop_last(), p)
    }
}

/// How many stored files are not being loaded.
pub open spec fn unloaded(files: Seq<(Seq<char>, Seq<char>)>, loading: Seq<Seq<char>>) -> nat
    decreases files.len(),
{
    if files.len() == 0 {
        0
    } else {
        unloaded(files.drop_last(), loading) + if loading.contains(files.last().0) {
            0nat
        } else {
            1nat
        }
    }
}

/// Starting to load a stored file that was not being loaded leaves fewer
/// files to load.
pub proof fn lemma_unloaded_push(files: Seq<(Seq<char>, Seq<char>)>, loading: Seq<Seq<char>>, p: Seq<char>)
    requires
        find_file(files, p) is Some,
        !loading.contains(p),
    ensures
        unloaded(files, loading.push(p)) < unloaded(files, loading),
    decreases files.len(),
{
    lemma_unloaded_le(files.drop_last(), loading, p);
    let q = files.last().0;
    assert(unloaded(files, loading.push(p)) == unloaded(files.drop_last(), loading.push(p)) + if loading.push(p).contains(q) { 0nat } else { 1nat });
    assert(unloaded(files, loading) == unloaded(files.drop_last(), loading) + if loading.contains(q) { 0nat } else { 1nat });
    if q == p {
        assert(loading.push(p)[loading.len() as int] == p);
        assert(loading.push(p).contains(q));
        assert(!loading.contains(q));
        assert(unloaded(files.drop_last(), loading.push(p)) <= unloaded(files.drop_last(), loading));
        assert(unloaded(files, loading.push(p)) < unloaded(files, loading));
    } else {
        if loading.push(p).contains(q) {
            let k = choose|k: int| 0 <= k < loading.push(p).len() && loading.push(p)[k] == q;
            assert(k < loading.len());
            assert(loading[k] == q);
            assert(loading.contains(q));
        }
        if loading.contains(q) {
            let k = choose|k: int| 0 <= k < loading.len() && loading[k] == q;
            assert(loading.push(p)[k] == q);
        }
        assert(find_file(files.drop_last(), p) is Some);
        lemma_unloaded_push(files.drop_last(), loading, p);
        assert(unloaded(files, loading.push(p)) < unloaded(files, loading));
    }
}

proof fn lemma_unloaded_le(files: Seq<(Seq<char>, Seq<char>)>, loading: Seq<Seq<char>>, p: Seq<char>)
    ensures
        unloaded(files, loading.push(p)) <= unloaded(files, loading),
    decreases files.len(),
{
    if files.len() > 0 {
        lemma_unloaded_le(files.drop_last(), loading, p);
        if loading.contains(files.last().0) {
            let k = choose|k: int| 0 <= k < loading.len() && loading[k] == files.last().0;
            assert(loading.push(p)[k] == files.last().0);
        }
    }
}

/// Lexing from the start of a source.
pub open spec fn lex_start() -> LexState {
    LexState { pos: 0, line: 1, col: 1 }
}

/// Parsing from the first token.
pub open spec fn parse_start() -> PState {
    PState { pos: 0, errs: Seq::empty() }
}

/// Loads one import: the declarations of the file it names, preceded by
/// those of the file's own imports, with what is being loaded and the cache
/// after it. A file still being loaded is a cycle; a cached file is not read
/// again. A failure leaves what was being loaded as it stood when it came.
pub open spec fn load_import(
    ctx: ResolveCtx,
    imp: Seq<char>,
    rel_root: Seq<char>,
    loading: Seq<Seq<char>>,
    cache: DeclCache,
) -> (Result<Seq<SpecDeclaration>, SpecResolveErr>, Seq<Seq<char>>, DeclCache)
    decreases unloaded(ctx.files, loading), 0nat, 0nat,
{
    match resolve_path_spec(ctx, imp, rel_root) {
        Err(e) => (Err(e), loading, cache),
        Ok(fp) => if loading.contains(fp) {
            (Err(SpecResolveErr::Cycle(imp)), loading, cache)
        } else if cache_find(cache, fp) is Some {
            (Ok(cache_find(cache, fp)->0), loading, cache)
        } else {
            let l1 = loading.push(fp);
            match file_text(ctx.files, fp) {
                None => (Err(SpecResolveErr::Io(fp, fp)), l1, cache),
                Some(src) => match lex_from(src, lex_start()) {
                    Err(e) => (Err(SpecResolveErr::Lex(fp, e)), l1, cache),
                    Ok(toks) => match g_lib(toks, parse_start()).0 {
                        Err(e) => (Err(SpecResolveErr::Parse(fp, e)), l1, cache),
                        Ok(lib) => {
                            proof {
                                lemma_unloaded_push(ctx.files, loading, fp);
                            }
                            let (r, l2, c2) = load_all(ctx, lib.imports, parent_dir(fp), l1, cache);
                            match r {
                                Err(e) => (Err(e), l2, c2),
                                Ok(ds) => (Ok(ds + lib.declarations), loading, c2.push((fp, ds + lib.declarations))),
                            }
                        },
                    },
                },
            }
        },
    }
}

/// Loads imports in order, stopping at the first failure.
pub open spec fn load_all(
    ctx: ResolveCtx,
    imports: Seq<Seq<char>>,
    rel_root: Seq<char>,
    loading: Seq<Seq<char>>,
    cache: DeclCache,
) -> (Result<Seq<SpecDeclaration>, SpecResolveErr>, Seq<Seq<char>>, DeclCache)
    decreases unloaded(ctx.files, loading), 1nat, imports.len(),
{
    if imports.len() == 0 {
        (Ok(Seq::empty()), loading, cache)
    } else {
        let (r, l1, c1) = load_import(ctx, imports[0], rel_root, loading, cache);
        match r {
            Err(e) => (Err(e), l1, c1),
            Ok(ds) => {
                let (r2, l2, c2) = load_all(ctx, imports.drop_first(), rel_root, loading, c1);
                match r2 {
                    Err(e) => (Err(e), l2, c2),
                    Ok(rest) => (Ok(ds + rest), l2, c2),
                }
            },
        }
    }
}

/// The entry program with every imported declaration ahead of its own.
pub open spec fn resolve_spec(
    ctx: ResolveCtx,
    loading: Seq<Seq<char>>,
    cache: DeclCache,
    entry: SpecProgram,
    entry_path: Seq<char>,
) -> (Result<SpecProgram, SpecResolveErr>, Seq<Seq<char>>, DeclCache) {
    let (r, l, c) = load_all(ctx, entry.imports, parent_dir(entry_path), loading, cache);
    match r {
        Err(e) => (Err(e), l, c),
        Ok(ds) => (Ok(SpecProgram { declarations: ds + entry.declarations, ..entry }), l, c),
    }
}


// ── Executable path helpers ─────────────────────────────────────────────────

/// The views of character vectors.
pub open spec fn char_views(v: Seq<Vec<char>>) -> Seq<Seq<char>> {
    v.map_values(|x: Vec<char>| x@)
}

/// A copy of a character vector.
fn copy_chars(v: &Vec<char>) -> (r: Vec<char>)
    ensures
        r@ == v@,
{
    let mut out: Vec<char> = Vec::new();
    let mut i: usize = 0;
    while i < v.len()
        invariant
            i <= v.len(),
            out@ == v@.take(i as int),
        decreases v.len() - i,
    {
        out.push(v[i]);
        assert(out@ =~= v@.take(i + 1));
        i = i + 1;
    }
    assert(v@.take(v.len() as int) =~= v@);
    out
}

/// The characters of `v` from `a` up to `b`.
fn sub_chars(v: &Vec<char>, a: usize, b: usize) -> (r: Vec<char>)
    requires
        a <= b <= v.len(),
    ensures
        r@ == v@.subrange(a as int, b as int),
{
    let mut out: Vec<char> = Vec::new();
    let mut i: usize = a;
    while i < b
        invariant
            a <= i <= b <= v.len(),
            out@ == v@.subrange(a as int, i as int),
        decreases b - i,
    {
        out.push(v[i]);
        assert(out@ =~= v@.subrange(a as int, i + 1));
        i = i + 1;
    }
    out
}

/// The index of the last `c` in `v`.
fn last_index(v: &Vec<char>, c: char) -> (r: Option<usize>)
    ensures
        match r {
            Some(i) => last_index_of(v@, c) == Some(i as int),
            None => last_index_of(v@, c) is None,
        },
{
    let mut i: usize = v.len();
    assert(v@.take(i as int) =~= v@);
    while i > 0
        invariant
            i <= v.len(),
            last_index_of(v@, c) == last_index_of(v@.take(i as int), c),
        decreases i,
    {
        assert(v@.take(i as int).drop_last() =~= v@.take(i - 1));
        if v[i - 1] == c {
            return Some(i - 1);
        }
        i = i - 1;
    }
    None
}

/// `base` joined with `part`.
fn join(base: &Vec<char>, part: &Vec<char>) -> (r: Vec<char>)
    ensures
        r@ == join_path(base@, part@),
{
    if part.len() > 0 && part[0] == '/' {
        copy_chars(part)
    } else if base.len() == 0 {
        copy_chars(part)
    } else {
        let mut out = copy_chars(base);
        if base[base.len() - 1] != '/' {
            out.push('/');
        }
        let mut i: usize = 0;
        let ghost start = out@;
        while i < part.len()
            invariant
                i <= part.len(),
                out@ == start + part@.take(i as int),
            decreases part.len() - i,
        {
            out.push(part[i]);
            assert(out@ =~= start + part@.take(i + 1));
            i = i + 1;
        }
        assert(part@.take(part.len() as int) =~= part@);
        assert(out@ =~= join_path(base@, part@));
        out
    }
}

/// `base` joined with a literal part.
fn join_str(base: &Vec<char>, part: &str) -> (r: Vec<char>)
    ensures
        r@ == join_path(base@, part@),
{
    join(base, &chars_vec(part))
}

/// The directory of a file.
fn parent(p: &Vec<char>) -> (r: Vec<char>)
    ensures
        r@ == parent_dir(p@),
{
    proof {
        lemma_last_index_of(p@, '/');
    }
    match last_index(p, '/') {
        None => {
            let v: Vec<char> = Vec::new();
            assert(v@ =~= parent_dir(p@));
            v
        },
        Some(i) => {
            if i > 0 {
                let r = sub_chars(p, 0, i);
                assert(r@ =~= p@.take(i as int));
                r
            } else if p.len() > 1 {
                let mut v: Vec<char> = Vec::new();
                v.push('/');
                assert(v@ =~= parent_dir(p@));
                v
            } else {
                let mut v: Vec<char> = Vec::new();
                v.push('.');
                assert(v@ =~= parent_dir(p@));
                v
            }
        },
    }
}

/// The dot-separated parts of an import path.
fn split(v: &Vec<char>) -> (r: Vec<Vec<char>>)
    ensures
        char_views(r@) == split_dots(v@),
    decreases v.len(),
{
    proof {
        lemma_last_index_of(v@, '.');
    }
    match last_index(v, '.') {
        None => {
            let mut out: Vec<Vec<char>> = Vec::new();
            out.push(copy_chars(v));
            assert(char_views(out@) =~= split_dots(v@));
            out
        },
        Some(i) => {
            let head = sub_chars(v, 0, i);
            assert(head@ =~= v@.take(i as int));
            let mut out = split(&head);
            let tail = sub_chars(v, i + 1, v.len());
            assert(tail@ =~= v@.skip(i + 1));
            let ghost before = out@;
            out.push(tail);
            assert(char_views(out@) =~= char_views(before).push(tail@));
            out
        },
    }
}

/// A part followed by `.nx`.
fn nx(part: &Vec<char>) -> (r: Vec<char>)
    ensures
        r@ == nx_file(part@),
{
    let mut out = copy_chars(part);
    push_str(&mut out, ".nx");
    out
}

/// `base` joined with every part, the last as a `.nx` file.
fn join_parts(base: &Vec<char>, parts: &Vec<Vec<char>>) -> (r: Vec<char>)
    requires
        parts.len() > 0,
    ensures
        r@ == parts_path(base@, char_views(parts@)),
{
    let ghost ps = char_views(parts@);
    let mut cur = copy_chars(base);
    let mut i: usize = 0;
    assert(ps.skip(0) =~= ps);
    while i + 1 < parts.len()
        invariant
            ps == char_views(parts@),
            parts.len() > 0,
            i < parts.len(),
            parts_path(base@, ps) == parts_path(cur@, ps.skip(i as int)),
        decreases parts.len() - i,
    {
        assert(ps.skip(i as int).drop_first() =~= ps.skip(i + 1));
        assert(ps.skip(i as int)[0] == parts@[i as int]@);
        cur = join(&cur, &parts[i]);
        i = i + 1;
    }
    assert(ps.skip(i as int).len() == 1);
    assert(ps.skip(i as int)[0] == parts@[i as int]@);
    join(&cur, &nx(&parts[i]))
}

// ── Copies of declarations ──────────────────────────────────────────────────

fn dup_types(v: &Vec<Type>) -> (r: Vec<Type>)
    ensures
        types_view(r@) == types_view(v@),
{
    let mut out: Vec<Type> = Vec::new();
    let mut i: usize = 0;
    while i < v.len()
        invariant
            i <= v.len(),
            types_view(out@) == types_view(v@.take(i as int)),
        decreases v.len() - i,
    {
        let t = v[i].duplicate();
        let ghost prev = out@;
        out.push(t);
        assert(v@.take(i + 1).drop_last() =~= v@.take(i as int));
        assert(out@.drop_last() =~= prev);
        i = i + 1;
    }
    assert(v@.take(v.len() as int) =~= v@);
    out
}

fn dup_enum(d: &EnumDecl) -> (r: EnumDecl)
    ensures
        r@ == d@,
{
    let mut vs: Vec<EnumVariant> = Vec::new();
    let mut i: usize = 0;
    while i < d.variants.len()
        invariant
            i <= d.variants.len(),
            vs@.len() == i,
            forall|j: int| 0 <= j < i ==> (#[trigger] vs@[j])@ == d.variants@[j]@,
        decreases d.variants.len() - i,
    {
        let v = &d.variants[i];
        vs.push(EnumVariant { name: v.name.clone(), fields: dup_types(&v.fields) });
        i = i + 1;
    }
    let r = EnumDecl { visibility: d.visibility, name: d.name.clone(), variants: vs };
    assert(views(r.variants@) =~= views(d.variants@));
    r
}

fn dup_decl(d: &Declaration) -> (r: Declaration)
    ensures
        r@ == d@,
{
    match d {
        Declaration::Class(c) => Declaration::Class(dup_class(c)),
        Declaration::Interface(i) => Declaration::Interface(dup_iface(i)),
        Declaration::Enum(e) => Declaration::Enum(dup_enum(e)),
        Declaration::Test(t) => Declaration::Test(TestDecl { name: t.name.clone(), body: dup_stmts(&t.body) }),
    }
}

fn dup_decls(v: &Vec<Declaration>) -> (r: Vec<Declaration>)
    ensures
        views(r@) == views(v@),
{
    let mut out: Vec<Declaration> = Vec::new();
    let mut i: usize = 0;
    while i < v.len()
        invariant
            i <= v.len(),
            out@.len() == i,
            forall|j: int| 0 <= j < i ==> (#[trigger] out@[j])@ == v@[j]@,
        decreases v.len() - i,
    {
        out.push(dup_decl(&v[i]));
        i = i + 1;
    }
    assert(views(out@) =~= views(v@));
    out
}

// ── The resolver ────────────────────────────────────────────────────────────

/// A successful load leaves what is being loaded as it was.
pub proof fn lemma_load_import_ok(
    ctx: ResolveCtx,
    imp: Seq<char>,
    rel_root: Seq<char>,
    loading: Seq<Seq<char>>,
    cache: DeclCache,
)
    ensures
        load_import(ctx, imp, rel_root, loading, cache).0 is Ok ==> load_import(ctx, imp, rel_root, loading, cache).1
            == loading,
    decreases unloaded(ctx.files, loading), 0nat, 0nat,
{
}

/// Loading several imports successfully leaves what is being loaded as it was.
pub proof fn lemma_load_all_ok(
    ctx: ResolveCtx,
    imports: Seq<Seq<char>>,
    rel_root: Seq<char>,
    loading: Seq<Seq<char>>,
    cache: DeclCache,
)
    ensures
        load_all(ctx, imports, rel_root, loading, cache).0 is Ok ==> load_all(ctx, imports, rel_root, loading, cache).1
            == loading,
    decreases imports.len(),
{
    if imports.len() > 0 {
        let (r, l1, c1) = load_import(ctx, imports[0], rel_root, loading, cache);
        lemma_load_all_ok(ctx, imports.drop_first(), rel_root, loading, c1);
    }
}

/// Once an import has loaded, loading it again serves the same declarations
/// from the cache: nothing is read, and the cache does not grow.
pub proof fn lemma_load_import_cached(
    ctx: ResolveCtx,
    imp: Seq<char>,
    rel_root: Seq<char>,
    loading: Seq<Seq<char>>,
    cache: DeclCache,
)
    requires
        load_import(ctx, imp, rel_root, loading, cache).0 is Ok,
    ensures
        ({
            let (r, l, c) = load_import(ctx, imp, rel_root, loading, cache);
            load_import(ctx, imp, rel_root, l, c) == (r, l, c)
        }),
{
}

/// A program without imports resolves to itself, and the resolver's state
/// is left as it was.
pub proof fn lemma_resolve_no_imports(
    ctx: ResolveCtx,
    loading: Seq<Seq<char>>,
    cache: DeclCache,
    entry: SpecProgram,
    entry_path: Seq<char>,
)
    requires
        entry.imports.len() == 0,
    ensures
        resolve_spec(ctx, loading, cache, entry, entry_path) == (Ok::<SpecProgram, SpecResolveErr>(entry), loading, cache),
{
    assert(Seq::<SpecDeclaration>::empty() + entry.declarations =~= entry.declarations);
}

/// A successful resolution keeps the entry program's name, package,
/// imports, server and routes, and ends with the entry's own declarations,
/// after those of its imports.
pub proof fn lemma_resolve_keeps_entry(
    ctx: ResolveCtx,
    loading: Seq<Seq<char>>,
    cache: DeclCache,
    entry: SpecProgram,
    entry_path: Seq<char>,
)
    ensures
        resolve_spec(ctx, loading, cache, entry, entry_path).0 matches Ok(out) ==> {
            &&& out.name == entry.name
            &&& out.package == entry.package
            &&& out.imports == entry.imports
            &&& out.server == entry.server
            &&& out.routes == entry.routes
            &&& out.declarations.len() >= entry.declarations.len()
            &&& out.declarations.skip(out.declarations.len() - entry.declarations.len()) == entry.declarations
        },
{
    let (r, l, c) = load_all(ctx, entry.imports, parent_dir(entry_path), loading, cache);
    match r {
        Ok(ds) => {
            assert((ds + entry.declarations).skip(ds.len() as int) =~= entry.declarations);
        },
        Err(_) => {},
    }
}

/// The sources after `add(p, c)`.
pub open spec fn added(files: Seq<(Seq<char>, Seq<char>)>, p: Seq<char>, c: Seq<char>) -> Seq<(Seq<char>, Seq<char>)> {
    match find_file(files, p) {
        Some(i) => files.update(i, (p, c)),
        None => files.push((p, c)),
    }
}

proof fn lemma_file_text_skip_last(files: Seq<(Seq<char>, Seq<char>)>, q: Seq<char>)
    requires
        files.len() > 0,
        files.last().0 != q,
    ensures
        file_text(files, q) == file_text(files.drop_last(), q),
{
    lemma_find_file(files.drop_last(), q);
}

proof fn lemma_find_file_update(files: Seq<(Seq<char>, Seq<char>)>, i: int, p: Seq<char>, c: Seq<char>, q: Seq<char>)
    requires
        find_file(files, p) == Some(i),
    ensures
        q == p ==> file_text(files.update(i, (p, c)), q) == Some(c),
        q != p ==> file_text(files.update(i, (p, c)), q) == file_text(files, q),
    decreases files.len(),
{
    lemma_find_file(files, p);
    let f2 = files.update(i, (p, c));
    if i == files.len() - 1 {
        assert(f2.drop_last() =~= files.drop_last());
        if q != p {
            lemma_file_text_skip_last(f2, q);
            lemma_file_text_skip_last(files, q);
        }
    } else {
        assert(f2.drop_last() =~= files.drop_last().update(i, (p, c)));
        assert(f2.last() == files.last());
        lemma_find_file_update(files.drop_last(), i, p, c, q);
        if files.last().0 != q {
            lemma_file_text_skip_last(f2, q);
            lemma_file_text_skip_last(files, q);
        }
    }
}

/// Reading after adding gives what was added; every other path reads as
/// before. Since `added` replaces the entry of a stored path, a later add of
/// the same path wins.
pub proof fn lemma_add_then_read(files: Seq<(Seq<char>, Seq<char>)>, p: Seq<char>, c: Seq<char>, q: Seq<char>)
    ensures
        file_text(added(files, p, c), p) == Some(c),
        q != p ==> file_text(added(files, p, c), q) == file_text(files, q),
        find_file(added(files, p, c), p) is Some,
{
    match find_file(files, p) {
        Some(i) => {
            lemma_find_file_update(files, i, p, c, p);
            lemma_find_file_update(files, i, p, c, q);
        },
        None => {
            assert(files.push((p, c)).drop_last() =~= files);
            if q != p {
                lemma_file_text_skip_last(files.push((p, c)), q);
            }
        },
    }
}

/// A provider with no source has none for any path.
pub proof fn lemma_new_has_nothing(q: Seq<char>)
    ensures
        file_text(Seq::<(Seq<char>, Seq<char>)>::empty(), q) is None,
{
}

/// The view of a declarations result.
pub open spec fn decls_res(r: Result<Vec<Declaration>, ResolveError>) -> Result<Seq<SpecDeclaration>, SpecResolveErr> {
    match r {
        Ok(v) => Ok(views(v@)),
        Err(e) => Err(e@),
    }
}

/// The view of a program result.
pub open spec fn program_res(r: Result<Program, ResolveError>) -> Result<SpecProgram, SpecResolveErr> {
    match r {
        Ok(p) => Ok(p@),
        Err(e) => Err(e@),
    }
}

/// Declarations in front of a result.
pub open spec fn with_prefix(
    ds: Seq<SpecDeclaration>,
    t: (Result<Seq<SpecDeclaration>, SpecResolveErr>, Seq<Seq<char>>, DeclCache),
) -> (Result<Seq<SpecDeclaration>, SpecResolveErr>, Seq<Seq<char>>, DeclCache) {
    match t.0 {
        Ok(x) => (Ok(ds + x), t.1, t.2),
        Err(e) => (Err(e), t.1, t.2),
    }
}

/// Resolves the imports of a program, with the sources it reads, the
/// files being loaded and the declarations of the files loaded so far.
pub struct Resolver {
    /// `src/main/` of the module being compiled: base for local imports.
    root: String,
    /// The project root: base of cross-module imports.
    project_root: String,
    /// The module being compiled. The search of installed packages under
    /// `modules/<name>/lib/` and `lib/`, which lists directories on disk, is
    /// not made here: every source comes from `source`.
    module_name: String,
    source: MemSourceProvider,
    cache: Vec<(Vec<char>, Vec<Declaration>)>,
    loading: Vec<Vec<char>>,
}

impl Resolver {
    /// The sources and directories the resolver works with.
    pub closed spec fn ctx(&self) -> ResolveCtx {
        ResolveCtx { files: self.source@, root: self.root@, project_root: self.project_root@ }
    }

    /// The files being loaded.
    pub closed spec fn loading_v(&self) -> Seq<Seq<char>> {
        char_views(self.loading@)
    }

    /// The declarations of each file loaded.
    pub closed spec fn cache_v(&self) -> DeclCache {
        self.cache@.map_values(|e: (Vec<char>, Vec<Declaration>)| (e.0@, views(e.1@)))
    }

    /// A resolver for the module `module_name`, whose `src/main/` is `root`,
    /// in the project at `project_root`, reading from `source`.
    pub fn new(root: &str, project_root: &str, module_name: &str, source: MemSourceProvider) -> (r: Resolver)
        ensures
            r.ctx() == (ResolveCtx { files: source@, root: root@, project_root: project_root@ }),
            r.loading_v() == Seq::<Seq<char>>::empty(),
            r.cache_v() == Seq::<(Seq<char>, Seq<SpecDeclaration>)>::empty(),
    {
        let r = Resolver {
            root: string_from_chars(chars_vec(root).as_slice()),
            project_root: string_from_chars(chars_vec(project_root).as_slice()),
            module_name: string_from_chars(chars_vec(module_name).as_slice()),
            source,
            cache: Vec::new(),
            loading: Vec::new(),
        };
        assert(r.loading_v() =~= Seq::<Seq<char>>::empty());
        assert(r.cache_v() =~= Seq::<(Seq<char>, Seq<SpecDeclaration>)>::empty());
        r
    }

    /// Whether `p` is being loaded.
    fn is_loading(&self, p: &Vec<char>) -> (r: bool)
        ensures
            r == self.loading_v().contains(p@),
    {
        let mut i: usize = 0;
        while i < self.loading.len()
            invariant
                i <= self.loading.len(),
                forall|j: int| 0 <= j < i ==> self.loading@[j]@ != p@,
            decreases self.loading.len() - i,
        {
            if chars_same(&self.loading[i], p) {
                assert(self.loading_v()[i as int] == p@);
                return true;
            }
            i = i + 1;
        }
        assert(!self.loading_v().contains(p@)) by {
            if self.loading_v().contains(p@) {
                let k = choose|k: int| 0 <= k < self.loading_v().len() && self.loading_v()[k] == p@;
                assert(self.loading@[k]@ == p@);
            }
        }
        false
    }

    /// A copy of the declarations cached for `p`.
    fn cached(&self, p: &Vec<char>) -> (r: Option<Vec<Declaration>>)
        ensures
            match r {
                Some(ds) => cache_find(self.cache_v(), p@) == Some(views(ds@)),
                None => cache_find(self.cache_v(), p@) is None,
            },
    {
        let mut i: usize = self.cache.len();
        assert(self.cache_v().take(i as int) =~= self.cache_v());
        while i > 0
            invariant
                i <= self.cache.len(),
                cache_find(self.cache_v(), p@) == cache_find(self.cache_v().take(i as int), p@),
            decreases i,
        {
            assert(self.cache_v().take(i as int).drop_last() =~= self.cache_v().take(i - 1));
            if chars_same(&self.cache[i - 1].0, p) {
                return Some(dup_decls(&self.cache[i - 1].1));
            }
            i = i - 1;
        }
        None
    }

    /// The file an import names.
    fn resolve_path(&self, imp: &Vec<char>, rel_root: &Vec<char>) -> (r: Result<Vec<char>, ResolveError>)
        ensures
            match r {
                Ok(p) => resolve_path_spec(self.ctx(), imp@, rel_root@) == Ok::<Seq<char>, SpecResolveErr>(p@),
                Err(e) => resolve_path_spec(self.ctx(), imp@, rel_root@) == Err::<Seq<char>, SpecResolveErr>(e@),
            },
    {
        let parts = split(imp);
        let ghost ps = char_views(parts@);
        assert(ps.len() > 0);
        let last = &parts[parts.len() - 1];
        let simple = join(rel_root, &nx(last));
        if self.source.has_source(&simple) {
            return Ok(simple);
        }
        let root = chars_vec(self.root.as_str());
        let rel = join_parts(&root, &parts);
        if self.source.has_source(&rel) {
            return Ok(rel);
        }
        let project_root = chars_vec(self.project_root.as_str());
        let m = join_str(&project_root, "modules");
        let m = join(&m, &parts[0]);
        let m = join_str(&m, "src");
        let m = join_str(&m, "main");
        let cross = join(&m, &nx(last));
        if parts.len() >= 2 && self.source.has_source(&cross) {
            return Ok(cross);
        }
        let mut msg: Vec<char> = Vec::new();
        push_str(&mut msg, "tried: ");
        let ghost m1 = msg@;
        let mut i: usize = 0;
        while i < simple.len()
            invariant
                i <= simple.len(),
                msg@ == m1 + simple@.take(i as int),
            decreases simple.len() - i,
        {
            msg.push(simple[i]);
            assert(msg@ =~= m1 + simple@.take(i + 1));
            i = i + 1;
        }
        assert(simple@.take(simple.len() as int) =~= simple@);
        push_str(&mut msg, ", ");
        let ghost m2 = msg@;
        let mut i: usize = 0;
        while i < rel.len()
            invariant
                i <= rel.len(),
                msg@ == m2 + rel@.take(i as int),
            decreases rel.len() - i,
        {
            msg.push(rel[i]);
            assert(msg@ =~= m2 + rel@.take(i + 1));
            i = i + 1;
        }
        assert(rel@.take(rel.len() as int) =~= rel@);
        push_str(&mut msg, " (module lib, project lib, cross-module)");
        assert(msg@ =~= tried_msg(simple@, rel@));
        Err(ResolveError::NotFound(string_from_chars(imp.as_slice()), string_from_chars(msg.as_slice())))
    }
}


impl Resolver {
    /// Loads one import: the declarations of the file it names, preceded by
    /// those of the file's own imports.
    fn load_import(&mut self, imp: &Vec<char>, rel_root: &Vec<char>) -> (r: Result<Vec<Declaration>, ResolveError>)
        ensures
            final(self).ctx() == old(self).ctx(),
            (decls_res(r), final(self).loading_v(), final(self).cache_v()) == load_import(
                old(self).ctx(),
                imp@,
                rel_root@,
                old(self).loading_v(),
                old(self).cache_v(),
            ),
        decreases unloaded(old(self).ctx().files, old(self).loading_v()), 0nat, 0nat,
    {
        let fp = match self.resolve_path(imp, rel_root) {
            Ok(p) => p,
            Err(e) => return Err(e),
        };
        if self.is_loading(&fp) {
            return Err(ResolveError::Cycle(string_from_chars(imp.as_slice())));
        }
        match self.cached(&fp) {
            Some(ds) => return Ok(ds),
            None => {},
        }
        let ghost l0 = self.loading_v();
        self.loading.push(copy_chars(&fp));
        assert(self.loading_v() =~= l0.push(fp@));
        let src = match self.source.read_source(&fp) {
            Some(t) => t,
            None => return Err(ResolveError::Io(string_from_chars(fp.as_slice()), string_from_chars(fp.as_slice()))),
        };
        let mut lexer = Lexer::new(src.as_str());
        let toks = match lexer.tokenize() {
            Ok(t) => t,
            Err(e) => return Err(ResolveError::Lex(string_from_chars(fp.as_slice()), e)),
        };
        assert(views(toks@) =~= spanned_views(toks@));
        let mut parser = Parser::new(toks);
        let lib = match parser.parse_lib() {
            Ok(l) => l,
            Err(e) => return Err(ResolveError::Parse(string_from_chars(fp.as_slice()), e)),
        };
        let lib_root = parent(&fp);
        proof {
            lemma_unloaded_push(self.ctx().files, l0, fp@);
            lemma_load_all_ok(self.ctx(), views(lib.imports@), lib_root@, l0.push(fp@), self.cache_v());
        }
        let ghost c1 = self.cache_v();
        let mut ds = match self.load_all(&lib.imports, &lib_root) {
            Ok(d) => d,
            Err(e) => return Err(e),
        };
        assert(self.loading_v() == l0.push(fp@));
        let ghost lp = self.loading@;
        let ghost before = ds@;
        let mut own = lib.declarations;
        ds.append(&mut own);
        assert(views(ds@) =~= views(before) + views(lib.declarations@));
        self.loading.pop();
        assert(self.loading@ =~= lp.drop_last());
        assert(char_views(lp).drop_last() =~= char_views(lp.drop_last()));
        assert(self.loading_v() =~= l0);
        let ghost c2 = self.cache_v();
        let copy = dup_decls(&ds);
        self.cache.push((fp, copy));
        assert(self.cache_v() =~= c2.push((fp@, views(ds@))));
        Ok(ds)
    }

    /// Loads imports in order, stopping at the first failure.
    fn load_all(&mut self, imports: &Vec<ImportDecl>, rel_root: &Vec<char>) -> (r: Result<Vec<Declaration>, ResolveError>)
        ensures
            final(self).ctx() == old(self).ctx(),
            (decls_res(r), final(self).loading_v(), final(self).cache_v()) == load_all(
                old(self).ctx(),
                views(imports@),
                rel_root@,
                old(self).loading_v(),
                old(self).cache_v(),
            ),
        decreases unloaded(old(self).ctx().files, old(self).loading_v()), 1nat, imports@.len(),
    {
        let ghost xs = views(imports@);
        let ghost l0 = self.loading_v();
        let mut out: Vec<Declaration> = Vec::new();
        let mut i: usize = 0;
        assert(xs.skip(0) =~= xs);
        assert(views(out@) =~= Seq::<SpecDeclaration>::empty());
        while i < imports.len()
            invariant
                i <= imports.len(),
                xs == views(imports@),
                self.ctx() == old(self).ctx(),
                self.loading_v() == l0,
                l0 == old(self).loading_v(),
                with_prefix(views(out@), load_all(self.ctx(), xs.skip(i as int), rel_root@, l0, self.cache_v()))
                    == load_all(old(self).ctx(), xs, rel_root@, l0, old(self).cache_v()),
            decreases imports.len() - i,
        {
            let ghost c0 = self.cache_v();
            assert(xs.skip(i as int)[0] == imports@[i as int]@);
            assert(xs.skip(i as int).drop_first() =~= xs.skip(i + 1));
            let imp = chars_vec(imports[i].path.as_str());
            proof {
                lemma_load_import_ok(self.ctx(), imp@, rel_root@, l0, c0);
            }
            match self.load_import(&imp, rel_root) {
                Err(e) => return Err(e),
                Ok(ds) => {
                    let ghost before = out@;
                    let ghost dsv = ds@;
                    let mut ds = ds;
                    out.append(&mut ds);
                    assert(views(out@) =~= views(before) + views(dsv));
                    proof {
                        let rest = load_all(self.ctx(), xs.skip(i + 1), rel_root@, l0, self.cache_v());
                        match rest.0 {
                            Ok(x) => {
                                assert(views(before) + (views(dsv) + x) =~= views(out@) + x);
                            },
                            Err(_) => {},
                        }
                    }
                },
            }
            i = i + 1;
        }
        assert(xs.skip(i as int) =~= Seq::<Seq<char>>::empty());
        assert(views(out@) + Seq::<SpecDeclaration>::empty() =~= views(out@));
        Ok(out)
    }

    /// Resolves the entry program and its transitive imports: the entry
    /// program with every imported declaration ahead of its own, so that its
    /// own declarations win on a clash of names.
    pub fn resolve(&mut self, entry: &Program, entry_path: &str) -> (r: Result<Program, ResolveError>)
        ensures
            final(self).ctx() == old(self).ctx(),
            (program_res(r), final(self).loading_v(), final(self).cache_v()) == resolve_spec(
                old(self).ctx(),
                old(self).loading_v(),
                old(self).cache_v(),
                entry@,
                entry_path@,
            ),
    {
        let entry_root = parent(&chars_vec(entry_path));
        let mut merged = match self.load_all(&entry.imports, &entry_root) {
            Ok(d) => d,
            Err(e) => return Err(e),
        };
        let ghost before = merged@;
        let mut own = dup_decls(&entry.declarations);
        merged.append(&mut own);
        assert(views(merged@) =~= views(before) + views(entry.declarations@));
        let package = match &entry.package {
            Some(p) => Some(p.clone()),
            None => None,
        };
        let mut imports: Vec<ImportDecl> = Vec::new();
        let mut i: usize = 0;
        while i < entry.imports.len()
            invariant
                i <= entry.imports.len(),
                imports@.len() == i,
                forall|j: int| 0 <= j < i ==> (#[trigger] imports@[j])@ == entry.imports@[j]@,
            decreases entry.imports.len() - i,
        {
            imports.push(ImportDecl { path: entry.imports[i].path.clone() });
            i = i + 1;
        }
        assert(views(imports@) =~= views(entry.imports@));
        let mut routes: Vec<Route> = Vec::new();
        let mut i: usize = 0;
        while i < entry.routes.len()
            invariant
                i <= entry.routes.len(),
                routes@.len() == i,
                forall|j: int| 0 <= j < i ==> (#[trigger] routes@[j])@ == entry.routes@[j]@,
            decreases entry.routes.len() - i,
        {
            routes.push(Route { path: entry.routes[i].path.clone(), target: entry.routes[i].target.clone() });
            i = i + 1;
        }
        assert(views(routes@) =~= views(entry.routes@));
        Ok(Program {
            name: entry.name.clone(),
            package,
            imports,
            server: entry.server,
            declarations: merged,
            routes,
        })
    }
}

} // verus!
