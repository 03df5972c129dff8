//! The compiler pipeline to WebAssembly text: lexing, parsing, resolving the
//! imports over sources held in memory, semantic analysis, lowering to the
//! IR, and the WASM backend.
use vstd::prelude::*;
use crate::lexer::{LexError, Lexer, lex_from, spanned_views};
use crate::parser::{ParseError, Parser, error_span};
use crate::grammar::{SpecParseError, g_program};
use crate::ast::{Program, SpecClassDecl, SpecInterfaceDecl, SpecProgram, views};
use crate::resolver::{MemSourceProvider, ResolveCtx, ResolveError, Resolver, SpecResolveErr, resolve_spec, lex_start, parse_start};
use crate::semantic::{SemanticAnalyzer, SemanticError, SpecSemErr};
use crate::semantic::passes::{analyze_spec, analysis_fits};
use crate::lower::{lower, lower_program};
use crate::optimizer::{before_folding, folds_safely, optimize, optimized};
use crate::wasm::module::{WasmCodegenError, generate_wat, module_wat, unsupported_msg};
use crate::span::Span;
use crate::text::{chars_vec, push_str, string_from_chars};

verus! {

/// The stage that failed, with its error.
pub enum CompileErrorKind {
    Lex(LexError),
    Parse(ParseError),
    Resolve(ResolveError),
    Semantic(SemanticError),
    Codegen(String),
}

/// A failed compilation: the error, where it was found, the file, and the
/// source text when the error points into it.
pub struct CompileError {
    pub span: Span,
    pub kind: CompileErrorKind,
    pub file: Option<String>,
    pub source: Option<String>,
}

/// The output of the WebAssembly backend: text in the WebAssembly text
/// format, ready to be assembled into a binary module.
pub struct WasmCompileResult {
    pub wat: String,
}

/// The view of a stage's error.
pub enum SpecCompileErr {
    Lex(LexError),
    Parse(SpecParseError),
    Resolve(SpecResolveErr),
    Semantic(SpecSemErr),
    Codegen(Seq<char>),
}

impl View for CompileErrorKind {
    type V = SpecCompileErr;

    open spec fn view(&self) -> SpecCompileErr {
        match self {
            CompileErrorKind::Lex(e) => SpecCompileErr::Lex(*e),
            CompileErrorKind::Parse(e) => SpecCompileErr::Parse(e@),
            CompileErrorKind::Resolve(e) => SpecCompileErr::Resolve(e@),
            CompileErrorKind::Semantic(e) => SpecCompileErr::Semantic(e@),
            CompileErrorKind::Codegen(s) => SpecCompileErr::Codegen(s@),
        }
    }
}

/// The position of a semantic error.
pub open spec fn sem_span(e: SpecSemErr) -> Span {
    match e {
        SpecSemErr::UndefinedType(_, s) => s,
        SpecSemErr::Duplicate(_, s) => s,
        SpecSemErr::NotAWindow(_, s) => s,
        SpecSemErr::UnknownImport(_, s) => s,
        SpecSemErr::NotPublic(_, s) => s,
        SpecSemErr::TypeMismatch(_, _, s) => s,
        SpecSemErr::UndeclaredTypeParam(_, _, _, s) => s,
        SpecSemErr::InfiniteType(_, s) => s,
    }
}

/// Where an error is reported: its own position for lexing, parsing and
/// analysis, none for resolution and code generation.
pub open spec fn err_span(k: SpecCompileErr) -> Span {
    match k {
        SpecCompileErr::Lex(e) => e.location(),
        SpecCompileErr::Parse(e) => error_span(e),
        SpecCompileErr::Semantic(e) => sem_span(e),
        _ => Span::spec_dummy(),
    }
}

/// Whether the error points into the source text.
pub open spec fn with_source(k: SpecCompileErr) -> bool {
    k is Lex || k is Parse || k is Semantic
}

/// Lexing, parsing and resolving: the program with its imports merged.
pub open spec fn front_spec(
    src: Seq<char>,
    files: Seq<(Seq<char>, Seq<char>)>,
    root: Seq<char>,
    project_root: Seq<char>,
    entry: Seq<char>,
) -> Result<SpecProgram, SpecCompileErr> {
    match lex_from(src, lex_start()) {
        Err(e) => Err(SpecCompileErr::Lex(e)),
        Ok(toks) => match g_program(toks, parse_start()).0 {
            Err(e) => Err(SpecCompileErr::Parse(e)),
            Ok(p) => match resolve_spec(
                ResolveCtx { files, root, project_root },
                Seq::empty(),
                Seq::empty(),
                p,
                entry,
            ).0 {
                Err(e) => Err(SpecCompileErr::Resolve(e)),
                Ok(r) => Ok(r),
            },
        },
    }
}

/// The resolved program of a source file once it has passed the analysis,
/// or the first stage's error.
pub open spec fn checked_spec(
    src: Seq<char>,
    files: Seq<(Seq<char>, Seq<char>)>,
    root: Seq<char>,
    project_root: Seq<char>,
    entry: Seq<char>,
) -> Result<SpecProgram, SpecCompileErr> {
    match front_spec(src, files, root, project_root, entry) {
        Err(e) => Err(e),
        Ok(r) => match analyze_spec(Seq::empty(), Seq::empty(), r) {
            Err(e) => Err(SpecCompileErr::Semantic(e)),
            Ok(_) => Ok(r),
        },
    }
}

/// `e` reports the stage error `k` of the file `entry` whose text is `src`:
/// its span, the file, and the text where the error points into it.
pub open spec fn reports(e: CompileError, k: SpecCompileErr, src: Seq<char>, entry: Seq<char>) -> bool {
    &&& e.kind@ == k
    &&& e.span == err_span(k)
    &&& e.file matches Some(f) && f@ == entry
    &&& if with_source(k) {
        e.source matches Some(s) && s@ == src
    } else {
        e.source is None
    }
}

/// The WAT text of a source file, or the first stage's error.
pub open spec fn compile_wat_spec(
    src: Seq<char>,
    files: Seq<(Seq<char>, Seq<char>)>,
    root: Seq<char>,
    project_root: Seq<char>,
    entry: Seq<char>,
) -> Result<Seq<char>, SpecCompileErr> {
    match front_spec(src, files, root, project_root, entry) {
        Err(e) => Err(e),
        Ok(r) => match analyze_spec(Seq::empty(), Seq::empty(), r) {
            Err(e) => Err(SpecCompileErr::Semantic(e)),
            Ok(_) => match module_wat(lower_program(r)) {
                None => Err(SpecCompileErr::Codegen("WASM codegen: "@ + unsupported_msg())),
                Some(w) => Ok(w),
            },
        },
    }
}

/// The analysis of the resolved program stays within its 32-bit limits.
pub open spec fn compile_fits(
    src: Seq<char>,
    files: Seq<(Seq<char>, Seq<char>)>,
    root: Seq<char>,
    project_root: Seq<char>,
    entry: Seq<char>,
) -> bool {
    match front_spec(src, files, root, project_root, entry) {
        Ok(r) => analysis_fits(Seq::<SpecClassDecl>::empty(), Seq::<SpecInterfaceDecl>::empty(), r),
        Err(_) => true,
    }
}

fn owned(s: &str) -> (r: String)
    ensures
        r@ == s@,
{
    string_from_chars(chars_vec(s).as_slice())
}

/// Lexes, parses, resolves and analyses the source of `entry_path`, the
/// stages that every output of the compiler starts with.
fn check_source(
    source: &str,
    files: MemSourceProvider,
    entry_path: &str,
    src_root: &str,
    project_root: &str,
    module_name: &str,
) -> (r: Result<Program, CompileError>)
    requires
        compile_fits(source@, files@, src_root@, project_root@, entry_path@),
    ensures
        match checked_spec(source@, files@, src_root@, project_root@, entry_path@) {
            Ok(p) => r matches Ok(q) && q@ == p,
            Err(k) => r matches Err(e) && reports(e, k, source@, entry_path@),
        },
{
    let mut lexer = Lexer::new(source);
    let tokens = match lexer.tokenize() {
        Ok(t) => t,
        Err(e) => {
            return Err(
                CompileError { span: e.span(), kind: CompileErrorKind::Lex(e), file: Some(owned(entry_path)), source: Some(owned(source)) },
            );
        },
    };
    assert(views(tokens@) =~= spanned_views(tokens@));
    let mut parser = Parser::new(tokens);
    let program = match parser.parse() {
        Ok(p) => p,
        Err(e) => {
            return Err(
                CompileError { span: e.span(), kind: CompileErrorKind::Parse(e), file: Some(owned(entry_path)), source: Some(owned(source)) },
            );
        },
    };
    let mut resolver = Resolver::new(src_root, project_root, module_name, files);
    let resolved = match resolver.resolve(&program, entry_path) {
        Ok(p) => p,
        Err(e) => {
            return Err(
                CompileError { span: Span::dummy(), kind: CompileErrorKind::Resolve(e), file: Some(owned(entry_path)), source: None },
            );
        },
    };
    let mut analyzer = SemanticAnalyzer::new();
    match analyzer.analyze(&resolved) {
        Ok(()) => {},
        Err(e) => {
            return Err(
                CompileError { span: e.span(), kind: CompileErrorKind::Semantic(e), file: Some(owned(entry_path)), source: Some(owned(source)) },
            );
        },
    }
    Ok(resolved)
}

/// Compiles the source of `entry_path` to WebAssembly text: lex, parse,
/// resolve its imports against `files` (for the module `module_name` whose
/// `src/main/` is `src_root`, in the project at `project_root`), analyse,
/// lower, and generate.
pub fn compile_source_to_wat(
    source: &str,
    files: MemSourceProvider,
    entry_path: &str,
    src_root: &str,
    project_root: &str,
    module_name: &str,
) -> (r: Result<String, CompileError>)
    requires
        compile_fits(source@, files@, src_root@, project_root@, entry_path@),
    ensures
        match compile_wat_spec(source@, files@, src_root@, project_root@, entry_path@) {
            Ok(w) => r matches Ok(s) && s@ == w,
            Err(k) => r matches Err(e) && reports(e, k, source@, entry_path@),
        },
{
    let resolved = match check_source(source, files, entry_path, src_root, project_root, module_name) {
        Ok(p) => p,
        Err(e) => {
            return Err(e);
        },
    };
    let ir = lower(&resolved);
    match generate_wat(&ir) {
        Ok(w) => Ok(w),
        Err(WasmCodegenError::Error(m)) => {
            let mut t: Vec<char> = Vec::new();
            push_str(&mut t, "WASM codegen: ");
            let mv = chars_vec(m.as_str());
            crate::wasm::push_chars(&mut t, &mv);
            assert(t@ =~= "WASM codegen: "@ + unsupported_msg());
            Err(
                CompileError {
                    span: Span::dummy(),
                    kind: CompileErrorKind::Codegen(string_from_chars(t.as_slice())),
                    file: Some(owned(entry_path)),
                    source: None,
                },
            )
        },
    }
}

/// Compiles the source of `entry_path` to the optimized program that an
/// application bundle carries: lex, parse, resolve, analyse and optimize.
/// Constant folding must not overflow, as in the optimizer.
pub fn compile_source_to_program(
    source: &str,
    files: MemSourceProvider,
    entry_path: &str,
    src_root: &str,
    project_root: &str,
    module_name: &str,
) -> (r: Result<Program, CompileError>)
    requires
        compile_fits(source@, files@, src_root@, project_root@, entry_path@),
        checked_spec(source@, files@, src_root@, project_root@, entry_path@) matches Ok(p) ==> folds_safely(
            before_folding(p),
        ),
    ensures
        match checked_spec(source@, files@, src_root@, project_root@, entry_path@) {
            Ok(p) => r matches Ok(q) && q@ == optimized(p),
            Err(k) => r matches Err(e) && reports(e, k, source@, entry_path@),
        },
{
    match check_source(source, files, entry_path, src_root, project_root, module_name) {
        Ok(p) => Ok(optimize(p)),
        Err(e) => Err(e),
    }
}

} // verus!
