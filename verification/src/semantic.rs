//! The semantic analysis of a program: its errors, the analyzer, and its
//! passes (names, references, imports, routes, annotations, type parameters
//! and Hindley-Milner inference).
use vstd::prelude::*;
use crate::ast::{ClassDecl, InterfaceDecl, SpecClassDecl, SpecInterfaceDecl, views};
use crate::span::Span;

pub mod infer;
pub mod passes;

verus! {

/// An error found by the semantic analysis, with its position.
#[derive(Debug, Clone)]
pub enum SemanticError {
    UndefinedType { name: String, span: Span },
    Duplicate { name: String, span: Span },
    NotAWindow { name: String, span: Span },
    UnknownImport { path: String, span: Span },
    NotPublic { name: String, span: Span },
    TypeMismatch { expected: String, found: String, span: Span },
    UndeclaredTypeParam { param: String, context: String, declared: String, span: Span },
    InfiniteType(String, Span),
}

/// The semantic analyzer: the classes and interfaces it knows by name.
pub struct SemanticAnalyzer {
    pub classes: Vec<ClassDecl>,
    pub interfaces: Vec<InterfaceDecl>,
}

impl SemanticAnalyzer {
    pub open spec fn cv(&self) -> Seq<SpecClassDecl> {
        views(self.classes@)
    }

    pub open spec fn iv(&self) -> Seq<SpecInterfaceDecl> {
        views(self.interfaces@)
    }

    /// An analyzer that knows no class or interface yet.
    pub fn new() -> (a: SemanticAnalyzer)
        ensures
            a.cv() == Seq::<SpecClassDecl>::empty(),
            a.iv() == Seq::<SpecInterfaceDecl>::empty(),
    {
        let a = SemanticAnalyzer { classes: Vec::new(), interfaces: Vec::new() };
        assert(a.cv() =~= Seq::<SpecClassDecl>::empty());
        assert(a.iv() =~= Seq::<SpecInterfaceDecl>::empty());
        a
    }

    /// Makes `c` the class known by its name, in place of any it had.
    pub fn insert_class(&mut self, c: ClassDecl)
        ensures
            final(self).iv() == old(self).iv(),
            final(self).cv() == match infer::class_index(old(self).cv(), c@.name) {
                Some(i) => old(self).cv().update(i, c@),
                None => old(self).cv().push(c@),
            },
    {
        let ghost c0 = self.cv();
        let ghost cview = c@;
        let mut i: usize = 0;
        proof {
            infer::lemma_class_index(c0, cview.name);
        }
        while i < self.classes.len()
            invariant
                i <= self.classes@.len(),
                c0 == self.cv(),
                c0 == old(self).cv(),
                self.iv() == old(self).iv(),
                cview == c@,
                forall|j: int| 0 <= j < i ==> #[trigger] c0[j].name != cview.name,
            decreases self.classes.len() - i,
        {
            if crate::text::str_eq(self.classes[i].name.as_str(), c.name.as_str()) {
                proof {
                    infer::lemma_class_index(c0, cview.name);
                    match infer::class_index(c0, cview.name) {
                        Some(k) => {
                            if k < i {
                                assert(c0[k].name != cview.name);
                            }
                            if k > i {
                                assert(c0[i as int].name == cview.name);
                            }
                        },
                        None => {
                            assert(c0[i as int].name == cview.name);
                        },
                    }
                }
                self.classes.set(i, c);
                assert(self.cv() =~= c0.update(i as int, cview));
                return;
            }
            i = i + 1;
        }
        proof {
            infer::lemma_class_index(c0, cview.name);
            if infer::class_index(c0, cview.name) is Some {
                let k = infer::class_index(c0, cview.name)->0;
                assert(c0[k].name != cview.name);
            }
        }
        self.classes.push(c);
        assert(self.cv() =~= c0.push(cview));
    }
}

impl Default for SemanticAnalyzer {
    fn default() -> (a: SemanticAnalyzer)
        ensures
            a.cv() == Seq::<SpecClassDecl>::empty(),
            a.iv() == Seq::<SpecInterfaceDecl>::empty(),
    {
        SemanticAnalyzer::new()
    }
}

/// The mathematical view of a [`SemanticError`].
pub enum SpecSemErr {
    UndefinedType(Seq<char>, Span),
    Duplicate(Seq<char>, Span),
    NotAWindow(Seq<char>, Span),
    UnknownImport(Seq<char>, Span),
    NotPublic(Seq<char>, Span),
    TypeMismatch(Seq<char>, Seq<char>, Span),
    UndeclaredTypeParam(Seq<char>, Seq<char>, Seq<char>, Span),
    InfiniteType(Seq<char>, Span),
}

impl View for SemanticError {
    type V = SpecSemErr;

    open spec fn view(&self) -> SpecSemErr {
        match self {
            SemanticError::UndefinedType { name, span } => SpecSemErr::UndefinedType(name@, *span),
            SemanticError::Duplicate { name, span } => SpecSemErr::Duplicate(name@, *span),
            SemanticError::NotAWindow { name, span } => SpecSemErr::NotAWindow(name@, *span),
            SemanticError::UnknownImport { path, span } => SpecSemErr::UnknownImport(path@, *span),
            SemanticError::NotPublic { name, span } => SpecSemErr::NotPublic(name@, *span),
            SemanticError::TypeMismatch { expected, found, span } => SpecSemErr::TypeMismatch(expected@, found@, *span),
            SemanticError::UndeclaredTypeParam { param, context, declared, span } => SpecSemErr::UndeclaredTypeParam(
                param@,
                context@,
                declared@,
                *span,
            ),
            SemanticError::InfiniteType(m, span) => SpecSemErr::InfiniteType(m@, *span),
        }
    }
}

impl SemanticError {
    /// The position every variant carries.
    pub open spec fn location(self) -> Span {
        match self {
            SemanticError::UndefinedType { span, .. } => span,
            SemanticError::Duplicate { span, .. } => span,
            SemanticError::NotAWindow { span, .. } => span,
            SemanticError::UnknownImport { span, .. } => span,
            SemanticError::NotPublic { span, .. } => span,
            SemanticError::TypeMismatch { span, .. } => span,
            SemanticError::UndeclaredTypeParam { span, .. } => span,
            SemanticError::InfiniteType(_, span) => span,
        }
    }

    pub fn span(&self) -> (s: Span)
        ensures
            s == self.location(),
    {
        match self {
            SemanticError::UndefinedType { span, .. } => *span,
            SemanticError::Duplicate { span, .. } => *span,
            SemanticError::NotAWindow { span, .. } => *span,
            SemanticError::UnknownImport { span, .. } => *span,
            SemanticError::NotPublic { span, .. } => *span,
            SemanticError::TypeMismatch { span, .. } => *span,
            SemanticError::UndeclaredTypeParam { span, .. } => *span,
            SemanticError::InfiniteType(_, span) => *span,
        }
    }
}

} // verus!
