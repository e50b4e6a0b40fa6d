//! The abstract syntax tree built by the parser: expressions, statements,
//! blocks, declarations and programs, together with their mathematical views.

use vstd::prelude::*;

verus! {

/// A type is currently a bare name string; only `"int"` is ever produced.
pub type Type = String;

/// The name of a function or variable.
pub type Name = String;

/// An expression; currently only a non-negative 64-bit numeric literal.
#[derive(Debug, Clone, PartialEq, Eq)]
pub enum CExpr {
    Number(u64),
}

/// A statement; currently only `return <expr>`.
#[derive(Debug, Clone, PartialEq, Eq)]
pub enum CStm {
    Return(CExpr),
}

/// A block is an ordered sequence of statements; order is execution order.
pub type CBlock = Vec<CStm>;

/// A top-level declaration; currently only a function definition with a
/// return type, a name, an ordered parameter list (always empty today), and
/// a body block.
#[derive(Debug, Clone, PartialEq, Eq)]
pub enum CDecl {
    Fun { return_tp: Type, name: Name, parameters: Vec<(Type, Name)>, body: CBlock },
}

/// A program is an ordered sequence of declarations, in source order.
pub type CProgram = Vec<CDecl>;

/// The mathematical value of a `CExpr`.
pub enum SpecExpr {
    Number(u64),
}

/// The mathematical value of a `CStm`.
pub enum SpecStm {
    Return(SpecExpr),
}

/// The mathematical value of a `CDecl`: strings become character sequences
/// and vectors become sequences.
pub enum SpecDecl {
    Fun {
        return_tp: Seq<char>,
        name: Seq<char>,
        parameters: Seq<(Seq<char>, Seq<char>)>,
        body: Seq<SpecStm>,
    },
}

impl DeepView for CExpr {
    type V = SpecExpr;

    open spec fn deep_view(&self) -> SpecExpr {
        match self {
            CExpr::Number(n) => SpecExpr::Number(*n),
        }
    }
}

impl DeepView for CStm {
    type V = SpecStm;

    open spec fn deep_view(&self) -> SpecStm {
        match self {
            CStm::Return(e) => SpecStm::Return(e.deep_view()),
        }
    }
}

impl DeepView for CDecl {
    type V = SpecDecl;

    open spec fn deep_view(&self) -> SpecDecl {
        match self {
            CDecl::Fun { return_tp, name, parameters, body } => (SpecDecl::Fun {
                return_tp: return_tp@,
                name: name@,
                parameters: parameters@.map_values(|p: (Type, Name)| (p.0@, p.1@)),
                body: body.deep_view(),
            }),
        }
    }
}

} // verus!
