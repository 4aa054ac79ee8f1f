//! The source-side data model: the shape of one parsed source unit, reduced
//! to exactly what extraction reads — comment text with its attachment
//! position, and declarations with their start position, kind, and members.

use vstd::prelude::*;

verus! {

/// One comment of a source unit: its text (without the comment markers) and
/// the start position of the syntax node the parser attached it to.
#[derive(Clone, Debug)]
pub struct Comment {
    pub text: String,
    pub attached_to: u32,
}

/// Mathematical view of a `Comment`.
pub struct CommentView {
    pub text: Seq<char>,
    pub attached_to: u32,
}

impl View for Comment {
    type V = CommentView;

    open spec fn view(&self) -> CommentView {
        CommentView { text: self.text@, attached_to: self.attached_to }
    }
}

/// The type annotation written on a member, reduced to the keywords the
/// schema can represent; everything else is `Unsupported`.
#[derive(Clone, Copy, PartialEq, Eq, Structural, Debug)]
pub enum TypeAnnotation {
    BooleanKeyword,
    NumberKeyword,
    StringKeyword,
    Unsupported,
}

/// One member of a declaration body. `Field` is a property signature with an
/// identifier name and an explicit type annotation; anything else (methods,
/// index signatures, computed names, missing annotations) is `Other`.
#[derive(Clone, Debug)]
pub enum Member {
    Field(String, TypeAnnotation),
    Other,
}

/// Mathematical view of a `Member`.
pub enum MemberView {
    Field(Seq<char>, TypeAnnotation),
    Other,
}

impl View for Member {
    type V = MemberView;

    open spec fn view(&self) -> MemberView {
        match self {
            Member::Field(name, ann) => MemberView::Field(name@, *ann),
            Member::Other => MemberView::Other,
        }
    }
}

/// The kind of a top-level declaration: a property-bag type declaration
/// (an interface-shaped construct) with its members, or anything else.
#[derive(Clone, Debug)]
pub enum DeclKind {
    PropertyBag(Vec<Member>),
    Other,
}

/// Mathematical view of a `DeclKind`.
pub enum DeclKindView {
    PropertyBag(Seq<MemberView>),
    Other,
}

impl View for DeclKind {
    type V = DeclKindView;

    open spec fn view(&self) -> DeclKindView {
        match self {
            DeclKind::PropertyBag(ms) => DeclKindView::PropertyBag(
                ms@.map_values(|m: Member| m@),
            ),
            DeclKind::Other => DeclKindView::Other,
        }
    }
}

/// One top-level declaration: its start position in the source and its kind.
#[derive(Clone, Debug)]
pub struct Decl {
    pub start: u32,
    pub kind: DeclKind,
}

/// Mathematical view of a `Decl`.
pub struct DeclView {
    pub start: u32,
    pub kind: DeclKindView,
}

impl View for Decl {
    type V = DeclView;

    open spec fn view(&self) -> DeclView {
        DeclView { start: self.start, kind: self.kind@ }
    }
}

/// One parsed source unit: its comments and its top-level declarations.
#[derive(Clone, Debug)]
pub struct SourceUnit {
    pub comments: Vec<Comment>,
    pub decls: Vec<Decl>,
}

/// Mathematical view of a `SourceUnit`.
pub struct SourceUnitView {
    pub comments: Seq<CommentView>,
    pub decls: Seq<DeclView>,
}

impl View for SourceUnit {
    type V = SourceUnitView;

    open spec fn view(&self) -> SourceUnitView {
        SourceUnitView {
            comments: self.comments@.map_values(|c: Comment| c@),
            decls: self.decls@.map_values(|d: Decl| d@),
        }
    }
}

} // verus!
