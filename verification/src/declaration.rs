//! Declarations, their signatures and the documentation bound to them.

use vstd::prelude::*;
use crate::model::Span;
use crate::signature::{TypeExpr, TypeView, type_views};

verus! {

/// The views of a list of byte strings, item by item.
pub open spec fn texts(s: Seq<Vec<u8>>) -> Seq<Seq<u8>> {
    Seq::new(s.len(), |i: int| s[i]@)
}

/// The view of an optional byte string.
pub open spec fn opt_text(s: Option<Vec<u8>>) -> Option<Seq<u8>> {
    match s {
        Some(t) => Some(t@),
        None => None,
    }
}

/// What kind of thing a declaration introduces.
#[derive(Clone, Copy, Debug, PartialEq, Eq, Structural)]
pub enum DeclKind {
    Type,
    Function,
    Field,
    Export,
}

/// Whether a declaration is part of the module's public surface.
#[derive(Clone, Copy, Debug, PartialEq, Eq, Structural)]
pub enum Visibility {
    Public,
    Private,
}

/// One parameter of a signature.
#[derive(Debug, PartialEq, Eq)]
pub struct Param {
    pub name: Vec<u8>,
    pub ty: TypeExpr,
    pub default: Option<Vec<u8>>,
}

/// The mathematical content of a [`Param`].
pub struct ParamView {
    pub name: Seq<u8>,
    pub ty: TypeView,
    pub default: Option<Seq<u8>>,
}

impl View for Param {
    type V = ParamView;

    open spec fn view(&self) -> ParamView {
        ParamView { name: self.name@, ty: self.ty@, default: opt_text(self.default) }
    }
}

impl DeepView for Param {
    type V = ParamView;

    open spec fn deep_view(&self) -> ParamView {
        self@
    }
}

/// A structured signature: generic parameters, parameters, results.
#[derive(Debug, PartialEq, Eq)]
pub struct Signature {
    pub generics: Vec<Vec<u8>>,
    pub params: Vec<Param>,
    pub returns: Vec<TypeExpr>,
}

/// The mathematical content of a [`Signature`].
pub struct SignatureView {
    pub generics: Seq<Seq<u8>>,
    pub params: Seq<ParamView>,
    pub returns: Seq<TypeView>,
}

impl View for Signature {
    type V = SignatureView;

    open spec fn view(&self) -> SignatureView {
        SignatureView {
            generics: texts(self.generics@),
            params: self.params.deep_view(),
            returns: type_views(self.returns@),
        }
    }
}

/// The kind of a tagged section of a documentation comment.
#[derive(Clone, Copy, Debug, PartialEq, Eq, Structural)]
pub enum TagKind {
    Param,
    Return,
    Deprecated,
    Custom,
}

/// A tagged section: `@param name text`, `@return text`, `@deprecated text`,
/// or `@name text` for any other name.
#[derive(Clone, Debug, PartialEq, Eq)]
pub struct Tag {
    pub kind: TagKind,
    pub name: Vec<u8>,
    pub text: Vec<u8>,
}

/// The mathematical content of a [`Tag`].
pub struct TagView {
    pub kind: TagKind,
    pub name: Seq<u8>,
    pub text: Seq<u8>,
}

impl View for Tag {
    type V = TagView;

    open spec fn view(&self) -> TagView {
        TagView { kind: self.kind, name: self.name@, text: self.text@ }
    }
}

impl DeepView for Tag {
    type V = TagView;

    open spec fn deep_view(&self) -> TagView {
        self@
    }
}

/// Structured documentation text.
#[derive(Clone, Debug, PartialEq, Eq)]
pub struct DocComment {
    pub summary: Vec<u8>,
    pub tags: Vec<Tag>,
    pub raw: Vec<u8>,
}

/// The mathematical content of a [`DocComment`].
pub struct DocView {
    pub summary: Seq<u8>,
    pub tags: Seq<TagView>,
    pub raw: Seq<u8>,
}

impl View for DocComment {
    type V = DocView;

    open spec fn view(&self) -> DocView {
        DocView { summary: self.summary@, tags: self.tags.deep_view(), raw: self.raw@ }
    }
}

/// The view of optional documentation.
pub open spec fn opt_doc(d: Option<DocComment>) -> Option<DocView> {
    match d {
        Some(c) => Some(c@),
        None => None,
    }
}

/// A documentable unit of a module. The declarations of a module form one
/// list; a member names the place of its enclosing declaration in that list.
#[derive(Debug, PartialEq, Eq)]
pub struct Declaration {
    pub kind: DeclKind,
    pub name: Vec<u8>,
    pub qualified_name: Vec<u8>,
    pub signature: Signature,
    pub span: Span,
    pub visibility: Visibility,
    pub doc: Option<DocComment>,
    pub parent: Option<usize>,
}

/// The mathematical content of a [`Declaration`].
pub struct DeclarationView {
    pub kind: DeclKind,
    pub name: Seq<u8>,
    pub qualified_name: Seq<u8>,
    pub signature: SignatureView,
    pub span: Span,
    pub visibility: Visibility,
    pub doc: Option<DocView>,
    pub parent: Option<usize>,
}

impl View for Declaration {
    type V = DeclarationView;

    open spec fn view(&self) -> DeclarationView {
        DeclarationView {
            kind: self.kind,
            name: self.name@,
            qualified_name: self.qualified_name@,
            signature: self.signature@,
            span: self.span,
            visibility: self.visibility,
            doc: opt_doc(self.doc),
            parent: self.parent,
        }
    }
}

impl DeepView for Declaration {
    type V = DeclarationView;

    open spec fn deep_view(&self) -> DeclarationView {
        self@
    }
}

/// The places of the declarations whose enclosing declaration is at `index`.
pub open spec fn children_spec(decls: Seq<DeclarationView>, index: int) -> Seq<int>
    decreases decls.len(),
{
    if decls.len() == 0 {
        Seq::empty()
    } else {
        let rest = children_spec(decls.drop_last(), index);
        match decls.last().parent {
            Some(p) => if p == index {
                rest.push(decls.len() - 1)
            } else {
                rest
            },
            None => rest,
        }
    }
}

/// The members of the declaration at `index`, by their places in `decls`.
pub fn children_of(decls: &Vec<Declaration>, index: usize) -> (r: Vec<usize>)
    ensures
        r@.map_values(|i: usize| i as int) == children_spec(decls.deep_view(), index as int),
{
    let mut r: Vec<usize> = Vec::new();
    let mut i: usize = 0;
    let ghost all = decls.deep_view();
    assert(all.subrange(0, 0) =~= Seq::<DeclarationView>::empty());
    assert(r@.map_values(|i: usize| i as int) =~= Seq::<int>::empty());
    while i < decls.len()
        invariant
            i <= decls.len(),
            all == decls.deep_view(),
            r@.map_values(|i: usize| i as int) == children_spec(
                all.subrange(0, i as int),
                index as int,
            ),
        decreases decls.len() - i,
    {
        let ghost before = r@;
        proof {
            let next = all.subrange(0, i + 1);
            assert(next.drop_last() =~= all.subrange(0, i as int));
            assert(next.last() == decls[i as int]@);
        }
        match decls[i].parent {
            Some(p) => {
                if p == index {
                    r.push(i);
                    assert(r@.map_values(|i: usize| i as int) =~= before.map_values(
                        |i: usize| i as int,
                    ).push(i as int));
                }
            },
            None => {},
        }
        i = i + 1;
    }
    assert(all.subrange(0, decls.len() as int) =~= all);
    r
}

} // verus!
