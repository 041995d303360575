//! From the statements of one module to its list of declarations.

use vstd::prelude::*;
use crate::declaration::{
    DeclKind, Declaration, DeclarationView, Param, ParamView, Signature, SignatureView,
    Visibility, opt_text, texts,
};
use crate::model::{append_bytes, copy_bytes};
use crate::signature::{normal_form, normal_forms, normalize, normalize_list, type_views};
use crate::syntax::{
    Statement, StatementKind, StatementView, lemma_statement_members, statement_views,
};

verus! {

/// Whether a statement of this kind introduces a declaration. Exported
/// bindings count at the top level only, fields inside a type only; type and
/// function definitions count at both levels.
pub open spec fn recognized(kind: StatementKind, nested: bool) -> bool {
    match kind {
        StatementKind::TypeDefinition => true,
        StatementKind::FunctionDefinition => true,
        StatementKind::ExportedBinding => !nested,
        StatementKind::Field => nested,
        StatementKind::Other => false,
    }
}

/// The kind of declaration that a recognized statement introduces.
pub open spec fn decl_kind(kind: StatementKind) -> DeclKind {
    match kind {
        StatementKind::TypeDefinition => DeclKind::Type,
        StatementKind::FunctionDefinition => DeclKind::Function,
        StatementKind::ExportedBinding => DeclKind::Export,
        _ => DeclKind::Field,
    }
}

/// The qualified name of `name` inside the declaration named `prefix`: the two
/// joined by a dot, or `name` alone at the top level.
pub open spec fn qualify(prefix: Seq<u8>, name: Seq<u8>) -> Seq<u8> {
    if prefix.len() == 0 {
        name
    } else {
        prefix + seq![46u8] + name
    }
}

/// Parameters with their types in canonical form.
pub open spec fn normal_params(ps: Seq<ParamView>) -> Seq<ParamView> {
    Seq::new(
        ps.len(),
        |i: int| ParamView { name: ps[i].name, ty: normal_form(ps[i].ty), default: ps[i].default },
    )
}

/// The signature of a statement, every type in canonical form.
pub open spec fn normal_signature(s: StatementView) -> SignatureView {
    SignatureView {
        generics: s.generics,
        params: normal_params(s.params),
        returns: normal_forms(s.returns),
    }
}

/// The declaration that the recognized statement `s` introduces.
pub open spec fn declare(s: StatementView, prefix: Seq<u8>, parent: Option<usize>)
    -> DeclarationView {
    DeclarationView {
        kind: decl_kind(s.kind),
        name: s.name,
        qualified_name: qualify(prefix, s.name),
        signature: normal_signature(s),
        span: s.span,
        visibility: if s.exported {
            Visibility::Public
        } else {
            Visibility::Private
        },
        doc: None,
        parent: parent,
    }
}

/// The declarations that `s` contributes when the list already holds `index`
/// of them: none if `s` is not recognized; else its own, then those of its
/// members if it is a type definition.
pub open spec fn extract_one(
    s: StatementView,
    prefix: Seq<u8>,
    parent: Option<usize>,
    nested: bool,
    index: nat,
) -> Seq<DeclarationView>
    decreases s, 0nat,
{
    if !recognized(s.kind, nested) {
        Seq::empty()
    } else if s.kind == StatementKind::TypeDefinition {
        seq![declare(s, prefix, parent)] + extract_prefix(
            s.members,
            s.members.len(),
            qualify(prefix, s.name),
            Some(index as usize),
            true,
            index + 1,
        )
    } else {
        seq![declare(s, prefix, parent)]
    }
}

/// The declarations that the first `upto` statements of `ss` contribute, in
/// order, when the list already holds `base` of them.
pub open spec fn extract_prefix(
    ss: Seq<StatementView>,
    upto: nat,
    prefix: Seq<u8>,
    parent: Option<usize>,
    nested: bool,
    base: nat,
) -> Seq<DeclarationView>
    decreases ss, upto,
{
    if upto == 0 || upto > ss.len() {
        Seq::empty()
    } else {
        let before = extract_prefix(ss, (upto - 1) as nat, prefix, parent, nested, base);
        before + extract_one(ss[upto - 1], prefix, parent, nested, base + before.len())
    }
}

/// The declaration list of a module with the top-level statements `ss`.
pub open spec fn extract_spec(ss: Seq<StatementView>) -> Seq<DeclarationView> {
    extract_prefix(ss, ss.len(), Seq::empty(), None, false, 0)
}

fn is_recognized(kind: StatementKind, nested: bool) -> (r: bool)
    ensures
        r == recognized(kind, nested),
{
    match kind {
        StatementKind::TypeDefinition => true,
        StatementKind::FunctionDefinition => true,
        StatementKind::ExportedBinding => !nested,
        StatementKind::Field => nested,
        StatementKind::Other => false,
    }
}

fn kind_of(kind: StatementKind) -> (r: DeclKind)
    ensures
        r == decl_kind(kind),
{
    match kind {
        StatementKind::TypeDefinition => DeclKind::Type,
        StatementKind::FunctionDefinition => DeclKind::Function,
        StatementKind::ExportedBinding => DeclKind::Export,
        _ => DeclKind::Field,
    }
}

/// Joins a prefix and a name as [`qualify`] says.
pub fn qualified(prefix: &Vec<u8>, name: &Vec<u8>) -> (r: Vec<u8>)
    ensures
        r@ == qualify(prefix@, name@),
{
    if prefix.len() == 0 {
        copy_bytes(name)
    } else {
        let mut r = copy_bytes(prefix);
        r.push(46u8);
        append_bytes(&mut r, name);
        assert(r@ =~= prefix@ + seq![46u8] + name@);
        r
    }
}

/// Copies a list of byte strings.
pub fn copy_texts(src: &Vec<Vec<u8>>) -> (r: Vec<Vec<u8>>)
    ensures
        texts(r@) == texts(src@),
{
    let mut r: Vec<Vec<u8>> = Vec::new();
    let mut i: usize = 0;
    while i < src.len()
        invariant
            i <= src.len(),
            texts(r@) == texts(src@).subrange(0, i as int),
        decreases src.len() - i,
    {
        let ghost before = r@;
        let item = copy_bytes(&src[i]);
        r.push(item);
        assert(texts(r@) =~= texts(before).push(item@));
        assert(texts(r@) =~= texts(src@).subrange(0, i + 1));
        i = i + 1;
    }
    assert(texts(src@).subrange(0, src.len() as int) =~= texts(src@));
    r
}

/// Copies an optional byte string.
pub fn copy_opt_bytes(src: &Option<Vec<u8>>) -> (r: Option<Vec<u8>>)
    ensures
        opt_text(r) == opt_text(*src),
{
    match src {
        Some(t) => Some(copy_bytes(t)),
        None => None,
    }
}

/// Copies parameters, bringing each type into canonical form.
pub fn normalize_params(ps: &Vec<Param>) -> (r: Vec<Param>)
    ensures
        r.deep_view() == normal_params(ps.deep_view()),
{
    let mut r: Vec<Param> = Vec::new();
    let mut i: usize = 0;
    while i < ps.len()
        invariant
            i <= ps.len(),
            r.deep_view() == normal_params(ps.deep_view()).subrange(0, i as int),
        decreases ps.len() - i,
    {
        let ghost before = r.deep_view();
        let p = &ps[i];
        let item = Param {
            name: copy_bytes(&p.name),
            ty: normalize(&p.ty),
            default: copy_opt_bytes(&p.default),
        };
        r.push(item);
        assert(r.deep_view() =~= before.push(item@));
        assert(ps.deep_view()[i as int] == p@);
        assert(r.deep_view() =~= normal_params(ps.deep_view()).subrange(0, i + 1));
        i = i + 1;
    }
    assert(normal_params(ps.deep_view()).subrange(0, ps.len() as int) =~= normal_params(
        ps.deep_view(),
    ));
    r
}

fn declaration_of(s: &Statement, prefix: &Vec<u8>, parent: Option<usize>) -> (d: Declaration)
    ensures
        d@ == declare(s@, prefix@, parent),
{
    let results = normalize_list(&s.returns, s.returns.len());
    proof {
        let all = normal_forms(type_views(s.returns@));
        assert(all.subrange(0, s.returns.len() as int) =~= all);
    }
    let d = Declaration {
        kind: kind_of(s.kind),
        name: copy_bytes(&s.name),
        qualified_name: qualified(prefix, &s.name),
        signature: Signature {
            generics: copy_texts(&s.generics),
            params: normalize_params(&s.params),
            returns: results,
        },
        span: s.span,
        visibility: if s.exported {
            Visibility::Public
        } else {
            Visibility::Private
        },
        doc: None,
        parent,
    };
    d
}

/// Appends to `out` what the statement `s` contributes.
pub fn extract_statement(
    s: &Statement,
    prefix: &Vec<u8>,
    parent: Option<usize>,
    nested: bool,
    out: &mut Vec<Declaration>,
)
    ensures
        final(out).deep_view() == old(out).deep_view() + extract_one(
            s@,
            prefix@,
            parent,
            nested,
            old(out).len() as nat,
        ),
    decreases s, 0nat,
{
    let ghost start = out.deep_view();
    if !is_recognized(s.kind, nested) {
        assert(out.deep_view() =~= start + Seq::<DeclarationView>::empty());
        return ;
    }
    let index = out.len();
    let d = declaration_of(s, prefix, parent);
    let composite = match s.kind {
        StatementKind::TypeDefinition => true,
        _ => false,
    };
    out.push(d);
    assert(out.deep_view() =~= start + seq![declare(s@, prefix@, parent)]);
    if composite {
        let inner = qualified(prefix, &s.name);
        proof {
            lemma_statement_members(*s);
        }
        extract_members(&s.members, s.members.len(), &inner, Some(index), true, out);
        assert(out.deep_view() =~= start + (seq![declare(s@, prefix@, parent)] + extract_prefix(
            s@.members,
            s@.members.len(),
            inner@,
            Some(index),
            true,
            (index + 1) as nat,
        )));
    }
}

/// Appends to `out` what the first `upto` statements of `ss` contribute.
pub(crate) fn extract_members(
    ss: &Vec<Statement>,
    upto: usize,
    prefix: &Vec<u8>,
    parent: Option<usize>,
    nested: bool,
    out: &mut Vec<Declaration>,
)
    requires
        upto <= ss.len(),
    ensures
        final(out).deep_view() == old(out).deep_view() + extract_prefix(
            statement_views(ss@),
            upto as nat,
            prefix@,
            parent,
            nested,
            old(out).len() as nat,
        ),
    decreases ss, upto,
{
    let ghost start = out.deep_view();
    if upto == 0 {
        assert(out.deep_view() =~= start + Seq::<DeclarationView>::empty());
    } else {
        extract_members(ss, upto - 1, prefix, parent, nested, out);
        let ghost before = extract_prefix(
            statement_views(ss@),
            (upto - 1) as nat,
            prefix@,
            parent,
            nested,
            start.len(),
        );
        assert(out.deep_view().len() == start.len() + before.len());
        extract_statement(&ss[upto - 1], prefix, parent, nested, out);
        assert(out.deep_view() =~= start + (before + extract_one(
            statement_views(ss@)[upto - 1],
            prefix@,
            parent,
            nested,
            start.len() + before.len(),
        )));
    }
}

/// Builds the declaration list of a module from its top-level statements.
///
/// Statements that introduce nothing documentable are passed over in silence.
pub fn extract(statements: &Vec<Statement>) -> (r: Vec<Declaration>)
    ensures
        r.deep_view() == extract_spec(statement_views(statements@)),
{
    let mut out: Vec<Declaration> = Vec::new();
    let prefix: Vec<u8> = Vec::new();
    extract_members(statements, statements.len(), &prefix, None, false, &mut out);
    assert(out.deep_view() =~= extract_spec(statement_views(statements@)));
    out
}

} // verus!
