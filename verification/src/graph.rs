//! The project-wide documentation graph: modules merged, identifiers
//! assigned, references resolved.

use vstd::prelude::*;
use vstd::string::*;
use crate::declaration::{
    Declaration, DeclarationView, Param, ParamView, Signature, SignatureView, texts,
};
use crate::extractor::{copy_opt_bytes, copy_texts};
use crate::model::{
    Diagnostic, DiagnosticCode, DiagnosticView, Position, append_bytes, bytes_equal, copy_bytes,
    diagnostic_view, reversed,
};
use crate::signature::{TypeExpr, TypeView, lemma_type_view_unfold, type_views};

verus! {

/// One analysed file: where it is, what it declares, what was found wrong.
#[derive(Debug, PartialEq, Eq)]
pub struct Module {
    /// The logical path, relative to the configured root.
    pub path: Vec<u8>,
    /// The absolute path of the file.
    pub file: Vec<u8>,
    /// The text of the file as it was read.
    pub source: Vec<u8>,
    pub declarations: Vec<Declaration>,
    pub diagnostics: Vec<Diagnostic>,
}

/// The mathematical content of a [`Module`].
pub struct ModuleView {
    pub path: Seq<u8>,
    pub file: Seq<u8>,
    pub source: Seq<u8>,
    pub declarations: Seq<DeclarationView>,
    pub diagnostics: Seq<DiagnosticView>,
}

impl View for Module {
    type V = ModuleView;

    open spec fn view(&self) -> ModuleView {
        ModuleView {
            path: self.path@,
            file: self.file@,
            source: self.source@,
            declarations: self.declarations.deep_view(),
            diagnostics: self.diagnostics.deep_view(),
        }
    }
}

impl DeepView for Module {
    type V = ModuleView;

    open spec fn deep_view(&self) -> ModuleView {
        self@
    }
}

/// The global identifier of the declaration `qualified` of the module at
/// `module`: the path, `#`, the qualified name. It depends on nothing else.
pub open spec fn identifier(module: Seq<u8>, qualified: Seq<u8>) -> Seq<u8> {
    module + seq![35u8] + qualified
}

/// Computes [`identifier`].
pub fn identifier_of(module: &Vec<u8>, qualified: &Vec<u8>) -> (id: Vec<u8>)
    ensures
        id@ == identifier(module@, qualified@),
{
    let mut id = copy_bytes(module);
    id.push(35u8);
    append_bytes(&mut id, qualified);
    id
}

/// Identifiers tell declarations apart: as long as qualified names hold no
/// `#`, two declarations with one identifier have one module path and one
/// qualified name.
pub proof fn lemma_identifier_injective(m1: Seq<u8>, n1: Seq<u8>, m2: Seq<u8>, n2: Seq<u8>)
    requires
        !n1.contains(35u8),
        !n2.contains(35u8),
        identifier(m1, n1) == identifier(m2, n2),
    ensures
        m1 == m2,
        n1 == n2,
{
    let a = identifier(m1, n1);
    let b = identifier(m2, n2);
    assert(a.len() == m1.len() + 1 + n1.len());
    assert(b.len() == m2.len() + 1 + n2.len());
    assert(a[m1.len() as int] == 35u8);
    assert(b[m2.len() as int] == 35u8);
    if m1.len() < m2.len() {
        let k = m2.len() - m1.len() - 1;
        assert(a[m2.len() as int] == n1[k]);
        assert(n1.contains(35u8));
    }
    if m2.len() < m1.len() {
        let k = m1.len() - m2.len() - 1;
        assert(b[m1.len() as int] == n2[k]);
        assert(n2.contains(35u8));
    }
    assert(m1 =~= a.subrange(0, m1.len() as int));
    assert(m2 =~= b.subrange(0, m2.len() as int));
    assert(n1 =~= a.subrange(m1.len() as int + 1, a.len() as int));
    assert(n2 =~= b.subrange(m2.len() as int + 1, b.len() as int));
}

/// The identifiers of a module's declarations, in the order of the list.
pub open spec fn module_ids(m: ModuleView) -> Seq<Seq<u8>> {
    Seq::new(
        m.declarations.len(),
        |i: int| identifier(m.path, m.declarations[i].qualified_name),
    )
}

/// The identifiers of the first `upto` modules, in order.
pub open spec fn all_ids(ms: Seq<ModuleView>, upto: nat) -> Seq<Seq<u8>>
    decreases upto,
{
    if upto == 0 {
        Seq::empty()
    } else {
        all_ids(ms, (upto - 1) as nat) + module_ids(ms[upto - 1])
    }
}

/// The entries at `i` and `j` are the first collision of `ids`: `j` is the
/// first place that repeats an earlier identifier, and `i` the first place
/// that holds it.
pub open spec fn first_collision(ids: Seq<Seq<u8>>, i: int, j: int) -> bool {
    &&& 0 <= i < j < ids.len()
    &&& ids[i] == ids[j]
    &&& forall|a: int, b: int| 0 <= a < b < j ==> ids[a] != ids[b]
    &&& forall|a: int| 0 <= a < i ==> ids[a] != ids[j]
}

/// Two declarations that claim one identifier.
#[derive(Clone, Debug, PartialEq, Eq)]
pub struct Collision {
    pub identifier: Vec<u8>,
    /// The place, in the list of all identifiers, that held it first.
    pub first: usize,
    /// The place that claimed it again.
    pub second: usize,
    /// The module of the declaration that claimed it again, by its place
    /// among the modules.
    pub module: usize,
    /// That declaration, by its place in its module.
    pub declaration: usize,
    /// The logical path of that module.
    pub path: Vec<u8>,
    /// Where that declaration starts.
    pub at: Position,
}

/// Where the identifiers of the module at `k` start in the list of all
/// identifiers.
pub open spec fn offset(ms: Seq<ModuleView>, k: nat) -> nat {
    all_ids(ms, k).len()
}

/// The declaration at place `i` of module `k` is the one whose identifier
/// stands at `position` in the list of all identifiers.
pub open spec fn is_at_position(ms: Seq<ModuleView>, position: int, k: int, i: int) -> bool {
    &&& 0 <= k < ms.len()
    &&& 0 <= i < ms[k].declarations.len()
    &&& offset(ms, k as nat) + i == position
}

/// What a collision says of the modules `ms`.
pub open spec fn describes_collision(c: Collision, ms: Seq<ModuleView>) -> bool {
    &&& first_collision(all_ids(ms, ms.len()), c.first as int, c.second as int)
    &&& c.identifier@ == all_ids(ms, ms.len())[c.second as int]
    &&& is_at_position(ms, c.second as int, c.module as int, c.declaration as int)
    &&& c.path@ == ms[c.module as int].path
    &&& c.at == ms[c.module as int].declarations[c.declaration as int].span.start
}

/// Collects the identifiers of all declarations, module by module.
pub fn collect_ids(modules: &Vec<Module>) -> (ids: Vec<Vec<u8>>)
    ensures
        texts(ids@) == all_ids(modules.deep_view(), modules.len() as nat),
{
    let ghost mv = modules.deep_view();
    let mut ids: Vec<Vec<u8>> = Vec::new();
    let mut k: usize = 0;
    assert(texts(ids@) =~= all_ids(mv, 0));
    while k < modules.len()
        invariant
            k <= modules.len(),
            mv == modules.deep_view(),
            texts(ids@) == all_ids(mv, k as nat),
        decreases modules.len() - k,
    {
        let m = &modules[k];
        assert(mv[k as int] == m@);
        let ghost start = texts(ids@);
        let mut i: usize = 0;
        assert(texts(ids@) =~= start + module_ids(m@).subrange(0, 0));
        while i < m.declarations.len()
            invariant
                i <= m.declarations.len(),
                texts(ids@) == start + module_ids(m@).subrange(0, i as int),
            decreases m.declarations.len() - i,
        {
            let ghost before = ids@;
            assert(m@.declarations[i as int] == m.declarations[i as int]@);
            let id = identifier_of(&m.path, &m.declarations[i].qualified_name);
            ids.push(id);
            assert(texts(ids@) =~= texts(before).push(id@));
            assert(texts(ids@) =~= start + module_ids(m@).subrange(0, i + 1));
            i = i + 1;
        }
        assert(module_ids(m@).subrange(0, m.declarations.len() as int) =~= module_ids(m@));
        k = k + 1;
    }
    ids
}

/// Decides whether `ids` holds `id`, and where first.
pub(crate) fn position_of(ids: &Vec<Vec<u8>>, upto: usize, id: &Vec<u8>) -> (r: Option<usize>)
    requires
        upto <= ids.len(),
    ensures
        r matches Some(i) ==> i < upto && ids[i as int]@ == id@ && forall|a: int|
            0 <= a < i ==> (#[trigger] ids[a])@ != id@,
        r is None ==> forall|a: int| 0 <= a < upto ==> (#[trigger] ids[a])@ != id@,
{
    let mut i: usize = 0;
    while i < upto
        invariant
            i <= upto <= ids.len(),
            forall|a: int| 0 <= a < i ==> (#[trigger] ids[a])@ != id@,
        decreases upto - i,
    {
        if bytes_equal(&ids[i], id) {
            return Some(i);
        }
        i = i + 1;
    }
    None
}

/// Looks for two places of `ids` that hold one identifier.
pub fn find_collision(ids: &Vec<Vec<u8>>) -> (r: Option<(usize, usize)>)
    ensures
        r matches Some((i, j)) ==> first_collision(texts(ids@), i as int, j as int),
        r is None ==> texts(ids@).no_duplicates(),
{
    let ghost all = texts(ids@);
    let mut j: usize = 0;
    while j < ids.len()
        invariant
            j <= ids.len(),
            all == texts(ids@),
            forall|a: int, b: int| 0 <= a < b < j ==> all[a] != all[b],
        decreases ids.len() - j,
    {
        match position_of(ids, j, &ids[j]) {
            Some(i) => {
                assert(all[i as int] == ids[i as int]@);
                assert(all[j as int] == ids[j as int]@);
                assert forall|a: int| 0 <= a < i implies all[a] != all[j as int] by {
                    assert(all[a] == ids[a]@);
                }
                return Some((i, j));
            },
            None => {
                assert forall|a: int, b: int| 0 <= a < b < j + 1 implies all[a] != all[b] by {
                    if b == j {
                        assert(all[a] == ids[a]@);
                        assert(all[b] == ids[b]@);
                    }
                }
            },
        }
        j = j + 1;
    }
    assert forall|a: int, b: int| 0 <= a < all.len() && 0 <= b < all.len() && a != b implies all[a]
        != all[b] by {
        if a < b {
        } else {
            assert(all[b] != all[a]);
        }
    }
    None
}

/// Finds the declaration whose identifier stands at `position` in the list of
/// all identifiers.
pub(crate) fn locate(modules: &Vec<Module>, position: usize) -> (r: (usize, usize))
    requires
        position < all_ids(modules.deep_view(), modules.len() as nat).len(),
    ensures
        is_at_position(modules.deep_view(), position as int, r.0 as int, r.1 as int),
{
    let ghost mv = modules.deep_view();
    let mut k: usize = 0;
    let mut start: usize = 0;
    loop
        invariant
            k <= modules.len(),
            mv == modules.deep_view(),
            start == offset(mv, k as nat),
            start <= position,
            position < all_ids(mv, modules.len() as nat).len(),
        decreases modules.len() - k,
    {
        if k == modules.len() {
            assert(false);
            return (0, 0);
        }
        let m = &modules[k];
        assert(mv[k as int] == m@);
        assert(all_ids(mv, (k + 1) as nat) == all_ids(mv, k as nat) + module_ids(mv[k as int]));
        let count = m.declarations.len();
        if position - start < count {
            return (k, position - start);
        }
        start = start + count;
        k = k + 1;
    }
}

/// A type with its references looked up in `ids`: one that `ids` holds becomes
/// the identifier itself, any other an opaque name. An identifier that is
/// already in place stays only if `ids` holds it. Nothing is dropped.
pub open spec fn resolve_type(t: TypeView, ids: Seq<Seq<u8>>) -> TypeView
    decreases t,
{
    match t {
        TypeView::Reference { module, name } => if ids.contains(identifier(module, name)) {
            TypeView::Resolved(identifier(module, name))
        } else {
            TypeView::External(name)
        },
        TypeView::Resolved(id) => if ids.contains(id) {
            t
        } else {
            TypeView::External(id)
        },
        TypeView::Optional(inner) => TypeView::Optional(Box::new(resolve_type(*inner, ids))),
        TypeView::Union(ts) => TypeView::Union(resolve_types(ts, ids)),
        TypeView::Function(ps, rs) => TypeView::Function(
            resolve_types(ps, ids),
            resolve_types(rs, ids),
        ),
        _ => t,
    }
}

/// A list of types resolved item by item.
pub open spec fn resolve_types(ts: Seq<TypeView>, ids: Seq<Seq<u8>>) -> Seq<TypeView>
    decreases ts,
{
    Seq::new(
        ts.len(),
        |i: int|
            if 0 <= i < ts.len() {
                resolve_type(ts[i], ids)
            } else {
                TypeView::Primitive(Seq::empty())
            },
    )
}

/// The identifiers that `t` refers to and `ids` does not hold, in the order in
/// which `t` mentions them, each as often as it is mentioned.
pub open spec fn unresolved_in(t: TypeView, ids: Seq<Seq<u8>>) -> Seq<Seq<u8>>
    decreases t, 0nat,
{
    match t {
        TypeView::Reference { module, name } => if ids.contains(identifier(module, name)) {
            Seq::empty()
        } else {
            seq![identifier(module, name)]
        },
        TypeView::Resolved(id) => if ids.contains(id) {
            Seq::empty()
        } else {
            seq![id]
        },
        TypeView::Optional(inner) => unresolved_in(*inner, ids),
        TypeView::Union(ts) => unresolved_in_prefix(ts, ts.len(), ids),
        TypeView::Function(ps, rs) => unresolved_in_prefix(ps, ps.len(), ids)
            + unresolved_in_prefix(rs, rs.len(), ids),
        _ => Seq::empty(),
    }
}

/// [`unresolved_in`] over the first `upto` items of a list.
pub open spec fn unresolved_in_prefix(ts: Seq<TypeView>, upto: nat, ids: Seq<Seq<u8>>) -> Seq<
    Seq<u8>,
>
    decreases ts, upto,
{
    if upto == 0 || upto > ts.len() {
        Seq::empty()
    } else {
        unresolved_in_prefix(ts, (upto - 1) as nat, ids) + unresolved_in(ts[upto - 1], ids)
    }
}

/// Decides whether `ids` holds `id`.
pub fn holds(ids: &Vec<Vec<u8>>, id: &Vec<u8>) -> (r: bool)
    ensures
        r == texts(ids@).contains(id@),
{
    match position_of(ids, ids.len(), id) {
        Some(i) => {
            assert(texts(ids@)[i as int] == id@);
            true
        },
        None => {
            assert forall|a: int| 0 <= a < texts(ids@).len() implies texts(ids@)[a] != id@ by {
                assert(texts(ids@)[a] == ids[a]@);
            }
            false
        },
    }
}

/// Resolves the references of `t` against `ids`, and appends to `missing` the
/// identifiers that were not found.
pub fn resolve(t: &TypeExpr, ids: &Vec<Vec<u8>>, missing: &mut Vec<Vec<u8>>) -> (r: TypeExpr)
    ensures
        r@ == resolve_type(t@, texts(ids@)),
        texts(final(missing)@) == texts(old(missing)@) + unresolved_in(t@, texts(ids@)),
    decreases t, 0nat,
{
    proof {
        lemma_type_view_unfold(*t);
    }
    let ghost start = texts(missing@);
    let ghost known = texts(ids@);
    match t {
        TypeExpr::Reference { module, name } => {
            let id = identifier_of(module, name);
            if holds(ids, &id) {
                assert(texts(missing@) =~= start + Seq::<Seq<u8>>::empty());
                TypeExpr::Resolved(id)
            } else {
                let ghost before = missing@;
                missing.push(id);
                assert(texts(missing@) =~= texts(before).push(id@));
                assert(texts(missing@) =~= start + seq![id@]);
                TypeExpr::External(copy_bytes(name))
            }
        },
        TypeExpr::Optional(inner) => {
            let r = TypeExpr::Optional(Box::new(resolve(inner, ids, missing)));
            proof {
                lemma_type_view_unfold(r);
            }
            r
        },
        TypeExpr::Union(ts) => {
            let r = TypeExpr::Union(resolve_list(ts, ts.len(), ids, missing));
            proof {
                lemma_type_view_unfold(r);
                let all = resolve_types(type_views(ts@), known);
                assert(all.subrange(0, ts.len() as int) =~= all);
            }
            r
        },
        TypeExpr::Function(ps, rs) => {
            let params = resolve_list(ps, ps.len(), ids, missing);
            let results = resolve_list(rs, rs.len(), ids, missing);
            let r = TypeExpr::Function(params, results);
            proof {
                lemma_type_view_unfold(r);
                let a = resolve_types(type_views(ps@), known);
                let b = resolve_types(type_views(rs@), known);
                assert(a.subrange(0, ps.len() as int) =~= a);
                assert(b.subrange(0, rs.len() as int) =~= b);
                assert(texts(missing@) =~= start + (unresolved_in_prefix(
                    type_views(ps@),
                    ps.len() as nat,
                    known,
                ) + unresolved_in_prefix(type_views(rs@), rs.len() as nat, known)));
            }
            r
        },
        TypeExpr::Primitive(n) => {
            assert(texts(missing@) =~= start + Seq::<Seq<u8>>::empty());
            TypeExpr::Primitive(copy_bytes(n))
        },
        TypeExpr::Resolved(id) => {
            if holds(ids, id) {
                assert(texts(missing@) =~= start + Seq::<Seq<u8>>::empty());
                TypeExpr::Resolved(copy_bytes(id))
            } else {
                let ghost before = missing@;
                let copy = copy_bytes(id);
                missing.push(copy);
                assert(texts(missing@) =~= texts(before).push(id@));
                assert(texts(missing@) =~= start + seq![id@]);
                TypeExpr::External(copy_bytes(id))
            }
        },
        TypeExpr::External(n) => {
            assert(texts(missing@) =~= start + Seq::<Seq<u8>>::empty());
            TypeExpr::External(copy_bytes(n))
        },
    }
}

/// Resolves the first `upto` items of `ts`.
pub(crate) fn resolve_list(
    ts: &Vec<TypeExpr>,
    upto: usize,
    ids: &Vec<Vec<u8>>,
    missing: &mut Vec<Vec<u8>>,
) -> (r: Vec<TypeExpr>)
    requires
        upto <= ts.len(),
    ensures
        type_views(r@) == resolve_types(type_views(ts@), texts(ids@)).subrange(0, upto as int),
        texts(final(missing)@) == texts(old(missing)@) + unresolved_in_prefix(
            type_views(ts@),
            upto as nat,
            texts(ids@),
        ),
    decreases ts, upto,
{
    let ghost start = texts(missing@);
    let ghost known = texts(ids@);
    if upto == 0 {
        let r: Vec<TypeExpr> = Vec::new();
        assert(type_views(r@) =~= resolve_types(type_views(ts@), known).subrange(0, 0));
        assert(texts(missing@) =~= start + Seq::<Seq<u8>>::empty());
        r
    } else {
        let mut r = resolve_list(ts, upto - 1, ids, missing);
        let ghost before = r@;
        let item = resolve(&ts[upto - 1], ids, missing);
        r.push(item);
        assert(type_views(r@) =~= type_views(before).push(item@));
        assert(type_views(r@) =~= resolve_types(type_views(ts@), known).subrange(0, upto as int));
        assert(texts(missing@) =~= start + (unresolved_in_prefix(
            type_views(ts@),
            (upto - 1) as nat,
            known,
        ) + unresolved_in(type_views(ts@)[upto - 1], known)));
        r
    }
}

/// Every reference in `t` has been looked up: `t` holds no unresolved
/// reference, and every identifier in it is one of `ids`.
pub open spec fn settled(t: TypeView, ids: Seq<Seq<u8>>) -> bool
    decreases t,
{
    match t {
        TypeView::Reference { .. } => false,
        TypeView::Resolved(id) => ids.contains(id),
        TypeView::Optional(inner) => settled(*inner, ids),
        TypeView::Union(ts) => forall|i: int| 0 <= i < ts.len() ==> settled(#[trigger] ts[i], ids),
        TypeView::Function(ps, rs) => (forall|i: int|
            0 <= i < ps.len() ==> settled(#[trigger] ps[i], ids)) && (forall|i: int|
            0 <= i < rs.len() ==> settled(#[trigger] rs[i], ids)),
        _ => true,
    }
}

/// Resolution leaves no reference open: each one ends as an identifier that
/// `ids` holds or as an opaque name.
pub proof fn lemma_resolution_settles(t: TypeView, ids: Seq<Seq<u8>>)
    ensures
        settled(resolve_type(t, ids), ids),
    decreases t,
{
    match t {
        TypeView::Optional(inner) => {
            lemma_resolution_settles(*inner, ids);
        },
        TypeView::Union(ts) => {
            let rs = resolve_types(ts, ids);
            assert forall|i: int| 0 <= i < rs.len() implies settled(#[trigger] rs[i], ids) by {
                lemma_resolution_settles(ts[i], ids);
            }
        },
        TypeView::Function(ps, rs) => {
            let a = resolve_types(ps, ids);
            let b = resolve_types(rs, ids);
            assert forall|i: int| 0 <= i < a.len() implies settled(#[trigger] a[i], ids) by {
                lemma_resolution_settles(ps[i], ids);
            }
            assert forall|i: int| 0 <= i < b.len() implies settled(#[trigger] b[i], ids) by {
                lemma_resolution_settles(rs[i], ids);
            }
        },
        _ => {},
    }
}

/// `t` mentions the identifier `id`, as a reference or in place.
pub open spec fn mentions(t: TypeView, id: Seq<u8>) -> bool
    decreases t,
{
    match t {
        TypeView::Reference { module, name } => identifier(module, name) == id,
        TypeView::Resolved(x) => x == id,
        TypeView::Optional(inner) => mentions(*inner, id),
        TypeView::Union(ts) => exists|i: int| 0 <= i < ts.len() && mentions(#[trigger] ts[i], id),
        TypeView::Function(ps, rs) => (exists|i: int|
            0 <= i < ps.len() && mentions(#[trigger] ps[i], id)) || (exists|i: int|
            0 <= i < rs.len() && mentions(#[trigger] rs[i], id)),
        _ => false,
    }
}

/// How a type resolves depends only on which of the identifiers that it
/// mentions are known.
pub proof fn lemma_resolution_is_local(t: TypeView, ids1: Seq<Seq<u8>>, ids2: Seq<Seq<u8>>)
    requires
        forall|id: Seq<u8>| mentions(t, id) ==> (ids1.contains(id) <==> ids2.contains(id)),
    ensures
        resolve_type(t, ids1) == resolve_type(t, ids2),
        unresolved_in(t, ids1) == unresolved_in(t, ids2),
    decreases t, 0nat,
{
    match t {
        TypeView::Reference { module, name } => {
            assert(mentions(t, identifier(module, name)));
        },
        TypeView::Resolved(x) => {
            assert(mentions(t, x));
        },
        TypeView::Optional(inner) => {
            assert forall|id: Seq<u8>| mentions(*inner, id) implies (ids1.contains(id)
                <==> ids2.contains(id)) by {
                assert(mentions(t, id));
            }
            lemma_resolution_is_local(*inner, ids1, ids2);
        },
        TypeView::Union(ts) => {
            lemma_resolution_is_local_list(ts, ts.len(), ids1, ids2);
            assert(resolve_types(ts, ids1) =~= resolve_types(ts, ids2));
        },
        TypeView::Function(ps, rs) => {
            lemma_resolution_is_local_list(ps, ps.len(), ids1, ids2);
            lemma_resolution_is_local_list(rs, rs.len(), ids1, ids2);
            assert(resolve_types(ps, ids1) =~= resolve_types(ps, ids2));
            assert(resolve_types(rs, ids1) =~= resolve_types(rs, ids2));
        },
        _ => {},
    }
}

/// [`lemma_resolution_is_local`] for the first `upto` items of a list.
pub proof fn lemma_resolution_is_local_list(
    ts: Seq<TypeView>,
    upto: nat,
    ids1: Seq<Seq<u8>>,
    ids2: Seq<Seq<u8>>,
)
    requires
        upto <= ts.len(),
        forall|i: int, id: Seq<u8>|
            0 <= i < ts.len() && mentions(#[trigger] ts[i], id) ==> (ids1.contains(id)
                <==> #[trigger] ids2.contains(id)),
    ensures
        forall|i: int|
            0 <= i < upto ==> resolve_type(#[trigger] ts[i], ids1) == resolve_type(ts[i], ids2),
        unresolved_in_prefix(ts, upto, ids1) == unresolved_in_prefix(ts, upto, ids2),
    decreases ts, upto,
{
    if upto > 0 {
        lemma_resolution_is_local_list(ts, (upto - 1) as nat, ids1, ids2);
        lemma_resolution_is_local(ts[upto - 1], ids1, ids2);
    }
}

/// Parameters with their types resolved.
pub open spec fn resolve_params(ps: Seq<ParamView>, ids: Seq<Seq<u8>>) -> Seq<ParamView> {
    Seq::new(
        ps.len(),
        |i: int|
            ParamView { name: ps[i].name, ty: resolve_type(ps[i].ty, ids), default: ps[i].default },
    )
}

/// The identifiers that the types of the first `upto` parameters refer to and
/// `ids` does not hold.
pub open spec fn unresolved_in_params(ps: Seq<ParamView>, upto: nat, ids: Seq<Seq<u8>>) -> Seq<
    Seq<u8>,
>
    decreases upto,
{
    if upto == 0 {
        Seq::empty()
    } else {
        unresolved_in_params(ps, (upto - 1) as nat, ids) + unresolved_in(ps[upto - 1].ty, ids)
    }
}

/// A signature with every type resolved.
pub open spec fn resolve_signature(s: SignatureView, ids: Seq<Seq<u8>>) -> SignatureView {
    SignatureView {
        generics: s.generics,
        params: resolve_params(s.params, ids),
        returns: resolve_types(s.returns, ids),
    }
}

/// The identifiers that a signature refers to and `ids` does not hold:
/// those of the parameters first, then those of the results.
pub open spec fn signature_unresolved(s: SignatureView, ids: Seq<Seq<u8>>) -> Seq<Seq<u8>> {
    unresolved_in_params(s.params, s.params.len(), ids) + unresolved_in_prefix(
        s.returns,
        s.returns.len(),
        ids,
    )
}

/// A declaration with its signature resolved; nothing else changes.
pub open spec fn resolve_declaration(d: DeclarationView, ids: Seq<Seq<u8>>) -> DeclarationView {
    DeclarationView { signature: resolve_signature(d.signature, ids), ..d }
}

/// What the message for an unresolved reference starts with; the identifier
/// follows.
pub open spec fn unresolved_message() -> Seq<u8> {
    "unresolved reference: ".spec_bytes()
}

/// One warning for each unresolved identifier, in order.
pub open spec fn unresolved_warnings(names: Seq<Seq<u8>>, path: Seq<u8>, at: Position) -> Seq<
    DiagnosticView,
> {
    Seq::new(
        names.len(),
        |i: int|
            diagnostic_view(
                DiagnosticCode::UnresolvedReference,
                unresolved_message() + names[i],
                path,
                at,
            ),
    )
}

/// The warnings that the first `upto` declarations of a module give rise to,
/// each at the start of its declaration.
pub open spec fn module_warnings(m: ModuleView, ids: Seq<Seq<u8>>, upto: nat) -> Seq<
    DiagnosticView,
>
    decreases upto,
{
    if upto == 0 {
        Seq::empty()
    } else {
        let d = m.declarations[upto - 1];
        module_warnings(m, ids, (upto - 1) as nat) + unresolved_warnings(
            signature_unresolved(d.signature, ids),
            m.path,
            d.span.start,
        )
    }
}

/// A module with its declarations resolved and the warnings for what could
/// not be resolved added behind its own diagnostics.
pub open spec fn resolve_module(m: ModuleView, ids: Seq<Seq<u8>>) -> ModuleView {
    ModuleView {
        path: m.path,
        file: m.file,
        source: m.source,
        declarations: Seq::new(
            m.declarations.len(),
            |i: int| resolve_declaration(m.declarations[i], ids),
        ),
        diagnostics: m.diagnostics + module_warnings(m, ids, m.declarations.len()),
    }
}

/// Resolves the types of a list of parameters.
pub fn resolve_parameters(ps: &Vec<Param>, ids: &Vec<Vec<u8>>, missing: &mut Vec<Vec<u8>>) -> (r:
    Vec<Param>)
    ensures
        r.deep_view() == resolve_params(ps.deep_view(), texts(ids@)),
        texts(final(missing)@) == texts(old(missing)@) + unresolved_in_params(
            ps.deep_view(),
            ps.len() as nat,
            texts(ids@),
        ),
{
    let ghost start = texts(missing@);
    let ghost known = texts(ids@);
    let ghost pv = ps.deep_view();
    let mut r: Vec<Param> = Vec::new();
    let mut i: usize = 0;
    assert(r.deep_view() =~= resolve_params(pv, known).subrange(0, 0));
    assert(texts(missing@) =~= start + unresolved_in_params(pv, 0, known));
    while i < ps.len()
        invariant
            i <= ps.len(),
            pv == ps.deep_view(),
            known == texts(ids@),
            r.deep_view() == resolve_params(pv, known).subrange(0, i as int),
            texts(missing@) == start + unresolved_in_params(pv, i as nat, known),
        decreases ps.len() - i,
    {
        let ghost before = r.deep_view();
        let p = &ps[i];
        assert(pv[i as int] == p@);
        let item = Param {
            name: copy_bytes(&p.name),
            ty: resolve(&p.ty, ids, missing),
            default: copy_opt_bytes(&p.default),
        };
        r.push(item);
        assert(r.deep_view() =~= before.push(item@));
        assert(r.deep_view() =~= resolve_params(pv, known).subrange(0, i + 1));
        assert(texts(missing@) =~= start + (unresolved_in_params(pv, i as nat, known)
            + unresolved_in(pv[i as int].ty, known)));
        i = i + 1;
    }
    assert(resolve_params(pv, known).subrange(0, ps.len() as int) =~= resolve_params(pv, known));
    r
}

/// Resolves every type of a signature.
pub fn resolve_in_signature(s: &Signature, ids: &Vec<Vec<u8>>, missing: &mut Vec<Vec<u8>>) -> (r:
    Signature)
    ensures
        r@ == resolve_signature(s@, texts(ids@)),
        texts(final(missing)@) == texts(old(missing)@) + signature_unresolved(s@, texts(ids@)),
{
    let ghost start = texts(missing@);
    let ghost known = texts(ids@);
    let generics = copy_texts(&s.generics);
    let params = resolve_parameters(&s.params, ids, missing);
    let results = resolve_list(&s.returns, s.returns.len(), ids, missing);
    proof {
        let all = resolve_types(type_views(s.returns@), known);
        assert(all.subrange(0, s.returns.len() as int) =~= all);
        assert(texts(missing@) =~= start + signature_unresolved(s@, known));
    }
    Signature { generics, params, returns: results }
}

fn warn_unresolved(names: &Vec<Vec<u8>>, path: &Vec<u8>, at: Position, out: &mut Vec<Diagnostic>)
    ensures
        final(out).deep_view() == old(out).deep_view() + unresolved_warnings(
            texts(names@),
            path@,
            at,
        ),
{
    let ghost start = out.deep_view();
    let ghost all = unresolved_warnings(texts(names@), path@, at);
    let mut i: usize = 0;
    assert(out.deep_view() =~= start + all.subrange(0, 0));
    while i < names.len()
        invariant
            i <= names.len(),
            all == unresolved_warnings(texts(names@), path@, at),
            out.deep_view() == start + all.subrange(0, i as int),
        decreases names.len() - i,
    {
        let ghost before = out.deep_view();
        let mut message = "unresolved reference: ".as_bytes_vec();
        append_bytes(&mut message, &names[i]);
        let d = Diagnostic::new(DiagnosticCode::UnresolvedReference, message, copy_bytes(path), at);
        out.push(d);
        assert(out.deep_view() =~= before.push(d@));
        assert(out.deep_view() =~= start + all.subrange(0, i + 1));
        i = i + 1;
    }
    assert(all.subrange(0, names.len() as int) =~= all);
}

/// Resolves the declarations of one module against `ids`.
pub fn resolve_in_module(m: Module, ids: &Vec<Vec<u8>>) -> (r: Module)
    ensures
        r@ == resolve_module(m@, texts(ids@)),
{
    let ghost mv = m@;
    let ghost known = texts(ids@);
    let ghost target = resolve_module(mv, known);
    let Module { path, file, source, declarations, diagnostics } = m;
    let n = declarations.len();
    let ghost dv = declarations.deep_view();
    let mut rev = reversed(declarations);
    let mut out: Vec<Declaration> = Vec::new();
    let mut diagnostics = diagnostics;
    assert(diagnostics.deep_view() =~= mv.diagnostics + module_warnings(mv, known, 0));
    while rev.len() > 0
        invariant
            n == dv.len(),
            dv == mv.declarations,
            path@ == mv.path,
            known == texts(ids@),
            target == resolve_module(mv, known),
            out.len() + rev.len() == n,
            forall|k: int| 0 <= k < rev.len() ==> (#[trigger] rev[k])@ == dv[n - 1 - k],
            forall|k: int| 0 <= k < out.len() ==> (#[trigger] out.deep_view()[k]) == target.declarations[k],
            diagnostics.deep_view() == mv.diagnostics + module_warnings(
                mv,
                known,
                out.len() as nat,
            ),
        decreases rev.len(),
    {
        let ghost index = out.len() as int;
        let ghost out_before = out.deep_view();
        let ghost last = rev[rev.len() - 1];
        let mut d = rev.pop().unwrap();
        assert(d == last);
        assert(d@ == dv[index]);
        let mut missing: Vec<Vec<u8>> = Vec::new();
        let resolved = resolve_in_signature(&d.signature, ids, &mut missing);
        assert(texts(missing@) =~= signature_unresolved(dv[index].signature, known));
        d.signature = resolved;
        assert(d@ == target.declarations[index]);
        warn_unresolved(&missing, &path, d.span.start, &mut diagnostics);
        out.push(d);
        assert(out.deep_view() =~= out_before.push(d@));
        assert(diagnostics.deep_view() =~= mv.diagnostics + (module_warnings(
            mv,
            known,
            index as nat,
        ) + unresolved_warnings(
            signature_unresolved(dv[index].signature, known),
            mv.path,
            dv[index].span.start,
        )));
    }
    assert(out.deep_view() =~= target.declarations);
    Module { path, file, source, declarations: out, diagnostics }
}

/// The project-wide result: every module with its declarations resolved, and
/// the identifier of every declaration, module by module.
#[derive(Debug, PartialEq, Eq)]
pub struct Graph {
    pub generator_version: Vec<u8>,
    pub modules: Vec<Module>,
    pub identifiers: Vec<Vec<u8>>,
}

/// The mathematical content of a [`Graph`].
pub struct GraphView {
    pub generator_version: Seq<u8>,
    pub modules: Seq<ModuleView>,
    pub identifiers: Seq<Seq<u8>>,
}

impl View for Graph {
    type V = GraphView;

    open spec fn view(&self) -> GraphView {
        GraphView {
            generator_version: self.generator_version@,
            modules: self.modules.deep_view(),
            identifiers: texts(self.identifiers@),
        }
    }
}

/// Every module resolved against `ids`.
pub open spec fn resolve_modules(ms: Seq<ModuleView>, ids: Seq<Seq<u8>>) -> Seq<ModuleView> {
    Seq::new(ms.len(), |k: int| resolve_module(ms[k], ids))
}

/// The graph of the modules `ms`: all identifiers are collected first, then
/// every reference is resolved against them.
pub open spec fn graph_spec(ms: Seq<ModuleView>, version: Seq<u8>) -> GraphView {
    GraphView {
        generator_version: version,
        modules: resolve_modules(ms, all_ids(ms, ms.len())),
        identifiers: all_ids(ms, ms.len()),
    }
}

/// Merges the modules into one graph.
///
/// Two declarations with one identifier are a collision: the build fails with
/// the first such pair and no graph is made. Otherwise every identifier of the
/// graph belongs to one declaration only, and every reference of every
/// signature is resolved against the identifiers of all modules.
pub fn build(modules: Vec<Module>, generator_version: &Vec<u8>) -> (r: Result<Graph, Collision>)
    ensures
        match r {
            Ok(g) => all_ids(modules.deep_view(), modules.len() as nat).no_duplicates() && g@
                == graph_spec(modules.deep_view(), generator_version@),
            Err(c) => describes_collision(c, modules.deep_view()),
        },
{
    let ghost mv = modules.deep_view();
    let ids = collect_ids(&modules);
    let ghost known = texts(ids@);
    match find_collision(&ids) {
        Some((first, second)) => {
            let (k, i) = locate(&modules, second);
            assert(mv[k as int] == modules[k as int]@);
            assert(mv[k as int].declarations[i as int] == modules[k as int].declarations[i as int]@);
            assert(known[second as int] == ids[second as int]@);
            Err(
                Collision {
                    identifier: copy_bytes(&ids[second]),
                    first,
                    second,
                    module: k,
                    declaration: i,
                    path: copy_bytes(&modules[k].path),
                    at: modules[k].declarations[i].span.start,
                },
            )
        },
        None => {
            let n = modules.len();
            let ghost target = resolve_modules(mv, known);
            let mut rev = reversed(modules);
            let mut out: Vec<Module> = Vec::new();
            while rev.len() > 0
                invariant
                    n == mv.len(),
                    known == texts(ids@),
                    target == resolve_modules(mv, known),
                    out.len() + rev.len() == n,
                    forall|k: int| 0 <= k < rev.len() ==> (#[trigger] rev[k])@ == mv[n - 1 - k],
                    forall|k: int| 0 <= k < out.len() ==> (#[trigger] out.deep_view()[k]) == target[k],
                decreases rev.len(),
            {
                let ghost out_before = out.deep_view();
                let ghost last = rev[rev.len() - 1];
                let m = rev.pop().unwrap();
                assert(m == last);
                let resolved = resolve_in_module(m, &ids);
                out.push(resolved);
                assert(out.deep_view() =~= out_before.push(resolved@));
            }
            assert(out.deep_view() =~= target);
            Ok(Graph { generator_version: copy_bytes(generator_version), modules: out, identifiers: ids })
        },
    }
}

/// The diagnostics of the first `upto` modules, module by module.
pub open spec fn all_diagnostics(ms: Seq<ModuleView>, upto: nat) -> Seq<DiagnosticView>
    decreases upto,
{
    if upto == 0 {
        Seq::empty()
    } else {
        all_diagnostics(ms, (upto - 1) as nat) + ms[upto - 1].diagnostics
    }
}

/// Copies a diagnostic.
pub fn copy_diagnostic(d: &Diagnostic) -> (r: Diagnostic)
    ensures
        r@ == d@,
{
    Diagnostic {
        severity: d.severity,
        code: d.code,
        message: copy_bytes(&d.message),
        module: copy_bytes(&d.module),
        line: d.line,
        column: d.column,
    }
}

/// The place of the declaration with the identifier `id`: the module's place
/// among the modules and the declaration's place in the module.
pub open spec fn is_place_of(ms: Seq<ModuleView>, id: Seq<u8>, k: int, i: int) -> bool {
    &&& 0 <= k < ms.len()
    &&& 0 <= i < ms[k].declarations.len()
    &&& identifier(ms[k].path, ms[k].declarations[i].qualified_name) == id
}

/// Copies the diagnostics of all modules, in the order of the modules.
pub fn diagnostics_of(modules: &Vec<Module>) -> (r: Vec<Diagnostic>)
    ensures
        r.deep_view() == all_diagnostics(modules.deep_view(), modules.len() as nat),
{
    let ghost mv = modules.deep_view();
    let mut r: Vec<Diagnostic> = Vec::new();
    let mut k: usize = 0;
    assert(r.deep_view() =~= all_diagnostics(mv, 0));
    while k < modules.len()
        invariant
            k <= modules.len(),
            mv == modules.deep_view(),
            r.deep_view() == all_diagnostics(mv, k as nat),
        decreases modules.len() - k,
    {
        let m = &modules[k];
        assert(mv[k as int] == m@);
        let ghost start = r.deep_view();
        let mut i: usize = 0;
        assert(r.deep_view() =~= start + m@.diagnostics.subrange(0, 0));
        while i < m.diagnostics.len()
            invariant
                i <= m.diagnostics.len(),
                r.deep_view() == start + m@.diagnostics.subrange(0, i as int),
            decreases m.diagnostics.len() - i,
        {
            let ghost before = r.deep_view();
            let d = copy_diagnostic(&m.diagnostics[i]);
            assert(m@.diagnostics[i as int] == m.diagnostics[i as int]@);
            r.push(d);
            assert(r.deep_view() =~= before.push(d@));
            assert(r.deep_view() =~= start + m@.diagnostics.subrange(0, i + 1));
            i = i + 1;
        }
        assert(m@.diagnostics.subrange(0, m.diagnostics.len() as int) =~= m@.diagnostics);
        k = k + 1;
    }
    r
}

impl Graph {
    /// The diagnostics of all modules, in the order of the modules.
    pub fn diagnostics(&self) -> (r: Vec<Diagnostic>)
        ensures
            r.deep_view() == all_diagnostics(self@.modules, self.modules.len() as nat),
    {
        diagnostics_of(&self.modules)
    }

    /// Looks a module up by its logical path: the first one that has it.
    pub fn find_module(&self, path: &Vec<u8>) -> (r: Option<usize>)
        ensures
            r matches Some(k) ==> k < self.modules.len() && self@.modules[k as int].path == path@
                && forall|j: int| 0 <= j < k ==> (#[trigger] self@.modules[j]).path != path@,
            r is None ==> forall|j: int|
                0 <= j < self.modules.len() ==> (#[trigger] self@.modules[j]).path != path@,
    {
        let mut k: usize = 0;
        while k < self.modules.len()
            invariant
                k <= self.modules.len(),
                forall|j: int| 0 <= j < k ==> (#[trigger] self@.modules[j]).path != path@,
            decreases self.modules.len() - k,
        {
            assert(self@.modules[k as int] == self.modules[k as int]@);
            if bytes_equal(&self.modules[k].path, path) {
                return Some(k);
            }
            k = k + 1;
        }
        None
    }

    /// Looks a declaration up by its identifier.
    pub fn find(&self, id: &Vec<u8>) -> (r: Option<(usize, usize)>)
        ensures
            r matches Some((k, i)) ==> is_place_of(self@.modules, id@, k as int, i as int),
            r is None ==> forall|k: int, i: int| !is_place_of(self@.modules, id@, k, i),
    {
        let ghost mv = self@.modules;
        let mut k: usize = 0;
        while k < self.modules.len()
            invariant
                k <= self.modules.len(),
                mv == self.modules.deep_view(),
                forall|a: int, i: int| 0 <= a < k ==> !is_place_of(mv, id@, a, i),
            decreases self.modules.len() - k,
        {
            let m = &self.modules[k];
            assert(mv[k as int] == m@);
            let mut i: usize = 0;
            while i < m.declarations.len()
                invariant
                    i <= m.declarations.len(),
                    k < self.modules.len(),
                    mv == self.modules.deep_view(),
                    mv[k as int] == m@,
                    forall|b: int| 0 <= b < i ==> !is_place_of(mv, id@, k as int, b),
                decreases m.declarations.len() - i,
            {
                assert(m@.declarations[i as int] == m.declarations[i as int]@);
                let candidate = identifier_of(&m.path, &m.declarations[i].qualified_name);
                if bytes_equal(&candidate, id) {
                    return Some((k, i));
                }
                i = i + 1;
            }
            k = k + 1;
        }
        None
    }
}

} // verus!
