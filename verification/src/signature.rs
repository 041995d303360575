//! Type expressions and their canonical form.

use vstd::prelude::*;
use vstd::string::*;
use crate::model::{bytes_equal, copy_bytes};

verus! {

/// A type as it appears in a signature.
#[derive(Debug, PartialEq, Eq)]
pub enum TypeExpr {
    /// A type that the language itself provides, such as `number` or `nil`.
    Primitive(Vec<u8>),
    /// A named type declared in the module with the given logical path.
    Reference { module: Vec<u8>, name: Vec<u8> },
    /// A reference that was found: the identifier of a declaration of the graph.
    Resolved(Vec<u8>),
    /// A reference that no declaration of the graph answers, kept by name.
    External(Vec<u8>),
    /// `T?`
    Optional(Box<TypeExpr>),
    /// `A | B | ...`
    Union(Vec<TypeExpr>),
    /// `(parameters) -> (results)`
    Function(Vec<TypeExpr>, Vec<TypeExpr>),
}

/// The mathematical content of a [`TypeExpr`].
pub enum TypeView {
    Primitive(Seq<u8>),
    Reference { module: Seq<u8>, name: Seq<u8> },
    Resolved(Seq<u8>),
    External(Seq<u8>),
    Optional(Box<TypeView>),
    Union(Seq<TypeView>),
    Function(Seq<TypeView>, Seq<TypeView>),
}

/// The spelling of the type of the absent value.
pub open spec fn nil_name() -> Seq<u8> {
    "nil".spec_bytes()
}

/// The mathematical content of a type expression.
pub open spec fn type_view(t: TypeExpr) -> TypeView
    decreases t,
{
    match t {
        TypeExpr::Primitive(n) => TypeView::Primitive(n@),
        TypeExpr::Reference { module, name } => TypeView::Reference {
            module: module@,
            name: name@,
        },
        TypeExpr::Resolved(id) => TypeView::Resolved(id@),
        TypeExpr::External(n) => TypeView::External(n@),
        TypeExpr::Optional(inner) => TypeView::Optional(Box::new(type_view(*inner))),
        TypeExpr::Union(ts) => TypeView::Union(
            Seq::new(
                ts@.len(),
                |i: int|
                    if 0 <= i < ts@.len() {
                        type_view(ts@[i])
                    } else {
                        TypeView::Primitive(Seq::empty())
                    },
            ),
        ),
        TypeExpr::Function(ps, rs) => TypeView::Function(
            Seq::new(
                ps@.len(),
                |i: int|
                    if 0 <= i < ps@.len() {
                        type_view(ps@[i])
                    } else {
                        TypeView::Primitive(Seq::empty())
                    },
            ),
            Seq::new(
                rs@.len(),
                |i: int|
                    if 0 <= i < rs@.len() {
                        type_view(rs@[i])
                    } else {
                        TypeView::Primitive(Seq::empty())
                    },
            ),
        ),
    }
}

/// The views of a list of types, item by item.
pub open spec fn type_views(ts: Seq<TypeExpr>) -> Seq<TypeView> {
    Seq::new(
        ts.len(),
        |i: int|
            if 0 <= i < ts.len() {
                type_view(ts[i])
            } else {
                TypeView::Primitive(Seq::empty())
            },
    )
}

impl View for TypeExpr {
    type V = TypeView;

    open spec fn view(&self) -> TypeView {
        type_view(*self)
    }
}

impl DeepView for TypeExpr {
    type V = TypeView;

    open spec fn deep_view(&self) -> TypeView {
        type_view(*self)
    }
}

/// What `type_view` says of each variant, with the lists as `type_views`.
pub proof fn lemma_type_view_unfold(t: TypeExpr)
    ensures
        t matches TypeExpr::Union(ts) ==> t@ == TypeView::Union(type_views(ts@)),
        t matches TypeExpr::Function(ps, rs) ==> t@ == TypeView::Function(
            type_views(ps@),
            type_views(rs@),
        ),
        t matches TypeExpr::Optional(inner) ==> t@ == TypeView::Optional(Box::new(inner@)),
{
    match t {
        TypeExpr::Union(ts) => {
            assert(t@->Union_0 =~= type_views(ts@));
        },
        TypeExpr::Function(ps, rs) => {
            assert(t@->Function_0 =~= type_views(ps@));
            assert(t@->Function_1 =~= type_views(rs@));
        },
        _ => {},
    }
}

/// Copies a type expression.
pub fn copy_type(t: &TypeExpr) -> (r: TypeExpr)
    ensures
        r@ == t@,
    decreases t, 0nat,
{
    proof {
        lemma_type_view_unfold(*t);
    }
    let r = match t {
        TypeExpr::Primitive(n) => TypeExpr::Primitive(copy_bytes(n)),
        TypeExpr::Reference { module, name } => TypeExpr::Reference {
            module: copy_bytes(module),
            name: copy_bytes(name),
        },
        TypeExpr::Resolved(id) => TypeExpr::Resolved(copy_bytes(id)),
        TypeExpr::External(n) => TypeExpr::External(copy_bytes(n)),
        TypeExpr::Optional(inner) => TypeExpr::Optional(Box::new(copy_type(inner))),
        TypeExpr::Union(ts) => TypeExpr::Union(copy_types(ts, ts.len())),
        TypeExpr::Function(ps, rs) => TypeExpr::Function(
            copy_types(ps, ps.len()),
            copy_types(rs, rs.len()),
        ),
    };
    proof {
        lemma_type_view_unfold(r);
        match t {
            TypeExpr::Union(ts) => {
                assert(type_views(ts@).subrange(0, ts.len() as int) == type_views(ts@));
            },
            TypeExpr::Function(ps, rs) => {
                assert(type_views(ps@).subrange(0, ps.len() as int) == type_views(ps@));
                assert(type_views(rs@).subrange(0, rs.len() as int) == type_views(rs@));
            },
            _ => {},
        }
    }
    r
}

/// Copies the first `upto` items of a list of type expressions.
pub(crate) fn copy_types(ts: &Vec<TypeExpr>, upto: usize) -> (r: Vec<TypeExpr>)
    requires
        upto <= ts.len(),
    ensures
        type_views(r@) == type_views(ts@).subrange(0, upto as int),
    decreases ts, upto,
{
    if upto == 0 {
        let r: Vec<TypeExpr> = Vec::new();
        assert(type_views(r@) =~= type_views(ts@).subrange(0, 0));
        r
    } else {
        let mut r = copy_types(ts, upto - 1);
        let ghost before = r@;
        let item = copy_type(&ts[upto - 1]);
        r.push(item);
        assert(type_views(r@) =~= type_views(before).push(item@));
        assert(type_views(r@) =~= type_views(ts@).subrange(0, upto as int));
        r
    }
}

/// `t` is the type of the absent value.
pub open spec fn is_nil(t: TypeView) -> bool {
    t == TypeView::Primitive(nil_name())
}

/// `t` made optional; a type that already admits the absent value is left as it is.
pub open spec fn make_optional(t: TypeView) -> TypeView {
    if t is Optional || is_nil(t) {
        t
    } else {
        TypeView::Optional(Box::new(t))
    }
}

/// `ts` without the members that are the type of the absent value.
pub open spec fn without_nil(ts: Seq<TypeView>) -> Seq<TypeView>
    decreases ts.len(),
{
    if ts.len() == 0 {
        Seq::empty()
    } else if is_nil(ts.last()) {
        without_nil(ts.drop_last())
    } else {
        without_nil(ts.drop_last()).push(ts.last())
    }
}

/// The union of `kept`, made optional when a `nil` member was `dropped`.
/// A union of one member is that member.
pub open spec fn union_of(kept: Seq<TypeView>, dropped: bool) -> TypeView {
    if kept.len() == 0 && dropped {
        TypeView::Primitive(nil_name())
    } else {
        let core = if kept.len() == 1 {
            kept[0]
        } else {
            TypeView::Union(kept)
        };
        if dropped {
            make_optional(core)
        } else {
            core
        }
    }
}

/// The canonical form of a type: `T?` and `T | nil` are one type, written
/// `Optional(T)`; optional of optional is optional; a union of one member is
/// that member. Names are left as they are.
pub open spec fn normal_form(t: TypeView) -> TypeView
    decreases t,
{
    match t {
        TypeView::Optional(inner) => make_optional(normal_form(*inner)),
        TypeView::Union(ts) => {
            let members = normal_forms(ts);
            let kept = without_nil(members);
            union_of(kept, kept.len() < members.len())
        },
        TypeView::Function(ps, rs) => TypeView::Function(normal_forms(ps), normal_forms(rs)),
        _ => t,
    }
}

/// The canonical forms of a list of types, item by item.
pub open spec fn normal_forms(ts: Seq<TypeView>) -> Seq<TypeView>
    decreases ts,
{
    Seq::new(
        ts.len(),
        |i: int|
            if 0 <= i < ts.len() {
                normal_form(ts[i])
            } else {
                TypeView::Primitive(Seq::empty())
            },
    )
}

/// Decides whether a type is the type of the absent value.
pub fn is_nil_type(t: &TypeExpr) -> (r: bool)
    ensures
        r == is_nil(t@),
{
    match t {
        TypeExpr::Primitive(n) => bytes_equal(n, &"nil".as_bytes_vec()),
        _ => false,
    }
}

/// The type of the absent value.
pub fn nil_type() -> (r: TypeExpr)
    ensures
        r@ == TypeView::Primitive(nil_name()),
{
    TypeExpr::Primitive("nil".as_bytes_vec())
}

/// Makes a type optional, as [`make_optional`] says.
pub fn optional_of(t: TypeExpr) -> (r: TypeExpr)
    ensures
        r@ == make_optional(t@),
{
    let already = match &t {
        TypeExpr::Optional(_) => true,
        _ => false,
    };
    if already || is_nil_type(&t) {
        t
    } else {
        let r = TypeExpr::Optional(Box::new(t));
        proof {
            lemma_type_view_unfold(r);
        }
        r
    }
}

/// Brings a type into its canonical form.
pub fn normalize(t: &TypeExpr) -> (r: TypeExpr)
    ensures
        r@ == normal_form(t@),
    decreases t, 0nat,
{
    proof {
        lemma_type_view_unfold(*t);
    }
    match t {
        TypeExpr::Optional(inner) => optional_of(normalize(inner)),
        TypeExpr::Union(ts) => {
            let mut kept = normalize_members(ts, ts.len());
            let ghost members = normal_forms(type_views(ts@));
            assert(members.subrange(0, ts.len() as int) == members);
            let dropped = kept.len() < ts.len();
            assert(type_views(kept@).len() == kept.len());
            if kept.len() == 0 && dropped {
                nil_type()
            } else if kept.len() == 1 {
                let ghost kept_views = type_views(kept@);
                let core = kept.pop().unwrap();
                assert(core@ == kept_views[0]);
                if dropped {
                    optional_of(core)
                } else {
                    core
                }
            } else {
                let core = TypeExpr::Union(kept);
                proof {
                    lemma_type_view_unfold(core);
                }
                if dropped {
                    optional_of(core)
                } else {
                    core
                }
            }
        },
        TypeExpr::Function(ps, rs) => {
            let r = TypeExpr::Function(normalize_list(ps, ps.len()), normalize_list(rs, rs.len()));
            proof {
                lemma_type_view_unfold(r);
                let a = normal_forms(type_views(ps@));
                let b = normal_forms(type_views(rs@));
                assert(a.subrange(0, ps.len() as int) == a);
                assert(b.subrange(0, rs.len() as int) == b);
            }
            r
        },
        _ => copy_type(t),
    }
}

/// The canonical forms of the first `upto` items of `ts`.
pub(crate) fn normalize_list(ts: &Vec<TypeExpr>, upto: usize) -> (r: Vec<TypeExpr>)
    requires
        upto <= ts.len(),
    ensures
        type_views(r@) == normal_forms(type_views(ts@)).subrange(0, upto as int),
    decreases ts, upto,
{
    if upto == 0 {
        let r: Vec<TypeExpr> = Vec::new();
        assert(type_views(r@) =~= normal_forms(type_views(ts@)).subrange(0, 0));
        r
    } else {
        let mut r = normalize_list(ts, upto - 1);
        let ghost before = r@;
        let item = normalize(&ts[upto - 1]);
        r.push(item);
        assert(type_views(r@) =~= type_views(before).push(item@));
        assert(type_views(r@) =~= normal_forms(type_views(ts@)).subrange(0, upto as int));
        r
    }
}

/// The canonical forms of the first `upto` items of `ts`, those that are `nil`
/// left out.
pub(crate) fn normalize_members(ts: &Vec<TypeExpr>, upto: usize) -> (r: Vec<TypeExpr>)
    requires
        upto <= ts.len(),
    ensures
        type_views(r@) == without_nil(
            normal_forms(type_views(ts@)).subrange(0, upto as int),
        ),
    decreases ts, upto,
{
    let ghost members = normal_forms(type_views(ts@));
    if upto == 0 {
        let r: Vec<TypeExpr> = Vec::new();
        assert(type_views(r@) =~= without_nil(members.subrange(0, 0)));
        r
    } else {
        let mut r = normalize_members(ts, upto - 1);
        let ghost before = r@;
        let item = normalize(&ts[upto - 1]);
        proof {
            let prefix = members.subrange(0, upto as int);
            assert(prefix.drop_last() =~= members.subrange(0, upto - 1));
            assert(prefix.last() == item@);
        }
        if !is_nil_type(&item) {
            r.push(item);
            assert(type_views(r@) =~= type_views(before).push(item@));
        }
        r
    }
}

/// `T?` and `T | nil` have one canonical form, for every `T` that is not
/// itself `nil`.
pub proof fn lemma_optional_notations_agree(t: TypeView)
    requires
        !is_nil(normal_form(t)),
    ensures
        normal_form(TypeView::Optional(Box::new(t))) == normal_form(
            TypeView::Union(seq![t, TypeView::Primitive(nil_name())]),
        ),
        normal_form(TypeView::Optional(Box::new(t))) == normal_form(
            TypeView::Union(seq![TypeView::Primitive(nil_name()), t]),
        ),
{
    let nil = TypeView::Primitive(nil_name());
    let n = normal_form(t);
    assert(normal_form(nil) == nil);
    let a = seq![t, nil];
    assert(normal_forms(a) =~= seq![n, nil]);
    assert(seq![n, nil].drop_last() =~= seq![n]);
    assert(seq![n].drop_last() =~= Seq::<TypeView>::empty());
    reveal_with_fuel(without_nil, 3);
    assert(without_nil(seq![n]) =~= seq![n]);
    assert(without_nil(seq![n, nil]) =~= seq![n]);
    let b = seq![nil, t];
    assert(normal_forms(b) =~= seq![nil, n]);
    assert(seq![nil, n].drop_last() =~= seq![nil]);
    assert(seq![nil].drop_last() =~= Seq::<TypeView>::empty());
    assert(without_nil(seq![nil]) =~= Seq::<TypeView>::empty());
    assert(without_nil(seq![nil, n]) =~= seq![n]);
}

/// What is left after the `nil` members are removed are members, none of
/// them `nil`.
pub proof fn lemma_without_nil_members(s: Seq<TypeView>)
    ensures
        forall|j: int|
            0 <= j < without_nil(s).len() ==> !is_nil(#[trigger] without_nil(s)[j]) && s.contains(
                without_nil(s)[j],
            ),
    decreases s.len(),
{
    if s.len() > 0 {
        let rest = s.drop_last();
        lemma_without_nil_members(rest);
        let w = without_nil(s);
        assert forall|j: int| 0 <= j < w.len() implies !is_nil(#[trigger] w[j]) && s.contains(
            w[j],
        ) by {
            if j < without_nil(rest).len() {
                let x = without_nil(rest)[j];
                assert(rest.contains(x));
                let i = choose|i: int| 0 <= i < rest.len() && rest[i] == x;
                assert(s[i] == x);
            } else {
                assert(w[j] == s.last());
                assert(s[s.len() - 1] == s.last());
            }
        }
    }
}

/// A list without `nil` members loses nothing.
pub proof fn lemma_without_nil_of_clean(s: Seq<TypeView>)
    requires
        forall|i: int| 0 <= i < s.len() ==> !is_nil(#[trigger] s[i]),
    ensures
        without_nil(s) == s,
    decreases s.len(),
{
    if s.len() > 0 {
        let rest = s.drop_last();
        assert forall|i: int| 0 <= i < rest.len() implies !is_nil(#[trigger] rest[i]) by {
            assert(rest[i] == s[i]);
        }
        lemma_without_nil_of_clean(rest);
        assert(s.last() == s[s.len() - 1]);
        assert(rest.push(s.last()) =~= s);
    } else {
        assert(without_nil(s) =~= s);
    }
}

proof fn lemma_optional_of_stable(n: TypeView)
    requires
        normal_form(n) == n,
    ensures
        normal_form(make_optional(n)) == make_optional(n),
{
}

/// The canonical form is stable: bringing a canonical form into canonical
/// form changes nothing.
pub proof fn lemma_normal_form_is_stable(t: TypeView)
    ensures
        normal_form(normal_form(t)) == normal_form(t),
    decreases t,
{
    match t {
        TypeView::Optional(inner) => {
            lemma_normal_form_is_stable(*inner);
            lemma_optional_of_stable(normal_form(*inner));
        },
        TypeView::Function(ps, rs) => {
            let a = normal_forms(ps);
            let b = normal_forms(rs);
            assert forall|i: int| 0 <= i < a.len() implies normal_form(#[trigger] a[i]) == a[i] by {
                lemma_normal_form_is_stable(ps[i]);
            }
            assert forall|i: int| 0 <= i < b.len() implies normal_form(#[trigger] b[i]) == b[i] by {
                lemma_normal_form_is_stable(rs[i]);
            }
            assert(normal_forms(a) =~= a);
            assert(normal_forms(b) =~= b);
        },
        TypeView::Union(ts) => {
            let members = normal_forms(ts);
            let kept = without_nil(members);
            let dropped = kept.len() < members.len();
            lemma_without_nil_members(members);
            assert forall|j: int| 0 <= j < kept.len() implies normal_form(#[trigger] kept[j])
                == kept[j] && !is_nil(kept[j]) by {
                let x = kept[j];
                assert(members.contains(x));
                let i = choose|i: int| 0 <= i < members.len() && members[i] == x;
                lemma_normal_form_is_stable(ts[i]);
            }
            if kept.len() == 0 && dropped {
            } else {
                let core = if kept.len() == 1 {
                    kept[0]
                } else {
                    TypeView::Union(kept)
                };
                if kept.len() != 1 {
                    assert(normal_forms(kept) =~= kept);
                    lemma_without_nil_of_clean(kept);
                }
                assert(normal_form(core) == core);
                lemma_optional_of_stable(core);
            }
        },
        _ => {},
    }
}

} // verus!
