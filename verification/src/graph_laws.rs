//! What holds of every graph: identifiers tell declarations apart, and a
//! declaration that nothing refers to leaves the others as they were.

use vstd::prelude::*;
use crate::declaration::{DeclarationView, ParamView, SignatureView};
use crate::graph::{
    ModuleView, all_ids, first_collision, graph_spec, identifier, is_at_position, is_place_of,
    lemma_resolution_is_local, lemma_resolution_is_local_list, lemma_resolution_settles, mentions,
    module_ids, offset, settled,
    resolve_declaration, resolve_params, resolve_types, signature_unresolved,
    unresolved_in_params,
};

verus! {

/// The identifier of the declaration at place `i` of module `k` stands at
/// `offset(ms, k) + i` in the list of all identifiers.
pub proof fn lemma_all_ids_index(ms: Seq<ModuleView>, upto: nat, k: nat, i: int)
    requires
        k < upto <= ms.len(),
        0 <= i < ms[k as int].declarations.len(),
    ensures
        offset(ms, k) + i < all_ids(ms, upto).len(),
        all_ids(ms, upto)[offset(ms, k) + i] == identifier(
            ms[k as int].path,
            ms[k as int].declarations[i].qualified_name,
        ),
    decreases upto,
{
    if k + 1 == upto {
        assert(all_ids(ms, upto) == all_ids(ms, k) + module_ids(ms[k as int]));
    } else {
        lemma_all_ids_index(ms, (upto - 1) as nat, k, i);
    }
}

/// The identifiers of an earlier module end before those of a later one start.
pub proof fn lemma_offsets_increase(ms: Seq<ModuleView>, k1: nat, k2: nat)
    requires
        k1 < k2 <= ms.len(),
    ensures
        offset(ms, k1) + ms[k1 as int].declarations.len() <= offset(ms, k2),
    decreases k2,
{
    if k1 + 1 == k2 {
        assert(all_ids(ms, k2) == all_ids(ms, k1) + module_ids(ms[k1 as int]));
    } else {
        lemma_offsets_increase(ms, k1, (k2 - 1) as nat);
    }
}

/// In a graph that was built, two distinct declarations never share an
/// identifier.
pub proof fn lemma_distinct_declarations_have_distinct_identifiers(
    ms: Seq<ModuleView>,
    k1: int,
    i1: int,
    k2: int,
    i2: int,
)
    requires
        all_ids(ms, ms.len()).no_duplicates(),
        0 <= k1 < ms.len(),
        0 <= i1 < ms[k1].declarations.len(),
        0 <= k2 < ms.len(),
        0 <= i2 < ms[k2].declarations.len(),
        k1 != k2 || i1 != i2,
    ensures
        identifier(ms[k1].path, ms[k1].declarations[i1].qualified_name) != identifier(
            ms[k2].path,
            ms[k2].declarations[i2].qualified_name,
        ),
{
    lemma_all_ids_index(ms, ms.len(), k1 as nat, i1);
    lemma_all_ids_index(ms, ms.len(), k2 as nat, i2);
    if k1 < k2 {
        lemma_offsets_increase(ms, k1 as nat, k2 as nat);
    }
    if k2 < k1 {
        lemma_offsets_increase(ms, k2 as nat, k1 as nat);
    }
    let a = offset(ms, k1 as nat) + i1;
    let b = offset(ms, k2 as nat) + i2;
    assert(a != b);
}

/// The list of all identifiers holds `id` exactly if some declaration of some
/// module has it.
pub proof fn lemma_all_ids_contains(ms: Seq<ModuleView>, upto: nat, id: Seq<u8>)
    requires
        upto <= ms.len(),
    ensures
        all_ids(ms, upto).contains(id) <==> exists|k: int, i: int|
            k < upto && #[trigger] is_place_of(ms, id, k, i),
    decreases upto,
{
    if upto > 0 {
        lemma_all_ids_contains(ms, (upto - 1) as nat, id);
        let before = all_ids(ms, (upto - 1) as nat);
        let last = module_ids(ms[upto - 1]);
        let all = all_ids(ms, upto);
        assert(all == before + last);
        if all.contains(id) {
            let pos = choose|pos: int| 0 <= pos < all.len() && all[pos] == id;
            if pos < before.len() {
                assert(before[pos] == id);
                assert(before.contains(id));
                let (k, i) = choose|k: int, i: int|
                    k < upto - 1 && #[trigger] is_place_of(ms, id, k, i);
                assert(k < upto && is_place_of(ms, id, k, i));
            } else {
                let i = pos - before.len();
                assert(last[i] == id);
                assert(is_place_of(ms, id, upto - 1, i));
            }
        }
        if exists|k: int, i: int| k < upto && #[trigger] is_place_of(ms, id, k, i) {
            let (k, i) = choose|k: int, i: int| k < upto && #[trigger] is_place_of(ms, id, k, i);
            if k < upto - 1 {
                assert(before.contains(id));
                let pos = choose|pos: int| 0 <= pos < before.len() && before[pos] == id;
                assert(all[pos] == id);
            } else {
                assert(last[i] == id);
                assert(all[before.len() + i] == id);
            }
        }
    } else {
        assert(all_ids(ms, 0) =~= Seq::<Seq<u8>>::empty());
    }
}

/// Some type of the signature mentions the identifier `id`.
pub open spec fn signature_mentions(s: SignatureView, id: Seq<u8>) -> bool {
    (exists|i: int| 0 <= i < s.params.len() && mentions((#[trigger] s.params[i]).ty, id)) || (
    exists|i: int| 0 <= i < s.returns.len() && mentions(#[trigger] s.returns[i], id))
}

proof fn lemma_params_resolution_is_local(
    ps: Seq<ParamView>,
    upto: nat,
    ids1: Seq<Seq<u8>>,
    ids2: Seq<Seq<u8>>,
)
    requires
        upto <= ps.len(),
        forall|i: int, id: Seq<u8>|
            0 <= i < ps.len() && mentions((#[trigger] ps[i]).ty, id) ==> (ids1.contains(id)
                <==> #[trigger] ids2.contains(id)),
    ensures
        unresolved_in_params(ps, upto, ids1) == unresolved_in_params(ps, upto, ids2),
    decreases upto,
{
    if upto > 0 {
        lemma_params_resolution_is_local(ps, (upto - 1) as nat, ids1, ids2);
        lemma_resolution_is_local(ps[upto - 1].ty, ids1, ids2);
    }
}

/// How a declaration resolves depends only on which of the identifiers that
/// its signature mentions are known.
pub proof fn lemma_declaration_resolution_is_local(
    d: DeclarationView,
    ids1: Seq<Seq<u8>>,
    ids2: Seq<Seq<u8>>,
)
    requires
        forall|id: Seq<u8>|
            signature_mentions(d.signature, id) ==> (ids1.contains(id) <==> ids2.contains(id)),
    ensures
        resolve_declaration(d, ids1) == resolve_declaration(d, ids2),
        signature_unresolved(d.signature, ids1) == signature_unresolved(d.signature, ids2),
{
    let s = d.signature;
    assert forall|i: int, id: Seq<u8>|
        0 <= i < s.params.len() && mentions((#[trigger] s.params[i]).ty, id) implies (
    ids1.contains(id) <==> #[trigger] ids2.contains(id)) by {
        assert(signature_mentions(s, id));
    }
    assert forall|i: int, id: Seq<u8>|
        0 <= i < s.returns.len() && mentions(#[trigger] s.returns[i], id) implies (ids1.contains(id)
        <==> #[trigger] ids2.contains(id)) by {
        assert(signature_mentions(s, id));
    }
    lemma_params_resolution_is_local(s.params, s.params.len(), ids1, ids2);
    lemma_resolution_is_local_list(s.returns, s.returns.len(), ids1, ids2);
    assert forall|i: int| 0 <= i < s.params.len() implies resolve_params(s.params, ids1)[i]
        == resolve_params(s.params, ids2)[i] by {
        lemma_resolution_is_local(s.params[i].ty, ids1, ids2);
    }
    assert(resolve_params(s.params, ids1) =~= resolve_params(s.params, ids2));
    assert(resolve_types(s.returns, ids1) =~= resolve_types(s.returns, ids2));
}

/// The modules `ms` with the declaration `extra` put at place `p` of the
/// module at `k`.
pub open spec fn with_declaration(ms: Seq<ModuleView>, k: int, p: int, extra: DeclarationView)
    -> Seq<ModuleView> {
    ms.update(
        k,
        ModuleView {
            path: ms[k].path,
            file: ms[k].file,
            source: ms[k].source,
            declarations: ms[k].declarations.insert(p, extra),
            diagnostics: ms[k].diagnostics,
        },
    )
}

proof fn lemma_ids_with_declaration(
    ms: Seq<ModuleView>,
    k: int,
    p: int,
    extra: DeclarationView,
    x: Seq<u8>,
)
    requires
        0 <= k < ms.len(),
        0 <= p <= ms[k].declarations.len(),
    ensures
        all_ids(with_declaration(ms, k, p, extra), ms.len()).contains(x) <==> (all_ids(
            ms,
            ms.len(),
        ).contains(x) || x == identifier(ms[k].path, extra.qualified_name)),
{
    let ms2 = with_declaration(ms, k, p, extra);
    let n = ms.len();
    lemma_all_ids_contains(ms, n, x);
    lemma_all_ids_contains(ms2, n, x);
    if all_ids(ms2, n).contains(x) {
        let (j, i) = choose|j: int, i: int| j < n && #[trigger] is_place_of(ms2, x, j, i);
        if j != k {
            assert(is_place_of(ms, x, j, i));
        } else if i < p {
            assert(is_place_of(ms, x, k, i));
        } else if i > p {
            assert(is_place_of(ms, x, k, i - 1));
        }
    }
    if all_ids(ms, n).contains(x) {
        let (j, i) = choose|j: int, i: int| j < n && #[trigger] is_place_of(ms, x, j, i);
        if j != k {
            assert(is_place_of(ms2, x, j, i));
        } else if i < p {
            assert(is_place_of(ms2, x, k, i));
        } else {
            assert(ms2[k].declarations[i + 1] == ms[k].declarations[i]);
            assert(is_place_of(ms2, x, k, i + 1));
        }
    }
    if x == identifier(ms[k].path, extra.qualified_name) {
        assert(ms2[k].declarations[p] == extra);
        assert(is_place_of(ms2, x, k, p));
    }
}

/// A declaration that no signature refers to is inert: with it added, every
/// other declaration of the graph is what it was without it, with the same
/// qualified name, hence the same identifier, and the same resolved
/// signature. Only the places behind it in its own module move up by one.
pub proof fn lemma_inert_declaration_changes_nothing(
    ms: Seq<ModuleView>,
    version: Seq<u8>,
    k: int,
    p: int,
    extra: DeclarationView,
)
    requires
        0 <= k < ms.len(),
        0 <= p <= ms[k].declarations.len(),
        forall|j: int, i: int|
            0 <= j < ms.len() && 0 <= i < ms[j].declarations.len() ==> !signature_mentions(
                (#[trigger] ms[j].declarations[i]).signature,
                identifier(ms[k].path, extra.qualified_name),
            ),
    ensures
        ({
            let g1 = graph_spec(ms, version).modules;
            let g2 = graph_spec(with_declaration(ms, k, p, extra), version).modules;
            &&& forall|j: int, i: int|
                0 <= j < ms.len() && j != k && 0 <= i < ms[j].declarations.len()
                    ==> #[trigger] g2[j].declarations[i] == g1[j].declarations[i]
            &&& forall|i: int| 0 <= i < p ==> #[trigger] g2[k].declarations[i] == g1[k].declarations[i]
            &&& forall|i: int|
                p <= i < ms[k].declarations.len() ==> g2[k].declarations[i + 1]
                    == #[trigger] g1[k].declarations[i]
        }),
{
    let ms2 = with_declaration(ms, k, p, extra);
    let n = ms.len();
    let ids1 = all_ids(ms, n);
    let ids2 = all_ids(ms2, n);
    let e = identifier(ms[k].path, extra.qualified_name);
    let g1 = graph_spec(ms, version).modules;
    let g2 = graph_spec(ms2, version).modules;
    assert forall|j: int, i: int|
        0 <= j < ms.len() && 0 <= i < ms[j].declarations.len() implies resolve_declaration(
        #[trigger] ms[j].declarations[i],
        ids1,
    ) == resolve_declaration(ms[j].declarations[i], ids2) by {
        let d = ms[j].declarations[i];
        assert forall|id: Seq<u8>| signature_mentions(d.signature, id) implies (ids1.contains(id)
            <==> ids2.contains(id)) by {
            lemma_ids_with_declaration(ms, k, p, extra, id);
        }
        lemma_declaration_resolution_is_local(d, ids1, ids2);
    }
    assert forall|j: int, i: int|
        0 <= j < ms.len() && j != k && 0 <= i < ms[j].declarations.len()
            implies #[trigger] g2[j].declarations[i] == g1[j].declarations[i] by {
        assert(ms2[j] == ms[j]);
        assert(g1[j].declarations[i] == resolve_declaration(ms[j].declarations[i], ids1));
    }
    assert forall|i: int| 0 <= i < p implies #[trigger] g2[k].declarations[i]
        == g1[k].declarations[i] by {
        assert(ms2[k].declarations[i] == ms[k].declarations[i]);
        assert(g1[k].declarations[i] == resolve_declaration(ms[k].declarations[i], ids1));
    }
    assert forall|i: int| p <= i < ms[k].declarations.len() implies g2[k].declarations[i + 1]
        == #[trigger] g1[k].declarations[i] by {
        assert(ms2[k].declarations[i + 1] == ms[k].declarations[i]);
        assert(g1[k].declarations[i] == resolve_declaration(ms[k].declarations[i], ids1));
    }
}

/// A list of identifiers has one first collision at most.
pub proof fn lemma_first_collision_is_unique(
    ids: Seq<Seq<u8>>,
    i1: int,
    j1: int,
    i2: int,
    j2: int,
)
    requires
        first_collision(ids, i1, j1),
        first_collision(ids, i2, j2),
    ensures
        i1 == i2,
        j1 == j2,
{
}

/// One declaration only has its identifier at a given position of the list of
/// all identifiers.
pub proof fn lemma_position_is_unique(
    ms: Seq<ModuleView>,
    position: int,
    k1: int,
    i1: int,
    k2: int,
    i2: int,
)
    requires
        is_at_position(ms, position, k1, i1),
        is_at_position(ms, position, k2, i2),
    ensures
        k1 == k2,
        i1 == i2,
{
    if k1 < k2 {
        lemma_offsets_increase(ms, k1 as nat, k2 as nat);
    }
    if k2 < k1 {
        lemma_offsets_increase(ms, k2 as nat, k1 as nat);
    }
}

/// Every type of the signature is settled against `ids`.
pub open spec fn signature_settled(s: SignatureView, ids: Seq<Seq<u8>>) -> bool {
    (forall|i: int| 0 <= i < s.params.len() ==> settled((#[trigger] s.params[i]).ty, ids)) && (
    forall|i: int| 0 <= i < s.returns.len() ==> settled(#[trigger] s.returns[i], ids))
}

/// In a graph, no reference is left open and none is dropped: every type
/// reference of every signature is an identifier of the graph or an opaque
/// name.
pub proof fn lemma_graph_is_settled(ms: Seq<ModuleView>, version: Seq<u8>, k: int, i: int)
    requires
        0 <= k < ms.len(),
        0 <= i < ms[k].declarations.len(),
    ensures
        signature_settled(
            graph_spec(ms, version).modules[k].declarations[i].signature,
            graph_spec(ms, version).identifiers,
        ),
{
    let g = graph_spec(ms, version);
    let ids = g.identifiers;
    let before = ms[k].declarations[i].signature;
    let after = g.modules[k].declarations[i].signature;
    assert(after == crate::graph::resolve_signature(before, ids));
    assert forall|j: int| 0 <= j < after.params.len() implies settled(
        (#[trigger] after.params[j]).ty,
        ids,
    ) by {
        lemma_resolution_settles(before.params[j].ty, ids);
    }
    assert forall|j: int| 0 <= j < after.returns.len() implies settled(
        #[trigger] after.returns[j],
        ids,
    ) by {
        lemma_resolution_settles(before.returns[j], ids);
    }
}

} // verus!
