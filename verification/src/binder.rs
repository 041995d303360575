//! Which documentation comment belongs to which declaration.

use vstd::prelude::*;
use vstd::string::*;
use crate::declaration::{
    Declaration, DeclarationView, Param, ParamView, TagKind, TagView, texts,
};
use crate::doc::{doc_of, lines_of, malformed_of, parse_doc, tags_of};
use crate::model::{
    Diagnostic, DiagnosticCode, DiagnosticView, Position, append_bytes, bytes_equal, copy_bytes,
    diagnostic_view,
};
use crate::syntax::{Comment, CommentView};

verus! {

/// The declaration starts strictly after the comment ends.
pub open spec fn follows(c: CommentView, d: DeclarationView) -> bool {
    c.span.end.precedes(d.span.start)
}

/// The declaration at `d` starts no later than the one at `e`; of two that
/// start at one position the one that stands first in the list counts as the
/// earlier.
pub open spec fn starts_first(decls: Seq<DeclarationView>, d: int, e: int) -> bool {
    decls[d].span.start.precedes(decls[e].span.start) || (decls[d].span.start
        == decls[e].span.start && d <= e)
}

/// The declaration at `d` is the first one that follows the comment.
pub open spec fn is_next(c: CommentView, decls: Seq<DeclarationView>, d: int) -> bool {
    &&& 0 <= d < decls.len()
    &&& follows(c, decls[d])
    &&& forall|e: int|
        0 <= e < decls.len() && follows(c, #[trigger] decls[e]) ==> starts_first(decls, d, e)
}

/// The comment stands behind the declaration on the line where the
/// declaration ends.
pub open spec fn trails(c: CommentView, d: DeclarationView) -> bool {
    d.span.end.line == c.span.start.line && !c.span.start.precedes(d.span.end)
}

/// The comment follows some declaration on that declaration's last line.
pub open spec fn is_trailing(c: CommentView, decls: Seq<DeclarationView>) -> bool {
    exists|d: int| 0 <= d < decls.len() && trails(c, #[trigger] decls[d])
}

/// Nothing but the line break separates the comment from the declaration, or
/// the comment asks to be attached to whatever comes next.
pub open spec fn reaches(c: CommentView, d: DeclarationView) -> bool {
    c.attach_next || d.span.start.line <= c.span.end.line + 1
}

/// The comment could document the declaration at `d`: it leads, `d` is the
/// first declaration after it, and it reaches `d`.
pub open spec fn is_candidate(c: CommentView, decls: Seq<DeclarationView>, d: int) -> bool {
    !is_trailing(c, decls) && is_next(c, decls, d) && reaches(c, decls[d])
}

/// The comment at `c` ends no earlier than the one at `c2`; of two that end at
/// one position the one that stands first in the list counts as the nearer.
pub open spec fn at_least_as_near(comments: Seq<CommentView>, c: int, c2: int) -> bool {
    comments[c2].span.end.precedes(comments[c].span.end) || (comments[c2].span.end
        == comments[c].span.end && c <= c2)
}

/// The comment at `c` is bound to the declaration at `d`: it is a candidate
/// for `d`, and no other candidate for `d` is nearer to it.
pub open spec fn binds(
    comments: Seq<CommentView>,
    decls: Seq<DeclarationView>,
    c: int,
    d: int,
) -> bool {
    &&& 0 <= c < comments.len()
    &&& is_candidate(comments[c], decls, d)
    &&& forall|c2: int|
        0 <= c2 < comments.len() && is_candidate(#[trigger] comments[c2], decls, d)
            ==> at_least_as_near(comments, c, c2)
}

/// A bound declaration starts strictly after its comment ends.
pub proof fn lemma_bound_declaration_comes_after(
    comments: Seq<CommentView>,
    decls: Seq<DeclarationView>,
    c: int,
    d: int,
)
    requires
        binds(comments, decls, c, d),
    ensures
        0 <= d < decls.len(),
        comments[c].span.end.precedes(decls[d].span.start),
        !comments[c].span.end.precedes(comments[c].span.start)
            ==> comments[c].span.start.precedes(decls[d].span.start),
{
}

/// A comment is bound to at most one declaration.
pub proof fn lemma_one_declaration_per_comment(
    comments: Seq<CommentView>,
    decls: Seq<DeclarationView>,
    c: int,
    d1: int,
    d2: int,
)
    requires
        binds(comments, decls, c, d1),
        binds(comments, decls, c, d2),
    ensures
        d1 == d2,
{
    assert(starts_first(decls, d1, d2));
    assert(starts_first(decls, d2, d1));
}

/// At most one comment is bound to a declaration, and it is the nearest of
/// those that could document it: every other candidate ends before it, or at
/// the same position and later in the list.
pub proof fn lemma_nearest_comment_binds(
    comments: Seq<CommentView>,
    decls: Seq<DeclarationView>,
    c1: int,
    c2: int,
    d: int,
)
    requires
        binds(comments, decls, c1, d),
        0 <= c2 < comments.len(),
        is_candidate(comments[c2], decls, d),
    ensures
        at_least_as_near(comments, c1, c2),
        binds(comments, decls, c2, d) ==> c1 == c2,
{
    if binds(comments, decls, c2, d) {
        assert(at_least_as_near(comments, c2, c1));
    }
}

/// Decides whether the comment trails some declaration.
pub fn trails_any(comment: &Comment, decls: &Vec<Declaration>) -> (r: bool)
    ensures
        r == is_trailing(comment@, decls.deep_view()),
{
    let mut i: usize = 0;
    while i < decls.len()
        invariant
            i <= decls.len(),
            forall|d: int| 0 <= d < i ==> !trails(comment@, #[trigger] decls.deep_view()[d]),
        decreases decls.len() - i,
    {
        let d = &decls[i];
        if d.span.end.line == comment.span.start.line && !comment.span.start.is_before(
            &d.span.end,
        ) {
            assert(trails(comment@, decls.deep_view()[i as int]));
            return true;
        }
        i = i + 1;
    }
    false
}

/// Finds the first declaration that follows the comment.
pub fn next_declaration(comment: &Comment, decls: &Vec<Declaration>) -> (r: Option<usize>)
    ensures
        r matches Some(d) ==> is_next(comment@, decls.deep_view(), d as int),
        r is None ==> forall|d: int| !is_next(comment@, decls.deep_view(), d),
{
    let ghost all = decls.deep_view();
    let mut best: Option<usize> = None;
    let mut i: usize = 0;
    while i < decls.len()
        invariant
            i <= decls.len(),
            all == decls.deep_view(),
            best matches Some(b) ==> b < i && follows(comment@, all[b as int]) && forall|e: int|
                0 <= e < i && follows(comment@, #[trigger] all[e]) ==> starts_first(
                    all,
                    b as int,
                    e,
                ),
            best is None ==> forall|e: int| 0 <= e < i ==> !follows(comment@, #[trigger] all[e]),
        decreases decls.len() - i,
    {
        let d = &decls[i];
        assert(all[i as int] == d@);
        if comment.span.end.is_before(&d.span.start) {
            match best {
                None => {
                    best = Some(i);
                },
                Some(b) => {
                    assert(all[b as int] == decls[b as int]@);
                    if d.span.start.is_before(&decls[b].span.start) {
                        best = Some(i);
                    }
                },
            }
        }
        i = i + 1;
    }
    best
}

/// Finds the declaration that the comment could document.
pub fn candidate_for(comment: &Comment, decls: &Vec<Declaration>) -> (r: Option<usize>)
    ensures
        r matches Some(d) ==> is_candidate(comment@, decls.deep_view(), d as int),
        r is None ==> forall|d: int| !is_candidate(comment@, decls.deep_view(), d),
{
    let ghost all = decls.deep_view();
    if trails_any(comment, decls) {
        return None;
    }
    match next_declaration(comment, decls) {
        None => None,
        Some(d) => {
            assert(all[d as int] == decls[d as int]@);
            let start = decls[d].span.start.line;
            let end = comment.span.end.line;
            if comment.attach_next || start <= end || start - end <= 1 {
                Some(d)
            } else {
                assert forall|e: int| !is_candidate(comment@, all, e) by {
                    if is_next(comment@, all, e) {
                        assert(starts_first(all, e, d as int));
                        assert(starts_first(all, d as int, e));
                    }
                }
                None
            }
        },
    }
}

/// The places held in a list of optional indices.
pub open spec fn places(v: Seq<Option<usize>>) -> Seq<Option<int>> {
    Seq::new(
        v.len(),
        |i: int|
            match v[i] {
                Some(d) => Some(d as int),
                None => None,
            },
    )
}

/// For each comment, the declaration that it is bound to, if any.
pub open spec fn binding_spec(comments: Seq<CommentView>, decls: Seq<DeclarationView>) -> Seq<
    Option<int>,
> {
    Seq::new(
        comments.len(),
        |c: int|
            if exists|d: int| binds(comments, decls, c, d) {
                Some(choose|d: int| binds(comments, decls, c, d))
            } else {
                None
            },
    )
}

/// `bound` says of each comment which declaration it is bound to.
pub open spec fn is_binding(
    bound: Seq<Option<int>>,
    comments: Seq<CommentView>,
    decls: Seq<DeclarationView>,
) -> bool {
    &&& bound.len() == comments.len()
    &&& forall|c: int|
        0 <= c < bound.len() ==> match #[trigger] bound[c] {
            Some(d) => binds(comments, decls, c, d),
            None => forall|d: int| !binds(comments, decls, c, d),
        }
}

/// There is one binding only.
pub proof fn lemma_binding_is_unique(
    bound: Seq<Option<int>>,
    comments: Seq<CommentView>,
    decls: Seq<DeclarationView>,
)
    requires
        is_binding(bound, comments, decls),
    ensures
        bound == binding_spec(comments, decls),
{
    let expected = binding_spec(comments, decls);
    assert forall|c: int| 0 <= c < bound.len() implies bound[c] == expected[c] by {
        match bound[c] {
            Some(d) => {
                let e = choose|d: int| binds(comments, decls, c, d);
                lemma_one_declaration_per_comment(comments, decls, c, d, e);
            },
            None => {},
        }
    }
    assert(bound =~= expected);
}

fn is_nearer_or_same(comments: &Vec<Comment>, c: usize, c2: usize) -> (r: bool)
    requires
        c < comments.len(),
        c2 < comments.len(),
    ensures
        r == at_least_as_near(comments.deep_view(), c as int, c2 as int),
{
    let a = &comments[c];
    let b = &comments[c2];
    assert(comments.deep_view()[c as int] == a@);
    assert(comments.deep_view()[c2 as int] == b@);
    b.span.end.is_before(&a.span.end) || (b.span.end.line == a.span.end.line && b.span.end.column
        == a.span.end.column && c <= c2)
}

/// Computes, for each comment, the declaration that it is bound to.
pub fn bindings(comments: &Vec<Comment>, decls: &Vec<Declaration>) -> (r: Vec<Option<usize>>)
    ensures
        places(r@) == binding_spec(comments.deep_view(), decls.deep_view()),
        r.len() == comments.len(),
        forall|c: int| 0 <= c < r.len() ==> (#[trigger] r[c] matches Some(d) ==> d < decls.len()),
{
    let ghost cv = comments.deep_view();
    let ghost dv = decls.deep_view();
    let mut candidates: Vec<Option<usize>> = Vec::new();
    let mut i: usize = 0;
    while i < comments.len()
        invariant
            i <= comments.len(),
            cv == comments.deep_view(),
            dv == decls.deep_view(),
            candidates.len() == i,
            forall|c: int|
                0 <= c < i ==> match #[trigger] candidates[c] {
                    Some(d) => is_candidate(cv[c], dv, d as int),
                    None => forall|d: int| !is_candidate(cv[c], dv, d),
                },
        decreases comments.len() - i,
    {
        assert(cv[i as int] == comments[i as int]@);
        let t = candidate_for(&comments[i], decls);
        candidates.push(t);
        i = i + 1;
    }
    let mut bound: Vec<Option<usize>> = Vec::new();
    let mut c: usize = 0;
    while c < comments.len()
        invariant
            c <= comments.len(),
            cv == comments.deep_view(),
            dv == decls.deep_view(),
            candidates.len() == comments.len(),
            forall|k: int|
                0 <= k < candidates.len() ==> match #[trigger] candidates[k] {
                    Some(d) => is_candidate(cv[k], dv, d as int),
                    None => forall|d: int| !is_candidate(cv[k], dv, d),
                },
            bound.len() == c,
            forall|k: int|
                0 <= k < c ==> match #[trigger] bound[k] {
                    Some(d) => binds(cv, dv, k, d as int),
                    None => forall|d: int| !binds(cv, dv, k, d),
                },
        decreases comments.len() - c,
    {
        let mine = candidates[c];
        match mine {
            None => {
                bound.push(None);
            },
            Some(d) => {
                let mut nearest = true;
                let mut c2: usize = 0;
                while c2 < comments.len()
                    invariant
                        c2 <= comments.len(),
                        c < comments.len(),
                        cv == comments.deep_view(),
                        dv == decls.deep_view(),
                        candidates.len() == comments.len(),
                        candidates[c as int] == Some(d),
                        forall|k: int|
                            0 <= k < candidates.len() ==> match #[trigger] candidates[k] {
                                Some(e) => is_candidate(cv[k], dv, e as int),
                                None => forall|e: int| !is_candidate(cv[k], dv, e),
                            },
                        nearest ==> forall|k: int|
                            0 <= k < c2 && is_candidate(#[trigger] cv[k], dv, d as int)
                                ==> at_least_as_near(cv, c as int, k),
                        !nearest ==> exists|k: int|
                            0 <= k < comments.len() && is_candidate(#[trigger] cv[k], dv, d as int)
                                && !at_least_as_near(cv, c as int, k),
                    decreases comments.len() - c2,
                {
                    let other = candidates[c2];
                    let same = match other {
                        Some(e) => e == d,
                        None => false,
                    };
                    if same {
                        if !is_nearer_or_same(comments, c, c2) {
                            nearest = false;
                            assert(is_candidate(cv[c2 as int], dv, d as int));
                        }
                    } else {
                        proof {
                            if is_candidate(cv[c2 as int], dv, d as int) {
                                match other {
                                    Some(e) => {
                                        assert(is_candidate(cv[c2 as int], dv, e as int));
                                        assert(starts_first(dv, e as int, d as int));
                                        assert(starts_first(dv, d as int, e as int));
                                    },
                                    None => {},
                                }
                            }
                        }
                    }
                    c2 = c2 + 1;
                }
                if nearest {
                    assert(is_candidate(cv[c as int], dv, d as int));
                    assert(binds(cv, dv, c as int, d as int));
                    bound.push(Some(d));
                } else {
                    assert forall|e: int| !binds(cv, dv, c as int, e) by {
                        if binds(cv, dv, c as int, e) {
                            assert(starts_first(dv, e, d as int));
                            assert(starts_first(dv, d as int, e));
                        }
                    }
                    bound.push(None);
                }
            },
        }
        c = c + 1;
    }
    proof {
        let b = places(bound@);
        assert forall|k: int| 0 <= k < b.len() implies match #[trigger] b[k] {
            Some(d) => binds(cv, dv, k, d),
            None => forall|d: int| !binds(cv, dv, k, d),
        } by {
            match bound[k] {
                Some(d) => {},
                None => {},
            }
        }
        lemma_binding_is_unique(b, cv, dv);
        assert forall|k: int| 0 <= k < bound.len() implies (#[trigger] bound[k] matches Some(d)
            ==> d < decls.len()) by {
            match bound[k] {
                Some(d) => {
                    assert(binds(cv, dv, k, d as int));
                },
                None => {},
            }
        }
    }
    bound
}

/// The comment that `bound` attaches to the declaration at `d`: the last one
/// in the list, should `bound` name `d` more than once.
pub open spec fn source_of(bound: Seq<Option<int>>, d: int) -> Option<int>
    decreases bound.len(),
{
    if bound.len() == 0 {
        None
    } else if bound.last() == Some(d) {
        Some(bound.len() - 1)
    } else {
        source_of(bound.drop_last(), d)
    }
}

/// The declaration at `d` with the documentation that `bound` attaches to it;
/// a declaration that no comment is bound to keeps what it had.
pub open spec fn documented_one(
    comments: Seq<CommentView>,
    decls: Seq<DeclarationView>,
    bound: Seq<Option<int>>,
    d: int,
) -> DeclarationView {
    match source_of(bound, d) {
        Some(c) => DeclarationView { doc: Some(doc_of(comments[c].text)), ..decls[d] },
        None => decls[d],
    }
}

/// The declarations with their documentation attached.
pub open spec fn documented(
    comments: Seq<CommentView>,
    decls: Seq<DeclarationView>,
    bound: Seq<Option<int>>,
) -> Seq<DeclarationView> {
    Seq::new(decls.len(), |d: int| documented_one(comments, decls, bound, d))
}

/// The message of the warning for an orphaned comment.
pub open spec fn orphan_message() -> Seq<u8> {
    "documentation comment is not attached to any declaration".spec_bytes()
}

/// What the message for a malformed tag starts with; the tag line follows.
pub open spec fn malformed_message() -> Seq<u8> {
    "malformed documentation tag: ".spec_bytes()
}

/// What the message for a mismatched parameter starts with; the name follows.
pub open spec fn mismatch_message() -> Seq<u8> {
    "documented parameter is not a parameter of the declaration: ".spec_bytes()
}

/// One warning for each malformed tag line, in order.
pub open spec fn malformed_diagnostics(lines: Seq<Seq<u8>>, path: Seq<u8>, at: Position) -> Seq<
    DiagnosticView,
> {
    Seq::new(
        lines.len(),
        |i: int|
            diagnostic_view(DiagnosticCode::MalformedTag, malformed_message() + lines[i], path, at),
    )
}

/// Some parameter is called `name`.
pub open spec fn has_param(params: Seq<ParamView>, name: Seq<u8>) -> bool {
    exists|i: int| 0 <= i < params.len() && (#[trigger] params[i]).name == name
}

/// One warning for each `@param` section whose name is no parameter, in order.
pub open spec fn mismatch_diagnostics(
    tags: Seq<TagView>,
    params: Seq<ParamView>,
    path: Seq<u8>,
    at: Position,
) -> Seq<DiagnosticView>
    decreases tags.len(),
{
    if tags.len() == 0 {
        Seq::empty()
    } else {
        let before = mismatch_diagnostics(tags.drop_last(), params, path, at);
        let tag = tags.last();
        if tag.kind == TagKind::Param && !has_param(params, tag.name) {
            before.push(
                diagnostic_view(
                    DiagnosticCode::DocParameterMismatch,
                    mismatch_message() + tag.name,
                    path,
                    at,
                ),
            )
        } else {
            before
        }
    }
}

/// What one comment gives rise to: a warning that it is orphaned if it is
/// bound to nothing; else its malformed tags, then its mismatched parameters.
pub open spec fn comment_diagnostics(
    c: CommentView,
    target: Option<DeclarationView>,
    path: Seq<u8>,
) -> Seq<DiagnosticView> {
    match target {
        None => seq![
            diagnostic_view(DiagnosticCode::OrphanedComment, orphan_message(), path, c.span.start),
        ],
        Some(d) => malformed_diagnostics(malformed_of(lines_of(c.text)), path, c.span.start)
            + mismatch_diagnostics(
            tags_of(lines_of(c.text)),
            d.signature.params,
            path,
            c.span.start,
        ),
    }
}

/// The declaration at the place `t`, if `t` names one.
pub open spec fn target_view(decls: Seq<DeclarationView>, t: Option<int>) -> Option<
    DeclarationView,
> {
    match t {
        Some(d) => Some(decls[d]),
        None => None,
    }
}

/// The diagnostics of the first `upto` comments, in the order of the comments.
pub open spec fn binder_diagnostics(
    comments: Seq<CommentView>,
    decls: Seq<DeclarationView>,
    bound: Seq<Option<int>>,
    path: Seq<u8>,
    upto: nat,
) -> Seq<DiagnosticView>
    decreases upto,
{
    if upto == 0 {
        Seq::empty()
    } else {
        binder_diagnostics(comments, decls, bound, path, (upto - 1) as nat) + comment_diagnostics(
            comments[upto - 1],
            target_view(decls, bound[upto - 1]),
            path,
        )
    }
}

/// Decides whether some parameter has the given name.
pub fn names_param(params: &Vec<Param>, name: &Vec<u8>) -> (r: bool)
    ensures
        r == has_param(params.deep_view(), name@),
{
    let mut i: usize = 0;
    while i < params.len()
        invariant
            i <= params.len(),
            forall|j: int| 0 <= j < i ==> (#[trigger] params.deep_view()[j]).name != name@,
        decreases params.len() - i,
    {
        if bytes_equal(&params[i].name, name) {
            assert(params.deep_view()[i as int].name == name@);
            return true;
        }
        i = i + 1;
    }
    false
}

fn message_with(prefix: &str, detail: &Vec<u8>) -> (r: Vec<u8>)
    ensures
        r@ == prefix.spec_bytes() + detail@,
{
    let mut r = prefix.as_bytes_vec();
    append_bytes(&mut r, detail);
    r
}

/// Appends to `out` what a comment that is bound to nothing, or to `target`,
/// gives rise to.
pub fn report_comment(
    comment: &Comment,
    target: Option<&Declaration>,
    path: &Vec<u8>,
    out: &mut Vec<Diagnostic>,
)
    ensures
        final(out).deep_view() == old(out).deep_view() + comment_diagnostics(
            comment@,
            match target {
                Some(d) => Some(d@),
                None => None,
            },
            path@,
        ),
{
    let ghost start = out.deep_view();
    let at = comment.span.start;
    match target {
        None => {
            let d = Diagnostic::new(
                DiagnosticCode::OrphanedComment,
                "documentation comment is not attached to any declaration".as_bytes_vec(),
                copy_bytes(path),
                at,
            );
            out.push(d);
            assert(out.deep_view() =~= start + seq![d@]);
        },
        Some(decl) => {
            let parsed = parse_doc(&comment.text);
            let ghost bad = malformed_of(lines_of(comment@.text));
            let ghost tags = tags_of(lines_of(comment@.text));
            let mut i: usize = 0;
            assert(out.deep_view() =~= start + malformed_diagnostics(bad, path@, at).subrange(
                0,
                0,
            ));
            while i < parsed.malformed.len()
                invariant
                    i <= parsed.malformed.len(),
                    texts(parsed.malformed@) == bad,
                    out.deep_view() == start + malformed_diagnostics(bad, path@, at).subrange(
                        0,
                        i as int,
                    ),
                decreases parsed.malformed.len() - i,
            {
                let ghost before = out.deep_view();
                assert(bad[i as int] == parsed.malformed[i as int]@);
                let d = Diagnostic::new(
                    DiagnosticCode::MalformedTag,
                    message_with("malformed documentation tag: ", &parsed.malformed[i]),
                    copy_bytes(path),
                    at,
                );
                out.push(d);
                assert(out.deep_view() =~= before.push(d@));
                assert(out.deep_view() =~= start + malformed_diagnostics(bad, path@, at).subrange(
                    0,
                    i + 1,
                ));
                i = i + 1;
            }
            assert(malformed_diagnostics(bad, path@, at).subrange(0, bad.len() as int)
                =~= malformed_diagnostics(bad, path@, at));
            let ghost mid = out.deep_view();
            let ghost params = decl@.signature.params;
            let mut j: usize = 0;
            assert(tags.subrange(0, 0) =~= Seq::<TagView>::empty());
            assert(out.deep_view() =~= mid + Seq::<DiagnosticView>::empty());
            while j < parsed.doc.tags.len()
                invariant
                    j <= parsed.doc.tags.len(),
                    parsed.doc.tags.deep_view() == tags,
                    params == decl@.signature.params,
                    out.deep_view() == mid + mismatch_diagnostics(
                        tags.subrange(0, j as int),
                        params,
                        path@,
                        at,
                    ),
                decreases parsed.doc.tags.len() - j,
            {
                let ghost before = out.deep_view();
                let tag = &parsed.doc.tags[j];
                proof {
                    let next = tags.subrange(0, j + 1);
                    assert(next.drop_last() =~= tags.subrange(0, j as int));
                    assert(next.last() == tag@);
                }
                let is_param = match tag.kind {
                    TagKind::Param => true,
                    _ => false,
                };
                if is_param && !names_param(&decl.signature.params, &tag.name) {
                    let d = Diagnostic::new(
                        DiagnosticCode::DocParameterMismatch,
                        message_with(
                            "documented parameter is not a parameter of the declaration: ",
                            &tag.name,
                        ),
                        copy_bytes(path),
                        at,
                    );
                    out.push(d);
                    assert(out.deep_view() =~= before.push(d@));
                }
                j = j + 1;
            }
            assert(tags.subrange(0, tags.len() as int) =~= tags);
            assert(out.deep_view() =~= start + (malformed_diagnostics(bad, path@, at)
                + mismatch_diagnostics(tags, params, path@, at)));
        },
    }
}

fn find_source(bound: &Vec<Option<usize>>, d: usize) -> (r: Option<usize>)
    ensures
        r matches Some(c) ==> c < bound.len() && source_of(places(bound@), d as int) == Some(
            c as int,
        ),
        r is None ==> source_of(places(bound@), d as int) is None,
{
    let ghost all = places(bound@);
    let mut i: usize = bound.len();
    assert(all.subrange(0, i as int) =~= all);
    while i > 0
        invariant
            i <= bound.len(),
            all == places(bound@),
            source_of(all, d as int) == source_of(all.subrange(0, i as int), d as int),
        decreases i,
    {
        let ghost prefix = all.subrange(0, i as int);
        assert(prefix.drop_last() =~= all.subrange(0, i - 1));
        assert(prefix.last() == all[i - 1]);
        match bound[i - 1] {
            Some(e) => {
                if e == d {
                    return Some(i - 1);
                }
            },
            None => {},
        }
        i = i - 1;
    }
    None
}

/// Attaches to each declaration the documentation of the comment that `bound`
/// names for it.
pub(crate) fn attach(comments: &Vec<Comment>, decls: Vec<Declaration>, bound: &Vec<Option<usize>>) -> (r:
    Vec<Declaration>)
    requires
        bound.len() == comments.len(),
    ensures
        r.deep_view() == documented(comments.deep_view(), decls.deep_view(), places(bound@)),
{
    let ghost cv = comments.deep_view();
    let ghost dv = decls.deep_view();
    let ghost target = documented(cv, dv, places(bound@));
    let n = decls.len();
    let mut rest = decls;
    let mut rev: Vec<Declaration> = Vec::new();
    assert(rest.deep_view() =~= dv.subrange(0, n as int));
    while rest.len() > 0
        invariant
            cv == comments.deep_view(),
            bound.len() == comments.len(),
            n == dv.len(),
            target == documented(cv, dv, places(bound@)),
            rest.deep_view() == dv.subrange(0, rest.len() as int),
            rev.len() + rest.len() == n,
            forall|k: int| 0 <= k < rev.len() ==> (#[trigger] rev.deep_view()[k]) == target[n - 1 - k],
        decreases rest.len(),
    {
        let index = rest.len() - 1;
        let ghost before = rest.deep_view();
        let ghost rev_before = rev.deep_view();
        let mut d = rest.pop().unwrap();
        assert(d@ == before[index as int]);
        assert(rest.deep_view() =~= dv.subrange(0, index as int));
        match find_source(bound, index) {
            Some(c) => {
                assert(cv[c as int] == comments[c as int]@);
                let parsed = parse_doc(&comments[c].text);
                d.doc = Some(parsed.doc);
            },
            None => {},
        }
        assert(d@ == target[index as int]);
        rev.push(d);
        assert(rev.deep_view() =~= rev_before.push(d@));
    }
    let mut out: Vec<Declaration> = Vec::new();
    while rev.len() > 0
        invariant
            n == target.len(),
            out.len() + rev.len() == n,
            forall|k: int| 0 <= k < rev.len() ==> (#[trigger] rev.deep_view()[k]) == target[n - 1 - k],
            forall|k: int| 0 <= k < out.len() ==> (#[trigger] out.deep_view()[k]) == target[k],
        decreases rev.len(),
    {
        let ghost rev_before = rev.deep_view();
        let ghost out_before = out.deep_view();
        let d = rev.pop().unwrap();
        assert(d@ == rev_before[rev.len() as int]);
        assert(rev.deep_view() =~= rev_before.subrange(0, rev.len() as int));
        out.push(d);
        assert(out.deep_view() =~= out_before.push(d@));
    }
    assert(out.deep_view() =~= target);
    out
}

/// The result of binding: the declarations with their documentation, and what
/// the comments gave rise to.
#[derive(Debug, PartialEq, Eq)]
pub struct Bound {
    pub declarations: Vec<Declaration>,
    pub diagnostics: Vec<Diagnostic>,
}

/// Binds the documentation comments of the module at `path` to its
/// declarations.
///
/// A comment is bound to the first declaration that starts after it, if it
/// reaches that declaration and does not trail another one; of several
/// comments that could document one declaration the nearest is bound. Every
/// comment that is bound to nothing is reported as orphaned; a bound one has
/// its malformed tags and its mismatched parameter names reported.
pub fn bind(path: &Vec<u8>, comments: &Vec<Comment>, decls: Vec<Declaration>) -> (r: Bound)
    ensures
        r.declarations.deep_view() == documented(
            comments.deep_view(),
            decls.deep_view(),
            binding_spec(comments.deep_view(), decls.deep_view()),
        ),
        r.diagnostics.deep_view() == binder_diagnostics(
            comments.deep_view(),
            decls.deep_view(),
            binding_spec(comments.deep_view(), decls.deep_view()),
            path@,
            comments.len() as nat,
        ),
{
    let ghost cv = comments.deep_view();
    let ghost dv = decls.deep_view();
    let bound = bindings(comments, &decls);
    let ghost b = places(bound@);
    let mut diagnostics: Vec<Diagnostic> = Vec::new();
    let mut c: usize = 0;
    assert(diagnostics.deep_view() =~= Seq::<DiagnosticView>::empty());
    while c < comments.len()
        invariant
            c <= comments.len(),
            cv == comments.deep_view(),
            dv == decls.deep_view(),
            b == places(bound@),
            bound.len() == comments.len(),
            forall|k: int|
                0 <= k < bound.len() ==> (#[trigger] bound[k] matches Some(d) ==> d < decls.len()),
            diagnostics.deep_view() == binder_diagnostics(cv, dv, b, path@, c as nat),
        decreases comments.len() - c,
    {
        assert(cv[c as int] == comments[c as int]@);
        let target = match bound[c] {
            Some(d) => {
                assert(dv[d as int] == decls[d as int]@);
                Some(&decls[d])
            },
            None => None,
        };
        report_comment(&comments[c], target, path, &mut diagnostics);
        c = c + 1;
    }
    let declarations = attach(comments, decls, &bound);
    Bound { declarations, diagnostics }
}

} // verus!
