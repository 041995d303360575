//! The output artifact: one JSON document. The contract fixes every byte of
//! it, so that equal inputs give equal bytes.

use vstd::prelude::*;
use vstd::string::*;
use crate::declaration::{
    DocComment, DocView, Param, ParamView, Signature, SignatureView, Tag, TagKind, TagView,
    opt_doc, texts,
};
use crate::declaration::{
    DeclKind, Declaration, DeclarationView, Visibility, children_of, children_spec,
};
use crate::graph::{Graph, GraphView, Module, ModuleView, identifier, identifier_of};
use crate::model::{Diagnostic, DiagnosticCode, DiagnosticView, Severity, append_bytes};
use crate::signature::{TypeExpr, TypeView, lemma_type_view_unfold, type_views};

verus! {

/// The bytes of a piece of fixed text.
pub open spec fn lit(s: &str) -> Seq<u8> {
    s.spec_bytes()
}

/// Appends a piece of fixed text.
pub fn put(out: &mut Vec<u8>, s: &str)
    ensures
        final(out)@ == old(out)@ + lit(s),
{
    let bytes = s.as_bytes_vec();
    append_bytes(out, &bytes);
}

/// The digit, in lower-case hexadecimal, of a value below sixteen.
pub open spec fn hex_digit(v: u8) -> u8 {
    if v < 10 {
        (48 + v) as u8
    } else {
        (87 + v) as u8
    }
}

/// How one byte of a string stands in JSON text: quote and backslash behind a
/// backslash, the usual short forms for line feed, carriage return and tab,
/// `\u00XX` for the other control bytes, every other byte as it is.
pub open spec fn escape_byte(b: u8) -> Seq<u8> {
    if b == 34 {
        seq![92u8, 34u8]
    } else if b == 92 {
        seq![92u8, 92u8]
    } else if b == 10 {
        seq![92u8, 110u8]
    } else if b == 13 {
        seq![92u8, 114u8]
    } else if b == 9 {
        seq![92u8, 116u8]
    } else if b < 32 {
        seq![92u8, 117u8, 48u8, 48u8, hex_digit(b / 16), hex_digit(b % 16)]
    } else {
        seq![b]
    }
}

/// A string's bytes, escaped one by one.
pub open spec fn escape(s: Seq<u8>) -> Seq<u8>
    decreases s.len(),
{
    if s.len() == 0 {
        Seq::empty()
    } else {
        escape(s.drop_last()) + escape_byte(s.last())
    }
}

/// A JSON string: the escaped bytes between quotes.
pub open spec fn json_string(s: Seq<u8>) -> Seq<u8> {
    seq![34u8] + escape(s) + seq![34u8]
}

/// A number in decimal, without leading zeros.
pub open spec fn decimal(n: nat) -> Seq<u8>
    decreases n,
{
    if n < 10 {
        seq![(48 + n) as u8]
    } else {
        decimal(n / 10) + seq![(48 + n % 10) as u8]
    }
}

/// The items with a comma between each two.
pub open spec fn joined(items: Seq<Seq<u8>>) -> Seq<u8>
    decreases items.len(),
{
    if items.len() == 0 {
        Seq::empty()
    } else if items.len() == 1 {
        items[0]
    } else {
        joined(items.drop_last()) + seq![44u8] + items.last()
    }
}

/// A JSON object of members that are already rendered.
pub open spec fn json_members(items: Seq<Seq<u8>>) -> Seq<u8> {
    seq![123u8] + joined(items) + seq![125u8]
}

/// A JSON array of items that are already rendered.
pub open spec fn json_array(items: Seq<Seq<u8>>) -> Seq<u8> {
    seq![91u8] + joined(items) + seq![93u8]
}

/// Joining one more item: a comma goes before it unless it is the first.
pub proof fn lemma_joined_step(items: Seq<Seq<u8>>, i: int)
    requires
        0 <= i < items.len(),
    ensures
        joined(items.subrange(0, i + 1)) == if i == 0 {
            items[0]
        } else {
            joined(items.subrange(0, i)) + seq![44u8] + items[i]
        },
{
    let next = items.subrange(0, i + 1);
    assert(next.last() == items[i]);
    assert(next.drop_last() =~= items.subrange(0, i));
    if i == 0 {
        assert(next[0] == items[0]);
    }
}

/// Opening a list: nothing is joined yet.
pub proof fn lemma_list_start(start: Seq<u8>, open: u8, items: Seq<Seq<u8>>)
    ensures
        start.push(open) == start + seq![open] + joined(items.subrange(0, 0)),
{
    assert(items.subrange(0, 0) =~= Seq::<Seq<u8>>::empty());
    assert(start.push(open) =~= start + seq![open] + joined(items.subrange(0, 0)));
}

/// Writing the item at `i` behind the first `i` items of a list, with a comma
/// before it unless it is the first.
pub proof fn lemma_list_step(start: Seq<u8>, open: u8, items: Seq<Seq<u8>>, i: int)
    requires
        0 <= i < items.len(),
    ensures
        ({
            let before = start + seq![open] + joined(items.subrange(0, i));
            let after = start + seq![open] + joined(items.subrange(0, i + 1));
            if i == 0 {
                before + items[i] == after
            } else {
                before.push(44u8) + items[i] == after
            }
        }),
{
    lemma_joined_step(items, i);
    let before = start + seq![open] + joined(items.subrange(0, i));
    let after = start + seq![open] + joined(items.subrange(0, i + 1));
    if i == 0 {
        assert(items.subrange(0, 0) =~= Seq::<Seq<u8>>::empty());
        assert(before + items[i] =~= after);
    } else {
        assert(before.push(44u8) + items[i] =~= after);
    }
}

/// Closing a list of which every item has been written.
pub proof fn lemma_list_end(start: Seq<u8>, open: u8, close: u8, items: Seq<Seq<u8>>)
    ensures
        (start + seq![open] + joined(items.subrange(0, items.len() as int))).push(close) == start
            + (seq![open] + joined(items) + seq![close]),
{
    assert(items.subrange(0, items.len() as int) =~= items);
    assert((start + seq![open] + joined(items)).push(close) =~= start + (seq![open] + joined(items)
        + seq![close]));
}

fn hex_of(v: u8) -> (r: u8)
    requires
        v < 16,
    ensures
        r == hex_digit(v),
{
    if v < 10 {
        48 + v
    } else {
        87 + v
    }
}

/// Appends the escaped form of one byte.
pub fn put_escaped_byte(out: &mut Vec<u8>, b: u8)
    ensures
        final(out)@ == old(out)@ + escape_byte(b),
{
    let ghost start = out@;
    if b == 34 {
        out.push(92u8);
        out.push(34u8);
    } else if b == 92 {
        out.push(92u8);
        out.push(92u8);
    } else if b == 10 {
        out.push(92u8);
        out.push(110u8);
    } else if b == 13 {
        out.push(92u8);
        out.push(114u8);
    } else if b == 9 {
        out.push(92u8);
        out.push(116u8);
    } else if b < 32 {
        out.push(92u8);
        out.push(117u8);
        out.push(48u8);
        out.push(48u8);
        out.push(hex_of(b / 16));
        out.push(hex_of(b % 16));
    } else {
        out.push(b);
    }
    assert(out@ =~= start + escape_byte(b));
}

/// Appends a JSON string.
pub fn put_string(out: &mut Vec<u8>, s: &Vec<u8>)
    ensures
        final(out)@ == old(out)@ + json_string(s@),
{
    let ghost start = out@;
    out.push(34u8);
    let mut i: usize = 0;
    assert(s@.subrange(0, 0) =~= Seq::<u8>::empty());
    assert(out@ =~= start + seq![34u8] + escape(s@.subrange(0, 0)));
    while i < s.len()
        invariant
            i <= s.len(),
            out@ == start + seq![34u8] + escape(s@.subrange(0, i as int)),
        decreases s.len() - i,
    {
        proof {
            let next = s@.subrange(0, i + 1);
            assert(next.drop_last() =~= s@.subrange(0, i as int));
            assert(next.last() == s@[i as int]);
        }
        put_escaped_byte(out, s[i]);
        assert(out@ =~= start + seq![34u8] + escape(s@.subrange(0, i + 1)));
        i = i + 1;
    }
    assert(s@.subrange(0, s.len() as int) =~= s@);
    out.push(34u8);
    assert(out@ =~= start + json_string(s@));
}

/// Appends a number in decimal.
pub fn put_number(out: &mut Vec<u8>, n: u64)
    ensures
        final(out)@ == old(out)@ + decimal(n as nat),
    decreases n,
{
    let ghost start = out@;
    if n < 10 {
        out.push(48 + (n as u8));
        assert(out@ =~= start + decimal(n as nat));
    } else {
        put_number(out, n / 10);
        out.push(48 + ((n % 10) as u8));
        assert(out@ =~= start + decimal(n as nat));
    }
}

/// A type as a JSON object that names its kind.
pub open spec fn render_type(t: TypeView) -> Seq<u8>
    decreases t,
{
    match t {
        TypeView::Primitive(n) => lit("{\"kind\":\"primitive\",\"name\":") + json_string(n) + lit(
            "}",
        ),
        TypeView::Reference { module, name } => lit("{\"kind\":\"reference\",\"module\":")
            + json_string(module) + lit(",\"name\":") + json_string(name) + lit("}"),
        TypeView::Resolved(id) => lit("{\"kind\":\"resolved\",\"identifier\":") + json_string(id)
            + lit("}"),
        TypeView::External(n) => lit("{\"kind\":\"external\",\"name\":") + json_string(n) + lit(
            "}",
        ),
        TypeView::Optional(inner) => lit("{\"kind\":\"optional\",\"inner\":") + render_type(
            *inner,
        ) + lit("}"),
        TypeView::Union(ts) => lit("{\"kind\":\"union\",\"members\":") + json_array(
            render_types(ts),
        ) + lit("}"),
        TypeView::Function(ps, rs) => lit("{\"kind\":\"function\",\"params\":") + json_array(
            render_types(ps),
        ) + lit(",\"returns\":") + json_array(render_types(rs)) + lit("}"),
    }
}

/// A list of types, each rendered.
pub open spec fn render_types(ts: Seq<TypeView>) -> Seq<Seq<u8>>
    decreases ts,
{
    Seq::new(
        ts.len(),
        |i: int|
            if 0 <= i < ts.len() {
                render_type(ts[i])
            } else {
                Seq::empty()
            },
    )
}

/// Appends a type.
pub fn put_type(out: &mut Vec<u8>, t: &TypeExpr)
    ensures
        final(out)@ == old(out)@ + render_type(t@),
    decreases t, 0nat,
{
    proof {
        lemma_type_view_unfold(*t);
    }
    let ghost start = out@;
    match t {
        TypeExpr::Primitive(n) => {
            put(out, "{\"kind\":\"primitive\",\"name\":");
            put_string(out, n);
            put(out, "}");
        },
        TypeExpr::Reference { module, name } => {
            put(out, "{\"kind\":\"reference\",\"module\":");
            put_string(out, module);
            put(out, ",\"name\":");
            put_string(out, name);
            put(out, "}");
        },
        TypeExpr::Resolved(id) => {
            put(out, "{\"kind\":\"resolved\",\"identifier\":");
            put_string(out, id);
            put(out, "}");
        },
        TypeExpr::External(n) => {
            put(out, "{\"kind\":\"external\",\"name\":");
            put_string(out, n);
            put(out, "}");
        },
        TypeExpr::Optional(inner) => {
            put(out, "{\"kind\":\"optional\",\"inner\":");
            put_type(out, inner);
            put(out, "}");
        },
        TypeExpr::Union(ts) => {
            put(out, "{\"kind\":\"union\",\"members\":");
            put_type_array(out, ts);
            put(out, "}");
        },
        TypeExpr::Function(ps, rs) => {
            put(out, "{\"kind\":\"function\",\"params\":");
            put_type_array(out, ps);
            put(out, ",\"returns\":");
            put_type_array(out, rs);
            put(out, "}");
        },
    }
    assert(out@ =~= start + render_type(t@));
}

/// Appends the first `upto` types of `ts`, with commas between them.
fn put_types(out: &mut Vec<u8>, ts: &Vec<TypeExpr>, upto: usize)
    requires
        upto <= ts.len(),
    ensures
        final(out)@ == old(out)@ + joined(render_types(type_views(ts@)).subrange(0, upto as int)),
    decreases ts, upto,
{
    let ghost start = out@;
    let ghost items = render_types(type_views(ts@));
    if upto == 0 {
        assert(items.subrange(0, 0) =~= Seq::<Seq<u8>>::empty());
        assert(out@ =~= start + joined(items.subrange(0, 0)));
    } else {
        put_types(out, ts, upto - 1);
        proof {
            lemma_joined_step(items, upto - 1);
        }
        if upto > 1 {
            out.push(44u8);
        }
        put_type(out, &ts[upto - 1]);
        assert(out@ =~= start + joined(items.subrange(0, upto as int)));
    }
}

/// Appends a JSON array of types.
pub fn put_type_array(out: &mut Vec<u8>, ts: &Vec<TypeExpr>)
    ensures
        final(out)@ == old(out)@ + json_array(render_types(type_views(ts@))),
    decreases ts, ts.len() + 1,
{
    let ghost start = out@;
    let ghost items = render_types(type_views(ts@));
    out.push(91u8);
    put_types(out, ts, ts.len());
    out.push(93u8);
    assert(items.subrange(0, ts.len() as int) =~= items);
    assert(out@ =~= start + json_array(items));
}

/// An optional string: the string, or `null`.
pub open spec fn render_optional(s: Option<Seq<u8>>) -> Seq<u8> {
    match s {
        Some(t) => json_string(t),
        None => lit("null"),
    }
}

/// A parameter as a JSON object.
pub open spec fn render_param(p: ParamView) -> Seq<u8> {
    lit("{\"name\":") + json_string(p.name) + lit(",\"type\":") + render_type(p.ty) + lit(
        ",\"default\":",
    ) + render_optional(p.default) + lit("}")
}

/// A list of strings, each as a JSON string.
pub open spec fn render_strings(ss: Seq<Seq<u8>>) -> Seq<Seq<u8>> {
    Seq::new(ss.len(), |i: int| json_string(ss[i]))
}

/// A list of parameters, each rendered.
pub open spec fn render_params(ps: Seq<ParamView>) -> Seq<Seq<u8>> {
    Seq::new(ps.len(), |i: int| render_param(ps[i]))
}

/// A signature as a JSON object.
pub open spec fn render_signature(s: SignatureView) -> Seq<u8> {
    lit("{\"generics\":") + json_array(render_strings(s.generics)) + lit(",\"params\":")
        + json_array(render_params(s.params)) + lit(",\"returns\":") + json_array(
        render_types(s.returns),
    ) + lit("}")
}

/// Appends a JSON array of strings.
pub fn put_string_array(out: &mut Vec<u8>, items: &Vec<Vec<u8>>)
    ensures
        final(out)@ == old(out)@ + json_array(render_strings(texts(items@))),
{
    let ghost start = out@;
    let ghost rendered = render_strings(texts(items@));
    out.push(91u8);
    proof {
        lemma_list_start(start, 91u8, rendered);
    }
    let mut i: usize = 0;
    while i < items.len()
        invariant
            i <= items.len(),
            rendered == render_strings(texts(items@)),
            out@ == start + seq![91u8] + joined(rendered.subrange(0, i as int)),
        decreases items.len() - i,
    {
        proof {
            lemma_list_step(start, 91u8, rendered, i as int);
        }
        if i > 0 {
            out.push(44u8);
        }
        put_string(out, &items[i]);
        i = i + 1;
    }
    out.push(93u8);
    proof {
        lemma_list_end(start, 91u8, 93u8, rendered);
    }
}

/// Appends a parameter.
pub fn put_param(out: &mut Vec<u8>, p: &Param)
    ensures
        final(out)@ == old(out)@ + render_param(p@),
{
    let ghost start = out@;
    put(out, "{\"name\":");
    put_string(out, &p.name);
    put(out, ",\"type\":");
    put_type(out, &p.ty);
    put(out, ",\"default\":");
    match &p.default {
        Some(d) => put_string(out, d),
        None => put(out, "null"),
    }
    put(out, "}");
    assert(out@ =~= start + render_param(p@));
}

/// Appends one more piece behind what has been written since `start`.
pub proof fn step(start: Seq<u8>, acc: Seq<u8>, piece: Seq<u8>) -> (r: Seq<u8>)
    ensures
        r == acc + piece,
        (start + acc) + piece == start + r,
{
    assert((start + acc) + piece =~= start + (acc + piece));
    acc + piece
}

/// Appends a JSON array of parameters.
pub fn put_param_array(out: &mut Vec<u8>, params: &Vec<Param>)
    ensures
        final(out)@ == old(out)@ + json_array(render_params(params.deep_view())),
{
    let ghost start = out@;
    let ghost rendered = render_params(params.deep_view());
    out.push(91u8);
    proof {
        lemma_list_start(start, 91u8, rendered);
    }
    let mut i: usize = 0;
    while i < params.len()
        invariant
            i <= params.len(),
            rendered == render_params(params.deep_view()),
            out@ == start + seq![91u8] + joined(rendered.subrange(0, i as int)),
        decreases params.len() - i,
    {
        proof {
            lemma_list_step(start, 91u8, rendered, i as int);
        }
        if i > 0 {
            out.push(44u8);
        }
        assert(params.deep_view()[i as int] == params[i as int]@);
        put_param(out, &params[i]);
        i = i + 1;
    }
    out.push(93u8);
    proof {
        lemma_list_end(start, 91u8, 93u8, rendered);
    }
}

/// Appends a signature.
pub fn put_signature(out: &mut Vec<u8>, s: &Signature)
    ensures
        final(out)@ == old(out)@ + render_signature(s@),
{
    let ghost start = out@;
    let ghost sv = s@;
    put(out, "{\"generics\":");
    let ghost mut acc = lit("{\"generics\":");
    put_string_array(out, &s.generics);
    proof {
        acc = step(start, acc, json_array(render_strings(sv.generics)));
    }
    put(out, ",\"params\":");
    proof {
        acc = step(start, acc, lit(",\"params\":"));
    }
    put_param_array(out, &s.params);
    proof {
        acc = step(start, acc, json_array(render_params(sv.params)));
    }
    put(out, ",\"returns\":");
    proof {
        acc = step(start, acc, lit(",\"returns\":"));
    }
    put_type_array(out, &s.returns);
    proof {
        acc = step(start, acc, json_array(render_types(sv.returns)));
    }
    put(out, "}");
    proof {
        acc = step(start, acc, lit("}"));
    }
}

/// The name of a tag kind, as a JSON string.
pub open spec fn tag_kind_text(k: TagKind) -> Seq<u8> {
    match k {
        TagKind::Param => lit("\"param\""),
        TagKind::Return => lit("\"return\""),
        TagKind::Deprecated => lit("\"deprecated\""),
        TagKind::Custom => lit("\"custom\""),
    }
}

/// A tagged section as a JSON object.
pub open spec fn render_tag(t: TagView) -> Seq<u8> {
    lit("{\"kind\":") + tag_kind_text(t.kind) + lit(",\"name\":") + json_string(t.name) + lit(
        ",\"text\":",
    ) + json_string(t.text) + lit("}")
}

/// A list of tagged sections, each rendered.
pub open spec fn render_tags(ts: Seq<TagView>) -> Seq<Seq<u8>> {
    Seq::new(ts.len(), |i: int| render_tag(ts[i]))
}

/// A declaration's documentation: an object, or `null` where there is none.
pub open spec fn render_doc(d: Option<DocView>) -> Seq<u8> {
    match d {
        None => lit("null"),
        Some(doc) => lit("{\"summary\":") + json_string(doc.summary) + lit(",\"tags\":")
            + json_array(render_tags(doc.tags)) + lit(",\"raw\":") + json_string(doc.raw) + lit(
            "}",
        ),
    }
}

/// The name of a declaration kind, as a JSON string.
pub open spec fn decl_kind_text(k: DeclKind) -> Seq<u8> {
    match k {
        DeclKind::Type => lit("\"type\""),
        DeclKind::Function => lit("\"function\""),
        DeclKind::Field => lit("\"field\""),
        DeclKind::Export => lit("\"export\""),
    }
}

/// The name of a visibility, as a JSON string.
pub open spec fn visibility_text(v: Visibility) -> Seq<u8> {
    match v {
        Visibility::Public => lit("\"public\""),
        Visibility::Private => lit("\"private\""),
    }
}

/// The identifiers of the members of the declaration at `index`, each as a
/// JSON string.
pub open spec fn render_children(path: Seq<u8>, decls: Seq<DeclarationView>, index: int) -> Seq<
    Seq<u8>,
> {
    let cs = children_spec(decls, index);
    Seq::new(cs.len(), |j: int| json_string(identifier(path, decls[cs[j]].qualified_name)))
}

/// The declaration at `index` of the module at `path` as a JSON object.
#[verifier::opaque]
pub open spec fn render_declaration(path: Seq<u8>, decls: Seq<DeclarationView>, index: int)
    -> Seq<u8> {
    let d = decls[index];
    lit("{\"kind\":") + decl_kind_text(d.kind) + lit(",\"name\":") + json_string(d.name) + lit(
        ",\"qualifiedName\":",
    ) + json_string(d.qualified_name) + lit(",\"identifier\":") + json_string(
        identifier(path, d.qualified_name),
    ) + lit(",\"visibility\":") + visibility_text(d.visibility) + lit(",\"line\":") + decimal(
        d.span.start.line as nat,
    ) + lit(",\"column\":") + decimal(d.span.start.column as nat) + lit(",\"signature\":")
        + render_signature(d.signature) + lit(",\"documentation\":") + render_doc(d.doc) + lit(
        ",\"children\":",
    ) + json_array(render_children(path, decls, index)) + lit("}")
}

/// The declarations of the module at `path`, each rendered.
pub open spec fn render_declarations(path: Seq<u8>, decls: Seq<DeclarationView>) -> Seq<Seq<u8>> {
    Seq::new(decls.len(), |i: int| render_declaration(path, decls, i))
}

/// A module as a member of the `modules` object: its path, a colon, and the
/// array of its declarations.
#[verifier::opaque]
pub open spec fn render_module(m: ModuleView) -> Seq<u8> {
    json_string(m.path) + lit(":") + json_array(render_declarations(m.path, m.declarations))
}

/// A list of modules, each rendered.
pub open spec fn render_modules(ms: Seq<ModuleView>) -> Seq<Seq<u8>> {
    Seq::new(ms.len(), |k: int| render_module(ms[k]))
}

/// The name of a severity, as a JSON string.
pub open spec fn severity_text(s: Severity) -> Seq<u8> {
    match s {
        Severity::Error => lit("\"error\""),
        Severity::Warning => lit("\"warning\""),
    }
}

/// The stable code of a diagnostic, as a JSON string.
pub open spec fn code_text(c: DiagnosticCode) -> Seq<u8> {
    match c {
        DiagnosticCode::ParseError => lit("\"parse-error\""),
        DiagnosticCode::TypeError => lit("\"type-error\""),
        DiagnosticCode::OrphanedComment => lit("\"orphaned-comment\""),
        DiagnosticCode::MalformedTag => lit("\"malformed-tag\""),
        DiagnosticCode::DocParameterMismatch => lit("\"doc-parameter-mismatch\""),
        DiagnosticCode::UnresolvedReference => lit("\"unresolved-reference\""),
        DiagnosticCode::NamingCollision => lit("\"naming-collision\""),
    }
}

/// A diagnostic as a JSON object.
pub open spec fn render_diagnostic(d: DiagnosticView) -> Seq<u8> {
    lit("{\"severity\":") + severity_text(d.severity) + lit(",\"code\":") + code_text(d.code) + lit(
        ",\"message\":",
    ) + json_string(d.message) + lit(",\"module\":") + json_string(d.module) + lit(",\"line\":")
        + decimal(d.line as nat) + lit(",\"column\":") + decimal(d.column as nat) + lit("}")
}

/// A list of diagnostics, each rendered.
pub open spec fn render_diagnostics(ds: Seq<DiagnosticView>) -> Seq<Seq<u8>> {
    Seq::new(ds.len(), |i: int| render_diagnostic(ds[i]))
}

/// The whole artifact: generator version, modules by path, diagnostics.
pub open spec fn render_document(g: GraphView, ds: Seq<DiagnosticView>) -> Seq<u8> {
    lit("{\"generatorVersion\":") + json_string(g.generator_version) + lit(",\"modules\":")
        + json_members(render_modules(g.modules)) + lit(",\"diagnostics\":") + json_array(
        render_diagnostics(ds),
    ) + lit("}")
}

/// Appends a tagged section.
pub fn put_tag(out: &mut Vec<u8>, t: &Tag)
    ensures
        final(out)@ == old(out)@ + render_tag(t@),
{
    let ghost start = out@;
    put(out, "{\"kind\":");
    match t.kind {
        TagKind::Param => put(out, "\"param\""),
        TagKind::Return => put(out, "\"return\""),
        TagKind::Deprecated => put(out, "\"deprecated\""),
        TagKind::Custom => put(out, "\"custom\""),
    }
    put(out, ",\"name\":");
    put_string(out, &t.name);
    put(out, ",\"text\":");
    put_string(out, &t.text);
    put(out, "}");
    assert(out@ =~= start + render_tag(t@));
}

/// Appends a JSON array of tagged sections.
pub fn put_tag_array(out: &mut Vec<u8>, tags: &Vec<Tag>)
    ensures
        final(out)@ == old(out)@ + json_array(render_tags(tags.deep_view())),
{
    let ghost start = out@;
    let ghost rendered = render_tags(tags.deep_view());
    out.push(91u8);
    proof {
        lemma_list_start(start, 91u8, rendered);
    }
    let mut i: usize = 0;
    while i < tags.len()
        invariant
            i <= tags.len(),
            rendered == render_tags(tags.deep_view()),
            out@ == start + seq![91u8] + joined(rendered.subrange(0, i as int)),
        decreases tags.len() - i,
    {
        proof {
            lemma_list_step(start, 91u8, rendered, i as int);
        }
        if i > 0 {
            out.push(44u8);
        }
        assert(tags.deep_view()[i as int] == tags[i as int]@);
        put_tag(out, &tags[i]);
        i = i + 1;
    }
    out.push(93u8);
    proof {
        lemma_list_end(start, 91u8, 93u8, rendered);
    }
}

/// Appends a declaration's documentation.
pub fn put_doc(out: &mut Vec<u8>, d: &Option<DocComment>)
    ensures
        final(out)@ == old(out)@ + render_doc(opt_doc(*d)),
{
    let ghost start = out@;
    match d {
        None => {
            put(out, "null");
        },
        Some(doc) => {
            let ghost dv = doc@;
            put(out, "{\"summary\":");
            let ghost mut acc = lit("{\"summary\":");
            put_string(out, &doc.summary);
            proof {
                acc = step(start, acc, json_string(dv.summary));
            }
            put(out, ",\"tags\":");
            proof {
                acc = step(start, acc, lit(",\"tags\":"));
            }
            put_tag_array(out, &doc.tags);
            proof {
                acc = step(start, acc, json_array(render_tags(dv.tags)));
            }
            put(out, ",\"raw\":");
            proof {
                acc = step(start, acc, lit(",\"raw\":"));
            }
            put_string(out, &doc.raw);
            proof {
                acc = step(start, acc, json_string(dv.raw));
            }
            put(out, "}");
            proof {
                acc = step(start, acc, lit("}"));
            }
        },
    }
}

/// Every place that [`children_spec`] names is a place of the list.
pub proof fn lemma_children_in_range(decls: Seq<DeclarationView>, index: int, j: int)
    requires
        0 <= j < children_spec(decls, index).len(),
    ensures
        0 <= children_spec(decls, index)[j] < decls.len(),
    decreases decls.len(),
{
    if decls.len() > 0 {
        let rest = children_spec(decls.drop_last(), index);
        if j < rest.len() {
            lemma_children_in_range(decls.drop_last(), index, j);
        }
    }
}

/// Appends the identifiers of the members of the declaration at `index`.
pub fn put_children(out: &mut Vec<u8>, path: &Vec<u8>, decls: &Vec<Declaration>, index: usize)
    ensures
        final(out)@ == old(out)@ + json_array(
            render_children(path@, decls.deep_view(), index as int),
        ),
{
    let ghost start = out@;
    let ghost dv = decls.deep_view();
    let children = children_of(decls, index);
    let ghost cs = children_spec(dv, index as int);
    let ghost rendered = render_children(path@, dv, index as int);
    out.push(91u8);
    let mut j: usize = 0;
    proof {
        lemma_list_start(start, 91u8, rendered);
    }
    assert(children@.map_values(|i: usize| i as int).len() == children.len());
    while j < children.len()
        invariant
            j <= children.len(),
            dv == decls.deep_view(),
            cs == children_spec(dv, index as int),
            children@.map_values(|i: usize| i as int) == cs,
            rendered == render_children(path@, dv, index as int),
            out@ == start + seq![91u8] + joined(rendered.subrange(0, j as int)),
        decreases children.len() - j,
    {
        proof {
            lemma_list_step(start, 91u8, rendered, j as int);
            lemma_children_in_range(dv, index as int, j as int);
        }
        if j > 0 {
            out.push(44u8);
        }
        let c = children[j];
        assert(cs[j as int] == children@.map_values(|i: usize| i as int)[j as int]);
        assert(cs[j as int] == c as int);
        assert(dv[c as int] == decls[c as int]@);
        let child = identifier_of(path, &decls[c].qualified_name);
        put_string(out, &child);
        j = j + 1;
    }
    out.push(93u8);
    proof {
        lemma_list_end(start, 91u8, 93u8, rendered);
    }
}

fn put_decl_kind(out: &mut Vec<u8>, k: DeclKind)
    ensures
        final(out)@ == old(out)@ + decl_kind_text(k),
{
    match k {
        DeclKind::Type => put(out, "\"type\""),
        DeclKind::Function => put(out, "\"function\""),
        DeclKind::Field => put(out, "\"field\""),
        DeclKind::Export => put(out, "\"export\""),
    }
}

fn put_visibility(out: &mut Vec<u8>, v: Visibility)
    ensures
        final(out)@ == old(out)@ + visibility_text(v),
{
    match v {
        Visibility::Public => put(out, "\"public\""),
        Visibility::Private => put(out, "\"private\""),
    }
}

/// Appends the declaration at `index` of the module at `path`.
fn put_declaration(out: &mut Vec<u8>, path: &Vec<u8>, decls: &Vec<Declaration>, index: usize)
    requires
        index < decls.len(),
    ensures
        final(out)@ == old(out)@ + render_declaration(path@, decls.deep_view(), index as int),
{
    let ghost start = out@;
    let ghost dv = decls.deep_view();
    let d = &decls[index];
    let ghost v = d@;
    assert(dv[index as int] == v);
    put(out, "{\"kind\":");
    let ghost mut acc = lit("{\"kind\":");
    put_decl_kind(out, d.kind);
    proof {
        acc = step(start, acc, decl_kind_text(v.kind));
    }
    put(out, ",\"name\":");
    proof {
        acc = step(start, acc, lit(",\"name\":"));
    }
    put_string(out, &d.name);
    proof {
        acc = step(start, acc, json_string(v.name));
    }
    put(out, ",\"qualifiedName\":");
    proof {
        acc = step(start, acc, lit(",\"qualifiedName\":"));
    }
    put_string(out, &d.qualified_name);
    proof {
        acc = step(start, acc, json_string(v.qualified_name));
    }
    put(out, ",\"identifier\":");
    proof {
        acc = step(start, acc, lit(",\"identifier\":"));
    }
    let id = identifier_of(path, &d.qualified_name);
    put_string(out, &id);
    proof {
        acc = step(start, acc, json_string(identifier(path@, v.qualified_name)));
    }
    put(out, ",\"visibility\":");
    proof {
        acc = step(start, acc, lit(",\"visibility\":"));
    }
    put_visibility(out, d.visibility);
    proof {
        acc = step(start, acc, visibility_text(v.visibility));
    }
    put(out, ",\"line\":");
    proof {
        acc = step(start, acc, lit(",\"line\":"));
    }
    put_number(out, d.span.start.line as u64);
    proof {
        acc = step(start, acc, decimal(v.span.start.line as nat));
    }
    put(out, ",\"column\":");
    proof {
        acc = step(start, acc, lit(",\"column\":"));
    }
    put_number(out, d.span.start.column as u64);
    proof {
        acc = step(start, acc, decimal(v.span.start.column as nat));
    }
    put(out, ",\"signature\":");
    proof {
        acc = step(start, acc, lit(",\"signature\":"));
    }
    put_signature(out, &d.signature);
    proof {
        acc = step(start, acc, render_signature(v.signature));
    }
    put(out, ",\"documentation\":");
    proof {
        acc = step(start, acc, lit(",\"documentation\":"));
    }
    put_doc(out, &d.doc);
    proof {
        acc = step(start, acc, render_doc(v.doc));
    }
    put(out, ",\"children\":");
    proof {
        acc = step(start, acc, lit(",\"children\":"));
    }
    put_children(out, path, decls, index);
    proof {
        acc = step(start, acc, json_array(render_children(path@, dv, index as int)));
    }
    put(out, "}");
    proof {
        acc = step(start, acc, lit("}"));
        reveal(render_declaration);
    }
}

/// Appends the declarations of a module as a JSON array.
pub fn put_declarations(out: &mut Vec<u8>, path: &Vec<u8>, decls: &Vec<Declaration>)
    ensures
        final(out)@ == old(out)@ + json_array(render_declarations(path@, decls.deep_view())),
{
    let ghost start = out@;
    let ghost rendered = render_declarations(path@, decls.deep_view());
    out.push(91u8);
    proof {
        lemma_list_start(start, 91u8, rendered);
    }
    let mut i: usize = 0;
    while i < decls.len()
        invariant
            i <= decls.len(),
            rendered == render_declarations(path@, decls.deep_view()),
            out@ == start + seq![91u8] + joined(rendered.subrange(0, i as int)),
        decreases decls.len() - i,
    {
        proof {
            lemma_list_step(start, 91u8, rendered, i as int);
        }
        if i > 0 {
            out.push(44u8);
        }
        put_declaration(out, path, decls, i);
        i = i + 1;
    }
    out.push(93u8);
    proof {
        lemma_list_end(start, 91u8, 93u8, rendered);
    }
}

/// Appends a module as a member of the `modules` object.
pub fn put_module(out: &mut Vec<u8>, m: &Module)
    ensures
        final(out)@ == old(out)@ + render_module(m@),
{
    let ghost start = out@;
    let ghost mv = m@;
    put_string(out, &m.path);
    let ghost mut acc = json_string(mv.path);
    put(out, ":");
    proof {
        acc = step(start, acc, lit(":"));
    }
    put_declarations(out, &m.path, &m.declarations);
    proof {
        acc = step(start, acc, json_array(render_declarations(mv.path, mv.declarations)));
        reveal(render_module);
    }
}

fn put_severity(out: &mut Vec<u8>, s: Severity)
    ensures
        final(out)@ == old(out)@ + severity_text(s),
{
    match s {
        Severity::Error => put(out, "\"error\""),
        Severity::Warning => put(out, "\"warning\""),
    }
}

fn put_code(out: &mut Vec<u8>, c: DiagnosticCode)
    ensures
        final(out)@ == old(out)@ + code_text(c),
{
    match c {
        DiagnosticCode::ParseError => put(out, "\"parse-error\""),
        DiagnosticCode::TypeError => put(out, "\"type-error\""),
        DiagnosticCode::OrphanedComment => put(out, "\"orphaned-comment\""),
        DiagnosticCode::MalformedTag => put(out, "\"malformed-tag\""),
        DiagnosticCode::DocParameterMismatch => put(out, "\"doc-parameter-mismatch\""),
        DiagnosticCode::UnresolvedReference => put(out, "\"unresolved-reference\""),
        DiagnosticCode::NamingCollision => put(out, "\"naming-collision\""),
    }
}

/// Appends a diagnostic.
pub fn put_diagnostic(out: &mut Vec<u8>, d: &Diagnostic)
    ensures
        final(out)@ == old(out)@ + render_diagnostic(d@),
{
    let ghost start = out@;
    let ghost v = d@;
    put(out, "{\"severity\":");
    let ghost mut acc = lit("{\"severity\":");
    put_severity(out, d.severity);
    proof {
        acc = step(start, acc, severity_text(v.severity));
    }
    put(out, ",\"code\":");
    proof {
        acc = step(start, acc, lit(",\"code\":"));
    }
    put_code(out, d.code);
    proof {
        acc = step(start, acc, code_text(v.code));
    }
    put(out, ",\"message\":");
    proof {
        acc = step(start, acc, lit(",\"message\":"));
    }
    put_string(out, &d.message);
    proof {
        acc = step(start, acc, json_string(v.message));
    }
    put(out, ",\"module\":");
    proof {
        acc = step(start, acc, lit(",\"module\":"));
    }
    put_string(out, &d.module);
    proof {
        acc = step(start, acc, json_string(v.module));
    }
    put(out, ",\"line\":");
    proof {
        acc = step(start, acc, lit(",\"line\":"));
    }
    put_number(out, d.line as u64);
    proof {
        acc = step(start, acc, decimal(v.line as nat));
    }
    put(out, ",\"column\":");
    proof {
        acc = step(start, acc, lit(",\"column\":"));
    }
    put_number(out, d.column as u64);
    proof {
        acc = step(start, acc, decimal(v.column as nat));
    }
    put(out, "}");
    proof {
        acc = step(start, acc, lit("}"));
    }
}

fn put_modules(out: &mut Vec<u8>, modules: &Vec<Module>)
    ensures
        final(out)@ == old(out)@ + json_members(render_modules(modules.deep_view())),
{
    let ghost start = out@;
    let ghost rendered = render_modules(modules.deep_view());
    out.push(123u8);
    proof {
        lemma_list_start(start, 123u8, rendered);
    }
    let mut k: usize = 0;
    while k < modules.len()
        invariant
            k <= modules.len(),
            rendered == render_modules(modules.deep_view()),
            out@ == start + seq![123u8] + joined(rendered.subrange(0, k as int)),
        decreases modules.len() - k,
    {
        proof {
            lemma_list_step(start, 123u8, rendered, k as int);
        }
        if k > 0 {
            out.push(44u8);
        }
        assert(modules.deep_view()[k as int] == modules[k as int]@);
        put_module(out, &modules[k]);
        k = k + 1;
    }
    out.push(125u8);
    proof {
        lemma_list_end(start, 123u8, 125u8, rendered);
    }
}

fn put_diagnostics(out: &mut Vec<u8>, diagnostics: &Vec<Diagnostic>)
    ensures
        final(out)@ == old(out)@ + json_array(render_diagnostics(diagnostics.deep_view())),
{
    let ghost start = out@;
    let ghost rendered = render_diagnostics(diagnostics.deep_view());
    out.push(91u8);
    proof {
        lemma_list_start(start, 91u8, rendered);
    }
    let mut i: usize = 0;
    while i < diagnostics.len()
        invariant
            i <= diagnostics.len(),
            rendered == render_diagnostics(diagnostics.deep_view()),
            out@ == start + seq![91u8] + joined(rendered.subrange(0, i as int)),
        decreases diagnostics.len() - i,
    {
        proof {
            lemma_list_step(start, 91u8, rendered, i as int);
        }
        if i > 0 {
            out.push(44u8);
        }
        assert(diagnostics.deep_view()[i as int] == diagnostics[i as int]@);
        put_diagnostic(out, &diagnostics[i]);
        i = i + 1;
    }
    out.push(93u8);
    proof {
        lemma_list_end(start, 91u8, 93u8, rendered);
    }
}

/// Writes the output artifact for a graph and the diagnostics of the run.
///
/// The bytes are a function of the graph and the diagnostics alone: a second
/// run on the same input writes the same bytes.
pub fn render(graph: &Graph, diagnostics: &Vec<Diagnostic>) -> (out: Vec<u8>)
    ensures
        out@ == render_document(graph@, diagnostics.deep_view()),
{
    let mut out: Vec<u8> = Vec::new();
    let ghost start = out@;
    let ghost g = graph@;
    let ghost ds = diagnostics.deep_view();
    put(&mut out, "{\"generatorVersion\":");
    let ghost mut acc = lit("{\"generatorVersion\":");
    put_string(&mut out, &graph.generator_version);
    proof {
        acc = step(start, acc, json_string(g.generator_version));
    }
    put(&mut out, ",\"modules\":");
    proof {
        acc = step(start, acc, lit(",\"modules\":"));
    }
    put_modules(&mut out, &graph.modules);
    proof {
        acc = step(start, acc, json_members(render_modules(g.modules)));
    }
    put(&mut out, ",\"diagnostics\":");
    proof {
        acc = step(start, acc, lit(",\"diagnostics\":"));
    }
    put_diagnostics(&mut out, diagnostics);
    proof {
        acc = step(start, acc, json_array(render_diagnostics(ds)));
    }
    put(&mut out, "}");
    proof {
        acc = step(start, acc, lit("}"));
        assert(start + acc =~= acc);
    }
    out
}

} // verus!
