//! The text of a documentation comment, read into summary and tagged sections.

use vstd::prelude::*;
use vstd::string::*;
use crate::declaration::{DocComment, DocView, Tag, TagKind, TagView, texts};
use crate::model::{append_bytes, copy_bytes};

verus! {

/// Space or tab.
pub open spec fn is_blank(b: u8) -> bool {
    b == 32 || b == 9
}

/// The length of the longest prefix of `s` made of blanks only (`blank`) or of
/// non-blanks only (`!blank`).
pub open spec fn run_len(s: Seq<u8>, blank: bool) -> nat
    decreases s.len(),
{
    if s.len() == 0 || is_blank(s[0]) != blank {
        0
    } else {
        1 + run_len(s.subrange(1, s.len() as int), blank)
    }
}

/// A run is no longer than the text it starts.
pub proof fn lemma_run_len_bound(s: Seq<u8>, blank: bool)
    ensures
        run_len(s, blank) <= s.len(),
    decreases s.len(),
{
    if s.len() > 0 && is_blank(s[0]) == blank {
        lemma_run_len_bound(s.subrange(1, s.len() as int), blank);
    }
}

/// The lines of `s`: the stretches between line feeds. A text without a line
/// feed is one line, and so is the empty text.
pub open spec fn lines_of(s: Seq<u8>) -> Seq<Seq<u8>>
    decreases s.len(),
{
    if s.len() == 0 {
        seq![Seq::empty()]
    } else {
        let before = lines_of(s.drop_last());
        if s.last() == 10 {
            before.push(Seq::empty())
        } else {
            before.drop_last().push(before.last().push(s.last()))
        }
    }
}

/// `line` without its leading blanks.
pub open spec fn trim_start(line: Seq<u8>) -> Seq<u8> {
    line.skip(run_len(line, true) as int)
}

/// The line opens a tagged section: its first non-blank byte is `@`.
pub open spec fn is_tag_line(line: Seq<u8>) -> bool {
    trim_start(line).len() > 0 && trim_start(line)[0] == 64
}

/// The first word of `s`.
pub open spec fn first_word(s: Seq<u8>) -> Seq<u8> {
    s.take(run_len(s, false) as int)
}

/// What follows the first word of `s` and the blanks after it.
pub open spec fn after_word(s: Seq<u8>) -> Seq<u8> {
    trim_start(s.skip(run_len(s, false) as int))
}

/// The tag word that opens a parameter section.
pub open spec fn word_param() -> Seq<u8> {
    "param".spec_bytes()
}

/// The tag word that opens the section on the result.
pub open spec fn word_return() -> Seq<u8> {
    "return".spec_bytes()
}

/// The other spelling of [`word_return`].
pub open spec fn word_returns() -> Seq<u8> {
    "returns".spec_bytes()
}

/// The tag word that opens a deprecation notice.
pub open spec fn word_deprecated() -> Seq<u8> {
    "deprecated".spec_bytes()
}

/// The tagged section that a tag line spells. `@param` is followed by the
/// parameter's name and then its text; `@return`, `@returns` and `@deprecated`
/// by their text; any other tag is a custom one that keeps its own name.
pub open spec fn tag_of(line: Seq<u8>) -> TagView {
    let body = trim_start(line).skip(1);
    let word = first_word(body);
    let rest = after_word(body);
    if word == word_param() {
        TagView { kind: TagKind::Param, name: first_word(rest), text: after_word(rest) }
    } else if word == word_return() || word == word_returns() {
        TagView { kind: TagKind::Return, name: Seq::empty(), text: rest }
    } else if word == word_deprecated() {
        TagView { kind: TagKind::Deprecated, name: Seq::empty(), text: rest }
    } else {
        TagView { kind: TagKind::Custom, name: word, text: rest }
    }
}

/// A tag line is malformed when `@` is followed by no name, or `@param` by no
/// parameter name.
pub open spec fn is_malformed(line: Seq<u8>) -> bool {
    let t = tag_of(line);
    (t.kind == TagKind::Custom || t.kind == TagKind::Param) && t.name.len() == 0
}

/// The line holds nothing but blanks.
pub open spec fn is_blank_line(line: Seq<u8>) -> bool {
    trim_start(line).len() == 0
}

/// The summary: the lines that are neither blank nor tag lines, without their
/// leading blanks, joined by line feeds.
pub open spec fn summary_of(lines: Seq<Seq<u8>>) -> Seq<u8>
    decreases lines.len(),
{
    if lines.len() == 0 {
        Seq::empty()
    } else {
        let before = summary_of(lines.drop_last());
        let line = lines.last();
        if is_blank_line(line) || is_tag_line(line) {
            before
        } else if before.len() == 0 {
            trim_start(line)
        } else {
            before + seq![10u8] + trim_start(line)
        }
    }
}

/// The well-formed tagged sections, in order.
pub open spec fn tags_of(lines: Seq<Seq<u8>>) -> Seq<TagView>
    decreases lines.len(),
{
    if lines.len() == 0 {
        Seq::empty()
    } else {
        let before = tags_of(lines.drop_last());
        let line = lines.last();
        if is_tag_line(line) && !is_malformed(line) {
            before.push(tag_of(line))
        } else {
            before
        }
    }
}

/// The malformed tag lines, in order.
pub open spec fn malformed_of(lines: Seq<Seq<u8>>) -> Seq<Seq<u8>>
    decreases lines.len(),
{
    if lines.len() == 0 {
        Seq::empty()
    } else {
        let before = malformed_of(lines.drop_last());
        let line = lines.last();
        if is_tag_line(line) && is_malformed(line) {
            before.push(line)
        } else {
            before
        }
    }
}

/// The structured content of a comment's text.
pub open spec fn doc_of(text: Seq<u8>) -> DocView {
    DocView {
        summary: summary_of(lines_of(text)),
        tags: tags_of(lines_of(text)),
        raw: text,
    }
}

/// Splits a text into its lines.
pub fn split_lines(text: &Vec<u8>) -> (r: Vec<Vec<u8>>)
    ensures
        texts(r@) == lines_of(text@),
{
    let mut done: Vec<Vec<u8>> = Vec::new();
    let mut current: Vec<u8> = Vec::new();
    let mut i: usize = 0;
    assert(text@.subrange(0, 0) =~= Seq::<u8>::empty());
    assert(texts(done@).push(current@) =~= seq![Seq::<u8>::empty()]);
    while i < text.len()
        invariant
            i <= text.len(),
            texts(done@).push(current@) == lines_of(text@.subrange(0, i as int)),
        decreases text.len() - i,
    {
        let b = text[i];
        let ghost old_done = done@;
        let ghost old_current = current@;
        proof {
            let next = text@.subrange(0, i + 1);
            assert(next.drop_last() =~= text@.subrange(0, i as int));
            assert(next.last() == b);
        }
        if b == 10 {
            done.push(current);
            current = Vec::new();
            assert(texts(done@) =~= texts(old_done).push(old_current));
        } else {
            current.push(b);
            assert(texts(old_done).push(old_current).drop_last() =~= texts(old_done));
        }
        i = i + 1;
    }
    assert(text@.subrange(0, text.len() as int) =~= text@);
    let ghost old_done = done@;
    done.push(current);
    assert(texts(done@) =~= texts(old_done).push(current@));
    done
}

/// Measures the run of blanks (or of non-blanks) that starts at `from`.
pub(crate) fn run_length(s: &Vec<u8>, from: usize, blank: bool) -> (n: usize)
    requires
        from <= s.len(),
    ensures
        n == run_len(s@.skip(from as int), blank),
        from + n <= s.len(),
{
    let mut i: usize = from;
    while i < s.len() && ((s[i] == 32 || s[i] == 9) == blank)
        invariant
            from <= i <= s.len(),
            run_len(s@.skip(from as int), blank) == (i - from) + run_len(s@.skip(i as int), blank),
        decreases s.len() - i,
    {
        assert(s@.skip(i as int).subrange(1, s@.skip(i as int).len() as int) =~= s@.skip(i + 1));
        i = i + 1;
    }
    i - from
}

/// Copies the bytes of `s` from `from` up to `to`.
pub(crate) fn copy_range(s: &Vec<u8>, from: usize, to: usize) -> (r: Vec<u8>)
    requires
        from <= to <= s.len(),
    ensures
        r@ == s@.subrange(from as int, to as int),
{
    let mut r: Vec<u8> = Vec::new();
    let mut i: usize = from;
    while i < to
        invariant
            from <= i <= to <= s.len(),
            r@ == s@.subrange(from as int, i as int),
        decreases to - i,
    {
        r.push(s[i]);
        i = i + 1;
    }
    r
}

/// Decides whether the bytes of `s` from `from` up to `to` spell `word`.
pub(crate) fn spells(s: &Vec<u8>, from: usize, to: usize, word: &Vec<u8>) -> (r: bool)
    requires
        from <= to <= s.len(),
    ensures
        r == (s@.subrange(from as int, to as int) == word@),
{
    if to - from != word.len() {
        return false;
    }
    let mut i: usize = 0;
    while i < word.len()
        invariant
            i <= word.len(),
            from + word.len() == to,
            to <= s.len(),
            forall|j: int| 0 <= j < i ==> s@[from + j] == word@[j],
        decreases word.len() - i,
    {
        if s[from + i] != word[i] {
            assert(s@.subrange(from as int, to as int)[i as int] != word@[i as int]);
            return false;
        }
        i = i + 1;
    }
    assert(s@.subrange(from as int, to as int) =~= word@);
    true
}

/// Where the body of a tag starts: just after the `@`, if `line` is a tag line.
pub fn tag_start(line: &Vec<u8>) -> (r: Option<usize>)
    ensures
        r is Some <==> is_tag_line(line@),
        r matches Some(k) ==> k == run_len(line@, true) + 1 && k <= line.len(),
{
    assert(line@.skip(0) =~= line@);
    let b = run_length(line, 0, true);
    if b < line.len() && line[b] == 64 {
        Some(b + 1)
    } else {
        None
    }
}

/// Reads the tagged section of a tag line whose body starts at `at`.
pub(crate) fn read_tag(line: &Vec<u8>, at: usize) -> (t: Tag)
    requires
        is_tag_line(line@),
        at == run_len(line@, true) + 1,
    ensures
        t@ == tag_of(line@),
{
    proof {
        lemma_run_len_bound(line@, true);
    }
    let ghost body = trim_start(line@).skip(1);
    assert(body =~= line@.skip(at as int));
    let n = run_length(line, at, false);
    let word_end = at + n;
    assert(first_word(body) =~= line@.subrange(at as int, word_end as int));
    assert(body.skip(n as int) =~= line@.skip(word_end as int));
    let gap = run_length(line, word_end, true);
    let rest_at = word_end + gap;
    let ghost rest = after_word(body);
    assert(rest =~= line@.skip(rest_at as int));
    let len = line.len();
    if spells(line, at, word_end, &"param".as_bytes_vec()) {
        let pn = run_length(line, rest_at, false);
        let name_end = rest_at + pn;
        assert(first_word(rest) =~= line@.subrange(rest_at as int, name_end as int));
        assert(rest.skip(pn as int) =~= line@.skip(name_end as int));
        let pgap = run_length(line, name_end, true);
        assert(after_word(rest) =~= line@.subrange(name_end + pgap, len as int));
        Tag {
            kind: TagKind::Param,
            name: copy_range(line, rest_at, name_end),
            text: copy_range(line, name_end + pgap, len),
        }
    } else {
        assert(rest =~= line@.subrange(rest_at as int, len as int));
        if spells(line, at, word_end, &"return".as_bytes_vec()) || spells(
            line,
            at,
            word_end,
            &"returns".as_bytes_vec(),
        ) {
            Tag { kind: TagKind::Return, name: Vec::new(), text: copy_range(line, rest_at, len) }
        } else if spells(line, at, word_end, &"deprecated".as_bytes_vec()) {
            Tag {
                kind: TagKind::Deprecated,
                name: Vec::new(),
                text: copy_range(line, rest_at, len),
            }
        } else {
            Tag {
                kind: TagKind::Custom,
                name: copy_range(line, at, word_end),
                text: copy_range(line, rest_at, len),
            }
        }
    }
}

/// A comment's text, read: its structured content, and the tag lines that
/// could not be read.
#[derive(Clone, Debug, PartialEq, Eq)]
pub struct ParsedDoc {
    pub doc: DocComment,
    pub malformed: Vec<Vec<u8>>,
}

/// Reads the text of a documentation comment.
pub fn parse_doc(text: &Vec<u8>) -> (r: ParsedDoc)
    ensures
        r.doc@ == doc_of(text@),
        texts(r.malformed@) == malformed_of(lines_of(text@)),
{
    let lines = split_lines(text);
    let ghost all = lines_of(text@);
    let mut summary: Vec<u8> = Vec::new();
    let mut tags: Vec<Tag> = Vec::new();
    let mut malformed: Vec<Vec<u8>> = Vec::new();
    let mut i: usize = 0;
    assert(all.subrange(0, 0) =~= Seq::<Seq<u8>>::empty());
    assert(tags.deep_view() =~= Seq::<TagView>::empty());
    assert(texts(malformed@) =~= Seq::<Seq<u8>>::empty());
    while i < lines.len()
        invariant
            i <= lines.len(),
            texts(lines@) == all,
            summary@ == summary_of(all.subrange(0, i as int)),
            tags.deep_view() == tags_of(all.subrange(0, i as int)),
            texts(malformed@) == malformed_of(all.subrange(0, i as int)),
        decreases lines.len() - i,
    {
        let line = &lines[i];
        proof {
            let next = all.subrange(0, i + 1);
            assert(next.drop_last() =~= all.subrange(0, i as int));
            assert(next.last() == line@);
            lemma_run_len_bound(line@, true);
        }
        match tag_start(line) {
            Some(at) => {
                let tag = read_tag(line, at);
                let bad = match tag.kind {
                    TagKind::Custom => tag.name.len() == 0,
                    TagKind::Param => tag.name.len() == 0,
                    _ => false,
                };
                if bad {
                    let ghost before = malformed@;
                    let copy = copy_bytes(line);
                    malformed.push(copy);
                    assert(texts(malformed@) =~= texts(before).push(line@));
                } else {
                    let ghost before = tags.deep_view();
                    tags.push(tag);
                    assert(tags.deep_view() =~= before.push(tag@));
                }
            },
            None => {
                assert(line@.skip(0) =~= line@);
                let b = run_length(line, 0, true);
                if b < line.len() {
                    if summary.len() > 0 {
                        summary.push(10u8);
                    }
                    let ghost before = summary@;
                    let trimmed = copy_range(line, b, line.len());
                    assert(trimmed@ =~= trim_start(line@));
                    append_bytes(&mut summary, &trimmed);
                    assert(summary@ =~= before + trim_start(line@));
                }
            },
        }
        i = i + 1;
    }
    assert(all.subrange(0, lines.len() as int) =~= all);
    ParsedDoc { doc: DocComment { summary, tags, raw: copy_bytes(text) }, malformed }
}

} // verus!
