use luau_docgen::declaration::TagKind;
use luau_docgen::doc::{parse_doc, split_lines, tag_start};

fn bytes(s: &str) -> Vec<u8> {
    s.as_bytes().to_vec()
}

#[test]
fn text_is_split_at_line_feeds() {
    assert_eq!(split_lines(&bytes("")), vec![bytes("")]);
    assert_eq!(split_lines(&bytes("one")), vec![bytes("one")]);
    assert_eq!(split_lines(&bytes("a\n\nb\n")), vec![bytes("a"), bytes(""), bytes("b"), bytes("")]);
}

#[test]
fn tag_lines_start_with_an_at_sign_after_blanks() {
    assert_eq!(tag_start(&bytes("@x")), Some(1));
    assert_eq!(tag_start(&bytes("  \t@param x")), Some(4));
    assert_eq!(tag_start(&bytes("text @param x")), None);
    assert_eq!(tag_start(&bytes("   ")), None);
    assert_eq!(tag_start(&bytes("")), None);
}

#[test]
fn every_kind_of_tag_is_read() {
    let cases = [
        ("@param count  how many", TagKind::Param, "count", "how many"),
        (" \t@param\tcount\t how  many ", TagKind::Param, "count", "how  many "),
        ("@param count", TagKind::Param, "count", ""),
        ("@return the sum", TagKind::Return, "", "the sum"),
        ("@returns the sum", TagKind::Return, "", "the sum"),
        ("@deprecated use g", TagKind::Deprecated, "", "use g"),
        ("@deprecated", TagKind::Deprecated, "", ""),
        ("@since 1.2", TagKind::Custom, "since", "1.2"),
        ("@parameter x", TagKind::Custom, "parameter", "x"),
    ];
    for (line, kind, name, text) in cases {
        let parsed = parse_doc(&bytes(line));
        assert!(parsed.malformed.is_empty());
        assert_eq!(parsed.doc.tags.len(), 1);
        assert_eq!(parsed.doc.tags[0].kind, kind);
        assert_eq!(parsed.doc.tags[0].name, bytes(name));
        assert_eq!(parsed.doc.tags[0].text, bytes(text));
    }
}

#[test]
fn summary_joins_the_text_lines_and_leaves_out_blank_ones() {
    let parsed = parse_doc(&bytes("  First line.\n\n   second line\n@return x\ntrailing"));
    assert_eq!(parsed.doc.summary, bytes("First line.\nsecond line\ntrailing"));
    assert_eq!(parsed.doc.tags.len(), 1);
    assert!(parsed.malformed.is_empty());
    assert_eq!(parsed.doc.raw, bytes("  First line.\n\n   second line\n@return x\ntrailing"));
}

#[test]
fn empty_comment_has_an_empty_summary() {
    let parsed = parse_doc(&bytes(""));
    assert!(parsed.doc.summary.is_empty());
    assert!(parsed.doc.tags.is_empty());
    assert!(parsed.malformed.is_empty());
}

#[test]
fn tags_without_a_name_are_malformed() {
    let parsed = parse_doc(&bytes("@\n @ stray\n@param\n@param   \n@ok fine"));
    assert_eq!(
        parsed.malformed,
        vec![bytes("@"), bytes(" @ stray"), bytes("@param"), bytes("@param   ")]
    );
    assert_eq!(parsed.doc.tags.len(), 1);
    assert_eq!(parsed.doc.tags[0].name, bytes("ok"));
}
