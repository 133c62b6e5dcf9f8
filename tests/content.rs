use mandy::{assemble_content, parse_document, parse_json_data, parse_yml_data, split_front_matter};

fn s(x: &str) -> String {
    x.to_string()
}

fn pairs(v: &[(&str, &str)]) -> Vec<(String, String)> {
    v.iter().map(|(k, x)| (k.to_string(), x.to_string())).collect()
}

#[test]
fn front_matter_is_split_from_the_body() {
    let (meta, body) = split_front_matter(&s("---\nlayout: post\n---\n# Hi")).unwrap();
    assert_eq!(meta, "layout: post");
    assert_eq!(body, "# Hi");
}

#[test]
fn empty_front_matter_block() {
    let (meta, body) = split_front_matter(&s("---\n---\nbody")).unwrap();
    assert_eq!(meta, "");
    assert_eq!(body, "body");
    let (meta, body) = split_front_matter(&s("---\na: b\n---")).unwrap();
    assert_eq!(meta, "a: b");
    assert_eq!(body, "");
}

#[test]
fn front_matter_needs_both_delimiters() {
    assert!(split_front_matter(&s("# Hi")).is_none());
    assert!(split_front_matter(&s("---\nlayout: post\n# Hi")).is_none());
    assert!(split_front_matter(&s("---\nlayout: post\n----\n# Hi")).is_none());
}

#[test]
fn document_with_layout_is_parsed() {
    let c = parse_document(&s("---\ntitle: Hello\nlayout: post\n---\n# Hi Mercury!")).unwrap();
    assert_eq!(c.layout, "post");
    assert_eq!(c.params, pairs(&[("layout", "post"), ("title", "Hello")]));
    assert_eq!(c.content, "<h1>Hi Mercury!</h1>");
}

#[test]
fn document_without_layout_fails() {
    let src = s("---\ntitle: Hello\n---\nbody");
    assert_eq!(
        parse_document(&src).unwrap_err().to_string(),
        "The \"layout\" variable was not set in the following Markdown source code: \"---\ntitle: Hello\n---\nbody\"."
    );
}

#[test]
fn document_without_front_matter_fails() {
    assert_eq!(parse_document(&s("# Hi")).unwrap_err().to_string(), "Error parsing \"# Hi\".");
}

#[test]
fn document_with_bad_metadata_fails() {
    let src = s("---\n[unclosed\n---\nbody");
    assert_eq!(
        parse_document(&src).unwrap_err().to_string(),
        "Error parsing \"---\n[unclosed\n---\nbody\"."
    );
}

#[test]
fn assembled_content_takes_the_layout_value() {
    let c = assemble_content(&s("src"), Ok(pairs(&[("a", "1"), ("layout", "page")])), s("<p>x</p>")).unwrap();
    assert_eq!(c.layout, "page");
    assert_eq!(c.content, "<p>x</p>");
    assert_eq!(c.params.len(), 2);
    let missing = assemble_content(&s("src"), Ok(pairs(&[("a", "1")])), s(""));
    assert!(missing.is_err());
    let broken = assemble_content(&s("src"), Err(s("bad")), s(""));
    assert_eq!(broken.unwrap_err().to_string(), "Error parsing \"src\".");
}

#[test]
fn yaml_records_are_read_in_key_order() {
    let r = parse_yml_data(&s("- role: b\n  name: a\n- name: c\n  role: d\n")).unwrap();
    assert_eq!(r, vec![pairs(&[("name", "a"), ("role", "b")]), pairs(&[("name", "c"), ("role", "d")])]);
}

#[test]
fn json_records_are_read_in_key_order() {
    let r = parse_json_data(&s("[{\"b\":\"2\",\"a\":\"1\"}]")).unwrap();
    assert_eq!(r, vec![pairs(&[("a", "1"), ("b", "2")])]);
}

#[test]
fn malformed_data_fails() {
    assert!(parse_json_data(&s("not json")).is_err());
    assert!(parse_yml_data(&s("- [unclosed")).is_err());
}
