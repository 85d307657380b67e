use string_randomizer::prettify_xml;
use string_randomizer::ErrorKind;

#[test]
fn concrete_scenario() {
    let out = prettify_xml("<a><b>1</b></a>").unwrap();
    assert_eq!(out, "<a>\n  <b>1</b>\n</a>");
}

#[test]
fn mismatched_end_tag_rejected() {
    let err = prettify_xml("<a><b></a>").unwrap_err();
    assert_eq!(err.kind, ErrorKind::MismatchedEndTag);
    assert_eq!(err.offset, 6);
}

#[test]
fn error_offset_of_unterminated_tag() {
    // the malformation is injected at offset 3: the tag opened there never ends
    let err = prettify_xml("<a><b").unwrap_err();
    assert_eq!(err.kind, ErrorKind::UnterminatedTag);
    assert_eq!(err.offset, 3);
}

#[test]
fn idempotent_on_sample() {
    let src = "<Customers><Customer><Number>1</Number><FirstName>Fred</FirstName></Customer></Customers>";
    let once = prettify_xml(src).unwrap();
    let twice = prettify_xml(&once).unwrap();
    assert_eq!(once, twice);
}

#[test]
fn idempotent_with_comment_and_cdata() {
    let src = "<r><!--note--><c><![CDATA[x <> y]]></c><d>mixed text</d></r>";
    let once = prettify_xml(src).unwrap();
    let twice = prettify_xml(&once).unwrap();
    assert_eq!(once, twice);
}

#[test]
fn depth_indentation() {
    let out = prettify_xml("<a><b><c/></b></a>").unwrap();
    assert_eq!(out, "<a>\n  <b>\n    <c/>\n  </b>\n</a>");
}

#[test]
fn comment_then_text_glues_closing_tag() {
    let out = prettify_xml("<tag1><tag2><!--Comment-->Text</tag2></tag1>").unwrap();
    assert_eq!(out, "<tag1>\n  <tag2>\n    <!--Comment-->Text</tag2>\n</tag1>");
}

#[test]
fn attributes_keep_order_and_quotes() {
    let out = prettify_xml("<a  b = \"1\"  c = 'x \"y\"' ><d/></a>").unwrap();
    assert_eq!(out, "<a b=\"1\" c='x \"y\"'>\n  <d/>\n</a>");
}

#[test]
fn declaration_and_pi_on_own_lines() {
    let out = prettify_xml("<?xml version=\"1.0\"?><r><?php echo ?></r>").unwrap();
    assert_eq!(out, "<?xml version=\"1.0\"?>\n<r>\n  <?php echo ?>\n</r>");
}

#[test]
fn whitespace_between_tags_is_insignificant() {
    let out = prettify_xml("<a>\n     <b>1</b>\t\r\n</a>").unwrap();
    assert_eq!(out, "<a>\n  <b>1</b>\n</a>");
}

#[test]
fn text_only_document_unchanged() {
    assert_eq!(prettify_xml("Hello World!").unwrap(), "Hello World!");
}

#[test]
fn empty_document() {
    assert_eq!(prettify_xml("").unwrap(), "");
}

#[test]
fn error_kinds_each_have_an_input() {
    assert_eq!(prettify_xml("<a").unwrap_err().kind, ErrorKind::UnterminatedTag);
    assert_eq!(prettify_xml("<!-- no end").unwrap_err().kind, ErrorKind::UnterminatedTag);
    assert_eq!(prettify_xml("<>").unwrap_err().kind, ErrorKind::BadTagName);
    assert_eq!(prettify_xml("<!DOCTYPE html>").unwrap_err().kind, ErrorKind::BadTagName);
    assert_eq!(prettify_xml("</a x>").unwrap_err().kind, ErrorKind::MalformedTag);
    assert_eq!(prettify_xml("<a x>").unwrap_err().kind, ErrorKind::MalformedAttribute);
    assert_eq!(
        prettify_xml("<a x=\"1\" x=\"2\"/>").unwrap_err().kind,
        ErrorKind::DuplicateAttribute,
    );
    assert_eq!(prettify_xml("</a>").unwrap_err().kind, ErrorKind::UnmatchedEndTag);
    assert_eq!(prettify_xml("<a></b>").unwrap_err().kind, ErrorKind::MismatchedEndTag);
    let e = prettify_xml("<a>").unwrap_err();
    assert_eq!(e.kind, ErrorKind::UnclosedTag);
    assert_eq!(e.offset, 3);
}

#[test]
fn message_describes_the_kind() {
    let e = prettify_xml("<a>").unwrap_err();
    assert_eq!(e.message(), "input ends with elements still open");
}

#[test]
fn cdata_content_is_verbatim() {
    let out = prettify_xml("<r><![CDATA[ <a>&stuff;</a> ]]></r>").unwrap();
    assert_eq!(out, "<r>\n  <![CDATA[ <a>&stuff;</a> ]]>\n</r>");
}

#[test]
fn mixed_text_preserved_verbatim() {
    let out = prettify_xml("<p>one  two</p>").unwrap();
    assert_eq!(out, "<p>one  two</p>");
}

#[test]
fn attribute_value_may_hold_angle_brackets() {
    let out = prettify_xml("<a x='<>'><b/></a>").unwrap();
    assert_eq!(out, "<a x='<>'>\n  <b/>\n</a>");
}

#[test]
fn nested_elements_of_one_name() {
    let out = prettify_xml("<a><a>x</a></a>").unwrap();
    assert_eq!(out, "<a>\n  <a>x</a>\n</a>");
}
