use ast_html::escape::escape_html;

fn escaped(s: &str) -> String {
    let mut buf = String::new();
    escape_html(&mut buf, s);
    buf
}

#[test]
fn scenario_escaper_reserved_characters() {
    assert_eq!(escaped("<b>&\"'</b>"), "&lt;b&gt;&amp;&quot;&#47;&lt;/b&gt;");
}

#[test]
fn escaper_leaves_plain_text_alone() {
    assert_eq!(escaped("plain text 123"), "plain text 123");
}

#[test]
fn escaper_appends_after_existing_text() {
    let mut buf = String::from("before|");
    escape_html(&mut buf, "a&b");
    assert_eq!(buf, "before|a&amp;b");
}

#[test]
fn escaper_quote_becomes_slash_entity() {
    assert_eq!(escaped("it's"), "it&#47;s");
}

#[test]
fn escaper_empty_input() {
    assert_eq!(escaped(""), "");
}

#[test]
fn escaper_works_bytewise_on_multibyte_input() {
    // Each input byte is re-emitted as one character: the two UTF-8 bytes
    // of `é` (0xC3, 0xA9) come out as the two characters with those codes.
    assert_eq!(escaped("é"), "\u{c3}\u{a9}");
}

#[test]
fn escaper_output_has_no_unescaped_reserved_characters() {
    let out = escaped("x<y>z\"w&v'u");
    assert!(!out.contains('<'));
    assert!(!out.contains('>'));
    assert!(!out.contains('"'));
    assert_eq!(out.matches('&').count(), 5);
    assert_eq!(out.matches("&#47;").count(), 1);
}
