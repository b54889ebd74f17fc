use ast_html::context::Context;
use ast_html::context::TagType;
use ast_html::render::into_html;
use ast_html::render::IntoHtml;
use ast_html::tree::Content;
use ast_html::tree::Event;
use ast_html::tree::Node;
use ast_html::tree::Tag;

fn text(s: &str) -> Node {
    Node::Item(Event::Text(s.to_string()))
}

fn render(content: &Content) -> String {
    let mut buf = String::new();
    into_html(content, &mut buf);
    buf
}

#[test]
fn scenario_paragraph_text() {
    let tree = Content { nodes: vec![Node::Block(Tag::Paragraph, Content { nodes: vec![text("hi")] })] };
    assert_eq!(render(&tree), "<p>hi</p>\n");
}

#[test]
fn scenario_header_level_two() {
    let tree = Content {
        nodes: vec![Node::Block(Tag::Header(2), Content { nodes: vec![text("Title")] })],
    };
    assert_eq!(render(&tree), "<h2>Title</h2>\n");
}

#[test]
fn scenario_code_block() {
    let tree = Content {
        nodes: vec![Node::Block(
            Tag::CodeBlock("rust".to_string()),
            Content { nodes: vec![text("x=1")] },
        )],
    };
    assert_eq!(render(&tree), "<pre><code>x=1</code></pre>\n");
}

#[test]
fn scenario_footnote_reference() {
    let tree = Content { nodes: vec![Node::Item(Event::FootnoteReference("note1".to_string()))] };
    assert_eq!(
        render(&tree),
        "<sup class=\"footnote-reference\"><a href=\"#note1\">1</a></sup>"
    );
}

#[test]
fn scenario_footnote_definition_after_reference() {
    let tree = Content {
        nodes: vec![
            Node::Item(Event::FootnoteReference("note1".to_string())),
            Node::Block(
                Tag::FootnoteDefinition("note1".to_string()),
                Content { nodes: vec![text("Body")] },
            ),
        ],
    };
    let expected = "<sup class=\"footnote-reference\"><a href=\"#note1\">1</a></sup>\
<div class=\"footnote-definition\" id=\"note1\">\
<sup class=\"footnote-definition-label\">1</sup>\nBody</div>\n";
    assert_eq!(render(&tree), expected);
}

#[test]
fn determinism_two_renders() {
    let tree = Content {
        nodes: vec![
            Node::Item(Event::FootnoteReference("a".to_string())),
            Node::Block(Tag::Paragraph, Content { nodes: vec![text("x")] }),
        ],
    };
    assert_eq!(render(&tree), render(&tree));
}

#[test]
fn footnote_indices_in_first_seen_order() {
    let mut ctx = Context::new();
    assert_eq!(ctx.get_footnote_index("alpha"), 1);
    assert_eq!(ctx.get_footnote_index("beta"), 2);
    assert_eq!(ctx.get_footnote_index("alpha"), 1);
    assert_eq!(ctx.get_footnote_index("gamma"), 3);
    assert_eq!(ctx.get_footnote_index("beta"), 2);
}

#[test]
fn footnote_index_shared_between_definition_and_reference() {
    let tree = Content {
        nodes: vec![
            Node::Block(
                Tag::FootnoteDefinition("n".to_string()),
                Content { nodes: vec![text("D")] },
            ),
            Node::Item(Event::FootnoteReference("n".to_string())),
        ],
    };
    let expected = "<div class=\"footnote-definition\" id=\"n\">\
<sup class=\"footnote-definition-label\">1</sup>\nD</div>\n\
<sup class=\"footnote-reference\"><a href=\"#n\">1</a></sup>";
    assert_eq!(render(&tree), expected);
}

#[test]
fn footnote_index_ten_renders_two_digits() {
    let mut nodes = Vec::new();
    for i in 0..10 {
        nodes.push(Node::Item(Event::FootnoteReference(format!("id{}", i))));
    }
    let tree = Content { nodes };
    let out = render(&tree);
    assert!(out.ends_with("<sup class=\"footnote-reference\"><a href=\"#id9\">10</a></sup>"));
}

#[test]
fn footnote_identifier_is_escaped_in_markup() {
    let tree = Content { nodes: vec![Node::Item(Event::FootnoteReference("a<b".to_string()))] };
    assert_eq!(
        render(&tree),
        "<sup class=\"footnote-reference\"><a href=\"#a&lt;b\">1</a></sup>"
    );
}

#[test]
fn nested_blocks_balanced_markup() {
    let inner = Node::Block(Tag::Header(1), Content { nodes: vec![text("T")] });
    let tree = Content {
        nodes: vec![Node::Block(Tag::Paragraph, Content { nodes: vec![inner, text("tail")] })],
    };
    assert_eq!(render(&tree), "<p><h1>T</h1>\ntail</p>\n");
}

#[test]
fn other_tag_renders_content_without_markup() {
    let tree = Content {
        nodes: vec![Node::Block(Tag::Other, Content { nodes: vec![text("plain")] })],
    };
    assert_eq!(render(&tree), "plain\n");
}

#[test]
fn html_event_passes_through_verbatim() {
    let tree = Content {
        nodes: vec![Node::Item(Event::Html("<em x=\"1\">&amp;</em>".to_string()))],
    };
    assert_eq!(render(&tree), "<em x=\"1\">&amp;</em>");
}

#[test]
fn text_event_passes_through_unescaped() {
    let tree = Content { nodes: vec![text("a < b & c")] };
    assert_eq!(render(&tree), "a < b & c");
}

#[test]
fn empty_content_renders_nothing() {
    let tree = Content { nodes: vec![] };
    assert_eq!(render(&tree), "");
}

#[test]
fn render_via_trait_matches_into_html() {
    let tree = Content { nodes: vec![Node::Block(Tag::Header(6), Content { nodes: vec![text("x")] })] };
    let mut ctx = Context::new();
    let mut buf = String::new();
    tree.render(&mut ctx, &mut buf);
    assert_eq!(buf, "<h6>x</h6>\n");
    assert_eq!(buf, render(&tree));
}

#[test]
fn render_tag_obeys_direction_flag() {
    let mut ctx = Context::new();
    let mut buf = String::new();
    ctx.render_tag("p", &mut buf);
    assert_eq!(buf, "");
    ctx.tag_type = Some(TagType::Opening);
    ctx.render_tag("p", &mut buf);
    assert_eq!(buf, "<p>");
    ctx.tag_type = Some(TagType::Closing);
    ctx.render_tag("p", &mut buf);
    assert_eq!(buf, "<p></p>");
}

#[test]
fn nested_tags_close_in_reverse_order() {
    let mut ctx = Context::new();
    let mut buf = String::new();
    ctx.tag_type = Some(TagType::Opening);
    ctx.render_nested_tags(&["pre", "code"], &mut buf);
    assert_eq!(buf, "<pre><code>");
    ctx.tag_type = Some(TagType::Closing);
    ctx.render_nested_tags(&["pre", "code"], &mut buf);
    assert_eq!(buf, "<pre><code></code></pre>");
    ctx.tag_type = None;
    ctx.render_nested_tags(&["pre", "code"], &mut buf);
    assert_eq!(buf, "<pre><code></code></pre>");
}
