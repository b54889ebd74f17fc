//! The traversal driver: walks the document tree in order, emitting each
//! block's opening markup, its nested content, its closing markup and one
//! trailing newline, and appending leaf items directly.

use crate::context::close_all_rev;
use crate::context::footnote_def_ids_after;
use crate::context::footnote_def_text;
use crate::context::footnote_ref_text;
use crate::context::ids_after;
use crate::context::nested_tag_text;
use crate::context::open_all;
use crate::context::open_one;
use crate::context::close_one;
use crate::context::tag_text;
use crate::context::Context;
use crate::context::TagType;
use crate::decimal::dec_digits;
use crate::decimal::push_decimal;
use crate::tree::Content;
use crate::tree::Event;
use crate::tree::Node;
use crate::tree::Tag;
use vstd::prelude::*;
use vstd::string::StringExecFns;

verus! {

/// The markup a tag emits in the given direction, starting from the given
/// known footnote identifiers.
pub open spec fn tag_markup(t: Tag, dir: Option<TagType>, ids: Seq<Seq<char>>) -> Seq<char> {
    match t {
        Tag::Paragraph => tag_text(dir, "p"@),
        Tag::Header(n) => tag_text(dir, "h"@ + dec_digits(n as nat)),
        Tag::CodeBlock(_) => nested_tag_text(dir, seq!["pre"@, "code"@]),
        Tag::FootnoteDefinition(id) => footnote_def_text(dir, id@, ids),
        Tag::Other => Seq::empty(),
    }
}

/// The footnote identifiers known after a tag renders.
pub open spec fn tag_ids_after(t: Tag, dir: Option<TagType>, ids: Seq<Seq<char>>) -> Seq<
    Seq<char>,
> {
    match t {
        Tag::FootnoteDefinition(id) => footnote_def_ids_after(dir, id@, ids),
        _ => ids,
    }
}

/// The markup a leaf event emits: text and raw HTML pass through verbatim,
/// a footnote reference emits its link markup.
pub open spec fn event_markup(e: Event, ids: Seq<Seq<char>>) -> Seq<char> {
    match e {
        Event::Text(s) => s@,
        Event::Html(s) => s@,
        Event::FootnoteReference(id) => footnote_ref_text(id@, ids),
    }
}

/// The footnote identifiers known after a leaf event renders.
pub open spec fn event_ids_after(e: Event, ids: Seq<Seq<char>>) -> Seq<Seq<char>> {
    match e {
        Event::FootnoteReference(id) => ids_after(ids, id@),
        _ => ids,
    }
}

/// The markup a node emits and the footnote identifiers known afterwards.
/// A block contributes its opening markup, its children's markup, its
/// closing markup, and exactly one trailing newline, in that order.
pub open spec fn render_node_spec(n: Node, ids: Seq<Seq<char>>) -> (Seq<char>, Seq<Seq<char>>)
    decreases n,
{
    match n {
        Node::Item(e) => (event_markup(e, ids), event_ids_after(e, ids)),
        Node::Block(t, c) => {
            let opening = tag_markup(t, Some(TagType::Opening), ids);
            let ids1 = tag_ids_after(t, Some(TagType::Opening), ids);
            let (inner, ids2) = render_nodes_spec(c.nodes@, ids1);
            let closing = tag_markup(t, Some(TagType::Closing), ids2);
            (opening + inner + closing + "\n"@, tag_ids_after(t, Some(TagType::Closing), ids2))
        },
    }
}

/// The markup a sequence of nodes emits, in order, and the footnote
/// identifiers known afterwards.
pub open spec fn render_nodes_spec(ns: Seq<Node>, ids: Seq<Seq<char>>) -> (
    Seq<char>,
    Seq<Seq<char>>,
)
    decreases ns,
{
    if ns.len() == 0 {
        (Seq::<char>::empty(), ids)
    } else {
        let (first, ids1) = render_node_spec(ns[0], ids);
        let (rest, ids2) = render_nodes_spec(ns.drop_first(), ids1);
        (first + rest, ids2)
    }
}

/// The HTML text a content sequence renders to, from a fresh context.
pub open spec fn rendered_html(c: Content) -> Seq<char> {
    render_nodes_spec(c.nodes@, Seq::<Seq<char>>::empty()).0
}

/// Anything the traversal driver can render into an output buffer.
pub trait IntoHtml<C> {
    fn render(&self, context: &mut C, buf: &mut String);
}

/// Emits the markup for `tag` in the context's current direction.
pub fn render_tag_markup(tag: &Tag, context: &mut Context, buf: &mut String)
    ensures
        final(buf)@ == old(buf)@ + tag_markup(*tag, old(context).tag_type, old(
            context,
        ).footnotes.deep_view()),
        final(context).footnotes.deep_view() == tag_ids_after(
            *tag,
            old(context).tag_type,
            old(context).footnotes.deep_view(),
        ),
        final(context).tag_type == old(context).tag_type,
        old(context).wf() ==> final(context).wf(),
{
    match tag {
        Tag::Paragraph => {
            context.render_tag("p", buf);
        },
        Tag::Header(n) => {
            let mut name = String::new();
            name.append("h");
            push_decimal(&mut name, *n as usize);
            context.render_tag(name.as_str(), buf);
        },
        Tag::CodeBlock(_) => {
            let mut pair: Vec<&str> = Vec::new();
            pair.push("pre");
            pair.push("code");
            context.render_nested_tags(pair.as_slice(), buf);
            proof {
                assert(pair.deep_view() =~= seq!["pre"@, "code"@]);
            }
        },
        Tag::FootnoteDefinition(id) => {
            context.render_footnote_definition(id.as_str(), buf);
        },
        Tag::Other => {},
    }
}

/// Appends a leaf event: text and raw HTML verbatim, a footnote reference
/// as its link markup.
pub fn render_event(event: &Event, context: &mut Context, buf: &mut String)
    ensures
        final(buf)@ == old(buf)@ + event_markup(*event, old(context).footnotes.deep_view()),
        final(context).footnotes.deep_view() == event_ids_after(
            *event,
            old(context).footnotes.deep_view(),
        ),
        final(context).tag_type == old(context).tag_type,
        old(context).wf() ==> final(context).wf(),
{
    match event {
        Event::Text(s) => {
            buf.append(s.as_str());
        },
        Event::Html(s) => {
            buf.append(s.as_str());
        },
        Event::FootnoteReference(id) => {
            context.render_footnote_reference(id.as_str(), buf);
        },
    }
}

/// Renders one node: a leaf item directly; a block as its opening markup,
/// its nested content with the direction cleared, its closing markup, one
/// newline, and the direction cleared again afterwards.
pub fn render_node(node: &Node, context: &mut Context, buf: &mut String)
    ensures
        final(buf)@ == old(buf)@ + render_node_spec(*node, old(context).footnotes.deep_view()).0,
        final(context).footnotes.deep_view() == render_node_spec(
            *node,
            old(context).footnotes.deep_view(),
        ).1,
        node is Block ==> final(context).tag_type is None,
        node is Item ==> final(context).tag_type == old(context).tag_type,
        old(context).wf() ==> final(context).wf(),
    decreases *node,
{
    match node {
        Node::Item(event) => {
            render_event(event, context, buf);
        },
        Node::Block(tag, content) => {
            context.tag_type = Some(TagType::Opening);
            render_tag_markup(tag, context, buf);
            context.tag_type = None;
            render_content(content, context, buf);
            context.tag_type = Some(TagType::Closing);
            render_tag_markup(tag, context, buf);
            buf.append("\n");
            context.tag_type = None;
            proof {
                assert(buf@ =~= old(buf)@ + render_node_spec(
                    *node,
                    old(context).footnotes.deep_view(),
                ).0);
            }
        },
    }
}

/// Renders every node of a content sequence, in order.
pub fn render_content(content: &Content, context: &mut Context, buf: &mut String)
    ensures
        final(buf)@ == old(buf)@ + render_nodes_spec(
            content.nodes@,
            old(context).footnotes.deep_view(),
        ).0,
        final(context).footnotes.deep_view() == render_nodes_spec(
            content.nodes@,
            old(context).footnotes.deep_view(),
        ).1,
        old(context).tag_type is None ==> final(context).tag_type is None,
        old(context).wf() ==> final(context).wf(),
    decreases *content,
{
    let ghost ids0 = context.footnotes.deep_view();
    let n = content.nodes.len();
    let mut i: usize = 0;
    while i < n
        invariant
            i <= n,
            n == content.nodes@.len(),
            buf@ == old(buf)@ + render_nodes_spec(content.nodes@.take(i as int), ids0).0,
            context.footnotes.deep_view() == render_nodes_spec(
                content.nodes@.take(i as int),
                ids0,
            ).1,
            ids0 == old(context).footnotes.deep_view(),
            old(context).tag_type is None ==> context.tag_type is None,
            old(context).wf() ==> context.wf(),
        decreases n - i,
    {
        proof {
            assert(decreases_to!(*content => content.nodes@[i as int]));
        }
        render_node(&content.nodes[i], context, buf);
        proof {
            lemma_render_nodes_snoc(content.nodes@.take(i as int), content.nodes@[i as int], ids0);
            assert(content.nodes@.take(i + 1 as int) =~= content.nodes@.take(i as int).push(
                content.nodes@[i as int],
            ));
            assert(buf@ =~= old(buf)@ + render_nodes_spec(
                content.nodes@.take(i + 1 as int),
                ids0,
            ).0);
        }
        i = i + 1;
    }
    proof {
        assert(content.nodes@.take(n as int) =~= content.nodes@);
    }
}

proof fn lemma_render_nodes_snoc(ns: Seq<Node>, x: Node, ids: Seq<Seq<char>>)
    ensures
        render_nodes_spec(ns.push(x), ids).0 == render_nodes_spec(ns, ids).0 + render_node_spec(
            x,
            render_nodes_spec(ns, ids).1,
        ).0,
        render_nodes_spec(ns.push(x), ids).1 == render_node_spec(
            x,
            render_nodes_spec(ns, ids).1,
        ).1,
    decreases ns,
{
    if ns.len() == 0 {
        assert(ns.push(x)[0] == x);
        assert(ns.push(x).drop_first() =~= Seq::<Node>::empty());
        assert(render_nodes_spec(ns.push(x), ids).0 == render_node_spec(x, ids).0
            + render_nodes_spec(ns.push(x).drop_first(), render_node_spec(x, ids).1).0);
        assert(render_nodes_spec(ns.push(x), ids).1 == render_nodes_spec(
            ns.push(x).drop_first(),
            render_node_spec(x, ids).1,
        ).1);
        assert(render_nodes_spec(ns, ids).1 == ids);
        assert(render_nodes_spec(ns.push(x), ids).0 =~= render_nodes_spec(ns, ids).0
            + render_node_spec(x, render_nodes_spec(ns, ids).1).0);
    } else {
        assert(ns.push(x)[0] == ns[0]);
        assert(ns.push(x).drop_first() =~= ns.drop_first().push(x));
        lemma_render_nodes_snoc(ns.drop_first(), x, render_node_spec(ns[0], ids).1);
        assert(render_nodes_spec(ns.push(x), ids).0 == render_node_spec(ns[0], ids).0
            + render_nodes_spec(ns.drop_first().push(x), render_node_spec(ns[0], ids).1).0);
        assert(render_nodes_spec(ns.push(x), ids).1 == render_nodes_spec(
            ns.drop_first().push(x),
            render_node_spec(ns[0], ids).1,
        ).1);
        assert(render_nodes_spec(ns, ids).0 == render_node_spec(ns[0], ids).0 + render_nodes_spec(
            ns.drop_first(),
            render_node_spec(ns[0], ids).1,
        ).0);
        assert(render_nodes_spec(ns, ids).1 == render_nodes_spec(
            ns.drop_first(),
            render_node_spec(ns[0], ids).1,
        ).1);
        assert(render_nodes_spec(ns.push(x), ids).0 =~= render_nodes_spec(ns, ids).0
            + render_node_spec(x, render_nodes_spec(ns, ids).1).0);
    }
}

/// No character of `s` is a newline.
pub open spec fn no_newline(s: Seq<char>) -> bool {
    forall|i: int| 0 <= i < s.len() ==> s[i] != '\n'
}

/// Law: rendering is deterministic. The text a render call appends is the
/// spec-level function `rendered_html` of the content alone, so two renders
/// of the same content from fresh contexts append the same text.
pub proof fn lemma_render_deterministic(c: Content, out1: Seq<char>, out2: Seq<char>)
    requires
        out1 == rendered_html(c),
        out2 == rendered_html(c),
    ensures
        out1 == out2,
{
}

/// Law: a block's output is its opening markup, then its children's output,
/// then its closing markup (computed from the identifiers the children left
/// behind), then one newline, in that order.
pub proof fn lemma_block_nesting(t: Tag, c: Content, ids: Seq<Seq<char>>)
    ensures
        ({
            let opening = tag_markup(t, Some(TagType::Opening), ids);
            let ids1 = tag_ids_after(t, Some(TagType::Opening), ids);
            let inner = render_nodes_spec(c.nodes@, ids1).0;
            let ids2 = render_nodes_spec(c.nodes@, ids1).1;
            let closing = tag_markup(t, Some(TagType::Closing), ids2);
            render_node_spec(Node::Block(t, c), ids).0 == opening + inner + closing + "\n"@
        }),
{
}

/// Law: a code block opens as `pre` then `code`, and closes as `code` then
/// `pre`: the closing order is the reversed mirror of the opening order.
pub proof fn lemma_code_block_mirror(info: String, ids: Seq<Seq<char>>)
    ensures
        tag_markup(Tag::CodeBlock(info), Some(TagType::Opening), ids) == "<pre><code>"@,
        tag_markup(Tag::CodeBlock(info), Some(TagType::Closing), ids) == "</code></pre>"@,
{
    reveal_strlit("<pre><code>");
    reveal_strlit("</code></pre>");
    reveal_strlit("pre");
    reveal_strlit("code");
    reveal_strlit("<");
    reveal_strlit(">");
    reveal_strlit("</");
    let names = seq!["pre"@, "code"@];
    assert(names.drop_first() =~= seq!["code"@]);
    assert(names.drop_first().drop_first() =~= Seq::<Seq<char>>::empty());
    assert(open_all(names) == open_one(names[0]) + open_all(names.drop_first()));
    assert(open_all(names.drop_first()) == open_one("code"@) + open_all(
        names.drop_first().drop_first(),
    ));
    assert(open_all(names) =~= "<pre><code>"@);
    assert(names.drop_last() =~= seq!["pre"@]);
    assert(names.drop_last().drop_last() =~= Seq::<Seq<char>>::empty());
    assert(names.last() == "code"@);
    assert(close_all_rev(names) == close_one("code"@) + close_all_rev(names.drop_last()));
    assert(close_all_rev(names.drop_last()) == close_one("pre"@) + close_all_rev(
        names.drop_last().drop_last(),
    ));
    assert(close_all_rev(names) =~= "</code></pre>"@);
}

proof fn lemma_close_one_no_newline(name: Seq<char>)
    requires
        no_newline(name),
    ensures
        no_newline(close_one(name)),
{
    reveal_strlit("</");
    reveal_strlit(">");
    assert forall|i: int| 0 <= i < close_one(name).len() implies close_one(name)[i] != '\n' by {
        if i < 2 {
            assert(close_one(name)[i] == "</"@[i]);
        } else if i < 2 + name.len() {
            assert(close_one(name)[i] == name[i - 2]);
        } else {
            assert(close_one(name)[i] == ">"@[0]);
        }
    }
}

/// Law: every rendered block is followed by exactly one newline that the
/// block itself contributes: its output ends in a newline, and its closing
/// markup contains none, so nothing but the one appended newline separates
/// a block from what follows it.
pub proof fn lemma_block_newline(t: Tag, c: Content, ids: Seq<Seq<char>>)
    ensures
        render_node_spec(Node::Block(t, c), ids).0.len() >= 1,
        render_node_spec(Node::Block(t, c), ids).0.last() == '\n',
        ({
            let ids1 = tag_ids_after(t, Some(TagType::Opening), ids);
            let ids2 = render_nodes_spec(c.nodes@, ids1).1;
            no_newline(tag_markup(t, Some(TagType::Closing), ids2))
        }),
{
    reveal_strlit("\n");
    let ids1 = tag_ids_after(t, Some(TagType::Opening), ids);
    let ids2 = render_nodes_spec(c.nodes@, ids1).1;
    let out = render_node_spec(Node::Block(t, c), ids).0;
    assert(out.last() == "\n"@[0]);
    match t {
        Tag::Paragraph => {
            reveal_strlit("p");
            assert(no_newline("p"@));
            lemma_close_one_no_newline("p"@);
        },
        Tag::Header(n) => {
            reveal_strlit("h");
            crate::decimal::lemma_dec_digits_are_digits(n as nat);
            let name = "h"@ + dec_digits(n as nat);
            assert forall|i: int| 0 <= i < name.len() implies name[i] != '\n' by {
                if i < 1 {
                    assert(name[i] == "h"@[0]);
                } else {
                    assert(name[i] == dec_digits(n as nat)[i - 1]);
                    assert(48 <= name[i] as u32 <= 57);
                }
            }
            lemma_close_one_no_newline(name);
        },
        Tag::CodeBlock(info) => {
            lemma_code_block_mirror(info, ids2);
            reveal_strlit("</code></pre>");
            assert(no_newline("</code></pre>"@));
        },
        Tag::FootnoteDefinition(id) => {
            reveal_strlit("</div>");
            assert(no_newline("</div>"@));
        },
        Tag::Other => {
            assert(no_newline(Seq::<char>::empty()));
        },
    }
}

/// Law: rendering only adds footnote identifiers: the identifiers known
/// before a node renders are a prefix of those known afterwards, so an
/// index, once assigned, keeps its position for the rest of the render.
pub proof fn lemma_render_node_extends_ids(n: Node, ids: Seq<Seq<char>>)
    ensures
        ids.is_prefix_of(render_node_spec(n, ids).1),
    decreases n,
{
    match n {
        Node::Item(e) => {
            let ids2 = event_ids_after(e, ids);
            assert(ids.is_prefix_of(ids2)) by {
                if ids2 != ids {
                    assert(ids2.subrange(0, ids.len() as int) =~= ids);
                }
            }
        },
        Node::Block(t, c) => {
            let ids1 = tag_ids_after(t, Some(TagType::Opening), ids);
            assert(ids.is_prefix_of(ids1)) by {
                if ids1 != ids {
                    assert(ids1.subrange(0, ids.len() as int) =~= ids);
                }
            }
            lemma_render_nodes_extends_ids(c.nodes@, ids1);
            let ids2 = render_nodes_spec(c.nodes@, ids1).1;
            assert(ids2.subrange(0, ids1.len() as int).subrange(0, ids.len() as int) =~= ids2.subrange(
                0,
                ids.len() as int,
            ));
            assert(ids.is_prefix_of(ids2));
            assert(tag_ids_after(t, Some(TagType::Closing), ids2) == ids2);
        },
    }
}

/// Law: rendering a node sequence only adds footnote identifiers.
pub proof fn lemma_render_nodes_extends_ids(ns: Seq<Node>, ids: Seq<Seq<char>>)
    ensures
        ids.is_prefix_of(render_nodes_spec(ns, ids).1),
    decreases ns,
{
    if ns.len() == 0 {
        assert(ids.subrange(0, ids.len() as int) =~= ids);
    } else {
        lemma_render_node_extends_ids(ns[0], ids);
        let ids1 = render_node_spec(ns[0], ids).1;
        lemma_render_nodes_extends_ids(ns.drop_first(), ids1);
        let ids2 = render_nodes_spec(ns.drop_first(), ids1).1;
        assert(ids2.subrange(0, ids1.len() as int).subrange(0, ids.len() as int) =~= ids2.subrange(
            0,
            ids.len() as int,
        ));
        assert(ids.is_prefix_of(ids2));
    }
}

/// Renders a whole content sequence into `buf` through a fresh context:
/// the buffer grows by exactly the tree's rendered HTML text. The rendered
/// text is a function of the content alone, so rendering is deterministic.
pub fn into_html(content: &Content, buf: &mut String)
    ensures
        final(buf)@ == old(buf)@ + rendered_html(*content),
{
    let mut context = Context::new();
    render_content(content, &mut context, buf);
}

impl IntoHtml<Context> for Tag {
    /// Emits the markup for this tag in the context's current direction.
    fn render(&self, context: &mut Context, buf: &mut String)
        ensures
            final(buf)@ == old(buf)@ + tag_markup(*self, old(context).tag_type, old(
                context,
            ).footnotes.deep_view()),
            final(context).footnotes.deep_view() == tag_ids_after(
                *self,
                old(context).tag_type,
                old(context).footnotes.deep_view(),
            ),
            final(context).tag_type == old(context).tag_type,
            old(context).wf() ==> final(context).wf(),
    {
        render_tag_markup(self, context, buf)
    }
}

impl IntoHtml<Context> for Event {
    /// Appends this leaf event's markup.
    fn render(&self, context: &mut Context, buf: &mut String)
        ensures
            final(buf)@ == old(buf)@ + event_markup(*self, old(context).footnotes.deep_view()),
            final(context).footnotes.deep_view() == event_ids_after(
                *self,
                old(context).footnotes.deep_view(),
            ),
            final(context).tag_type == old(context).tag_type,
            old(context).wf() ==> final(context).wf(),
    {
        render_event(self, context, buf)
    }
}

impl IntoHtml<Context> for Node {
    /// Renders this node and everything nested below it.
    fn render(&self, context: &mut Context, buf: &mut String)
        ensures
            final(buf)@ == old(buf)@ + render_node_spec(
                *self,
                old(context).footnotes.deep_view(),
            ).0,
            final(context).footnotes.deep_view() == render_node_spec(
                *self,
                old(context).footnotes.deep_view(),
            ).1,
            old(context).wf() ==> final(context).wf(),
    {
        render_node(self, context, buf)
    }
}

impl IntoHtml<Context> for Content {
    /// Renders every node of this content sequence, in order.
    fn render(&self, context: &mut Context, buf: &mut String)
        ensures
            final(buf)@ == old(buf)@ + render_nodes_spec(
                self.nodes@,
                old(context).footnotes.deep_view(),
            ).0,
            final(context).footnotes.deep_view() == render_nodes_spec(
                self.nodes@,
                old(context).footnotes.deep_view(),
            ).1,
            old(context).wf() ==> final(context).wf(),
    {
        render_content(self, context, buf)
    }
}

} // verus!
