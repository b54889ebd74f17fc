//! Per-render state: the direction flag and the footnote index tracker,
//! together with the markup the tag renderer emits from them.

use crate::decimal::dec_digits;
use crate::decimal::push_decimal;
use crate::escape::escape_bytes;
use crate::escape::escape_html;
use crate::sink::str_eq;
use vstd::prelude::*;
use vstd::string::StringExecFns;
use vstd::utf8::encode_utf8;

verus! {

/// Whether a block's opening or closing markup is being emitted.
#[derive(Clone, Copy, Debug, PartialEq, Eq, Structural)]
pub enum TagType {
    Opening,
    Closing,
}

/// State for one render call: the direction flag, and the footnote
/// identifiers in first-seen order. The identifier at position `i` has
/// footnote index `i + 1`; the mapping only grows, so an index, once
/// assigned, is stable for the rest of the render.
pub struct Context {
    pub tag_type: Option<TagType>,
    pub footnotes: Vec<String>,
}

/// Whether `id` is among the known identifiers.
pub open spec fn knows_id(ids: Seq<Seq<char>>, id: Seq<char>) -> bool {
    exists|j: int| 0 <= j < ids.len() && ids[j] == id
}

/// The position of the first occurrence of `id` among the identifiers.
pub open spec fn first_position(ids: Seq<Seq<char>>, id: Seq<char>) -> int
    decreases ids.len(),
{
    if ids.len() == 0 {
        0
    } else if ids[0] == id {
        0
    } else {
        1 + first_position(ids.drop_first(), id)
    }
}

/// The footnote index of a known identifier: its first position, counted
/// from one.
pub open spec fn index_of_id(ids: Seq<Seq<char>>, id: Seq<char>) -> int {
    first_position(ids, id) + 1
}

/// The identifiers after one lookup: unchanged if `id` was already known,
/// extended by `id` otherwise.
pub open spec fn ids_after(ids: Seq<Seq<char>>, id: Seq<char>) -> Seq<Seq<char>> {
    if knows_id(ids, id) {
        ids
    } else {
        ids.push(id)
    }
}

/// The index a lookup returns: the stored index if `id` is known, else one
/// more than the count of identifiers known before the call.
pub open spec fn next_index(ids: Seq<Seq<char>>, id: Seq<char>) -> int {
    if knows_id(ids, id) {
        index_of_id(ids, id)
    } else {
        ids.len() as int + 1
    }
}

/// The opening markup for a single tag name.
pub open spec fn open_one(name: Seq<char>) -> Seq<char> {
    "<"@ + name + ">"@
}

/// The closing markup for a single tag name.
pub open spec fn close_one(name: Seq<char>) -> Seq<char> {
    "</"@ + name + ">"@
}

/// What rendering a single tag name emits: its opening markup when the
/// direction is opening, its closing markup when closing, nothing when no
/// direction is set.
pub open spec fn tag_text(dir: Option<TagType>, name: Seq<char>) -> Seq<char> {
    match dir {
        Some(TagType::Opening) => open_one(name),
        Some(TagType::Closing) => close_one(name),
        None => Seq::empty(),
    }
}

/// Opening markup for each name, in listed order.
pub open spec fn open_all(names: Seq<Seq<char>>) -> Seq<char>
    decreases names.len(),
{
    if names.len() == 0 {
        Seq::empty()
    } else {
        open_one(names[0]) + open_all(names.drop_first())
    }
}

/// Closing markup for each name, in reverse listed order: the innermost
/// element closes first.
pub open spec fn close_all_rev(names: Seq<Seq<char>>) -> Seq<char>
    decreases names.len(),
{
    if names.len() == 0 {
        Seq::empty()
    } else {
        close_one(names.last()) + close_all_rev(names.drop_last())
    }
}

/// What rendering a nested group of tag names emits.
pub open spec fn nested_tag_text(dir: Option<TagType>, names: Seq<Seq<char>>) -> Seq<char> {
    match dir {
        Some(TagType::Opening) => open_all(names),
        Some(TagType::Closing) => close_all_rev(names),
        None => Seq::empty(),
    }
}

proof fn lemma_open_all_snoc(names: Seq<Seq<char>>, name: Seq<char>)
    ensures
        open_all(names.push(name)) == open_all(names) + open_one(name),
    decreases names.len(),
{
    if names.len() == 0 {
        assert(names.push(name)[0] == name);
        assert(names.push(name).drop_first() =~= Seq::<Seq<char>>::empty());
        assert(open_all(names.push(name)) == open_one(name) + open_all(
            names.push(name).drop_first(),
        ));
        assert(open_all(names.push(name)) =~= open_all(names) + open_one(name));
    } else {
        assert(names.push(name)[0] == names[0]);
        assert(names.push(name).drop_first() =~= names.drop_first().push(name));
        lemma_open_all_snoc(names.drop_first(), name);
        assert(open_all(names.push(name)) == open_one(names[0]) + open_all(
            names.drop_first().push(name),
        ));
        assert(open_all(names.drop_first().push(name)) == open_all(names.drop_first()) + open_one(
            name,
        ));
        assert(open_all(names) == open_one(names[0]) + open_all(names.drop_first()));
        assert(open_all(names.push(name)) =~= open_all(names) + open_one(name));
    }
}

proof fn lemma_close_all_rev_cons(names: Seq<Seq<char>>)
    requires
        names.len() > 0,
    ensures
        close_all_rev(names) == close_all_rev(names.drop_first()) + close_one(names[0]),
    decreases names.len(),
{
    if names.len() == 1 {
        assert(names.drop_last() =~= Seq::<Seq<char>>::empty());
        assert(names.drop_first() =~= Seq::<Seq<char>>::empty());
        assert(close_all_rev(names) =~= close_all_rev(names.drop_first()) + close_one(names[0]));
    } else {
        lemma_close_all_rev_cons(names.drop_last());
        assert(names.drop_last().drop_first() =~= names.drop_first().drop_last());
        assert(names.drop_first().last() == names.last());
        assert(names.drop_last()[0] == names[0]);
        assert(close_all_rev(names) =~= close_all_rev(names.drop_first()) + close_one(names[0]));
    }
}

/// The markup for a footnote reference: a `sup` wrapper around a link to
/// the definition, whose link target is the escaped identifier and whose
/// text is the identifier's footnote index.
pub open spec fn footnote_ref_text(id: Seq<char>, ids: Seq<Seq<char>>) -> Seq<char> {
    "<sup class=\"footnote-reference\"><a href=\"#"@ + escape_bytes(encode_utf8(id)) + "\">"@
        + dec_digits(next_index(ids, id) as nat) + "</a></sup>"@
}

/// The markup a footnote definition's tag emits: on opening, a `div`
/// carrying the escaped identifier as its `id`, then a complete `sup`
/// label holding the identifier's footnote index, then a newline; on
/// closing, only the closing `div`.
pub open spec fn footnote_def_text(dir: Option<TagType>, id: Seq<char>, ids: Seq<Seq<char>>) -> Seq<
    char,
> {
    match dir {
        Some(TagType::Opening) => "<div class=\"footnote-definition\" id=\""@ + escape_bytes(
            encode_utf8(id),
        ) + "\"><sup class=\"footnote-definition-label\">"@ + dec_digits(
            next_index(ids, id) as nat,
        ) + "</sup>\n"@,
        Some(TagType::Closing) => "</div>"@,
        None => Seq::empty(),
    }
}

/// The identifiers after a footnote definition's tag renders: the opening
/// markup looks the identifier up, the closing markup does not.
pub open spec fn footnote_def_ids_after(
    dir: Option<TagType>,
    id: Seq<char>,
    ids: Seq<Seq<char>>,
) -> Seq<Seq<char>> {
    match dir {
        Some(TagType::Opening) => ids_after(ids, id),
        _ => ids,
    }
}

proof fn lemma_first_position_found(ids: Seq<Seq<char>>, id: Seq<char>, k: int)
    requires
        0 <= k < ids.len(),
        ids[k] == id,
        forall|j: int| 0 <= j < k ==> ids[j] != id,
    ensures
        first_position(ids, id) == k,
        knows_id(ids, id),
    decreases ids.len(),
{
    if k == 0 {
    } else {
        assert(ids[0] != id);
        lemma_first_position_found(ids.drop_first(), id, k - 1);
    }
}

proof fn lemma_first_position_props(ids: Seq<Seq<char>>, id: Seq<char>)
    requires
        knows_id(ids, id),
    ensures
        0 <= first_position(ids, id) < ids.len(),
        ids[first_position(ids, id)] == id,
        forall|j: int| 0 <= j < first_position(ids, id) ==> ids[j] != id,
    decreases ids.len(),
{
    if ids[0] == id {
    } else {
        assert(knows_id(ids.drop_first(), id)) by {
            let w = choose|j: int| 0 <= j < ids.len() && ids[j] == id;
            assert(ids.drop_first()[w - 1] == id);
        }
        lemma_first_position_props(ids.drop_first(), id);
        assert forall|j: int| 0 <= j < first_position(ids, id) implies ids[j] != id by {
            if j > 0 {
                assert(ids.drop_first()[j - 1] != id);
            }
        }
    }
}

/// Law: repeated encounters of one identifier within a render return the
/// same index and leave the recorded identifiers unchanged.
pub proof fn lemma_footnote_index_repeat(ids: Seq<Seq<char>>, id: Seq<char>)
    ensures
        next_index(ids_after(ids, id), id) == next_index(ids, id),
        ids_after(ids_after(ids, id), id) == ids_after(ids, id),
{
    if knows_id(ids, id) {
    } else {
        let ids2 = ids.push(id);
        assert(ids2[ids.len() as int] == id);
        lemma_first_position_found(ids2, id, ids.len() as int);
    }
}

/// Law: an index, once assigned, is stable: if `id` is known in a state,
/// every later state of the same render (which only appends identifiers)
/// returns the same index for it.
pub proof fn lemma_footnote_index_stable(ids: Seq<Seq<char>>, ids2: Seq<Seq<char>>, id: Seq<char>)
    requires
        knows_id(ids, id),
        ids.is_prefix_of(ids2),
    ensures
        knows_id(ids2, id),
        next_index(ids2, id) == next_index(ids, id),
{
    lemma_first_position_props(ids, id);
    let k = first_position(ids, id);
    assert(ids2[k] == ids[k]);
    assert forall|j: int| 0 <= j < k implies ids2[j] != id by {
        assert(ids2[j] == ids[j]);
    }
    lemma_first_position_found(ids2, id, k);
}

/// Law: indices follow first-encounter order. If `a` is first seen when it
/// is not yet known, and `b` is first seen later in the render (any number
/// of other encounters in between), then `a`'s index is strictly smaller
/// than the index `b` is assigned.
pub proof fn lemma_footnote_order(
    ids: Seq<Seq<char>>,
    ext: Seq<Seq<char>>,
    a: Seq<char>,
    b: Seq<char>,
)
    requires
        !knows_id(ids, a),
        !knows_id(ids_after(ids, a) + ext, b),
    ensures
        next_index(ids_after(ids, a) + ext, a) < next_index(ids_after(ids, a) + ext, b),
{
    let ids1 = ids_after(ids, a);
    assert(ids1 == ids.push(a));
    assert(ids1[ids.len() as int] == a);
    lemma_first_position_found(ids1, a, ids.len() as int);
    let s = ids1 + ext;
    assert(ids1.is_prefix_of(s)) by {
        assert(s.subrange(0, ids1.len() as int) =~= ids1);
    }
    lemma_footnote_index_stable(ids1, s, a);
    assert(next_index(s, a) == ids.len() + 1);
    assert(next_index(s, b) == s.len() + 1);
}

impl Context {
    /// No identifier is recorded twice.
    pub open spec fn wf(self) -> bool {
        forall|i: int, j: int|
            0 <= i < j < self.footnotes.deep_view().len() ==> self.footnotes.deep_view()[i]
                != self.footnotes.deep_view()[j]
    }

    /// A fresh context: no direction set, no footnote identifiers known.
    pub fn new() -> (ctx: Context)
        ensures
            ctx.tag_type is None,
            ctx.footnotes.deep_view() == Seq::<Seq<char>>::empty(),
            ctx.wf(),
    {
        let ctx = Context { tag_type: None, footnotes: Vec::new() };
        proof {
            assert(ctx.footnotes.deep_view() =~= Seq::<Seq<char>>::empty());
        }
        ctx
    }

    /// The index assigned to `id`: the index recorded when `id` was first
    /// seen, or, for a new identifier, one more than the count of
    /// identifiers known before this call, recorded for later calls.
    pub fn get_footnote_index(&mut self, id: &str) -> (r: usize)
        ensures
            r as int == next_index(old(self).footnotes.deep_view(), id@),
            final(self).footnotes.deep_view() == ids_after(old(self).footnotes.deep_view(), id@),
            final(self).tag_type == old(self).tag_type,
            old(self).wf() ==> final(self).wf(),
    {
        let ghost ids = self.footnotes.deep_view();
        let n = self.footnotes.len();
        let mut i: usize = 0;
        while i < n
            invariant
                i <= n,
                n == self.footnotes@.len(),
                *self == *old(self),
                ids == self.footnotes.deep_view(),
                forall|j: int| 0 <= j < i ==> ids[j] != id@,
            decreases n - i,
        {
            if str_eq(self.footnotes[i].as_str(), id) {
                proof {
                    assert(ids[i as int] == id@);
                    lemma_first_position_found(ids, id@, i as int);
                }
                return i + 1;
            }
            i = i + 1;
        }
        proof {
            assert(!knows_id(ids, id@));
        }
        self.footnotes.push(id.to_owned());
        proof {
            assert(self.footnotes.deep_view() =~= ids.push(id@));
            assert forall|x: int, y: int| 0 <= x < y < self.footnotes.deep_view().len() && old(
                self,
            ).wf() implies self.footnotes.deep_view()[x] != self.footnotes.deep_view()[y] by {
                if y < ids.len() {
                    assert(ids[x] != ids[y]);
                } else {
                    assert(!knows_id(ids, id@));
                    assert(ids[x] != id@);
                }
            }
        }
        self.footnotes.len()
    }

    /// Emits `<tag>` when the direction is opening, `</tag>` when closing,
    /// and nothing when no direction is set.
    pub fn render_tag(&self, tag: &str, buf: &mut String)
        ensures
            final(buf)@ == old(buf)@ + tag_text(self.tag_type, tag@),
    {
        match self.tag_type {
            Some(TagType::Opening) => {
                buf.append("<");
                buf.append(tag);
                buf.append(">");
                proof {
                    assert(buf@ =~= old(buf)@ + tag_text(self.tag_type, tag@));
                }
            },
            Some(TagType::Closing) => {
                buf.append("</");
                buf.append(tag);
                buf.append(">");
                proof {
                    assert(buf@ =~= old(buf)@ + tag_text(self.tag_type, tag@));
                }
            },
            None => {},
        }
    }

    /// Emits each name's opening tag in listed order when opening, each
    /// name's closing tag in reverse listed order when closing, and nothing
    /// when no direction is set.
    pub fn render_nested_tags(&self, tags: &[&str], buf: &mut String)
        ensures
            final(buf)@ == old(buf)@ + nested_tag_text(self.tag_type, tags.deep_view()),
    {
        let ghost names = tags.deep_view();
        match self.tag_type {
            Some(TagType::Opening) => {
                let n = tags.len();
                let mut i: usize = 0;
                while i < n
                    invariant
                        i <= n,
                        n == tags@.len(),
                        names == tags.deep_view(),
                        self.tag_type == Some(TagType::Opening),
                        buf@ == old(buf)@ + open_all(names.take(i as int)),
                    decreases n - i,
                {
                    self.render_tag(tags[i], buf);
                    proof {
                        lemma_open_all_snoc(names.take(i as int), names[i as int]);
                        assert(names.take(i + 1 as int) =~= names.take(i as int).push(
                            names[i as int],
                        ));
                        assert(buf@ =~= old(buf)@ + open_all(names.take(i + 1 as int)));
                    }
                    i = i + 1;
                }
                proof {
                    assert(names.take(n as int) =~= names);
                }
            },
            Some(TagType::Closing) => {
                let mut i: usize = tags.len();
                proof {
                    assert(names.skip(i as int) =~= Seq::<Seq<char>>::empty());
                }
                while i > 0
                    invariant
                        i <= tags@.len(),
                        names == tags.deep_view(),
                        self.tag_type == Some(TagType::Closing),
                        buf@ == old(buf)@ + close_all_rev(names.skip(i as int)),
                    decreases i,
                {
                    i = i - 1;
                    self.render_tag(tags[i], buf);
                    proof {
                        lemma_close_all_rev_cons(names.skip(i as int));
                        assert(names.skip(i as int)[0] == names[i as int]);
                        assert(names.skip(i as int).drop_first() =~= names.skip(i + 1 as int));
                        assert(buf@ =~= old(buf)@ + close_all_rev(names.skip(i as int)));
                    }
                }
                proof {
                    assert(names.skip(0) =~= names);
                }
            },
            None => {},
        }
    }

    /// Emits the complete markup for a footnote reference to `id`, looking
    /// the identifier's index up (and recording it if new).
    pub fn render_footnote_reference(&mut self, id: &str, buf: &mut String)
        ensures
            final(buf)@ == old(buf)@ + footnote_ref_text(id@, old(self).footnotes.deep_view()),
            final(self).footnotes.deep_view() == ids_after(old(self).footnotes.deep_view(), id@),
            final(self).tag_type == old(self).tag_type,
            old(self).wf() ==> final(self).wf(),
    {
        buf.append("<sup class=\"footnote-reference\"><a href=\"#");
        escape_html(buf, id);
        buf.append("\">");
        let ix = self.get_footnote_index(id);
        push_decimal(buf, ix);
        buf.append("</a></sup>");
        proof {
            assert(buf@ =~= old(buf)@ + footnote_ref_text(id@, old(self).footnotes.deep_view()));
        }
    }

    /// Emits a footnote definition's markup for the current direction: the
    /// wrapping `div` and its complete index label when opening, the
    /// closing `div` when closing, nothing when no direction is set.
    pub fn render_footnote_definition(&mut self, id: &str, buf: &mut String)
        ensures
            final(buf)@ == old(buf)@ + footnote_def_text(
                old(self).tag_type,
                id@,
                old(self).footnotes.deep_view(),
            ),
            final(self).footnotes.deep_view() == footnote_def_ids_after(
                old(self).tag_type,
                id@,
                old(self).footnotes.deep_view(),
            ),
            final(self).tag_type == old(self).tag_type,
            old(self).wf() ==> final(self).wf(),
    {
        match self.tag_type {
            Some(TagType::Opening) => {
                buf.append("<div class=\"footnote-definition\" id=\"");
                escape_html(buf, id);
                buf.append("\"><sup class=\"footnote-definition-label\">");
                let ix = self.get_footnote_index(id);
                push_decimal(buf, ix);
                buf.append("</sup>\n");
                proof {
                    assert(buf@ =~= old(buf)@ + footnote_def_text(
                        old(self).tag_type,
                        id@,
                        old(self).footnotes.deep_view(),
                    ));
                }
            },
            Some(TagType::Closing) => {
                buf.append("</div>");
            },
            None => {},
        }
    }
}

} // verus!
