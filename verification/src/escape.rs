//! The HTML escaper: replaces the five reserved bytes by character entities
//! and re-emits every other byte of the input as one character.

use crate::sink::push_char;
use vstd::prelude::*;
use vstd::string::StringExecFns;
use vstd::string::StringSliceAdditionalSpecFns;

verus! {

/// The bytes the escaper replaces: `"`, `&`, `'`, `<`, `>`.
pub open spec fn is_special_byte(b: u8) -> bool {
    b == 34 || b == 38 || b == 39 || b == 60 || b == 62
}

/// What one input byte contributes to the escaped output. The five reserved
/// bytes become entities; `'` intentionally becomes the slash entity
/// `&#47;`, matching the documented behaviour exactly. Every other byte is
/// re-emitted as the character with that code.
pub open spec fn escape_byte(b: u8) -> Seq<char> {
    if b == 34 {
        "&quot;"@
    } else if b == 38 {
        "&amp;"@
    } else if b == 39 {
        "&#47;"@
    } else if b == 60 {
        "&lt;"@
    } else if b == 62 {
        "&gt;"@
    } else {
        seq![b as char]
    }
}

/// The escaped form of a whole byte sequence, byte for byte.
pub open spec fn escape_bytes(bs: Seq<u8>) -> Seq<char>
    decreases bs.len(),
{
    if bs.len() == 0 {
        Seq::empty()
    } else {
        escape_byte(bs[0]) + escape_bytes(bs.drop_first())
    }
}

proof fn lemma_escape_bytes_snoc(bs: Seq<u8>, b: u8)
    ensures
        escape_bytes(bs.push(b)) == escape_bytes(bs) + escape_byte(b),
    decreases bs.len(),
{
    if bs.len() == 0 {
        assert(bs.push(b)[0] == b);
        assert(bs.push(b).drop_first() =~= Seq::<u8>::empty());
        assert(escape_bytes(bs.push(b)) == escape_byte(b) + escape_bytes(bs.push(b).drop_first()));
        assert(escape_bytes(bs.push(b)) =~= escape_bytes(bs) + escape_byte(b));
    } else {
        assert(bs.push(b)[0] == bs[0]);
        assert(bs.push(b).drop_first() =~= bs.drop_first().push(b));
        lemma_escape_bytes_snoc(bs.drop_first(), b);
        assert(escape_bytes(bs.push(b)) == escape_byte(bs[0]) + escape_bytes(
            bs.drop_first().push(b),
        ));
        assert(escape_bytes(bs.drop_first().push(b)) == escape_bytes(bs.drop_first())
            + escape_byte(b));
        assert(escape_bytes(bs) == escape_byte(bs[0]) + escape_bytes(bs.drop_first()));
        assert(escape_bytes(bs.push(b)) =~= escape_bytes(bs) + escape_byte(b));
    }
}

/// Count of occurrences of the byte `b` in `bs`.
pub open spec fn count_byte(bs: Seq<u8>, b: u8) -> nat
    decreases bs.len(),
{
    if bs.len() == 0 {
        0
    } else {
        (if bs[0] == b {
            1nat
        } else {
            0nat
        }) + count_byte(bs.drop_first(), b)
    }
}

/// Count of bytes of `bs` that the escaper replaces.
pub open spec fn count_special(bs: Seq<u8>) -> nat
    decreases bs.len(),
{
    if bs.len() == 0 {
        0
    } else {
        (if is_special_byte(bs[0]) {
            1nat
        } else {
            0nat
        }) + count_special(bs.drop_first())
    }
}

/// Count of occurrences of the character `c` in `s`.
pub open spec fn count_char(s: Seq<char>, c: char) -> nat
    decreases s.len(),
{
    if s.len() == 0 {
        0
    } else {
        (if s[0] == c {
            1nat
        } else {
            0nat
        }) + count_char(s.drop_first(), c)
    }
}

/// Count of positions of `s` where the slash entity `&#47;` begins.
pub open spec fn count_slash_entity(s: Seq<char>) -> nat
    decreases s.len(),
{
    if s.len() < 5 {
        0
    } else {
        (if s.take(5) == "&#47;"@ {
            1nat
        } else {
            0nat
        }) + count_slash_entity(s.drop_first())
    }
}

proof fn lemma_count_char_concat(a: Seq<char>, b: Seq<char>, c: char)
    ensures
        count_char(a + b, c) == count_char(a, c) + count_char(b, c),
    decreases a.len(),
{
    if a.len() == 0 {
        assert(a + b =~= b);
    } else {
        assert((a + b)[0] == a[0]);
        assert((a + b).drop_first() =~= a.drop_first() + b);
        lemma_count_char_concat(a.drop_first(), b, c);
    }
}

proof fn lemma_count_char_zero(s: Seq<char>, c: char)
    requires
        forall|i: int| 0 <= i < s.len() ==> s[i] != c,
    ensures
        count_char(s, c) == 0,
    decreases s.len(),
{
    if s.len() > 0 {
        assert(forall|i: int| 0 <= i < s.drop_first().len() ==> s.drop_first()[i] == s[i + 1]);
        lemma_count_char_zero(s.drop_first(), c);
    }
}

proof fn reveal_entities()
    ensures
        "&quot;"@ =~= seq!['&', 'q', 'u', 'o', 't', ';'],
        "&amp;"@ =~= seq!['&', 'a', 'm', 'p', ';'],
        "&#47;"@ =~= seq!['&', '#', '4', '7', ';'],
        "&lt;"@ =~= seq!['&', 'l', 't', ';'],
        "&gt;"@ =~= seq!['&', 'g', 't', ';'],
{
    reveal_strlit("&quot;");
    reveal_strlit("&amp;");
    reveal_strlit("&#47;");
    reveal_strlit("&lt;");
    reveal_strlit("&gt;");
}

/// Law: the escaper's output never holds a literal `<`, `>` or `"`, and
/// holds a `&` only as the first character of an entity it emitted: the
/// count of `&` characters in the output equals the count of replaced
/// bytes of the input.
pub proof fn lemma_escape_no_reserved(bs: Seq<u8>)
    ensures
        forall|i: int|
            0 <= i < escape_bytes(bs).len() ==> (#[trigger] escape_bytes(bs)[i]) != '<'
                && escape_bytes(bs)[i] != '>' && escape_bytes(bs)[i] != '"',
        count_char(escape_bytes(bs), '&') == count_special(bs),
    decreases bs.len(),
{
    reveal_entities();
    if bs.len() == 0 {
    } else {
        lemma_escape_no_reserved(bs.drop_first());
        let b = bs[0];
        let e = escape_byte(b);
        let rest = escape_bytes(bs.drop_first());
        assert(escape_bytes(bs) == e + rest);
        if !is_special_byte(b) {
            assert(e[0] as u32 == b as u32);
        }
        assert(forall|i: int|
            0 <= i < e.len() ==> (#[trigger] e[i]) != '<' && e[i] != '>' && e[i] != '"');
        assert forall|i: int|
            0 <= i < escape_bytes(bs).len() implies (#[trigger] escape_bytes(bs)[i]) != '<'
            && escape_bytes(bs)[i] != '>' && escape_bytes(bs)[i] != '"' by {
            if i < e.len() {
                assert(escape_bytes(bs)[i] == e[i]);
            } else {
                assert(escape_bytes(bs)[i] == rest[i - e.len()]);
            }
        }
        lemma_count_char_concat(e, rest, '&');
        if is_special_byte(b) {
            assert(forall|i: int| 0 <= i < e.drop_first().len() ==> e.drop_first()[i] != '&');
            lemma_count_char_zero(e.drop_first(), '&');
            assert(count_char(e, '&') == 1);
        } else {
            assert(e[0] != '&');
            assert(e.drop_first() =~= Seq::<char>::empty());
            assert(count_char(Seq::<char>::empty(), '&') == 0);
            assert(count_char(e, '&') == (if e[0] == '&' {
                1nat
            } else {
                0nat
            }) + count_char(e.drop_first(), '&'));
            assert(count_char(e, '&') == 0);
        }
    }
}

proof fn lemma_slash_skip_nomatch(s: Seq<char>)
    requires
        s.len() >= 1,
        s.len() >= 5 ==> s.take(5) != "&#47;"@,
    ensures
        count_slash_entity(s) == count_slash_entity(s.drop_first()),
{
    if s.len() < 5 {
        assert(count_slash_entity(s) == 0);
        assert(count_slash_entity(s.drop_first()) == 0);
    }
}

proof fn lemma_slash_skip(s: Seq<char>)
    requires
        s.len() >= 1,
        s[0] != '&',
    ensures
        count_slash_entity(s) == count_slash_entity(s.drop_first()),
{
    reveal_strlit("&#47;");
    if s.len() >= 5 {
        assert(s.take(5)[0] == s[0]);
        assert("&#47;"@[0] == '&');
        assert(s.take(5) != "&#47;"@);
    }
    lemma_slash_skip_nomatch(s);
}

proof fn lemma_slash_tail_chain(e: Seq<char>, rest: Seq<char>)
    requires
        e.len() >= 1,
        forall|i: int| 1 <= i < e.len() ==> e[i] != '&',
    ensures
        count_slash_entity(e.drop_first() + rest) == count_slash_entity(rest),
    decreases e.len(),
{
    if e.len() == 1 {
        assert(e.drop_first() + rest =~= rest);
    } else {
        let s1 = e.drop_first() + rest;
        assert(s1[0] == e[1]);
        lemma_slash_skip(s1);
        assert(s1.drop_first() =~= e.drop_first().drop_first() + rest);
        assert(forall|i: int|
            1 <= i < e.drop_first().len() ==> e.drop_first()[i] == e[i + 1]);
        lemma_slash_tail_chain(e.drop_first(), rest);
    }
}

proof fn lemma_slash_concat(b: u8, rest: Seq<char>)
    ensures
        count_slash_entity(escape_byte(b) + rest) == (if b == 39 {
            1nat
        } else {
            0nat
        }) + count_slash_entity(rest),
{
    reveal_entities();
    let e = escape_byte(b);
    let s = e + rest;
    assert(s.drop_first() =~= e.drop_first() + rest);
    if b == 39 {
        assert(s.take(5) =~= "&#47;"@);
        assert(count_slash_entity(s) == 1 + count_slash_entity(s.drop_first()));
        lemma_slash_tail_chain(e, rest);
    } else if is_special_byte(b) {
        if s.len() >= 5 {
            assert(s.take(5)[1] == e[1]);
            assert("&#47;"@[1] == '#');
            assert(e[1] != '#');
            assert(s.take(5) != "&#47;"@);
        }
        lemma_slash_skip_nomatch(s);
        lemma_slash_tail_chain(e, rest);
    } else {
        assert(s[0] as u32 == b as u32);
        assert(s[0] != '&');
        lemma_slash_skip(s);
        assert(e.drop_first() =~= Seq::<char>::empty());
        assert(e.drop_first() + rest =~= rest);
    }
}

/// Law: the escaper adds exactly one `&#47;` entity per `'` byte of the
/// input: the count of positions where `&#47;` occurs in the output equals
/// the count of `'` bytes in the input.
pub proof fn lemma_escape_slash_entities(bs: Seq<u8>)
    ensures
        count_slash_entity(escape_bytes(bs)) == count_byte(bs, 39),
    decreases bs.len(),
{
    if bs.len() == 0 {
    } else {
        lemma_escape_slash_entities(bs.drop_first());
        lemma_slash_concat(bs[0], escape_bytes(bs.drop_first()));
    }
}

/// Appends `text` to `buf` with the five reserved bytes replaced by their
/// entities and every other byte of `text` re-emitted as one character.
/// The sink is an in-memory buffer, so the append cannot fail.
pub fn escape_html(buf: &mut String, text: &str)
    ensures
        final(buf)@ == old(buf)@ + escape_bytes(text.spec_bytes()),
{
    let bytes = text.as_bytes();
    let n = bytes.len();
    let mut i: usize = 0;
    while i < n
        invariant
            i <= n,
            n == bytes@.len(),
            bytes@ == text.spec_bytes(),
            buf@ == old(buf)@ + escape_bytes(bytes@.take(i as int)),
        decreases n - i,
    {
        let b = bytes[i];
        if b == 34 {
            buf.append("&quot;");
        } else if b == 38 {
            buf.append("&amp;");
        } else if b == 39 {
            buf.append("&#47;");
        } else if b == 60 {
            buf.append("&lt;");
        } else if b == 62 {
            buf.append("&gt;");
        } else {
            push_char(buf, b as char);
        }
        proof {
            lemma_escape_bytes_snoc(bytes@.take(i as int), b);
            assert(bytes@.take(i + 1 as int) =~= bytes@.take(i as int).push(b));
            assert(buf@ =~= old(buf)@ + escape_bytes(bytes@.take(i + 1 as int)));
        }
        i = i + 1;
    }
    proof {
        assert(bytes@.take(n as int) =~= bytes@);
    }
}

} // verus!
