//! Escaping of text that stands between tags.
use crate::escape::{agrees, keeps, lemma_replace_each_kept, replace_each, write_replaced};
use crate::prelude::WriterExt;
use vstd::prelude::*;

verus! {

/// Whether `c` is one of the six characters that may not stand in text as
/// they are: `&`, `<`, `>`, `"`, `'` and `/`.
pub open spec fn is_content_special(c: char) -> bool {
    c == '&' || c == '<' || c == '>' || c == '"' || c == '\'' || c == '/'
}

/// What is written for `c` in text: its entity where `c` is special, `c`
/// itself where it is not.
pub open spec fn entity(c: char) -> Seq<char> {
    if c == '&' {
        seq!['&', 'a', 'm', 'p', ';']
    } else if c == '<' {
        seq!['&', 'l', 't', ';']
    } else if c == '>' {
        seq!['&', 'g', 't', ';']
    } else if c == '"' {
        seq!['&', 'q', 'u', 'o', 't', ';']
    } else if c == '\'' {
        seq!['&', '#', 'x', '2', '7', ';']
    } else if c == '/' {
        seq!['&', '#', 'x', '2', 'F', ';']
    } else {
        seq![c]
    }
}

/// The table of [`entity`].
pub open spec fn entities() -> spec_fn(char) -> Seq<char> {
    |c: char| entity(c)
}

/// `text` as it is written between tags: each special character replaced by
/// its entity.
pub open spec fn escaped_content(text: Seq<char>) -> Seq<char> {
    replace_each(text, entities())
}

/// Whether one of the six entities stands in `text` at `index`.
pub open spec fn entity_at(text: Seq<char>, index: int) -> bool {
    exists|c: char|
        is_content_special(c) && 0 <= index && index + entity(c).len() <= text.len()
            && #[trigger] text.subrange(index, index + entity(c).len()) == entity(c)
}

/// The entity for the byte `b`, if `b` stands for a special character.
fn entity_for(b: u8) -> (res: Option<&'static str>)
    ensures
        agrees(entities(), b, res),
        res is Some <==> b < 0x80 && is_content_special(b as char),
{
    proof {
        reveal_strlit("&amp;");
        reveal_strlit("&lt;");
        reveal_strlit("&gt;");
        reveal_strlit("&quot;");
        reveal_strlit("&#x27;");
        reveal_strlit("&#x2F;");
    }
    let found = if b == '&' as u8 {
        Some("&amp;")
    } else if b == '<' as u8 {
        Some("&lt;")
    } else if b == '>' as u8 {
        Some("&gt;")
    } else if b == '"' as u8 {
        Some("&quot;")
    } else if b == '\'' as u8 {
        Some("&#x27;")
    } else if b == '/' as u8 {
        Some("&#x2F;")
    } else {
        None
    };
    proof {
        if let Some(text) = found {
            assert(text@ =~= entity(b as char));
        }
    }
    found
}

/// Writes `value` to `f` as text: each of `&`, `<`, `>`, `"`, `'` and `/` is
/// replaced by its entity, everything else is written as it is.
///
/// Nothing is written for an empty `value`. The first write that the sink
/// refuses ends the work, and its error is returned.
pub fn escape_content<W: WriterExt>(f: &mut W, value: &str) -> (res: Result<(), W::Error>)
    ensures
        res is Ok ==> final(f).written() == old(f).written() + escaped_content(value@),
        W::infallible() ==> res is Ok,
{
    write_replaced(f, value, entity_for, Ghost(entities()))
}

/// Alias of [`escape_content`].
#[inline(always)]
pub fn write_escaped_content_str<W: WriterExt>(f: &mut W, value: &str) -> (res: Result<
    (),
    W::Error,
>)
    ensures
        res is Ok ==> final(f).written() == old(f).written() + escaped_content(value@),
        W::infallible() ==> res is Ok,
{
    escape_content(f, value)
}

/// A piece of text that is escaped when it is written.
///
/// `&` becomes `&amp;`, `<` becomes `&lt;`, `>` becomes `&gt;`, `"` becomes
/// `&quot;`, `'` becomes `&#x27;` and `/` becomes `&#x2F;`.
pub struct EscapedContent<'a>(pub &'a str);

impl EscapedContent<'_> {
    /// Writes the text to `f`, escaped.
    pub fn fmt<W: WriterExt>(&self, f: &mut W) -> (res: Result<(), W::Error>)
        ensures
            res is Ok ==> final(f).written() == old(f).written() + escaped_content(self.0@),
            W::infallible() ==> res is Ok,
    {
        escape_content(f, self.0)
    }

    /// The escaped text.
    pub fn to_string(&self) -> (res: String)
        ensures
            res@ == escaped_content(self.0@),
    {
        let mut out = String::new();
        self.fmt(&mut out).unwrap();
        out
    }
}

/// Text without special characters is written as it is.
pub proof fn lemma_escaped_content_of_plain_text(text: Seq<char>)
    requires
        forall|i: int| 0 <= i < text.len() ==> !is_content_special(#[trigger] text[i]),
    ensures
        escaped_content(text) == text,
{
    assert forall|i: int| 0 <= i < text.len() implies keeps(entities(), #[trigger] text[i]) by {
        assert(!is_content_special(text[i]));
    }
    lemma_replace_each_kept(text, entities());
}

/// What is written for one character holds none of `<`, `>`, `"`, `'` and
/// `/`, and `&` only in front of an entity.
proof fn lemma_entity_is_safe(c: char, at: int)
    requires
        0 <= at < entity(c).len(),
    ensures
        entity(c)[at] != '<',
        entity(c)[at] != '>',
        entity(c)[at] != '"',
        entity(c)[at] != '\'',
        entity(c)[at] != '/',
        entity(c)[at] == '&' ==> at == 0 && is_content_special(c),
{
    let e = entity(c);
    if c == '&' {
        assert(e.len() == 5 && e[0] == '&' && e[1] == 'a' && e[2] == 'm' && e[3] == 'p' && e[4]
            == ';');
    } else if c == '<' {
        assert(e.len() == 4 && e[0] == '&' && e[1] == 'l' && e[2] == 't' && e[3] == ';');
    } else if c == '>' {
        assert(e.len() == 4 && e[0] == '&' && e[1] == 'g' && e[2] == 't' && e[3] == ';');
    } else if c == '"' {
        assert(e.len() == 6 && e[0] == '&' && e[1] == 'q' && e[2] == 'u' && e[3] == 'o' && e[4]
            == 't' && e[5] == ';');
    } else if c == '\'' {
        assert(e.len() == 6 && e[0] == '&' && e[1] == '#' && e[2] == 'x' && e[3] == '2' && e[4]
            == '7' && e[5] == ';');
    } else if c == '/' {
        assert(e.len() == 6 && e[0] == '&' && e[1] == '#' && e[2] == 'x' && e[3] == '2' && e[4]
            == 'F' && e[5] == ';');
    }
}

/// Escaped text holds none of `<`, `>`, `"`, `'` and `/`, and `&` only as the
/// first character of an entity.
pub proof fn lemma_escaped_content_is_safe(text: Seq<char>)
    ensures
        forall|i: int|
            0 <= i < escaped_content(text).len() ==> {
                let c = #[trigger] escaped_content(text)[i];
                &&& c != '<' && c != '>' && c != '"' && c != '\'' && c != '/'
                &&& c == '&' ==> entity_at(escaped_content(text), i)
            },
    decreases text.len(),
{
    let out = escaped_content(text);
    if text.len() > 0 {
        let first = entity(text[0]);
        let rest = escaped_content(text.drop_first());
        lemma_escaped_content_is_safe(text.drop_first());
        assert forall|i: int| 0 <= i < out.len() implies {
            let c = #[trigger] out[i];
            &&& c != '<' && c != '>' && c != '"' && c != '\'' && c != '/'
            &&& c == '&' ==> entity_at(out, i)
        } by {
            if i < first.len() {
                lemma_entity_is_safe(text[0], i);
                if out[i] == '&' {
                    assert(out.subrange(i, i + entity(text[0]).len()) =~= first);
                }
            } else {
                let k = i - first.len();
                assert(out[i] == rest[k]);
                if out[i] == '&' {
                    let c = choose|c: char|
                        is_content_special(c) && 0 <= k && k + entity(c).len() <= rest.len()
                            && #[trigger] rest.subrange(k, k + entity(c).len()) == entity(c);
                    assert(out.subrange(i, i + entity(c).len()) =~= rest.subrange(
                        k,
                        k + entity(c).len(),
                    ));
                }
            }
        }
    }
}

} // verus!
