//! Attributes: the two traits by which a name and a value write themselves,
//! the escaping of values, and the four shapes that [`Attribute`] accepts.
use crate::escape::{agrees, keeps, lemma_replace_each_kept, replace_each, write_replaced};
use crate::number::{decimal, signed_decimal, write_decimal, write_signed_decimal};
use crate::prelude::WriterExt;
use vstd::prelude::*;

verus! {

/// What is written for `c` inside a value: `\"` for a double quote, `c`
/// itself for anything else.
pub open spec fn escaped_quote(c: char) -> Seq<char> {
    if c == '"' {
        seq!['\\', '"']
    } else {
        seq![c]
    }
}

/// The table of [`escaped_quote`].
pub open spec fn quotes() -> spec_fn(char) -> Seq<char> {
    |c: char| escaped_quote(c)
}

/// `text` as it is written inside a double-quoted value: each double quote
/// with a backslash in front of it.
pub open spec fn escaped_value(text: Seq<char>) -> Seq<char> {
    replace_each(text, quotes())
}

/// The escape for the byte `b`, if `b` is a double quote.
fn quote_for(b: u8) -> (res: Option<&'static str>)
    ensures
        agrees(quotes(), b, res),
        res is Some <==> b == '"' as u8,
{
    proof {
        reveal_strlit("\\\"");
    }
    if b == '"' as u8 {
        assert("\\\""@ =~= escaped_quote(b as char));
        Some("\\\"")
    } else {
        None
    }
}

/// Writes `value` to `f` as the inside of a double-quoted value: each `"` is
/// replaced by `\"`, everything else is written as it is.
///
/// Nothing is written for an empty `value`. The first write that the sink
/// refuses ends the work, and its error is returned.
pub fn escape<W: WriterExt>(f: &mut W, value: &str) -> (res: Result<(), W::Error>)
    ensures
        res is Ok ==> final(f).written() == old(f).written() + escaped_value(value@),
        W::infallible() ==> res is Ok,
{
    write_replaced(f, value, quote_for, Ghost(quotes()))
}

/// Alias of [`escape`].
#[inline(always)]
pub fn write_escaped_attribute_str<W: WriterExt>(f: &mut W, value: &str) -> (res: Result<
    (),
    W::Error,
>)
    ensures
        res is Ok ==> final(f).written() == old(f).written() + escaped_value(value@),
        W::infallible() ==> res is Ok,
{
    escape(f, value)
}

/// A piece of text that is escaped as a value when it is written.
pub struct EscapedValue<'a>(pub &'a str);

impl EscapedValue<'_> {
    /// Writes the text to `f`, escaped.
    pub fn fmt<W: WriterExt>(&self, f: &mut W) -> (res: Result<(), W::Error>)
        ensures
            res is Ok ==> final(f).written() == old(f).written() + escaped_value(self.0@),
            W::infallible() ==> res is Ok,
    {
        escape(f, self.0)
    }

    /// The escaped text.
    pub fn to_string(&self) -> (res: String)
        ensures
            res@ == escaped_value(self.0@),
    {
        let mut out = String::new();
        self.fmt(&mut out).unwrap();
        out
    }
}

/// Text without a double quote is written as it is.
pub proof fn lemma_escaped_value_of_plain_text(text: Seq<char>)
    requires
        forall|i: int| 0 <= i < text.len() ==> #[trigger] text[i] != '"',
    ensures
        escaped_value(text) == text,
{
    assert forall|i: int| 0 <= i < text.len() implies keeps(quotes(), #[trigger] text[i]) by {
        assert(text[i] != '"');
    }
    lemma_replace_each_kept(text, quotes());
}

/// In an escaped value a backslash stands in front of every double quote.
pub proof fn lemma_escaped_value_is_safe(text: Seq<char>)
    ensures
        forall|i: int|
            0 <= i < escaped_value(text).len() && #[trigger] escaped_value(text)[i] == '"' ==> i
                > 0 && escaped_value(text)[i - 1] == '\\',
    decreases text.len(),
{
    let out = escaped_value(text);
    if text.len() > 0 {
        let first = escaped_quote(text[0]);
        let rest = escaped_value(text.drop_first());
        lemma_escaped_value_is_safe(text.drop_first());
        assert forall|i: int| 0 <= i < out.len() && #[trigger] out[i] == '"' implies i > 0 && out[i
            - 1] == '\\' by {
            if i < first.len() {
                assert(out[i] == first[i] && out[0] == first[0]);
            } else {
                let k = i - first.len();
                assert(out[i] == rest[k] && out[i - 1] == rest[k - 1]);
            }
        }
    }
}

/// The name of an attribute.
///
/// A name is written as it is: nothing in it is escaped.
pub trait AttributeName {
    /// The name as it is written.
    open spec fn name_text(&self) -> Seq<char> {
        arbitrary()
    }

    /// Writes the name to `f`. Only the sink can make this fail.
    fn render<W: WriterExt>(&self, f: &mut W) -> (res: Result<(), W::Error>)
        ensures
            res is Ok ==> final(f).written() == old(f).written() + self.name_text(),
            W::infallible() ==> res is Ok,
    ;
}

impl AttributeName for &str {
    open spec fn name_text(&self) -> Seq<char> {
        self@
    }

    fn render<W: WriterExt>(&self, f: &mut W) -> (res: Result<(), W::Error>) {
        f.write_str(self)
    }
}

/// The value of an attribute.
///
/// A value is written between double quotes, so what it writes must hold no
/// double quote of its own. The implementation for `&str` escapes them.
pub trait AttributeValue {
    /// The value as it is written between the quotes.
    open spec fn value_text(&self) -> Seq<char> {
        arbitrary()
    }

    /// Writes the value to `f`. Only the sink can make this fail.
    fn render<W: WriterExt>(&self, f: &mut W) -> (res: Result<(), W::Error>)
        ensures
            res is Ok ==> final(f).written() == old(f).written() + self.value_text(),
            W::infallible() ==> res is Ok,
    ;
}

impl AttributeValue for &str {
    open spec fn value_text(&self) -> Seq<char> {
        escaped_value(self@)
    }

    fn render<W: WriterExt>(&self, f: &mut W) -> (res: Result<(), W::Error>) {
        EscapedValue(self).fmt(f)
    }
}

/// ` name`, as an attribute without a value is written.
pub open spec fn name_only(name: Seq<char>) -> Seq<char> {
    seq![' '] + name
}

/// ` name="value"`, as an attribute with a value is written.
pub open spec fn name_and_value(name: Seq<char>, value: Seq<char>) -> Seq<char> {
    seq![' '] + name + seq!['=', '"'] + value + seq!['"']
}

#[inline]
pub fn render_attr_name_only<W: WriterExt, N: AttributeName>(f: &mut W, name: &N) -> (res: Result<
    (),
    W::Error,
>)
    ensures
        res is Ok ==> final(f).written() == old(f).written() + name_only(name.name_text()),
        W::infallible() ==> res is Ok,
{
    f.write_char(' ')?;
    name.render(f)
}

#[inline]
pub fn render_attr<W: WriterExt, N: AttributeName, V: AttributeValue>(
    f: &mut W,
    name: &N,
    value: &V,
) -> (res: Result<(), W::Error>)
    ensures
        res is Ok ==> final(f).written() == old(f).written() + name_and_value(
            name.name_text(),
            value.value_text(),
        ),
        W::infallible() ==> res is Ok,
{
    render_attr_name_only(f, name)?;
    f.write_char('=')?;
    f.write_char('"')?;
    value.render(f)?;
    let done = f.write_char('"');
    proof {
        if done is Ok {
            assert(f.written() =~= old(f).written() + name_and_value(
                name.name_text(),
                value.value_text(),
            ));
        }
    }
    done
}

/// What an element takes as an attribute.
///
/// The wrapper writes a name alone, a name with a value, and either of them
/// inside an `Option`, for which `None` writes nothing.
pub struct Attribute<T>(pub T);

/// The shapes of [`Attribute`] that can be written.
pub trait Render {
    /// The attribute as it is written, with the space in front of it.
    spec fn rendered(&self) -> Seq<char>;

    /// Writes the attribute to `f`. Only the sink can make this fail.
    fn fmt<W: WriterExt>(&self, f: &mut W) -> (res: Result<(), W::Error>)
        ensures
            res is Ok ==> final(f).written() == old(f).written() + self.rendered(),
            W::infallible() ==> res is Ok,
    ;
}

impl<N: AttributeName> Render for Attribute<Option<N>> {
    open spec fn rendered(&self) -> Seq<char> {
        match self.0 {
            Some(name) => name_only(name.name_text()),
            None => Seq::empty(),
        }
    }

    fn fmt<W: WriterExt>(&self, f: &mut W) -> (res: Result<(), W::Error>) {
        if let Some(ref inner) = self.0 {
            render_attr_name_only(f, inner)
        } else {
            Ok(())
        }
    }
}

impl<N: AttributeName> Render for Attribute<N> {
    open spec fn rendered(&self) -> Seq<char> {
        name_only(self.0.name_text())
    }

    fn fmt<W: WriterExt>(&self, f: &mut W) -> (res: Result<(), W::Error>) {
        render_attr_name_only(f, &self.0)
    }
}

impl<N: AttributeName, V: AttributeValue> Render for Attribute<Option<(N, V)>> {
    open spec fn rendered(&self) -> Seq<char> {
        match self.0 {
            Some((name, value)) => name_and_value(name.name_text(), value.value_text()),
            None => Seq::empty(),
        }
    }

    fn fmt<W: WriterExt>(&self, f: &mut W) -> (res: Result<(), W::Error>) {
        if let Some((name, value)) = &self.0 {
            render_attr(f, name, value)
        } else {
            Ok(())
        }
    }
}

impl<N: AttributeName, V: AttributeValue> Render for Attribute<(N, V)> {
    open spec fn rendered(&self) -> Seq<char> {
        name_and_value(self.0.0.name_text(), self.0.1.value_text())
    }

    fn fmt<W: WriterExt>(&self, f: &mut W) -> (res: Result<(), W::Error>) {
        let (name, value) = &self.0;
        render_attr(f, name, value)
    }
}

impl AttributeValue for bool {
    open spec fn value_text(&self) -> Seq<char> {
        if *self {
            seq!['t', 'r', 'u', 'e']
        } else {
            seq!['f', 'a', 'l', 's', 'e']
        }
    }

    fn render<W: WriterExt>(&self, f: &mut W) -> (res: Result<(), W::Error>) {
        proof {
            reveal_strlit("true");
            reveal_strlit("false");
        }
        if *self {
            f.write_str("true")
        } else {
            f.write_str("false")
        }
    }
}

impl AttributeValue for u8 {
    open spec fn value_text(&self) -> Seq<char> {
        decimal(*self as nat)
    }

    fn render<W: WriterExt>(&self, f: &mut W) -> (res: Result<(), W::Error>) {
        write_decimal(f, *self as u64)
    }
}

impl AttributeValue for u16 {
    open spec fn value_text(&self) -> Seq<char> {
        decimal(*self as nat)
    }

    fn render<W: WriterExt>(&self, f: &mut W) -> (res: Result<(), W::Error>) {
        write_decimal(f, *self as u64)
    }
}

impl AttributeValue for u32 {
    open spec fn value_text(&self) -> Seq<char> {
        decimal(*self as nat)
    }

    fn render<W: WriterExt>(&self, f: &mut W) -> (res: Result<(), W::Error>) {
        write_decimal(f, *self as u64)
    }
}

impl AttributeValue for u64 {
    open spec fn value_text(&self) -> Seq<char> {
        decimal(*self as nat)
    }

    fn render<W: WriterExt>(&self, f: &mut W) -> (res: Result<(), W::Error>) {
        write_decimal(f, *self)
    }
}

impl AttributeValue for usize {
    open spec fn value_text(&self) -> Seq<char> {
        decimal(*self as nat)
    }

    fn render<W: WriterExt>(&self, f: &mut W) -> (res: Result<(), W::Error>) {
        write_decimal(f, *self as u64)
    }
}

impl AttributeValue for i8 {
    open spec fn value_text(&self) -> Seq<char> {
        signed_decimal(*self as int)
    }

    fn render<W: WriterExt>(&self, f: &mut W) -> (res: Result<(), W::Error>) {
        write_signed_decimal(f, *self as i64)
    }
}

impl AttributeValue for i16 {
    open spec fn value_text(&self) -> Seq<char> {
        signed_decimal(*self as int)
    }

    fn render<W: WriterExt>(&self, f: &mut W) -> (res: Result<(), W::Error>) {
        write_signed_decimal(f, *self as i64)
    }
}

impl AttributeValue for i32 {
    open spec fn value_text(&self) -> Seq<char> {
        signed_decimal(*self as int)
    }

    fn render<W: WriterExt>(&self, f: &mut W) -> (res: Result<(), W::Error>) {
        write_signed_decimal(f, *self as i64)
    }
}

impl AttributeValue for i64 {
    open spec fn value_text(&self) -> Seq<char> {
        signed_decimal(*self as int)
    }

    fn render<W: WriterExt>(&self, f: &mut W) -> (res: Result<(), W::Error>) {
        write_signed_decimal(f, *self)
    }
}

impl AttributeValue for isize {
    open spec fn value_text(&self) -> Seq<char> {
        signed_decimal(*self as int)
    }

    fn render<W: WriterExt>(&self, f: &mut W) -> (res: Result<(), W::Error>) {
        write_signed_decimal(f, *self as i64)
    }
}

} // verus!
