//! The builder: a sink together with the place in the document that is being
//! written.
//!
//! A [`Buffer`] over a [`Body`] stands between tags: it takes elements, text
//! and raw content. A [`Buffer`] over an [`Element`] stands inside an opening
//! tag: it takes attributes, and is then closed or given content. Each step
//! consumes the builder and returns the one for the place that follows.
use crate::attribute::{Attribute, Render};
use crate::content::{escape_content, escaped_content};
use crate::prelude::WriterExt;
use crate::tags::{
    closing, lemma_closing_tag_matches, lemma_open_after_push, lemma_tags_balance, open_after,
    opening, Tag,
};
use vstd::prelude::*;
use vstd::string::*;

verus! {

/// The inside of an element, or the top level of the document.
#[derive(Debug)]
pub enum Body<'a> {
    /// The top level. It has no name and no parent.
    Root,
    /// The inside of the element `name`, which stands in `parent`.
    Element { name: &'a str, parent: Box<Body<'a>> },
}

/// An element whose opening tag is being written.
#[derive(Debug)]
pub struct Element<'a> {
    parent: Body<'a>,
    name: &'a str,
}

/// A place in the document: what a [`Buffer`] keeps beside its sink.
pub trait Context {
    /// The names of the elements that are open at this place, outermost first.
    spec fn names(&self) -> Seq<Seq<char>>;
}

impl<'a> Body<'a> {
    /// The path of this place.
    ///
    /// It is meant for diagnostics, and is no CSS selector.
    pub fn path(&self) -> (res: String)
        ensures
            res@ == path_of(self.names()),
        decreases self,
    {
        match self {
            Body::Root => {
                proof {
                    reveal_strlit("$");
                }
                "$".to_owned()
            },
            Body::Element { name, parent } => {
                let mut parent_path = parent.path();
                proof {
                    reveal_strlit(" > ");
                }
                parent_path.append(" > ");
                parent_path.append(name);
                assert(self.names().drop_last() =~= parent.names());
                parent_path
            },
        }
    }
}

/// The path of the place inside the elements `names`: `$` for the top level,
/// then ` > ` and a name for each element, outermost first.
pub open spec fn path_of(names: Seq<Seq<char>>) -> Seq<char>
    decreases names.len(),
{
    if names.len() == 0 {
        seq!['$']
    } else {
        path_of(names.drop_last()) + seq![' ', '>', ' '] + names.last()
    }
}

impl<'a> Context for Body<'a> {
    open spec fn names(&self) -> Seq<Seq<char>>
        decreases self,
    {
        match self {
            Body::Root => Seq::empty(),
            Body::Element { name, parent } => parent.names().push(name@),
        }
    }
}

impl<'a> Context for Element<'a> {
    closed spec fn names(&self) -> Seq<Seq<char>> {
        self.parent.names().push(self.name@)
    }
}

/// A sink and the place in the document that is written next.
pub struct Buffer<W: WriterExt, C: Context> {
    inner: W,
    current: C,
    tags: Ghost<Seq<Tag>>,
}

impl<W: WriterExt, C: Context> Buffer<W, C> {
    #[verifier::type_invariant]
    spec fn tags_lead_here(self) -> bool {
        open_after(self.tags@) == Some(self.current.names())
    }

    /// The sink.
    pub closed spec fn sink(self) -> W {
        self.inner
    }

    /// Everything the sink has accepted so far.
    pub open spec fn written(self) -> Seq<char> {
        self.sink().written()
    }

    /// The place that is written next.
    pub closed spec fn context(self) -> C {
        self.current
    }

    /// The names of the elements that are open, outermost first.
    pub open spec fn names(self) -> Seq<Seq<char>> {
        self.context().names()
    }

    /// The tags written since the builder was made, in the order in which
    /// they were written.
    pub closed spec fn tags(self) -> Seq<Tag> {
        self.tags@
    }

    /// Whether the tags written so far are well nested and leave open exactly
    /// the elements around the current place. This holds of every builder.
    pub open spec fn well_nested(self) -> bool {
        open_after(self.tags()) == Some(self.names())
    }

    /// The place that is written next.
    pub fn current(&self) -> (res: &C)
        ensures
            *res == self.context(),
            self.well_nested(),
    {
        proof {
            use_type_invariant(self);
        }
        &self.current
    }
}

impl<W: WriterExt> Buffer<W, Body<'static>> {
    /// A builder that writes to `buffer`, at the top level of a document.
    pub fn new(buffer: W) -> (res: Self)
        ensures
            res.sink() == buffer,
            res.context() == Body::Root,
            res.tags() == Seq::<Tag>::empty(),
    {
        Buffer { inner: buffer, current: Body::Root, tags: Ghost(Seq::empty()) }
    }
}

impl<W: WriterExt> Buffer<W, Body<'_>> {
    /// Gives up the builder for its sink.
    pub fn into_inner(self) -> (res: W)
        ensures
            res == self.sink(),
            self.well_nested(),
    {
        proof {
            use_type_invariant(&self);
        }
        self.inner
    }
}

impl Buffer<String, Body<'_>> {
    /// What has been written so far.
    pub fn inner(&self) -> (res: &str)
        ensures
            res@ == self.written(),
    {
        self.inner.as_str()
    }
}

impl Default for Buffer<String, Body<'static>> {
    fn default() -> (res: Self)
        ensures
            res.sink()@ == Seq::<char>::empty(),
            res.context() == Body::Root,
            res.tags() == Seq::<Tag>::empty(),
    {
        Self::new(String::new())
    }
}

impl<W: WriterExt> Buffer<W, Body<'_>> {
    /// Writes the HTML doctype.
    pub fn doctype(self) -> (res: Self)
        requires
            W::infallible(),
        ensures
            res.written() == self.written() + "<!DOCTYPE html>"@,
            res.context() == self.context(),
            res.tags() == self.tags(),
    {
        proof {
            use_type_invariant(&self);
        }
        let Buffer { mut inner, current, tags } = self;
        inner.write_str("<!DOCTYPE html>").unwrap();
        Buffer { inner, current, tags }
    }

    /// Writes the HTML doctype, unless the sink refuses it.
    pub fn try_doctype(self) -> (res: Result<Self, W::Error>)
        ensures
            res matches Ok(next) ==> {
                &&& next.written() == self.written() + "<!DOCTYPE html>"@
                &&& next.context() == self.context()
                &&& next.tags() == self.tags()
            },
            W::infallible() ==> res is Ok,
    {
        proof {
            use_type_invariant(&self);
        }
        let Buffer { mut inner, current, tags } = self;
        inner.write_str("<!DOCTYPE html>")?;
        Ok(Buffer { inner, current, tags })
    }
}

impl<'a, W: WriterExt> Buffer<W, Body<'a>> {
    /// Applies `children` where `condition` holds, and returns the builder as
    /// it is where it does not.
    pub fn cond<F>(self, condition: bool, children: F) -> (res: Buffer<W, Body<'a>>) where
        F: FnOnce(Buffer<W, Body>) -> Buffer<W, Body>,

        requires
            condition ==> call_requires(children, (self,)),
        ensures
            condition ==> call_ensures(children, (self,), res),
            !condition ==> res == self,
    {
        if condition {
            children(self)
        } else {
            self
        }
    }

    /// Applies `children` where `condition` holds, and returns the builder as
    /// it is where it does not.
    pub fn try_cond<F>(self, condition: bool, children: F) -> (res: Result<
        Buffer<W, Body<'a>>,
        W::Error,
    >) where F: FnOnce(Buffer<W, Body>) -> Result<Buffer<W, Body>, W::Error>
        requires
            condition ==> call_requires(children, (self,)),
        ensures
            condition ==> call_ensures(children, (self,), res),
            !condition ==> res == Ok::<Buffer<W, Body<'a>>, W::Error>(self),
    {
        if condition {
            children(self)
        } else {
            Ok(self)
        }
    }

    /// Applies `children` to the builder and to what `value` holds, and
    /// returns the builder as it is where `value` holds nothing.
    pub fn optional<V, F>(self, value: Option<V>, children: F) -> (res: Buffer<W, Body<'a>>) where
        F: FnOnce(Buffer<W, Body>, V) -> Buffer<W, Body>,

        requires
            value matches Some(inner) ==> call_requires(children, (self, inner)),
        ensures
            value matches Some(inner) ==> call_ensures(children, (self, inner), res),
            value is None ==> res == self,
    {
        if let Some(inner) = value {
            children(self, inner)
        } else {
            self
        }
    }

    /// Applies `children` to the builder and to what `value` holds, and
    /// returns the builder as it is where `value` holds nothing.
    pub fn try_optional<V, F>(self, value: Option<V>, children: F) -> (res: Result<
        Buffer<W, Body<'a>>,
        W::Error,
    >) where F: FnOnce(Buffer<W, Body>, V) -> Result<Buffer<W, Body>, W::Error>
        requires
            value matches Some(inner) ==> call_requires(children, (self, inner)),
        ensures
            value matches Some(inner) ==> call_ensures(children, (self, inner), res),
            value is None ==> res == Ok::<Buffer<W, Body<'a>>, W::Error>(self),
    {
        if let Some(inner) = value {
            children(self, inner)
        } else {
            Ok(self)
        }
    }

    /// Opens the element `tag`.
    ///
    /// The builder that is returned takes attributes, and is then closed or
    /// given content.
    pub fn node(self, tag: &'a str) -> (res: Buffer<W, Element<'a>>)
        requires
            W::infallible(),
        ensures
            res.written() == self.written() + seq!['<'] + tag@,
            res.names() == self.names().push(tag@),
            res.tags() == self.tags().push(Tag::Open(tag@)),
            res.well_nested(),
    {
        proof {
            use_type_invariant(&self);
            lemma_open_after_push(self.tags@, Tag::Open(tag@));
        }
        let Buffer { mut inner, current, tags } = self;
        inner.write_char('<').unwrap();
        inner.write_str(tag).unwrap();
        Buffer {
            inner,
            current: Element { name: tag, parent: current },
            tags: Ghost(tags@.push(Tag::Open(tag@))),
        }
    }

    /// Opens the element `tag`, unless the sink refuses it.
    pub fn try_node(self, tag: &'a str) -> (res: Result<Buffer<W, Element<'a>>, W::Error>)
        ensures
            res matches Ok(next) ==> {
                &&& next.written() == self.written() + seq!['<'] + tag@
                &&& next.names() == self.names().push(tag@)
                &&& next.tags() == self.tags().push(Tag::Open(tag@))
                &&& next.well_nested()
            },
            W::infallible() ==> res is Ok,
    {
        proof {
            use_type_invariant(&self);
            lemma_open_after_push(self.tags@, Tag::Open(tag@));
        }
        let Buffer { mut inner, current, tags } = self;
        inner.write_char('<')?;
        inner.write_str(tag)?;
        Ok(
            Buffer {
                inner,
                current: Element { name: tag, parent: current },
                tags: Ghost(tags@.push(Tag::Open(tag@))),
            },
        )
    }

    /// Writes `value` as its `Display` gives it, without escaping anything.
    pub fn raw<V: std::fmt::Display>(self, value: V) -> (res: Self)
        requires
            W::infallible(),
        ensures
            exists|text: String| #[trigger]
                to_string_from_display_ensures::<V>(&value, text) && res.written()
                    == self.written() + text@,
            res.context() == self.context(),
            res.tags() == self.tags(),
    {
        proof {
            use_type_invariant(&self);
        }
        let Buffer { mut inner, current, tags } = self;
        inner.write(value).unwrap();
        Buffer { inner, current, tags }
    }

    /// Writes `value` as its `Display` gives it, without escaping anything,
    /// unless the sink refuses it.
    pub fn try_raw<V: std::fmt::Display>(self, value: V) -> (res: Result<Self, W::Error>)
        ensures
            res matches Ok(next) ==> {
                &&& exists|text: String| #[trigger]
                    to_string_from_display_ensures::<V>(&value, text) && next.written()
                        == self.written() + text@
                &&& next.context() == self.context()
                &&& next.tags() == self.tags()
            },
            W::infallible() ==> res is Ok,
    {
        proof {
            use_type_invariant(&self);
        }
        let Buffer { mut inner, current, tags } = self;
        inner.write(value)?;
        Ok(Buffer { inner, current, tags })
    }

    /// Writes `content` as text, escaped.
    pub fn text(self, content: &str) -> (res: Self)
        requires
            W::infallible(),
        ensures
            res.written() == self.written() + escaped_content(content@),
            res.context() == self.context(),
            res.tags() == self.tags(),
    {
        proof {
            use_type_invariant(&self);
        }
        let Buffer { mut inner, current, tags } = self;
        escape_content(&mut inner, content).unwrap();
        Buffer { inner, current, tags }
    }

    /// Writes `content` as text, escaped, unless the sink refuses it.
    pub fn try_text(self, content: &str) -> (res: Result<Self, W::Error>)
        ensures
            res matches Ok(next) ==> {
                &&& next.written() == self.written() + escaped_content(content@)
                &&& next.context() == self.context()
                &&& next.tags() == self.tags()
            },
            W::infallible() ==> res is Ok,
    {
        proof {
            use_type_invariant(&self);
        }
        let Buffer { mut inner, current, tags } = self;
        escape_content(&mut inner, content)?;
        Ok(Buffer { inner, current, tags })
    }
}

impl<'a, W: WriterExt> Buffer<W, Element<'a>> {
    /// Whether `child` is the builder that [`Buffer::content`] makes from
    /// `self` for its callback: `>` is written, and the place is the inside of
    /// the element.
    pub open spec fn begins(self, child: Buffer<W, Body<'a>>) -> bool {
        &&& child.written() == self.written().push('>')
        &&& child.names() == self.names()
        &&& child.tags() == self.tags()
    }

    /// Writes an attribute.
    ///
    /// `attr` is a name, a name and a value, or either of them in an
    /// `Option`: see [`Attribute`].
    pub fn attr<T>(self, attr: T) -> (res: Self) where Attribute<T>: Render
        requires
            W::infallible(),
        ensures
            res.written() == self.written() + Attribute(attr).rendered(),
            res.context() == self.context(),
            res.tags() == self.tags(),
    {
        proof {
            use_type_invariant(&self);
        }
        let Buffer { mut inner, current, tags } = self;
        Attribute(attr).fmt(&mut inner).unwrap();
        Buffer { inner, current, tags }
    }

    /// Writes an attribute, unless the sink refuses it.
    #[inline]
    pub fn try_attr<T>(self, attr: T) -> (res: Result<Self, W::Error>) where Attribute<T>: Render
        ensures
            res matches Ok(next) ==> {
                &&& next.written() == self.written() + Attribute(attr).rendered()
                &&& next.context() == self.context()
                &&& next.tags() == self.tags()
            },
            W::infallible() ==> res is Ok,
    {
        proof {
            use_type_invariant(&self);
        }
        let Buffer { mut inner, current, tags } = self;
        Attribute(attr).fmt(&mut inner)?;
        Ok(Buffer { inner, current, tags })
    }

    /// Writes an attribute where `condition` holds.
    #[inline]
    pub fn cond_attr<T>(self, condition: bool, attr: T) -> (res: Self) where Attribute<T>: Render
        requires
            condition ==> W::infallible(),
        ensures
            condition ==> res.written() == self.written() + Attribute(attr).rendered(),
            !condition ==> res.written() == self.written(),
            res.context() == self.context(),
            res.tags() == self.tags(),
    {
        if condition {
            self.attr(attr)
        } else {
            self
        }
    }

    /// Writes an attribute where `condition` holds, unless the sink refuses
    /// it.
    #[inline]
    pub fn try_cond_attr<T>(self, condition: bool, attr: T) -> (res: Result<
        Self,
        W::Error,
    >) where Attribute<T>: Render
        ensures
            res matches Ok(next) ==> {
                &&& condition ==> next.written() == self.written() + Attribute(attr).rendered()
                &&& !condition ==> next.written() == self.written()
                &&& next.context() == self.context()
                &&& next.tags() == self.tags()
            },
            !condition || W::infallible() ==> res is Ok,
    {
        if condition {
            self.try_attr(attr)
        } else {
            Ok(self)
        }
    }

    /// Ends the element without content: writes ` />`.
    pub fn close(self) -> (res: Buffer<W, Body<'a>>)
        requires
            W::infallible(),
        ensures
            res.written() == self.written() + seq![' ', '/', '>'],
            res.names() == self.names().drop_last(),
            res.tags() == self.tags().push(Tag::Close(self.names().last())),
            res.well_nested(),
    {
        proof {
            use_type_invariant(&self);
            lemma_open_after_push(self.tags@, Tag::Close(self.current.name@));
            reveal_strlit(" />");
            assert(self.names().drop_last() =~= self.current.parent.names());
        }
        let Buffer { mut inner, current, tags } = self;
        inner.write_str(" />").unwrap();
        Buffer { inner, current: current.parent, tags: Ghost(tags@.push(Tag::Close(current.name@))) }
    }

    /// Ends the element without content, unless the sink refuses it.
    pub fn try_close(self) -> (res: Result<Buffer<W, Body<'a>>, W::Error>)
        ensures
            res matches Ok(next) ==> {
                &&& next.written() == self.written() + seq![' ', '/', '>']
                &&& next.names() == self.names().drop_last()
                &&& next.tags() == self.tags().push(Tag::Close(self.names().last()))
                &&& next.well_nested()
            },
            W::infallible() ==> res is Ok,
    {
        proof {
            use_type_invariant(&self);
            lemma_open_after_push(self.tags@, Tag::Close(self.current.name@));
            reveal_strlit(" />");
            assert(self.names().drop_last() =~= self.current.parent.names());
        }
        let Buffer { mut inner, current, tags } = self;
        inner.write_str(" />")?;
        Ok(
            Buffer {
                inner,
                current: current.parent,
                tags: Ghost(tags@.push(Tag::Close(current.name@))),
            },
        )
    }

    /// Ends the opening tag, lets `children` write the content, and writes
    /// the closing tag.
    ///
    /// `children` gets a builder for the inside of the element. The closing
    /// tag bears the name of the innermost element that is open in the builder
    /// that `children` returns, and that element is then closed. Where
    /// `children` returns a builder at the top level, nothing is written after
    /// it.
    pub fn content<F>(self, children: F) -> (res: Buffer<W, Body<'a>>) where
        F: FnOnce(Buffer<W, Body>) -> Buffer<W, Body>,

        requires
            W::infallible(),
            forall|child: Buffer<W, Body<'a>>|
                self.begins(child) ==> call_requires(children, (child,)),
        ensures
            exists|child: Buffer<W, Body<'a>>, inner: Buffer<W, Body<'a>>|
                self.begins(child) && #[trigger] call_ensures(children, (child,), inner)
                    && inner.ends(res),
            res.well_nested(),
    {
        proof {
            use_type_invariant(&self);
        }
        let Buffer { mut inner, current, tags } = self;
        inner.write_char('>').unwrap();
        let child_buffer = Buffer {
            inner,
            current: Body::Element { name: current.name, parent: Box::new(current.parent) },
            tags,
        };
        let ghost child = child_buffer;
        assert(self.begins(child));
        let last = children(child_buffer);
        proof {
            use_type_invariant(&last);
        }
        let Buffer { mut inner, current, tags } = last;
        match current {
            Body::Element { name, parent } => {
                inner.write_str("</").unwrap();
                inner.write_str(name).unwrap();
                inner.write_char('>').unwrap();
                proof {
                    reveal_strlit("</");
                    lemma_open_after_push(tags@, Tag::Close(name@));
                    assert(last.names().drop_last() =~= parent.names());
                    assert(inner.written() =~= last.written() + seq!['<', '/'] + name@ + seq!['>']);
                }
                Buffer { inner, current: *parent, tags: Ghost(tags@.push(Tag::Close(name@))) }
            },
            // The callback returned a builder at the top level: nothing is
            // open that could be closed.
            Body::Root => Buffer { inner, current: Body::Root, tags },
        }
    }

    /// Ends the opening tag, lets `children` write the content, and writes
    /// the closing tag, unless the sink refuses a write or `children` fails.
    ///
    /// This succeeds wherever the sink cannot fail and `children` does not.
    pub fn try_content<F>(self, children: F) -> (res: Result<Buffer<W, Body<'a>>, W::Error>) where
        F: FnOnce(Buffer<W, Body>) -> Result<Buffer<W, Body>, W::Error>,

        requires
            forall|child: Buffer<W, Body<'a>>|
                self.begins(child) ==> call_requires(children, (child,)),
        ensures
            res matches Ok(after) ==> after.well_nested() && exists|
                child: Buffer<W, Body<'a>>,
                inner: Buffer<W, Body<'a>>,
            |
                self.begins(child) && #[trigger] call_ensures(
                    children,
                    (child,),
                    Ok::<Buffer<W, Body<'a>>, W::Error>(inner),
                ) && inner.ends(after),
            W::infallible() && (forall|
                child: Buffer<W, Body<'a>>,
                out: Result<Buffer<W, Body<'a>>, W::Error>,
            |
                self.begins(child) && #[trigger] call_ensures(children, (child,), out)
                    ==> out is Ok) ==> res is Ok,
    {
        proof {
            use_type_invariant(&self);
        }
        let Buffer { mut inner, current, tags } = self;
        inner.write_char('>')?;
        let child_buffer = Buffer {
            inner,
            current: Body::Element { name: current.name, parent: Box::new(current.parent) },
            tags,
        };
        let ghost child = child_buffer;
        assert(self.begins(child));
        let last = children(child_buffer)?;
        proof {
            use_type_invariant(&last);
        }
        let Buffer { mut inner, current, tags } = last;
        match current {
            Body::Element { name, parent } => {
                inner.write_str("</")?;
                inner.write_str(name)?;
                inner.write_char('>')?;
                proof {
                    reveal_strlit("</");
                    lemma_open_after_push(tags@, Tag::Close(name@));
                    assert(last.names().drop_last() =~= parent.names());
                    assert(inner.written() =~= last.written() + seq!['<', '/'] + name@ + seq!['>']);
                }
                Ok(Buffer { inner, current: *parent, tags: Ghost(tags@.push(Tag::Close(name@))) })
            },
            // The callback returned a builder at the top level: nothing is
            // open that could be closed.
            Body::Root => Ok(Buffer { inner, current: Body::Root, tags }),
        }
    }
}

impl<'a, W: WriterExt> Buffer<W, Body<'a>> {
    /// Whether `after` is what [`Buffer::content`] makes of `self`, the builder
    /// that its callback returned: the closing tag of the innermost open
    /// element is written and that element is closed; at the top level
    /// nothing is done.
    pub open spec fn ends(self, after: Buffer<W, Body<'a>>) -> bool {
        if self.names().len() > 0 {
            &&& after.written() == self.written() + seq!['<', '/'] + self.names().last() + seq![
                '>',
            ]
            &&& after.names() == self.names().drop_last()
            &&& after.tags() == self.tags().push(Tag::Close(self.names().last()))
        } else {
            after == self
        }
    }
}

/// The top level is the place where no element is open.
pub proof fn lemma_root_has_no_names(body: Body<'_>)
    ensures
        body is Root <==> body.names().len() == 0,
{
    match body {
        Body::Element { name, parent } => {
            assert(body.names() == parent.names().push(name@));
        },
        Body::Root => {},
    }
}

/// An element that is given content leads back to the place where it was
/// opened, provided that the callback leaves open what it found open: the
/// closing tag then bears the name under which the element was opened, and
/// an element opened at the top level ends at the top level.
pub proof fn lemma_content_returns<'a, W: WriterExt>(
    start: Buffer<W, Body<'a>>,
    tag: Seq<char>,
    opened: Buffer<W, Element<'a>>,
    child: Buffer<W, Body<'a>>,
    inner: Buffer<W, Body<'a>>,
    after: Buffer<W, Body<'a>>,
)
    requires
        opened.names() == start.names().push(tag),
        opened.begins(child),
        inner.names() == child.names(),
        inner.ends(after),
    ensures
        after.written() == inner.written() + seq!['<', '/'] + tag + seq!['>'],
        after.names() == start.names(),
        start.context() is Root ==> after.context() is Root,
{
    lemma_root_has_no_names(start.context());
    lemma_root_has_no_names(after.context());
}

/// At the top level the builder has written as many opening tags as closing
/// tags, and each closing tag bears the name of the element that it ends.
pub proof fn lemma_balanced_at_root<'a, W: WriterExt>(buffer: Buffer<W, Body<'a>>)
    requires
        buffer.well_nested(),
        buffer.context() is Root,
    ensures
        opening(buffer.tags()) == closing(buffer.tags()),
        forall|at: int|
            0 <= at < buffer.tags().len() && #[trigger] buffer.tags()[at] is Close ==> (open_after(
                buffer.tags().take(at),
            ) matches Some(open) && open.len() > 0 && open.last() == buffer.tags()[at]->Close_0),
{
    lemma_root_has_no_names(buffer.context());
    lemma_tags_balance(buffer.tags());
    assert forall|at: int|
        0 <= at < buffer.tags().len() && #[trigger] buffer.tags()[at] is Close implies (open_after(
        buffer.tags().take(at),
    ) matches Some(open) && open.len() > 0 && open.last() == buffer.tags()[at]->Close_0) by {
        lemma_closing_tag_matches(buffer.tags(), at);
    }
}

} // verus!
