use another_html_builder::{Body, Buffer};

#[test]
fn should_return_inner_value() {
    let buf = Buffer::default().node("a").content(|buf| buf);
    assert_eq!(buf.inner(), "<a></a>");
}

#[test]
fn should_give_node_path() {
    let buf = Buffer::default();
    assert_eq!(buf.current().path(), "$");
    let _buf = buf.node("a").content(|buf| {
        assert_eq!(buf.current().path(), "$ > a");
        buf
    });
}

#[test]
fn should_rollback_after_content() {
    let buffer = Buffer::default().node("a").content(|buf| buf);
    assert!(
        matches!(buffer.current(), Body::Root),
        "found {:?}",
        buffer.current()
    );
}

#[test]
fn simple_html() {
    let html = Buffer::default()
        .doctype()
        .node("html")
        .attr(("lang", "en"))
        .content(|buf| {
            buf.node("head")
                .content(|buf| {
                    let buf = buf.node("meta").attr(("charset", "utf-8")).close();
                    buf.node("meta")
                        .attr(("name", "viewport"))
                        .attr(("content", "width=device-width, initial-scale=1"))
                        .close()
                })
                .node("body")
                .close()
        })
        .into_inner();
    assert_eq!(
        html,
        "<!DOCTYPE html><html lang=\"en\"><head><meta charset=\"utf-8\" /><meta name=\"viewport\" content=\"width=device-width, initial-scale=1\" /></head><body /></html>"
    );
}

#[test]
fn with_special_characters_in_attributes() {
    let html = Buffer::default()
        .node("a")
        .attr(("title", "Let's add a quote \" like this"))
        .attr(("href", "http://example.com?whatever=here"))
        .content(|b| b.text("Click me!"))
        .into_inner();
    assert_eq!(
        html,
        "<a title=\"Let's add a quote \\\" like this\" href=\"http://example.com?whatever=here\">Click me!</a>"
    );
}

#[test]
fn with_special_characters_in_content() {
    let html = Buffer::default()
        .node("p")
        .content(|b| b.text("asd\"weiofew!/<>"))
        .into_inner();
    assert_eq!(html, "<p>asd&quot;weiofew!&#x2F;&lt;&gt;</p>");
}

#[test]
fn with_optional_attributes() {
    let html = Buffer::default()
        .node("p")
        .attr(Some(("foo", "bar")))
        .attr(None::<(&str, &str)>)
        .attr(Some("here"))
        .attr(None::<&str>)
        .close()
        .into_inner();
    assert_eq!(html, "<p foo=\"bar\" here />");
}

#[test]
fn with_attributes() {
    let html = Buffer::default()
        .node("p")
        .attr(("foo", "bar"))
        .attr(("bool", true))
        .attr(("u8", 42u8))
        .attr(("i8", -1i8))
        .close()
        .into_inner();
    assert_eq!(html, "<p foo=\"bar\" bool=\"true\" u8=\"42\" i8=\"-1\" />");
}

#[test]
fn with_conditional_attributes() {
    let html = Buffer::default()
        .node("p")
        .cond_attr(true, ("foo", "bar"))
        .cond_attr(false, ("foo", "baz"))
        .cond_attr(true, "here")
        .cond_attr(false, "not-here")
        .close()
        .into_inner();
    assert_eq!(html, "<p foo=\"bar\" here />");
}

#[test]
fn with_conditional_content() {
    let notification = false;
    let connected = true;
    let html = Buffer::default()
        .node("div")
        .content(|buf| {
            buf.cond(notification, |buf| {
                buf.node("p")
                    .content(|buf| buf.text("You have a notification"))
            })
            .cond(connected, |buf| buf.text("Welcome!"))
        })
        .into_inner();
    assert_eq!(html, "<div>Welcome!</div>");
}

#[test]
fn with_optional_content() {
    let error = Some("This is an error");
    let html = Buffer::default()
        .node("div")
        .content(|buf| buf.optional(error, |buf, msg| buf.text(msg)))
        .into_inner();
    assert_eq!(html, "<div>This is an error</div>");
}

#[test]
fn empty_document() {
    assert_eq!(Buffer::default().into_inner(), "");
    assert_eq!(Buffer::default().inner(), "");
}

#[test]
fn new_keeps_what_the_sink_holds() {
    let html = Buffer::new(String::from("<!-- top -->"))
        .node("br")
        .close()
        .into_inner();
    assert_eq!(html, "<!-- top --><br />");
}

#[test]
fn doctype_alone() {
    assert_eq!(Buffer::default().doctype().into_inner(), "<!DOCTYPE html>");
}

#[test]
fn doctype_then_html_with_body() {
    let html = Buffer::default()
        .doctype()
        .node("html")
        .attr(("lang", "en"))
        .content(|b| b.node("body").close())
        .into_inner();
    assert_eq!(
        html,
        "<!DOCTYPE html><html lang=\"en\"><body /></html>"
    );
}

#[test]
fn quote_in_an_attribute_of_a_closed_element() {
    let html = Buffer::default()
        .node("a")
        .attr(("title", "Let's add a quote \" here"))
        .close()
        .into_inner();
    assert_eq!(html, "<a title=\"Let's add a quote \\\" here\" />");
}

#[test]
fn optional_pair_on_a_closed_element() {
    let html = Buffer::default()
        .node("p")
        .attr(Some(("foo", "bar")))
        .attr(None::<(&str, &str)>)
        .close()
        .into_inner();
    assert_eq!(html, "<p foo=\"bar\" />");
}

#[test]
fn element_without_content() {
    let html = Buffer::default().node("p").close().into_inner();
    assert_eq!(html, "<p />");
}

#[test]
fn element_with_an_attribute() {
    let html = Buffer::default()
        .node("p")
        .attr(("foo", "bar"))
        .close()
        .into_inner();
    assert_eq!(html, "<p foo=\"bar\" />");
}

#[test]
fn element_with_text() {
    let html = Buffer::default()
        .node("p")
        .content(|buf| buf.text("hello"))
        .into_inner();
    assert_eq!(html, "<p>hello</p>");
}

#[test]
fn element_in_an_element() {
    let html = Buffer::default()
        .node("div")
        .content(|buf| buf.node("p").close())
        .into_inner();
    assert_eq!(html, "<div><p /></div>");
}

#[test]
fn condition_that_holds() {
    let is_error = true;
    let html = Buffer::default()
        .cond(is_error, |buf| {
            buf.node("p").content(|buf| buf.text("ERROR!"))
        })
        .into_inner();
    assert_eq!(html, "<p>ERROR!</p>");
}

#[test]
fn condition_that_does_not_hold() {
    let html = Buffer::default()
        .text("a")
        .cond(false, |buf| buf.text("b"))
        .text("c")
        .into_inner();
    assert_eq!(html, "ac");
}

#[test]
fn optional_with_a_value() {
    let value: Option<u8> = Some(42);
    let html = Buffer::default()
        .optional(value, |buf, answer| {
            buf.node("p")
                .content(|buf| buf.text("Answer: ").raw(answer))
        })
        .into_inner();
    assert_eq!(html, "<p>Answer: 42</p>");
}

#[test]
fn optional_without_a_value() {
    let html = Buffer::default()
        .text("a")
        .optional(None::<u8>, |buf, answer| buf.raw(answer))
        .into_inner();
    assert_eq!(html, "a");
}

#[test]
fn raw_is_not_escaped() {
    let html = Buffer::default()
        .raw("<b>&</b>")
        .raw(-3)
        .raw('/')
        .into_inner();
    assert_eq!(html, "<b>&</b>-3/");
}

#[test]
fn text_is_escaped() {
    let html = Buffer::default().text("<b>&</b>").into_inner();
    assert_eq!(html, "&lt;b&gt;&amp;&lt;&#x2F;b&gt;");
}

#[test]
fn path_follows_the_open_elements() {
    let buf = Buffer::default();
    assert_eq!(buf.current().path(), "$");
    let buf = buf.node("html").content(|buf| {
        assert_eq!(buf.current().path(), "$ > html");
        let buf = buf.node("body").attr("x").content(|buf| {
            assert_eq!(buf.current().path(), "$ > html > body");
            let buf = buf.node("hr").close();
            assert_eq!(buf.current().path(), "$ > html > body");
            buf.node("p").content(|buf| {
                assert_eq!(buf.current().path(), "$ > html > body > p");
                buf
            })
        });
        assert_eq!(buf.current().path(), "$ > html");
        buf
    });
    assert_eq!(buf.current().path(), "$");
}

#[test]
fn path_of_a_body_made_by_hand() {
    assert_eq!(Body::Root.path(), "$");
    let inner = Body::Element {
        name: "a",
        parent: Box::new(Body::Element {
            name: "b",
            parent: Box::new(Body::Root),
        }),
    };
    assert_eq!(inner.path(), "$ > b > a");
}

#[test]
fn closing_leads_back_to_the_parent() {
    let buf = Buffer::default().node("a").close();
    assert!(matches!(buf.current(), Body::Root));
    Buffer::default().node("a").content(|buf| {
        let buf = buf.node("b").close();
        assert!(matches!(buf.current(), Body::Element { name: "a", .. }));
        buf
    });
}

#[test]
fn content_of_a_nested_element_leads_back_to_its_parent() {
    Buffer::default().node("a").content(|buf| {
        let buf = buf.node("b").content(|buf| buf.text("x"));
        assert!(matches!(buf.current(), Body::Element { name: "a", .. }));
        buf
    });
}

#[test]
fn callback_that_returns_another_document() {
    let buf = Buffer::default()
        .node("a")
        .content(|_| Buffer::default().text("other"));
    assert!(matches!(buf.current(), Body::Root));
    assert_eq!(buf.inner(), "other");
}

fn count(text: &str, piece: &str) -> usize {
    text.matches(piece).count()
}

#[test]
fn as_many_closing_tags_as_opening_tags() {
    let html = Buffer::default()
        .node("ul")
        .attr(("class", "list"))
        .content(|buf| {
            buf.node("li")
                .content(|buf| buf.text("one").node("br").close())
                .node("li")
                .content(|buf| buf.node("b").content(|buf| buf.text("two")))
                .node("li")
                .close()
        })
        .into_inner();
    assert_eq!(
        html,
        "<ul class=\"list\"><li>one<br /></li><li><b>two</b></li><li /></ul>"
    );
    let opening = count(&html, "<ul") + count(&html, "<li") + count(&html, "<br") + count(&html, "<b>");
    let closing = count(&html, "</") + count(&html, " />");
    assert_eq!(opening, 6);
    assert_eq!(closing, 6);
    assert_eq!(count(&html, "<li>") + count(&html, "<li "), 3);
    assert_eq!(count(&html, "</li>"), 2);
    assert_eq!(count(&html, "</ul>"), 1);
    assert_eq!(count(&html, "</b>"), 1);
}

#[test]
fn infallible_and_fallible_surfaces_agree() {
    let plain = Buffer::default()
        .doctype()
        .node("p")
        .attr(("a", "b"))
        .cond_attr(true, "c")
        .content(|b| {
            b.text("x<y")
                .raw(1)
                .cond(true, |b| b.node("i").close())
                .optional(Some("z"), |b, z| b.text(z))
        })
        .into_inner();
    let tried = Buffer::default()
        .try_doctype()
        .unwrap()
        .try_node("p")
        .unwrap()
        .try_attr(("a", "b"))
        .unwrap()
        .try_cond_attr(true, "c")
        .unwrap()
        .try_content(|b| {
            b.try_text("x<y")?
                .try_raw(1)?
                .try_cond(true, |b| b.try_node("i")?.try_close())?
                .try_optional(Some("z"), |b, z| b.try_text(z))
        })
        .unwrap()
        .into_inner();
    assert_eq!(plain, "<!DOCTYPE html><p a=\"b\" c>x&lt;y1<i />z</p>");
    assert_eq!(tried, plain);
}

#[test]
fn fallible_conditions_that_do_not_hold() {
    let html = Buffer::default()
        .try_cond(false, |b| b.try_text("no"))
        .unwrap()
        .try_optional(None::<&str>, |b, t| b.try_text(t))
        .unwrap()
        .try_node("p")
        .unwrap()
        .try_cond_attr(false, "no")
        .unwrap()
        .try_close()
        .unwrap()
        .into_inner();
    assert_eq!(html, "<p />");
}
