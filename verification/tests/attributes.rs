use another_html_builder::attribute::{
    render_attr, render_attr_name_only, Attribute, AttributeName, AttributeValue, EscapedValue,
    Render,
};
use another_html_builder::number::{write_decimal, write_signed_decimal};
use another_html_builder::prelude::WriterExt;
use another_html_builder::Buffer;

fn written<T>(attr: T) -> String
where
    Attribute<T>: Render,
{
    let mut out = String::new();
    Attribute(attr).fmt(&mut out).unwrap();
    out
}

#[test]
fn name_alone() {
    assert_eq!(written("disabled"), " disabled");
}

#[test]
fn name_with_value() {
    assert_eq!(written(("class", "big")), " class=\"big\"");
}

#[test]
fn optional_name() {
    assert_eq!(written(Some("disabled")), " disabled");
    assert_eq!(written(None::<&str>), "");
}

#[test]
fn optional_name_with_value() {
    assert_eq!(written(Some(("class", "big"))), " class=\"big\"");
    assert_eq!(written(None::<(&str, &str)>), "");
}

#[test]
fn value_is_escaped_and_name_is_not() {
    assert_eq!(written(("a\"b", "c\"d")), " a\"b=\"c\\\"d\"");
    assert_eq!(written(("t", "<&>")), " t=\"<&>\"");
}

#[test]
fn empty_value() {
    assert_eq!(written(("alt", "")), " alt=\"\"");
}

#[test]
fn boolean_values() {
    assert_eq!(written(("a", true)), " a=\"true\"");
    assert_eq!(written(("a", false)), " a=\"false\"");
}

#[test]
fn unsigned_values() {
    assert_eq!(written(("n", 0u8)), " n=\"0\"");
    assert_eq!(written(("n", 9u8)), " n=\"9\"");
    assert_eq!(written(("n", 10u8)), " n=\"10\"");
    assert_eq!(written(("n", 255u8)), " n=\"255\"");
    assert_eq!(written(("n", 65535u16)), " n=\"65535\"");
    assert_eq!(written(("n", 4294967295u32)), " n=\"4294967295\"");
    assert_eq!(written(("n", u64::MAX)), " n=\"18446744073709551615\"");
    assert_eq!(written(("n", 1000usize)), " n=\"1000\"");
}

#[test]
fn signed_values() {
    assert_eq!(written(("n", 0i8)), " n=\"0\"");
    assert_eq!(written(("n", -128i8)), " n=\"-128\"");
    assert_eq!(written(("n", 127i8)), " n=\"127\"");
    assert_eq!(written(("n", -32768i16)), " n=\"-32768\"");
    assert_eq!(written(("n", -2147483648i32)), " n=\"-2147483648\"");
    assert_eq!(written(("n", 42)), " n=\"42\"");
    assert_eq!(written(("n", i64::MIN)), " n=\"-9223372036854775808\"");
    assert_eq!(written(("n", i64::MAX)), " n=\"9223372036854775807\"");
    assert_eq!(written(("n", -7isize)), " n=\"-7\"");
}

#[test]
fn decimal_notation() {
    for n in [0u64, 1, 9, 10, 11, 99, 100, 101, 12345, 1 << 40, u64::MAX] {
        let mut out = String::new();
        write_decimal(&mut out, n).unwrap();
        assert_eq!(out, n.to_string());
    }
    for n in [0i64, 1, -1, 9, -9, 10, -10, 1234, -1234, i64::MAX, i64::MIN, i64::MIN + 1] {
        let mut out = String::new();
        write_signed_decimal(&mut out, n).unwrap();
        assert_eq!(out, n.to_string());
    }
}

#[test]
fn rendering_functions() {
    let mut out = String::from("<a");
    render_attr_name_only(&mut out, &"x").unwrap();
    assert_eq!(out, "<a x");
    render_attr(&mut out, &"y", &"1\"2").unwrap();
    assert_eq!(out, "<a x y=\"1\\\"2\"");
    render_attr(&mut out, &"z", &3u16).unwrap();
    assert_eq!(out, "<a x y=\"1\\\"2\" z=\"3\"");
}

#[test]
fn all_the_shapes_of_an_attribute() {
    let html = Buffer::default()
        .node("p")
        .attr("single")
        .attr(("hello", "world"))
        .attr(("number", 42))
        .attr(Some(("foo", "bar")))
        .attr(None::<(&str, &str)>)
        .attr(Some("here"))
        .attr(None::<&str>)
        .close()
        .into_inner();
    assert_eq!(
        html,
        "<p single hello=\"world\" number=\"42\" foo=\"bar\" here />"
    );
}

#[test]
fn attributes_of_every_kind_on_a_div() {
    let html = Buffer::default()
        .node("div")
        .attr("name-only")
        .attr(("name", "value"))
        .attr(Some(("other", "value")))
        .attr(("with-number", 42))
        .close()
        .into_inner();
    assert_eq!(
        html,
        "<div name-only name=\"value\" other=\"value\" with-number=\"42\" />"
    );
}

enum Lang {
    En,
    Fr,
}

impl AttributeValue for Lang {
    fn render<W: WriterExt>(&self, f: &mut W) -> Result<(), W::Error> {
        f.write_str(match self {
            Self::En => "en",
            Self::Fr => "fr",
        })
    }
}

struct ClassNames<'a>(&'a [&'static str]);

impl AttributeValue for ClassNames<'_> {
    fn render<W: WriterExt>(&self, f: &mut W) -> Result<(), W::Error> {
        for (index, inner) in self.0.iter().enumerate() {
            if index > 0 {
                f.write_char(' ')?;
            }
            EscapedValue(inner).fmt(f)?;
        }
        Ok(())
    }
}

struct Data(&'static str);

impl AttributeName for Data {
    fn render<W: WriterExt>(&self, f: &mut W) -> Result<(), W::Error> {
        f.write_str("data-")?;
        f.write_str(self.0)
    }
}

#[test]
fn values_of_a_type_of_the_caller() {
    assert_eq!(written(("lang", Lang::En)), " lang=\"en\"");
    let html = Buffer::default()
        .doctype()
        .node("html")
        .attr(("lang", Lang::Fr))
        .content(|buf| {
            buf.node("head")
                .content(|buf| buf.node("title").content(|buf| buf.text("Hello world!")))
        })
        .into_inner();
    assert_eq!(
        html,
        "<!DOCTYPE html><html lang=\"fr\"><head><title>Hello world!</title></head></html>"
    );
}

#[test]
fn a_list_of_class_names() {
    let html = Buffer::default()
        .node("div")
        .attr(("class", ClassNames(&["foo", "bar"])))
        .close()
        .into_inner();
    assert_eq!(html, "<div class=\"foo bar\" />");
}

#[test]
fn names_of_a_type_of_the_caller() {
    assert_eq!(written(Data("id")), " data-id");
    assert_eq!(written(Some((Data("id"), 7u32))), " data-id=\"7\"");
}
