use sendgrid_manager::Template;
use sendgrid_manager::TemplateError;

fn template(name: &str, plain: &str, html: &str) -> Template {
    Template {
        name: name.to_string(),
        plain_body: plain.to_string(),
        html_body: html.to_string(),
    }
}

#[test]
fn t() {
    let template = Template {
        name: "abc".to_string(),
        plain_body: "this is a plain body on\nmulti lines".to_string(),
        html_body: "this is <b>html body</b> with some kind of <u>escape</u>".to_string(),
    };

    let mut out = String::new();
    template.write_to(&mut out);

    assert_eq!(Ok(template), Template::parse(&out))
}

#[test]
fn encode_exact() {
    let t = template("a", "X", "Y");
    let mut out = String::new();
    t.write_to(&mut out);
    assert_eq!(out, "SENDGRID-TEMPLATE\na\n######\nX\n######\nY\n");
}

#[test]
fn encode_appends_to_existing_text() {
    let t = template("a", "X", "Y");
    let mut out = String::from("prefix|");
    t.write_to(&mut out);
    assert_eq!(out, "prefix|SENDGRID-TEMPLATE\na\n######\nX\n######\nY\n");
}

#[test]
fn encode_no_double_trailing_newline() {
    // A plain body already ending in a newline is written unchanged: the
    // encoded text holds exactly one newline between body and separator.
    let t = template("abc", "line\n", "h");
    let mut out = String::new();
    t.write_to(&mut out);
    assert_eq!(out, "SENDGRID-TEMPLATE\nabc\n######\nline\n######\nh\n");
}

#[test]
fn round_trip_empty_bodies() {
    let t = template("name", "", "");
    let mut out = String::new();
    t.write_to(&mut out);
    assert_eq!(out, "SENDGRID-TEMPLATE\nname\n######\n\n######\n\n");
    assert_eq!(Ok(t), Template::parse(&out));
}

#[test]
fn round_trip_multiline_bodies() {
    let t = template("n", "a\n\nb", "<p>\nx\n</p>");
    let mut out = String::new();
    t.write_to(&mut out);
    assert_eq!(Ok(t), Template::parse(&out));
}

#[test]
fn round_trip_name_may_look_like_separator() {
    // The name line's position is fixed, so even a name spelled like the
    // separator survives.
    let t = template("######", "p", "h");
    let mut out = String::new();
    t.write_to(&mut out);
    assert_eq!(Ok(t), Template::parse(&out));
}

#[test]
fn round_trip_loses_plain_trailing_newline() {
    // The format cannot tell a plain body ending in a newline from one
    // without: decoding hands the body back trimmed. Bodies are expected
    // newline-normalized.
    let t = template("n", "a\n", "h");
    let mut out = String::new();
    t.write_to(&mut out);
    assert_eq!(Template::parse(&out), Ok(template("n", "a", "h")));
}

#[test]
fn parse_missing_header_literal() {
    let r = Template::parse("WRONG\nname\n######\nbody\n######\nh\n");
    assert_eq!(r, Err(TemplateError::HeaderInvalidStart("WRONG".to_string())));
}

#[test]
fn parse_too_few_parts() {
    assert_eq!(Template::parse(""), Err(TemplateError::HeaderInvalidFormat));
    assert_eq!(
        Template::parse("SENDGRID-TEMPLATE\nname"),
        Err(TemplateError::HeaderInvalidFormat)
    );
    assert_eq!(
        Template::parse("SENDGRID-TEMPLATE\nname\n######"),
        Err(TemplateError::HeaderInvalidFormat)
    );
}

#[test]
fn parse_empty_name() {
    let r = Template::parse("SENDGRID-TEMPLATE\n\n######\nbody\n######\nh\n");
    assert_eq!(r, Err(TemplateError::HeaderInvalidName));
}

#[test]
fn parse_bad_separator() {
    let r = Template::parse("SENDGRID-TEMPLATE\nname\n===\nbody\n######\nh\n");
    assert_eq!(r, Err(TemplateError::HeaderInvalidEnd("===".to_string())));
}

#[test]
fn parse_unfinished_plain_body() {
    let r = Template::parse("SENDGRID-TEMPLATE\nname\n######\nbody never closed\n");
    assert_eq!(r, Err(TemplateError::BodyPlainUnfinished));
    let r2 = Template::parse("SENDGRID-TEMPLATE\nname\n######\n");
    assert_eq!(r2, Err(TemplateError::BodyPlainUnfinished));
}

#[test]
fn parse_empty_html_section() {
    // No lines after the separator: the HTML body is empty, not an error.
    let r = Template::parse("SENDGRID-TEMPLATE\nname\n######\nbody\n######");
    assert_eq!(r, Ok(template("name", "body", "")));
    let r2 = Template::parse("SENDGRID-TEMPLATE\nname\n######\nbody\n######\n");
    assert_eq!(r2, Ok(template("name", "body", "")));
}

#[test]
fn parse_keeps_leading_empty_plain_line() {
    // The plain body's lines are rejoined with newlines, with nothing put
    // before the first line, so a leading empty line survives.
    let r = Template::parse("SENDGRID-TEMPLATE\nname\n######\n\nx\n######\nh\n");
    assert_eq!(r, Ok(template("name", "\nx", "h")));
}

#[test]
fn parse_drops_one_trailing_html_newline() {
    // Decoding is not the exact inverse of encoding here: the stored HTML
    // section loses exactly one trailing newline when read back.
    let r = Template::parse("SENDGRID-TEMPLATE\nname\n######\np\n######\nh\n\n");
    assert_eq!(r, Ok(template("name", "p", "h\n")));
}

#[test]
fn error_messages() {
    assert_eq!(
        TemplateError::HeaderInvalidFormat.message(),
        "header format invalid"
    );
    assert_eq!(
        TemplateError::HeaderInvalidStart("x".to_string()).message(),
        "header start invalid x"
    );
    assert_eq!(TemplateError::HeaderInvalidName.message(), "header name invalid");
    assert_eq!(
        TemplateError::HeaderInvalidEnd("y".to_string()).message(),
        "header end invalid y"
    );
    assert_eq!(
        TemplateError::BodyPlainUnfinished.message(),
        "body unfinished plain body"
    );
}
