use nodepid::identifier::parse_identifier;
use nodepid::template::{compile_template, render, InvalidTemplate};

const AWS: &str = "aws:///us-west-2/i-0abcdef1234567890";

fn show(template: &str, raw: &str) -> String {
    let compiled = compile_template(template).unwrap();
    render(&compiled, &parse_identifier(raw))
}

#[test]
fn url_renders_the_identifier_unchanged() {
    assert_eq!(show("{:url}", AWS), "aws:///us-west-2/i-0abcdef1234567890");
}

#[test]
fn provider_renders_the_scheme() {
    assert_eq!(show("{:provider}", AWS), "aws");
}

#[test]
fn last_renders_the_last_segment() {
    assert_eq!(show("{:last}", AWS), "i-0abcdef1234567890");
}

#[test]
fn indexes_render_segments() {
    assert_eq!(show("{0}-{1}", AWS), "us-west-2-i-0abcdef1234567890");
}

#[test]
fn documented_tokens_render_as_documented() {
    let raw = "aws://us-west-2/i-0abcdef1234567890";
    assert_eq!(show("{:provider}", raw), "aws");
    assert_eq!(show("{:last}", raw), "i-0abcdef1234567890");
    assert_eq!(show("{:first}", raw), "us-west-2");
    assert_eq!(show("{:all}", raw), "us-west-2/i-0abcdef1234567890");
    assert_eq!(show("{:url}", raw), "aws://us-west-2/i-0abcdef1234567890");
    assert_eq!(show("{0}", raw), "us-west-2");
    assert_eq!(show("{1}", raw), "i-0abcdef1234567890");
}

#[test]
fn index_out_of_range_renders_nothing() {
    assert_eq!(show("{5}", AWS), "");
    assert_eq!(show("{2}", AWS), "");
    assert_eq!(show("[{5}]", AWS), "[]");
    assert_eq!(show("{0}{9}{1}", "x://a/b"), "ab");
}

#[test]
fn index_too_large_to_store_renders_nothing() {
    assert_eq!(show("<{99999999999999999999999999999999999999999}>", AWS), "<>");
    let source = format!("{{{}}}", usize::MAX);
    assert_eq!(show(&source, AWS), "");
}

#[test]
fn compiling_twice_renders_alike() {
    for source in ["{:url}", "{0}-{1}", "plain", "{:provider}:{:all} ({9})", ""] {
        let first = compile_template(source).unwrap();
        let second = compile_template(source).unwrap();
        assert_eq!(first, second);
        for raw in [AWS, "", "a/b", "gce://p//z/n/"] {
            let id = parse_identifier(raw);
            assert_eq!(render(&first, &id), render(&second, &id));
        }
    }
}

#[test]
fn one_template_renders_many_identifiers() {
    let compiled = compile_template("{:provider}|{:last}").unwrap();
    assert_eq!(render(&compiled, &parse_identifier(AWS)), "aws|i-0abcdef1234567890");
    assert_eq!(render(&compiled, &parse_identifier("gce://p/z/n")), "gce|n");
    assert_eq!(render(&compiled, &parse_identifier("bare")), "|bare");
    assert_eq!(render(&compiled, &parse_identifier(AWS)), "aws|i-0abcdef1234567890");
}

#[test]
fn template_without_directives_renders_to_itself() {
    for raw in [AWS, "", "a/b"] {
        assert_eq!(show("plain text", raw), "plain text");
        assert_eq!(show("a}b", raw), "a}b");
        assert_eq!(show("", raw), "");
    }
}

#[test]
fn empty_identifier_renders_every_directive_as_nothing() {
    assert_eq!(show("{:url}", ""), "");
    assert_eq!(show("{:provider}{:first}{:last}{:all}{:url}{0}{1}", ""), "");
    assert_eq!(show("[{:all}]", ""), "[]");
}

#[test]
fn missing_parts_render_as_nothing() {
    assert_eq!(show("{:provider}/{:first}/{:last}", "aws://"), "aws//");
    assert_eq!(show("{:provider}/{:first}/{:last}", "://"), "//");
    assert_eq!(show("{:provider}+{:all}", "a/b"), "+a/b");
    assert_eq!(show("{:first}={:last}", "x://only"), "only=only");
}

#[test]
fn all_drops_empty_components() {
    assert_eq!(show("{:all}", "gce:////a//b/"), "a/b");
    assert_eq!(show("{:url}", "gce:////a//b/"), "gce:////a//b/");
}

#[test]
fn invalid_template_renders_nothing() {
    let compiled = compile_template("{:nope}");
    assert_eq!(compiled, Err(InvalidTemplate { fragment: "{:nope}".to_string(), position: 0 }));
}

#[test]
fn rendering_is_repeatable() {
    let compiled = compile_template("{1}@{:provider}").unwrap();
    let id = parse_identifier(AWS);
    let once = render(&compiled, &id);
    assert_eq!(once, "i-0abcdef1234567890@aws");
    assert_eq!(render(&compiled, &id), once);
}
