use nodepid::identifier::{parse_identifier, ParsedIdentifier};

const AWS: &str = "aws:///us-west-2/i-0abcdef1234567890";

fn segments_of(parsed: &ParsedIdentifier) -> Vec<&str> {
    parsed.segments().iter().map(|s| s.as_str()).collect()
}

#[test]
fn empty_identifier_has_no_parts() {
    let parsed = parse_identifier("");
    assert_eq!(parsed.scheme(), "");
    assert!(parsed.segments().is_empty());
    assert_eq!(parsed.raw(), "");
    assert_eq!(parsed.provider(), "");
    assert_eq!(parsed.first(), "");
    assert_eq!(parsed.last(), "");
    assert_eq!(parsed.all(), "");
    assert_eq!(parsed.url(), "");
}

#[test]
fn provider_is_text_before_first_delimiter() {
    assert_eq!(parse_identifier(AWS).provider(), "aws");
    assert_eq!(parse_identifier("gce://project/zone/name").provider(), "gce");
    assert_eq!(parse_identifier("a://b://c").provider(), "a");
    assert_eq!(parse_identifier("://x").provider(), "");
    assert_eq!(parse_identifier("a:b://c").provider(), "a:b");
    assert_eq!(parse_identifier("a/b://c").provider(), "a/b");
}

#[test]
fn later_delimiters_belong_to_the_path() {
    let parsed = parse_identifier("a://b://c");
    assert_eq!(segments_of(&parsed), vec!["b:", "c"]);
    assert_eq!(parsed.all(), "b:/c");
}

#[test]
fn segments_keep_their_order() {
    let parsed = parse_identifier(AWS);
    assert_eq!(segments_of(&parsed), vec!["us-west-2", "i-0abcdef1234567890"]);
    assert_eq!(parsed.first(), "us-west-2");
    assert_eq!(parsed.last(), "i-0abcdef1234567890");
    assert_eq!(parsed.segment(0), "us-west-2");
    assert_eq!(parsed.segment(1), "i-0abcdef1234567890");
}

#[test]
fn segment_out_of_range_is_empty() {
    let parsed = parse_identifier(AWS);
    assert_eq!(parsed.segment(2), "");
    assert_eq!(parsed.segment(usize::MAX), "");
}

#[test]
fn identifier_without_delimiter_is_all_path() {
    let parsed = parse_identifier("us-west-2/i-1");
    assert_eq!(parsed.scheme(), "");
    assert_eq!(segments_of(&parsed), vec!["us-west-2", "i-1"]);
    assert_eq!(parsed.raw(), "us-west-2/i-1");
}

#[test]
fn almost_delimiters_are_not_delimiters() {
    for raw in ["aws:/x", "aws:x//y", "aws/:/x", ":/", "//", ":"] {
        assert_eq!(parse_identifier(raw).scheme(), "", "{raw}");
    }
    assert_eq!(segments_of(&parse_identifier("aws:/x")), vec!["aws:", "x"]);
}

#[test]
fn empty_components_are_dropped() {
    assert_eq!(segments_of(&parse_identifier("gce:////a//b///c/")), vec!["a", "b", "c"]);
    assert_eq!(segments_of(&parse_identifier("/a/")), vec!["a"]);
    assert!(parse_identifier("aws://").segments().is_empty());
    assert!(parse_identifier("aws:////").segments().is_empty());
    assert!(parse_identifier("///").segments().is_empty());
}

#[test]
fn no_segment_is_empty_or_holds_a_slash() {
    for raw in ["", "/", "a", "a//b", "x://", "x:///a/b//", "://", "k8s://n/ /m"] {
        for segment in parse_identifier(raw).segments() {
            assert!(!segment.is_empty(), "{raw}");
            assert!(!segment.contains('/'), "{raw}");
        }
    }
}

#[test]
fn all_is_the_segments_joined_by_slashes() {
    for raw in ["", "a", "a/b/c", AWS, "x:///a//b/", "azure:///subscriptions/1/vm/2"] {
        let parsed = parse_identifier(raw);
        assert_eq!(parsed.all(), segments_of(&parsed).join("/"), "{raw}");
    }
    assert_eq!(parse_identifier(AWS).all(), "us-west-2/i-0abcdef1234567890");
    assert_eq!(parse_identifier("x:///a//b/").all(), "a/b");
    assert_eq!(parse_identifier("one").all(), "one");
}

#[test]
fn url_is_the_input_unchanged() {
    for raw in ["", "a", AWS, "x:///a//b/", " spaced :// out ", "no-scheme//"] {
        let parsed = parse_identifier(raw);
        assert_eq!(parsed.url(), raw);
        assert_eq!(parsed.raw(), raw);
    }
}

#[test]
fn path_of_all_parses_to_the_same_segments() {
    for raw in [AWS, "x:///a//b/", "a/b", "", "gce://p/z/n"] {
        let parsed = parse_identifier(raw);
        let again = parse_identifier(&parsed.all());
        assert_eq!(again.segments(), parsed.segments(), "{raw}");
    }
}

#[test]
fn characters_outside_ascii_are_kept() {
    let parsed = parse_identifier("wolke://zürich/knoten-ß/日本");
    assert_eq!(parsed.scheme(), "wolke");
    assert_eq!(segments_of(&parsed), vec!["zürich", "knoten-ß", "日本"]);
    assert_eq!(parsed.last(), "日本");
    let parsed = parse_identifier("émoji://a");
    assert_eq!(parsed.scheme(), "émoji");
    assert_eq!(segments_of(&parsed), vec!["a"]);
}

#[test]
fn clone_is_equal_to_what_it_copies() {
    let parsed = parse_identifier(AWS);
    let copy = parsed.clone();
    assert_eq!(copy, parsed);
    assert_eq!(copy.segments(), parsed.segments());
    assert_ne!(copy, parse_identifier("aws:///us-west-2/i-1"));
}
