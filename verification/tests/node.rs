use nodepid::node::{node_provider_ids, NodeInfo, NodeProviderID};
use nodepid::template::compile_template;

fn node(name: &str, provider_id: Option<&str>) -> NodeInfo {
    NodeInfo { name: name.to_string(), provider_id: provider_id.map(|s| s.to_string()) }
}

fn row(name: &str, provider_id: &str) -> NodeProviderID {
    NodeProviderID { name: name.to_string(), provider_id: provider_id.to_string() }
}

#[test]
fn node_with_identifier_is_rendered() {
    let template = compile_template("{:provider}:{:last}").unwrap();
    let made = NodeProviderID::new(&node("n1", Some("aws:///us-west-2/i-1")), &template);
    assert_eq!(made, row("n1", "aws:i-1"));
}

#[test]
fn node_without_identifier_shows_nothing() {
    for source in ["{:url}", "literal", "{0}-{1}", "id: {:all}"] {
        let template = compile_template(source).unwrap();
        assert_eq!(NodeProviderID::new(&node("n1", None), &template), row("n1", ""));
        assert_eq!(NodeProviderID::new(&node("n2", Some("")), &template), row("n2", ""));
    }
}

#[test]
fn literal_template_shows_for_assigned_nodes_only() {
    let template = compile_template("assigned").unwrap();
    assert_eq!(NodeProviderID::new(&node("a", Some("x://y")), &template).provider_id, "assigned");
    assert_eq!(NodeProviderID::new(&node("b", Some("")), &template).provider_id, "");
}

#[test]
fn rows_follow_the_nodes_in_order() {
    let template = compile_template("{:last}").unwrap();
    let nodes = vec![
        node("b", Some("aws:///zone/i-2")),
        node("a", None),
        node("c", Some("gce://p/z/vm")),
        node("d", Some("")),
    ];
    assert_eq!(
        node_provider_ids(&nodes, &template),
        vec![row("b", "i-2"), row("a", ""), row("c", "vm"), row("d", "")]
    );
    assert_eq!(node_provider_ids(&Vec::new(), &template), vec![]);
}

#[test]
fn default_template_shows_the_identifier() {
    let source = nodepid::config::Template::default();
    let template = compile_template(source.as_str()).unwrap();
    let made = NodeProviderID::new(&node("n", Some("aws:///us-west-2/i-1")), &template);
    assert_eq!(made.provider_id, "aws:///us-west-2/i-1");
}
