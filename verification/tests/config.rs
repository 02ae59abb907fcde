use nodepid::config::{
    effective_output_format, effective_template, log_filter, OutputConfig, OutputFormat, Template,
};

#[test]
fn default_template_is_the_url() {
    assert_eq!(Template::default().as_str(), "{:url}");
    assert_eq!(Template::default().to_string(), "{:url}");
}

#[test]
fn template_keeps_its_text() {
    let template = Template::from("{:last}".to_string());
    assert_eq!(template.as_str(), "{:last}");
    assert_eq!(template.to_string(), "{:last}");
    assert_eq!(template.clone(), template);
    let invalid = Template::from("{".to_string());
    assert_eq!(invalid.as_str(), "{");
}

#[test]
fn default_output_format_is_table() {
    assert_eq!(OutputFormat::default(), OutputFormat::Table);
}

#[test]
fn output_formats_are_ordered_as_declared() {
    assert!(OutputFormat::Table < OutputFormat::Plain);
    assert!(OutputFormat::Plain < OutputFormat::Json);
    assert!(OutputFormat::Json < OutputFormat::Yaml);
}

#[test]
fn default_config_sets_nothing() {
    let config = OutputConfig::default();
    assert_eq!(config.format, None);
    assert_eq!(config.template, None);
}

#[test]
fn command_line_template_wins() {
    let chosen = Some(Template::from("{0}".to_string()));
    let configured = Some(Template::from("{1}".to_string()));
    assert_eq!(effective_template(chosen.clone(), configured.clone()).as_str(), "{0}");
    assert_eq!(effective_template(chosen, None).as_str(), "{0}");
    assert_eq!(effective_template(None, configured).as_str(), "{1}");
    assert_eq!(effective_template(None, None).as_str(), "{:url}");
}

#[test]
fn command_line_format_wins() {
    let json = Some(OutputFormat::Json);
    let yaml = Some(OutputFormat::Yaml);
    assert_eq!(effective_output_format(json, yaml), OutputFormat::Json);
    assert_eq!(effective_output_format(json, None), OutputFormat::Json);
    assert_eq!(effective_output_format(None, yaml), OutputFormat::Yaml);
    assert_eq!(effective_output_format(None, None), OutputFormat::Table);
    assert_eq!(effective_output_format(Some(OutputFormat::Plain), None), OutputFormat::Plain);
}

#[test]
fn log_filter_keeps_what_is_set() {
    assert_eq!(log_filter(Some("debug".to_string())), "debug");
    assert_eq!(log_filter(Some(String::new())), "");
    assert_eq!(log_filter(None), "warn,kube_client=error");
}
