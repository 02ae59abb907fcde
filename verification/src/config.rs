//! What the user can choose: the template, the output format, and where the
//! defaults come from.

use vstd::prelude::*;
use vstd::string::*;

verus! {

/// The text of the template that is used when none is chosen: the whole
/// identifier.
pub open spec fn default_template_text() -> Seq<char> {
    "{:url}"@
}

/// The log filter that is used when none is set.
pub open spec fn default_log_filter() -> Seq<char> {
    "warn,kube_client=error"@
}

/// The source text of a template, as the user gave it. It is not compiled
/// yet and need not be valid.
#[derive(Debug, Clone, PartialEq, Eq)]
pub struct Template(String);

impl View for Template {
    type V = Seq<char>;

    closed spec fn view(&self) -> Seq<char> {
        self.0@
    }
}

impl Default for Template {
    fn default() -> (template: Self)
        ensures
            template@ == default_template_text(),
    {
        Template("{:url}".to_owned())
    }
}

impl From<String> for Template {
    fn from(s: String) -> (template: Self)
        ensures
            template@ == s@,
    {
        Self(s)
    }
}

impl vstd::std_specs::convert::FromSpecImpl<String> for Template {
    open spec fn obeys_from_spec() -> bool {
        true
    }

    closed spec fn from_spec(s: String) -> Self {
        Template(s)
    }
}

impl Template {
    /// The text of the template.
    pub fn as_str(&self) -> (text: &str)
        ensures
            text@ == self@,
    {
        self.0.as_str()
    }

    /// The text of the template, as a string of its own.
    pub fn to_string(&self) -> (text: String)
        ensures
            text@ == self@,
    {
        self.0.clone()
    }
}

/// How the list of nodes is written out.
#[derive(Debug, Copy, Clone, PartialEq, Eq, PartialOrd, Ord)]
pub enum OutputFormat {
    Table,
    Plain,
    Json,
    Yaml,
}

impl Default for OutputFormat {
    fn default() -> (format: Self)
        ensures
            format == OutputFormat::Table,
    {
        Self::Table
    }
}

/// The defaults that a configuration file sets. Either may be missing.
#[derive(Debug)]
pub struct OutputConfig {
    pub format: Option<OutputFormat>,
    pub template: Option<Template>,
}

impl Default for OutputConfig {
    fn default() -> (config: Self)
        ensures
            config.format is None,
            config.template is None,
    {
        OutputConfig { format: None, template: None }
    }
}

/// The template that `chosen` and `configured` come to.
pub open spec fn effective_template_text(
    chosen: Option<Template>,
    configured: Option<Template>,
) -> Seq<char> {
    match chosen {
        Some(template) => template@,
        None => match configured {
            Some(template) => template@,
            None => default_template_text(),
        },
    }
}

/// The format that `chosen` and `configured` come to.
pub open spec fn effective_format(
    chosen: Option<OutputFormat>,
    configured: Option<OutputFormat>,
) -> OutputFormat {
    match chosen {
        Some(format) => format,
        None => match configured {
            Some(format) => format,
            None => OutputFormat::Table,
        },
    }
}

/// The template to use: the one chosen on the command line; else the one the
/// configuration file sets; else the default.
pub fn effective_template(chosen: Option<Template>, configured: Option<Template>) -> (template:
    Template)
    ensures
        template@ == effective_template_text(chosen, configured),
{
    match chosen {
        Some(template) => template,
        None => match configured {
            Some(template) => template,
            None => Template::default(),
        },
    }
}

/// The output format to use: the one chosen on the command line; else the
/// one the configuration file sets; else a table.
pub fn effective_output_format(
    chosen: Option<OutputFormat>,
    configured: Option<OutputFormat>,
) -> (format: OutputFormat)
    ensures
        format == effective_format(chosen, configured),
{
    match chosen {
        Some(format) => format,
        None => match configured {
            Some(format) => format,
            None => OutputFormat::default(),
        },
    }
}

/// The log filter to use: the one that is set, else warnings, and only
/// errors of the cluster client.
pub fn log_filter(current: Option<String>) -> (filter: String)
    ensures
        filter@ == match current {
            Some(set) => set@,
            None => default_log_filter(),
        },
{
    match current {
        Some(set) => set,
        None => "warn,kube_client=error".to_owned(),
    }
}

} // verus!
