//! Nodes, and the line that is shown for each.

use vstd::prelude::*;
use vstd::string::*;
use crate::identifier::{parse, parse_identifier};
use crate::template::{render, render_tokens, CompiledTemplate, TokenView};

verus! {

/// What is read of a node: its name, and the provider identifier of its
/// spec where it has one.
#[derive(Debug, Clone, PartialEq, Eq)]
pub struct NodeInfo {
    pub name: String,
    pub provider_id: Option<String>,
}

/// A node's name and its provider identifier as the template displays it.
#[derive(Debug, Clone, PartialEq, Eq)]
pub struct NodeProviderID {
    pub name: String,
    pub provider_id: String,
}

/// The mathematical value of a `NodeProviderID`.
pub struct NodeProviderIDView {
    pub name: Seq<char>,
    pub provider_id: Seq<char>,
}

impl View for NodeProviderID {
    type V = NodeProviderIDView;

    open spec fn view(&self) -> NodeProviderIDView {
        NodeProviderIDView { name: self.name@, provider_id: self.provider_id@ }
    }
}

/// What each entry of `rows` holds.
pub open spec fn row_views(rows: Seq<NodeProviderID>) -> Seq<NodeProviderIDView> {
    rows.map_values(|row: NodeProviderID| row@)
}

/// What is displayed for a provider identifier. A node without one, or with
/// an empty one, has none assigned yet: nothing is rendered for it, whatever
/// the template.
pub open spec fn displayed(provider_id: Option<String>, template: Seq<TokenView>) -> Seq<char> {
    match provider_id {
        Some(raw) => if raw@.len() == 0 {
            Seq::empty()
        } else {
            render_tokens(template, parse(raw@))
        },
        None => Seq::empty(),
    }
}

/// The line for `node` under `template`.
pub open spec fn row_of(node: NodeInfo, template: Seq<TokenView>) -> NodeProviderIDView {
    NodeProviderIDView { name: node.name@, provider_id: displayed(node.provider_id, template) }
}

impl NodeProviderID {
    /// The line for `node`: its name, and its provider identifier rendered
    /// by `template`, or nothing where it has none.
    pub fn new(node: &NodeInfo, template: &CompiledTemplate) -> (row: Self)
        ensures
            row@ == row_of(*node, template@),
    {
        let name = node.name.clone();
        let provider_id = match &node.provider_id {
            Some(raw) => {
                if raw.as_str().is_empty() {
                    String::new()
                } else {
                    let parsed = parse_identifier(raw.as_str());
                    render(template, &parsed)
                }
            },
            None => String::new(),
        };
        NodeProviderID { name, provider_id }
    }
}

/// The lines for `nodes` under `template`, one for each node, in order.
pub fn node_provider_ids(nodes: &Vec<NodeInfo>, template: &CompiledTemplate) -> (rows: Vec<
    NodeProviderID,
>)
    ensures
        rows@.len() == nodes@.len(),
        forall|i: int| 0 <= i < nodes@.len() ==> (#[trigger] rows@[i])@ == row_of(nodes@[i], template@),
{
    let n = nodes.len();
    let mut rows: Vec<NodeProviderID> = Vec::new();
    let mut i: usize = 0;
    while i < n
        invariant
            n == nodes@.len(),
            i <= n,
            rows@.len() == i,
            forall|j: int| 0 <= j < i ==> (#[trigger] rows@[j])@ == row_of(nodes@[j], template@),
        decreases n - i,
    {
        rows.push(NodeProviderID::new(&nodes[i], template));
        i += 1;
    }
    rows
}

} // verus!
