//! The text of each output format that is made from plain lines.

use vstd::prelude::*;
use vstd::string::*;
use crate::node::{row_views, NodeProviderID, NodeProviderIDView};

verus! {

/// The space between two columns of the table.
pub const TABLE_PADDING: usize = 3;

/// The first line of the table, before columns are aligned.
pub open spec fn table_header() -> Seq<char> {
    "NODE\tPROVIDER ID\n"@
}

/// One line for each row: name, a tab, provider identifier, a line feed.
pub open spec fn table_rows(rows: Seq<NodeProviderIDView>) -> Seq<char>
    decreases rows.len(),
{
    if rows.len() == 0 {
        Seq::empty()
    } else {
        table_rows(rows.drop_last()) + rows.last().name + seq!['\t'] + rows.last().provider_id
            + seq!['\n']
    }
}

/// The table before its columns are aligned: the header, then the rows.
pub open spec fn table_text(rows: Seq<NodeProviderIDView>) -> Seq<char> {
    table_header() + table_rows(rows)
}

/// One line for each row: the provider identifier and a line feed.
pub open spec fn plain_text(rows: Seq<NodeProviderIDView>) -> Seq<char>
    decreases rows.len(),
{
    if rows.len() == 0 {
        Seq::empty()
    } else {
        plain_text(rows.drop_last()) + rows.last().provider_id + seq!['\n']
    }
}

/// The bytes that `tabwriter::TabWriter`, made with this padding and
/// otherwise as `new` makes it, writes for `text`: the same lines, the
/// tab-separated cells of neighbouring lines padded with spaces to columns.
pub uninterp spec fn elastic_tabstops(text: Seq<char>, padding: usize) -> Seq<u8>;

/// Runs `text` through a `tabwriter::TabWriter` with the given padding that
/// writes to a buffer in memory, and flushes it. What is claimed: the writer
/// reports no error, and the buffer then holds what `elastic_tabstops` names.
/// `TabWriter` hands on the errors of the writer it wraps and has none of its
/// own; the writer here is a `Vec<u8>`, which takes every write by growing.
/// The padding is bounded because the aligner adds it to the widest cell.
#[verifier::external_body]
fn align_columns(text: &str, padding: usize) -> (aligned: Option<Vec<u8>>)
    requires
        padding <= u16::MAX,
    ensures
        aligned is Some,
        aligned->Some_0@ == elastic_tabstops(text@, padding),
{
    let mut writer = tabwriter::TabWriter::new(Vec::new()).padding(padding);
    match std::io::Write::write_all(&mut writer, text.as_bytes()) {
        Ok(()) => writer.into_inner().ok(),
        Err(_) => None,
    }
}

/// The table of `nodes` before alignment: a header line, then one line for
/// each node, with a tab between the two cells of a line.
pub fn table_source(nodes: &Vec<NodeProviderID>) -> (text: String)
    ensures
        text@ == table_text(row_views(nodes@)),
{
    let n = nodes.len();
    let ghost rows = row_views(nodes@);
    let mut text = "NODE\tPROVIDER ID\n".to_owned();
    let mut i: usize = 0;
    proof {
        reveal_strlit("\t");
        reveal_strlit("\n");
        assert("\t"@ =~= seq!['\t']);
        assert("\n"@ =~= seq!['\n']);
        assert(rows.take(0) =~= Seq::<NodeProviderIDView>::empty());
        assert(text@ =~= table_text(rows.take(0)));
    }
    while i < n
        invariant
            n == nodes@.len(),
            rows == row_views(nodes@),
            i <= n,
            "\t"@ == seq!['\t'],
            "\n"@ == seq!['\n'],
            text@ == table_text(rows.take(i as int)),
        decreases n - i,
    {
        proof {
            assert(rows.take(i + 1).drop_last() =~= rows.take(i as int));
            assert(rows.take(i + 1).last() == nodes@[i as int]@);
        }
        text.append(nodes[i].name.as_str());
        text.append("\t");
        text.append(nodes[i].provider_id.as_str());
        text.append("\n");
        assert(text@ =~= table_text(rows.take(i + 1)));
        i += 1;
    }
    assert(rows.take(n as int) =~= rows);
    text
}

/// The table of `nodes` with its columns aligned, three spaces apart, as
/// bytes ready to be written out. There always is one: aligning text in
/// memory does not fail.
pub fn table(nodes: &Vec<NodeProviderID>) -> (out: Option<Vec<u8>>)
    ensures
        out is Some,
        out->Some_0@ == elastic_tabstops(table_text(row_views(nodes@)), TABLE_PADDING),
{
    let text = table_source(nodes);
    align_columns(text.as_str(), TABLE_PADDING)
}

/// The provider identifiers of `nodes`, one on each line.
pub fn plain(nodes: &Vec<NodeProviderID>) -> (text: String)
    ensures
        text@ == plain_text(row_views(nodes@)),
{
    let n = nodes.len();
    let ghost rows = row_views(nodes@);
    let mut text = String::new();
    let mut i: usize = 0;
    proof {
        reveal_strlit("\n");
        assert("\n"@ =~= seq!['\n']);
        assert(rows.take(0) =~= Seq::<NodeProviderIDView>::empty());
    }
    while i < n
        invariant
            n == nodes@.len(),
            rows == row_views(nodes@),
            i <= n,
            "\n"@ == seq!['\n'],
            text@ == plain_text(rows.take(i as int)),
        decreases n - i,
    {
        proof {
            assert(rows.take(i + 1).drop_last() =~= rows.take(i as int));
            assert(rows.take(i + 1).last() == nodes@[i as int]@);
        }
        text.append(nodes[i].provider_id.as_str());
        text.append("\n");
        assert(text@ =~= plain_text(rows.take(i + 1)));
        i += 1;
    }
    assert(rows.take(n as int) =~= rows);
    text
}

} // verus!
