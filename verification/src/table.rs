//! Tables with ASCII borders.

use vstd::prelude::*;

verus! {

/// The contents of the cells of a table, row by row.
pub open spec fn cell_views(records: Seq<Vec<String>>) -> Seq<Seq<Seq<char>>> {
    records.map_values(|row: Vec<String>| row@.map_values(|cell: String| cell@))
}

/// The text that the crate `tabled` draws for the given rows of cells in its default
/// settings, the first row being the header.
pub uninterp spec fn table_text(cells: Seq<Seq<Seq<char>>>) -> Seq<char>;

/// `Builder::from` and `Builder::build` of the crate `tabled`, and the built table
/// shown: the text depends on the contents of the cells alone.
#[verifier::external_body]
pub(crate) fn render_table(records: Vec<Vec<String>>) -> (r: String)
    ensures
        r@ == table_text(cell_views(records@)),
{
    tabled::builder::Builder::from(records).build().to_string()
}

/// The contents of a table are those of each cell, in its place.
pub proof fn lemma_cell_views(records: Seq<Vec<String>>, i: int, j: int)
    requires
        0 <= i < records.len(),
        0 <= j < records[i]@.len(),
    ensures
        cell_views(records).len() == records.len(),
        cell_views(records)[i].len() == records[i]@.len(),
        cell_views(records)[i][j] == records[i]@[j]@,
{
}

} // verus!
