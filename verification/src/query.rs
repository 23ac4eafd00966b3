//! Construction of the parameterized query text for bulk and single-entity
//! fetches.
//!
//! Column names in the text come exclusively from a projected, allow-listed
//! column set; everything else is a fixed template.  Entity references and
//! narrowing-filter values are never interpolated: they travel as bound
//! parameters (`$1`, `$2`).

use vstd::prelude::*;
use vstd::string::StringExecFns;

use crate::columns::Collection;
use crate::columns::is_allowed;
use crate::loader::FetchPlan;
use crate::projection::lemma_project_allowed;
use crate::projection::lemma_project_no_dup;
use crate::projection::spec_project;

verus! {

/// The `", "`-separated join of a column list.
pub open spec fn join_columns(cols: Seq<Seq<char>>) -> Seq<char>
    decreases cols.len(),
{
    if cols.len() == 0 {
        Seq::empty()
    } else if cols.len() == 1 {
        cols[0]
    } else {
        join_columns(cols.drop_last()) + ", "@ + cols.last()
    }
}

/// The text of one bulk fetch: the fixed template around the joined column
/// list, with the entity set and any filter value left to bound parameters.
pub open spec fn spec_bulk_query(
    table: Seq<char>,
    fk_column: Seq<char>,
    cols: Seq<Seq<char>>,
    filter_column: Option<Seq<char>>,
) -> Seq<char> {
    "SELECT "@ + join_columns(cols) + " FROM "@ + table + " WHERE "@ + fk_column + " = ANY($1)"@
        + match filter_column {
        Some(c) => " AND "@ + c + " = $2"@,
        None => Seq::empty(),
    }
}

/// The text of the paged top-level products fetch.
pub open spec fn spec_page_query(cols: Seq<Seq<char>>) -> Seq<char> {
    "SELECT "@ + join_columns(cols) + " FROM products LIMIT $1 OFFSET $2"@
}

/// The text of the single-product fetch by id.
pub open spec fn spec_by_id_query(cols: Seq<Seq<char>>) -> Seq<char> {
    "SELECT "@ + join_columns(cols) + " FROM products WHERE id = $1 LIMIT $2"@
}

/// Appends the `", "`-join of `cols` to `out`.
fn join_into(out: &mut String, cols: &Vec<String>)
    ensures
        final(out)@ == old(out)@ + join_columns(cols.deep_view()),
{
    let n = cols.len();
    let mut i: usize = 0;
    while i < n
        invariant
            i <= n,
            n == cols.len(),
            out@ == old(out)@ + join_columns(cols.deep_view().take(i as int)),
        decreases n - i,
    {
        if i > 0 {
            out.append(", ");
        }
        out.append(cols[i].as_str());
        proof {
            let pre = cols.deep_view().take(i as int);
            let cur = cols.deep_view().take(i as int + 1);
            assert(cur.drop_last() =~= pre);
            assert(cur.last() == cols.deep_view()[i as int]);
            assert(out@ =~= old(out)@ + join_columns(cur));
        }
        i = i + 1;
    }
    proof {
        assert(cols.deep_view().take(n as int) =~= cols.deep_view());
    }
}

/// Builds the bulk-fetch text `SELECT <cols> FROM <table> WHERE
/// <fk_column> = ANY($1)`, plus ` AND <filter_column> = $2` when a
/// narrowing filter applies.  The filter's value is bound, never written
/// into the text.
pub fn build_bulk_query(
    table: &str,
    fk_column: &str,
    cols: &Vec<String>,
    filter_column: Option<&str>,
) -> (r: String)
    ensures
        r@ == spec_bulk_query(
            table@,
            fk_column@,
            cols.deep_view(),
            match filter_column {
                Some(c) => Some(c@),
                None => None,
            },
        ),
{
    let mut out = String::new();
    out.append("SELECT ");
    join_into(&mut out, cols);
    out.append(" FROM ");
    out.append(table);
    out.append(" WHERE ");
    out.append(fk_column);
    out.append(" = ANY($1)");
    match filter_column {
        Some(c) => {
            out.append(" AND ");
            out.append(c);
            out.append(" = $2");
        },
        None => {},
    }
    proof {
        assert(out@ =~= spec_bulk_query(
            table@,
            fk_column@,
            cols.deep_view(),
            match filter_column {
                Some(c) => Some(c@),
                None => None,
            },
        ));
    }
    out
}

/// The bulk-fetch text for one variant partition: its filter, when
/// present, narrows on the `sku` column, with the value bound as `$2`.
pub fn variant_bulk_query(plan: &FetchPlan) -> (r: String)
    ensures
        r@ == spec_bulk_query(
            "product_variants"@,
            "product_id"@,
            plan.columns.deep_view(),
            match plan.filter {
                Some(_) => Some("sku"@),
                None => None,
            },
        ),
{
    match &plan.filter {
        Some(_) => build_bulk_query("product_variants", "product_id", &plan.columns, Some("sku")),
        None => build_bulk_query("product_variants", "product_id", &plan.columns, None),
    }
}

/// The bulk-fetch text for one media partition; media has no filter.
pub fn media_bulk_query(plan: &FetchPlan) -> (r: String)
    ensures
        r@ == spec_bulk_query(
            "product_category_junction"@,
            "product_id"@,
            plan.columns.deep_view(),
            None,
        ),
{
    build_bulk_query("product_category_junction", "product_id", &plan.columns, None)
}

/// The paged top-level products text, limit and offset bound.
pub fn products_page_query(cols: &Vec<String>) -> (r: String)
    ensures
        r@ == spec_page_query(cols.deep_view()),
{
    let mut out = String::new();
    out.append("SELECT ");
    join_into(&mut out, cols);
    out.append(" FROM products LIMIT $1 OFFSET $2");
    proof {
        assert(out@ =~= spec_page_query(cols.deep_view()));
    }
    out
}

/// The single-product text, id and limit bound.
pub fn product_by_id_query(cols: &Vec<String>) -> (r: String)
    ensures
        r@ == spec_by_id_query(cols.deep_view()),
{
    let mut out = String::new();
    out.append("SELECT ");
    join_into(&mut out, cols);
    out.append(" FROM products WHERE id = $1 LIMIT $2");
    proof {
        assert(out@ =~= spec_by_id_query(cols.deep_view()));
    }
    out
}

/// Column safety: for any caller-supplied field names, the column list in
/// generated query text is the join of the projected column set, and every
/// name in that set is drawn from the allow-list — unrecognized names never
/// appear there, and no name appears twice.
pub proof fn lemma_query_column_safety(c: Collection, fields: Seq<Seq<char>>)
    ensures
        forall|i: int|
            0 <= i < spec_project(c, fields).len() ==> is_allowed(
                c,
                #[trigger] spec_project(c, fields)[i],
            ),
        forall|i: int, j: int|
            0 <= i < j < spec_project(c, fields).len() ==> spec_project(c, fields)[i]
                != spec_project(c, fields)[j],
{
    lemma_project_allowed(c, fields);
    lemma_project_no_dup(c, fields);
}

} // verus!
