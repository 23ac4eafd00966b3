//! Batch keys: the immutable identity of one per-entity data request.
//!
//! A key names the owning entity, the resolved column set, and an optional
//! narrowing filter.  Keys are equal iff all three parts are equal; they are
//! grouped for fetching by (column set, filter) alone, and the entity
//! reference is used afterwards to demultiplex rows.

use vstd::prelude::*;

use crate::columns::Collection;
use crate::projection::project_columns;
use crate::projection::spec_project;

verus! {

/// The character sequences of an optional string.
pub open spec fn opt_view(o: Option<String>) -> Option<Seq<char>> {
    match o {
        Some(s) => Some(s@),
        None => None,
    }
}

/// A key submitted to the batched loader: the owning entity, the columns to
/// fetch, and an optional equality filter on the collection's `sku` column.
#[derive(Debug)]
pub struct BatchKey {
    pub entity_id: i32,
    pub columns: Vec<String>,
    pub filter: Option<String>,
}

/// Structural equality of two batch keys.
pub open spec fn key_eqv(a: BatchKey, b: BatchKey) -> bool {
    &&& a.entity_id == b.entity_id
    &&& a.columns.deep_view() == b.columns.deep_view()
    &&& opt_view(a.filter) == opt_view(b.filter)
}

/// The set of column names a key asks for.  Grouping goes by this set:
/// the projected order inside one key is kept for query text, but two
/// keys naming the same columns in different orders still share a fetch.
pub open spec fn col_set(columns: Vec<String>) -> Set<Seq<char>> {
    columns.deep_view().to_set()
}

/// Whether two keys agree on (column set, filter) — the grouping identity,
/// which ignores the entity reference and the order within the column set.
pub open spec fn group_eqv(a: BatchKey, b: BatchKey) -> bool {
    &&& col_set(a.columns) == col_set(b.columns)
    &&& opt_view(a.filter) == opt_view(b.filter)
}

/// Whether every string of `a` also occurs among `b`'s.
fn vec_str_subset(a: &Vec<String>, b: &Vec<String>) -> (r: bool)
    ensures
        r == (forall|i: int|
            0 <= i < a.deep_view().len() ==> b.deep_view().contains(#[trigger] a.deep_view()[i])),
{
    let n = a.len();
    let mut i: usize = 0;
    while i < n
        invariant
            i <= n,
            n == a.len(),
            forall|j: int| 0 <= j < i ==> b.deep_view().contains(#[trigger] a.deep_view()[j]),
        decreases n - i,
    {
        if !crate::projection::contains_string(b, a[i].as_str()) {
            assert(!b.deep_view().contains(a.deep_view()[i as int]));
            return false;
        }
        i = i + 1;
    }
    true
}

/// Equality of two column sets: the same names occur in both, in any
/// order and multiplicity.
pub fn vec_str_set_eq(a: &Vec<String>, b: &Vec<String>) -> (r: bool)
    ensures
        r == (col_set(*a) == col_set(*b)),
{
    let ab = vec_str_subset(a, b);
    let ba = vec_str_subset(b, a);
    proof {
        let sa = a.deep_view();
        let sb = b.deep_view();
        if ab && ba {
            assert(sa.to_set() =~= sb.to_set());
        }
        if !ab {
            let i = choose|i: int| 0 <= i < sa.len() && !sb.contains(#[trigger] sa[i]);
            assert(sa.contains(sa[i]));
            assert(sa.to_set().contains(sa[i]));
            assert(!sb.to_set().contains(sa[i]));
        }
        if !ba {
            let i = choose|i: int| 0 <= i < sb.len() && !sa.contains(#[trigger] sb[i]);
            assert(sb.contains(sb[i]));
            assert(sb.to_set().contains(sb[i]));
            assert(!sa.to_set().contains(sb[i]));
        }
    }
    ab && ba
}

/// Equality of two string vectors, by characters.
pub fn vec_str_eq(a: &Vec<String>, b: &Vec<String>) -> (r: bool)
    ensures
        r == (a.deep_view() == b.deep_view()),
{
    let n = a.len();
    if n != b.len() {
        assert(a.deep_view().len() != b.deep_view().len());
        return false;
    }
    let mut i: usize = 0;
    while i < n
        invariant
            i <= n,
            n == a.len() == b.len(),
            forall|j: int| 0 <= j < i ==> a.deep_view()[j] == b.deep_view()[j],
        decreases n - i,
    {
        if !crate::columns::str_eq(a[i].as_str(), b[i].as_str()) {
            assert(a.deep_view()[i as int] != b.deep_view()[i as int]);
            return false;
        }
        i = i + 1;
    }
    proof {
        assert(a.deep_view() =~= b.deep_view());
    }
    true
}

/// Equality of two optional strings, by characters.
pub fn opt_str_eq(a: &Option<String>, b: &Option<String>) -> (r: bool)
    ensures
        r == (opt_view(*a) == opt_view(*b)),
{
    match (a, b) {
        (Some(x), Some(y)) => crate::columns::str_eq(x.as_str(), y.as_str()),
        (None, None) => true,
        _ => false,
    }
}

/// Structural equality of two batch keys, executably.
pub fn key_eq(a: &BatchKey, b: &BatchKey) -> (r: bool)
    ensures
        r == key_eqv(*a, *b),
{
    a.entity_id == b.entity_id && vec_str_eq(&a.columns, &b.columns) && opt_str_eq(
        &a.filter,
        &b.filter,
    )
}

/// Equality of two keys' grouping identity, executably.
pub fn group_eq(a: &BatchKey, b: &BatchKey) -> (r: bool)
    ensures
        r == group_eqv(*a, *b),
{
    vec_str_set_eq(&a.columns, &b.columns) && opt_str_eq(&a.filter, &b.filter)
}

impl Clone for BatchKey {
    /// A clone is structurally equal to the original.
    fn clone(&self) -> (r: Self)
        ensures
            key_eqv(r, *self),
    {
        let r = BatchKey {
            entity_id: self.entity_id,
            columns: self.columns.clone(),
            filter: self.filter.clone(),
        };
        proof {
            assert(r.columns.deep_view() =~= self.columns.deep_view());
        }
        r
    }
}

/// A narrowing-filter value the store cannot take as a bound parameter.
#[derive(Clone, Copy, PartialEq, Eq, Structural, Debug)]
pub enum FilterError {
    UnboundableValue,
}

/// Whether `v` can be bound safely as a text parameter: it must not hold a
/// NUL character, which the store's text type cannot carry.
pub open spec fn filter_value_ok(v: Seq<char>) -> bool {
    forall|i: int| 0 <= i < v.len() ==> v[i] != '\u{0}'
}

/// Checks a filter value before dispatch; values that cannot be bound are
/// rejected, never passed through to query construction.
pub fn check_filter_value(v: &str) -> (r: bool)
    ensures
        r == filter_value_ok(v@),
{
    let n = v.unicode_len();
    let mut i: usize = 0;
    while i < n
        invariant
            i <= n,
            n == v@.len(),
            forall|j: int| 0 <= j < i ==> v@[j] != '\u{0}',
        decreases n - i,
    {
        let c = v.get_char(i);
        if c == '\u{0}' {
            return false;
        }
        i = i + 1;
    }
    true
}

/// A request for the variants of one product: the owning product, the
/// requested columns, and an optional exact-SKU narrowing filter.
#[derive(Debug)]
pub struct VariantLoadKey {
    pub product_id: i32,
    pub columns: Vec<String>,
    pub sku: Option<String>,
}

impl Clone for VariantLoadKey {
    /// A clone carries the same product, columns and filter.
    fn clone(&self) -> (r: Self)
        ensures
            r.product_id == self.product_id,
            r.columns.deep_view() == self.columns.deep_view(),
            opt_view(r.sku) == opt_view(self.sku),
    {
        let r = VariantLoadKey {
            product_id: self.product_id,
            columns: self.columns.clone(),
            sku: self.sku.clone(),
        };
        proof {
            assert(r.columns.deep_view() =~= self.columns.deep_view());
        }
        r
    }
}

/// A request for the media rows of one product.
#[derive(Debug)]
pub struct ProductMediaLoadKey {
    pub product_id: i32,
    pub columns: Vec<String>,
}

impl Clone for ProductMediaLoadKey {
    /// A clone carries the same product and columns.
    fn clone(&self) -> (r: Self)
        ensures
            r.product_id == self.product_id,
            r.columns.deep_view() == self.columns.deep_view(),
    {
        let r = ProductMediaLoadKey {
            product_id: self.product_id,
            columns: self.columns.clone(),
        };
        proof {
            assert(r.columns.deep_view() =~= self.columns.deep_view());
        }
        r
    }
}

/// Builds the variant batch key for one nested request: the requested field
/// names are projected onto allow-listed columns, and a SKU filter whose
/// value cannot be bound is rejected here, before any dispatch.
pub fn variant_key(product_id: i32, fields: &Vec<String>, sku: Option<String>) -> (r: Result<
    VariantLoadKey,
    FilterError,
>)
    ensures
        match r {
            Ok(k) => {
                &&& k.product_id == product_id
                &&& k.columns.deep_view() == spec_project(
                    Collection::Variants,
                    fields.deep_view(),
                )
                &&& opt_view(k.sku) == opt_view(sku)
                &&& (k.sku matches Some(v) ==> filter_value_ok(v@))
            },
            Err(e) => {
                &&& e == FilterError::UnboundableValue
                &&& (sku matches Some(v) && !filter_value_ok(v@))
            },
        },
{
    match &sku {
        Some(v) => {
            if !check_filter_value(v.as_str()) {
                return Err(FilterError::UnboundableValue);
            }
        },
        None => {},
    }
    let columns = project_columns(Collection::Variants, fields);
    Ok(VariantLoadKey { product_id, columns, sku })
}

/// Builds the media batch key for one nested request.  Media requests carry
/// no narrowing filter.
pub fn media_key(product_id: i32, fields: &Vec<String>) -> (r: ProductMediaLoadKey)
    ensures
        r.product_id == product_id,
        r.columns.deep_view() == spec_project(Collection::Media, fields.deep_view()),
{
    let columns = project_columns(Collection::Media, fields);
    ProductMediaLoadKey { product_id, columns }
}

impl VariantLoadKey {
    /// The loader-facing form of this key.
    pub fn to_batch_key(&self) -> (r: BatchKey)
        ensures
            r.entity_id == self.product_id,
            r.columns.deep_view() == self.columns.deep_view(),
            opt_view(r.filter) == opt_view(self.sku),
    {
        let r = BatchKey {
            entity_id: self.product_id,
            columns: self.columns.clone(),
            filter: self.sku.clone(),
        };
        proof {
            assert(r.columns.deep_view() =~= self.columns.deep_view());
        }
        r
    }
}

impl ProductMediaLoadKey {
    /// The loader-facing form of this key; media requests have no filter.
    pub fn to_batch_key(&self) -> (r: BatchKey)
        ensures
            r.entity_id == self.product_id,
            r.columns.deep_view() == self.columns.deep_view(),
            r.filter is None,
    {
        let r = BatchKey {
            entity_id: self.product_id,
            columns: self.columns.clone(),
            filter: None,
        };
        proof {
            assert(r.columns.deep_view() =~= self.columns.deep_view());
        }
        r
    }
}

} // verus!
