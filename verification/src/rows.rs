//! Fetched rows and their demultiplexing back to the keys that asked for
//! them.
//!
//! A bulk fetch returns rows for many entities at once; each row carries
//! its owning entity's id so it can be attributed back.  A row is handed to
//! a key only when the row's entity reference equals the key's and the
//! row satisfies the key's narrowing filter, in store order.

use vstd::prelude::*;

use crate::columns::str_eq;
use crate::keys::BatchKey;

verus! {

/// rust_decimal's fixed-precision decimal, carried through opaquely; the
/// loader never reads it.
#[verifier::external_type_specification]
#[verifier::external_body]
pub struct ExDecimal(rust_decimal::Decimal);

/// serde_json's dynamic value, carried through opaquely; the loader never
/// reads it.
#[verifier::external_type_specification]
#[verifier::external_body]
pub struct ExValue(serde_json::Value);

/// Relies on rust_decimal's derived Clone for Decimal: the clone equals
/// the original.
pub assume_specification[ <rust_decimal::Decimal as Clone>::clone ](
    d: &rust_decimal::Decimal,
) -> (r: rust_decimal::Decimal)
    ensures
        r == *d,
;

/// Relies on serde_json's derived Clone for Value: the clone equals the
/// original.
pub assume_specification[ <serde_json::Value as Clone>::clone ](v: &serde_json::Value) -> (r:
    serde_json::Value)
    ensures
        r == *v,
;

/// One row of the product_variants collection, keyed by its owning product.
pub struct VariantGQL {
    pub id: i32,
    pub product_id: i32,
    pub sku: String,
    pub price_amount: rust_decimal::Decimal,
    pub price_currency: String,
    pub stock_quantity: i32,
    pub is_active: bool,
    pub attributes: serde_json::Value,
}

impl Clone for VariantGQL {
    /// A clone equals the original row.
    fn clone(&self) -> (r: Self)
        ensures
            r == *self,
    {
        VariantGQL {
            id: self.id,
            product_id: self.product_id,
            sku: self.sku.clone(),
            price_amount: self.price_amount.clone(),
            price_currency: self.price_currency.clone(),
            stock_quantity: self.stock_quantity,
            is_active: self.is_active,
            attributes: self.attributes.clone(),
        }
    }
}

/// One row of the media collection, keyed by its owning product.
#[derive(Clone, Copy, PartialEq, Eq, Structural, Debug)]
pub struct Media {
    pub id: i32,
    pub product_id: i32,
    pub category_id: i32,
    pub is_primary: bool,
}

/// A failed bulk fetch, as reported by the store.
#[derive(Debug)]
pub struct FetchError {
    pub message: String,
}

impl Clone for FetchError {
    /// A clone equals the original error.
    fn clone(&self) -> (r: Self)
        ensures
            r == *self,
    {
        FetchError { message: self.message.clone() }
    }
}

/// Whether a variant row belongs to key `k`: its owning product matches
/// and, when the key narrows by SKU, the row's SKU equals the filter value.
pub open spec fn variant_matches(r: VariantGQL, k: BatchKey) -> bool {
    &&& r.product_id == k.entity_id
    &&& match k.filter {
        Some(v) => r.sku@ == v@,
        None => true,
    }
}

/// The predicate `variant_matches` fixed to one key.
pub open spec fn variant_pred(k: BatchKey) -> spec_fn(VariantGQL) -> bool {
    |r: VariantGQL| variant_matches(r, k)
}

/// Whether a media row belongs to key `k`.  Media requests carry no
/// narrowing filter; a key that somehow carries one matches no row, so no
/// row can leak past a filter the fetch never applied.
pub open spec fn media_matches(r: Media, k: BatchKey) -> bool {
    &&& r.product_id == k.entity_id
    &&& k.filter is None
}

/// The predicate `media_matches` fixed to one key.
pub open spec fn media_pred(k: BatchKey) -> spec_fn(Media) -> bool {
    |r: Media| media_matches(r, k)
}

/// One step of `Seq::filter`: filtering a sequence extended by one element.
proof fn lemma_filter_push<A>(s: Seq<A>, x: A, pred: spec_fn(A) -> bool)
    ensures
        s.push(x).filter(pred) == if pred(x) {
            s.filter(pred).push(x)
        } else {
            s.filter(pred)
        },
{
    reveal(Seq::filter);
    assert(s.push(x).drop_last() =~= s);
    assert(s.push(x).last() == x);
}

/// Demultiplexing for variants: the subsequence of `rows`, in store order,
/// whose rows belong to `k`.
pub fn variant_rows_for_key(rows: &Vec<VariantGQL>, k: &BatchKey) -> (out: Vec<VariantGQL>)
    ensures
        out@ == rows@.filter(variant_pred(*k)),
{
    let mut out: Vec<VariantGQL> = Vec::new();
    let n = rows.len();
    let mut i: usize = 0;
    while i < n
        invariant
            i <= n,
            n == rows.len(),
            out@ == rows@.take(i as int).filter(variant_pred(*k)),
        decreases n - i,
    {
        let row = &rows[i];
        let keep = row.product_id == k.entity_id && (match &k.filter {
            Some(v) => str_eq(row.sku.as_str(), v.as_str()),
            None => true,
        });
        if keep {
            out.push(rows[i].clone());
        }
        proof {
            assert(rows@.take(i as int + 1) =~= rows@.take(i as int).push(rows@[i as int]));
            lemma_filter_push(rows@.take(i as int), rows@[i as int], variant_pred(*k));
        }
        i = i + 1;
    }
    proof {
        assert(rows@.take(n as int) =~= rows@);
    }
    out
}

/// Demultiplexing for media rows: the subsequence of `rows`, in store
/// order, whose rows belong to `k`.
pub fn media_rows_for_key(rows: &Vec<Media>, k: &BatchKey) -> (out: Vec<Media>)
    ensures
        out@ == rows@.filter(media_pred(*k)),
{
    let mut out: Vec<Media> = Vec::new();
    let n = rows.len();
    let mut i: usize = 0;
    while i < n
        invariant
            i <= n,
            n == rows.len(),
            out@ == rows@.take(i as int).filter(media_pred(*k)),
        decreases n - i,
    {
        let row = &rows[i];
        let keep = row.product_id == k.entity_id && (match &k.filter {
            Some(_) => false,
            None => true,
        });
        if keep {
            out.push(rows[i]);
        }
        proof {
            assert(rows@.take(i as int + 1) =~= rows@.take(i as int).push(rows@[i as int]));
            lemma_filter_push(rows@.take(i as int), rows@[i as int], media_pred(*k));
        }
        i = i + 1;
    }
    proof {
        assert(rows@.take(n as int) =~= rows@);
    }
    out
}

/// Every row attributed to a key belongs to it: its entity reference equals
/// the key's, and it satisfies the key's narrowing filter when present.
pub proof fn lemma_demux_sound(rows: Seq<VariantGQL>, k: BatchKey)
    ensures
        forall|i: int|
            0 <= i < rows.filter(variant_pred(k)).len() ==> variant_matches(
                #[trigger] rows.filter(variant_pred(k))[i],
                k,
            ),
{
    broadcast use vstd::seq_lib::group_filter_ensures;

    assert forall|i: int| 0 <= i < rows.filter(variant_pred(k)).len() implies variant_matches(
        rows.filter(variant_pred(k))[i],
        k,
    ) by {
        assert(variant_pred(k)(rows.filter(variant_pred(k))[i]));
    }
}

/// Every media row attributed to a key belongs to it.
pub proof fn lemma_media_demux_sound(rows: Seq<Media>, k: BatchKey)
    ensures
        forall|i: int|
            0 <= i < rows.filter(media_pred(k)).len() ==> media_matches(
                #[trigger] rows.filter(media_pred(k))[i],
                k,
            ),
{
    broadcast use vstd::seq_lib::group_filter_ensures;

    assert forall|i: int| 0 <= i < rows.filter(media_pred(k)).len() implies media_matches(
        rows.filter(media_pred(k))[i],
        k,
    ) by {
        assert(media_pred(k)(rows.filter(media_pred(k))[i]));
    }
}

/// An entity with no matching rows resolves to the empty sequence — a
/// normal outcome, not an error.
pub proof fn lemma_demux_missing_entity_empty(rows: Seq<VariantGQL>, k: BatchKey)
    requires
        forall|i: int| 0 <= i < rows.len() ==> (#[trigger] rows[i]).product_id != k.entity_id,
    ensures
        rows.filter(variant_pred(k)) =~= Seq::<VariantGQL>::empty(),
    decreases rows.len(),
{
    reveal(Seq::filter);
    if rows.len() > 0 {
        lemma_demux_missing_entity_empty(rows.drop_last(), k);
    }
}

} // verus!
