use rust_store::keys::BatchKey;
use rust_store::keys::FilterError;
use rust_store::keys::variant_key;
use rust_store::loader::BatchLoader;
use rust_store::rows::FetchError;
use rust_store::rows::Media;
use rust_store::rows::VariantGQL;

fn cols(names: &[&str]) -> Vec<String> {
    names.iter().map(|s| s.to_string()).collect()
}

fn variant_row(id: i32, product_id: i32, sku: &str) -> VariantGQL {
    VariantGQL {
        id,
        product_id,
        sku: sku.to_string(),
        price_amount: rust_decimal::Decimal::new(1299, 2),
        price_currency: "USD".to_string(),
        stock_quantity: 5,
        is_active: true,
        attributes: serde_json::Value::Null,
    }
}

#[test]
fn same_shape_keys_share_one_fetch() {
    // Two keys with the same columns and no filter, for entities 1 and 2:
    // one plan, covering both entities; each key gets only its own rows.
    let mut loader = BatchLoader::new();
    let h1 = loader.submit(BatchKey {
        entity_id: 1,
        columns: cols(&["id", "sku", "product_id", "price_amount"]),
        filter: None,
    });
    let h2 = loader.submit(BatchKey {
        entity_id: 2,
        columns: cols(&["id", "sku", "product_id", "price_amount"]),
        filter: None,
    });
    assert_eq!(h1, 0);
    assert_eq!(h2, 1);

    let plans = loader.plan();
    assert_eq!(plans.len(), 1);
    assert_eq!(plans[0].entity_ids, vec![1, 2]);
    assert_eq!(plans[0].members, vec![0usize, 1usize]);

    let rows = vec![
        variant_row(10, 1, "A-1"),
        variant_row(11, 2, "B-1"),
        variant_row(12, 1, "A-2"),
    ];
    let outcomes = vec![Ok(rows)];
    let results = loader.resolve_variants(&plans, &outcomes);
    assert_eq!(results.len(), 2);
    let r1 = results[0].as_ref().unwrap();
    assert_eq!(r1.len(), 2);
    assert_eq!(r1[0].id, 10);
    assert_eq!(r1[1].id, 12);
    assert!(r1.iter().all(|r| r.product_id == 1));
    assert_eq!(r1[0].sku, "A-1");
    assert_eq!(r1[0].price_amount, rust_decimal::Decimal::new(1299, 2));
    assert_eq!(r1[0].price_currency, "USD");
    assert_eq!(r1[0].attributes, serde_json::Value::Null);
    let r2 = results[1].as_ref().unwrap();
    assert_eq!(r2.len(), 1);
    assert_eq!(r2[0].id, 11);
}

#[test]
fn differing_filters_are_never_merged() {
    // Same entity and columns, one key narrowed by SKU, one not: two
    // separate plans.
    let mut loader = BatchLoader::new();
    loader.submit(BatchKey {
        entity_id: 1,
        columns: cols(&["id", "sku", "product_id"]),
        filter: Some("X".to_string()),
    });
    loader.submit(BatchKey {
        entity_id: 1,
        columns: cols(&["id", "sku", "product_id"]),
        filter: None,
    });
    let plans = loader.plan();
    assert_eq!(plans.len(), 2);
    assert_eq!(plans[0].filter.as_deref(), Some("X"));
    assert_eq!(plans[0].members, vec![0usize]);
    assert_eq!(plans[1].filter, None);
    assert_eq!(plans[1].members, vec![1usize]);
}

#[test]
fn column_order_does_not_split_groups() {
    // The same column set named in two different orders is one group:
    // a single fetch serves both keys, and the plan's column list is the
    // first member's list verbatim.
    let mut loader = BatchLoader::new();
    loader.submit(BatchKey {
        entity_id: 1,
        columns: cols(&["id", "sku", "product_id", "price_amount", "stock_quantity"]),
        filter: None,
    });
    loader.submit(BatchKey {
        entity_id: 2,
        columns: cols(&["id", "sku", "product_id", "stock_quantity", "price_amount"]),
        filter: None,
    });
    let plans = loader.plan();
    assert_eq!(plans.len(), 1);
    assert_eq!(plans[0].entity_ids, vec![1, 2]);
    assert_eq!(
        plans[0].columns,
        cols(&["id", "sku", "product_id", "price_amount", "stock_quantity"])
    );
}

#[test]
fn empty_pass_plans_no_fetch() {
    // Nothing submitted: nothing to fetch, and nothing to resolve.
    let loader = BatchLoader::new();
    let plans = loader.plan();
    assert_eq!(plans.len(), 0);
    let results = loader.resolve_variants(&plans, &Vec::new());
    assert!(results.is_empty());
}

#[test]
fn narrowing_filter_restricts_rows_per_key() {
    // The filtered key receives only rows whose SKU equals the filter
    // value, even if the store handed back more.
    let mut loader = BatchLoader::new();
    loader.submit(BatchKey {
        entity_id: 1,
        columns: cols(&["id", "sku", "product_id"]),
        filter: Some("A-2".to_string()),
    });
    let plans = loader.plan();
    let rows = vec![variant_row(10, 1, "A-1"), variant_row(12, 1, "A-2")];
    let results = loader.resolve_variants(&plans, &vec![Ok(rows)]);
    let r = results[0].as_ref().unwrap();
    assert_eq!(r.len(), 1);
    assert_eq!(r[0].sku, "A-2");
}

#[test]
fn missing_entity_resolves_to_empty_sequence() {
    // The store has nothing for entity 5: the key resolves to an empty
    // sequence, not an error.
    let mut loader = BatchLoader::new();
    loader.submit(BatchKey { entity_id: 5, columns: cols(&["id", "sku", "product_id"]), filter: None });
    let plans = loader.plan();
    assert_eq!(plans.len(), 1);
    let results = loader.resolve_variants(&plans, &vec![Ok(Vec::new())]);
    assert_eq!(results.len(), 1);
    let r = results[0].as_ref().unwrap();
    assert!(r.is_empty());
}

#[test]
fn resubmitting_an_equal_key_reuses_the_handle() {
    // Structural equality deduplicates: both submissions share one handle
    // and only one fetch is planned.
    let mut loader = BatchLoader::new();
    let h1 = loader.submit(BatchKey {
        entity_id: 7,
        columns: cols(&["id", "sku", "product_id"]),
        filter: Some("S".to_string()),
    });
    let h2 = loader.submit(BatchKey {
        entity_id: 7,
        columns: cols(&["id", "sku", "product_id"]),
        filter: Some("S".to_string()),
    });
    assert_eq!(h1, h2);
    assert_eq!(loader.pending(), 1);
    assert_eq!(loader.plan().len(), 1);
}

#[test]
fn failed_partition_fails_only_its_own_keys() {
    // Partition A (filtered) fails, partition B succeeds: the key in A
    // reports the failure, the key in B resolves normally.
    let mut loader = BatchLoader::new();
    loader.submit(BatchKey {
        entity_id: 1,
        columns: cols(&["id", "sku", "product_id"]),
        filter: Some("X".to_string()),
    });
    loader.submit(BatchKey {
        entity_id: 2,
        columns: cols(&["id", "sku", "product_id"]),
        filter: None,
    });
    let plans = loader.plan();
    assert_eq!(plans.len(), 2);
    let outcomes = vec![
        Err(FetchError { message: "connection reset".to_string() }),
        Ok(vec![variant_row(20, 2, "B-1")]),
    ];
    let results = loader.resolve_variants(&plans, &outcomes);
    match &results[0] {
        Err(e) => assert_eq!(e.message, "connection reset"),
        Ok(_) => panic!("partition A must fail"),
    }
    let r2 = results[1].as_ref().unwrap();
    assert_eq!(r2.len(), 1);
    assert_eq!(r2[0].id, 20);
}

#[test]
fn media_rows_are_demultiplexed_by_product() {
    let mut loader = BatchLoader::new();
    loader.submit(BatchKey { entity_id: 1, columns: cols(&["id", "product_id"]), filter: None });
    loader.submit(BatchKey { entity_id: 3, columns: cols(&["id", "product_id"]), filter: None });
    let plans = loader.plan();
    assert_eq!(plans.len(), 1);
    let rows = vec![
        Media { id: 1, product_id: 3, category_id: 9, is_primary: true },
        Media { id: 2, product_id: 1, category_id: 9, is_primary: false },
        Media { id: 3, product_id: 2, category_id: 9, is_primary: false },
    ];
    let results = loader.resolve_media(&plans, &vec![Ok(rows)]);
    let r1 = results[0].as_ref().unwrap();
    assert_eq!(r1.len(), 1);
    assert_eq!(r1[0].id, 2);
    let r3 = results[1].as_ref().unwrap();
    assert_eq!(r3.len(), 1);
    assert_eq!(r3[0].id, 1);
}

#[test]
fn unbindable_filter_value_is_rejected_before_dispatch() {
    let fields = vec!["sku".to_string()];
    let bad = variant_key(1, &fields, Some("A\u{0}B".to_string()));
    assert_eq!(bad.unwrap_err(), FilterError::UnboundableValue);

    let good = variant_key(1, &fields, Some("AB".to_string())).unwrap();
    assert_eq!(good.sku.as_deref(), Some("AB"));
    assert_eq!(good.product_id, 1);
}
