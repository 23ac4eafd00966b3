use rust_store::columns::Collection;
use rust_store::columns::resolve_column;
use rust_store::columns::to_snake_case;
use rust_store::config::AppConfig;
use rust_store::config::DatabaseConfig;
use rust_store::keys::media_key;
use rust_store::keys::variant_key;
use rust_store::loader::FetchPlan;
use rust_store::paging::ProductGQL;
use rust_store::paging::build_connection;
use rust_store::paging::format_cursor;
use rust_store::paging::page_params;
use rust_store::paging::parse_cursor;
use rust_store::projection::project_columns;
use rust_store::query::media_bulk_query;
use rust_store::query::product_by_id_query;
use rust_store::query::products_page_query;
use rust_store::query::variant_bulk_query;

fn cols(names: &[&str]) -> Vec<String> {
    names.iter().map(|s| s.to_string()).collect()
}

#[test]
fn snake_case_lowers_and_separates() {
    assert_eq!(to_snake_case("stockQuantity"), "stock_quantity");
    assert_eq!(to_snake_case("PascalCase"), "pascal_case");
    assert_eq!(to_snake_case("priceAmount"), "price_amount");
    assert_eq!(to_snake_case("id"), "id");
    assert_eq!(to_snake_case(""), "");
    assert_eq!(to_snake_case("ABC"), "a_b_c");
}

#[test]
fn snake_case_lowers_beyond_ascii() {
    assert_eq!(to_snake_case("a\u{c4}"), "a_\u{e4}");
    assert_eq!(to_snake_case("\u{dc}ber"), "\u{fc}ber");
    assert_eq!(to_snake_case("gr\u{f6}\u{df}e"), "gr\u{f6}\u{df}e");
}

#[test]
fn allow_list_admits_known_columns_only() {
    assert_eq!(resolve_column(Collection::Products, "name").as_deref(), Some("name"));
    assert_eq!(resolve_column(Collection::Products, "variants"), None);
    assert_eq!(resolve_column(Collection::Products, "media"), None);
    assert_eq!(resolve_column(Collection::Products, "node"), None);
    assert_eq!(resolve_column(Collection::Products, "createdBy"), None);
    assert_eq!(
        resolve_column(Collection::Variants, "stockQuantity").as_deref(),
        Some("stock_quantity")
    );
    assert_eq!(resolve_column(Collection::Variants, "no_such_column"), None);
    assert_eq!(resolve_column(Collection::Media, "isPrimary").as_deref(), Some("is_primary"));
}

#[test]
fn projection_prepends_mandatory_and_deduplicates() {
    let fields = cols(&["sku", "priceAmount", "stockQuantity", "sku", "variants", "bogus"]);
    let projected = project_columns(Collection::Variants, &fields);
    assert_eq!(
        projected,
        cols(&["id", "sku", "product_id", "price_amount", "stock_quantity"])
    );

    let none: Vec<String> = Vec::new();
    assert_eq!(project_columns(Collection::Products, &none), cols(&["id"]));
    assert_eq!(project_columns(Collection::Media, &none), cols(&["id", "product_id"]));
}

#[test]
fn variant_and_media_keys_carry_projected_columns() {
    let key = variant_key(42, &cols(&["sku", "isActive"]), None).unwrap();
    assert_eq!(key.product_id, 42);
    assert_eq!(key.columns, cols(&["id", "sku", "product_id", "is_active"]));
    assert_eq!(key.sku, None);

    let mkey = media_key(9, &cols(&["categoryId", "isPrimary", "url"]));
    assert_eq!(mkey.product_id, 9);
    assert_eq!(mkey.columns, cols(&["id", "product_id", "category_id", "is_primary"]));

    let b = key.to_batch_key();
    assert_eq!(b.entity_id, 42);
    assert_eq!(b.columns, key.columns);
    assert_eq!(b.filter, None);
    let mb = mkey.to_batch_key();
    assert_eq!(mb.filter, None);
}

#[test]
fn bulk_query_text_is_the_fixed_template_around_the_columns() {
    let plan = FetchPlan {
        columns: cols(&["id", "sku", "product_id"]),
        filter: Some("X".to_string()),
        entity_ids: vec![1, 2],
        members: vec![0, 1],
    };
    assert_eq!(
        variant_bulk_query(&plan),
        "SELECT id, sku, product_id FROM product_variants WHERE product_id = ANY($1) AND sku = $2"
    );

    let plan2 = FetchPlan {
        columns: cols(&["id", "sku", "product_id"]),
        filter: None,
        entity_ids: vec![1],
        members: vec![0],
    };
    assert_eq!(
        variant_bulk_query(&plan2),
        "SELECT id, sku, product_id FROM product_variants WHERE product_id = ANY($1)"
    );

    let mplan = FetchPlan {
        columns: cols(&["id", "product_id", "is_primary"]),
        filter: None,
        entity_ids: vec![4],
        members: vec![0],
    };
    assert_eq!(
        media_bulk_query(&mplan),
        "SELECT id, product_id, is_primary FROM product_category_junction WHERE product_id = ANY($1)"
    );
}

#[test]
fn product_query_text_binds_paging_parameters() {
    assert_eq!(
        products_page_query(&cols(&["id", "name", "slug"])),
        "SELECT id, name, slug FROM products LIMIT $1 OFFSET $2"
    );
    assert_eq!(
        product_by_id_query(&cols(&["id", "status"])),
        "SELECT id, status FROM products WHERE id = $1 LIMIT $2"
    );
    assert_eq!(products_page_query(&cols(&["id"])), "SELECT id FROM products LIMIT $1 OFFSET $2");
}

#[test]
fn cursors_round_trip_and_reject_junk() {
    assert_eq!(format_cursor(0), "0");
    assert_eq!(format_cursor(7), "7");
    assert_eq!(format_cursor(12345), "12345");
    assert_eq!(format_cursor(4294967295), "4294967295");

    assert_eq!(parse_cursor("0"), Some(0));
    assert_eq!(parse_cursor("42"), Some(42));
    assert_eq!(parse_cursor("4294967295"), Some(4294967295));
    assert_eq!(parse_cursor(""), None);
    assert_eq!(parse_cursor("4x"), None);
    assert_eq!(parse_cursor("-3"), None);
    assert_eq!(parse_cursor("4294967296"), None);

    for n in [0u32, 1, 9, 10, 99, 100, 65535, 4294967295] {
        assert_eq!(parse_cursor(&format_cursor(n)), Some(n));
    }
}

#[test]
fn page_params_default_and_decode() {
    assert_eq!(page_params(None, None), (10, 0));
    assert_eq!(page_params(Some(5), Some("20")), (5, 20));
    assert_eq!(page_params(Some(3), Some("not-a-cursor")), (3, 0));
    assert_eq!(page_params(None, Some("2147483648")), (10, 0));
}

#[test]
fn connection_pages_with_position_cursors() {
    let products = vec![
        ProductGQL { id: 1, name: None, slug: None, description: None, status: None },
        ProductGQL { id: 2, name: None, slug: None, description: None, status: None },
        ProductGQL { id: 3, name: None, slug: None, description: None, status: None },
    ];
    let c = build_connection(products, 0, 2);
    assert!(!c.has_previous_page);
    assert!(c.has_next_page);
    assert_eq!(c.edges.len(), 2);
    assert_eq!(c.edges[0].cursor, "0");
    assert_eq!(c.edges[0].node.id, 1);
    assert_eq!(c.edges[1].cursor, "1");

    let products2 = vec![ProductGQL {
        id: 9,
        name: Some("Mouse".to_string()),
        slug: None,
        description: None,
        status: None,
    }];
    let c2 = build_connection(products2, 4, 10);
    assert!(c2.has_previous_page);
    assert!(!c2.has_next_page);
    assert_eq!(c2.edges.len(), 1);
    assert_eq!(c2.edges[0].cursor, "4");
    assert_eq!(c2.edges[0].node.name.as_deref(), Some("Mouse"));
}

#[test]
fn config_profiles_hold_their_fixed_values() {
    let dev = AppConfig::development();
    assert!(!dev.use_database);
    assert_eq!(dev.database_url, None);
    assert_eq!(dev.database_max_connections, 10);

    let prod = AppConfig::production("postgresql://localhost/store".to_string());
    assert!(prod.use_database);
    assert_eq!(prod.database_url.as_deref(), Some("postgresql://localhost/store"));

    let db = DatabaseConfig::with_url("postgresql://localhost/store".to_string());
    assert_eq!(db.database_url, "postgresql://localhost/store");
    assert_eq!(db.max_connections, 10);
    assert_eq!(db.min_connections, 1);
    assert_eq!(db.connection_timeout, 30);
}
