use goodbye_stuff::filter::get_items_by_category;
use goodbye_stuff::index::get_categories;
use goodbye_stuff::normalize::{normalize_item, normalize_records};
use goodbye_stuff::raw::{RawEntry, RawRecord, RawValue};

fn s(x: &str) -> String {
    x.to_string()
}

fn entry(key: &str, value: RawValue) -> RawEntry {
    RawEntry { key: s(key), value }
}

fn str_list(values: Vec<&str>) -> RawValue {
    RawValue::List(values.into_iter().map(|v| RawValue::Str(v.to_string())).collect())
}

#[test]
fn empty_raw_record_normalizes_to_all_absent_item() {
    let it = normalize_item(&vec![]);
    assert!(it.name.is_none());
    assert!(it.description.is_none());
    assert!(it.price.is_none());
    assert!(it.images.is_none());
    assert!(it.categories.is_none());
    assert!(it.publish.is_none());
}

#[test]
fn recognized_fields_are_extracted() {
    let fields = vec![
        entry("name", RawValue::Str(s("Chair"))),
        entry("description", RawValue::Str(s("a nice chair"))),
        entry("price", RawValue::Int(20)),
        entry("categories", str_list(vec!["furniture"])),
        entry("publish", RawValue::Bool(true)),
    ];
    let it = normalize_item(&fields);
    assert_eq!(it.name, Some(s("Chair")));
    assert_eq!(it.description, Some(s("a nice chair")));
    assert_eq!(it.price, Some(20));
    assert_eq!(it.categories, Some(vec![s("furniture")]));
    assert_eq!(it.publish, Some(true));
    assert!(it.images.is_none());
}

#[test]
fn wrongly_shaped_fields_degrade_to_absent_per_field() {
    let fields = vec![
        entry("name", RawValue::Int(7)),
        entry("price", RawValue::Str(s("20"))),
        entry("categories", RawValue::Str(s("furniture"))),
        entry("publish", RawValue::Str(s("yes"))),
        entry("images", RawValue::Bool(true)),
        entry("description", RawValue::Str(s("still here"))),
    ];
    let it = normalize_item(&fields);
    assert!(it.name.is_none());
    assert!(it.price.is_none());
    assert!(it.categories.is_none());
    assert!(it.publish.is_none());
    assert!(it.images.is_none());
    assert_eq!(it.description, Some(s("still here")));
}

#[test]
fn duplicate_keys_take_the_first_entry() {
    let fields = vec![
        entry("name", RawValue::Str(s("first"))),
        entry("name", RawValue::Str(s("second"))),
    ];
    let it = normalize_item(&fields);
    assert_eq!(it.name, Some(s("first")));
}

#[test]
fn out_of_range_price_is_absent() {
    let fields = vec![entry("price", RawValue::Int(1 << 40))];
    let it = normalize_item(&fields);
    assert!(it.price.is_none());
}

#[test]
fn publish_false_is_still_present() {
    let fields = vec![entry("publish", RawValue::Bool(false))];
    let it = normalize_item(&fields);
    assert_eq!(it.publish, Some(false));
}

#[test]
fn non_string_category_elements_are_dropped() {
    let fields = vec![entry(
        "categories",
        RawValue::List(vec![RawValue::Str(s("a")), RawValue::Int(3), RawValue::Str(s("b"))]),
    )];
    let it = normalize_item(&fields);
    assert_eq!(it.categories, Some(vec![s("a"), s("b")]));
}

#[test]
fn empty_category_list_is_present_but_empty() {
    let fields = vec![entry("categories", RawValue::List(vec![]))];
    let it = normalize_item(&fields);
    assert_eq!(it.categories, Some(vec![]));
}

#[test]
fn attachments_keep_url_and_named_thumbnails() {
    let thumb = RawValue::Obj(vec![entry("url", RawValue::Str(s("https://img/large.png")))]);
    let attachment = RawValue::Obj(vec![
        entry("url", RawValue::Str(s("https://img/full.png"))),
        entry("thumbnails", RawValue::Obj(vec![entry("large", thumb)])),
    ]);
    let fields = vec![entry("images", RawValue::List(vec![attachment]))];
    let it = normalize_item(&fields);
    let images = it.images.expect("images should be present");
    assert_eq!(images.len(), 1);
    assert_eq!(images[0].url, s("https://img/full.png"));
    let url = images[0].thumbnail_url("large").expect("large variant should be there");
    assert_eq!(url, &s("https://img/large.png"));
    assert!(images[0].thumbnail_url("small").is_none());
}

#[test]
fn attachment_without_url_is_skipped() {
    let bad = RawValue::Obj(vec![entry("caption", RawValue::Str(s("no url here")))]);
    let good = RawValue::Obj(vec![entry("url", RawValue::Str(s("https://img/full.png")))]);
    let fields = vec![entry("images", RawValue::List(vec![bad, good]))];
    let it = normalize_item(&fields);
    let images = it.images.expect("images should be present");
    assert_eq!(images.len(), 1);
    assert_eq!(images[0].url, s("https://img/full.png"));
    assert!(images[0].thumbnails.is_none());
}

#[test]
fn missing_thumbnail_variant_degrades_to_no_image() {
    let attachment = RawValue::Obj(vec![
        entry("url", RawValue::Str(s("https://img/full.png"))),
        entry("thumbnails", RawValue::Str(s("not an object"))),
    ]);
    let fields = vec![entry("images", RawValue::List(vec![attachment]))];
    let it = normalize_item(&fields);
    let images = it.images.expect("images should be present");
    assert!(images[0].thumbnails.is_none());
    assert!(images[0].thumbnail_url("large").is_none());
}

#[test]
fn first_image_takes_the_first_attachment_or_nothing() {
    let a1 = RawValue::Obj(vec![entry("url", RawValue::Str(s("https://img/1.png")))]);
    let a2 = RawValue::Obj(vec![entry("url", RawValue::Str(s("https://img/2.png")))]);
    let fields = vec![entry("images", RawValue::List(vec![a1, a2]))];
    let it = normalize_item(&fields);
    assert_eq!(it.first_image().expect("has an image").url, s("https://img/1.png"));

    let none = normalize_item(&vec![]);
    assert!(none.first_image().is_none());

    let empty = normalize_item(&vec![entry("images", RawValue::List(vec![]))]);
    assert!(empty.first_image().is_none());
}

#[test]
fn end_to_end_catalog_pipeline() {
    let rows = vec![
        RawRecord {
            id: s("r1"),
            fields: vec![
                entry("name", RawValue::Str(s("Chair"))),
                entry("price", RawValue::Int(20)),
                entry("publish", RawValue::Bool(true)),
                entry("categories", str_list(vec!["furniture"])),
            ],
        },
        RawRecord {
            id: s("r2"),
            fields: vec![
                entry("name", RawValue::Str(s("Skis"))),
                entry("publish", RawValue::Bool(true)),
                entry("categories", str_list(vec!["sports", "winter"])),
            ],
        },
        RawRecord {
            id: s("r3"),
            fields: vec![
                entry("name", RawValue::Str(s("Draft Item"))),
                entry("categories", str_list(vec!["sports"])),
            ],
        },
    ];
    let records = normalize_records(&rows);
    assert_eq!(records.len(), 3);

    let index = get_categories(records.clone());
    assert_eq!(index, vec![s("furniture"), s("sports"), s("winter")]);

    let all = get_items_by_category(records.clone(), None);
    let all_ids: Vec<String> = all.into_iter().map(|r| r.id).collect();
    assert_eq!(all_ids, vec![s("r1"), s("r2")]);

    let sports = get_items_by_category(records, Some(s("sports")));
    let sports_ids: Vec<String> = sports.into_iter().map(|r| r.id).collect();
    assert_eq!(sports_ids, vec![s("r2")]);
}
