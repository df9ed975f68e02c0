use goodbye_stuff::filter::get_items_by_category;
use goodbye_stuff::index::get_categories;
use goodbye_stuff::loader::{visible_records, LoadState};
use goodbye_stuff::model::{Item, Record};

fn s(x: &str) -> String {
    x.to_string()
}

fn item(publish: Option<bool>, categories: Option<Vec<&str>>) -> Item {
    Item {
        name: None,
        description: None,
        price: None,
        images: None,
        categories: categories.map(|cs| cs.into_iter().map(|c| c.to_string()).collect()),
        publish,
    }
}

fn rec(id: &str, fields: Item) -> Record<Item> {
    Record { id: s(id), fields }
}

#[test]
fn index_is_sorted_and_deduplicated() {
    let items = vec![
        rec("a", item(Some(true), Some(vec!["b", "a"]))),
        rec("b", item(None, Some(vec!["a", "c"]))),
    ];
    assert_eq!(get_categories(items), vec![s("a"), s("b"), s("c")]);
}

#[test]
fn index_dedup_is_case_sensitive() {
    let items = vec![
        rec("a", item(Some(true), Some(vec!["sports"]))),
        rec("b", item(Some(true), Some(vec!["Sports"]))),
        rec("c", item(None, Some(vec!["sports"]))),
    ];
    assert_eq!(get_categories(items), vec![s("Sports"), s("sports")]);
}

#[test]
fn index_orders_labels_by_code_point() {
    let items = vec![rec("a", item(Some(true), Some(vec!["éclair", "zebra", "Apple"])))];
    assert_eq!(get_categories(items), vec![s("Apple"), s("zebra"), s("éclair")]);
}

#[test]
fn index_of_empty_collection_is_empty() {
    assert_eq!(get_categories(vec![]), Vec::<String>::new());
}

#[test]
fn index_without_categories_anywhere_is_empty() {
    let items = vec![rec("a", item(Some(true), None)), rec("b", item(None, None))];
    assert_eq!(get_categories(items), Vec::<String>::new());
}

#[test]
fn index_build_is_idempotent_on_same_input() {
    let items = vec![
        rec("a", item(Some(true), Some(vec!["winter", "sports"]))),
        rec("b", item(None, Some(vec!["sports"]))),
    ];
    let once = get_categories(items.clone());
    let twice = get_categories(items);
    assert_eq!(once, twice);
}

#[test]
fn index_is_order_independent() {
    let x = rec("a", item(Some(true), Some(vec!["winter", "sports"])));
    let y = rec("b", item(None, Some(vec!["furniture"])));
    let forward = get_categories(vec![x.clone(), y.clone()]);
    let backward = get_categories(vec![y, x]);
    assert_eq!(forward, backward);
    assert_eq!(forward, vec![s("furniture"), s("sports"), s("winter")]);
}

#[test]
fn filter_keeps_only_published_with_no_selection() {
    let items = vec![
        rec("a", item(Some(true), Some(vec!["a"]))),
        rec("b", item(None, Some(vec!["a"]))),
    ];
    let kept = get_items_by_category(items, None);
    assert_eq!(kept.len(), 1);
    assert_eq!(kept[0].id, s("a"));
}

#[test]
fn filter_counts_publish_false_as_present() {
    let items = vec![rec("a", item(Some(false), None))];
    let kept = get_items_by_category(items, None);
    assert_eq!(kept.len(), 1);
    assert_eq!(kept[0].id, s("a"));
}

#[test]
fn filter_with_selection_excludes_category_less_published_items() {
    let items = vec![rec("a", item(Some(true), None))];
    let kept = get_items_by_category(items, Some(s("a")));
    assert_eq!(kept.len(), 0);
}

#[test]
fn filter_matches_any_position_of_the_category_list() {
    let items = vec![rec("a", item(Some(true), Some(vec!["x", "y", "z"])))];
    let kept = get_items_by_category(items, Some(s("z")));
    assert_eq!(kept.len(), 1);
}

#[test]
fn filter_preserves_input_order() {
    let items = vec![
        rec("a", item(Some(true), Some(vec!["k"]))),
        rec("b", item(None, Some(vec!["k"]))),
        rec("c", item(Some(true), Some(vec!["k"]))),
        rec("d", item(Some(true), Some(vec!["other"]))),
    ];
    let kept = get_items_by_category(items, Some(s("k")));
    let ids: Vec<String> = kept.into_iter().map(|r| r.id).collect();
    assert_eq!(ids, vec![s("a"), s("c")]);
}

#[test]
fn filter_with_unknown_selection_is_empty_not_an_error() {
    let items = vec![rec("a", item(Some(true), Some(vec!["k"])))];
    let kept = get_items_by_category(items, Some(s("missing")));
    assert_eq!(kept.len(), 0);
}

#[test]
fn loader_states_other_than_loaded_show_an_empty_catalog() {
    assert_eq!(visible_records(LoadState::Pending).len(), 0);
    assert_eq!(visible_records(LoadState::Failed(s("remote store unreachable"))).len(), 0);
    let loaded = visible_records(LoadState::Loaded(vec![rec("a", item(Some(true), None))]));
    assert_eq!(loaded.len(), 1);
    assert_eq!(loaded[0].id, s("a"));
}
