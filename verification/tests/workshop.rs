use acf_workshop::acf::parser::file_to_acf;
use acf_workshop::acf::value::AcfValue;
use acf_workshop::workshop::diff::{diff, needs_update};
use acf_workshop::workshop::extract::{extract_workshop, ExtractError};
use acf_workshop::workshop::timestamps::WorkshopTimestampMap;

const TWO_ITEMS: &str = "\"Root\"{\"WorkshopItemsInstalled\"{\"111\"{\"timeupdated\" \"100\"}\"222\"{\"timeupdated\" \"200\"}}}";

fn entries_of(text: &str) -> Vec<AcfValue<'_>> {
    match file_to_acf(text) {
        Ok(AcfValue::Collection(_, entries)) => entries,
        other => panic!("no document: {:?}", other),
    }
}

fn sorted(mut ids: Vec<String>) -> Vec<String> {
    ids.sort();
    ids
}

#[test]
fn two_installed_items_give_two_update_times() {
    let map = extract_workshop(entries_of(TWO_ITEMS)).unwrap();
    assert_eq!(map.len(), 2);
    assert_eq!(map.get("111"), Some(100));
    assert_eq!(map.get("222"), Some(200));
    assert_eq!(map.get("333"), None);
    assert_eq!(sorted(map.ids().clone()), vec!["111".to_string(), "222".to_string()]);
}

#[test]
fn only_the_item_with_a_later_time_is_updated() {
    let local = extract_workshop(entries_of(TWO_ITEMS)).unwrap();
    let mut remote = WorkshopTimestampMap::new();
    remote.insert("111", 150);
    remote.insert("222", 200);
    remote.insert("333", 999);
    assert_eq!(diff(&local, &remote), vec!["111".to_string()]);
}

#[test]
fn an_update_time_that_is_no_number_is_an_error() {
    let text = "\"Root\"{\"WorkshopItemsInstalled\"{\"111\"{\"timeupdated\" \"notanumber\"}}}";
    match extract_workshop(entries_of(text)) {
        Err(error) => assert_eq!(
            error,
            ExtractError { id: "111".to_string(), value: "notanumber".to_string() }
        ),
        Ok(_) => panic!("an update time was made up"),
    }
}

#[test]
fn an_item_without_update_time_is_passed_over() {
    let text = "\"Root\"{\"WorkshopItemsInstalled\"{\"444\"{\"name\" \"Foo\"}\"555\"{\"timeupdated\" \"5\"}}}";
    let map = extract_workshop(entries_of(text)).unwrap();
    assert_eq!(map.get("444"), None);
    assert_eq!(map.get("555"), Some(5));
    assert_eq!(map.len(), 1);
}

#[test]
fn a_document_without_installed_items_gives_the_empty_map() {
    let text = "\"AppWorkshop\"\n{\n\t\"appid\"\t\t\"108600\"\n\t\"WorkshopItemDetails\"\n\t{\n\t\t\"1\"\n\t\t{\n\t\t\t\"timeupdated\"\t\t\"7\"\n\t\t}\n\t}\n}\n";
    let map = extract_workshop(entries_of(text)).unwrap();
    assert!(map.is_empty());
    assert_eq!(map.len(), 0);
    assert!(map.ids().is_empty());
}

#[test]
fn extracting_twice_gives_the_same_map() {
    let first = extract_workshop(entries_of(TWO_ITEMS)).unwrap();
    let second = extract_workshop(entries_of(TWO_ITEMS)).unwrap();
    assert_eq!(first.len(), second.len());
    for id in first.ids() {
        assert_eq!(first.get(id), second.get(id));
    }
    for id in second.ids() {
        assert_eq!(first.get(id), second.get(id));
    }
}

#[test]
fn an_item_is_updated_exactly_if_the_other_time_is_later() {
    let mut local = WorkshopTimestampMap::new();
    local.insert("7", 100);
    assert!(needs_update(&local, "7", 101));
    assert!(!needs_update(&local, "7", 100));
    assert!(!needs_update(&local, "7", 99));
    assert!(!needs_update(&local, "7", 0));
    assert!(needs_update(&local, "7", u64::MAX));
}

#[test]
fn an_item_unknown_here_is_never_updated() {
    let mut local = WorkshopTimestampMap::new();
    local.insert("7", 100);
    assert!(!needs_update(&local, "8", u64::MAX));
    assert!(!needs_update(&local, "", 101));
    let mut remote = WorkshopTimestampMap::new();
    remote.insert("8", u64::MAX);
    remote.insert("70", 101);
    assert!(diff(&local, &remote).is_empty());
}

#[test]
fn nothing_known_here_means_nothing_updated() {
    let local = WorkshopTimestampMap::new();
    let mut remote = WorkshopTimestampMap::new();
    remote.insert("1", 1);
    remote.insert("2", 2);
    assert!(diff(&local, &remote).is_empty());
    assert!(diff(&local, &local).is_empty());
}

#[test]
fn every_updated_item_is_reported_once() {
    let mut local = WorkshopTimestampMap::new();
    let mut remote = WorkshopTimestampMap::new();
    for (id, here, there) in [("a", 1, 2), ("b", 5, 5), ("c", 9, 3), ("d", 0, u64::MAX), ("e", 4, 5)] {
        local.insert(id, here);
        remote.insert(id, there);
    }
    remote.insert("a", 3);
    assert_eq!(
        sorted(diff(&local, &remote)),
        vec!["a".to_string(), "d".to_string(), "e".to_string()]
    );
}

#[test]
fn a_later_record_of_an_item_replaces_the_earlier_one() {
    let text = "\"Root\"{\"WorkshopItemsInstalled\"{\"1\"{\"timeupdated\" \"10\"}\"1\"{\"timeupdated\" \"20\"}}}";
    let map = extract_workshop(entries_of(text)).unwrap();
    assert_eq!(map.len(), 1);
    assert_eq!(map.get("1"), Some(20));
}

#[test]
fn the_first_update_time_of_an_item_counts() {
    let text = "\"Root\"{\"WorkshopItemsInstalled\"{\"1\"{\"size\" \"3\" \"timeupdated\" \"10\" \"timeupdated\" \"x\"}}}";
    let map = extract_workshop(entries_of(text)).unwrap();
    assert_eq!(map.get("1"), Some(10));
}

#[test]
fn every_list_of_installed_items_is_read() {
    let text = "\"Root\"{\"WorkshopItemsInstalled\"{\"1\"{\"timeupdated\" \"10\"}}\"other\"{\"2\"{\"timeupdated\" \"20\"}}\"WorkshopItemsInstalled\"{\"3\"{\"timeupdated\" \"30\"}}}";
    let map = extract_workshop(entries_of(text)).unwrap();
    assert_eq!(map.len(), 2);
    assert_eq!(map.get("1"), Some(10));
    assert_eq!(map.get("2"), None);
    assert_eq!(map.get("3"), Some(30));
}

#[test]
fn the_first_bad_update_time_is_the_one_reported() {
    let text = "\"Root\"{\"WorkshopItemsInstalled\"{\"1\"{\"timeupdated\" \"10\"}\"2\"{\"timeupdated\" \"-1\"}\"3\"{\"timeupdated\" \"\"}}}";
    match extract_workshop(entries_of(text)) {
        Err(error) => {
            assert_eq!(error.id, "2");
            assert_eq!(error.value, "-1");
        }
        Ok(_) => panic!("a negative update time was accepted"),
    }
}

#[test]
fn pairs_and_nulls_among_the_items_are_passed_over() {
    let content = vec![
        AcfValue::Null,
        AcfValue::Pair("WorkshopItemsInstalled", "1"),
        AcfValue::Collection(
            "WorkshopItemsInstalled",
            vec![
                AcfValue::Pair("timeupdated", "1"),
                AcfValue::Null,
                AcfValue::Collection("9", vec![AcfValue::Null, AcfValue::Pair("timeupdated", "18446744073709551615")]),
            ],
        ),
    ];
    let map = extract_workshop(content).unwrap();
    assert_eq!(map.len(), 1);
    assert_eq!(map.get("9"), Some(u64::MAX));
}

#[test]
fn insert_replaces_the_time_of_a_known_item() {
    let mut map = WorkshopTimestampMap::new();
    assert!(map.is_empty());
    map.insert("1", 5);
    map.insert("2", 6);
    map.insert("1", 7);
    assert!(!map.is_empty());
    assert_eq!(map.len(), 2);
    assert_eq!(map.get("1"), Some(7));
    assert_eq!(map.get("2"), Some(6));
    assert_eq!(sorted(map.ids().clone()), vec!["1".to_string(), "2".to_string()]);
}

#[test]
fn a_failure_names_the_item_and_what_stands_for_its_time() {
    let text = "\"Root\"{\"WorkshopItemsInstalled\"{\"111\"{\"timeupdated\" \"soon\"}}}";
    match extract_workshop(entries_of(text)) {
        Err(error) => assert_eq!(
            error.message(),
            "the update time of the workshop item 111 is no number: soon"
        ),
        Ok(_) => panic!("an update time was made up"),
    }
}
