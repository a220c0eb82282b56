use terarium::naming::{decimal_text, synthetic_handle_name};
use terarium::string_map::StringMap;
use terarium::template::{Content, Template};

fn texts(keys: &Vec<String>) -> Vec<&str> {
    keys.iter().map(|k| k.as_str()).collect()
}

#[test]
fn string_map_keeps_order_of_first_insertion() {
    let mut map: StringMap<u32> = StringMap::new();
    assert!(map.is_empty());
    assert_eq!(map.insert("b".to_owned(), 1), None);
    assert_eq!(map.insert("a".to_owned(), 2), None);
    assert_eq!(map.insert("c".to_owned(), 3), None);
    assert_eq!(texts(map.keys()), vec!["b", "a", "c"]);
    assert_eq!(map.values(), &vec![1, 2, 3]);
    assert_eq!(map.len(), 3);
}

#[test]
fn string_map_insert_replaces_in_place() {
    let mut map: StringMap<u32> = StringMap::new();
    map.insert("b".to_owned(), 1);
    map.insert("a".to_owned(), 2);
    assert_eq!(map.insert("b".to_owned(), 9), Some(1));
    assert_eq!(texts(map.keys()), vec!["b", "a"]);
    assert_eq!(map.values(), &vec![9, 2]);
    assert_eq!(map.get("b"), Some(&9));
    assert_eq!(map.get("x"), None);
    assert!(map.contains_key("a"));
    assert!(!map.contains_key("x"));
}

#[test]
fn string_map_remove_keeps_the_rest_in_order() {
    let mut map: StringMap<u32> = StringMap::new();
    map.insert("b".to_owned(), 1);
    map.insert("a".to_owned(), 2);
    map.insert("c".to_owned(), 3);
    assert_eq!(map.remove("a"), Some(2));
    assert_eq!(map.remove("a"), None);
    assert_eq!(texts(map.keys()), vec!["b", "c"]);
    assert_eq!(map.values(), &vec![1, 3]);
}

#[test]
fn string_map_get_mut_changes_one_value() {
    let mut map: StringMap<u32> = StringMap::new();
    map.insert("b".to_owned(), 1);
    map.insert("a".to_owned(), 2);
    *map.get_mut("a").unwrap() = 7;
    assert!(map.get_mut("x").is_none());
    assert_eq!(texts(map.keys()), vec!["b", "a"]);
    assert_eq!(map.values(), &vec![1, 7]);
}

#[test]
fn decimal_text_writes_numbers_without_leading_zeros() {
    assert_eq!(decimal_text(0), "0");
    assert_eq!(decimal_text(7), "7");
    assert_eq!(decimal_text(10), "10");
    assert_eq!(decimal_text(12345), "12345");
    assert_eq!(decimal_text(9007199254740993), "9007199254740993");
    assert_eq!(decimal_text(u128::MAX), "340282366920938463463374607431768211455");
}

#[test]
fn synthetic_handle_name_is_prefix_and_counter() {
    assert_eq!(synthetic_handle_name(1), "template#1");
    assert_eq!(synthetic_handle_name(42), "template#42");
    assert_ne!(synthetic_handle_name(1), synthetic_handle_name(10));
}

#[test]
fn template_refuses_a_variant_without_locale() {
    let untagged: Content<String> = Content::new("body".to_owned(), vec![]);
    assert!(Template::default().add_content(untagged.clone()).is_none());

    let mut template: Template<String> = Template::new();
    assert!(!template.push_content(untagged));
    assert_eq!(template.len(), 0);
    assert!(template.push_content(Content::new("body".to_owned(), vec!["en".to_owned()])));
    assert_eq!(template.len(), 1);
}

#[test]
fn template_keeps_variants_in_insertion_order() {
    let template = Template::default()
        .add_content(Content::new("first".to_owned(), vec![2u8]))
        .unwrap()
        .add_content(Content::named("given".to_owned(), "second".to_owned(), vec![1u8, 2u8]))
        .unwrap();
    assert_eq!(template.contents().len(), 2);
    let contents = template.collect_contents();
    assert_eq!(contents[0], Content::new("first".to_owned(), vec![2u8]));
    assert_eq!(contents[1].content, "second");
    assert_eq!(contents[1].languages, vec![1u8, 2u8]);
    assert_eq!(contents[1].name, Some("given".to_owned()));
}
