use terarium::string_map::StringMap;
use terarium::template::{Content, Template};
use terarium::terarium::{TemplateGroupBuilder, TerariumBuilder};

fn make_instance() -> TerariumBuilder {
    TerariumBuilder::default()
}

fn pair_map(pairs: &[(&str, &str)]) -> StringMap<String> {
    let mut map = StringMap::new();
    for (key, value) in pairs {
        map.insert(key.to_string(), value.to_string());
    }
    map
}

#[test]
fn terarium_add_template() {
    let mut instance = make_instance();
    instance = instance.add_template(
        "1".to_owned(),
        Template::default()
            .add_content(Content::new("foo".to_string(), vec!["1".to_owned(), "2".to_owned()]))
            .unwrap(),
    );

    assert_eq!(instance.templates().len(), 1);
    let template = instance.templates().get("1").unwrap().clone();
    let contents = template.collect_contents();
    assert_eq!(contents.len(), 1);
}

#[test]
fn terarium_group_manipulation() {
    let mut instance = make_instance();
    instance = instance.add_group(
        "1".to_owned(),
        TemplateGroupBuilder::default().add_member("1".to_owned(), "1".to_owned()).build(),
    );
    let grp = instance.get_group(&"1".to_owned());
    assert!(grp.is_some());
    let grp = grp.unwrap();
    assert_eq!(grp.clone(), pair_map(&[("1", "1")]));

    instance.remove_group(&"1".to_owned());
    assert!(instance.get_group(&"1".to_owned()).is_none())
}

#[test]
fn terarium_check_group_configuration() {
    let mut instance = make_instance();
    instance = instance.add_template("1".to_owned(), Template::default());
    instance = instance.add_template("2".to_owned(), Template::default());
    instance = instance.add_group(
        "100".to_owned(),
        TemplateGroupBuilder::default()
            .add_member("10".to_owned(), "1".to_owned())
            .add_member("20".to_owned(), "2".to_owned())
            .add_member("30".to_owned(), "3".to_owned())
            .build(),
    );

    assert_eq!(
        instance.check_group_config_validity(),
        vec![("100".to_owned(), "30".to_owned(), "3".to_owned())]
    );
}
