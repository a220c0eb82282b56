use std::collections::HashMap;
use terarium::template::Content;
use terarium::terrarist::TerraristBuilder;

fn make_instance() -> TerraristBuilder<usize, usize, usize, usize> {
    TerraristBuilder::default()
}

#[test]
fn terrarist_add_template() {
    let mut instance = make_instance();
    let template = instance.add_template(1);
    template.push_content(Content::new("foo".to_string(), vec![1, 2]));

    assert_eq!(instance.templates().len(), 1);
    let template = instance.templates()[&1].clone();
    let mut contents = template.collect_contents();
    assert_eq!(contents.len(), 1);
    contents[0].languages.sort();
    assert_eq!(contents, vec![Content::new("foo".to_string(), vec![1, 2])]);
}

#[test]
fn get_template() {
    let mut instance = make_instance();
    instance.add_template(1);
    assert!(instance.get_template(&1).is_some());
}

#[test]
fn get_not_existing_template() {
    let mut instance = make_instance();
    instance.add_template(1);
    assert!(instance.get_template(&2).is_none());
}

#[test]
fn remove_template() {
    let mut instance = make_instance();
    instance.add_template(1);
    let tpl = instance.remove_template(&1);
    assert!(tpl.is_some());
}

#[test]
fn remove_not_existing_template() {
    let mut instance = make_instance();
    instance.add_template(1);
    let tpl = instance.remove_template(&2);
    assert!(tpl.is_none());
}

#[test]
fn terrarist_group_manipulation() {
    let mut instance = make_instance();
    {
        let grp = instance.add_group(1);
        grp.insert(1, 1);
    }
    let grp = instance.get_group(&1);
    assert!(grp.is_some());
    let grp = grp.unwrap();
    assert_eq!(grp.clone(), HashMap::<usize, usize>::from([(1, 1)]));

    instance.remove_group(&1);
    assert!(instance.get_group(&1).is_none())
}

#[test]
fn terrarist_check_group_configuration() {
    let mut instance = make_instance();
    instance.add_template(1);
    instance.add_template(2);

    {
        let grp = instance.add_group(100);
        grp.insert(10, 1);
        grp.insert(20, 2);
        grp.insert(30, 3);
    }

    assert_eq!(instance.check_group_config_validity(), vec![(100, 30, 3)]);
}
