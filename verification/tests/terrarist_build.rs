use terarium::template::Content;
use terarium::terrarist::{TerraristBuilder, TerraristBuilderError};

#[test]
fn terrarist_build_compiles_every_variant() {
    let mut builder: TerraristBuilder<u32, u8, u32, u32> = TerraristBuilder::default();
    builder.add_template(1).push_content(Content::new("one {{ a }}".to_string(), vec![1]));
    let second = builder.add_template(2);
    second.push_content(Content::new("two".to_string(), vec![1, 2]));
    second.push_content(Content::named("mine".to_string(), "three".to_string(), vec![3]));
    assert!(builder.build().is_ok());
    let empty: TerraristBuilder<u32, u8, u32, u32> = TerraristBuilder::default();
    assert!(empty.build().is_ok());
}

#[test]
fn terrarist_build_fails_on_a_body_the_engine_refuses() {
    let mut builder: TerraristBuilder<u32, u8, u32, u32> = TerraristBuilder::default();
    builder.add_template(1).push_content(Content::new("{% if %}".to_string(), vec![1]));
    assert!(matches!(builder.build(), Err(TerraristBuilderError::TemplateBuildingError(_))));
}

#[test]
fn terrarist_add_template_replaces_what_was_stored() {
    let mut builder: TerraristBuilder<u32, u8, u32, u32> = TerraristBuilder::default();
    builder.add_template(1).push_content(Content::new("one".to_string(), vec![1]));
    assert_eq!(builder.templates()[&1].len(), 1);
    builder.add_template(1);
    assert_eq!(builder.templates().len(), 1);
    assert_eq!(builder.templates()[&1].len(), 0);
}

#[test]
fn terrarist_get_template_lends_the_stored_template() {
    let mut builder: TerraristBuilder<u32, u8, u32, u32> = TerraristBuilder::default();
    builder.add_template(1);
    builder.add_template(2);
    assert!(builder.get_template(&2).unwrap().push_content(Content::new("b".to_string(), vec![7])));
    assert_eq!(builder.templates()[&1].len(), 0);
    assert_eq!(builder.templates()[&2].len(), 1);
    assert_eq!(builder.remove_template(&2).unwrap().collect_contents()[0].languages, vec![7]);
    assert!(builder.get_template(&2).is_none());
}

#[test]
fn terrarist_lists_every_dangling_reference_once() {
    let mut builder: TerraristBuilder<u32, u8, u32, u32> = TerraristBuilder::default();
    builder.add_template(1);
    {
        let group = builder.add_group(100);
        group.insert(10, 1);
        group.insert(20, 7);
        group.insert(30, 8);
    }
    builder.add_group(200).insert(10, 7);
    builder.add_group(300);
    let mut found = builder.check_group_config_validity();
    found.sort();
    assert_eq!(found, vec![(100, 20, 7), (100, 30, 8), (200, 10, 7)]);

    assert!(builder.remove_group(&100).is_some());
    assert!(builder.remove_group(&100).is_none());
    builder.get_group(&200).unwrap().insert(10, 1);
    assert_eq!(builder.check_group_config_validity(), vec![]);
}

#[test]
fn terrarist_repeated_handle_name_ends_the_build() {
    let mut builder: TerraristBuilder<u32, u8, u32, u32> = TerraristBuilder::default();
    let template = builder.add_template(1);
    template.push_content(Content::named("mine".to_string(), "a".to_string(), vec![1]));
    template.push_content(Content::named("mine".to_string(), "b".to_string(), vec![2]));
    match builder.build() {
        Err(TerraristBuilderError::HandleNameRepeated(name)) => assert_eq!(name, "mine"),
        _ => panic!("a name that comes twice must end the build"),
    }
}

#[test]
fn terrarist_build_does_not_look_at_the_groups() {
    let mut builder: TerraristBuilder<u32, u8, u32, u32> = TerraristBuilder::default();
    builder.add_template(1).push_content(Content::new("one".to_string(), vec![1]));
    builder.add_group(100).insert(10, 9);
    assert_eq!(builder.check_group_config_validity(), vec![(100, 10, 9)]);
    assert!(builder.build_with(tera::Tera::default()).is_ok());
}
