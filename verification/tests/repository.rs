use tera::Context;
use terarium::string_map::StringMap;
use terarium::template::{Content, Template};
use std::cell::RefCell;
use terarium::terarium::{
    file_member, record_variant, rendered, TemplateGroupBuilder, Terarium, TerariumBuilder,
    TerariumBuilderError, TerariumError,
};

fn expand<'a>(
    context: &'a Context,
) -> impl Fn(&tera::Tera, &str) -> Result<String, tera::Error> + 'a {
    move |engine, handle| engine.render(handle, context)
}

fn variant(body: &str, locales: &[&str]) -> Content<String> {
    Content::new(body.to_owned(), locales.iter().map(|l| l.to_string()).collect())
}

fn named(name: &str, body: &str, locales: &[&str]) -> Content<String> {
    Content::named(
        name.to_owned(),
        body.to_owned(),
        locales.iter().map(|l| l.to_string()).collect(),
    )
}

fn group(pairs: &[(&str, &str)]) -> StringMap<String> {
    let mut builder = TemplateGroupBuilder::default();
    for (member, template) in pairs {
        builder = builder.add_member(member.to_string(), template.to_string());
    }
    builder.build()
}

fn people() -> Context {
    let mut ctx = Context::default();
    ctx.insert("name", "john");
    ctx.insert("surname", "doe");
    ctx
}

fn two_templates() -> TerariumBuilder {
    TerariumBuilder::default()
        .add_template(
            "template_a".to_owned(),
            Template::default()
                .add_content(variant("template_a cs {{name}}", &["cs"]))
                .unwrap()
                .add_content(variant("template_a en {{name}}", &["en"]))
                .unwrap(),
        )
        .add_template(
            "template_b".to_owned(),
            Template::default().add_content(variant("template_b en {{surname}}", &["en"])).unwrap(),
        )
        .add_group("group_a".to_owned(), group(&[("A", "template_a"), ("B", "template_b")]))
}

fn handle(repo: &Terarium, key: &str, language: &str, fallback: Option<&str>) -> String {
    repo.resolve_handle(key, language, fallback).unwrap().clone()
}

#[test]
fn unknown_template_is_template_not_found() {
    let repo = two_templates().build().unwrap();
    let ctx = people();
    for (language, fallback) in [("cs", None), ("en", Some("cs")), ("de", Some("fr"))] {
        let result = repo.render_template(&expand(&ctx), "template_z", language, fallback);
        assert!(matches!(result, Err(TerariumError::TemplateNotFound)));
    }
    let empty = Terarium::default();
    assert!(matches!(
        empty.render_template(&expand(&ctx), "template_a", "cs", None),
        Err(TerariumError::TemplateNotFound)
    ));
}

#[test]
fn single_locale_template_needs_the_fallback() {
    let repo = two_templates().build().unwrap();
    let ctx = people();
    assert!(matches!(
        repo.render_template(&expand(&ctx), "template_b", "cs", None),
        Err(TerariumError::LanguageNotFound)
    ));
    assert_eq!(
        repo.render_template(&expand(&ctx), "template_b", "cs", Some("en")).unwrap(),
        "template_b en doe"
    );
    assert_eq!(repo.render_template(&expand(&ctx), "template_b", "en", None).unwrap(), "template_b en doe");
}

#[test]
fn language_wins_over_fallback() {
    let repo = two_templates().build().unwrap();
    let ctx = people();
    assert_eq!(
        repo.render_template(&expand(&ctx), "template_a", "cs", Some("en")).unwrap(),
        "template_a cs john"
    );
}

#[test]
fn unknown_group_is_group_not_found() {
    let repo = two_templates().build().unwrap();
    let result = repo.render_group(&expand(&people()), "group_z", "en", None);
    assert!(matches!(result, Err(TerariumError::GroupNotFound)));
}

#[test]
fn engine_failure_is_rendering_failed() {
    let repo = two_templates().build().unwrap();
    let empty = Context::default();
    assert!(matches!(
        repo.render_template(&expand(&empty), "template_a", "cs", None),
        Err(TerariumError::RenderingFailed(_))
    ));
    assert!(matches!(
        repo.render_group(&expand(&empty), "group_a", "en", None),
        Err(TerariumError::RenderingFailed(_))
    ));
}

#[test]
fn rendered_wraps_the_engine_outcome() {
    assert_eq!(rendered(Ok("text".to_owned())).unwrap(), "text");
    let failure = tera::Tera::default().render("nothing", &Context::default()).unwrap_err();
    assert!(matches!(rendered(Err(failure)), Err(TerariumError::RenderingFailed(_))));
}

#[test]
fn group_output_has_one_entry_per_member() {
    let repo = two_templates()
        .add_group(
            "twice".to_owned(),
            group(&[("first", "template_a"), ("second", "template_a"), ("third", "template_b")]),
        )
        .build()
        .unwrap();
    let texts = repo.render_group(&expand(&people()), "twice", "en", None).unwrap();
    let keys: Vec<&str> = texts.keys().iter().map(|k| k.as_str()).collect();
    assert_eq!(keys, vec!["first", "second", "third"]);
    assert_eq!(
        texts.values(),
        &vec![
            "template_a en john".to_owned(),
            "template_a en john".to_owned(),
            "template_b en doe".to_owned()
        ]
    );
    assert_eq!(repo.groups().get("twice").unwrap().len(), 3);
}

#[test]
fn group_render_stops_at_the_first_failure() {
    let repo = two_templates()
        .add_template("empty".to_owned(), Template::default())
        .add_group("mixed".to_owned(), group(&[("B", "template_b"), ("E", "empty")]))
        .build()
        .unwrap();
    assert!(matches!(
        repo.render_group(&expand(&people()), "mixed", "cs", None),
        Err(TerariumError::LanguageNotFound)
    ));
    assert!(matches!(
        repo.render_group(&expand(&people()), "mixed", "en", None),
        Err(TerariumError::TemplateNotFound)
    ));
}

#[test]
fn render_is_repeatable() {
    let repo = two_templates().build().unwrap();
    let ctx = people();
    let first = repo.render_template(&expand(&ctx), "template_a", "de", Some("en")).unwrap();
    let second = repo.render_template(&expand(&ctx), "template_a", "de", Some("en")).unwrap();
    assert_eq!(first, second);
    let first = repo.render_group(&expand(&ctx), "group_a", "cs", Some("en")).unwrap();
    let second = repo.render_group(&expand(&ctx), "group_a", "cs", Some("en")).unwrap();
    assert_eq!(first, second);
    assert_eq!(
        repo.resolve_handle("template_a", "de", Some("en")).unwrap(),
        repo.resolve_handle("template_a", "de", Some("en")).unwrap()
    );
}

#[test]
fn unnamed_variants_are_numbered_in_order() {
    let repo = TerariumBuilder::default()
        .add_template(
            "one".to_owned(),
            Template::default()
                .add_content(variant("a", &["cs"]))
                .unwrap()
                .add_content(named("chosen", "b", &["en"]))
                .unwrap()
                .add_content(variant("c", &["de", "fr"]))
                .unwrap(),
        )
        .add_template(
            "two".to_owned(),
            Template::default().add_content(variant("d", &["cs"])).unwrap(),
        )
        .build()
        .unwrap();
    assert_eq!(handle(&repo, "one", "cs", None), "template#1");
    assert_eq!(handle(&repo, "one", "en", None), "chosen");
    assert_eq!(handle(&repo, "one", "de", None), "template#2");
    assert_eq!(handle(&repo, "one", "fr", None), "template#2");
    assert_eq!(handle(&repo, "two", "cs", None), "template#3");
    assert_eq!(handle(&repo, "two", "xx", Some("cs")), "template#3");
    assert_eq!(repo.render_template(&expand(&Context::default()), "one", "fr", None).unwrap(), "c");
}

#[test]
fn later_variant_takes_over_a_locale() {
    let repo = TerariumBuilder::default()
        .add_template(
            "one".to_owned(),
            Template::default()
                .add_content(variant("old", &["cs", "en"]))
                .unwrap()
                .add_content(variant("new", &["en"]))
                .unwrap(),
        )
        .build()
        .unwrap();
    let ctx = Context::default();
    assert_eq!(repo.render_template(&expand(&ctx), "one", "cs", None).unwrap(), "old");
    assert_eq!(repo.render_template(&expand(&ctx), "one", "en", None).unwrap(), "new");
    assert_eq!(handle(&repo, "one", "en", None), "template#2");
}

#[test]
fn replaced_template_keeps_its_place() {
    let repo = TerariumBuilder::default()
        .add_template("one".to_owned(), Template::default().add_content(variant("a", &["cs"])).unwrap())
        .add_template("two".to_owned(), Template::default().add_content(variant("b", &["cs"])).unwrap())
        .add_template("one".to_owned(), Template::default().add_content(variant("c", &["cs"])).unwrap())
        .build()
        .unwrap();
    let ctx = Context::default();
    assert_eq!(handle(&repo, "one", "cs", None), "template#1");
    assert_eq!(handle(&repo, "two", "cs", None), "template#2");
    assert_eq!(repo.render_template(&expand(&ctx), "one", "cs", None).unwrap(), "c");
}

#[test]
fn template_without_variants_is_not_indexed() {
    let repo = TerariumBuilder::default()
        .add_template("empty".to_owned(), Template::default())
        .build()
        .unwrap();
    assert!(matches!(
        repo.resolve_handle("empty", "cs", Some("en")),
        Err(TerariumError::TemplateNotFound)
    ));
}

#[test]
fn build_lists_every_dangling_reference() {
    let builder = TerariumBuilder::default()
        .add_template("1".to_owned(), Template::default())
        .add_group("g".to_owned(), group(&[("a", "9"), ("b", "1"), ("c", "8")]))
        .add_group("h".to_owned(), group(&[("d", "9")]));
    let expected = vec![
        ("g".to_owned(), "a".to_owned(), "9".to_owned()),
        ("g".to_owned(), "c".to_owned(), "8".to_owned()),
        ("h".to_owned(), "d".to_owned(), "9".to_owned()),
    ];
    assert_eq!(builder.check_group_config_validity(), expected);
    match builder.build() {
        Err(TerariumBuilderError::GroupIntegrityProblem(found)) => assert_eq!(found, expected),
        _ => panic!("the build must refuse dangling references"),
    }
}

#[test]
fn valid_configuration_has_no_violation() {
    let builder = two_templates();
    assert_eq!(builder.check_group_config_validity(), vec![]);
    assert_eq!(builder.groups().len(), 1);
    assert!(builder.build().is_ok());
    assert!(TerariumBuilder::default().build().is_ok());
}

#[test]
fn build_fails_on_a_body_the_engine_refuses() {
    let builder = TerariumBuilder::default().add_template(
        "broken".to_owned(),
        Template::default().add_content(variant("{{ name", &["cs"])).unwrap(),
    );
    assert!(matches!(builder.build(), Err(TerariumBuilderError::TemplateBuildingError(_))));
}

#[test]
fn builder_templates_can_be_changed_and_removed() {
    let mut builder = two_templates();
    let key = "template_b".to_owned();
    assert!(builder.get_template(&key).unwrap().push_content(variant("template_b cs", &["cs"])));
    assert_eq!(builder.templates().get("template_b").unwrap().len(), 2);
    assert!(builder.get_template(&"missing".to_owned()).is_none());
    assert!(builder.remove_template(&"missing".to_owned()).is_none());
    let removed = builder.remove_template(&"template_a".to_owned()).unwrap();
    assert_eq!(removed.len(), 2);
    assert_eq!(
        builder.check_group_config_validity(),
        vec![("group_a".to_owned(), "A".to_owned(), "template_a".to_owned())]
    );
    let repo = builder
        .add_group("group_a".to_owned(), group(&[("B", "template_b")]))
        .build()
        .unwrap();
    assert_eq!(
        repo.render_template(&expand(&people()), "template_b", "cs", None).unwrap(),
        "template_b cs"
    );
}

#[test]
fn record_variant_binds_every_locale() {
    let mut locales: StringMap<String> = StringMap::new();
    locales.insert("cs".to_owned(), "first".to_owned());
    locales.insert("en".to_owned(), "first".to_owned());
    record_variant(&mut locales, &vec!["en".to_owned(), "de".to_owned()], &"second".to_owned());
    assert_eq!(locales.get("cs").unwrap(), "first");
    assert_eq!(locales.get("en").unwrap(), "second");
    assert_eq!(locales.get("de").unwrap(), "second");
    assert_eq!(locales.len(), 3);
    record_variant(&mut locales, &vec![], &"third".to_owned());
    assert_eq!(locales.len(), 3);
}

#[test]
fn cloned_repository_renders_alike() {
    let repo = two_templates().build().unwrap();
    let copy = repo.clone();
    drop(repo);
    let ctx = people();
    assert_eq!(copy.render_template(&expand(&ctx), "template_a", "cs", None).unwrap(), "template_a cs john");
    let texts = copy.render_group(&expand(&ctx), "group_a", "cs", Some("en")).unwrap();
    assert_eq!(texts.get("A").unwrap(), "template_a cs john");
    assert_eq!(texts.get("B").unwrap(), "template_b en doe");
    assert_eq!(texts.len(), 2);
}

#[test]
fn group_without_members_renders_to_no_text() {
    let repo = TerariumBuilder::default().add_group("g".to_owned(), group(&[])).build().unwrap();
    let texts = repo.render_group(&expand(&Context::default()), "g", "en", None).unwrap();
    assert!(texts.is_empty());
    assert_eq!(texts, StringMap::new());
}

#[test]
fn engine_is_asked_for_the_resolved_handle_only() {
    let repo = two_templates().build().unwrap();
    let asked: RefCell<Vec<String>> = RefCell::new(Vec::new());
    let record = |_: &tera::Tera, handle: &str| -> Result<String, tera::Error> {
        asked.borrow_mut().push(handle.to_owned());
        Ok(format!("<{}>", handle))
    };
    assert_eq!(repo.render_template(&record, "template_a", "de", Some("en")).unwrap(), "<template#2>");
    assert!(repo.render_template(&record, "template_a", "de", Some("fr")).is_err());
    assert!(repo.render_template(&record, "template_z", "cs", None).is_err());
    let texts = repo.render_group(&record, "group_a", "cs", Some("en")).unwrap();
    assert_eq!(texts.get("A").unwrap(), "<template#1>");
    assert_eq!(texts.get("B").unwrap(), "<template#3>");
    assert!(repo.render_group(&record, "group_a", "cs", None).is_err());
    assert_eq!(
        asked.into_inner(),
        vec!["template#2", "template#1", "template#3", "template#1"]
    );
}

#[test]
fn file_member_files_a_text_and_hands_on_a_failure() {
    let mut texts: StringMap<String> = StringMap::new();
    assert!(file_member(&mut texts, &"A".to_owned(), Ok("one".to_owned())).is_ok());
    assert!(file_member(&mut texts, &"B".to_owned(), Ok("two".to_owned())).is_ok());
    assert!(matches!(
        file_member(&mut texts, &"C".to_owned(), Err(TerariumError::LanguageNotFound)),
        Err(TerariumError::LanguageNotFound)
    ));
    let keys: Vec<&str> = texts.keys().iter().map(|k| k.as_str()).collect();
    assert_eq!(keys, vec!["A", "B"]);
    assert_eq!(texts.values(), &vec!["one".to_owned(), "two".to_owned()]);
}

#[test]
fn repeated_handle_name_ends_the_build() {
    let twice = TerariumBuilder::default().add_template(
        "one".to_owned(),
        Template::default()
            .add_content(named("mine", "a", &["cs"]))
            .unwrap()
            .add_content(named("mine", "b", &["en"]))
            .unwrap(),
    );
    match twice.build() {
        Err(TerariumBuilderError::HandleNameRepeated(name)) => assert_eq!(name, "mine"),
        _ => panic!("a name that comes twice must end the build"),
    }
    let clash = TerariumBuilder::default()
        .add_template(
            "one".to_owned(),
            Template::default().add_content(named("template#1", "a", &["cs"])).unwrap(),
        )
        .add_template("two".to_owned(), Template::default().add_content(variant("b", &["cs"])).unwrap());
    match clash.build() {
        Err(TerariumBuilderError::HandleNameRepeated(name)) => assert_eq!(name, "template#1"),
        _ => panic!("a chosen name that the counter also makes must end the build"),
    }
}

#[test]
fn refiling_an_extended_name_ends_the_build() {
    let builder = TerariumBuilder::default().add_template(
        "one".to_owned(),
        Template::default()
            .add_content(named("T", "plain", &["a"]))
            .unwrap()
            .add_content(named("P", "{% extends \"T\" %}", &["b"]))
            .unwrap()
            .add_content(named("X", "{% extends \"P\" %}", &["c"]))
            .unwrap()
            .add_content(named("T", "{% extends \"P\" %}", &["d"]))
            .unwrap(),
    );
    match builder.build() {
        Err(TerariumBuilderError::HandleNameRepeated(name)) => assert_eq!(name, "T"),
        _ => panic!("the second body under one name must not reach the engine"),
    }
}

#[test]
fn build_with_fills_the_engine_it_is_given() {
    let repo = two_templates().build_with(tera::Tera::default()).unwrap();
    assert_eq!(
        repo.render_template(&expand(&people()), "template_b", "en", None).unwrap(),
        "template_b en doe"
    );
    let refused = TerariumBuilder::default()
        .add_template(
            "child".to_owned(),
            Template::default().add_content(variant("{% extends \"nobody\" %}", &["cs"])).unwrap(),
        )
        .build_with(tera::Tera::default());
    assert!(matches!(refused, Err(TerariumBuilderError::TemplateBuildingError(_))));
}
