use tera::Context;
use terarium::template::{Content, Template};
use terarium::terarium::{TemplateGroupBuilder, Terarium, TerariumBuilder, TerariumError};

fn expand<'a>(
    context: &'a Context,
) -> impl Fn(&tera::Tera, &str) -> Result<String, tera::Error> + 'a {
    move |engine, handle| engine.render(handle, context)
}

fn instance() -> Terarium {
    let mut builder = TerariumBuilder::default();
    builder = builder.add_template(
        "template_a".to_owned(),
        Template::default()
            .add_content(Content::new("template_a cs {{name}}".to_owned(), vec!["cs".to_owned()]))
            .unwrap()
            .add_content(Content::new("template_a en {{name}}".to_owned(), vec!["en".to_owned()]))
            .unwrap(),
    );
    builder = builder.add_template(
        "template_b".to_owned(),
        Template::default()
            .add_content(Content::new(
                "template_b en {{surname}}".to_owned(),
                vec!["en".to_owned()],
            ))
            .unwrap(),
    );
    builder = builder.add_group(
        "group_a".to_owned(),
        TemplateGroupBuilder::default()
            .add_member("A".to_owned(), "template_a".to_owned())
            .add_member("B".to_owned(), "template_b".to_owned())
            .build(),
    );
    builder.build().unwrap()
}

fn context() -> Context {
    let mut ctx = Context::default();
    ctx.insert("name", "john");
    ctx.insert("surname", "doe");
    ctx
}

#[test]
fn render_template() {
    let instance = instance();
    let ctx = context();
    let result_a = instance.render_template(&expand(&ctx), "template_a", "cs", None).unwrap();
    assert_eq!(result_a, "template_a cs john");
}

#[test]
fn render_template_with_fallback() {
    let instance = instance();
    let ctx = context();
    let result_a = instance.render_template(&expand(&ctx), "template_a", "de", Some("en")).unwrap();
    assert_eq!(result_a, "template_a en john");
}

#[test]
fn render_template_without_matching_language() {
    let instance = instance();
    let ctx = context();
    let result = instance.render_template(&expand(&ctx), "template_a", "de", Some("fr"));

    assert!(match result.unwrap_err() {
        TerariumError::LanguageNotFound => true,
        _ => false,
    })
}

#[test]
fn render_group() {
    let instance = instance();
    let context = context();
    let group_result = instance.render_group(&expand(&context), "group_a", "en", None);
    assert!(group_result.is_ok());
    let group_result = group_result.unwrap();
    assert_eq!(group_result.get("A").unwrap(), "template_a en john");
    assert_eq!(group_result.get("B").unwrap(), "template_b en doe");
}

#[test]
fn render_group_with_fallback() {
    let instance = instance();
    let context = context();
    let group_result = instance.render_group(&expand(&context), "group_a", "cs", Some("en"));
    assert!(group_result.is_ok());
    let group_result = group_result.unwrap();
    assert_eq!(group_result.get("A").unwrap(), "template_a cs john");
    assert_eq!(group_result.get("B").unwrap(), "template_b en doe");
}

#[test]
fn render_group_when_invalid_language() {
    let instance = instance();
    let context = context();
    let group_result = instance.render_group(&expand(&context), "group_a", "cs", Some("fr"));
    assert!(group_result.is_err());
    assert!(match group_result.unwrap_err() {
        TerariumError::LanguageNotFound => true,
        _ => false,
    })
}
