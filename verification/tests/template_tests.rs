use activity_log::templates::{
    TemplateValue, FilterError, RenderAttempt, value_to_centi, coloredfloat, coloredfloatnegative,
    floatfmt, orempty, hourminutes, markdown, render_body,
};
use activity_log::pages::{AddFormStruct, add_page_activity, edit_redirect_target};
use activity_log::store::ActivityStore;

#[test]
fn hourminutes_cases() {
    assert_eq!(hourminutes(Some("14:30:00")), Ok("14:30".to_string()));
    assert_eq!(hourminutes(None), Ok("".to_string()));
    assert_eq!(hourminutes(Some("not-a-time")), Err(FilterError::InvalidTimeFormat));
    assert_eq!(hourminutes(Some("2025-02-03T04:05:06")), Ok("04:05".to_string()));
    assert_eq!(hourminutes(Some("25:00:00")), Err(FilterError::InvalidTimeFormat));
    assert_eq!(hourminutes(Some("")), Err(FilterError::InvalidTimeFormat));
}

#[test]
fn value_coercion_accepts_numbers_and_numeric_strings() {
    assert_eq!(value_to_centi(&TemplateValue::Num(314)), Ok(314));
    assert_eq!(value_to_centi(&TemplateValue::Text("3.14".to_string())), Ok(314));
    assert_eq!(value_to_centi(&TemplateValue::Text("-2.5".to_string())), Ok(-250));
    assert_eq!(value_to_centi(&TemplateValue::Text("7".to_string())), Ok(700));
    assert_eq!(value_to_centi(&TemplateValue::Text("0.005".to_string())), Ok(1));
    assert_eq!(value_to_centi(&TemplateValue::Text("0.004".to_string())), Ok(0));
    assert_eq!(value_to_centi(&TemplateValue::Text("0003.14".to_string())), Ok(314));
    assert_eq!(
        value_to_centi(&TemplateValue::Text("abc".to_string())),
        Err(FilterError::FilterTypeError),
    );
    assert_eq!(
        value_to_centi(&TemplateValue::Text("1.2.3".to_string())),
        Err(FilterError::FilterTypeError),
    );
    assert_eq!(
        value_to_centi(&TemplateValue::Text("".to_string())),
        Err(FilterError::FilterTypeError),
    );
    assert_eq!(
        value_to_centi(&TemplateValue::Text("999999999999999999999".to_string())),
        Err(FilterError::FilterTypeError),
    );
    assert_eq!(value_to_centi(&TemplateValue::Absent), Err(FilterError::FilterTypeError));
    assert_eq!(value_to_centi(&TemplateValue::Other), Err(FilterError::FilterTypeError));
}

#[test]
fn coloredfloat_marks_sign() {
    assert_eq!(
        coloredfloat(&TemplateValue::Num(314)),
        Ok("<span class=\"positive\">3.14</span>".to_string()),
    );
    assert_eq!(
        coloredfloat(&TemplateValue::Num(-250)),
        Ok("<span class=\"negative\">-2.50</span>".to_string()),
    );
    assert_eq!(
        coloredfloat(&TemplateValue::Num(0)),
        Ok("<span class=\"negative\">0.00</span>".to_string()),
    );
    assert_eq!(
        coloredfloat(&TemplateValue::Text("3.14".to_string())),
        Ok("<span class=\"positive\">3.14</span>".to_string()),
    );
    assert_eq!(coloredfloat(&TemplateValue::Absent), Err(FilterError::FilterTypeError));
}

#[test]
fn coloredfloatnegative_marks_only_nonpositive() {
    assert_eq!(coloredfloatnegative(&TemplateValue::Num(314)), Ok("3.14".to_string()));
    assert_eq!(
        coloredfloatnegative(&TemplateValue::Num(-250)),
        Ok("<span class=\"negative\">-2.50</span>".to_string()),
    );
    assert_eq!(
        coloredfloatnegative(&TemplateValue::Num(0)),
        Ok("<span class=\"negative\">0.00</span>".to_string()),
    );
}

#[test]
fn floatfmt_renders_two_decimals() {
    assert_eq!(floatfmt(550), "5.50");
    assert_eq!(floatfmt(0), "0.00");
    assert_eq!(floatfmt(-7), "-0.07");
    assert_eq!(floatfmt(123456), "1234.56");
}

#[test]
fn orempty_substitutes_empty() {
    assert_eq!(orempty(Some("Norefjell".to_string())), "Norefjell");
    assert_eq!(orempty(None), "");
}

#[test]
fn markdown_renders_markup() {
    let html = markdown("# Hi");
    assert_eq!(html, "<h1>Hi</h1>\n");
    let html = markdown("plain *emphasis*");
    assert_eq!(html, "<p>plain <em>emphasis</em></p>\n");
    let html = markdown("[link](https://example.org) and\n\n- one\n- two");
    assert!(html.contains("<a href=\"https://example.org\">link</a>"));
    assert!(html.contains("<ul>") && html.contains("<li>one</li>"));
}

#[test]
fn markdown_escapes_raw_html() {
    let html = markdown("<script>alert(1)</script>");
    assert!(!html.contains("<script"), "raw script tag passed through: {}", html);
    assert!(html.contains("&lt;script&gt;alert(1)&lt;/script&gt;"));

    let html = markdown("hello <b onclick=\"x()\">there</b>");
    assert!(!html.contains("<b "), "raw inline HTML passed through: {}", html);
    assert!(html.contains("&lt;b onclick="));
}

#[test]
fn render_body_keeps_output_and_substitutes_diagnostics() {
    assert_eq!(
        render_body(&RenderAttempt::Rendered("<p>ok</p>".to_string())),
        "<p>ok</p>",
    );
    assert_eq!(
        render_body(&RenderAttempt::MissingTemplate("index.html".to_string())),
        "Failed getting template: index.html",
    );
    assert_eq!(
        render_body(&RenderAttempt::RenderFailed("undefined value".to_string())),
        "Rendering error: undefined value",
    );
}

fn strict_environment(source: &str) -> minijinja::Environment<'_> {
    let mut env = minijinja::Environment::new();
    env.set_undefined_behavior(minijinja::UndefinedBehavior::Strict);
    env.add_template("page.html", source).unwrap();
    env
}

#[test]
fn undefined_variable_yields_diagnostic_not_crash() {
    // cached mode: one environment reused across renders
    let env = strict_environment("{{ missing }}");
    for _ in 0..2 {
        let template = env.get_template("page.html").unwrap();
        let outcome = template.render(minijinja::Value::UNDEFINED);
        let err = outcome.unwrap_err();
        let body = render_body(&RenderAttempt::RenderFailed(format!("{:#?}", err)));
        assert!(body.starts_with("Rendering error: "));
    }
    // live mode: the environment is rebuilt for every render
    for _ in 0..2 {
        let env = strict_environment("{{ missing }}");
        let template = env.get_template("page.html").unwrap();
        let outcome = template.render(minijinja::Value::UNDEFINED);
        let err = outcome.unwrap_err();
        let body = render_body(&RenderAttempt::RenderFailed(format!("{:#?}", err)));
        assert!(body.starts_with("Rendering error: "));
    }
    // a missing template gets the same treatment
    let env = strict_environment("{{ missing }}");
    let lookup = env.get_template("absent.html");
    let err = lookup.unwrap_err();
    let body = render_body(&RenderAttempt::MissingTemplate(format!("{:#?}", err)));
    assert!(body.starts_with("Failed getting template: "));
}

#[test]
fn add_page_uses_stored_or_blank_activity() {
    let mut store = ActivityStore::new();
    let now = activity_log::zone::current_local_truncated().unwrap();
    let blank = add_page_activity(&store, &AddFormStruct { id: None }, &vec![], now);
    assert!(blank.is_none());

    let types = vec!["Skis".to_string(), "Alpine".to_string()];
    let blank = add_page_activity(&store, &AddFormStruct { id: None }, &types, now).unwrap();
    assert_eq!(blank.id, None);
    assert_eq!(blank.date, now);
    assert_eq!(blank.kind, "Skis");
    assert_eq!(blank.location, "");
    assert_eq!(blank.description, "");
    assert_eq!(blank.duration_centihours, None);
    assert_eq!(blank.score_centi, None);

    let mut stored = blank.clone();
    stored.kind = "Alpine".to_string();
    let id = store.insert_activity(&stored).unwrap();
    let shown = add_page_activity(&store, &AddFormStruct { id: Some(id) }, &types, now).unwrap();
    assert_eq!(shown.id, Some(id));
    assert_eq!(shown.kind, "Alpine");
    assert!(add_page_activity(&store, &AddFormStruct { id: Some(id + 1) }, &types, now).is_none());
}

#[test]
fn edit_redirect_targets() {
    assert_eq!(edit_redirect_target(None), "/");
    assert_eq!(edit_redirect_target(Some(7)), "/#7");
    assert_eq!(edit_redirect_target(Some(123)), "/#123");
}
