use wot_serve::template::{uritemplate_to_axum, TemplateError};

#[test]
fn plain_uri() {
    assert_eq!(uritemplate_to_axum("/properties/on").unwrap(), "/properties/on");
}

#[test]
fn hierarchical_uri() {
    assert_eq!(
        uritemplate_to_axum("/properties{/prop,sub}").unwrap(),
        "/properties/:prop/:sub"
    );
}

#[test]
fn templated_uri() {
    assert_eq!(
        uritemplate_to_axum("/actions/fade/{action_id}").unwrap(),
        "/actions/fade/:action_id"
    );
}

#[test]
fn query_uri() {
    assert_eq!(uritemplate_to_axum("/weather/{?lat,long}").unwrap(), "/weather/");
}

#[test]
fn multiple_variables_fail() {
    assert_eq!(
        uritemplate_to_axum("{a,b}").unwrap_err(),
        TemplateError::MultipleVariables
    );
    assert_eq!(
        uritemplate_to_axum("/x/{a,b}/y").unwrap_err(),
        TemplateError::MultipleVariables
    );
}

#[test]
fn empty_expression_fails() {
    assert_eq!(uritemplate_to_axum("/x{}").unwrap_err(), TemplateError::MultipleVariables);
}

#[test]
fn unsupported_operators_fail() {
    assert_eq!(uritemplate_to_axum("/a{+x}").unwrap_err(), TemplateError::UnsupportedOperator);
    assert_eq!(uritemplate_to_axum("/a{.x}").unwrap_err(), TemplateError::UnsupportedOperator);
    assert_eq!(uritemplate_to_axum("/a{;x}").unwrap_err(), TemplateError::UnsupportedOperator);
    assert_eq!(uritemplate_to_axum("/a{&x}").unwrap_err(), TemplateError::UnsupportedOperator);
}

#[test]
fn fragment_truncates() {
    assert_eq!(uritemplate_to_axum("/doc{#sec}/rest").unwrap(), "/doc");
}

#[test]
fn query_discards_remainder() {
    assert_eq!(uritemplate_to_axum("/a{?x}/b{c}").unwrap(), "/a");
}

#[test]
fn unclosed_expression_is_literal() {
    assert_eq!(uritemplate_to_axum("/a{bc").unwrap(), "/abc");
}

#[test]
fn modifiers_are_stripped() {
    assert_eq!(uritemplate_to_axum("{list*}").unwrap(), ":list");
    assert_eq!(uritemplate_to_axum("{name:3}").unwrap(), ":name");
    assert_eq!(uritemplate_to_axum("{/a*,b:2}").unwrap(), "/:a/:b");
}

#[test]
fn empty_template() {
    assert_eq!(uritemplate_to_axum("").unwrap(), "");
}
