use olcs::arguments::substitute_parameters;
use olcs::models::{ArgumentMap, CommandDef, ParamDef, UserParams};
use olcs::render::{
    classify_dynamic_param, dynamic_requests, render_cmd, resolve_and_render, DynamicKind,
    FilterOutcome, ParamFilter, RenderError,
};

fn param(name: &str, optional: bool, default: Option<&str>) -> ParamDef {
    ParamDef {
        name: name.to_string(),
        prompt: String::new(),
        optional,
        default: default.map(|d| d.to_string()),
    }
}

fn cmd(exec_template: &str, params: Vec<ParamDef>) -> CommandDef {
    CommandDef {
        name: "demo".to_string(),
        description: String::new(),
        exec_template: exec_template.to_string(),
        params,
        pre_command: None,
    }
}

fn no_params() -> UserParams {
    UserParams { fields: ArgumentMap::new() }
}

fn empty() -> ArgumentMap {
    ArgumentMap::new()
}

#[test]
fn renders_end_to_end_with_default_and_override() {
    let c = cmd("echo {{greeting}}, {{name}}!", vec![param("greeting", false, Some("Hello"))]);
    let mut overrides = ArgumentMap::new();
    overrides.insert("name".to_string(), "Ada".to_string());
    let resolved = substitute_parameters(&c, Some(&overrides));
    assert_eq!(resolved.get("greeting").unwrap(), "Hello");
    assert_eq!(resolved.get("name").unwrap(), "Ada");
    let rendered = render_cmd(&c, &no_params(), &resolved, &empty()).unwrap();
    assert_eq!(rendered, "echo Hello, Ada!");
    let direct = resolve_and_render(&c, &no_params(), Some(&overrides), &empty()).unwrap();
    assert_eq!(direct, "echo Hello, Ada!");
}

#[test]
fn literal_text_passes_through_unchanged() {
    let c = cmd("plain text, no placeholders", vec![]);
    let rendered = render_cmd(&c, &no_params(), &empty(), &empty()).unwrap();
    assert_eq!(rendered, "plain text, no placeholders");
}

#[test]
fn unresolved_placeholder_fails_with_missing_variable() {
    let c = cmd("deploy {{region}}", vec![param("region", false, None)]);
    let resolved = substitute_parameters(&c, None);
    let err = render_cmd(&c, &no_params(), &resolved, &empty()).unwrap_err();
    match err {
        RenderError::MissingVariable(name) => assert_eq!(name, "region"),
        _ => panic!("expected a missing-variable error"),
    }
}

#[test]
fn unclosed_placeholder_is_a_syntax_error() {
    let c = cmd("echo {{oops", vec![]);
    let err = render_cmd(&c, &no_params(), &empty(), &empty()).unwrap_err();
    assert_eq!(err.message(), "template syntax error: unclosed placeholder");
    match err {
        RenderError::TemplateSyntax(detail) => assert_eq!(detail, "unclosed placeholder"),
        _ => panic!("expected a template-syntax error"),
    }
}

#[test]
fn unknown_filter_is_a_syntax_error() {
    let c = cmd("echo {{ x | shout }}", vec![]);
    let err = render_cmd(&c, &no_params(), &empty(), &empty()).unwrap_err();
    match err {
        RenderError::TemplateSyntax(detail) => assert_eq!(detail, "shout"),
        _ => panic!("expected a template-syntax error"),
    }
}

#[test]
fn unknown_dynamic_kind_fails_cleanly() {
    let c = cmd("kubectl {{ cluster | i_param }}", vec![]);
    let err = render_cmd(&c, &no_params(), &empty(), &empty()).unwrap_err();
    assert_eq!(err.message(), "unknown dynamic parameter: cluster");
    match err {
        RenderError::UnknownDynamicKind(name) => assert_eq!(name, "cluster"),
        _ => panic!("expected an unknown-dynamic-kind error"),
    }
    // and no provider is ever requested for it
    assert!(dynamic_requests(&c, &empty()).is_empty());
}

#[test]
fn dynamic_placeholder_short_circuits_to_the_argument_map() {
    let c = cmd("kubectl get pods {{ namespace | i_param }}", vec![]);
    let mut args = ArgumentMap::new();
    args.insert("namespace".to_string(), "-n dev".to_string());
    let rendered = render_cmd(&c, &no_params(), &args, &empty()).unwrap();
    assert_eq!(rendered, "kubectl get pods -n dev");
    assert!(dynamic_requests(&c, &args).is_empty());
}

#[test]
fn dynamic_placeholder_uses_the_provider_value() {
    let c = cmd("kubectl get pods {{ namespace | i_param }}", vec![]);
    let requests = dynamic_requests(&c, &empty());
    assert_eq!(requests, vec!["namespace".to_string()]);
    let mut dynamic_values = ArgumentMap::new();
    dynamic_values.insert("namespace".to_string(), "--all-namespaces".to_string());
    let rendered = render_cmd(&c, &no_params(), &empty(), &dynamic_values).unwrap();
    assert_eq!(rendered, "kubectl get pods --all-namespaces");
}

#[test]
fn dynamic_placeholder_without_a_value_reports_the_lookup() {
    let c = cmd("kubectl get pods {{ namespace | i_param }}", vec![]);
    let err = render_cmd(&c, &no_params(), &empty(), &empty()).unwrap_err();
    match err {
        RenderError::DynamicLookupFailed { name, cause } => {
            assert_eq!(name, "namespace");
            assert_eq!(cause, "no value obtained from the dynamic provider");
        },
        _ => panic!("expected a dynamic-lookup failure"),
    }
}

#[test]
fn quoted_dynamic_names_are_accepted() {
    let c = cmd("kubectl get pods {{ \"namespace\" | i_param }}", vec![]);
    let requests = dynamic_requests(&c, &empty());
    assert_eq!(requests, vec!["namespace".to_string()]);
}

#[test]
fn context_fields_resolve_under_the_params_prefix() {
    let c = cmd("az account set -s {{ params.subscription }}", vec![]);
    let mut fields = ArgumentMap::new();
    fields.insert("subscription".to_string(), "prod".to_string());
    let params = UserParams { fields };
    let rendered = render_cmd(&c, &params, &empty(), &empty()).unwrap();
    assert_eq!(rendered, "az account set -s prod");
}

#[test]
fn missing_context_field_reports_the_dotted_name() {
    let c = cmd("az account set -s {{ params.subscription }}", vec![]);
    let err = render_cmd(&c, &no_params(), &empty(), &empty()).unwrap_err();
    assert_eq!(err.message(), "missing variable: params.subscription");
    match err {
        RenderError::MissingVariable(name) => assert_eq!(name, "params.subscription"),
        _ => panic!("expected a missing-variable error"),
    }
}

#[test]
fn the_first_offending_placeholder_decides_the_error() {
    let c = cmd("{{missing_one}} and {{ other | bogus }}", vec![]);
    let err = render_cmd(&c, &no_params(), &empty(), &empty()).unwrap_err();
    assert!(matches!(err, RenderError::MissingVariable(_)));
}

#[test]
fn classification_knows_only_the_namespace_kind() {
    assert!(matches!(classify_dynamic_param("namespace"), Some(DynamicKind::Namespace)));
    assert!(classify_dynamic_param("cluster").is_none());
    assert!(classify_dynamic_param("Namespace").is_none());
}

#[test]
fn param_filter_decides_override_provider_or_error() {
    let mut args = ArgumentMap::new();
    args.insert("namespace".to_string(), "-n dev".to_string());
    let filter = ParamFilter::new(&args);
    match filter.filter("namespace").unwrap() {
        FilterOutcome::Resolved(v) => assert_eq!(v, "-n dev"),
        _ => panic!("expected the override"),
    }
    let bare = ParamFilter::new(&ArgumentMap::new());
    match bare.filter("namespace").unwrap() {
        FilterOutcome::NeedsProvider(DynamicKind::Namespace) => {},
        _ => panic!("expected the provider referral"),
    }
    let err = bare.filter("mystery").unwrap_err();
    assert!(matches!(err, RenderError::UnknownDynamicKind(_)));
}

#[test]
fn dynamic_lookup_failure_message_names_both_parts() {
    let err = RenderError::DynamicLookupFailed {
        name: "namespace".to_string(),
        cause: "cluster unreachable".to_string(),
    };
    assert_eq!(err.message(), "dynamic lookup failed for namespace: cluster unreachable");
}
