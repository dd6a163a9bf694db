use olcs::arguments::{plan_prompts, record_prompt_response, substitute_parameters};
use olcs::models::{ArgumentMap, CommandDef, ParamDef};
use olcs::template::extract_placeholders;

fn param(name: &str, prompt: &str, optional: bool, default: Option<&str>) -> ParamDef {
    ParamDef {
        name: name.to_string(),
        prompt: prompt.to_string(),
        optional,
        default: default.map(|d| d.to_string()),
    }
}

fn cmd(exec_template: &str, params: Vec<ParamDef>) -> CommandDef {
    CommandDef {
        name: "demo".to_string(),
        description: String::new(),
        exec_template: exec_template.to_string(),
        params,
        pre_command: None,
    }
}

#[test]
fn extraction_orders_and_trims_placeholders() {
    let names = extract_placeholders("kubectl get pods {{ns}} -n {{ env }}");
    assert_eq!(names.len(), 2);
    assert_eq!(names[0], "ns");
    assert_eq!(names[1], "env");
}

#[test]
fn extraction_deduplicates_keeping_first_occurrence() {
    let names = extract_placeholders("{{b}} {{ a }} {{b}} {{a}}");
    assert_eq!(names, vec!["b".to_string(), "a".to_string()]);
}

#[test]
fn extraction_skips_dynamic_placeholders_and_unclosed_braces() {
    let names = extract_placeholders("x {{ ns | i_param }} y {{plain}} z {{broken");
    assert_eq!(names, vec!["plain".to_string()]);
}

#[test]
fn override_beats_default() {
    let c = cmd("deploy {{region}}", vec![param("region", "", false, Some("us-east"))]);
    let mut overrides = ArgumentMap::new();
    overrides.insert("region".to_string(), "eu-west".to_string());
    let resolved = substitute_parameters(&c, Some(&overrides));
    assert_eq!(resolved.get("region").unwrap(), "eu-west");
}

#[test]
fn default_applies_without_override() {
    let c = cmd("deploy {{region}}", vec![param("region", "", false, Some("us-east"))]);
    let resolved = substitute_parameters(&c, None);
    assert_eq!(resolved.get("region").unwrap(), "us-east");
}

#[test]
fn optional_missing_resolves_to_empty_but_present() {
    let c = cmd("deploy {{region}}", vec![param("region", "", true, None)]);
    let resolved = substitute_parameters(&c, None);
    assert!(resolved.contains_key("region"));
    assert_eq!(resolved.get("region").unwrap(), "");
}

#[test]
fn required_missing_stays_unresolved() {
    let c = cmd("deploy {{region}}", vec![param("region", "", false, None)]);
    let resolved = substitute_parameters(&c, None);
    assert!(!resolved.contains_key("region"));
    assert!(resolved.get("region").is_none());
}

#[test]
fn undeclared_placeholder_is_required() {
    let c = cmd("deploy {{region}}", vec![]);
    let resolved = substitute_parameters(&c, None);
    assert!(!resolved.contains_key("region"));
}

#[test]
fn empty_default_counts_as_missing_unless_optional() {
    let required = cmd("run {{a}}", vec![param("a", "", false, Some(""))]);
    let resolved = substitute_parameters(&required, None);
    assert!(!resolved.contains_key("a"));
    let optional = cmd("run {{a}}", vec![param("a", "", true, Some(""))]);
    let resolved = substitute_parameters(&optional, None);
    assert_eq!(resolved.get("a").unwrap(), "");
}

#[test]
fn overrides_carry_through_untouched() {
    let c = cmd("noop", vec![]);
    let mut overrides = ArgumentMap::new();
    overrides.insert("extra".to_string(), "kept".to_string());
    let resolved = substitute_parameters(&c, Some(&overrides));
    assert_eq!(resolved.get("extra").unwrap(), "kept");
}

#[test]
fn prompt_plan_covers_unbound_placeholders_in_order() {
    let c = cmd(
        "run {{a}} {{b}} {{c}}",
        vec![
            param("b", "Value of b", false, Some("two")),
            param("c", "  ", true, None),
        ],
    );
    let mut have = ArgumentMap::new();
    have.insert("a".to_string(), "one".to_string());
    let plan = plan_prompts(&c, &have);
    assert_eq!(plan.len(), 2);
    assert_eq!(plan[0].name, "b");
    assert_eq!(plan[0].prompt, "Value of b [default: two]");
    assert_eq!(plan[0].default.as_deref(), Some("two"));
    assert!(!plan[0].optional);
    assert_eq!(plan[1].name, "c");
    // a blank declared prompt falls back to the generic request
    assert_eq!(plan[1].prompt, "Enter value for 'c' [optional]");
    assert!(plan[1].optional);
}

#[test]
fn prompt_plan_synthesizes_implicit_declarations() {
    let c = cmd("run {{thing}}", vec![]);
    let plan = plan_prompts(&c, &ArgumentMap::new());
    assert_eq!(plan.len(), 1);
    assert_eq!(plan[0].name, "thing");
    assert_eq!(plan[0].prompt, "Enter value for 'thing'");
    assert!(plan[0].default.is_none());
    assert!(!plan[0].optional);
}

#[test]
fn responses_record_by_the_optionality_rule() {
    let mut map = ArgumentMap::new();
    record_prompt_response(&mut map, "a".to_string(), false, "value".to_string());
    assert_eq!(map.get("a").unwrap(), "value");
    record_prompt_response(&mut map, "b".to_string(), false, String::new());
    assert!(!map.contains_key("b"));
    record_prompt_response(&mut map, "c".to_string(), true, String::new());
    assert_eq!(map.get("c").unwrap(), "");
}

#[test]
fn argument_map_later_insertion_wins() {
    let mut map = ArgumentMap::new();
    map.insert("k".to_string(), "first".to_string());
    map.insert("k".to_string(), "second".to_string());
    assert_eq!(map.get("k").unwrap(), "second");
    let copy = map.clone();
    assert_eq!(copy.get("k").unwrap(), "second");
}
