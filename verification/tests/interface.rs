use olcs::cli::parse_arg_overrides;
use olcs::cli_utils::{args_column, default_group_index, render_table};
use olcs::context::{create_context, switch_subscription};
use olcs::lookup::find_command;
use olcs::menu::{
    build_category_menu, build_root_menu, create_prompt_for_level, format_command_args,
    format_commands_table, menu_action_for, navigate_back, prepare_menu_display, Menu, MenuAction,
    MenuItem, MenuLevel,
};
use olcs::models::{Category, CommandDef, Config, ParamDef, SubCategory};
use olcs::namespace::{namespace_argument, namespace_menu_items};
use olcs::text::{normalize_name, normalize_whitespace};

fn param(name: &str, optional: bool) -> ParamDef {
    ParamDef { name: name.to_string(), prompt: String::new(), optional, default: None }
}

fn cmd(name: &str, description: &str, exec_template: &str, params: Vec<ParamDef>) -> CommandDef {
    CommandDef {
        name: name.to_string(),
        description: description.to_string(),
        exec_template: exec_template.to_string(),
        params,
        pre_command: None,
    }
}

fn sample_config() -> Config {
    Config {
        defaults: None,
        params: Vec::new(),
        categories: vec![
            Category {
                category: "Kube".to_string(),
                description: String::new(),
                commands: vec![cmd("Pods", "list pods", "kubectl get pods", vec![])],
                subcategories: vec![SubCategory {
                    name: "Ctx".to_string(),
                    description: String::new(),
                    commands: vec![cmd("Use", "switch", "kubectl config use {{name}}", vec![])],
                }],
            },
        ],
        files: Vec::new(),
    }
}

#[test]
fn normalization_lowercases_and_strips_spaces() {
    assert_eq!(normalize_name("Azure Login"), "azurelogin");
    assert_eq!(normalize_name("ABC"), "abc");
}

#[test]
fn whitespace_normalization_trims_and_collapses() {
    assert_eq!(normalize_whitespace("  a\t b   c  "), "a b c");
    assert_eq!(normalize_whitespace("plain"), "plain");
    assert_eq!(normalize_whitespace("   "), "");
}

#[test]
fn commands_are_found_by_dotted_normalized_names() {
    let cfg = sample_config();
    let c = find_command(&cfg.categories, "kube.pods").unwrap();
    assert_eq!(c.name, "Pods");
    let c = find_command(&cfg.categories, "Kube.Ctx.Use").unwrap();
    assert_eq!(c.exec_template, "kubectl config use {{name}}");
    // spaces in the query are ignored by normalization
    let c = find_command(&cfg.categories, "kube . ctx . use").unwrap();
    assert_eq!(c.name, "Use");
    assert!(find_command(&cfg.categories, "kube.missing").is_none());
}

#[test]
fn override_arguments_split_at_the_first_equals_sign() {
    let args = vec![
        "region=eu-west".to_string(),
        "flag".to_string(),
        "query=a=b".to_string(),
    ];
    let map = parse_arg_overrides(&args);
    assert_eq!(map.get("region").unwrap(), "eu-west");
    assert_eq!(map.get("query").unwrap(), "a=b");
    assert!(!map.contains_key("flag"));
}

#[test]
fn context_prefers_last_used_values_over_defaults() {
    let mut cfg = sample_config();
    cfg.defaults = Some(olcs::models::GlobalDefaults { group: Some("team-a".to_string()) });
    let ctx = create_context(&cfg, None, None, None);
    assert_eq!(ctx.current_group.as_deref(), Some("team-a"));
    let ctx = create_context(&cfg, Some("team-b".to_string()), Some("dev".to_string()), None);
    assert_eq!(ctx.current_group.as_deref(), Some("team-b"));
    assert_eq!(ctx.current_namespace.as_deref(), Some("dev"));
    assert!(ctx.current_user.is_none());
}

#[test]
fn switching_subscription_updates_only_the_group() {
    let cfg = sample_config();
    let mut ctx = create_context(&cfg, None, Some("dev".to_string()), None);
    switch_subscription(&mut ctx, "team-c");
    assert_eq!(ctx.current_group.as_deref(), Some("team-c"));
    assert_eq!(ctx.current_namespace.as_deref(), Some("dev"));
}

#[test]
fn config_default_names_the_two_definition_files() {
    let cfg = Config::default();
    assert!(cfg.defaults.is_none());
    assert!(cfg.categories.is_empty());
    assert_eq!(cfg.files.len(), 2);
    assert_eq!(cfg.files[0].0, "paramsFile");
    assert_eq!(cfg.files[0].1.filename, "scli.params.yaml");
    assert_eq!(cfg.files[1].0, "commandsFile");
    assert_eq!(cfg.files[1].1.filename, "scli.commands.yaml");
}

#[test]
fn namespace_choices_lead_with_context_and_all() {
    let names = vec!["dev".to_string(), "prod".to_string()];
    let items = namespace_menu_items(&names);
    assert_eq!(items, vec![
        "context".to_string(),
        "all".to_string(),
        "dev".to_string(),
        "prod".to_string(),
    ]);
    assert_eq!(namespace_argument(&items, 0).unwrap(), "");
    assert_eq!(namespace_argument(&items, 1).unwrap(), "--all-namespaces");
    assert_eq!(namespace_argument(&items, 3).unwrap(), "-n prod");
    assert!(namespace_argument(&items, 9).is_none());
}

#[test]
fn group_chooser_starts_on_the_current_group() {
    let names = vec!["a".to_string(), "b".to_string(), "c".to_string()];
    let current = "b".to_string();
    assert_eq!(default_group_index(&names, Some(&current)), 1);
    let absent = "z".to_string();
    assert_eq!(default_group_index(&names, Some(&absent)), 0);
    assert_eq!(default_group_index(&names, None), 0);
}

#[test]
fn args_column_brackets_optional_arguments() {
    let c = cmd("x", "", "run", vec![param("one", false), param("two", true)]);
    assert_eq!(args_column(&c), "one, [two]");
    assert_eq!(format_command_args(&c), "one, [two]");
    let bare = cmd("x", "", "run", vec![]);
    assert_eq!(args_column(&bare), "-");
}

#[test]
fn rendered_table_has_header_underline_and_rows() {
    let cmds = vec![
        cmd("pods", "list all pods in the namespace", "kubectl get pods", vec![]),
        cmd("logs", "tail logs", "kubectl logs", vec![param("pod", false)]),
    ];
    let rows = render_table(&cmds, "kube", 80);
    assert!(rows.len() >= 4);
    assert!(rows[0].starts_with("NAME"));
    assert!(rows[0].contains("DESCRIPTION"));
    assert!(rows[0].ends_with("ARGS"));
    assert!(rows[1].starts_with("------------"));
    assert!(rows[2].starts_with("kube.pods"));
    let logs_row = rows.iter().find(|r| r.starts_with("kube.logs")).unwrap();
    assert!(logs_row.contains("tail logs"));
    assert!(logs_row.ends_with("pod"));
}

#[test]
fn formatted_blocks_wrap_long_descriptions() {
    let long = "a description that is certainly long enough to be wrapped over more than one line at a narrow width";
    let cmds = vec![cmd("wide", long, "run", vec![])];
    let table = format_commands_table(&cmds, 60);
    assert_eq!(table.0.len(), 1);
    let block = &table.0[0];
    assert!(block.contains('\n'));
    let first = block.lines().next().unwrap();
    assert!(first.starts_with("wide"));
    // every visible line respects the description width plus fixed columns
    for line in block.lines() {
        assert!(line.chars().count() <= table.1 + 2 + table.2 + 2 + 30);
    }
}

#[test]
fn menus_navigate_between_levels() {
    assert_eq!(navigate_back(&MenuLevel::Root), MenuLevel::Root);
    assert_eq!(navigate_back(&MenuLevel::Category(3)), MenuLevel::Root);
    assert_eq!(navigate_back(&MenuLevel::SubCategory(3, 1)), MenuLevel::Category(3));
    let action = menu_action_for(&MenuItem::GoBack, &MenuLevel::SubCategory(2, 0));
    assert_eq!(action, MenuAction::Navigate(MenuLevel::Category(2)));
    let action = menu_action_for(&MenuItem::ExecuteCommand(1, Some(0), 4), &MenuLevel::Root);
    assert_eq!(action, MenuAction::Execute(1, Some(0), 4));
    assert_eq!(menu_action_for(&MenuItem::Header, &MenuLevel::Root), MenuAction::Stay);
    assert_eq!(menu_action_for(&MenuItem::Exit, &MenuLevel::Root), MenuAction::Exit);
}

#[test]
fn root_menu_lists_categories_then_exit() {
    let cfg = sample_config();
    let menu = build_root_menu(&cfg);
    assert_eq!(menu.labels.len(), 2);
    assert_eq!(menu.labels[0], "Kube");
    assert_eq!(menu.items[0], MenuItem::NavigateCategory(0));
    assert_eq!(menu.items[1], MenuItem::Exit);
}

#[test]
fn category_menu_shows_subcategories_then_command_table() {
    let cfg = sample_config();
    let menu = build_category_menu(0, &cfg, 80);
    assert_eq!(menu.labels[0], "Ctx");
    assert_eq!(menu.items[0], MenuItem::NavigateSubCategory(0, 0));
    // then the two header rows of the command table
    assert_eq!(menu.items[1], MenuItem::Header);
    assert_eq!(menu.items[2], MenuItem::Header);
    assert_eq!(menu.items[3], MenuItem::ExecuteCommand(0, None, 0));
    // and the navigation actions close the list
    let n = menu.items.len();
    assert_eq!(menu.items[n - 2], MenuItem::GoBack);
    assert_eq!(menu.items[n - 1], MenuItem::Exit);
}

#[test]
fn prompts_name_the_level() {
    let cfg = sample_config();
    assert_eq!(
        create_prompt_for_level(&MenuLevel::Root, &cfg),
        "Select a category or action"
    );
    assert_eq!(
        create_prompt_for_level(&MenuLevel::Category(0), &cfg),
        "Category: Kube \u{2014} choose subcategory or command"
    );
    assert_eq!(
        create_prompt_for_level(&MenuLevel::SubCategory(0, 0), &cfg),
        "Subcategory: Kube / Ctx \u{2014} choose a command"
    );
}

#[test]
fn display_preparation_separates_headers_from_choices() {
    let mut menu = Menu::new();
    menu.add_header("NAME  DESCRIPTION".to_string());
    menu.add("run it".to_string(), MenuItem::ExecuteCommand(0, None, 0));
    menu.add_navigation_actions(false);
    let (headers, labels, items) = prepare_menu_display(&menu);
    assert_eq!(headers, vec!["NAME  DESCRIPTION".to_string()]);
    assert_eq!(labels.len(), 3);
    assert_eq!(items[0], MenuItem::ExecuteCommand(0, None, 0));
    assert_eq!(items[1], MenuItem::GoBack);
    assert_eq!(items[2], MenuItem::Exit);
}

#[test]
fn table_rows_respect_the_terminal_budget() {
    let cmds = vec![
        cmd("verylongcommandname", "word ".repeat(40).trim().to_string().as_str(), "run", vec![
            param("alpha", false),
            param("beta", true),
            param("gamma", true),
        ]),
    ];
    let rows = render_table(&cmds, "prefix", 80);
    // every row stays within the allocated columns: name, two separators,
    // description, two separators, args capped at thirty
    for row in rows.iter().skip(2) {
        assert!(row.chars().count() <= 18 + 2 + 100 + 2 + 30);
    }
    // wrapped description lines never exceed the description column
    let table = format_commands_table(&cmds, 80);
    for block in &table.0 {
        for line in block.lines() {
            assert!(line.chars().count() <= table.1 + 2 + table.2 + 2 + 30);
        }
    }
}
