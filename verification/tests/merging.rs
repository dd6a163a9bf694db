use olcs::merge::merge;
use olcs::models::{Category, CommandDef, ParamDef, SubCategory};

fn param(name: &str, prompt: &str, optional: bool, default: Option<&str>) -> ParamDef {
    ParamDef {
        name: name.to_string(),
        prompt: prompt.to_string(),
        optional,
        default: default.map(|d| d.to_string()),
    }
}

fn cmd(name: &str, description: &str, exec_template: &str, params: Vec<ParamDef>) -> CommandDef {
    CommandDef {
        name: name.to_string(),
        description: description.to_string(),
        exec_template: exec_template.to_string(),
        params,
        pre_command: None,
    }
}

fn sample_catalog() -> Vec<Category> {
    vec![
        Category {
            category: "kube".to_string(),
            description: "kubernetes".to_string(),
            commands: vec![
                cmd("pods", "list pods", "kubectl get pods", vec![]),
                cmd("logs", "show logs", "kubectl logs {{pod}}", vec![param(
                    "pod",
                    "Pod name",
                    false,
                    None,
                )]),
            ],
            subcategories: vec![SubCategory {
                name: "ctx".to_string(),
                description: "contexts".to_string(),
                commands: vec![cmd("use", "switch context", "kubectl config use {{name}}", vec![])],
            }],
        },
        Category {
            category: "git".to_string(),
            description: "git helpers".to_string(),
            commands: vec![cmd("st", "status", "git status", vec![])],
            subcategories: vec![],
        },
    ]
}

fn assert_cmd_eq(a: &CommandDef, b: &CommandDef) {
    assert_eq!(a.name, b.name);
    assert_eq!(a.description, b.description);
    assert_eq!(a.exec_template, b.exec_template);
    assert_eq!(a.pre_command, b.pre_command);
    assert_eq!(a.params.len(), b.params.len());
    for (pa, pb) in a.params.iter().zip(b.params.iter()) {
        assert_eq!(pa.name, pb.name);
        assert_eq!(pa.prompt, pb.prompt);
        assert_eq!(pa.optional, pb.optional);
        assert_eq!(pa.default, pb.default);
    }
}

fn assert_catalog_eq(a: &[Category], b: &[Category]) {
    assert_eq!(a.len(), b.len());
    for (ca, cb) in a.iter().zip(b.iter()) {
        assert_eq!(ca.category, cb.category);
        assert_eq!(ca.description, cb.description);
        assert_eq!(ca.commands.len(), cb.commands.len());
        for (x, y) in ca.commands.iter().zip(cb.commands.iter()) {
            assert_cmd_eq(x, y);
        }
        assert_eq!(ca.subcategories.len(), cb.subcategories.len());
        for (sa, sb) in ca.subcategories.iter().zip(cb.subcategories.iter()) {
            assert_eq!(sa.name, sb.name);
            assert_eq!(sa.description, sb.description);
            assert_eq!(sa.commands.len(), sb.commands.len());
            for (x, y) in sa.commands.iter().zip(sb.commands.iter()) {
                assert_cmd_eq(x, y);
            }
        }
    }
}

#[test]
fn merge_into_itself_is_identity() {
    let catalog = sample_catalog();
    let merged = merge(&catalog, &catalog);
    assert_catalog_eq(&merged, &catalog);
}

#[test]
fn merge_empty_overlay_is_identity() {
    let base = sample_catalog();
    let merged = merge(&base, &Vec::new());
    assert_catalog_eq(&merged, &base);
}

#[test]
fn merge_replaces_matching_command_wholesale() {
    let base = sample_catalog();
    let overlay = vec![Category {
        category: "kube".to_string(),
        description: String::new(),
        commands: vec![cmd("logs", "tail logs", "kubectl logs -f {{pod}}", vec![])],
        subcategories: vec![],
    }];
    let merged = merge(&base, &overlay);
    assert_eq!(merged.len(), 2);
    let kube = &merged[0];
    // description untouched: the overlay's was empty
    assert_eq!(kube.description, "kubernetes");
    let logs = kube.commands.iter().find(|c| c.name == "logs").unwrap();
    // full replacement: template and parameter list are the overlay's
    assert_eq!(logs.exec_template, "kubectl logs -f {{pod}}");
    assert_eq!(logs.description, "tail logs");
    assert!(logs.params.is_empty());
    // the untouched sibling survives
    assert!(kube.commands.iter().any(|c| c.name == "pods"));
}

#[test]
fn merge_nonempty_description_wins() {
    let base = sample_catalog();
    let overlay = vec![Category {
        category: "git".to_string(),
        description: "better git helpers".to_string(),
        commands: vec![],
        subcategories: vec![],
    }];
    let merged = merge(&base, &overlay);
    assert_eq!(merged[1].description, "better git helpers");
    assert_eq!(merged[1].commands.len(), 1);
}

#[test]
fn merge_preserves_new_entries() {
    let base = sample_catalog();
    let overlay = vec![
        Category {
            category: "kube".to_string(),
            description: String::new(),
            commands: vec![cmd("top", "top pods", "kubectl top pods", vec![])],
            subcategories: vec![SubCategory {
                name: "ns".to_string(),
                description: "namespaces".to_string(),
                commands: vec![cmd("ls", "list", "kubectl get ns", vec![])],
            }],
        },
        Category {
            category: "azure".to_string(),
            description: "azure".to_string(),
            commands: vec![cmd("login", "log in", "az login", vec![])],
            subcategories: vec![],
        },
    ];
    let merged = merge(&base, &overlay);
    assert_eq!(merged.len(), 3);
    // the wholly new category is appended verbatim
    let azure = &merged[2];
    assert_eq!(azure.category, "azure");
    assert_eq!(azure.commands.len(), 1);
    assert_eq!(azure.commands[0].exec_template, "az login");
    // the new command joined the existing category's list
    let kube = &merged[0];
    let top = kube.commands.iter().find(|c| c.name == "top").unwrap();
    assert_eq!(top.exec_template, "kubectl top pods");
    // the new subcategory was appended after the existing one
    assert_eq!(kube.subcategories.len(), 2);
    assert_eq!(kube.subcategories[1].name, "ns");
    assert_eq!(kube.subcategories[1].commands[0].name, "ls");
}

#[test]
fn merge_combines_subcategory_command_lists() {
    let base = sample_catalog();
    let overlay = vec![Category {
        category: "kube".to_string(),
        description: String::new(),
        commands: vec![],
        subcategories: vec![SubCategory {
            name: "ctx".to_string(),
            description: String::new(),
            commands: vec![
                cmd("use", "switch hard", "kubectl config use-context {{name}}", vec![]),
                cmd("show", "current", "kubectl config current-context", vec![]),
            ],
        }],
    }];
    let merged = merge(&base, &overlay);
    let ctx = &merged[0].subcategories[0];
    assert_eq!(ctx.name, "ctx");
    // untouched description survives an empty overlay description
    assert_eq!(ctx.description, "contexts");
    assert_eq!(ctx.commands.len(), 2);
    assert_eq!(ctx.commands[0].exec_template, "kubectl config use-context {{name}}");
    assert_eq!(ctx.commands[1].name, "show");
}
