use niri_dynamic_workspaces::config::{Select, Template, TemplateVariable, VariableType};
use niri_dynamic_workspaces::template::{
    build_argv, build_hook_env, extract_variable_references, hook_env_var, mentions_env_var,
    resolve_workspace_title, substitute,
};

fn values(pairs: &[(&str, &str)]) -> Vec<(String, String)> {
    pairs
        .iter()
        .map(|(k, v)| ((*k).to_string(), (*v).to_string()))
        .collect()
}

#[test]
fn extract_variable_references_basic() {
    assert_eq!(extract_variable_references("code {{path}}"), vec!["path"]);
}

#[test]
fn extract_variable_references_multiple() {
    assert_eq!(
        extract_variable_references("{{a}} and {{b}}"),
        vec!["a", "b"]
    );
}

#[test]
fn extract_variable_references_none() {
    assert!(extract_variable_references("code .").is_empty());
}

#[test]
fn extract_variable_references_duplicate() {
    assert_eq!(extract_variable_references("{{x}} {{x}}"), vec!["x"]);
}

#[test]
fn extract_variable_references_whitespace() {
    assert_eq!(extract_variable_references("code {{ path }}"), vec!["path"]);
}

#[test]
fn substitute_replaces_placeholders() {
    let values = values(&[("cmd", "code"), ("arg", "/tmp")]);
    assert_eq!(substitute("{{cmd}} {{ arg }}!", &values), "code /tmp!");
}

#[test]
fn substitute_leaves_unknown_and_unterminated_placeholders() {
    let values = values(&[("a", "1")]);
    assert_eq!(substitute("{{a}} {{b}} {{a", &values), "1 {{b}} {{a");
}

#[test]
fn substitute_does_not_rescan_inserted_values() {
    let values = values(&[("a", "{{b}}"), ("b", "{{a}}")]);
    assert_eq!(substitute("{{a}} {{b}}", &values), "{{b}} {{a}}");
}

#[test]
fn build_argv_value_with_spaces_stays_one_argument() {
    let values = values(&[("path", "/home/me/my project")]);
    assert_eq!(
        build_argv("code {{path}}", &values).unwrap(),
        vec!["code", "/home/me/my project"]
    );
}

#[test]
fn build_argv_placeholder_inside_quotes() {
    let values = values(&[("x", "it's a \"test\"")]);
    assert_eq!(
        build_argv("kitty --title 'ws: {{x}}'", &values).unwrap(),
        vec!["kitty", "--title", "ws: it's a \"test\""]
    );
}

#[test]
fn build_argv_spaced_placeholder_is_one_word() {
    let values = values(&[("path", "/tmp")]);
    assert_eq!(
        build_argv("code {{ path }}", &values).unwrap(),
        vec!["code", "/tmp"]
    );
}

#[test]
fn build_argv_empty_value_keeps_the_argument() {
    let values = values(&[("x", "")]);
    assert_eq!(build_argv("echo {{x}}", &values).unwrap(), vec!["echo", ""]);
}

#[test]
fn build_argv_rejects_unbalanced_quotes() {
    assert!(build_argv("code 'unclosed", &Vec::new()).is_err());
}

#[test]
fn build_argv_positional_shell_idiom_keeps_value_out_of_script() {
    let values = values(&[("project", "Bob's notes")]);
    assert_eq!(
        build_argv(r#"sh -c 'cd "$1" && exec nvim' sh {{project}}"#, &values).unwrap(),
        vec!["sh", "-c", r#"cd "$1" && exec nvim"#, "sh", "Bob's notes"]
    );
}

#[test]
fn template_variables_field() {
    let tmpl = Template {
        name: "test".to_string(),
        programs: Vec::new(),
        key: None,
        variables: Vec::new(),
        on_create: Vec::new(),
        title: None,
    };
    assert!(tmpl.variables.is_empty());

    let tmpl_with = Template {
        name: "test".to_string(),
        programs: Vec::new(),
        key: None,
        variables: vec![TemplateVariable {
            name: "x".to_string(),
            label: "X".to_string(),
            var_type: VariableType::Text,
        }],
        on_create: Vec::new(),
        title: None,
    };
    assert!(!tmpl_with.variables.is_empty());
}

fn contains(env: &[(String, String)], name: &str, value: &str) -> bool {
    env.iter().any(|(n, v)| n == name && v == value)
}

#[test]
fn build_hook_env_basic() {
    let env = build_hook_env("dyn-a", 'a', None, &Vec::new());
    assert!(contains(&env, "NDW_WORKSPACE_NAME", "dyn-a"));
    assert!(contains(&env, "NDW_WORKSPACE_KEY", "a"));
    assert!(contains(&env, "NDW_TEMPLATE", ""));
}

#[test]
fn build_hook_env_with_template() {
    let env = build_hook_env("dyn-a", 'a', Some("dev"), &Vec::new());
    assert!(contains(&env, "NDW_TEMPLATE", "dev"));
}

#[test]
fn build_hook_env_with_variables() {
    let vars = values(&[("path", "/home/user"), ("branch", "main")]);
    let env = build_hook_env("dyn-a", 'a', Some("dev"), &vars);
    assert!(contains(&env, "NDW_VAR_PATH", "/home/user"));
    assert!(contains(&env, "NDW_VAR_BRANCH", "main"));
}

#[test]
fn hook_env_var_maps_non_alnum_to_underscore() {
    assert_eq!(hook_env_var("path"), "NDW_VAR_PATH");
    assert_eq!(hook_env_var("project-dir"), "NDW_VAR_PROJECT_DIR");
    assert_eq!(hook_env_var("a.b"), "NDW_VAR_A_B");
    assert_eq!(hook_env_var("n\u{e4}me"), "NDW_VAR_N_ME");
    assert_eq!(hook_env_var("x_1"), "NDW_VAR_X_1");
}

#[test]
fn build_hook_env_uses_shell_safe_names() {
    let vars = values(&[("project-dir", "/x")]);
    let env = build_hook_env("dyn-a", 'a', Some("dev"), &vars);
    assert!(contains(&env, "NDW_VAR_PROJECT_DIR", "/x"));
}

#[test]
fn build_hook_env_orders_variables_by_name() {
    let vars = values(&[("c", ""), ("a", ""), ("d", ""), ("b", "")]);
    let env = build_hook_env("dyn-a", 'a', None, &vars);
    let names: Vec<&str> = env.iter().map(|(name, _)| name.as_str()).collect();
    assert_eq!(
        names,
        [
            "NDW_WORKSPACE_NAME",
            "NDW_WORKSPACE_KEY",
            "NDW_TEMPLATE",
            "NDW_VAR_A",
            "NDW_VAR_B",
            "NDW_VAR_C",
            "NDW_VAR_D",
        ]
    );
}

#[test]
fn build_hook_env_exact_entries() {
    let vars = values(&[("zeta", "2"), ("alpha", "1")]);
    let env = build_hook_env("dyn-b Notes", 'b', Some("notes"), &vars);
    assert_eq!(
        env,
        values(&[
            ("NDW_WORKSPACE_NAME", "dyn-b Notes"),
            ("NDW_WORKSPACE_KEY", "b"),
            ("NDW_TEMPLATE", "notes"),
            ("NDW_VAR_ALPHA", "1"),
            ("NDW_VAR_ZETA", "2"),
        ])
    );
}

#[test]
fn mentions_env_var_matches_whole_words() {
    assert!(mentions_env_var("echo $NDW_VAR_X", "NDW_VAR_X"));
    assert!(mentions_env_var("echo \"${NDW_VAR_X}\"", "NDW_VAR_X"));
    assert!(mentions_env_var(
        "echo $NDW_VAR_X/a $NDW_VAR_XY",
        "NDW_VAR_X"
    ));
    assert!(!mentions_env_var("echo $NDW_VAR_XY", "NDW_VAR_X"));
    assert!(!mentions_env_var("echo $MY_NDW_VAR_X", "NDW_VAR_X"));
}

#[test]
fn resolve_workspace_title_explicit_template() {
    let variables = vec![];
    let values = values(&[("path", "/home/user/dev/myproject")]);
    let result = resolve_workspace_title(Some("Dev: {{path}}"), &variables, &values);
    assert_eq!(result, Some("Dev: /home/user/dev/myproject".to_string()));
}

#[test]
fn resolve_workspace_title_auto_text_var() {
    let variables = vec![TemplateVariable {
        name: "branch".to_string(),
        label: "Branch".to_string(),
        var_type: VariableType::Text,
    }];
    let values = values(&[("branch", "main")]);
    let result = resolve_workspace_title(None, &variables, &values);
    assert_eq!(result, Some("main".to_string()));
}

#[test]
fn resolve_workspace_title_auto_dir_basename() {
    let variables = vec![TemplateVariable {
        name: "path".to_string(),
        label: "Path".to_string(),
        var_type: VariableType::Select(Select::Dirs {
            dirs: vec!["~/dev".to_string()],
            depth: 1,
        }),
    }];
    let values = values(&[("path", "/home/user/dev/myproject")]);
    let result = resolve_workspace_title(None, &variables, &values);
    assert_eq!(result, Some("myproject".to_string()));
}

#[test]
fn resolve_workspace_title_no_variables() {
    let result = resolve_workspace_title(None, &Vec::new(), &Vec::new());
    assert_eq!(result, None);
}

#[test]
fn resolve_workspace_title_empty_value() {
    let variables = vec![TemplateVariable {
        name: "branch".to_string(),
        label: "Branch".to_string(),
        var_type: VariableType::Text,
    }];
    let values = values(&[("branch", "")]);
    let result = resolve_workspace_title(None, &variables, &values);
    assert_eq!(result, None);
}

#[test]
fn substitute_basename_filter_inserts_last_path_component() {
    let v = values(&[("path", "/home/me/dev/ndw")]);
    assert_eq!(substitute("{{path|basename}}", &v), "ndw");
    assert_eq!(substitute("in {{ path | basename }}/", &v), "in ndw/");
    assert_eq!(substitute("{{path}}", &v), "/home/me/dev/ndw");
}

#[test]
fn substitute_basename_filter_edge_cases() {
    assert_eq!(substitute("{{p|basename}}", &values(&[("p", "/home/me/dev/")])), "dev");
    assert_eq!(substitute("{{p|basename}}", &values(&[("p", "/")])), "/");
    assert_eq!(substitute("{{p|upper}}", &values(&[("p", "/a/b")])), "{{p|upper}}");
    assert_eq!(substitute("{{q|basename}}", &values(&[("p", "/a/b")])), "{{q|basename}}");
}

#[test]
fn extract_variable_references_sees_through_the_basename_filter() {
    assert_eq!(
        extract_variable_references("{{path|basename}} {{ dir | basename }} {{path}}"),
        vec!["path", "dir"]
    );
}

#[test]
fn build_argv_keeps_the_basename_filter() {
    let v = values(&[("path", "/home/me/my project")]);
    assert_eq!(
        build_argv("echo {{ path | basename }}", &v).unwrap(),
        vec!["echo", "my project"]
    );
}

#[test]
fn substitute_without_values_leaves_text_unchanged() {
    let t = "{{b}} {{a";
    assert_eq!(substitute(t, &values(&[("a", "1")])), t);
    assert_eq!(substitute("x {{ y }} z", &values(&[])), "x {{ y }} z");
}
