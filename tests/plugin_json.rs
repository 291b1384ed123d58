use indexer::gradle::{resolve_template, PluginDsl, PluginJson, PluginJsonDependency};

#[test]
fn test_plugin_json_to_plugin_dsl() {
    let json = PluginJson {
        entrance: Some("Test".to_string()),
        name: Some("TestPlugin".to_string()),
        version: Some("1.0.0".to_string()),
        authors: vec!["Author1".to_string()],
        api_version: Some(">=0.14.0".to_string()),
        ..Default::default()
    };
    let dsl: PluginDsl = json.into();
    assert_eq!(dsl.entrance, Some("Test".to_string()));
    assert_eq!(dsl.name, Some("TestPlugin".to_string()));
    assert_eq!(dsl.api_version, Some(">=0.14.0".to_string()));
}

#[test]
fn test_plugin_json_with_project_version_template() {
    let json = PluginJson {
        entrance: Some("com.example.Plugin".to_string()),
        name: Some("TestPlugin".to_string()),
        version: Some("${project.version}".to_string()),
        authors: vec!["Author".to_string()],
        ..Default::default()
    };
    let dsl = json.into_plugin_dsl(None, Some("1.2.3"), None);
    assert_eq!(dsl.version, Some("1.2.3".to_string()));
}

#[test]
fn test_plugin_json_with_project_version_template_no_version() {
    let json = PluginJson {
        entrance: Some("com.example.Plugin".to_string()),
        name: Some("TestPlugin".to_string()),
        version: Some("${project.version}".to_string()),
        authors: vec!["Author".to_string()],
        ..Default::default()
    };
    let dsl = json.into_plugin_dsl(None, None, None);
    assert_eq!(dsl.version, None);
}

#[test]
fn test_plugin_json_with_description_template() {
    let json = PluginJson {
        entrance: Some("com.example.Plugin".to_string()),
        name: Some("TestPlugin".to_string()),
        version: Some("1.0.0".to_string()),
        description: Some("${description}".to_string()),
        authors: vec!["Author".to_string()],
        ..Default::default()
    };
    let dsl = json.into_plugin_dsl(None, None, Some("A test plugin"));
    assert_eq!(dsl.description, Some("A test plugin".to_string()));
}

#[test]
fn test_plugin_json_with_project_description_template() {
    let json = PluginJson {
        entrance: Some("com.example.Plugin".to_string()),
        name: Some("TestPlugin".to_string()),
        version: Some("1.0.0".to_string()),
        description: Some("${project.description}".to_string()),
        authors: vec!["Author".to_string()],
        ..Default::default()
    };
    let dsl = json.into_plugin_dsl(None, None, Some("Project description"));
    assert_eq!(dsl.description, Some("Project description".to_string()));
}

#[test]
fn test_plugin_json_with_at_description_template() {
    let json = PluginJson {
        entrance: Some("com.example.Plugin".to_string()),
        name: Some("TestPlugin".to_string()),
        version: Some("1.0.0".to_string()),
        description: Some("@DESCRIPTION@".to_string()),
        authors: vec!["Author".to_string()],
        ..Default::default()
    };
    let dsl = json.into_plugin_dsl(None, None, Some("An awesome plugin"));
    assert_eq!(dsl.description, Some("An awesome plugin".to_string()));
}

#[test]
fn test_plugin_json_with_at_description_template_no_project_desc() {
    let json = PluginJson {
        entrance: Some("com.example.Plugin".to_string()),
        name: Some("TestPlugin".to_string()),
        version: Some("1.0.0".to_string()),
        description: Some("@DESCRIPTION@".to_string()),
        authors: vec!["Author".to_string()],
        ..Default::default()
    };
    let dsl = json.into_plugin_dsl(None, None, None);
    assert_eq!(dsl.description, None);
}

#[test]
fn test_plugin_json_with_description_template_no_project_desc() {
    let json = PluginJson {
        entrance: Some("com.example.Plugin".to_string()),
        name: Some("TestPlugin".to_string()),
        version: Some("1.0.0".to_string()),
        description: Some("${description}".to_string()),
        authors: vec!["Author".to_string()],
        ..Default::default()
    };
    let dsl = json.into_plugin_dsl(None, None, None);
    assert_eq!(dsl.description, None);
}

#[test]
fn test_plugin_json_with_name_template() {
    let json = PluginJson {
        entrance: Some("com.example.Plugin".to_string()),
        name: Some("${name}".to_string()),
        version: Some("${version}".to_string()),
        authors: vec!["Author".to_string()],
        ..Default::default()
    };
    let dsl = json.into_plugin_dsl(Some("Pronouns"), Some("2.0.0"), None);
    assert_eq!(dsl.name, Some("Pronouns".to_string()));
    assert_eq!(dsl.version, Some("2.0.0".to_string()));
}

#[test]
fn test_plugin_json_with_name_template_no_project_name() {
    let json = PluginJson {
        entrance: Some("com.example.Plugin".to_string()),
        name: Some("${name}".to_string()),
        authors: vec!["Author".to_string()],
        ..Default::default()
    };
    let dsl = json.into_plugin_dsl(None, None, None);
    assert_eq!(dsl.name, None);
}

#[test]
fn template_partial_substitution_is_absent() {
    assert_eq!(resolve_template(Some("${name}-${other}"), Some("A"), None, None), None);
    assert_eq!(
        resolve_template(Some("v${version} by ${name}"), Some("A"), Some("1.0"), None),
        Some("v1.0 by A".to_string())
    );
    assert_eq!(resolve_template(Some("plain"), None, None, None), Some("plain".to_string()));
    assert_eq!(resolve_template(None, Some("A"), None, None), None);
}

#[test]
fn plugin_json_dependencies_carry_over() {
    let json = PluginJson {
        dependencies: vec![PluginJsonDependency {
            name: "Other".to_string(),
            version: Some("1.0".to_string()),
            optional: true,
        }],
        ..Default::default()
    };
    let dsl = json.into_plugin_dsl(None, None, None);
    assert_eq!(dsl.dependencies.len(), 1);
    assert_eq!(dsl.dependencies[0].name, "Other");
    assert_eq!(dsl.dependencies[0].version, Some("1.0".to_string()));
    assert!(dsl.dependencies[0].optional);
}

#[test]
fn companion_manifest_adopted_with_project_context() {
    use_companion();
}

fn use_companion() {
    let mut dsl = indexer::gradle::AllayDsl::default();
    dsl.has_allay_dependency = true;
    dsl.project_version = Some("3.1.4".to_string());
    assert!(indexer::builder::wants_companion_manifest(&dsl));
    let without_entrance = PluginJson { name: Some("X".to_string()), ..Default::default() };
    assert!(!indexer::builder::adopt_companion_manifest(&mut dsl, without_entrance));
    assert!(dsl.plugin.is_none());
    let json = PluginJson {
        entrance: Some("a.B".to_string()),
        version: Some("${project.version}".to_string()),
        ..Default::default()
    };
    assert!(indexer::builder::adopt_companion_manifest(&mut dsl, json));
    assert_eq!(dsl.plugin.as_ref().unwrap().version, Some("3.1.4".to_string()));
    assert!(indexer::builder::dsl_usable(&dsl));
}

#[test]
fn settings_fill_missing_project_fields() {
    let mut dsl = indexer::gradle::AllayDsl::default();
    dsl.project_version = Some("1.0".to_string());
    let mut settings = indexer::gradle::AllayDsl::default();
    settings.project_version = Some("9.9".to_string());
    settings.project_description = Some("From settings".to_string());
    indexer::builder::adopt_settings(&mut dsl, &settings);
    assert_eq!(dsl.project_version, Some("1.0".to_string()));
    assert_eq!(dsl.project_description, Some("From settings".to_string()));
}
