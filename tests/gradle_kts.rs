use indexer::front::parse_build_gradle_kts;
use indexer::gradle::VersionRef;

#[test]
fn test_parse_kotlin_dsl() {
    let content = "allay {\n    api = \"0.23.0-SNAPSHOT\"\n    apiOnly = false\n    server = \"0.1.0\"\n    plugin {\n        entrance = \".AllayNPC\"\n        name = \"AllayNPC\"\n        version = \"1.0.0\"\n        description = \"NPC plugin\"\n        authors += \"daoge_cmd\"\n        website = \"https://github.com/smartcmd/AllayNPC\"\n        apiVersion = \">=0.23.0\"\n    }\n}";
    let dsl = parse_build_gradle_kts(content).unwrap();
    assert_eq!(dsl.api, Some("0.23.0-SNAPSHOT".to_string()));
    assert_eq!(dsl.api_only, Some(false));
    assert_eq!(dsl.server, Some("0.1.0".to_string()));

    let plugin = dsl.plugin.unwrap();
    assert_eq!(plugin.entrance, Some(".AllayNPC".to_string()));
    assert_eq!(plugin.name, Some("AllayNPC".to_string()));
    assert_eq!(plugin.version, Some("1.0.0".to_string()));
    assert_eq!(plugin.description, Some("NPC plugin".to_string()));
    assert_eq!(plugin.authors, vec!["daoge_cmd"]);
    assert_eq!(
        plugin.website,
        Some("https://github.com/smartcmd/AllayNPC".to_string())
    );
    assert_eq!(plugin.api_version, Some(">=0.23.0".to_string()));
}

#[test]
fn test_huhobot_style() {
    let content = "allay {\n    api = \"0.17.0\"\n    apiOnly = true\n    server = null\n    plugin {\n        entrance = \".allay.HuHoBotAllay\"\n        apiVersion = \">=0.17.0\"\n        name = \"HuHoBot\"\n        authors += \"HuoHuas001\"\n        website = \"https://github.com/HuHoBot/KotlinMergeAdapter\"\n    }\n}";
    let dsl = parse_build_gradle_kts(content).unwrap();
    assert_eq!(dsl.api, Some("0.17.0".to_string()));
    assert_eq!(dsl.api_only, Some(true));
    assert_eq!(dsl.server, None);

    let plugin = dsl.plugin.unwrap();
    assert_eq!(plugin.entrance, Some(".allay.HuHoBotAllay".to_string()));
    assert_eq!(plugin.api_version, Some(">=0.17.0".to_string()));
    assert_eq!(plugin.name, Some("HuHoBot".to_string()));
    assert_eq!(plugin.authors, vec!["HuoHuas001"]);
}

#[test]
fn test_minebuilders_short_form() {
    let content = "allay.plugin {\n    name = \"TestPlugin\"\n    entrance = \".test.TestPlugin\"\n    description = \"Test plugin of AllayMC Experimental!\"\n}";
    let dsl = parse_build_gradle_kts(content).unwrap();
    let plugin = dsl.plugin.unwrap();
    assert_eq!(plugin.name, Some("TestPlugin".to_string()));
    assert_eq!(plugin.entrance, Some(".test.TestPlugin".to_string()));
}

#[test]
fn test_only_api_no_plugin() {
    let content = "allay {\n    api = \"0.23.0\"\n    apiOnly = true\n}";
    let dsl = parse_build_gradle_kts(content).unwrap();
    assert_eq!(dsl.api, Some("0.23.0".to_string()));
    assert_eq!(dsl.api_only, Some(true));
    assert!(dsl.plugin.is_none());
}

#[test]
fn test_empty_plugin_block() {
    let content = "allay {\n    api = \"0.1.0\"\n    plugin { }\n}";
    let dsl = parse_build_gradle_kts(content).unwrap();
    assert_eq!(dsl.api, Some("0.1.0".to_string()));
    let plugin = dsl.plugin.unwrap();
    assert_eq!(plugin.name, None);
    assert!(plugin.authors.is_empty());
}

#[test]
fn test_plugin_with_api_shorthand() {
    let content = "allay {\n    plugin {\n        name = \"Test\"\n        api = \">=0.20.0\"\n    }\n}";
    let dsl = parse_build_gradle_kts(content).unwrap();
    let plugin = dsl.plugin.unwrap();
    assert_eq!(plugin.api_version, Some(">=0.20.0".to_string()));
}

#[test]
fn test_multiple_allay_blocks_takes_last() {
    let content = "allay {\n    api = \"1.0.0\"\n    plugin {\n        name = \"First\"\n    }\n}\nallay {\n    api = \"2.0.0\"\n    plugin {\n        name = \"Second\"\n    }\n}";
    let dsl = parse_build_gradle_kts(content).unwrap();
    assert_eq!(dsl.api, Some("2.0.0".to_string()));
    let plugin = dsl.plugin.unwrap();
    assert_eq!(plugin.name, Some("Second".to_string()));
}

#[test]
fn test_no_allay_block() {
    let content = "plugins {\n    kotlin(\"jvm\")\n}\ndependencies {\n    implementation(\"something\")\n}";
    let dsl = parse_build_gradle_kts(content);
    assert!(dsl.is_none());
}

#[test]
fn test_allay_inside_other_blocks() {
    let content = "plugins {\n    kotlin(\"jvm\")\n}\n\nallay {\n    api = \"0.1.0\"\n    plugin {\n        name = \"Test\"\n    }\n}\n\ndependencies {\n    implementation(\"something\")\n}";
    let dsl = parse_build_gradle_kts(content).unwrap();
    assert_eq!(dsl.api, Some("0.1.0".to_string()));
    let plugin = dsl.plugin.unwrap();
    assert_eq!(plugin.name, Some("Test".to_string()));
}

#[test]
fn test_parse_list_authors() {
    let content = "allay {\n    plugin {\n        name = \"Test\"\n        authors += listOf(\"a\", \"b\")\n        authors += \"c\"\n    }\n}";
    let dsl = parse_build_gradle_kts(content).unwrap();
    let plugin = dsl.plugin.unwrap();
    assert_eq!(plugin.authors, vec!["a", "b", "c"]);
}

#[test]
fn test_mixed_authors() {
    let content = "allay {\n    plugin {\n        name = \"Test\"\n        authors += \"single\"\n        authors += listOf(\"list1\", \"list2\")\n        authors += mutableListOf(\"mut1\")\n    }\n}";
    let dsl = parse_build_gradle_kts(content).unwrap();
    let plugin = dsl.plugin.unwrap();
    assert_eq!(plugin.authors, vec!["single", "list1", "list2", "mut1"]);
}

#[test]
fn test_parse_dependencies() {
    let content = "allay {\n    plugin {\n        name = \"MyPlugin\"\n        dependencies += dependency(\"OtherPlugin\")\n        dependencies += dependency(\"AnotherPlugin\", \"1.0.0\", optional = true)\n    }\n}";
    let dsl = parse_build_gradle_kts(content).unwrap();
    let plugin = dsl.plugin.unwrap();
    assert_eq!(plugin.dependencies.len(), 2);

    assert_eq!(plugin.dependencies[0].name, "OtherPlugin");
    assert_eq!(plugin.dependencies[0].version, None);
    assert!(!plugin.dependencies[0].optional);

    assert_eq!(plugin.dependencies[1].name, "AnotherPlugin");
    assert_eq!(plugin.dependencies[1].version, Some("1.0.0".to_string()));
    assert!(plugin.dependencies[1].optional);
}

#[test]
fn test_dependencies_with_listof() {
    let content = "allay {\n    plugin {\n        name = \"Test\"\n        dependencies += listOf(\n            dependency(\"PluginA\"),\n            dependency(\"PluginB\", \"1.0.0\")\n        )\n    }\n}";
    let dsl = parse_build_gradle_kts(content).unwrap();
    let plugin = dsl.plugin.unwrap();
    assert_eq!(plugin.dependencies.len(), 2);
    assert_eq!(plugin.dependencies[0].name, "PluginA");
    assert_eq!(plugin.dependencies[1].name, "PluginB");
}

#[test]
fn test_dependencies_block_style() {
    let content = "allay {\n    plugin {\n        name = \"Test\"\n        dependencies {\n            dependency(\"PluginA\")\n            dependency(\"PluginB\", \"1.0.0\")\n            dependency(\"PluginC\", optional = true)\n        }\n    }\n}";
    let dsl = parse_build_gradle_kts(content).unwrap();
    let plugin = dsl.plugin.unwrap();
    assert_eq!(plugin.dependencies.len(), 3);
    assert!(plugin.dependencies[2].optional);
}

#[test]
fn test_dependency_with_only_named_name() {
    let content = "allay {\n    plugin {\n        name = \"Test\"\n        dependencies += dependency(name = \"OnlyName\")\n    }\n}";
    let dsl = parse_build_gradle_kts(content).unwrap();
    let plugin = dsl.plugin.unwrap();
    assert_eq!(plugin.dependencies[0].name, "OnlyName");
}

#[test]
fn test_trailing_commas() {
    let content = "allay {\n    plugin {\n        name = \"Test\"\n        authors += listOf(\n            \"Author1\",\n            \"Author2\",\n        )\n        dependencies += listOf(\n            dependency(\"Dep1\"),\n            dependency(\"Dep2\"),\n        )\n    }\n}";
    let dsl = parse_build_gradle_kts(content).unwrap();
    let plugin = dsl.plugin.unwrap();
    assert_eq!(plugin.authors, vec!["Author1", "Author2"]);
    assert_eq!(plugin.dependencies.len(), 2);
}

#[test]
fn test_compile_only_named() {
    let content = "dependencies {\n    compileOnly(group = \"org.allaymc.allay\", name = \"api\", version = \"0.14.0\")\n}";
    let dsl = parse_build_gradle_kts(content).unwrap();
    assert!(dsl.has_allay_dependency);
    assert_eq!(dsl.api, Some("0.14.0".to_string()));
    assert!(dsl.plugin.is_none());
}

#[test]
fn test_compile_only_api() {
    let content = "dependencies {\n    compileOnlyApi(\"org.allaymc.allay:api:0.24.0\")\n}";
    let dsl = parse_build_gradle_kts(content).unwrap();
    assert!(dsl.has_allay_dependency);
    assert_eq!(dsl.api, Some("0.24.0".to_string()));
}

#[test]
fn test_api_dependency() {
    let content = "dependencies {\n    api(\"org.allaymc.allay:server:0.24.0\")\n}";
    let dsl = parse_build_gradle_kts(content).unwrap();
    assert!(dsl.has_allay_dependency);
    assert_eq!(dsl.api_only, Some(false));
    assert_eq!(dsl.server, Some("0.24.0".to_string()));
}

#[test]
fn test_compile_only_string() {
    let content = "dependencies {\n    compileOnly(\"org.allaymc.allay:api:0.14.0\")\n}";
    let dsl = parse_build_gradle_kts(content).unwrap();
    assert!(dsl.has_allay_dependency);
    assert_eq!(dsl.api, Some("0.14.0".to_string()));
}

#[test]
fn test_implementation_allay() {
    let content = "dependencies {\n    implementation(group = \"org.allaymc.allay\", name = \"api\", version = \"0.14.0\")\n}";
    let dsl = parse_build_gradle_kts(content).unwrap();
    assert!(dsl.has_allay_dependency);
    assert_eq!(dsl.api, Some("0.14.0".to_string()));
}

#[test]
fn kts_test_server_dependency() {
    let content = "dependencies {\n    compileOnly(\"org.allaymc.allay:server:0.15.0\")\n}";
    let dsl = parse_build_gradle_kts(content).unwrap();
    assert!(dsl.has_allay_dependency);
    assert_eq!(dsl.api_only, Some(false));
    assert_eq!(dsl.server, Some("0.15.0".to_string()));
}

#[test]
fn test_server_dependency_named() {
    let content = "dependencies {\n    implementation(group = \"org.allaymc.allay\", name = \"server\", version = \"0.16.0\")\n}";
    let dsl = parse_build_gradle_kts(content).unwrap();
    assert!(dsl.has_allay_dependency);
    assert_eq!(dsl.api_only, Some(false));
    assert_eq!(dsl.server, Some("0.16.0".to_string()));
}

#[test]
fn test_both_api_and_server() {
    let content = "dependencies {\n    compileOnly(\"org.allaymc.allay:api:0.14.0\")\n    compileOnly(\"org.allaymc.allay:server:0.15.0\")\n}";
    let dsl = parse_build_gradle_kts(content).unwrap();
    assert!(dsl.has_allay_dependency);
    assert_eq!(dsl.api, Some("0.14.0".to_string()));
    assert_eq!(dsl.api_only, Some(false));
    assert_eq!(dsl.server, Some("0.15.0".to_string()));
}

#[test]
fn test_multi_positional_with_variable_version() {
    let content = "dependencies {\n    compileOnly(\"org.allaymc.allay\", \"api\", Versions.Allay.api)\n}";
    let dsl = parse_build_gradle_kts(content).unwrap();
    assert!(dsl.has_allay_dependency);
    assert_eq!(dsl.api, Some("".to_string()));
}

#[test]
fn test_multi_positional_server_with_variable_version() {
    let content = "dependencies {\n    compileOnly(\"org.allaymc.allay\", \"server\", Versions.Allay.server)\n}";
    let dsl = parse_build_gradle_kts(content).unwrap();
    assert!(dsl.has_allay_dependency);
    assert_eq!(dsl.api_only, Some(false));
    assert_eq!(dsl.server, Some("".to_string()));
}

#[test]
fn test_libs_allay() {
    let content = "dependencies {\n    compileOnly(rootProject.libs.allay)\n}";
    let dsl = parse_build_gradle_kts(content).unwrap();
    assert!(dsl.has_allay_dependency);
    assert!(matches!(dsl.api_version_ref, VersionRef::VersionCatalog(_)));
}

#[test]
fn test_libs_allay_api() {
    let content = "dependencies {\n    compileOnly(libs.allay.api)\n}";
    let dsl = parse_build_gradle_kts(content).unwrap();
    assert!(dsl.has_allay_dependency);
    assert!(matches!(dsl.api_version_ref, VersionRef::VersionCatalog(_)));
}

#[test]
fn test_libs_allay_server() {
    let content = "dependencies {\n    compileOnly(libs.allay.server)\n}";
    let dsl = parse_build_gradle_kts(content).unwrap();
    assert!(dsl.has_allay_dependency);
    assert_eq!(dsl.api_only, Some(false));
    assert!(matches!(
        dsl.server_version_ref,
        VersionRef::VersionCatalog(_)
    ));
}

#[test]
fn test_variable_version() {
    let content = "dependencies {\n    compileOnly(\"org.allaymc.allay\", \"api\", Versions.Allay.api)\n}";
    let dsl = parse_build_gradle_kts(content).unwrap();
    assert!(dsl.has_allay_dependency);
    assert!(matches!(dsl.api_version_ref, VersionRef::Variable(_)));
    if let VersionRef::Variable(path) = &dsl.api_version_ref {
        assert!(path.contains("Versions"));
    }
}

#[test]
fn test_variable_version_server() {
    let content = "dependencies {\n    compileOnly(\"org.allaymc.allay\", \"server\", Config.allayVersion)\n}";
    let dsl = parse_build_gradle_kts(content).unwrap();
    assert!(dsl.has_allay_dependency);
    assert_eq!(dsl.api_only, Some(false));
    assert!(matches!(dsl.server_version_ref, VersionRef::Variable(_)));
}

#[test]
fn test_escaped_strings() {
    let content = "allay {\n    plugin {\n        name = \"Test\\\"Plugin\"\n        description = \"Line1\\nLine2\"\n    }\n}";
    let dsl = parse_build_gradle_kts(content).unwrap();
    let plugin = dsl.plugin.unwrap();
    assert_eq!(plugin.name, Some("Test\"Plugin".to_string()));
    assert_eq!(plugin.description, Some("Line1\nLine2".to_string()));
}

#[test]
fn test_multiline_string() {
    let content = "allay {\n    plugin {\n        name = \"Test\"\n        description = \"\"\"This is a\nmultiline\ndescription\"\"\"\n    }\n}";
    let dsl = parse_build_gradle_kts(content).unwrap();
    let plugin = dsl.plugin.unwrap();
    assert_eq!(
        plugin.description,
        Some("This is a\nmultiline\ndescription".to_string())
    );
}

#[test]
fn test_multiline_string_with_trim() {
    let content = "allay {\n    plugin {\n        name = \"Test\"\n        description = \"\"\"\n            Line 1\n            Line 2\n        \"\"\".trimIndent()\n    }\n}";
    let dsl = parse_build_gradle_kts(content).unwrap();
    let plugin = dsl.plugin.unwrap();
    assert!(plugin.description.is_some());
    assert!(plugin.description.unwrap().contains("Line 1"));
}

#[test]
fn test_string_with_unicode() {
    let content = "allay {\n    plugin {\n        name = \"‰∏≠ÊñáÊèí‰ª∂\"\n        description = \"ËøôÊòØ‰∏Ä‰∏™ÊµãËØï üéÆ\"\n        authors += \"Êó•Êú¨Ë™û\"\n    }\n}";
    let dsl = parse_build_gradle_kts(content).unwrap();
    let plugin = dsl.plugin.unwrap();
    assert_eq!(plugin.name, Some("‰∏≠ÊñáÊèí‰ª∂".to_string()));
    assert_eq!(plugin.description, Some("ËøôÊòØ‰∏Ä‰∏™ÊµãËØï üéÆ".to_string()));
    assert_eq!(plugin.authors, vec!["Êó•Êú¨Ë™û"]);
}

#[test]
fn test_empty_multiline_string() {
    let content = "allay {\n    plugin {\n        name = \"Test\"\n        description = \"\"\"\"\"\"\n    }\n}";
    let dsl = parse_build_gradle_kts(content).unwrap();
    let plugin = dsl.plugin.unwrap();
    assert_eq!(plugin.description, Some("".to_string()));
}

#[test]
fn test_string_with_special_chars() {
    let content = "allay {\n    plugin {\n        name = \"Test<Plugin>\"\n        description = \"Contains 'quotes' and \\\"double quotes\\\"\"\n        website = \"https://example.com/path?query=1&other=2\"\n    }\n}";
    let dsl = parse_build_gradle_kts(content).unwrap();
    let plugin = dsl.plugin.unwrap();
    assert_eq!(plugin.name, Some("Test<Plugin>".to_string()));
    assert_eq!(
        plugin.description,
        Some("Contains 'quotes' and \"double quotes\"".to_string())
    );
}

#[test]
fn test_all_fields_empty_strings() {
    let content = "allay {\n    api = \"\"\n    plugin {\n        name = \"\"\n        entrance = \"\"\n        description = \"\"\n        website = \"\"\n    }\n}";
    let dsl = parse_build_gradle_kts(content).unwrap();
    assert_eq!(dsl.api, Some("".to_string()));
    let plugin = dsl.plugin.unwrap();
    assert_eq!(plugin.name, Some("".to_string()));
}

#[test]
fn test_with_comments() {
    let content = "allay {\n    // This is a comment\n    api = \"0.1.0\"\n    /* Block comment */\n    plugin {\n        name = \"Test\" // inline comment\n    }\n}";
    let dsl = parse_build_gradle_kts(content).unwrap();
    assert_eq!(dsl.api, Some("0.1.0".to_string()));
    let plugin = dsl.plugin.unwrap();
    assert_eq!(plugin.name, Some("Test".to_string()));
}

#[test]
fn test_extra_whitespace() {
    let content = "allay    {\n    api    =    \"0.1.0\"\n    plugin     {\n        name     =     \"Test\"\n    }\n}";
    let dsl = parse_build_gradle_kts(content).unwrap();
    assert_eq!(dsl.api, Some("0.1.0".to_string()));
    let plugin = dsl.plugin.unwrap();
    assert_eq!(plugin.name, Some("Test".to_string()));
}

#[test]
fn test_single_line_format() {
    let content = "allay { api = \"0.1.0\"; plugin { name = \"T\" } }";
    let dsl = parse_build_gradle_kts(content).unwrap();
    assert_eq!(dsl.api, Some("0.1.0".to_string()));
    let plugin = dsl.plugin.unwrap();
    assert_eq!(plugin.name, Some("T".to_string()));
}

#[test]
fn test_version_assignment() {
    let content = "\nversion = \"1.2.3\"\n\ndependencies {\n    compileOnlyApi(\"org.allaymc.allay:api:0.24.0\")\n}\n";
    let dsl = parse_build_gradle_kts(content).unwrap();
    assert_eq!(dsl.project_version, Some("1.2.3".to_string()));
}

#[test]
fn test_version_val_declaration() {
    let content = "\nval version = \"2.0.0\"\n\ndependencies {\n    compileOnlyApi(\"org.allaymc.allay:api:0.24.0\")\n}\n";
    let dsl = parse_build_gradle_kts(content).unwrap();
    assert_eq!(dsl.project_version, Some("2.0.0".to_string()));
}

#[test]
fn test_description_assignment() {
    let content = "\ndescription = \"A test plugin for Allay\"\n\ndependencies {\n    compileOnlyApi(\"org.allaymc.allay:api:0.24.0\")\n}\n";
    let dsl = parse_build_gradle_kts(content).unwrap();
    assert_eq!(
        dsl.project_description,
        Some("A test plugin for Allay".to_string())
    );
}

#[test]
fn test_description_val_declaration() {
    let content = "\nval description = \"Project description here\"\n\ndependencies {\n    compileOnlyApi(\"org.allaymc.allay:api:0.24.0\")\n}\n";
    let dsl = parse_build_gradle_kts(content).unwrap();
    assert_eq!(
        dsl.project_description,
        Some("Project description here".to_string())
    );
}

#[test]
fn test_version_and_description_together() {
    let content = "\nversion = \"1.0.0\"\ndescription = \"My awesome plugin\"\n\ndependencies {\n    compileOnlyApi(\"org.allaymc.allay:api:0.24.0\")\n}\n";
    let dsl = parse_build_gradle_kts(content).unwrap();
    assert_eq!(dsl.project_version, Some("1.0.0".to_string()));
    assert_eq!(
        dsl.project_description,
        Some("My awesome plugin".to_string())
    );
}
