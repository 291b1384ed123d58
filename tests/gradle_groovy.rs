use indexer::front::parse_build_gradle;
use indexer::gradle::VersionRef;

#[test]
fn test_assignment_style() {
    let content = "allay {\n    api = \"0.23.0\"\n    apiOnly = false\n    server = \"0.1.0\"\n    plugin {\n        entrance = \".AllayNPC\"\n        name = \"AllayNPC\"\n        version = \"1.0.0\"\n        description = \"NPC plugin\"\n        authors += \"daoge_cmd\"\n        website = \"https://github.com/smartcmd/AllayNPC\"\n        apiVersion = \">=0.23.0\"\n    }\n}";
    let dsl = parse_build_gradle(content).unwrap();
    assert_eq!(dsl.api, Some("0.23.0".to_string()));
    assert_eq!(dsl.api_only, Some(false));
    assert_eq!(dsl.server, Some("0.1.0".to_string()));

    let plugin = dsl.plugin.unwrap();
    assert_eq!(plugin.entrance, Some(".AllayNPC".to_string()));
    assert_eq!(plugin.name, Some("AllayNPC".to_string()));
    assert_eq!(plugin.version, Some("1.0.0".to_string()));
    assert_eq!(plugin.description, Some("NPC plugin".to_string()));
    assert_eq!(plugin.authors, vec!["daoge_cmd"]);
    assert_eq!(
        plugin.website,
        Some("https://github.com/smartcmd/AllayNPC".to_string())
    );
    assert_eq!(plugin.api_version, Some(">=0.23.0".to_string()));
}

#[test]
fn test_it_prefix_style() {
    let content = "allay {\n    api = \"0.17.0\"\n    plugin {\n        it.entrance = \"me.lucko.luckperms.allay.loader.AllayLoaderPlugin\"\n        it.name = \"LuckPerms\"\n        it.description = \"A permissions plugin.\"\n        it.authors = [\"Luck\"]\n        it.website = \"https://luckperms.net\"\n    }\n}";
    let dsl = parse_build_gradle(content).unwrap();
    assert_eq!(dsl.api, Some("0.17.0".to_string()));

    let plugin = dsl.plugin.unwrap();
    assert_eq!(
        plugin.entrance,
        Some("me.lucko.luckperms.allay.loader.AllayLoaderPlugin".to_string())
    );
    assert_eq!(plugin.name, Some("LuckPerms".to_string()));
    assert_eq!(plugin.description, Some("A permissions plugin.".to_string()));
    assert_eq!(plugin.authors, vec!["Luck"]);
    assert_eq!(plugin.website, Some("https://luckperms.net".to_string()));
}

#[test]
fn test_single_quote_strings() {
    let content = "allay {\n    api = '0.23.0'\n    plugin {\n        name = 'MyPlugin'\n        entrance = '.MyPlugin'\n    }\n}";
    let dsl = parse_build_gradle(content).unwrap();
    assert_eq!(dsl.api, Some("0.23.0".to_string()));
    let plugin = dsl.plugin.unwrap();
    assert_eq!(plugin.name, Some("MyPlugin".to_string()));
    assert_eq!(plugin.entrance, Some(".MyPlugin".to_string()));
}

#[test]
fn test_groovy_dsl_method_style() {
    let content = "allay {\n    api \"0.23.0\"\n    plugin {\n        entrance \".AllayNPC\"\n        name \"AllayNPC\"\n        version \"1.0.0\"\n    }\n}";
    let dsl = parse_build_gradle(content).unwrap();
    assert_eq!(dsl.api, Some("0.23.0".to_string()));
    let plugin = dsl.plugin.unwrap();
    assert_eq!(plugin.entrance, Some(".AllayNPC".to_string()));
    assert_eq!(plugin.name, Some("AllayNPC".to_string()));
    assert_eq!(plugin.version, Some("1.0.0".to_string()));
}

#[test]
fn test_authors_array_literal() {
    let content = "allay {\n    plugin {\n        name = \"Test\"\n        entrance = \".Test\"\n        authors = [\"Author1\", \"Author2\"]\n    }\n}";
    let dsl = parse_build_gradle(content).unwrap();
    let plugin = dsl.plugin.unwrap();
    assert_eq!(plugin.authors, vec!["Author1", "Author2"]);
}

#[test]
fn test_authors_augmented_assignment() {
    let content = "allay {\n    plugin {\n        name = \"Test\"\n        entrance = \".Test\"\n        authors += \"a\"\n        authors += [\"b\", \"c\"]\n    }\n}";
    let dsl = parse_build_gradle(content).unwrap();
    let plugin = dsl.plugin.unwrap();
    assert_eq!(plugin.authors, vec!["a", "b", "c"]);
}

#[test]
fn test_dependencies_augmented() {
    let content = "allay {\n    plugin {\n        name = \"Test\"\n        entrance = \".Test\"\n        dependencies += dependency(\"OtherPlugin\")\n        dependencies += dependency(\"AnotherPlugin\", \"1.0.0\")\n    }\n}";
    let dsl = parse_build_gradle(content).unwrap();
    let plugin = dsl.plugin.unwrap();
    assert_eq!(plugin.dependencies.len(), 2);
    assert_eq!(plugin.dependencies[0].name, "OtherPlugin");
    assert_eq!(plugin.dependencies[1].name, "AnotherPlugin");
    assert_eq!(
        plugin.dependencies[1].version,
        Some("1.0.0".to_string())
    );
}

#[test]
fn test_dependencies_block() {
    let content = "allay {\n    plugin {\n        name = \"Test\"\n        entrance = \".Test\"\n        dependencies {\n            dependency(\"PluginA\")\n            dependency(\"PluginB\", \"1.0.0\")\n        }\n    }\n}";
    let dsl = parse_build_gradle(content).unwrap();
    let plugin = dsl.plugin.unwrap();
    assert_eq!(plugin.dependencies.len(), 2);
    assert_eq!(plugin.dependencies[0].name, "PluginA");
    assert_eq!(plugin.dependencies[1].name, "PluginB");
}

#[test]
fn test_juxt_compile_only() {
    let content = "dependencies {\n    compileOnly \"org.allaymc.allay:api:0.17.0\"\n}";
    let dsl = parse_build_gradle(content).unwrap();
    assert!(dsl.has_allay_dependency);
    assert_eq!(dsl.api, Some("0.17.0".to_string()));
    assert!(matches!(dsl.api_version_ref, VersionRef::Literal(v) if v == "0.17.0"));
}

#[test]
fn test_parens_compile_only() {
    let content = "dependencies {\n    compileOnly(\"org.allaymc.allay:api:0.24.0\")\n}";
    let dsl = parse_build_gradle(content).unwrap();
    assert!(dsl.has_allay_dependency);
    assert_eq!(dsl.api, Some("0.24.0".to_string()));
}

#[test]
fn test_named_args_with_colon() {
    let content = "dependencies {\n    compileOnly group: \"org.allaymc.allay\", name: \"api\", version: \"0.14.0\"\n}";
    let dsl = parse_build_gradle(content).unwrap();
    assert!(dsl.has_allay_dependency);
    assert_eq!(dsl.api, Some("0.14.0".to_string()));
}

#[test]
fn tests_test_server_dependency() {
    let content = "dependencies {\n    implementation(\"org.allaymc.allay:server:0.1.0\")\n}";
    let dsl = parse_build_gradle(content).unwrap();
    assert!(dsl.has_allay_dependency);
    assert_eq!(dsl.server, Some("0.1.0".to_string()));
    assert_eq!(dsl.api_only, Some(false));
}

#[test]
fn test_version_catalog_parens() {
    let content = "dependencies {\n    compileOnly(libs.allay.api)\n}";
    let dsl = parse_build_gradle(content).unwrap();
    assert!(dsl.has_allay_dependency);
    assert!(matches!(dsl.api_version_ref, VersionRef::VersionCatalog(_)));
}

#[test]
fn test_double_quote_version() {
    let content = "\nversion = \"1.2.3\"\ndependencies {\n    compileOnly(\"org.allaymc.allay:api:0.24.0\")\n}\n";
    let dsl = parse_build_gradle(content).unwrap();
    assert_eq!(dsl.project_version, Some("1.2.3".to_string()));
}

#[test]
fn test_single_quote_version() {
    let content = "\nversion = '1.2.3'\ndependencies {\n    compileOnly(\"org.allaymc.allay:api:0.24.0\")\n}\n";
    let dsl = parse_build_gradle(content).unwrap();
    assert_eq!(dsl.project_version, Some("1.2.3".to_string()));
}

#[test]
fn test_description() {
    let content = "\ndescription = \"My plugin description\"\ndependencies {\n    compileOnly(\"org.allaymc.allay:api:0.24.0\")\n}\n";
    let dsl = parse_build_gradle(content).unwrap();
    assert_eq!(
        dsl.project_description,
        Some("My plugin description".to_string())
    );
}

#[test]
fn test_luckperms_allay_build() {
    // Real content from AllayMC/LuckPerms allay/build.gradle
    let content = "plugins {\n    alias(libs.plugins.shadow)\n}\n\nsourceCompatibility = 21\ntargetCompatibility = 21\n\nrepositories {\n    maven { url 'https://central.sonatype.com/repository/maven-snapshots/' }\n}\n\ndependencies {\n    implementation project(':common')\n    compileOnly project(':common:loader-utils')\n\n    compileOnly \"org.allaymc.allay:api:0.17.0\"\n}\n\nshadowJar {\n    archiveFileName = 'luckperms-allay.jarinjar'\n}";
    let dsl = parse_build_gradle(content).unwrap();
    assert!(dsl.has_allay_dependency);
    assert_eq!(dsl.api, Some("0.17.0".to_string()));
}

#[test]
fn test_luckperms_loader_build() {
    // Real content from AllayMC/LuckPerms allay/loader/build.gradle
    let content = "plugins {\n    alias(libs.plugins.shadow)\n    alias(libs.plugins.allaygradle)\n}\n\nsourceCompatibility = 21\ntargetCompatibility = 21\n\nallay {\n    api = \"0.17.0\"\n\n    plugin {\n        it.entrance = \"me.lucko.luckperms.allay.loader.AllayLoaderPlugin\"\n        it.name = \"LuckPerms\"\n        it.description = \"A permissions plugin.\"\n        it.authors = [\"Luck\"]\n        it.version = project.ext.fullVersion\n        it.website = \"https://luckperms.net\"\n    }\n}\n\ndependencies {\n    implementation project(':api')\n    implementation project(':common:loader-utils')\n}";
    let dsl = parse_build_gradle(content).unwrap();
    assert_eq!(dsl.api, Some("0.17.0".to_string()));

    let plugin = dsl.plugin.unwrap();
    assert_eq!(
        plugin.entrance,
        Some("me.lucko.luckperms.allay.loader.AllayLoaderPlugin".to_string())
    );
    assert_eq!(plugin.name, Some("LuckPerms".to_string()));
    assert_eq!(plugin.description, Some("A permissions plugin.".to_string()));
    assert_eq!(plugin.authors, vec!["Luck"]);
    assert_eq!(plugin.website, Some("https://luckperms.net".to_string()));
    // project.ext.fullVersion is a reference, not a literal â†’ None
    assert_eq!(plugin.version, None);
}
