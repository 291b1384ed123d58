use indexer::dsl::{
    classify_dependency, dependency_from_args, extract, string_literal_value, strip_double_quotes,
    strip_single_quotes, unescape, AllayDepInfo, CallArg, Stmt,
};
use indexer::gradle::VersionRef;

fn s(v: &str) -> String {
    v.to_string()
}

fn assign(k: &str, v: &str) -> Stmt {
    Stmt::Assign(s(k), Some(s(v)), vec![])
}

#[test]
fn platform_block_with_manifest() {
    let stmts = vec![
        Stmt::Open(s("allay")),
        assign("api", "0.23.0"),
        Stmt::Open(s("plugin")),
        assign("name", "Foo"),
        assign("entrance", ".Foo"),
        Stmt::Close,
        Stmt::Close,
    ];
    let dsl = extract(&stmts).unwrap();
    assert_eq!(dsl.api, Some(s("0.23.0")));
    let plugin = dsl.plugin.unwrap();
    assert_eq!(plugin.name, Some(s("Foo")));
    assert_eq!(plugin.entrance, Some(s(".Foo")));
}

#[test]
fn server_coordinate_dependency() {
    let stmts = vec![
        Stmt::Open(s("dependencies")),
        Stmt::Call(s("compileOnly"), vec![CallArg::Positional(s("org.allaymc.allay:server:0.1.0"))]),
        Stmt::Close,
    ];
    let dsl = extract(&stmts).unwrap();
    assert!(dsl.has_allay_dependency);
    assert_eq!(dsl.api_only, Some(false));
    assert_eq!(dsl.server, Some(s("0.1.0")));
    assert!(dsl.plugin.is_none());
}

#[test]
fn delegate_prefix_and_juxtaposition_agree() {
    let plain = vec![Stmt::Open(s("allay")), Stmt::Open(s("plugin")), assign("name", "X"), Stmt::Close, Stmt::Close];
    let prefixed = vec![Stmt::Open(s("allay")), Stmt::Open(s("plugin")), assign("it.name", "X"), Stmt::Close, Stmt::Close];
    let a = extract(&plain).unwrap().plugin.unwrap();
    let b = extract(&prefixed).unwrap().plugin.unwrap();
    assert_eq!(a.name, b.name);
    assert_eq!(a.name, Some(s("X")));
}

#[test]
fn quote_styles_give_same_value() {
    assert_eq!(string_literal_value("\"MyPlugin\""), Some(s("MyPlugin")));
    assert_eq!(string_literal_value("'MyPlugin'"), Some(s("MyPlugin")));
    assert_eq!(strip_double_quotes("\"\"\"a\nb\"\"\""), Some(s("a\nb")));
    assert_eq!(strip_single_quotes("'''x'''"), Some(s("x")));
    assert_eq!(strip_double_quotes("abc"), None);
}

#[test]
fn escapes_resolved_and_unknown_kept() {
    assert_eq!(unescape("Test\\\"Plugin"), s("Test\"Plugin"));
    assert_eq!(unescape("Line1\\nLine2"), s("Line1\nLine2"));
    assert_eq!(unescape("a\\qb"), s("a\\qb"));
    assert_eq!(unescape("end\\"), s("end\\"));
}

#[test]
fn second_platform_block_replaces_local_fields() {
    let stmts = vec![
        Stmt::Call(s("compileOnly"), vec![CallArg::Positional(s("org.allaymc.allay:api:1.0.0"))]),
        Stmt::Open(s("allay")),
        assign("api", "1.0.0"),
        Stmt::Open(s("plugin")),
        assign("name", "First"),
        Stmt::Close,
        Stmt::Close,
        Stmt::Open(s("allay")),
        assign("api", "2.0.0"),
        Stmt::Open(s("plugin")),
        assign("name", "Second"),
        Stmt::Close,
        Stmt::Close,
    ];
    let dsl = extract(&stmts).unwrap();
    assert_eq!(dsl.api, Some(s("2.0.0")));
    assert_eq!(dsl.plugin.unwrap().name, Some(s("Second")));
    assert!(dsl.has_allay_dependency);
    assert!(matches!(dsl.api_version_ref, VersionRef::Literal(ref v) if v == "1.0.0"));
}

#[test]
fn no_platform_means_no_result() {
    let stmts = vec![
        Stmt::Open(s("dependencies")),
        Stmt::Call(s("implementation"), vec![CallArg::Positional(s("something"))]),
        Stmt::Close,
    ];
    assert!(extract(&stmts).is_none());
}

#[test]
fn authors_lists_accumulate() {
    let stmts = vec![
        Stmt::Open(s("allay")),
        Stmt::Open(s("plugin")),
        Stmt::Assign(s("authors"), None, vec![s("single")]),
        Stmt::Append(s("authors"), vec![s("list1"), s("list2")]),
        Stmt::Append(s("it.authors"), vec![s("mut1")]),
        Stmt::Close,
        Stmt::Close,
    ];
    let plugin = extract(&stmts).unwrap().plugin.unwrap();
    assert_eq!(plugin.authors, vec![s("single"), s("list1"), s("list2"), s("mut1")]);
}

#[test]
fn manifest_dependency_entries() {
    let stmts = vec![
        Stmt::Open(s("allay")),
        Stmt::Open(s("plugin")),
        Stmt::Open(s("dependencies")),
        Stmt::Call(s("dependency"), vec![CallArg::Positional(s("PluginA"))]),
        Stmt::Call(
            s("dependency"),
            vec![CallArg::Named(s("name"), s("PluginB")), CallArg::Named(s("optional"), s("true"))],
        ),
        Stmt::Close,
        Stmt::Call(s("dependency"), vec![CallArg::Positional(s("OtherPlugin")), CallArg::Positional(s("1.0.0"))]),
        Stmt::Close,
        Stmt::Close,
    ];
    let plugin = extract(&stmts).unwrap().plugin.unwrap();
    assert_eq!(plugin.dependencies.len(), 3);
    assert_eq!(plugin.dependencies[0].name, "PluginA");
    assert!(plugin.dependencies[1].optional);
    assert_eq!(plugin.dependencies[2].version, Some(s("1.0.0")));
    assert!(dependency_from_args(&[CallArg::Named(s("version"), s("1"))]).is_none());
}

#[test]
fn dependency_forms() {
    let named = classify_dependency(
        "compileOnly",
        &[
            CallArg::Named(s("group"), s("org.allaymc.allay")),
            CallArg::Named(s("name"), s("api")),
            CallArg::Named(s("version"), s("0.14.0")),
        ],
    );
    assert!(matches!(named, Some(AllayDepInfo::Api(VersionRef::Literal(ref v))) if v == "0.14.0"));
    let positional = classify_dependency(
        "compileOnly",
        &[
            CallArg::Positional(s("org.allaymc.allay")),
            CallArg::Positional(s("server")),
            CallArg::PositionalRef(s("Versions.Allay.api")),
        ],
    );
    assert!(matches!(positional, Some(AllayDepInfo::Server(VersionRef::Variable(ref v))) if v == "Versions.Allay.api"));
    let catalog = classify_dependency("compileOnly", &[CallArg::PositionalRef(s("libs.allay.server"))]);
    assert!(matches!(catalog, Some(AllayDepInfo::Server(VersionRef::VersionCatalog(ref v))) if v == "libs.allay.server"));
    let catalog_api = classify_dependency("compileOnly", &[CallArg::PositionalRef(s("rootProject.libs.allay"))]);
    assert!(matches!(catalog_api, Some(AllayDepInfo::Api(VersionRef::VersionCatalog(_)))));
    assert!(classify_dependency("testImplementation", &[CallArg::Positional(s("org.allaymc.allay:api:1"))]).is_none());
    assert!(classify_dependency("implementation", &[CallArg::Positional(s("other:lib:1"))]).is_none());
}

#[test]
fn project_fields_at_script_level() {
    let stmts = vec![
        assign("version", "1.0.0"),
        assign("description", "My awesome plugin"),
        Stmt::Call(s("compileOnly"), vec![CallArg::Positional(s("org.allaymc.allay:api:0.1.0"))]),
    ];
    let dsl = extract(&stmts).unwrap();
    assert_eq!(dsl.project_version, Some(s("1.0.0")));
    assert_eq!(dsl.project_description, Some(s("My awesome plugin")));
    assert_eq!(dsl.api, Some(s("0.1.0")));
}

#[test]
fn api_only_flag() {
    let stmts = vec![Stmt::Open(s("allay")), assign("api", "0.23.0"), assign("apiOnly", "true"), Stmt::Close];
    let dsl = extract(&stmts).unwrap();
    assert_eq!(dsl.api_only, Some(true));
    assert!(dsl.plugin.is_none());
}
