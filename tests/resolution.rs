use indexer::github::{GitTreeEntry, Release};
use indexer::gradle::VersionRef;
use indexer::readme::{process_html_images, process_html_links, process_md_images, process_md_links, PostProcessContext};
use indexer::resolver::{
    extract_allay_version_from_code, extract_api_version_from_name, is_snapshot_version, parse_allay_version_from_toml,
    resolution_sources, resolve_snapshot_version, resolve_version,
};

fn s(v: &str) -> String {
    v.to_string()
}

fn blob(path: &str) -> GitTreeEntry {
    GitTreeEntry { path: s(path), entry_type: s("blob"), sha: s(""), size: None }
}

#[test]
fn snapshot_markers() {
    assert!(is_snapshot_version("dev-SNAPSHOT"));
    assert!(!is_snapshot_version("0.23.0-SNAPSHOT"));
    assert!(!is_snapshot_version("0.23.0"));
    assert!(is_snapshot_version("1.x-SNAPSHOT"));
    assert!(is_snapshot_version("-snapshot"));
}

#[test]
fn release_name_version() {
    assert_eq!(extract_api_version_from_name("Allay 0.5 (API 0.23.0)"), Some(s("0.23.0")));
    assert_eq!(extract_api_version_from_name("Allay (API  )"), None);
    assert_eq!(extract_api_version_from_name("Allay"), None);
    let rel = |name: &str, pre: bool| Release {
        id: 0,
        tag_name: s("t"),
        name: Some(s(name)),
        body: None,
        prerelease: pre,
        draft: false,
        created_at: s(""),
        published_at: s(""),
        assets: vec![],
    };
    assert_eq!(resolve_snapshot_version(&[rel("x (API 9.9)", true), rel("y (API 1.2.3)", false)]), Some(s("1.2.3")));
}

#[test]
fn variable_version_in_source() {
    let code = "object Versions {\n  object Allay {\n    const val api = \"0.17.0\"\n  }\n}\n";
    assert_eq!(extract_allay_version_from_code(code, "Versions.Allay.api"), Some(s("0.17.0")));
    let loose = "val allayVersion = \"1.2.3\"\n";
    assert_eq!(extract_allay_version_from_code(loose, "Deps.other"), Some(s("1.2.3")));
    assert_eq!(extract_allay_version_from_code("val api = \"abc\"", "X.api"), None);
}

#[test]
fn version_catalog() {
    let direct = "[libraries]\nallay = { group = \"org.allaymc.allay\", name = \"api\", version = \"0.20.0\" }\n";
    assert_eq!(parse_allay_version_from_toml(direct), Some(s("0.20.0")));
    let alias = "[versions]\nallay-ver = \"0.21.0\"\n[libraries]\nallay = { module = \"x:y\", version.ref = \"allay-ver\" }\n";
    assert_eq!(parse_allay_version_from_toml(alias), Some(s("0.21.0")));
    assert_eq!(parse_allay_version_from_toml("[versions]\nallay-api = \"0.1\"\n"), Some(s("0.1")));
    assert_eq!(parse_allay_version_from_toml("not toml ["), None);
}

#[test]
fn resolving_references() {
    let tree = vec![blob("gradle/libs.versions.toml"), blob("buildSrc/src/main/kotlin/Versions.kt"), blob("README.md")];
    assert_eq!(resolution_sources(&VersionRef::VersionCatalog(s("libs.allay")), &tree), vec![s("gradle/libs.versions.toml")]);
    assert_eq!(
        resolution_sources(&VersionRef::Variable(s("Versions.Allay.api")), &tree),
        vec![s("buildSrc/src/main/kotlin/Versions.kt")]
    );
    assert_eq!(resolve_version(&VersionRef::Literal(s("1.0")), &[], None), Some(s("1.0")));
    assert_eq!(resolve_version(&VersionRef::Literal(s("main-SNAPSHOT")), &[], Some("0.9")), Some(s("0.9")));
    assert_eq!(resolve_version(&VersionRef::Absent, &[], Some("0.9")), None);
    let content = Some(s("[versions]\nallay = \"0.3.0\"\n"));
    assert_eq!(resolve_version(&VersionRef::VersionCatalog(s("libs.allay")), &[content], None), Some(s("0.3.0")));
}

#[test]
fn readme_rewriting() {
    let ctx = PostProcessContext { owner: "o", repo: "r", branch: "main" };
    let mut gallery = Vec::new();
    let md = process_md_images("x ![shot](./img/a.png) ![w](https://e.com/b.png)", &ctx, &mut gallery);
    assert_eq!(md, "x ![shot](https://raw.githubusercontent.com/o/r/main/img/a.png) ![w](https://e.com/b.png)");
    assert_eq!(gallery.len(), 1);
    assert_eq!(gallery[0].title, "shot");
    let html = process_html_images("<img src=\"pic.png\" alt=\"Pic\">", &ctx, &mut gallery);
    assert_eq!(html, "<img src=\"https://raw.githubusercontent.com/o/r/main/pic.png\" alt=\"Pic\">");
    assert_eq!(gallery[1].title, "Pic");
    let links = process_md_links("[doc](docs/a.md) ![i](x.png) [top](#top)", &ctx);
    assert_eq!(links, "[doc](https://github.com/o/r/blob/main/docs/a.md) ![i](x.png) [top](#top)");
    let a = process_html_links("<a href=\"./LICENSE\">l</a>", &ctx);
    assert_eq!(a, "<a href=\"https://github.com/o/r/blob/main/LICENSE\">l</a>");
}
