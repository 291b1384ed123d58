use indexer::api::{
    chunk_count, parse_usize, retry_action, urlencoded, AuthMethod, BatchControl, GitHubAppAuth,
    GitHubClient, RateLimit, RetryAction, TokenAction,
};
use indexer::builder::{
    build_categories, build_version, find_gradle_paths_from_tree, find_logo_url, gradle_path_to_module,
    normalize_version, parse_github_url, plugin_json_paths_for_module, repo_license, to_raw_url,
    tree_has_file,
};
use indexer::builder::{build_plugin_from_repo_data, PluginBuildInput};
use indexer::dsl::{extract, Stmt};
use indexer::catalog::{mark_preserved_fields, split_stored_fields, Author, License, Plugin, Version};
use indexer::cli::{extract_repo_full_name, get_arg, has_flag};
use indexer::discover::{add_code_hits, merge_repo_matches, RepoMatch};
use indexer::github::{
    CodeSearchItem, CodeSearchRepository, GitTreeEntry, Owner, Release, ReleaseAsset, Repository,
    RepositoryLicense,
};
use indexer::reconcile::{classify_update, collect_update_results, pending_ids, plugin_changed, progress_after_run, RepoOutcome, UpdateStatus};

fn s(v: &str) -> String {
    v.to_string()
}

fn blob(path: &str) -> GitTreeEntry {
    GitTreeEntry { path: s(path), entry_type: s("blob"), sha: s(""), size: None }
}

fn repo(name: &str) -> Repository {
    Repository {
        id: 1,
        full_name: format!("owner/{}", name),
        name: s(name),
        description: Some(s("desc")),
        html_url: format!("https://github.com/owner/{}", name),
        stargazers_count: 3,
        forks_count: 0,
        created_at: s("2024-01-01T00:00:00Z"),
        updated_at: s("2024-01-02T00:00:00Z"),
        pushed_at: s(""),
        owner: Owner { login: s("Owner"), avatar_url: s("avatar"), html_url: s("https://github.com/Owner") },
        license: None,
        topics: vec![],
        is_template: false,
        fork: false,
        archived: false,
        default_branch: None,
        contributors_url: s(""),
    }
}

fn plugin(id: &str, downloads: u64) -> Plugin {
    Plugin {
        id: s(id),
        name: s("Name"),
        source: s("https://github.com/owner/name"),
        summary: s("sum"),
        description: s(""),
        authors: vec![Author { name: s("a"), url: s("u"), avatar_url: s("v") }],
        categories: vec![],
        license: License { id: s("MIT"), name: s("MIT"), url: s("") },
        links: None,
        downloads,
        stars: 1,
        created_at: 0,
        updated_at: 0,
        icon_url: s(""),
        gallery: vec![],
        versions: vec![Version {
            version: s("1.0"),
            name: s("1.0"),
            prerelease: false,
            changelog: s(""),
            files: vec![],
            downloads,
            published_at: 0,
        }],
        api_version: s(""),
        server_version: s(""),
        dependencies: vec![],
        preserved_fields: vec![],
    }
}

#[test]
fn module_paths() {
    assert_eq!(gradle_path_to_module("build.gradle.kts"), Some(s("root")));
    assert_eq!(gradle_path_to_module("core/build.gradle"), Some(s("core")));
    assert_eq!(gradle_path_to_module("core/settings.gradle"), None);
    assert_eq!(
        plugin_json_paths_for_module("root"),
        vec![s("src/main/resources/plugin.json"), s("src/main/resources/extension.json")]
    );
    assert_eq!(plugin_json_paths_for_module("core")[0], "core/src/main/resources/plugin.json");
}

#[test]
fn tree_lookups() {
    let tree = vec![blob("a/build.gradle.kts"), blob("build.gradle"), blob("docs/icon.png"), blob("logo.svg")];
    assert_eq!(find_gradle_paths_from_tree(&tree), vec![s("a/build.gradle.kts")]);
    assert!(tree_has_file(&tree, "build.gradle"));
    assert!(!tree_has_file(&tree, "missing"));
    assert_eq!(
        find_logo_url(&tree, "o", "r", "main"),
        Some(s("https://raw.githubusercontent.com/o/r/main/docs/icon.png"))
    );
    assert_eq!(to_raw_url("o", "r", "b", "p"), "https://raw.githubusercontent.com/o/r/b/p");
}

#[test]
fn urls_and_versions() {
    assert_eq!(parse_github_url("https://github.com/Owner/Repo/"), Some((s("Owner"), s("Repo"))));
    assert_eq!(parse_github_url("nothing"), None);
    assert_eq!(extract_repo_full_name("https://github.com/a/b/tree/main"), Some(s("a/b")));
    assert_eq!(extract_repo_full_name("https://gitlab.com/a/b"), None);
    assert_eq!(normalize_version("vv1.2"), "1.2");
}

#[test]
fn categories_default() {
    assert_eq!(build_categories(&[s("economy"), s("misc")]), vec![s("economy")]);
    assert_eq!(build_categories(&[s("misc")]), vec![s("utility")]);
}

#[test]
fn release_to_version() {
    let asset = |name: &str, n: u64| ReleaseAsset {
        id: 0,
        name: s(name),
        size: 10,
        download_count: n,
        browser_download_url: format!("https://dl/{}", name),
        content_type: s(""),
    };
    let rel = Release {
        id: 1,
        tag_name: s("v1.0.0"),
        name: None,
        body: None,
        prerelease: false,
        draft: false,
        created_at: s(""),
        published_at: s("1970-01-01T00:01:40Z"),
        assets: vec![asset("a.txt", 5), asset("core.jar", 2), asset("MyAllay.JAR.zip", 3)],
    };
    let v = build_version(&rel);
    assert_eq!(v.version, "1.0.0");
    assert_eq!(v.name, "v1.0.0");
    assert_eq!(v.files.len(), 2);
    assert!(!v.files[0].primary);
    assert!(v.files[1].primary);
    assert_eq!(v.downloads, 5);
    assert_eq!(v.published_at, 100);
}

#[test]
fn license_defaults() {
    let mut r = repo("x");
    assert_eq!(repo_license(&r).id, "ARR");
    r.license = Some(RepositoryLicense { key: s("mit"), name: s("MIT"), spdx_id: s("MIT"), url: None, html_url: None });
    assert_eq!(repo_license(&r).url, "https://spdx.org/licenses/MIT.html");
    r.license = Some(RepositoryLicense {
        key: s("other"),
        name: s("Other"),
        spdx_id: s("NOASSERTION"),
        url: None,
        html_url: None,
    });
    assert_eq!(repo_license(&r).url, "https://github.com/owner/x/blob/main/LICENSE");
}

#[test]
fn missing_repository_is_deleted() {
    let old = plugin("o/p", 1);
    let r = classify_update(&old, RepoOutcome::NotFound, Some(plugin("o/p", 1)));
    assert!(matches!(r, Ok(UpdateStatus::Deleted)));
    let r = classify_update(&old, RepoOutcome::Archived, None);
    assert!(matches!(r, Ok(UpdateStatus::Deleted)));
    let r = classify_update(&old, RepoOutcome::Found, None);
    assert!(matches!(r, Ok(UpdateStatus::Deleted)));
    let r = classify_update(&old, RepoOutcome::Failed(s("HTTP error")), None);
    assert_eq!(r.err(), Some(s("HTTP error")));
}

#[test]
fn second_pass_is_unchanged() {
    let first = plugin("o/p", 7);
    let r = classify_update(&plugin("o/p", 3), RepoOutcome::Found, Some(first.clone()));
    assert!(matches!(r, Ok(UpdateStatus::Updated(_))));
    let again = classify_update(&first, RepoOutcome::Found, Some(plugin("o/p", 7)));
    assert!(matches!(again, Ok(UpdateStatus::Unchanged)));
    assert!(!plugin_changed(&first, &first));
}

#[test]
fn resume_skips_attempted() {
    let all = vec![s("a"), s("b"), s("c"), s("d")];
    let done = vec![s("a"), s("b")];
    assert_eq!(pending_ids(&all, &done, false), vec![s("c"), s("d")]);
    assert_eq!(pending_ids(&all, &done, true), all);
    assert_eq!(progress_after_run(&done, &[s("c")], true), Some(vec![s("a"), s("b"), s("c")]));
    assert_eq!(progress_after_run(&done, &[s("c")], false), None);
}

#[test]
fn merged_candidates_once() {
    let m = |n: &str| RepoMatch { full_name: s(n), gradle_paths: vec![] };
    let mut base = vec![m("a/x"), m("b/y")];
    merge_repo_matches(&mut base, vec![m("b/y"), m("c/z")]);
    let names: Vec<String> = base.iter().map(|r| r.full_name.clone()).collect();
    assert_eq!(names, vec![s("a/x"), s("b/y"), s("c/z")]);
}

#[test]
fn code_hits_grouped() {
    let hit = |repo: &str, path: &str, fork: bool| CodeSearchItem {
        name: s("build.gradle"),
        path: s(path),
        repository: CodeSearchRepository { id: 0, full_name: s(repo), fork },
    };
    let mut matches = Vec::new();
    add_code_hits(
        &mut matches,
        &[hit("a/x", "build.gradle", false), hit("a/x", "m/build.gradle", false), hit("f/k", "b", true), hit("o/l", "b", false)],
        &[s("o/l")],
    );
    assert_eq!(matches.len(), 1);
    assert_eq!(matches[0].gradle_paths, vec![s("build.gradle"), s("m/build.gradle")]);
}

#[test]
fn preserved_fields_round_trip() {
    let stored = vec![(s("!summary"), s("\"pinned\"")), (s("name"), s("\"N\"")), (s("!extra"), s("[1, 2]"))];
    let (fields, preserved) = split_stored_fields(&stored);
    assert_eq!(fields[0].0, "summary");
    assert_eq!(preserved.len(), 2);
    let written = mark_preserved_fields(&fields, &preserved);
    assert_eq!(written, stored);
}

#[test]
fn client_state() {
    let mut rl = RateLimit::new();
    assert!(rl.has_remaining());
    rl.update_from_headers(Some("5"), Some("5000"), Some("x"));
    assert_eq!(rl.remaining(), 5);
    assert_eq!(rl.limit(), 5000);
    assert!(!rl.has_remaining());
    assert_eq!(parse_usize("+42"), Some(42));
    assert_eq!(parse_usize("99999999999999999999999"), None);
    assert_eq!(parse_usize(""), None);
    let c = GitHubClient::new(Some(s("tok")));
    assert!(matches!(c.get_token(0), TokenAction::Use(Some(ref t)) if t == "tok"));
    let mut app = GitHubClient::with_app(GitHubAppAuth { app_id: s("1"), installation_id: s("2"), private_key: s("k") });
    assert!(matches!(app.auth, AuthMethod::App(_)));
    assert!(matches!(app.get_token(10), TokenAction::Refresh));
    app.store_token(s("inst"), 10);
    assert!(matches!(app.get_token(100), TokenAction::Use(Some(_))));
    assert!(matches!(app.get_token(10 + 3300), TokenAction::Refresh));
    assert_eq!(app.api_calls(), 0);
}

#[test]
fn retries_and_batches() {
    assert_eq!(retry_action(0, Some(200), false), RetryAction::Accept);
    assert_eq!(retry_action(0, Some(429), false), RetryAction::WaitAndRetry);
    assert_eq!(retry_action(2, Some(403), false), RetryAction::GiveUp);
    assert_eq!(retry_action(0, Some(404), true), RetryAction::NotFound);
    assert_eq!(retry_action(0, Some(500), true), RetryAction::Fail);
    assert_eq!(chunk_count(25, 10), 3);
    assert_eq!(chunk_count(20, 10), 2);
    let mut ctl = BatchControl::new();
    assert!(ctl.may_start(100));
    assert!(!ctl.may_start(5));
    assert!(!ctl.may_start_chunk());
    assert!(!ctl.may_start(100));
    assert_eq!(urlencoded("a b:c/é"), "a%20b%3Ac%2F%C3%A9");
}

#[test]
fn cli_args() {
    let args = vec![s("update"), s("--force"), s("--token"), s("abc")];
    assert!(has_flag(&args, "--force"));
    assert!(!has_flag(&args, "--dry-run"));
    assert_eq!(get_arg(&args, "--token"), Some(s("abc")));
    assert_eq!(get_arg(&args, "abc"), None);
}

#[test]
fn numbered_gallery_images() {
    let tree = vec![blob("assets/gallery1.png"), blob("gallery2.webp"), blob("gallery4.png")];
    let items = indexer::builder::find_gallery_items(&tree, "o", "r", "main", "2024-05-01");
    assert_eq!(items.len(), 2);
    assert_eq!(items[0].url, "https://raw.githubusercontent.com/o/r/main/assets/gallery1.png");
    assert_eq!(items[1].title, "Gallery 2");
    assert_eq!(items[1].created, "2024-05-01");
}

#[test]
fn record_assembly() {
    let stmts = vec![
        Stmt::Open(s("allay")),
        Stmt::Assign(s("api"), Some(s("0.23.0")), vec![]),
        Stmt::Open(s("plugin")),
        Stmt::Assign(s("name"), Some(s("MyPlugin")), vec![]),
        Stmt::Assign(s("authors"), None, vec![s("owner"), s("helper"), s("stranger")]),
        Stmt::Close,
        Stmt::Close,
    ];
    let dsl = extract(&stmts).unwrap();
    let r = repo("my-plugin");
    let contributors = vec![indexer::github::Contributor {
        login: s("Helper"),
        avatar_url: s("h.png"),
        html_url: s("https://github.com/Helper"),
        contributions: 3,
    }];
    let license = repo_license(&r);
    let input = PluginBuildInput {
        repo: &r,
        dsl: &dsl,
        releases: &[],
        readme: "![a](a.png)",
        license: &license,
        contributors: &contributors,
        owner: "Owner",
        repo_name: "my-plugin",
        branch: "main",
        icon_url: "icon",
        repo_gallery: vec![],
    };
    let p = build_plugin_from_repo_data(input).unwrap();
    assert_eq!(p.id, "owner/myplugin");
    assert_eq!(p.summary, "desc");
    assert_eq!(p.api_version, "0.23.0");
    assert_eq!(p.categories, vec![s("utility")]);
    assert_eq!(p.authors.len(), 2);
    assert_eq!(p.authors[1].name, "Helper");
    assert_eq!(p.gallery.len(), 1);
    assert_eq!(p.description, "![a](https://raw.githubusercontent.com/Owner/my-plugin/main/a.png)");
    assert_eq!(p.created_at, 1704067200);
}


#[test]
fn batch_outcomes_sorted() {
    let results = vec![
        (s("a"), Ok(UpdateStatus::Unchanged)),
        (s("b"), Ok(UpdateStatus::Updated(plugin("b", 1)))),
        (s("c"), Ok(UpdateStatus::Deleted)),
        (s("d"), Err(s("boom"))),
        (s("e"), Ok(UpdateStatus::Unchanged)),
    ];
    let r = collect_update_results(results, true);
    assert_eq!(r.processed_ids, vec![s("a"), s("b"), s("c"), s("d"), s("e")]);
    assert_eq!(r.unchanged, vec![s("a"), s("e")]);
    assert_eq!(r.deleted, vec![s("c")]);
    assert_eq!(r.errors, vec![(s("d"), s("boom"))]);
    assert_eq!(r.updated.len(), 1);
    assert!(r.stopped_by_rate_limit);
}

#[test]
fn build_files_and_paths() {
    let tree = vec![blob("a/build.gradle.kts"), blob("b/build.gradle"), blob("settings.gradle"), blob("x.kt")];
    assert_eq!(indexer::builder::find_build_files(&tree), vec![s("a/build.gradle.kts"), s("b/build.gradle")]);
    assert_eq!(
        indexer::builder::dedup_paths(&[s("b"), s("a"), s("b"), s("c"), s("a")]),
        vec![s("b"), s("a"), s("c")]
    );
    let mut dsl = indexer::gradle::AllayDsl::default();
    assert!(indexer::builder::needs_settings(&dsl));
    dsl.project_version = Some(s("1"));
    dsl.project_description = Some(s("d"));
    assert!(!indexer::builder::needs_settings(&dsl));
}

#[test]
fn preserved_values_overlay() {
    let fields = vec![(s("name"), s("\"N\"")), (s("summary"), s("\"new\""))];
    let preserved = vec![(s("summary"), s("\"pinned\"")), (s("extra"), s("1"))];
    let r = indexer::catalog::overlay_preserved_fields(fields, &preserved);
    assert_eq!(r, vec![(s("name"), s("\"N\"")), (s("summary"), s("\"pinned\"")), (s("extra"), s("1"))]);
}
