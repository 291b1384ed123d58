//! Assembly of one catalog record from a repository and its build files.
use vstd::prelude::*;
use crate::catalog::{Author, Dependency, GalleryItem, License, Links, Plugin, Version, VersionFile};
use crate::readme::{PostProcessContext, gallery_view, process_readme, readme_gallery, readme_text};
use crate::github::{Contributor, GitTreeEntry, Release, ReleaseAsset, Repository};
use crate::gradle::{
    AllayDsl, GradleDependency, PluginDsl, PluginJson, VersionRef, as_str_opt, resolve_template_spec,
};
use crate::text::{
    cat, chars_of, contains, ends_with, lower_of, lowercase, str_contains, ends_with_exec, last_index_of, last_index_of_exec,
    same_text, slice_from, starts_with, slice_range, str_ends_with, string_of, trim_end_char, trim_end_char_exec,
    trim_start_char, trim_start_char_exec,
};

verus! {

/// The module directory of a build file path; `root` for a build file at the
/// top of the tree.
pub open spec fn module_of(path: Seq<char>) -> Option<Seq<char>> {
    if ends_with(path, "/build.gradle.kts"@) {
        Some(path.subrange(0, path.len() - "/build.gradle.kts"@.len()))
    } else if ends_with(path, "/build.gradle"@) {
        Some(path.subrange(0, path.len() - "/build.gradle"@.len()))
    } else if path == "build.gradle.kts"@ || path == "build.gradle"@ {
        Some("root"@)
    } else {
        None
    }
}

pub fn gradle_path_to_module(path: &str) -> (r: Option<String>)
    ensures
        match r {
            Some(m) => module_of(path@) == Some(m@),
            None => module_of(path@) is None,
        },
{
    let pc = chars_of(path);
    let kts = chars_of("/build.gradle.kts");
    let groovy = chars_of("/build.gradle");
    if ends_with_exec(pc.as_slice(), kts.as_slice()) {
        let d = slice_range(pc.as_slice(), 0, pc.len() - kts.len());
        Some(string_of(d.as_slice()))
    } else if ends_with_exec(pc.as_slice(), groovy.as_slice()) {
        let d = slice_range(pc.as_slice(), 0, pc.len() - groovy.len());
        Some(string_of(d.as_slice()))
    } else if same_text(path, "build.gradle.kts") || same_text(path, "build.gradle") {
        Some(String::from_str("root"))
    } else {
        None
    }
}

/// Where a module keeps its companion manifest.
pub open spec fn resource_base(module: Seq<char>) -> Seq<char> {
    if module == "root"@ || module.len() == 0 {
        "src/main/resources"@
    } else {
        module + "/src/main/resources"@
    }
}

pub fn plugin_json_paths_for_module(module: &str) -> (r: Vec<String>)
    ensures
        r@.len() == 2,
        r@[0]@ == resource_base(module@) + "/plugin.json"@,
        r@[1]@ == resource_base(module@) + "/extension.json"@,
{
    proof {
        reveal_strlit("");
        assert(module@.len() == 0 ==> module@ =~= ""@);
    }
    let base = if same_text(module, "root") || same_text(module, "") {
        String::from_str("src/main/resources")
    } else {
        cat(module, "/src/main/resources")
    };
    let a = cat(base.as_str(), "/plugin.json");
    let b = cat(base.as_str(), "/extension.json");
    let mut r: Vec<String> = Vec::new();
    r.push(a);
    r.push(b);
    assert(r@[0]@ == a@);
    r
}

pub open spec fn is_blob(e: GitTreeEntry) -> bool {
    e.entry_type@ == "blob"@
}

fn is_blob_exec(e: &GitTreeEntry) -> (r: bool)
    ensures
        r == is_blob(*e),
{
    same_text(e.entry_type.as_str(), "blob")
}

/// The paths of the Kotlin-script build files of a tree, in tree order.
pub open spec fn gradle_paths(tree: Seq<GitTreeEntry>) -> Seq<Seq<char>>
    decreases tree.len(),
{
    if tree.len() == 0 {
        Seq::empty()
    } else {
        let e = tree.last();
        gradle_paths(tree.drop_last()) + if is_blob(e) && ends_with(e.path@, "build.gradle.kts"@) {
            seq![e.path@]
        } else {
            Seq::empty()
        }
    }
}

pub fn find_gradle_paths_from_tree(tree: &[GitTreeEntry]) -> (r: Vec<String>)
    ensures
        r.deep_view() == gradle_paths(tree@),
{
    let mut r: Vec<String> = Vec::new();
    let mut i: usize = 0;
    while i < tree.len()
        invariant
            i <= tree@.len(),
            r.deep_view() == gradle_paths(tree@.subrange(0, i as int)),
        decreases tree@.len() - i,
    {
        let e = &tree[i];
        assert(tree@.subrange(0, i + 1).drop_last() =~= tree@.subrange(0, i as int));
        if is_blob_exec(e) && str_ends_with(e.path.as_str(), "build.gradle.kts") {
            r.push(e.path.clone());
        }
        assert(r.deep_view() =~= gradle_paths(tree@.subrange(0, i + 1)));
        i = i + 1;
    }
    assert(tree@.subrange(0, tree@.len() as int) =~= tree@);
    r
}

pub open spec fn has_file(tree: Seq<GitTreeEntry>, path: Seq<char>) -> bool {
    exists|i: int| 0 <= i < tree.len() && is_blob(tree[i]) && #[trigger] tree[i].path@ == path
}

pub fn tree_has_file(tree: &[GitTreeEntry], path: &str) -> (r: bool)
    ensures
        r == has_file(tree@, path@),
{
    let mut i: usize = 0;
    while i < tree.len()
        invariant
            i <= tree@.len(),
            forall|j: int| 0 <= j < i ==> !(is_blob(tree@[j]) && tree@[j].path@ == path@),
        decreases tree@.len() - i,
    {
        if is_blob_exec(&tree[i]) && same_text(tree[i].path.as_str(), path) {
            return true;
        }
        i = i + 1;
    }
    false
}

pub open spec fn raw_url(owner: Seq<char>, repo: Seq<char>, branch: Seq<char>, path: Seq<char>) -> Seq<char> {
    "https://raw.githubusercontent.com/"@ + owner + "/"@ + repo + "/"@ + branch + "/"@ + path
}

/// The raw-content address of a file of a repository.
pub fn to_raw_url(owner: &str, repo: &str, branch: &str, path: &str) -> (r: String)
    ensures
        r@ == raw_url(owner@, repo@, branch@, path@),
{
    let mut r = String::from_str("https://raw.githubusercontent.com/");
    r.append(owner);
    r.append("/");
    r.append(repo);
    r.append("/");
    r.append(branch);
    r.append("/");
    r.append(path);
    r
}

/// A tree entry that is the named file, at the top or in some directory.
pub open spec fn names_file(e: GitTreeEntry, filename: Seq<char>) -> bool {
    is_blob(e) && (e.path@ == filename || ends_with(e.path@, "/"@ + filename))
}

/// The path of the first tree entry that is the named file.
pub open spec fn find_file(tree: Seq<GitTreeEntry>, filename: Seq<char>) -> Option<Seq<char>>
    decreases tree.len(),
{
    if tree.len() == 0 {
        None
    } else if names_file(tree[0], filename) {
        Some(tree[0].path@)
    } else {
        find_file(tree.subrange(1, tree.len() as int), filename)
    }
}

pub fn find_file_anywhere(tree: &[GitTreeEntry], filename: &str) -> (r: Option<String>)
    ensures
        opt_view(r) == find_file(tree@, filename@),
{
    let suffix = cat("/", filename);
    let mut i: usize = 0;
    assert(tree@.subrange(0, tree@.len() as int) =~= tree@);
    while i < tree.len()
        invariant
            i <= tree@.len(),
            suffix@ == "/"@ + filename@,
            find_file(tree@.subrange(i as int, tree@.len() as int), filename@) == find_file(tree@, filename@),
        decreases tree@.len() - i,
    {
        let e = &tree[i];
        assert(tree@.subrange(i as int, tree@.len() as int)[0] == tree@[i as int]);
        if is_blob_exec(e) && (same_text(e.path.as_str(), filename) || str_ends_with(
            e.path.as_str(),
            suffix.as_str(),
        )) {
            return Some(e.path.clone());
        }
        assert(tree@.subrange(i as int, tree@.len() as int).subrange(1, tree@.len() - i)
            =~= tree@.subrange(i + 1, tree@.len() as int));
        i = i + 1;
    }
    None
}

pub open spec fn opt_view(o: Option<String>) -> Option<Seq<char>> {
    match o {
        Some(s) => Some(s@),
        None => None,
    }
}

/// The conventional logo file names, in order of preference.
pub open spec fn logo_names() -> Seq<Seq<char>> {
    seq![
        "logo.png"@,
        "icon.png"@,
        "logo.jpg"@,
        "icon.jpg"@,
        "logo.svg"@,
        "icon.svg"@,
        "logo.webp"@,
        "icon.webp"@,
    ]
}

fn logo_name(i: usize) -> (r: &'static str)
    requires
        i < 8,
    ensures
        r@ == logo_names()[i as int],
{
    if i == 0 {
        "logo.png"
    } else if i == 1 {
        "icon.png"
    } else if i == 2 {
        "logo.jpg"
    } else if i == 3 {
        "icon.jpg"
    } else if i == 4 {
        "logo.svg"
    } else if i == 5 {
        "icon.svg"
    } else if i == 6 {
        "logo.webp"
    } else {
        "icon.webp"
    }
}

/// The first logo name, in order of preference, found in the tree, and where.
pub open spec fn find_logo(tree: Seq<GitTreeEntry>, names: Seq<Seq<char>>) -> Option<Seq<char>>
    decreases names.len(),
{
    if names.len() == 0 {
        None
    } else {
        match find_file(tree, names[0]) {
            Some(p) => Some(p),
            None => find_logo(tree, names.subrange(1, names.len() as int)),
        }
    }
}

pub fn find_logo_url(tree: &[GitTreeEntry], owner: &str, repo: &str, branch: &str) -> (r: Option<String>)
    ensures
        match find_logo(tree@, logo_names()) {
            Some(p) => opt_view(r) == Some(raw_url(owner@, repo@, branch@, p)),
            None => r is None,
        },
{
    let mut i: usize = 0;
    assert(logo_names().subrange(0, 8) =~= logo_names());
    while i < 8
        invariant
            i <= 8,
            find_logo(tree@, logo_names().subrange(i as int, 8)) == find_logo(tree@, logo_names()),
        decreases 8 - i,
    {
        let name = logo_name(i);
        assert(logo_names().subrange(i as int, 8)[0] == logo_names()[i as int]);
        if let Some(path) = find_file_anywhere(tree, name) {
            return Some(to_raw_url(owner, repo, branch, path.as_str()));
        }
        assert(logo_names().subrange(i as int, 8).subrange(1, 8 - i) =~= logo_names().subrange(i + 1, 8));
        i = i + 1;
    }
    None
}

/// The closed category vocabulary.
pub open spec fn category_names() -> Seq<Seq<char>> {
    seq![
        "adventure"@,
        "cursed"@,
        "decoration"@,
        "economy"@,
        "equipment"@,
        "food"@,
        "game-mechanics"@,
        "library"@,
        "magic"@,
        "management"@,
        "minigame"@,
        "mobs"@,
        "optimization"@,
        "social"@,
        "storage"@,
        "technology"@,
        "transportation"@,
        "utility"@,
        "world-generation"@,
    ]
}

fn category_name(i: usize) -> (r: &'static str)
    requires
        i < 19,
    ensures
        r@ == category_names()[i as int],
{
    if i == 0 {
        "adventure"
    } else if i == 1 {
        "cursed"
    } else if i == 2 {
        "decoration"
    } else if i == 3 {
        "economy"
    } else if i == 4 {
        "equipment"
    } else if i == 5 {
        "food"
    } else if i == 6 {
        "game-mechanics"
    } else if i == 7 {
        "library"
    } else if i == 8 {
        "magic"
    } else if i == 9 {
        "management"
    } else if i == 10 {
        "minigame"
    } else if i == 11 {
        "mobs"
    } else if i == 12 {
        "optimization"
    } else if i == 13 {
        "social"
    } else if i == 14 {
        "storage"
    } else if i == 15 {
        "technology"
    } else if i == 16 {
        "transportation"
    } else if i == 17 {
        "utility"
    } else {
        "world-generation"
    }
}

pub fn is_category(topic: &str) -> (r: bool)
    ensures
        r == category_names().contains(topic@),
{
    let mut i: usize = 0;
    while i < 19
        invariant
            i <= 19,
            forall|j: int| 0 <= j < i ==> category_names()[j] != topic@,
        decreases 19 - i,
    {
        if same_text(category_name(i), topic) {
            return true;
        }
        i = i + 1;
    }
    assert(!category_names().contains(topic@)) by {
        if category_names().contains(topic@) {
            let j = choose|j: int| 0 <= j < 19 && category_names()[j] == topic@;
        }
    }
    false
}

/// The topics that are categories, in order.
pub open spec fn category_topics(topics: Seq<Seq<char>>) -> Seq<Seq<char>>
    decreases topics.len(),
{
    if topics.len() == 0 {
        Seq::empty()
    } else {
        category_topics(topics.drop_last()) + if category_names().contains(topics.last()) {
            seq![topics.last()]
        } else {
            Seq::empty()
        }
    }
}

/// The repository topics that name a category, or the catch-all category
/// when none does.
pub open spec fn categories_of(topics: Seq<Seq<char>>) -> Seq<Seq<char>> {
    if category_topics(topics).len() == 0 {
        seq!["utility"@]
    } else {
        category_topics(topics)
    }
}

pub fn build_categories(topics: &[String]) -> (r: Vec<String>)
    ensures
        r.deep_view() == categories_of(topics.deep_view()),
{
    let mut r: Vec<String> = Vec::new();
    let mut i: usize = 0;
    while i < topics.len()
        invariant
            i <= topics@.len(),
            r.deep_view() == category_topics(topics.deep_view().subrange(0, i as int)),
        decreases topics@.len() - i,
    {
        assert(topics.deep_view().subrange(0, i + 1).drop_last() =~= topics.deep_view().subrange(0, i as int));
        assert(topics.deep_view().subrange(0, i + 1).last() == topics@[i as int]@);
        if is_category(topics[i].as_str()) {
            r.push(topics[i].clone());
        }
        assert(r.deep_view() =~= category_topics(topics.deep_view().subrange(0, i + 1)));
        i = i + 1;
    }
    assert(topics.deep_view().subrange(0, topics@.len() as int) =~= topics.deep_view());
    if r.len() == 0 {
        let mut d: Vec<String> = Vec::new();
        d.push(String::from_str("utility"));
        assert(d.deep_view() =~= seq!["utility"@]);
        d
    } else {
        r
    }
}

pub fn normalize_version(tag: &str) -> (r: String)
    ensures
        r@ == trim_start_char(tag@, 'v'),
{
    let tc = chars_of(tag);
    let t = trim_start_char_exec(tc.as_slice(), 'v');
    string_of(t.as_slice())
}

/// Owner and name of a repository address: its last two path segments,
/// after trailing slashes are dropped; both must be non-empty.
pub open spec fn github_url_parts(url: Seq<char>) -> Option<(Seq<char>, Seq<char>)> {
    let t = trim_end_char(url, '/');
    let k = last_index_of(t, '/');
    if k < 0 {
        None
    } else {
        let repo = t.subrange(k + 1, t.len() as int);
        let head = t.subrange(0, k);
        let owner = head.subrange(last_index_of(head, '/') + 1, k);
        if owner.len() > 0 && repo.len() > 0 {
            Some((owner, repo))
        } else {
            None
        }
    }
}

pub fn parse_github_url(url: &str) -> (r: Option<(String, String)>)
    ensures
        match r {
            Some((o, n)) => github_url_parts(url@) == Some((o@, n@)),
            None => github_url_parts(url@) is None,
        },
{
    let uc = chars_of(url);
    let t = trim_end_char_exec(uc.as_slice(), '/');
    let k = match last_index_of_exec(t.as_slice(), '/') {
        Some(k) => k,
        None => return None,
    };
    let repo = slice_from(t.as_slice(), k + 1);
    let head = slice_range(t.as_slice(), 0, k);
    let start = match last_index_of_exec(head.as_slice(), '/') {
        Some(j) => j + 1,
        None => 0,
    };
    let owner = slice_range(head.as_slice(), start, k);
    if owner.len() > 0 && repo.len() > 0 {
        Some((string_of(owner.as_slice()), string_of(repo.as_slice())))
    } else {
        None
    }
}

/// Seconds since the epoch of an RFC 3339 timestamp, as the catalog stores
/// them; zero for text that is not one.
pub uninterp spec fn timestamp_of(s: Seq<char>) -> u64;

/// Relies on `chrono::DateTime::parse_from_rfc3339` and `DateTime::timestamp`:
/// the instant's seconds since the epoch, cast to `u64`, or zero when the
/// text does not parse.
#[verifier::external_body]
pub fn parse_timestamp(s: &str) -> (r: u64)
    ensures
        r == timestamp_of(s@),
{
    chrono::DateTime::parse_from_rfc3339(s).map(|dt| dt.timestamp() as u64).unwrap_or(0)
}

pub open spec fn saturate(n: int) -> int {
    if n > u64::MAX {
        u64::MAX as int
    } else {
        n
    }
}

/// A release asset that is a distributable archive.
pub open spec fn is_archive(a: ReleaseAsset) -> bool {
    ends_with(a.name@, ".jar"@) || ends_with(a.name@, ".zip"@)
}

pub open spec fn archives(assets: Seq<ReleaseAsset>) -> Seq<ReleaseAsset>
    decreases assets.len(),
{
    if assets.len() == 0 {
        Seq::empty()
    } else {
        archives(assets.drop_last()) + if is_archive(assets.last()) {
            seq![assets.last()]
        } else {
            Seq::empty()
        }
    }
}

pub open spec fn asset_downloads(assets: Seq<ReleaseAsset>) -> int
    decreases assets.len(),
{
    if assets.len() == 0 {
        0
    } else {
        asset_downloads(assets.drop_last()) + assets.last().download_count
    }
}

/// The position of the first archive whose lower-cased name mentions the
/// platform, or -1.
pub open spec fn first_mention(jars: Seq<ReleaseAsset>) -> int
    decreases jars.len(),
{
    if jars.len() == 0 {
        -1
    } else if contains(lower_of(jars[0].name@), "allay"@) {
        0
    } else {
        crate::text::shift(first_mention(jars.subrange(1, jars.len() as int)), 1)
    }
}

/// The position of the primary archive: the first whose lower-cased name
/// mentions the platform, else the first.
pub open spec fn primary_index(jars: Seq<ReleaseAsset>) -> int {
    if first_mention(jars) >= 0 {
        first_mention(jars)
    } else if jars.len() > 0 {
        0
    } else {
        -1
    }
}

proof fn lemma_first_mention_bounds(jars: Seq<ReleaseAsset>)
    ensures
        -1 <= first_mention(jars) < jars.len(),
    decreases jars.len(),
{
    if jars.len() > 0 {
        lemma_first_mention_bounds(jars.subrange(1, jars.len() as int));
    }
}

proof fn lemma_asset_downloads_nonneg(assets: Seq<ReleaseAsset>)
    ensures
        asset_downloads(assets) >= 0,
    decreases assets.len(),
{
    if assets.len() > 0 {
        lemma_asset_downloads_nonneg(assets.drop_last());
    }
}

fn archive_assets(assets: &[ReleaseAsset]) -> (r: Vec<&ReleaseAsset>)
    ensures
        r@.len() == archives(assets@).len(),
        forall|i: int| 0 <= i < r@.len() ==> *#[trigger] r@[i] == archives(assets@)[i],
{
    let mut r: Vec<&ReleaseAsset> = Vec::new();
    let mut i: usize = 0;
    while i < assets.len()
        invariant
            i <= assets@.len(),
            r@.len() == archives(assets@.subrange(0, i as int)).len(),
            forall|k: int| 0 <= k < r@.len() ==> *#[trigger] r@[k] == archives(assets@.subrange(0, i as int))[k],
        decreases assets@.len() - i,
    {
        let a = &assets[i];
        assert(assets@.subrange(0, i + 1).drop_last() =~= assets@.subrange(0, i as int));
        if str_ends_with(a.name.as_str(), ".jar") || str_ends_with(a.name.as_str(), ".zip") {
            r.push(a);
        }
        i = i + 1;
    }
    assert(assets@.subrange(0, assets@.len() as int) =~= assets@);
    r
}

/// `v` is the catalog version of release `release`: its archives as files,
/// the primary one marked, and their downloads summed (saturating).
pub open spec fn built_from(release: Release, v: Version) -> bool {
    &&& v.version@ == trim_start_char(release.tag_name@, 'v')
    &&& v.name@ == match release.name {
        Some(n) => n@,
        None => release.tag_name@,
    }
    &&& v.prerelease == release.prerelease
    &&& v.changelog@ == match release.body {
        Some(b) => b@,
        None => Seq::<char>::empty(),
    }
    &&& v.published_at == timestamp_of(release.published_at@)
    &&& v.files@.len() == archives(release.assets@).len()
    &&& forall|i: int|
        0 <= i < v.files@.len() ==> {
            let a = #[trigger] archives(release.assets@)[i];
            let f = v.files@[i];
            &&& f.filename@ == a.name@
            &&& f.url@ == a.browser_download_url@
            &&& f.size == a.size
            &&& f.primary == (i == primary_index(archives(release.assets@)))
        }
    &&& v.downloads == saturate(asset_downloads(archives(release.assets@)))
}

/// The catalog version of a release.
pub fn build_version(release: &Release) -> (v: Version)
    ensures
        built_from(*release, v),
{
    let jars = archive_assets(release.assets.as_slice());
    let ghost js = archives(release.assets@);
    let n = jars.len();
    let mut found: Option<usize> = None;
    let mut i: usize = 0;
    assert(js.subrange(0, js.len() as int) =~= js);
    while i < n && found.is_none()
        invariant
            i <= n,
            n == jars@.len(),
            jars@.len() == js.len(),
            forall|k: int| 0 <= k < jars@.len() ==> *#[trigger] jars@[k] == js[k],
            match found {
                Some(p) => p < n && first_mention(js) == p as int,
                None => first_mention(js) == crate::text::shift(first_mention(js.subrange(i as int, js.len() as int)), i as int),
            },
        decreases n - i + if found is None { 1int } else { 0int },
    {
        let ghost t = js.subrange(i as int, js.len() as int);
        assert(t[0] == js[i as int]);
        let lower = lowercase(jars[i].name.as_str());
        if str_contains(lower.as_str(), "allay") {
            found = Some(i);
        } else {
            assert(t.subrange(1, t.len() as int) =~= js.subrange(i + 1, js.len() as int));
            i = i + 1;
        }
    }
    proof {
        lemma_first_mention_bounds(js);
    }
    let primary: usize = match found {
        Some(p) => p,
        None => 0,
    };
    assert(n > 0 ==> primary as int == primary_index(js));
    let mut files: Vec<VersionFile> = Vec::new();
    let mut total: u64 = 0;
    let mut k: usize = 0;
    while k < jars.len()
        invariant
            k <= jars@.len(),
            jars@.len() == js.len(),
            forall|x: int| 0 <= x < jars@.len() ==> *#[trigger] jars@[x] == js[x],
            jars@.len() > 0 ==> primary as int == primary_index(js),
            files@.len() == k,
            forall|i: int|
                0 <= i < k ==> {
                    let a = #[trigger] js[i];
                    let f = files@[i];
                    &&& f.filename@ == a.name@
                    &&& f.url@ == a.browser_download_url@
                    &&& f.size == a.size
                    &&& f.primary == (i == primary_index(js))
                },
            total == saturate(asset_downloads(js.subrange(0, k as int))),
        decreases jars@.len() - k,
    {
        let a = jars[k];
        files.push(VersionFile {
            filename: a.name.clone(),
            url: a.browser_download_url.clone(),
            size: a.size,
            primary: k == primary,
        });
        assert(js.subrange(0, k + 1).drop_last() =~= js.subrange(0, k as int));
        proof {
            lemma_asset_downloads_nonneg(js.subrange(0, k as int));
        }
        total = if total > u64::MAX - a.download_count {
            u64::MAX
        } else {
            total + a.download_count
        };
        k = k + 1;
    }
    assert(js.subrange(0, jars@.len() as int) =~= js);
    let name = match &release.name {
        Some(n) => n.clone(),
        None => release.tag_name.clone(),
    };
    let changelog = match &release.body {
        Some(b) => b.clone(),
        None => {
            let e = String::new();
            assert(e@ =~= Seq::<char>::empty());
            e
        },
    };
    Version {
        version: normalize_version(release.tag_name.as_str()),
        name,
        prerelease: release.prerelease,
        changelog,
        files,
        downloads: total,
        published_at: parse_timestamp(release.published_at.as_str()),
    }
}

/// The first contributor whose lower-cased login is `lname`.
pub open spec fn contributor_named(cs: Seq<Contributor>, lname: Seq<char>) -> Option<Contributor>
    decreases cs.len(),
{
    if cs.len() == 0 {
        None
    } else if lower_of(cs[0].login@) == lname {
        Some(cs[0])
    } else {
        contributor_named(cs.subrange(1, cs.len() as int), lname)
    }
}

pub open spec fn author_view(a: Author) -> (Seq<char>, Seq<char>, Seq<char>) {
    (a.name@, a.url@, a.avatar_url@)
}

pub open spec fn authors_view(v: Seq<Author>) -> Seq<(Seq<char>, Seq<char>, Seq<char>)> {
    v.map_values(|a: Author| author_view(a))
}

/// The manifest's authors that are contributors, other than the owner, in
/// manifest order.
pub open spec fn contributor_authors(names: Seq<Seq<char>>, owner: Seq<char>, cs: Seq<Contributor>) -> Seq<(Seq<char>, Seq<char>, Seq<char>)>
    decreases names.len(),
{
    if names.len() == 0 {
        Seq::empty()
    } else {
        let rest = contributor_authors(names.drop_last(), owner, cs);
        let l = lower_of(names.last());
        if l == lower_of(owner) {
            rest
        } else {
            match contributor_named(cs, l) {
                Some(c) => rest.push((c.login@, c.html_url@, c.avatar_url@)),
                None => rest,
            }
        }
    }
}

fn find_contributor<'a>(cs: &'a [Contributor], lname: &str) -> (r: Option<&'a Contributor>)
    ensures
        match r {
            Some(c) => contributor_named(cs@, lname@) == Some(*c),
            None => contributor_named(cs@, lname@) is None,
        },
{
    let mut i: usize = 0;
    assert(cs@.subrange(0, cs@.len() as int) =~= cs@);
    while i < cs.len()
        invariant
            i <= cs@.len(),
            contributor_named(cs@.subrange(i as int, cs@.len() as int), lname@) == contributor_named(cs@, lname@),
        decreases cs@.len() - i,
    {
        assert(cs@.subrange(i as int, cs@.len() as int)[0] == cs@[i as int]);
        let l = lowercase(cs[i].login.as_str());
        if same_text(l.as_str(), lname) {
            return Some(&cs[i]);
        }
        assert(cs@.subrange(i as int, cs@.len() as int).subrange(1, cs@.len() - i) =~= cs@.subrange(i + 1, cs@.len() as int));
        i = i + 1;
    }
    None
}

/// The record's authors: the repository owner, then the manifest's authors
/// matched case-insensitively against the contributors.
pub fn build_authors(plugin_dsl: &PluginDsl, repo: &Repository, contributors: &[Contributor]) -> (r: Vec<Author>)
    ensures
        authors_view(r@) == seq![(repo.owner.login@, repo.owner.html_url@, repo.owner.avatar_url@)]
            + contributor_authors(crate::dsl::strings_view(plugin_dsl.authors@), repo.owner.login@, contributors@),
{
    let mut authors: Vec<Author> = Vec::new();
    authors.push(Author {
        name: repo.owner.login.clone(),
        url: repo.owner.html_url.clone(),
        avatar_url: repo.owner.avatar_url.clone(),
    });
    let ghost head = seq![(repo.owner.login@, repo.owner.html_url@, repo.owner.avatar_url@)];
    let ghost names = crate::dsl::strings_view(plugin_dsl.authors@);
    let owner_lower = lowercase(repo.owner.login.as_str());
    let mut i: usize = 0;
    assert(authors_view(authors@) =~= head);
    assert(names.subrange(0, 0) =~= Seq::<Seq<char>>::empty());
    assert(head + Seq::empty() =~= head);
    while i < plugin_dsl.authors.len()
        invariant
            i <= plugin_dsl.authors@.len(),
            names == crate::dsl::strings_view(plugin_dsl.authors@),
            owner_lower@ == lower_of(repo.owner.login@),
            authors_view(authors@) == head + contributor_authors(names.subrange(0, i as int), repo.owner.login@, contributors@),
        decreases plugin_dsl.authors@.len() - i,
    {
        let ghost pre = names.subrange(0, i + 1);
        assert(pre.drop_last() =~= names.subrange(0, i as int));
        assert(pre.last() == plugin_dsl.authors@[i as int]@);
        let ghost before = authors_view(authors@);
        let name_lower = lowercase(plugin_dsl.authors[i].as_str());
        if !same_text(name_lower.as_str(), owner_lower.as_str()) {
            if let Some(c) = find_contributor(contributors, name_lower.as_str()) {
                authors.push(Author { name: c.login.clone(), url: c.html_url.clone(), avatar_url: c.avatar_url.clone() });
                assert(authors_view(authors@) =~= before.push((c.login@, c.html_url@, c.avatar_url@)));
            }
        }
        i = i + 1;
    }
    assert(names.subrange(0, plugin_dsl.authors@.len() as int) =~= names);
    authors
}

/// A declared license identifier that names an SPDX license.
pub open spec fn valid_spdx(id: Seq<char>) -> bool {
    id.len() > 0 && id != "NOASSERTION"@ && !starts_with(id, "LicenseRef"@)
}

pub open spec fn branch_of(repo: Repository) -> Seq<char> {
    match repo.default_branch {
        Some(b) => b@,
        None => "main"@,
    }
}

/// The record's license: all rights reserved when none is declared;
/// otherwise the declared one, with its page, else the SPDX page, else the
/// repository's license file.
pub open spec fn license_of(repo: Repository) -> (Seq<char>, Seq<char>, Seq<char>) {
    match repo.license {
        None => ("ARR"@, "All Rights Reserved"@, Seq::empty()),
        Some(l) => (
            l.spdx_id@,
            l.name@,
            match l.html_url {
                Some(u) => u@,
                None => if valid_spdx(l.spdx_id@) {
                    "https://spdx.org/licenses/"@ + l.spdx_id@ + ".html"@
                } else {
                    repo.html_url@ + "/blob/"@ + branch_of(repo) + "/LICENSE"@
                },
            },
        ),
    }
}

pub fn default_branch(repo: &Repository) -> (r: String)
    ensures
        r@ == branch_of(*repo),
{
    match &repo.default_branch {
        Some(b) => b.clone(),
        None => String::from_str("main"),
    }
}

pub fn repo_license(repo: &Repository) -> (r: License)
    ensures
        (r.id@, r.name@, r.url@) == license_of(*repo),
{
    match &repo.license {
        None => {
            let url = String::new();
            assert(url@ =~= Seq::<char>::empty());
            License { id: String::from_str("ARR"), name: String::from_str("All Rights Reserved"), url }
        },
        Some(l) => {
            let spdx = l.spdx_id.as_str();
            let valid = !same_text(spdx, "") && !same_text(spdx, "NOASSERTION") && !crate::text::str_starts_with(
                spdx,
                "LicenseRef",
            );
            proof {
                reveal_strlit("");
                assert(spdx@.len() == 0 ==> spdx@ =~= ""@);
            }
            let url = match &l.html_url {
                Some(u) => u.clone(),
                None => {
                    if valid {
                        let mut u = String::from_str("https://spdx.org/licenses/");
                        u.append(spdx);
                        u.append(".html");
                        u
                    } else {
                        let branch = default_branch(repo);
                        let mut u = repo.html_url.clone();
                        u.append("/blob/");
                        u.append(branch.as_str());
                        u.append("/LICENSE");
                        u
                    }
                },
            };
            License { id: l.spdx_id.clone(), name: l.name.clone(), url }
        },
    }
}

/// A version string that is a floating branch marker.
pub fn is_branch_snapshot(version: &str) -> (r: bool)
    ensures
        r == crate::resolver::is_snapshot(version@),
{
    crate::resolver::is_snapshot_version(version)
}

/// Resolved versions taken over: a reference that was not a literal takes
/// its resolution when there is one, and a floating snapshot marker takes
/// the platform's snapshot version when that is known.
pub fn apply_resolved_versions(
    dsl: &mut AllayDsl,
    api_resolved: Option<String>,
    server_resolved: Option<String>,
    snapshot: Option<String>,
)
    ensures
        ({
            let api1 = if !(old(dsl).api_version_ref is Literal) && api_resolved is Some {
                opt_view(api_resolved)
            } else {
                opt_view(old(dsl).api)
            };
            let server1 = if !(old(dsl).server_version_ref is Literal) && server_resolved is Some {
                opt_view(server_resolved)
            } else {
                opt_view(old(dsl).server)
            };
            &&& opt_view(final(dsl).api) == if api1 is Some && crate::resolver::is_snapshot(api1->0) && snapshot is Some {
                opt_view(snapshot)
            } else {
                api1
            }
            &&& opt_view(final(dsl).server) == if server1 is Some && crate::resolver::is_snapshot(server1->0)
                && snapshot is Some {
                opt_view(snapshot)
            } else {
                server1
            }
        }),
        final(dsl).plugin == old(dsl).plugin,
        final(dsl).has_allay_dependency == old(dsl).has_allay_dependency,
{
    let api_literal = matches!(dsl.api_version_ref, VersionRef::Literal(_));
    if !api_literal {
        if let Some(v) = api_resolved {
            dsl.api = Some(v);
        }
    }
    let server_literal = matches!(dsl.server_version_ref, VersionRef::Literal(_));
    if !server_literal {
        if let Some(v) = server_resolved {
            dsl.server = Some(v);
        }
    }
    let api_snapshot = match &dsl.api {
        Some(a) => is_branch_snapshot(a.as_str()),
        None => false,
    };
    if api_snapshot {
        if let Some(s) = &snapshot {
            dsl.api = Some(s.clone());
        }
    }
    let server_snapshot = match &dsl.server {
        Some(a) => is_branch_snapshot(a.as_str()),
        None => false,
    };
    if server_snapshot {
        if let Some(s) = snapshot {
            dsl.server = Some(s);
        }
    }
}

/// What assembling one record takes: the repository, the extraction result
/// of its build file, and what was fetched for it.
pub struct PluginBuildInput<'a> {
    pub repo: &'a Repository,
    pub dsl: &'a AllayDsl,
    pub releases: &'a [Release],
    pub readme: &'a str,
    pub license: &'a License,
    pub contributors: &'a [Contributor],
    pub owner: &'a str,
    pub repo_name: &'a str,
    pub branch: &'a str,
    pub icon_url: &'a str,
    pub repo_gallery: Vec<GalleryItem>,
}

/// The releases that become catalog versions: not drafts, with at least one
/// archive.
pub open spec fn kept_releases(releases: Seq<Release>) -> Seq<Release>
    decreases releases.len(),
{
    if releases.len() == 0 {
        Seq::empty()
    } else {
        let r = releases.last();
        kept_releases(releases.drop_last()) + if !r.draft && archives(r.assets@).len() > 0 {
            seq![r]
        } else {
            Seq::empty()
        }
    }
}

pub open spec fn dependency_view(d: Dependency) -> (Seq<char>, Seq<char>, Seq<char>) {
    (d.plugin_id@, d.version_range@, d.dependency_type@)
}

/// A manifest dependency as the catalog lists it.
pub open spec fn catalog_dependency(d: GradleDependency) -> (Seq<char>, Seq<char>, Seq<char>) {
    (
        lower_of(d.name@),
        match d.version {
            Some(v) => v@,
            None => Seq::empty(),
        },
        if d.optional {
            "optional"@
        } else {
            "required"@
        },
    )
}

pub open spec fn version_downloads(vs: Seq<Version>) -> int
    decreases vs.len(),
{
    if vs.len() == 0 {
        0
    } else {
        version_downloads(vs.drop_last()) + vs.last().downloads
    }
}

proof fn lemma_version_downloads_nonneg(vs: Seq<Version>)
    ensures
        version_downloads(vs) >= 0,
    decreases vs.len(),
{
    if vs.len() > 0 {
        lemma_version_downloads_nonneg(vs.drop_last());
    }
}

/// The gallery: the repository's own images, then the README's images whose
/// address is not there yet.
pub open spec fn merged_gallery(
    g: Seq<(Seq<char>, Seq<char>, Seq<char>, Seq<char>)>,
    extra: Seq<(Seq<char>, Seq<char>, Seq<char>, Seq<char>)>,
) -> Seq<(Seq<char>, Seq<char>, Seq<char>, Seq<char>)>
    decreases extra.len(),
{
    if extra.len() == 0 {
        g
    } else {
        let m = merged_gallery(g, extra.drop_last());
        if exists|i: int| 0 <= i < m.len() && #[trigger] m[i].0 == extra.last().0 {
            m
        } else {
            m.push(extra.last())
        }
    }
}

fn has_url(g: &Vec<GalleryItem>, url: &str) -> (r: bool)
    ensures
        r == exists|i: int| 0 <= i < g@.len() && #[trigger] gallery_view(g@)[i].0 == url@,
{
    let mut i: usize = 0;
    while i < g.len()
        invariant
            i <= g@.len(),
            forall|j: int| 0 <= j < i ==> #[trigger] gallery_view(g@)[j].0 != url@,
        decreases g@.len() - i,
    {
        if same_text(g[i].url.as_str(), url) {
            assert(gallery_view(g@)[i as int].0 == url@);
            return true;
        }
        i = i + 1;
    }
    false
}

/// Assembles the catalog record of a repository; none without a manifest.
pub fn build_plugin_from_repo_data(input: PluginBuildInput) -> (r: Option<Plugin>)
    ensures
        r is None <==> input.dsl.plugin is None,
        r matches Some(p) ==> ({
            let m = input.dsl.plugin->0;
            let name = match m.name {
                Some(n) => n@,
                None => input.repo.name@,
            };
            &&& p.name@ == name
            &&& p.id@ == lower_of(input.owner@ + "/"@ + name)
            &&& p.source@ == input.repo.html_url@
            &&& p.summary@ == match m.description {
                Some(d) => d@,
                None => match input.repo.description {
                    Some(d) => d@,
                    None => Seq::<char>::empty(),
                },
            }
            &&& p.description@ == readme_text(input.readme@, input.owner@, input.repo_name@, input.branch@)
            &&& authors_view(p.authors@) == seq![(input.repo.owner.login@, input.repo.owner.html_url@, input.repo.owner.avatar_url@)]
                + contributor_authors(crate::dsl::strings_view(m.authors@), input.repo.owner.login@, input.contributors@)
            &&& p.categories.deep_view() == categories_of(input.repo.topics.deep_view())
            &&& p.license.id@ == input.license.id@ && p.license.name@ == input.license.name@ && p.license.url@ == input.license.url@
            &&& p.downloads == saturate(version_downloads(p.versions@))
            &&& p.stars == input.repo.stargazers_count
            &&& p.created_at == timestamp_of(input.repo.created_at@)
            &&& p.updated_at == timestamp_of(input.repo.updated_at@)
            &&& p.icon_url@ == input.icon_url@
            &&& p.api_version@ == match input.dsl.api {
                Some(a) => a@,
                None => match m.api_version {
                    Some(a) => a@,
                    None => Seq::<char>::empty(),
                },
            }
            &&& p.server_version@ == match input.dsl.server {
                Some(s) => s@,
                None => Seq::<char>::empty(),
            }
            &&& p.dependencies@.len() == m.dependencies@.len()
            &&& forall|i: int| 0 <= i < p.dependencies@.len() ==> dependency_view(#[trigger] p.dependencies@[i]) == catalog_dependency(m.dependencies@[i])
            &&& p.versions@.len() == kept_releases(input.releases@).len()
            &&& forall|i: int| 0 <= i < p.versions@.len() ==> built_from(kept_releases(input.releases@)[i], #[trigger] p.versions@[i])
            &&& p.links matches Some(l) && l.homepage@ == match m.website {
                Some(w) => w@,
                None => Seq::<char>::empty(),
            }
            &&& gallery_view(p.gallery@) == merged_gallery(gallery_view(input.repo_gallery@), readme_gallery(input.readme@, input.owner@, input.repo_name@, input.branch@))
            &&& p.preserved_fields@.len() == 0
        }),
{
    let PluginBuildInput {
        repo,
        dsl,
        releases,
        readme,
        license,
        contributors,
        owner,
        repo_name,
        branch,
        icon_url,
        repo_gallery,
    } = input;
    let plugin_dsl = match &dsl.plugin {
        Some(p) => p,
        None => return None,
    };
    let plugin_name = match &plugin_dsl.name {
        Some(n) => n.clone(),
        None => repo.name.clone(),
    };
    let mut id_text = String::from_str(owner);
    id_text.append("/");
    id_text.append(plugin_name.as_str());
    let plugin_id = lowercase(id_text.as_str());

    let mut versions: Vec<Version> = Vec::new();
    let mut total: u64 = 0;
    let mut i: usize = 0;
    assert(versions@.subrange(0, 0) =~= Seq::<Version>::empty());
    while i < releases.len()
        invariant
            i <= releases@.len(),
            versions@.len() == kept_releases(releases@.subrange(0, i as int)).len(),
            forall|k: int| 0 <= k < versions@.len() ==> built_from(kept_releases(releases@.subrange(0, i as int))[k], #[trigger] versions@[k]),
            total == saturate(version_downloads(versions@)),
        decreases releases@.len() - i,
    {
        let ghost pre = releases@.subrange(0, i + 1);
        assert(pre.drop_last() =~= releases@.subrange(0, i as int));
        assert(pre.last() == releases@[i as int]);
        let ghost kept0 = kept_releases(releases@.subrange(0, i as int));
        if !releases[i].draft {
            let v = build_version(&releases[i]);
            if v.files.len() > 0 {
                let ghost before = versions@;
                proof {
                    lemma_version_downloads_nonneg(before);
                }
                let d = v.downloads;
                assert(built_from(releases@[i as int], v));
                versions.push(v);
                assert(versions@.drop_last() =~= before);
                assert(kept_releases(pre) =~= kept0.push(releases@[i as int]));
                assert forall|k: int| 0 <= k < versions@.len() implies built_from(kept_releases(pre)[k], #[trigger] versions@[k]) by {
                    if k < before.len() {
                        assert(versions@[k] == before[k]);
                    }
                }
                total = if total > u64::MAX - d {
                    u64::MAX
                } else {
                    total + d
                };
            } else {
                assert(kept_releases(pre) =~= kept0);
            }
        } else {
            assert(kept_releases(pre) =~= kept0);
        }
        i = i + 1;
    }
    assert(releases@.subrange(0, releases@.len() as int) =~= releases@);

    let summary = match &plugin_dsl.description {
        Some(d) => d.clone(),
        None => match &repo.description {
            Some(d) => d.clone(),
            None => {
                let e = String::new();
                assert(e@ =~= Seq::<char>::empty());
                e
            },
        },
    };
    let website = match &plugin_dsl.website {
        Some(w) => w.clone(),
        None => String::new(),
    };
    let authors = build_authors(plugin_dsl, repo, contributors);
    let ctx = PostProcessContext { owner, repo: repo_name, branch };
    let (processed_readme, readme_items) = process_readme(readme, &ctx);

    let mut gallery = repo_gallery;
    let ghost g0 = gallery_view(gallery@);
    let ghost extra = gallery_view(readme_items@);
    let mut rest = readme_items;
    let total_items = rest.len();
    assert(extra.subrange(0, 0) =~= Seq::<(Seq<char>, Seq<char>, Seq<char>, Seq<char>)>::empty());
    assert(gallery_view(rest@) =~= extra.subrange(0, extra.len() as int));
    while rest.len() > 0
        invariant
            total_items == extra.len(),
            rest@.len() <= total_items,
            gallery_view(rest@) == extra.subrange(total_items - rest@.len(), total_items as int),
            gallery_view(gallery@) == merged_gallery(g0, extra.subrange(0, total_items - rest@.len())),
        decreases rest@.len(),
    {
        let k: usize = total_items - rest.len();
        let ghost pre = extra.subrange(0, k + 1);
        assert(pre.drop_last() =~= extra.subrange(0, k as int));
        assert(gallery_view(rest@)[0] == extra[k as int]);
        let ghost old_rest = rest@;
        let item = rest.remove(0);
        assert(rest@ =~= old_rest.subrange(1, old_rest.len() as int));
        assert forall|x: int| 0 <= x < rest@.len() implies #[trigger] gallery_view(rest@)[x] == extra[k + 1 + x] by {
            assert(gallery_view(old_rest)[x + 1] == extra.subrange(k as int, total_items as int)[x + 1]);
        }
        assert(gallery_view(rest@) =~= extra.subrange(total_items - rest@.len(), total_items as int));
        let ghost before = gallery_view(gallery@);
        if !has_url(&gallery, item.url.as_str()) {
            gallery.push(item);
            assert(gallery_view(gallery@) =~= before.push(pre.last()));
        }
    }
    assert(extra.subrange(0, total_items as int) =~= extra);

    let api_version = match &dsl.api {
        Some(a) => a.clone(),
        None => match &plugin_dsl.api_version {
            Some(a) => a.clone(),
            None => {
                let e = String::new();
                assert(e@ =~= Seq::<char>::empty());
                e
            },
        },
    };
    let server_version = match &dsl.server {
        Some(s) => s.clone(),
        None => {
            let e = String::new();
            assert(e@ =~= Seq::<char>::empty());
            e
        },
    };
    let mut dependencies: Vec<Dependency> = Vec::new();
    let mut j: usize = 0;
    while j < plugin_dsl.dependencies.len()
        invariant
            j <= plugin_dsl.dependencies@.len(),
            dependencies@.len() == j,
            forall|x: int| 0 <= x < j ==> dependency_view(#[trigger] dependencies@[x]) == catalog_dependency(plugin_dsl.dependencies@[x]),
        decreases plugin_dsl.dependencies@.len() - j,
    {
        let d = &plugin_dsl.dependencies[j];
        let range = match &d.version {
            Some(v) => v.clone(),
            None => {
                let e = String::new();
                assert(e@ =~= Seq::<char>::empty());
                e
            },
        };
        let kind = if d.optional {
            String::from_str("optional")
        } else {
            String::from_str("required")
        };
        dependencies.push(Dependency { plugin_id: lowercase(d.name.as_str()), version_range: range, dependency_type: kind });
        j = j + 1;
    }
    let categories = build_categories(repo.topics.as_slice());
    let preserved: Vec<(String, String)> = Vec::new();
    Some(Plugin {
        id: plugin_id,
        name: plugin_name,
        source: repo.html_url.clone(),
        summary,
        description: processed_readme,
        authors,
        categories,
        license: License { id: license.id.clone(), name: license.name.clone(), url: license.url.clone() },
        links: Some(Links { homepage: website, wiki: String::new(), discord: String::new() }),
        downloads: total,
        stars: repo.stargazers_count,
        created_at: parse_timestamp(repo.created_at.as_str()),
        updated_at: parse_timestamp(repo.updated_at.as_str()),
        icon_url: String::from_str(icon_url),
        gallery,
        versions,
        api_version,
        server_version,
        dependencies,
        preserved_fields: preserved,
    })
}

/// The image extensions a numbered gallery file may have, in order of
/// preference.
pub open spec fn gallery_exts() -> Seq<Seq<char>> {
    seq!["png"@, "jpg"@, "jpeg"@, "svg"@, "webp"@, "gif"@]
}

fn gallery_ext(i: usize) -> (r: &'static str)
    requires
        i < 6,
    ensures
        r@ == gallery_exts()[i as int],
{
    if i == 0 {
        "png"
    } else if i == 1 {
        "jpg"
    } else if i == 2 {
        "jpeg"
    } else if i == 3 {
        "svg"
    } else if i == 4 {
        "webp"
    } else {
        "gif"
    }
}

pub open spec fn gallery_file_name(n: nat, ext: Seq<char>) -> Seq<char> {
    "gallery"@ + crate::api::decimal_text(n) + "."@ + ext
}

/// Where the `n`-th gallery image lies, trying the extensions from `exts`.
pub open spec fn gallery_image(tree: Seq<GitTreeEntry>, n: nat, exts: Seq<Seq<char>>) -> Option<Seq<char>>
    decreases exts.len(),
{
    if exts.len() == 0 {
        None
    } else {
        match find_file(tree, gallery_file_name(n, exts[0])) {
            Some(p) => Some(p),
            None => gallery_image(tree, n, exts.subrange(1, exts.len() as int)),
        }
    }
}

/// The paths of the gallery images numbered from `from` up to ten, stopping
/// at the first number without one.
pub open spec fn gallery_paths(tree: Seq<GitTreeEntry>, from: nat) -> Seq<Seq<char>>
    decreases 11 - from,
{
    if from > 10 {
        Seq::empty()
    } else {
        match gallery_image(tree, from, gallery_exts()) {
            Some(p) => seq![p] + gallery_paths(tree, from + 1),
            None => Seq::empty(),
        }
    }
}

fn find_gallery_image(tree: &[GitTreeEntry], n: u64) -> (r: Option<String>)
    ensures
        opt_view(r) == gallery_image(tree@, n as nat, gallery_exts()),
{
    let num = crate::api::decimal_string(n);
    let mut i: usize = 0;
    assert(gallery_exts().subrange(0, 6) =~= gallery_exts());
    while i < 6
        invariant
            i <= 6,
            num@ == crate::api::decimal_text(n as nat),
            gallery_image(tree@, n as nat, gallery_exts().subrange(i as int, 6)) == gallery_image(
                tree@,
                n as nat,
                gallery_exts(),
            ),
        decreases 6 - i,
    {
        let ext = gallery_ext(i);
        let mut name = String::from_str("gallery");
        name.append(num.as_str());
        name.append(".");
        name.append(ext);
        assert(gallery_exts().subrange(i as int, 6)[0] == gallery_exts()[i as int]);
        assert(name@ =~= gallery_file_name(n as nat, ext@));
        if let Some(p) = find_file_anywhere(tree, name.as_str()) {
            return Some(p);
        }
        assert(gallery_exts().subrange(i as int, 6).subrange(1, 6 - i) =~= gallery_exts().subrange(i + 1, 6));
        i = i + 1;
    }
    None
}

/// The numbered gallery images of a tree, as gallery entries titled by their
/// number and dated `created`.
pub fn find_gallery_items(tree: &[GitTreeEntry], owner: &str, repo: &str, branch: &str, created: &str) -> (r: Vec<GalleryItem>)
    ensures
        r@.len() == gallery_paths(tree@, 1).len(),
        forall|k: int|
            0 <= k < r@.len() ==> {
                let g = #[trigger] r@[k];
                &&& g.url@ == raw_url(owner@, repo@, branch@, gallery_paths(tree@, 1)[k])
                &&& g.title@ == "Gallery "@ + crate::api::decimal_text((k + 1) as nat)
                &&& g.description@.len() == 0
                &&& g.created@ == created@
            },
{
    let mut gallery: Vec<GalleryItem> = Vec::new();
    let mut n: u64 = 1;
    let mut done = false;
    while n <= 10 && !done
        invariant
            1 <= n <= 11,
            gallery@.len() == n - 1,
            !done ==> gallery_paths(tree@, 1) == gallery_paths_prefix(tree@, (n - 1) as nat) + gallery_paths(tree@, n as nat),
            done ==> gallery_paths(tree@, 1) == gallery_paths_prefix(tree@, (n - 1) as nat),
            gallery_paths_prefix(tree@, (n - 1) as nat).len() == n - 1,
            forall|k: int|
                0 <= k < gallery@.len() ==> {
                    let g = #[trigger] gallery@[k];
                    &&& g.url@ == raw_url(owner@, repo@, branch@, gallery_paths_prefix(tree@, (n - 1) as nat)[k])
                    &&& g.title@ == "Gallery "@ + crate::api::decimal_text((k + 1) as nat)
                    &&& g.description@.len() == 0
                    &&& g.created@ == created@
                },
        decreases 11 - n + if done { 0int } else { 1int },
    {
        match find_gallery_image(tree, n) {
            Some(path) => {
                let num = crate::api::decimal_string(n);
                let mut title = String::from_str("Gallery ");
                title.append(num.as_str());
                let url = to_raw_url(owner, repo, branch, path.as_str());
                let desc = String::new();
                let item = GalleryItem { url, title, description: desc, created: String::from_str(created) };
                proof {
                    lemma_prefix_step(tree@, (n - 1) as nat);
                }
                gallery.push(item);
                n = n + 1;
            },
            None => {
                done = true;
            },
        }
    }
    if !done {
        assert(gallery_paths(tree@, n as nat) == Seq::<Seq<char>>::empty());
        assert(gallery_paths_prefix(tree@, (n - 1) as nat) + Seq::<Seq<char>>::empty() =~= gallery_paths_prefix(tree@, (n - 1) as nat));
    }
    gallery
}

/// The gallery paths numbered 1 to `k`, when each of them exists.
pub open spec fn gallery_paths_prefix(tree: Seq<GitTreeEntry>, k: nat) -> Seq<Seq<char>>
    decreases k,
{
    if k == 0 {
        Seq::empty()
    } else {
        gallery_paths_prefix(tree, (k - 1) as nat).push(
            match gallery_image(tree, k, gallery_exts()) {
                Some(p) => p,
                None => Seq::empty(),
            },
        )
    }
}

proof fn lemma_prefix_step(tree: Seq<GitTreeEntry>, k: nat)
    requires
        k < 10,
        gallery_image(tree, k + 1, gallery_exts()) is Some,
    ensures
        gallery_paths_prefix(tree, k) + gallery_paths(tree, k + 1) == gallery_paths_prefix(tree, k + 1)
            + gallery_paths(tree, k + 2),
{
    let p = gallery_image(tree, k + 1, gallery_exts())->0;
    assert(gallery_paths(tree, k + 1) == seq![p] + gallery_paths(tree, k + 2));
    assert(gallery_paths_prefix(tree, k) + (seq![p] + gallery_paths(tree, k + 2)) =~= gallery_paths_prefix(tree, k).push(p)
        + gallery_paths(tree, k + 2));
}

/// A build file's result counts when it declares the platform dependency or
/// a manifest.
pub fn dsl_usable(dsl: &AllayDsl) -> (r: bool)
    ensures
        r == (dsl.plugin is Some || dsl.has_allay_dependency),
{
    dsl.plugin.is_some() || dsl.has_allay_dependency
}

/// A result that declares the platform dependency without a manifest block
/// looks for its module's companion manifest.
pub fn wants_companion_manifest(dsl: &AllayDsl) -> (r: bool)
    ensures
        r == (dsl.plugin is None && dsl.has_allay_dependency),
{
    dsl.plugin.is_none() && dsl.has_allay_dependency
}

/// Takes a companion manifest that names an entrance point as the result's
/// manifest, its placeholders resolved from the result's project fields;
/// tells whether it was taken.
pub fn adopt_companion_manifest(dsl: &mut AllayDsl, json: PluginJson) -> (taken: bool)
    ensures
        taken == (json.entrance is Some),
        !taken ==> *final(dsl) == *old(dsl),
        taken ==> (final(dsl).plugin matches Some(p) && ({
            let name = crate::gradle::opt_string(old(dsl).project_name);
            let version = crate::gradle::opt_string(old(dsl).project_version);
            let desc = crate::gradle::opt_string(old(dsl).project_description);
            &&& crate::gradle::opt_string(p.entrance) == crate::gradle::opt_string(json.entrance)
            &&& crate::gradle::opt_string(p.name) == resolve_template_spec(crate::gradle::opt_string(json.name), name, version, desc)
            &&& crate::gradle::opt_string(p.version) == resolve_template_spec(crate::gradle::opt_string(json.version), name, version, desc)
            &&& crate::gradle::opt_string(p.description) == resolve_template_spec(crate::gradle::opt_string(json.description), name, version, desc)
            &&& crate::gradle::opt_string(p.website) == resolve_template_spec(crate::gradle::opt_string(json.website), name, version, desc)
            &&& p.authors@ == json.authors@
            &&& crate::gradle::opt_string(p.api_version) == crate::gradle::opt_string(json.api_version)
            &&& p.dependencies@.len() == json.dependencies@.len()
            &&& forall|i: int| 0 <= i < p.dependencies@.len() ==> crate::gradle::dependency_from_json(
                #[trigger] json.dependencies@[i],
                p.dependencies@[i],
            )
        })),
        taken ==> final(dsl).has_allay_dependency == old(dsl).has_allay_dependency && final(dsl).project_version
            == old(dsl).project_version,
{
    if json.entrance.is_none() {
        return false;
    }
    let plugin = json.into_plugin_dsl(
        as_str_opt(&dsl.project_name),
        as_str_opt(&dsl.project_version),
        as_str_opt(&dsl.project_description),
    );
    dsl.plugin = Some(plugin);
    true
}

/// Fills the project version and description that a build file lacks from
/// its settings file's.
pub fn adopt_settings(dsl: &mut AllayDsl, settings: &AllayDsl)
    ensures
        crate::gradle::opt_string(final(dsl).project_version) == match old(dsl).project_version {
            Some(v) => Some(v@),
            None => crate::gradle::opt_string(settings.project_version),
        },
        crate::gradle::opt_string(final(dsl).project_description) == match old(dsl).project_description {
            Some(v) => Some(v@),
            None => crate::gradle::opt_string(settings.project_description),
        },
        final(dsl).plugin == old(dsl).plugin,
        final(dsl).has_allay_dependency == old(dsl).has_allay_dependency,
        final(dsl).project_name == old(dsl).project_name,
{
    if dsl.project_version.is_none() {
        dsl.project_version = crate::gradle::clone_opt(&settings.project_version);
    }
    if dsl.project_description.is_none() {
        dsl.project_description = crate::gradle::clone_opt(&settings.project_description);
    }
}

/// The Kotlin-script and Groovy build files of a tree, in tree order.
pub open spec fn build_files(tree: Seq<GitTreeEntry>) -> Seq<Seq<char>>
    decreases tree.len(),
{
    if tree.len() == 0 {
        Seq::empty()
    } else {
        let e = tree.last();
        build_files(tree.drop_last()) + if is_blob(e) && (ends_with(e.path@, "build.gradle.kts"@) || ends_with(
            e.path@,
            "build.gradle"@,
        )) {
            seq![e.path@]
        } else {
            Seq::empty()
        }
    }
}

pub fn find_build_files(tree: &[GitTreeEntry]) -> (r: Vec<String>)
    ensures
        r.deep_view() == build_files(tree@),
{
    let mut r: Vec<String> = Vec::new();
    let mut i: usize = 0;
    while i < tree.len()
        invariant
            i <= tree@.len(),
            r.deep_view() == build_files(tree@.subrange(0, i as int)),
        decreases tree@.len() - i,
    {
        let e = &tree[i];
        assert(tree@.subrange(0, i + 1).drop_last() =~= tree@.subrange(0, i as int));
        if is_blob_exec(e) && (str_ends_with(e.path.as_str(), "build.gradle.kts") || str_ends_with(
            e.path.as_str(),
            "build.gradle",
        )) {
            r.push(e.path.clone());
        }
        assert(r.deep_view() =~= build_files(tree@.subrange(0, i + 1)));
        i = i + 1;
    }
    assert(tree@.subrange(0, tree@.len() as int) =~= tree@);
    r
}

/// A build file's result consults the settings file when it lacks the
/// project version or description.
pub fn needs_settings(dsl: &AllayDsl) -> (r: bool)
    ensures
        r == (dsl.project_version is None || dsl.project_description is None),
{
    dsl.project_version.is_none() || dsl.project_description.is_none()
}

/// The paths without repeats, each at its first place.
pub open spec fn distinct_paths(paths: Seq<Seq<char>>) -> Seq<Seq<char>>
    decreases paths.len(),
{
    if paths.len() == 0 {
        Seq::empty()
    } else {
        let r = distinct_paths(paths.drop_last());
        if r.contains(paths.last()) { r } else { r.push(paths.last()) }
    }
}

pub fn dedup_paths(paths: &[String]) -> (r: Vec<String>)
    ensures
        r.deep_view() == distinct_paths(paths.deep_view()),
{
    let mut r: Vec<String> = Vec::new();
    let mut i: usize = 0;
    while i < paths.len()
        invariant
            i <= paths@.len(),
            r.deep_view() == distinct_paths(paths.deep_view().subrange(0, i as int)),
        decreases paths@.len() - i,
    {
        let ghost pre = paths.deep_view().subrange(0, i + 1);
        assert(pre.drop_last() =~= paths.deep_view().subrange(0, i as int));
        assert(pre.last() == paths@[i as int]@);
        let mut found = false;
        let mut j: usize = 0;
        while j < r.len()
            invariant
                j <= r@.len(),
                i < paths@.len(),
                found == exists|k: int| 0 <= k < j && #[trigger] r.deep_view()[k] == paths@[i as int]@,
            decreases r@.len() - j,
        {
            if same_text(r[j].as_str(), paths[i].as_str()) {
                found = true;
            }
            assert(r.deep_view()[j as int] == r@[j as int]@);
            j = j + 1;
        }
        assert(found == r.deep_view().contains(paths@[i as int]@));
        if !found {
            let ghost before = r.deep_view();
            r.push(paths[i].clone());
            assert(r.deep_view() =~= before.push(paths@[i as int]@));
        }
        i = i + 1;
    }
    assert(paths.deep_view().subrange(0, paths@.len() as int) =~= paths.deep_view());
    r
}

} // verus!
