//! Records of the hosting API, as the library reads them.
use vstd::prelude::*;

verus! {

#[derive(Debug, Clone)]
pub struct Owner {
    pub login: String,
    pub avatar_url: String,
    pub html_url: String,
}

#[derive(Debug, Clone)]
pub struct RepositoryLicense {
    pub key: String,
    pub name: String,
    pub spdx_id: String,
    pub url: Option<String>,
    pub html_url: Option<String>,
}

#[derive(Debug, Clone)]
pub struct Repository {
    pub id: u64,
    pub full_name: String,
    pub name: String,
    pub description: Option<String>,
    pub html_url: String,
    pub stargazers_count: u64,
    pub forks_count: u64,
    pub created_at: String,
    pub updated_at: String,
    pub pushed_at: String,
    pub owner: Owner,
    pub license: Option<RepositoryLicense>,
    pub topics: Vec<String>,
    pub is_template: bool,
    pub fork: bool,
    pub archived: bool,
    pub default_branch: Option<String>,
    pub contributors_url: String,
}

#[derive(Debug, Clone)]
pub struct ReleaseAsset {
    pub id: u64,
    pub name: String,
    pub size: u64,
    pub download_count: u64,
    pub browser_download_url: String,
    pub content_type: String,
}

#[derive(Debug, Clone)]
pub struct Release {
    pub id: u64,
    pub tag_name: String,
    pub name: Option<String>,
    pub body: Option<String>,
    pub prerelease: bool,
    pub draft: bool,
    pub created_at: String,
    pub published_at: String,
    pub assets: Vec<ReleaseAsset>,
}

#[derive(Debug, Clone)]
pub struct SearchResult {
    pub total_count: u64,
    pub incomplete_results: bool,
    pub items: Vec<Repository>,
}

#[derive(Debug, Clone)]
pub struct ReadmeContent {
    pub content: String,
    pub encoding: String,
}

#[derive(Debug, Clone)]
pub struct CodeSearchRepository {
    pub id: u64,
    pub full_name: String,
    pub fork: bool,
}

#[derive(Debug, Clone)]
pub struct CodeSearchItem {
    pub name: String,
    pub path: String,
    pub repository: CodeSearchRepository,
}

#[derive(Debug, Clone)]
pub struct CodeSearchResult {
    pub total_count: u64,
    pub incomplete_results: bool,
    pub items: Vec<CodeSearchItem>,
}

#[derive(Debug, Clone)]
pub struct ContentItem {
    pub name: String,
    pub item_type: String,
}

#[derive(Debug, Clone)]
pub struct GitTreeEntry {
    pub path: String,
    pub entry_type: String,
    pub sha: String,
    pub size: Option<u64>,
}

#[derive(Debug, Clone)]
pub struct GitTree {
    pub sha: String,
    pub tree: Vec<GitTreeEntry>,
    pub truncated: bool,
}

#[derive(Debug, Clone)]
pub struct Contributor {
    pub login: String,
    pub avatar_url: String,
    pub html_url: String,
    pub contributions: u64,
}

} // verus!
