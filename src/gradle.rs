//! The extraction model of one build file, the companion manifest, and
//! placeholder substitution.
use vstd::prelude::*;
use crate::text::{
    chars_of, contains, contains_exec, lemma_replace_absent, occurs_at, replace_all, replace_all_exec,
    starts_with, string_of,
};

verus! {

/// A symbolic reference to a platform version.
#[derive(Debug, Clone)]
pub enum VersionRef {
    Absent,
    Literal(String),
    VersionCatalog(String),
    Variable(String),
}

impl Default for VersionRef {
    fn default() -> (r: Self)
        ensures
            r is Absent,
    {
        VersionRef::Absent
    }
}

/// One declared plugin dependency of a manifest.
#[derive(Debug, Clone)]
pub struct GradleDependency {
    pub name: String,
    pub version: Option<String>,
    pub optional: bool,
}

impl Default for GradleDependency {
    fn default() -> (r: Self)
        ensures
            r.name@.len() == 0,
            r.version is None,
            !r.optional,
    {
        GradleDependency { name: String::new(), version: None, optional: false }
    }
}

/// The nested manifest block of a build file.
#[derive(Debug, Clone)]
pub struct PluginDsl {
    pub entrance: Option<String>,
    pub name: Option<String>,
    pub version: Option<String>,
    pub authors: Vec<String>,
    pub description: Option<String>,
    pub website: Option<String>,
    pub api_version: Option<String>,
    pub dependencies: Vec<GradleDependency>,
}

impl PluginDsl {
    pub open spec fn is_empty(&self) -> bool {
        &&& self.entrance is None
        &&& self.name is None
        &&& self.version is None
        &&& self.authors@.len() == 0
        &&& self.description is None
        &&& self.website is None
        &&& self.api_version is None
        &&& self.dependencies@.len() == 0
    }
}

impl Default for PluginDsl {
    fn default() -> (r: Self)
        ensures
            r.is_empty(),
    {
        PluginDsl {
            entrance: None,
            name: None,
            version: None,
            authors: Vec::new(),
            description: None,
            website: None,
            api_version: None,
            dependencies: Vec::new(),
        }
    }
}

/// What one build file yields.
#[derive(Debug, Clone)]
pub struct AllayDsl {
    pub api: Option<String>,
    pub api_only: Option<bool>,
    pub server: Option<String>,
    pub plugin: Option<PluginDsl>,
    pub has_allay_dependency: bool,
    pub api_version_ref: VersionRef,
    pub server_version_ref: VersionRef,
    pub project_name: Option<String>,
    pub project_version: Option<String>,
    pub project_description: Option<String>,
}

impl AllayDsl {
    pub open spec fn is_empty(&self) -> bool {
        &&& self.api is None
        &&& self.api_only is None
        &&& self.server is None
        &&& self.plugin is None
        &&& !self.has_allay_dependency
        &&& self.api_version_ref is Absent
        &&& self.server_version_ref is Absent
        &&& self.project_name is None
        &&& self.project_version is None
        &&& self.project_description is None
    }
}

impl Default for AllayDsl {
    fn default() -> (r: Self)
        ensures
            r.is_empty(),
    {
        AllayDsl {
            api: None,
            api_only: None,
            server: None,
            plugin: None,
            has_allay_dependency: false,
            api_version_ref: VersionRef::Absent,
            server_version_ref: VersionRef::Absent,
            project_name: None,
            project_version: None,
            project_description: None,
        }
    }
}

/// A dependency entry of the companion JSON manifest.
#[derive(Debug, Clone)]
pub struct PluginJsonDependency {
    pub name: String,
    pub version: Option<String>,
    pub optional: bool,
}

impl Default for PluginJsonDependency {
    fn default() -> (r: Self)
        ensures
            r.name@.len() == 0,
            r.version is None,
            !r.optional,
    {
        PluginJsonDependency { name: String::new(), version: None, optional: false }
    }
}

/// The companion JSON manifest of a module.
#[derive(Debug, Clone)]
pub struct PluginJson {
    pub entrance: Option<String>,
    pub name: Option<String>,
    pub version: Option<String>,
    pub authors: Vec<String>,
    pub description: Option<String>,
    pub website: Option<String>,
    pub api_version: Option<String>,
    pub dependencies: Vec<PluginJsonDependency>,
}

impl Default for PluginJson {
    fn default() -> (r: Self)
        ensures
            r.entrance is None,
            r.name is None,
            r.version is None,
            r.authors@.len() == 0,
            r.description is None,
            r.website is None,
            r.api_version is None,
            r.dependencies@.len() == 0,
    {
        PluginJson {
            entrance: None,
            name: None,
            version: None,
            authors: Vec::new(),
            description: None,
            website: None,
            api_version: None,
            dependencies: Vec::new(),
        }
    }
}

pub open spec fn opt_str(o: Option<&str>) -> Option<Seq<char>> {
    match o {
        Some(s) => Some(s@),
        None => None,
    }
}

pub open spec fn opt_string(o: Option<String>) -> Option<Seq<char>> {
    match o {
        Some(s) => Some(s@),
        None => None,
    }
}

/// Both placeholder markers.
pub open spec fn has_placeholder(v: Seq<char>) -> bool {
    contains(v, "${"@) || contains(v, "@DESCRIPTION@"@)
}

pub open spec fn subst_name(v: Seq<char>, name: Option<Seq<char>>) -> Seq<char> {
    match name {
        Some(n) => replace_all(replace_all(v, "${name}"@, n), "${project.name}"@, n),
        None => v,
    }
}

pub open spec fn subst_version(v: Seq<char>, version: Option<Seq<char>>) -> Seq<char> {
    match version {
        Some(n) => replace_all(replace_all(v, "${version}"@, n), "${project.version}"@, n),
        None => v,
    }
}

pub open spec fn subst_description(v: Seq<char>, desc: Option<Seq<char>>) -> Seq<char> {
    match desc {
        Some(d) => replace_all(
            replace_all(replace_all(v, "${description}"@, d), "${project.description}"@, d),
            "@DESCRIPTION@"@,
            d,
        ),
        None => v,
    }
}

/// A manifest string with its placeholders substituted from the project
/// context; absent when any placeholder is left unresolved.
pub open spec fn template_value(
    v: Seq<char>,
    name: Option<Seq<char>>,
    version: Option<Seq<char>>,
    desc: Option<Seq<char>>,
) -> Option<Seq<char>> {
    if !has_placeholder(v) {
        Some(v)
    } else {
        let r = subst_description(subst_version(subst_name(v, name), version), desc);
        if has_placeholder(r) {
            None
        } else {
            Some(r)
        }
    }
}

pub open spec fn resolve_template_spec(
    v: Option<Seq<char>>,
    name: Option<Seq<char>>,
    version: Option<Seq<char>>,
    desc: Option<Seq<char>>,
) -> Option<Seq<char>> {
    match v {
        Some(v) => template_value(v, name, version, desc),
        None => None,
    }
}

fn has_placeholder_exec(v: &[char]) -> (r: bool)
    ensures
        r == has_placeholder(v@),
{
    let open = chars_of("${");
    let legacy = chars_of("@DESCRIPTION@");
    contains_exec(v, open.as_slice()) || contains_exec(v, legacy.as_slice())
}

fn substitute(v: Vec<char>, pat: &str, value: &[char]) -> (r: Vec<char>)
    ensures
        r@ == replace_all(v@, pat@, value@),
{
    let p = chars_of(pat);
    replace_all_exec(v.as_slice(), p.as_slice(), value)
}

/// Substitutes the placeholders of a manifest string; `None` when one stays
/// unresolved.
pub fn resolve_template(
    value: Option<&str>,
    name: Option<&str>,
    version: Option<&str>,
    description: Option<&str>,
) -> (r: Option<String>)
    ensures
        opt_string(r) == resolve_template_spec(
            opt_str(value),
            opt_str(name),
            opt_str(version),
            opt_str(description),
        ),
{
    let v = match value {
        Some(v) => v,
        None => return None,
    };
    let mut result = chars_of(v);
    if !has_placeholder_exec(result.as_slice()) {
        return Some(string_of(result.as_slice()));
    }
    if let Some(n) = name {
        let nc = chars_of(n);
        result = substitute(result, "${name}", nc.as_slice());
        result = substitute(result, "${project.name}", nc.as_slice());
    }
    if let Some(n) = version {
        let nc = chars_of(n);
        result = substitute(result, "${version}", nc.as_slice());
        result = substitute(result, "${project.version}", nc.as_slice());
    }
    if let Some(d) = description {
        let dc = chars_of(d);
        result = substitute(result, "${description}", dc.as_slice());
        result = substitute(result, "${project.description}", dc.as_slice());
        result = substitute(result, "@DESCRIPTION@", dc.as_slice());
    }
    if has_placeholder_exec(result.as_slice()) {
        None
    } else {
        Some(string_of(result.as_slice()))
    }
}

pub open spec fn dependency_from_json(d: PluginJsonDependency, g: GradleDependency) -> bool {
    &&& g.name@ == d.name@
    &&& opt_string(g.version) == opt_string(d.version)
    &&& g.optional == d.optional
}

impl PluginJson {
    /// The manifest block that this companion manifest stands for, with the
    /// placeholders of its name, version, description and website resolved
    /// from the project context.
    pub fn into_plugin_dsl(
        self,
        project_name: Option<&str>,
        project_version: Option<&str>,
        project_description: Option<&str>,
    ) -> (r: PluginDsl)
        ensures
            opt_string(r.entrance) == opt_string(self.entrance),
            opt_string(r.name) == resolve_template_spec(
                opt_string(self.name),
                opt_str(project_name),
                opt_str(project_version),
                opt_str(project_description),
            ),
            opt_string(r.version) == resolve_template_spec(
                opt_string(self.version),
                opt_str(project_name),
                opt_str(project_version),
                opt_str(project_description),
            ),
            opt_string(r.description) == resolve_template_spec(
                opt_string(self.description),
                opt_str(project_name),
                opt_str(project_version),
                opt_str(project_description),
            ),
            opt_string(r.website) == resolve_template_spec(
                opt_string(self.website),
                opt_str(project_name),
                opt_str(project_version),
                opt_str(project_description),
            ),
            r.authors@ == self.authors@,
            opt_string(r.api_version) == opt_string(self.api_version),
            r.dependencies@.len() == self.dependencies@.len(),
            forall|i: int|
                0 <= i < r.dependencies@.len() ==> dependency_from_json(
                    #[trigger] self.dependencies@[i],
                    r.dependencies@[i],
                ),
    {
        let name = resolve_template(
            as_str_opt(&self.name),
            project_name,
            project_version,
            project_description,
        );
        let version = resolve_template(
            as_str_opt(&self.version),
            project_name,
            project_version,
            project_description,
        );
        let description = resolve_template(
            as_str_opt(&self.description),
            project_name,
            project_version,
            project_description,
        );
        let website = resolve_template(
            as_str_opt(&self.website),
            project_name,
            project_version,
            project_description,
        );
        let mut dependencies: Vec<GradleDependency> = Vec::new();
        let mut i: usize = 0;
        while i < self.dependencies.len()
            invariant
                i <= self.dependencies@.len(),
                dependencies@.len() == i,
                forall|j: int|
                    0 <= j < i ==> dependency_from_json(
                        #[trigger] self.dependencies@[j],
                        dependencies@[j],
                    ),
            decreases self.dependencies@.len() - i,
        {
            let d = &self.dependencies[i];
            dependencies.push(
                GradleDependency {
                    name: d.name.clone(),
                    version: clone_opt(&d.version),
                    optional: d.optional,
                },
            );
            i = i + 1;
        }
        PluginDsl {
            entrance: self.entrance,
            name,
            version,
            authors: self.authors,
            description,
            website,
            api_version: self.api_version,
            dependencies,
        }
    }
}

pub fn as_str_opt(o: &Option<String>) -> (r: Option<&str>)
    ensures
        opt_str(r) == opt_string(*o),
{
    match o {
        Some(s) => Some(s.as_str()),
        None => None,
    }
}

pub fn clone_opt(o: &Option<String>) -> (r: Option<String>)
    ensures
        opt_string(r) == opt_string(*o),
{
    match o {
        Some(s) => Some(s.clone()),
        None => None,
    }
}

impl From<PluginJson> for PluginDsl {
    fn from(json: PluginJson) -> (r: PluginDsl) {
        json.into_plugin_dsl(None, None, None)
    }
}

impl vstd::std_specs::convert::FromSpecImpl<PluginJson> for PluginDsl {
    open spec fn obeys_from_spec() -> bool {
        false
    }

    open spec fn from_spec(v: PluginJson) -> PluginDsl {
        arbitrary()
    }
}

proof fn lemma_absent(s: Seq<char>, p: Seq<char>, j: int)
    requires
        p.len() > 0,
        0 <= j < p.len(),
        forall|i: int| 1 <= i < s.len() ==> s[i] != p[0],
        p.len() <= s.len() ==> s[j] != p[j],
    ensures
        !contains(s, p),
{
    if contains(s, p) {
        let i = choose|i: int| occurs_at(s, p, i);
        assert(s.subrange(i, i + p.len())[0] == s[i]);
        if i == 0 {
            assert(s.subrange(0, p.len() as int)[j] == s[j]);
        }
    }
}

proof fn lemma_replace_whole(p: Seq<char>, r: Seq<char>)
    requires
        p.len() > 0,
    ensures
        replace_all(p, p, r) == r,
{
    assert(p.subrange(0, p.len() as int) =~= p);
    let e = p.subrange(p.len() as int, p.len() as int);
    assert(e =~= Seq::<char>::empty());
    assert(replace_all(e, p, r) == e);
    assert(r + e =~= r);
}

proof fn lemma_contains_prefix(s: Seq<char>, q: Seq<char>, pre: Seq<char>)
    requires
        contains(s, q),
        starts_with(q, pre),
    ensures
        contains(s, pre),
{
    let i = choose|i: int| occurs_at(s, q, i);
    assert(s.subrange(i, i + pre.len()) =~= q.subrange(0, pre.len() as int));
    assert(occurs_at(s, pre, i));
}

/// The placeholder `${project.version}` resolves to the project version
/// when one is given, and the field to nothing otherwise.
pub proof fn project_version_placeholder(
    name: Option<Seq<char>>,
    version: Option<Seq<char>>,
    description: Option<Seq<char>>,
)
    requires
        version is Some ==> !has_placeholder(version->0),
    ensures
        template_value("${project.version}"@, name, version, description) == version,
{
    let lit = "${project.version}"@;
    reveal_strlit("${project.version}");
    reveal_strlit("${");
    reveal_strlit("${name}");
    reveal_strlit("${project.name}");
    reveal_strlit("${version}");
    reveal_strlit("${description}");
    reveal_strlit("${project.description}");
    reveal_strlit("@DESCRIPTION@");
    assert(lit.subrange(0, 2) =~= "${"@);
    assert(occurs_at(lit, "${"@, 0));
    assert(has_placeholder(lit));
    assert(forall|i: int| 1 <= i < lit.len() ==> lit[i] != '$');
    assert(forall|i: int| 0 <= i < lit.len() ==> lit[i] != '@');
    lemma_absent(lit, "${name}"@, 2);
    lemma_absent(lit, "${project.name}"@, 10);
    lemma_absent(lit, "${version}"@, 2);
    lemma_absent(lit, "${description}"@, 2);
    lemma_absent(lit, "${project.description}"@, 0);
    lemma_absent(lit, "@DESCRIPTION@"@, 0);
    if let Some(n) = name {
        lemma_replace_absent(lit, "${name}"@, n);
        lemma_replace_absent(lit, "${project.name}"@, n);
    }
    assert(subst_name(lit, name) == lit);
    match version {
        Some(v) => {
            lemma_replace_absent(lit, "${version}"@, v);
            lemma_replace_whole(lit, v);
            assert(subst_version(lit, version) == v);
            if let Some(d) = description {
                assert(!contains(v, "${description}"@)) by {
                    if contains(v, "${description}"@) {
                        assert("${description}"@.subrange(0, 2) =~= "${"@);
                        lemma_contains_prefix(v, "${description}"@, "${"@);
                    }
                }
                assert(!contains(v, "${project.description}"@)) by {
                    if contains(v, "${project.description}"@) {
                        assert("${project.description}"@.subrange(0, 2) =~= "${"@);
                        lemma_contains_prefix(v, "${project.description}"@, "${"@);
                    }
                }
                lemma_replace_absent(v, "${description}"@, d);
                lemma_replace_absent(v, "${project.description}"@, d);
                lemma_replace_absent(v, "@DESCRIPTION@"@, d);
            }
            assert(subst_description(v, description) == v);
        },
        None => {
            if let Some(d) = description {
                lemma_replace_absent(lit, "${description}"@, d);
                lemma_replace_absent(lit, "${project.description}"@, d);
                lemma_replace_absent(lit, "@DESCRIPTION@"@, d);
            }
            assert(subst_description(lit, description) == lit);
        },
    }
}

} // verus!

