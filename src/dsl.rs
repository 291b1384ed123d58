//! Grammar-agnostic extraction of the platform dependency and the nested
//! manifest from a build script.
//!
//! A grammar front-end walks the parsed script and reports it as a flat list
//! of statements: assignments (`k = v` and juxtaposed `k v` alike), list
//! appends (`k += items`), calls with their arguments, and the opening and
//! closing of call blocks. Everything that follows is independent of the
//! surface syntax.
use vstd::prelude::*;
use crate::gradle::{AllayDsl, GradleDependency, PluginDsl, VersionRef, opt_string};
use crate::text::{
    chars_of, contains, last_index_of, last_index_of_exec, lower_of, lowercase, same_text,
    slice_from, slice_range, split_exec, split_on, starts_with, str_contains, str_starts_with,
    string_of, views,
};

verus! {

/// One argument of a call.
#[derive(Debug, Clone)]
pub enum CallArg {
    /// A bare value: a string, number or boolean.
    Positional(String),
    /// `name = value` or `name: value`.
    Named(String, String),
    /// An unresolved dotted reference.
    PositionalRef(String),
}

/// What a dependency declaration says of the platform.
#[derive(Debug, Clone)]
pub enum AllayDepInfo {
    Api(VersionRef),
    Server(VersionRef),
    Unknown,
}

/// One statement of a build script as a grammar front-end reports it.
#[derive(Debug, Clone)]
pub enum Stmt {
    /// The left-hand path, the scalar value when the right side is one, and
    /// the string items when it is a list or a single string.
    Assign(String, Option<String>, Vec<String>),
    /// `path += items`.
    Append(String, Vec<String>),
    /// A call by its callee path, with its arguments.
    Call(String, Vec<CallArg>),
    /// The opening of the block of a call with this callee path.
    Open(String),
    /// The end of the innermost open block.
    Close,
}

pub enum RefView {
    Absent,
    Literal(Seq<char>),
    Catalog(Seq<char>),
    Variable(Seq<char>),
}

pub open spec fn ref_view(r: VersionRef) -> RefView {
    match r {
        VersionRef::Absent => RefView::Absent,
        VersionRef::Literal(v) => RefView::Literal(v@),
        VersionRef::VersionCatalog(p) => RefView::Catalog(p@),
        VersionRef::Variable(p) => RefView::Variable(p@),
    }
}

pub enum InfoView {
    Api(RefView),
    Server(RefView),
    Unknown,
}

pub open spec fn info_view(i: AllayDepInfo) -> InfoView {
    match i {
        AllayDepInfo::Api(r) => InfoView::Api(ref_view(r)),
        AllayDepInfo::Server(r) => InfoView::Server(ref_view(r)),
        AllayDepInfo::Unknown => InfoView::Unknown,
    }
}

pub enum ArgView {
    Positional(Seq<char>),
    Named(Seq<char>, Seq<char>),
    Ref(Seq<char>),
}

pub open spec fn arg_view(a: CallArg) -> ArgView {
    match a {
        CallArg::Positional(v) => ArgView::Positional(v@),
        CallArg::Named(k, v) => ArgView::Named(k@, v@),
        CallArg::PositionalRef(p) => ArgView::Ref(p@),
    }
}

pub open spec fn args_view(args: Seq<CallArg>) -> Seq<ArgView> {
    args.map_values(|a: CallArg| arg_view(a))
}

pub struct DepView {
    pub name: Seq<char>,
    pub version: Option<Seq<char>>,
    pub optional: bool,
}

pub open spec fn dep_view(d: GradleDependency) -> DepView {
    DepView { name: d.name@, version: opt_string(d.version), optional: d.optional }
}

pub struct PluginView {
    pub entrance: Option<Seq<char>>,
    pub name: Option<Seq<char>>,
    pub version: Option<Seq<char>>,
    pub authors: Seq<Seq<char>>,
    pub description: Option<Seq<char>>,
    pub website: Option<Seq<char>>,
    pub api_version: Option<Seq<char>>,
    pub dependencies: Seq<DepView>,
}

pub open spec fn strings_view(v: Seq<String>) -> Seq<Seq<char>> {
    v.map_values(|s: String| s@)
}

pub open spec fn plugin_view(p: PluginDsl) -> PluginView {
    PluginView {
        entrance: opt_string(p.entrance),
        name: opt_string(p.name),
        version: opt_string(p.version),
        authors: strings_view(p.authors@),
        description: opt_string(p.description),
        website: opt_string(p.website),
        api_version: opt_string(p.api_version),
        dependencies: p.dependencies@.map_values(|d: GradleDependency| dep_view(d)),
    }
}

pub open spec fn empty_plugin() -> PluginView {
    PluginView {
        entrance: None,
        name: None,
        version: None,
        authors: Seq::empty(),
        description: None,
        website: None,
        api_version: None,
        dependencies: Seq::empty(),
    }
}

pub struct DslView {
    pub api: Option<Seq<char>>,
    pub api_only: Option<bool>,
    pub server: Option<Seq<char>>,
    pub plugin: Option<PluginView>,
    pub has_dependency: bool,
    pub api_ref: RefView,
    pub server_ref: RefView,
    pub project_name: Option<Seq<char>>,
    pub project_version: Option<Seq<char>>,
    pub project_description: Option<Seq<char>>,
}

pub open spec fn dsl_view(d: AllayDsl) -> DslView {
    DslView {
        api: opt_string(d.api),
        api_only: d.api_only,
        server: opt_string(d.server),
        plugin: match d.plugin {
            Some(p) => Some(plugin_view(p)),
            None => None,
        },
        has_dependency: d.has_allay_dependency,
        api_ref: ref_view(d.api_version_ref),
        server_ref: ref_view(d.server_version_ref),
        project_name: opt_string(d.project_name),
        project_version: opt_string(d.project_version),
        project_description: opt_string(d.project_description),
    }
}

pub open spec fn empty_dsl() -> DslView {
    DslView {
        api: None,
        api_only: None,
        server: None,
        plugin: None,
        has_dependency: false,
        api_ref: RefView::Absent,
        server_ref: RefView::Absent,
        project_name: None,
        project_version: None,
        project_description: None,
    }
}

// ---------------------------------------------------------------------------
// String literals

/// Standard escapes resolved; an unknown escape keeps its backslash, and a
/// trailing lone backslash stays.
pub open spec fn unescaped(s: Seq<char>) -> Seq<char>
    decreases s.len(),
{
    if s.len() == 0 {
        Seq::empty()
    } else if s[0] == '\\' && s.len() == 1 {
        seq!['\\']
    } else if s[0] == '\\' {
        let c = s[1];
        let out = if c == 'n' {
            seq!['\n']
        } else if c == 't' {
            seq!['\t']
        } else if c == 'r' {
            seq!['\r']
        } else if c == '"' {
            seq!['"']
        } else if c == '\\' {
            seq!['\\']
        } else {
            seq!['\\', c]
        };
        out + unescaped(s.subrange(2, s.len() as int))
    } else {
        seq![s[0]] + unescaped(s.subrange(1, s.len() as int))
    }
}

pub fn unescape(s: &str) -> (r: String)
    ensures
        r@ == unescaped(s@),
{
    let c = chars_of(s);
    let mut out: Vec<char> = Vec::new();
    let mut i: usize = 0;
    assert(c@.subrange(0, c@.len() as int) =~= c@);
    while i < c.len()
        invariant
            i <= c@.len(),
            c@ == s@,
            out@ + unescaped(c@.subrange(i as int, c@.len() as int)) == unescaped(s@),
        decreases c@.len() - i,
    {
        let ghost rest = c@.subrange(i as int, c@.len() as int);
        let ghost out0 = out@;
        if c[i] == '\\' {
            if i + 1 == c.len() {
                out.push('\\');
                assert(out@ + unescaped(c@.subrange(i + 1, c@.len() as int)) =~= out0 + unescaped(rest));
                i = i + 1;
            } else {
                let n = c[i + 1];
                if n == 'n' {
                    out.push('\n');
                } else if n == 't' {
                    out.push('\t');
                } else if n == 'r' {
                    out.push('\r');
                } else if n == '"' {
                    out.push('"');
                } else if n == '\\' {
                    out.push('\\');
                } else {
                    out.push('\\');
                    out.push(n);
                }
                assert(rest.subrange(2, rest.len() as int) =~= c@.subrange(i + 2, c@.len() as int));
                assert(out@ + unescaped(c@.subrange(i + 2, c@.len() as int)) =~= out0 + unescaped(rest));
                i = i + 2;
            }
        } else {
            out.push(c[i]);
            assert(rest.subrange(1, rest.len() as int) =~= c@.subrange(i + 1, c@.len() as int));
            assert(out@ + unescaped(c@.subrange(i + 1, c@.len() as int)) =~= out0 + unescaped(rest));
            i = i + 1;
        }
    }
    assert(out@ + unescaped(c@.subrange(i as int, c@.len() as int)) =~= out@);
    string_of(out.as_slice())
}

/// The value of a double-quoted literal: a triple-quoted block as it
/// stands, a one-line string with its escapes resolved.
pub open spec fn double_quoted(t: Seq<char>) -> Option<Seq<char>> {
    if starts_with(t, "\"\"\""@) && crate::text::ends_with(t, "\"\"\""@) && t.len() >= 6 {
        Some(t.subrange(3, t.len() - 3))
    } else if t.len() >= 2 && t[0] == '"' && t.last() == '"' {
        Some(unescaped(t.subrange(1, t.len() - 1)))
    } else {
        None
    }
}

/// The value of a single-quoted literal, taken as it stands.
pub open spec fn single_quoted(t: Seq<char>) -> Option<Seq<char>> {
    if starts_with(t, "'''"@) && crate::text::ends_with(t, "'''"@) && t.len() >= 6 {
        Some(t.subrange(3, t.len() - 3))
    } else if t.len() >= 2 && t[0] == '\'' && t.last() == '\'' {
        Some(t.subrange(1, t.len() - 1))
    } else {
        None
    }
}

pub fn strip_double_quotes(text: &str) -> (r: Option<String>)
    ensures
        opt_string(r) == double_quoted(text@),
{
    let t = chars_of(text);
    let n = t.len();
    let triple = chars_of("\"\"\"");
    if crate::text::starts_with_exec(t.as_slice(), triple.as_slice()) && crate::text::ends_with_exec(
        t.as_slice(),
        triple.as_slice(),
    ) && n >= 6 {
        let inner = slice_range(t.as_slice(), 3, n - 3);
        return Some(string_of(inner.as_slice()));
    }
    if n >= 2 && t[0] == '"' && t[n - 1] == '"' {
        let inner = slice_range(t.as_slice(), 1, n - 1);
        let inner_text = string_of(inner.as_slice());
        return Some(unescape(inner_text.as_str()));
    }
    None
}

pub fn strip_single_quotes(text: &str) -> (r: Option<String>)
    ensures
        opt_string(r) == single_quoted(text@),
{
    let t = chars_of(text);
    let n = t.len();
    let triple = chars_of("'''");
    if crate::text::starts_with_exec(t.as_slice(), triple.as_slice()) && crate::text::ends_with_exec(
        t.as_slice(),
        triple.as_slice(),
    ) && n >= 6 {
        let inner = slice_range(t.as_slice(), 3, n - 3);
        return Some(string_of(inner.as_slice()));
    }
    if n >= 2 && t[0] == '\'' && t[n - 1] == '\'' {
        let inner = slice_range(t.as_slice(), 1, n - 1);
        return Some(string_of(inner.as_slice()));
    }
    None
}

/// The value of a string literal in either quote style.
pub open spec fn literal_value(t: Seq<char>) -> Option<Seq<char>> {
    if t.len() > 0 && t[0] == '\'' {
        single_quoted(t)
    } else {
        double_quoted(t)
    }
}

pub fn string_literal_value(text: &str) -> (r: Option<String>)
    ensures
        opt_string(r) == literal_value(text@),
{
    let t = chars_of(text);
    if t.len() > 0 && t[0] == '\'' {
        strip_single_quotes(text)
    } else {
        strip_double_quotes(text)
    }
}

/// The name an assignment sets: its left-hand path without the closure
/// delegate qualifier `it.`.
pub open spec fn assignment_key(path: Seq<char>) -> Seq<char> {
    if starts_with(path, "it."@) {
        path.subrange(3, path.len() as int)
    } else {
        path
    }
}

pub fn assignment_key_exec(path: &str) -> (r: String)
    ensures
        r@ == assignment_key(path@),
{
    let p = chars_of(path);
    let it = chars_of("it.");
    proof {
        reveal_strlit("it.");
    }
    if crate::text::starts_with_exec(p.as_slice(), it.as_slice()) {
        let rest = slice_from(p.as_slice(), 3);
        string_of(rest.as_slice())
    } else {
        String::from_str(path)
    }
}

/// The name a call is known by: the last segment of its callee path.
pub open spec fn call_name(path: Seq<char>) -> Seq<char> {
    path.subrange(last_index_of(path, '.') + 1, path.len() as int)
}

pub fn call_name_exec(path: &str) -> (r: String)
    ensures
        r@ == call_name(path@),
{
    let p = chars_of(path);
    let n = p.len();
    let start = match last_index_of_exec(p.as_slice(), '.') {
        Some(k) => k + 1,
        None => 0,
    };
    let rest = slice_from(p.as_slice(), start);
    string_of(rest.as_slice())
}

// ---------------------------------------------------------------------------
// Dependency declarations

/// The dependency configurations that can declare the platform.
pub open spec fn is_dependency_config(name: Seq<char>) -> bool {
    name == "compileOnly"@ || name == "compileOnlyApi"@ || name == "implementation"@ || name == "api"@
}

pub open spec fn is_artifact(a: Seq<char>) -> bool {
    a == "api"@ || a == "server"@
}

/// A version-catalog reference to the platform, judged on its lower-cased
/// path.
pub open spec fn catalog_mention(lowered: Seq<char>) -> bool {
    contains(lowered, "libs"@) && contains(lowered, "allay"@)
}

/// The first reference argument that is a version-catalog reference to the
/// platform.
pub open spec fn catalog_arg(args: Seq<ArgView>) -> Option<Seq<char>>
    decreases args.len(),
{
    if args.len() == 0 {
        None
    } else {
        match args[0] {
            ArgView::Ref(p) if catalog_mention(lower_of(p)) => Some(p),
            _ => catalog_arg(args.subrange(1, args.len() as int)),
        }
    }
}

/// What the arguments of a dependency declaration have said so far.
pub struct ScanView {
    pub has_group: bool,
    pub artifact: Option<Seq<char>>,
    pub version: Option<Seq<char>>,
    pub version_var: Option<Seq<char>>,
    pub positional: Seq<Seq<char>>,
}

pub open spec fn coordinate_prefix() -> Seq<char> {
    "org.allaymc.allay:"@
}

/// The arguments read left to right.
pub open spec fn scan_args(args: Seq<ArgView>) -> ScanView
    decreases args.len(),
{
    if args.len() == 0 {
        ScanView { has_group: false, artifact: None, version: None, version_var: None, positional: Seq::empty() }
    } else {
        let s = scan_args(args.drop_last());
        match args.last() {
            ArgView::Named(k, v) => ScanView {
                has_group: s.has_group || (k == "group"@ && v == "org.allaymc.allay"@),
                artifact: if k == "name"@ && is_artifact(v) {
                    Some(v)
                } else {
                    s.artifact
                },
                version: if k == "version"@ {
                    Some(v)
                } else {
                    s.version
                },
                ..s
            },
            ArgView::Positional(v) => if starts_with(v, coordinate_prefix()) {
                let parts = split_on(v, ':');
                if parts.len() >= 2 && is_artifact(parts[1]) {
                    ScanView {
                        has_group: true,
                        artifact: Some(parts[1]),
                        version: if parts.len() >= 3 {
                            Some(parts[2])
                        } else {
                            s.version
                        },
                        ..s
                    }
                } else {
                    s
                }
            } else {
                ScanView { positional: s.positional.push(v), ..s }
            },
            ArgView::Ref(p) => ScanView { version_var: Some(p), ..s },
        }
    }
}

/// The scan completed by the positional `group, artifact, version` form.
pub open spec fn settle_scan(s: ScanView) -> ScanView {
    if !s.has_group && s.positional.len() >= 2 && s.positional[0] == "org.allaymc.allay"@ {
        ScanView {
            has_group: true,
            artifact: if is_artifact(s.positional[1]) {
                Some(s.positional[1])
            } else {
                s.artifact
            },
            version: if s.positional.len() >= 3 {
                Some(s.positional[2])
            } else {
                s.version
            },
            ..s
        }
    } else {
        s
    }
}

/// What a call declares of the platform dependency, if anything.
pub open spec fn dependency_info(name: Seq<char>, args: Seq<ArgView>) -> Option<InfoView> {
    if !is_dependency_config(name) {
        None
    } else if catalog_arg(args) is Some {
        let p = catalog_arg(args)->0;
        if contains(lower_of(p), "server"@) {
            Some(InfoView::Server(RefView::Catalog(p)))
        } else {
            Some(InfoView::Api(RefView::Catalog(p)))
        }
    } else {
        let s = settle_scan(scan_args(args));
        if !s.has_group {
            None
        } else {
            let r = if s.version is Some {
                RefView::Literal(s.version->0)
            } else if s.version_var is Some {
                RefView::Variable(s.version_var->0)
            } else {
                RefView::Absent
            };
            if s.artifact == Some("api"@) {
                Some(InfoView::Api(r))
            } else if s.artifact == Some("server"@) {
                Some(InfoView::Server(r))
            } else {
                Some(InfoView::Unknown)
            }
        }
    }
}

fn is_artifact_exec(a: &str) -> (r: bool)
    ensures
        r == is_artifact(a@),
{
    same_text(a, "api") || same_text(a, "server")
}

fn find_catalog_arg(args: &[CallArg]) -> (r: Option<String>)
    ensures
        opt_string(r) == catalog_arg(args_view(args@)),
{
    let mut i: usize = 0;
    let ghost av = args_view(args@);
    assert(av.subrange(0, av.len() as int) =~= av);
    while i < args.len()
        invariant
            i <= args@.len(),
            av == args_view(args@),
            catalog_arg(av.subrange(i as int, av.len() as int)) == catalog_arg(av),
        decreases args@.len() - i,
    {
        assert(av.subrange(i as int, av.len() as int)[0] == arg_view(args@[i as int]));
        if let CallArg::PositionalRef(p) = &args[i] {
            let lower = lowercase(p.as_str());
            if str_contains(lower.as_str(), "libs") && str_contains(lower.as_str(), "allay") {
                return Some(p.clone());
            }
        }
        assert(av.subrange(i as int, av.len() as int).subrange(1, av.len() - i) =~= av.subrange(i + 1, av.len() as int));
        i = i + 1;
    }
    None
}

pub open spec fn scan_matches(s: ScanView, has_group: bool, artifact: Option<String>, version: Option<String>, var: Option<String>, positional: Seq<String>) -> bool {
    &&& s.has_group == has_group
    &&& s.artifact == opt_string(artifact)
    &&& s.version == opt_string(version)
    &&& s.version_var == opt_string(var)
    &&& s.positional == strings_view(positional)
}

/// Reads what a call declares of the platform dependency.
pub fn classify_dependency(name: &str, args: &[CallArg]) -> (r: Option<AllayDepInfo>)
    ensures
        match r {
            Some(i) => dependency_info(name@, args_view(args@)) == Some(info_view(i)),
            None => dependency_info(name@, args_view(args@)) is None,
        },
{
    if !(same_text(name, "compileOnly") || same_text(name, "compileOnlyApi") || same_text(name, "implementation")
        || same_text(name, "api")) {
        return None;
    }
    if let Some(p) = find_catalog_arg(args) {
        let lower = lowercase(p.as_str());
        if str_contains(lower.as_str(), "server") {
            return Some(AllayDepInfo::Server(VersionRef::VersionCatalog(p)));
        }
        return Some(AllayDepInfo::Api(VersionRef::VersionCatalog(p)));
    }
    let ghost av = args_view(args@);
    let mut has_group = false;
    let mut artifact: Option<String> = None;
    let mut version: Option<String> = None;
    let mut var: Option<String> = None;
    let mut positional: Vec<String> = Vec::new();
    let mut i: usize = 0;
    proof {
        reveal_strlit("org.allaymc.allay:");
    }
    assert(strings_view(positional@) =~= Seq::<Seq<char>>::empty());
    assert(av.subrange(0, 0) =~= Seq::<ArgView>::empty());
    while i < args.len()
        invariant
            i <= args@.len(),
            av == args_view(args@),
            scan_matches(scan_args(av.subrange(0, i as int)), has_group, artifact, version, var, positional@),
        decreases args@.len() - i,
    {
        let ghost pre = av.subrange(0, i + 1);
        assert(pre.drop_last() =~= av.subrange(0, i as int));
        assert(pre.last() == arg_view(args@[i as int]));
        match &args[i] {
            CallArg::Named(k, v) => {
                if same_text(k.as_str(), "group") && same_text(v.as_str(), "org.allaymc.allay") {
                    has_group = true;
                }
                if same_text(k.as_str(), "name") && is_artifact_exec(v.as_str()) {
                    artifact = Some(v.clone());
                }
                if same_text(k.as_str(), "version") {
                    version = Some(v.clone());
                }
            },
            CallArg::Positional(v) => {
                if str_starts_with(v.as_str(), "org.allaymc.allay:") {
                    let vc = chars_of(v.as_str());
                    let parts = split_exec(vc.as_slice(), ':');
                    assert(views(parts@) == split_on(v@, ':'));
                    if parts.len() >= 2 {
                        let art = string_of(parts[1].as_slice());
                        assert(art@ == split_on(v@, ':')[1]);
                        if is_artifact_exec(art.as_str()) {
                            has_group = true;
                            artifact = Some(art);
                            if parts.len() >= 3 {
                                let ver = string_of(parts[2].as_slice());
                                assert(ver@ == split_on(v@, ':')[2]);
                                version = Some(ver);
                            }
                        }
                    }
                } else {
                    let ghost before = positional@;
                    positional.push(v.clone());
                    assert(strings_view(positional@) =~= strings_view(before).push(v@));
                }
            },
            CallArg::PositionalRef(p) => {
                var = Some(p.clone());
            },
        }
        i = i + 1;
    }
    assert(av.subrange(0, args@.len() as int) =~= av);
    if !has_group && positional.len() >= 2 && same_text(positional[0].as_str(), "org.allaymc.allay") {
        assert(strings_view(positional@)[0] == positional@[0]@);
        assert(strings_view(positional@)[1] == positional@[1]@);
        has_group = true;
        if is_artifact_exec(positional[1].as_str()) {
            artifact = Some(positional[1].clone());
        }
        if positional.len() >= 3 {
            assert(strings_view(positional@)[2] == positional@[2]@);
            version = Some(positional[2].clone());
        }
    }
    if !has_group {
        return None;
    }
    let r = match version {
        Some(v) => VersionRef::Literal(v),
        None => match var {
            Some(p) => VersionRef::Variable(p),
            None => VersionRef::Absent,
        },
    };
    match artifact {
        Some(a) => {
            if same_text(a.as_str(), "api") {
                Some(AllayDepInfo::Api(r))
            } else if same_text(a.as_str(), "server") {
                Some(AllayDepInfo::Server(r))
            } else {
                Some(AllayDepInfo::Unknown)
            }
        },
        None => Some(AllayDepInfo::Unknown),
    }
}

/// A `dependency(...)` entry of a manifest: the first two positional values
/// are its name and version, named `name`, `version` and `optional` set
/// those; nothing when no name results.
pub open spec fn dependency_entry_scan(args: Seq<ArgView>) -> (DepView, nat)
    decreases args.len(),
{
    if args.len() == 0 {
        (DepView { name: Seq::empty(), version: None, optional: false }, 0)
    } else {
        let (d, k) = dependency_entry_scan(args.drop_last());
        match args.last() {
            ArgView::Positional(v) => if k == 0 {
                (DepView { name: v, ..d }, k + 1)
            } else if k == 1 {
                (DepView { version: Some(v), ..d }, k + 1)
            } else {
                (d, k + 1)
            },
            ArgView::Named(n, v) => if n == "name"@ {
                (DepView { name: v, ..d }, k)
            } else if n == "version"@ {
                (DepView { version: Some(v), ..d }, k)
            } else if n == "optional"@ {
                (DepView { optional: v == "true"@, ..d }, k)
            } else {
                (d, k)
            },
            ArgView::Ref(_) => (d, k + 1),
        }
    }
}

pub open spec fn dependency_entry(args: Seq<ArgView>) -> Option<DepView> {
    let d = dependency_entry_scan(args).0;
    if d.name.len() == 0 {
        None
    } else {
        Some(d)
    }
}

pub fn dependency_from_args(args: &[CallArg]) -> (r: Option<GradleDependency>)
    ensures
        match r {
            Some(d) => dependency_entry(args_view(args@)) == Some(dep_view(d)),
            None => dependency_entry(args_view(args@)) is None,
        },
{
    let ghost av = args_view(args@);
    let mut dep = GradleDependency::default();
    let mut k: usize = 0;
    let mut i: usize = 0;
    assert(dep.name@ =~= Seq::<char>::empty());
    assert(av.subrange(0, 0) =~= Seq::<ArgView>::empty());
    while i < args.len()
        invariant
            i <= args@.len(),
            av == args_view(args@),
            k <= i,
            dependency_entry_scan(av.subrange(0, i as int)) == (dep_view(dep), k as nat),
        decreases args@.len() - i,
    {
        let ghost pre = av.subrange(0, i + 1);
        assert(pre.drop_last() =~= av.subrange(0, i as int));
        assert(pre.last() == arg_view(args@[i as int]));
        match &args[i] {
            CallArg::Positional(v) => {
                if k == 0 {
                    dep.name = v.clone();
                } else if k == 1 {
                    dep.version = Some(v.clone());
                }
                k = k + 1;
            },
            CallArg::Named(n, v) => {
                if same_text(n.as_str(), "name") {
                    dep.name = v.clone();
                } else if same_text(n.as_str(), "version") {
                    dep.version = Some(v.clone());
                } else if same_text(n.as_str(), "optional") {
                    dep.optional = same_text(v.as_str(), "true");
                }
            },
            CallArg::PositionalRef(_) => {
                k = k + 1;
            },
        }
        i = i + 1;
    }
    assert(av.subrange(0, args@.len() as int) =~= av);
    let empty = chars_of(dep.name.as_str()).len() == 0;
    if empty {
        None
    } else {
        Some(dep)
    }
}

// ---------------------------------------------------------------------------
// The walk over a script's statements

/// The kind of block a statement stands in.
#[derive(Debug, Clone, Copy, PartialEq, Eq, Structural)]
pub enum Ctx {
    /// Script level, or the block of a call that means nothing here.
    Root,
    /// The platform block.
    Allay,
    /// The manifest block inside it.
    Plugin,
    /// A block nested in the manifest block (its dependency list).
    PluginInner,
    /// A block inside the platform block that means nothing here.
    Ignored,
}

pub enum StmtView {
    Assign(Seq<char>, Option<Seq<char>>, Seq<Seq<char>>),
    Append(Seq<char>, Seq<Seq<char>>),
    Call(Seq<char>, Seq<ArgView>),
    Open(Seq<char>),
    Close,
}

pub open spec fn stmt_view(s: Stmt) -> StmtView {
    match s {
        Stmt::Assign(k, v, l) => StmtView::Assign(k@, opt_string(v), strings_view(l@)),
        Stmt::Append(k, l) => StmtView::Append(k@, strings_view(l@)),
        Stmt::Call(p, a) => StmtView::Call(p@, args_view(a@)),
        Stmt::Open(p) => StmtView::Open(p@),
        Stmt::Close => StmtView::Close,
    }
}

pub struct StateView {
    pub dsl: DslView,
    pub plugin: PluginView,
    pub stack: Seq<Ctx>,
}

pub open spec fn top(stack: Seq<Ctx>) -> Ctx {
    if stack.len() == 0 {
        Ctx::Root
    } else {
        stack.last()
    }
}

/// A new platform block: the locally declared fields start over, the
/// extraction-wide ones stay.
pub open spec fn reentered(d: DslView) -> DslView {
    DslView {
        has_dependency: d.has_dependency,
        api_ref: d.api_ref,
        server_ref: d.server_ref,
        project_name: d.project_name,
        project_version: d.project_version,
        project_description: d.project_description,
        ..empty_dsl()
    }
}

pub open spec fn ref_text(r: RefView) -> Seq<char> {
    match r {
        RefView::Literal(v) => v,
        _ => Seq::empty(),
    }
}

pub open spec fn with_info(d: DslView, info: InfoView) -> DslView {
    match info {
        InfoView::Api(r) => DslView { has_dependency: true, api: Some(ref_text(r)), api_ref: r, ..d },
        InfoView::Server(r) => DslView {
            has_dependency: true,
            api_only: Some(false),
            server: Some(ref_text(r)),
            server_ref: r,
            ..d
        },
        InfoView::Unknown => DslView { has_dependency: true, ..d },
    }
}

pub open spec fn bool_value(v: Seq<char>) -> Option<bool> {
    if v == "true"@ {
        Some(true)
    } else if v == "false"@ {
        Some(false)
    } else {
        None
    }
}

pub open spec fn root_assign(d: DslView, path: Seq<char>, val: Option<Seq<char>>) -> DslView {
    match val {
        Some(v) => if path == "version"@ {
            DslView { project_version: Some(v), ..d }
        } else if path == "description"@ {
            DslView { project_description: Some(v), ..d }
        } else if path == "rootProject.name"@ {
            DslView { project_name: Some(v), ..d }
        } else {
            d
        },
        None => d,
    }
}

pub open spec fn allay_assign(d: DslView, key: Seq<char>, val: Option<Seq<char>>) -> DslView {
    match val {
        Some(v) => if key == "api"@ {
            DslView { api: Some(v), ..d }
        } else if key == "apiOnly"@ {
            DslView { api_only: bool_value(v), ..d }
        } else if key == "server"@ {
            DslView { server: Some(v), ..d }
        } else {
            d
        },
        None => d,
    }
}

pub open spec fn plugin_scalar(p: PluginView, key: Seq<char>, v: Seq<char>) -> PluginView {
    if key == "entrance"@ {
        PluginView { entrance: Some(v), ..p }
    } else if key == "name"@ {
        PluginView { name: Some(v), ..p }
    } else if key == "version"@ {
        PluginView { version: Some(v), ..p }
    } else if key == "description"@ {
        PluginView { description: Some(v), ..p }
    } else if key == "website"@ {
        PluginView { website: Some(v), ..p }
    } else if key == "apiVersion"@ || key == "api"@ {
        PluginView { api_version: Some(v), ..p }
    } else {
        p
    }
}

pub open spec fn plugin_assign(p: PluginView, key: Seq<char>, val: Option<Seq<char>>, items: Seq<Seq<char>>) -> PluginView {
    let q = match val {
        Some(v) => plugin_scalar(p, key, v),
        None => p,
    };
    if key == "authors"@ && items.len() > 0 {
        PluginView { authors: q.authors + items, ..q }
    } else {
        q
    }
}

/// One statement applied to the extraction state.
pub open spec fn step(sv: StateView, st: StmtView) -> StateView {
    let c = top(sv.stack);
    match st {
        StmtView::Open(path) => if c == Ctx::Root && path == "allay"@ {
            StateView { dsl: reentered(sv.dsl), stack: sv.stack.push(Ctx::Allay), ..sv }
        } else if (c == Ctx::Root && path == "allay.plugin"@) || (c == Ctx::Allay && call_name(path) == "plugin"@) {
            StateView { plugin: empty_plugin(), stack: sv.stack.push(Ctx::Plugin), ..sv }
        } else if c == Ctx::Plugin || c == Ctx::PluginInner {
            StateView { stack: sv.stack.push(Ctx::PluginInner), ..sv }
        } else if c == Ctx::Root {
            StateView { stack: sv.stack.push(Ctx::Root), ..sv }
        } else {
            StateView { stack: sv.stack.push(Ctx::Ignored), ..sv }
        },
        StmtView::Close => if sv.stack.len() == 0 {
            sv
        } else if c == Ctx::Plugin {
            StateView {
                dsl: DslView { plugin: Some(sv.plugin), ..sv.dsl },
                plugin: empty_plugin(),
                stack: sv.stack.drop_last(),
            }
        } else {
            StateView { stack: sv.stack.drop_last(), ..sv }
        },
        StmtView::Assign(path, val, items) => if c == Ctx::Root {
            StateView { dsl: root_assign(sv.dsl, path, val), ..sv }
        } else if c == Ctx::Allay {
            StateView { dsl: allay_assign(sv.dsl, assignment_key(path), val), ..sv }
        } else if c == Ctx::Plugin {
            StateView { plugin: plugin_assign(sv.plugin, assignment_key(path), val, items), ..sv }
        } else {
            sv
        },
        StmtView::Append(path, items) => if c == Ctx::Plugin && assignment_key(path) == "authors"@ {
            StateView { plugin: PluginView { authors: sv.plugin.authors + items, ..sv.plugin }, ..sv }
        } else {
            sv
        },
        StmtView::Call(path, args) => if c == Ctx::Root {
            match dependency_info(call_name(path), args) {
                Some(i) => StateView { dsl: with_info(sv.dsl, i), ..sv },
                None => sv,
            }
        } else if (c == Ctx::Plugin || c == Ctx::PluginInner) && call_name(path) == "dependency"@ {
            match dependency_entry(args) {
                Some(d) => StateView {
                    plugin: PluginView { dependencies: sv.plugin.dependencies.push(d), ..sv.plugin },
                    ..sv
                },
                None => sv,
            }
        } else {
            sv
        },
    }
}

pub open spec fn initial() -> StateView {
    StateView { dsl: empty_dsl(), plugin: empty_plugin(), stack: Seq::empty() }
}

/// The statements applied in order.
pub open spec fn run(stmts: Seq<StmtView>) -> StateView
    decreases stmts.len(),
{
    if stmts.len() == 0 {
        initial()
    } else {
        step(run(stmts.drop_last()), stmts.last())
    }
}

/// A result only when the script declared the platform dependency, an API
/// version or a manifest.
pub open spec fn extraction_result(d: DslView) -> Option<DslView> {
    if d.api is Some || d.plugin is Some || d.has_dependency {
        Some(d)
    } else {
        None
    }
}

pub open spec fn stmts_view(stmts: Seq<Stmt>) -> Seq<StmtView> {
    stmts.map_values(|s: Stmt| stmt_view(s))
}

/// The state of a walk over a script's statements.
pub struct Extraction {
    pub dsl: AllayDsl,
    pub plugin: PluginDsl,
    pub stack: Vec<Ctx>,
}

pub open spec fn state_view(e: Extraction) -> StateView {
    StateView { dsl: dsl_view(e.dsl), plugin: plugin_view(e.plugin), stack: e.stack@ }
}

fn bool_value_exec(v: &str) -> (r: Option<bool>)
    ensures
        r == bool_value(v@),
{
    if same_text(v, "true") {
        Some(true)
    } else if same_text(v, "false") {
        Some(false)
    } else {
        None
    }
}

fn ref_text_exec(r: &VersionRef) -> (s: String)
    ensures
        s@ == ref_text(ref_view(*r)),
{
    match r {
        VersionRef::Literal(v) => v.clone(),
        _ => {
            let s = String::new();
            assert(s@ =~= Seq::<char>::empty());
            s
        },
    }
}

fn append_all(dst: &mut Vec<String>, items: &[String])
    ensures
        strings_view(final(dst)@) == strings_view(old(dst)@) + strings_view(items@),
{
    let mut j: usize = 0;
    while j < items.len()
        invariant
            j <= items@.len(),
            strings_view(dst@) == strings_view(old(dst)@) + strings_view(items@.subrange(0, j as int)),
        decreases items@.len() - j,
    {
        let ghost before = dst@;
        dst.push(items[j].clone());
        assert(strings_view(dst@) =~= strings_view(before).push(items@[j as int]@));
        assert(strings_view(items@.subrange(0, j + 1)) =~= strings_view(items@.subrange(0, j as int)).push(items@[j as int]@));
        j = j + 1;
    }
    assert(items@.subrange(0, items@.len() as int) =~= items@);
}

impl Extraction {
    pub fn new() -> (r: Self)
        ensures
            state_view(r) == initial(),
    {
        let r = Extraction { dsl: AllayDsl::default(), plugin: PluginDsl::default(), stack: Vec::new() };
        assert(strings_view(r.plugin.authors@) =~= Seq::<Seq<char>>::empty());
        assert(r.plugin.dependencies@.map_values(|d: GradleDependency| dep_view(d)) =~= Seq::<DepView>::empty());
        assert(r.stack@ =~= Seq::<Ctx>::empty());
        r
    }

    fn top_ctx(&self) -> (c: Ctx)
        ensures
            c == top(self.stack@),
    {
        if self.stack.len() == 0 {
            Ctx::Root
        } else {
            self.stack[self.stack.len() - 1]
        }
    }

    fn reset_plugin(&mut self)
        ensures
            plugin_view(final(self).plugin) == empty_plugin(),
            final(self).dsl == old(self).dsl,
            final(self).stack == old(self).stack,
    {
        self.plugin = PluginDsl::default();
        assert(strings_view(self.plugin.authors@) =~= Seq::<Seq<char>>::empty());
        assert(self.plugin.dependencies@.map_values(|d: GradleDependency| dep_view(d)) =~= Seq::<DepView>::empty());
    }

    fn reenter(&mut self)
        ensures
            dsl_view(final(self).dsl) == reentered(dsl_view(old(self).dsl)),
            final(self).plugin == old(self).plugin,
            final(self).stack == old(self).stack,
    {
        let mut d = AllayDsl::default();
        core::mem::swap(&mut d, &mut self.dsl);
        self.dsl = AllayDsl {
            api: None,
            api_only: None,
            server: None,
            plugin: None,
            has_allay_dependency: d.has_allay_dependency,
            api_version_ref: d.api_version_ref,
            server_version_ref: d.server_version_ref,
            project_name: d.project_name,
            project_version: d.project_version,
            project_description: d.project_description,
        };
    }

    fn apply_info(&mut self, info: AllayDepInfo)
        ensures
            dsl_view(final(self).dsl) == with_info(dsl_view(old(self).dsl), info_view(info)),
            final(self).plugin == old(self).plugin,
            final(self).stack == old(self).stack,
    {
        self.dsl.has_allay_dependency = true;
        match info {
            AllayDepInfo::Api(r) => {
                self.dsl.api = Some(ref_text_exec(&r));
                self.dsl.api_version_ref = r;
            },
            AllayDepInfo::Server(r) => {
                self.dsl.api_only = Some(false);
                self.dsl.server = Some(ref_text_exec(&r));
                self.dsl.server_version_ref = r;
            },
            AllayDepInfo::Unknown => {},
        }
    }

    fn plugin_scalar_exec(&mut self, key: &str, v: &String)
        ensures
            plugin_view(final(self).plugin) == plugin_scalar(plugin_view(old(self).plugin), key@, v@),
            final(self).dsl == old(self).dsl,
            final(self).stack == old(self).stack,
    {
        if same_text(key, "entrance") {
            self.plugin.entrance = Some(v.clone());
        } else if same_text(key, "name") {
            self.plugin.name = Some(v.clone());
        } else if same_text(key, "version") {
            self.plugin.version = Some(v.clone());
        } else if same_text(key, "description") {
            self.plugin.description = Some(v.clone());
        } else if same_text(key, "website") {
            self.plugin.website = Some(v.clone());
        } else if same_text(key, "apiVersion") || same_text(key, "api") {
            self.plugin.api_version = Some(v.clone());
        }
    }

    /// Applies one statement.
    pub fn step(&mut self, st: &Stmt)
        ensures
            state_view(*final(self)) == step(state_view(*old(self)), stmt_view(*st)),
    {
        let c = self.top_ctx();
        match st {
            Stmt::Open(path) => {
                if c == Ctx::Root && same_text(path.as_str(), "allay") {
                    self.reenter();
                    self.stack.push(Ctx::Allay);
                } else {
                    let name = call_name_exec(path.as_str());
                    if (c == Ctx::Root && same_text(path.as_str(), "allay.plugin")) || (c == Ctx::Allay
                        && same_text(name.as_str(), "plugin")) {
                        self.reset_plugin();
                        self.stack.push(Ctx::Plugin);
                    } else if c == Ctx::Plugin || c == Ctx::PluginInner {
                        self.stack.push(Ctx::PluginInner);
                    } else if c == Ctx::Root {
                        self.stack.push(Ctx::Root);
                    } else {
                        self.stack.push(Ctx::Ignored);
                    }
                }
            },
            Stmt::Close => {
                if self.stack.len() > 0 {
                    let popped = self.stack.pop();
                    if c == Ctx::Plugin {
                        let mut p = PluginDsl::default();
                        core::mem::swap(&mut p, &mut self.plugin);
                        self.dsl.plugin = Some(p);
                        assert(strings_view(self.plugin.authors@) =~= Seq::<Seq<char>>::empty());
                        assert(self.plugin.dependencies@.map_values(|d: GradleDependency| dep_view(d))
                            =~= Seq::<DepView>::empty());
                    }
                }
            },
            Stmt::Assign(path, val, items) => {
                if c == Ctx::Root {
                    if let Some(v) = val {
                        if same_text(path.as_str(), "version") {
                            self.dsl.project_version = Some(v.clone());
                        } else if same_text(path.as_str(), "description") {
                            self.dsl.project_description = Some(v.clone());
                        } else if same_text(path.as_str(), "rootProject.name") {
                            self.dsl.project_name = Some(v.clone());
                        }
                    }
                } else if c == Ctx::Allay {
                    let key = assignment_key_exec(path.as_str());
                    if let Some(v) = val {
                        if same_text(key.as_str(), "api") {
                            self.dsl.api = Some(v.clone());
                        } else if same_text(key.as_str(), "apiOnly") {
                            self.dsl.api_only = bool_value_exec(v.as_str());
                        } else if same_text(key.as_str(), "server") {
                            self.dsl.server = Some(v.clone());
                        }
                    }
                } else if c == Ctx::Plugin {
                    let key = assignment_key_exec(path.as_str());
                    if let Some(v) = val {
                        self.plugin_scalar_exec(key.as_str(), v);
                    }
                    if same_text(key.as_str(), "authors") && items.len() > 0 {
                        append_all(&mut self.plugin.authors, items.as_slice());
                    }
                }
            },
            Stmt::Append(path, items) => {
                if c == Ctx::Plugin {
                    let key = assignment_key_exec(path.as_str());
                    if same_text(key.as_str(), "authors") {
                        append_all(&mut self.plugin.authors, items.as_slice());
                    }
                }
            },
            Stmt::Call(path, args) => {
                let name = call_name_exec(path.as_str());
                if c == Ctx::Root {
                    if let Some(info) = classify_dependency(name.as_str(), args.as_slice()) {
                        self.apply_info(info);
                    }
                } else if (c == Ctx::Plugin || c == Ctx::PluginInner) && same_text(name.as_str(), "dependency") {
                    if let Some(d) = dependency_from_args(args.as_slice()) {
                        let ghost before = self.plugin.dependencies@;
                        self.plugin.dependencies.push(d);
                        assert(self.plugin.dependencies@.map_values(|d: GradleDependency| dep_view(d))
                            =~= before.map_values(|d: GradleDependency| dep_view(d)).push(dep_view(d)));
                    }
                }
            },
        }
    }

    /// The extraction's result: present only when the script declared the
    /// platform dependency, an API version or a manifest.
    pub fn finish(self) -> (r: Option<AllayDsl>)
        ensures
            match r {
                Some(d) => extraction_result(dsl_view(self.dsl)) == Some(dsl_view(d)),
                None => extraction_result(dsl_view(self.dsl)) is None,
            },
    {
        if self.dsl.api.is_some() || self.dsl.plugin.is_some() || self.dsl.has_allay_dependency {
            Some(self.dsl)
        } else {
            None
        }
    }
}

/// Extracts the platform dependency and manifest from a script's statements.
pub fn extract(stmts: &[Stmt]) -> (r: Option<AllayDsl>)
    ensures
        match r {
            Some(d) => extraction_result(run(stmts_view(stmts@)).dsl) == Some(dsl_view(d)),
            None => extraction_result(run(stmts_view(stmts@)).dsl) is None,
        },
{
    let mut e = Extraction::new();
    let ghost sv = stmts_view(stmts@);
    let mut i: usize = 0;
    assert(sv.subrange(0, 0) =~= Seq::<StmtView>::empty());
    while i < stmts.len()
        invariant
            i <= stmts@.len(),
            sv == stmts_view(stmts@),
            state_view(e) == run(sv.subrange(0, i as int)),
        decreases stmts@.len() - i,
    {
        e.step(&stmts[i]);
        assert(sv.subrange(0, i + 1).drop_last() =~= sv.subrange(0, i as int));
        i = i + 1;
    }
    assert(sv.subrange(0, stmts@.len() as int) =~= sv);
    e.finish()
}

// ---------------------------------------------------------------------------
// Equivalent surface syntaxes

proof fn lemma_unescaped_plain(s: Seq<char>)
    requires
        !s.contains('\\'),
    ensures
        unescaped(s) == s,
    decreases s.len(),
{
    if s.len() > 0 {
        assert(s[0] != '\\');
        let t = s.subrange(1, s.len() as int);
        assert(!t.contains('\\')) by {
            if t.contains('\\') {
                let j = choose|j: int| 0 <= j < t.len() && t[j] == '\\';
                assert(s[j + 1] == '\\');
            }
        }
        lemma_unescaped_plain(t);
        assert(seq![s[0]] + t =~= s);
    }
}

/// A string with no quote or backslash in it has the same value whether it
/// is written in double or in single quotes.
pub proof fn quote_styles_agree(s: Seq<char>)
    requires
        !s.contains('"'),
        !s.contains('\x27'),
        !s.contains('\\'),
    ensures
        literal_value(seq!['"'] + s + seq!['"']) == Some(s),
        literal_value(seq!['\x27'] + s + seq!['\x27']) == Some(s),
{
    let d = seq!['"'] + s + seq!['"'];
    let q = seq!['\x27'] + s + seq!['\x27'];
    reveal_strlit("\"\"\"");
    reveal_strlit("'''");
    assert(d.subrange(1, d.len() - 1) =~= s);
    assert(q.subrange(1, q.len() - 1) =~= s);
    if s.len() > 0 {
        assert(s[0] != '"');
        assert(d.subrange(0, 3)[1] == s[0]);
        assert(!starts_with(d, "\"\"\""@));
        assert(s[0] != '\x27');
        assert(q.subrange(0, 3)[1] == s[0]);
        assert(!starts_with(q, "'''"@));
    }
    lemma_unescaped_plain(s);
}

/// Inside a block, an assignment written with the closure delegate
/// qualifier `it.` means the same as one written without it.
pub proof fn delegate_prefix_is_transparent(
    sv: StateView,
    key: Seq<char>,
    val: Option<Seq<char>>,
    items: Seq<Seq<char>>,
)
    requires
        top(sv.stack) != Ctx::Root,
        !starts_with(key, "it."@),
    ensures
        step(sv, StmtView::Assign("it."@ + key, val, items)) == step(sv, StmtView::Assign(key, val, items)),
{
    reveal_strlit("it.");
    let p = "it."@ + key;
    assert(p.subrange(0, 3) =~= "it."@);
    assert(p.subrange(3, p.len() as int) =~= key);
}

/// Inside the platform or manifest block, a juxtaposed `k v` (which the
/// Groovy front-end reports as the assignment `k = v` followed by the call
/// `k v`) means the same as the assignment `k = v`, whatever string items
/// the assignment carries, for every key but the author list.
pub proof fn juxtaposition_is_assignment(
    sv: StateView,
    key: Seq<char>,
    v: Seq<char>,
    args: Seq<ArgView>,
    items: Seq<Seq<char>>,
)
    requires
        top(sv.stack) == Ctx::Allay || top(sv.stack) == Ctx::Plugin,
        assignment_key(key) != "authors"@,
        call_name(key) != "dependency"@,
    ensures
        step(step(sv, StmtView::Assign(key, Some(v), Seq::empty())), StmtView::Call(key, args)) == step(
            sv,
            StmtView::Assign(key, Some(v), items),
        ),
{
}

} // verus!
