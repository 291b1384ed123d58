//! Resolution of symbolic platform version references.
use vstd::prelude::*;
use crate::builder::{is_blob, opt_view};
use crate::github::{GitTreeEntry, Release};
use crate::gradle::VersionRef;
use crate::text::{
    chars_of, contains, contains_exec, ends_with, first_index_of, first_index_of_exec, lower_of,
    lowercase, occurs_at, occurs_at_exec, shift, same_text, slice_from, slice_range, starts_with,
    starts_with_exec, str_contains, string_of, split_on, split_exec, views,
};

verus! {

pub open spec fn is_ascii_digit(c: char) -> bool {
    '0' <= c && c <= '9'
}

/// A floating branch marker, on an already lower-cased version string: it
/// ends in `-snapshot`, and no digit stands right before that suffix.
pub open spec fn snapshot_marker(lowered: Seq<char>) -> bool {
    let n = lowered.len() - "-snapshot"@.len();
    ends_with(lowered, "-snapshot"@) && !(n > 0 && is_ascii_digit(lowered[n - 1]))
}

pub open spec fn is_snapshot(version: Seq<char>) -> bool {
    snapshot_marker(lower_of(version))
}

/// Tests a lower-cased version string for the floating branch marker.
pub fn is_snapshot_marker(lowered: &str) -> (r: bool)
    ensures
        r == snapshot_marker(lowered@),
{
    let l = chars_of(lowered);
    let suffix = chars_of("-snapshot");
    if !crate::text::ends_with_exec(l.as_slice(), suffix.as_slice()) {
        return false;
    }
    let n = l.len() - suffix.len();
    !(n > 0 && '0' <= l[n - 1] && l[n - 1] <= '9')
}

pub fn is_snapshot_version(version: &str) -> (r: bool)
    ensures
        r == is_snapshot(version@),
{
    let lower = lowercase(version);
    is_snapshot_marker(lower.as_str())
}

/// Unicode white space, as `char::is_whitespace` has it.
pub open spec fn is_space(c: char) -> bool {
    let u = c as u32;
    (0x9 <= u <= 0xd) || u == 0x20 || u == 0x85 || u == 0xa0 || u == 0x1680 || (0x2000 <= u
        <= 0x200a) || u == 0x2028 || u == 0x2029 || u == 0x202f || u == 0x205f || u == 0x3000
}

fn is_space_exec(c: char) -> (r: bool)
    ensures
        r == is_space(c),
{
    let u = c as u32;
    (0x9 <= u && u <= 0xd) || u == 0x20 || u == 0x85 || u == 0xa0 || u == 0x1680 || (0x2000 <= u
        && u <= 0x200a) || u == 0x2028 || u == 0x2029 || u == 0x202f || u == 0x205f || u == 0x3000
}

/// `s` without leading and trailing white space.
pub open spec fn trim(s: Seq<char>) -> Seq<char>
    decreases s.len(),
{
    if s.len() > 0 && is_space(s[0]) {
        trim(s.subrange(1, s.len() as int))
    } else if s.len() > 0 && is_space(s.last()) {
        trim(s.drop_last())
    } else {
        s
    }
}

pub fn trim_exec(s: &[char]) -> (r: Vec<char>)
    ensures
        r@ == trim(s@),
{
    let mut i: usize = 0;
    let mut j: usize = s.len();
    assert(s@.subrange(0, s@.len() as int) =~= s@);
    while i < j && (is_space_exec(s[i]) || is_space_exec(s[j - 1]))
        invariant
            i <= j <= s@.len(),
            trim(s@.subrange(i as int, j as int)) == trim(s@),
        decreases j - i,
    {
        if is_space_exec(s[i]) {
            assert(s@.subrange(i as int, j as int).subrange(1, j - i) =~= s@.subrange(i + 1, j as int));
            i = i + 1;
        } else {
            assert(s@.subrange(i as int, j as int).drop_last() =~= s@.subrange(i as int, j - 1));
            j = j - 1;
        }
    }
    slice_range(s, i, j)
}

/// The position of the first occurrence of `p` in `s`, or -1.
pub open spec fn find(s: Seq<char>, p: Seq<char>) -> int
    decreases s.len(),
{
    if occurs_at(s, p, 0) {
        0
    } else if s.len() == 0 {
        -1
    } else {
        shift(find(s.subrange(1, s.len() as int), p), 1)
    }
}

proof fn lemma_occurs_suffix(s: Seq<char>, p: Seq<char>, i: int)
    requires
        0 <= i <= s.len(),
    ensures
        occurs_at(s.subrange(i, s.len() as int), p, 0) == occurs_at(s, p, i),
{
    let t = s.subrange(i, s.len() as int);
    if i + p.len() <= s.len() {
        assert(t.subrange(0, p.len() as int) =~= s.subrange(i, i + p.len()));
    }
}

pub fn find_exec(s: &[char], p: &[char]) -> (r: Option<usize>)
    ensures
        match r {
            Some(i) => find(s@, p@) == i as int && occurs_at(s@, p@, i as int),
            None => find(s@, p@) == -1,
        },
{
    let mut i: usize = 0;
    assert(s@.subrange(0, s@.len() as int) =~= s@);
    while i < s.len()
        invariant
            i <= s@.len(),
            find(s@, p@) == shift(find(s@.subrange(i as int, s@.len() as int), p@), i as int),
        decreases s@.len() - i,
    {
        let ghost t = s@.subrange(i as int, s@.len() as int);
        proof {
            lemma_occurs_suffix(s@, p@, i as int);
        }
        if occurs_at_exec(s, p, i) {
            return Some(i);
        }
        assert(t.subrange(1, t.len() as int) =~= s@.subrange(i + 1, s@.len() as int));
        i = i + 1;
    }
    proof {
        lemma_occurs_suffix(s@, p@, i as int);
    }
    if occurs_at_exec(s, p, i) {
        return Some(i);
    }
    None
}

/// The version in a release name of the form `... (API <version>) ...`.
pub open spec fn api_version_in_name(name: Seq<char>) -> Option<Seq<char>> {
    let a = find(name, "(API "@);
    if a < 0 {
        None
    } else {
        let rest = name.subrange(a + 5, name.len() as int);
        let e = first_index_of(rest, ')');
        if e < 0 {
            None
        } else {
            let v = trim(rest.subrange(0, e));
            if v.len() > 0 {
                Some(v)
            } else {
                None
            }
        }
    }
}

pub fn extract_api_version_from_name(name: &str) -> (r: Option<String>)
    ensures
        opt_view(r) == api_version_in_name(name@),
{
    let n = chars_of(name);
    let marker = chars_of("(API ");
    proof {
        reveal_strlit("(API ");
    }
    assert(marker@.len() == 5);
    let a = match find_exec(n.as_slice(), marker.as_slice()) {
        Some(a) => a,
        None => return None,
    };
    let nl = n.len();
    assert(a + 5 <= nl);
    let rest = slice_from(n.as_slice(), a + 5);
    let e = match first_index_of_exec(rest.as_slice(), ')') {
        Some(e) => e,
        None => return None,
    };
    let head = slice_range(rest.as_slice(), 0, e);
    let v = trim_exec(head.as_slice());
    if v.len() > 0 {
        Some(string_of(v.as_slice()))
    } else {
        None
    }
}

/// The platform's version named by the first release that is neither a
/// pre-release nor a draft.
pub open spec fn snapshot_from_releases(releases: Seq<Release>) -> Option<Seq<char>>
    decreases releases.len(),
{
    if releases.len() == 0 {
        None
    } else if !releases[0].prerelease && !releases[0].draft {
        match releases[0].name {
            Some(n) => api_version_in_name(n@),
            None => None,
        }
    } else {
        snapshot_from_releases(releases.subrange(1, releases.len() as int))
    }
}

pub fn resolve_snapshot_version(releases: &[Release]) -> (r: Option<String>)
    ensures
        opt_view(r) == snapshot_from_releases(releases@),
{
    let mut i: usize = 0;
    assert(releases@.subrange(0, releases@.len() as int) =~= releases@);
    while i < releases.len()
        invariant
            i <= releases@.len(),
            snapshot_from_releases(releases@.subrange(i as int, releases@.len() as int))
                == snapshot_from_releases(releases@),
        decreases releases@.len() - i,
    {
        let rel = &releases[i];
        assert(releases@.subrange(i as int, releases@.len() as int)[0] == releases@[i as int]);
        if !rel.prerelease && !rel.draft {
            return match &rel.name {
                Some(n) => extract_api_version_from_name(n.as_str()),
                None => None,
            };
        }
        assert(releases@.subrange(i as int, releases@.len() as int).subrange(1, releases@.len() - i)
            =~= releases@.subrange(i + 1, releases@.len() as int));
        i = i + 1;
    }
    None
}

/// The number of bytes of the UTF-8 encoding of `s`.
pub open spec fn utf8_len(s: Seq<char>) -> int
    decreases s.len(),
{
    if s.len() == 0 {
        0
    } else {
        let u = s.last() as u32;
        utf8_len(s.drop_last()) + if u < 0x80 {
            1int
        } else if u < 0x800 {
            2int
        } else if u < 0x10000 {
            3int
        } else {
            4int
        }
    }
}

/// Contains a digit and a dot or dash, and is at most fifty bytes long.
pub open spec fn version_like(s: Seq<char>) -> bool {
    &&& s.len() > 0
    &&& utf8_len(s) <= 50
    &&& exists|i: int| 0 <= i < s.len() && is_ascii_digit(#[trigger] s[i])
    &&& (s.contains('.') || s.contains('-'))
}

pub fn looks_like_version(s: &[char]) -> (r: bool)
    ensures
        r == version_like(s@),
{
    if s.len() == 0 {
        return false;
    }
    let mut bytes: usize = 0;
    let mut has_digit = false;
    let mut has_sep = false;
    let mut i: usize = 0;
    while i < s.len()
        invariant
            i <= s@.len(),
            bytes == utf8_len(s@.subrange(0, i as int)) || (bytes == 51 && utf8_len(s@.subrange(0, i as int)) > 50),
            bytes <= 51,
            has_digit == exists|j: int| 0 <= j < i && is_ascii_digit(#[trigger] s@[j]),
            has_sep == exists|j: int| 0 <= j < i && (s@[j] == '.' || s@[j] == '-'),
        decreases s@.len() - i,
    {
        let c = s[i];
        let u = c as u32;
        let w: usize = if u < 0x80 {
            1
        } else if u < 0x800 {
            2
        } else if u < 0x10000 {
            3
        } else {
            4
        };
        assert(s@.subrange(0, i + 1).drop_last() =~= s@.subrange(0, i as int));
        proof {
            lemma_utf8_len_nonneg(s@.subrange(0, i as int));
        }
        if bytes + w > 50 {
            bytes = 51;
        } else {
            bytes = bytes + w;
        }
        if '0' <= c && c <= '9' {
            has_digit = true;
        }
        if c == '.' || c == '-' {
            has_sep = true;
        }
        i = i + 1;
    }
    assert(s@.subrange(0, s@.len() as int) =~= s@);
    assert(has_sep == (s@.contains('.') || s@.contains('-'))) by {
        if s@.contains('.') {
            let j = choose|j: int| 0 <= j < s@.len() && s@[j] == '.';
        }
        if s@.contains('-') {
            let j = choose|j: int| 0 <= j < s@.len() && s@[j] == '-';
        }
    }
    bytes <= 50 && has_digit && has_sep
}

proof fn lemma_utf8_len_nonneg(s: Seq<char>)
    ensures
        utf8_len(s) >= 0,
    decreases s.len(),
{
    if s.len() > 0 {
        lemma_utf8_len_nonneg(s.drop_last());
    }
}

/// The first quoted string of a line, when it looks like a version.
pub open spec fn version_in_line(line: Seq<char>) -> Option<Seq<char>> {
    let start = first_index_of(line, '"');
    if start < 0 {
        None
    } else {
        let rest = line.subrange(start + 1, line.len() as int);
        let end = first_index_of(rest, '"');
        if end < 0 {
            None
        } else if version_like(rest.subrange(0, end)) {
            Some(rest.subrange(0, end))
        } else {
            None
        }
    }
}

pub fn extract_version_from_line(line: &[char]) -> (r: Option<Vec<char>>)
    ensures
        match r {
            Some(v) => version_in_line(line@) == Some(v@),
            None => version_in_line(line@) is None,
        },
{
    let n = line.len();
    let start = match first_index_of_exec(line, '"') {
        Some(s) => s,
        None => return None,
    };
    assert(start < n);
    let rest = slice_from(line, start + 1);
    let end = match first_index_of_exec(rest.as_slice(), '"') {
        Some(e) => e,
        None => return None,
    };
    let v = slice_range(rest.as_slice(), 0, end);
    if looks_like_version(v.as_slice()) {
        Some(v)
    } else {
        None
    }
}

/// The last dotted segment of a reference path.
pub open spec fn last_segment(path: Seq<char>) -> Seq<char> {
    path.subrange(crate::text::last_index_of(path, '.') + 1, path.len() as int)
}

/// The first line, trimmed, that mentions `needle` and holds a version.
pub open spec fn scan_mentioning(ls: Seq<Seq<char>>, needle: Seq<char>) -> Option<Seq<char>>
    decreases ls.len(),
{
    if ls.len() == 0 {
        None
    } else {
        let l = trim(ls[0]);
        if contains(l, needle) && version_in_line(l) is Some {
            version_in_line(l)
        } else {
            scan_mentioning(ls.subrange(1, ls.len() as int), needle)
        }
    }
}

/// A line that names the platform next to `api` or `version`, judged on its
/// lower-cased text.
pub open spec fn platform_line(lowered: Seq<char>) -> bool {
    contains(lowered, "allay"@) && (contains(lowered, "api"@) || contains(lowered, "version"@))
}

/// The first line, trimmed, that names the platform and holds a version.
pub open spec fn scan_platform(ls: Seq<Seq<char>>) -> Option<Seq<char>>
    decreases ls.len(),
{
    if ls.len() == 0 {
        None
    } else {
        let l = trim(ls[0]);
        if platform_line(lower_of(l)) && version_in_line(l) is Some {
            version_in_line(l)
        } else {
            scan_platform(ls.subrange(1, ls.len() as int))
        }
    }
}

/// The version that a source file assigns to the reference `var_path`.
pub open spec fn code_version(content: Seq<char>, var_path: Seq<char>) -> Option<Seq<char>> {
    match scan_mentioning(split_on(content, '\n'), last_segment(var_path)) {
        Some(v) => Some(v),
        None => scan_platform(split_on(content, '\n')),
    }
}

pub fn extract_allay_version_from_code(content: &str, var_path: &str) -> (r: Option<String>)
    ensures
        opt_view(r) == code_version(content@, var_path@),
{
    let vp = chars_of(var_path);
    let vn = vp.len();
    let start = match crate::text::last_index_of_exec(vp.as_slice(), '.') {
        Some(k) => k + 1,
        None => 0,
    };
    let last = slice_from(vp.as_slice(), start);
    assert(last@ == last_segment(var_path@));
    let cc = chars_of(content);
    let ls = split_exec(cc.as_slice(), '\n');
    assert(views(ls@) == split_on(content@, '\n'));
    let ghost lv = views(ls@);
    let mut i: usize = 0;
    assert(lv.subrange(0, lv.len() as int) =~= lv);
    while i < ls.len()
        invariant
            i <= ls@.len(),
            lv == views(ls@),
            lv == split_on(content@, '\n'),
            last@ == last_segment(var_path@),
            scan_mentioning(lv.subrange(i as int, lv.len() as int), last@)
                == scan_mentioning(lv, last@),
        decreases ls@.len() - i,
    {
        assert(lv.subrange(i as int, lv.len() as int)[0] == ls@[i as int]@);
        let l = trim_exec(ls[i].as_slice());
        if contains_exec(l.as_slice(), last.as_slice()) {
            if let Some(v) = extract_version_from_line(l.as_slice()) {
                assert(scan_mentioning(lv.subrange(i as int, lv.len() as int), last@) == Some(v@));
                return Some(string_of(v.as_slice()));
            }
        }
        assert(lv.subrange(i as int, lv.len() as int).subrange(1, lv.len() - i)
            =~= lv.subrange(i + 1, lv.len() as int));
        i = i + 1;
    }
    let allay = chars_of("allay");
    let api = chars_of("api");
    let version = chars_of("version");
    let mut i: usize = 0;
    while i < ls.len()
        invariant
            i <= ls@.len(),
            lv == views(ls@),
            lv == split_on(content@, '\n'),
            last@ == last_segment(var_path@),
            allay@ == "allay"@,
            api@ == "api"@,
            version@ == "version"@,
            scan_mentioning(lv, last@) is None,
            scan_platform(lv.subrange(i as int, lv.len() as int)) == scan_platform(lv),
        decreases ls@.len() - i,
    {
        assert(lv.subrange(i as int, lv.len() as int)[0] == ls@[i as int]@);
        let l = trim_exec(ls[i].as_slice());
        let ls_text = string_of(l.as_slice());
        let lower = lowercase(ls_text.as_str());
        let lc = chars_of(lower.as_str());
        if contains_exec(lc.as_slice(), allay.as_slice()) && (contains_exec(lc.as_slice(), api.as_slice())
            || contains_exec(lc.as_slice(), version.as_slice())) {
            if let Some(v) = extract_version_from_line(l.as_slice()) {
                assert(scan_platform(lv.subrange(i as int, lv.len() as int)) == Some(v@));
                return Some(string_of(v.as_slice()));
            }
        }
        assert(lv.subrange(i as int, lv.len() as int).subrange(1, lv.len() - i)
            =~= lv.subrange(i + 1, lv.len() as int));
        i = i + 1;
    }
    None
}

/// What the TOML document `content` holds, as a string, under the key path
/// `path`.
pub uninterp spec fn toml_str_at(content: Seq<char>, path: Seq<Seq<char>>) -> Option<Seq<char>>;

/// Relies on `toml::Value`'s `FromStr`, `Value::get` and `Value::as_str`: the
/// string found by following the keys from the document root, or `None` when
/// the text does not parse, a key is missing or the value is not a string.
#[verifier::external_body]
fn toml_string_at(content: &str, path: &Vec<String>) -> (r: Option<String>)
    ensures
        opt_view(r) == toml_str_at(content@, path.deep_view()),
{
    let doc: toml::Value = content.parse().ok()?;
    let mut cur = &doc;
    for key in path.iter() {
        cur = cur.get(key.as_str())?;
    }
    cur.as_str().map(|s| s.to_string())
}

fn key_path(keys: &[&str]) -> (r: Vec<String>)
    ensures
        r@.len() == keys@.len(),
        forall|i: int| 0 <= i < keys@.len() ==> #[trigger] r@[i]@ == keys@[i]@,
{
    let mut r: Vec<String> = Vec::new();
    let mut i: usize = 0;
    while i < keys.len()
        invariant
            i <= keys@.len(),
            r@.len() == i,
            forall|j: int| 0 <= j < i ==> #[trigger] r@[j]@ == keys@[j]@,
        decreases keys@.len() - i,
    {
        r.push(String::from_str(keys[i]));
        i = i + 1;
    }
    r
}

/// The platform version that a version-catalog document declares: in its
/// library entry, directly or through an alias of the versions section, else
/// under one of the two conventional alias names.
pub open spec fn catalog_version(content: Seq<char>) -> Option<Seq<char>> {
    let direct = toml_str_at(content, seq!["libraries"@, "allay"@, "version"@]);
    let alias = toml_str_at(content, seq!["libraries"@, "allay"@, "version"@, "ref"@]);
    if direct is Some {
        direct
    } else if alias is Some && toml_str_at(content, seq!["versions"@, alias->0]) is Some {
        toml_str_at(content, seq!["versions"@, alias->0])
    } else if toml_str_at(content, seq!["versions"@, "allay"@]) is Some {
        toml_str_at(content, seq!["versions"@, "allay"@])
    } else {
        toml_str_at(content, seq!["versions"@, "allay-api"@])
    }
}

pub fn parse_allay_version_from_toml(content: &str) -> (r: Option<String>)
    ensures
        opt_view(r) == catalog_version(content@),
{
    let direct_path = key_path(&["libraries", "allay", "version"]);
    assert(direct_path.deep_view() =~= seq!["libraries"@, "allay"@, "version"@]);
    if let Some(v) = toml_string_at(content, &direct_path) {
        return Some(v);
    }
    let alias_path = key_path(&["libraries", "allay", "version", "ref"]);
    assert(alias_path.deep_view() =~= seq!["libraries"@, "allay"@, "version"@, "ref"@]);
    if let Some(alias) = toml_string_at(content, &alias_path) {
        let mut aliased_path: Vec<String> = Vec::new();
        aliased_path.push(String::from_str("versions"));
        aliased_path.push(alias);
        assert(aliased_path.deep_view() =~= seq!["versions"@, aliased_path@[1]@]);
        if let Some(v) = toml_string_at(content, &aliased_path) {
            return Some(v);
        }
    }
    let short_path = key_path(&["versions", "allay"]);
    assert(short_path.deep_view() =~= seq!["versions"@, "allay"@]);
    if let Some(v) = toml_string_at(content, &short_path) {
        return Some(v);
    }
    let api_path = key_path(&["versions", "allay-api"]);
    assert(api_path.deep_view() =~= seq!["versions"@, "allay-api"@]);
    toml_string_at(content, &api_path)
}

pub open spec fn is_catalog_doc(e: GitTreeEntry) -> bool {
    is_blob(e) && (e.path@ == "gradle/libs.versions.toml"@ || e.path@ == "libs.versions.toml"@)
}

/// The path of the first version-catalog document of the tree.
pub open spec fn catalog_path(tree: Seq<GitTreeEntry>) -> Option<Seq<char>>
    decreases tree.len(),
{
    if tree.len() == 0 {
        None
    } else if is_catalog_doc(tree[0]) {
        Some(tree[0].path@)
    } else {
        catalog_path(tree.subrange(1, tree.len() as int))
    }
}

pub fn find_catalog_path(tree: &[GitTreeEntry]) -> (r: Option<String>)
    ensures
        opt_view(r) == catalog_path(tree@),
{
    let mut i: usize = 0;
    assert(tree@.subrange(0, tree@.len() as int) =~= tree@);
    while i < tree.len()
        invariant
            i <= tree@.len(),
            catalog_path(tree@.subrange(i as int, tree@.len() as int)) == catalog_path(tree@),
        decreases tree@.len() - i,
    {
        let e = &tree[i];
        assert(tree@.subrange(i as int, tree@.len() as int)[0] == tree@[i as int]);
        if same_text(e.entry_type.as_str(), "blob") && (same_text(e.path.as_str(), "gradle/libs.versions.toml")
            || same_text(e.path.as_str(), "libs.versions.toml")) {
            return Some(e.path.clone());
        }
        assert(tree@.subrange(i as int, tree@.len() as int).subrange(1, tree@.len() - i)
            =~= tree@.subrange(i + 1, tree@.len() as int));
        i = i + 1;
    }
    None
}

/// The first dotted segment of a reference path.
pub open spec fn first_segment(path: Seq<char>) -> Seq<char> {
    let k = first_index_of(path, '.');
    if k < 0 {
        path
    } else {
        path.subrange(0, k)
    }
}

/// The file name of a tree path: what follows its last slash.
pub open spec fn file_name(path: Seq<char>) -> Seq<char> {
    path.subrange(crate::text::last_index_of(path, '/') + 1, path.len() as int)
}

/// A source file that may define the reference whose first segment,
/// lower-cased, is `search`: its name starts with it, or it lies in a
/// build-logic directory; and it is Kotlin or Java.
pub open spec fn variable_source(e: GitTreeEntry, search: Seq<char>) -> bool {
    &&& is_blob(e)
    &&& (starts_with(lower_of(file_name(e.path@)), search) || contains(lower_of(e.path@), "buildsrc"@)
        || contains(lower_of(e.path@), "buildlogic"@))
    &&& (ends_with(file_name(e.path@), ".kt"@) || ends_with(file_name(e.path@), ".java"@))
}

pub open spec fn variable_sources(tree: Seq<GitTreeEntry>, search: Seq<char>) -> Seq<Seq<char>>
    decreases tree.len(),
{
    if tree.len() == 0 {
        Seq::empty()
    } else {
        variable_sources(tree.drop_last(), search) + if variable_source(tree.last(), search) {
            seq![tree.last().path@]
        } else {
            Seq::empty()
        }
    }
}

fn is_variable_source(e: &GitTreeEntry, search: &[char]) -> (r: bool)
    ensures
        r == variable_source(*e, search@),
{
    if !same_text(e.entry_type.as_str(), "blob") {
        return false;
    }
    let pc = chars_of(e.path.as_str());
    let pn = pc.len();
    let start = match crate::text::last_index_of_exec(pc.as_slice(), '/') {
        Some(k) => k + 1,
        None => 0,
    };
    let name = slice_from(pc.as_slice(), start);
    let name_text = string_of(name.as_slice());
    let name_lower = lowercase(name_text.as_str());
    let path_lower = lowercase(e.path.as_str());
    let nl = chars_of(name_lower.as_str());
    let located = starts_with_exec(nl.as_slice(), search) || str_contains(path_lower.as_str(), "buildsrc")
        || str_contains(path_lower.as_str(), "buildlogic");
    let kt = chars_of(".kt");
    let java = chars_of(".java");
    let source = crate::text::ends_with_exec(name.as_slice(), kt.as_slice())
        || crate::text::ends_with_exec(name.as_slice(), java.as_slice());
    located && source
}

/// The files to fetch for a reference: the catalog document for a catalog
/// reference, the candidate source files for a variable, none otherwise.
pub open spec fn sources_for(version_ref: VersionRef, tree: Seq<GitTreeEntry>) -> Seq<Seq<char>> {
    match version_ref {
        VersionRef::VersionCatalog(_) => match catalog_path(tree) {
            Some(p) => seq![p],
            None => Seq::empty(),
        },
        VersionRef::Variable(path) => variable_sources(tree, lower_of(first_segment(path@))),
        _ => Seq::empty(),
    }
}

pub fn resolution_sources(version_ref: &VersionRef, tree: &[GitTreeEntry]) -> (r: Vec<String>)
    ensures
        r.deep_view() == sources_for(*version_ref, tree@),
{
    match version_ref {
        VersionRef::VersionCatalog(_) => {
            let mut r: Vec<String> = Vec::new();
            if let Some(p) = find_catalog_path(tree) {
                r.push(p);
            }
            assert(r.deep_view() =~= sources_for(*version_ref, tree@));
            r
        },
        VersionRef::Variable(path) => {
            let pc = chars_of(path.as_str());
            let first = match first_index_of_exec(pc.as_slice(), '.') {
                Some(k) => slice_range(pc.as_slice(), 0, k),
                None => slice_from(pc.as_slice(), 0),
            };
            assert(pc@.subrange(0, pc@.len() as int) =~= pc@);
            let first_text = string_of(first.as_slice());
            let search_text = lowercase(first_text.as_str());
            let search = chars_of(search_text.as_str());
            let mut r: Vec<String> = Vec::new();
            let mut i: usize = 0;
            while i < tree.len()
                invariant
                    i <= tree@.len(),
                    search@ == lower_of(first_segment(path@)),
                    r.deep_view() == variable_sources(tree@.subrange(0, i as int), search@),
                decreases tree@.len() - i,
            {
                assert(tree@.subrange(0, i + 1).drop_last() =~= tree@.subrange(0, i as int));
                if is_variable_source(&tree[i], search.as_slice()) {
                    r.push(tree[i].path.clone());
                }
                assert(r.deep_view() =~= variable_sources(tree@.subrange(0, i + 1), search@));
                i = i + 1;
            }
            assert(tree@.subrange(0, tree@.len() as int) =~= tree@);
            r
        },
        _ => {
            let r: Vec<String> = Vec::new();
            assert(r.deep_view() =~= sources_for(*version_ref, tree@));
            r
        },
    }
}

/// The first fetched source file that assigns the reference a version.
pub open spec fn first_code_version(fetched: Seq<Option<String>>, var_path: Seq<char>) -> Option<Seq<char>>
    decreases fetched.len(),
{
    if fetched.len() == 0 {
        None
    } else {
        match fetched[0] {
            Some(c) if code_version(c@, var_path) is Some => code_version(c@, var_path),
            _ => first_code_version(fetched.subrange(1, fetched.len() as int), var_path),
        }
    }
}

/// The version a reference names before snapshot resolution, given the
/// contents fetched for `sources_for` (`None` where a fetch failed).
pub open spec fn referenced_version(version_ref: VersionRef, fetched: Seq<Option<String>>) -> Option<Seq<char>> {
    match version_ref {
        VersionRef::Literal(v) => Some(v@),
        VersionRef::VersionCatalog(_) => if fetched.len() > 0 && fetched[0] is Some {
            catalog_version(fetched[0]->0@)
        } else {
            None
        },
        VersionRef::Variable(path) => first_code_version(fetched, path@),
        VersionRef::Absent => None,
    }
}

/// A referenced version, with a floating snapshot marker replaced by the
/// platform's resolved snapshot version.
pub open spec fn resolved_version(
    version_ref: VersionRef,
    fetched: Seq<Option<String>>,
    snapshot: Option<Seq<char>>,
) -> Option<Seq<char>> {
    match referenced_version(version_ref, fetched) {
        Some(v) => if is_snapshot(v) {
            snapshot
        } else {
            Some(v)
        },
        None => None,
    }
}

fn first_code_version_exec(fetched: &[Option<String>], var_path: &str) -> (r: Option<String>)
    ensures
        opt_view(r) == first_code_version(fetched@, var_path@),
{
    let mut i: usize = 0;
    assert(fetched@.subrange(0, fetched@.len() as int) =~= fetched@);
    while i < fetched.len()
        invariant
            i <= fetched@.len(),
            first_code_version(fetched@.subrange(i as int, fetched@.len() as int), var_path@)
                == first_code_version(fetched@, var_path@),
        decreases fetched@.len() - i,
    {
        assert(fetched@.subrange(i as int, fetched@.len() as int)[0] == fetched@[i as int]);
        if let Some(c) = &fetched[i] {
            if let Some(v) = extract_allay_version_from_code(c.as_str(), var_path) {
                return Some(v);
            }
        }
        assert(fetched@.subrange(i as int, fetched@.len() as int).subrange(1, fetched@.len() - i)
            =~= fetched@.subrange(i + 1, fetched@.len() as int));
        i = i + 1;
    }
    None
}

/// Resolves a version reference from the contents fetched for its
/// `resolution_sources`, and the platform's snapshot version.
pub fn resolve_version(version_ref: &VersionRef, fetched: &[Option<String>], snapshot: Option<&str>) -> (r: Option<String>)
    ensures
        opt_view(r) == resolved_version(*version_ref, fetched@, crate::gradle::opt_str(snapshot)),
{
    let found = match version_ref {
        VersionRef::Literal(v) => Some(v.clone()),
        VersionRef::VersionCatalog(_) => {
            if fetched.len() > 0 {
                match &fetched[0] {
                    Some(c) => parse_allay_version_from_toml(c.as_str()),
                    None => None,
                }
            } else {
                None
            }
        },
        VersionRef::Variable(path) => first_code_version_exec(fetched, path.as_str()),
        VersionRef::Absent => None,
    };
    match found {
        Some(v) => {
            if is_snapshot_version(v.as_str()) {
                match snapshot {
                    Some(s) => Some(String::from_str(s)),
                    None => None,
                }
            } else {
                Some(v)
            }
        },
        None => None,
    }
}

} // verus!
