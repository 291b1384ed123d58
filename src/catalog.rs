//! The durable catalog record and its stored form.
use vstd::prelude::*;
use crate::text::{chars_of, same_text, slice_from, string_of};

verus! {

#[derive(Debug, Clone)]
pub struct Author {
    pub name: String,
    pub url: String,
    pub avatar_url: String,
}

#[derive(Debug, Clone)]
pub struct License {
    pub id: String,
    pub name: String,
    pub url: String,
}

#[derive(Debug, Clone)]
pub struct Links {
    pub homepage: String,
    pub wiki: String,
    pub discord: String,
}

#[derive(Debug, Clone)]
pub struct GalleryItem {
    pub url: String,
    pub title: String,
    pub description: String,
    pub created: String,
}

#[derive(Debug, Clone)]
pub struct VersionFile {
    pub filename: String,
    pub url: String,
    pub size: u64,
    pub primary: bool,
}

#[derive(Debug, Clone)]
pub struct Version {
    pub version: String,
    pub name: String,
    pub prerelease: bool,
    pub changelog: String,
    pub files: Vec<VersionFile>,
    pub downloads: u64,
    pub published_at: u64,
}

#[derive(Debug, Clone)]
pub struct Dependency {
    pub plugin_id: String,
    pub version_range: String,
    pub dependency_type: String,
}

/// A catalog record. `preserved_fields` holds the stored keys that the record
/// does not model, each with its value as JSON text.
#[derive(Debug, Clone)]
pub struct Plugin {
    pub id: String,
    pub name: String,
    pub source: String,
    pub summary: String,
    pub description: String,
    pub authors: Vec<Author>,
    pub categories: Vec<String>,
    pub license: License,
    pub links: Option<Links>,
    pub downloads: u64,
    pub stars: u64,
    pub created_at: u64,
    pub updated_at: u64,
    pub icon_url: String,
    pub gallery: Vec<GalleryItem>,
    pub versions: Vec<Version>,
    pub api_version: String,
    pub server_version: String,
    pub dependencies: Vec<Dependency>,
    pub preserved_fields: Vec<(String, String)>,
}

/// A stored field: its key and its value as JSON text.
pub open spec fn field_view(f: (String, String)) -> (Seq<char>, Seq<char>) {
    (f.0@, f.1@)
}

pub open spec fn fields_view(fs: Seq<(String, String)>) -> Seq<(Seq<char>, Seq<char>)> {
    fs.map_values(|f: (String, String)| field_view(f))
}

/// Stored keys that the record keeps verbatim carry this marker.
pub open spec fn is_marked(k: Seq<char>) -> bool {
    k.len() > 0 && k[0] == '!'
}

pub open spec fn unmarked(k: Seq<char>) -> Seq<char> {
    k.subrange(1, k.len() as int)
}

/// The fields of a stored record with the marker taken off, and the
/// preserved ones among them.
pub open spec fn split_fields(fs: Seq<(Seq<char>, Seq<char>)>) -> (Seq<(Seq<char>, Seq<char>)>, Seq<(Seq<char>, Seq<char>)>)
    decreases fs.len(),
{
    if fs.len() == 0 {
        (Seq::empty(), Seq::empty())
    } else {
        let (n, p) = split_fields(fs.drop_last());
        let (k, v) = fs.last();
        if is_marked(k) {
            (n.push((unmarked(k), v)), p.push((unmarked(k), v)))
        } else {
            (n.push((k, v)), p)
        }
    }
}

/// The fields to store: those whose key is preserved get the marker back.
pub open spec fn mark_fields(fs: Seq<(Seq<char>, Seq<char>)>, preserved: Seq<(Seq<char>, Seq<char>)>) -> Seq<(Seq<char>, Seq<char>)>
    decreases fs.len(),
{
    if fs.len() == 0 {
        Seq::empty()
    } else {
        let (k, v) = fs.last();
        mark_fields(fs.drop_last(), preserved).push(
            if exists|j: int| 0 <= j < preserved.len() && #[trigger] preserved[j].0 == k {
                (seq!['!'] + k, v)
            } else {
                (k, v)
            },
        )
    }
}

fn marked_key(k: &str) -> (r: Option<String>)
    ensures
        match r {
            Some(u) => is_marked(k@) && u@ == unmarked(k@),
            None => !is_marked(k@),
        },
{
    let c = chars_of(k);
    if c.len() > 0 && c[0] == '!' {
        let rest = slice_from(c.as_slice(), 1);
        Some(string_of(rest.as_slice()))
    } else {
        None
    }
}

/// Reads the fields of a stored record: marked keys lose their marker and
/// are also listed as preserved.
pub fn split_stored_fields(fields: &[(String, String)]) -> (r: (Vec<(String, String)>, Vec<(String, String)>))
    ensures
        (fields_view(r.0@), fields_view(r.1@)) == split_fields(fields_view(fields@)),
{
    let ghost fv = fields_view(fields@);
    let mut normalized: Vec<(String, String)> = Vec::new();
    let mut preserved: Vec<(String, String)> = Vec::new();
    let mut i: usize = 0;
    assert(fv.subrange(0, 0) =~= Seq::<(Seq<char>, Seq<char>)>::empty());
    assert(fields_view(normalized@) =~= Seq::<(Seq<char>, Seq<char>)>::empty());
    assert(fields_view(preserved@) =~= Seq::<(Seq<char>, Seq<char>)>::empty());
    while i < fields.len()
        invariant
            i <= fields@.len(),
            fv == fields_view(fields@),
            (fields_view(normalized@), fields_view(preserved@)) == split_fields(fv.subrange(0, i as int)),
        decreases fields@.len() - i,
    {
        let ghost pre = fv.subrange(0, i + 1);
        assert(pre.drop_last() =~= fv.subrange(0, i as int));
        assert(pre.last() == field_view(fields@[i as int]));
        let ghost n0 = normalized@;
        let ghost p0 = preserved@;
        let (k, v) = (&fields[i].0, &fields[i].1);
        match marked_key(k.as_str()) {
            Some(u) => {
                normalized.push((u.clone(), v.clone()));
                preserved.push((u, v.clone()));
                assert(fields_view(normalized@) =~= fields_view(n0).push((unmarked(k@), v@)));
                assert(fields_view(preserved@) =~= fields_view(p0).push((unmarked(k@), v@)));
            },
            None => {
                normalized.push((k.clone(), v.clone()));
                assert(fields_view(normalized@) =~= fields_view(n0).push((k@, v@)));
            },
        }
        i = i + 1;
    }
    assert(fv.subrange(0, fields@.len() as int) =~= fv);
    (normalized, preserved)
}

fn is_preserved_key(preserved: &[(String, String)], k: &str) -> (r: bool)
    ensures
        r == exists|j: int| 0 <= j < preserved@.len() && #[trigger] fields_view(preserved@)[j].0 == k@,
{
    let mut j: usize = 0;
    while j < preserved.len()
        invariant
            j <= preserved@.len(),
            forall|x: int| 0 <= x < j ==> #[trigger] fields_view(preserved@)[x].0 != k@,
        decreases preserved@.len() - j,
    {
        if same_text(preserved[j].0.as_str(), k) {
            assert(fields_view(preserved@)[j as int].0 == k@);
            return true;
        }
        j = j + 1;
    }
    false
}

/// The fields to store for a record: the preserved keys marked again.
pub fn mark_preserved_fields(fields: &[(String, String)], preserved: &[(String, String)]) -> (r: Vec<(String, String)>)
    ensures
        fields_view(r@) == mark_fields(fields_view(fields@), fields_view(preserved@)),
{
    let ghost fv = fields_view(fields@);
    let ghost pv = fields_view(preserved@);
    let mut out: Vec<(String, String)> = Vec::new();
    let mut i: usize = 0;
    assert(fv.subrange(0, 0) =~= Seq::<(Seq<char>, Seq<char>)>::empty());
    assert(fields_view(out@) =~= Seq::<(Seq<char>, Seq<char>)>::empty());
    while i < fields.len()
        invariant
            i <= fields@.len(),
            fv == fields_view(fields@),
            pv == fields_view(preserved@),
            fields_view(out@) == mark_fields(fv.subrange(0, i as int), pv),
        decreases fields@.len() - i,
    {
        let ghost pre = fv.subrange(0, i + 1);
        assert(pre.drop_last() =~= fv.subrange(0, i as int));
        assert(pre.last() == field_view(fields@[i as int]));
        let ghost o0 = out@;
        let (k, v) = (&fields[i].0, &fields[i].1);
        if is_preserved_key(preserved, k.as_str()) {
            let mut key = String::from_str("!");
            key.append(k.as_str());
            proof {
                reveal_strlit("!");
            }
            out.push((key, v.clone()));
            assert(key@ =~= seq!['!'] + k@);
        } else {
            out.push((k.clone(), v.clone()));
        }
        assert(fields_view(out@) =~= fields_view(o0).push(fields_view(out@).last()));
        i = i + 1;
    }
    assert(fv.subrange(0, fields@.len() as int) =~= fv);
    out
}

/// Loading a stored record and storing it again unmodified gives back every
/// preserved field under its marked key with its value unchanged.
pub proof fn preserved_fields_round_trip(stored: Seq<(Seq<char>, Seq<char>)>)
    ensures
        forall|i: int|
            0 <= i < stored.len() && is_marked(#[trigger] stored[i].0) ==> mark_fields(
                split_fields(stored).0,
                split_fields(stored).1,
            )[i] == stored[i],
        mark_fields(split_fields(stored).0, split_fields(stored).1).len() == stored.len(),
{
    lemma_split_shape(stored);
    let (n, p) = split_fields(stored);
    lemma_mark_len(n, p);
    assert forall|i: int| 0 <= i < stored.len() && is_marked(#[trigger] stored[i].0) implies mark_fields(n, p)[i]
        == stored[i] by {
        lemma_mark_at(n, p, i);
        let j = choose|j: int| 0 <= j < p.len() && p[j] == (unmarked(stored[i].0), stored[i].1);
        assert(p[j].0 == n[i].0);
        assert(seq!['!'] + unmarked(stored[i].0) =~= stored[i].0);
    }
}

proof fn lemma_split_shape(fs: Seq<(Seq<char>, Seq<char>)>)
    ensures
        split_fields(fs).0.len() == fs.len(),
        forall|i: int|
            0 <= i < fs.len() ==> #[trigger] split_fields(fs).0[i] == if is_marked(fs[i].0) {
                (unmarked(fs[i].0), fs[i].1)
            } else {
                fs[i]
            },
        forall|i: int|
            0 <= i < fs.len() && is_marked(#[trigger] fs[i].0) ==> exists|j: int|
                0 <= j < split_fields(fs).1.len() && split_fields(fs).1[j] == (unmarked(fs[i].0), fs[i].1),
    decreases fs.len(),
{
    if fs.len() > 0 {
        let front = fs.drop_last();
        lemma_split_shape(front);
        let (n, p) = split_fields(front);
        assert forall|i: int|
            0 <= i < fs.len() && is_marked(#[trigger] fs[i].0) implies exists|j: int|
                0 <= j < split_fields(fs).1.len() && split_fields(fs).1[j] == (unmarked(fs[i].0), fs[i].1) by {
            if i < front.len() {
                assert(front[i] == fs[i]);
                let j = choose|j: int| 0 <= j < p.len() && p[j] == (unmarked(front[i].0), front[i].1);
                assert(split_fields(fs).1[j] == p[j]);
            } else {
                assert(split_fields(fs).1[p.len() as int] == (unmarked(fs[i].0), fs[i].1));
            }
        }
        assert forall|i: int| 0 <= i < fs.len() implies #[trigger] split_fields(fs).0[i] == if is_marked(fs[i].0) {
            (unmarked(fs[i].0), fs[i].1)
        } else {
            fs[i]
        } by {
            if i < front.len() {
                assert(front[i] == fs[i]);
                assert(split_fields(fs).0[i] == n[i]);
            }
        }
    }
}

proof fn lemma_mark_len(fs: Seq<(Seq<char>, Seq<char>)>, p: Seq<(Seq<char>, Seq<char>)>)
    ensures
        mark_fields(fs, p).len() == fs.len(),
    decreases fs.len(),
{
    if fs.len() > 0 {
        lemma_mark_len(fs.drop_last(), p);
    }
}

proof fn lemma_mark_at(fs: Seq<(Seq<char>, Seq<char>)>, p: Seq<(Seq<char>, Seq<char>)>, i: int)
    requires
        0 <= i < fs.len(),
    ensures
        mark_fields(fs, p)[i] == if exists|j: int| 0 <= j < p.len() && #[trigger] p[j].0 == fs[i].0 {
            (seq!['!'] + fs[i].0, fs[i].1)
        } else {
            fs[i]
        },
    decreases fs.len(),
{
    lemma_mark_len(fs.drop_last(), p);
    if i < fs.len() - 1 {
        lemma_mark_at(fs.drop_last(), p, i);
    }
}

/// The position of the first field from `i` on with key `k`, or -1.
pub open spec fn key_at(fs: Seq<(Seq<char>, Seq<char>)>, k: Seq<char>, i: int) -> int
    decreases fs.len() - i,
{
    if i < 0 || i >= fs.len() {
        -1
    } else if fs[i].0 == k {
        i
    } else {
        key_at(fs, k, i + 1)
    }
}

/// A field set to a value: in place where its key is, else added at the end.
pub open spec fn set_field(fs: Seq<(Seq<char>, Seq<char>)>, f: (Seq<char>, Seq<char>)) -> Seq<(Seq<char>, Seq<char>)> {
    let j = key_at(fs, f.0, 0);
    if j >= 0 { fs.update(j, f) } else { fs.push(f) }
}

/// The serialized fields of a record with its preserved values laid over
/// them, in order.
pub open spec fn overlay(fs: Seq<(Seq<char>, Seq<char>)>, preserved: Seq<(Seq<char>, Seq<char>)>) -> Seq<(Seq<char>, Seq<char>)>
    decreases preserved.len(),
{
    if preserved.len() == 0 {
        fs
    } else {
        set_field(overlay(fs, preserved.drop_last()), preserved.last())
    }
}

fn find_key(fs: &Vec<(String, String)>, k: &str) -> (r: Option<usize>)
    ensures
        match r {
            Some(j) => key_at(fields_view(fs@), k@, 0) == j as int && j < fs@.len(),
            None => key_at(fields_view(fs@), k@, 0) == -1,
        },
{
    let mut i: usize = 0;
    while i < fs.len()
        invariant
            i <= fs@.len(),
            key_at(fields_view(fs@), k@, 0) == key_at(fields_view(fs@), k@, i as int),
        decreases fs@.len() - i,
    {
        assert(fields_view(fs@)[i as int].0 == fs@[i as int].0@);
        if same_text(fs[i].0.as_str(), k) {
            return Some(i);
        }
        i = i + 1;
    }
    None
}

/// Lays the preserved values over a record's serialized fields.
pub fn overlay_preserved_fields(fields: Vec<(String, String)>, preserved: &[(String, String)]) -> (r: Vec<(String, String)>)
    ensures
        fields_view(r@) == overlay(fields_view(fields@), fields_view(preserved@)),
{
    let ghost fv = fields_view(fields@);
    let ghost pv = fields_view(preserved@);
    let mut out = fields;
    let mut i: usize = 0;
    assert(pv.subrange(0, 0) =~= Seq::<(Seq<char>, Seq<char>)>::empty());
    while i < preserved.len()
        invariant
            i <= preserved@.len(),
            pv == fields_view(preserved@),
            fields_view(out@) == overlay(fv, pv.subrange(0, i as int)),
        decreases preserved@.len() - i,
    {
        let ghost pre = pv.subrange(0, i + 1);
        assert(pre.drop_last() =~= pv.subrange(0, i as int));
        assert(pre.last() == field_view(preserved@[i as int]));
        let ghost o0 = fields_view(out@);
        let entry = (preserved[i].0.clone(), preserved[i].1.clone());
        match find_key(&out, preserved[i].0.as_str()) {
            Some(j) => {
                let _ = out.remove(j);
                out.insert(j, entry);
                assert(fields_view(out@) =~= o0.update(j as int, field_view(preserved@[i as int])));
            },
            None => {
                out.push(entry);
                assert(fields_view(out@) =~= o0.push(field_view(preserved@[i as int])));
            },
        }
        i = i + 1;
    }
    assert(pv.subrange(0, preserved@.len() as int) =~= pv);
    out
}

} // verus!
