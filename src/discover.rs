//! Candidate repositories found by the two search strategies, merged and
//! filtered, and the new records kept from processing them.
use vstd::prelude::*;
use crate::catalog::Plugin;
use crate::github::{CodeSearchItem, Repository};
use crate::text::same_text;

verus! {

/// A candidate repository with the build-file paths that search found in it.
#[derive(Debug, Clone)]
pub struct RepoMatch {
    pub full_name: String,
    pub gradle_paths: Vec<String>,
}

/// Results beyond this count are cut off by the host's search window.
pub const SHARD_LIMIT: u64 = 1000;

/// The first year searched when a query is sharded by year.
pub const START_YEAR: u32 = 2023;

/// Items per page of a search.
pub const PAGE_SIZE: usize = 100;

/// Pages a search reads at most.
pub const MAX_PAGES: u32 = 10;

pub open spec fn names(ms: Seq<RepoMatch>) -> Seq<Seq<char>> {
    ms.map_values(|m: RepoMatch| m.full_name@)
}

pub open spec fn distinct_names(ms: Seq<RepoMatch>) -> bool {
    forall|i: int, j: int| 0 <= i < j < ms.len() ==> ms[i].full_name@ != ms[j].full_name@
}

fn index_of_name(ms: &Vec<RepoMatch>, upto: usize, name: &str) -> (r: Option<usize>)
    requires
        upto <= ms@.len(),
    ensures
        match r {
            Some(i) => i < upto && ms@[i as int].full_name@ == name@ && forall|j: int|
                0 <= j < i ==> #[trigger] ms@[j].full_name@ != name@,
            None => forall|i: int| 0 <= i < upto ==> #[trigger] ms@[i].full_name@ != name@,
        },
{
    let mut i: usize = 0;
    while i < upto
        invariant
            upto <= ms@.len(),
            i <= upto,
            forall|j: int| 0 <= j < i ==> #[trigger] ms@[j].full_name@ != name@,
        decreases upto - i,
    {
        if same_text(ms[i].full_name.as_str(), name) {
            return Some(i);
        }
        i = i + 1;
    }
    None
}

/// The base candidates followed by the additions whose repository the base
/// does not hold, in order.
pub open spec fn merged(base: Seq<RepoMatch>, additions: Seq<RepoMatch>) -> Seq<RepoMatch>
    decreases additions.len(),
{
    if additions.len() == 0 {
        base
    } else {
        let m = merged(base, additions.drop_last());
        if names(base).contains(additions.last().full_name@) {
            m
        } else {
            m.push(additions.last())
        }
    }
}

/// Appends the additions whose repository the base does not hold yet.
pub fn merge_repo_matches(base: &mut Vec<RepoMatch>, additions: Vec<RepoMatch>)
    ensures
        final(base)@ == merged(old(base)@, additions@),
{
    let ghost orig = base@;
    let ghost adds = additions@;
    let n = base.len();
    let total = additions.len();
    let mut rest = additions;
    assert(adds.subrange(0, 0) =~= Seq::<RepoMatch>::empty());
    assert(adds.subrange(0, total as int) =~= adds);
    while rest.len() > 0
        invariant
            n == orig.len(),
            n <= base@.len(),
            total == adds.len(),
            rest@.len() <= total,
            rest@ == adds.subrange(total - rest@.len(), total as int),
            base@.subrange(0, n as int) == orig,
            base@ == merged(orig, adds.subrange(0, total - rest@.len())),
        decreases rest@.len(),
    {
        let i: usize = total - rest.len();
        let ghost pre = adds.subrange(0, i + 1);
        assert(pre.drop_last() =~= adds.subrange(0, i as int));
        assert(pre.last() == adds[i as int]);
        let a = rest.remove(0);
        assert(a == adds[i as int]);
        assert(rest@ =~= adds.subrange(total - rest@.len(), total as int));
        match index_of_name(base, n, a.full_name.as_str()) {
            Some(k) => {
                assert(orig[k as int] == base@[k as int]);
                assert(names(orig)[k as int] == a.full_name@);
            },
            None => {
                assert(!names(orig).contains(a.full_name@)) by {
                    if names(orig).contains(a.full_name@) {
                        let j = choose|j: int| 0 <= j < orig.len() && names(orig)[j] == a.full_name@;
                        assert(orig[j] == base@[j]);
                    }
                }
                let ghost before = base@;
                base.push(a);
                assert(base@.subrange(0, n as int) =~= before.subrange(0, n as int));
            },
        }
    }
}

/// The base stays in front of a merge, and each later entry is an addition
/// whose repository the base does not hold.
proof fn lemma_merged_shape(base: Seq<RepoMatch>, additions: Seq<RepoMatch>)
    ensures
        merged(base, additions).len() >= base.len(),
        merged(base, additions).subrange(0, base.len() as int) == base,
        forall|k: int|
            base.len() <= k < merged(base, additions).len() ==> exists|j: int|
                0 <= j < additions.len() && #[trigger] merged(base, additions)[k] == additions[j]
                    && !names(base).contains(additions[j].full_name@),
    decreases additions.len(),
{
    if additions.len() == 0 {
        assert(base.subrange(0, base.len() as int) =~= base);
    } else {
        let front = additions.drop_last();
        lemma_merged_shape(base, front);
        let m = merged(base, front);
        if !names(base).contains(additions.last().full_name@) {
            assert(m.push(additions.last()).subrange(0, base.len() as int) =~= m.subrange(0, base.len() as int));
        }
        assert forall|k: int|
            base.len() <= k < merged(base, additions).len() implies exists|j: int|
                0 <= j < additions.len() && #[trigger] merged(base, additions)[k] == additions[j]
                    && !names(base).contains(additions[j].full_name@) by {
            if k < m.len() {
                let j = choose|j: int|
                    0 <= j < front.len() && #[trigger] m[k] == front[j] && !names(base).contains(front[j].full_name@);
                assert(merged(base, additions)[k] == m[k]);
                assert(additions[j] == front[j]);
            } else {
                assert(merged(base, additions)[k] == additions[additions.len() - 1]);
            }
        }
    }
}

/// Candidates of two strategies, each listing a repository at most once,
/// hold every repository of either exactly once when merged.
pub proof fn merged_candidates_are_unique(base: Seq<RepoMatch>, additions: Seq<RepoMatch>)
    requires
        distinct_names(base),
        distinct_names(additions),
    ensures
        distinct_names(merged(base, additions)),
        forall|i: int| 0 <= i < base.len() ==> names(merged(base, additions)).contains(#[trigger] base[i].full_name@),
        forall|i: int| 0 <= i < additions.len() ==> names(merged(base, additions)).contains(#[trigger] additions[i].full_name@),
    decreases additions.len(),
{
    lemma_merged_shape(base, additions);
    let m = merged(base, additions);
    assert forall|i: int| 0 <= i < base.len() implies names(m).contains(#[trigger] base[i].full_name@) by {
        assert(m.subrange(0, base.len() as int)[i] == m[i]);
        assert(names(m)[i] == base[i].full_name@);
    }
    if additions.len() > 0 {
        let front = additions.drop_last();
        let last = additions.last();
        assert(distinct_names(front));
        merged_candidates_are_unique(base, front);
        lemma_merged_shape(base, front);
        let mf = merged(base, front);
        if !names(base).contains(last.full_name@) {
            assert forall|x: int, y: int| 0 <= x < y < m.len() implies m[x].full_name@ != m[y].full_name@ by {
                if y == m.len() - 1 {
                    assert(m[y] == last);
                    assert(m[x] == mf[x]);
                    if x < base.len() {
                        assert(mf.subrange(0, base.len() as int)[x] == mf[x]);
                        assert(names(base)[x] == base[x].full_name@);
                    } else {
                        let j = choose|j: int|
                            0 <= j < front.len() && #[trigger] mf[x] == front[j] && !names(base).contains(front[j].full_name@);
                        assert(front[j] == additions[j]);
                    }
                } else {
                    assert(m[x] == mf[x] && m[y] == mf[y]);
                }
            }
        }
        assert forall|i: int| 0 <= i < additions.len() implies names(m).contains(#[trigger] additions[i].full_name@) by {
            if i < front.len() {
                assert(front[i] == additions[i]);
                assert(names(mf).contains(front[i].full_name@));
                let j = choose|j: int| 0 <= j < mf.len() && names(mf)[j] == front[i].full_name@;
                assert(m[j] == mf[j]);
                assert(names(m)[j] == names(mf)[j]);
            } else if names(base).contains(last.full_name@) {
                let j = choose|j: int| 0 <= j < base.len() && names(base)[j] == last.full_name@;
                assert(names(m).contains(base[j].full_name@));
            } else {
                assert(names(m)[m.len() - 1] == last.full_name@);
            }
        }
    }
}

/// The position of the first candidate from `i` on for repository `n`, or -1.
pub open spec fn first_named(ms: Seq<RepoMatch>, n: Seq<char>, i: int) -> int
    decreases ms.len() - i,
{
    if i < 0 || i >= ms.len() {
        -1
    } else if ms[i].full_name@ == n {
        i
    } else {
        first_named(ms, n, i + 1)
    }
}

/// The build-file paths recorded for repository `n`.
pub open spec fn paths_of(ms: Seq<RepoMatch>, n: Seq<char>) -> Seq<Seq<char>> {
    let j = first_named(ms, n, 0);
    if j >= 0 { ms[j].gradle_paths.deep_view() } else { Seq::empty() }
}

pub open spec fn opt_path(p: Option<String>) -> Seq<Seq<char>> {
    match p {
        Some(p) => seq![p@],
        None => Seq::empty(),
    }
}

/// Candidates with the same names in the same places have their first
/// candidate for each name in the same place.
proof fn lemma_first_named_same(a: Seq<RepoMatch>, b: Seq<RepoMatch>, n: Seq<char>, i: int)
    requires
        names(a) == names(b),
        i >= 0,
    ensures
        first_named(a, n, i) == first_named(b, n, i),
        -1 <= first_named(a, n, i) < a.len(),
        first_named(a, n, i) >= 0 ==> a[first_named(a, n, i)].full_name@ == n,
    decreases a.len() - i,
{
    assert(a.len() == names(a).len() && b.len() == names(b).len());
    if i < a.len() {
        assert(names(a)[i] == a[i].full_name@ && names(b)[i] == b[i].full_name@);
        lemma_first_named_same(a, b, n, i + 1);
    }
}

proof fn lemma_first_named_push(a: Seq<RepoMatch>, x: RepoMatch, n: Seq<char>, i: int)
    requires
        0 <= i <= a.len(),
    ensures
        first_named(a.push(x), n, i) == if first_named(a, n, i) >= 0 {
            first_named(a, n, i)
        } else if x.full_name@ == n {
            a.len() as int
        } else {
            -1
        },
    decreases a.len() - i,
{
    if i < a.len() {
        assert(a.push(x)[i] == a[i]);
        lemma_first_named_push(a, x, n, i + 1);
    } else {
        assert(a.push(x)[i] == x);
        assert(first_named(a.push(x), n, i + 1) == -1);
        assert(first_named(a, n, i) == -1);
    }
}

proof fn lemma_first_named_absent(a: Seq<RepoMatch>, n: Seq<char>, i: int)
    requires
        0 <= i,
        !names(a).contains(n),
    ensures
        first_named(a, n, i) == -1,
    decreases a.len() - i,
{
    if i < a.len() {
        assert(names(a)[i] == a[i].full_name@);
        lemma_first_named_absent(a, n, i + 1);
    }
}

proof fn lemma_first_k(ms: Seq<RepoMatch>, n: Seq<char>, k: int)
    requires
        0 <= k < ms.len(),
        ms[k].full_name@ == n,
        forall|i: int| 0 <= i < k ==> #[trigger] ms[i].full_name@ != n,
    ensures
        first_named(ms, n, 0) == k,
{
    lemma_first_from(ms, n, k, 0);
}

proof fn lemma_first_from(ms: Seq<RepoMatch>, n: Seq<char>, k: int, i: int)
    requires
        0 <= i <= k < ms.len(),
        ms[k].full_name@ == n,
        forall|j: int| 0 <= j < k ==> #[trigger] ms[j].full_name@ != n,
    ensures
        first_named(ms, n, i) == k,
    decreases k - i,
{
    if i < k {
        lemma_first_from(ms, n, k, i + 1);
    }
}

/// Records a search hit on repository `name`: a new candidate when the name
/// is new, and the build-file path, if any, added to its candidate.
pub fn note_candidate(matches: &mut Vec<RepoMatch>, name: &str, path: Option<String>)
    ensures
        names(final(matches)@) == if names(old(matches)@).contains(name@) {
            names(old(matches)@)
        } else {
            names(old(matches)@).push(name@)
        },
        distinct_names(old(matches)@) ==> distinct_names(final(matches)@),
        forall|x: Seq<char>| #[trigger] paths_of(final(matches)@, x) == if x == name@ {
            paths_of(old(matches)@, x) + opt_path(path)
        } else {
            paths_of(old(matches)@, x)
        },
{
    let ghost pv = opt_path(path);
    let n = matches.len();
    match index_of_name(matches, n, name) {
        Some(k) => {
            assert(names(old(matches)@)[k as int] == name@);
            proof {
                lemma_first_named_same(old(matches)@, old(matches)@, name@, 0);
                assert(first_named(old(matches)@, name@, 0) == k as int) by {
                    lemma_first_k(old(matches)@, name@, k as int);
                }
            }
            if let Some(p) = path {
                let ghost before = matches@;
                let mut m = matches.remove(k);
                let ghost mp = m.gradle_paths.deep_view();
                m.gradle_paths.push(p);
                assert(m.gradle_paths.deep_view() =~= mp.push(p@));
                matches.insert(k, m);
                assert(matches@ =~= before.update(k as int, m));
                assert(names(matches@) =~= names(before));
                assert forall|x: Seq<char>| #[trigger] paths_of(matches@, x) == if x == name@ {
                    paths_of(before, x) + pv
                } else {
                    paths_of(before, x)
                } by {
                    lemma_first_named_same(matches@, before, x, 0);
                    let j = first_named(before, x, 0);
                    if j >= 0 && j != k {
                        assert(matches@[j] == before[j]);
                    }
                    if x == name@ {
                        assert(pv =~= seq![p@]);
                    }
                }
                assert(distinct_names(before) ==> distinct_names(matches@)) by {
                    if distinct_names(before) {
                        assert forall|x: int, y: int| 0 <= x < y < matches@.len() implies matches@[x].full_name@
                            != matches@[y].full_name@ by {
                            assert(names(matches@)[x] == names(before)[x]);
                            assert(names(matches@)[y] == names(before)[y]);
                        }
                    }
                }
            } else {
                assert forall|x: Seq<char>| #[trigger] paths_of(matches@, x) == if x == name@ {
                    paths_of(old(matches)@, x) + pv
                } else {
                    paths_of(old(matches)@, x)
                } by {
                    assert(pv =~= Seq::<Seq<char>>::empty());
                    assert(paths_of(old(matches)@, x) + pv =~= paths_of(old(matches)@, x));
                }
            }
        },
        None => {
            assert(!names(old(matches)@).contains(name@)) by {
                if names(old(matches)@).contains(name@) {
                    let j = choose|j: int| 0 <= j < n && names(old(matches)@)[j] == name@;
                }
            }
            let mut paths: Vec<String> = Vec::new();
            if let Some(p) = path {
                paths.push(p);
            }
            assert(paths.deep_view() =~= pv);
            let ghost before = matches@;
            let entry = RepoMatch { full_name: String::from_str(name), gradle_paths: paths };
            matches.push(entry);
            assert(names(final(matches)@) =~= names(old(matches)@).push(name@));
            assert forall|x: Seq<char>| #[trigger] paths_of(matches@, x) == if x == name@ {
                paths_of(before, x) + pv
            } else {
                paths_of(before, x)
            } by {
                lemma_first_named_push(before, entry, x, 0);
                lemma_first_named_same(before, before, x, 0);
                let j = first_named(before, x, 0);
                if j >= 0 {
                    assert(matches@[j] == before[j]);
                }
                if x == name@ {
                    lemma_first_named_absent(before, x, 0);
                    assert(Seq::<Seq<char>>::empty() + pv =~= pv);
                }
            }
        },
    }
}

/// Repositories that never count as candidates.
pub open spec fn excluded_repos() -> Seq<Seq<char>> {
    seq![
        "AllayMC/Allay"@,
        "AllayMC/StateUpdater"@,
        "AllayMC/EncryptMyPack"@,
        "AllayMC/AllayGradle"@,
        "AllayMC/NBT"@,
        "AllayMC/JavaPluginTemplate"@,
        "AllayPlus/AllayPlus"@,
        "MineBuilders/allaymc-kotlin-plugin-template"@,
    ]
}

fn excluded_repo(i: usize) -> (r: &'static str)
    requires
        i < 8,
    ensures
        r@ == excluded_repos()[i as int],
{
    if i == 0 {
        "AllayMC/Allay"
    } else if i == 1 {
        "AllayMC/StateUpdater"
    } else if i == 2 {
        "AllayMC/EncryptMyPack"
    } else if i == 3 {
        "AllayMC/AllayGradle"
    } else if i == 4 {
        "AllayMC/NBT"
    } else if i == 5 {
        "AllayMC/JavaPluginTemplate"
    } else if i == 6 {
        "AllayPlus/AllayPlus"
    } else {
        "MineBuilders/allaymc-kotlin-plugin-template"
    }
}

pub fn is_excluded(name: &str) -> (r: bool)
    ensures
        r == excluded_repos().contains(name@),
{
    let mut i: usize = 0;
    while i < 8
        invariant
            i <= 8,
            forall|j: int| 0 <= j < i ==> excluded_repos()[j] != name@,
        decreases 8 - i,
    {
        if same_text(excluded_repo(i), name) {
            return true;
        }
        i = i + 1;
    }
    assert(!excluded_repos().contains(name@)) by {
        if excluded_repos().contains(name@) {
            let j = choose|j: int| 0 <= j < 8 && excluded_repos()[j] == name@;
        }
    }
    false
}

pub fn is_known(names: &[String], name: &str) -> (r: bool)
    ensures
        r == exists|i: int| 0 <= i < names@.len() && #[trigger] names@[i]@ == name@,
{
    let mut i: usize = 0;
    while i < names.len()
        invariant
            i <= names@.len(),
            forall|j: int| 0 <= j < i ==> #[trigger] names@[j]@ != name@,
        decreases names@.len() - i,
    {
        if same_text(names[i].as_str(), name) {
            return true;
        }
        i = i + 1;
    }
    false
}

/// A code-search hit counts unless its repository is a fork or already
/// catalogued.
pub open spec fn code_hit_counts(item: CodeSearchItem, existing: Seq<String>) -> bool {
    !item.repository.fork && !(exists|i: int| 0 <= i < existing.len() && #[trigger] existing[i]@
        == item.repository.full_name@)
}

/// The build-file paths that counting hits give repository `n`, in order.
pub open spec fn hit_paths(items: Seq<CodeSearchItem>, existing: Seq<String>, n: Seq<char>) -> Seq<Seq<char>>
    decreases items.len(),
{
    if items.len() == 0 {
        Seq::empty()
    } else {
        let it = items.last();
        hit_paths(items.drop_last(), existing, n) + if code_hit_counts(it, existing) && it.repository.full_name@ == n {
            seq![it.path@]
        } else {
            Seq::empty()
        }
    }
}

/// Adds the hits of one code-search page: each counting hit's build file
/// under its repository.
pub fn add_code_hits(matches: &mut Vec<RepoMatch>, items: &[CodeSearchItem], existing: &[String])
    ensures
        distinct_names(old(matches)@) ==> distinct_names(final(matches)@),
        forall|i: int| 0 <= i < old(matches)@.len() ==> names(final(matches)@).contains(#[trigger] names(old(matches)@)[i]),
        forall|i: int|
            0 <= i < items@.len() && code_hit_counts(#[trigger] items@[i], existing@) ==> names(
                final(matches)@,
            ).contains(items@[i].repository.full_name@),
        forall|k: int|
            0 <= k < final(matches)@.len() ==> names(old(matches)@).contains(#[trigger] names(final(matches)@)[k])
                || exists|i: int|
                0 <= i < items@.len() && code_hit_counts(items@[i], existing@) && #[trigger] items@[i].repository.full_name@
                    == names(final(matches)@)[k],
        forall|x: Seq<char>| #[trigger] paths_of(final(matches)@, x) == paths_of(old(matches)@, x) + hit_paths(items@, existing@, x),
{
    let mut i: usize = 0;
    assert forall|x: Seq<char>| #[trigger] paths_of(matches@, x) == paths_of(old(matches)@, x) + hit_paths(items@.subrange(0, 0), existing@, x) by {
        assert(items@.subrange(0, 0).len() == 0);
        assert(paths_of(old(matches)@, x) + Seq::<Seq<char>>::empty() =~= paths_of(old(matches)@, x));
    }
    while i < items.len()
        invariant
            i <= items@.len(),
            distinct_names(old(matches)@) ==> distinct_names(matches@),
            forall|j: int| 0 <= j < old(matches)@.len() ==> names(matches@).contains(#[trigger] names(old(matches)@)[j]),
            forall|j: int|
                0 <= j < i && code_hit_counts(#[trigger] items@[j], existing@) ==> names(matches@).contains(
                    items@[j].repository.full_name@,
                ),
            forall|k: int|
                0 <= k < matches@.len() ==> names(old(matches)@).contains(#[trigger] names(matches@)[k])
                    || exists|j: int|
                    0 <= j < items@.len() && code_hit_counts(items@[j], existing@)
                        && #[trigger] items@[j].repository.full_name@ == names(matches@)[k],
            forall|x: Seq<char>| #[trigger] paths_of(matches@, x) == paths_of(old(matches)@, x) + hit_paths(items@.subrange(0, i as int), existing@, x),
        decreases items@.len() - i,
    {
        let item = &items[i];
        let ghost pre = items@.subrange(0, i + 1);
        assert(pre.drop_last() =~= items@.subrange(0, i as int));
        assert(pre.last() == items@[i as int]);
        let ghost before = matches@;
        if !item.repository.fork && !is_known(existing, item.repository.full_name.as_str()) {
            let p = item.path.clone();
            note_candidate(matches, item.repository.full_name.as_str(), Some(p));
            proof {
                lemma_names_grow(before, matches@, item.repository.full_name@);
            }
            assert forall|x: Seq<char>| #[trigger] paths_of(matches@, x) == paths_of(old(matches)@, x) + hit_paths(pre, existing@, x) by {
                if x == item.repository.full_name@ {
                    assert(paths_of(old(matches)@, x) + hit_paths(items@.subrange(0, i as int), existing@, x) + seq![item.path@]
                        =~= paths_of(old(matches)@, x) + (hit_paths(items@.subrange(0, i as int), existing@, x) + seq![item.path@]));
                } else {
                    assert(hit_paths(pre, existing@, x) =~= hit_paths(items@.subrange(0, i as int), existing@, x));
                }
            }
        } else {
            assert forall|x: Seq<char>| #[trigger] paths_of(matches@, x) == paths_of(old(matches)@, x) + hit_paths(pre, existing@, x) by {
                assert(hit_paths(pre, existing@, x) =~= hit_paths(items@.subrange(0, i as int), existing@, x));
            }
        }
        i = i + 1;
    }
    assert(items@.subrange(0, items@.len() as int) =~= items@);
}

/// After noting a name, every earlier name is still there, the noted name is
/// there, and nothing else is new.
proof fn lemma_names_grow(before: Seq<RepoMatch>, after: Seq<RepoMatch>, name: Seq<char>)
    requires
        names(after) == if names(before).contains(name) {
            names(before)
        } else {
            names(before).push(name)
        },
    ensures
        forall|x: Seq<char>| names(before).contains(x) ==> names(after).contains(x),
        names(after).contains(name),
        forall|k: int| 0 <= k < after.len() ==> names(before).contains(#[trigger] names(after)[k]) || names(after)[k] == name,
{
    if !names(before).contains(name) {
        assert forall|x: Seq<char>| names(before).contains(x) implies names(after).contains(x) by {
            let j = choose|j: int| 0 <= j < names(before).len() && names(before)[j] == x;
            assert(names(after)[j] == x);
        }
        assert(names(after)[names(after).len() - 1] == name);
    }
}

/// A topic-search hit counts unless its repository is excluded or already
/// catalogued.
pub open spec fn topic_hit_counts(repo: Repository, existing: Seq<String>) -> bool {
    !excluded_repos().contains(repo.full_name@) && !(exists|i: int| 0 <= i < existing.len()
        && #[trigger] existing[i]@ == repo.full_name@)
}

/// Adds the hits of one topic-search page as candidates without known build
/// files.
pub fn add_topic_hits(matches: &mut Vec<RepoMatch>, repos: &[Repository], existing: &[String])
    ensures
        distinct_names(old(matches)@) ==> distinct_names(final(matches)@),
        forall|i: int| 0 <= i < old(matches)@.len() ==> names(final(matches)@).contains(#[trigger] names(old(matches)@)[i]),
        forall|i: int|
            0 <= i < repos@.len() && topic_hit_counts(#[trigger] repos@[i], existing@) ==> names(
                final(matches)@,
            ).contains(repos@[i].full_name@),
        forall|k: int|
            0 <= k < final(matches)@.len() ==> names(old(matches)@).contains(#[trigger] names(final(matches)@)[k])
                || exists|i: int|
                0 <= i < repos@.len() && topic_hit_counts(repos@[i], existing@) && #[trigger] repos@[i].full_name@
                    == names(final(matches)@)[k],
{
    let mut i: usize = 0;
    while i < repos.len()
        invariant
            i <= repos@.len(),
            distinct_names(old(matches)@) ==> distinct_names(matches@),
            forall|j: int| 0 <= j < old(matches)@.len() ==> names(matches@).contains(#[trigger] names(old(matches)@)[j]),
            forall|j: int|
                0 <= j < i && topic_hit_counts(#[trigger] repos@[j], existing@) ==> names(matches@).contains(
                    repos@[j].full_name@,
                ),
            forall|k: int|
                0 <= k < matches@.len() ==> names(old(matches)@).contains(#[trigger] names(matches@)[k])
                    || exists|j: int|
                    0 <= j < repos@.len() && topic_hit_counts(repos@[j], existing@)
                        && #[trigger] repos@[j].full_name@ == names(matches@)[k],
        decreases repos@.len() - i,
    {
        let repo = &repos[i];
        if !is_excluded(repo.full_name.as_str()) && !is_known(existing, repo.full_name.as_str()) {
            let ghost before = matches@;
            note_candidate(matches, repo.full_name.as_str(), None);
            proof {
                lemma_names_grow(before, matches@, repo.full_name@);
            }
        }
        i = i + 1;
    }
}

/// Whether a search continues to the page after `page`, which held
/// `page_items` items: only after a full page, up to the page limit.
pub fn next_page_wanted(page: u32, page_items: usize) -> (r: bool)
    ensures
        r == (page_items >= PAGE_SIZE && page < MAX_PAGES),
{
    page_items >= PAGE_SIZE && page < MAX_PAGES
}

/// Whether a query's result count exceeds the search window, so that it must
/// be sharded by year.
pub fn needs_sharding(total_count: u64) -> (r: bool)
    ensures
        r == (total_count > SHARD_LIMIT),
{
    total_count > SHARD_LIMIT
}

/// A repository that processing skips: a template, archived, or opted out by
/// its `noindex` topic.
pub open spec fn skipped(repo: Repository) -> bool {
    repo.is_template || repo.archived || exists|i: int| 0 <= i < repo.topics@.len() && #[trigger] repo.topics@[i]@
        == "noindex"@
}

pub fn skip_repository(repo: &Repository) -> (r: bool)
    ensures
        r == skipped(*repo),
{
    repo.is_template || repo.archived || is_known(repo.topics.as_slice(), "noindex")
}

pub open spec fn id_seen(seen: Seq<String>, id: Seq<char>) -> bool {
    exists|i: int| 0 <= i < seen.len() && #[trigger] seen[i]@ == id
}

/// Keeps the records whose id is not seen yet, in order, and notes their
/// ids as seen: each record is either already known or kept once.
#[verifier::spinoff_prover]
#[verifier::rlimit(40)]
pub fn keep_new_plugins(seen: &mut Vec<String>, plugins: Vec<Plugin>, out: &mut Vec<Plugin>)
    ensures
        final(out)@.len() >= old(out)@.len(),
        final(out)@.subrange(0, old(out)@.len() as int) == old(out)@,
        forall|k: int|
            old(out)@.len() <= k < final(out)@.len() ==> !id_seen(old(seen)@, #[trigger] final(out)@[k].id@),
        forall|x: int, y: int|
            old(out)@.len() <= x < y < final(out)@.len() ==> #[trigger] final(out)@[x].id@ != #[trigger] final(out)@[y].id@,
        forall|j: int|
            0 <= j < plugins@.len() ==> id_seen(old(seen)@, #[trigger] plugins@[j].id@) || exists|k: int|
                old(out)@.len() <= k < final(out)@.len() && final(out)@[k].id@ == plugins@[j].id@,
        final(seen)@.len() >= old(seen)@.len(),
        forall|i: int| 0 <= i < old(seen)@.len() ==> #[trigger] final(seen)@[i] == old(seen)@[i],
        forall|k: int| old(out)@.len() <= k < final(out)@.len() ==> id_seen(final(seen)@, #[trigger] final(out)@[k].id@),
{
    let ghost all = plugins@;
    let mut rest = plugins;
    let n0 = out.len();
    let s0 = seen.len();
    let total = rest.len();
    assert(rest@ =~= all.subrange(0, total as int));
    while rest.len() > 0
        invariant
            n0 == old(out)@.len(),
            s0 == old(seen)@.len(),
            total == all.len(),
            rest@.len() <= total,
            rest@ == all.subrange(total - rest@.len(), total as int),
            out@.len() >= n0,
            seen@.len() >= s0,
            out@.subrange(0, n0 as int) == old(out)@,
            forall|i: int| 0 <= i < s0 ==> #[trigger] seen@[i] == old(seen)@[i],
            forall|i: int| s0 <= i < seen@.len() ==> exists|k: int| n0 <= k < out@.len() && #[trigger] seen@[i]@ == out@[k].id@,
            forall|k: int|
                n0 <= k < out@.len() ==> !id_seen(old(seen)@, #[trigger] out@[k].id@) && id_seen(seen@, out@[k].id@),
            forall|x: int, y: int| n0 <= x < y < out@.len() ==> #[trigger] out@[x].id@ != #[trigger] out@[y].id@,
            forall|j: int|
                0 <= j < total - rest@.len() ==> id_seen(old(seen)@, #[trigger] all[j].id@) || exists|k: int|
                    n0 <= k < out@.len() && out@[k].id@ == all[j].id@,
        decreases rest@.len(),
    {
        let ghost consumed = (total - rest@.len()) as int;
        let ghost old_rest = rest@;
        let p = rest.remove(0);
        assert(p == all[consumed]);
        assert(rest@ =~= all.subrange(total - rest@.len(), total as int));
        let ghost pid = p.id@;
        if !is_known(seen.as_slice(), p.id.as_str()) {
            let ghost before_out = out@;
            let ghost before_seen = seen@;
            assert(!id_seen(before_seen, pid));
            let id = p.id.clone();
            seen.push(id);
            out.push(p);
            assert(out@.subrange(0, n0 as int) =~= before_out.subrange(0, n0 as int));
            assert(out@[out@.len() - 1].id@ == pid);
            assert forall|i: int| s0 <= i < seen@.len() implies exists|k: int| n0 <= k < out@.len() && #[trigger] seen@[i]@ == out@[k].id@ by {
                if i < before_seen.len() {
                    let k = choose|k: int| n0 <= k < before_out.len() && #[trigger] before_seen[i]@ == before_out[k].id@;
                    assert(out@[k] == before_out[k]);
                } else {
                    assert(seen@[i]@ == out@[out@.len() - 1].id@);
                }
            }
            assert forall|k: int|
                n0 <= k < out@.len() implies !id_seen(old(seen)@, #[trigger] out@[k].id@) && id_seen(seen@, out@[k].id@) by {
                if k < before_out.len() {
                    assert(out@[k] == before_out[k]);
                    assert(id_seen(before_seen, before_out[k].id@));
                    let i = choose|i: int| 0 <= i < before_seen.len() && #[trigger] before_seen[i]@ == before_out[k].id@;
                    assert(seen@[i] == before_seen[i]);
                } else {
                    assert(seen@[seen@.len() - 1]@ == out@[k].id@);
                    if id_seen(old(seen)@, out@[k].id@) {
                        let i = choose|i: int| 0 <= i < old(seen)@.len() && #[trigger] old(seen)@[i]@ == out@[k].id@;
                        assert(before_seen[i] == old(seen)@[i]);
                    }
                }
            }
            assert forall|x: int, y: int| n0 <= x < y < out@.len() implies #[trigger] out@[x].id@ != #[trigger] out@[y].id@ by {
                if y == out@.len() - 1 {
                    assert(out@[x] == before_out[x]);
                    assert(id_seen(before_seen, before_out[x].id@));
                    assert(out@[y].id@ == pid);
                    assert(out@[x].id@ != out@[y].id@);
                } else {
                    assert(out@[x] == before_out[x] && out@[y] == before_out[y]);
                    assert(before_out[x].id@ != before_out[y].id@);
                }
            }
            assert forall|j: int|
                0 <= j < total - rest@.len() implies id_seen(old(seen)@, #[trigger] all[j].id@) || exists|k: int|
                    n0 <= k < out@.len() && out@[k].id@ == all[j].id@ by {
                if j < consumed {
                    if !id_seen(old(seen)@, all[j].id@) {
                        let k = choose|k: int| n0 <= k < before_out.len() && before_out[k].id@ == all[j].id@;
                        assert(out@[k] == before_out[k]);
                    }
                } else {
                    assert(out@[out@.len() - 1].id@ == all[j].id@);
                }
            }
        } else {
            assert(forall|x: int, y: int| n0 <= x < y < out@.len() ==> #[trigger] out@[x].id@ != #[trigger] out@[y].id@);
            assert(id_seen(seen@, pid));
            let ghost i = choose|i: int| 0 <= i < seen@.len() && #[trigger] seen@[i]@ == pid;
            assert forall|j: int|
                0 <= j < total - rest@.len() implies id_seen(old(seen)@, #[trigger] all[j].id@) || exists|k: int|
                    n0 <= k < out@.len() && out@[k].id@ == all[j].id@ by {
                if j == consumed {
                    if i < s0 {
                        assert(old(seen)@[i]@ == pid);
                    } else {
                        let k = choose|k: int| n0 <= k < out@.len() && #[trigger] seen@[i]@ == out@[k].id@;
                        assert(out@[k].id@ == all[j].id@);
                    }
                }
            }
        }
    }
}

} // verus!
