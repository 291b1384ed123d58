//! Command-line argument lookups and repository address parsing.
use vstd::prelude::*;
use crate::builder::opt_view;
use crate::text::{
    chars_of, first_index_of, first_index_of_exec, same_text, slice_from, slice_range, starts_with,
    starts_with_exec, string_of, trim_end_char, trim_end_char_exec,
};

verus! {

pub fn has_flag(args: &[String], flag: &str) -> (r: bool)
    ensures
        r == exists|i: int| 0 <= i < args@.len() && #[trigger] args@[i]@ == flag@,
{
    let mut i: usize = 0;
    while i < args.len()
        invariant
            i <= args@.len(),
            forall|j: int| 0 <= j < i ==> #[trigger] args@[j]@ != flag@,
        decreases args@.len() - i,
    {
        if same_text(args[i].as_str(), flag) {
            return true;
        }
        i = i + 1;
    }
    false
}

/// The argument that follows the first occurrence of `flag` that has one.
pub open spec fn arg_after(args: Seq<String>, flag: Seq<char>) -> Option<Seq<char>>
    decreases args.len(),
{
    if args.len() < 2 {
        None
    } else if args[0]@ == flag {
        Some(args[1]@)
    } else {
        arg_after(args.subrange(1, args.len() as int), flag)
    }
}

pub fn get_arg(args: &[String], flag: &str) -> (r: Option<String>)
    ensures
        opt_view(r) == arg_after(args@, flag@),
{
    let mut i: usize = 0;
    assert(args@.subrange(0, args@.len() as int) =~= args@);
    while i < args.len()
        invariant
            i <= args@.len(),
            arg_after(args@.subrange(i as int, args@.len() as int), flag@) == arg_after(args@, flag@),
        decreases args@.len() - i,
    {
        let ghost rest = args@.subrange(i as int, args@.len() as int);
        if same_text(args[i].as_str(), flag) && i + 1 < args.len() {
            assert(rest[0] == args@[i as int] && rest[1] == args@[i + 1]);
            return Some(args[i + 1].clone());
        }
        assert(rest.subrange(1, rest.len() as int) =~= args@.subrange(i + 1, args@.len() as int));
        i = i + 1;
    }
    None
}

/// `owner/name` of a repository page address under `https://github.com/`:
/// its first two path segments, after trailing slashes are dropped.
pub open spec fn repo_full_name(url: Seq<char>) -> Option<Seq<char>> {
    let t = trim_end_char(url, '/');
    let prefix = "https://github.com/"@;
    if !starts_with(t, prefix) {
        None
    } else {
        let rest = t.subrange(prefix.len() as int, t.len() as int);
        let k = first_index_of(rest, '/');
        if k < 0 {
            None
        } else {
            let after = rest.subrange(k + 1, rest.len() as int);
            let e = first_index_of(after, '/');
            let second = if e < 0 {
                after
            } else {
                after.subrange(0, e)
            };
            Some(rest.subrange(0, k) + "/"@ + second)
        }
    }
}

pub fn extract_repo_full_name(url: &str) -> (r: Option<String>)
    ensures
        opt_view(r) == repo_full_name(url@),
{
    let uc = chars_of(url);
    let t = trim_end_char_exec(uc.as_slice(), '/');
    let prefix = chars_of("https://github.com/");
    if !starts_with_exec(t.as_slice(), prefix.as_slice()) {
        return None;
    }
    let rest = slice_from(t.as_slice(), prefix.len());
    let rn = rest.len();
    let k = match first_index_of_exec(rest.as_slice(), '/') {
        Some(k) => k,
        None => return None,
    };
    let after = slice_from(rest.as_slice(), k + 1);
    let second = match first_index_of_exec(after.as_slice(), '/') {
        Some(e) => slice_range(after.as_slice(), 0, e),
        None => slice_from(after.as_slice(), 0),
    };
    assert(after@.subrange(0, after@.len() as int) =~= after@);
    let first = slice_range(rest.as_slice(), 0, k);
    let mut out = string_of(first.as_slice());
    out.append("/");
    let second_text = string_of(second.as_slice());
    out.append(second_text.as_str());
    Some(out)
}

} // verus!
