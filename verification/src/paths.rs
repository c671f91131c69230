use vstd::prelude::*;
use vstd::string::*;

verus! {

/// True iff the path string ends with the path separator.
pub open spec fn ends_with_sep(s: Seq<char>) -> bool {
    s.len() > 0 && s[s.len() - 1] == '/'
}

/// The string with every trailing separator removed.
pub open spec fn strip_trailing_seps(s: Seq<char>) -> Seq<char>
    decreases s.len(),
{
    if ends_with_sep(s) {
        strip_trailing_seps(s.drop_last())
    } else {
        s
    }
}

/// Index of the last separator in `s`, or -1 if there is none.
pub open spec fn last_sep(s: Seq<char>) -> int
    decreases s.len(),
{
    if s.len() == 0 {
        -1
    } else if s[s.len() - 1] == '/' {
        s.len() - 1
    } else {
        last_sep(s.drop_last())
    }
}

/// The final path component: what stands after the last separator, once
/// trailing separators are dropped (so `"a/b/"` has basename `"b"`).
pub open spec fn spec_basename(s: Seq<char>) -> Seq<char> {
    let t = strip_trailing_seps(s);
    t.subrange(last_sep(t) + 1, t.len() as int)
}

/// The destination path that one source maps to.
///
/// Rules, in order: a separator-terminated destination receives the source's
/// basename under it; a bare destination with several sources is treated as a
/// directory, again receiving the basename; a bare destination with a single
/// source is taken verbatim.
pub open spec fn spec_map_destination(src: Seq<char>, dest: Seq<char>, multi: bool) -> Seq<char> {
    let base = spec_basename(src);
    if ends_with_sep(dest) {
        dest + base
    } else if multi {
        dest + seq!['/'] + base
    } else {
        dest
    }
}

/// `rel` joined under the directory `dir` with exactly one separator between
/// them; an empty `dir` leaves `rel` alone.
pub open spec fn spec_join(dir: Seq<char>, rel: Seq<char>) -> Seq<char> {
    if dir.len() == 0 {
        rel
    } else if ends_with_sep(dir) {
        dir + rel
    } else {
        dir + seq!['/'] + rel
    }
}

/// A destination that does not end with a separator, with a single source,
/// is returned by the mapper verbatim.
pub proof fn lemma_single_source_verbatim(src: Seq<char>, dest: Seq<char>)
    requires
        !ends_with_sep(dest),
    ensures
        spec_map_destination(src, dest, false) == dest,
{
}

pub fn ends_with_separator(s: &str) -> (r: bool)
    ensures
        r == ends_with_sep(s@),
{
    let n = s.unicode_len();
    if n == 0 {
        false
    } else {
        s.get_char(n - 1) == '/'
    }
}

/// The final component of `path`: what follows the last separator, trailing
/// separators dropped.
pub fn basename(path: &str) -> (r: String)
    ensures
        r@ == spec_basename(path@),
{
    let n = path.unicode_len();
    proof {
        assert(path@.take(n as int) =~= path@);
    }
    let mut end = n;
    while end > 0 && path.get_char(end - 1) == '/'
        invariant
            end <= n,
            n == path@.len(),
            strip_trailing_seps(path@) == strip_trailing_seps(path@.take(end as int)),
        decreases end,
    {
        proof {
            assert(path@.take(end as int).drop_last() =~= path@.take(end - 1));
        }
        end = end - 1;
    }
    proof {
        assert(strip_trailing_seps(path@) =~= path@.take(end as int));
    }
    let mut start = end;
    while start > 0 && path.get_char(start - 1) != '/'
        invariant
            start <= end <= n,
            n == path@.len(),
            last_sep(path@.take(end as int)) == last_sep(path@.take(start as int)),
        decreases start,
    {
        proof {
            assert(path@.take(start as int).drop_last() =~= path@.take(start - 1));
        }
        start = start - 1;
    }
    proof {
        assert(last_sep(path@.take(end as int)) + 1 == start as int);
    }
    let piece = path.substring_char(start, end);
    proof {
        assert(piece@ =~= spec_basename(path@));
    }
    String::from_str(piece)
}

/// Maps one source onto the destination specifier; see `spec_map_destination`.
pub fn map_destination(source_path: &str, destination: &str, is_multi_source: bool) -> (r: String)
    ensures
        r@ == spec_map_destination(source_path@, destination@, is_multi_source),
{
    let base = basename(source_path);
    if ends_with_separator(destination) {
        String::from_str(destination).concat(base.as_str())
    } else if is_multi_source {
        let r = String::from_str(destination).concat("/").concat(base.as_str());
        proof {
            reveal_strlit("/");
            assert(r@ =~= destination@ + seq!['/'] + base@);
        }
        r
    } else {
        String::from_str(destination)
    }
}

/// Joins `rel` under `dir`; see `spec_join`.
pub fn join_under(dir: &str, rel: &str) -> (r: String)
    ensures
        r@ == spec_join(dir@, rel@),
{
    let n = dir.unicode_len();
    if n == 0 {
        String::from_str(rel)
    } else if ends_with_separator(dir) {
        String::from_str(dir).concat(rel)
    } else {
        let r = String::from_str(dir).concat("/").concat(rel);
        proof {
            reveal_strlit("/");
            assert(r@ =~= dir@ + seq!['/'] + rel@);
        }
        r
    }
}

} // verus!
