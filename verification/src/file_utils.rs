use vstd::prelude::*;
use vstd::string::StrSliceExecFns;

use crate::text::str_eq;

verus! {

/// `sub` occurs as a contiguous run inside `s`.
pub open spec fn contains_seq(s: Seq<char>, sub: Seq<char>) -> bool {
    exists|i: int| 0 <= i && i + sub.len() <= s.len() && #[trigger] s.subrange(i, i + sub.len())
        == sub
}

/// Whether `sub` occurs as a contiguous run inside `s`.
#[verifier::loop_isolation(false)]
pub fn str_contains(s: &str, sub: &str) -> (r: bool)
    ensures
        r == contains_seq(s@, sub@),
{
    let n = s.unicode_len();
    let m = sub.unicode_len();
    if m > n {
        return false;
    }
    if m == 0 {
        proof {
            assert(s@.subrange(0, 0 + sub@.len() as int) =~= sub@);
        }
        return true;
    }
    let limit = n - m + 1;
    let mut i: usize = 0;
    while i < limit
        invariant
            0 <= i <= limit,
            1 <= m <= n,
            limit == n - m + 1,
            n == s@.len(),
            m == sub@.len(),
            forall|i2: int| 0 <= i2 < i ==> #[trigger] s@.subrange(i2, i2 + sub@.len()) != sub@,
        decreases limit - i,
    {
        let mut j: usize = 0;
        let mut all_match = true;
        while j < m && all_match
            invariant
                0 <= j <= m,
                i + m <= n,
                all_match ==> forall|j2: int| 0 <= j2 < j ==> s@[i + j2] == sub@[j2],
                !all_match ==> s@.subrange(i as int, i + sub@.len()) != sub@,
            decreases m - j + (if all_match { 1int } else { 0int }),
        {
            if s.get_char(i + j) != sub.get_char(j) {
                proof {
                    assert(s@.subrange(i as int, i + sub@.len())[j as int] != sub@[j as int]);
                }
                all_match = false;
            } else {
                j = j + 1;
            }
        }
        if all_match {
            proof {
                assert(s@.subrange(i as int, i + sub@.len()) =~= sub@);
            }
            return true;
        }
        i = i + 1;
    }
    false
}

/// A path the file discovery must skip: it holds a virtual-environment
/// directory, a test or documentation directory, or a package-init file.
pub open spec fn path_ignored(s: Seq<char>) -> bool {
    ||| contains_seq(s, ".venv"@)
    ||| contains_seq(s, "tests"@)
    ||| contains_seq(s, "docs"@)
    ||| contains_seq(s, "__init__.py"@)
}

/// Whether a path matches the fixed ignore list.
pub fn is_path_ignored(path: &String) -> (r: bool)
    ensures
        r == path_ignored(path@),
{
    str_contains(path.as_str(), ".venv") || str_contains(path.as_str(), "tests") || str_contains(
        path.as_str(),
        "docs",
    ) || str_contains(path.as_str(), "__init__.py")
}

/// The last index below `i` holding `c`, or `-1` when there is none.
pub open spec fn last_index_of(s: Seq<char>, c: char, i: int) -> int
    decreases i,
{
    if i <= 0 || i > s.len() {
        -1
    } else if s[i - 1] == c {
        i - 1
    } else {
        last_index_of(s, c, i - 1)
    }
}

/// The file name of a path: everything after its last separator.
pub open spec fn file_name_of(s: Seq<char>) -> Seq<char> {
    s.skip(last_index_of(s, '/', s.len() as int) + 1)
}

/// The extension of a path: what follows the last dot of its file name,
/// absent when the file name has no dot or only a leading one.
pub open spec fn extension_of(s: Seq<char>) -> Option<Seq<char>> {
    let f = file_name_of(s);
    let d = last_index_of(f, '.', f.len() as int);
    if d > 0 {
        Some(f.skip(d + 1))
    } else {
        None
    }
}

/// A valid output path carries the diagram extension.
pub open spec fn valid_output_path(s: Seq<char>) -> bool {
    extension_of(s) == Some("puml"@)
}

/// The last index below `i` holding `c`, if any.
#[verifier::loop_isolation(false)]
fn find_last(s: &str, c: char, from: usize) -> (r: Option<usize>)
    requires
        from <= s@.len(),
    ensures
        match r {
            Some(d) => d < from && last_index_of(s@, c, from as int) == d as int,
            None => last_index_of(s@, c, from as int) == -1,
        },
{
    let mut i: usize = from;
    while i > 0
        invariant
            0 <= i <= from,
            from <= s@.len(),
            last_index_of(s@, c, from as int) == last_index_of(s@, c, i as int),
        decreases i,
    {
        if s.get_char(i - 1) == c {
            return Some(i - 1);
        }
        i = i - 1;
    }
    None
}

/// Whether a path names a file with the diagram extension.
pub fn has_puml_extension(path: &String) -> (r: bool)
    ensures
        r == valid_output_path(path@),
{
    let n = path.as_str().unicode_len();
    let fname_start: usize = match find_last(path.as_str(), '/', n) {
        Some(d) => d + 1,
        None => 0,
    };
    let fname = path.as_str().substring_char(fname_start, n);
    proof {
        assert(fname@ == file_name_of(path@));
    }
    let fl = fname.unicode_len();
    match find_last(fname, '.', fl) {
        Some(d) => {
            if d > 0 {
                let ext = fname.substring_char(d + 1, fl);
                str_eq(ext, "puml")
            } else {
                false
            }
        },
        None => false,
    }
}

} // verus!
