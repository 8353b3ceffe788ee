use vstd::prelude::*;
use vstd::string::StrSliceExecFns;
use vstd::string::StringExecFns;

use crate::text::{clone_strings, str_eq, string_vecs_eq, views_of};

verus! {

// ---------------------------------------------------------------------------
// Splitting and joining dotted import paths.
// ---------------------------------------------------------------------------

/// The pieces of `s[start..]` split on `'.'`, where `cur` is the scan
/// position inside the current piece (`start <= cur`). Splitting an empty
/// string yields one empty piece, as splitting in Python does.
pub open spec fn split_from(s: Seq<char>, start: int, cur: int) -> Seq<Seq<char>>
    decreases s.len() - cur + 1,
{
    if start < 0 || cur < start || cur > s.len() {
        Seq::empty()
    } else if cur == s.len() {
        seq![s.subrange(start, cur)]
    } else if s[cur] == '.' {
        seq![s.subrange(start, cur)] + split_from(s, cur + 1, cur + 1)
    } else {
        split_from(s, start, cur + 1)
    }
}

/// The segments of a dotted import path.
pub open spec fn split_dotted(s: Seq<char>) -> Seq<Seq<char>> {
    split_from(s, 0, 0)
}

/// The segments joined back with `'.'` between them.
pub open spec fn join_dotted(parts: Seq<Seq<char>>) -> Seq<char>
    decreases parts.len(),
{
    if parts.len() == 0 {
        Seq::empty()
    } else if parts.len() == 1 {
        parts[0]
    } else {
        parts[0] + seq!['.'] + join_dotted(parts.drop_first())
    }
}

/// Appending one more segment appends a dot and the segment.
pub proof fn lemma_join_push(parts: Seq<Seq<char>>, x: Seq<char>)
    requires
        parts.len() >= 1,
    ensures
        join_dotted(parts.push(x)) == join_dotted(parts) + seq!['.'] + x,
    decreases parts.len(),
{
    if parts.len() == 1 {
        assert(parts.push(x).drop_first() =~= seq![x]);
        assert(parts.push(x).len() == 2);
        assert(parts.push(x)[0] == parts[0]);
        assert(join_dotted(seq![x]) == seq![x][0]);
        assert(seq![x][0] == x);
        assert(join_dotted(parts.push(x)) == parts[0] + seq!['.'] + x);
    } else {
        lemma_join_push(parts.drop_first(), x);
        assert(parts.push(x).drop_first() =~= parts.drop_first().push(x));
    }
}

/// Split a dotted import path into its segments.
#[verifier::loop_isolation(false)]
pub fn split_import(import: &str) -> (r: Vec<String>)
    ensures
        views_of(r@) == split_dotted(import@),
        r@.len() >= 1,
{
    let n = import.unicode_len();
    let mut parts: Vec<String> = Vec::new();
    let mut start: usize = 0;
    let mut cur: usize = 0;
    while cur < n
        invariant
            0 <= start <= cur <= n,
            n == import@.len(),
            split_dotted(import@) == views_of(parts@) + split_from(import@, start as int, cur as int),
        decreases n - cur,
    {
        if import.get_char(cur) == '.' {
            let ghost pre = parts@;
            let piece = import.substring_char(start, cur).to_owned();
            parts.push(piece);
            proof {
                assert(views_of(parts@) =~= views_of(pre) + seq![
                    import@.subrange(start as int, cur as int),
                ]);
            }
            start = cur + 1;
        }
        cur = cur + 1;
    }
    let ghost pre = parts@;
    let piece = import.substring_char(start, n).to_owned();
    parts.push(piece);
    proof {
        assert(split_from(import@, start as int, n as int) == seq![
            import@.subrange(start as int, n as int),
        ]);
        assert(views_of(parts@) =~= views_of(pre) + seq![
            import@.subrange(start as int, n as int),
        ]);
    }
    parts
}

/// Join path segments with dots.
#[verifier::loop_isolation(false)]
pub fn join_segments(parts: &Vec<String>) -> (r: String)
    ensures
        r@ == join_dotted(views_of(parts@)),
{
    let ghost pv = views_of(parts@);
    let mut out = String::new();
    let mut j: usize = 0;
    while j < parts.len()
        invariant
            0 <= j <= parts.len(),
            out@ == join_dotted(pv.take(j as int)),
        decreases parts.len() - j,
    {
        if j == 0 {
            out.append(parts[0].as_str());
            proof {
                assert(pv.take(1int) =~= seq![pv[0]]);
                assert(Seq::<char>::empty() + pv[0] =~= pv[0]);
            }
        } else {
            out.append(".");
            out.append(parts[j].as_str());
            proof {
                lemma_join_push(pv.take(j as int), pv[j as int]);
                assert(pv.take(j as int).push(pv[j as int]) =~= pv.take(j as int + 1));
                assert("."@ =~= seq!['.']) by {
                    reveal_strlit(".");
                }
            }
        }
        j = j + 1;
    }
    proof {
        assert(pv.take(pv.len() as int) =~= pv);
    }
    out
}

// ---------------------------------------------------------------------------
// The project filesystem model: which directories and which source files
// exist under the project root, each as a path of segments relative to the
// root.
// ---------------------------------------------------------------------------

/// What the import resolver sees of the project tree: the directories and
/// the files under the root, as segment paths relative to it.
#[derive(Debug, Clone)]
pub struct ProjectFs {
    pub dirs: Vec<Vec<String>>,
    pub files: Vec<Vec<String>>,
}

pub open spec fn path_views(ps: Seq<Vec<String>>) -> Seq<Seq<Seq<char>>> {
    ps.map_values(|p: Vec<String>| views_of(p@))
}

impl ProjectFs {
    /// A directory with this segment path exists under the root.
    pub open spec fn is_dir_spec(self, path: Seq<Seq<char>>) -> bool {
        path_views(self.dirs@).contains(path)
    }

    /// A file with this segment path exists under the root.
    pub open spec fn is_file_spec(self, path: Seq<Seq<char>>) -> bool {
        path_views(self.files@).contains(path)
    }

    pub fn new() -> (r: Self)
        ensures
            r.dirs@.len() == 0,
            r.files@.len() == 0,
    {
        ProjectFs { dirs: Vec::new(), files: Vec::new() }
    }

    /// Record a directory under the root.
    pub fn add_dir(&mut self, path: Vec<String>)
        ensures
            final(self).dirs@ == old(self).dirs@.push(path),
            final(self).files@ == old(self).files@,
    {
        self.dirs.push(path);
    }

    /// Record a file under the root.
    pub fn add_file(&mut self, path: Vec<String>)
        ensures
            final(self).files@ == old(self).files@.push(path),
            final(self).dirs@ == old(self).dirs@,
    {
        self.files.push(path);
    }

    /// Whether a directory with this segment path is recorded.
    #[verifier::loop_isolation(false)]
    pub fn has_dir(&self, path: &Vec<String>) -> (r: bool)
        ensures
            r == self.is_dir_spec(views_of(path@)),
    {
        let mut i: usize = 0;
        while i < self.dirs.len()
            invariant
                0 <= i <= self.dirs.len(),
                forall|j: int| 0 <= j < i ==> path_views(self.dirs@)[j] != views_of(path@),
            decreases self.dirs.len() - i,
        {
            if string_vecs_eq(&self.dirs[i], path) {
                proof {
                    assert(path_views(self.dirs@)[i as int] == views_of(path@));
                }
                return true;
            }
            i = i + 1;
        }
        false
    }

    /// Whether a file with this segment path is recorded.
    #[verifier::loop_isolation(false)]
    pub fn has_file(&self, path: &Vec<String>) -> (r: bool)
        ensures
            r == self.is_file_spec(views_of(path@)),
    {
        let mut i: usize = 0;
        while i < self.files.len()
            invariant
                0 <= i <= self.files.len(),
                forall|j: int| 0 <= j < i ==> path_views(self.files@)[j] != views_of(path@),
            decreases self.files.len() - i,
        {
            if string_vecs_eq(&self.files[i], path) {
                proof {
                    assert(path_views(self.files@)[i as int] == views_of(path@));
                }
                return true;
            }
            i = i + 1;
        }
        false
    }
}

// ---------------------------------------------------------------------------
// Import resolution.
// ---------------------------------------------------------------------------

/// The internality test: an import is internal only when a directory named
/// after its first segment exists directly under the project root. An import
/// whose first segment is a root-level module file rather than a directory
/// is classified external by this test, even though the canonicalization
/// walk below would accept such a file; the two tests are deliberately kept
/// as they stand.
pub open spec fn import_is_internal_spec(fs: ProjectFs, import: Seq<char>) -> bool {
    fs.is_dir_spec(seq![split_dotted(import)[0]])
}

/// Whether the import's first segment names a directory under the root.
pub fn is_import_internal(import: &String, fs: &ProjectFs) -> (r: bool)
    ensures
        r == import_is_internal_spec(*fs, import@),
{
    let parts = split_import(import.as_str());
    let mut first: Vec<String> = Vec::new();
    first.push(parts[0].clone());
    proof {
        assert(views_of(first@) =~= seq![split_dotted(import@)[0]]);
    }
    fs.has_dir(&first)
}

/// The longest prefix of `parts` acceptable from the accumulated path `acc`:
/// a segment is accepted when the extended path is an existing directory, or
/// the extended path with the segment named as a source file is an existing
/// file; the walk stops at the first segment that is neither.
pub open spec fn accepted_prefix(fs: ProjectFs, parts: Seq<Seq<char>>, acc: Seq<Seq<char>>) -> Seq<
    Seq<char>,
>
    decreases parts.len(),
{
    if parts.len() == 0 {
        acc
    } else {
        if fs.is_dir_spec(acc.push(parts[0])) || fs.is_file_spec(acc.push(parts[0] + ".py"@)) {
            accepted_prefix(fs, parts.drop_first(), acc.push(parts[0]))
        } else {
            acc
        }
    }
}

/// The canonical internal path of an import: its accepted prefix, joined
/// back with dots. Empty when nothing resolved.
pub open spec fn canonical_import_spec(fs: ProjectFs, import: Seq<char>) -> Seq<char> {
    join_dotted(accepted_prefix(fs, split_dotted(import), Seq::empty()))
}

/// Walk the import's segments left to right against the project tree and
/// return the canonical internal module path: the accepted prefix joined
/// with dots, empty when nothing resolved.
#[verifier::loop_isolation(false)]
pub fn extract_module_name_from_import(import: &String, fs: &ProjectFs) -> (r: String)
    ensures
        r@ == canonical_import_spec(*fs, import@),
{
    let parts = split_import(import.as_str());
    let ghost pviews = views_of(parts@);
    let mut acc: Vec<String> = Vec::new();
    let mut i: usize = 0;
    let mut stopped = false;
    proof {
        assert(pviews.skip(0) =~= pviews);
        assert(views_of(acc@) =~= Seq::<Seq<char>>::empty());
    }
    while i < parts.len() && !stopped
        invariant
            0 <= i <= parts.len(),
            accepted_prefix(*fs, pviews, Seq::empty()) == if stopped {
                views_of(acc@)
            } else {
                accepted_prefix(*fs, pviews.skip(i as int), views_of(acc@))
            },
        decreases parts.len() - i + (if stopped { 0int } else { 1int }),
    {
        let mut cand_dir = clone_strings(&acc);
        cand_dir.push(parts[i].clone());
        let file_seg = parts[i].clone().concat(".py");
        let mut cand_file = clone_strings(&acc);
        cand_file.push(file_seg);
        proof {
            assert(views_of(cand_dir@) =~= views_of(acc@).push(pviews.skip(i as int)[0]));
            assert(views_of(cand_file@) =~= views_of(acc@).push(
                pviews.skip(i as int)[0] + ".py"@,
            ));
        }
        if fs.has_dir(&cand_dir) || fs.has_file(&cand_file) {
            let ghost accpre = views_of(acc@);
            acc.push(parts[i].clone());
            proof {
                assert(views_of(acc@) =~= accpre.push(pviews.skip(i as int)[0]));
                assert(pviews.skip(i as int).drop_first() =~= pviews.skip(i as int + 1));
            }
            i = i + 1;
        } else {
            stopped = true;
        }
    }
    proof {
        if !stopped {
            assert(pviews.skip(parts.len() as int) =~= Seq::<Seq<char>>::empty());
        }
    }
    join_segments(&acc)
}

/// The accepted prefix extends the accumulated path by an initial run of
/// the remaining segments.
pub proof fn lemma_accepted_extends_acc(fs: ProjectFs, parts: Seq<Seq<char>>, acc: Seq<Seq<char>>)
    ensures
        exists|k: int| 0 <= k <= parts.len() && accepted_prefix(fs, parts, acc) == acc
            + #[trigger] parts.take(k),
    decreases parts.len(),
{
    if parts.len() == 0 {
        assert(accepted_prefix(fs, parts, acc) == acc + parts.take(0)) by {
            assert(acc + parts.take(0) =~= acc);
        }
    } else if fs.is_dir_spec(acc.push(parts[0])) || fs.is_file_spec(
        acc.push(parts[0] + ".py"@),
    ) {
        lemma_accepted_extends_acc(fs, parts.drop_first(), acc.push(parts[0]));
        let k = choose|k: int| 0 <= k <= parts.drop_first().len() && accepted_prefix(
            fs,
            parts.drop_first(),
            acc.push(parts[0]),
        ) == acc.push(parts[0]) + #[trigger] parts.drop_first().take(k);
        assert(acc.push(parts[0]) + parts.drop_first().take(k) =~= acc + parts.take(k + 1));
    } else {
        assert(accepted_prefix(fs, parts, acc) == acc + parts.take(0)) by {
            assert(acc + parts.take(0) =~= acc);
        }
    }
}

/// The canonical path never leaves the import: its segments are an initial
/// run of the import's own segments.
pub proof fn lemma_canonical_is_prefix_of_import(fs: ProjectFs, import: Seq<char>)
    ensures
        exists|k: int| 0 <= k <= split_dotted(import).len() && accepted_prefix(
            fs,
            split_dotted(import),
            Seq::empty(),
        ) == #[trigger] split_dotted(import).take(k),
{
    lemma_accepted_extends_acc(fs, split_dotted(import), Seq::empty());
    let k = choose|k: int| 0 <= k <= split_dotted(import).len() && accepted_prefix(
        fs,
        split_dotted(import),
        Seq::empty(),
    ) == Seq::empty() + #[trigger] split_dotted(import).take(k);
    assert(Seq::empty() + split_dotted(import).take(k) =~= split_dotted(import).take(k));
}

/// A piece without the separator character.
pub open spec fn dot_free(x: Seq<char>) -> bool {
    forall|c: int| 0 <= c < x.len() ==> x[c] != '.'
}

/// Every piece the split produces is free of dots, given the current piece
/// scanned so far is.
pub proof fn lemma_split_pieces_dot_free(s: Seq<char>, start: int, cur: int)
    requires
        0 <= start <= cur <= s.len(),
        forall|m: int| start <= m < cur ==> s[m] != '.',
    ensures
        forall|m: int| 0 <= m < split_from(s, start, cur).len() ==> dot_free(
            #[trigger] split_from(s, start, cur)[m],
        ),
    decreases s.len() - cur,
{
    if cur == s.len() {
        assert forall|m: int| 0 <= m < split_from(s, start, cur).len() implies dot_free(
            #[trigger] split_from(s, start, cur)[m],
        ) by {
            assert(split_from(s, start, cur)[m] == s.subrange(start, cur));
            assert forall|c: int| 0 <= c < s.subrange(start, cur).len() implies s.subrange(
                start,
                cur,
            )[c] != '.' by {
                assert(s.subrange(start, cur)[c] == s[start + c]);
            }
            assert(dot_free(s.subrange(start, cur)));
        }
    } else if s[cur] == '.' {
        lemma_split_pieces_dot_free(s, cur + 1, cur + 1);
        assert forall|m: int| 0 <= m < split_from(s, start, cur).len() implies dot_free(
            #[trigger] split_from(s, start, cur)[m],
        ) by {
            if m == 0 {
                assert(split_from(s, start, cur)[m] == s.subrange(start, cur));
                assert forall|c: int| 0 <= c < s.subrange(start, cur).len() implies s.subrange(
                    start,
                    cur,
                )[c] != '.' by {
                    assert(s.subrange(start, cur)[c] == s[start + c]);
                }
                assert(dot_free(s.subrange(start, cur)));
            } else {
                assert(split_from(s, start, cur)[m] == split_from(s, cur + 1, cur + 1)[m - 1]);
            }
        }
    } else {
        lemma_split_pieces_dot_free(s, start, cur + 1);
        assert(split_from(s, start, cur) == split_from(s, start, cur + 1));
        assert forall|m: int| 0 <= m < split_from(s, start, cur).len() implies dot_free(
            #[trigger] split_from(s, start, cur)[m],
        ) by {
            assert(split_from(s, start, cur)[m] == split_from(s, start, cur + 1)[m]);
        }
    }
}

/// With no separator left, the split is the one remaining piece.
pub proof fn lemma_split_no_dot_tail(s: Seq<char>, start: int, cur: int)
    requires
        0 <= start <= cur <= s.len(),
        forall|m: int| cur <= m < s.len() ==> s[m] != '.',
    ensures
        split_from(s, start, cur) == seq![s.subrange(start, s.len() as int)],
    decreases s.len() - cur,
{
    if cur < s.len() {
        lemma_split_no_dot_tail(s, start, cur + 1);
    }
}

/// Splitting is insensitive to dropping an already-consumed head.
pub proof fn lemma_split_shift(s: Seq<char>, d: int, start: int, cur: int)
    requires
        0 <= d <= start <= cur <= s.len(),
    ensures
        split_from(s, start, cur) == split_from(s.skip(d), start - d, cur - d),
    decreases s.len() - cur,
{
    let t = s.skip(d);
    if cur > s.len() || start < 0 || cur < start {
    } else if cur == s.len() {
        assert(s.subrange(start, cur) =~= t.subrange(start - d, cur - d));
    } else if s[cur] == '.' {
        assert(t[cur - d] == s[cur]);
        lemma_split_shift(s, d, cur + 1, cur + 1);
        assert(s.subrange(start, cur) =~= t.subrange(start - d, cur - d));
    } else {
        assert(t[cur - d] == s[cur]);
        lemma_split_shift(s, d, start, cur + 1);
    }
}

/// Scanning across a dot-free head does not change the split.
pub proof fn lemma_split_scan_head(s: Seq<char>, cur: int, stop: int)
    requires
        0 <= cur <= stop <= s.len(),
        forall|m: int| cur <= m < stop ==> s[m] != '.',
    ensures
        split_from(s, 0, cur) == split_from(s, 0, stop),
    decreases stop - cur,
{
    if cur < stop {
        lemma_split_scan_head(s, cur + 1, stop);
    }
}

/// Splitting undoes joining, for a nonempty list of dot-free segments.
pub proof fn lemma_split_of_join(ps: Seq<Seq<char>>)
    requires
        ps.len() >= 1,
        forall|m: int| 0 <= m < ps.len() ==> dot_free(#[trigger] ps[m]),
    ensures
        split_dotted(join_dotted(ps)) == ps,
    decreases ps.len(),
{
    let s = join_dotted(ps);
    if ps.len() == 1 {
        assert(dot_free(ps[0]));
        lemma_split_no_dot_tail(s, 0, 0);
        assert(s.subrange(0, s.len() as int) =~= ps[0]);
        assert(split_dotted(s) =~= ps);
    } else {
        let a = ps[0];
        let rest = join_dotted(ps.drop_first());
        assert(s == a + seq!['.'] + rest);
        assert forall|m: int| 0 <= m < a.len() implies s[m] != '.' by {
            assert(s[m] == a[m]);
        }
        lemma_split_scan_head(s, 0, a.len() as int);
        assert(s[a.len() as int] == '.');
        assert(split_from(s, 0, a.len() as int) == seq![s.subrange(0, a.len() as int)]
            + split_from(s, a.len() as int + 1, a.len() as int + 1));
        assert(s.subrange(0, a.len() as int) =~= a);
        lemma_split_shift(s, a.len() as int + 1, a.len() as int + 1, a.len() as int + 1);
        assert(s.skip(a.len() as int + 1) =~= rest);
        assert forall|m: int| 0 <= m < ps.drop_first().len() implies dot_free(
            #[trigger] ps.drop_first()[m],
        ) by {
            assert(ps.drop_first()[m] == ps[m + 1]);
        }
        lemma_split_of_join(ps.drop_first());
        assert(split_dotted(s) =~= seq![a] + ps.drop_first());
        assert(seq![a] + ps.drop_first() =~= ps);
    }
}

/// The canonical path never leaves the import: when anything resolved, the
/// canonical path's segments are an initial run of the import's own
/// segments.
pub proof fn lemma_canonical_segments_prefix_of_import(fs: ProjectFs, import: Seq<char>)
    ensures
        accepted_prefix(fs, split_dotted(import), Seq::empty()).len() >= 1 ==> exists|k: int|
            1 <= k <= split_dotted(import).len() && split_dotted(
                canonical_import_spec(fs, import),
            ) == #[trigger] split_dotted(import).take(k),
{
    let parts = split_dotted(import);
    let acc = accepted_prefix(fs, parts, Seq::empty());
    if acc.len() >= 1 {
        lemma_canonical_is_prefix_of_import(fs, import);
        let k = choose|k: int| 0 <= k <= parts.len() && acc == #[trigger] parts.take(k);
        assert(k >= 1) by {
            assert(parts.take(k).len() == k);
        }
        lemma_split_pieces_dot_free(import, 0, 0);
        assert forall|m: int| 0 <= m < acc.len() implies dot_free(#[trigger] acc[m]) by {
            assert(acc[m] == parts[m]);
        }
        lemma_split_of_join(acc);
    }
}

/// Resolving the same import against the same project tree twice yields the/// Resolving the same import against the same project tree twice yields the
/// same internality verdict and the same canonical path: resolution is a
/// function of the import string and the tree alone.
pub proof fn lemma_import_resolution_idempotent(
    fs: ProjectFs,
    import: Seq<char>,
    internal1: bool,
    internal2: bool,
    canon1: Seq<char>,
    canon2: Seq<char>,
)
    requires
        internal1 == import_is_internal_spec(fs, import),
        internal2 == import_is_internal_spec(fs, import),
        canon1 == canonical_import_spec(fs, import),
        canon2 == canonical_import_spec(fs, import),
    ensures
        internal1 == internal2,
        canon1 == canon2,
{
}

} // verus!
