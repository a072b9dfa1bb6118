use vstd::prelude::*;

verus! {

// Directories are modelled as canonical absolute path strings: they begin
// with '/', never end with '/' (except the root itself), and hold no empty
// component. The surrounding application hands the scanner such paths and
// performs the actual directory listing and file reading.

/// A canonical absolute path: begins with '/', has no trailing '/' (unless it
/// is the root) and no empty component.
pub open spec fn canonical_abs(s: Seq<char>) -> bool {
    &&& s.len() >= 1
    &&& s[0] == '/'
    &&& (s.len() > 1 ==> s[s.len() - 1] != '/')
    &&& forall|i: int| 0 < i < s.len() ==> !((#[trigger] s[i]) == '/' && s[i - 1] == '/')
}

/// Index of the last '/' in `s`, or -1 if there is none.
pub open spec fn last_slash_index(s: Seq<char>) -> int
    decreases s.len(),
{
    if s.len() == 0 {
        -1
    } else if s[s.len() - 1] == '/' {
        s.len() - 1
    } else {
        last_slash_index(s.drop_last())
    }
}

/// The parent directory of a canonical absolute path: everything before the
/// last '/', or the root when the last '/' is the leading one. The root has
/// no parent.
pub open spec fn parent_path(s: Seq<char>) -> Option<Seq<char>> {
    if s.len() <= 1 {
        None
    } else {
        let k = last_slash_index(s);
        if k <= 0 {
            Some(s.subrange(0, 1))
        } else {
            Some(s.subrange(0, k))
        }
    }
}

/// Runtime check that a path string is canonical and absolute, for callers
/// outside the verified world.
pub fn is_canonical_path(path: &str) -> (b: bool)
    ensures
        b == canonical_abs(path@),
{
    let n = path.unicode_len();
    if n == 0 {
        return false;
    }
    if path.get_char(0) != '/' {
        return false;
    }
    if n > 1 && path.get_char(n - 1) == '/' {
        return false;
    }
    let mut i: usize = 1;
    while i < n
        invariant
            n == path@.len(),
            1 <= i <= n,
            path@[0] == '/',
            n > 1 ==> path@[n - 1] != '/',
            forall|j: int| 0 < j < i ==> !((#[trigger] path@[j]) == '/' && path@[j - 1] == '/'),
        decreases n - i,
    {
        if path.get_char(i) == '/' && path.get_char(i - 1) == '/' {
            return false;
        }
        i = i + 1;
    }
    true
}

proof fn lemma_last_slash_at(s: Seq<char>, k: int)
    requires
        0 <= k < s.len(),
        s[k] == '/',
        forall|j: int| k < j < s.len() ==> s[j] != '/',
    ensures
        last_slash_index(s) == k,
    decreases s.len(),
{
    if k < s.len() - 1 {
        assert(forall|j: int| k < j < s.drop_last().len() ==> s.drop_last()[j] != '/');
        lemma_last_slash_at(s.drop_last(), k);
    }
}

/// Parent directory of a canonical absolute path, or `None` when ascending
/// past the filesystem root (a path of a single component has the root as
/// its parent; the root itself has none).
pub fn parent_of(path: &str) -> (r: Option<String>)
    requires
        canonical_abs(path@),
    ensures
        r is None <==> parent_path(path@) is None,
        r matches Some(p) ==> {
            &&& parent_path(path@) == Some(p@)
            &&& canonical_abs(p@)
            &&& p@.len() < path@.len()
        },
{
    let n = path.unicode_len();
    if n <= 1 {
        return None;
    }
    let mut k: usize = n - 1;
    while path.get_char(k) != '/'
        invariant
            canonical_abs(path@),
            n == path@.len(),
            2 <= n,
            0 <= k < n,
            forall|j: int| k < j < n ==> path@[j] != '/',
        decreases k,
    {
        assert(k > 0) by {
            assert(path@[0] == '/');
        }
        k = k - 1;
    }
    proof {
        lemma_last_slash_at(path@, k as int);
    }
    let parent = if k == 0 {
        path.substring_char(0, 1)
    } else {
        path.substring_char(0, k)
    };
    proof {
        let p = parent@;
        assert(p[0] == path@[0]);
        if k > 1 {
            assert(!(path@[k as int] == '/' && path@[k - 1] == '/'));
            assert(p[p.len() - 1] == path@[k - 1]);
        }
        assert(forall|i: int| 0 < i < p.len() ==> (#[trigger] p[i]) == path@[i] && p[i - 1]
            == path@[i - 1]);
    }
    Some(parent.to_owned())
}

/// The directories the scanner visits, in order: the starting directory, then
/// each parent in turn, stopping once the boundary directory (the home
/// directory) has been included or once there is no further parent — both are
/// normal termination.
pub fn upward_path(start: &str, boundary: &str) -> (r: Vec<String>)
    requires
        canonical_abs(start@),
        canonical_abs(boundary@),
    ensures
        r@.len() >= 1,
        r@[0]@ == start@,
        forall|k: int| 0 <= k < r@.len() ==> canonical_abs((#[trigger] r@[k])@),
        forall|k: int|
            0 <= k < r@.len() - 1 ==> (#[trigger] r@[k])@ != boundary@ && parent_path(r@[k]@)
                == Some(r@[k + 1]@),
        r@[r@.len() - 1]@ == boundary@ || parent_path(r@[r@.len() - 1]@) is None,
{
    let boundary_owned: String = boundary.to_owned();
    let mut dirs: Vec<String> = Vec::new();
    let mut cur: String = start.to_owned();
    loop
        invariant_except_break
            forall|k: int|
                0 <= k < dirs@.len() ==> (#[trigger] dirs@[k])@ != boundary@,
            dirs@.len() > 0 ==> parent_path(dirs@[dirs@.len() - 1]@) == Some(cur@),
        invariant
            canonical_abs(cur@),
            canonical_abs(boundary@),
            boundary_owned@ == boundary@,
            dirs@.len() == 0 ==> cur@ == start@,
            dirs@.len() > 0 ==> dirs@[0]@ == start@,
            forall|k: int| 0 <= k < dirs@.len() ==> canonical_abs((#[trigger] dirs@[k])@),
            forall|k: int|
                0 <= k < dirs@.len() - 1 ==> parent_path((#[trigger] dirs@[k])@) == Some(
                    dirs@[k + 1]@,
                ),
        ensures
            dirs@.len() >= 1,
            dirs@[0]@ == start@,
            forall|k: int| 0 <= k < dirs@.len() ==> canonical_abs((#[trigger] dirs@[k])@),
            forall|k: int|
                0 <= k < dirs@.len() - 1 ==> (#[trigger] dirs@[k])@ != boundary@ && parent_path(
                    dirs@[k]@,
                ) == Some(dirs@[k + 1]@),
            dirs@[dirs@.len() - 1]@ == boundary@ || parent_path(dirs@[dirs@.len() - 1]@) is None,
        decreases cur@.len(),
    {
        dirs.push(cur.clone());
        if cur == boundary_owned {
            break;
        }
        match parent_of(cur.as_str()) {
            None => {
                break;
            },
            Some(p) => {
                cur = p;
            },
        }
    }
    dirs
}

// Marker files: a window is backed by a hidden file named
// '.' + <name> + ".borrow"; its name is what stands between the hidden-file
// prefix and the extension.

/// Whether a file name denotes a marker file: a hidden file ending in the
/// fixed ".borrow" extension, with the extension standing after the prefix.
pub open spec fn is_marker_name(s: Seq<char>) -> bool {
    &&& s.len() >= 8
    &&& s[0] == '.'
    &&& s.subrange(s.len() - 7, s.len() as int) == ".borrow"@
}

/// The window name encoded by a marker file name: the file name with the
/// hidden-file prefix and the ".borrow" extension stripped.
pub open spec fn marker_stem(s: Seq<char>) -> Seq<char> {
    s.subrange(1, s.len() - 7)
}

/// The window name of a marker file, or `None` for any other file name.
pub fn marker_window_name(filename: &str) -> (r: Option<String>)
    ensures
        r is Some <==> is_marker_name(filename@),
        r matches Some(name) ==> name@ == marker_stem(filename@),
{
    proof {
        reveal_strlit(".borrow");
    }
    let n = filename.unicode_len();
    if n < 8 {
        return None;
    }
    if filename.get_char(0) != '.' {
        return None;
    }
    let suffix = ".borrow";
    let mut j: usize = 0;
    while j < 7
        invariant
            n == filename@.len(),
            8 <= n,
            suffix@ == ".borrow"@,
            suffix@.len() == 7,
            0 <= j <= 7,
            forall|t: int| 0 <= t < j ==> filename@[n - 7 + t] == ".borrow"@[t],
        decreases 7 - j,
    {
        if filename.get_char(n - 7 + j) != suffix.get_char(j) {
            proof {
                if is_marker_name(filename@) {
                    assert(filename@.subrange(n - 7, n as int)[j as int] == ".borrow"@[j as int]);
                }
            }
            return None;
        }
        j = j + 1;
    }
    proof {
        assert(filename@.subrange(n - 7, n as int) =~= ".borrow"@);
    }
    Some(filename.substring_char(1, n - 7).to_owned())
}

/// One discovered marker file: the position of the directory in the scanned
/// upward path, the position of the file in that directory's listing, and
/// the window name it encodes.
#[derive(Debug, Clone, PartialEq, Eq)]
pub struct MarkerHit {
    pub dir: usize,
    pub file: usize,
    pub name: String,
}

/// Finds every marker file among the given directory listings, in scan
/// order: directory by directory (the upward path), and within one directory
/// in listing order. `listings[d]` holds the immediate file names of the
/// `d`-th visited directory; nothing else is ever looked at, so descendants
/// of visited directories are not scanned.
pub fn discover_markers(listings: &Vec<Vec<String>>) -> (r: Vec<MarkerHit>)
    ensures
        forall|p: int|
            0 <= p < r@.len() ==> {
                let h = #[trigger] r@[p];
                &&& h.dir < listings@.len()
                &&& h.file < listings@[h.dir as int]@.len()
                &&& is_marker_name(listings@[h.dir as int]@[h.file as int]@)
                &&& h.name@ == marker_stem(listings@[h.dir as int]@[h.file as int]@)
            },
        forall|p: int, q: int|
            0 <= p < q < r@.len() ==> ((#[trigger] r@[p]).dir < (#[trigger] r@[q]).dir || (
            r@[p].dir == r@[q].dir && r@[p].file < r@[q].file)),
        forall|d: int, f: int|
            0 <= d < listings@.len() && 0 <= f < listings@[d]@.len() && #[trigger] is_marker_name(
                listings@[d]@[f]@,
            ) ==> exists|p: int|
                0 <= p < r@.len() && (#[trigger] r@[p]).dir == d && r@[p].file == f,
{
    let mut hits: Vec<MarkerHit> = Vec::new();
    let mut d: usize = 0;
    while d < listings.len()
        invariant
            d <= listings@.len(),
            forall|p: int|
                0 <= p < hits@.len() ==> {
                    let h = #[trigger] hits@[p];
                    &&& h.dir < listings@.len()
                    &&& h.file < listings@[h.dir as int]@.len()
                    &&& is_marker_name(listings@[h.dir as int]@[h.file as int]@)
                    &&& h.name@ == marker_stem(listings@[h.dir as int]@[h.file as int]@)
                },
            forall|p: int, q: int|
                0 <= p < q < hits@.len() ==> ((#[trigger] hits@[p]).dir < (#[trigger] hits@[q]).dir
                    || (hits@[p].dir == hits@[q].dir && hits@[p].file < hits@[q].file)),
            forall|p: int| 0 <= p < hits@.len() ==> (#[trigger] hits@[p]).dir < d,
            forall|dd: int, ff: int|
                0 <= dd < d && 0 <= ff < listings@[dd]@.len() && #[trigger] is_marker_name(
                    listings@[dd]@[ff]@,
                ) ==> exists|p: int|
                    0 <= p < hits@.len() && (#[trigger] hits@[p]).dir == dd && hits@[p].file == ff,
        decreases listings@.len() - d,
    {
        let files = &listings[d];
        let mut f: usize = 0;
        while f < files.len()
            invariant
                d < listings@.len(),
                *files == listings@[d as int],
                f <= files@.len(),
                forall|p: int|
                    0 <= p < hits@.len() ==> {
                        let h = #[trigger] hits@[p];
                        &&& h.dir < listings@.len()
                        &&& h.file < listings@[h.dir as int]@.len()
                        &&& is_marker_name(listings@[h.dir as int]@[h.file as int]@)
                        &&& h.name@ == marker_stem(listings@[h.dir as int]@[h.file as int]@)
                    },
                forall|p: int, q: int|
                    0 <= p < q < hits@.len() ==> ((#[trigger] hits@[p]).dir
                        < (#[trigger] hits@[q]).dir || (hits@[p].dir == hits@[q].dir
                        && hits@[p].file < hits@[q].file)),
                forall|p: int|
                    0 <= p < hits@.len() ==> ((#[trigger] hits@[p]).dir < d || (hits@[p].dir == d
                        && hits@[p].file < f)),
                forall|dd: int, ff: int|
                    0 <= dd < d && 0 <= ff < listings@[dd]@.len() && #[trigger] is_marker_name(
                        listings@[dd]@[ff]@,
                    ) ==> exists|p: int|
                        0 <= p < hits@.len() && (#[trigger] hits@[p]).dir == dd && hits@[p].file
                            == ff,
                forall|ff: int|
                    0 <= ff < f && #[trigger] is_marker_name(listings@[d as int]@[ff]@) ==> exists|
                        p: int,
                    |
                        0 <= p < hits@.len() && (#[trigger] hits@[p]).dir == d as int
                            && hits@[p].file == ff,
            decreases files@.len() - f,
        {
            let ghost hits0 = hits@;
            match marker_window_name(&files[f]) {
                Some(name) => {
                    hits.push(MarkerHit { dir: d, file: f, name });
                    proof {
                        assert(forall|p: int| 0 <= p < hits0.len() ==> hits@[p] == hits0[p]);
                        assert(hits@[hits0.len() as int].dir == d && hits@[hits0.len() as int].file
                            == f);
                    }
                },
                None => {
                },
            }
            f = f + 1;
        }
        d = d + 1;
    }
    hits
}

} // verus!
