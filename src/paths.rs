use vstd::prelude::*;
use vstd::string::*;

verus! {

/// A filesystem path as its root (`"/"` for an absolute path, empty for a
/// relative one) and its segments, in order.
#[derive(Debug)]
pub struct TreePath {
    pub root: String,
    pub segments: Vec<String>,
}

/// The mathematical view of a `TreePath`.
pub struct PathModel {
    pub absolute: bool,
    pub segments: Seq<Seq<char>>,
}

impl View for TreePath {
    type V = PathModel;

    open spec fn view(&self) -> PathModel {
        PathModel {
            absolute: self.root@.len() > 0,
            segments: self.segments@.map_values(|s: String| s@),
        }
    }
}

/// The segment `..`, which names the parent directory.
pub open spec fn parent_segment() -> Seq<char> {
    seq!['.', '.']
}

/// A segment names one step: it is not empty, holds no `/` and is not `.`.
pub open spec fn valid_segment(s: Seq<char>) -> bool {
    &&& s.len() > 0
    &&& forall|i: int| 0 <= i < s.len() ==> s[i] != '/'
    &&& s != seq!['.']
}

impl TreePath {
    pub open spec fn wf(&self) -> bool {
        &&& (self.root@ == seq!['/'] || self.root@.len() == 0)
        &&& forall|i: int| 0 <= i < self.segments@.len() ==> valid_segment(#[trigger] self.segments@[i]@)
    }
}

/// How many leading segments `a` and `b` share.
pub open spec fn common_prefix_len(a: Seq<Seq<char>>, b: Seq<Seq<char>>) -> nat
    decreases a.len(),
{
    if a.len() == 0 || b.len() == 0 || a[0] != b[0] {
        0
    } else {
        1 + common_prefix_len(a.drop_first(), b.drop_first())
    }
}

/// The segments that lead from directory `base` to `path`, both rooted alike:
/// one `..` for each segment of `base` past their common prefix, then the
/// rest of `path`. There is none where `base` climbs with `..` at the point
/// where the two part.
pub open spec fn relative_segments(path: Seq<Seq<char>>, base: Seq<Seq<char>>) -> Option<
    Seq<Seq<char>>,
> {
    let k = common_prefix_len(path, base);
    if k < path.len() && k < base.len() && base[k as int] == parent_segment() {
        None
    } else {
        Some(Seq::new((base.len() - k) as nat, |i: int| parent_segment()) + path.skip(k as int))
    }
}

/// Relies on `pathdiff::diff_paths`: the relative path from `base` to `path`,
/// read back segment by segment.
#[verifier::external_body]
fn diff_segments(path: &TreePath, base: &TreePath) -> (r: Option<Vec<String>>)
    requires
        path.wf(),
        base.wf(),
        path@.absolute == base@.absolute,
    ensures
        r is None <==> relative_segments(path@.segments, base@.segments) is None,
        r matches Some(v) ==> Some(v@.map_values(|s: String| s@)) == relative_segments(
            path@.segments,
            base@.segments,
        ),
{
    let mut p = std::path::PathBuf::from(&path.root);
    p.extend(&path.segments);
    let mut b = std::path::PathBuf::from(&base.root);
    b.extend(&base.segments);
    let rel = pathdiff::diff_paths(&p, &b)?;
    Some(rel.iter().map(|c| c.to_string_lossy().into_owned()).collect())
}

/// Why a file has no place in the output tree.
#[derive(Clone, Copy, Debug, PartialEq, Eq, Structural)]
pub enum PathError {
    /// No relative path leads from the input root to the file.
    NoRelativePath,
}

/// Where `file` lands when the tree under `input` is mirrored under `output`:
/// the relative path from `input` to `file`, joined onto `output`. An
/// absolute file under a relative root is taken as it is, since joining an
/// absolute path replaces the base.
pub open spec fn output_path_of(file: PathModel, input: PathModel, output: PathModel) -> Result<
    PathModel,
    PathError,
> {
    if file.absolute != input.absolute {
        if file.absolute {
            Ok(file)
        } else {
            Err(PathError::NoRelativePath)
        }
    } else {
        match relative_segments(file.segments, input.segments) {
            None => Err(PathError::NoRelativePath),
            Some(rel) => Ok(PathModel { absolute: output.absolute, segments: output.segments + rel }),
        }
    }
}

/// Appends copies of `from`'s strings to `to`.
fn append_copies(to: &mut Vec<String>, from: &Vec<String>)
    ensures
        final(to)@.map_values(|s: String| s@) == old(to)@.map_values(|s: String| s@) + from@.map_values(
            |s: String| s@,
        ),
{
    let ghost start = to@.map_values(|s: String| s@);
    let mut i: usize = 0;
    while i < from.len()
        invariant
            i <= from@.len(),
            to@.map_values(|s: String| s@) =~= start + from@.take(i as int).map_values(
                |s: String| s@,
            ),
        decreases from@.len() - i,
    {
        let ghost before = to@;
        to.push(from[i].clone());
        assert(to@.map_values(|s: String| s@) =~= before.map_values(|s: String| s@).push(
            from@[i as int]@,
        ));
        assert(from@.take(i + 1) =~= from@.take(i as int).push(from@[i as int]));
        i = i + 1;
    }
    assert(from@.take(i as int) =~= from@);
}

impl TreePath {
    /// Whether the path is well formed: its root is `/` or empty, and each
    /// segment is non-empty, holds no `/` and is not `.`.
    pub fn well_formed(&self) -> (r: bool)
        ensures
            r == self.wf(),
    {
        let slash = String::from_str("/");
        proof {
            reveal_strlit("/");
            assert(slash@ =~= seq!['/']);
        }
        let root_ok = self.root.as_str().is_empty() || self.root.eq(&slash);
        if !root_ok {
            return false;
        }
        let mut i: usize = 0;
        while i < self.segments.len()
            invariant
                i <= self.segments@.len(),
                forall|j: int| 0 <= j < i ==> valid_segment(#[trigger] self.segments@[j]@),
            decreases self.segments@.len() - i,
        {
            if !segment_ok(&self.segments[i]) {
                return false;
            }
            i = i + 1;
        }
        true
    }

    /// The directory that holds this path: the path without its last
    /// segment, or `None` where it has no segment.
    pub fn parent(&self) -> (r: Option<TreePath>)
        requires
            self.wf(),
        ensures
            r is None <==> self@.segments.len() == 0,
            r matches Some(p) ==> p.wf() && p@ == (PathModel {
                absolute: self@.absolute,
                segments: self@.segments.drop_last(),
            }),
    {
        let n = self.segments.len();
        if n == 0 {
            return None;
        }
        let mut segments: Vec<String> = Vec::new();
        let mut i: usize = 0;
        while i < n - 1
            invariant
                n == self.segments@.len(),
                i <= n - 1,
                segments@.map_values(|s: String| s@) =~= self@.segments.take(i as int),
            decreases n - 1 - i,
        {
            let ghost before = segments@;
            segments.push(self.segments[i].clone());
            proof {
                assert(segments@.map_values(|s: String| s@) =~= before.map_values(|s: String| s@).push(
                    self.segments@[i as int]@,
                ));
                assert(self@.segments.take(i + 1) =~= self@.segments.take(i as int).push(
                    self@.segments[i as int],
                ));
            }
            i = i + 1;
        }
        let r = TreePath { root: self.root.clone(), segments };
        proof {
            assert(self@.segments.take(i as int) =~= self@.segments.drop_last());
            assert forall|j: int| 0 <= j < r.segments@.len() implies valid_segment(
                #[trigger] r.segments@[j]@,
            ) by {
                assert(r.segments@.map_values(|s: String| s@)[j] == r.segments@[j]@);
                assert(self@.segments[j] == self.segments@[j]@);
            }
        }
        Some(r)
    }

    /// An equal copy.
    pub fn duplicate(&self) -> (r: TreePath)
        ensures
            r@ == self@,
            r.wf() == self.wf(),
    {
        let mut segments: Vec<String> = Vec::new();
        append_copies(&mut segments, &self.segments);
        assert(segments@.map_values(|s: String| s@) =~= self.segments@.map_values(|s: String| s@));
        let r = TreePath { root: self.root.clone(), segments };
        assert(r.wf() == self.wf()) by {
            if self.wf() {
                assert forall|i: int| 0 <= i < r.segments@.len() implies valid_segment(
                    #[trigger] r.segments@[i]@,
                ) by {
                    assert(r.segments@.map_values(|s: String| s@)[i] == r.segments@[i]@);
                    assert(self.segments@.map_values(|s: String| s@)[i] == self.segments@[i]@);
                }
            }
            if r.wf() {
                assert forall|i: int| 0 <= i < self.segments@.len() implies valid_segment(
                    #[trigger] self.segments@[i]@,
                ) by {
                    assert(r.segments@.map_values(|s: String| s@)[i] == r.segments@[i]@);
                    assert(self.segments@.map_values(|s: String| s@)[i] == self.segments@[i]@);
                }
            }
        }
        r
    }
}

/// Where `file`, found under the input root `input`, is written in the output
/// tree rooted at `output`.
pub fn output_path(file: &TreePath, input: &TreePath, output: &TreePath) -> (r: Result<
    TreePath,
    PathError,
>)
    requires
        file.wf(),
        input.wf(),
        output.wf(),
    ensures
        r is Err <==> output_path_of(file@, input@, output@) is Err,
        r matches Err(e) ==> output_path_of(file@, input@, output@) == Err::<PathModel, PathError>(e),
        r matches Ok(p) ==> output_path_of(file@, input@, output@) == Ok::<PathModel, PathError>(p@)
            && p.wf(),
{
    let file_abs = !file.root.as_str().is_empty();
    let input_abs = !input.root.as_str().is_empty();
    if file_abs != input_abs {
        if file_abs {
            return Ok(file.duplicate());
        } else {
            return Err(PathError::NoRelativePath);
        }
    }
    match diff_segments(file, input) {
        None => Err(PathError::NoRelativePath),
        Some(rel) => {
            let ghost rel_view = rel@.map_values(|s: String| s@);
            let mut segments: Vec<String> = Vec::new();
            append_copies(&mut segments, &output.segments);
            append_copies(&mut segments, &rel);
            let r = TreePath { root: output.root.clone(), segments };
            proof {
                lemma_relative_segments_valid(file@.segments, input@.segments);
                let all = r.segments@.map_values(|s: String| s@);
                assert(all =~= output@.segments + rel_view);
                assert forall|i: int| 0 <= i < r.segments@.len() implies valid_segment(
                    #[trigger] r.segments@[i]@,
                ) by {
                    assert(all[i] == r.segments@[i]@);
                    if i < output.segments@.len() {
                        assert(output@.segments[i] == output.segments@[i]@);
                    } else {
                        let j = i - output.segments@.len();
                        assert(rel_view[j] == all[i]);
                    }
                }
                assert(r@ == PathModel { absolute: output@.absolute, segments: output@.segments + rel_view });
            }
            Ok(r)
        },
    }
}

/// Whether `file` lies under the directory `root`: rooted alike, with
/// `root`'s segments leading its own.
pub open spec fn lies_under(file: PathModel, root: PathModel) -> bool {
    file.absolute == root.absolute && root.segments.is_prefix_of(file.segments)
}

proof fn lemma_common_prefix_of_prefix(a: Seq<Seq<char>>, b: Seq<Seq<char>>)
    requires
        b.is_prefix_of(a),
    ensures
        common_prefix_len(a, b) == b.len(),
    decreases a.len(),
{
    if b.len() > 0 {
        assert(a[0] == b[0]);
        assert(b.drop_first().is_prefix_of(a.drop_first())) by {
            assert(b.drop_first() =~= a.drop_first().take(b.len() - 1));
        }
        lemma_common_prefix_of_prefix(a.drop_first(), b.drop_first());
    }
}

/// Mirroring re-roots a file: for a file under the input root, its output
/// path is the output root followed by the file's own segments past the input
/// root, every one kept exactly.
pub proof fn lemma_reroot_keeps_segments(file: PathModel, input: PathModel, output: PathModel)
    requires
        lies_under(file, input),
    ensures
        output_path_of(file, input, output) == Ok::<PathModel, PathError>(
            PathModel {
                absolute: output.absolute,
                segments: output.segments + file.segments.skip(input.segments.len() as int),
            },
        ),
{
    lemma_common_prefix_of_prefix(file.segments, input.segments);
    let k = input.segments.len();
    let rel = Seq::new((input.segments.len() - k) as nat, |i: int| parent_segment()) + file.segments.skip(
        k as int,
    );
    assert(rel =~= file.segments.skip(k as int));
}

/// Mirroring is one to one on the files under the input root: two different
/// files land on two different output paths.
pub proof fn lemma_reroot_injective(
    file1: PathModel,
    file2: PathModel,
    input: PathModel,
    output: PathModel,
)
    requires
        lies_under(file1, input),
        lies_under(file2, input),
        file1 != file2,
    ensures
        output_path_of(file1, input, output) != output_path_of(file2, input, output),
{
    lemma_reroot_keeps_segments(file1, input, output);
    lemma_reroot_keeps_segments(file2, input, output);
    let n = input.segments.len() as int;
    let o = output.segments.len() as int;
    if output_path_of(file1, input, output) == output_path_of(file2, input, output) {
        let s1 = output.segments + file1.segments.skip(n);
        let s2 = output.segments + file2.segments.skip(n);
        assert(s1 == s2);
        assert(file1.segments.skip(n) =~= s1.skip(o));
        assert(file2.segments.skip(n) =~= s2.skip(o));
        assert(file1.segments =~= input.segments + file1.segments.skip(n));
        assert(file2.segments =~= input.segments + file2.segments.skip(n));
    }
}

proof fn lemma_relative_segments_valid(path: Seq<Seq<char>>, base: Seq<Seq<char>>)
    requires
        forall|i: int| 0 <= i < path.len() ==> valid_segment(#[trigger] path[i]),
    ensures
        relative_segments(path, base) matches Some(rel) ==> forall|i: int|
            0 <= i < rel.len() ==> valid_segment(#[trigger] rel[i]),
{
    lemma_common_prefix_bounds(path, base);
    let k = common_prefix_len(path, base);
    if let Some(rel) = relative_segments(path, base) {
        let ups = Seq::new((base.len() - k) as nat, |i: int| parent_segment());
        assert(rel == ups + path.skip(k as int));
        assert forall|i: int| 0 <= i < rel.len() implies valid_segment(#[trigger] rel[i]) by {
            if i < ups.len() {
                assert(rel[i] == parent_segment());
                assert(parent_segment() != seq!['.']) by {
                    assert(parent_segment().len() != seq!['.'].len());
                }
            } else {
                assert(rel[i] == path[i - ups.len() + k]);
            }
        }
    }
}

/// The common prefix is no longer than either sequence, and the sequences
/// agree on it.
proof fn lemma_common_prefix_bounds(a: Seq<Seq<char>>, b: Seq<Seq<char>>)
    ensures
        common_prefix_len(a, b) <= a.len(),
        common_prefix_len(a, b) <= b.len(),
        forall|i: int| 0 <= i < common_prefix_len(a, b) ==> a[i] == b[i],
        common_prefix_len(a, b) < a.len() && common_prefix_len(a, b) < b.len() ==> a[
            common_prefix_len(a, b) as int
        ] != b[common_prefix_len(a, b) as int],
    decreases a.len(),
{
    if a.len() == 0 || b.len() == 0 || a[0] != b[0] {
    } else {
        lemma_common_prefix_bounds(a.drop_first(), b.drop_first());
        assert forall|i: int| 0 <= i < common_prefix_len(a, b) implies a[i] == b[i] by {
            if i > 0 {
                assert(a.drop_first()[i - 1] == b.drop_first()[i - 1]);
            }
        }
    }
}

/// Whether `s` is a valid segment.
fn segment_ok(s: &String) -> (r: bool)
    ensures
        r == valid_segment(s@),
{
    let t = s.as_str();
    let n = t.unicode_len();
    if n == 0 {
        return false;
    }
    let mut i: usize = 0;
    while i < n
        invariant
            n == t@.len(),
            t@ == s@,
            i <= n,
            forall|j: int| 0 <= j < i ==> t@[j] != '/',
        decreases n - i,
    {
        if t.get_char(i) == '/' {
            return false;
        }
        i = i + 1;
    }
    if n == 1 && t.get_char(0) == '.' {
        assert(s@ =~= seq!['.']);
        return false;
    }
    true
}

} // verus!
