use crate::paths::{PathModel, TreePath};
use vstd::prelude::*;
use vstd::multiset::Multiset;
use vstd::string::*;

verus! {

broadcast use vstd::seq_lib::group_to_multiset_ensures;

/// The MIME type that the signature at the start of a file's bytes names, if
/// it names one.
pub uninterp spec fn sniffed_mime(head: Seq<u8>) -> Option<Seq<char>>;

/// Relies on `infer::get`: the MIME type of the first matcher whose signature
/// fits `head`, or `None` where no matcher fits.
#[verifier::external_body]
fn sniff_mime(head: &[u8]) -> (r: Option<String>)
    ensures
        r is None <==> sniffed_mime(head@) is None,
        r matches Some(m) ==> sniffed_mime(head@) == Some(m@),
{
    infer::get(head).map(|t| t.mime_type().to_string())
}

pub open spec fn image_prefix() -> Seq<char> {
    seq!['i', 'm', 'a', 'g', 'e']
}

/// A MIME type names an image when it begins with `image`.
pub open spec fn names_image(mime: Seq<char>) -> bool {
    image_prefix().is_prefix_of(mime)
}

/// A file is an image when the type sniffed from its leading bytes names one;
/// a file whose type cannot be sniffed is not.
pub open spec fn is_image_content(head: Seq<u8>) -> bool {
    sniffed_mime(head) matches Some(m) && names_image(m)
}

/// Whether the MIME type `mime` names an image.
pub fn is_image_mime(mime: &str) -> (r: bool)
    ensures
        r == names_image(mime@),
{
    let n = mime.unicode_len();
    if n < 5 {
        return false;
    }
    let prefix = String::from_str("image");
    proof {
        reveal_strlit("image");
        assert(prefix@ =~= image_prefix());
    }
    let p = prefix.as_str();
    let mut i: usize = 0;
    while i < 5
        invariant
            n == mime@.len(),
            n >= 5,
            p@ == image_prefix(),
            i <= 5,
            forall|j: int| 0 <= j < i ==> mime@[j] == image_prefix()[j],
        decreases 5 - i,
    {
        if mime.get_char(i) != p.get_char(i) {
            return false;
        }
        i = i + 1;
    }
    true
}

/// Whether the file whose first bytes are `head` is an image.
pub fn is_image(head: &[u8]) -> (r: bool)
    ensures
        r == is_image_content(head@),
{
    match sniff_mime(head) {
        None => false,
        Some(m) => is_image_mime(m.as_str()),
    }
}

/// The files found not to be images during one run, in the order in which
/// they were recorded.
pub struct SkipLog {
    entries: Vec<TreePath>,
}

impl View for SkipLog {
    type V = Seq<PathModel>;

    closed spec fn view(&self) -> Seq<PathModel> {
        self.entries@.map_values(|p: TreePath| p@)
    }
}

/// The heading of the report on skipped files.
pub open spec fn report_heading() -> Seq<char> {
    "The following files are not images and were not processed:"@
}

/// A path written out: `/` for an absolute root, then the segments joined
/// by `/`.
pub open spec fn path_text(p: PathModel) -> Seq<char> {
    (if p.absolute {
        seq!['/']
    } else {
        Seq::empty()
    }) + joined(p.segments)
}

/// The segments joined by `/`.
pub open spec fn joined(segments: Seq<Seq<char>>) -> Seq<char>
    decreases segments.len(),
{
    if segments.len() == 0 {
        Seq::empty()
    } else if segments.len() == 1 {
        segments[0]
    } else {
        joined(segments.drop_last()) + seq!['/'] + segments.last()
    }
}

/// The lines of the report on the skipped files `log`: nothing where there
/// are none, else the heading and then one path per line.
pub open spec fn report_of(log: Seq<PathModel>) -> Seq<Seq<char>> {
    if log.len() == 0 {
        Seq::empty()
    } else {
        seq![report_heading()] + log.map_values(|p: PathModel| path_text(p))
    }
}

impl TreePath {
    /// The path written out with `/` between its segments.
    pub fn text(&self) -> (r: String)
        ensures
            r@ == path_text(self@),
    {
        let mut r = String::new();
        if !self.root.as_str().is_empty() {
            r.append("/");
        }
        proof {
            reveal_strlit("/");
        }
        let ghost start = r@;
        let mut i: usize = 0;
        while i < self.segments.len()
            invariant
                i <= self.segments@.len(),
                start == (if self@.absolute {
                    seq!['/']
                } else {
                    Seq::<char>::empty()
                }),
                r@ == start + joined(self@.segments.take(i as int)),
            decreases self.segments@.len() - i,
        {
            let ghost before = self@.segments.take(i as int);
            if i > 0 {
                r.append("/");
            }
            r.append(self.segments[i].as_str());
            proof {
                reveal_strlit("/");
                let next = self@.segments.take(i + 1);
                assert(next.drop_last() =~= before);
                assert(next.last() == self.segments@[i as int]@);
                if i == 0 {
                    assert(next =~= seq![self.segments@[0]@]);
                }
                assert(r@ =~= start + joined(next));
            }
            i = i + 1;
        }
        assert(self@.segments.take(i as int) =~= self@.segments);
        r
    }
}

impl SkipLog {
    pub fn new() -> (r: SkipLog)
        ensures
            r@ == Seq::<PathModel>::empty(),
    {
        let r = SkipLog { entries: Vec::new() };
        assert(r@ =~= Seq::<PathModel>::empty());
        r
    }

    /// Adds `file` to the log.
    pub fn record(&mut self, file: TreePath)
        ensures
            final(self)@ == old(self)@.push(file@),
    {
        self.entries.push(file);
        assert(self@ =~= old(self)@.push(file@));
    }

    /// How many files the log holds.
    pub fn len(&self) -> (r: usize)
        ensures
            r == self@.len(),
    {
        self.entries.len()
    }

    pub fn is_empty(&self) -> (r: bool)
        ensures
            r == (self@.len() == 0),
    {
        self.entries.len() == 0
    }

    /// The recorded files, in the order in which they were recorded.
    pub fn entries(&self) -> (r: &Vec<TreePath>)
        ensures
            r@.map_values(|p: TreePath| p@) == self@,
    {
        &self.entries
    }

    /// The report on the recorded files, one line per element.
    pub fn report(&self) -> (r: Vec<String>)
        ensures
            r@.map_values(|s: String| s@) == report_of(self@),
    {
        let mut r: Vec<String> = Vec::new();
        if self.entries.len() == 0 {
            assert(r@.map_values(|s: String| s@) =~= report_of(self@));
            return r;
        }
        r.push(String::from_str("The following files are not images and were not processed:"));
        proof {
            reveal_strlit("The following files are not images and were not processed:");
        }
        let mut i: usize = 0;
        while i < self.entries.len()
            invariant
                i <= self.entries@.len(),
                r@.map_values(|s: String| s@) =~= seq![report_heading()] + self@.take(
                    i as int,
                ).map_values(|p: PathModel| path_text(p)),
            decreases self.entries@.len() - i,
        {
            let line = self.entries[i].text();
            let ghost before = r@;
            r.push(line);
            proof {
                assert(r@.map_values(|s: String| s@) =~= before.map_values(|s: String| s@).push(
                    line@,
                ));
                assert(self@.take(i + 1) =~= self@.take(i as int).push(self@[i as int]));
                assert(self@[i as int] == self.entries@[i as int]@);
            }
            i = i + 1;
        }
        assert(self@.take(i as int) =~= self@);
        r
    }
}

/// One file's first step: a file that is not an image is recorded in `log`
/// and needs no more work; an image is left to be processed. Returns whether
/// the file is to be processed.
pub fn triage(log: &mut SkipLog, file: TreePath, head: &[u8]) -> (r: bool)
    ensures
        r == is_image_content(head@),
        final(log)@ == if r {
            old(log)@
        } else {
            old(log)@.push(file@)
        },
{
    if is_image(head) {
        true
    } else {
        log.record(file);
        false
    }
}

/// A file as a worker meets it: its path and its first bytes.
pub type FileSample = (PathModel, Seq<u8>);

/// Whether a file lands in the skip log.
pub open spec fn is_skipped(f: FileSample) -> bool {
    !is_image_content(f.1)
}

pub open spec fn skipped_filter() -> spec_fn(FileSample) -> bool {
    |f: FileSample| is_skipped(f)
}

/// The skip log after the files of `taken` are triaged one after another,
/// from an empty log, in that order.
pub open spec fn log_after(taken: Seq<FileSample>) -> Seq<PathModel>
    decreases taken.len(),
{
    if taken.len() == 0 {
        Seq::empty()
    } else {
        let prev = log_after(taken.drop_last());
        if is_skipped(taken.last()) {
            prev.push(taken.last().0)
        } else {
            prev
        }
    }
}

proof fn lemma_log_after_len(taken: Seq<FileSample>)
    ensures
        log_after(taken).len() == taken.filter(skipped_filter()).len(),
    decreases taken.len(),
{
    reveal(Seq::filter);
    if taken.len() > 0 {
        lemma_log_after_len(taken.drop_last());
    }
}

proof fn lemma_filter_multiset(s: Seq<FileSample>)
    ensures
        s.filter(skipped_filter()).to_multiset() =~= s.to_multiset().filter(skipped_filter()),
    decreases s.len(),
{
    broadcast use vstd::multiset::group_multiset_axioms;

    reveal(Seq::filter);
    if s.len() == 0 {
        assert(s.to_multiset() =~= Multiset::empty());
        assert(s.to_multiset().filter(skipped_filter()) =~= Multiset::empty());
    } else {
        let t = s.drop_last();
        lemma_filter_multiset(t);
        assert(s =~= t.push(s.last()));
        assert(s.to_multiset() =~= t.to_multiset().insert(s.last()));
    }
}

/// However the workers interleave, no skipped file is lost: when the files
/// are triaged in any order `taken` (each file once), the log ends with as
/// many entries as there are files that are not images.
pub proof fn lemma_no_skip_lost(files: Seq<FileSample>, taken: Seq<FileSample>)
    requires
        taken.to_multiset() == files.to_multiset(),
    ensures
        log_after(taken).len() == files.filter(skipped_filter()).len(),
{
    lemma_log_after_len(taken);
    lemma_filter_multiset(taken);
    lemma_filter_multiset(files);
    assert(taken.filter(skipped_filter()).len() == taken.filter(skipped_filter()).to_multiset().len());
    assert(files.filter(skipped_filter()).len() == files.filter(skipped_filter()).to_multiset().len());
}

} // verus!
