//! The ordered list of tags to extract, built from the identifiers given
//! inline and the identifiers listed in tag files.

use crate::lines::{lines_of, split_lines, texts};
use crate::tag::{resolution, Tag, TagParseError};
use vstd::prelude::*;

verus! {

/// A tag file as it was read: where it lies and what it holds.
#[derive(Clone, Debug, PartialEq, Eq)]
pub struct TagFile {
    pub path: String,
    pub contents: String,
}

/// Where an identifier was given.
#[derive(Clone, Debug, PartialEq, Eq)]
pub enum TagOrigin {
    /// The inline identifier at this position, counted from zero.
    Inline { index: usize },
    /// This line of the tag file at `path`, counted from one.
    File { path: String, line: usize },
}

impl TagOrigin {
    /// A copy of this origin.
    pub fn duplicate(&self) -> (r: TagOrigin)
        ensures
            r@ == self@,
    {
        match self {
            TagOrigin::Inline { index } => TagOrigin::Inline { index: *index },
            TagOrigin::File { path, line } => TagOrigin::File { path: path.clone(), line: *line },
        }
    }
}

/// An identifier together with the place it was given at.
#[derive(Clone, Debug, PartialEq, Eq)]
pub struct TagRequest {
    pub origin: TagOrigin,
    pub raw: String,
}

/// The identifier that stopped the build, and where it was given.
#[derive(Clone, Debug, PartialEq, Eq)]
pub struct TagSpecError {
    pub origin: TagOrigin,
    pub error: TagParseError,
}

/// A tag file in specifications.
pub struct TagFileView {
    pub path: Seq<char>,
    pub contents: Seq<char>,
}

/// An origin in specifications.
pub enum OriginView {
    Inline { index: nat },
    File { path: Seq<char>, line: nat },
}

/// A request, or the request that an error reports, in specifications.
pub struct RequestView {
    pub origin: OriginView,
    pub raw: Seq<char>,
}

impl View for TagFile {
    type V = TagFileView;

    open spec fn view(&self) -> TagFileView {
        TagFileView { path: self.path@, contents: self.contents@ }
    }
}

impl View for TagOrigin {
    type V = OriginView;

    open spec fn view(&self) -> OriginView {
        match *self {
            TagOrigin::Inline { index } => OriginView::Inline { index: index as nat },
            TagOrigin::File { path, line } => OriginView::File { path: path@, line: line as nat },
        }
    }
}

impl View for TagRequest {
    type V = RequestView;

    open spec fn view(&self) -> RequestView {
        RequestView { origin: self.origin@, raw: self.raw@ }
    }
}

impl View for TagSpecError {
    type V = RequestView;

    open spec fn view(&self) -> RequestView {
        RequestView { origin: self.origin@, raw: self.error.0@ }
    }
}

/// The views of a sequence of tag files.
pub open spec fn file_views(files: Seq<TagFile>) -> Seq<TagFileView> {
    Seq::new(files.len(), |i: int| files[i]@)
}

/// The views of a sequence of requests.
pub open spec fn request_views(requests: Seq<TagRequest>) -> Seq<RequestView> {
    Seq::new(requests.len(), |i: int| requests[i]@)
}

/// The requests that the inline identifiers make, one each, in order.
pub open spec fn inline_requests(ids: Seq<Seq<char>>) -> Seq<RequestView> {
    Seq::new(
        ids.len(),
        |i: int| RequestView { origin: OriginView::Inline { index: i as nat }, raw: ids[i] },
    )
}

/// The requests that the first `n` lines of one tag file make. An empty line
/// makes none; every other line is an identifier. Lines are numbered from
/// one, empty ones included.
pub open spec fn line_requests(path: Seq<char>, lines: Seq<Seq<char>>, n: int) -> Seq<RequestView>
    decreases n,
{
    if n <= 0 {
        Seq::empty()
    } else {
        let before = line_requests(path, lines, n - 1);
        if lines[n - 1].len() == 0 {
            before
        } else {
            before.push(
                RequestView {
                    origin: OriginView::File { path: path, line: n as nat },
                    raw: lines[n - 1],
                },
            )
        }
    }
}

/// The requests that one tag file makes.
pub open spec fn file_requests(file: TagFileView) -> Seq<RequestView> {
    line_requests(file.path, lines_of(file.contents), lines_of(file.contents).len() as int)
}

/// The requests that the first `n` tag files make, file after file.
pub open spec fn files_requests(files: Seq<TagFileView>, n: int) -> Seq<RequestView>
    decreases n,
{
    if n <= 0 {
        Seq::empty()
    } else {
        files_requests(files, n - 1) + file_requests(files[n - 1])
    }
}

/// All requests of a run: the inline identifiers first, then the tag files
/// in the order given, each file's lines in file order.
pub open spec fn requests(ids: Seq<Seq<char>>, files: Seq<TagFileView>) -> Seq<RequestView> {
    inline_requests(ids) + files_requests(files, files.len() as int)
}

/// The tags that `requests` resolve to, or the first request that does not
/// resolve.
pub open spec fn resolve_requests(requests: Seq<RequestView>) -> Result<Seq<Tag>, RequestView>
    decreases requests.len(),
{
    if requests.len() == 0 {
        Ok(Seq::empty())
    } else {
        match resolve_requests(requests.drop_last()) {
            Err(failed) => Err(failed),
            Ok(tags) => match resolution(requests.last().raw) {
                Some(tag) => Ok(tags.push(tag)),
                None => Err(requests.last()),
            },
        }
    }
}

/// Whether `r` is the outcome `expected`, its tags and its error taken by
/// their views.
pub open spec fn is_outcome(
    r: Result<Vec<Tag>, TagSpecError>,
    expected: Result<Seq<Tag>, RequestView>,
) -> bool {
    match expected {
        Ok(tags) => r matches Ok(v) && v@ == tags,
        Err(failed) => r matches Err(e) && e@ == failed,
    }
}

/// A build succeeds exactly when every request resolves, and then holds the
/// tag of each request at the place of the request. A build that fails
/// reports the first request that does not resolve.
pub proof fn lemma_resolve_requests(requests: Seq<RequestView>)
    ensures
        match resolve_requests(requests) {
            Ok(tags) => tags.len() == requests.len() && forall|i: int|
                0 <= i < requests.len() ==> resolution((#[trigger] requests[i]).raw) == Some(
                    tags[i],
                ),
            Err(failed) => exists|k: int|
                0 <= k < requests.len() && #[trigger] requests[k] == failed && resolution(
                    failed.raw,
                ) is None && forall|i: int|
                    0 <= i < k ==> resolution((#[trigger] requests[i]).raw) is Some,
        },
    decreases requests.len(),
{
    if requests.len() > 0 {
        let earlier = requests.drop_last();
        lemma_resolve_requests(earlier);
        match resolve_requests(earlier) {
            Ok(tags) => {
                assert forall|i: int| 0 <= i < earlier.len() implies resolution(
                    (#[trigger] requests[i]).raw,
                ) == Some(tags[i]) by {
                    assert(earlier[i] == requests[i]);
                }
                if resolution(requests.last().raw) is None {
                    let k = requests.len() - 1;
                    assert(requests[k] == requests.last());
                }
            },
            Err(failed) => {
                let k = choose|k: int|
                    0 <= k < earlier.len() && #[trigger] earlier[k] == failed && resolution(
                        failed.raw,
                    ) is None && forall|i: int|
                        0 <= i < k ==> resolution((#[trigger] earlier[i]).raw) is Some;
                assert(requests[k] == failed);
                assert forall|i: int| 0 <= i < k implies resolution(
                    (#[trigger] requests[i]).raw,
                ) is Some by {
                    assert(earlier[i] == requests[i]);
                }
            },
        }
    }
}

/// A failure among the first requests is the failure of the whole sequence.
proof fn lemma_failure_is_final(requests: Seq<RequestView>, n: int)
    requires
        0 <= n <= requests.len(),
        resolve_requests(requests.take(n)) is Err,
    ensures
        resolve_requests(requests) == resolve_requests(requests.take(n)),
    decreases requests.len() - n,
{
    if n < requests.len() {
        assert(requests.take(n + 1).drop_last() == requests.take(n));
        lemma_failure_is_final(requests, n + 1);
    } else {
        assert(requests.take(n) == requests);
    }
}

/// Lists the requests of a run in the order in which they are resolved.
pub fn collect_requests(inline: &Vec<String>, files: &Vec<TagFile>) -> (collected: Vec<TagRequest>)
    ensures
        request_views(collected@) == requests(texts(inline@), file_views(files@)),
{
    let mut collected: Vec<TagRequest> = Vec::new();
    let ghost ids = texts(inline@);
    let ghost fvs = file_views(files@);
    let mut i: usize = 0;
    while i < inline.len()
        invariant
            0 <= i <= inline.len(),
            ids == texts(inline@),
            request_views(collected@) == inline_requests(ids).take(i as int),
        decreases inline.len() - i,
    {
        let ghost before = collected@;
        collected.push(TagRequest { origin: TagOrigin::Inline { index: i }, raw: inline[i].clone() });
        assert(request_views(collected@) == request_views(before).push(
            inline_requests(ids)[i as int],
        ));
        i = i + 1;
    }
    assert(inline_requests(ids).take(i as int) == inline_requests(ids));
    let mut k: usize = 0;
    while k < files.len()
        invariant
            0 <= k <= files.len(),
            fvs == file_views(files@),
            request_views(collected@) == inline_requests(ids) + files_requests(fvs, k as int),
        decreases files.len() - k,
    {
        let file = &files[k];
        let lines = split_lines(file.contents.as_str());
        let ghost base = request_views(collected@);
        let ghost path = file.path@;
        let ghost ls = lines_of(file.contents@);
        assert(fvs[k as int] == file@);
        let mut j: usize = 0;
        while j < lines.len()
            invariant
                0 <= j <= lines.len(),
                texts(lines@) == ls,
                path == file.path@,
                request_views(collected@) == base + line_requests(path, ls, j as int),
            decreases lines.len() - j,
        {
            assert(ls[j as int] == lines@[j as int]@);
            assert(ls.len() == lines@.len());
            if lines[j].as_str().unicode_len() > 0 {
                let ghost before = collected@;
                let request = TagRequest {
                    origin: TagOrigin::File { path: file.path.clone(), line: j + 1 },
                    raw: lines[j].clone(),
                };
                collected.push(request);
                assert(request_views(collected@) == request_views(before).push(request@));
                assert(line_requests(path, ls, j + 1) == line_requests(path, ls, j as int).push(
                    request@,
                ));
            } else {
                assert(line_requests(path, ls, j + 1) == line_requests(path, ls, j as int));
            }
            j = j + 1;
        }
        assert(ls.len() == lines@.len());
        assert(line_requests(path, ls, j as int) == file_requests(fvs[k as int]));
        assert(files_requests(fvs, k + 1) == files_requests(fvs, k as int) + file_requests(
            fvs[k as int],
        ));
        k = k + 1;
    }
    collected
}

/// Resolves the requests in order and stops at the first that fails.
pub fn resolve_all(requests: &Vec<TagRequest>) -> (r: Result<Vec<Tag>, TagSpecError>)
    ensures
        is_outcome(r, resolve_requests(request_views(requests@))),
{
    let ghost all = request_views(requests@);
    let mut tags: Vec<Tag> = Vec::new();
    let mut i: usize = 0;
    assert(all.take(0) == Seq::<RequestView>::empty());
    while i < requests.len()
        invariant
            0 <= i <= requests.len(),
            all == request_views(requests@),
            resolve_requests(all.take(i as int)) == Ok::<Seq<Tag>, RequestView>(tags@),
        decreases requests.len() - i,
    {
        let request = &requests[i];
        assert(all.take(i + 1).drop_last() == all.take(i as int));
        assert(all.take(i + 1).last() == request@);
        match Tag::from_str(request.raw.as_str()) {
            Ok(tag) => {
                tags.push(tag);
            },
            Err(error) => {
                proof {
                    lemma_failure_is_final(all, i + 1);
                }
                return Err(TagSpecError { origin: request.origin.duplicate(), error });
            },
        }
        i = i + 1;
    }
    assert(all.take(i as int) == all);
    Ok(tags)
}

/// Builds the list of tags of a run from the inline identifiers and the tag
/// files. The list keeps the order of the requests and keeps repeated tags.
/// The first identifier that does not resolve stops the build, and is
/// returned with its origin.
pub fn build_tag_spec(inline: &Vec<String>, files: &Vec<TagFile>) -> (r: Result<
    Vec<Tag>,
    TagSpecError,
>)
    ensures
        is_outcome(r, resolve_requests(requests(texts(inline@), file_views(files@)))),
{
    let collected = collect_requests(inline, files);
    resolve_all(&collected)
}

} // verus!
