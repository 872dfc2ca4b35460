//! From the paths a user names to the flat list of files to read.

use vstd::prelude::*;

verus! {

/// A file to read: its path, and its name within its directory.
#[derive(Clone, Debug, PartialEq, Eq)]
pub struct SourceFile {
    pub path: String,
    pub name: String,
}

/// An entry of a listed directory.
#[derive(Clone, Debug, PartialEq, Eq)]
pub struct DirEntry {
    pub file: SourceFile,
    /// Whether the entry is a regular file.
    pub is_file: bool,
    /// The extension of the entry's name, without the dot.
    pub extension: Option<String>,
}

/// What was found at a path.
#[derive(Clone, Debug, PartialEq, Eq)]
pub enum PathKind {
    /// A regular file with this name.
    File { name: String },
    /// A directory with these entries, in listing order.
    Directory { entries: Vec<DirEntry> },
    /// Nothing, or something that is neither.
    Other,
}

/// A path that the user named, with what was found there.
#[derive(Clone, Debug, PartialEq, Eq)]
pub struct InputPath {
    pub path: String,
    pub kind: PathKind,
}

/// A named path that is neither a file nor a directory.
#[derive(Clone, Debug, PartialEq, Eq)]
pub struct InvalidInputError(pub String);

impl InvalidInputError {
    /// The message for the user, which names the path.
    pub fn message(&self) -> (m: String)
        ensures
            m@ == "Invalid input: "@ + self.0@,
    {
        let head: String = "Invalid input: ".to_owned();
        head.concat(self.0.as_str())
    }
}

/// A file to read, in specifications.
pub struct SourceFileView {
    pub path: Seq<char>,
    pub name: Seq<char>,
}

/// A directory entry in specifications.
pub struct DirEntryView {
    pub file: SourceFileView,
    pub is_file: bool,
    pub extension: Option<Seq<char>>,
}

/// What was found at a path, in specifications.
pub enum PathKindView {
    File { name: Seq<char> },
    Directory { entries: Seq<DirEntryView> },
    Other,
}

/// A named path in specifications.
pub struct InputPathView {
    pub path: Seq<char>,
    pub kind: PathKindView,
}

impl View for SourceFile {
    type V = SourceFileView;

    open spec fn view(&self) -> SourceFileView {
        SourceFileView { path: self.path@, name: self.name@ }
    }
}

impl View for DirEntry {
    type V = DirEntryView;

    open spec fn view(&self) -> DirEntryView {
        DirEntryView {
            file: self.file@,
            is_file: self.is_file,
            extension: match self.extension {
                Some(text) => Some(text@),
                None => None,
            },
        }
    }
}

/// The views of a sequence of directory entries.
pub open spec fn entry_views(entries: Seq<DirEntry>) -> Seq<DirEntryView> {
    Seq::new(entries.len(), |i: int| entries[i]@)
}

impl View for PathKind {
    type V = PathKindView;

    open spec fn view(&self) -> PathKindView {
        match *self {
            PathKind::File { name } => PathKindView::File { name: name@ },
            PathKind::Directory { entries } => PathKindView::Directory {
                entries: entry_views(entries@),
            },
            PathKind::Other => PathKindView::Other,
        }
    }
}

impl View for InputPath {
    type V = InputPathView;

    open spec fn view(&self) -> InputPathView {
        InputPathView { path: self.path@, kind: self.kind@ }
    }
}

/// The views of a sequence of named paths.
pub open spec fn input_views(inputs: Seq<InputPath>) -> Seq<InputPathView> {
    Seq::new(inputs.len(), |i: int| inputs[i]@)
}

/// The views of a sequence of files.
pub open spec fn source_views(files: Seq<SourceFile>) -> Seq<SourceFileView> {
    Seq::new(files.len(), |i: int| files[i]@)
}

/// The extension that a directory entry must have to be read: `dcm`, in
/// lower case.
pub open spec fn expected_extension() -> Seq<char> {
    seq!['d', 'c', 'm']
}

/// Whether an entry of a directory is read: a regular file whose extension
/// is exactly the expected one.
pub open spec fn is_kept(entry: DirEntryView) -> bool {
    entry.is_file && entry.extension == Some(expected_extension())
}

/// The files read among the first `n` entries of a directory, in listing
/// order.
pub open spec fn kept_entries(entries: Seq<DirEntryView>, n: int) -> Seq<SourceFileView>
    decreases n,
{
    if n <= 0 {
        Seq::empty()
    } else if is_kept(entries[n - 1]) {
        kept_entries(entries, n - 1).push(entries[n - 1].file)
    } else {
        kept_entries(entries, n - 1)
    }
}

/// The files that one named path stands for, or nothing where the path is
/// neither a file nor a directory. A file that is named itself is read
/// whatever its extension.
pub open spec fn files_at(input: InputPathView) -> Option<Seq<SourceFileView>> {
    match input.kind {
        PathKindView::File { name } => Some(seq![SourceFileView { path: input.path, name: name }]),
        PathKindView::Directory { entries } => Some(kept_entries(entries, entries.len() as int)),
        PathKindView::Other => None,
    }
}

/// The files that the first `n` named paths stand for, in the order of the
/// paths, or the first of these paths that is neither a file nor a
/// directory.
pub open spec fn expansion(inputs: Seq<InputPathView>, n: int) -> Result<
    Seq<SourceFileView>,
    Seq<char>,
>
    decreases n,
{
    if n <= 0 {
        Ok(Seq::empty())
    } else {
        match expansion(inputs, n - 1) {
            Err(path) => Err(path),
            Ok(files) => match files_at(inputs[n - 1]) {
                Some(more) => Ok(files + more),
                None => Err(inputs[n - 1].path),
            },
        }
    }
}

/// A path that fails among the first inputs fails the whole expansion.
proof fn lemma_invalid_is_final(inputs: Seq<InputPathView>, n: int, m: int)
    requires
        0 <= n <= m,
        expansion(inputs, n) is Err,
    ensures
        expansion(inputs, m) == expansion(inputs, n),
    decreases m - n,
{
    if n < m {
        lemma_invalid_is_final(inputs, n, m - 1);
    }
}

/// Whether a directory entry is read.
pub fn keeps_entry(entry: &DirEntry) -> (kept: bool)
    ensures
        kept == is_kept(entry@),
{
    proof {
        reveal_strlit("dcm");
    }
    let expected: String = "dcm".to_owned();
    assert(expected@ == expected_extension());
    match &entry.extension {
        Some(extension) => entry.is_file && *extension == expected,
        None => false,
    }
}

/// Appends the files that one named path stands for to `files`. A path that
/// is neither a file nor a directory is refused, and `files` stays as it
/// was.
pub fn expand_input(files: &mut Vec<SourceFile>, input: &InputPath) -> (r: Result<
    (),
    InvalidInputError,
>)
    ensures
        match files_at(input@) {
            Some(more) => r is Ok && source_views(final(files)@) == source_views(old(files)@)
                + more,
            None => r matches Err(e) && e.0@ == input.path@ && *final(files) == *old(files),
        },
{
    let ghost start = source_views(files@);
    match &input.kind {
        PathKind::File { name } => {
            let ghost before = files@;
            let file = SourceFile { path: input.path.clone(), name: name.clone() };
            files.push(file);
            assert(source_views(files@) == source_views(before) + seq![file@]);
            Ok(())
        },
        PathKind::Directory { entries } => {
            let ghost evs = entry_views(entries@);
            let mut i: usize = 0;
            assert(start + kept_entries(evs, 0) == start);
            while i < entries.len()
                invariant
                    0 <= i <= entries.len(),
                    evs == entry_views(entries@),
                    source_views(files@) == start + kept_entries(evs, i as int),
                decreases entries.len() - i,
            {
                let entry = &entries[i];
                assert(evs[i as int] == entry@);
                if keeps_entry(entry) {
                    let ghost before = files@;
                    let file = SourceFile {
                        path: entry.file.path.clone(),
                        name: entry.file.name.clone(),
                    };
                    files.push(file);
                    assert(source_views(files@) == source_views(before).push(file@));
                    assert(file@ == entry@.file);
                }
                i = i + 1;
            }
            Ok(())
        },
        PathKind::Other => Err(InvalidInputError(input.path.clone())),
    }
}

/// Expands the named paths, in order, into the files to read. The first
/// path that is neither a file nor a directory stops the expansion. No file
/// found is no error.
pub fn expand(inputs: &Vec<InputPath>) -> (r: Result<Vec<SourceFile>, InvalidInputError>)
    ensures
        match expansion(input_views(inputs@), inputs@.len() as int) {
            Ok(found) => r matches Ok(files) && source_views(files@) == found,
            Err(path) => r matches Err(e) && e.0@ == path,
        },
{
    let ghost ivs = input_views(inputs@);
    let mut files: Vec<SourceFile> = Vec::new();
    let mut i: usize = 0;
    assert(source_views(files@) == Seq::<SourceFileView>::empty());
    while i < inputs.len()
        invariant
            0 <= i <= inputs.len(),
            ivs == input_views(inputs@),
            expansion(ivs, i as int) == Ok::<Seq<SourceFileView>, Seq<char>>(source_views(files@)),
        decreases inputs.len() - i,
    {
        assert(ivs[i as int] == inputs@[i as int]@);
        match expand_input(&mut files, &inputs[i]) {
            Ok(()) => {},
            Err(e) => {
                proof {
                    lemma_invalid_is_final(ivs, i + 1, inputs@.len() as int);
                }
                return Err(e);
            },
        }
        i = i + 1;
    }
    Ok(files)
}

} // verus!
