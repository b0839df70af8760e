//! The filesystems that the preprocessor reads source files from.
use vstd::prelude::*;

use crate::errors::{FilesystemError, FsErrorView};
use crate::paths::{paths_equal, same_path};
use crate::text::chars_of;

verus! {

/// A read result as a view.
pub open spec fn read_view(r: Result<String, FilesystemError>) -> Result<Seq<char>, FsErrorView> {
    match r {
        Ok(t) => Ok(t@),
        Err(e) => Err(e@),
    }
}

/// A source of files for the preprocessor. Reading the same path twice gives
/// the same result: each implementation says which, through `spec_read_file`
/// and `spec_file_exists`.
pub trait PreprocessorFilesystem {
    /// What reading `file` gives.
    spec fn spec_read_file(&self, file: Seq<char>) -> Result<Seq<char>, FsErrorView>;

    /// Whether `file` exists.
    spec fn spec_file_exists(&self, file: Seq<char>) -> bool;

    /// Reads the text of `file`.
    fn read_file(&self, file: &str) -> (r: Result<String, FilesystemError>)
        ensures
            read_view(r) == self.spec_read_file(file@),
    ;

    /// Whether `file` exists.
    fn file_exists(&self, file: &str) -> (r: bool)
        ensures
            r == self.spec_file_exists(file@),
    ;
}

/// A filesystem read through a reference: it gives what the filesystem gives.
impl<'a, T: PreprocessorFilesystem> PreprocessorFilesystem for &'a T {
    open spec fn spec_read_file(&self, file: Seq<char>) -> Result<Seq<char>, FsErrorView> {
        (**self).spec_read_file(file)
    }

    open spec fn spec_file_exists(&self, file: Seq<char>) -> bool {
        (**self).spec_file_exists(file)
    }

    fn read_file(&self, file: &str) -> (r: Result<String, FilesystemError>) {
        (**self).read_file(file)
    }

    fn file_exists(&self, file: &str) -> (r: bool) {
        (**self).file_exists(file)
    }
}

/// The contents of the first file in `es` that names the same file as `file`.
pub open spec fn lookup_path(es: Seq<(Seq<char>, Seq<char>)>, file: Seq<char>) -> Option<Seq<char>>
    decreases es.len(),
{
    if es.len() == 0 {
        None
    } else if same_path(es[0].0, file) {
        Some(es[0].1)
    } else {
        lookup_path(es.drop_first(), file)
    }
}

/// Looking up in a list with one more file at the end.
pub proof fn lemma_lookup_push(
    es: Seq<(Seq<char>, Seq<char>)>,
    p: Seq<char>,
    c: Seq<char>,
    q: Seq<char>,
)
    ensures
        lookup_path(es.push((p, c)), q) == (match lookup_path(es, q) {
            Some(t) => Some(t),
            None => if same_path(p, q) {
                Some(c)
            } else {
                None
            },
        }),
    decreases es.len(),
{
    if es.len() > 0 {
        assert(es.push((p, c)).drop_first() =~= es.drop_first().push((p, c)));
        assert(es.push((p, c))[0] == es[0]);
        lemma_lookup_push(es.drop_first(), p, c, q);
    } else {
        assert(es.push((p, c)).drop_first() =~= Seq::<(Seq<char>, Seq<char>)>::empty());
        assert(es.push((p, c))[0] == (p, c));
        assert(lookup_path(es.push((p, c)).drop_first(), q) is None);
    }
}

/// Files held in memory, each path at most once.
#[derive(Debug)]
pub struct VirtualFilesystem {
    files: Vec<(String, String)>,
}

impl View for VirtualFilesystem {
    type V = Seq<(Seq<char>, Seq<char>)>;

    closed spec fn view(&self) -> Seq<(Seq<char>, Seq<char>)> {
        self.files@.map_values(|f: (String, String)| (f.0@, f.1@))
    }
}

/// The error for a file that is already present.
pub open spec fn already_exists_error(file: Seq<char>) -> FsErrorView {
    FsErrorView::UnableToLoadFile(file, "file already exists in virtual filesystem"@)
}

/// The views of (path, contents) pairs.
pub open spec fn file_list_view(files: Seq<(String, String)>) -> Seq<(Seq<char>, Seq<char>)> {
    files.map_values(|f: (String, String)| (f.0@, f.1@))
}

/// Whether no two of the (path, contents) pairs name the same path.
pub open spec fn paths_distinct(files: Seq<(String, String)>) -> bool {
    forall|i: int, j: int| 0 <= i < j < files.len() ==> !same_path(files[i].0@, files[j].0@)
}

impl VirtualFilesystem {
    /// An empty filesystem.
    pub fn empty() -> (r: Self)
        ensures
            r@ == Seq::<(Seq<char>, Seq<char>)>::empty(),
    {
        let r = VirtualFilesystem { files: Vec::new() };
        assert(r@ =~= Seq::<(Seq<char>, Seq<char>)>::empty());
        r
    }

    /// The contents of the file at `file`, if present.
    fn find(&self, file: &str) -> (r: Option<&String>)
        ensures
            match r {
                Some(t) => lookup_path(self@, file@) == Some(t@),
                None => lookup_path(self@, file@) is None,
            },
    {
        let target = chars_of(file);
        let mut i: usize = 0;
        assert(self@.skip(0) =~= self@);
        while i < self.files.len()
            invariant
                i <= self.files@.len(),
                target@ == file@,
                lookup_path(self@.skip(i as int), file@) == lookup_path(self@, file@),
            decreases self.files.len() - i,
        {
            let p = chars_of(self.files[i].0.as_str());
            assert(self@.skip(i as int)[0] == (self.files@[i as int].0@, self.files@[i as int].1@));
            if paths_equal(p.as_slice(), target.as_slice()) {
                return Some(&self.files[i].1);
            }
            assert(self@.skip(i as int).drop_first() =~= self@.skip(i as int + 1));
            i = i + 1;
        }
        assert(self@.skip(i as int).len() == 0);
        None
    }

    /// Adds `code` as the contents of `file`; fails, changing nothing, where
    /// a file of the same path is present.
    pub fn add_file(&mut self, file: &str, code: &str) -> (r: Result<(), FilesystemError>)
        ensures
            match r {
                Ok(_) => lookup_path(old(self)@, file@) is None && final(self)@ == old(self)@.push(
                    (file@, code@),
                ),
                Err(e) => lookup_path(old(self)@, file@) is Some && final(self)@ == old(self)@
                    && e@ == already_exists_error(file@),
            },
    {
        if self.find(file).is_some() {
            let e = FilesystemError::UnableToLoadFile(
                String::from_str(file),
                String::from_str("file already exists in virtual filesystem"),
            );
            return Err(e);
        }
        let ghost before = self@;
        self.files.push((String::from_str(file), String::from_str(code)));
        assert(self@ =~= before.push((file@, code@)));
        Ok(())
    }

    /// A filesystem holding `code` as `file`.
    pub fn new(code: &str, file: &str) -> (r: Self)
        ensures
            r@ == seq![(file@, code@)],
    {
        let mut fs = Self::empty();
        let res = fs.add_file(file, code);
        assert(res is Ok);
        assert(fs@ =~= seq![(file@, code@)]);
        fs
    }

    /// A filesystem holding each of `files` (path, contents), none of which
    /// may name the same path as another.
    pub fn new_system(files: &Vec<(String, String)>) -> (r: Self)
        requires
            paths_distinct(files@),
        ensures
            r@ == file_list_view(files@),
    {
        let ghost want = files@.map_values(|f: (String, String)| (f.0@, f.1@));
        let mut fs = Self::empty();
        let mut i: usize = 0;
        while i < files.len()
            invariant
                i <= files@.len(),
                want == files@.map_values(|f: (String, String)| (f.0@, f.1@)),
                forall|a: int, b: int|
                    0 <= a < b < files@.len() ==> !same_path(files@[a].0@, files@[b].0@),
                fs@ == want.take(i as int),
            decreases files.len() - i,
        {
            proof {
                assert forall|q: Seq<char>| #![auto]
                    (forall|a: int| 0 <= a < i ==> !same_path(want[a].0, q)) implies lookup_path(
                    want.take(i as int),
                    q,
                ) is None by {
                    lemma_lookup_absent(want.take(i as int), q);
                }
                assert forall|a: int| 0 <= a < i implies !same_path(
                    want[a].0,
                    files@[i as int].0@,
                ) by {}
            }
            let res = fs.add_file(files[i].0.as_str(), files[i].1.as_str());
            assert(res is Ok);
            assert(want.take(i as int + 1) =~= want.take(i as int).push(want[i as int]));
            i = i + 1;
        }
        assert(want.take(files@.len() as int) =~= want);
        fs
    }
}

/// A lookup finds nothing where no entry names the same path.
pub proof fn lemma_lookup_absent(es: Seq<(Seq<char>, Seq<char>)>, q: Seq<char>)
    requires
        forall|a: int| 0 <= a < es.len() ==> !same_path(#[trigger] es[a].0, q),
    ensures
        lookup_path(es, q) is None,
    decreases es.len(),
{
    if es.len() > 0 {
        assert forall|a: int| 0 <= a < es.drop_first().len() implies !same_path(
            #[trigger] es.drop_first()[a].0,
            q,
        ) by {
            assert(es.drop_first()[a] == es[a + 1]);
        }
        lemma_lookup_absent(es.drop_first(), q);
    }
}

impl PreprocessorFilesystem for VirtualFilesystem {
    open spec fn spec_read_file(&self, file: Seq<char>) -> Result<Seq<char>, FsErrorView> {
        match lookup_path(self@, file) {
            Some(t) => Ok(t),
            None => Err(FsErrorView::FileNotFound(file)),
        }
    }

    open spec fn spec_file_exists(&self, file: Seq<char>) -> bool {
        lookup_path(self@, file) is Some
    }

    fn read_file(&self, file: &str) -> (r: Result<String, FilesystemError>) {
        match self.find(file) {
            Some(t) => Ok(t.clone()),
            None => Err(FilesystemError::FileNotFound(String::from_str(file))),
        }
    }

    fn file_exists(&self, file: &str) -> (r: bool) {
        self.find(file).is_some()
    }
}

/// Reading through layers, the last layer first: a layer that does not have
/// the file passes the read on, any other error stops it.
pub open spec fn overlay_read<F: PreprocessorFilesystem>(layers: Seq<F>, file: Seq<char>) -> Result<
    Seq<char>,
    FsErrorView,
>
    decreases layers.len(),
{
    if layers.len() == 0 {
        Err(FsErrorView::FileNotFound(file))
    } else {
        match layers.last().spec_read_file(file) {
            Ok(t) => Ok(t),
            Err(FsErrorView::FileNotFound(p)) => overlay_read(layers.drop_last(), file),
            Err(e) => Err(e),
        }
    }
}

/// Whether some layer has the file.
pub open spec fn overlay_exists<F: PreprocessorFilesystem>(layers: Seq<F>, file: Seq<char>) -> bool {
    exists|i: int| 0 <= i < layers.len() && (#[trigger] layers[i]).spec_file_exists(file)
}

/// Filesystems stacked on one another; later layers take precedence.
#[derive(Debug)]
pub struct OverlayFilesystem<F> {
    pub systems: Vec<F>,
}

impl<F> OverlayFilesystem<F> {
    /// An overlay with no layers.
    pub fn new() -> (r: Self)
        ensures
            r.systems@.len() == 0,
    {
        OverlayFilesystem { systems: Vec::new() }
    }
}

impl<F: PreprocessorFilesystem> PreprocessorFilesystem for OverlayFilesystem<F> {
    open spec fn spec_read_file(&self, file: Seq<char>) -> Result<Seq<char>, FsErrorView> {
        overlay_read(self.systems@, file)
    }

    open spec fn spec_file_exists(&self, file: Seq<char>) -> bool {
        overlay_exists(self.systems@, file)
    }

    fn read_file(&self, file: &str) -> (r: Result<String, FilesystemError>) {
        let mut i = self.systems.len();
        assert(self.systems@.take(i as int) =~= self.systems@);
        while i > 0
            invariant
                i <= self.systems@.len(),
                overlay_read(self.systems@.take(i as int), file@) == overlay_read(
                    self.systems@,
                    file@,
                ),
            decreases i,
        {
            let ghost layers = self.systems@.take(i as int);
            assert(layers.last() == self.systems@[i - 1]);
            assert(layers.drop_last() =~= self.systems@.take(i - 1));
            match self.systems[i - 1].read_file(file) {
                Ok(t) => {
                    return Ok(t);
                },
                Err(e) => {
                    if !e.is_not_found() {
                        return Err(e);
                    }
                },
            }
            i = i - 1;
        }
        assert(self.systems@.take(0).len() == 0);
        Err(FilesystemError::FileNotFound(String::from_str(file)))
    }

    fn file_exists(&self, file: &str) -> (r: bool) {
        let mut i = self.systems.len();
        while i > 0
            invariant
                i <= self.systems@.len(),
                forall|j: int|
                    i <= j < self.systems@.len() ==> !(#[trigger] self.systems@[j]).spec_file_exists(
                        file@,
                    ),
            decreases i,
        {
            if self.systems[i - 1].file_exists(file) {
                return true;
            }
            i = i - 1;
        }
        false
    }
}

/// `PathBuf::join`: `file` itself where it is absolute or there is no base,
/// else `file` after the base and a `/`.
pub open spec fn join_path(base: Seq<char>, file: Seq<char>) -> Seq<char> {
    if (file.len() > 0 && file[0] == '/') || base.len() == 0 {
        file
    } else if base.last() == '/' {
        base + file
    } else {
        base + seq!['/'] + file
    }
}

/// The first value recorded under a path that names the same file as `file`.
pub open spec fn lookup_first<V>(es: Seq<(Seq<char>, V)>, file: Seq<char>) -> Option<V>
    decreases es.len(),
{
    if es.len() == 0 {
        None
    } else if same_path(es[0].0, file) {
        Some(es[0].1)
    } else {
        lookup_first(es.drop_first(), file)
    }
}

/// What the disk answered when a requested path was made canonical: the
/// canonical path, or the message of the error.
#[derive(Debug)]
pub struct PathAnswer {
    pub path: String,
    pub canonical: Result<String, String>,
}

/// What the disk holds at a canonical path: `None` where nothing exists
/// there, else what reading it gave (the text, or the message of the error).
#[derive(Debug)]
pub struct FileAnswer {
    pub path: String,
    pub content: Option<Result<String, String>>,
}

/// The view of a text or an error message.
pub open spec fn text_result_view(r: Result<String, String>) -> Result<Seq<char>, Seq<char>> {
    match r {
        Ok(t) => Ok(t@),
        Err(m) => Err(m@),
    }
}

/// The view of what a canonical path holds.
pub open spec fn content_view(c: Option<Result<String, String>>) -> Option<Result<Seq<char>, Seq<char>>> {
    match c {
        Some(r) => Some(text_result_view(r)),
        None => None,
    }
}

/// What the disk answered so far: for requested paths, their canonical
/// paths; for canonical paths, what they hold.
pub struct RealFilesystemView {
    pub paths: Seq<(Seq<char>, Result<Seq<char>, Seq<char>>)>,
    pub files: Seq<(Seq<char>, Option<Result<Seq<char>, Seq<char>>>)>,
}

/// Reading `file` from what the disk answered: its canonical path, then what
/// that holds. A path that cannot be made canonical, or a file that cannot be
/// read, gives `UnableToLoadFile` under the path as requested; a canonical path
/// where nothing exists gives `FileNotFound` under the canonical path; a path
/// whose answers are not all recorded yet is reported as not found under the
/// path as requested.
pub open spec fn real_read(v: RealFilesystemView, file: Seq<char>) -> Result<Seq<char>, FsErrorView> {
    match lookup_first(v.paths, file) {
        None => Err(FsErrorView::FileNotFound(file)),
        Some(Err(m)) => Err(FsErrorView::UnableToLoadFile(file, m)),
        Some(Ok(c)) => match lookup_first(v.files, c) {
            None => Err(FsErrorView::FileNotFound(file)),
            Some(None) => Err(FsErrorView::FileNotFound(c)),
            Some(Some(Ok(t))) => Ok(t),
            Some(Some(Err(m))) => Err(FsErrorView::UnableToLoadFile(file, m)),
        },
    }
}

/// Whether `file` exists, from what the disk answered: its canonical path
/// holds something. Unrecorded answers count as absent.
pub open spec fn real_exists(v: RealFilesystemView, file: Seq<char>) -> bool {
    match lookup_first(v.paths, file) {
        Some(Ok(c)) => match lookup_first(v.files, c) {
            Some(Some(_)) => true,
            _ => false,
        },
        _ => false,
    }
}

/// Whether every answer that reading `file` needs is recorded.
pub open spec fn answered(v: RealFilesystemView, file: Seq<char>) -> bool {
    match lookup_first(v.paths, file) {
        None => false,
        Some(Err(_)) => true,
        Some(Ok(c)) => lookup_first(v.files, c) is Some,
    }
}

/// Files on disk, as far as the disk has been asked: for each requested path
/// its canonical path, for each canonical path what the file there holds, and
/// the directory that paths are relative to. Contents are kept by canonical
/// path, so a file is read from disk at most once whatever path names it.
/// Reading gives what the recorded answers say; where an answer is missing,
/// the file is reported as not found, and as absent, until it is recorded.
#[derive(Debug)]
pub struct RealFilesystem {
    paths: Vec<PathAnswer>,
    files: Vec<FileAnswer>,
    base: Option<String>,
}

impl View for RealFilesystem {
    type V = RealFilesystemView;

    closed spec fn view(&self) -> RealFilesystemView {
        RealFilesystemView {
            paths: self.paths@.map_values(|a: PathAnswer| (a.path@, text_result_view(a.canonical))),
            files: self.files@.map_values(|a: FileAnswer| (a.path@, content_view(a.content))),
        }
    }
}

impl RealFilesystem {
    /// The directory that paths are relative to, if any.
    pub closed spec fn base_view(&self) -> Option<Seq<char>> {
        match self.base {
            Some(b) => Some(b@),
            None => None,
        }
    }

    /// Nothing asked of the disk yet, paths taken as they are.
    pub fn new() -> (r: Self)
        ensures
            r@.paths.len() == 0,
            r@.files.len() == 0,
            r.base_view() is None,
    {
        RealFilesystem { paths: Vec::new(), files: Vec::new(), base: None }
    }

    /// Nothing asked of the disk yet, paths taken relative to `base`.
    pub fn new_relative(base: String) -> (r: Self)
        ensures
            r@.paths.len() == 0,
            r@.files.len() == 0,
            r.base_view() == Some(base@),
    {
        RealFilesystem { paths: Vec::new(), files: Vec::new(), base: Some(base) }
    }

    /// The path of `file` on disk: joined to the base directory, if any.
    pub fn full_path(&self, file: &str) -> (r: String)
        ensures
            r@ == match self.base_view() {
                Some(b) => join_path(b, file@),
                None => file@,
            },
    {
        match &self.base {
            None => String::from_str(file),
            Some(b) => {
                let fc = chars_of(file);
                let bc = chars_of(b.as_str());
                if (fc.len() > 0 && fc[0] == '/') || bc.len() == 0 {
                    String::from_str(file)
                } else if bc[bc.len() - 1] == '/' {
                    let mut s = b.clone();
                    s.append(file);
                    s
                } else {
                    let mut s = b.clone();
                    s.append("/");
                    s.append(file);
                    proof {
                        assert("/"@ =~= seq!['/']) by {
                            reveal_strlit("/");
                        }
                    }
                    s
                }
            },
        }
    }

    /// The position of the canonical-path answer for `file`, if any.
    fn find_path(&self, file: &str) -> (r: Option<usize>)
        ensures
            match r {
                Some(i) => i < self.paths@.len() && lookup_first(self@.paths, file@) == Some(
                    text_result_view(self.paths@[i as int].canonical),
                ),
                None => lookup_first(self@.paths, file@) is None,
            },
    {
        let target = chars_of(file);
        let ghost es = self@.paths;
        let mut i: usize = 0;
        assert(es.skip(0) =~= es);
        while i < self.paths.len()
            invariant
                i <= self.paths@.len(),
                es == self@.paths,
                target@ == file@,
                lookup_first(es.skip(i as int), file@) == lookup_first(es, file@),
            decreases self.paths.len() - i,
        {
            let p = chars_of(self.paths[i].path.as_str());
            assert(es.skip(i as int)[0] == es[i as int]);
            if paths_equal(p.as_slice(), target.as_slice()) {
                return Some(i);
            }
            assert(es.skip(i as int).drop_first() =~= es.skip(i as int + 1));
            i = i + 1;
        }
        assert(es.skip(i as int).len() == 0);
        None
    }

    /// The position of the answer for the file at canonical path `file`, if any.
    fn find_file(&self, file: &str) -> (r: Option<usize>)
        ensures
            match r {
                Some(i) => i < self.files@.len() && lookup_first(self@.files, file@) == Some(
                    content_view(self.files@[i as int].content),
                ),
                None => lookup_first(self@.files, file@) is None,
            },
    {
        let target = chars_of(file);
        let ghost es = self@.files;
        let mut i: usize = 0;
        assert(es.skip(0) =~= es);
        while i < self.files.len()
            invariant
                i <= self.files@.len(),
                es == self@.files,
                target@ == file@,
                lookup_first(es.skip(i as int), file@) == lookup_first(es, file@),
            decreases self.files.len() - i,
        {
            let p = chars_of(self.files[i].path.as_str());
            assert(es.skip(i as int)[0] == es[i as int]);
            if paths_equal(p.as_slice(), target.as_slice()) {
                return Some(i);
            }
            assert(es.skip(i as int).drop_first() =~= es.skip(i as int + 1));
            i = i + 1;
        }
        assert(es.skip(i as int).len() == 0);
        None
    }

    /// Whether every answer that reading `file` needs is recorded (see [`answered`]).
    pub fn has_answer(&self, file: &str) -> (r: bool)
        ensures
            r == answered(self@, file@),
    {
        match self.find_path(file) {
            None => false,
            Some(i) => match &self.paths[i].canonical {
                Err(_) => true,
                Ok(c) => self.find_file(c.as_str()).is_some(),
            },
        }
    }

    /// Whether what the file at canonical path `file` holds is recorded.
    pub fn has_file(&self, file: &str) -> (r: bool)
        ensures
            r == (lookup_first(self@.files, file@) is Some),
    {
        self.find_file(file).is_some()
    }

    /// Records the canonical path that the disk gave for `file`, or the
    /// message of its error.
    pub fn record_path(&mut self, file: &str, canonical: Result<String, String>)
        ensures
            final(self)@.paths == old(self)@.paths.push((file@, text_result_view(canonical))),
            final(self)@.files == old(self)@.files,
            final(self).base_view() == old(self).base_view(),
    {
        let ghost v = text_result_view(canonical);
        self.paths.push(PathAnswer { path: String::from_str(file), canonical });
        assert(self@.paths =~= old(self)@.paths.push((file@, v)));
        assert(self@.files =~= old(self)@.files);
    }

    /// Records what the disk holds at canonical path `file`: `None` where
    /// nothing exists there, else what reading it gave.
    pub fn record_file(&mut self, file: &str, content: Option<Result<String, String>>)
        ensures
            final(self)@.files == old(self)@.files.push((file@, content_view(content))),
            final(self)@.paths == old(self)@.paths,
            final(self).base_view() == old(self).base_view(),
    {
        let ghost v = content_view(content);
        self.files.push(FileAnswer { path: String::from_str(file), content });
        assert(self@.files =~= old(self)@.files.push((file@, v)));
        assert(self@.paths =~= old(self)@.paths);
    }
}

impl PreprocessorFilesystem for RealFilesystem {
    open spec fn spec_read_file(&self, file: Seq<char>) -> Result<Seq<char>, FsErrorView> {
        real_read(self@, file)
    }

    open spec fn spec_file_exists(&self, file: Seq<char>) -> bool {
        real_exists(self@, file)
    }

    fn read_file(&self, file: &str) -> (r: Result<String, FilesystemError>) {
        match self.find_path(file) {
            None => Err(FilesystemError::FileNotFound(String::from_str(file))),
            Some(i) => match &self.paths[i].canonical {
                Err(m) => Err(FilesystemError::UnableToLoadFile(String::from_str(file), m.clone())),
                Ok(c) => match self.find_file(c.as_str()) {
                    None => Err(FilesystemError::FileNotFound(String::from_str(file))),
                    Some(k) => match &self.files[k].content {
                        None => Err(FilesystemError::FileNotFound(c.clone())),
                        Some(Ok(t)) => Ok(t.clone()),
                        Some(Err(m)) => Err(
                            FilesystemError::UnableToLoadFile(String::from_str(file), m.clone()),
                        ),
                    },
                },
            },
        }
    }

    fn file_exists(&self, file: &str) -> (r: bool) {
        match self.find_path(file) {
            Some(i) => match &self.paths[i].canonical {
                Ok(c) => match self.find_file(c.as_str()) {
                    Some(k) => self.files[k].content.is_some(),
                    None => false,
                },
                Err(_) => false,
            },
            None => false,
        }
    }
}

/// Answers recorded after the first one for a path do not change what
/// looking the path up gives.
pub proof fn lemma_lookup_first_append<V>(es: Seq<(Seq<char>, V)>, more: Seq<(Seq<char>, V)>, q: Seq<char>)
    requires
        lookup_first(es, q) is Some,
    ensures
        lookup_first(es + more, q) == lookup_first(es, q),
    decreases es.len(),
{
    if es.len() > 0 {
        assert((es + more)[0] == es[0]);
        if !same_path(es[0].0, q) {
            assert((es + more).drop_first() =~= es.drop_first() + more);
            lemma_lookup_first_append(es.drop_first(), more, q);
        }
    }
}

/// Looking up two paths that name the same file gives the same answer.
pub proof fn lemma_lookup_first_same_file<V>(es: Seq<(Seq<char>, V)>, a: Seq<char>, b: Seq<char>)
    requires
        same_path(a, b),
    ensures
        lookup_first(es, a) == lookup_first(es, b),
    decreases es.len(),
{
    if es.len() > 0 {
        lemma_lookup_first_same_file(es.drop_first(), a, b);
    }
}

/// Reads are kept per canonical file: once the answers that reading `p`
/// needs are recorded, recording more answers changes neither what `p`
/// reads nor whether it exists; and any other path that the disk made
/// canonical to the same file reads the same text.
pub proof fn law_recorded_reads_stay(
    v: RealFilesystemView,
    p: Seq<char>,
    q: Seq<char>,
    more_paths: Seq<(Seq<char>, Result<Seq<char>, Seq<char>>)>,
    more_files: Seq<(Seq<char>, Option<Result<Seq<char>, Seq<char>>>)>,
)
    requires
        answered(v, p),
    ensures
        ({
            let w = RealFilesystemView { paths: v.paths + more_paths, files: v.files + more_files };
            &&& answered(w, p)
            &&& real_read(w, p) == real_read(v, p)
            &&& real_exists(w, p) == real_exists(v, p)
        }),
        (lookup_first(v.paths, p) matches Some(Ok(c)) && lookup_first(v.paths, q) matches Some(
            Ok(d),
        ) && same_path(c, d) && real_read(v, p) is Ok) ==> real_read(v, q) == real_read(v, p),
{
    lemma_lookup_first_append(v.paths, more_paths, p);
    if let Some(Ok(c)) = lookup_first(v.paths, p) {
        lemma_lookup_first_append(v.files, more_files, c);
        if let Some(Ok(d)) = lookup_first(v.paths, q) {
            if same_path(c, d) {
                lemma_lookup_first_same_file(v.files, c, d);
            }
        }
    }
}

/// A layer of an overlay that may be of either kind: files held in memory,
/// or files on disk.
#[derive(Debug)]
pub enum FilesystemLayer {
    Virtual(VirtualFilesystem),
    Real(RealFilesystem),
}

impl PreprocessorFilesystem for FilesystemLayer {
    open spec fn spec_read_file(&self, file: Seq<char>) -> Result<Seq<char>, FsErrorView> {
        match self {
            FilesystemLayer::Virtual(v) => v.spec_read_file(file),
            FilesystemLayer::Real(r) => r.spec_read_file(file),
        }
    }

    open spec fn spec_file_exists(&self, file: Seq<char>) -> bool {
        match self {
            FilesystemLayer::Virtual(v) => v.spec_file_exists(file),
            FilesystemLayer::Real(r) => r.spec_file_exists(file),
        }
    }

    fn read_file(&self, file: &str) -> (r: Result<String, FilesystemError>) {
        match self {
            FilesystemLayer::Virtual(v) => v.read_file(file),
            FilesystemLayer::Real(r) => r.read_file(file),
        }
    }

    fn file_exists(&self, file: &str) -> (r: bool) {
        match self {
            FilesystemLayer::Virtual(v) => v.file_exists(file),
            FilesystemLayer::Real(r) => r.file_exists(file),
        }
    }
}

/// Looking up in a filesystem of one file.
pub proof fn lemma_lookup_single(p: Seq<char>, c: Seq<char>, q: Seq<char>)
    ensures
        lookup_path(seq![(p, c)], q) == if same_path(p, q) {
            Some(c)
        } else {
            None
        },
{
    let es = seq![(p, c)];
    assert(es.drop_first() =~= Seq::<(Seq<char>, Seq<char>)>::empty());
    assert(es[0] == (p, c));
    assert(lookup_path(es.drop_first(), q) is None);
}

/// After a file is added to a virtual filesystem, reading its path gives the
/// added text, and every path that names another file reads as before.
pub proof fn law_virtual_read_after_add(
    es: Seq<(Seq<char>, Seq<char>)>,
    p: Seq<char>,
    c: Seq<char>,
    q: Seq<char>,
)
    requires
        lookup_path(es, p) is None,
    ensures
        lookup_path(es.push((p, c)), p) == Some(c),
        !same_path(p, q) ==> lookup_path(es.push((p, c)), q) == lookup_path(es, q),
{
    lemma_lookup_push(es, p, c, p);
    lemma_lookup_push(es, p, c, q);
}

/// In an overlay, a layer that has the file hides the layers below it, and a
/// file that no layer has is not found under its own path.
pub proof fn law_overlay_upper_layer_wins<F: PreprocessorFilesystem>(layers: Seq<F>, file: Seq<char>)
    ensures
        layers.len() > 0 && layers.last().spec_read_file(file) is Ok ==> overlay_read(layers, file)
            == layers.last().spec_read_file(file),
        (forall|i: int|
            0 <= i < layers.len() ==> (#[trigger] layers[i]).spec_read_file(file)
                == Err::<Seq<char>, FsErrorView>(FsErrorView::FileNotFound(file))) ==> overlay_read(
            layers,
            file,
        ) == Err::<Seq<char>, FsErrorView>(FsErrorView::FileNotFound(file)),
    decreases layers.len(),
{
    if layers.len() > 0 {
        law_overlay_upper_layer_wins(layers.drop_last(), file);
        if forall|i: int|
            0 <= i < layers.len() ==> (#[trigger] layers[i]).spec_read_file(file) == Err::<
                Seq<char>,
                FsErrorView,
            >(FsErrorView::FileNotFound(file)) {
            assert(layers.last() == layers[layers.len() - 1]);
            assert forall|i: int| 0 <= i < layers.drop_last().len() implies (
            #[trigger] layers.drop_last()[i]).spec_read_file(file) == Err::<
                Seq<char>,
                FsErrorView,
            >(FsErrorView::FileNotFound(file)) by {
                assert(layers.drop_last()[i] == layers[i]);
            }
        }
    }
}

} // verus!
