//! Locations, output lines and the errors that the preprocessor and its
//! filesystems report, with their mathematical views.
use vstd::prelude::*;

use crate::text::push_char;

verus! {

/// The view of a [`PreprocessorLocation`].
pub struct LocationView {
    pub file: Seq<char>,
    pub line: int,
}

/// The view of a [`PreprocessorLine`].
pub struct LineView {
    pub text: Seq<char>,
    pub loc: LocationView,
}

/// The view of a [`PreprocessorError`].
pub struct ErrorView {
    pub loc: Option<LocationView>,
    pub text: Seq<char>,
    pub error: Seq<char>,
}

/// The view of a [`FilesystemError`].
pub enum FsErrorView {
    FileNotFound(Seq<char>),
    UnableToLoadFile(Seq<char>, Seq<char>),
}

/// A file and a 1-based line number within it.
#[derive(Debug, Clone)]
pub struct PreprocessorLocation {
    pub file: String,
    pub line: usize,
}

/// One line of preprocessed output and where it came from.
#[derive(Debug, Clone)]
pub struct PreprocessorLine {
    pub text: String,
    pub loc: PreprocessorLocation,
}

/// An error raised while preprocessing.
#[derive(Debug, Clone)]
pub struct PreprocessorError {
    pub loc: Option<PreprocessorLocation>,
    pub text: String,
    pub error: String,
}

/// An error raised by a filesystem that the preprocessor reads from.
#[derive(Debug, Clone)]
pub enum FilesystemError {
    FileNotFound(String),
    UnableToLoadFile(String, String),
}

impl View for PreprocessorLocation {
    type V = LocationView;

    open spec fn view(&self) -> LocationView {
        LocationView { file: self.file@, line: self.line as int }
    }
}

impl View for PreprocessorLine {
    type V = LineView;

    open spec fn view(&self) -> LineView {
        LineView { text: self.text@, loc: self.loc@ }
    }
}

impl View for PreprocessorError {
    type V = ErrorView;

    open spec fn view(&self) -> ErrorView {
        ErrorView {
            loc: match self.loc {
                Some(l) => Some(l@),
                None => None,
            },
            text: self.text@,
            error: self.error@,
        }
    }
}

impl View for FilesystemError {
    type V = FsErrorView;

    open spec fn view(&self) -> FsErrorView {
        match self {
            FilesystemError::FileNotFound(p) => FsErrorView::FileNotFound(p@),
            FilesystemError::UnableToLoadFile(p, m) => FsErrorView::UnableToLoadFile(p@, m@),
        }
    }
}

/// The path that a filesystem error is about.
pub open spec fn fs_error_path(e: FsErrorView) -> Seq<char> {
    match e {
        FsErrorView::FileNotFound(p) => p,
        FsErrorView::UnableToLoadFile(p, _) => p,
    }
}

/// The message of a filesystem error, as its `Display` writes it.
pub open spec fn fs_error_message(e: FsErrorView) -> Seq<char> {
    match e {
        FsErrorView::FileNotFound(p) => "file \""@ + p + "\" not found"@,
        FsErrorView::UnableToLoadFile(p, m) => "unable to load file \""@ + p + "\": "@ + m,
    }
}

/// A filesystem error turned into a preprocessor error: no location, the path
/// as its text and the filesystem's message as its error.
pub open spec fn error_from_fs(e: FsErrorView) -> ErrorView {
    ErrorView { loc: None, text: fs_error_path(e), error: fs_error_message(e) }
}

/// The decimal digits of `n`.
pub open spec fn decimal(n: nat) -> Seq<char>
    decreases n,
{
    if n < 10 {
        seq![digit_char((n % 10) as nat)]
    } else {
        decimal(n / 10).push(digit_char((n % 10) as nat))
    }
}

/// The character for a decimal digit.
pub open spec fn digit_char(d: nat) -> char {
    if d == 0 {
        '0'
    } else if d == 1 {
        '1'
    } else if d == 2 {
        '2'
    } else if d == 3 {
        '3'
    } else if d == 4 {
        '4'
    } else if d == 5 {
        '5'
    } else if d == 6 {
        '6'
    } else if d == 7 {
        '7'
    } else if d == 8 {
        '8'
    } else {
        '9'
    }
}

/// How a location is displayed: `file::line`.
pub open spec fn location_text(l: LocationView) -> Seq<char> {
    l.file + "::"@ + decimal(l.line as nat)
}

/// How an error is displayed: `CBP: [loc] @ "text" => error`, the
/// bracketed location only where there is one.
pub open spec fn error_text(e: ErrorView) -> Seq<char> {
    "CBP: "@ + match e.loc {
        Some(l) => "["@ + location_text(l) + "] @ "@,
        None => Seq::<char>::empty(),
    } + "\""@ + e.text + "\" => "@ + e.error
}

fn digit_of(d: usize) -> (c: char)
    requires
        d < 10,
    ensures
        c == digit_char(d as nat),
{
    if d == 0 {
        '0'
    } else if d == 1 {
        '1'
    } else if d == 2 {
        '2'
    } else if d == 3 {
        '3'
    } else if d == 4 {
        '4'
    } else if d == 5 {
        '5'
    } else if d == 6 {
        '6'
    } else if d == 7 {
        '7'
    } else if d == 8 {
        '8'
    } else {
        '9'
    }
}

/// Writes `n` in decimal onto the end of `s`.
pub fn push_decimal(s: &mut String, n: usize)
    ensures
        final(s)@ == old(s)@ + decimal(n as nat),
    decreases n,
{
    if n < 10 {
        push_char(s, digit_of(n));
        assert(decimal(n as nat) == seq![digit_char(n as nat)]);
    } else {
        push_decimal(s, n / 10);
        push_char(s, digit_of(n % 10));
    }
}

impl PreprocessorLocation {
    /// The location as `Display` writes it.
    pub fn to_text(&self) -> (r: String)
        ensures
            r@ == location_text(self@),
    {
        let mut s = self.file.clone();
        s.append("::");
        push_decimal(&mut s, self.line);
        s
    }
}

impl PreprocessorError {
    /// A filesystem error as a preprocessor error.
    pub fn from(value: FilesystemError) -> (r: Self)
        ensures
            r@ == error_from_fs(value@),
    {
        let text = value.get_path();
        let error = value.message();
        PreprocessorError { loc: None, text, error }
    }

    /// The error as `Display` writes it.
    pub fn to_text(&self) -> (r: String)
        ensures
            r@ == error_text(self@),
    {
        let mut s = String::from_str("CBP: ");
        if let Some(loc) = &self.loc {
            s.append("[");
            let lt = loc.to_text();
            s.append(lt.as_str());
            s.append("] @ ");
        }
        s.append("\"");
        s.append(self.text.as_str());
        s.append("\" => ");
        s.append(self.error.as_str());
        proof {
            if self.loc is None {
                assert("CBP: "@ + Seq::<char>::empty() =~= "CBP: "@);
            }
        }
        s
    }
}

impl FilesystemError {
    /// The path that the error is about.
    pub fn get_path(&self) -> (r: String)
        ensures
            r@ == fs_error_path(self@),
    {
        match self {
            FilesystemError::FileNotFound(f) => f.clone(),
            FilesystemError::UnableToLoadFile(f, _) => f.clone(),
        }
    }

    /// The error as `Display` writes it.
    pub fn message(&self) -> (r: String)
        ensures
            r@ == fs_error_message(self@),
    {
        match self {
            FilesystemError::FileNotFound(f) => {
                let mut s = String::from_str("file \"");
                s.append(f.as_str());
                s.append("\" not found");
                s
            },
            FilesystemError::UnableToLoadFile(f, e) => {
                let mut s = String::from_str("unable to load file \"");
                s.append(f.as_str());
                s.append("\": ");
                s.append(e.as_str());
                s
            },
        }
    }

    /// Whether this is a `FileNotFound` error.
    pub fn is_not_found(&self) -> (r: bool)
        ensures
            r == (self@ is FileNotFound),
    {
        match self {
            FilesystemError::FileNotFound(_) => true,
            _ => false,
        }
    }
}

} // verus!
