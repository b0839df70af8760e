//! C/Buoy Preprocessor
//!
//! Removes comments, replaces `${NAME}` with the text of a definition, and
//! carries out the directives `#include`, `#define`, `#ifdef`, `#ifndef`,
//! `#ifexist`, `#else` and `#endif`.
use vstd::prelude::*;

use crate::comments::without_comments;
use crate::definitions::Definitions;
use crate::errors::{
    error_from_fs, fs_error_message, ErrorView, FilesystemError, FsErrorView, LineView,
    LocationView, PreprocessorError, PreprocessorLine, PreprocessorLocation,
};
use crate::filesystem::{
    answered, file_list_view, lookup_first, lookup_path, paths_distinct, PreprocessorFilesystem,
    RealFilesystem, VirtualFilesystem,
};
use crate::paths::{resolve_relative, resolve_relative_path};
use crate::patterns::{
    match_replacement_keys, match_system_include, replacement_keys, system_include_target,
};
use crate::text::{
    spec_is_whitespace, chars_eq, chars_of, find_char, lines, replace_chars, replace_all, skip_whitespace,
    split_lines, split_once, string_of, sub_chars, trim, trim_range, trim_start, views_of,
};

verus! {

/// What a filesystem gives, as functions of the path.
pub struct FsModel {
    pub read: spec_fn(Seq<char>) -> Result<Seq<char>, FsErrorView>,
    pub exists: spec_fn(Seq<char>) -> bool,
}

/// The model of a filesystem.
pub open spec fn model_of<F: PreprocessorFilesystem>(f: F) -> FsModel {
    FsModel { read: |p: Seq<char>| f.spec_read_file(p), exists: |p: Seq<char>| f.spec_file_exists(p) }
}

/// One level of `#ifdef`/`#ifndef`/`#ifexist` nesting: the condition and
/// whether its `#else` has been reached.
#[derive(Debug, Default, Clone, Copy)]
pub struct IfState {
    pub value: bool,
    pub is_else: bool,
}

impl IfState {
    /// A condition before its `#else`.
    pub fn new(value: bool) -> (r: Self)
        ensures
            r == (IfState { value, is_else: false }),
    {
        IfState { value, is_else: false }
    }

    /// Whether lines at this level are kept: the condition, flipped after `#else`.
    pub fn get_current(&self) -> (r: bool)
        ensures
            r == if_active(*self),
    {
        self.value != self.is_else
    }
}

/// Whether lines at this level are kept.
pub open spec fn if_active(s: IfState) -> bool {
    s.value != s.is_else
}

/// Whether every open condition keeps lines.
pub open spec fn all_active(ifs: Seq<IfState>) -> bool {
    forall|k: int| 0 <= k < ifs.len() ==> if_active(#[trigger] ifs[k])
}

/// The text that `${k}` is written as.
pub open spec fn key_pattern(k: Seq<char>) -> Seq<char> {
    seq!['$', '{'] + k + seq!['}']
}

/// Applies, in turn, the definition of each name in `keys` to every `${name}` in `l`.
pub open spec fn apply_keys(l: Seq<char>, keys: Seq<Seq<char>>, defs: Map<Seq<char>, Seq<char>>) -> Seq<
    char,
>
    decreases keys.len(),
{
    if keys.len() == 0 {
        l
    } else {
        let k = keys[0];
        let next = if defs.contains_key(k) {
            replace_all(l, key_pattern(k), defs[k])
        } else {
            l
        };
        apply_keys(next, keys.drop_first(), defs)
    }
}

/// A line with its `${name}` references replaced: the names are those that
/// the pattern finds in the line as it was read.
pub open spec fn line_replacements(l: Seq<char>, defs: Map<Seq<char>, Seq<char>>) -> Seq<char> {
    apply_keys(l, replacement_keys(l), defs)
}

/// The verb and argument of a directive line: a line that starts with `#`
/// after its leading white space. The verb runs to the first space; the
/// argument is the rest, trimmed.
pub open spec fn directive(l: Seq<char>) -> Option<(Seq<char>, Seq<char>)> {
    let t = trim_start(l);
    if t.len() > 0 && t[0] == '#' {
        let after = t.drop_first();
        match split_once(after, ' ') {
            Some((a, b)) => Some((a, trim(b))),
            None => Some((after, Seq::<char>::empty())),
        }
    } else {
        None
    }
}

/// The file that an `#include` or `#ifexist` argument names from within
/// `file`, and whether it is a system file (`<...>`).
pub open spec fn include_target(file: Seq<char>, arg: Seq<char>) -> (Seq<char>, bool) {
    match system_include_target(arg) {
        Some(f) => (f, true),
        None => (resolve_relative(file, arg), false),
    }
}

/// An error at line `i` (0-based) of `file`, on line text `l`.
pub open spec fn line_error(file: Seq<char>, i: int, l: Seq<char>, msg: Seq<char>) -> ErrorView {
    ErrorView { loc: Some(LocationView { file, line: i + 1 }), text: l, error: msg }
}

/// The error for conditions still open at the end.
pub open spec fn unclosed_if_error() -> ErrorView {
    ErrorView {
        loc: None,
        text: Seq::<char>::empty(),
        error: "unclosed if statements remaining after processing completion"@,
    }
}

/// The message for a directive that is not known.
pub open spec fn unknown_directive_message(verb: Seq<char>, arg: Seq<char>) -> Seq<char> {
    "unknown preprocessor action '"@ + verb + "' with arg '"@ + arg + "'"@
}

/// The outcome of preprocessing: the lines or the error, and the definitions
/// and open conditions at that point.
pub struct Outcome {
    pub result: Result<Seq<LineView>, ErrorView>,
    pub defs: Map<Seq<char>, Seq<char>>,
    pub ifs: Seq<IfState>,
}

/// Preprocessing `file`, read from the system filesystem when `in_sys`,
/// else from the main one, `level` includes deep.
pub open spec fn file_outcome(
    main: FsModel,
    system: FsModel,
    file: Seq<char>,
    in_sys: bool,
    level: int,
    defs: Map<Seq<char>, Seq<char>>,
    ifs: Seq<IfState>,
) -> Outcome
    decreases i32::MAX - level, 1int, 0int,
{
    let read = if in_sys {
        (system.read)(file)
    } else {
        (main.read)(file)
    };
    match read {
        Err(e) => Outcome { result: Err(error_from_fs(e)), defs, ifs },
        Ok(text) => match without_comments(text, file) {
            Err(e) => Outcome { result: Err(e), defs, ifs },
            Ok(clean) => lines_outcome(
                main,
                system,
                file,
                in_sys,
                level,
                lines(clean),
                0,
                defs,
                ifs,
                Seq::<LineView>::empty(),
            ),
        },
    }
}

/// Preprocessing lines `i..` of `file`, with `acc` the output so far.
pub open spec fn lines_outcome(
    main: FsModel,
    system: FsModel,
    file: Seq<char>,
    in_sys: bool,
    level: int,
    ls: Seq<Seq<char>>,
    i: int,
    defs: Map<Seq<char>, Seq<char>>,
    ifs: Seq<IfState>,
    acc: Seq<LineView>,
) -> Outcome
    decreases i32::MAX - level, 0int, ls.len() - i,
{
    if i >= ls.len() || i < 0 {
        if level == 0 && ifs.len() > 0 {
            Outcome { result: Err(unclosed_if_error()), defs, ifs }
        } else {
            Outcome { result: Ok(acc), defs, ifs }
        }
    } else {
        let l = line_replacements(ls[i], defs);
        match directive(l) {
            None => {
                let acc2 = if all_active(ifs) {
                    acc.push(LineView { text: l, loc: LocationView { file, line: i + 1 } })
                } else {
                    acc
                };
                lines_outcome(main, system, file, in_sys, level, ls, i + 1, defs, ifs, acc2)
            },
            Some((verb, arg)) => {
                if verb == "include"@ {
                    if level >= i32::MAX || level < 0 {
                        Outcome {
                            result: Err(line_error(file, i, l, "include nesting limit reached"@)),
                            defs,
                            ifs,
                        }
                    } else {
                        let t = include_target(file, arg);
                        let sub = file_outcome(main, system, t.0, t.1 || in_sys, level + 1, defs, ifs);
                        match sub.result {
                            Err(e) => Outcome { result: Err(e), defs: sub.defs, ifs: sub.ifs },
                            Ok(sublines) => lines_outcome(
                                main,
                                system,
                                file,
                                in_sys,
                                level,
                                ls,
                                i + 1,
                                sub.defs,
                                sub.ifs,
                                acc + sublines,
                            ),
                        }
                    }
                } else if verb == "ifdef"@ {
                    lines_outcome(
                        main,
                        system,
                        file,
                        in_sys,
                        level,
                        ls,
                        i + 1,
                        defs,
                        ifs.push(IfState { value: defs.contains_key(arg), is_else: false }),
                        acc,
                    )
                } else if verb == "ifexist"@ {
                    let t = include_target(file, arg);
                    let value = (t.1 || in_sys) && (system.exists)(t.0);
                    lines_outcome(
                        main,
                        system,
                        file,
                        in_sys,
                        level,
                        ls,
                        i + 1,
                        defs,
                        ifs.push(IfState { value, is_else: false }),
                        acc,
                    )
                } else if verb == "ifndef"@ {
                    lines_outcome(
                        main,
                        system,
                        file,
                        in_sys,
                        level,
                        ls,
                        i + 1,
                        defs,
                        ifs.push(IfState { value: !defs.contains_key(arg), is_else: false }),
                        acc,
                    )
                } else if verb == "define"@ {
                    let defs2 = match split_once(arg, '=') {
                        Some((k, v)) => defs.insert(trim(k), trim(v)),
                        None => defs.insert(arg, Seq::<char>::empty()),
                    };
                    lines_outcome(main, system, file, in_sys, level, ls, i + 1, defs2, ifs, acc)
                } else if verb == "else"@ {
                    if arg.len() > 0 {
                        Outcome {
                            result: Err(line_error(file, i, l, "no argument expected for line"@)),
                            defs,
                            ifs,
                        }
                    } else if ifs.len() > 0 && ifs.last().is_else {
                        Outcome {
                            result: Err(
                                line_error(
                                    file,
                                    i,
                                    l,
                                    "else statement already used for this statement"@,
                                ),
                            ),
                            defs,
                            ifs,
                        }
                    } else {
                        let ifs2 = if ifs.len() > 0 {
                            ifs.update(
                                ifs.len() - 1,
                                IfState { value: ifs.last().value, is_else: true },
                            )
                        } else {
                            ifs
                        };
                        lines_outcome(main, system, file, in_sys, level, ls, i + 1, defs, ifs2, acc)
                    }
                } else if verb == "endif"@ {
                    if arg.len() > 0 {
                        Outcome {
                            result: Err(line_error(file, i, l, "no argument expected for line"@)),
                            defs,
                            ifs,
                        }
                    } else if ifs.len() == 0 {
                        Outcome {
                            result: Err(
                                line_error(
                                    file,
                                    i,
                                    l,
                                    "cannot end an if statement after all statements have been applied already"@,
                                ),
                            ),
                            defs,
                            ifs,
                        }
                    } else {
                        lines_outcome(
                            main,
                            system,
                            file,
                            in_sys,
                            level,
                            ls,
                            i + 1,
                            defs,
                            ifs.drop_last(),
                            acc,
                        )
                    }
                } else {
                    Outcome {
                        result: Err(line_error(file, i, l, unknown_directive_message(verb, arg))),
                        defs,
                        ifs,
                    }
                }
            },
        }
    }
}

/// The views of output lines.
pub open spec fn lines_view(v: Seq<PreprocessorLine>) -> Seq<LineView> {
    v.map_values(|l: PreprocessorLine| l@)
}

/// A preprocessing result as a view.
pub open spec fn result_view(r: Result<PreprocessorOutput, PreprocessorError>) -> Result<
    Seq<LineView>,
    ErrorView,
> {
    match r {
        Ok(o) => Ok(o@),
        Err(e) => Err(e@),
    }
}

/// The output of the preprocessor.
#[derive(Debug, Clone)]
pub struct PreprocessorOutput {
    lines: Vec<PreprocessorLine>,
}

impl View for PreprocessorOutput {
    type V = Seq<LineView>;

    closed spec fn view(&self) -> Seq<LineView> {
        lines_view(self.lines@)
    }
}

/// Texts joined with line feeds.
pub open spec fn join_newline(ts: Seq<Seq<char>>) -> Seq<char>
    decreases ts.len(),
{
    if ts.len() == 0 {
        seq![]
    } else if ts.len() == 1 {
        ts[0]
    } else {
        join_newline(ts.drop_last()) + seq!['\n'] + ts.last()
    }
}

/// The texts of output lines.
pub open spec fn line_texts(ls: Seq<LineView>) -> Seq<Seq<char>> {
    ls.map_values(|l: LineView| l.text)
}

impl PreprocessorOutput {
    /// All output lines joined with line feeds.
    pub fn full_string(&self) -> (r: String)
        ensures
            r@ == join_newline(line_texts(self@)),
    {
        let ghost ts = line_texts(self@);
        let mut s = String::new();
        let mut i: usize = 0;
        while i < self.lines.len()
            invariant
                i <= self.lines@.len(),
                ts == line_texts(lines_view(self.lines@)),
                s@ == join_newline(ts.take(i as int)),
            decreases self.lines.len() - i,
        {
            let ghost before = s@;
            if i > 0 {
                s.append("\n");
            }
            s.append(self.lines[i].text.as_str());
            proof {
                let t = ts.take(i as int + 1);
                assert(t.drop_last() =~= ts.take(i as int));
                assert(t.last() == self.lines@[i as int].text@);
                if i == 0 {
                    assert(ts.take(0).len() == 0);
                    assert(s@ =~= join_newline(t));
                } else {
                    assert("\n"@ =~= seq!['\n']) by {
                        reveal_strlit("\n");
                    }
                    assert(s@ =~= join_newline(t));
                }
            }
            i = i + 1;
        }
        assert(ts.take(self.lines@.len() as int) =~= ts);
        s
    }

    /// The output lines.
    pub fn get_lines(&self) -> (r: &[PreprocessorLine])
        ensures
            lines_view(r@) == self@,
    {
        self.lines.as_slice()
    }
}

/// The preprocessor: the main filesystem, the filesystem of `<...>`
/// includes, and the definitions that hold from the start.
pub struct PreprocessorState<F, S> {
    pub filesystem: F,
    pub system_fs: S,
    pub init_definitions: Definitions,
}

/// Applies, in turn, the definition of each name in `keys` to every
/// `${name}` in `l` (see [`apply_keys`]).
pub fn apply_replacement_keys(l: &[char], keys: &Vec<String>, defs: &Definitions) -> (r: Vec<char>)
    ensures
        r@ == apply_keys(l@, keys@.map_values(|s: String| s@), defs@),
{
    let ghost kv = keys@.map_values(|s: String| s@);
    let mut cur = sub_chars(l, 0, l.len());
    assert(cur@ =~= l@);
    let mut i: usize = 0;
    assert(kv.skip(0) =~= kv);
    while i < keys.len()
        invariant
            i <= keys@.len(),
            kv == keys@.map_values(|s: String| s@),
            apply_keys(cur@, kv.skip(i as int), defs@) == apply_keys(l@, kv, defs@),
        decreases keys.len() - i,
    {
        let key = chars_of(keys[i].as_str());
        proof {
            assert(kv.skip(i as int)[0] == key@);
            assert(kv.skip(i as int).drop_first() =~= kv.skip(i as int + 1));
        }
        match defs.get(key.as_slice()) {
            Some(v) => {
                let mut pat: Vec<char> = Vec::new();
                pat.push('$');
                pat.push('{');
                let mut k: usize = 0;
                while k < key.len()
                    invariant
                        k <= key@.len(),
                        pat@ == seq!['$', '{'] + key@.take(k as int),
                    decreases key.len() - k,
                {
                    pat.push(key[k]);
                    assert(key@.take(k as int + 1) =~= key@.take(k as int).push(key@[k as int]));
                    k = k + 1;
                }
                pat.push('}');
                assert(key@.take(key@.len() as int) =~= key@);
                assert(pat@ =~= key_pattern(key@));
                let rep = chars_of(v.as_str());
                cur = replace_chars(cur.as_slice(), pat.as_slice(), rep.as_slice());
            },
            None => {},
        }
        i = i + 1;
    }
    assert(kv.skip(i as int).len() == 0);
    cur
}

/// Whether each line has its `${name}` replacements applied: the names are
/// those the pattern finds in the line.
fn apply_line_replacements(l: &[char], defs: &Definitions) -> (r: Vec<char>)
    ensures
        r@ == line_replacements(l@, defs@),
{
    let text = string_of(l);
    let keys = match_replacement_keys(text.as_str());
    apply_replacement_keys(l, &keys, defs)
}

/// The verb and argument of a directive line.
fn parse_directive(l: &[char]) -> (r: Option<(Vec<char>, Vec<char>)>)
    ensures
        match r {
            Some((v, a)) => directive(l@) == Some((v@, a@)),
            None => directive(l@) is None,
        },
{
    let k = skip_whitespace(l, 0);
    assert(l@.skip(0) =~= l@);
    if k < l.len() && l[k] == '#' {
        let ghost after = trim_start(l@).drop_first();
        assert(after =~= l@.skip(k + 1));
        match find_char(l, k + 1, ' ') {
            Some(sp) => {
                let verb = sub_chars(l, k + 1, sp);
                let arg = trim_range(l, sp + 1, l.len());
                assert(verb@ =~= after.take(sp - (k + 1)));
                assert(l@.subrange(sp + 1, l@.len() as int) =~= after.skip(sp - (k + 1) + 1));
                Some((verb, arg))
            },
            None => {
                let verb = sub_chars(l, k + 1, l.len());
                assert(verb@ =~= after);
                Some((verb, Vec::new()))
            },
        }
    } else {
        None
    }
}

/// The target of an `#include`/`#ifexist` argument, and whether it is a system file.
fn include_target_exec(file: &[char], arg: &[char]) -> (r: (Vec<char>, bool))
    ensures
        (r.0@, r.1) == include_target(file@, arg@),
{
    let arg_text = string_of(arg);
    match match_system_include(arg_text.as_str()) {
        Some(f) => (chars_of(f.as_str()), true),
        None => (resolve_relative_path(file, arg), false),
    }
}

/// Whether every open condition keeps lines.
fn all_active_exec(ifs: &Vec<IfState>) -> (r: bool)
    ensures
        r == all_active(ifs@),
{
    let mut i: usize = 0;
    while i < ifs.len()
        invariant
            i <= ifs@.len(),
            forall|k: int| 0 <= k < i ==> if_active(#[trigger] ifs@[k]),
        decreases ifs.len() - i,
    {
        if !ifs[i].get_current() {
            return false;
        }
        i = i + 1;
    }
    true
}

/// An error located at line `i` (0-based) of `file`.
fn make_line_error(file: &str, i: usize, l: &[char], msg: &str) -> (r: PreprocessorError)
    requires
        i < usize::MAX,
    ensures
        r@ == line_error(file@, i as int, l@, msg@),
{
    PreprocessorError {
        loc: Some(PreprocessorLocation { file: String::from_str(file), line: i + 1 }),
        text: string_of(l),
        error: String::from_str(msg),
    }
}

/// Whether `v` is the word `w`.
fn is_word(v: &Vec<char>, w: &str) -> (r: bool)
    ensures
        r == (v@ == w@),
{
    let wc = chars_of(w);
    chars_eq(v.as_slice(), wc.as_slice())
}

impl<F: PreprocessorFilesystem, S: PreprocessorFilesystem> PreprocessorState<F, S> {
    /// A preprocessor over `fs` and `sys`, with no definitions.
    pub fn new_system(fs: F, sys: S) -> (r: Self)
        ensures
            r.filesystem == fs,
            r.system_fs == sys,
            r.init_definitions@ == Map::<Seq<char>, Seq<char>>::empty(),
    {
        PreprocessorState { filesystem: fs, system_fs: sys, init_definitions: Definitions::new() }
    }

    /// Preprocesses `file` from the main filesystem, starting from the
    /// initial definitions and no open conditions.
    pub fn read_file(&self, file: &str) -> (r: Result<PreprocessorOutput, PreprocessorError>)
        ensures
            result_view(r) == file_outcome(
                model_of(self.filesystem),
                model_of(self.system_fs),
                file@,
                false,
                0,
                self.init_definitions@,
                Seq::<IfState>::empty(),
            ).result,
    {
        let mut definitions = self.init_definitions.duplicate();
        let mut if_statements: Vec<IfState> = Vec::new();
        self.read_file_inner(file, false, 0, &mut definitions, &mut if_statements)
    }

    /// Preprocesses `file`, `level` includes deep, with the definitions and
    /// open conditions it is given, which it updates.
    pub fn read_file_inner(
        &self,
        file: &str,
        in_sys: bool,
        level: i32,
        definitions: &mut Definitions,
        if_statements: &mut Vec<IfState>,
    ) -> (r: Result<PreprocessorOutput, PreprocessorError>)
        requires
            level >= 0,
        ensures
            ({
                let o = file_outcome(
                    model_of(self.filesystem),
                    model_of(self.system_fs),
                    file@,
                    in_sys,
                    level as int,
                    old(definitions)@,
                    old(if_statements)@,
                );
                match r {
                    Ok(out) => o.result == Ok::<Seq<LineView>, ErrorView>(out@) && final(definitions)@
                        == o.defs && final(if_statements)@ == o.ifs,
                    Err(e) => o.result == Err::<Seq<LineView>, ErrorView>(e@),
                }
            }),
        decreases i32::MAX - level, 1int, 0int,
    {
        let ghost main = model_of(self.filesystem);
        let ghost system = model_of(self.system_fs);
        let ghost target = file_outcome(
            main,
            system,
            file@,
            in_sys,
            level as int,
            definitions@,
            if_statements@,
        );
        let read = if in_sys {
            self.system_fs.read_file(file)
        } else {
            self.filesystem.read_file(file)
        };
        let text = match read {
            Ok(t) => t,
            Err(e) => {
                return Err(PreprocessorError::from(e));
            },
        };
        let clean = match Self::remove_comments(text.as_str(), file) {
            Ok(c) => c,
            Err(e) => {
                return Err(e);
            },
        };
        let clean_chars = chars_of(clean.as_str());
        let ls = split_lines(clean_chars.as_slice());
        let ghost lsv = views_of(ls@);
        let fname = chars_of(file);
        let mut out: Vec<PreprocessorLine> = Vec::new();
        let mut i: usize = 0;
        assert(lines_view(out@) =~= Seq::<LineView>::empty());
        while i < ls.len()
            invariant
                level >= 0,
                main == model_of(self.filesystem),
                system == model_of(self.system_fs),
                lsv == views_of(ls@),
                fname@ == file@,
                i <= ls@.len(),
                target == file_outcome(
                    main,
                    system,
                    file@,
                    in_sys,
                    level as int,
                    old(definitions)@,
                    old(if_statements)@,
                ),
                target == lines_outcome(
                    main,
                    system,
                    file@,
                    in_sys,
                    level as int,
                    lsv,
                    i as int,
                    definitions@,
                    if_statements@,
                    lines_view(out@),
                ),
            decreases ls.len() - i,
        {
            let l = apply_line_replacements(ls[i].as_slice(), definitions);
            let ghost acc = lines_view(out@);
            let ghost defs0 = definitions@;
            let ghost ifs0 = if_statements@;
            proof {
                assert(lsv[i as int] == ls@[i as int]@);
            }
            match parse_directive(l.as_slice()) {
                None => {
                    if all_active_exec(if_statements) {
                        let line = PreprocessorLine {
                            text: string_of(l.as_slice()),
                            loc: PreprocessorLocation { file: String::from_str(file), line: i + 1 },
                        };
                        out.push(line);
                        assert(lines_view(out@) =~= acc.push(
                            LineView { text: l@, loc: LocationView { file: file@, line: i + 1 } },
                        ));
                    }
                },
                Some((verb, arg)) => {
                    if is_word(&verb, "include") {
                        if level == i32::MAX {
                            assert(target.result == Err::<Seq<LineView>, ErrorView>(
                                line_error(file@, i as int, l@, "include nesting limit reached"@),
                            ));
                            return Err(
                                make_line_error(file, i, l.as_slice(), "include nesting limit reached"),
                            );
                        }
                        let (path, sys_target) = include_target_exec(fname.as_slice(), arg.as_slice());
                        let path_text = string_of(path.as_slice());
                        let sub = self.read_file_inner(
                            path_text.as_str(),
                            sys_target || in_sys,
                            level + 1,
                            definitions,
                            if_statements,
                        );
                        match sub {
                            Ok(sub_out) => {
                                let mut sub_lines = sub_out.lines;
                                let ghost sv = lines_view(sub_lines@);
                                out.append(&mut sub_lines);
                                assert(lines_view(out@) =~= acc + sv);
                            },
                            Err(e) => {
                                proof {
                                    let t = include_target(file@, arg@);
                                    let sub_o = file_outcome(
                                        main,
                                        system,
                                        t.0,
                                        t.1 || in_sys,
                                        level + 1,
                                        defs0,
                                        ifs0,
                                    );
                                    assert(sub_o.result == Err::<Seq<LineView>, ErrorView>(e@));
                                    assert(target.result == sub_o.result);
                                }
                                return Err(e);
                            },
                        }
                    } else if is_word(&verb, "ifdef") {
                        let v = definitions.contains_key(arg.as_slice());
                        if_statements.push(IfState::new(v));
                    } else if is_word(&verb, "ifexist") {
                        let (path, sys_target) = include_target_exec(fname.as_slice(), arg.as_slice());
                        let v = if sys_target || in_sys {
                            let path_text = string_of(path.as_slice());
                            self.system_fs.file_exists(path_text.as_str())
                        } else {
                            false
                        };
                        if_statements.push(IfState::new(v));
                    } else if is_word(&verb, "ifndef") {
                        let v = definitions.contains_key(arg.as_slice());
                        if_statements.push(IfState::new(!v));
                    } else if is_word(&verb, "define") {
                        let alen = arg.len();
                        match find_char(arg.as_slice(), 0, '=') {
                            Some(eq) => {
                                let key = trim_range(arg.as_slice(), 0, eq);
                                let val = trim_range(arg.as_slice(), eq + 1, alen);
                                proof {
                                    assert(arg@.skip(0) =~= arg@);
                                    assert(arg@.subrange(0, eq as int) =~= arg@.take(eq as int));
                                    assert(arg@.subrange(eq + 1, arg@.len() as int) =~= arg@.skip(
                                        eq + 1,
                                    ));
                                }
                                definitions.insert(
                                    string_of(key.as_slice()),
                                    string_of(val.as_slice()),
                                );
                            },
                            None => {
                                assert(arg@.skip(0) =~= arg@);
                                definitions.insert(string_of(arg.as_slice()), String::new());
                            },
                        }
                    } else if is_word(&verb, "else") {
                        if arg.len() > 0 {
                            assert(target.result == Err::<Seq<LineView>, ErrorView>(
                                line_error(file@, i as int, l@, "no argument expected for line"@),
                            ));
                            return Err(
                                make_line_error(
                                    file,
                                    i,
                                    l.as_slice(),
                                    "no argument expected for line",
                                ),
                            );
                        }
                        let n = if_statements.len();
                        if n > 0 {
                            let last = if_statements[n - 1];
                            if last.is_else {
                                return Err(
                                    make_line_error(
                                        file,
                                        i,
                                        l.as_slice(),
                                        "else statement already used for this statement",
                                    ),
                                );
                            }
                            if_statements.set(n - 1, IfState { value: last.value, is_else: true });
                        }
                    } else if is_word(&verb, "endif") {
                        if arg.len() > 0 {
                            return Err(
                                make_line_error(
                                    file,
                                    i,
                                    l.as_slice(),
                                    "no argument expected for line",
                                ),
                            );
                        }
                        if if_statements.len() == 0 {
                            return Err(
                                make_line_error(
                                    file,
                                    i,
                                    l.as_slice(),
                                    "cannot end an if statement after all statements have been applied already",
                                ),
                            );
                        }
                        if_statements.pop();
                    } else {
                        let mut msg = String::from_str("unknown preprocessor action '");
                        let vs = string_of(verb.as_slice());
                        let as_ = string_of(arg.as_slice());
                        msg.append(vs.as_str());
                        msg.append("' with arg '");
                        msg.append(as_.as_str());
                        msg.append("'");
                        let e = PreprocessorError {
                            loc: Some(
                                PreprocessorLocation { file: String::from_str(file), line: i + 1 },
                            ),
                            text: string_of(l.as_slice()),
                            error: msg,
                        };
                        return Err(e);
                    }
                },
            }
            i = i + 1;
        }
        if level == 0 && if_statements.len() > 0 {
            let e = PreprocessorError {
                loc: None,
                text: String::new(),
                error: String::from_str("unclosed if statements remaining after processing completion"),
            };
            return Err(e);
        }
        Ok(PreprocessorOutput { lines: out })
    }
}

impl<F: PreprocessorFilesystem> PreprocessorState<F, VirtualFilesystem> {
    /// A preprocessor over `fs` whose system filesystem holds the default
    /// system files `default_files` (path, contents), with no definitions.
    pub fn new(fs: F, default_files: &Vec<(String, String)>) -> (r: Self)
        requires
            paths_distinct(default_files@),
        ensures
            r.filesystem == fs,
            r.system_fs@ == file_list_view(default_files@),
            r.init_definitions@ == Map::<Seq<char>, Seq<char>>::empty(),
    {
        PreprocessorState {
            filesystem: fs,
            system_fs: VirtualFilesystem::new_system(default_files),
            init_definitions: Definitions::new(),
        }
    }
}

/// The model of a [`VirtualFilesystem`] holding the files `es`.
pub open spec fn virtual_model(es: Seq<(Seq<char>, Seq<char>)>) -> FsModel {
    FsModel {
        read: |p: Seq<char>|
            match lookup_path(es, p) {
                Some(t) => Ok(t),
                None => Err(FsErrorView::FileNotFound(p)),
            },
        exists: |p: Seq<char>| lookup_path(es, p) is Some,
    }
}

/// A virtual filesystem behaves as the files it holds.
pub proof fn lemma_virtual_model(v: VirtualFilesystem)
    ensures
        model_of(v) == virtual_model(v@),
{
    assert(model_of(v).read =~= virtual_model(v@).read);
    assert(model_of(v).exists =~= virtual_model(v@).exists);
}

/// The definitions that naming each of `names` (with empty text) makes.
pub open spec fn defs_from_names(names: Seq<Seq<char>>) -> Map<Seq<char>, Seq<char>>
    decreases names.len(),
{
    if names.len() == 0 {
        Map::empty()
    } else {
        defs_from_names(names.drop_last()).insert(names.last(), Seq::<char>::empty())
    }
}

/// Preprocessing `file` among the files `es`, with the names `defs` defined
/// and the system files `sys`.
pub open spec fn preprocess_files(
    sys: Seq<(Seq<char>, Seq<char>)>,
    es: Seq<(Seq<char>, Seq<char>)>,
    file: Seq<char>,
    defs: Seq<Seq<char>>,
) -> Result<Seq<LineView>, ErrorView> {
    file_outcome(
        virtual_model(es),
        virtual_model(sys),
        file,
        false,
        0,
        defs_from_names(defs),
        Seq::<IfState>::empty(),
    ).result
}

/// The views of a list of strings.
pub open spec fn strings_view(v: Seq<String>) -> Seq<Seq<char>> {
    v.map_values(|s: String| s@)
}

/// Makes a preprocessor over `fs` and the default system files, with each
/// of `defs` defined as empty text.
fn state_with_names<F: PreprocessorFilesystem>(
    fs: F,
    default_files: &Vec<(String, String)>,
    defs: &Vec<String>,
) -> (r: PreprocessorState<F, VirtualFilesystem>)
    requires
        paths_distinct(default_files@),
    ensures
        r.filesystem == fs,
        r.system_fs@ == file_list_view(default_files@),
        r.init_definitions@ == defs_from_names(strings_view(defs@)),
{
    let mut state = PreprocessorState::new(fs, default_files);
    let mut i: usize = 0;
    while i < defs.len()
        invariant
            i <= defs@.len(),
            state.filesystem == fs,
            state.system_fs@ == file_list_view(default_files@),
            state.init_definitions@ == defs_from_names(strings_view(defs@).take(i as int)),
        decreases defs.len() - i,
    {
        state.init_definitions.insert(defs[i].clone(), String::new());
        proof {
            let t = strings_view(defs@).take(i as int + 1);
            assert(t.drop_last() =~= strings_view(defs@).take(i as int));
        }
        i = i + 1;
    }
    assert(strings_view(defs@).take(defs@.len() as int) =~= strings_view(defs@));
    state
}

/// Preprocesses `file` from `fs`, with the default system files
/// `default_files` (path, contents) and each of `defs` defined as empty text.
pub fn preprocess_code_with_fs(
    file: &str,
    fs: VirtualFilesystem,
    defs: Vec<String>,
    default_files: &Vec<(String, String)>,
) -> (r: Result<PreprocessorOutput, PreprocessorError>)
    requires
        paths_distinct(default_files@),
    ensures
        result_view(r) == preprocess_files(
            file_list_view(default_files@),
            fs@,
            file@,
            strings_view(defs@),
        ),
{
    let state = state_with_names(fs, default_files, &defs);
    proof {
        lemma_virtual_model(state.filesystem);
        lemma_virtual_model(state.system_fs);
    }
    state.read_file(file)
}

/// Preprocesses `text` as the only file, named `file_path`, with the
/// default system files `default_files`.
pub fn preprocess_code_as_file(
    text: &str,
    file_path: &str,
    defs: Vec<String>,
    default_files: &Vec<(String, String)>,
) -> (r: Result<PreprocessorOutput, PreprocessorError>)
    requires
        paths_distinct(default_files@),
    ensures
        result_view(r) == preprocess_files(
            file_list_view(default_files@),
            seq![(file_path@, text@)],
            file_path@,
            strings_view(defs@),
        ),
{
    preprocess_code_with_fs(file_path, VirtualFilesystem::new(text, file_path), defs, default_files)
}

/// Preprocesses `text` as the only file, named `main.cb`, with the default
/// system files `default_files`.
pub fn preprocess_code_std(
    text: &str,
    defs: Vec<String>,
    default_files: &Vec<(String, String)>,
) -> (r: Result<PreprocessorOutput, PreprocessorError>)
    requires
        paths_distinct(default_files@),
    ensures
        result_view(r) == preprocess_files(
            file_list_view(default_files@),
            seq![("main.cb"@, text@)],
            "main.cb"@,
            strings_view(defs@),
        ),
{
    preprocess_code_as_file(text, "main.cb", defs, default_files)
}

/// What a run of the preprocessor over the files read from disk so far
/// leads to.
pub enum PreprocessStep {
    /// The result of preprocessing, no file it needed being unread.
    Done(Result<PreprocessorOutput, PreprocessorError>),
    /// A file that must be read from disk before the run is repeated.
    Load(String),
}

/// Preprocessing `file` from the files read so far, with the names `defs`
/// defined and the system files `sys`.
pub open spec fn preprocess_read(
    fs: RealFilesystem,
    sys: Seq<(Seq<char>, Seq<char>)>,
    file: Seq<char>,
    defs: Seq<Seq<char>>,
) -> Result<Seq<LineView>, ErrorView> {
    file_outcome(
        model_of(fs),
        virtual_model(sys),
        file,
        false,
        0,
        defs_from_names(defs),
        Seq::<IfState>::empty(),
    ).result
}

/// Whether `e` reports that a file was not found for want of a recorded
/// answer from the disk.
pub open spec fn unanswered(fs: RealFilesystem, e: ErrorView) -> bool {
    &&& e.loc is None
    &&& !answered(fs@, e.text)
    &&& e.error == fs_error_message(FsErrorView::FileNotFound(e.text))
}

/// Runs the preprocessor on `file` over the files read from disk so far,
/// with the default system files `default_files` and each of `defs` defined
/// as empty text, and hands `fs` back. Where the run stops at a file whose
/// answers from the disk are not all recorded yet, that file is to be
/// loaded; otherwise the result stands.
pub fn preprocess_step(
    fs: RealFilesystem,
    file: &str,
    defs: &Vec<String>,
    default_files: &Vec<(String, String)>,
) -> (r: (RealFilesystem, PreprocessStep))
    requires
        paths_distinct(default_files@),
    ensures
        r.0 == fs,
        ({
            let res = preprocess_read(fs, file_list_view(default_files@), file@, strings_view(defs@));
            match r.1 {
                PreprocessStep::Done(out) => result_view(out) == res && !(match res {
                    Err(e) => unanswered(fs, e),
                    Ok(_) => false,
                }),
                PreprocessStep::Load(f) => match res {
                    Err(e) => unanswered(fs, e) && f@ == e.text,
                    Ok(_) => false,
                },
            }
        }),
{
    let state = state_with_names(fs, default_files, defs);
    proof {
        lemma_virtual_model(state.system_fs);
    }
    let result = state.read_file(file);
    let fs = state.filesystem;
    let missing = match &result {
        Err(err) => {
            if err.loc.is_none() && !fs.has_answer(err.text.as_str()) {
                let expected = FilesystemError::FileNotFound(err.text.clone()).message();
                if is_word(&chars_of(expected.as_str()), err.error.as_str()) {
                    Some(err.text.clone())
                } else {
                    None
                }
            } else {
                None
            }
        },
        Ok(_) => None,
    };
    match missing {
        Some(f) => (fs, PreprocessStep::Load(f)),
        None => (fs, PreprocessStep::Done(result)),
    }
}

/// Lines `i..` of `file` with their replacements, each at its line number.
pub open spec fn plain_lines(
    ls: Seq<Seq<char>>,
    i: int,
    file: Seq<char>,
    defs: Map<Seq<char>, Seq<char>>,
) -> Seq<LineView> {
    Seq::new(
        (ls.len() - i) as nat,
        |k: int|
            LineView {
                text: line_replacements(ls[i + k], defs),
                loc: LocationView { file, line: i + k + 1 },
            },
    )
}

/// Lines that are not directives come out in order, with their replacements
/// applied and their file and line number, while every open condition keeps
/// lines.
pub proof fn law_plain_lines_pass_through(
    main: FsModel,
    system: FsModel,
    file: Seq<char>,
    in_sys: bool,
    level: int,
    ls: Seq<Seq<char>>,
    i: int,
    defs: Map<Seq<char>, Seq<char>>,
    ifs: Seq<IfState>,
    acc: Seq<LineView>,
)
    requires
        0 <= i <= ls.len(),
        0 <= level,
        level > 0 || ifs.len() == 0,
        all_active(ifs),
        forall|j: int| i <= j < ls.len() ==> directive(line_replacements(ls[j], defs)) is None,
    ensures
        lines_outcome(main, system, file, in_sys, level, ls, i, defs, ifs, acc).result == Ok::<
            Seq<LineView>,
            ErrorView,
        >(acc + plain_lines(ls, i, file, defs)),
    decreases ls.len() - i,
{
    if i < ls.len() {
        let l = line_replacements(ls[i], defs);
        let v = LineView { text: l, loc: LocationView { file, line: i + 1 } };
        law_plain_lines_pass_through(main, system, file, in_sys, level, ls, i + 1, defs, ifs, acc.push(v));
        assert(acc.push(v) + plain_lines(ls, i + 1, file, defs) =~= acc + plain_lines(ls, i, file, defs));
    } else {
        assert(acc + plain_lines(ls, i, file, defs) =~= acc);
    }
}

/// With no definitions, replacing `${name}` references changes nothing.
pub proof fn lemma_no_definitions_no_replacement(l: Seq<char>, keys: Seq<Seq<char>>)
    ensures
        apply_keys(l, keys, Map::empty()) == l,
    decreases keys.len(),
{
    if keys.len() > 0 {
        lemma_no_definitions_no_replacement(l, keys.drop_first());
    }
}

/// A file without comment characters or directives, preprocessed with no
/// definitions, comes out as its lines, numbered from 1.
pub proof fn law_plain_file(main: FsModel, system: FsModel, file: Seq<char>, text: Seq<char>)
    requires
        (main.read)(file) == Ok::<Seq<char>, FsErrorView>(text),
        forall|i: int| 0 <= i < text.len() ==> text[i] != '/',
        forall|j: int| 0 <= j < lines(text).len() ==> directive(#[trigger] lines(text)[j]) is None,
    ensures
        file_outcome(
            main,
            system,
            file,
            false,
            0,
            Map::empty(),
            Seq::<IfState>::empty(),
        ).result == Ok::<Seq<LineView>, ErrorView>(
            Seq::new(
                lines(text).len(),
                |k: int| LineView { text: lines(text)[k], loc: LocationView { file, line: k + 1 } },
            ),
        ),
{
    crate::comments::law_text_without_slash_is_unchanged(text, file);
    let ls = lines(text);
    let defs = Map::<Seq<char>, Seq<char>>::empty();
    assert forall|j: int| 0 <= j < ls.len() implies line_replacements(ls[j], defs) == ls[j] by {
        lemma_no_definitions_no_replacement(ls[j], replacement_keys(ls[j]));
    }
    assert forall|j: int| 0 <= j < ls.len() implies directive(line_replacements(ls[j], defs)) is None by {
        assert(line_replacements(ls[j], defs) == ls[j]);
    }
    law_plain_lines_pass_through(
        main,
        system,
        file,
        false,
        0,
        ls,
        0,
        defs,
        Seq::<IfState>::empty(),
        Seq::<LineView>::empty(),
    );
    assert(Seq::<LineView>::empty() + plain_lines(ls, 0, file, defs) =~= Seq::new(
        ls.len(),
        |k: int| LineView { text: ls[k], loc: LocationView { file, line: k + 1 } },
    ));
}

/// `#ifdef NAME` and `#ifndef NAME` keep lines in exactly opposite cases.
pub proof fn law_ifdef_ifndef_opposite(defs: Map<Seq<char>, Seq<char>>, name: Seq<char>)
    ensures
        if_active(IfState { value: defs.contains_key(name), is_else: false }) != if_active(
            IfState { value: !defs.contains_key(name), is_else: false },
        ),
{
}

/// `#else` keeps lines exactly where its condition did not.
pub proof fn law_else_flips(value: bool)
    ensures
        if_active(IfState { value, is_else: true }) == !if_active(IfState { value, is_else: false }),
{
}

/// An `#include` puts the lines of the included file in its place and goes
/// on with the definitions and conditions that the included file left.
pub proof fn law_include_splices(
    main: FsModel,
    system: FsModel,
    file: Seq<char>,
    in_sys: bool,
    level: int,
    ls: Seq<Seq<char>>,
    i: int,
    defs: Map<Seq<char>, Seq<char>>,
    ifs: Seq<IfState>,
    acc: Seq<LineView>,
)
    requires
        0 <= i < ls.len(),
        0 <= level < i32::MAX,
        directive(line_replacements(ls[i], defs)) matches Some((verb, _)) && verb == "include"@,
    ensures
        ({
            let arg = directive(line_replacements(ls[i], defs))->Some_0.1;
            let t = include_target(file, arg);
            let sub = file_outcome(main, system, t.0, t.1 || in_sys, level + 1, defs, ifs);
            lines_outcome(main, system, file, in_sys, level, ls, i, defs, ifs, acc) == match sub.result {
                Ok(sublines) => lines_outcome(
                    main,
                    system,
                    file,
                    in_sys,
                    level,
                    ls,
                    i + 1,
                    sub.defs,
                    sub.ifs,
                    acc + sublines,
                ),
                Err(e) => Outcome { result: Err(e), defs: sub.defs, ifs: sub.ifs },
            }
        }),
{
}

/// A `#define NAME=VALUE` line gives no output, and the lines after it are
/// read with NAME defined as VALUE, each trimmed; `#define NAME` defines NAME
/// as empty text.
pub proof fn law_define_adds_definition(
    main: FsModel,
    system: FsModel,
    file: Seq<char>,
    in_sys: bool,
    level: int,
    ls: Seq<Seq<char>>,
    i: int,
    defs: Map<Seq<char>, Seq<char>>,
    ifs: Seq<IfState>,
    acc: Seq<LineView>,
)
    requires
        0 <= i < ls.len(),
        directive(line_replacements(ls[i], defs)) matches Some((verb, _)) && verb == "define"@,
    ensures
        ({
            let arg = directive(line_replacements(ls[i], defs))->Some_0.1;
            let defs2 = match split_once(arg, '=') {
                Some((k, v)) => defs.insert(trim(k), trim(v)),
                None => defs.insert(arg, Seq::<char>::empty()),
            };
            lines_outcome(main, system, file, in_sys, level, ls, i, defs, ifs, acc)
                == lines_outcome(main, system, file, in_sys, level, ls, i + 1, defs2, ifs, acc)
        }),
{
    reveal_strlit("define");
    reveal_strlit("include");
    reveal_strlit("ifdef");
    reveal_strlit("ifexist");
    reveal_strlit("ifndef");
    assert("define"@ != "include"@);
    assert("define"@ != "ifdef"@);
    assert("define"@ != "ifexist"@);
    assert("define"@[0] != "ifndef"@[0]);
}

/// Whether line `l`, with the definitions `defs` applied, is an `#include`.
pub open spec fn is_include_line(l: Seq<char>, defs: Map<Seq<char>, Seq<char>>) -> bool {
    directive(line_replacements(l, defs)) matches Some((verb, _)) && verb == "include"@
}

/// Lines that include nothing read nothing from the main filesystem: two
/// main filesystems give the same outcome for them.
proof fn lemma_lines_read_nothing(
    m1: FsModel,
    m2: FsModel,
    system: FsModel,
    file: Seq<char>,
    in_sys: bool,
    level: int,
    ls: Seq<Seq<char>>,
    i: int,
    defs: Map<Seq<char>, Seq<char>>,
    ifs: Seq<IfState>,
    acc: Seq<LineView>,
)
    requires
        forall|j: int, d: Map<Seq<char>, Seq<char>>|
            0 <= j < ls.len() ==> !#[trigger] is_include_line(ls[j], d),
    ensures
        lines_outcome(m1, system, file, in_sys, level, ls, i, defs, ifs, acc) == lines_outcome(
            m2,
            system,
            file,
            in_sys,
            level,
            ls,
            i,
            defs,
            ifs,
            acc,
        ),
    decreases ls.len() - i,
{
    if 0 <= i < ls.len() {
        let l = line_replacements(ls[i], defs);
        assert(!is_include_line(ls[i], defs));
        match directive(l) {
            None => {
                let acc2 = if all_active(ifs) {
                    acc.push(LineView { text: l, loc: LocationView { file, line: i + 1 } })
                } else {
                    acc
                };
                lemma_lines_read_nothing(m1, m2, system, file, in_sys, level, ls, i + 1, defs, ifs, acc2);
            },
            Some((verb, arg)) => {
                if verb == "ifdef"@ {
                    lemma_lines_read_nothing(
                        m1, m2, system, file, in_sys, level, ls, i + 1, defs,
                        ifs.push(IfState { value: defs.contains_key(arg), is_else: false }),
                        acc,
                    );
                } else if verb == "ifexist"@ {
                    let t = include_target(file, arg);
                    let value = (t.1 || in_sys) && (system.exists)(t.0);
                    lemma_lines_read_nothing(
                        m1, m2, system, file, in_sys, level, ls, i + 1, defs,
                        ifs.push(IfState { value, is_else: false }),
                        acc,
                    );
                } else if verb == "ifndef"@ {
                    lemma_lines_read_nothing(
                        m1, m2, system, file, in_sys, level, ls, i + 1, defs,
                        ifs.push(IfState { value: !defs.contains_key(arg), is_else: false }),
                        acc,
                    );
                } else if verb == "define"@ {
                    let defs2 = match split_once(arg, '=') {
                        Some((k, v)) => defs.insert(trim(k), trim(v)),
                        None => defs.insert(arg, Seq::<char>::empty()),
                    };
                    lemma_lines_read_nothing(m1, m2, system, file, in_sys, level, ls, i + 1, defs2, ifs, acc);
                } else if verb == "else"@ {
                    let ifs2 = if ifs.len() > 0 {
                        ifs.update(ifs.len() - 1, IfState { value: ifs.last().value, is_else: true })
                    } else {
                        ifs
                    };
                    lemma_lines_read_nothing(m1, m2, system, file, in_sys, level, ls, i + 1, defs, ifs2, acc);
                } else if verb == "endif"@ {
                    if ifs.len() > 0 {
                        lemma_lines_read_nothing(
                            m1, m2, system, file, in_sys, level, ls, i + 1, defs, ifs.drop_last(), acc,
                        );
                    }
                }
            },
        }
    }
}

/// Whether no line of `text`, read as `file` with its comments removed,
/// is an `#include` under any definitions.
pub open spec fn includes_nothing(text: Seq<char>, file: Seq<char>) -> bool {
    without_comments(text, file) matches Ok(clean) ==> forall|j: int, d: Map<Seq<char>, Seq<char>>|
        0 <= j < lines(clean).len() ==> !#[trigger] is_include_line(lines(clean)[j], d)
}

/// A file that includes nothing is preprocessed from its own text alone:
/// any two main filesystems that give it the same text give the same result.
pub proof fn law_file_without_includes_reads_itself(
    m1: FsModel,
    m2: FsModel,
    system: FsModel,
    file: Seq<char>,
    text: Seq<char>,
    defs: Map<Seq<char>, Seq<char>>,
)
    requires
        (m1.read)(file) == Ok::<Seq<char>, FsErrorView>(text),
        (m2.read)(file) == Ok::<Seq<char>, FsErrorView>(text),
        includes_nothing(text, file),
    ensures
        file_outcome(m1, system, file, false, 0, defs, Seq::<IfState>::empty()) == file_outcome(
            m2,
            system,
            file,
            false,
            0,
            defs,
            Seq::<IfState>::empty(),
        ),
{
    if let Ok(clean) = without_comments(text, file) {
        lemma_lines_read_nothing(
            m1,
            m2,
            system,
            file,
            false,
            0,
            lines(clean),
            0,
            defs,
            Seq::<IfState>::empty(),
            Seq::<LineView>::empty(),
        );
    }
}

/// Preprocessing a file from disk: where the disk's answers say that `file`
/// holds `text` (its canonical path holds that text) and the file includes
/// nothing, the result is that of preprocessing `text` alone as `file`; where
/// the disk could not make `file` canonical, the result is the error for it,
/// with no location and the path as its text.
pub proof fn law_disk_file_reads_as_its_text(
    fs: RealFilesystem,
    sys: Seq<(Seq<char>, Seq<char>)>,
    file: Seq<char>,
    defs: Seq<Seq<char>>,
)
    ensures
        match lookup_first(fs@.paths, file) {
            Some(Ok(c)) => match lookup_first(fs@.files, c) {
                Some(Some(Ok(text))) => includes_nothing(text, file) ==> preprocess_read(
                    fs,
                    sys,
                    file,
                    defs,
                ) == preprocess_files(sys, seq![(file, text)], file, defs),
                _ => true,
            },
            Some(Err(m)) => preprocess_read(fs, sys, file, defs) == Err::<Seq<LineView>, ErrorView>(
                error_from_fs(FsErrorView::UnableToLoadFile(file, m)),
            ),
            None => true,
        },
{
    if let Some(Ok(c)) = lookup_first(fs@.paths, file) {
        if let Some(Some(Ok(text))) = lookup_first(fs@.files, c) {
            crate::filesystem::lemma_lookup_single(file, text, file);
            if includes_nothing(text, file) {
                law_file_without_includes_reads_itself(
                    model_of(fs),
                    virtual_model(seq![(file, text)]),
                    virtual_model(sys),
                    file,
                    text,
                    defs_from_names(defs),
                );
            }
        }
    }
}

/// The directive words are all different from one another.
proof fn lemma_directive_words_differ()
    ensures
        "ifndef"@ != "include"@,
        "ifndef"@ != "ifdef"@,
        "ifndef"@ != "ifexist"@,
        "ifdef"@ != "include"@,
        "endif"@ != "include"@,
        "endif"@ != "ifdef"@,
        "endif"@ != "ifexist"@,
        "endif"@ != "ifndef"@,
        "endif"@ != "define"@,
        "endif"@ != "else"@,
{
    reveal_strlit("define");
    reveal_strlit("include");
    reveal_strlit("ifdef");
    reveal_strlit("ifexist");
    reveal_strlit("ifndef");
    reveal_strlit("endif");
    reveal_strlit("else");
    assert("ifndef"@[1] != "include"@[1]);
    assert("ifndef"@.len() != "ifdef"@.len());
    assert("ifndef"@.len() != "ifexist"@.len());
    assert("ifdef"@.len() != "include"@.len());
    assert("endif"@.len() != "include"@.len());
    assert("endif"@[0] != "ifdef"@[0]);
    assert("endif"@.len() != "ifexist"@.len());
    assert("endif"@.len() != "ifndef"@.len());
    assert("endif"@.len() != "define"@.len());
    assert("endif"@.len() != "else"@.len());
}

/// An `#ifndef NAME` block around one plain line: where NAME is defined the
/// block gives no output and leaves definitions and conditions as they were;
/// where NAME is not defined and the enclosing conditions keep lines, the
/// line comes out, with its replacements and its line number.
pub proof fn law_ifndef_block(
    main: FsModel,
    system: FsModel,
    file: Seq<char>,
    in_sys: bool,
    level: int,
    ls: Seq<Seq<char>>,
    i: int,
    defs: Map<Seq<char>, Seq<char>>,
    ifs: Seq<IfState>,
    acc: Seq<LineView>,
    name: Seq<char>,
)
    requires
        0 <= i,
        i + 2 < ls.len(),
        directive(line_replacements(ls[i], defs)) == Some(("ifndef"@, name)),
        directive(line_replacements(ls[i + 1], defs)) is None,
        directive(line_replacements(ls[i + 2], defs)) == Some(("endif"@, Seq::<char>::empty())),
    ensures
        defs.contains_key(name) ==> lines_outcome(main, system, file, in_sys, level, ls, i, defs, ifs, acc)
            == lines_outcome(main, system, file, in_sys, level, ls, i + 3, defs, ifs, acc),
        (!defs.contains_key(name) && all_active(ifs)) ==> lines_outcome(
            main,
            system,
            file,
            in_sys,
            level,
            ls,
            i,
            defs,
            ifs,
            acc,
        ) == lines_outcome(
            main,
            system,
            file,
            in_sys,
            level,
            ls,
            i + 3,
            defs,
            ifs,
            acc.push(
                LineView {
                    text: line_replacements(ls[i + 1], defs),
                    loc: LocationView { file, line: i + 2 },
                },
            ),
        ),
{
    lemma_directive_words_differ();
    let pushed = ifs.push(IfState { value: !defs.contains_key(name), is_else: false });
    assert(pushed.drop_last() =~= ifs);
    let l1 = line_replacements(ls[i + 1], defs);
    let acc2 = if all_active(pushed) {
        acc.push(LineView { text: l1, loc: LocationView { file, line: i + 2 } })
    } else {
        acc
    };
    assert(lines_outcome(main, system, file, in_sys, level, ls, i, defs, ifs, acc) == lines_outcome(
        main,
        system,
        file,
        in_sys,
        level,
        ls,
        i + 1,
        defs,
        pushed,
        acc,
    ));
    assert(lines_outcome(main, system, file, in_sys, level, ls, i + 1, defs, pushed, acc)
        == lines_outcome(main, system, file, in_sys, level, ls, i + 2, defs, pushed, acc2));
    assert(Seq::<char>::empty().len() == 0);
    assert(lines_outcome(main, system, file, in_sys, level, ls, i + 2, defs, pushed, acc2)
        == lines_outcome(main, system, file, in_sys, level, ls, i + 3, defs, pushed.drop_last(), acc2));
    assert(all_active(pushed) == (all_active(ifs) && !defs.contains_key(name))) by {
        if all_active(pushed) {
            assert forall|k: int| 0 <= k < ifs.len() implies if_active(#[trigger] ifs[k]) by {
                assert(pushed[k] == ifs[k]);
            }
            assert(if_active(pushed[ifs.len() as int]));
        }
        if all_active(ifs) && !defs.contains_key(name) {
            assert forall|k: int| 0 <= k < pushed.len() implies if_active(#[trigger] pushed[k]) by {
                if k < ifs.len() {
                    assert(pushed[k] == ifs[k]);
                }
            }
        }
    }
}

/// An `#ifdef NAME` block around one plain line: where NAME is not defined
/// the block gives no output and leaves definitions and conditions as they
/// were; where NAME is defined and the enclosing conditions keep lines, the
/// line comes out, with its replacements and its line number.
pub proof fn law_ifdef_block(
    main: FsModel,
    system: FsModel,
    file: Seq<char>,
    in_sys: bool,
    level: int,
    ls: Seq<Seq<char>>,
    i: int,
    defs: Map<Seq<char>, Seq<char>>,
    ifs: Seq<IfState>,
    acc: Seq<LineView>,
    name: Seq<char>,
)
    requires
        0 <= i,
        i + 2 < ls.len(),
        directive(line_replacements(ls[i], defs)) == Some(("ifdef"@, name)),
        directive(line_replacements(ls[i + 1], defs)) is None,
        directive(line_replacements(ls[i + 2], defs)) == Some(("endif"@, Seq::<char>::empty())),
    ensures
        !defs.contains_key(name) ==> lines_outcome(main, system, file, in_sys, level, ls, i, defs, ifs, acc)
            == lines_outcome(main, system, file, in_sys, level, ls, i + 3, defs, ifs, acc),
        (defs.contains_key(name) && all_active(ifs)) ==> lines_outcome(
            main,
            system,
            file,
            in_sys,
            level,
            ls,
            i,
            defs,
            ifs,
            acc,
        ) == lines_outcome(
            main,
            system,
            file,
            in_sys,
            level,
            ls,
            i + 3,
            defs,
            ifs,
            acc.push(
                LineView {
                    text: line_replacements(ls[i + 1], defs),
                    loc: LocationView { file, line: i + 2 },
                },
            ),
        ),
{
    lemma_directive_words_differ();
    let pushed = ifs.push(IfState { value: defs.contains_key(name), is_else: false });
    assert(pushed.drop_last() =~= ifs);
    let l1 = line_replacements(ls[i + 1], defs);
    let acc2 = if all_active(pushed) {
        acc.push(LineView { text: l1, loc: LocationView { file, line: i + 2 } })
    } else {
        acc
    };
    assert(lines_outcome(main, system, file, in_sys, level, ls, i, defs, ifs, acc) == lines_outcome(
        main,
        system,
        file,
        in_sys,
        level,
        ls,
        i + 1,
        defs,
        pushed,
        acc,
    ));
    assert(lines_outcome(main, system, file, in_sys, level, ls, i + 1, defs, pushed, acc)
        == lines_outcome(main, system, file, in_sys, level, ls, i + 2, defs, pushed, acc2));
    assert(Seq::<char>::empty().len() == 0);
    assert(lines_outcome(main, system, file, in_sys, level, ls, i + 2, defs, pushed, acc2)
        == lines_outcome(main, system, file, in_sys, level, ls, i + 3, defs, pushed.drop_last(), acc2));
    assert(all_active(pushed) == (all_active(ifs) && defs.contains_key(name))) by {
        if all_active(pushed) {
            assert forall|k: int| 0 <= k < ifs.len() implies if_active(#[trigger] ifs[k]) by {
                assert(pushed[k] == ifs[k]);
            }
            assert(if_active(pushed[ifs.len() as int]));
        }
        if all_active(ifs) && defs.contains_key(name) {
            assert forall|k: int| 0 <= k < pushed.len() implies if_active(#[trigger] pushed[k]) by {
                if k < ifs.len() {
                    assert(pushed[k] == ifs[k]);
                }
            }
        }
    }
}

/// Removing leading white space: what is left after white space is the same.
proof fn lemma_trim_start_after_space(w: Seq<char>, r: Seq<char>)
    requires
        forall|k: int| 0 <= k < w.len() ==> spec_is_whitespace(#[trigger] w[k]),
    ensures
        trim_start(w + r) == trim_start(r),
    decreases w.len(),
{
    if w.len() > 0 {
        assert((w + r)[0] == w[0]);
        assert((w + r).drop_first() =~= w.drop_first() + r);
        assert forall|k: int| 0 <= k < w.drop_first().len() implies spec_is_whitespace(
            #[trigger] w.drop_first()[k],
        ) by {
            assert(w.drop_first()[k] == w[k + 1]);
        }
        lemma_trim_start_after_space(w.drop_first(), r);
    } else {
        assert(w + r =~= r);
    }
}

/// A line is a directive exactly when it starts with `#`, once its leading
/// white space is set aside: indenting a line with white space does not
/// change what it directs, and a line that starts with `#` is a directive.
pub proof fn law_directive_after_indent(w: Seq<char>, r: Seq<char>)
    requires
        forall|k: int| 0 <= k < w.len() ==> spec_is_whitespace(#[trigger] w[k]),
    ensures
        directive(w + r) == directive(r),
        r.len() > 0 && r[0] == '#' ==> directive(r) is Some,
        r.len() > 0 && !spec_is_whitespace(r[0]) && r[0] != '#' ==> directive(w + r) is None,
{
    lemma_trim_start_after_space(w, r);
    if r.len() > 0 && !spec_is_whitespace(r[0]) {
        assert(trim_start(r) == r);
    }
}

} // verus!
