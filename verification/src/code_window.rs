//! Code editing windows of the visual Jib computer: their titles, and linking
//! the export region of a compiled kernel into its code.
use vstd::prelude::*;

use crate::errors::{decimal, error_text, location_text, push_decimal, LineView};
use crate::filesystem::{file_list_view, paths_distinct};
use crate::preprocessor::{
    join_newline, preprocess_code_as_file, preprocess_files, strings_view, PreprocessorOutput,
};
use crate::text::{chars_eq, chars_of, push_char};

verus! {

/// What a code window holds.
#[derive(Debug, Clone, Copy, Eq, PartialEq)]
pub enum CodeWindowType {
    Assembly,
    Cbuoy,
}

/// The title of a code window: its kind, its number, and its file in
/// parentheses where it has one.
pub open spec fn window_title(kind: CodeWindowType, id: nat, filename: Option<Seq<char>>) -> Seq<char> {
    (match kind {
        CodeWindowType::Assembly => "ASM"@,
        CodeWindowType::Cbuoy => "C/Buoy"@,
    }) + " "@ + decimal(id) + match filename {
        Some(t) => " ("@ + t + ")"@,
        None => Seq::<char>::empty(),
    }
}

impl CodeWindowType {
    /// The title of window number `id` of this kind, for `filename` if any.
    pub fn window_title(&self, id: usize, filename: Option<&str>) -> (r: String)
        ensures
            r@ == window_title(
                *self,
                id as nat,
                match filename {
                    Some(t) => Some(t@),
                    None => None,
                },
            ),
    {
        let mut s = match self {
            CodeWindowType::Assembly => String::from_str("ASM"),
            CodeWindowType::Cbuoy => String::from_str("C/Buoy"),
        };
        s.append(" ");
        push_decimal(&mut s, id);
        match filename {
            Some(t) => {
                s.append(" (");
                s.append(t);
                s.append(")");
            },
            None => {
                assert(s@ + Seq::<char>::empty() =~= s@);
            },
        }
        s
    }
}

/// A window that edits code: the handles it reports through, its text, whether
/// it is open, its title, what it holds, and the file it was opened from.
pub struct CodeWindow<W> {
    pub channels: W,
    pub code: String,
    pub shown: bool,
    pub id: String,
    pub compiled: CodeWindowType,
    pub filename: Option<String>,
}

/// The views of an optional text.
pub open spec fn opt_view(s: Option<String>) -> Option<Seq<char>> {
    match s {
        Some(t) => Some(t@),
        None => None,
    }
}

impl<W> CodeWindow<W> {
    /// Window number `id`, open, holding `code` of kind `code_type`.
    pub fn new(
        id: usize,
        channels: W,
        code: String,
        code_type: CodeWindowType,
        filename: Option<String>,
    ) -> (r: Self)
        ensures
            r.channels == channels,
            r.code == code,
            r.shown,
            r.id@ == window_title(code_type, id as nat, opt_view(filename)),
            r.compiled == code_type,
            r.filename == filename,
    {
        let title = match &filename {
            Some(f) => code_type.window_title(id, Some(f.as_str())),
            None => code_type.window_title(id, None),
        };
        CodeWindow { channels, code, shown: true, id: title, compiled: code_type, filename }
    }

    /// The label of the button that translates the code: `Compile` for
    /// C/Buoy, `Assemble` for assembly.
    pub fn action_label(&self) -> (r: String)
        ensures
            r@ == (match self.compiled {
                CodeWindowType::Cbuoy => "Compile"@,
                CodeWindowType::Assembly => "Assemble"@,
            }),
    {
        match self.compiled {
            CodeWindowType::Cbuoy => String::from_str("Compile"),
            CodeWindowType::Assembly => String::from_str("Assemble"),
        }
    }

    /// Preprocesses the code of a C/Buoy window as its file (see
    /// [`CodeWindow::source_path`]) with nothing defined and the default
    /// system files `default_files`; where that fails, gives the message the
    /// window logs: `CB Preprocessor: ` and the error.
    pub fn preprocess_code(&self, default_files: &Vec<(String, String)>) -> (r: Result<
        PreprocessorOutput,
        String,
    >)
        requires
            paths_distinct(default_files@),
        ensures
            ({
                let path = match self.filename {
                    Some(f) => f@,
                    None => "code.cb"@,
                };
                match preprocess_files(
                    file_list_view(default_files@),
                    seq![(path, self.code@)],
                    path,
                    Seq::empty(),
                ) {
                    Ok(ls) => r matches Ok(o) && o@ == ls,
                    Err(e) => r matches Err(m) && m@ == "CB Preprocessor: "@ + error_text(e),
                }
            }),
    {
        let path = self.source_path();
        let none: Vec<String> = Vec::new();
        proof {
            assert(strings_view(none@) =~= Seq::<Seq<char>>::empty());
        }
        let result = preprocess_code_as_file(
            self.code.as_str(),
            path.as_str(),
            none,
            default_files,
        );
        match result {
            Ok(o) => Ok(o),
            Err(e) => {
                let mut m = String::from_str("CB Preprocessor: ");
                let t = e.to_text();
                m.append(t.as_str());
                proof {
                    reveal_strlit("CB Preprocessor: ");
                }
                Err(m)
            },
        }
    }

    /// The path the code is preprocessed as: its file, else `code.cb`.
    pub fn source_path(&self) -> (r: String)
        ensures
            r@ == (match self.filename {
                Some(f) => f@,
                None => "code.cb"@,
            }),
    {
        match &self.filename {
            Some(f) => f.clone(),
            None => String::from_str("code.cb"),
        }
    }
}

/// The name of the kernel variable that receives the address of the export region.
pub open spec fn export_data_name() -> Seq<char> {
    "K_LINK_EXPORT_DATA"@
}

/// The name of the kernel variable that receives the size of the export region.
pub open spec fn export_size_name() -> Seq<char> {
    "K_LINK_EXPORT_SIZE"@
}

/// The location of the last variable called `name`.
pub open spec fn last_location(vars: Seq<(Seq<char>, u32)>, name: Seq<char>) -> Option<u32>
    decreases vars.len(),
{
    if vars.len() == 0 {
        None
    } else if vars.last().0 == name {
        Some(vars.last().1)
    } else {
        last_location(vars.drop_last(), name)
    }
}

/// The location found for a name belongs to a variable of that name.
pub proof fn lemma_last_location_member(vars: Seq<(Seq<char>, u32)>, name: Seq<char>)
    ensures
        last_location(vars, name) matches Some(d) ==> exists|j: int|
            0 <= j < vars.len() && #[trigger] vars[j] == (name, d),
    decreases vars.len(),
{
    if vars.len() > 0 {
        lemma_last_location_member(vars.drop_last(), name);
        if vars.last().0 != name {
            if let Some(d) = last_location(vars, name) {
                let j = choose|j: int| 0 <= j < vars.drop_last().len() && #[trigger] vars.drop_last()[j]
                    == (name, d);
                assert(vars[j] == (name, d));
            }
        } else {
            assert(vars[vars.len() - 1] == vars.last());
        }
    }
}

/// `code` with the big-endian bytes of `v` written at `at`.
pub open spec fn write_be(code: Seq<u8>, at: int, v: u32) -> Seq<u8> {
    code.update(at, (v / 0x1000000) as u8).update(at + 1, ((v / 0x10000) % 256) as u8).update(
        at + 2,
        ((v / 0x100) % 256) as u8,
    ).update(at + 3, (v % 256) as u8)
}

/// The code of a compiled kernel linked with its export region: where both
/// export variables are present, the address just past the code and the size
/// of the region are written into them and the region is appended.
pub open spec fn linked_code(
    code: Seq<u8>,
    start: u32,
    vars: Seq<(Seq<char>, u32)>,
    export: Seq<u8>,
) -> Seq<u8> {
    match (last_location(vars, export_data_name()), last_location(vars, export_size_name())) {
        (Some(d), Some(z)) => write_be(
            write_be(code, d - start, ((code.len() as u32) + start) as u32),
            z - start,
            export.len() as u32,
        ) + export,
        _ => code,
    }
}

/// Linking leaves the code as it is where an export variable is missing;
/// where both are present it keeps the length of the code, with the export
/// region after it.
pub proof fn law_linked_code_layout(
    code: Seq<u8>,
    start: u32,
    vars: Seq<(Seq<char>, u32)>,
    export: Seq<u8>,
)
    requires
        last_location(vars, export_data_name()) matches Some(d) ==> (last_location(
            vars,
            export_size_name(),
        ) is Some ==> start <= d && d - start + 4 <= code.len()),
        last_location(vars, export_size_name()) matches Some(z) ==> (last_location(
            vars,
            export_data_name(),
        ) is Some ==> start <= z && z - start + 4 <= code.len()),
    ensures
        (last_location(vars, export_data_name()) is Some && last_location(vars, export_size_name()) is Some)
            ==> linked_code(code, start, vars, export).len() == code.len() + export.len()
            && linked_code(code, start, vars, export).skip(code.len() as int) == export,
        !(last_location(vars, export_data_name()) is Some && last_location(vars, export_size_name()) is Some)
            ==> linked_code(code, start, vars, export) == code,
{
    let l = linked_code(code, start, vars, export);
    if last_location(vars, export_data_name()) is Some && last_location(vars, export_size_name()) is Some {
        assert(l.skip(code.len() as int) =~= export);
    }
}

/// The views of named locations.
pub open spec fn vars_view(v: Seq<(String, u32)>) -> Seq<(Seq<char>, u32)> {
    v.map_values(|x: (String, u32)| (x.0@, x.1))
}

/// Writes the big-endian bytes of `v` at `at`.
fn write_u32_be(code: &mut Vec<u8>, at: usize, v: u32)
    requires
        at + 4 <= old(code)@.len(),
    ensures
        final(code)@ == write_be(old(code)@, at as int, v),
{
    let len = code.len();
    assert(at + 3 < len);
    code.set(at, (v / 0x1000000) as u8);
    code.set(at + 1, ((v / 0x10000) % 256) as u8);
    code.set(at + 2, ((v / 0x100) % 256) as u8);
    code.set(at + 3, (v % 256) as u8);
}

/// Links the export region of a compiled kernel into its code (see
/// [`linked_code`]). Every export variable must lie at or after the start
/// address, the end of the code must be addressable, and where both are
/// present each must leave room for four bytes.
pub fn link_export_region(
    code: Vec<u8>,
    start_address: u32,
    variables: &Vec<(String, u32)>,
    export_bytes: Vec<u8>,
) -> (r: Vec<u8>)
    requires
        forall|i: int|
            0 <= i < variables@.len() && (variables@[i].0@ == export_data_name()
                || variables@[i].0@ == export_size_name()) ==> (#[trigger] variables@[i]).1
                >= start_address,
        (code@.len() as u32) + start_address <= u32::MAX,
        last_location(vars_view(variables@), export_data_name()) matches Some(d) ==> (last_location(
            vars_view(variables@),
            export_size_name(),
        ) is Some ==> d - start_address + 4 <= code@.len()),
        last_location(vars_view(variables@), export_size_name()) matches Some(z) ==> (last_location(
            vars_view(variables@),
            export_data_name(),
        ) is Some ==> z - start_address + 4 <= code@.len()),
    ensures
        r@ == linked_code(code@, start_address, vars_view(variables@), export_bytes@),
{
    let ghost vv = vars_view(variables@);
    proof {
        reveal_strlit("K_LINK_EXPORT_DATA");
        reveal_strlit("K_LINK_EXPORT_SIZE");
        assert(export_data_name()[17] != export_size_name()[17]);
        lemma_last_location_member(vv, export_data_name());
        lemma_last_location_member(vv, export_size_name());
        if let Some(d) = last_location(vv, export_data_name()) {
            let j = choose|j: int| 0 <= j < vv.len() && #[trigger] vv[j] == (export_data_name(), d);
            assert(variables@[j].0@ == export_data_name() && variables@[j].1 == d);
        }
        if let Some(z) = last_location(vv, export_size_name()) {
            let j = choose|j: int| 0 <= j < vv.len() && #[trigger] vv[j] == (export_size_name(), z);
            assert(variables@[j].0@ == export_size_name() && variables@[j].1 == z);
        }
    }
    let export_loc = (code.len() as u32) + start_address;
    let export_len = export_bytes.len();
    let data_name = chars_of("K_LINK_EXPORT_DATA");
    let size_name = chars_of("K_LINK_EXPORT_SIZE");
    let mut assign_data: Option<(u32, u32)> = None;
    let mut assign_size: Option<(u32, u32)> = None;
    let mut i: usize = 0;
    while i < variables.len()
        invariant
            i <= variables@.len(),
            vv == vars_view(variables@),
            data_name@ == export_data_name(),
            size_name@ == export_size_name(),
            export_data_name() != export_size_name(),
            export_loc == ((code@.len() as u32) + start_address) as u32,
            forall|j: int|
                0 <= j < variables@.len() && (variables@[j].0@ == export_data_name()
                    || variables@[j].0@ == export_size_name()) ==> (#[trigger] variables@[j]).1
                    >= start_address,
            match last_location(vv.take(i as int), export_data_name()) {
                Some(d) => assign_data == Some(((d - start_address) as u32, export_loc)),
                None => assign_data is None,
            },
            match last_location(vv.take(i as int), export_size_name()) {
                Some(z) => assign_size == Some(((z - start_address) as u32, export_len as u32)),
                None => assign_size is None,
            },
        decreases variables.len() - i,
    {
        let name = chars_of(variables[i].0.as_str());
        let loc = variables[i].1;
        proof {
            let t = vv.take(i as int + 1);
            assert(t.drop_last() =~= vv.take(i as int));
            assert(t.last() == (name@, loc));
        }
        if chars_eq(name.as_slice(), data_name.as_slice()) {
            assign_data = Some((loc - start_address, export_loc));
        } else if chars_eq(name.as_slice(), size_name.as_slice()) {
            assign_size = Some((loc - start_address, export_len as u32));
        }
        i = i + 1;
    }
    assert(vv.take(variables@.len() as int) =~= vv);
    let mut code = code;
    match (assign_data, assign_size) {
        (Some((dl, dv)), Some((sl, sv))) => {
            write_u32_be(&mut code, dl as usize, dv);
            write_u32_be(&mut code, sl as usize, sv);
            let mut export_bytes = export_bytes;
            code.append(&mut export_bytes);
            code
        },
        _ => code,
    }
}

/// The assembly a window shows for compiled code: the assembly lines, then
/// the debugging lines, each joined by line feeds, with a line feed between.
pub open spec fn assembly_listing_text(lines: Seq<Seq<char>>, debug: Seq<Seq<char>>) -> Seq<char> {
    join_newline(lines) + seq!['\n'] + join_newline(debug)
}

/// Joins texts with line feeds.
fn join_lines(ts: &Vec<String>) -> (r: String)
    ensures
        r@ == join_newline(strings_view(ts@)),
{
    let ghost v = strings_view(ts@);
    let mut s = String::new();
    let mut i: usize = 0;
    while i < ts.len()
        invariant
            i <= ts@.len(),
            v == strings_view(ts@),
            s@ == join_newline(v.take(i as int)),
        decreases ts.len() - i,
    {
        if i > 0 {
            push_char(&mut s, '\n');
        }
        s.append(ts[i].as_str());
        proof {
            let t = v.take(i as int + 1);
            assert(t.drop_last() =~= v.take(i as int));
            assert(t.last() == ts@[i as int]@);
            if i == 0 {
                assert(v.take(0).len() == 0);
            }
            assert(s@ =~= join_newline(t));
        }
        i = i + 1;
    }
    assert(v.take(ts@.len() as int) =~= v);
    s
}

/// The assembly a window shows for compiled code (see [`assembly_listing_text`]).
pub fn assembly_listing(lines: &Vec<String>, debug: &Vec<String>) -> (r: String)
    ensures
        r@ == assembly_listing_text(strings_view(lines@), strings_view(debug@)),
{
    let mut s = join_lines(lines);
    push_char(&mut s, '\n');
    let d = join_lines(debug);
    s.append(d.as_str());
    s
}

/// Where a token that could not be read stands: its file where known, its
/// line, its column, and the length of its text.
pub struct TokenSpan {
    pub file: Option<String>,
    pub line: usize,
    pub column: usize,
    pub width: usize,
}

/// An error of the tokenizer: its message, the token it stands at where
/// there is one, and the preprocessed code it was read from where known.
pub struct TokenErrorContext {
    pub message: String,
    pub token: Option<TokenSpan>,
    pub preprocessed: Option<PreprocessorOutput>,
}

/// Whether a line of preprocessed code comes from where token `t` stands.
pub open spec fn at_token(l: LineView, t: TokenSpan) -> bool {
    l.loc.line == t.line as int && opt_view(t.file) == Some(l.loc.file)
}

/// The first line of `ls` that comes from where token `t` stands.
pub open spec fn first_at_token(ls: Seq<LineView>, t: TokenSpan) -> Option<int> {
    if exists|i: int|
        0 <= i < ls.len() && #[trigger] at_token(ls[i], t) && forall|j: int|
            0 <= j < i ==> !#[trigger] at_token(ls[j], t) {
        Some(
            choose|i: int|
                0 <= i < ls.len() && #[trigger] at_token(ls[i], t) && forall|j: int|
                    0 <= j < i ==> !#[trigger] at_token(ls[j], t),
        )
    } else {
        None
    }
}

/// The two lines that point at token `t` in line `l`: the location and the
/// text of the line, then the location again with carets under the token.
pub open spec fn token_pointer(l: LineView, t: TokenSpan) -> Seq<char> {
    location_text(l.loc) + " >> "@ + l.text + "\n"@ + location_text(l.loc) + "    "@ + Seq::new(
        t.column as nat,
        |i: int| ' ',
    ) + Seq::new(t.width as nat, |i: int| '^')
}

/// How a code window reports an error of the tokenizer: `CB: ` and the
/// message, then, where the token and the preprocessed code are known and a
/// line of the code comes from where the token stands, the first such line
/// with the token pointed out.
pub open spec fn token_error_text(
    message: Seq<char>,
    token: Option<TokenSpan>,
    lines: Option<Seq<LineView>>,
) -> Seq<char> {
    "CB: "@ + message + match (token, lines) {
        (Some(t), Some(ls)) => match first_at_token(ls, t) {
            Some(i) => "\n"@ + token_pointer(ls[i], t),
            None => Seq::<char>::empty(),
        },
        _ => Seq::<char>::empty(),
    }
}

/// Writes `n` copies of `c` onto the end of `s`.
fn push_repeated(s: &mut String, c: char, n: usize)
    ensures
        final(s)@ == old(s)@ + Seq::new(n as nat, |i: int| c),
{
    let mut k: usize = 0;
    while k < n
        invariant
            k <= n,
            s@ == old(s)@ + Seq::new(k as nat, |i: int| c),
        decreases n - k,
    {
        push_char(s, c);
        assert(old(s)@ + Seq::new((k + 1) as nat, |i: int| c) =~= old(s)@ + Seq::new(
            k as nat,
            |i: int| c,
        ) + seq![c]);
        k = k + 1;
    }
}

impl TokenErrorContext {
    /// The error as a code window reports it (see [`token_error_text`]).
    pub fn get_error_string(&self) -> (r: String)
        ensures
            r@ == token_error_text(
                self.message@,
                self.token,
                match self.preprocessed {
                    Some(p) => Some(p@),
                    None => None,
                },
            ),
    {
        let mut s = String::from_str("CB: ");
        s.append(self.message.as_str());
        proof {
            reveal_strlit("CB: ");
        }
        match (&self.token, &self.preprocessed) {
            (Some(t), Some(p)) => {
                let ls = p.get_lines();
                let ghost lv = p@;
                let mut i: usize = 0;
                while i < ls.len()
                    invariant
                        i <= ls@.len(),
                        lv == crate::preprocessor::lines_view(ls@),
                        lv == p@,
                        self.token == Some(*t),
                        self.preprocessed == Some(*p),
                        lv.len() == ls@.len(),
                        forall|j: int| 0 <= j < i ==> !#[trigger] at_token(lv[j], *t),
                        s@ == "CB: "@ + self.message@,
                    decreases ls.len() - i,
                {
                    let l = &ls[i];
                    let same_file = match &t.file {
                        Some(f) => {
                            let a = chars_of(f.as_str());
                            let b = chars_of(l.loc.file.as_str());
                            chars_eq(a.as_slice(), b.as_slice())
                        },
                        None => false,
                    };
                    assert(lv[i as int] == l@);
                    if l.loc.line == t.line && same_file {
                        s.append("\n");
                        let lt = l.loc.to_text();
                        s.append(lt.as_str());
                        s.append(" >> ");
                        s.append(l.text.as_str());
                        s.append("\n");
                        s.append(lt.as_str());
                        s.append("    ");
                        push_repeated(&mut s, ' ', t.column);
                        push_repeated(&mut s, '^', t.width);
                        proof {
                            assert(at_token(lv[i as int], *t));
                            let k = choose|k: int|
                                0 <= k < lv.len() && #[trigger] at_token(lv[k], *t) && forall|j: int|
                                    0 <= j < k ==> !#[trigger] at_token(lv[j], *t);
                            if k < i {
                                assert(!at_token(lv[k], *t));
                            }
                            if k > i {
                                assert(!at_token(lv[i as int], *t));
                            }
                            assert(first_at_token(lv, *t) == Some(i as int));
                            assert(s@ =~= "CB: "@ + self.message@ + ("\n"@ + token_pointer(
                                lv[i as int],
                                *t,
                            )));
                        }
                        return s;
                    }
                    i = i + 1;
                }
                proof {
                    assert(first_at_token(lv, *t) is None);
                    assert(s@ =~= "CB: "@ + self.message@ + Seq::<char>::empty());
                }
                s
            },
            _ => {
                assert(s@ =~= "CB: "@ + self.message@ + Seq::<char>::empty());
                s
            },
        }
    }
}

} // verus!
