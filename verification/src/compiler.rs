//! Compiler settings: the code generation options and how the command-line
//! arguments of the compiler turn into options and definitions.
use vstd::prelude::*;

use crate::definitions::Definitions;
use crate::errors::PreprocessorError;
use crate::filesystem::{PreprocessorFilesystem, VirtualFilesystem};
use crate::preprocessor::{
    file_outcome, lemma_virtual_model, line_texts, lines_view, model_of, result_view,
    virtual_model, IfState, PreprocessorOutput, PreprocessorState,
};
use crate::text::{chars_of, find_char, push_char, split_once, string_of, trim, trim_range};

verus! {

/// The kind of program to generate.
#[derive(Debug, Clone, Copy, PartialEq, Eq)]
pub enum ProgramType {
    /// An application loaded by the operating system.
    Application,
    /// A kernel program placed at `base_location`, with an optional initial stack location.
    Kernel { stack_loc_init: Option<u32>, base_location: u32 },
}

/// Options for code generation.
#[derive(Debug, Clone, Copy, PartialEq, Eq)]
pub struct CodeGenerationOptions {
    pub prog_type: ProgramType,
    pub debug_locations: bool,
    pub trim_code: bool,
}

/// The command-line arguments of the compiler.
#[derive(Debug, Clone)]
pub struct CompilerArguments {
    /// The primary input file to compile.
    pub input_file: String,
    /// The name of the generated binary file.
    pub output_binary: Option<String>,
    /// Whether to generate a kernel program instead of an application.
    pub kernel_program: bool,
    /// The starting location of a kernel program.
    pub kernel_start_offset: u32,
    /// The stack location of a kernel program.
    pub kernel_stack_loc: u32,
    /// Whether unused functions are trimmed from the binary.
    pub trim_unused: bool,
    /// Whether the syntax tree is printed.
    pub print_ast: bool,
    /// Whether debugging locations are added to the generated assembly.
    pub include_locations: bool,
    /// The text file for the generated assembly.
    pub output_assembly: Option<String>,
    /// The text file for the preprocessed source.
    pub output_preproc: Option<String>,
    /// Definitions to make before compiling, `NAME` or `NAME=VALUE`.
    pub definitions: Vec<String>,
    /// System include directories.
    pub include_directories: Vec<String>,
    /// Whether the built-in system library is included.
    pub default_lib: bool,
    /// The interface file to write.
    pub interface_file: Option<String>,
    /// The include guard of the interface file, or empty for none.
    pub interface_guard: String,
    /// Whether locations are zeroed in the interface file.
    pub zero_locations: bool,
}

/// The code generation options that the arguments select.
pub open spec fn options_of(args: CompilerArguments) -> CodeGenerationOptions {
    CodeGenerationOptions {
        prog_type: if args.kernel_program {
            ProgramType::Kernel {
                stack_loc_init: Some(args.kernel_stack_loc),
                base_location: args.kernel_start_offset,
            }
        } else {
            ProgramType::Application
        },
        debug_locations: args.include_locations,
        trim_code: args.trim_unused,
    }
}

/// The name and value that one `-D` argument defines: `NAME=VALUE` with both
/// sides trimmed, or the trimmed argument with empty text.
pub open spec fn definition_of(d: Seq<char>) -> (Seq<char>, Seq<char>) {
    match split_once(d, '=') {
        Some((k, v)) => (trim(k), trim(v)),
        None => (trim(d), Seq::<char>::empty()),
    }
}

/// The definitions that the `-D` arguments make, later ones taking precedence.
pub open spec fn definitions_of(ds: Seq<Seq<char>>) -> Map<Seq<char>, Seq<char>>
    decreases ds.len(),
{
    if ds.len() == 0 {
        Map::empty()
    } else {
        let (k, v) = definition_of(ds.last());
        definitions_of(ds.drop_last()).insert(k, v)
    }
}

impl CompilerArguments {
    /// The code generation options.
    pub fn compiler_options(&self) -> (r: CodeGenerationOptions)
        ensures
            r == options_of(*self),
    {
        CodeGenerationOptions {
            prog_type: if self.kernel_program {
                ProgramType::Kernel {
                    stack_loc_init: Some(self.kernel_stack_loc),
                    base_location: self.kernel_start_offset,
                }
            } else {
                ProgramType::Application
            },
            debug_locations: self.include_locations,
            trim_code: self.trim_unused,
        }
    }

    /// The definitions made by the `-D` arguments.
    pub fn definition_table(&self) -> (r: Definitions)
        ensures
            r@ == definitions_of(self.definitions@.map_values(|s: String| s@)),
    {
        let ghost ds = self.definitions@.map_values(|s: String| s@);
        let mut table = Definitions::new();
        let mut i: usize = 0;
        while i < self.definitions.len()
            invariant
                i <= self.definitions@.len(),
                ds == self.definitions@.map_values(|s: String| s@),
                table@ == definitions_of(ds.take(i as int)),
            decreases self.definitions.len() - i,
        {
            let d = chars_of(self.definitions[i].as_str());
            let n = d.len();
            assert(d@.skip(0) =~= d@);
            match find_char(d.as_slice(), 0, '=') {
                Some(eq) => {
                    let k = trim_range(d.as_slice(), 0, eq);
                    let v = trim_range(d.as_slice(), eq + 1, n);
                    assert(d@.subrange(0, eq as int) =~= d@.take(eq as int));
                    assert(d@.subrange(eq + 1, n as int) =~= d@.skip(eq + 1));
                    table.insert(string_of(k.as_slice()), string_of(v.as_slice()));
                },
                None => {
                    let k = trim_range(d.as_slice(), 0, n);
                    assert(d@.subrange(0, n as int) =~= d@);
                    table.insert(string_of(k.as_slice()), String::new());
                },
            }
            proof {
                let t = ds.take(i as int + 1);
                assert(t.drop_last() =~= ds.take(i as int));
                assert(t.last() == d@);
            }
            i = i + 1;
        }
        assert(ds.take(self.definitions@.len() as int) =~= ds);
        table
    }
}

/// The interface file the compiler writes: the interface text inside an
/// include guard named `guard`, or bare where the guard is empty.
pub open spec fn interface_file_text(guard: Seq<char>, interface: Seq<char>) -> Seq<char> {
    if guard.len() == 0 {
        interface
    } else {
        "#ifndef "@ + guard + "\n#define "@ + guard + "\n\n"@ + interface + "\n#endif // "@ + guard
            + "\n"@
    }
}

/// The preprocessed-source file the compiler writes: each output line
/// followed by a line feed.
pub open spec fn preprocessed_text(ls: Seq<Seq<char>>) -> Seq<char>
    decreases ls.len(),
{
    if ls.len() == 0 {
        Seq::empty()
    } else {
        preprocessed_text(ls.drop_last()) + ls.last() + seq!['\n']
    }
}

impl CompilerArguments {
    /// The interface file for `interface`, framed by the interface guard
    /// (see [`interface_file_text`]).
    pub fn interface_file(&self, interface: &str) -> (r: String)
        ensures
            r@ == interface_file_text(self.interface_guard@, interface@),
    {
        if self.interface_guard.as_str().is_empty() {
            return String::from_str(interface);
        }
        let mut s = String::from_str("#ifndef ");
        s.append(self.interface_guard.as_str());
        s.append("\n#define ");
        s.append(self.interface_guard.as_str());
        s.append("\n\n");
        s.append(interface);
        s.append("\n#endif // ");
        s.append(self.interface_guard.as_str());
        s.append("\n");
        proof {
            reveal_strlit("#ifndef ");
        }
        s
    }
}

/// The preprocessed-source file for `out` (see [`preprocessed_text`]).
pub fn preprocessed_source(out: &PreprocessorOutput) -> (r: String)
    ensures
        r@ == preprocessed_text(line_texts(out@)),
{
    let ls = out.get_lines();
    let ghost ts = line_texts(out@);
    let mut s = String::new();
    let mut i: usize = 0;
    while i < ls.len()
        invariant
            i <= ls@.len(),
            ts == line_texts(lines_view(ls@)),
            s@ == preprocessed_text(ts.take(i as int)),
        decreases ls.len() - i,
    {
        s.append(ls[i].text.as_str());
        push_char(&mut s, '\n');
        proof {
            let t = ts.take(i as int + 1);
            assert(t.drop_last() =~= ts.take(i as int));
            assert(t.last() == ls@[i as int].text@);
        }
        i = i + 1;
    }
    assert(ts.take(ls@.len() as int) =~= ts);
    s
}

/// The compiler: the system filesystem for `<...>` includes, the
/// definitions that hold from the start, and the code generation options.
pub struct Compiler<S> {
    pub system_root: S,
    pub definitions: Definitions,
    pub options: CodeGenerationOptions,
}

impl<S: PreprocessorFilesystem> Compiler<S> {
    /// The first stage of compiling `file` from `fs`: preprocessing it with
    /// the compiler's system filesystem and its definitions.
    pub fn preprocess_fs<F: PreprocessorFilesystem>(&self, file: &str, fs: F) -> (r: Result<
        PreprocessorOutput,
        PreprocessorError,
    >)
        ensures
            result_view(r) == file_outcome(
                model_of(fs),
                model_of(self.system_root),
                file@,
                false,
                0,
                self.definitions@,
                Seq::<IfState>::empty(),
            ).result,
    {
        let mut state = PreprocessorState::new_system(fs, &self.system_root);
        state.init_definitions = self.definitions.duplicate();
        proof {
            assert(model_of(&self.system_root).read =~= model_of(self.system_root).read);
            assert(model_of(&self.system_root).exists =~= model_of(self.system_root).exists);
        }
        state.read_file(file)
    }

    /// The first stage of compiling the text `s` as the only file, named
    /// `name` (`input.cb` where none is given).
    pub fn preprocess_string(&self, s: &str, name: Option<&str>) -> (r: Result<
        PreprocessorOutput,
        PreprocessorError,
    >)
        ensures
            ({
                let n = match name {
                    Some(x) => x@,
                    None => "input.cb"@,
                };
                result_view(r) == file_outcome(
                    virtual_model(seq![(n, s@)]),
                    model_of(self.system_root),
                    n,
                    false,
                    0,
                    self.definitions@,
                    Seq::<IfState>::empty(),
                ).result
            }),
    {
        let file = match name {
            Some(x) => x,
            None => "input.cb",
        };
        let fs = VirtualFilesystem::new(s, file);
        proof {
            lemma_virtual_model(fs);
        }
        self.preprocess_fs(file, fs)
    }
}

/// The options keep the command-line flags as given, whatever the program
/// type: unused code is trimmed exactly where `--trim` asks, debugging
/// locations are added exactly where asked, and a kernel program is placed
/// at its start offset with its stack location, any other an application.
pub proof fn law_compiler_options_keep_flags(args: CompilerArguments)
    ensures
        options_of(args).trim_code == args.trim_unused,
        options_of(args).debug_locations == args.include_locations,
        args.kernel_program ==> options_of(args).prog_type == (ProgramType::Kernel {
            stack_loc_init: Some(args.kernel_stack_loc),
            base_location: args.kernel_start_offset,
        }),
        !args.kernel_program ==> options_of(args).prog_type == ProgramType::Application,
{
}

} // verus!
