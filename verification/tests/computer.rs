use cblang::compiler::preprocessed_source;
use cblang::computer::{reset_vector, save_path, PramError, TerminalAction, BOOTLOADER_START};
use cblang::{Compiler, FilesystemError, PreprocessorFilesystem, VirtualFilesystem};
use cblang::{
    ApplicationCategory, CodeGenerationOptions, CompilerArguments, ComputerPram, JibOsImage,
    ProgramType, RunControl, StopMode,
};

fn args() -> CompilerArguments {
    CompilerArguments {
        input_file: "main.cb".to_string(),
        output_binary: None,
        kernel_program: false,
        kernel_start_offset: 0x2000,
        kernel_stack_loc: 0x8000,
        trim_unused: true,
        print_ast: false,
        include_locations: true,
        output_assembly: None,
        output_preproc: None,
        definitions: vec!["A=1".to_string(), " B ".to_string(), "A = 2 ".to_string()],
        include_directories: vec![],
        default_lib: false,
        interface_file: None,
        interface_guard: "CBOS_DEFS".to_string(),
        zero_locations: false,
    }
}

#[test]
fn application_options() {
    let o = args().compiler_options();
    assert_eq!(
        o,
        CodeGenerationOptions {
            prog_type: ProgramType::Application,
            debug_locations: true,
            trim_code: true
        }
    );
}

#[test]
fn kernel_options() {
    let mut a = args();
    a.kernel_program = true;
    let o = a.compiler_options();
    assert_eq!(
        o.prog_type,
        ProgramType::Kernel {
            stack_loc_init: Some(0x8000),
            base_location: 0x2000
        }
    );
}

#[test]
fn command_line_definitions() {
    let d = args().definition_table();
    assert_eq!(d.get(&['A']).unwrap(), "2");
    assert_eq!(d.get(&['B']).unwrap(), "");
}

#[test]
fn pram_reads_and_writes() {
    let mut p = ComputerPram::default();
    assert_eq!(p.get(0, 0x1234), 0x12);
    assert_eq!(p.get(1, 0x1234), 0x34);
    assert_eq!(p.get(2, 0x1234), 0);
    assert_eq!(p.set(2, 7), Ok(()));
    assert_eq!(p.get(2, 0x1234), 1);
    assert_eq!(p.set(3, 1), Err(PramError::ReadOnlyMemory(3)));
    assert_eq!(p.get(5, 0x1234), 0);
}

#[test]
fn reset_vector_layout() {
    let v = reset_vector(0x12345678, 16);
    assert_eq!(
        v,
        vec![0x12, 0x34, 0x56, 0x78, 0x12, 0x34, 0x56, 0x78, 0, 0, 0, 0, 0, 0, 0, 0]
    );
}

#[test]
fn start_location_follows_bootloader() {
    let mut rc = RunControl::new();
    assert_eq!(rc.start_location(0x1000), 0x1000);
    rc.use_bootloader(true);
    assert!(rc.using_bootloader());
    assert_eq!(rc.start_location(0x1000), BOOTLOADER_START);
}

#[test]
fn running_requests() {
    let mut rc = RunControl::new();
    assert!(rc.set_running_request(true));
    assert!(rc.get_running() && rc.get_running_requested());
    assert!(!rc.set_running_request(true));
    assert!(rc.set_running_request(false));
    assert!(!rc.get_running());
}

#[test]
fn breakpoint_stops_and_cancels() {
    let mut rc = RunControl::new();
    rc.set_running_request(true);
    let mode = StopMode { debug: true, cancel_run: true };
    assert!(rc.step_cpu(0x10, Some(0x20), Some(mode), None));
    assert!(!rc.step_cpu(0x20, Some(0x20), Some(mode), None));
    assert!(!rc.get_running());
    assert!(!rc.get_running_requested());
}

#[test]
fn processor_stop_keeps_request_without_debug() {
    let mut rc = RunControl::new();
    rc.set_running_request(true);
    let mode = StopMode { debug: false, cancel_run: true };
    assert!(!rc.step_cpu(0, None, Some(mode), Some((true, true))));
    assert!(!rc.get_running());
    assert!(rc.get_running_requested());
    assert!(rc.waiting_to_run());
    assert!(rc.devices_stepped(true));
    assert!(rc.get_running());
}

#[test]
fn step_without_stop_mode() {
    let mut rc = RunControl::new();
    assert!(rc.step_cpu(0, Some(0), None, Some((true, true))));
}

#[test]
fn reset_resumes_requested_run() {
    let mut rc = RunControl::new();
    rc.set_running_request(true);
    rc.step_cpu(0, None, Some(StopMode { debug: false, cancel_run: false }), Some((true, false)));
    assert!(!rc.get_running());
    rc.after_reset();
    assert!(rc.get_running());
}

#[test]
fn install_directories() {
    assert_eq!(ApplicationCategory::PathBinary.install_directory(), "bin");
    assert_eq!(ApplicationCategory::Test.install_directory(), "test");
    assert_eq!(ApplicationCategory::SampleApplication.install_directory(), "samples");
}

#[test]
fn kernel_interface_header() {
    assert_eq!(
        JibOsImage::interface_header("x"),
        "#ifndef CBOS_DEFS\n#define CBOS_DEFS\nx\n#endif // CBOS_DEFS\n"
    );
}

#[test]
fn application_sources_hold_code_and_header() {
    let image = JibOsImage {
        kernel: vec![],
        kernel_header: "HDR".to_string(),
        applications: vec![],
    };
    let (fs, name) = image.application_sources("code", None).unwrap();
    assert_eq!(name, "main.cb");
    assert_eq!(fs.read_file("main.cb").unwrap(), "code");
    assert_eq!(fs.read_file("cbos_defs.cb").unwrap(), "HDR");
    let (fs, name) = image.application_sources("other", Some("apps/x.cb")).unwrap();
    assert_eq!(name, "apps/x.cb");
    assert_eq!(fs.read_file("apps/x.cb").unwrap(), "other");
    match image.application_sources("clash", Some("cbos_defs.cb/")) {
        Err(FilesystemError::UnableToLoadFile(p, m)) => {
            assert_eq!(p, "cbos_defs.cb");
            assert_eq!(m, "file already exists in virtual filesystem");
        }
        _ => panic!("expected a clash"),
    }
}

#[test]
fn compiler_preprocesses_with_its_system_files_and_definitions() {
    let mut sys = VirtualFilesystem::empty();
    sys.add_file("std/x.cb", "from system").unwrap();
    let compiler = Compiler {
        system_root: sys,
        definitions: args().definition_table(),
        options: args().compiler_options(),
    };
    let out = compiler.preprocess_string("#include <std/x.cb>\nA is ${A}", None).unwrap();
    let lines = out.get_lines();
    assert_eq!(lines[0].text, "from system");
    assert_eq!(lines[0].loc.file, "std/x.cb");
    assert_eq!(lines[1].text, "A is 2");
    assert_eq!(lines[1].loc.file, "input.cb");
    let mut main = VirtualFilesystem::empty();
    main.add_file("dir/m.cb", "#ifdef B\nb\n#endif").unwrap();
    let out = compiler.preprocess_fs("dir/m.cb", main).unwrap();
    assert_eq!(out.full_string(), "b");
    let err = compiler.preprocess_string("#include <none.cb>", Some("n.cb")).unwrap_err();
    assert_eq!(err.error, "file \"none.cb\" not found");
}

#[test]
fn interface_file_framing() {
    let a = args();
    assert_eq!(
        a.interface_file("int x;"),
        "#ifndef CBOS_DEFS\n#define CBOS_DEFS\n\nint x;\n#endif // CBOS_DEFS\n"
    );
    let mut bare = args();
    bare.interface_guard = String::new();
    assert_eq!(bare.interface_file("int x;"), "int x;");
}

#[test]
fn preprocessed_source_ends_each_line() {
    let out = cblang::preprocess_code_std("a\n\nb", vec![], &vec![]).unwrap();
    assert_eq!(preprocessed_source(&out), "a\n\nb\n");
}

#[test]
fn terminal_runner_turns() {
    let mut rc = RunControl::new();
    assert_eq!(rc.terminal_action(), TerminalAction::RequestRun);
    rc.set_running_request(true);
    assert_eq!(rc.terminal_action(), TerminalAction::StepCpu);
    rc.running = false;
    assert_eq!(rc.terminal_action(), TerminalAction::StepDevices);
}

#[test]
fn disk_save_location() {
    let e = Some("e.img".to_string());
    let d = Some("d.img".to_string());
    assert_eq!(save_path(false, e.clone(), d.clone()), e);
    assert_eq!(save_path(false, None, d.clone()), d);
    assert_eq!(save_path(true, e, d), None);
    assert_eq!(save_path(false, None, None), None);
}
