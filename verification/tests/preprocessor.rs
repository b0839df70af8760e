use cblang::preprocessor::apply_replacement_keys;
use cblang::{
    preprocess_code_as_file, preprocess_code_std, preprocess_code_with_fs, Definitions,
    FilesystemError, IfState, OverlayFilesystem, PreprocessorFilesystem, PreprocessorOutput,
    PreprocessorState, VirtualFilesystem, preprocess_step, PreprocessStep,
};

type State = PreprocessorState<VirtualFilesystem, VirtualFilesystem>;

fn texts(o: &PreprocessorOutput) -> Vec<String> {
    o.get_lines().iter().map(|l| l.text.clone()).collect()
}

#[test]
fn remove_line_comment() {
    let r = State::remove_comments("a // c\nb", "f.cb").unwrap();
    assert_eq!(r, "a     \nb");
}

#[test]
fn remove_nested_block_comment() {
    let r = State::remove_comments("x /* a /* b */ c */ y", "f.cb").unwrap();
    assert_eq!(r, "x                   y");
}

#[test]
fn block_comment_keeps_newlines() {
    let r = State::remove_comments("a/*\n*/b", "f.cb").unwrap();
    assert_eq!(r, "a  \n  b");
}

#[test]
fn unclosed_block_comment_is_an_error() {
    let e = State::remove_comments("a\n/* b\nc", "f.cb").unwrap_err();
    let loc = e.loc.unwrap();
    assert_eq!(loc.file, "f.cb");
    assert_eq!(loc.line, 3);
    assert_eq!(e.error, "unclosed block comment found");
}

#[test]
fn comment_markers_inside_strings_are_kept() {
    let s = "x = \"// not a comment\";";
    assert_eq!(State::remove_comments(s, "f.cb").unwrap(), s);
}

#[test]
fn comment_spans_are_byte_ranges() {
    let spans = State::find_comment_spans("ab // c", "f.cb").unwrap();
    assert_eq!(spans, vec![(3, 7)]);
    let spans = State::find_comment_spans("/*x*/", "f.cb").unwrap();
    assert_eq!(spans, vec![(0, 4)]);
}

#[test]
fn define_and_replace() {
    let out = preprocess_code_std("#define X = 5\nint a = ${X};", vec![], &vec![]).unwrap();
    assert_eq!(texts(&out), vec!["int a = 5;".to_string()]);
    let l = &out.get_lines()[0];
    assert_eq!(l.loc.file, "main.cb");
    assert_eq!(l.loc.line, 2);
}

#[test]
fn ifdef_else_endif() {
    let code = "#ifdef A\na\n#else\nb\n#endif\nc";
    let out = preprocess_code_std(code, vec!["A".to_string()], &vec![]).unwrap();
    assert_eq!(texts(&out), vec!["a".to_string(), "c".to_string()]);
    let out = preprocess_code_std(code, vec![], &vec![]).unwrap();
    assert_eq!(texts(&out), vec!["b".to_string(), "c".to_string()]);
}

#[test]
fn ifndef_keeps_lines_when_undefined() {
    let out = preprocess_code_std("#ifndef A\nx\n#endif", vec![], &vec![]).unwrap();
    assert_eq!(texts(&out), vec!["x".to_string()]);
}

#[test]
fn include_relative_file() {
    let mut fs = VirtualFilesystem::empty();
    fs.add_file("dir/main.cb", "a\n#include other.cb\nb").unwrap();
    fs.add_file("dir/other.cb", "x\ny").unwrap();
    let out = preprocess_code_with_fs("dir/main.cb", fs, vec![], &vec![]).unwrap();
    assert_eq!(
        texts(&out),
        vec!["a".to_string(), "x".to_string(), "y".to_string(), "b".to_string()]
    );
    let l = &out.get_lines()[1];
    assert_eq!(l.loc.file, "dir/other.cb");
    assert_eq!(l.loc.line, 1);
}

#[test]
fn include_parent_directory() {
    let mut fs = VirtualFilesystem::empty();
    fs.add_file("a/b/main.cb", "#include ../defs.cb").unwrap();
    fs.add_file("a/defs.cb", "d").unwrap();
    let out = preprocess_code_with_fs("a/b/main.cb", fs, vec![], &vec![]).unwrap();
    assert_eq!(texts(&out), vec!["d".to_string()]);
}

#[test]
fn include_system_file() {
    let mut sys = VirtualFilesystem::empty();
    sys.add_file("std/list.cb", "list").unwrap();
    let main = VirtualFilesystem::new("#include <std/list.cb>\nm", "main.cb");
    let st = PreprocessorState::new_system(main, sys);
    let out = st.read_file("main.cb").unwrap();
    assert_eq!(texts(&out), vec!["list".to_string(), "m".to_string()]);
}

#[test]
fn missing_include_reports_file() {
    let e = preprocess_code_std("#include nothere.cb", vec![], &vec![]).unwrap_err();
    assert!(e.loc.is_none());
    assert_eq!(e.text, "nothere.cb");
    assert_eq!(e.error, "file \"nothere.cb\" not found");
}

#[test]
fn unknown_directive() {
    let e = preprocess_code_std("ok\n#frob x y", vec![], &vec![]).unwrap_err();
    assert_eq!(e.error, "unknown preprocessor action 'frob' with arg 'x y'");
    assert_eq!(e.loc.unwrap().line, 2);
    assert_eq!(e.text, "#frob x y");
}

#[test]
fn endif_without_if() {
    let e = preprocess_code_std("#endif", vec![], &vec![]).unwrap_err();
    assert_eq!(
        e.error,
        "cannot end an if statement after all statements have been applied already"
    );
}

#[test]
fn unclosed_if() {
    let e = preprocess_code_std("#ifdef X\nx", vec![], &vec![]).unwrap_err();
    assert!(e.loc.is_none());
    assert_eq!(
        e.error,
        "unclosed if statements remaining after processing completion"
    );
}

#[test]
fn else_twice() {
    let e = preprocess_code_std("#ifdef X\n#else\n#else\n#endif", vec![], &vec![]).unwrap_err();
    assert_eq!(e.error, "else statement already used for this statement");
}

#[test]
fn else_with_argument() {
    let e = preprocess_code_std("#ifdef X\n#else y\n#endif", vec![], &vec![]).unwrap_err();
    assert_eq!(e.error, "no argument expected for line");
}

#[test]
fn full_string_joins_lines() {
    let out = preprocess_code_std("a\r\nb\n", vec![], &vec![]).unwrap();
    assert_eq!(out.full_string(), "a\nb");
}

#[test]
fn add_file_twice_fails() {
    let mut fs = VirtualFilesystem::new("a", "x.cb");
    let e = fs.add_file("x.cb", "b").unwrap_err();
    match e {
        FilesystemError::UnableToLoadFile(p, m) => {
            assert_eq!(p, "x.cb");
            assert_eq!(m, "file already exists in virtual filesystem");
        }
        _ => panic!("unexpected error"),
    }
    assert_eq!(fs.read_file("x.cb").unwrap(), "a");
}

#[test]
fn overlay_prefers_last_layer() {
    let mut o = OverlayFilesystem::new();
    o.systems.push(VirtualFilesystem::new("first", "f.cb"));
    o.systems.push(VirtualFilesystem::new("second", "f.cb"));
    assert_eq!(o.read_file("f.cb").unwrap(), "second");
    assert!(o.file_exists("f.cb"));
    assert!(!o.file_exists("g.cb"));
}

#[test]
fn if_state_else_flips() {
    let s = IfState::new(true);
    assert!(s.get_current());
    let e = IfState { value: true, is_else: true };
    assert!(!e.get_current());
}

#[test]
fn definitions_insert_and_get() {
    let mut d = Definitions::new();
    d.insert("A".to_string(), "1".to_string());
    d.insert("A".to_string(), "2".to_string());
    assert_eq!(d.get(&['A']).unwrap(), "2");
    assert!(!d.contains_key(&['B']));
}

#[test]
fn error_display_text() {
    let e = preprocess_code_as_file("#endif x", "p.cb", vec![], &vec![]).unwrap_err();
    assert_eq!(
        e.to_text(),
        "CBP: [p.cb::1] @ \"#endif x\" => no argument expected for line"
    );
}

#[test]
fn paths_compare_by_components() {
    let mut fs = VirtualFilesystem::new("a", "dir//x.cb");
    assert!(fs.add_file("dir/x.cb", "b").is_err());
    assert!(fs.add_file("./dir/x.cb", "c").is_ok());
    assert_eq!(fs.read_file("dir/./x.cb/").unwrap(), "a");
}

#[test]
fn real_filesystem_reads_recorded_answers() {
    let mut fs = cblang::RealFilesystem::new_relative("/base".to_string());
    assert_eq!(fs.full_path("a.cb"), "/base/a.cb");
    assert_eq!(fs.full_path("/abs.cb"), "/abs.cb");
    assert!(!fs.has_answer("a.cb"));
    match fs.read_file("a.cb") {
        Err(FilesystemError::FileNotFound(p)) => assert_eq!(p, "a.cb"),
        _ => panic!("expected not found"),
    }
    fs.record_path("a.cb", Ok("/base/a.cb".to_string()));
    assert!(!fs.has_answer("a.cb"));
    fs.record_file("/base/a.cb", Some(Ok("text".to_string())));
    assert!(fs.has_answer("a.cb"));
    assert_eq!(fs.read_file("a.cb").unwrap(), "text");
    assert!(fs.file_exists("a.cb"));
    assert!(!fs.file_exists("b.cb"));
    // another spelling of the same file finds the recorded contents
    fs.record_path("./x/../a.cb", Ok("/base/a.cb".to_string()));
    assert!(fs.has_file("/base/a.cb"));
    assert_eq!(fs.read_file("./x/../a.cb").unwrap(), "text");
}

#[test]
fn real_filesystem_reports_disk_errors() {
    let mut fs = cblang::RealFilesystem::new();
    fs.record_path("gone.cb", Err("no such file".to_string()));
    match fs.read_file("gone.cb") {
        Err(FilesystemError::UnableToLoadFile(p, m)) => {
            assert_eq!(p, "gone.cb");
            assert_eq!(m, "no such file");
        }
        _ => panic!("expected an unloadable file"),
    }
    assert!(!fs.file_exists("gone.cb"));
    fs.record_path("bad.cb", Ok("/w/bad.cb".to_string()));
    fs.record_file("/w/bad.cb", Some(Err("not text".to_string())));
    match fs.read_file("bad.cb") {
        Err(FilesystemError::UnableToLoadFile(p, m)) => {
            assert_eq!(p, "bad.cb");
            assert_eq!(m, "not text");
        }
        _ => panic!("expected an unreadable file"),
    }
    assert!(fs.file_exists("bad.cb"));
    fs.record_path("none.cb", Ok("/w/none.cb".to_string()));
    fs.record_file("/w/none.cb", None);
    match fs.read_file("none.cb") {
        Err(FilesystemError::FileNotFound(p)) => assert_eq!(p, "/w/none.cb"),
        _ => panic!("expected not found"),
    }
}

#[test]
fn define_without_value_and_ifdef() {
    let out = preprocess_code_std("#define FLAG\n#ifdef FLAG\nyes\n#endif", vec![], &vec![]).unwrap();
    assert_eq!(texts(&out), vec!["yes".to_string()]);
}

#[test]
fn replacement_of_undefined_name_is_kept() {
    let out = preprocess_code_std("a ${NOPE} b", vec![], &vec![]).unwrap();
    assert_eq!(texts(&out), vec!["a ${NOPE} b".to_string()]);
}

#[test]
fn ifexist_on_system_file() {
    let mut sys = VirtualFilesystem::empty();
    sys.add_file("k.cb", "k").unwrap();
    let main = VirtualFilesystem::new("#ifexist <k.cb>\nhas\n#endif\n#ifexist <z.cb>\nno\n#endif\n#ifexist k.cb\nmainfs\n#endif", "m.cb");
    let st = PreprocessorState::new_system(main, sys);
    let out = st.read_file("m.cb").unwrap();
    assert_eq!(texts(&out), vec!["has".to_string()]);
}

#[test]
fn comments_removed_before_directives() {
    let out = preprocess_code_std("#define X = 1 // one\n/* c */ v = ${X};", vec![], &vec![]).unwrap();
    assert_eq!(texts(&out), vec!["        v = 1;".to_string()]);
}

#[test]
fn preprocess_step_asks_for_each_unread_file() {
    let fs = cblang::RealFilesystem::new();
    let defs = vec!["X".to_string()];
    let sys = vec![];
    let (mut fs, step) = preprocess_step(fs, "main.cb", &defs, &sys);
    match step {
        PreprocessStep::Load(f) => assert_eq!(f, "main.cb"),
        PreprocessStep::Done(_) => panic!("expected a file to load"),
    }
    fs.record_path("main.cb", Ok("/w/main.cb".to_string()));
    let (mut fs, step) = preprocess_step(fs, "main.cb", &defs, &sys);
    match step {
        PreprocessStep::Load(f) => assert_eq!(f, "main.cb"),
        PreprocessStep::Done(_) => panic!("the contents are not recorded yet"),
    }
    fs.record_file(
        "/w/main.cb",
        Some(Ok("#ifdef X\n#include lib.cb\n#endif\nend".to_string())),
    );
    let (mut fs, step) = preprocess_step(fs, "main.cb", &defs, &sys);
    match step {
        PreprocessStep::Load(f) => assert_eq!(f, "lib.cb"),
        PreprocessStep::Done(_) => panic!("expected a file to load"),
    }
    fs.record_path("lib.cb", Ok("/w/lib.cb".to_string()));
    fs.record_file("/w/lib.cb", Some(Ok("lib".to_string())));
    let (_, step) = preprocess_step(fs, "main.cb", &defs, &sys);
    match step {
        PreprocessStep::Done(Ok(out)) => {
            assert_eq!(texts(&out), vec!["lib".to_string(), "end".to_string()])
        }
        _ => panic!("expected the preprocessed lines"),
    }
}

#[test]
fn preprocess_step_reports_recorded_missing_file() {
    let mut fs = cblang::RealFilesystem::new();
    fs.record_path("main.cb", Ok("/w/main.cb".to_string()));
    fs.record_file("/w/main.cb", None);
    let (mut fs, step) = preprocess_step(fs, "main.cb", &vec![], &vec![]);
    match step {
        PreprocessStep::Load(f) => assert_eq!(f, "/w/main.cb"),
        PreprocessStep::Done(_) => panic!("the reported path has no answer yet"),
    }
    fs.record_path("/w/main.cb", Ok("/w/main.cb".to_string()));
    let (_, step) = preprocess_step(fs, "main.cb", &vec![], &vec![]);
    match step {
        PreprocessStep::Done(Err(e)) => {
            assert_eq!(e.text, "/w/main.cb");
            assert_eq!(e.error, "file \"/w/main.cb\" not found");
        }
        _ => panic!("expected the recorded error"),
    }
}

#[test]
fn preprocess_step_reports_unresolvable_file() {
    let mut fs = cblang::RealFilesystem::new();
    fs.record_path("main.cb", Err("missing".to_string()));
    let (_, step) = preprocess_step(fs, "main.cb", &vec![], &vec![]);
    match step {
        PreprocessStep::Done(Err(e)) => {
            assert!(e.loc.is_none());
            assert_eq!(e.text, "main.cb");
            assert_eq!(e.error, "unable to load file \"main.cb\": missing");
        }
        _ => panic!("expected the recorded error"),
    }
}

#[test]
fn default_system_files_are_included() {
    let sys = vec![
        ("kernel/kdef.cb".to_string(), "kdef".to_string()),
        ("std/list.cb".to_string(), "list".to_string()),
    ];
    let out = preprocess_code_std(
        "#include <kernel/kdef.cb>\n#ifexist <std/list.cb>\nhas list\n#endif\nmain",
        vec![],
        &sys,
    )
    .unwrap();
    assert_eq!(
        texts(&out),
        vec!["kdef".to_string(), "has list".to_string(), "main".to_string()]
    );
    let state = PreprocessorState::new(VirtualFilesystem::empty(), &sys);
    assert_eq!(state.system_fs.read_file("std/list.cb").unwrap(), "list");
    assert!(state.system_fs.file_exists("kernel/kdef.cb"));
    assert!(!state.system_fs.file_exists("kernel/other.cb"));
}

#[test]
fn text_without_comment_characters_is_unchanged() {
    let text = "a * b\n\"x\" + c";
    let r = State::remove_comments(text, "f.cb").unwrap();
    assert_eq!(r, text);
}

#[test]
fn define_inside_inactive_block_still_defines() {
    let out = preprocess_code_std("#ifdef NOPE\n#define X = 1 \n#endif\nv=${X}", vec![], &vec![]).unwrap();
    assert_eq!(texts(&out), vec!["v=1".to_string()]);
}

#[test]
fn disk_file_reads_as_its_text() {
    let text = "#define A=1\n// note\nv=${A}\nw";
    let mut fs = cblang::RealFilesystem::new();
    fs.record_path("m.cb", Ok("/w/m.cb".to_string()));
    fs.record_file("/w/m.cb", Some(Ok(text.to_string())));
    let defs = vec!["D".to_string()];
    let (_, step) = preprocess_step(fs, "m.cb", &defs, &vec![]);
    let alone = preprocess_code_as_file(text, "m.cb", defs.clone(), &vec![]).unwrap();
    match step {
        PreprocessStep::Done(Ok(out)) => {
            assert_eq!(texts(&out), texts(&alone));
            assert_eq!(out.get_lines()[1].loc.line, alone.get_lines()[1].loc.line);
            assert_eq!(out.get_lines()[1].loc.file, "m.cb");
        }
        _ => panic!("expected the preprocessed lines"),
    }
}

#[test]
fn include_paths_keep_the_written_directory() {
    let mut fs = VirtualFilesystem::empty();
    fs.add_file("a/b/main.cb", "#include x.cb\n#include ../y.cb").unwrap();
    fs.add_file("a/b/x.cb", "x").unwrap();
    fs.add_file("a/y.cb", "y").unwrap();
    let out = preprocess_code_with_fs("a/./b/main.cb", fs, vec![], &vec![]).unwrap();
    assert_eq!(texts(&out), vec!["x".to_string(), "y".to_string()]);
    assert_eq!(out.get_lines()[0].loc.file, "a/./b/x.cb");
    assert_eq!(out.get_lines()[1].loc.file, "a/y.cb");
}

#[test]
fn include_paths_trim_trailing_separators_of_the_parent() {
    let mut fs = VirtualFilesystem::empty();
    fs.add_file("a//b/./main.cb", "#include ../y.cb\n#include nope.cb").unwrap();
    fs.add_file("a/y.cb", "y").unwrap();
    let e = preprocess_code_with_fs("a//b/./main.cb", fs, vec![], &vec![]).unwrap_err();
    assert_eq!(e.text, "a//b/nope.cb");
    let mut fs2 = VirtualFilesystem::empty();
    fs2.add_file("main.cb", "#include ./m.cb\n#include ../up.cb").unwrap();
    fs2.add_file("m.cb", "m").unwrap();
    let e2 = preprocess_code_with_fs("main.cb", fs2, vec![], &vec![]).unwrap_err();
    assert_eq!(e2.text, "../up.cb");
}

#[test]
fn replacement_keys_apply_in_turn() {
    let mut defs = Definitions::new();
    defs.insert("A".to_string(), "${B}".to_string());
    defs.insert("B".to_string(), "2".to_string());
    let line: Vec<char> = "x ${A} ${A}".chars().collect();
    let keys = vec!["A".to_string(), "B".to_string(), "C".to_string()];
    let r: String = apply_replacement_keys(&line, &keys, &defs).into_iter().collect();
    assert_eq!(r, "x 2 2");
    let only_b = vec!["B".to_string()];
    let r2: String = apply_replacement_keys(&line, &only_b, &defs).into_iter().collect();
    assert_eq!(r2, "x ${A} ${A}");
}

#[test]
fn recorded_reads_stay_and_are_shared_by_spellings() {
    let mut fs = cblang::RealFilesystem::new();
    fs.record_path("a.cb", Ok("/w/a.cb".to_string()));
    fs.record_file("/w/a.cb", Some(Ok("first".to_string())));
    fs.record_file("/w/a.cb", Some(Ok("second".to_string())));
    fs.record_path("a.cb", Ok("/w/other.cb".to_string()));
    assert_eq!(fs.read_file("a.cb").unwrap(), "first");
    fs.record_path("sub/../a.cb", Ok("/w//a.cb".to_string()));
    assert!(fs.has_answer("sub/../a.cb"));
    assert_eq!(fs.read_file("sub/../a.cb").unwrap(), "first");
}

#[test]
fn overlay_mixes_memory_and_disk_layers() {
    let mut disk = cblang::RealFilesystem::new();
    disk.record_path("lib.cb", Ok("/inc/lib.cb".to_string()));
    disk.record_file("/inc/lib.cb", Some(Ok("from disk".to_string())));
    let mut mem = VirtualFilesystem::empty();
    mem.add_file("app.cb", "from memory").unwrap();
    let mut overlay = OverlayFilesystem::new();
    overlay.systems.push(cblang::FilesystemLayer::Real(disk));
    overlay.systems.push(cblang::FilesystemLayer::Virtual(mem));
    assert_eq!(overlay.read_file("lib.cb").unwrap(), "from disk");
    assert_eq!(overlay.read_file("app.cb").unwrap(), "from memory");
    assert!(overlay.file_exists("lib.cb"));
    assert!(!overlay.file_exists("none.cb"));
}

#[test]
fn removing_comments_twice_changes_nothing() {
    let s = "a /* x /* y */ z */ \"//k\" // end\n/**//b*/ c '/*' d";
    let once = State::remove_comments(s, "f.cb").unwrap();
    let twice = State::remove_comments(&once, "f.cb").unwrap();
    assert_eq!(once, twice);
    assert!(once.contains("\"//k\""));
}
