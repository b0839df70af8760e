use cblang::code_window::{
    assembly_listing, link_export_region, CodeWindow, CodeWindowType, TokenErrorContext, TokenSpan,
};
use cblang::computer::BuildDateTime;
use cblang::memory_view::{MemoryViewWindow, MEMORY_SIZE};
use cblang::numbers::{parse_i16, parse_unsigned_chars};
use cblang::visual::{register_label, ProgramCounterView, ThreadToUi, UiToThread, VisualJib};
use cblang::{preprocess_code_with_fs, JibOsImage, VirtualFilesystem};

fn chars(s: &str) -> Vec<char> {
    s.chars().collect()
}

#[test]
fn memory_view_starts_empty() {
    let w = MemoryViewWindow::new(3);
    assert_eq!(w.id(), 3);
    assert_eq!(w.base(), 0);
    assert_eq!(w.base_text(), "0");
    assert!(w.shown());
    assert_eq!(w.size(), 48);
    assert_eq!(w.cell_text(0), "??");
    assert_eq!(w.request(), (0, 48));
}

#[test]
fn memory_view_hex_base() {
    let mut w = MemoryViewWindow::new(0);
    w.set_base_text("0x1F00".to_string());
    w.commit_base_text();
    assert_eq!(w.base(), 0x1f00);
    assert_eq!(w.base_text(), "0x1f00");
}

#[test]
fn memory_view_decimal_base() {
    let mut w = MemoryViewWindow::new(0);
    w.set_base_text("+256".to_string());
    w.commit_base_text();
    assert_eq!(w.base(), 256);
    assert_eq!(w.base_text(), "0x100");
}

#[test]
fn memory_view_bad_base_keeps_old_one() {
    let mut w = MemoryViewWindow::new(0);
    w.set_base_text("4096".to_string());
    w.commit_base_text();
    w.set_base_text("0xzz".to_string());
    w.commit_base_text();
    assert_eq!(w.base(), 4096);
    assert_eq!(w.base_text(), "0x1000");
    w.set_base_text("4294967296".to_string());
    w.commit_base_text();
    assert_eq!(w.base(), 4096);
    w.set_base_text(" 12".to_string());
    w.commit_base_text();
    assert_eq!(w.base(), 4096);
}

#[test]
fn memory_view_written_base_reads_back() {
    let mut w = MemoryViewWindow::new(0);
    w.set_base_text("0xdeadbeef".to_string());
    w.commit_base_text();
    let shown = w.base_text();
    w.set_base_text(shown);
    w.commit_base_text();
    assert_eq!(w.base(), 0xdeadbeef);
    assert_eq!(w.base_text(), "0xdeadbeef");
}

#[test]
fn memory_view_fill_and_cells() {
    let mut w = MemoryViewWindow::new(0);
    w.fill(&vec![0x0a, 0xff, 0x00]);
    assert_eq!(w.value_at(0), Some(0x0a));
    assert_eq!(w.cell_text(0), "0a");
    assert_eq!(w.cell_text(1), "ff");
    assert_eq!(w.cell_text(2), "00");
    assert_eq!(w.cell_text(3), "??");
    assert_eq!(w.value_at(MEMORY_SIZE - 1), None);
}

#[test]
fn memory_view_row_labels() {
    let mut w = MemoryViewWindow::new(0);
    w.set_base_text("0x10".to_string());
    w.commit_base_text();
    assert_eq!(w.row_label(0), "0x00000010");
    assert_eq!(w.row_label(5), "0x00000038");
}

#[test]
fn parse_numbers_like_std() {
    assert_eq!(parse_unsigned_chars(&chars("ff"), 16, u32::MAX), Some(255));
    assert_eq!(parse_unsigned_chars(&chars("FF"), 16, u32::MAX), Some(255));
    assert_eq!(parse_unsigned_chars(&chars("+7"), 10, u32::MAX), Some(7));
    assert_eq!(parse_unsigned_chars(&chars("+"), 10, u32::MAX), None);
    assert_eq!(parse_unsigned_chars(&chars(""), 10, u32::MAX), None);
    assert_eq!(parse_unsigned_chars(&chars("-1"), 10, u32::MAX), None);
    assert_eq!(parse_unsigned_chars(&chars("256"), 10, 255), None);
    assert_eq!(parse_unsigned_chars(&chars("4294967295"), 10, u32::MAX), Some(u32::MAX));
    assert_eq!(parse_i16(&chars("-32768")), Some(-32768));
    assert_eq!(parse_i16(&chars("32768")), None);
    assert_eq!(parse_i16(&chars("-+1")), None);
    assert_eq!(parse_i16(&chars("2024")), Some(2024));
}

#[test]
fn build_datetime_fields() {
    let t = JibOsImage::build_datetime("2024-03-09 17:05:59");
    assert_eq!(
        t,
        BuildDateTime {
            year: 2024,
            month: 3,
            day: 9,
            hour: 17,
            minute: 5,
            second: 59,
            hundredths: 0
        }
    );
    let u = JibOsImage::build_datetime("x-13-y z:300:7");
    assert_eq!(u.year, 0);
    assert_eq!(u.month, 13);
    assert_eq!(u.day, 0);
    assert_eq!(u.minute, 0);
    assert_eq!(u.second, 7);
}

#[test]
fn code_window_titles() {
    let w = CodeWindow::new(4, (), String::new(), CodeWindowType::Cbuoy, Some("os.cb".to_string()));
    assert_eq!(w.id, "C/Buoy 4 (os.cb)");
    assert_eq!(w.action_label(), "Compile");
    assert_eq!(w.source_path(), "os.cb");
    let a = CodeWindow::new(0, (), String::new(), CodeWindowType::Assembly, None);
    assert_eq!(a.id, "ASM 0");
    assert_eq!(a.action_label(), "Assemble");
    assert_eq!(a.source_path(), "code.cb");
}

#[test]
fn export_region_is_linked() {
    let code = vec![0u8; 12];
    let vars = vec![
        ("K_LINK_EXPORT_DATA".to_string(), 0x1000u32),
        ("OTHER".to_string(), 0x1004u32),
        ("K_LINK_EXPORT_SIZE".to_string(), 0x1008u32),
    ];
    let linked = link_export_region(code, 0x1000, &vars, vec![0xaa, 0xbb]);
    assert_eq!(
        linked,
        vec![0, 0, 0x10, 0x0c, 0, 0, 0, 0, 0, 0, 0, 2, 0xaa, 0xbb]
    );
}

#[test]
fn export_region_needs_both_names() {
    let vars = vec![("K_LINK_EXPORT_DATA".to_string(), 0u32)];
    let linked = link_export_region(vec![1, 2, 3, 4], 0, &vars, vec![9]);
    assert_eq!(linked, vec![1, 2, 3, 4]);
}

#[test]
fn token_error_points_at_token() {
    let fs = VirtualFilesystem::new("int x = 1;\nint y = @;", "main.cb");
    let out = preprocess_code_with_fs("main.cb", fs, vec![], &vec![]).unwrap();
    let e = TokenErrorContext {
        message: "unexpected character".to_string(),
        token: Some(TokenSpan {
            file: Some("main.cb".to_string()),
            line: 2,
            column: 8,
            width: 1,
        }),
        preprocessed: Some(out),
    };
    assert_eq!(
        e.get_error_string(),
        format!(
            "CB: unexpected character\nmain.cb::2 >> int y = @;\nmain.cb::2    {}^",
            " ".repeat(8)
        )
    );
    let bare = TokenErrorContext {
        message: "oops".to_string(),
        token: None,
        preprocessed: None,
    };
    assert_eq!(bare.get_error_string(), "CB: oops");
}

#[test]
fn ui_reads_reports() {
    let mut ui: VisualJib<()> = VisualJib::new(4);
    assert!(ui.read_cpu_response(ThreadToUi::LogMessage("one".to_string())));
    assert!(ui.read_cpu_response(ThreadToUi::LogMessage("two".to_string())));
    assert_eq!(ui.log_text, "one\ntwo");
    ui.read_cpu_response(ThreadToUi::SerialOutput("ab".to_string()));
    ui.read_cpu_response(ThreadToUi::SerialOutput("c".to_string()));
    assert_eq!(ui.log_serial, "abc");
    ui.read_cpu_response(ThreadToUi::ProcessorReset);
    assert_eq!(ui.log_serial, "");
    ui.read_cpu_response(ThreadToUi::ProgramCounterValue(0x2000, 7));
    assert_eq!(ui.program_counter, ProgramCounterView { pc: 0x2000, val: 7 });
    ui.read_cpu_response(ThreadToUi::CpuRunning(true));
    assert!(ui.cpu_run_requested);
    ui.read_cpu_response(ThreadToUi::BootloaderState(true));
    assert!(ui.use_bootloader);
    ui.read_cpu_response(ThreadToUi::RegisterState(vec![1, 2]));
    assert_eq!(ui.registers, vec![1, 2]);
    assert!(!ui.read_cpu_response(ThreadToUi::ThreadExit));
}

#[test]
fn ui_fills_memory_views_of_the_base() {
    let mut ui: VisualJib<()> = VisualJib::new(0);
    ui.open_memory_window();
    ui.open_memory_window();
    ui.memory_windows[1].set_base_text("16".to_string());
    ui.memory_windows[1].commit_base_text();
    ui.read_cpu_response(ThreadToUi::ResponseMemory(16, vec![5, 6]));
    assert_eq!(ui.memory_windows[0].value_at(0), None);
    assert_eq!(ui.memory_windows[1].value_at(1), Some(6));
    let reqs = ui.memory_requests();
    assert_eq!(reqs.len(), 2);
    assert!(matches!(reqs[0], UiToThread::RequestMemory(0, 48)));
    assert!(matches!(reqs[1], UiToThread::RequestMemory(16, 48)));
}

#[test]
fn ui_removes_closed_windows() {
    let mut ui: VisualJib<u8> = VisualJib::new(0);
    ui.open_code_window(1, CodeWindowType::Cbuoy, String::new(), None);
    ui.open_code_window(2, CodeWindowType::Assembly, String::new(), None);
    ui.open_code_window(3, CodeWindowType::Cbuoy, String::new(), None);
    ui.open_memory_window();
    ui.open_memory_window();
    ui.code_windows[0].shown = false;
    ui.memory_windows[1].set_shown(false);
    ui.remove_closed_windows();
    let mut kept: Vec<u8> = ui.code_windows.iter().map(|w| w.channels).collect();
    kept.sort();
    assert_eq!(kept, vec![2, 3]);
    assert_eq!(ui.memory_windows.len(), 1);
    assert_eq!(ui.memory_windows[0].id(), 0);
    assert_eq!(ui.code_window_id, 3);
    assert_eq!(ui.code_windows.iter().filter(|w| w.id == "ASM 1").count(), 1);
    let before: Vec<String> = ui.code_windows.iter().map(|w| w.id.clone()).collect();
    ui.remove_closed_windows();
    let after: Vec<String> = ui.code_windows.iter().map(|w| w.id.clone()).collect();
    assert_eq!(before, after);
}

#[test]
fn ui_controls() {
    let mut ui: VisualJib<()> = VisualJib::new(0);
    let start = ui.startup_requests();
    assert!(matches!(start[0], UiToThread::SetMultiplier(10)));
    assert!(matches!(start[1], UiToThread::UseBootloader(false)));
    assert!(matches!(start[2], UiToThread::CpuRun(true)));
    assert!(matches!(ui.set_cpu_speed(3), UiToThread::SetMultiplier(3)));
    assert_eq!(ui.current_cpu_speed, 3);
    assert!(matches!(ui.set_use_bootloader(true), UiToThread::UseBootloader(true)));
    ui.text_serial_input = "hi".to_string();
    match ui.take_serial_input() {
        UiToThread::SerialInput(s) => assert_eq!(s, "hi"),
        _ => panic!("wrong request"),
    }
    assert_eq!(ui.text_serial_input, "");
    assert_eq!(ui.update_interval_ms(50), 1000);
    ui.cpu_run_requested = true;
    assert_eq!(ui.update_interval_ms(50), 50);
}

#[test]
fn register_and_pc_labels() {
    assert_eq!(register_label(3, 0xbeef), "R03: 0000beef");
    assert_eq!(register_label(12, 0x12345678), "R12: 12345678");
    let mut ui: VisualJib<()> = VisualJib::new(4);
    ui.registers = vec![1, 2, 3, 0xffffffff];
    let rows = ui.register_rows();
    assert_eq!(rows.len(), 2);
    assert_eq!(rows[0], ("R00: 00000001".to_string(), "R02: 00000003".to_string()));
    assert_eq!(rows[1], ("R01: 00000002".to_string(), "R03: ffffffff".to_string()));
    let pc = ProgramCounterView { pc: 0x10, val: 0xabcdef };
    assert_eq!(pc.label(), "PC[0x00000010] = 0x00abcdef");
}

#[test]
fn assembly_listing_joins_both_parts() {
    let lines = vec!["a".to_string(), "b".to_string()];
    let debug = vec!["; d".to_string()];
    assert_eq!(assembly_listing(&lines, &debug), "a\nb\n; d");
    assert_eq!(assembly_listing(&vec![], &vec![]), "\n");
}

#[test]
fn code_window_preprocesses_its_code() {
    let w = CodeWindow::new(0, (), "#define A=x\n${A}y".to_string(), CodeWindowType::Cbuoy, None);
    let out = w.preprocess_code(&vec![]).unwrap();
    assert_eq!(out.get_lines()[0].text, "xy");
    assert_eq!(out.get_lines()[0].loc.file, "code.cb");
    let bad = CodeWindow::new(1, (), "#bogus".to_string(), CodeWindowType::Cbuoy, Some("t.cb".to_string()));
    assert_eq!(
        bad.preprocess_code(&vec![]).unwrap_err(),
        "CB Preprocessor: CBP: [t.cb::1] @ \"#bogus\" => unknown preprocessor action 'bogus' with arg ''"
    );
}

#[test]
fn closing_windows_moves_the_last_into_each_gap() {
    let mut ui: VisualJib<u8> = VisualJib::new(0);
    for c in 0..5u8 {
        ui.open_code_window(c, CodeWindowType::Cbuoy, String::new(), None);
    }
    ui.code_windows[0].shown = false;
    ui.code_windows[2].shown = false;
    ui.remove_closed_windows();
    let order: Vec<u8> = ui.code_windows.iter().map(|w| w.channels).collect();
    assert_eq!(order, vec![4, 1, 3]);
}
