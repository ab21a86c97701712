use memflow_reclass::config::{default_bool_true, default_string_info, log_level_from_str, Config, LogLevel};
use memflow_reclass::host::{
    effective_address, module_records, process_records, section_records, ModuleEntry, ProcessEntry,
};
use memflow_reclass::memflow_wrapper::{
    open_subject, subject_handle, Memflow, Registry, Subject, NTOSKRNL_HANDLE, NTOSKRNL_PID,
};
use memflow_reclass::reclass::path_from_str;

fn bridge() -> Memflow<&'static str, String> {
    Memflow::new(Config::default(), "kernel")
}

#[test]
fn close_twice_is_harmless_and_invalidates() {
    let mut m = bridge();
    let h = m.open_process(1000, "proc".to_string());
    assert_eq!(m.subject(h as usize), Some(Subject::Process(1000)));
    m.close_remote(h as usize);
    m.close_remote(h as usize);
    assert_eq!(m.subject(h as usize), None);
    assert!(!m.is_open(h));
}

#[test]
fn kernel_handle_survives_close() {
    let mut m = bridge();
    m.close_remote(NTOSKRNL_HANDLE);
    assert_eq!(m.subject(NTOSKRNL_HANDLE), Some(Subject::Kernel));
}

#[test]
fn unknown_handle_refers_to_nothing() {
    let m = bridge();
    assert_eq!(m.subject(77), None);
}

#[test]
fn two_processes_get_distinct_handles() {
    let mut m = bridge();
    let a = m.open_process(100, "a".to_string());
    let b = m.open_process(200, "b".to_string());
    assert_ne!(a, b);
    assert_eq!(a, 100);
    assert_eq!(b, 200);
    assert_eq!(m.get_process_mut(a).map(|p| p.clone()), Some("a".to_string()));
    assert_eq!(m.get_process_mut(b).map(|p| p.clone()), Some("b".to_string()));
    assert!(m.get_process_mut(300).is_none());
}

#[test]
fn process_view_can_be_changed_in_place() {
    let mut m = bridge();
    m.open_process(5, "x".to_string());
    if let Some(p) = m.get_process_mut(5) {
        p.push('y');
    }
    assert_eq!(m.handles.get(&5).cloned(), Some("xy".to_string()));
    *m.get_kernel_mut() = "other";
    assert_eq!(m.os, "other");
}

#[test]
fn opening_the_kernel_pid_does_not_use_the_backend() {
    assert_eq!(open_subject(NTOSKRNL_PID), Subject::Kernel);
    assert_eq!(open_subject(1234), Subject::Process(1234));
    assert_eq!(subject_handle(Subject::Kernel), NTOSKRNL_HANDLE);
    assert_eq!(subject_handle(Subject::Process(1234)), 1234);
}

#[test]
fn registry_retries_after_failed_init() {
    let mut r: Registry<u32> = Registry::new();
    assert!(!r.is_ready());
    assert!(!r.install::<&str>(Err("no connector")));
    assert!(r.get_mut().is_none());
    assert!(r.install::<&str>(Ok(7)));
    assert!(r.install::<&str>(Ok(9)));
    assert_eq!(r.get_mut().copied(), Some(7));
}

#[test]
fn process_list_starts_with_kernel_and_skips_failures() {
    let procs = vec![
        Some(ProcessEntry { pid: 10, name: "a.exe".to_string(), path: "C:\\a.exe".to_string() }),
        None,
        Some(ProcessEntry { pid: 30, name: "c.exe".to_string(), path: "C:\\c.exe".to_string() }),
    ];
    let recs = process_records(&procs);
    assert_eq!(recs.len(), 3);
    assert_eq!(recs[0].pid, 4);
    assert_eq!(recs[0].name, path_from_str("ntoskrnl.exe"));
    assert_eq!(recs[0].path, path_from_str("\\SystemRoot\\system32\\ntoskrnl.exe"));
    assert_eq!(recs[1].pid, 10);
    assert_eq!(recs[1].name, path_from_str("a.exe"));
    assert_eq!(recs[2].pid, 30);
    assert_eq!(recs[2].path, path_from_str("C:\\c.exe"));
}

#[test]
fn all_processes_skipped_gives_only_kernel() {
    let recs = process_records(&vec![None, None]);
    assert_eq!(recs.len(), 1);
    assert_eq!(recs[0].pid, 4);
}

#[test]
fn without_translation_no_section_but_modules() {
    let sections = section_records(true, None);
    assert_eq!(sections.len(), 0);
    let modules = vec![
        ModuleEntry { base: 0x400000, size: 0x1000, path: "C:\\main.exe".to_string() },
        ModuleEntry { base: 0x7ff00000, size: 0x2000, path: "C:\\lib.dll".to_string() },
    ];
    let recs = module_records(&modules);
    assert_eq!(recs.len(), 2);
    assert_eq!(recs[0].base_address, 0x400000);
    assert_eq!(recs[0].size, 0x1000);
    assert_eq!(recs[0].path, path_from_str("C:\\main.exe"));
    assert_eq!(recs[1].base_address, 0x7ff00000);
    assert_eq!(recs[1].path, path_from_str("C:\\lib.dll"));
}

#[test]
fn sections_follow_the_coalesced_page_map() {
    let pm = vec![(0x2000u64, 0x1000u64), (0x1000, 0x1000), (0x5000, 0x2000)];
    let recs = section_records(true, Some(pm.clone()));
    assert_eq!(recs.len(), 2);
    assert_eq!((recs[0].base_address, recs[0].size), (0x1000, 0x2000));
    assert_eq!((recs[1].base_address, recs[1].size), (0x5000, 0x2000));
    assert_eq!(recs[1].protection, 3);
    assert_eq!(section_records(false, Some(pm)).len(), 0);
}

#[test]
fn address_plus_offset_wraps() {
    assert_eq!(effective_address(0x1000, 0x10), 0x1010);
    assert_eq!(effective_address(0x1000, -0x10), 0xff0);
    assert_eq!(effective_address(0, -1), u64::MAX);
    assert_eq!(effective_address(u64::MAX, 2), 1);
}

#[test]
fn default_config() {
    let c = Config::default();
    assert_eq!(c.connector, "");
    assert_eq!(c.args, "");
    assert_eq!(c.log_level, "info");
    assert!(!c.parse_sections);
    let d = c.copy();
    assert_eq!(d.log_level, "info");
    assert_eq!(default_string_info(), "info");
    assert!(default_bool_true());
}

#[test]
fn log_level_names_in_any_case() {
    assert_eq!(log_level_from_str("ERROR"), LogLevel::Error);
    assert_eq!(log_level_from_str("Warn"), LogLevel::Warn);
    assert_eq!(log_level_from_str("info"), LogLevel::Info);
    assert_eq!(log_level_from_str("DeBuG"), LogLevel::Debug);
    assert_eq!(log_level_from_str("trace"), LogLevel::Trace);
    assert_eq!(log_level_from_str("off"), LogLevel::Off);
    assert_eq!(log_level_from_str("verbose"), LogLevel::Off);
}
