use cargo_install_update::executable::{is_stale_executable, restore_cargo_update_exec};
use cargo_install_update::executable::{restore_cargo_update_exec_impl, save_cargo_update_exec};
use cargo_install_update::executable::{save_cargo_update_exec_impl, ExecFile, FileStep};
use std::collections::HashMap;

fn kept(extension: &str) -> ExecFile {
    ExecFile::Saved { extension: extension.to_string() }
}

fn file_name(file: &ExecFile) -> String {
    match file {
        ExecFile::Current => "cargo-install-update.exe".to_string(),
        ExecFile::Saved { extension } => format!("cargo-install-update.{}", extension),
    }
}

fn apply(files: &mut HashMap<String, String>, steps: &[FileStep]) {
    for step in steps {
        match step {
            FileStep::Rename { from, to } => {
                let held = files.remove(&file_name(from)).unwrap();
                files.insert(file_name(to), held);
            }
            FileStep::Create { file } => {
                files.insert(file_name(file), String::new());
            }
            FileStep::Remove { file } => {
                files.remove(&file_name(file)).unwrap();
            }
        }
    }
}

#[test]
fn the_executable_is_kept_under_its_version() {
    assert_eq!(
        save_cargo_update_exec(true, "1.8.2"),
        vec![
            FileStep::Rename { from: ExecFile::Current, to: kept("exe-v1.8.2") },
            FileStep::Create { file: ExecFile::Current },
        ]
    );
    assert_eq!(
        save_cargo_update_exec_impl("exe-v1.8.2".to_string()),
        save_cargo_update_exec(true, "1.8.2")
    );
}

#[test]
fn the_executable_is_brought_back() {
    assert_eq!(
        restore_cargo_update_exec(true, "1.8.2"),
        vec![
            FileStep::Remove { file: ExecFile::Current },
            FileStep::Rename { from: kept("exe-v1.8.2"), to: ExecFile::Current },
        ]
    );
    assert_eq!(
        restore_cargo_update_exec_impl("exe-v1.8.2".to_string()),
        restore_cargo_update_exec(true, "1.8.2")
    );
}

#[test]
fn other_systems_need_no_steps() {
    assert_eq!(save_cargo_update_exec(false, "1.8.2"), vec![]);
    assert_eq!(restore_cargo_update_exec(false, "1.8.2"), vec![]);
}

#[test]
fn restoring_undoes_saving() {
    let mut files = HashMap::new();
    files.insert("cargo-install-update.exe".to_string(), "running".to_string());
    files.insert("other.exe".to_string(), "other".to_string());
    let before = files.clone();
    apply(&mut files, &save_cargo_update_exec(true, "1.8.2"));
    assert_eq!(files["cargo-install-update.exe-v1.8.2"], "running");
    files.insert("cargo-install-update.exe".to_string(), "broken".to_string());
    apply(&mut files, &restore_cargo_update_exec(true, "1.8.2"));
    assert_eq!(files, before);
}

#[test]
fn kept_executables_are_stale() {
    assert!(is_stale_executable("cargo-install-update.exe-v1.8.2"));
    assert!(is_stale_executable("old-cargo-install-update.exe-v1"));
    assert!(is_stale_executable("cargo-install-update.exe-v\ncargo-install-update.exe-vx"));
    assert!(is_stale_executable("cargo-install-update.exe-v\u{e9}"));
}

#[test]
fn other_files_are_not_stale() {
    assert!(!is_stale_executable("cargo-install-update.exe"));
    assert!(!is_stale_executable("cargo-install-update.exe-v"));
    assert!(!is_stale_executable("cargo-install-update.exe-v\n1"));
    assert!(!is_stale_executable("cargo-install-updateXexe-v1.8.2"));
    assert!(!is_stale_executable("cargo-install-update-config.exe-v1.8.2"));
    assert!(!is_stale_executable(""));
}

#[test]
fn what_is_kept_is_found_as_stale() {
    for step in save_cargo_update_exec(true, "2.0.0") {
        if let FileStep::Rename { to, .. } = step {
            assert!(is_stale_executable(&file_name(&to)));
        }
    }
}
