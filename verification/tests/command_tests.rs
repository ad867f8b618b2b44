use kindle_mtp::cli::{Command, HumanReadable, Output};
use kindle_mtp::commands::{
    plan_pull, run_info, run_ls, run_status, LsEntry, LsOutput, PullOutput, PullPlan,
};
use kindle_mtp::device::{
    is_kindle_vendor, kindle_info_from, storage_info_from, FileEntry, KindleInfo, StorageInfo,
};
use kindle_mtp::error::Error;
use kindle_mtp::resolver::{resolve_error_to_error, ResolveError};
use kindle_mtp::text::dec_string;

fn sample_info() -> KindleInfo {
    KindleInfo {
        manufacturer: "Amazon".to_string(),
        model: "Kindle".to_string(),
        serial: "G000".to_string(),
        friendly_name: "My Kindle".to_string(),
    }
}

fn sample_storage() -> StorageInfo {
    StorageInfo {
        description: "Internal Storage".to_string(),
        total_bytes: 6_000_000_000,
        free_bytes: 4_500_000_000,
    }
}

#[test]
fn output_format_follows_the_flags() {
    let o = Output::new(true, false);
    assert!(o.is_json());
    assert!(!o.is_quiet());
    let o = Output::new(false, true);
    assert!(!o.is_json());
    assert!(o.is_quiet());
}

#[test]
fn run_info_carries_the_metadata_through() {
    let out = run_info(sample_info(), sample_storage());
    assert_eq!(out.device.as_str(), "My Kindle");
    assert_eq!(out.manufacturer.as_str(), "Amazon");
    assert_eq!(out.model.as_str(), "Kindle");
    assert_eq!(out.serial.as_str(), "G000");
    assert_eq!(out.storage_description.as_str(), "Internal Storage");
    assert_eq!(out.total_bytes, 6_000_000_000);
    assert_eq!(out.free_bytes, 4_500_000_000);
}

#[test]
fn run_status_reports_a_connected_device() {
    let out = run_status(sample_info(), sample_storage());
    assert!(out.connected);
    assert_eq!(out.model.as_str(), "My Kindle");
    assert_eq!(out.free_bytes, 4_500_000_000);
    assert_eq!(out.total_bytes, 6_000_000_000);
}

#[test]
fn run_ls_keeps_adapter_order_and_drops_identifiers() {
    let files = vec![
        FileEntry { name: "b".to_string(), size: 2, is_folder: false, id: 9 },
        FileEntry { name: "A".to_string(), size: 0, is_folder: true, id: 5 },
    ];
    let out = run_ls("/".to_string(), files);
    assert_eq!(out.path.as_str(), "/");
    assert_eq!(out.entries.len(), 2);
    assert_eq!(out.entries[0].name.as_str(), "b");
    assert_eq!(out.entries[0].size, 2);
    assert!(!out.entries[0].is_folder);
    assert_eq!(out.entries[1].name.as_str(), "A");
    assert!(out.entries[1].is_folder);
}

#[test]
fn ls_human_rendering_marks_folders() {
    let out = run_ls(
        "/".to_string(),
        vec![
            FileEntry { name: "Documents".to_string(), size: 0, is_folder: true, id: 1 },
            FileEntry { name: "readme.txt".to_string(), size: 3, is_folder: false, id: 2 },
        ],
    );
    assert_eq!(out.to_human().as_str(), "Documents/\nreadme.txt");
}

#[test]
fn ls_human_rendering_of_nothing_is_empty_marker() {
    let out = LsOutput { path: "/".to_string(), entries: vec![] };
    assert_eq!(out.to_human().as_str(), "(empty)");
}

#[test]
fn ls_entry_from_strips_the_identifier() {
    let e = LsEntry::from(FileEntry {
        name: "novel.azw3".to_string(),
        size: 1024,
        is_folder: false,
        id: 42,
    });
    assert_eq!(e.name.as_str(), "novel.azw3");
    assert_eq!(e.size, 1024);
    assert!(!e.is_folder);
}

#[test]
fn pull_human_rendering_reports_the_transfer() {
    let out = PullOutput {
        remote: "/eBooks/novel.azw3".to_string(),
        local: "/tmp/novel.azw3".to_string(),
        bytes: 1024,
    };
    assert_eq!(
        out.to_human().as_str(),
        "Downloaded /eBooks/novel.azw3 -> /tmp/novel.azw3 (1024 bytes)"
    );
}

#[test]
fn pull_into_directory_takes_the_remote_file_name() {
    match plan_pull("/eBooks/novel.azw3", true, false) {
        Ok(PullPlan::IntoDirectory(name)) => assert_eq!(name.as_str(), "novel.azw3"),
        other => panic!("expected IntoDirectory, got {:?}", other),
    }
}

#[test]
fn pull_to_explicit_file_is_used_as_given() {
    assert!(matches!(
        plan_pull("/eBooks/novel.azw3", false, false),
        Ok(PullPlan::AsGiven)
    ));
}

#[test]
fn pull_with_no_derivable_file_name_is_invalid() {
    match plan_pull("/eBooks/", true, false) {
        Err(Error::InvalidPath(m)) => assert_eq!(m.as_str(), "Invalid remote path"),
        other => panic!("expected InvalidPath, got {:?}", other),
    }
}

#[test]
fn recursive_pull_is_not_implemented() {
    match plan_pull("/eBooks", true, true) {
        Err(Error::Mtp(m)) => assert_eq!(m.as_str(), "Recursive download not yet implemented"),
        other => panic!("expected Mtp, got {:?}", other),
    }
}

#[test]
fn transfer_into_a_directory_lands_under_the_remote_name() {
    // the remote path resolves to the file, the directory destination takes
    // its name, and the report carries the bytes measured after the write
    let store = kindle_mtp::store::ObjectStore {
        root: vec![FileEntry { name: "eBooks".to_string(), size: 0, is_folder: true, id: 2 }],
        folders: vec![(
            2,
            vec![FileEntry { name: "novel.azw3".to_string(), size: 1024, is_folder: false, id: 42 }],
        )],
    };
    assert_eq!(store.resolve("/eBooks/novel.azw3").unwrap(), 42);
    let name = match plan_pull("/eBooks/novel.azw3", true, false) {
        Ok(PullPlan::IntoDirectory(name)) => name,
        other => panic!("expected IntoDirectory, got {:?}", other),
    };
    assert_eq!(name.as_str(), "novel.azw3");
    let report = PullOutput {
        remote: "/eBooks/novel.azw3".to_string(),
        local: format!("/tmp/{}", name),
        bytes: 1024,
    };
    assert_eq!(
        report.to_human().as_str(),
        "Downloaded /eBooks/novel.azw3 -> /tmp/novel.azw3 (1024 bytes)"
    );
}

#[test]
fn exit_codes_are_distinct_per_category() {
    assert_eq!(Error::DeviceNotFound.exit_code(), 2);
    assert_eq!(Error::FileNotFound("x".to_string()).exit_code(), 3);
    assert_eq!(Error::PermissionDenied.exit_code(), 4);
    assert_eq!(Error::StorageFull.exit_code(), 5);
    assert_eq!(Error::TransferFailed("x".to_string()).exit_code(), 6);
    assert_eq!(Error::Mtp("x".to_string()).exit_code(), 1);
    assert_eq!(Error::Io("x".to_string()).exit_code(), 1);
    assert_eq!(Error::InvalidPath("x".to_string()).exit_code(), 1);
}

#[test]
fn resolve_errors_map_to_the_operation_surface() {
    match resolve_error_to_error(ResolveError::NotFound("seg".to_string())) {
        Error::FileNotFound(m) => assert_eq!(m.as_str(), "seg"),
        other => panic!("expected FileNotFound, got {:?}", other),
    }
    match resolve_error_to_error(ResolveError::NotADirectory("seg".to_string())) {
        Error::InvalidPath(m) => assert_eq!(m.as_str(), "seg"),
        other => panic!("expected InvalidPath, got {:?}", other),
    }
    match resolve_error_to_error(ResolveError::RootUnaddressable) {
        Error::InvalidPath(m) => assert_eq!(m.as_str(), "Cannot resolve root path to ID"),
        other => panic!("expected InvalidPath, got {:?}", other),
    }
}

#[test]
fn decimal_rendering_is_exact() {
    assert_eq!(dec_string(0).as_str(), "0");
    assert_eq!(dec_string(7).as_str(), "7");
    assert_eq!(dec_string(10).as_str(), "10");
    assert_eq!(dec_string(1024).as_str(), "1024");
    assert_eq!(dec_string(18_446_744_073_709_551_615).as_str(), "18446744073709551615");
}

#[test]
fn device_metadata_falls_back_to_documented_defaults() {
    let info = kindle_info_from(None, None, None, None);
    assert_eq!(info.manufacturer.as_str(), "Unknown");
    assert_eq!(info.model.as_str(), "Unknown");
    assert_eq!(info.serial.as_str(), "");
    assert_eq!(info.friendly_name.as_str(), "Kindle");
    let info = kindle_info_from(
        Some("Amazon".to_string()),
        Some("KPW5".to_string()),
        Some("S1".to_string()),
        Some("Paperwhite".to_string()),
    );
    assert_eq!(info.manufacturer.as_str(), "Amazon");
    assert_eq!(info.model.as_str(), "KPW5");
    assert_eq!(info.serial.as_str(), "S1");
    assert_eq!(info.friendly_name.as_str(), "Paperwhite");
    let st = storage_info_from(None, 10, 5);
    assert_eq!(st.description.as_str(), "Internal Storage");
    assert_eq!(st.total_bytes, 10);
    assert_eq!(st.free_bytes, 5);
}

#[test]
fn vendor_filter_accepts_only_the_expected_id() {
    assert!(is_kindle_vendor(0x1949));
    assert!(!is_kindle_vendor(0x18d1));
}

#[test]
fn command_values_carry_their_arguments() {
    let c = Command::Ls { path: "/eBooks".to_string(), long: true };
    match c {
        Command::Ls { path, long } => {
            assert_eq!(path.as_str(), "/eBooks");
            assert!(long);
        },
        _ => unreachable!(),
    }
    let c = Command::Pull {
        remote: "/a".to_string(),
        local: ".".to_string(),
        recursive: false,
    };
    assert!(matches!(c, Command::Pull { .. }));
}
