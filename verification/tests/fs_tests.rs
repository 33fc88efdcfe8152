use libhupa::changed_from;
use libhupa::check_older;
use libhupa::copy_dir;
use libhupa::stale_from;
use libhupa::get_size;
use libhupa::parent_of;
use libhupa::replace_prefix;
use libhupa::Error;

#[test]
fn replace_prefix_swaps_the_root() {
    assert_eq!(
        replace_prefix("/a/b/c", "/a", "/x"),
        Some("/x/b/c".to_string())
    );
    assert_eq!(replace_prefix("/a", "/a", "/x"), Some("/x".to_string()));
    assert_eq!(replace_prefix("/a/b", "/z", "/x"), None);
    assert_eq!(replace_prefix("/a", "/a/b/c", "/x"), None);
}

#[test]
fn parent_of_cuts_at_last_slash() {
    assert_eq!(parent_of("/a/b/c"), Some("/a/b"));
    assert_eq!(parent_of("/a"), Some("/"));
    assert_eq!(parent_of("plain"), None);
}

#[test]
fn copy_dir_copies_files_and_reports_bytes() {
    let _ = fs_extra::dir::remove("/tmp/hupa_cp_from");
    let _ = fs_extra::dir::remove("/tmp/hupa_cp_to");
    fs_extra::dir::create_all("/tmp/hupa_cp_from/sub", true).unwrap();
    fs_extra::file::write_all("/tmp/hupa_cp_from/a", "12345").unwrap();
    fs_extra::file::write_all("/tmp/hupa_cp_from/sub/b", "678").unwrap();
    let copied = copy_dir("/tmp/hupa_cp_from", "/tmp/hupa_cp_to").unwrap();
    assert_eq!(copied, 8);
    assert_eq!(
        fs_extra::file::read_to_string("/tmp/hupa_cp_to/sub/b").unwrap(),
        "678"
    );
    assert_eq!(get_size("/tmp/hupa_cp_to").unwrap(), 8);
}

#[test]
fn copy_dir_missing_source_fails() {
    let _ = fs_extra::dir::remove("/tmp/hupa_cp_none");
    let r = copy_dir("/tmp/hupa_cp_none", "/tmp/hupa_cp_none_to");
    assert!(matches!(r, Err(Error::Io(_))));
}

#[test]
fn get_size_counts_single_file() {
    let _ = fs_extra::dir::remove("/tmp/hupa_size");
    fs_extra::dir::create_all("/tmp/hupa_size", true).unwrap();
    fs_extra::file::write_all("/tmp/hupa_size/only", "abcd").unwrap();
    assert_eq!(get_size("/tmp/hupa_size/only").unwrap(), 4);
    assert_eq!(get_size("/tmp/hupa_size").unwrap(), 4);
    assert!(get_size("/tmp/hupa_size/absent").is_err());
}

#[test]
fn stale_decision_on_gathered_values() {
    // A missing side is stale.
    assert!(stale_from(false, true, 0, 0, &Vec::new()));
    assert!(stale_from(true, false, 0, 0, &Vec::new()));
    // A newer source root is stale; an equal or older one is not.
    assert!(stale_from(true, true, 7, 6, &Vec::new()));
    assert!(!stale_from(true, true, 6, 6, &Vec::new()));
    assert!(!stale_from(true, true, 5, 6, &Vec::new()));
    // A missing or newer entry is stale; matched entries are not.
    assert!(stale_from(true, true, 5, 6, &vec![(true, 1, 1), (false, 0, 0)]));
    assert!(stale_from(true, true, 5, 6, &vec![(true, 1, 1), (true, 9, 2)]));
    assert!(!stale_from(true, true, 5, 6, &vec![(true, 1, 1), (true, 2, 2)]));
}

#[test]
fn changed_decision_on_gathered_values() {
    assert!(changed_from(10, 11, false));
    assert!(changed_from(10, 10, true));
    assert!(!changed_from(10, 10, false));
}

#[test]
fn check_older_sees_newer_source_entries() {
    let _ = fs_extra::dir::remove("/tmp/hupa_old_src");
    let _ = fs_extra::dir::remove("/tmp/hupa_old_dst");
    fs_extra::dir::create_all("/tmp/hupa_old_src", true).unwrap();
    fs_extra::file::write_all("/tmp/hupa_old_src/f", "v").unwrap();
    assert_eq!(check_older("/tmp/hupa_old_src", "/tmp/hupa_old_dst").unwrap(), true);
    copy_dir("/tmp/hupa_old_src", "/tmp/hupa_old_dst").unwrap();
    utime::set_file_times("/tmp/hupa_old_src", 1000, 1000).unwrap();
    utime::set_file_times("/tmp/hupa_old_src/f", 1000, 1000).unwrap();
    assert_eq!(check_older("/tmp/hupa_old_src", "/tmp/hupa_old_dst").unwrap(), false);
    utime::set_file_times("/tmp/hupa_old_src/f", 9999999999, 9999999999).unwrap();
    assert_eq!(check_older("/tmp/hupa_old_src", "/tmp/hupa_old_dst").unwrap(), true);
}
