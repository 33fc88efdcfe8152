use libhupa::Error;
use libhupa::Hupa;
use libhupa::OperationResult;
use libhupa::VarsHandler;

fn fresh_tree(src: &str, file: &str, content: &str) {
    let _ = fs_extra::dir::remove(src);
    fs_extra::dir::create_all(src, true).unwrap();
    let mut path = String::from(src);
    path.push('/');
    path.push_str(file);
    fs_extra::file::write_all(&path, content).unwrap();
}

fn hupa_for(name: &str, category: &str, root: &str, src: &str) -> Hupa {
    Hupa::new(
        name.to_string(),
        "".to_string(),
        vec![category.to_string()],
        root.to_string(),
        src.to_string(),
        false,
        Vec::new(),
    )
}

#[test]
fn backup_scenario_dotfiles() {
    fresh_tree("/tmp/src", "a.txt", "hi");
    let _ = fs_extra::dir::remove("/tmp/bk");
    let hupa = hupa_for("dotfiles", "shell", "/tmp/bk", "/tmp/src");
    let vars = VarsHandler::new(Vec::new());

    let first = hupa.backup(&vars).unwrap();
    assert_eq!(first, OperationResult::Change);
    assert_eq!(
        fs_extra::file::read_to_string("/tmp/bk/shell/dotfiles/a.txt").unwrap(),
        "hi"
    );

    let (_, before) = utime::get_file_times("/tmp/bk/shell/dotfiles").unwrap();
    let second = hupa.backup(&vars).unwrap();
    assert_eq!(second, OperationResult::NoChange);
    let (_, after) = utime::get_file_times("/tmp/bk/shell/dotfiles").unwrap();
    assert_eq!(before, after);

    fs_extra::file::remove("/tmp/src/a.txt").unwrap();
    hupa.restore(&vars).unwrap();
    assert_eq!(fs_extra::file::read_to_string("/tmp/src/a.txt").unwrap(), "hi");
}

#[test]
fn backup_unchanged_is_nochange() {
    fresh_tree("/tmp/hupa_nochange_src", "f", "data");
    let _ = fs_extra::dir::remove("/tmp/hupa_nochange_bk");
    let hupa = hupa_for("item", "cat", "/tmp/hupa_nochange_bk", "/tmp/hupa_nochange_src");
    let vars = VarsHandler::new(Vec::new());
    assert_eq!(hupa.backup(&vars).unwrap(), OperationResult::Change);
    let (_, before) = utime::get_file_times("/tmp/hupa_nochange_bk/cat/item/f").unwrap();
    assert_eq!(hupa.backup(&vars).unwrap(), OperationResult::NoChange);
    let (_, after) = utime::get_file_times("/tmp/hupa_nochange_bk/cat/item/f").unwrap();
    assert_eq!(before, after);
}

#[test]
fn restore_backup_round_trip() {
    fresh_tree("/tmp/hupa_round_src", "f", "content stays");
    let _ = fs_extra::dir::remove("/tmp/hupa_round_bk");
    let hupa = hupa_for("item", "cat", "/tmp/hupa_round_bk", "/tmp/hupa_round_src");
    let vars = VarsHandler::new(Vec::new());
    assert_eq!(hupa.backup(&vars).unwrap(), OperationResult::Change);
    hupa.restore(&vars).unwrap();
    assert_eq!(hupa.backup(&vars).unwrap(), OperationResult::NoChange);
    assert_eq!(
        hupa.get_backup_size().unwrap(),
        hupa.get_origin_size().unwrap()
    );
    assert_eq!(
        fs_extra::file::read_to_string("/tmp/hupa_round_src/f").unwrap(),
        fs_extra::file::read_to_string("/tmp/hupa_round_bk/cat/item/f").unwrap()
    );
}

#[test]
fn delete_backup_idempotent() {
    fresh_tree("/tmp/hupa_del_src", "f", "x");
    let _ = fs_extra::dir::remove("/tmp/hupa_del_bk");
    let hupa = hupa_for("item", "cat", "/tmp/hupa_del_bk", "/tmp/hupa_del_src");
    let vars = VarsHandler::new(Vec::new());
    hupa.backup(&vars).unwrap();
    hupa.delete_backup().unwrap();
    hupa.delete_backup().unwrap();
    assert!(hupa.get_backup_size().is_err());
}

#[test]
fn rename_moves_backup_tree() {
    fresh_tree("/tmp/hupa_mv_src", "f", "kept");
    let _ = fs_extra::dir::remove("/tmp/hupa_mv_bk");
    let mut hupa = hupa_for("before", "cat", "/tmp/hupa_mv_bk", "/tmp/hupa_mv_src");
    let vars = VarsHandler::new(Vec::new());
    hupa.backup(&vars).unwrap();
    hupa.set_name("after".to_string()).unwrap();
    assert!(fs_extra::dir::get_size("/tmp/hupa_mv_bk/cat/before").is_err());
    assert_eq!(
        fs_extra::file::read_to_string("/tmp/hupa_mv_bk/cat/after/f").unwrap(),
        "kept"
    );
}

#[test]
fn missing_flag_blocks_backup() {
    fresh_tree("/tmp/hupa_flag_src", "f", "x");
    let _ = fs_extra::dir::remove("/tmp/hupa_flag_bk");
    let hupa = Hupa::new(
        "item".to_string(),
        "".to_string(),
        vec!["cat".to_string()],
        "/tmp/hupa_flag_bk".to_string(),
        "/tmp/hupa_flag_src".to_string(),
        false,
        vec!["has_gpg".to_string()],
    );
    let vars = VarsHandler::new(Vec::new());
    let r = hupa.backup(&vars);
    assert!(matches!(r, Err(Error::MissingRequiredFlag(n)) if n == "has_gpg"));
    assert!(fs_extra::dir::get_size("/tmp/hupa_flag_bk").is_err());
    let r = hupa.restore(&vars);
    assert!(matches!(r, Err(Error::MissingRequiredFlag(n)) if n == "has_gpg"));
}

#[test]
fn backup_missing_origin_fails() {
    let _ = fs_extra::dir::remove("/tmp/hupa_gone_src");
    let _ = fs_extra::dir::remove("/tmp/hupa_gone_bk");
    let hupa = hupa_for("item", "cat", "/tmp/hupa_gone_bk", "/tmp/hupa_gone_src");
    let vars = VarsHandler::new(Vec::new());
    let r = hupa.backup(&vars);
    assert!(matches!(r, Err(Error::MissingOrigin(p)) if p == "/tmp/hupa_gone_src"));
}

#[test]
fn restore_missing_backup_fails() {
    fresh_tree("/tmp/hupa_nob_src", "f", "x");
    let _ = fs_extra::dir::remove("/tmp/hupa_nob_bk");
    let hupa = hupa_for("item", "cat", "/tmp/hupa_nob_bk", "/tmp/hupa_nob_src");
    let vars = VarsHandler::new(Vec::new());
    let r = hupa.restore(&vars);
    assert!(matches!(r, Err(Error::MissingBackup(p)) if p == "/tmp/hupa_nob_bk/cat/item"));
}
