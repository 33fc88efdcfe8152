use libhupa::autobackup_hupas;
use libhupa::can_write;
use libhupa::needs_root_from;
use libhupa::resolve_names;
use libhupa::DaemonState;
use libhupa::FileIdentity;
use libhupa::Hupa;
use libhupa::VarsHandler;

fn pool() -> Vec<Hupa> {
    vec![
        ("alpha", vec!["os"], true),
        ("beta", vec!["os", "linux"], false),
        ("alpha", vec!["dotfiles"], true),
    ]
    .into_iter()
    .map(|(n, c, auto)| {
        Hupa::new(
            n.to_string(),
            "".to_string(),
            c.into_iter().map(|s| s.to_string()).collect(),
            "/bk".to_string(),
            "/src".to_string(),
            auto,
            Vec::new(),
        )
    })
    .collect()
}

#[test]
fn resolve_names_by_bare_name_and_by_path() {
    let hupas = pool();
    let names = vec![
        "alpha".to_string(),
        "dotfiles/alpha".to_string(),
        "os/linux/beta".to_string(),
        "gamma".to_string(),
    ];
    let (resolved, unmatched) = resolve_names(&names, &hupas);
    assert_eq!(resolved.len(), 3);
    assert_eq!(resolved[0].get_category_str(), "os");
    assert_eq!(resolved[1].get_category_str(), "dotfiles");
    assert_eq!(resolved[2].get_name(), "beta");
    assert_eq!(unmatched, vec!["gamma".to_string()]);
}

#[test]
fn autobackup_hupas_filters_disabled() {
    let hupas = pool();
    let sweep = autobackup_hupas(&hupas);
    assert_eq!(sweep.len(), 2);
    assert_eq!(sweep[0].get_name(), "alpha");
    assert_eq!(sweep[0].get_category_str(), "os");
    assert_eq!(sweep[1].get_category_str(), "dotfiles");
}

#[test]
fn daemon_poll_reports_changed_stamps() {
    let mut state = DaemonState::new(Some(10), None);
    let (reload_meta, reload_vars) = state.poll_changes(Some(10), None);
    assert!(!reload_meta);
    assert!(!reload_vars);
    let (reload_meta, reload_vars) = state.poll_changes(Some(11), Some(3));
    assert!(reload_meta);
    assert!(reload_vars);
    let (reload_meta, _) = state.poll_changes(Some(11), Some(3));
    assert!(!reload_meta);
}

#[test]
fn can_write_reads_mode_bits() {
    assert_eq!(can_write(0o644), (true, false, false));
    assert_eq!(can_write(0o664), (true, true, false));
    assert_eq!(can_write(0o222), (true, true, true));
    assert_eq!(can_write(0o444), (false, false, false));
}

#[test]
fn needs_root_decision() {
    // An effective root never needs elevation.
    assert!(!needs_root_from(0, 0, None));
    // Unreadable file identity is treated conservatively.
    assert!(needs_root_from(1000, 1000, None));
    // Owner with the owner-write bit.
    let own = FileIdentity { uid: 1000, gid: 1000, mode: 0o644 };
    assert!(!needs_root_from(1000, 1000, Some(own)));
    // Stranger without the other-write bit.
    let other = FileIdentity { uid: 0, gid: 0, mode: 0o644 };
    assert!(needs_root_from(1000, 1000, Some(other)));
    // Group member with the group-write bit.
    let group = FileIdentity { uid: 0, gid: 1000, mode: 0o664 };
    assert!(!needs_root_from(1000, 1000, Some(group)));
}

#[test]
fn default_vars_path_ends_with_vars() {
    if let Ok(p) = VarsHandler::get_default_path() {
        assert!(p.ends_with("/vars"));
    }
}
