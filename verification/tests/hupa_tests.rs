use libhupa::Hupa;

fn set_of_hupas() -> Vec<Hupa> {
    vec![
        ("abc", vec!["test", "hello"]),
        ("def", vec!["test", "hello"]),
        ("ghi", vec!["test"]),
        ("jkl", vec!["test"]),
        ("mno", vec!["test"]),
    ]
    .into_iter()
    .map(|(n, v)| {
        Hupa::new(
            n.to_string(),
            "".to_string(),
            v.into_iter().map(|s| s.to_string()).collect(),
            "/".to_string(),
            "/".to_string(),
            true,
            Vec::new(),
        )
    })
    .collect()
}

#[test]
fn hupa_category_str() {
    let hupas = set_of_hupas();
    assert_eq!(hupas[0].get_category_str(), "test/hello");
    assert_eq!(hupas[2].get_category_str(), "test");
}

#[test]
fn hupa_eq_test() {
    let hupas = set_of_hupas();
    assert_eq!(hupas[0], hupas[0]);
    assert_ne!(hupas[1], hupas[2]);
}

#[test]
fn hupa_ord_test() {
    let hupas = set_of_hupas();
    assert!(hupas[0] < hupas[1]);
    assert!(hupas[0] > hupas[2]);
    assert!(hupas[0] > hupas[3]);
    assert!(hupas[0] > hupas[4]);
}

#[test]
fn hupa_backup_dir_joins_parent_category_and_name() {
    let hupa = Hupa::new(
        "dotfiles".to_string(),
        "".to_string(),
        vec!["shell".to_string()],
        "/tmp/bk".to_string(),
        "/tmp/src".to_string(),
        false,
        Vec::new(),
    );
    assert_eq!(hupa.backup_dir(), "/tmp/bk/shell/dotfiles");
    let deep = Hupa::new(
        "x".to_string(),
        "".to_string(),
        vec!["os".to_string(), "linux".to_string()],
        "/data".to_string(),
        "/etc/x".to_string(),
        false,
        Vec::new(),
    );
    assert_eq!(deep.backup_dir(), "/data/os/linux/x");
    let flat = Hupa::new(
        "x".to_string(),
        "".to_string(),
        Vec::new(),
        "/data".to_string(),
        "/etc/x".to_string(),
        false,
        Vec::new(),
    );
    assert_eq!(flat.backup_dir(), "/data/x");
}

#[test]
fn backup_dir_fn_test() {
    let info = app_dirs::AppInfo { name: "hupa", author: "fourdotfiveg" };
    let app_dir = app_dirs::get_app_dir(app_dirs::AppDataType::UserData, &info, "hupas").unwrap();
    let app_dir = app_dir.to_string_lossy();
    let vec_categories: Vec<(String, Vec<String>)> = vec![
        ("test", vec!["test"]),
        ("os", vec!["linux"]),
        ("os", vec!["osx"]),
        ("dotfiles", vec!["nvim"]),
        ("dotfiles", vec!["emacs"]),
        ("projects", vec!["c"]),
        ("projects", vec!["rust"]),
    ]
    .into_iter()
    .map(|(a, b)| (a.to_owned(), b.iter().map(|s| s.to_string()).collect()))
    .collect();
    for (name, cat) in vec_categories {
        let mut cat_str = cat
            .iter()
            .map(|s| format!("{}/", s))
            .collect::<String>();
        cat_str.pop();
        assert_eq!(
            Hupa::new(
                name.clone(),
                "".to_string(),
                cat.clone(),
                app_dir.to_string(),
                "/".to_string(),
                false,
                Vec::new(),
            )
            .backup_dir(),
            format!("{}/{}/{}", app_dir, cat_str, name)
        );
    }
}

#[test]
fn hupa_setters_change_fields() {
    let mut hupa = Hupa::new(
        "a".to_string(),
        "old".to_string(),
        vec!["c".to_string()],
        "/tmp/hupa_setters_bk".to_string(),
        "/tmp/hupa_setters_src".to_string(),
        false,
        Vec::new(),
    );
    hupa.set_desc("new".to_string());
    assert_eq!(hupa.get_desc(), "new");
    hupa.set_autobackup(true);
    assert!(hupa.is_autobackup_enabled());
    hupa.set_origin_path("/elsewhere".to_string());
    assert_eq!(hupa.get_origin(), "/elsewhere");
    hupa.set_needed_vars(vec!["has_gpg".to_string()]);
    assert_eq!(hupa.get_needed_vars(), &vec!["has_gpg".to_string()]);
    hupa.set_name("b".to_string()).unwrap();
    assert_eq!(hupa.get_name(), "b");
    hupa.set_category(vec!["d".to_string()]).unwrap();
    assert_eq!(hupa.get_category_str(), "d");
}
