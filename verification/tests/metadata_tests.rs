use libhupa::hupa_to_json;
use libhupa::hupas_to_json;
use libhupa::json_dump;
use libhupa::read_metadata;
use libhupa::write_metadata;
use libhupa::Error;
use libhupa::Hupa;

fn vec_of_hupas() -> Vec<Hupa> {
    vec![
        ("test1", vec!["test2"], "/"),
        ("os", vec!["gentoo"], "/etc/portage"),
        ("dotfiles", vec!["all"], "/dotfiles"),
    ]
    .into_iter()
    .map(|(n, c, p)| {
        Hupa::new(
            n.to_string(),
            "".to_string(),
            c.iter().map(|s| s.to_string()).collect(),
            "/".to_string(),
            p.to_string(),
            false,
            Vec::new(),
        )
    })
    .collect()
}

fn stringify_hupa(hupa: &Hupa) -> String {
    let mut cat_str = String::new();
    cat_str.push('[');
    cat_str.push_str(
        hupa.get_category()
            .iter()
            .map(|s| format!("\"{}\",", s))
            .collect::<String>()
            .as_str(),
    );
    cat_str.pop();
    cat_str.push(']');
    format!(
        "{{\"name\":\"{}\",\"desc\":\"{}\",\"categories\":{},\"backup_parent\":\"/\",\"origin\":\"{}\",\"autobackup\":false,\"needed_vars\":[]}}",
        hupa.get_name(),
        hupa.get_desc(),
        cat_str,
        hupa.get_origin()
    )
}

#[test]
fn json_test_hupa_to_json() {
    for hupa in vec_of_hupas() {
        let json = hupa_to_json(&hupa);
        assert_eq!(json_dump(&json), stringify_hupa(&hupa));
    }
}

#[test]
fn json_test_hupas_to_json() {
    let json = json_dump(&hupas_to_json(&vec_of_hupas()));
    println!("{}", json);
    let mut output = String::new();
    output.push('[');
    for hupa in vec_of_hupas() {
        output.push_str(&stringify_hupa(&hupa));
        output.push(',');
    }
    output.pop();
    output.push(']');
    assert_eq!(json, output);
}

#[test]
fn read_metadata_test() {
    let hupas = vec![
        Hupa::new(
            "a".to_string(),
            "b".to_string(),
            vec!["hello".to_string()],
            "/".to_string(),
            "/".to_string(),
            false,
            Vec::new(),
        ),
        Hupa::new(
            "c".to_string(),
            "d".to_string(),
            vec!["hello".to_string()],
            "/".to_string(),
            "/".to_string(),
            false,
            Vec::new(),
        ),
        Hupa::new(
            "e".to_string(),
            "f".to_string(),
            vec!["hello".to_string()],
            "/".to_string(),
            "/".to_string(),
            false,
            Vec::new(),
        ),
    ];
    let json = json_dump(&hupas_to_json(&hupas));
    let readed_hupas = read_metadata(&json).unwrap();
    assert_eq!(hupas, readed_hupas);
}

#[test]
fn read_metadata_pretty_round_trip() {
    let hupas = vec_of_hupas();
    let text = write_metadata(&hupas);
    let readed = read_metadata(&text).unwrap();
    assert_eq!(hupas, readed);
    assert_eq!(readed[1].get_origin(), "/etc/portage");
    assert_eq!(readed[1].get_category_str(), "gentoo");
}

#[test]
fn read_metadata_rejects_non_array() {
    let r = read_metadata("{\"name\":\"a\"}");
    assert!(matches!(r, Err(Error::InvalidMetadata)));
    let r = read_metadata("not json at all {");
    assert!(matches!(r, Err(Error::InvalidMetadata)));
}

#[test]
fn read_metadata_defaults_missing_lists() {
    let text = "[{\"name\":\"a\",\"desc\":\"\",\"backup_parent\":\"/\",\"origin\":\"/o\",\"autobackup\":true}]";
    let hupas = read_metadata(text).unwrap();
    assert_eq!(hupas.len(), 1);
    assert_eq!(hupas[0].get_name(), "a");
    assert!(hupas[0].get_category().is_empty());
    assert!(hupas[0].get_needed_vars().is_empty());
    assert!(hupas[0].is_autobackup_enabled());
}
