use libhupa::Category;
use libhupa::Hupa;
use libhupa::IntoCategories;

fn set_of_hupas() -> Vec<Hupa> {
    vec![
        ("abc", vec!["test", "hello"]),
        ("def", vec!["test", "hello"]),
        ("ghi", vec!["test"]),
        ("jkl", vec!["test"]),
        ("mno", vec!["test"]),
    ]
    .into_iter()
    .map(|(n, v)| {
        Hupa::new(
            n.to_string(),
            "".to_string(),
            v.into_iter().map(|s| s.to_string()).collect(),
            "/".to_string(),
            "/".to_string(),
            true,
            Vec::new(),
        )
    })
    .collect()
}

fn category_of_test() -> Category {
    let mut category = Category::new("test");
    for hupa in set_of_hupas() {
        category.push(hupa);
    }
    category
}

#[test]
fn category_push_test() {
    let mut category = Category::new("test");
    for hupa in set_of_hupas() {
        category.push(hupa);
    }
    assert_eq!(category.len(), 3);
    assert_eq!(*category.get(0), set_of_hupas()[2]);
}

#[test]
fn category_pop_test() {
    let mut category = category_of_test();
    let mut hupas: Vec<Hupa> = set_of_hupas()
        .into_iter()
        .filter(|h| h.get_category_str() == "test")
        .collect();
    for _ in 0..2 {
        assert_eq!(category.pop(), hupas.pop());
    }
}

#[test]
fn category_index_test() {
    let valid_hupas = set_of_hupas()[2..].to_vec();
    let category = category_of_test();
    for i in 0..2 {
        assert_eq!(valid_hupas[i], *category.get(i));
    }
}

#[test]
fn hupas_into_categories() {
    let hupas = set_of_hupas();
    let categories = hupas.into_categories();
    assert_eq!(categories.len(), 2);
    assert_eq!(categories[0].get_name(), "test/hello");
    assert_eq!(categories[1].get_name(), "test");
}

#[test]
fn category_sort_orders_hupas() {
    let mut category = category_of_test();
    category.sort();
    assert_eq!(category.len(), 3);
    assert_eq!(category.get(0).get_name(), "ghi");
    assert_eq!(category.get(1).get_name(), "jkl");
    assert_eq!(category.get(2).get_name(), "mno");
}

#[test]
fn category_sort_is_stable() {
    // Two hupas that compare order-equal (same category and name) keep
    // their relative order; sorting a sorted category changes nothing.
    let twin = |d: &str| {
        Hupa::new(
            "same".to_string(),
            d.to_string(),
            vec!["test".to_string()],
            "/".to_string(),
            "/".to_string(),
            true,
            Vec::new(),
        )
    };
    let mut category = Category::new("test");
    category.push(twin("first"));
    category.push(twin("second"));
    category.sort();
    assert_eq!(category.get(0).get_desc(), "first");
    assert_eq!(category.get(1).get_desc(), "second");
    category.sort();
    assert_eq!(category.get(0).get_desc(), "first");
    assert_eq!(category.get(1).get_desc(), "second");
}

#[test]
fn category_insert_refuses_other_category() {
    let mut category = Category::new("test");
    let stranger = Hupa::new(
        "abc".to_string(),
        "".to_string(),
        vec!["other".to_string()],
        "/".to_string(),
        "/".to_string(),
        false,
        Vec::new(),
    );
    let back = category.insert(0, stranger.clone());
    assert_eq!(back, Some(stranger));
    assert_eq!(category.len(), 0);
}
