use dab::app::apps_in_order;
use dab::app::parse_installed_apps;
use dab::app::parse_package_names;
use dab::app::App;
use dab::sorting::sort_keyed;
use dab::sorting::text_le_slice;
use dab::sorting::KeyedName;

#[test]
fn new_app_keeps_both_names() {
    let app = App::new("com.example.mail", "Mail");
    assert_eq!(app.package_name, "com.example.mail");
    assert_eq!(app.app_name, "Mail");
}

#[test]
fn package_names_lose_their_marks() {
    let listing = "package:com.b\n\npackage:com.a \npackage:package:odd\n";
    assert_eq!(
        parse_package_names(listing),
        vec!["com.b".to_string(), "com.a".to_string(), "odd".to_string()]
    );
}

#[test]
fn installed_apps_are_ordered_without_regard_to_case() {
    let listing = "package:com.zeta\npackage:Com.Alpha\npackage:com.beta\npackage:com.alpha\npackage:COM.BETA\n";
    let apps = parse_installed_apps(listing);
    let names: Vec<&str> = apps.iter().map(|a| a.package_name.as_str()).collect();
    assert_eq!(names, vec!["Com.Alpha", "com.alpha", "com.beta", "COM.BETA", "com.zeta"]);
    for app in &apps {
        assert_eq!(app.package_name, app.app_name);
    }
}

#[test]
fn empty_package_list_gives_no_apps() {
    assert!(parse_installed_apps("").is_empty());
    assert!(parse_installed_apps("\n\n").is_empty());
}

#[test]
fn sort_is_stable_for_equal_keys() {
    let items = vec![
        KeyedName { key: "b".to_string(), name: "first b".to_string() },
        KeyedName { key: "a".to_string(), name: "first a".to_string() },
        KeyedName { key: "b".to_string(), name: "second b".to_string() },
        KeyedName { key: "".to_string(), name: "empty".to_string() },
        KeyedName { key: "a".to_string(), name: "second a".to_string() },
        KeyedName { key: "ab".to_string(), name: "ab".to_string() },
    ];
    let sorted = sort_keyed(items);
    let names: Vec<&str> = sorted.iter().map(|k| k.name.as_str()).collect();
    assert_eq!(names, vec!["empty", "first a", "second a", "ab", "first b", "second b"]);
}

#[test]
fn apps_in_order_follow_their_keys() {
    let items = vec![
        KeyedName { key: "2".to_string(), name: "two".to_string() },
        KeyedName { key: "1".to_string(), name: "one".to_string() },
    ];
    let apps = apps_in_order(items);
    assert_eq!(apps.len(), 2);
    assert_eq!(apps[0].package_name, "one");
    assert_eq!(apps[0].app_name, "one");
    assert_eq!(apps[1].package_name, "two");
}

#[test]
fn text_order_is_that_of_the_characters() {
    let chars = |s: &str| s.chars().collect::<Vec<char>>();
    assert!(text_le_slice(&chars(""), &chars("")));
    assert!(text_le_slice(&chars(""), &chars("a")));
    assert!(!text_le_slice(&chars("a"), &chars("")));
    assert!(text_le_slice(&chars("abc"), &chars("abd")));
    assert!(text_le_slice(&chars("ab"), &chars("abc")));
    assert!(!text_le_slice(&chars("b"), &chars("abc")));
    assert!(text_le_slice(&chars("Z"), &chars("a")));
    assert!(text_le_slice(&chars("z"), &chars("\u{e9}")));
    assert!(text_le_slice(&chars("same"), &chars("same")));
}
