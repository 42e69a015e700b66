use std::path::Path;
use wireguard_conf::directory::text_le_exec;
use wireguard_conf::{config_file_name, get_wireguard_dir, list_configs};

fn names(list: &[&str]) -> Vec<String> {
    list.iter().map(|s| s.to_string()).collect()
}

#[test]
fn directory_prefers_the_arm_location() {
    assert_eq!(get_wireguard_dir(true, true), "/opt/homebrew/etc/wireguard");
    assert_eq!(get_wireguard_dir(true, false), "/opt/homebrew/etc/wireguard");
}

#[test]
fn directory_falls_back_to_the_intel_location() {
    assert_eq!(get_wireguard_dir(false, true), "/usr/local/etc/wireguard");
    assert_eq!(get_wireguard_dir(false, false), "/usr/local/etc/wireguard");
}

#[test]
fn empty_directory_lists_nothing() {
    assert_eq!(list_configs(&Vec::new()), Vec::<String>::new());
}

#[test]
fn lists_the_stems_of_conf_files_in_order() {
    let files = names(&["wg1.conf", "notes.txt", "wg0.conf", "wg0.conf.bak", "office.conf", "README"]);
    assert_eq!(list_configs(&files), names(&["office", "wg0", "wg1"]));
}

#[test]
fn lists_duplicates_and_dotted_names() {
    let files = names(&["b.conf", "a.b.conf", "b.conf", ".conf", "..conf", "conf", "a.CONF", "Z.conf", "a.conf "]);
    assert_eq!(list_configs(&files), names(&[".", "Z", "a.b", "b", "b"]));
}

#[test]
fn listing_agrees_with_the_standard_path_functions_and_sort() {
    let files = names(&[
        "wg0.conf", "WG0.conf", "wg10.conf", "wg2.conf", "é.conf", "z.conf", "a", ".conf", ".a.conf",
        "x.conf.conf", "conf.conf", ".", "a.", "a.confx", "日本.conf", "~.conf", "_.conf", "-.conf",
        "a b.conf", "", "c.conf\n",
    ]);
    let mut expected = Vec::new();
    for f in &files {
        let path = Path::new("/etc/wireguard").join(f);
        if path.extension().and_then(|s| s.to_str()) == Some("conf") {
            if let Some(name) = path.file_stem().and_then(|s| s.to_str()) {
                expected.push(name.to_string());
            }
        }
    }
    expected.sort();
    assert_eq!(list_configs(&files), expected);
}

#[test]
fn text_order_agrees_with_the_order_of_strings() {
    let samples = ["", "a", "A", "ab", "b", "aa", "a\u{0}", "é", "z", "日本", "\u{10FFFF}", "wg10", "wg2"];
    for a in samples {
        for b in samples {
            let x: Vec<char> = a.chars().collect();
            let y: Vec<char> = b.chars().collect();
            assert_eq!(text_le_exec(&x, &y), a <= b);
        }
    }
}

#[test]
fn file_name_adds_the_extension() {
    assert_eq!(config_file_name("wg0"), "wg0.conf");
    assert_eq!(config_file_name(""), ".conf");
    assert_eq!(list_configs(&vec![config_file_name("office")]), names(&["office"]));
}
