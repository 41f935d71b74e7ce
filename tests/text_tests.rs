use ssheet::emit::luau_module;
use ssheet::layout::IconInfo;
use ssheet::naming::file_stem;

#[test]
fn stems_of_paths() {
    assert_eq!(file_stem("icons/a.png"), "a");
    assert_eq!(file_stem("a.png"), "a");
    assert_eq!(file_stem("deep/dir.d/archive.tar.gz"), "archive.tar");
    assert_eq!(file_stem("x/.hidden"), ".hidden");
    assert_eq!(file_stem("x/noext"), "noext");
    assert_eq!(file_stem("x/.config.json"), ".config");
    assert_eq!(file_stem("ünï/çødé.png"), "çødé");
}

#[test]
fn module_text_lists_records_in_order() {
    let records = vec![
        IconInfo { name: "b".to_string(), x: 16, y: 0, width: 16, height: 16 },
        IconInfo { name: "a".to_string(), x: 0, y: 1024, width: 7, height: 120 },
    ];
    let text = luau_module(&records, "2024-01-02 03:04:05");
    let expected = "--[[ module generated from ssheet.rs :: generated at 2024-01-02 03:04:05 ]]\n\nlocal Icons = {}\n\
Icons['b'] = { x = 16, y = 0, width = 16, height = 16 }\n\
Icons['a'] = { x = 0, y = 1024, width = 7, height = 120 }\n\
\nreturn Icons\n";
    assert_eq!(text, expected);
}

#[test]
fn module_text_without_records() {
    let text = luau_module(&Vec::new(), "now");
    assert_eq!(text, "--[[ module generated from ssheet.rs :: generated at now ]]\n\nlocal Icons = {}\n\nreturn Icons\n");
}

#[test]
fn module_text_keeps_duplicate_names() {
    let records = vec![
        IconInfo { name: "a".to_string(), x: 0, y: 0, width: 1, height: 1 },
        IconInfo { name: "a".to_string(), x: 1, y: 0, width: 1, height: 1 },
    ];
    let text = luau_module(&records, "t");
    assert_eq!(text.matches("Icons['a']").count(), 2);
    assert!(text.contains("Icons['a'] = { x = 1, y = 0, width = 1, height = 1 }"));
}

#[test]
fn module_text_prints_extreme_numbers() {
    let records = vec![IconInfo { name: "m".to_string(), x: 0, y: 4294967295, width: 9, height: 10 }];
    let text = luau_module(&records, "t");
    assert!(text.contains("Icons['m'] = { x = 0, y = 4294967295, width = 9, height = 10 }\n"));
}
