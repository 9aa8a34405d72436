use script_picker::Scripts;

fn five_entries() -> Vec<(String, String)> {
    vec![
        ("android".to_string(), "yarn android".to_string()),
        ("run".to_string(), "expo start".to_string()),
        ("start".to_string(), "yarn start".to_string()),
        ("ios".to_string(), "yarn ios".to_string()),
        ("test".to_string(), "jest".to_string()),
    ]
}

#[test]
fn it_scripts_instantiates_correctly() {
    let scripts = Scripts::new(five_entries());

    let expected = vec![
        ("android".to_string(), "yarn android".to_string()),
        ("ios".to_string(), "yarn ios".to_string()),
        ("run".to_string(), "expo start".to_string()),
        ("start".to_string(), "yarn start".to_string()),
        ("test".to_string(), "jest".to_string()),
    ];

    assert_eq!(scripts.scripts, expected);
}

#[test]
fn it_later_duplicate_name_overrides_earlier() {
    let scripts = Scripts::new(vec![
        ("build".to_string(), "old command".to_string()),
        ("check".to_string(), "cargo check".to_string()),
        ("build".to_string(), "new command".to_string()),
    ]);

    let expected = vec![
        ("build".to_string(), "new command".to_string()),
        ("check".to_string(), "cargo check".to_string()),
    ];

    assert_eq!(scripts.scripts, expected);
}

#[test]
fn it_store_is_empty_for_no_entries() {
    let scripts = Scripts::new(Vec::new());
    assert!(scripts.scripts.is_empty());
}
