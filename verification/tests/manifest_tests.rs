use script_picker::ManifestLoad;
use script_picker::parse_manifest;
use script_picker::read_scripts;

#[test]
fn it_no_scripts_returns_error() {
    let text = r#"
        {
            "name": "demo",
            "version": "1.0.0"
        }"#;
    let scripts = read_scripts(parse_manifest(text));

    let expected = vec![(
        "Error parsing json".to_string(),
        "There was an error parsing your package.json".to_string(),
    )];

    assert_eq!(scripts, expected);
}

#[test]
fn it_bad_json_format_returns_error() {
    let text = r#"
        {
            "scripts": {
                "start": "yarn start",
        }"#;
    let scripts = read_scripts(parse_manifest(text));

    let expected = vec![(
        "Error parsing json".to_string(),
        "There was an error parsing your package.json".to_string(),
    )];

    assert_eq!(scripts, expected);
}

#[test]
fn it_no_file_returns_error() {
    let scripts = read_scripts(ManifestLoad::MissingFile);

    let expected = vec![(
        "file_not_found".to_string(),
        "package.json could not be found in this directory".to_string(),
    )];

    assert_eq!(scripts, expected);
}

#[test]
fn it_read_scripts_returns_scripts() {
    let text = r#"
        {
            "scripts": {
                "android": "yarn android",
                "run": "expo start",
                "start": "yarn start",
                "ios": "yarn ios",
                "test": "jest"
            }
        }"#;
    let mut scripts = read_scripts(parse_manifest(text));
    scripts.sort();

    let mut expected = vec![
        ("android".to_string(), "yarn android".to_string()),
        ("run".to_string(), "expo start".to_string()),
        ("start".to_string(), "yarn start".to_string()),
        ("ios".to_string(), "yarn ios".to_string()),
        ("test".to_string(), "jest".to_string()),
    ];
    expected.sort();

    assert_eq!(scripts, expected);
}

#[test]
fn it_non_string_command_returns_error() {
    let text = r#"{ "scripts": { "start": 3 } }"#;
    let load = parse_manifest(text);
    assert!(matches!(load, ManifestLoad::ParseError));
}

#[test]
fn it_scripts_not_an_object_returns_error() {
    let text = r#"{ "scripts": ["start"] }"#;
    let load = parse_manifest(text);
    assert!(matches!(load, ManifestLoad::ParseError));
}

#[test]
fn it_empty_scripts_object_loads_no_entries() {
    let text = r#"{ "scripts": {} }"#;
    match parse_manifest(text) {
        ManifestLoad::Loaded(entries) => assert!(entries.is_empty()),
        _ => panic!("expected a successful load"),
    }
}
