use script_picker::ScriptTable;
use script_picker::Scripts;

fn five_script_table() -> ScriptTable {
    ScriptTable::new(Scripts::new(vec![
        ("android".to_string(), "yarn android".to_string()),
        ("run".to_string(), "expo start".to_string()),
        ("start".to_string(), "yarn start".to_string()),
        ("ios".to_string(), "yarn ios".to_string()),
        ("test".to_string(), "jest".to_string()),
    ]))
}

fn sorted_five() -> Vec<(String, String)> {
    vec![
        ("android".to_string(), "yarn android".to_string()),
        ("ios".to_string(), "yarn ios".to_string()),
        ("run".to_string(), "expo start".to_string()),
        ("start".to_string(), "yarn start".to_string()),
        ("test".to_string(), "jest".to_string()),
    ]
}

#[test]
fn it_tables_instantiates_correctly() {
    let script_table = five_script_table();

    assert_eq!(script_table.scripts.scripts, sorted_five());
    assert_eq!(script_table.filtered, sorted_five());
    assert_eq!(script_table.selected, 0);
}

#[test]
fn it_get_script_name_returns_correct_name() {
    let mut script_table = five_script_table();

    let result = script_table.get_script_name();
    assert_eq!(result, Some("android".to_string()));

    script_table.selected = 1;
    let result2 = script_table.get_script_name();
    assert_eq!(result2, Some("ios".to_string()));
}

#[test]
fn it_filter_results_correctly_filters() {
    let mut script_table = five_script_table();

    assert_eq!(script_table.filtered, sorted_five());

    script_table.filter_results(String::from("and"));

    let expected_after = vec![("android".to_string(), "yarn android".to_string())];

    assert_eq!(script_table.filtered, expected_after);
}

#[test]
fn it_previous_correctly_selects_previous_option() {
    let mut script_table = five_script_table();
    script_table.selected = 1;

    script_table.previous();

    assert_eq!(script_table.selected, 0);
}

#[test]
fn it_previous_correctly_loops_back_around_when_at_start() {
    let mut script_table = five_script_table();

    script_table.previous();

    assert_eq!(script_table.selected, script_table.filtered.len() - 1);
}

#[test]
fn it_next_correctly_selects_option() {
    let mut script_table = five_script_table();

    script_table.next();

    assert_eq!(script_table.selected, 1);
}

#[test]
fn it_next_correctly_loops_back_around_when_at_end() {
    let mut script_table = five_script_table();
    script_table.selected = script_table.filtered.len() - 1;

    script_table.next();

    assert_eq!(script_table.selected, 0);
}

#[test]
fn it_next_composed_len_times_returns_to_start() {
    let mut script_table = five_script_table();
    script_table.selected = 2;

    for _ in 0..script_table.filtered.len() {
        script_table.next();
    }

    assert_eq!(script_table.selected, 2);
}

#[test]
fn it_navigation_ignores_an_empty_list() {
    let mut script_table = five_script_table();
    script_table.filter_results(String::from("no such name"));
    assert!(script_table.filtered.is_empty());

    script_table.next();
    assert_eq!(script_table.selected, 0);
    script_table.previous();
    assert_eq!(script_table.selected, 0);
    assert_eq!(script_table.get_script_name(), None);
}

#[test]
fn it_longer_query_narrows_the_filtered_list() {
    let mut with_t = five_script_table();
    with_t.filter_results(String::from("t"));
    let broad = with_t.filtered.clone();

    let mut with_te = five_script_table();
    with_te.filter_results(String::from("te"));
    let narrow = with_te.filtered.clone();

    assert_eq!(
        broad,
        vec![
            ("start".to_string(), "yarn start".to_string()),
            ("test".to_string(), "jest".to_string()),
        ]
    );
    assert_eq!(narrow, vec![("test".to_string(), "jest".to_string())]);
    for entry in &narrow {
        assert!(broad.contains(entry));
    }
}
