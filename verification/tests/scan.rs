use neftodng::scan::select_raw_files;

#[test]
fn finds_raw_files_recursively_and_ignores_everything_else() {
    let found = vec![
        "/r/2026/notes.txt".to_string(),
        "/r/2026/07/21/AMB_2658.nef".to_string(),
        "/r/2026/07/21/AMB_2657.JPG".to_string(),
        "/r/2026/07/21/AMB_2657.NEF".to_string(),
    ];

    assert_eq!(
        select_raw_files(&found, "/nonexistent"),
        vec!["/r/2026/07/21/AMB_2657.NEF".to_string(), "/r/2026/07/21/AMB_2658.nef".to_string()],
        "only raw files, sorted"
    );
}

#[test]
fn skips_the_output_root_so_it_can_live_inside_the_pictures_tree() {
    let found = vec!["/r/DNG/stray.NEF".to_string(), "/r/2026/real.NEF".to_string()];
    assert_eq!(select_raw_files(&found, "/r/DNG"), vec!["/r/2026/real.NEF".to_string()]);
}

#[test]
fn paths_are_ordered_by_component_not_by_text() {
    // By text "/r/a-b/x.nef" would sort before "/r/a/x.nef" ('-' < '/'); by
    // component "a" comes before "a-b".
    let found = vec!["/r/a-b/x.nef".to_string(), "/r/a/x.nef".to_string(), "/r/B.NEF".to_string()];
    assert_eq!(
        select_raw_files(&found, "/out"),
        vec!["/r/B.NEF".to_string(), "/r/a/x.nef".to_string(), "/r/a-b/x.nef".to_string()]
    );
}

#[test]
fn nothing_found_means_nothing_to_convert() {
    assert!(select_raw_files(&vec![], "/out").is_empty());
}

#[test]
fn other_raw_formats_are_found_but_not_dng() {
    let found = vec![
        "/r/a/IMG_0001.CR2".to_string(),
        "/r/a/old.dng".to_string(),
        "/r/a/AMB_1.NEF".to_string(),
    ];
    assert_eq!(
        select_raw_files(&found, "/out"),
        vec!["/r/a/AMB_1.NEF".to_string(), "/r/a/IMG_0001.CR2".to_string()]
    );
}
