use neftodng::paths::{
    base_for_folder, display_name, is_nikon_raw, is_supported_raw, is_within, output_path,
    parent_path, part_path, AddSource,
};

#[test]
fn pathological_source_does_not_panic() {
    // Nothing in the app should be able to bring down a batch by deciding
    // where to write. A source with no file name must degrade, not panic.
    let got = output_path("/", &AddSource::Files, "/out");

    assert!(is_within(&got, "/out"), "must stay under the output root");
}

#[test]
fn source_outside_its_base_falls_back_to_flat_output() {
    // Guard: a mismatched base must never escape the output root, e.g. by
    // producing "/out/../.." from a bad strip_prefix.
    let add = AddSource::Folder {
        base: "/some/other/tree".to_string(),
    };

    let got = output_path("/home/jens/Pictures/2026/AMB_2657.NEF", &add, "/out");

    assert_eq!(got, "/out/AMB_2657.dng");
}

#[test]
fn recognises_nikon_raw_regardless_of_extension_case() {
    assert!(is_nikon_raw("/x/AMB_2657.NEF"));
    assert!(is_nikon_raw("/x/AMB_2657.nef"));
    assert!(is_nikon_raw("/x/DSCN0001.NRW"));
    assert!(!is_nikon_raw("/x/AMB_2657.dng"));
    assert!(!is_nikon_raw("/x/AMB_2657.jpg"));
    assert!(!is_nikon_raw("/x/NEF"));
}

#[test]
fn part_file_is_hidden_and_sits_beside_its_target() {
    let got = part_path("/out/2026/07/AMB_2657.dng");

    assert_eq!(got, "/out/2026/07/.AMB_2657.dng.part");
    assert_eq!(parent_path(&got), parent_path("/out/2026/07/AMB_2657.dng"));
}

#[test]
fn output_root_inside_source_tree_is_excluded_from_walks() {
    let out = "/home/jens/Pictures/DNG";

    assert!(is_within("/home/jens/Pictures/DNG/2026/a.dng", out));
    assert!(is_within(out, out));
    assert!(!is_within("/home/jens/Pictures/2026/a.NEF", out));
    // a sibling that merely shares a name prefix is not inside
    assert!(!is_within("/home/jens/Pictures/DNG-old/a.dng", out));
}

#[test]
fn dropped_folder_keeps_its_own_name_in_the_output() {
    let base = base_for_folder("/home/jens/Pictures/2026");

    assert_eq!(base, "/home/jens/Pictures");

    // and end-to-end: the "2026" segment must survive into the output
    let got = output_path(
        "/home/jens/Pictures/2026/07/21/AMB_2657.NEF",
        &AddSource::Folder { base },
        "/home/jens/Pictures/DNG",
    );
    assert_eq!(got, "/home/jens/Pictures/DNG/2026/07/21/AMB_2657.dng");
}

#[test]
fn folder_add_mirrors_subtree_beneath_output_root() {
    let add = AddSource::Folder {
        base: "/home/jens/Pictures".to_string(),
    };

    let got = output_path(
        "/home/jens/Pictures/2026/07/21/AMB_2657.NEF",
        &add,
        "/home/jens/Pictures/DNG",
    );

    assert_eq!(got, "/home/jens/Pictures/DNG/2026/07/21/AMB_2657.dng");
}

#[test]
fn a_source_without_a_file_name_is_written_as_converted_dng() {
    assert_eq!(output_path("/", &AddSource::Files, "/out"), "/out/converted.dng");
}

#[test]
fn files_added_one_by_one_land_flat_at_the_output_root() {
    let got = output_path("/home/jens/Pictures/2026/07/AMB_2657.nef", &AddSource::Files, "/out");
    assert_eq!(got, "/out/AMB_2657.dng");
}

#[test]
fn only_the_last_extension_is_replaced() {
    let got = output_path("/a/archive.tar.NEF", &AddSource::Files, "/out");
    assert_eq!(got, "/out/archive.tar.dng");
    let none = output_path("/a/README", &AddSource::Files, "/out");
    assert_eq!(none, "/out/README.dng");
}

#[test]
fn redundant_separators_do_not_change_the_target() {
    let got = output_path("/pics//2026/./a.NEF", &AddSource::Folder { base: "/pics/".to_string() }, "/out/");
    assert_eq!(got, "/out/2026/a.dng");
}

#[test]
fn the_root_folder_is_its_own_base() {
    assert_eq!(base_for_folder("/"), "/");
    assert_eq!(base_for_folder("/photos"), "/");
}

#[test]
fn a_relative_target_gets_a_relative_part_file() {
    assert_eq!(part_path("out.dng"), ".out.dng.part");
    assert_eq!(part_path("/"), ".output.dng.part");
}

#[test]
fn the_part_file_is_never_the_target_itself() {
    for t in ["/out/a.dng", "a.dng", "/x/.a.dng", "/x/a.dng.part"] {
        assert_ne!(part_path(t), t);
        assert_eq!(parent_path(&part_path(t)), parent_path(t));
    }
    assert_ne!(part_path("/"), "/");
}

#[test]
fn parent_of_a_path_follows_the_directory_structure() {
    assert_eq!(parent_path("/out/2026/a.dng"), Some("/out/2026".to_string()));
    assert_eq!(parent_path("/"), None);
    assert_eq!(parent_path(""), None);
    assert_eq!(parent_path("a.dng"), Some("".to_string()));
}

#[test]
fn within_is_reflexive_and_transitive_on_examples() {
    assert!(is_within("/a/b", "/a/b"));
    assert!(is_within("/a/b/c", "/a/b"));
    assert!(is_within("/a/b", "/a"));
    assert!(is_within("/a/b/c", "/a"));
    assert!(!is_within("/a", "/a/b"));
}

#[test]
fn extension_check_needs_a_real_stem() {
    assert!(!is_nikon_raw("/x/.nef"));
    assert!(is_nikon_raw("/x/a.b.NeF"));
    assert!(is_nikon_raw("relative.nrw"));
    assert!(!is_nikon_raw("/x/a.nef.jpg"));
    assert!(!is_nikon_raw("/"));
}

#[test]
fn queued_rows_show_the_file_name() {
    assert_eq!(display_name("/home/jens/Pictures/AMB_2657.NEF"), "AMB_2657.NEF");
    assert_eq!(display_name("/"), "(unnamed)");
}

#[test]
fn the_add_source_survives_being_stored_as_text() {
    let folder = AddSource::Folder { base: "/home/jens/Pictures".to_string() };
    assert_eq!(AddSource::from_base(&folder.base_text()), folder);
    assert_eq!(AddSource::from_base(&AddSource::Files.base_text()), AddSource::Files);
    assert_eq!(AddSource::Files.base_text(), "");
}

#[test]
fn a_target_is_never_taken_for_a_raw_file() {
    let cases = [
        ("/p/2026/a.NEF", AddSource::Folder { base: "/p".to_string() }),
        ("/p/2026/a.NEF", AddSource::Files),
        ("/p/a.nrw", AddSource::Folder { base: "".to_string() }),
        ("/p", AddSource::Folder { base: "/p".to_string() }),
        ("/", AddSource::Files),
        ("/p/..", AddSource::Files),
    ];
    for (source, add) in cases {
        let target = output_path(source, &add, "/out");
        assert!(!is_nikon_raw(&target), "{source} -> {target}");
        assert!(!is_supported_raw(&target), "{source} -> {target}");
    }
}

#[test]
fn a_source_equal_to_its_base_is_written_flat_inside_the_root() {
    let add = AddSource::Folder { base: "/p/a.NEF".to_string() };
    assert_eq!(output_path("/p/a.NEF", &add, "/out"), "/out/a.dng");
}

#[test]
fn a_relative_part_that_climbs_out_falls_back_to_flat_output() {
    let add = AddSource::Folder { base: "/p".to_string() };
    let got = output_path("/p/x/../../etc/a.NEF", &add, "/out");
    assert_eq!(got, "/out/a.dng");
    assert!(!got.contains(".."));
}

#[test]
fn an_empty_base_never_lets_the_source_path_replace_the_root() {
    let add = AddSource::Folder { base: "".to_string() };
    assert_eq!(output_path("/p/a.NEF", &add, "/out"), "/out/a.dng");
    assert_eq!(output_path("./a.NEF", &add, "/out"), "/out/a.dng");
}

#[test]
fn every_raw_format_the_decoder_reads_is_accepted_except_dng() {
    for p in ["/x/IMG_0001.CR2", "/x/a.cr3", "/x/DSC.ARW", "/x/a.nef", "/x/a.NRW", "/x/a.3fr", "/x/a.Raf"] {
        assert!(is_supported_raw(p), "{p}");
    }
    for p in ["/x/a.dng", "/x/a.DNG", "/x/a.jpg", "/x/CR2", "/x/.cr2", "/", "/x/a.cr2.txt"] {
        assert!(!is_supported_raw(p), "{p}");
    }
}

#[test]
fn the_case_of_an_extension_never_changes_the_answer() {
    for (a, b) in [("/x/a.nef", "/x/a.NEF"), ("/x/a.Cr2", "/x/a.cR2"), ("/x/a.dng", "/x/a.DnG"), ("/x/a.jpg", "/x/a.JPG")] {
        assert_eq!(is_nikon_raw(a), is_nikon_raw(b), "{a} {b}");
        assert_eq!(is_supported_raw(a), is_supported_raw(b), "{a} {b}");
    }
}
