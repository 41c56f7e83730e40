use neftodng::queue::{convert_button_label, has_room_for, queue_additions, shorten_home};

fn strings(v: &[&str]) -> Vec<String> {
    v.iter().map(|s| s.to_string()).collect()
}

#[test]
fn a_file_already_queued_is_not_added_again() {
    let queued = strings(&["/p/a.NEF"]);
    let candidates = strings(&["/p/a.NEF", "/p/b.NEF", "/p/b.NEF", "/p//b.NEF", "/p/c.NEF"]);
    assert_eq!(queue_additions(&queued, &candidates), vec![1, 4]);
}

#[test]
fn an_empty_queue_admits_every_distinct_file() {
    let candidates = strings(&["/p/a.NEF", "/p/b.NEF"]);
    assert_eq!(queue_additions(&vec![], &candidates), vec![0, 1]);
    assert!(queue_additions(&strings(&["/p/a.NEF"]), &vec![]).is_empty());
}

#[test]
fn the_output_button_shortens_the_home_directory() {
    assert_eq!(shorten_home("/home/jens/Pictures/DNG", "/home/jens"), "~/Pictures/DNG");
    assert_eq!(shorten_home("/mnt/photos/DNG", "/home/jens"), "/mnt/photos/DNG");
    assert_eq!(shorten_home("/home/jensen/DNG", "/home/jens"), "/home/jensen/DNG");
    assert_eq!(shorten_home("/home/jens", "/home/jens"), "~/");
}

#[test]
fn the_convert_button_counts_the_queue() {
    assert_eq!(convert_button_label(0), "Convert");
    assert_eq!(convert_button_label(36), "Convert 36");
}

#[test]
fn a_batch_needs_room_for_three_quarters_of_its_input() {
    assert!(has_room_for(&vec![40, 40], 60));
    assert!(!has_room_for(&vec![40, 40], 59));
    assert!(has_room_for(&vec![], 0));
    assert!(!has_room_for(&vec![u64::MAX, u64::MAX, u64::MAX], u64::MAX));
    assert!(has_room_for(&vec![u64::MAX], u64::MAX));
}
