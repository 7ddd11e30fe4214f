use ak_assets::unpacker::extract::{all, archive_action, is_bundle_file, ArchiveAction};

#[test]
fn archives_are_chosen_by_extension() {
    assert_eq!(archive_action("in/char.ab"), ArchiveAction::Extract);
    assert_eq!(archive_action("in/x.bin"), ArchiveAction::Extract);
    assert_eq!(archive_action("in/movie.usm"), ArchiveAction::Extract);
    assert_eq!(archive_action("in/files.idx"), ArchiveAction::ExtractIndex);
    assert_eq!(archive_action("in/readme.txt"), ArchiveAction::Skip);
    assert_eq!(archive_action("in/noext"), ArchiveAction::Skip);
    assert_eq!(archive_action("in/.ab"), ArchiveAction::Skip);
}

#[test]
fn all_files_get_their_actions_in_order() {
    let paths = vec!["a.idx".to_string(), "b.ab".to_string(), "c.json".to_string()];
    assert_eq!(all(&paths), vec![ArchiveAction::ExtractIndex, ArchiveAction::Extract, ArchiveAction::Skip]);
}

#[test]
fn bundles_are_ab_and_bin_files() {
    assert!(is_bundle_file("out/.tmp/x/char.ab"));
    assert!(is_bundle_file("out/.tmp/y.bin"));
    assert!(!is_bundle_file("out/.tmp/z.usm"));
    assert!(!is_bundle_file("out/.tmp/z"));
}
