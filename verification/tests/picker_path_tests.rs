use chonker::file_picker::{shown_path, shown_path_fits};

#[test]
fn documents_folder_is_left_out() {
    assert!(shown_path_fits("/Users/jack/Documents/a/b.pdf", 40));
    assert_eq!(shown_path("/Users/jack/Documents/a/b.pdf", 40), "a/b.pdf");
    assert_eq!(shown_path("/tmp/x.pdf", 40), "/tmp/x.pdf");
}

#[test]
fn long_paths_show_the_file_name() {
    let p = "/Users/jack/Documents/very/long/folder/name/report.pdf";
    assert!(shown_path_fits(p, 15));
    assert_eq!(shown_path(p, 15), ".../report.pdf");
    let q = "/x/abcdefghijklmnop.pdf";
    assert!(shown_path_fits(q, 10));
    assert_eq!(shown_path(q, 10), "abcdefg...");
}

#[test]
fn cuts_that_cannot_be_made_are_refused() {
    assert!(!shown_path_fits("/some/long/path.pdf", 3));
    assert!(!shown_path_fits("/x/ééééé", 6));
}
