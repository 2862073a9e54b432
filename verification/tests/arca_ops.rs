use arca::arca_core::ops::{new_folder_path, unique_destination};

#[test]
fn unique_destination_joins_like_a_path() {
    let none: Vec<String> = Vec::new();
    assert_eq!(unique_destination("/dst", "a.txt", &none), "/dst/a.txt");
    assert_eq!(unique_destination("/dst/", "a.txt", &none), "/dst/a.txt");
    assert_eq!(unique_destination("", "a.txt", &none), "a.txt");
    let taken = vec!["a.txt".to_string(), "a.txt (copy)".to_string()];
    assert_eq!(unique_destination("/dst", "a.txt", &taken[..1]), "/dst/a.txt (copy)");
    assert_eq!(unique_destination("/dst", "a.txt", &taken), "/dst/a.txt (copy 2)");
}

#[test]
fn new_folder_path_counts_from_two() {
    let none: Vec<String> = Vec::new();
    assert_eq!(new_folder_path("/p", &none), "/p/New Folder");
    let taken = vec!["New Folder".to_string()];
    assert_eq!(new_folder_path("/p/", &taken), "/p/New Folder 2");
}
