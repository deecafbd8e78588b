use caesium_catalog::app_data::{fold_base_folder, AppData};
use caesium_catalog::catalog::{get_saved_size, AppDataFileList, FileListColumn, SortOrder, ITEMS_PER_PAGE};
use caesium_catalog::image::{CImage, ImageStatus};

fn image(id: &str, name: &str, size: u64) -> CImage {
    CImage {
        id: id.to_string(),
        name: name.to_string(),
        path: format!("/photos/{}", name),
        directory: "/photos".to_string(),
        mime_type: "image/jpeg".to_string(),
        size,
        width: 10,
        height: 10,
        compressed_width: 0,
        compressed_height: 0,
        compressed_size: 0,
        compressed_file_path: String::new(),
        info: String::new(),
        status: ImageStatus::New,
    }
}

fn ids(list: &AppDataFileList) -> Vec<String> {
    list.iter().iter().map(|c| c.id.clone()).collect()
}

fn page_ids(list: &AppDataFileList) -> Vec<String> {
    list.paged_list.iter().map(|c| c.id.clone()).collect()
}

#[test]
fn new_catalog_is_empty() {
    let l = AppDataFileList::new();
    assert_eq!(l.len(), 0);
    assert_eq!(l.full_len(), 0);
    assert_eq!(l.current_page, 1);
    assert_eq!(l.items_per_page, ITEMS_PER_PAGE);
    assert_eq!(ITEMS_PER_PAGE, 50);
}

#[test]
fn upsert_replaces_in_place() {
    let mut l = AppDataFileList::new();
    l.insert(image("a", "a.jpg", 1));
    l.insert(image("b", "b.jpg", 2));
    l.insert(image("c", "c.jpg", 3));
    let mut changed = image("b", "b.jpg", 99);
    changed.status = ImageStatus::Success;
    l.insert(changed);
    assert_eq!(l.full_len(), 3);
    assert_eq!(ids(&l), vec!["a", "b", "c"]);
    assert_eq!(l.get("b").unwrap().size, 99);
    assert_eq!(l.get("b").unwrap().status, ImageStatus::Success);
    l.replace(image("c", "c.jpg", 7));
    assert_eq!(ids(&l), vec!["a", "b", "c"]);
    assert_eq!(l.get("c").unwrap().size, 7);
}

#[test]
fn get_unknown_id() {
    let mut l = AppDataFileList::new();
    l.insert(image("a", "a.jpg", 1));
    assert!(l.get("zz").is_none());
}

#[test]
fn filter_counts_matches() {
    let mut l = AppDataFileList::new();
    l.insert(image("a", "cat.jpg", 1));
    l.insert(image("b", "dog.jpg", 2));
    l.insert(image("c", "catalog.png", 3));
    l.filter_list(&"cat".to_string());
    assert_eq!(l.len(), 2);
    assert_eq!(page_ids(&l), vec!["a", "c"]);
    l.filter_list(&"photos".to_string());
    assert_eq!(l.len(), 3);
    l.filter_list(&"zebra".to_string());
    assert_eq!(l.len(), 0);
    assert_eq!(l.full_len(), 3);
    assert!(l.paged_list.is_empty());
    l.filter_list(&String::new());
    assert_eq!(l.len(), 3);
}

#[test]
fn insert_under_filter() {
    let mut l = AppDataFileList::new();
    l.filter_list(&"cat".to_string());
    l.insert(image("a", "cat.jpg", 1));
    l.insert(image("b", "dog.jpg", 2));
    assert_eq!(l.len(), 1);
    let mut renamed = image("b", "cat2.jpg", 2);
    renamed.path = "/p/cat2.jpg".to_string();
    l.insert(renamed);
    assert_eq!(l.len(), 2);
}

#[test]
fn page_clamping() {
    let mut l = AppDataFileList::new();
    for i in 0..120 {
        l.insert(image(&format!("id{:03}", i), &format!("f{:03}.jpg", i), i as u64));
    }
    l.change_page(0);
    assert_eq!(l.current_page, 1);
    assert_eq!(l.paged_list.len(), 50);
    l.change_page(1000);
    assert_eq!(l.current_page, 3);
    assert_eq!(l.paged_list.len(), 20);
    assert_eq!(l.paged_list[0].id, "id100");
    l.change_page(2);
    assert_eq!(l.current_page, 2);
    assert_eq!(l.paged_list[0].id, "id050");
    assert_eq!(l.paged_list.len(), 50);
}

#[test]
fn page_of_empty_catalog() {
    let mut l = AppDataFileList::new();
    l.change_page(5);
    assert_eq!(l.current_page, 1);
    assert!(l.paged_list.is_empty());
}

#[test]
fn sort_by_size_both_ways() {
    let mut l = AppDataFileList::new();
    l.insert(image("a", "a.jpg", 30));
    l.insert(image("b", "b.jpg", 10));
    l.insert(image("c", "c.jpg", 20));
    l.sort_list_by(FileListColumn::Size, SortOrder::Ascending);
    let up = ids(&l);
    assert_eq!(up, vec!["b", "c", "a"]);
    l.sort_list_by(FileListColumn::Size, SortOrder::Descending);
    let mut down = ids(&l);
    down.reverse();
    assert_eq!(down, up);
    assert_eq!(page_ids(&l), vec!["a", "c", "b"]);
}

#[test]
fn sort_by_name_and_resolution() {
    let mut l = AppDataFileList::new();
    let mut x = image("x", "b.jpg", 1);
    x.width = 100;
    x.height = 100;
    let mut y = image("y", "a.jpg", 1);
    y.width = 10;
    y.height = 10;
    let mut z = image("z", "C.jpg", 1);
    z.width = 50;
    z.height = 1;
    l.insert(x);
    l.insert(y);
    l.insert(z);
    l.sort_list_by(FileListColumn::Filename, SortOrder::Ascending);
    assert_eq!(ids(&l), vec!["z", "y", "x"]);
    l.sort_list_by(FileListColumn::Resolution, SortOrder::Descending);
    assert_eq!(ids(&l), vec!["x", "y", "z"]);
}

#[test]
fn sort_by_saved_ratio() {
    let mut l = AppDataFileList::new();
    let mut half = image("half", "h.jpg", 100);
    half.compressed_size = 50;
    let mut grew = image("grew", "g.jpg", 100);
    grew.compressed_size = 150;
    let mut tenth = image("tenth", "t.jpg", 1000);
    tenth.compressed_size = 900;
    let empty = image("empty", "e.jpg", 0);
    l.insert(half);
    l.insert(grew);
    l.insert(tenth);
    l.insert(empty);
    l.sort_list_by(FileListColumn::Saved, SortOrder::Descending);
    let order = ids(&l);
    assert_eq!(order[0], "half");
    assert_eq!(order[1], "tenth");
}

#[test]
fn saved_ratio_never_negative() {
    assert_eq!(get_saved_size(100, 100).0, 0);
    assert_eq!(get_saved_size(100, 150).0, 0);
    assert_eq!(get_saved_size(0, 10), (0, 1));
    assert_eq!(get_saved_size(100, 25), (75, 100));
}

#[test]
fn column_and_order_names() {
    assert_eq!(FileListColumn::from_str("filename"), Some(FileListColumn::Filename));
    assert_eq!(FileListColumn::from_str("size"), Some(FileListColumn::Size));
    assert_eq!(FileListColumn::from_str("resolution"), Some(FileListColumn::Resolution));
    assert_eq!(FileListColumn::from_str("saved"), Some(FileListColumn::Saved));
    assert_eq!(FileListColumn::from_str("Size"), None);
    assert_eq!(SortOrder::from_str("ascending"), Some(SortOrder::Ascending));
    assert_eq!(SortOrder::from_str("descending"), Some(SortOrder::Descending));
    assert_eq!(SortOrder::from_str("up"), None);
}

#[test]
fn remove_ids_keeps_order() {
    let mut l = AppDataFileList::new();
    l.insert(image("a", "a.jpg", 1));
    l.insert(image("b", "b.jpg", 2));
    l.insert(image("c", "c.jpg", 3));
    l.insert(image("d", "d.jpg", 4));
    l.remove_ids(&vec!["b".to_string(), "zz".to_string(), "d".to_string()]);
    assert_eq!(ids(&l), vec!["a", "c"]);
    assert_eq!(l.len(), 2);
    assert_eq!(page_ids(&l), vec!["a", "c"]);
}

#[test]
fn remove_under_filter() {
    let mut l = AppDataFileList::new();
    l.insert(image("a", "cat.jpg", 1));
    l.insert(image("b", "cat2.jpg", 2));
    l.insert(image("c", "dog.jpg", 3));
    l.filter_list(&"cat".to_string());
    l.remove_ids(&vec!["a".to_string()]);
    assert_eq!(l.len(), 1);
    assert_eq!(page_ids(&l), vec!["b"]);
}

#[test]
fn clear_empties_everything() {
    let mut l = AppDataFileList::new();
    l.insert(image("a", "a.jpg", 1));
    l.change_page(1);
    l.clear();
    assert_eq!(l.full_len(), 0);
    assert_eq!(l.len(), 0);
    assert!(l.paged_list.is_empty());
}

#[test]
fn operations_on_empty_catalog() {
    let mut l = AppDataFileList::new();
    l.sort_list();
    l.filter_list(&"x".to_string());
    l.remove_ids(&vec!["x".to_string()]);
    assert_eq!(l.len(), 0);
    assert!(l.paged_list.is_empty());
}

#[test]
fn app_data_base_path() {
    let mut d = AppData::new();
    assert_eq!(d.compute_base_path().is_ok(), true);
    assert_eq!(d.base_path, "");
    let mut a = image("a", "a.jpg", 1);
    a.path = "/a/b/c.jpg".to_string();
    let mut b = image("b", "e.jpg", 1);
    b.path = "/a/b/d/e.jpg".to_string();
    d.file_list.insert(a);
    d.file_list.insert(b);
    assert!(d.compute_base_path().is_ok());
    assert_eq!(d.base_path, "/a/b");
}

#[test]
fn fold_base_folder_over_paths() {
    let paths = vec!["/a/b/c.jpg".to_string(), "/a/b/d/e.jpg".to_string(), "/a/x.png".to_string()];
    assert_eq!(fold_base_folder(&paths), "/a");
    assert_eq!(fold_base_folder(&vec![]), "");
}

#[test]
fn entries_equal_by_id() {
    let a = image("same", "a.jpg", 1);
    let b = image("same", "b.jpg", 2);
    let c = image("other", "a.jpg", 1);
    assert!(a == b);
    assert!(a != c);
}

#[test]
fn base_path_error_names_entry() {
    let mut d = AppData::new();
    let mut a = image("a", "a.jpg", 1);
    a.path = String::new();
    d.file_list.insert(a);
    d.base_path = "/keep".to_string();
    let e = d.compute_base_path().unwrap_err();
    assert_eq!(e.path, "");
    assert_eq!(e.message(), "Could not compute base path for file ");
    assert_eq!(d.base_path, "/keep");
}

#[test]
fn inserting_twice_equals_once() {
    let mut l = AppDataFileList::new();
    l.insert(image("a", "a.jpg", 1));
    l.insert(image("b", "b.jpg", 2));
    l.insert(image("b", "b.jpg", 3));
    l.insert(image("b", "b.jpg", 3));
    assert_eq!(l.full_len(), 2);
    assert_eq!(ids(&l), vec!["a", "b"]);
    assert_eq!(l.get("b").unwrap().size, 3);
}
