use fusion::combiner::pdf::location::LocationManager;

#[test]
fn location_test() {
    let mut manager = LocationManager::new();
    manager.push(Some(1), "output 1", 2, "");
    manager.push(Some(2), "output 2", 3, "");
    manager.push(Some(3), "output 3", 1, "");
    manager.insert_head(None, "toc", 1, "");
    assert_eq!(manager.data().len(), 4);
    assert_eq!(manager.data().first().unwrap().title, "toc");
    // Before the last entry stand one page of "toc", two of "output 1" and three of "output 2".
    assert_eq!(manager.data().last().unwrap().page, 6);
    assert_eq!(manager.total_pages(), 7);
}

#[test]
fn a_new_table_is_empty() {
    let manager = LocationManager::new();
    assert_eq!(manager.len(), 0);
    assert_eq!(manager.total_pages(), 0);
    assert!(manager.data().is_empty());
}

#[test]
fn push_starts_each_entry_at_the_total() {
    let mut manager = LocationManager::new();
    manager.push(Some(7), "a", 4, "a.pdf").push(None, "b", 0, "b.pdf").push(Some(9), "c", 5, "c.pdf");
    let data = manager.data();
    let pages: Vec<usize> = data.iter().map(|l| l.page).collect();
    assert_eq!(pages, vec![0, 4, 4]);
    assert_eq!(data[0].id, Some(7));
    assert_eq!(data[1].id, None);
    assert_eq!(data[2].path, "c.pdf");
    assert_eq!(manager.total_pages(), 9);
}

#[test]
fn every_page_is_the_sum_of_the_pages_before_it() {
    let mut manager = LocationManager::new();
    // The page arguments in the order in which the entries end up: 2, 1, 3, 5, 4.
    manager.push(None, "c", 3, "");
    manager.insert_head(None, "b", 1, "");
    manager.push(None, "d", 5, "");
    manager.insert_head(None, "a", 2, "");
    manager.push(None, "e", 4, "");
    let data = manager.data();
    let titles: Vec<&str> = data.iter().map(|l| l.title.as_str()).collect();
    assert_eq!(titles, vec!["a", "b", "c", "d", "e"]);
    let pages: Vec<usize> = data.iter().map(|l| l.page).collect();
    assert_eq!(pages, vec![0, 2, 3, 6, 11]);
    assert_eq!(manager.total_pages(), 15);
}

#[test]
fn find_page_takes_the_last_entry_of_an_id() {
    let mut manager = LocationManager::new();
    manager.push(Some(1), "a", 2, "");
    manager.push(Some(2), "b", 3, "");
    manager.push(Some(1), "c", 1, "");
    assert_eq!(manager.find_page(1), Some(5));
    assert_eq!(manager.find_page(2), Some(2));
    assert_eq!(manager.find_page(3), None);
}
