use shortener::error::LinkError;
use shortener::url::{after_insert, after_reread, after_update, check_source, found_from_count, LinkTable, Url};

#[test]
fn test_create() {
    let mut table = LinkTable::new();
    let src = "https://google.es";
    let url = Url::create(&mut table, src, 0).unwrap();
    assert!(url.get_src() == src);
    assert!(url.get_num() == 0);
}

#[test]
fn test_increase() {
    let mut table = LinkTable::new();
    let src = "https://atareao.es";
    let url = Url::create(&mut table, src, 0).unwrap();
    let new_url = Url::increase(&mut table, &url, 0).unwrap();
    assert!(new_url.get_src() == src);
    assert!(new_url.get_num() == 1);
}

#[test]
fn test_read_from_url() {
    let mut table = LinkTable::new();
    let src = "https://atareao.es";
    let url = Url::create(&mut table, src, 0).unwrap();
    let read_url = Url::read_from_url(&table, src).unwrap();
    assert!(read_url.get_src() == url.get_src());
    assert!(read_url.get_num() == url.get_num());
}

#[test]
fn test_delete() {
    let mut table = LinkTable::new();
    let src = "https://atareao.es";
    let url = Url::create(&mut table, src, 0).unwrap();
    let _result = Url::delete(&mut table, url.get_id());
    assert!(Url::exists_id(&table, url.get_id()) == false);
}

#[test]
fn identifiers_and_codes_in_creation_order() {
    let mut table = LinkTable::new();
    let first = Url::read_or_create(&mut table, "https://example.com", 0).unwrap();
    assert_eq!(first.get_id(), 1);
    assert_eq!(first.get_url(), "1");
    let second = Url::read_or_create(&mut table, "https://example.org", 0).unwrap();
    assert_eq!(second.get_id(), 2);
    assert_eq!(second.get_url(), "2");
    let mut created = vec![first, second];
    for k in 0..35 {
        let src = format!("https://example.net/{}", k);
        created.push(Url::read_or_create(&mut table, &src, 0).unwrap());
    }
    assert_eq!(created[35].get_id(), 36);
    assert_eq!(created[35].get_url(), "10");
    assert_eq!(created[36].get_id(), 37);
    assert_eq!(created[36].get_url(), "11");
    assert_eq!(table.len(), 37);
}

#[test]
fn get_or_create_twice_returns_same_row() {
    let mut table = LinkTable::new();
    let a = Url::read_or_create(&mut table, "https://example.com", 0).unwrap();
    let visited = Url::increase(&mut table, &a, 0).unwrap();
    assert_eq!(visited.get_num(), 1);
    let b = Url::read_or_create(&mut table, "https://example.com", 0).unwrap();
    assert_eq!(a.get_id(), b.get_id());
    assert_eq!(b.get_num(), 1);
    let c = Url::read_or_create(&mut table, "https://example.com", 0).unwrap();
    assert_eq!(c.get_id(), a.get_id());
    assert_eq!(c.get_num(), 1);
    assert_eq!(table.len(), 1);
}

#[test]
fn repeated_get_or_create_keeps_one_row() {
    let mut table = LinkTable::new();
    Url::read_or_create(&mut table, "https://other.example", 0).unwrap();
    for _ in 0..10 {
        let u = Url::read_or_create(&mut table, "https://example.com", 0).unwrap();
        assert_eq!(u.get_id(), 2);
    }
    let all = Url::read_all(&table);
    assert_eq!(all.len(), 2);
    assert_eq!(all.iter().filter(|u| u.get_src() == "https://example.com").count(), 1);
}

#[test]
fn visits_are_all_counted() {
    let mut table = LinkTable::new();
    let url = Url::create(&mut table, "https://example.com", 0).unwrap();
    for _ in 0..25 {
        Url::increase(&mut table, &url, 0).unwrap();
    }
    // the count is taken from the stored row, not from the stale record
    assert_eq!(url.get_num(), 0);
    assert_eq!(Url::read(&table, url.get_id()).unwrap().get_num(), 25);
}

#[test]
fn visit_refreshes_update_time() {
    let mut table = LinkTable::new();
    let url = Url::create(&mut table, "https://example.com", 1_000).unwrap();
    assert_eq!(url.get_created_at(), 1_000);
    assert_eq!(url.get_updated_at(), 1_000);
    let later = Url::increase(&mut table, &url, 5_000).unwrap();
    assert_eq!(later.get_num(), 1);
    assert_eq!(later.get_created_at(), 1_000);
    assert_eq!(later.get_updated_at(), 5_000);
    let earlier = Url::increase(&mut table, &url, 10).unwrap();
    assert_eq!(earlier.get_num(), 2);
    assert_eq!(earlier.get_updated_at(), 1_000);
}

#[test]
fn create_of_existing_source_is_ignored() {
    let mut table = LinkTable::new();
    let url = Url::create(&mut table, "https://example.com", 7).unwrap();
    Url::increase(&mut table, &url, 8).unwrap();
    assert_eq!(
        Url::create(&mut table, "https://example.com", 9).err(),
        Some(LinkError::NotFound)
    );
    assert_eq!(table.len(), 1);
    let stored = Url::read_from_url(&table, "https://example.com").unwrap();
    assert_eq!(stored.get_num(), 1);
    assert_eq!(stored.get_updated_at(), 8);
}

#[test]
fn create_of_empty_source_is_refused() {
    let mut table = LinkTable::new();
    assert_eq!(Url::create(&mut table, "", 0).err(), Some(LinkError::ConstraintViolation));
    assert_eq!(Url::read_or_create(&mut table, "", 0).err(), Some(LinkError::ConstraintViolation));
    assert_eq!(table.len(), 0);
}

#[test]
fn lookups_of_missing_rows_fail() {
    let table = LinkTable::new();
    assert_eq!(Url::read_from_url(&table, "https://example.com").err(), Some(LinkError::NotFound));
    assert_eq!(Url::read(&table, 1).err(), Some(LinkError::NotFound));
    assert!(!Url::exists_id(&table, 1));
}

#[test]
fn delete_of_missing_identifier_fails() {
    let mut table = LinkTable::new();
    Url::create(&mut table, "https://example.com", 0).unwrap();
    assert_eq!(Url::delete(&mut table, 42).err(), Some(LinkError::NotFound));
    assert!(!Url::exists_id(&table, 42));
    assert_eq!(table.len(), 1);
}

#[test]
fn delete_returns_removed_row() {
    let mut table = LinkTable::new();
    let a = Url::create(&mut table, "https://a.example", 0).unwrap();
    let b = Url::create(&mut table, "https://b.example", 0).unwrap();
    let gone = Url::delete(&mut table, a.get_id()).unwrap();
    assert_eq!(gone.get_src(), "https://a.example");
    assert!(!Url::exists_id(&table, a.get_id()));
    assert!(Url::exists_id(&table, b.get_id()));
    // identifiers are not reused
    let c = Url::create(&mut table, "https://c.example", 0).unwrap();
    assert_eq!(c.get_id(), 3);
}

#[test]
fn visit_of_missing_row_fails() {
    let mut table = LinkTable::new();
    let url = Url::create(&mut table, "https://example.com", 0).unwrap();
    Url::delete(&mut table, url.get_id()).unwrap();
    assert_eq!(Url::increase(&mut table, &url, 0).err(), Some(LinkError::NotFound));
    assert_eq!(Url::update(&mut table, url, 0).err(), Some(LinkError::NotFound));
}

#[test]
fn visit_of_full_counter_is_refused() {
    let mut table = LinkTable::new();
    let url = Url::create(&mut table, "https://example.com", 0).unwrap();
    let full = Url::from_parts(url.get_id(), "https://example.com".to_string(), u32::MAX, true, 0, 0)
        .unwrap();
    Url::update(&mut table, full, 1).unwrap();
    assert_eq!(
        Url::increase(&mut table, &url, 2).err(),
        Some(LinkError::ConstraintViolation)
    );
    assert_eq!(Url::read(&table, url.get_id()).unwrap().get_num(), u32::MAX);
}

#[test]
fn update_sets_mutable_fields_only() {
    let mut table = LinkTable::new();
    let url = Url::create(&mut table, "https://example.com", 100).unwrap();
    let edited = Url::from_parts(url.get_id(), "https://elsewhere.example".to_string(), 7, false, 50, 60)
        .unwrap();
    let stored = Url::update(&mut table, edited, 200).unwrap();
    assert_eq!(stored.get_src(), "https://example.com");
    assert_eq!(stored.get_num(), 7);
    assert!(!stored.is_active());
    assert_eq!(stored.get_created_at(), 100);
    assert_eq!(stored.get_updated_at(), 200);
    let skewed = Url::from_parts(url.get_id(), "https://example.com".to_string(), 7, true, 0, 0)
        .unwrap();
    let stored = Url::update(&mut table, skewed, 20).unwrap();
    assert_eq!(stored.get_created_at(), 100);
    assert_eq!(stored.get_updated_at(), 100);
}

#[test]
fn update_never_lowers_count() {
    let mut table = LinkTable::new();
    let url = Url::create(&mut table, "https://example.com", 0).unwrap();
    Url::increase(&mut table, &url, 1).unwrap();
    Url::increase(&mut table, &url, 2).unwrap();
    let lower = Url::from_parts(url.get_id(), "https://example.com".to_string(), 1, false, 0, 0)
        .unwrap();
    assert_eq!(Url::update(&mut table, lower, 3).err(), Some(LinkError::ConstraintViolation));
    let stored = Url::read(&table, url.get_id()).unwrap();
    assert_eq!(stored.get_num(), 2);
    assert!(stored.is_active());
    assert_eq!(stored.get_updated_at(), 2);
}

#[test]
fn empty_source_is_refused_before_insert() {
    assert_eq!(check_source(""), Some(LinkError::ConstraintViolation));
    assert_eq!(check_source("https://example.com"), None);
}

#[test]
fn get_or_create_steps() {
    assert_eq!(after_insert(Ok(())), None);
    assert_eq!(after_insert(Err(LinkError::NotFound)), None);
    assert_eq!(
        after_insert(Err(LinkError::StorageUnavailable)),
        Some(LinkError::StorageUnavailable)
    );
    assert_eq!(
        after_insert(Err(LinkError::ConstraintViolation)),
        Some(LinkError::ConstraintViolation)
    );
    assert_eq!(
        after_reread(Err(LinkError::NotFound)).err(),
        Some(LinkError::ConstraintViolation)
    );
    assert_eq!(
        after_reread(Err(LinkError::StorageUnavailable)).err(),
        Some(LinkError::StorageUnavailable)
    );
    let u = Url::from_parts(5, "https://example.com".to_string(), 2, true, 1, 1).unwrap();
    let r = after_reread(Ok(u)).unwrap();
    assert_eq!(r.get_id(), 5);
    assert_eq!(r.get_num(), 2);
}


#[test]
fn from_parts_checks_the_row() {
    assert!(Url::from_parts(0, "x".to_string(), 0, true, 0, 0).is_none());
    assert!(Url::from_parts(1i64 << 32, "x".to_string(), 0, true, 0, 0).is_none());
    assert!(Url::from_parts(1, "x".to_string(), 0, true, 5, 4).is_none());
    let u = Url::from_parts(36, "x".to_string(), 3, true, 4, 5).unwrap();
    let short = u.get_short();
    assert_eq!(short.src, "x");
    assert_eq!(short.short, "10");
    assert_eq!(short.num, 3);
}

#[test]
fn failed_count_reads_as_absent() {
    assert!(found_from_count(Some(1)));
    assert!(!found_from_count(Some(0)));
    assert!(!found_from_count(None));
}


#[test]
fn update_step_tells_lower_count_from_missing_row() {
    assert_eq!(after_update(Err(LinkError::NotFound), true).err(), Some(LinkError::ConstraintViolation));
    assert_eq!(after_update(Err(LinkError::NotFound), false).err(), Some(LinkError::NotFound));
    assert_eq!(
        after_update(Err(LinkError::StorageUnavailable), true).err(),
        Some(LinkError::StorageUnavailable)
    );
    let u = Url::from_parts(3, "https://example.com".to_string(), 4, true, 1, 2).unwrap();
    assert_eq!(after_update(Ok(u), true).unwrap().get_num(), 4);
}
