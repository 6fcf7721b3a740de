use newsroom::models::{NewImage, Post};
use newsroom::store::{MediaStore, StoreError};

fn post(id: i32, title: &str, posttime: i64) -> Post {
    Post {
        id,
        title: String::from(title),
        images: Vec::new(),
        content: String::from("content"),
        posttime,
    }
}

fn record(name: &str, main: Vec<u8>) -> NewImage {
    NewImage {
        imagename: String::from(name),
        caption: None,
        main,
        thumbnail: vec![9, 9],
        showthumbnail: true,
    }
}

#[test]
fn inserting_a_new_post_creates_exactly_one_row() {
    let mut store = MediaStore::new();
    let id = store.upsert_post(post(-1, "first", 10)).expect("insert must succeed");
    assert_eq!(id, 0);
    let listed = store.list_posts(0, 10);
    assert_eq!(listed.len(), 1);
    assert_eq!(listed[0].id, 0);
    assert_eq!(listed[0].title, "first");

    let id2 = store.upsert_post(post(-1, "second", 20)).expect("insert must succeed");
    assert_eq!(id2, 1);
    assert_eq!(store.list_posts(0, 10).len(), 2);
}

#[test]
fn updating_an_existing_post_mutates_only_that_row() {
    let mut store = MediaStore::new();
    let a = store.upsert_post(post(-1, "a", 10)).unwrap();
    let b = store.upsert_post(post(-1, "b", 20)).unwrap();

    let r = store.upsert_post(post(a, "a-edited", 30)).unwrap();
    assert_eq!(r, a);

    let listed = store.list_posts(0, 3);
    assert_eq!(listed.len(), 2);
    // the edited post now has the newest post time and comes first
    assert_eq!(listed[0].id, a);
    assert_eq!(listed[0].title, "a-edited");
    assert_eq!(listed[0].posttime, 30);
    // the other row is untouched
    assert_eq!(listed[1].id, b);
    assert_eq!(listed[1].title, "b");
    assert_eq!(listed[1].posttime, 20);
}

#[test]
fn updating_an_absent_id_is_a_silent_no_op() {
    let mut store = MediaStore::new();
    store.upsert_post(post(-1, "only", 10)).unwrap();
    let r = store.upsert_post(post(77, "ghost", 99));
    assert_eq!(r, Ok(77));
    let listed = store.list_posts(0, 3);
    assert_eq!(listed.len(), 1);
    assert_eq!(listed[0].title, "only");
}

#[test]
fn listing_clamps_the_requested_page_size() {
    let mut store = MediaStore::new();
    for k in 0..5i64 {
        store.upsert_post(post(-1, "p", 10 + k)).unwrap();
    }
    assert_eq!(store.list_posts(0, 1000).len(), 3);
    assert_eq!(store.list_posts(0, 3).len(), 3);
    assert_eq!(store.list_posts(0, 2).len(), 2);
    assert_eq!(store.list_posts(0, 0).len(), 0);
    assert_eq!(store.list_posts(0, -4).len(), 0);
}

#[test]
fn listing_is_newest_first_and_offset_windows_it() {
    let mut store = MediaStore::new();
    store.upsert_post(post(-1, "old", 10)).unwrap();
    store.upsert_post(post(-1, "mid", 20)).unwrap();
    store.upsert_post(post(-1, "new", 30)).unwrap();

    let page = store.list_posts(0, 3);
    let titles: Vec<&str> = page.iter().map(|p| p.title.as_str()).collect();
    assert_eq!(titles, vec!["new", "mid", "old"]);

    let second = store.list_posts(1, 2);
    let titles: Vec<&str> = second.iter().map(|p| p.title.as_str()).collect();
    assert_eq!(titles, vec!["mid", "old"]);

    assert_eq!(store.list_posts(3, 3).len(), 0);
    assert_eq!(store.list_posts(-1, 2).len(), 2);
}

#[test]
fn put_image_upserts_by_name_and_lists_by_recency() {
    let mut store = MediaStore::new();
    store.put_image(record("a.png", vec![1]));
    store.put_image(record("b.png", vec![2]));
    assert_eq!(store.list_images(), vec!["b.png", "a.png"]);

    // overwriting a name moves it to the front and keeps names unique
    store.put_image(record("a.png", vec![3]));
    assert_eq!(store.list_images(), vec!["a.png", "b.png"]);
    let rec = store.get_image(&String::from("a.png")).expect("present");
    assert_eq!(rec.main, vec![3]);
}

#[test]
fn get_image_is_exact_lookup() {
    let mut store = MediaStore::new();
    store.put_image(record("cat.png", vec![1, 2, 3]));
    let rec = store.get_image(&String::from("cat.png")).expect("present");
    assert_eq!(rec.imagename, "cat.png");
    assert_eq!(rec.caption, None);
    assert!(rec.showthumbnail);
    assert_eq!(rec.thumbnail, vec![9, 9]);
    assert!(store.get_image(&String::from("dog.png")).is_none());
    assert!(store.get_image(&String::from("cat")).is_none());
}

#[test]
fn store_error_values_compare() {
    assert_ne!(StoreError::NotFound, StoreError::QueryFailed);
}
