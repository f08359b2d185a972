use blog_core::auth::Auth;
use blog_core::contacts::{ContactRequest, ContactStore};
use blog_core::errors::BlogError;
use blog_core::gate::{get_contact_message, get_stats, post_contact};
use blog_core::session::UserState;
use blog_core::stats::{ArticleViews, PageKind, Stats, StatsStore};

fn admin() -> Auth {
    Auth::new(1, UserState::Admin)
}

fn anonymous() -> Auth {
    Auth::default()
}

#[test]
fn article_views_count_per_article() {
    let mut views = ArticleViews::new();
    assert_eq!(views.get(7), 0);
    views.add(7);
    views.add(7);
    views.add(9);
    assert_eq!(views.get(7), 2);
    assert_eq!(views.get(9), 1);
    assert_eq!(views.get(8), 0);
}

#[test]
fn find_or_create_is_idempotent_within_a_day() {
    let mut store = StatsStore::new();
    let day = 86_400;
    let first = store.find_or_create(day);
    assert_eq!(first.date, day);
    assert_eq!(first.home_views, 0);

    store.record_page_view_on(PageKind::Home, day);
    store.record_page_view_on(PageKind::Home, day);

    // the second call returns the same row identity and does not reset
    // the counters accumulated in between
    let second = store.find_or_create(day);
    assert_eq!(second.date, day);
    assert_eq!(second.home_views, 2);
    assert_eq!(store.find_all().len(), 1);
}

#[test]
fn find_or_create_today_keys_one_bucket() {
    let mut store = StatsStore::new();
    let first = store.find_or_create_today();
    let second = store.find_or_create_today();
    assert_eq!(first.date, second.date);
    assert_eq!(store.find_all().len(), 1);
}

#[test]
fn page_views_are_counted_per_page() {
    let mut store = StatsStore::new();
    let day = 1000;
    store.record_page_view_on(PageKind::Home, day);
    store.record_page_view_on(PageKind::About, day);
    store.record_page_view_on(PageKind::About, day);
    store.record_page_view_on(PageKind::Donate, day);

    let row = store.find(day).expect("bucket exists");
    assert_eq!(row.home_views, 1);
    assert_eq!(row.about_views, 2);
    assert_eq!(row.donate_views, 1);
}

#[test]
fn article_views_are_recorded_in_the_daily_bucket() {
    let mut store = StatsStore::new();
    let day = 2000;
    store.record_article_view_on(5, day);
    store.record_article_view_on(5, day);
    store.record_article_view_on(6, day);

    let row = store.find(day).expect("bucket exists");
    assert_eq!(row.article_views.get(5), 2);
    assert_eq!(row.article_views.get(6), 1);
}

#[test]
fn duplicate_day_insert_is_rejected() {
    let mut store = StatsStore::new();
    let row = Stats::zeroed(500);
    store.insert(&row).expect("first insert succeeds");
    assert_eq!(store.insert(&row), Err(BlogError::StoreFailure));
    assert_eq!(BlogError::StoreFailure.message(), "storage error");
}

#[test]
fn last_days_are_newest_first_and_bounded() {
    let mut store = StatsStore::new();
    for day in [100, 300, 200, 400] {
        store.find_or_create(day);
    }
    let last = store.get_last_days(3);
    let dates: Vec<i64> = last.iter().map(|s| s.date).collect();
    assert_eq!(dates, [400, 300, 200]);
    assert_eq!(store.get_last_days(0).len(), 0);
    assert_eq!(store.get_last_days(-1).len(), 4);
    assert_eq!(store.get_last_days(99).len(), 4);
}

#[test]
fn contact_messages_append_and_order_newest_first() {
    let mut contacts = ContactStore::new();
    let mut first = ContactRequest {
        id: None,
        created: 10,
        email: "a@example.com".to_string(),
        subject: "hello".to_string(),
        message: "first".to_string(),
    };
    contacts.insert(&mut first).expect("insert succeeds");
    let mut second = ContactRequest {
        id: None,
        created: 20,
        email: "b@example.com".to_string(),
        subject: "hi".to_string(),
        message: "second".to_string(),
    };
    contacts.insert(&mut second).expect("insert succeeds");

    assert_eq!(first.id, Some(1));
    assert_eq!(second.id, Some(2));
    assert_eq!(contacts.count_all(), 2);

    let ordered = contacts.find_all_orderd(10, 0);
    let subjects: Vec<&str> = ordered.iter().map(|c| c.subject.as_str()).collect();
    assert_eq!(subjects, ["hi", "hello"]);
    let offset_page = contacts.find_all_orderd(10, 1);
    assert_eq!(offset_page.len(), 1);
    assert_eq!(offset_page[0].subject, "hello");
}

#[test]
fn contact_update_needs_an_id() {
    let mut contacts = ContactStore::new();
    let mut c = ContactRequest {
        id: None,
        created: 10,
        email: "a@example.com".to_string(),
        subject: "s".to_string(),
        message: "m".to_string(),
    };
    contacts.insert(&mut c).expect("insert succeeds");

    let no_id = ContactRequest {
        id: None,
        created: 0,
        email: "x".to_string(),
        subject: "y".to_string(),
        message: "z".to_string(),
    };
    assert_eq!(contacts.update(&no_id), Err(BlogError::ValidationFailure));
    assert_eq!(BlogError::ValidationFailure.message(), "invalid input");

    let mut edit = c.clone();
    edit.subject = "edited".to_string();
    edit.created = 999;  // ignored: the stored creation time is kept
    contacts.update(&edit).expect("update succeeds");
    let row = contacts.find(c.id.unwrap()).expect("row exists");
    assert_eq!(row.subject, "edited");
    assert_eq!(row.created, 10);
}

#[test]
fn stats_overview_is_admin_only() {
    let mut stats = StatsStore::new();
    let mut contacts = ContactStore::new();
    stats.find_or_create(100);
    let posted = post_contact(
        &mut contacts,
        "v@example.com".to_string(),
        "question".to_string(),
        "how?".to_string(),
    )
    .expect("public submit succeeds");
    assert_eq!(posted.email, "v@example.com");

    let denied = get_stats(&anonymous(), &stats, &contacts);
    assert!(matches!(denied, Err(BlogError::Unauthorized)));

    let overview = get_stats(&admin(), &stats, &contacts).expect("admin overview");
    assert_eq!(overview.last_days.len(), 1);
    assert_eq!(overview.message_count, 1);
    assert_eq!(overview.top_messages.len(), 1);
    assert_eq!(overview.top_messages[0].subject, "question");
}

#[test]
fn contact_message_fetch_is_admin_only() {
    let mut contacts = ContactStore::new();
    let posted = post_contact(
        &mut contacts,
        "v@example.com".to_string(),
        "subject".to_string(),
        "body".to_string(),
    )
    .expect("public submit succeeds");
    let id = posted.id.unwrap();

    let denied = get_contact_message(&anonymous(), &contacts, id);
    assert!(matches!(denied, Err(BlogError::Unauthorized)));
    let fetched = get_contact_message(&admin(), &contacts, id).expect("admin fetch");
    assert_eq!(fetched.message, "body");
    let missing = get_contact_message(&admin(), &contacts, id + 1);
    assert!(matches!(missing, Err(BlogError::NotFound)));
    assert_eq!(BlogError::NotFound.message(), "not found");
}
