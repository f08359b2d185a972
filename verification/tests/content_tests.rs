use blog_core::articles::{Article, ArticleStore};
use blog_core::auth::Auth;
use blog_core::errors::BlogError;
use blog_core::gate::{
    article_create, article_delete, article_list, article_list_paginated,
    article_list_paginated_filterd, article_update, get_article_detail, paragraph_create,
    paragraph_delete, paragraph_get, paragraph_update, ArticleForm, ParagraphForm,
};
use blog_core::paragraphs::{Paragraph, ParagraphStore, ParagraphType};
use blog_core::render::render;
use blog_core::session::UserState;
use blog_core::stats::StatsStore;

fn admin() -> Auth {
    Auth::new(1, UserState::Admin)
}

fn anonymous() -> Auth {
    Auth::default()
}

fn form(title: &str) -> ArticleForm {
    ArticleForm {
        title: title.to_string(),
        teaser: None,
        cover: None,
        alias: None,
        published: false,
    }
}

fn make_article(store: &mut ArticleStore, title: &str, tags: &str, published: bool) -> i64 {
    let mut article = Article::new(title.to_string());
    article.tags = tags.to_string();
    article.published = published;
    store.insert(&mut article).expect("insert must succeed");
    article.id.expect("insert assigns an id")
}

#[test]
fn insert_then_find_round_trips_fields() {
    let mut store = ArticleStore::new();
    let paragraphs = ParagraphStore::new();
    let mut article = Article::new("My first post".to_string());
    article.teaser = "teaser".to_string();
    article.cover = "cover.png".to_string();
    article.tags = "rust,systems".to_string();
    article.alias = "first-post".to_string();
    article.published = true;
    let before = article.clone();
    assert_eq!(before.id, None);
    store.insert(&mut article).expect("insert must succeed");
    let id = article.id.expect("insert assigns an id");

    let found = store.find(id, &paragraphs).expect("inserted row must be found");
    // the same field values, except id (now populated) and paragraphs
    // (now populated, empty for a fresh article)
    assert_eq!(found.id, Some(id));
    assert_eq!(found.title, before.title);
    assert_eq!(found.teaser, before.teaser);
    assert_eq!(found.cover, before.cover);
    assert_eq!(found.created_at, before.created_at);
    assert_eq!(found.updated_at, before.updated_at);
    assert_eq!(found.published, before.published);
    assert_eq!(found.tags, before.tags);
    assert_eq!(found.alias, before.alias);
    assert!(found.paragraphs.as_ref().is_some_and(|p| p.is_empty()));
}

#[test]
fn find_by_alias_matches_exactly() {
    let mut store = ArticleStore::new();
    let paragraphs = ParagraphStore::new();
    let mut article = Article::new("Aliased".to_string());
    article.alias = "my-slug".to_string();
    store.insert(&mut article).expect("insert must succeed");

    let found = store
        .find_by_alias("my-slug", &paragraphs)
        .expect("alias must resolve");
    assert_eq!(found.id, article.id);
    assert!(matches!(
        store.find_by_alias("other", &paragraphs),
        Err(BlogError::NotFound)
    ));
}

#[test]
fn find_all_is_newest_first() {
    let mut store = ArticleStore::new();
    let mut a = Article::new("older".to_string());
    a.created_at = 100;
    a.updated_at = 100;
    store.insert(&mut a).expect("insert must succeed");
    let mut b = Article::new("newer".to_string());
    b.created_at = 200;
    b.updated_at = 200;
    store.insert(&mut b).expect("insert must succeed");
    let mut c = Article::new("middle".to_string());
    c.created_at = 150;
    c.updated_at = 150;
    store.insert(&mut c).expect("insert must succeed");

    let all = store.find_all();
    let titles: Vec<&str> = all.iter().map(|x| x.title.as_str()).collect();
    assert_eq!(titles, ["newer", "middle", "older"]);
}

#[test]
fn tag_filter_matches_by_substring() {
    let mut store = ArticleStore::new();
    let id = make_article(&mut store, "tagged", "rust,systems", true);

    let by_rust = store.find_articles_paginated("rust", 0, 10);
    assert_eq!(by_rust.len(), 1);
    assert_eq!(by_rust[0].id, Some(id));

    let by_all = store.find_articles_paginated("", 0, 10);
    assert_eq!(by_all.len(), 1);

    let by_python = store.find_articles_paginated("python", 0, 10);
    assert!(by_python.is_empty());
}

#[test]
fn pagination_windows_the_filtered_list() {
    let mut store = ArticleStore::new();
    for (i, title) in ["one", "two", "three", "four"].iter().enumerate() {
        let mut a = Article::new(title.to_string());
        a.created_at = (i as i64 + 1) * 10;
        store.insert(&mut a).expect("insert must succeed");
    }
    // newest first: four, three, two, one
    let page = store.find_articles_paginated("", 1, 2);
    let titles: Vec<&str> = page.iter().map(|x| x.title.as_str()).collect();
    assert_eq!(titles, ["three", "two"]);

    // offset past the end yields nothing; negative offset skips nothing;
    // negative limit leaves the tail unbounded
    assert!(store.find_articles_paginated("", 10, 2).is_empty());
    assert_eq!(store.find_articles_paginated("", -3, 2).len(), 2);
    assert_eq!(store.find_articles_paginated("", 1, -1).len(), 3);
    assert_eq!(store.find_articles_paginated("", 0, 0).len(), 0);
}

#[test]
fn unpublished_articles_are_hidden_from_non_admins() {
    let mut store = ArticleStore::new();
    let paragraphs = ParagraphStore::new();
    let mut stats = StatsStore::new();
    let hidden = make_article(&mut store, "draft", "", false);
    let visible = make_article(&mut store, "live", "", true);

    let anon_list = article_list(&anonymous(), &store);
    assert_eq!(anon_list.len(), 1);
    assert_eq!(anon_list[0].id, Some(visible));

    let admin_list = article_list(&admin(), &store);
    assert_eq!(admin_list.len(), 2);

    let anon_page = article_list_paginated(&anonymous(), &store, 0, 10);
    assert_eq!(anon_page.len(), 1);
    let anon_tagged = article_list_paginated_filterd(&anonymous(), &store, "", 0, 10);
    assert_eq!(anon_tagged.len(), 1);

    // a single fetch of the draft is "not found" for a visitor, found for
    // the admin: indistinguishable from nonexistence
    let segment = hidden.to_string();
    let denied = get_article_detail(&anonymous(), &store, &paragraphs, &mut stats, &segment);
    assert!(matches!(denied, Err(BlogError::NotFound)));
    let granted = get_article_detail(&admin(), &store, &paragraphs, &mut stats, &segment);
    assert_eq!(granted.expect("admin sees drafts").id, Some(hidden));
}

#[test]
fn article_detail_resolves_by_id_or_alias() {
    let mut store = ArticleStore::new();
    let paragraphs = ParagraphStore::new();
    let mut stats = StatsStore::new();
    let mut article = Article::new("detail".to_string());
    article.alias = "my-story".to_string();
    article.published = true;
    store.insert(&mut article).expect("insert must succeed");
    let id = article.id.unwrap();

    let by_id = get_article_detail(
        &anonymous(),
        &store,
        &paragraphs,
        &mut stats,
        &id.to_string(),
    );
    assert_eq!(by_id.expect("numeric segment resolves by id").id, Some(id));

    let by_alias = get_article_detail(&anonymous(), &store, &paragraphs, &mut stats, "my-story");
    assert_eq!(by_alias.expect("alias resolves").id, Some(id));

    // each served view was counted in a daily bucket
    assert_eq!(stats.find_all().len(), 1);
    assert!(stats.find_all()[0].article_views.get(id) >= 2);

    let missing = get_article_detail(&anonymous(), &store, &paragraphs, &mut stats, "no-such");
    assert!(matches!(missing, Err(BlogError::NotFound)));
}

#[test]
fn anonymous_delete_is_rejected_before_any_row_is_removed() {
    let mut store = ArticleStore::new();
    let paragraphs = ParagraphStore::new();
    let id = make_article(&mut store, "keep me", "", true);

    let denied = article_delete(&anonymous(), &mut store, id);
    assert_eq!(denied, Err(BlogError::Unauthorized));

    // the row is still there for an admin fetch
    let found = store.find(id, &paragraphs);
    assert_eq!(found.expect("row must survive").id, Some(id));

    article_delete(&admin(), &mut store, id).expect("admin delete succeeds");
    assert!(matches!(store.find(id, &paragraphs), Err(BlogError::NotFound)));
}

#[test]
fn article_create_requires_admin_and_uses_title_only() {
    let mut store = ArticleStore::new();
    let denied = article_create(&anonymous(), &mut store, form("nope"));
    assert!(matches!(denied, Err(BlogError::Unauthorized)));
    assert!(store.find_all().is_empty());

    let mut f = form("Hello");
    f.teaser = Some("ignored at creation".to_string());
    f.published = true;
    let created = article_create(&admin(), &mut store, f).expect("admin create succeeds");
    assert_eq!(created.title, "Hello");
    assert_eq!(created.teaser, "");
    assert!(!created.published);
    assert_eq!(created.created_at, created.updated_at);
}

#[test]
fn article_update_replaces_form_fields_only() {
    let mut store = ArticleStore::new();
    let paragraphs = ParagraphStore::new();
    let id = make_article(&mut store, "before", "tags-stay", false);
    let old = store.find(id, &paragraphs).expect("row exists");

    let f = ArticleForm {
        title: "after".to_string(),
        teaser: Some("new teaser".to_string()),
        cover: None,
        alias: Some("new-alias".to_string()),
        published: true,
    };
    let updated =
        article_update(&admin(), &mut store, &paragraphs, id, &f).expect("admin update succeeds");
    assert_eq!(updated.title, "after");
    assert_eq!(updated.teaser, "new teaser");
    assert_eq!(updated.cover, "");
    assert_eq!(updated.alias, "new-alias");
    assert!(updated.published);
    // tags and both timestamps are left as stored
    assert_eq!(updated.tags, "tags-stay");
    assert_eq!(updated.created_at, old.created_at);
    assert_eq!(updated.updated_at, old.updated_at);

    let refetched = store.find(id, &paragraphs).expect("row exists");
    assert_eq!(refetched.title, "after");

    let missing = article_update(&admin(), &mut store, &paragraphs, id + 100, &f);
    assert!(matches!(missing, Err(BlogError::NotFound)));
    let denied = article_update(&anonymous(), &mut store, &paragraphs, id, &f);
    assert!(matches!(denied, Err(BlogError::Unauthorized)));
}

#[test]
fn markdown_paragraphs_render_on_read() {
    let mut articles = ArticleStore::new();
    let mut paragraphs = ParagraphStore::new();
    let article_id = make_article(&mut articles, "post", "", true);

    let md = paragraph_create(
        &admin(),
        &mut paragraphs,
        ParagraphForm {
            id: None,
            article_id,
            paragraph_type: ParagraphType::Markdown,
            content: "# Hi".to_string(),
        },
    )
    .expect("create succeeds");
    let md_id = md.id.unwrap();

    let html = paragraph_create(
        &admin(),
        &mut paragraphs,
        ParagraphForm {
            id: None,
            article_id,
            paragraph_type: ParagraphType::Html,
            content: "# Hi".to_string(),
        },
    )
    .expect("create succeeds");
    let html_id = html.id.unwrap();

    // markdown renders to an HTML heading containing the text
    let fetched_md = paragraphs.find(md_id).expect("row exists");
    let rendered = fetched_md.rendered.expect("markdown gets a rendered form");
    assert!(rendered.contains("<h1"), "got {:?}", rendered);
    assert!(rendered.contains("Hi"));
    assert_ne!(rendered, "# Hi");
    assert_eq!(paragraph_get(&paragraphs, md_id).unwrap(), rendered);

    // a non-markdown paragraph with the same content gets no rendered
    // form and the raw content is used instead
    let fetched_html = paragraphs.find(html_id).expect("row exists");
    assert_eq!(fetched_html.rendered, None);
    assert_eq!(paragraph_get(&paragraphs, html_id).unwrap(), "# Hi");

    // the pure render pipeline says the same
    assert!(render("# Hi", &ParagraphType::Markdown).is_some());
    assert!(render("# Hi", &ParagraphType::Html).is_none());
}

#[test]
fn paragraphs_attach_to_their_article_in_stored_order() {
    let mut articles = ArticleStore::new();
    let mut paragraphs = ParagraphStore::new();
    let article_id = make_article(&mut articles, "post", "", true);
    let other_id = make_article(&mut articles, "other", "", true);

    for (pos, text) in ["first", "second"].iter().enumerate() {
        let mut p = Paragraph {
            id: None,
            article_id,
            title: String::new(),
            description: String::new(),
            paragraph_type: ParagraphType::Html,
            position: pos as i64,
            content: text.to_string(),
            rendered: None,
        };
        paragraphs.insert(&mut p).expect("insert succeeds");
    }
    let mut stray = Paragraph {
        id: None,
        article_id: other_id,
        title: String::new(),
        description: String::new(),
        paragraph_type: ParagraphType::Html,
        position: 0,
        content: "elsewhere".to_string(),
        rendered: None,
    };
    paragraphs.insert(&mut stray).expect("insert succeeds");

    let fetched = articles.find(article_id, &paragraphs).expect("row exists");
    let attached = fetched.paragraphs.expect("single fetch attaches paragraphs");
    let contents: Vec<&str> = attached.iter().map(|p| p.content.as_str()).collect();
    assert_eq!(contents, ["first", "second"]);
}

#[test]
fn paragraph_update_needs_id_and_touches_content_and_type_only() {
    let mut paragraphs = ParagraphStore::new();
    let created = paragraph_create(
        &admin(),
        &mut paragraphs,
        ParagraphForm {
            id: None,
            article_id: 1,
            paragraph_type: ParagraphType::Html,
            content: "raw".to_string(),
        },
    )
    .expect("create succeeds");
    let id = created.id.unwrap();

    let no_id = paragraph_update(
        &admin(),
        &mut paragraphs,
        &ParagraphForm {
            id: None,
            article_id: 99,
            paragraph_type: ParagraphType::Markdown,
            content: "x".to_string(),
        },
    );
    assert_eq!(no_id, Err(BlogError::ValidationFailure));

    let missing = paragraph_update(
        &admin(),
        &mut paragraphs,
        &ParagraphForm {
            id: Some(id + 7),
            article_id: 99,
            paragraph_type: ParagraphType::Markdown,
            content: "x".to_string(),
        },
    );
    assert_eq!(missing, Err(BlogError::NotFound));

    paragraph_update(
        &admin(),
        &mut paragraphs,
        &ParagraphForm {
            id: Some(id),
            article_id: 99,
            paragraph_type: ParagraphType::Markdown,
            content: "# New".to_string(),
        },
    )
    .expect("update succeeds");

    let after = paragraphs.find(id).expect("row exists");
    assert_eq!(after.content, "# New");
    assert!(matches!(after.paragraph_type, ParagraphType::Markdown));

    paragraph_delete(&admin(), &mut paragraphs, id).expect("delete succeeds");
    assert!(matches!(paragraphs.find(id), Err(BlogError::NotFound)));
}

#[test]
fn deleting_an_article_leaves_its_paragraphs() {
    let mut articles = ArticleStore::new();
    let mut paragraphs = ParagraphStore::new();
    let article_id = make_article(&mut articles, "doomed", "", true);
    let mut p = Paragraph {
        id: None,
        article_id,
        title: String::new(),
        description: String::new(),
        paragraph_type: ParagraphType::Html,
        position: 0,
        content: "orphan".to_string(),
        rendered: None,
    };
    paragraphs.insert(&mut p).expect("insert succeeds");

    article_delete(&admin(), &mut articles, article_id).expect("delete succeeds");
    // no cascade: the paragraph row is intentionally left behind
    assert_eq!(paragraphs.find_by_article_id(article_id).len(), 1);
}
