use vstd::prelude::*;
use crate::articles::Article;
use crate::articles::ArticleStore;
use crate::articles::ArticleV;
use crate::articles::attach;
use crate::articles::find_alias_spec;
use crate::articles::find_article_spec;
use crate::articles::insert_sorted;
use crate::articles::with_id;
use crate::articles::with_tag;
use crate::auth::Auth;
use crate::clock::now_timestamp;
use crate::contacts::ContactRequest;
use crate::contacts::ContactStore;
use crate::errors::BlogError;
use crate::paragraphs::Paragraph;
use crate::paragraphs::ParagraphStore;
use crate::paragraphs::ParagraphType;
use crate::paragraphs::ParagraphV;
use crate::paragraphs::display_spec;
use crate::paragraphs::find_row_spec;
use crate::paragraphs::of_article;
use crate::paragraphs::rendered_all;
use crate::paragraphs::with_render;
use crate::rows::first_match;
use crate::rows::lemma_first_match_bounds;
use crate::rows::window;
use crate::session::UserState;
use crate::stats::Stats;
use crate::stats::StatsStore;
use crate::stats::record_article_spec;
use crate::text::parse_i64;
use crate::text::parse_i64_spec;

verus! {

/// The per-request context handed to the template renderer.
#[derive(Clone, Copy, PartialEq, Eq, Structural, Debug)]
pub struct GlobalContext {
    pub user_state: UserState,
}

impl GlobalContext {
    /// The context of one resolved identity.
    pub fn new(auth: &Auth) -> (r: Self)
        ensures
            r == (GlobalContext { user_state: auth.user_state }),
    {
        GlobalContext { user_state: auth.user_state }
    }
}

/// The form an article create or update submits. Only the title is used
/// at creation; an update replaces title, teaser, cover, alias and the
/// publication flag, with absent optional fields becoming empty.
#[derive(Debug)]
pub struct ArticleForm {
    pub title: String,
    pub teaser: Option<String>,
    pub cover: Option<String>,
    pub alias: Option<String>,
    pub published: bool,
}

/// The mathematical value of an `ArticleForm`.
pub ghost struct ArticleFormV {
    pub title: Seq<char>,
    pub teaser: Option<Seq<char>>,
    pub cover: Option<Seq<char>>,
    pub alias: Option<Seq<char>>,
    pub published: bool,
}

impl View for ArticleForm {
    type V = ArticleFormV;

    open spec fn view(&self) -> ArticleFormV {
        ArticleFormV {
            title: self.title@,
            teaser: match self.teaser {
                Some(ref s) => Some(s@),
                None => None,
            },
            cover: match self.cover {
                Some(ref s) => Some(s@),
                None => None,
            },
            alias: match self.alias {
                Some(ref s) => Some(s@),
                None => None,
            },
            published: self.published,
        }
    }
}

/// An absent optional form field reads as the empty string.
pub open spec fn opt_or_empty(o: Option<Seq<char>>) -> Seq<char> {
    match o {
        Some(s) => s,
        None => Seq::empty(),
    }
}

/// `row` with the form's replaceable fields replaced: title, teaser,
/// cover, alias and the publication flag; id, timestamps and tags are
/// kept.
pub open spec fn apply_form(row: ArticleV, f: ArticleFormV) -> ArticleV {
    ArticleV {
        title: f.title,
        teaser: opt_or_empty(f.teaser),
        cover: opt_or_empty(f.cover),
        alias: opt_or_empty(f.alias),
        published: f.published,
        ..row
    }
}

/// The form a paragraph create or update submits.
#[derive(Debug)]
pub struct ParagraphForm {
    pub id: Option<i64>,
    pub article_id: i64,
    pub paragraph_type: ParagraphType,
    pub content: String,
}

/// The predicate an article row satisfies when it is published, and so
/// visible to anonymous visitors.
pub open spec fn published() -> spec_fn(ArticleV) -> bool {
    |a: ArticleV| a.published
}

/// The listing an identity is entitled to: administrators see every row,
/// anyone else only the published ones.
pub open spec fn visible_listing(rows: Seq<ArticleV>, admin: bool) -> Seq<ArticleV> {
    if admin {
        rows
    } else {
        rows.filter(published())
    }
}

/// A non-admin listing never leaks hidden content: every article it
/// holds is published, and in particular an unpublished stored article
/// appears in the admin listing but in no non-admin listing.
pub proof fn lemma_unpublished_hidden(rows: Seq<ArticleV>, i: int)
    requires
        0 <= i < rows.len(),
        !rows[i].published,
    ensures
        forall|j: int|
            0 <= j < visible_listing(rows, false).len() ==> #[trigger] visible_listing(
                rows,
                false,
            )[j] != rows[i],
        visible_listing(rows, true)[i] == rows[i],
{
    let f = rows.filter(published());
    assert forall|j: int| 0 <= j < f.len() implies f[j] != rows[i] by {
        rows.lemma_filter_pred(published(), j);
    }
}

/// The article fetched by a path segment: a numeric segment looks up by
/// id, any other by alias.
pub open spec fn resolve_article(rows: Seq<ArticleV>, segment: Seq<char>) -> Option<ArticleV> {
    match parse_i64_spec(segment) {
        Some(id) => find_article_spec(rows, id),
        None => find_alias_spec(rows, segment),
    }
}

/// Creates an article from the submitted form — only its title is taken,
/// everything else starts empty and unpublished — after checking the
/// administrator capability; the new row is stored and handed back with
/// its assigned id.
pub fn article_create(auth: &Auth, store: &mut ArticleStore, form: ArticleForm) -> (r: Result<
    Article,
    BlogError,
>)
    requires
        old(store).wf(),
    ensures
        final(store).wf(),
        auth.user_state != UserState::Admin ==> r == Err::<Article, BlogError>(
            BlogError::Unauthorized,
        ) && final(store)@ == old(store)@,
        auth.user_state == UserState::Admin ==> match r {
            Ok(a) => {
                &&& a@.id == Some(old(store).spec_next_id())
                &&& a@.title == form@.title
                &&& a@.teaser == Seq::<char>::empty()
                &&& a@.cover == Seq::<char>::empty()
                &&& a@.tags == Seq::<char>::empty()
                &&& a@.alias == Seq::<char>::empty()
                &&& a@.published == false
                &&& a@.paragraphs is None
                &&& a@.created_at == a@.updated_at
                &&& final(store)@ == insert_sorted(
                    old(store)@,
                    (ArticleV { paragraphs: None, ..a@ }),
                )
            },
            Err(e) => {
                &&& e == BlogError::StoreFailure
                &&& old(store).spec_next_id() == i64::MAX
                &&& final(store)@ == old(store)@
            },
        },
{
    if !auth.is_admin() {
        return Err(BlogError::Unauthorized);
    }
    let mut article = Article::new(form.title);
    match store.insert(&mut article) {
        Ok(()) => Ok(article),
        Err(e) => Err(e),
    }
}

/// Replaces an article's title, teaser, cover, alias and publication
/// flag from the submitted form, after checking the administrator
/// capability; timestamps and tags are left as stored. The updated
/// article is handed back with its paragraphs attached.
pub fn article_update(
    auth: &Auth,
    store: &mut ArticleStore,
    paragraphs: &ParagraphStore,
    id: i64,
    form: &ArticleForm,
) -> (r: Result<Article, BlogError>)
    requires
        old(store).wf(),
    ensures
        final(store).wf(),
        auth.user_state != UserState::Admin ==> r == Err::<Article, BlogError>(
            BlogError::Unauthorized,
        ) && final(store)@ == old(store)@,
        auth.user_state == UserState::Admin ==> match find_article_spec(old(store)@, id) {
            Some(row) => {
                &&& r matches Ok(a)
                &&& a@ == apply_form(
                    attach(row, rendered_all(paragraphs@.filter(of_article(id)))),
                    form@,
                )
                &&& final(store)@ == insert_sorted(
                    old(store)@.remove(first_match(old(store)@, with_id(id))),
                    (ArticleV { paragraphs: None, ..apply_form(row, form@) }),
                )
            },
            None => r == Err::<Article, BlogError>(BlogError::NotFound) && final(store)@ == old(
                store,
            )@,
        },
{
    if !auth.is_admin() {
        return Err(BlogError::Unauthorized);
    }
    let mut article = match store.find(id, paragraphs) {
        Ok(a) => a,
        Err(_) => {
            return Err(BlogError::NotFound);
        },
    };
    proof {
        lemma_first_match_bounds(store@, with_id(id));
    }
    article.title = form.title.clone();
    article.teaser = match &form.teaser {
        Some(s) => s.clone(),
        None => String::new(),
    };
    article.cover = match &form.cover {
        Some(s) => s.clone(),
        None => String::new(),
    };
    article.alias = match &form.alias {
        Some(s) => s.clone(),
        None => String::new(),
    };
    article.published = form.published;
    let updated = store.update(&article);
    proof {
        assert(updated is Ok);
    }
    Ok(article)
}

/// Removes an article by id after checking the administrator capability:
/// an anonymous or non-admin delete is rejected before any row is
/// touched. The delete does not cascade to the article's paragraphs.
pub fn article_delete(auth: &Auth, store: &mut ArticleStore, id: i64) -> (r: Result<
    (),
    BlogError,
>)
    requires
        old(store).wf(),
    ensures
        final(store).wf(),
        auth.user_state != UserState::Admin ==> r == Err::<(), BlogError>(
            BlogError::Unauthorized,
        ) && final(store)@ == old(store)@,
        auth.user_state == UserState::Admin ==> r is Ok && final(store)@ == old(store)@.filter(
            |a: ArticleV| a.id != Some(id),
        ),
{
    if !auth.is_admin() {
        return Err(BlogError::Unauthorized);
    }
    store.delete(id)
}

/// The full article listing an identity is entitled to: every stored row
/// for an administrator, only published rows for anyone else; newest
/// first, paragraphs never attached.
pub fn article_list(auth: &Auth, store: &ArticleStore) -> (r: Vec<Article>)
    ensures
        r.deep_view() == visible_listing(store@, auth.user_state == UserState::Admin),
{
    let all = store.find_all();
    if auth.is_admin() {
        all
    } else {
        filter_published(all)
    }
}

/// The offset/limit page of the full listing, with unpublished rows then
/// removed for a non-admin — the publication filter applies after the
/// window is cut, so a non-admin page may hold fewer rows than the
/// window.
pub fn article_list_paginated(
    auth: &Auth,
    store: &ArticleStore,
    offset: i64,
    limit: i64,
) -> (r: Vec<Article>)
    ensures
        r.deep_view() == visible_listing(
            window(store@.filter(with_tag(Seq::empty())), offset, limit),
            auth.user_state == UserState::Admin,
        ),
{
    let page = store.find_articles_paginated("", offset, limit);
    proof {
        reveal_strlit("");
        assert(""@ =~= Seq::<char>::empty());
    }
    if auth.is_admin() {
        page
    } else {
        filter_published(page)
    }
}

/// The offset/limit page of the tag-filtered listing, with unpublished
/// rows then removed for a non-admin.
pub fn article_list_paginated_filterd(
    auth: &Auth,
    store: &ArticleStore,
    tag: &str,
    offset: i64,
    limit: i64,
) -> (r: Vec<Article>)
    ensures
        r.deep_view() == visible_listing(
            window(store@.filter(with_tag(tag@)), offset, limit),
            auth.user_state == UserState::Admin,
        ),
{
    let page = store.find_articles_paginated(tag, offset, limit);
    if auth.is_admin() {
        page
    } else {
        filter_published(page)
    }
}

/// Keeps only the published articles of a fetched list.
fn filter_published(v: Vec<Article>) -> (r: Vec<Article>)
    ensures
        r.deep_view() == v.deep_view().filter(published()),
{
    let n = v.len();
    let mut out: Vec<Article> = Vec::new();
    let mut i: usize = 0;
    while i < n
        invariant
            n == v.len(),
            i <= n,
            out.deep_view() =~= v.deep_view().subrange(0, i as int).filter(published()),
        decreases n - i,
    {
        proof {
            reveal(Seq::filter);
            let pre = v.deep_view().subrange(0, i as int);
            assert(v.deep_view().subrange(0, i as int + 1) =~= pre.push(v.deep_view()[i as int]));
            assert(pre.push(v.deep_view()[i as int]).drop_last() =~= pre);
        }
        let ghost pre_dv = out.deep_view();
        if v[i].published {
            out.push(v[i].clone());
            proof {
                assert(out.deep_view() =~= pre_dv.push(v.deep_view()[i as int]));
            }
        }
        proof {
            assert(out.deep_view() =~= v.deep_view().subrange(0, i as int + 1).filter(
                published(),
            ));
        }
        i = i + 1;
    }
    proof {
        assert(v.deep_view().subrange(0, n as int) =~= v.deep_view());
    }
    out
}

/// Serves one article page: the path segment resolves by numeric id or
/// by alias; an article that is absent — or unpublished and requested by
/// a non-admin — is reported as not found, deliberately
/// indistinguishable from nonexistence. A served view is counted in
/// today's statistics bucket before the article is handed back.
pub fn get_article_detail(
    auth: &Auth,
    articles: &ArticleStore,
    paragraphs: &ParagraphStore,
    stats: &mut StatsStore,
    segment: &str,
) -> (r: Result<Article, BlogError>)
    requires
        articles.wf(),
        old(stats).wf(),
    ensures
        final(stats).wf(),
        match resolve_article(articles@, segment@) {
            None => r == Err::<Article, BlogError>(BlogError::NotFound) && final(stats)@ == old(
                stats,
            )@,
            Some(row) => {
                if row.published || auth.user_state == UserState::Admin {
                    &&& r matches Ok(a)
                    &&& row.id matches Some(rid) && a@ == attach(
                        row,
                        rendered_all(paragraphs@.filter(of_article(rid))),
                    ) && (exists|d: i64|
                        final(stats)@ == #[trigger] record_article_spec(old(stats)@, rid, d))
                } else {
                    r == Err::<Article, BlogError>(BlogError::NotFound) && final(stats)@ == old(
                        stats,
                    )@
                }
            },
        },
{
    let found = match parse_i64(segment) {
        Some(id) => {
            let f = articles.find(id, paragraphs);
            proof {
                lemma_first_match_bounds(articles@, with_id(id));
            }
            f
        },
        None => articles.find_by_alias(segment, paragraphs),
    };
    let article = match found {
        Ok(a) => a,
        Err(_) => {
            return Err(BlogError::NotFound);
        },
    };
    if !article.published && !auth.is_admin() {
        return Err(BlogError::NotFound);
    }
    let rid = match article.id {
        Some(rid) => rid,
        None => {
            proof {
                assert(false);
            }
            0
        },
    };
    stats.record_article_view(rid);
    Ok(article)
}

/// Serves one paragraph's display HTML: the rendered form of a markdown
/// block, the raw content of any other. No capability is required.
pub fn paragraph_get(store: &ParagraphStore, id: i64) -> (r: Result<String, BlogError>)
    ensures
        match r {
            Ok(s) => find_row_spec(store@, id) matches Some(row) && s@ == display_spec(
                with_render(row),
            ),
            Err(e) => e == BlogError::NotFound && find_row_spec(store@, id) is None,
        },
{
    let p = match store.find(id) {
        Ok(p) => p,
        Err(e) => {
            return Err(e);
        },
    };
    match p.rendered {
        Some(rendered) => Ok(rendered),
        None => Ok(p.content),
    }
}

/// Creates a content block from the submitted form after checking the
/// administrator capability: the caller supplies the owning article, the
/// type and the raw content; position, title and description start
/// empty. The new block is handed back with its assigned id.
pub fn paragraph_create(auth: &Auth, store: &mut ParagraphStore, form: ParagraphForm) -> (r:
    Result<Paragraph, BlogError>)
    requires
        old(store).wf(),
    ensures
        final(store).wf(),
        auth.user_state != UserState::Admin ==> r == Err::<Paragraph, BlogError>(
            BlogError::Unauthorized,
        ) && final(store)@ == old(store)@,
        auth.user_state == UserState::Admin ==> match r {
            Ok(p) => {
                &&& p@ == (ParagraphV {
                    id: Some(old(store).spec_next_id()),
                    article_id: form.article_id,
                    title: Seq::empty(),
                    description: Seq::empty(),
                    paragraph_type: form.paragraph_type,
                    position: 0,
                    content: form.content@,
                    rendered: None,
                })
                &&& final(store)@ == old(store)@.push(p@)
            },
            Err(e) => {
                &&& e == BlogError::StoreFailure
                &&& old(store).spec_next_id() == i64::MAX
                &&& final(store)@ == old(store)@
            },
        },
{
    if !auth.is_admin() {
        return Err(BlogError::Unauthorized);
    }
    let mut paragraph = Paragraph {
        id: form.id,
        article_id: form.article_id,
        paragraph_type: form.paragraph_type,
        content: form.content,
        position: 0,
        title: String::new(),
        description: String::new(),
        rendered: None,
    };
    match store.insert(&mut paragraph) {
        Ok(()) => Ok(paragraph),
        Err(e) => Err(e),
    }
}

/// Replaces a block's content and type from the submitted form after
/// checking the administrator capability; its title, description and
/// position are left as stored. A form without an id is rejected as
/// invalid; an unknown id as not found.
pub fn paragraph_update(auth: &Auth, store: &mut ParagraphStore, form: &ParagraphForm) -> (r:
    Result<(), BlogError>)
    requires
        old(store).wf(),
    ensures
        final(store).wf(),
        auth.user_state != UserState::Admin ==> r == Err::<(), BlogError>(
            BlogError::Unauthorized,
        ) && final(store)@ == old(store)@,
        auth.user_state == UserState::Admin ==> match form.id {
            None => r == Err::<(), BlogError>(BlogError::ValidationFailure) && final(store)@
                == old(store)@,
            Some(id) => match find_row_spec(old(store)@, id) {
                None => r == Err::<(), BlogError>(BlogError::NotFound) && final(store)@ == old(
                    store,
                )@,
                Some(row) => r is Ok && final(store)@ == old(store)@.update(
                    first_match(old(store)@, crate::paragraphs::with_id(id)),
                    (ParagraphV {
                        paragraph_type: form.paragraph_type,
                        content: form.content@,
                        rendered: None,
                        ..row
                    }),
                ),
            },
        },
{
    if !auth.is_admin() {
        return Err(BlogError::Unauthorized);
    }
    let id = match form.id {
        Some(id) => id,
        None => {
            return Err(BlogError::ValidationFailure);
        },
    };
    let mut paragraph = match store.find(id) {
        Ok(p) => p,
        Err(_) => {
            return Err(BlogError::NotFound);
        },
    };
    proof {
        lemma_first_match_bounds(store@, crate::paragraphs::with_id(id));
    }
    paragraph.content = form.content.clone();
    paragraph.paragraph_type = form.paragraph_type;
    store.update(&paragraph)
}

/// Removes a block by id after checking the administrator capability.
pub fn paragraph_delete(auth: &Auth, store: &mut ParagraphStore, id: i64) -> (r: Result<
    (),
    BlogError,
>)
    requires
        old(store).wf(),
    ensures
        final(store).wf(),
        auth.user_state != UserState::Admin ==> r == Err::<(), BlogError>(
            BlogError::Unauthorized,
        ) && final(store)@ == old(store)@,
        auth.user_state == UserState::Admin ==> r is Ok && final(store)@ == old(store)@.filter(
            |p: ParagraphV| p.id != Some(id),
        ),
{
    if !auth.is_admin() {
        return Err(BlogError::Unauthorized);
    }
    store.delete(id)
}

/// The administrator's statistics overview: the three most recent daily
/// buckets, the total number of contact messages, and the ten newest
/// messages.
#[derive(Debug)]
pub struct StatsOverview {
    pub last_days: Vec<Stats>,
    pub message_count: i64,
    pub top_messages: Vec<ContactRequest>,
}

/// Assembles the statistics overview after checking the administrator
/// capability.
pub fn get_stats(auth: &Auth, stats: &StatsStore, contacts: &ContactStore) -> (r: Result<
    StatsOverview,
    BlogError,
>)
    requires
        contacts.wf(),
    ensures
        auth.user_state != UserState::Admin ==> r == Err::<StatsOverview, BlogError>(
            BlogError::Unauthorized,
        ),
        auth.user_state == UserState::Admin ==> (r matches Ok(o) && o.last_days.deep_view()
            == window(stats@, 0, 3) && o.message_count == contacts@.len()
            && o.top_messages.deep_view() == window(contacts@, 0, 10)),
{
    if !auth.is_admin() {
        return Err(BlogError::Unauthorized);
    }
    let last_days = stats.get_last_days(3);
    let message_count = contacts.count_all();
    let top_messages = contacts.find_all_orderd(10, 0);
    Ok(StatsOverview { last_days, message_count, top_messages })
}

/// Stores a message submitted through the public contact form, stamped
/// with the current time; no capability is required. The stored message
/// is handed back with its assigned id.
pub fn post_contact(
    contacts: &mut ContactStore,
    email: String,
    subject: String,
    message: String,
) -> (r: Result<ContactRequest, BlogError>)
    requires
        old(contacts).wf(),
    ensures
        final(contacts).wf(),
        match r {
            Ok(c) => {
                &&& c@.id == Some(old(contacts).spec_next_id())
                &&& c@.email == email@
                &&& c@.subject == subject@
                &&& c@.message == message@
                &&& final(contacts)@ == crate::contacts::insert_sorted(old(contacts)@, c@)
            },
            Err(e) => {
                &&& e == BlogError::StoreFailure
                &&& old(contacts).spec_next_id() == i64::MAX
                &&& final(contacts)@ == old(contacts)@
            },
        },
{
    let created = now_timestamp();
    let mut request = ContactRequest { id: None, created, email, subject, message };
    match contacts.insert(&mut request) {
        Ok(()) => Ok(request),
        Err(e) => Err(e),
    }
}

/// Fetches one contact message by id after checking the administrator
/// capability.
pub fn get_contact_message(auth: &Auth, contacts: &ContactStore, id: i64) -> (r: Result<
    ContactRequest,
    BlogError,
>)
    ensures
        auth.user_state != UserState::Admin ==> r == Err::<ContactRequest, BlogError>(
            BlogError::Unauthorized,
        ),
        auth.user_state == UserState::Admin ==> match r {
            Ok(c) => crate::contacts::find_contact_spec(contacts@, id) matches Some(row) && c@
                == row,
            Err(e) => e == BlogError::NotFound && crate::contacts::find_contact_spec(contacts@, id)
                is None,
        },
{
    if !auth.is_admin() {
        return Err(BlogError::Unauthorized);
    }
    contacts.find(id)
}

} // verus!
