use portfolio_backend::api_errors::ApiError;
use portfolio_backend::array_string_types::{ContentType, SlugString, UsernameString, UuidString};
use portfolio_backend::data::portfolio::{Portfolio, PortfolioCategory, PortfolioCategoryRow, PortfolioRow};
use portfolio_backend::data::work::{AttachmentKind, BytesBase64, Work, WorkAttachment, WorkLink, WorkRow, WorkTag};
use portfolio_backend::database::{Database, StoreError};
use portfolio_backend::request_state::{bearer_token, session_from_headers};
use portfolio_backend::routes::{files, portfolio, user, work};
use portfolio_backend::services::big_files::{create_file_part_with_uuid, get_file_part};
use portfolio_backend::services::portfolio::get_portfolios;
use portfolio_backend::services::subtables::fetch_work_details;
use portfolio_backend::services::user::{create_user_with_salt, get_session, is_username_taken, login_with_token};
use portfolio_backend::services::work::{get_work, get_works};

const ITERATIONS: i32 = 1000;

fn owner(db: &mut Database, username: &str) -> i32 {
    let token = user::register(
        db,
        UsernameString::from_text(username).unwrap(),
        &"a long password".to_string(),
        &"a long password".to_string(),
        ITERATIONS,
        0,
    )
    .unwrap();
    session_from_headers(db, &vec![format!("Bearer {}", token.0)], 0).unwrap().user_id
}

fn tag(t: &str) -> WorkTag {
    WorkTag { id: 0, work_id: 0, tag: t.to_string() }
}

fn attachment(filename: &str, big_file_uuid: Option<UuidString>) -> WorkAttachment {
    WorkAttachment {
        id: 0,
        work_id: 0,
        attachment_kind: AttachmentKind::Screenshot,
        content_type: ContentType("image/png".to_string()),
        filename: filename.to_string(),
        title: Some("shot".to_string()),
        bytes_base64: BytesBase64(String::new()),
        big_file_uuid,
    }
}

fn work_input(slug: &str, attachments: Vec<WorkAttachment>, tags: Vec<WorkTag>) -> Work {
    Work {
        row: WorkRow {
            id: 0,
            slug: SlugString(slug.to_string()),
            title: "Title".to_string(),
            short_description: "short".to_string(),
            long_description: "long".to_string(),
        },
        attachments,
        links: vec![WorkLink { id: 0, work_id: 0, title: "site".to_string(), href: "https://example.org".to_string() }],
        tags,
    }
}

fn portfolio_input(slug: &str, work_slugs: &[&str]) -> Portfolio {
    Portfolio {
        row: PortfolioRow {
            id: 0,
            created_at: 0,
            published_at: None,
            slug: SlugString(slug.to_string()),
            title: "T".to_string(),
            subtitle: "S".to_string(),
            author: "A".to_string(),
        },
        categories: vec![
            PortfolioCategory {
                row: PortfolioCategoryRow { id: 0, portfolio_id: 0, title: "one".to_string() },
                work_slugs: work_slugs.iter().map(|s| SlugString(s.to_string())).collect(),
            },
            PortfolioCategory {
                row: PortfolioCategoryRow { id: 0, portfolio_id: 0, title: "two".to_string() },
                work_slugs: vec![],
            },
        ],
    }
}

#[test]
fn tags_keep_their_order_on_every_write() {
    let mut db = Database::new();
    let u = owner(&mut db, "alice");
    work::create(&mut db, u, &"w".to_string(), &work_input("w", vec![], vec![tag("zeta"), tag("alpha"), tag("mid")]))
        .unwrap();
    let read = get_work(&db, &"w".to_string(), Some(u)).unwrap();
    let tags: Vec<&str> = read.tags.iter().map(|t| t.tag.as_str()).collect();
    assert_eq!(tags, vec!["zeta", "alpha", "mid"]);

    work::edit(&mut db, u, &"w".to_string(), &work_input("w", vec![], vec![tag("b"), tag("a")])).unwrap();
    let read = get_work(&db, &"w".to_string(), Some(u)).unwrap();
    let tags: Vec<&str> = read.tags.iter().map(|t| t.tag.as_str()).collect();
    assert_eq!(tags, vec!["b", "a"]);
    assert_eq!(db.work_tags.len(), 2);
    assert_eq!(read.links.len(), 1);
    assert_eq!(db.work_links.len(), 1);
}

#[test]
fn edit_moves_referenced_chain_and_drops_others() {
    let mut db = Database::new();
    let u = owner(&mut db, "alice");
    let w = work::create(
        &mut db,
        u,
        &"w".to_string(),
        &work_input("w", vec![attachment("kept.bin", None), attachment("dropped.bin", None)], vec![]),
    )
    .unwrap();
    let (a_keep, a_drop) = (w.attachments[0].id, w.attachments[1].id);
    let k1 = files::add_file_part(&mut db, u, a_keep, None, "AAEC".to_string()).unwrap();
    let k2 = files::add_file_part(&mut db, u, a_keep, Some(k1.duplicate()), "AwQF".to_string()).unwrap();
    let d1 = files::add_file_part(&mut db, u, a_drop, None, "BgcI".to_string()).unwrap();

    let edited = work::edit(
        &mut db,
        u,
        &"w".to_string(),
        &work_input("w", vec![attachment("kept.bin", Some(k1.duplicate()))], vec![]),
    )
    .unwrap();
    let new_id = edited.attachments[0].id;
    assert_ne!(new_id, a_keep);
    assert_eq!(db.work_attachments.len(), 1);
    assert_eq!(db.big_file_parts.len(), 2);
    assert!(db.big_file_parts.iter().all(|p| p.work_attachment_id == new_id));
    assert!(get_file_part(&db, &k2, Some(u)).unwrap().is_some());
    assert!(get_file_part(&db, &d1, Some(u)).unwrap().is_none());
    let part = get_file_part(&db, &k1, Some(u)).unwrap().unwrap();
    assert_eq!(part.bytes, vec![0, 1, 2]);
    assert_eq!(part.filename, "kept.bin");
    assert_eq!(part.whole_file_length, 6);
}

#[test]
fn attachment_naming_unknown_part_is_refused() {
    let mut db = Database::new();
    let u = owner(&mut db, "alice");
    let bogus = UuidString("00000000-0000-4000-8000-000000000000".to_string());
    let r = work::create(&mut db, u, &"w".to_string(), &work_input("w", vec![attachment("x", Some(bogus))], vec![]));
    assert_eq!(r.unwrap_err(), ApiError::DbError);
    assert!(db.works.is_empty());
}

#[test]
fn taken_slugs_give_slug_taken() {
    let mut db = Database::new();
    let u = owner(&mut db, "alice");
    work::create(&mut db, u, &"w".to_string(), &work_input("w", vec![], vec![])).unwrap();
    work::create(&mut db, u, &"v".to_string(), &work_input("v", vec![], vec![])).unwrap();
    let r = work::create(&mut db, u, &"w".to_string(), &work_input("w", vec![], vec![]));
    assert_eq!(r.unwrap_err(), ApiError::SlugTaken);
    let r = work::edit(&mut db, u, &"v".to_string(), &work_input("w", vec![], vec![]));
    assert_eq!(r.unwrap_err(), ApiError::SlugTaken);
    portfolio::create(&mut db, u, &"p".to_string(), &portfolio_input("p", &["w"]), false, 5).unwrap();
    let r = portfolio::create(&mut db, u, &"p".to_string(), &portfolio_input("p", &[]), false, 6);
    assert_eq!(r.unwrap_err(), ApiError::SlugTaken);
    assert_eq!(ApiError::SlugTaken.status_code(), 400);
}

#[test]
fn foreign_or_unknown_portfolio_edit_is_db_error() {
    let mut db = Database::new();
    let alice = owner(&mut db, "alice");
    let bob = owner(&mut db, "bobby");
    portfolio::create(&mut db, alice, &"p".to_string(), &portfolio_input("p", &[]), false, 5).unwrap();
    let r = portfolio::edit(&mut db, bob, &"p".to_string(), &portfolio_input("moved", &[]), true, 6);
    assert_eq!(r.unwrap_err(), ApiError::DbError);
    let r = portfolio::edit(&mut db, alice, &"nope".to_string(), &portfolio_input("moved", &[]), true, 6);
    assert_eq!(r.unwrap_err(), ApiError::DbError);
    let r = portfolio::create(&mut db, alice, &"q".to_string(), &portfolio_input("q", &["missing"]), false, 7);
    assert_eq!(r.unwrap_err(), ApiError::DbError);
}

#[test]
fn portfolio_edit_replaces_categories_and_publication() {
    let mut db = Database::new();
    let u = owner(&mut db, "alice");
    work::create(&mut db, u, &"w".to_string(), &work_input("w", vec![], vec![])).unwrap();
    work::create(&mut db, u, &"v".to_string(), &work_input("v", vec![], vec![])).unwrap();
    let p = portfolio::create(&mut db, u, &"p".to_string(), &portfolio_input("p", &["w", "v"]), false, 5).unwrap();
    assert_eq!(p.categories.len(), 2);
    assert_eq!(db.works_in_categories.len(), 2);
    assert!(portfolio::by_slug(&db, &"p".to_string(), None).is_err());

    let e = portfolio::edit(&mut db, u, &"p".to_string(), &portfolio_input("renamed", &["v"]), true, 9).unwrap();
    assert_eq!(e.row.id, p.row.id);
    assert_eq!(e.row.created_at, 5);
    assert_eq!(e.row.published_at, Some(9));
    assert_eq!(db.categories.len(), 2);
    assert_eq!(db.works_in_categories.len(), 1);
    let read = portfolio::by_slug(&db, &"renamed".to_string(), None).unwrap();
    assert_eq!(read.categories[0].work_slugs.len(), 1);
    assert_eq!(read.categories[0].work_slugs[0].0, "v");
    assert!(read.categories[1].work_slugs.is_empty());
    assert_eq!(get_portfolios(&db, u).len(), 1);
    assert_eq!(get_portfolios(&db, u + 100).len(), 0);
}

#[test]
fn works_listed_in_an_owned_portfolio_are_readable() {
    let mut db = Database::new();
    let alice = owner(&mut db, "alice");
    let bob = owner(&mut db, "bobby");
    work::create(&mut db, alice, &"w".to_string(), &work_input("w", vec![], vec![])).unwrap();
    assert!(get_work(&db, &"w".to_string(), Some(bob)).is_none());
    portfolio::create(&mut db, bob, &"bp".to_string(), &portfolio_input("bp", &["w"]), false, 1).unwrap();
    assert!(get_work(&db, &"w".to_string(), Some(bob)).is_some());
    assert!(get_work(&db, &"w".to_string(), None).is_none());
    assert_eq!(get_works(&db, alice).len(), 1);
    assert_eq!(get_works(&db, bob).len(), 0);
}

#[test]
fn parts_follow_the_same_access_rule() {
    let mut db = Database::new();
    let alice = owner(&mut db, "alice");
    let bob = owner(&mut db, "bobby");
    let w = work::create(&mut db, alice, &"w".to_string(), &work_input("w", vec![attachment("f", None)], vec![]))
        .unwrap();
    let att = w.attachments[0].id;
    let p = files::add_file_part(&mut db, alice, att, None, "AAEC".to_string()).unwrap();
    assert_eq!(files::open_stream(&db, &p, Some(bob), false).unwrap_err(), ApiError::NoSuchFile);
    assert_eq!(files::open_stream(&db, &p, None, false).unwrap_err(), ApiError::NoSuchFile);
    portfolio::create(&mut db, alice, &"pub".to_string(), &portfolio_input("pub", &["w"]), true, 1).unwrap();
    assert!(files::open_stream(&db, &p, None, false).is_ok());
    // only the owner may append
    let r = files::add_file_part(&mut db, bob, att, None, "AAEC".to_string());
    assert_eq!(r.unwrap_err(), ApiError::DbError);
}

#[test]
fn append_errors() {
    let mut db = Database::new();
    let u = owner(&mut db, "alice");
    let w = work::create(&mut db, u, &"w".to_string(), &work_input("w", vec![attachment("f", None), attachment("g", None)], vec![]))
        .unwrap();
    let (a, b) = (w.attachments[0].id, w.attachments[1].id);
    let parts = db.big_file_parts.len();
    assert_eq!(
        create_file_part_with_uuid(&mut db, None, a, "not base64!".to_string(), u, UuidString("n1".to_string())).unwrap_err(),
        StoreError::InvalidBase64
    );
    let first = create_file_part_with_uuid(&mut db, None, a, "AAEC".to_string(), u, UuidString("n1".to_string())).unwrap();
    assert_eq!(first.0, "n1");
    assert_eq!(
        create_file_part_with_uuid(&mut db, None, b, "AAEC".to_string(), u, UuidString("n1".to_string())).unwrap_err(),
        StoreError::UniqueViolation
    );
    assert_eq!(
        create_file_part_with_uuid(&mut db, Some(UuidString("n1".to_string())), b, "AAEC".to_string(), u, UuidString("n2".to_string())).unwrap_err(),
        StoreError::NotFound
    );
    assert_eq!(
        create_file_part_with_uuid(&mut db, Some(UuidString("zz".to_string())), a, "AAEC".to_string(), u, UuidString("n2".to_string())).unwrap_err(),
        StoreError::NotFound
    );
    assert_eq!(db.big_file_parts.len(), parts + 1);
}

#[test]
fn stored_user_and_token_round_trip() {
    let mut db = Database::new();
    let salt = vec![7u8; 12];
    create_user_with_salt(&mut db, UsernameString::from_text("grace").unwrap(), "a long password", ITERATIONS, salt.clone())
        .unwrap();
    assert!(is_username_taken(&db, &UsernameString::from_text("grace").unwrap()));
    assert_eq!(
        create_user_with_salt(&mut db, UsernameString::from_text("grace").unwrap(), "another password", ITERATIONS, salt).unwrap_err(),
        StoreError::UniqueViolation
    );
    let token = UuidString("fixed-token".to_string());
    let s = login_with_token(&mut db, &UsernameString::from_text("grace").unwrap(), "a long password", 42, token)
        .unwrap()
        .unwrap();
    assert_eq!(s.uuid.0, "fixed-token");
    assert_eq!(s.created_at, 42);
    let again = login_with_token(
        &mut db,
        &UsernameString::from_text("grace").unwrap(),
        "a long password",
        43,
        UuidString("fixed-token".to_string()),
    );
    assert_eq!(again.unwrap_err(), StoreError::UniqueViolation);
    assert!(login_with_token(&mut db, &UsernameString::from_text("grace").unwrap(), "wrong password", 44, UuidString("t2".to_string()))
        .unwrap()
        .is_none());
}

#[test]
fn header_parsing() {
    let mut db = Database::new();
    owner(&mut db, "alice");
    let token = db.sessions[0].uuid.0.clone();
    assert_eq!(session_from_headers(&db, &vec![], 0).unwrap_err(), ApiError::MissingSession);
    assert_eq!(
        session_from_headers(&db, &vec!["Basic abc".to_string()], 0).unwrap_err(),
        ApiError::MissingSession
    );
    let too_long = format!("Bearer {}", "x".repeat(37));
    assert_eq!(session_from_headers(&db, &vec![too_long.clone()], 0).unwrap_err(), ApiError::MissingSession);
    let ok = format!("Bearer {token}");
    assert!(session_from_headers(&db, &vec!["Basic abc".to_string(), too_long, ok.clone()], 0).is_ok());
    assert_eq!(
        session_from_headers(&db, &vec!["Bearer unknown".to_string(), ok], 0).unwrap_err(),
        ApiError::InvalidSession
    );
    assert!(bearer_token(&"bearer abc".to_string()).is_none());
    assert_eq!(bearer_token(&"Bearer abc".to_string()).unwrap().0, "abc");
    let a = UuidString::generate().unwrap();
    let b = UuidString::generate().unwrap();
    assert_eq!(a.0.len(), 36);
    assert_eq!(a.0.as_bytes()[14], b'4');
    assert_eq!(a.0.as_bytes()[8], b'-');
    assert_ne!(a.0, b.0);
}

#[test]
fn filenames_are_ascii_in_the_header() {
    assert_eq!(
        files::content_disposition(&"résumé final.pdf".to_string()),
        "attachment; filename=\"r_sum__final.pdf\""
    );
    assert_eq!(files::content_disposition(&String::new()), "attachment; filename=\"\"");
}

#[test]
fn fetch_reads_only_the_works_rows() {
    let mut db = Database::new();
    let u = owner(&mut db, "alice");
    let w = work::create(&mut db, u, &"w".to_string(), &work_input("w", vec![attachment("a", None)], vec![tag("t")])).unwrap();
    work::create(&mut db, u, &"v".to_string(), &work_input("v", vec![attachment("b", None)], vec![tag("s")])).unwrap();
    let read = fetch_work_details(&db, w.row.duplicate());
    assert_eq!(read.attachments.len(), 1);
    assert_eq!(read.attachments[0].filename, "a");
    assert_eq!(read.tags.len(), 1);
    assert_eq!(read.tags[0].tag, "t");
}

#[test]
fn stale_session_does_not_resolve_before_a_sweep() {
    let mut db = Database::new();
    let token = user::register(
        &mut db,
        UsernameString::from_text("hank").unwrap(),
        &"a long password".to_string(),
        &"a long password".to_string(),
        ITERATIONS,
        1000,
    )
    .unwrap();
    let s = get_session(&db, &token, 1000).unwrap();
    assert_eq!(s.uuid.0, token.0);
    assert_eq!(s.created_at, 1000);
    assert!(get_session(&db, &token, 1001).is_none());
    assert_eq!(db.sessions.len(), 1);
    assert!(get_session(&db, &UuidString("unknown".to_string()), 0).is_none());
}
