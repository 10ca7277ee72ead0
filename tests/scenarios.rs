use portfolio_backend::api_errors::ApiError;
use portfolio_backend::array_string_types::{SlugString, UsernameString, UuidString};
use portfolio_backend::data::portfolio::{Portfolio, PortfolioCategory, PortfolioCategoryRow, PortfolioRow};
use portfolio_backend::data::work::{AttachmentKind, BytesBase64, Work, WorkAttachment, WorkRow};
use portfolio_backend::array_string_types::ContentType;
use portfolio_backend::database::Database;
use portfolio_backend::request_state::session_from_headers;
use portfolio_backend::routes::{files, portfolio, user, work};
use portfolio_backend::services::user::remove_sessions;

const ITERATIONS: i32 = 1000;

fn name(s: &str) -> UsernameString {
    UsernameString::from_text(s).unwrap()
}

fn register(db: &mut Database, username: &str, password: &str, now: i64) -> UuidString {
    user::register(db, name(username), &password.to_string(), &password.to_string(), ITERATIONS, now).unwrap()
}

fn user_id_of(db: &Database, token: &UuidString) -> i32 {
    let headers = vec![format!("Bearer {}", token.0)];
    session_from_headers(db, &headers, 0).unwrap().user_id
}

fn work_input(slug: &str, attachments: Vec<WorkAttachment>) -> Work {
    Work {
        row: WorkRow {
            id: 0,
            slug: SlugString(slug.to_string()),
            title: format!("{slug} title"),
            short_description: "short".to_string(),
            long_description: "long".to_string(),
        },
        attachments,
        links: vec![],
        tags: vec![],
    }
}

fn download(filename: &str) -> WorkAttachment {
    WorkAttachment {
        id: 0,
        work_id: 0,
        attachment_kind: AttachmentKind::DownloadLinux,
        content_type: ContentType("application/octet-stream".to_string()),
        filename: filename.to_string(),
        title: None,
        bytes_base64: BytesBase64(String::new()),
        big_file_uuid: None,
    }
}

fn portfolio_input(slug: &str, work_slugs: &[&str]) -> Portfolio {
    Portfolio {
        row: PortfolioRow {
            id: 0,
            created_at: 0,
            published_at: None,
            slug: SlugString(slug.to_string()),
            title: "Games".to_string(),
            subtitle: "and more".to_string(),
            author: "alice".to_string(),
        },
        categories: vec![PortfolioCategory {
            row: PortfolioCategoryRow { id: 0, portfolio_id: 0, title: "Released".to_string() },
            work_slugs: work_slugs.iter().map(|s| SlugString(s.to_string())).collect(),
        }],
    }
}

/// Streams the chain that starts at `uuid` the way the download endpoint does.
fn stream_all(db: &Database, uuid: &UuidString, caller: Option<i32>) -> Result<(Vec<u8>, String), ApiError> {
    let start = files::open_stream(db, uuid, caller, false)?;
    let mut bytes = start.first_chunk;
    let mut next = start.next_uuid;
    while let Some(u) = next {
        let (chunk, after) = files::next_chunk(db, &u, caller).unwrap();
        bytes.extend_from_slice(&chunk);
        next = after;
    }
    Ok((bytes, start.content_disposition))
}

#[test]
fn register_then_login_and_me() {
    let mut db = Database::new();
    let token = user::register(
        &mut db,
        name("alice"),
        &"correct horse".to_string(),
        &"correct horse".to_string(),
        ITERATIONS,
        100,
    )
    .unwrap();
    assert_eq!(token.0.len(), 36);
    let headers = vec![format!("Bearer {}", token.0)];
    let session = session_from_headers(&db, &headers, 0).unwrap();
    assert_eq!(session.uuid.0, token.0);
    assert_eq!(session.created_at, 100);

    let again = user::login(&mut db, &name("alice"), &"correct horse".to_string(), 101).unwrap();
    assert_ne!(again.0, token.0);
    assert_eq!(user_id_of(&db, &again), session.user_id);
}

#[test]
fn weak_password_is_refused() {
    let mut db = Database::new();
    let r = user::register(&mut db, name("bob"), &"short".to_string(), &"short".to_string(), ITERATIONS, 0);
    assert_eq!(r.unwrap_err(), ApiError::PasswordTooShort);
    assert_eq!(ApiError::PasswordTooShort.status_code(), 400);
    assert!(db.users.is_empty());
}

#[test]
fn registration_input_errors() {
    let mut db = Database::new();
    let long = "0123456789".to_string();
    let r = user::register(&mut db, name("al"), &long, &long, ITERATIONS, 0);
    assert_eq!(r.unwrap_err(), ApiError::UsernameTooShort);
    let r = user::register(&mut db, name("alice"), &long, &"0123456788".to_string(), ITERATIONS, 0);
    assert_eq!(r.unwrap_err(), ApiError::PasswordsDontMatch);
}

#[test]
fn second_registration_of_a_name_is_taken() {
    let mut db = Database::new();
    register(&mut db, "carol", "first password", 0);
    let r = user::register(
        &mut db,
        name("carol"),
        &"other password".to_string(),
        &"other password".to_string(),
        ITERATIONS,
        1,
    );
    assert_eq!(r.unwrap_err(), ApiError::UsernameTaken);
    assert_eq!(db.users.len(), 1);
}

#[test]
fn wrong_password_gives_invalid_credentials() {
    let mut db = Database::new();
    register(&mut db, "dave", "the right password", 0);
    let sessions = db.sessions.len();
    let r = user::login(&mut db, &name("dave"), &"the wrong password".to_string(), 1);
    assert_eq!(r.unwrap_err(), ApiError::InvalidCredentials);
    let r = user::login(&mut db, &name("nobody"), &"the right password".to_string(), 1);
    assert_eq!(r.unwrap_err(), ApiError::InvalidCredentials);
    assert_eq!(db.sessions.len(), sessions);
    assert!(user::login(&mut db, &name("dave"), &"the right password".to_string(), 2).is_ok());
}

#[test]
fn same_password_gets_different_salts_and_keys() {
    let mut db = Database::new();
    register(&mut db, "erin", "shared password", 0);
    register(&mut db, "frank", "shared password", 0);
    assert_eq!(db.users[0].salt.len(), 12);
    assert_ne!(db.users[0].salt, db.users[1].salt);
    let k0 = db.users[0].password_key.clone().unwrap();
    let k1 = db.users[1].password_key.clone().unwrap();
    assert_eq!(k0.len(), 32);
    assert_ne!(k0, k1);
    assert_ne!(k0, b"shared password".to_vec());
}

#[test]
fn published_portfolio_visible_to_public() {
    let mut db = Database::new();
    let token = register(&mut db, "alice", "correct horse", 0);
    let owner = user_id_of(&db, &token);
    work::create(&mut db, owner, &"w".to_string(), &work_input("w", vec![])).unwrap();
    work::create(&mut db, owner, &"hidden".to_string(), &work_input("hidden", vec![])).unwrap();
    let p = portfolio::create(&mut db, owner, &"p".to_string(), &portfolio_input("p", &["w"]), true, 10).unwrap();
    assert_eq!(p.row.published_at, Some(10));
    portfolio::create(&mut db, owner, &"x".to_string(), &portfolio_input("x", &["hidden"]), false, 10).unwrap();

    let public = portfolio::by_slug(&db, &"p".to_string(), None).unwrap();
    assert_eq!(public.row.slug.0, "p");
    assert_eq!(public.categories.len(), 1);
    assert_eq!(public.categories[0].work_slugs[0].0, "w");
    let w = work::by_slug(&db, &"w".to_string(), None).unwrap();
    assert_eq!(w.row.slug.0, "w");

    let r = portfolio::by_slug(&db, &"x".to_string(), None);
    assert_eq!(r.unwrap_err(), ApiError::NoSuchSlug);
    assert_eq!(work::by_slug(&db, &"hidden".to_string(), None).unwrap_err(), ApiError::NoSuchSlug);
    assert!(portfolio::by_slug(&db, &"x".to_string(), Some(owner)).is_ok());
    assert!(work::by_slug(&db, &"hidden".to_string(), Some(owner)).is_ok());
}

#[test]
fn chain_append_and_stream() {
    let mut db = Database::new();
    let token = register(&mut db, "alice", "correct horse", 0);
    let owner = user_id_of(&db, &token);
    let w = work::create(&mut db, owner, &"game".to_string(), &work_input("game", vec![download("game.tar")]))
        .unwrap();
    let att = w.attachments[0].id;
    // "hello ", "big ", "file"
    let p1 = files::add_file_part(&mut db, owner, att, None, "aGVsbG8g".to_string()).unwrap();
    let p2 = files::add_file_part(&mut db, owner, att, Some(p1.duplicate()), "YmlnIA==".to_string()).unwrap();
    let _p3 = files::add_file_part(&mut db, owner, att, Some(p2.duplicate()), "ZmlsZQ==".to_string()).unwrap();

    let (bytes, disposition) = stream_all(&db, &p1, Some(owner)).unwrap();
    assert_eq!(bytes, b"hello big file".to_vec());
    assert_eq!(disposition, "attachment; filename=\"game.tar\"");
    assert!(db.big_file_parts.iter().all(|p| p.whole_file_length == 14));
    assert_eq!(db.work_attachments[0].big_file_uuid.as_ref().unwrap().0, p1.0);

    // a HEAD request sends the head part only
    let head = files::open_stream(&db, &p1, Some(owner), true).unwrap();
    assert_eq!(head.first_chunk, b"hello ".to_vec());
    assert!(head.next_uuid.is_none());
}

#[test]
fn chain_replacement() {
    let mut db = Database::new();
    let token = register(&mut db, "alice", "correct horse", 0);
    let owner = user_id_of(&db, &token);
    let w = work::create(&mut db, owner, &"game".to_string(), &work_input("game", vec![download("game.tar")]))
        .unwrap();
    let att = w.attachments[0].id;
    let p1 = files::add_file_part(&mut db, owner, att, None, "aGVsbG8g".to_string()).unwrap();
    let p2 = files::add_file_part(&mut db, owner, att, Some(p1.duplicate()), "YmlnIA==".to_string()).unwrap();
    files::add_file_part(&mut db, owner, att, Some(p2), "ZmlsZQ==".to_string()).unwrap();

    let p4 = files::add_file_part(&mut db, owner, att, None, "bmV3".to_string()).unwrap();
    assert_eq!(stream_all(&db, &p1, Some(owner)).unwrap_err(), ApiError::NoSuchFile);
    let (bytes, _) = stream_all(&db, &p4, Some(owner)).unwrap();
    assert_eq!(bytes, b"new".to_vec());
    assert_eq!(db.big_file_parts.len(), 1);
    assert_eq!(db.big_file_parts[0].whole_file_length, 3);
}

#[test]
fn session_sweep_invalidates_stale_tokens() {
    let mut db = Database::new();
    let token = register(&mut db, "alice", "correct horse", 1000);
    let expiration_seconds = 1;
    let now = 1002;
    remove_sessions(&mut db, now - expiration_seconds);
    let headers = vec![format!("Bearer {}", token.0)];
    assert_eq!(session_from_headers(&db, &headers, 0).unwrap_err(), ApiError::InvalidSession);
}

#[test]
fn sweep_keeps_fresh_sessions() {
    let mut db = Database::new();
    let old = register(&mut db, "alice", "correct horse", 1000);
    let fresh = user::login(&mut db, &name("alice"), &"correct horse".to_string(), 2000).unwrap();
    remove_sessions(&mut db, 1500);
    assert_eq!(db.sessions.len(), 1);
    assert!(session_from_headers(&db, &vec![format!("Bearer {}", fresh.0)], 0).is_ok());
    assert!(session_from_headers(&db, &vec![format!("Bearer {}", old.0)], 0).is_err());
}

#[test]
fn expired_session_is_refused_at_lookup() {
    let mut db = Database::new();
    let token = register(&mut db, "alice", "correct horse", 1000);
    let headers = vec![format!("Bearer {}", token.0)];
    let expiration_seconds = 1;
    assert!(session_from_headers(&db, &headers, 1001 - expiration_seconds).is_ok());
    assert_eq!(
        session_from_headers(&db, &headers, 1002 - expiration_seconds).unwrap_err(),
        ApiError::InvalidSession
    );
    assert_eq!(db.sessions.len(), 1);
}
