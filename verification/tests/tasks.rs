use mesh_core::aggregate::AggregateName;
use mesh_core::aggregate::AggregateStore;
use mesh_core::aggregate::AggregateValue;
use mesh_core::coordinator::TaskBoard;
use mesh_core::coordinator::TaskState;
use mesh_core::coordinator::record_measurement;
use mesh_core::errors::Error;
use mesh_core::session::Session;
use mesh_core::session::SessionIssuer;

fn logged_in_worker() -> (SessionIssuer, Session) {
    let mut issuer = SessionIssuer::new();
    issuer
        .add_user(3, String::from("node@example.com"), String::from("h@sh-3"))
        .expect("fresh account");
    issuer.install_nonce(3).expect("first nonce");
    let session = issuer
        .login(&String::from("node@example.com"), &String::from("h@sh-3"), true)
        .expect("correct credentials log in");
    (issuer, session)
}

#[test]
fn task_runs_through_its_lifecycle() {
    let (issuer, session) = logged_in_worker();
    let mut board = TaskBoard::new();
    let mut store = AggregateStore::new();
    let task_id = board.create_task(1001).expect("task creation");
    let issued = board.issue_task(&issuer, session).expect("a waiting task is issued");
    assert_eq!(issued.id, task_id);
    assert_eq!(issued.state, TaskState::Issued);
    assert_eq!(issued.assignee, Some(session.user_id));
    board
        .submit_task(&issuer, &mut store, session, task_id, 2002, 500)
        .expect("submission of an issued task");
    let done = board.task(task_id).expect("the task is still on the board");
    assert_eq!(done.state, TaskState::Submitted);
    assert_eq!(done.outcome, Some(2002));
    let row = store
        .get(session.user_id, AggregateName::BandwidthTotal)
        .expect("the bandwidth aggregate was created");
    assert_eq!(row.value, AggregateValue::Number(500));
}

#[test]
fn submission_with_a_stale_session_touches_nothing() {
    let (mut issuer, session) = logged_in_worker();
    let mut board = TaskBoard::new();
    let mut store = AggregateStore::new();
    let task_id = board.create_task(1).expect("task creation");
    let issued = board.issue_task(&issuer, session).expect("a waiting task is issued");
    issuer.rotate(session.user_id).expect("rotation of a live nonce");
    let attempt = board.submit_task(&issuer, &mut store, session, task_id, 9, 100);
    assert_eq!(attempt, Err(Error::AuthenticationFailed));
    assert_eq!(store.len(), 0);
    assert!(store.get(session.user_id, AggregateName::BandwidthTotal).is_none());
    let still = board.task(issued.id).expect("the task is still on the board");
    assert_eq!(still.state, TaskState::Issued);
    assert_eq!(still.outcome, None);
}

#[test]
fn issue_requires_a_valid_session() {
    let (mut issuer, session) = logged_in_worker();
    let mut board = TaskBoard::new();
    board.create_task(1).expect("task creation");
    issuer.rotate(session.user_id).expect("rotation of a live nonce");
    assert_eq!(board.issue_task(&issuer, session), Err(Error::AuthenticationFailed));
}

#[test]
fn an_empty_board_has_nothing_to_issue() {
    let (issuer, session) = logged_in_worker();
    let mut board = TaskBoard::new();
    assert_eq!(board.issue_task(&issuer, session), Err(Error::TaskNotFound));
}

#[test]
fn duplicate_submission_is_refused() {
    let (issuer, session) = logged_in_worker();
    let mut board = TaskBoard::new();
    let mut store = AggregateStore::new();
    let task_id = board.create_task(1).expect("task creation");
    board.issue_task(&issuer, session).expect("a waiting task is issued");
    board
        .submit_task(&issuer, &mut store, session, task_id, 7, 50)
        .expect("first submission");
    let again = board.submit_task(&issuer, &mut store, session, task_id, 7, 50);
    assert_eq!(again, Err(Error::ConflictingState));
    let row = store
        .get(session.user_id, AggregateName::BandwidthTotal)
        .expect("the bandwidth aggregate exists");
    assert_eq!(row.value, AggregateValue::Number(50));
}

#[test]
fn submitting_an_unknown_task_is_not_found() {
    let (issuer, session) = logged_in_worker();
    let mut board = TaskBoard::new();
    let mut store = AggregateStore::new();
    let attempt = board.submit_task(&issuer, &mut store, session, 404, 0, 0);
    assert_eq!(attempt, Err(Error::TaskNotFound));
}

#[test]
fn submitting_someone_elses_task_is_not_found() {
    let (mut issuer, session) = logged_in_worker();
    issuer
        .add_user(4, String::from("other@example.com"), String::from("h@sh-4"))
        .expect("fresh account");
    issuer.install_nonce(4).expect("first nonce");
    let other = issuer
        .login(&String::from("other@example.com"), &String::from("h@sh-4"), true)
        .expect("correct credentials log in");
    let mut board = TaskBoard::new();
    let mut store = AggregateStore::new();
    let task_id = board.create_task(1).expect("task creation");
    board.issue_task(&issuer, session).expect("a waiting task is issued");
    let attempt = board.submit_task(&issuer, &mut store, other, task_id, 0, 0);
    assert_eq!(attempt, Err(Error::TaskNotFound));
}

#[test]
fn measurements_accumulate_per_user_and_name() {
    let (issuer, session) = logged_in_worker();
    let mut store = AggregateStore::new();
    let first = record_measurement(&issuer, &mut store, session, AggregateName::Uptime, 60)
        .expect("a valid session records");
    assert_eq!(first.value, AggregateValue::Number(60));
    let second = record_measurement(&issuer, &mut store, session, AggregateName::Uptime, 30)
        .expect("a valid session records");
    assert_eq!(second.value, AggregateValue::Number(90));
    assert_eq!(second.id, first.id);
    assert_eq!(store.len(), 1);
    let row = store.get(session.user_id, AggregateName::Uptime).unwrap();
    assert_eq!(row.value, AggregateValue::Number(90));
}

#[test]
fn measurement_with_a_stale_session_is_rejected() {
    let (mut issuer, session) = logged_in_worker();
    let mut store = AggregateStore::new();
    issuer.rotate(session.user_id).expect("rotation of a live nonce");
    let attempt = record_measurement(&issuer, &mut store, session, AggregateName::Uptime, 60);
    assert_eq!(attempt, Err(Error::AuthenticationFailed));
    assert_eq!(store.len(), 0);
}

#[test]
fn base_url_reads_back() {
    let url = mesh_core::startup::ApplicationBaseUrl(String::from("https://example.com"));
    assert_eq!(url.as_str(), "https://example.com");
}
