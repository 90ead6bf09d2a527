use mesh_core::errors::Error;
use mesh_core::errors::OutwardReply;
use mesh_core::errors::outward;
use mesh_core::session::SessionIssuer;

fn issuer_with_account() -> (SessionIssuer, u128) {
    let mut issuer = SessionIssuer::new();
    let user_id: u128 = 11;
    issuer
        .add_user(user_id, String::from("worker@example.com"), String::from("h@sh-1"))
        .expect("fresh account");
    issuer.install_nonce(user_id).expect("first nonce");
    (issuer, user_id)
}

#[test]
fn login_issues_a_valid_session() {
    let (mut issuer, user_id) = issuer_with_account();
    let session = issuer
        .login(&String::from("worker@example.com"), &String::from("h@sh-1"), true)
        .expect("correct credentials log in");
    assert_eq!(session.user_id, user_id);
    assert!(issuer.validate_session(session));
    assert_eq!(issuer.session_count(), 1);
}

#[test]
fn rotation_invalidates_prior_sessions() {
    let (mut issuer, user_id) = issuer_with_account();
    let old_session = issuer
        .login(&String::from("worker@example.com"), &String::from("h@sh-1"), true)
        .expect("correct credentials log in");
    assert!(issuer.validate_session(old_session));
    let fresh = issuer.rotate(user_id).expect("rotation of a live nonce");
    assert_ne!(fresh, old_session.nonce);
    assert!(!issuer.validate_session(old_session));
    let new_session = issuer
        .login(&String::from("worker@example.com"), &String::from("h@sh-1"), true)
        .expect("correct credentials log in after rotation");
    assert!(issuer.validate_session(new_session));
}

#[test]
fn failed_persistence_commits_nothing() {
    let (mut issuer, _) = issuer_with_account();
    let attempt = issuer.login(
        &String::from("worker@example.com"),
        &String::from("h@sh-1"),
        false,
    );
    assert_eq!(attempt, Err(Error::ConflictingState));
    assert_eq!(issuer.session_count(), 0);
    let retry = issuer
        .login(&String::from("worker@example.com"), &String::from("h@sh-1"), true)
        .expect("a clean retry succeeds");
    assert!(issuer.validate_session(retry));
    assert_eq!(issuer.session_count(), 1);
}

#[test]
fn unknown_email_is_not_found_inside() {
    let (mut issuer, _) = issuer_with_account();
    let attempt = issuer.login(
        &String::from("stranger@example.com"),
        &String::from("h@sh-1"),
        true,
    );
    assert_eq!(attempt, Err(Error::UserNotFound));
    assert_eq!(issuer.session_count(), 0);
}

#[test]
fn wrong_credential_is_authentication_failed() {
    let (mut issuer, _) = issuer_with_account();
    let attempt = issuer.login(
        &String::from("worker@example.com"),
        &String::from("wrong"),
        true,
    );
    assert_eq!(attempt, Err(Error::AuthenticationFailed));
    assert_eq!(issuer.session_count(), 0);
}

#[test]
fn missing_nonce_is_reported_distinctly() {
    let mut issuer = SessionIssuer::new();
    issuer
        .add_user(5, String::from("broken@example.com"), String::from("h@sh-5"))
        .expect("fresh account");
    let attempt = issuer.login(
        &String::from("broken@example.com"),
        &String::from("h@sh-5"),
        true,
    );
    assert_eq!(attempt, Err(Error::NonceNotFound));
}

#[test]
fn outward_replies_do_not_disclose_the_factor() {
    assert_ne!(Error::UserNotFound, Error::AuthenticationFailed);
    assert_eq!(
        outward(Error::UserNotFound),
        outward(Error::AuthenticationFailed)
    );
    assert_eq!(
        outward(Error::NonceNotFound),
        outward(Error::AuthenticationFailed)
    );
    assert_eq!(
        outward(Error::ConflictingState),
        outward(Error::AuthenticationFailed)
    );
    assert_eq!(outward(Error::AuthenticationFailed), OutwardReply::AuthenticationRequired);
    assert_eq!(outward(Error::StorageFailure), OutwardReply::Internal);
    assert_eq!(outward(Error::TaskNotFound), OutwardReply::NothingToDo);
}

#[test]
fn duplicate_account_is_conflicting_state() {
    let (mut issuer, user_id) = issuer_with_account();
    let same_id = issuer.add_user(user_id, String::from("other@example.com"), String::from("x"));
    assert_eq!(same_id, Err(Error::ConflictingState));
    let same_email = issuer.add_user(99, String::from("worker@example.com"), String::from("x"));
    assert_eq!(same_email, Err(Error::ConflictingState));
}

#[test]
fn second_nonce_install_is_refused() {
    let (mut issuer, user_id) = issuer_with_account();
    assert_eq!(issuer.install_nonce(user_id), Err(Error::ConflictingState));
}

#[test]
fn rotation_without_a_nonce_is_not_found() {
    let mut issuer = SessionIssuer::new();
    assert_eq!(issuer.rotate(77), Err(Error::NonceNotFound));
}

#[test]
fn validation_on_an_empty_registry_fails() {
    let issuer = SessionIssuer::new();
    let forged = mesh_core::session::Session { user_id: 1, nonce: 2 };
    assert!(!issuer.validate_session(forged));
}
