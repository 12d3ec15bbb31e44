use cargo_update::credentials::{AuthAttempts, UsernameAttempt, AllowedCredentials, CredentialAction, username_candidates};


fn allow(username: bool, ssh_key: bool, user_pass: bool, default: bool) -> AllowedCredentials {
    AllowedCredentials { username, ssh_key, user_pass_plaintext: user_pass, default }
}

#[test]
fn first_attempt_choices() {
    let mut a = AuthAttempts::new();
    assert_eq!(a.first_request(allow(true, true, true, true), None), CredentialAction::UsernameLater);
    assert!(a.ssh_username_requested);
    assert_eq!(a.first_request(allow(false, true, false, false), Some("git")), CredentialAction::SshKeyFromAgent("git".to_string()));
    assert_eq!(a.first_request(allow(false, true, true, false), Some("git")), CredentialAction::CredentialHelper);
    a.helper_result(true);
    assert_eq!(a.first_request(allow(false, false, true, true), None), CredentialAction::Default);
    assert_eq!(a.first_request(allow(false, false, true, false), None), CredentialAction::NoAuthentication);
    assert!(a.failed(false));
    assert!(!a.failed(true));
    assert!(!AuthAttempts::new().failed(false));
}

#[test]
fn username_attempts() {
    let mut a = AuthAttempts::new();
    let mut u = UsernameAttempt::new();
    assert_eq!(u.request(allow(true, false, false, false), "me", &mut a), CredentialAction::Username("me".to_string()));
    assert_eq!(u.request(allow(false, true, false, false), "me", &mut a), CredentialAction::SshKeyFromAgent("me".to_string()));
    assert!(!u.try_next());
    assert_eq!(u.request(allow(false, true, false, false), "me", &mut a), CredentialAction::NoAuthentication);
    assert!(u.try_next());
    assert_eq!(a.ssh_agent_attempts, vec!["me".to_string()]);
}

#[test]
fn failure_messages() {
    let mut a = AuthAttempts::new();
    let _ = a.first_request(allow(false, true, false, false), Some("git"));
    let mut u = UsernameAttempt::new();
    let _ = u.request(allow(false, true, false, false), "me", &mut a);
    a.helper_result(false);
    assert_eq!(a.failure_message("boom", "ssh://x/y"),
               "boom: failed to authenticate when downloading repository ssh://x/y (tried ssh-agent, but none of the following usernames \
                worked: \"git\", \"me\") (tried to find username+password via credential.helper, but found credentials were incorrect)");
    assert_eq!(AuthAttempts::new().failure_message("e", "u"), "e: failed to authenticate when downloading repository u");
}

#[test]
fn usernames_to_try() {
    let vars = vec![(b"USER".to_vec(), b"alice".to_vec()), (b"OTHER".to_vec(), b"x".to_vec())];
    assert_eq!(username_candidates(Some("helper"), None, &vars), vec!["helper", "alice", "git"]);
    assert_eq!(username_candidates(None, Some("cfg"), &vec![]), vec!["cfg", "git"]);
}
