use cargo_update::git::{ref_matches_branch, ls_remote_args, ls_remote_oid, clone_args, fetch_plan, FetchPlan};


#[test]
fn installed_reference() {
    assert!(ref_matches_branch("HEAD", None));
    assert!(!ref_matches_branch("refs/heads/master", None));
    assert!(ref_matches_branch("refs/heads/dev", Some("dev")));
    assert!(ref_matches_branch("refs/tags/v1", Some("v1")));
    assert!(!ref_matches_branch("refs/remotes/dev", Some("dev")));
    assert!(!ref_matches_branch("refs/heads/develop", Some("dev")));
}

#[test]
fn git_command_lines() {
    assert_eq!(ls_remote_args("https://g/r", None), vec!["ls-remote", "--", "https://g/r", "HEAD"]);
    assert_eq!(ls_remote_args("https://g/r", Some("dev")), vec!["ls-remote", "--", "https://g/r", "dev"]);
    assert_eq!(clone_args("https://g/r", Some("dev")), vec!["clone", "-b", "dev", "--bare", "--", "https://g/r"]);
    assert_eq!(clone_args("https://g/r", None), vec!["clone", "--bare", "--", "https://g/r"]);
}

#[test]
fn ls_remote_output() {
    let id = ls_remote_oid(b"5f7885749c4d7e48869b1fc0be4d430601cdbbfa\tHEAD\n").unwrap();
    assert_eq!(id.to_hex(), "5f7885749c4d7e48869b1fc0be4d430601cdbbfa");
    assert_eq!(ls_remote_oid(b"nonsense\tHEAD\n"), None);
    assert_eq!(ls_remote_oid(b"\xff"), None);
}

#[test]
fn fetch_plans() {
    assert_eq!(fetch_plan(Some("dev"), None),
               FetchPlan::Fetch { set_head: Some("refs/heads/dev".to_string()), branch: "dev".to_string(), refspec: "dev".to_string() });
    assert_eq!(fetch_plan(None, Some("refs/heads/main")),
               FetchPlan::Fetch { set_head: None, branch: "main".to_string(), refspec: "+HEAD:refs/remotes/origin/HEAD".to_string() });
    assert_eq!(fetch_plan(None, None), FetchPlan::Reclone);
}
