//! The choice of credentials offered to git when fetching an index or a repository, in the
//! order cargo offers them: ssh-agent for the requested user, the credential helper, the
//! default credentials, then ssh-agent for each likely username.

use vstd::prelude::*;
use crate::text::{copy_str, append_str, strings_view};
use crate::env::{env_var, env_text};

verus! {

/// The kinds of credentials git allows for a request.
#[derive(Debug, Clone, Copy, PartialEq, Eq)]
pub struct AllowedCredentials {
    pub username: bool,
    pub ssh_key: bool,
    pub user_pass_plaintext: bool,
    pub default: bool,
}

/// The credentials to answer a request with.
#[derive(Debug, Clone, PartialEq, Eq)]
pub enum CredentialAction {
    /// Refuse ("username to be tried later"): the usernames are tried once this attempt failed.
    UsernameLater,
    /// A key from ssh-agent for this user.
    SshKeyFromAgent(String),
    /// Ask git's `credential.helper`, then report whether it failed.
    CredentialHelper,
    /// The default credentials.
    Default,
    /// Only this username.
    Username(String),
    /// Refuse ("no authentication available").
    NoAuthentication,
}

/// What the attempts so far have shown.
#[derive(Debug, Clone, PartialEq, Eq)]
pub struct AuthAttempts {
    pub ssh_username_requested: bool,
    /// `Some(failed)` once the credential helper was asked.
    pub cred_helper_bad: Option<bool>,
    /// The users ssh-agent was asked for, in order.
    pub ssh_agent_attempts: Vec<String>,
    pub any_attempts: bool,
    pub tried_ssh_key: bool,
}

pub open spec fn action_username(a: CredentialAction) -> Option<Seq<char>> {
    match a {
        CredentialAction::SshKeyFromAgent(u) => Some(u@),
        CredentialAction::Username(u) => Some(u@),
        _ => None,
    }
}

impl AuthAttempts {
    pub fn new() -> (r: AuthAttempts)
        ensures
            !r.ssh_username_requested,
            r.cred_helper_bad is None,
            r.ssh_agent_attempts@.len() == 0,
            !r.any_attempts,
            !r.tried_ssh_key,
    {
        AuthAttempts {
            ssh_username_requested: false,
            cred_helper_bad: None,
            ssh_agent_attempts: Vec::new(),
            any_attempts: false,
            tried_ssh_key: false,
        }
    }

    /// Answers a request of the first attempt, for the user the URL names (if any). A request
    /// that allows a username is refused and the usernames are tried afterwards; the first
    /// that allows an ssh key gets ssh-agent's for the URL's user; then the credential helper
    /// (once), the default credentials, or nothing.
    pub fn first_request(&mut self, allowed: AllowedCredentials, username: Option<&str>) -> (r: CredentialAction)
        requires
            !allowed.username && allowed.ssh_key && !old(self).tried_ssh_key ==> username is Some,
        ensures
            final(self).any_attempts,
            final(self).cred_helper_bad == old(self).cred_helper_bad,
            if allowed.username {
                &&& r == CredentialAction::UsernameLater
                &&& final(self).ssh_username_requested
                &&& final(self).tried_ssh_key == old(self).tried_ssh_key
                &&& strings_view(final(self).ssh_agent_attempts@) == strings_view(old(self).ssh_agent_attempts@)
            } else if allowed.ssh_key && !old(self).tried_ssh_key {
                &&& r matches CredentialAction::SshKeyFromAgent(u) && u@ == username.unwrap()@
                &&& final(self).tried_ssh_key
                &&& final(self).ssh_username_requested == old(self).ssh_username_requested
                &&& strings_view(final(self).ssh_agent_attempts@) == strings_view(old(self).ssh_agent_attempts@).push(username.unwrap()@)
            } else {
                &&& r == (if allowed.user_pass_plaintext && old(self).cred_helper_bad is None {
                    CredentialAction::CredentialHelper
                } else if allowed.default {
                    CredentialAction::Default
                } else {
                    CredentialAction::NoAuthentication
                })
                &&& final(self).tried_ssh_key == old(self).tried_ssh_key
                &&& final(self).ssh_username_requested == old(self).ssh_username_requested
                &&& strings_view(final(self).ssh_agent_attempts@) == strings_view(old(self).ssh_agent_attempts@)
            },
    {
        self.any_attempts = true;
        if allowed.username {
            self.ssh_username_requested = true;
            CredentialAction::UsernameLater
        } else if allowed.ssh_key && !self.tried_ssh_key {
            self.tried_ssh_key = true;
            let u = match username {
                Some(u) => u,
                None => "",
            };
            let ghost before = self.ssh_agent_attempts@;
            self.ssh_agent_attempts.push(copy_str(u));
            assert(strings_view(self.ssh_agent_attempts@) =~= strings_view(before).push(u@));
            CredentialAction::SshKeyFromAgent(copy_str(u))
        } else if allowed.user_pass_plaintext && self.cred_helper_bad.is_none() {
            CredentialAction::CredentialHelper
        } else if allowed.default {
            CredentialAction::Default
        } else {
            CredentialAction::NoAuthentication
        }
    }

    /// Records whether the credential helper failed.
    pub fn helper_result(&mut self, failed: bool)
        ensures
            final(self).cred_helper_bad == Some(failed),
            final(self).ssh_username_requested == old(self).ssh_username_requested,
            final(self).any_attempts == old(self).any_attempts,
            final(self).tried_ssh_key == old(self).tried_ssh_key,
            final(self).ssh_agent_attempts@ == old(self).ssh_agent_attempts@,
    {
        self.cred_helper_bad = Some(failed);
    }

    /// Whether the outcome of the attempts is reported as an authentication failure: they
    /// failed after some request was made.
    pub fn failed(&self, succeeded: bool) -> (r: bool)
        ensures
            r == (!succeeded && self.any_attempts),
    {
        !succeeded && self.any_attempts
    }
}

/// The second phase, for one username.
#[derive(Debug, Clone, Copy, PartialEq, Eq)]
pub struct UsernameAttempt {
    pub ssh_attempts: i32,
}

impl UsernameAttempt {
    pub fn new() -> (r: UsernameAttempt)
        ensures
            r.ssh_attempts == 0,
    {
        UsernameAttempt { ssh_attempts: 0 }
    }

    /// Answers a request while trying `uname`: the username itself when it is allowed, else
    /// ssh-agent's key for it the first time a key is allowed, else nothing.
    pub fn request(&mut self, allowed: AllowedCredentials, uname: &str, attempts: &mut AuthAttempts) -> (r: CredentialAction)
        requires
            old(self).ssh_attempts < i32::MAX,
        ensures
            final(attempts).ssh_username_requested == old(attempts).ssh_username_requested,
            final(attempts).cred_helper_bad == old(attempts).cred_helper_bad,
            final(attempts).any_attempts == old(attempts).any_attempts,
            final(attempts).tried_ssh_key == old(attempts).tried_ssh_key,
            if allowed.username {
                &&& r matches CredentialAction::Username(u) && u@ == uname@
                &&& final(self).ssh_attempts == old(self).ssh_attempts
                &&& strings_view(final(attempts).ssh_agent_attempts@) == strings_view(old(attempts).ssh_agent_attempts@)
            } else if allowed.ssh_key {
                &&& final(self).ssh_attempts == old(self).ssh_attempts + 1
                &&& if final(self).ssh_attempts == 1 {
                    &&& r matches CredentialAction::SshKeyFromAgent(u) && u@ == uname@
                    &&& strings_view(final(attempts).ssh_agent_attempts@) == strings_view(old(attempts).ssh_agent_attempts@).push(uname@)
                } else {
                    &&& r == CredentialAction::NoAuthentication
                    &&& strings_view(final(attempts).ssh_agent_attempts@) == strings_view(old(attempts).ssh_agent_attempts@)
                }
            } else {
                &&& r == CredentialAction::NoAuthentication
                &&& final(self).ssh_attempts == old(self).ssh_attempts
                &&& strings_view(final(attempts).ssh_agent_attempts@) == strings_view(old(attempts).ssh_agent_attempts@)
            },
    {
        if allowed.username {
            return CredentialAction::Username(copy_str(uname));
        } else if allowed.ssh_key {
            self.ssh_attempts = self.ssh_attempts + 1;
            if self.ssh_attempts == 1 {
                let ghost before = attempts.ssh_agent_attempts@;
                attempts.ssh_agent_attempts.push(copy_str(uname));
                assert(strings_view(attempts.ssh_agent_attempts@) =~= strings_view(before).push(uname@));
                return CredentialAction::SshKeyFromAgent(copy_str(uname));
            }
        }
        CredentialAction::NoAuthentication
    }

    /// Whether to go on to the next username: ssh-agent was asked twice for this one.
    pub fn try_next(&self) -> (r: bool)
        ensures
            r == (self.ssh_attempts == 2),
    {
        self.ssh_attempts == 2
    }
}

/// The usernames to try, in order: the credential helper's, git's `user.name`, `$USERNAME`,
/// `$USER`, and `git`.
pub open spec fn username_candidates_spec(helper: Option<Seq<char>>, config_user: Option<Seq<char>>, vars: Seq<(Vec<u8>, Vec<u8>)>) -> Seq<Seq<char>> {
    let opt = |o: Option<Seq<char>>| match o {
        Some(s) => seq![s],
        None => seq![],
    };
    opt(helper) + opt(config_user) + opt(env_text(vars, "USERNAME"@)) + opt(env_text(vars, "USER"@)) + seq!["git"@]
}

pub fn username_candidates(helper: Option<&str>, config_user: Option<&str>, vars: &Vec<(Vec<u8>, Vec<u8>)>) -> (r: Vec<String>)
    ensures
        strings_view(r@) == username_candidates_spec(crate::sources::opt_text(helper), crate::sources::opt_text(config_user), vars@),
{
    let mut r: Vec<String> = Vec::new();
    if let Some(h) = helper {
        r.push(copy_str(h));
    }
    if let Some(c) = config_user {
        r.push(copy_str(c));
    }
    if let Some(u) = env_var(vars, "USERNAME") {
        r.push(u);
    }
    if let Some(u) = env_var(vars, "USER") {
        r.push(u);
    }
    r.push(copy_str("git"));
    assert(strings_view(r@) =~= username_candidates_spec(crate::sources::opt_text(helper), crate::sources::opt_text(config_user), vars@));
    r
}

/// `"a", "b", ...`: each name in double quotes, separated by `, `.
pub open spec fn quoted_list(names: Seq<Seq<char>>) -> Seq<char>
    decreases names.len(),
{
    if names.len() == 0 {
        seq![]
    } else if names.len() == 1 {
        seq!['"'] + names[0] + seq!['"']
    } else {
        quoted_list(names.drop_last()) + ", "@ + seq!['"'] + names.last() + seq!['"']
    }
}

/// The message of a failed authentication: git's error, the URL, the users ssh-agent was
/// asked for, and how the credential helper fared.
pub open spec fn failure_message_spec(a: AuthAttempts, error: Seq<char>, url: Seq<char>) -> Seq<char> {
    let names = strings_view(a.ssh_agent_attempts@);
    error + ": failed to authenticate when downloading repository "@ + url
        + (if names.len() > 0 {
            " (tried ssh-agent, but none of the following usernames worked: "@ + quoted_list(names) + ")"@
        } else {
            seq![]
        })
        + match a.cred_helper_bad {
            Some(true) => " (tried to find username+password via git's credential.helper support, but failed)"@,
            Some(false) => " (tried to find username+password via credential.helper, but found credentials were incorrect)"@,
            None => seq![],
        }
}

impl AuthAttempts {
    /// The message reporting that the attempts failed with git's error `error`.
    pub fn failure_message(&self, error: &str, url: &str) -> (r: String)
        ensures
            r@ == failure_message_spec(*self, error@, url@),
    {
        let mut msg = copy_str(error);
        append_str(&mut msg, ": failed to authenticate when downloading repository ");
        append_str(&mut msg, url);
        let ghost head = msg@;
        let ghost names = strings_view(self.ssh_agent_attempts@);
        if self.ssh_agent_attempts.len() > 0 {
            append_str(&mut msg, " (tried ssh-agent, but none of the following usernames worked: ");
            let ghost start = msg@;
            let mut i: usize = 0;
            while i < self.ssh_agent_attempts.len()
                invariant
                    i <= self.ssh_agent_attempts.len(),
                    names == strings_view(self.ssh_agent_attempts@),
                    msg@ == start + quoted_list(names.subrange(0, i as int)),
                decreases self.ssh_agent_attempts.len() - i,
            {
                assert(names.subrange(0, i + 1).drop_last() =~= names.subrange(0, i as int));
                if i != 0 {
                    append_str(&mut msg, ", ");
                }
                append_str(&mut msg, "\"");
                append_str(&mut msg, self.ssh_agent_attempts[i].as_str());
                append_str(&mut msg, "\"");
                proof {
                    reveal_strlit("\"");
                    if i == 0 {
                        assert(quoted_list(names.subrange(0, 0)) =~= seq![]);
                    }
                }
                i = i + 1;
                assert(msg@ =~= start + quoted_list(names.subrange(0, i as int)));
            }
            assert(names.subrange(0, names.len() as int) =~= names);
            append_str(&mut msg, ")");
        }
        let ghost mid = msg@;
        match self.cred_helper_bad {
            Some(true) => {
                append_str(&mut msg, " (tried to find username+password via git's credential.helper support, but failed)");
            },
            Some(false) => {
                append_str(&mut msg, " (tried to find username+password via credential.helper, but found credentials were incorrect)");
            },
            None => {},
        }
        assert(msg@ =~= failure_message_spec(*self, error@, url@));
        msg
    }
}

} // verus!
