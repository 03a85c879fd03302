//! Answers to the questions of a remote: credentials, and what it rejected.
use crate::paths;
use crate::text;
use vstd::prelude::*;
use vstd::string::*;

verus! {

/// What a remote told during an operation.
#[derive(Debug, PartialEq, Eq)]
pub struct CallbackStats {
    /// the reference that was rejected last, and why
    pub push_rejected_msg: Option<(String, String)>,
}

impl Default for CallbackStats {
    fn default() -> (r: CallbackStats)
        ensures
            r.push_rejected_msg is None,
    {
        CallbackStats { push_rejected_msg: None }
    }
}

/// A name and a password that the user gave.
#[derive(Debug, PartialEq, Eq)]
pub struct BasicAuthCredential {
    pub username: Option<String>,
    pub password: Option<String>,
}

/// The kinds of credentials that a remote accepts.
#[derive(Clone, Copy, Debug, PartialEq, Eq, Structural)]
pub struct AllowedTypes {
    pub ssh_key: bool,
    pub user_pass_plaintext: bool,
    pub username: bool,
    pub default: bool,
}

/// The credential that a remote gets.
#[derive(Debug, PartialEq, Eq)]
pub enum CredentialStep {
    /// a key for this user, which `ssh_step` finds
    Ssh(String),
    UserPass(String, String),
    Username(String),
    Default,
    Refuse(CredentialError),
}

/// What a [`CredentialStep`] holds.
pub enum CredentialStepView {
    Ssh(Seq<char>),
    UserPass(Seq<char>, Seq<char>),
    Username(Seq<char>),
    Default,
    Refuse(CredentialError),
}

impl View for CredentialStep {
    type V = CredentialStepView;

    open spec fn view(&self) -> CredentialStepView {
        match self {
            CredentialStep::Ssh(name) => CredentialStepView::Ssh(name@),
            CredentialStep::UserPass(name, password) => CredentialStepView::UserPass(
                name@,
                password@,
            ),
            CredentialStep::Username(name) => CredentialStepView::Username(name@),
            CredentialStep::Default => CredentialStepView::Default,
            CredentialStep::Refuse(error) => CredentialStepView::Refuse(*error),
        }
    }
}

/// Why a remote gets no credential.
#[derive(Clone, Copy, Debug, PartialEq, Eq, Structural)]
pub enum CredentialError {
    NoUsername,
    BadCredentials,
    NotFound,
    SshFailed,
}

impl CredentialError {
    pub open spec fn text(self) -> Seq<char> {
        match self {
            CredentialError::NoUsername => "Couldn't extract username from url."@,
            CredentialError::BadCredentials => "Bad credentials."@,
            CredentialError::NotFound => "Couldn't find credentials"@,
            CredentialError::SshFailed =>
                "SSH authentication failed. Load your key into ssh-agent; default keys in ~/.ssh were also tried."@,
        }
    }

    /// What the user is told.
    pub fn message(&self) -> (r: &'static str)
        ensures
            r@ == self.text(),
    {
        match self {
            CredentialError::NoUsername => "Couldn't extract username from url.",
            CredentialError::BadCredentials => "Bad credentials.",
            CredentialError::NotFound => "Couldn't find credentials",
            CredentialError::SshFailed =>
                "SSH authentication failed. Load your key into ssh-agent; default keys in ~/.ssh were also tried.",
        }
    }
}

/// A key that is tried.
#[derive(Debug, PartialEq, Eq)]
pub enum SshStep {
    /// ask the agent for a key
    Agent,
    /// use the key in a file
    Key(String),
    Failed,
}

/// How many key files are tried.
pub const SSH_KEYS: usize = 3;

/// The file names of the keys that are tried, in order.
pub open spec fn key_name(i: int) -> Seq<char> {
    if i == 0 {
        "id_ed25519"@
    } else if i == 1 {
        "id_ecdsa"@
    } else {
        "id_rsa"@
    }
}

/// Where a key that is tried lies.
pub fn ssh_key_path(home: &str, i: usize) -> (r: String)
    ensures
        r@ == paths::joined_path(paths::joined_path(home@, ".ssh"@), key_name(i as int)),
{
    let name = if i == 0 {
        "id_ed25519"
    } else if i == 1 {
        "id_ecdsa"
    } else {
        "id_rsa"
    };
    let folder = paths::join_path(home, ".ssh");
    paths::join_path(folder.as_str(), name)
}

/// The answers to the questions of a remote.
#[derive(Debug)]
pub struct Callbacks {
    pub basic_credential: Option<BasicAuthCredential>,
    pub stats: CallbackStats,
    pub first_call_to_credentials: bool,
    pub ssh_attempt: usize,
}

/// The first attempt, from `attempt` on, for which there is a key: the agent,
/// then one file after the other.
pub open spec fn next_attempt(attempt: int, home: bool, present: Seq<bool>) -> int
    decreases 4 - attempt,
{
    if attempt <= 0 || attempt >= 4 {
        attempt
    } else if home && attempt - 1 < present.len() && present[attempt - 1] {
        attempt
    } else {
        next_attempt(attempt + 1, home, present)
    }
}

impl Callbacks {
    /// Nothing was asked yet.
    pub fn new(basic_credential: Option<BasicAuthCredential>) -> (r: Callbacks)
        ensures
            r.basic_credential == basic_credential,
            r.stats.push_rejected_msg is None,
            r.first_call_to_credentials,
            r.ssh_attempt == 0,
    {
        Callbacks {
            basic_credential,
            stats: CallbackStats::default(),
            first_call_to_credentials: true,
            ssh_attempt: 0,
        }
    }

    /// What the remote told.
    pub fn get_stats(&self) -> (r: &CallbackStats)
        ensures
            *r == self.stats,
    {
        &self.stats
    }

    /// Note what became of a reference: a message tells that it was rejected.
    pub fn push_update_reference(&mut self, reference: &str, msg: Option<&str>)
        ensures
            *final(self) == (Callbacks { stats: final(self).stats, ..*old(self) }),
            match msg {
                Some(msg) => final(self).stats.push_rejected_msg matches Some((r, m)) && r@
                    == reference@ && m@ == msg@,
                None => final(self).stats.push_rejected_msg is None,
            },
    {
        self.stats = CallbackStats {
            push_rejected_msg: match msg {
                Some(msg) => Some((reference.to_owned(), msg.to_owned())),
                None => None,
            },
        };
    }

    /// The answer to a question for credentials: keys come first, and a password is
    /// only tried once.
    pub open spec fn answer(self, username: Option<Seq<char>>, allowed: AllowedTypes) -> CredentialStepView {
        if allowed.ssh_key {
            match username {
                Some(name) => CredentialStepView::Ssh(name),
                None => CredentialStepView::Refuse(CredentialError::NoUsername),
            }
        } else if self.first_call_to_credentials {
            self.basic(allowed)@
        } else {
            CredentialStepView::Refuse(CredentialError::BadCredentials)
        }
    }

    /// The state after a question for credentials.
    pub open spec fn asked(self, allowed: AllowedTypes) -> Callbacks {
        Callbacks {
            first_call_to_credentials: self.first_call_to_credentials && allowed.ssh_key,
            ..self
        }
    }

    /// The credential for a remote that takes no keys, when it asks for the
    /// first time.
    pub open spec fn basic(self, allowed: AllowedTypes) -> CredentialStep {
        match self.basic_credential {
            Some(c) => if c.username is Some && c.password is Some && allowed.user_pass_plaintext {
                CredentialStep::UserPass(c.username->0, c.password->0)
            } else if c.username is Some && allowed.username {
                CredentialStep::Username(c.username->0)
            } else if allowed.default {
                CredentialStep::Default
            } else {
                CredentialStep::Refuse(CredentialError::NotFound)
            },
            None => if allowed.default {
                CredentialStep::Default
            } else {
                CredentialStep::Refuse(CredentialError::NotFound)
            },
        }
    }

    /// The credential that a remote gets. Passwords are tried once only, so that
    /// a wrong one does not lead to endless questions.
    pub fn credentials(&mut self, username_from_url: Option<&str>, allowed: AllowedTypes) -> (r:
        CredentialStep)
        ensures
            *final(self) == old(self).asked(allowed),
            r@ == old(self).answer(
                match username_from_url {
                    Some(name) => Some(name@),
                    None => None,
                },
                allowed,
            ),
            if allowed.ssh_key {
                &&& *final(self) == *old(self)
                &&& match username_from_url {
                    Some(name) => r matches CredentialStep::Ssh(user) && user@ == name@,
                    None => r == CredentialStep::Refuse(CredentialError::NoUsername),
                }
            } else if old(self).first_call_to_credentials {
                &&& *final(self) == (Callbacks { first_call_to_credentials: false, ..*old(self) })
                &&& r == old(self).basic(allowed)
            } else {
                &&& *final(self) == *old(self)
                &&& r == CredentialStep::Refuse(CredentialError::BadCredentials)
            },
    {
        if allowed.ssh_key {
            return match username_from_url {
                Some(name) => CredentialStep::Ssh(name.to_owned()),
                None => CredentialStep::Refuse(CredentialError::NoUsername),
            };
        }
        if !self.first_call_to_credentials {
            return CredentialStep::Refuse(CredentialError::BadCredentials);
        }
        self.first_call_to_credentials = false;
        match &self.basic_credential {
            Some(c) => match (&c.username, &c.password) {
                (Some(user), Some(pwd)) => if allowed.user_pass_plaintext {
                    CredentialStep::UserPass(user.clone(), pwd.clone())
                } else if allowed.username {
                    CredentialStep::Username(user.clone())
                } else if allowed.default {
                    CredentialStep::Default
                } else {
                    CredentialStep::Refuse(CredentialError::NotFound)
                },
                (Some(user), None) => if allowed.username {
                    CredentialStep::Username(user.clone())
                } else if allowed.default {
                    CredentialStep::Default
                } else {
                    CredentialStep::Refuse(CredentialError::NotFound)
                },
                _ => if allowed.default {
                    CredentialStep::Default
                } else {
                    CredentialStep::Refuse(CredentialError::NotFound)
                },
            },
            None => if allowed.default {
                CredentialStep::Default
            } else {
                CredentialStep::Refuse(CredentialError::NotFound)
            },
        }
    }

    /// The next key to try: first that of the agent, then those in the usual
    /// files of the home folder that are there. Each is tried once.
    pub fn ssh_step(&mut self, home: Option<&str>, present: &Vec<bool>) -> (r: SshStep)
        ensures
            ({
                let at = next_attempt(old(self).ssh_attempt as int, home is Some, present@);
                &&& *final(self) == (Callbacks {
                    ssh_attempt: final(self).ssh_attempt,
                    ..*old(self)
                })
                &&& final(self).ssh_attempt == if at < usize::MAX {
                    at + 1
                } else {
                    0
                }
                &&& if at == 0 {
                    r == SshStep::Agent
                } else if at < 4 {
                    &&& r matches SshStep::Key(path)
                    &&& path@ == paths::joined_path(
                        paths::joined_path(home->0@, ".ssh"@),
                        key_name(at - 1),
                    )
                } else {
                    r == SshStep::Failed
                }
            }),
    {
        let mut attempt: usize = self.ssh_attempt;
        let ghost start = attempt as int;
        while attempt > 0 && attempt < 4 && !(home.is_some() && attempt - 1 < present.len()
            && present[attempt - 1])
            invariant
                start > 0 ==> attempt > 0,
                start == 0 ==> attempt == 0,
                next_attempt(attempt as int, home is Some, present@) == next_attempt(
                    start,
                    home is Some,
                    present@,
                ),
            decreases 4 - attempt,
        {
            attempt += 1;
        }
        self.ssh_attempt = attempt.wrapping_add(1);
        if attempt == 0 {
            return SshStep::Agent;
        }
        if attempt >= 4 {
            return SshStep::Failed;
        }
        match home {
            Some(home) => SshStep::Key(ssh_key_path(home, attempt - 1)),
            None => SshStep::Failed,
        }
    }
}

/// Once every key was tried, the answer is no for good.
pub proof fn lemma_ssh_attempts_are_bounded(attempt: int, home: bool, present: Seq<bool>)
    requires
        0 <= attempt,
    ensures
        attempt <= next_attempt(attempt, home, present),
        attempt >= 4 ==> next_attempt(attempt, home, present) >= 4,
        attempt <= 4 ==> next_attempt(attempt, home, present) <= 4,
        !home && attempt > 0 ==> next_attempt(attempt, home, present) >= 4,
    decreases 4 - attempt,
{
    if 0 < attempt < 4 && !(home && attempt - 1 < present.len() && present[attempt - 1]) {
        lemma_ssh_attempts_are_bounded(attempt + 1, home, present);
    }
}

/// A password or name that the remote did not take is not tried again: the second
/// question for one is refused, whatever was asked for keys in between.
pub proof fn lemma_passwords_are_tried_once(
    c: Callbacks,
    first: AllowedTypes,
    username: Option<Seq<char>>,
    second: AllowedTypes,
)
    requires
        !first.ssh_key,
        !second.ssh_key,
    ensures
        c.asked(first).answer(username, second) == CredentialStepView::Refuse(
            CredentialError::BadCredentials,
        ),
{
}

/// Questions for keys name the user of the address, always, and leave the password
/// untried.
pub proof fn lemma_keys_come_first(
    c: Callbacks,
    name: Seq<char>,
    allowed: AllowedTypes,
)
    requires
        allowed.ssh_key,
    ensures
        c.answer(Some(name), allowed) == CredentialStepView::Ssh(name),
        c.answer(None, allowed) == CredentialStepView::Refuse(CredentialError::NoUsername),
        c.asked(allowed) == c,
{
}

/// What the user gave is handed on as it is, to a remote that takes it: name and
/// password together, else the name alone, else what the system has.
pub proof fn lemma_the_given_credentials_are_used(
    c: Callbacks,
    name: String,
    password: String,
    username: Option<Seq<char>>,
    allowed: AllowedTypes,
)
    requires
        c.first_call_to_credentials,
        !allowed.ssh_key,
        c.basic_credential == Some(
            BasicAuthCredential { username: Some(name), password: Some(password) },
        ),
    ensures
        allowed.user_pass_plaintext ==> c.answer(username, allowed)
            == CredentialStepView::UserPass(name@, password@),
        !allowed.user_pass_plaintext && allowed.username ==> c.answer(username, allowed)
            == CredentialStepView::Username(name@),
        !allowed.user_pass_plaintext && !allowed.username && allowed.default ==> c.answer(
            username,
            allowed,
        ) == CredentialStepView::Default,
        !allowed.user_pass_plaintext && !allowed.username && !allowed.default ==> c.answer(
            username,
            allowed,
        ) == CredentialStepView::Refuse(CredentialError::NotFound),
{
}

/// Nothing is handed on that the user did not give.
pub proof fn lemma_no_credentials_are_made_up(
    c: Callbacks,
    username: Option<Seq<char>>,
    allowed: AllowedTypes,
)
    ensures
        c.answer(username, allowed) matches CredentialStepView::UserPass(name, password) ==> {
            &&& allowed.user_pass_plaintext && c.first_call_to_credentials
            &&& c.basic_credential matches Some(given)
            &&& given.username is Some && given.username->0@ == name
            &&& given.password is Some && given.password->0@ == password
        },
        c.answer(username, allowed) matches CredentialStepView::Username(name) ==> {
            &&& allowed.username && c.first_call_to_credentials
            &&& c.basic_credential matches Some(given)
            &&& given.username is Some && given.username->0@ == name
        },
        c.answer(username, allowed) is Default ==> allowed.default,
{
}

/// The next key file is the first of those left that is there: none is skipped, and
/// none is tried that is missing.
pub proof fn lemma_the_next_key_is_there(attempt: int, home: bool, present: Seq<bool>, k: int)
    requires
        0 < attempt < 4,
    ensures
        ({
            let at = next_attempt(attempt, home, present);
            &&& at < 4 ==> home && at - 1 < present.len() && present[at - 1]
            &&& attempt <= k < at && k < 4 ==> !(home && k - 1 < present.len() && present[k - 1])
        }),
    decreases 4 - attempt,
{
    reveal_with_fuel(next_attempt, 3);
    if !(home && attempt - 1 < present.len() && present[attempt - 1]) && attempt + 1 < 4 {
        lemma_the_next_key_is_there(attempt + 1, home, present, k);
    }
}

/// The key files are those that are made by default, the newest kind first.
pub proof fn lemma_key_names()
    ensures
        key_name(0) == "id_ed25519"@,
        key_name(1) == "id_ecdsa"@,
        key_name(2) == "id_rsa"@,
{
}

} // verus!
