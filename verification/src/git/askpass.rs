//! Credentials for HTTPS git operations.
//!
//! A retried operation gets the credentials through environment variables of
//! the child process, which a small shim script echoes when git asks. They
//! appear in no argument, no URL and no file.
use vstd::prelude::*;
use vstd::string::*;

use crate::git::command::EnvVar;

verus! {

/// A user name and a password or token for one host.
#[derive(Debug, Clone, PartialEq, Eq)]
pub struct Credentials {
    pub username: String,
    pub password: String,
}

/// The script git runs for every prompt: a prompt that mentions a user name is
/// answered with the user variable, any other with the password variable.
pub const ASKPASS_SCRIPT: &'static str = "#!/bin/sh\ncase \"$1\" in\n*[Uu]sername*) printf '%s' \"$KEIFU_ASKPASS_USER\" ;;\n*) printf '%s' \"$KEIFU_ASKPASS_PASS\" ;;\nesac\n";

/// The variable that holds the user name.
pub const ENV_USER: &'static str = "KEIFU_ASKPASS_USER";

/// The variable that holds the password.
pub const ENV_PASS: &'static str = "KEIFU_ASKPASS_PASS";

/// Credentials together with the path of the shim script.
#[derive(Debug)]
pub struct AskPass {
    pub shim: String,
    pub credentials: Credentials,
}

impl AskPass {
    /// The variables that make git ask the shim.
    pub open spec fn vars(self) -> Seq<(Seq<char>, Seq<char>)> {
        seq![
            ("GIT_ASKPASS"@, self.shim@),
            (ENV_USER@, self.credentials.username@),
            (ENV_PASS@, self.credentials.password@),
        ]
    }

    /// The variables that make git ask the shim.
    pub fn env(&self) -> (env: Vec<EnvVar>)
        ensures
            env@.map_values(|v: EnvVar| v@) == self.vars(),
    {
        let mut env: Vec<EnvVar> = Vec::new();
        env.push(EnvVar { name: "GIT_ASKPASS".to_owned(), value: self.shim.clone() });
        env.push(EnvVar { name: ENV_USER.to_owned(), value: self.credentials.username.clone() });
        env.push(EnvVar { name: ENV_PASS.to_owned(), value: self.credentials.password.clone() });
        assert(env@.map_values(|v: EnvVar| v@) =~= self.vars());
        env
    }
}

} // verus!
