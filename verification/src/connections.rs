//! The directory of authenticated remote connections, and the
//! authentication plan derived from caller-supplied parameters.
//!
//! The connection itself (socket, handshake, key exchange) is the runtime's
//! business; the library decides which authentication method the parameters
//! ask for, rejects under-specified ones, and keeps the id-to-connection
//! table with the same at-most-one-per-id discipline as the session
//! registry.

use vstd::prelude::*;
use vstd::string::StringExecFns;
use crate::errors::SessionError;
use crate::registry::Registry;
use crate::text::str_eq;

verus! {

broadcast use vstd::string::group_string_axioms;

/// Caller-supplied authentication parameters for a remote connection.
pub struct SshAuthParams {
    pub auth_type: String,
    pub password: Option<String>,
    pub key_path: Option<String>,
    pub key_passphrase: Option<String>,
}

/// The authentication method a well-formed parameter set asks for.
pub enum AuthMethod {
    Password { password: String },
    Key { key_path: String, passphrase: Option<String> },
}

/// Decide how to authenticate from the caller's parameters: `"password"`
/// needs a password, `"key"` needs a key path (an optional passphrase is
/// passed through), anything else is refused. Exactly the under-specified
/// and unknown parameter sets fail, each with its own message.
pub fn plan_auth(params: SshAuthParams) -> (r: Result<AuthMethod, SessionError>)
    ensures
        params.auth_type@ == "password"@ && params.password is Some ==> (r matches Ok(
            AuthMethod::Password { password },
        ) && password == params.password->Some_0),
        params.auth_type@ == "password"@ && params.password is None ==> (r matches Err(
            SessionError::AuthFailure(m),
        ) && m@ == "password required for password auth"@),
        params.auth_type@ == "key"@ && params.key_path is Some ==> (r matches Ok(
            AuthMethod::Key { key_path, passphrase },
        ) && key_path == params.key_path->Some_0 && passphrase == params.key_passphrase),
        params.auth_type@ != "password"@ && params.auth_type@ != "key"@ ==> (r matches Err(
            SessionError::AuthFailure(m),
        ) && m@ == "unknown auth type: "@ + params.auth_type@),
        params.auth_type@ == "key"@ && params.key_path is None ==> (r matches Err(
            SessionError::AuthFailure(m),
        ) && m@ == "key path required for key auth"@),
    {
    proof {
        reveal_strlit("password");
        reveal_strlit("key");
        assert("password"@.len() == 8);
        assert("key"@.len() == 3);
        assert("password"@ != "key"@);
    }
    if str_eq(params.auth_type.as_str(), "password") {
        match params.password {
            Some(password) => Ok(AuthMethod::Password { password }),
            None => Err(
                SessionError::AuthFailure(String::from_str("password required for password auth")),
            ),
        }
    } else if str_eq(params.auth_type.as_str(), "key") {
        match params.key_path {
            Some(key_path) => Ok(
                AuthMethod::Key { key_path, passphrase: params.key_passphrase },
            ),
            None => Err(
                SessionError::AuthFailure(String::from_str("key path required for key auth")),
            ),
        }
    } else {
        Err(
            SessionError::AuthFailure(
                String::from_str("unknown auth type: ").concat(params.auth_type.as_str()),
            ),
        )
    }
}

/// What the directory remembers of an authenticated connection.
pub struct ConnectionInfo {
    pub host: String,
    pub user: String,
}

/// The table of live authenticated connections, keyed by caller-chosen id.
pub struct ConnectionDirectory {
    pub reg: Registry<ConnectionInfo>,
}

impl ConnectionDirectory {
    pub open spec fn wf(self) -> bool {
        self.reg.wf()
    }

    pub fn new() -> (r: ConnectionDirectory)
        ensures
            r.wf(),
            r.reg@ == Map::<Seq<u8>, ConnectionInfo>::empty(),
    {
        ConnectionDirectory { reg: Registry::new() }
    }

    /// Record a freshly authenticated connection. A live id is refused:
    /// explicit connection creation is not idempotent.
    pub fn connect(&mut self, id: Vec<u8>, host: String, user: String) -> (r: Result<
        (),
        SessionError,
    >)
        requires
            old(self).wf(),
        ensures
            final(self).wf(),
            match r {
                Ok(_) => !old(self).reg@.dom().contains(id@) && final(self).reg@
                    == old(self).reg@.insert(id@, (ConnectionInfo { host, user })),
                Err(e) => old(self).reg@.dom().contains(id@) && e is AlreadyExists
                    && final(self).reg@ == old(self).reg@,
            },
    {
        if self.reg.contains(&id) {
            return Err(SessionError::AlreadyExists);
        }
        let inserted = self.reg.insert_if_absent(id, ConnectionInfo { host, user });
        proof {
            assert(inserted);
        }
        Ok(())
    }

    /// Drop a connection. An unknown id is an error here, unlike kill.
    pub fn disconnect(&mut self, id: &Vec<u8>) -> (r: Result<(), SessionError>)
        requires
            old(self).wf(),
        ensures
            final(self).wf(),
            final(self).reg@ == old(self).reg@.remove(id@),
            r is Ok <==> old(self).reg@.dom().contains(id@),
            r matches Err(e) ==> e is NotFound,
    {
        match self.reg.remove(id) {
            Some(_) => Ok(()),
            None => Err(SessionError::NotFound),
        }
    }

    /// Is a connection live under this id?
    pub fn is_connected(&self, id: &Vec<u8>) -> (r: bool)
        requires
            self.wf(),
        ensures
            r == self.reg@.dom().contains(id@),
    {
        self.reg.contains(id)
    }
}

} // verus!
