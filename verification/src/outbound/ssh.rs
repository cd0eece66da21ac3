use vstd::prelude::*;

use crate::config::{clone_opt, opt_view, OutboundConfig};

verus! {

/// How the SSH outbound authenticates.
#[derive(Debug, Clone)]
pub enum SshAuthMethod {
    Password(String),
    PrivateKey { key_path: String, passphrase: Option<String> },
    NoAuth,
}

/// The identification string sent in the SSH version exchange.
pub const SSH_CLIENT_VERSION: &'static str = "SSH-2.0-OpenWorld_0.1";

/// An SSH tunnel outbound.
pub struct SshOutbound {
    pub tag: String,
    pub server_addr: String,
    pub server_port: u16,
    pub username: String,
    pub auth_method: SshAuthMethod,
}

impl SshOutbound {
    /// Builds the outbound: `address` is required; the port defaults to 22 and the user
    /// to "root"; a password wins over a private key, and without either there is no
    /// authentication.
    pub fn new(config: &OutboundConfig) -> (r: Result<Self, &'static str>)
        ensures
            match config.settings.address {
                Some(a) => r is Ok && ({
                    let o = r->Ok_0;
                    &&& o.tag@ == config.tag@
                    &&& o.server_addr@ == a@
                    &&& o.server_port == (match config.settings.port {
                        Some(p) => p,
                        None => 22u16,
                    })
                    &&& o.username@ == (match config.settings.username {
                        Some(u) => u@,
                        None => "root"@,
                    })
                    &&& match (config.settings.password, config.settings.private_key) {
                        (Some(pw), _) => o.auth_method matches SshAuthMethod::Password(q) && q@ == pw@,
                        (None, Some(k)) => o.auth_method matches SshAuthMethod::PrivateKey {
                            key_path,
                            passphrase,
                        } && key_path@ == k@ && opt_view(passphrase) == opt_view(
                            config.settings.private_key_passphrase,
                        ),
                        (None, None) => o.auth_method is NoAuth,
                    }
                }),
                None => r is Err,
            },
    {
        let settings = &config.settings;
        let address = match &settings.address {
            Some(a) => a,
            None => return Err("ssh: address required"),
        };
        let port = match settings.port {
            Some(p) => p,
            None => 22,
        };
        let username = match &settings.username {
            Some(u) => u.clone(),
            None => "root".to_owned(),
        };
        let auth_method = match &settings.password {
            Some(pw) => SshAuthMethod::Password(pw.clone()),
            None => match &settings.private_key {
                Some(key) => SshAuthMethod::PrivateKey {
                    key_path: key.clone(),
                    passphrase: clone_opt(&settings.private_key_passphrase),
                },
                None => SshAuthMethod::NoAuth,
            },
        };
        Ok(SshOutbound {
            tag: config.tag.clone(),
            server_addr: address.clone(),
            server_port: port,
            username,
            auth_method,
        })
    }

    pub fn tag(&self) -> (r: &str)
        ensures
            r@ == self.tag@,
    {
        self.tag.as_str()
    }

    pub fn tag_str(&self) -> (r: &str)
        ensures
            r@ == self.tag@,
    {
        self.tag.as_str()
    }

    pub fn server(&self) -> (r: (&str, u16))
        ensures
            r.0@ == self.server_addr@,
            r.1 == self.server_port,
    {
        (self.server_addr.as_str(), self.server_port)
    }

    pub fn username(&self) -> (r: &str)
        ensures
            r@ == self.username@,
    {
        self.username.as_str()
    }

    pub fn auth_method(&self) -> (r: &SshAuthMethod)
        ensures
            *r == self.auth_method,
    {
        &self.auth_method
    }
}

} // verus!
