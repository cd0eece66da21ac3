//! Encrypted Client Hello settings.

pub mod base64;

use vstd::prelude::*;

use crate::config::{clone_opt, opt_view, TlsConfig};
use crate::transport::ech::base64::{decode_config, ech_b64_spec};

verus! {

/// How a connection uses ECH.
#[derive(Debug, Clone)]
pub struct EchSettings {
    /// The ECH config list, from the configuration or from DNS.
    pub config_list: Option<Vec<u8>>,
    /// Send GREASE ECH when no config list is known.
    pub grease: bool,
    /// The public name for the outer ClientHello.
    pub outer_sni: Option<String>,
}

impl Default for EchSettings {
    fn default() -> (r: Self)
        ensures
            r.config_list is None,
            !r.grease,
            r.outer_sni is None,
    {
        EchSettings { config_list: None, grease: false, outer_sni: None }
    }
}

impl EchSettings {
    pub fn is_enabled(&self) -> (r: bool)
        ensures
            r == (self.config_list is Some || self.grease),
    {
        self.config_list.is_some() || self.grease
    }
}

/// Decodes a base64 ECH config list.
pub fn parse_ech_config_base64(b64: &str) -> (r: Result<Vec<u8>, &'static str>)
    ensures
        match r {
            Ok(v) => ech_b64_spec(b64@) == Some(v@),
            Err(_) => ech_b64_spec(b64@) is None,
        },
{
    decode_config(b64)
}

/// The ECH settings of a TLS configuration: a configured config list first; else,
/// when automatic ECH is on, what DNS gave (`fetched`); else none. Fails only on a
/// configured config list that does not decode.
pub fn ech_settings_from(config: &TlsConfig, fetched: Option<Vec<u8>>) -> (r: Result<EchSettings, &'static str>)
    ensures
        match config.ech_config {
            Some(c) => match ech_b64_spec(c@) {
                Some(b) => r matches Ok(s) && s.config_list matches Some(l) && l@ == b,
                None => r is Err,
            },
            None => r matches Ok(s) && (if config.ech_auto { s.config_list == fetched } else { s.config_list is None }),
        },
        r matches Ok(s) ==> s.grease == config.ech_grease && opt_view(s.outer_sni) == opt_view(config.ech_outer_sni),
{
    let config_list = match &config.ech_config {
        Some(c) => match parse_ech_config_base64(c.as_str()) {
            Ok(b) => Some(b),
            Err(e) => return Err(e),
        },
        None => if config.ech_auto {
            fetched
        } else {
            None
        },
    };
    Ok(EchSettings { config_list, grease: config.ech_grease, outer_sni: clone_opt(&config.ech_outer_sni) })
}

} // verus!
