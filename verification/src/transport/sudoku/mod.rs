//! The Sudoku obfuscating transport: every byte travels as four hints that single
//! out one 4x4 Sudoku grid, and the grid stands for the byte.

pub mod conn;
pub mod crypto;
pub mod grid;
pub mod handshake;
pub mod httpmask;
pub mod layout;
pub mod table;

use std::sync::Arc;

use vstd::prelude::*;

use crate::config::{dialer_view, DialerConfig};
use handshake::SudokuConfig;
use table::{key_gives_table, layout_resolves, Table};

verus! {

/// The settings of the Sudoku transport.
pub struct SudokuTransportConfig {
    pub key: String,
    pub aead_method: String,
    pub table_type: String,
    pub custom_table: String,
    pub padding_min: u8,
    pub padding_max: u8,
    pub enable_pure_downlink: bool,
    pub disable_http_mask: bool,
    pub http_mask_host: String,
    pub http_mask_path_root: String,
}

/// The Sudoku transport to one server.
pub struct SudokuTransport {
    pub server_addr: String,
    pub server_port: u16,
    pub config: SudokuConfig,
    pub dialer_config: Option<DialerConfig>,
}

impl SudokuTransport {
    /// Builds the coding table of the key and keeps the settings; a table that cannot
    /// be built is the transport's error.
    pub fn new(
        server_addr: String,
        server_port: u16,
        transport_config: &SudokuTransportConfig,
        dialer_config: Option<DialerConfig>,
    ) -> (r: Result<Self, String>)
        ensures
            r is Ok <==> layout_resolves(transport_config.table_type@, transport_config.custom_table@) && key_gives_table(
                transport_config.key@,
            ),
            r matches Ok(t) ==> {
                &&& t.server_addr@ == server_addr@
                &&& t.server_port == server_port
                &&& t.config.key@ == transport_config.key@
                &&& t.config.aead_method@ == transport_config.aead_method@
                &&& t.config.table.built_from(transport_config.key@)
                &&& t.config.padding_min == transport_config.padding_min
                &&& t.config.padding_max == transport_config.padding_max
                &&& t.config.enable_pure_downlink == transport_config.enable_pure_downlink
                &&& t.config.disable_http_mask == transport_config.disable_http_mask
                &&& t.config.http_mask_host@ == transport_config.http_mask_host@
                &&& t.config.http_mask_path_root@ == transport_config.http_mask_path_root@
                &&& dialer_view(t.dialer_config) == dialer_view(dialer_config)
            },
    {
        let tbl = match Table::new(
            transport_config.key.as_str(),
            transport_config.table_type.as_str(),
            transport_config.custom_table.as_str(),
        ) {
            Ok(t) => t,
            Err(e) => {
                return Err(e);
            },
        };
        let config = SudokuConfig {
            key: transport_config.key.clone(),
            aead_method: transport_config.aead_method.clone(),
            table: Arc::new(tbl),
            padding_min: transport_config.padding_min,
            padding_max: transport_config.padding_max,
            enable_pure_downlink: transport_config.enable_pure_downlink,
            disable_http_mask: transport_config.disable_http_mask,
            http_mask_host: transport_config.http_mask_host.clone(),
            http_mask_path_root: transport_config.http_mask_path_root.clone(),
        };
        Ok(SudokuTransport { server_addr, server_port, config, dialer_config })
    }
}

} // verus!
