pub mod hysteria2;
pub mod masque;
pub mod http;
pub mod naive;
pub mod reject;
pub mod socks5;
pub mod ssh;
pub mod tor;
pub mod hysteria_v1;
pub mod vmess;
pub mod vless;
pub mod shadowsocks;
pub mod trojan;
pub mod wireguard;
pub mod chain;
pub mod tuic;
pub mod pool;
