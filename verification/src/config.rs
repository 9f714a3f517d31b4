//! Configuration of the tunnel client.

pub mod client;

pub use client::{
    de_ca_file, de_psk, de_sni_name, de_tunnels, default_mtu, localhost_ipv4, ChannelLimits,
    Config, ConfigError, Crypto, CryptoConfig, TransportTimeouts, Tunnel,
};
