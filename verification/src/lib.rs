//! Verified core of an IPPAN node: memory pools and buffers, caches,
//! lock-free style containers, round bookkeeping, NAT/STUN parsing,
//! rate limiting, access control and security rule engines.

pub mod text;
pub mod keyed;
pub mod memory_pool;
pub mod strvec;
pub mod cache_system;
pub mod lockfree;
pub mod round;
pub mod serialization;
pub mod auditor;
pub mod nat_traversal;
pub mod privacy;
pub mod network_security;
pub mod p2p;
pub mod threat_detection;
pub mod security_auditor;
pub mod security_policies;
pub mod protocol;
pub mod performance;
pub mod node_types;
pub mod quantum;
pub mod key_management;
pub mod security_audit;
pub mod security;
pub mod scanner;
pub mod batch_processor;
pub mod metrics;
pub mod relay;
pub mod discovery;
pub mod caching;
pub mod http_peers;
