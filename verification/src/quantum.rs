//! A simulated quantum computing service: jobs, key pairs, quantum key
//! distribution sessions, and post-quantum encryption and signatures built
//! from a key stream (each byte combined with the key, repeated, by XOR).

use vstd::prelude::*;
use crate::keyed::{Keyed, keys_of, lookup, stored, find_key, get_key, store, lemma_lookup_stored};
use crate::privacy::{sha256, sha256_digest, bytes_of};
use crate::p2p::random_bytes;
use crate::text::{owned, concat, i64_to_string, signed_decimal};

verus! {

/// Quantum algorithms.
#[derive(Debug, Clone, Copy, PartialEq, Eq, Structural)]
pub enum QuantumAlgorithm {
    Shor,
    Grover,
    QuantumFourierTransform,
    QuantumPhaseEstimation,
    QuantumWalk,
    QuantumMachineLearning,
    QuantumOptimization,
    QuantumSimulation,
    QuantumCryptography,
    QuantumKeyDistribution,
}

/// State of a quantum job.
#[derive(Debug, Clone, Copy, PartialEq, Eq, Structural)]
pub enum QuantumStatus {
    Idle,
    Running,
    Completed,
    Failed,
    Error,
}

/// Quantum key distribution protocols.
#[derive(Debug, Clone, Copy, PartialEq, Eq, Structural)]
pub enum QKDProtocol {
    BB84,
    BBM92,
    E91,
    SARG04,
    DecoyState,
    ContinuousVariable,
}

/// Families and schemes of post-quantum cryptography.
#[derive(Debug, Clone, Copy, PartialEq, Eq, Structural)]
pub enum QuantumResistantAlgorithm {
    LatticeBased,
    CodeBased,
    Multivariate,
    HashBased,
    IsogenyBased,
    Supersingular,
    Kyber,
    Dilithium,
    SphincsPlus,
    Falcon,
    Rainbow,
    ClassicMcEliece,
    HQC,
    SIKE,
}

/// NIST security levels: 128, 192 and 256 bits.
#[derive(Debug, Clone, Copy, PartialEq, Eq, Structural)]
pub enum PostQuantumSecurityLevel {
    Level1,
    Level3,
    Level5,
}

/// A classical cipher paired with a post-quantum scheme.
#[derive(Debug)]
pub struct HybridEncryptionScheme {
    pub classical_algorithm: String,
    pub quantum_resistant_algorithm: QuantumResistantAlgorithm,
    pub security_level: PostQuantumSecurityLevel,
    pub key_encapsulation: bool,
    pub signature_scheme: Option<QuantumResistantAlgorithm>,
}

/// How close quantum attacks are.
#[derive(Debug, Clone, Copy, PartialEq, Eq, Structural)]
pub enum QuantumThreatLevel {
    Low,
    Medium,
    High,
    Critical,
}

/// Data sealed by a post-quantum scheme, with named metadata.
#[derive(Debug)]
pub struct QuantumResistantEncryptionResult {
    pub encrypted_data: Vec<u8>,
    pub encapsulated_key: Vec<u8>,
    pub algorithm: QuantumResistantAlgorithm,
    pub security_level: PostQuantumSecurityLevel,
    pub hybrid_scheme: Option<HybridEncryptionScheme>,
    pub metadata: Vec<(String, String)>,
}


/// `data` with each byte XORed with the key byte at its position, the key
/// repeated as often as needed.
pub open spec fn key_stream(data: Seq<u8>, key: Seq<u8>) -> Seq<u8> {
    Seq::new(data.len(), |i: int| data[i] ^ key[i % key.len() as int])
}

/// Whether `key` can be repeated over `data` (an empty key only over no data).
pub open spec fn usable_key(data: Seq<u8>, key: Seq<u8>) -> bool {
    key.len() > 0 || data.len() == 0
}

/// XORs `data` with `key` repeated.
pub fn apply_key_stream(data: &[u8], key: &[u8]) -> (r: Vec<u8>)
    requires
        usable_key(data@, key@),
    ensures
        r@ == key_stream(data@, key@),
{
    let mut r: Vec<u8> = Vec::new();
    let mut i: usize = 0;
    while i < data.len()
        invariant
            i <= data@.len(),
            usable_key(data@, key@),
            r@ =~= key_stream(data@, key@).take(i as int),
        decreases data@.len() - i,
    {
        let b = data[i] ^ key[i % key.len()];
        r.push(b);
        i = i + 1;
        proof {
            assert(r@ =~= key_stream(data@, key@).take(i as int));
        }
    }
    proof {
        assert(key_stream(data@, key@).take(data@.len() as int) =~= key_stream(data@, key@));
    }
    r
}

/// Applying the same key stream twice gives the data back.
pub proof fn lemma_key_stream_involution(data: Seq<u8>, key: Seq<u8>)
    requires
        key.len() > 0,
    ensures
        key_stream(key_stream(data, key), key) == data,
{
    let once = key_stream(data, key);
    let twice = key_stream(once, key);
    assert forall|i: int| 0 <= i < data.len() implies twice[i] == data[i] by {
        let a = data[i];
        let b = key[i % key.len() as int];
        assert(once[i] == a ^ b);
        assert((a ^ b) ^ b == a) by (bit_vector);
    }
    assert(twice =~= data);
}


/// Key size in bits for a scheme at a security level: the published sizes of
/// Kyber and Dilithium, 2048 for every other scheme.
pub open spec fn key_size_for(a: QuantumResistantAlgorithm, l: PostQuantumSecurityLevel) -> u32 {
    match (a, l) {
        (QuantumResistantAlgorithm::Kyber, PostQuantumSecurityLevel::Level1) => 800,
        (QuantumResistantAlgorithm::Kyber, PostQuantumSecurityLevel::Level3) => 1184,
        (QuantumResistantAlgorithm::Kyber, PostQuantumSecurityLevel::Level5) => 1568,
        (QuantumResistantAlgorithm::Dilithium, PostQuantumSecurityLevel::Level1) => 1952,
        (QuantumResistantAlgorithm::Dilithium, PostQuantumSecurityLevel::Level3) => 2864,
        (QuantumResistantAlgorithm::Dilithium, PostQuantumSecurityLevel::Level5) => 4000,
        _ => 2048,
    }
}

/// The key size in bits for `a` at level `l`.
pub fn get_key_size_for_algorithm(a: QuantumResistantAlgorithm, l: PostQuantumSecurityLevel) -> (n: u32)
    ensures
        n == key_size_for(a, l),
{
    match (a, l) {
        (QuantumResistantAlgorithm::Kyber, PostQuantumSecurityLevel::Level1) => 800,
        (QuantumResistantAlgorithm::Kyber, PostQuantumSecurityLevel::Level3) => 1184,
        (QuantumResistantAlgorithm::Kyber, PostQuantumSecurityLevel::Level5) => 1568,
        (QuantumResistantAlgorithm::Dilithium, PostQuantumSecurityLevel::Level1) => 1952,
        (QuantumResistantAlgorithm::Dilithium, PostQuantumSecurityLevel::Level3) => 2864,
        (QuantumResistantAlgorithm::Dilithium, PostQuantumSecurityLevel::Level5) => 4000,
        _ => 2048,
    }
}

/// The signature scheme that goes with `a`: Dilithium for Kyber and
/// Dilithium, SPHINCS+ for itself, none for the others.
pub open spec fn signature_scheme_for(a: QuantumResistantAlgorithm) -> Option<QuantumResistantAlgorithm> {
    match a {
        QuantumResistantAlgorithm::Kyber => Some(QuantumResistantAlgorithm::Dilithium),
        QuantumResistantAlgorithm::Dilithium => Some(QuantumResistantAlgorithm::Dilithium),
        QuantumResistantAlgorithm::SphincsPlus => Some(QuantumResistantAlgorithm::SphincsPlus),
        _ => None,
    }
}

/// The signature scheme that goes with `a`.
pub fn get_signature_scheme_for_algorithm(a: QuantumResistantAlgorithm) -> (r: Option<QuantumResistantAlgorithm>)
    ensures
        r == signature_scheme_for(a),
{
    match a {
        QuantumResistantAlgorithm::Kyber => Some(QuantumResistantAlgorithm::Dilithium),
        QuantumResistantAlgorithm::Dilithium => Some(QuantumResistantAlgorithm::Dilithium),
        QuantumResistantAlgorithm::SphincsPlus => Some(QuantumResistantAlgorithm::SphincsPlus),
        _ => None,
    }
}

/// Years until quantum computers are expected to break classical schemes.
pub open spec fn advantage_years(t: QuantumThreatLevel) -> u32 {
    match t {
        QuantumThreatLevel::Low => 50,
        QuantumThreatLevel::Medium => 20,
        QuantumThreatLevel::High => 5,
        QuantumThreatLevel::Critical => 1,
    }
}

/// The expected years to quantum advantage at threat level `t`.
pub fn estimate_quantum_advantage_years(t: QuantumThreatLevel) -> (y: u32)
    ensures
        y == advantage_years(t),
{
    match t {
        QuantumThreatLevel::Low => 50,
        QuantumThreatLevel::Medium => 20,
        QuantumThreatLevel::High => 5,
        QuantumThreatLevel::Critical => 1,
    }
}

/// Millionths of risk that a threat level carries by itself.
pub open spec fn base_risk(t: QuantumThreatLevel) -> int {
    match t {
        QuantumThreatLevel::Low => 100_000,
        QuantumThreatLevel::Medium => 400_000,
        QuantumThreatLevel::High => 700_000,
        QuantumThreatLevel::Critical => 900_000,
    }
}

/// The quantum risk score, in millionths: the level's own risk plus a tenth
/// for each vulnerable algorithm, at most one.
pub open spec fn risk_score_for(t: QuantumThreatLevel, vulnerable: nat) -> int {
    let total = base_risk(t) + 100_000 * vulnerable;
    if total < 1_000_000 { total } else { 1_000_000 }
}

/// The quantum risk score (millionths) for level `t` and `vulnerable`.
pub fn calculate_quantum_risk_score(t: QuantumThreatLevel, vulnerable: &Vec<String>) -> (r: u32)
    ensures
        r == risk_score_for(t, vulnerable@.len()),
        r <= 1_000_000,
{
    let base: u32 = match t {
        QuantumThreatLevel::Low => 100_000,
        QuantumThreatLevel::Medium => 400_000,
        QuantumThreatLevel::High => 700_000,
        QuantumThreatLevel::Critical => 900_000,
    };
    if vulnerable.len() >= 10 {
        1_000_000
    } else {
        let total: u32 = base + 100_000 * (vulnerable.len() as u32);
        if total < 1_000_000 { total } else { 1_000_000 }
    }
}

/// The classical algorithms that a quantum computer breaks.
pub open spec fn vulnerable_algorithm_names() -> Seq<Seq<char>> {
    seq!["RSA-2048"@, "RSA-4096"@, "ECDSA-P256"@, "ECDSA-P384"@, "DSA-1024"@]
}

/// Lists the classical algorithms that a quantum computer breaks.
pub fn identify_vulnerable_algorithms() -> (r: Vec<String>)
    ensures
        r@.map_values(|s: String| s@) == vulnerable_algorithm_names(),
{
    let r = vec![owned("RSA-2048"), owned("RSA-4096"), owned("ECDSA-P256"), owned("ECDSA-P384"), owned("DSA-1024")];
    proof {
        assert(r@.map_values(|s: String| s@) =~= vulnerable_algorithm_names());
    }
    r
}

/// The migrations advised for one vulnerable algorithm.
pub open spec fn migrations_for(name: Seq<char>) -> Seq<Seq<char>> {
    if name == "RSA-2048"@ || name == "RSA-4096"@ {
        seq!["Migrate to CRYSTALS-Kyber for key encapsulation"@,
             "Migrate to CRYSTALS-Dilithium for digital signatures"@]
    } else if name == "ECDSA-P256"@ || name == "ECDSA-P384"@ {
        seq!["Migrate to CRYSTALS-Dilithium for digital signatures"@,
             "Consider SPHINCS+ for hash-based signatures"@]
    } else if name == "DSA-1024"@ {
        seq!["Immediately migrate to CRYSTALS-Dilithium"@]
    } else {
        seq!["Replace "@ + name + " with quantum-resistant alternative"@]
    }
}

/// The migrations advised for each of `names`, in order.
pub open spec fn migrations_for_all(names: Seq<Seq<char>>) -> Seq<Seq<char>>
    decreases names.len(),
{
    if names.len() == 0 {
        Seq::empty()
    } else {
        migrations_for_all(names.drop_last()) + migrations_for(names.last())
    }
}

/// Whether `s` is the literal `lit`.
fn is_text(s: &String, lit: &str) -> (r: bool)
    ensures
        r == (s@ == lit@),
{
    let l = owned(lit);
    *s == l
}

/// Appends the migrations advised for `name` to `out`.
fn push_migrations(out: &mut Vec<String>, name: &String)
    ensures
        final(out)@.map_values(|s: String| s@) == old(out)@.map_values(|s: String| s@) + migrations_for(name@),
{
    let ghost before = out@.map_values(|s: String| s@);
    if is_text(name, "RSA-2048") || is_text(name, "RSA-4096") {
        out.push(owned("Migrate to CRYSTALS-Kyber for key encapsulation"));
        out.push(owned("Migrate to CRYSTALS-Dilithium for digital signatures"));
    } else if is_text(name, "ECDSA-P256") || is_text(name, "ECDSA-P384") {
        out.push(owned("Migrate to CRYSTALS-Dilithium for digital signatures"));
        out.push(owned("Consider SPHINCS+ for hash-based signatures"));
    } else if is_text(name, "DSA-1024") {
        out.push(owned("Immediately migrate to CRYSTALS-Dilithium"));
    } else {
        let head = concat("Replace ", name.as_str());
        out.push(concat(head.as_str(), " with quantum-resistant alternative"));
    }
    proof {
        assert(out@.map_values(|s: String| s@) =~= before + migrations_for(name@));
    }
}

/// The migrations advised for each of `vulnerable`, in order.
pub fn generate_migration_recommendations(vulnerable: &Vec<String>) -> (r: Vec<String>)
    ensures
        r@.map_values(|s: String| s@) == migrations_for_all(vulnerable@.map_values(|s: String| s@)),
{
    let ghost names = vulnerable@.map_values(|s: String| s@);
    let mut r: Vec<String> = Vec::new();
    let mut i: usize = 0;
    while i < vulnerable.len()
        invariant
            i <= vulnerable@.len(),
            names == vulnerable@.map_values(|s: String| s@),
            r@.map_values(|s: String| s@) == migrations_for_all(names.take(i as int)),
        decreases vulnerable@.len() - i,
    {
        push_migrations(&mut r, &vulnerable[i]);
        proof {
            let t = names.take(i as int + 1);
            assert(t.drop_last() =~= names.take(i as int));
            assert(t.last() == vulnerable@[i as int]@);
        }
        i = i + 1;
    }
    proof {
        assert(names.take(vulnerable@.len() as int) =~= names);
    }
    r
}

/// The name of a post-quantum scheme, as `{:?}` prints it.
pub open spec fn resistant_name(a: QuantumResistantAlgorithm) -> Seq<char> {
    match a {
        QuantumResistantAlgorithm::LatticeBased => "LatticeBased"@,
        QuantumResistantAlgorithm::CodeBased => "CodeBased"@,
        QuantumResistantAlgorithm::Multivariate => "Multivariate"@,
        QuantumResistantAlgorithm::HashBased => "HashBased"@,
        QuantumResistantAlgorithm::IsogenyBased => "IsogenyBased"@,
        QuantumResistantAlgorithm::Supersingular => "Supersingular"@,
        QuantumResistantAlgorithm::Kyber => "Kyber"@,
        QuantumResistantAlgorithm::Dilithium => "Dilithium"@,
        QuantumResistantAlgorithm::SphincsPlus => "SphincsPlus"@,
        QuantumResistantAlgorithm::Falcon => "Falcon"@,
        QuantumResistantAlgorithm::Rainbow => "Rainbow"@,
        QuantumResistantAlgorithm::ClassicMcEliece => "ClassicMcEliece"@,
        QuantumResistantAlgorithm::HQC => "HQC"@,
        QuantumResistantAlgorithm::SIKE => "SIKE"@,
    }
}

/// The name of `a`.
pub fn resistant_algorithm_name(a: QuantumResistantAlgorithm) -> (s: String)
    ensures
        s@ == resistant_name(a),
{
    match a {
        QuantumResistantAlgorithm::LatticeBased => owned("LatticeBased"),
        QuantumResistantAlgorithm::CodeBased => owned("CodeBased"),
        QuantumResistantAlgorithm::Multivariate => owned("Multivariate"),
        QuantumResistantAlgorithm::HashBased => owned("HashBased"),
        QuantumResistantAlgorithm::IsogenyBased => owned("IsogenyBased"),
        QuantumResistantAlgorithm::Supersingular => owned("Supersingular"),
        QuantumResistantAlgorithm::Kyber => owned("Kyber"),
        QuantumResistantAlgorithm::Dilithium => owned("Dilithium"),
        QuantumResistantAlgorithm::SphincsPlus => owned("SphincsPlus"),
        QuantumResistantAlgorithm::Falcon => owned("Falcon"),
        QuantumResistantAlgorithm::Rainbow => owned("Rainbow"),
        QuantumResistantAlgorithm::ClassicMcEliece => owned("ClassicMcEliece"),
        QuantumResistantAlgorithm::HQC => owned("HQC"),
        QuantumResistantAlgorithm::SIKE => owned("SIKE"),
    }
}

/// The name of a security level, as `{:?}` prints it.
pub open spec fn level_name(l: PostQuantumSecurityLevel) -> Seq<char> {
    match l {
        PostQuantumSecurityLevel::Level1 => "Level1"@,
        PostQuantumSecurityLevel::Level3 => "Level3"@,
        PostQuantumSecurityLevel::Level5 => "Level5"@,
    }
}

/// The name of `l`.
pub fn security_level_name(l: PostQuantumSecurityLevel) -> (s: String)
    ensures
        s@ == level_name(l),
{
    match l {
        PostQuantumSecurityLevel::Level1 => owned("Level1"),
        PostQuantumSecurityLevel::Level3 => owned("Level3"),
        PostQuantumSecurityLevel::Level5 => owned("Level5"),
    }
}


/// Settings of a quantum job. `error_threshold` is in millionths.
#[derive(Debug)]
pub struct QuantumSystemConfig {
    pub algorithm: QuantumAlgorithm,
    pub qubits: u32,
    pub max_iterations: u32,
    pub error_threshold: u32,
    pub noise_model: String,
    pub optimization_level: u32,
    pub backend_type: String,
    pub enable_quantum_key_distribution: bool,
    pub enable_quantum_resistant_crypto: bool,
    pub enable_quantum_machine_learning: bool,
    pub default_post_quantum_algorithm: QuantumResistantAlgorithm,
    pub default_security_level: PostQuantumSecurityLevel,
    pub enable_hybrid_encryption: bool,
    pub enable_quantum_threat_monitoring: bool,
    pub quantum_threat_assessment_interval_hours: u32,
}

/// The outcome of a job. Data maps names to JSON text; `fidelity` and
/// `success_probability` are in millionths; times are in milliseconds.
#[derive(Debug)]
pub struct QuantumResult {
    pub job_id: String,
    pub algorithm: QuantumAlgorithm,
    pub output_data: Vec<(String, String)>,
    pub execution_time_ms: u64,
    pub qubits_used: u32,
    pub fidelity: u32,
    pub success_probability: u32,
    pub quantum_advantage: bool,
    pub classical_equivalent_time_ms: Option<u64>,
    pub timestamp: i64,
}

/// A submitted computation. Input data maps names to JSON text; times are
/// milliseconds since the Unix epoch.
#[derive(Debug)]
pub struct QuantumJob {
    pub id: String,
    pub algorithm: QuantumAlgorithm,
    pub input_data: Vec<(String, String)>,
    pub config: QuantumSystemConfig,
    pub status: QuantumStatus,
    pub created_at: i64,
    pub started_at: Option<i64>,
    pub completed_at: Option<i64>,
    pub result: Option<QuantumResult>,
    pub error_message: Option<String>,
}

/// A stored key pair; times are milliseconds since the Unix epoch.
#[derive(Debug)]
pub struct QuantumKeyPair {
    pub id: String,
    pub public_key: Vec<u8>,
    pub private_key: Vec<u8>,
    pub algorithm: QuantumResistantAlgorithm,
    pub key_size: u32,
    pub created_at: i64,
    pub expires_at: Option<i64>,
    pub is_compromised: bool,
}

/// A quantum key distribution session between two parties. The error rates
/// are in millionths; the secret key rate is in millionths of a bit per
/// second.
#[derive(Debug)]
pub struct QKDSession {
    pub id: String,
    pub protocol: QKDProtocol,
    pub alice_id: String,
    pub bob_id: String,
    pub key_length: u32,
    pub bit_error_rate: u64,
    pub quantum_bit_error_rate: u64,
    pub secret_key_rate: u64,
    pub status: QuantumStatus,
    pub shared_key: Option<Vec<u8>>,
    pub created_at: i64,
    pub completed_at: Option<i64>,
}

/// Counters of the service. `algorithms_by_type` has one entry per
/// algorithm and `jobs_by_status` one per status, in declaration order;
/// `None` marks a kind never counted.
#[derive(Debug)]
pub struct QuantumSystemStats {
    pub total_jobs: u64,
    pub completed_jobs: u64,
    pub failed_jobs: u64,
    pub active_jobs: u64,
    pub total_qubits: u32,
    pub available_qubits: u32,
    pub total_execution_time_ms: u64,
    pub average_execution_time_ms: u64,
    pub quantum_advantage_count: u64,
    pub key_pairs_generated: u64,
    pub qkd_sessions_completed: u64,
    pub algorithms_by_type: Vec<Option<u64>>,
    pub jobs_by_status: Vec<Option<u64>>,
}

/// Load and quality figures of the quantum processor, in millionths
/// (`coherence_time_ms` in millionths of a millisecond).
#[derive(Debug, Clone, Copy, PartialEq, Eq, Structural)]
pub struct QuantumSystemMetrics {
    pub cpu_usage_percent: u64,
    pub memory_usage_percent: u64,
    pub quantum_processor_usage_percent: u64,
    pub active_jobs: u64,
    pub queued_jobs: u64,
    pub average_fidelity: u64,
    pub error_rate: u64,
    pub coherence_time_ms: u64,
    pub gate_fidelity: u64,
}

/// A post-quantum key pair with its scheme; times are milliseconds since
/// the Unix epoch.
#[derive(Debug)]
pub struct PostQuantumKeyPair {
    pub id: String,
    pub algorithm: QuantumResistantAlgorithm,
    pub security_level: PostQuantumSecurityLevel,
    pub public_key: Vec<u8>,
    pub private_key: Vec<u8>,
    pub classical_public_key: Option<Vec<u8>>,
    pub classical_private_key: Option<Vec<u8>>,
    pub created_at: i64,
    pub expires_at: Option<i64>,
    pub is_compromised: bool,
    pub key_size: u32,
    pub signature_scheme: Option<QuantumResistantAlgorithm>,
}

/// A post-quantum signature of a message hash.
#[derive(Debug)]
pub struct PostQuantumSignature {
    pub id: String,
    pub algorithm: QuantumResistantAlgorithm,
    pub message_hash: Vec<u8>,
    pub signature: Vec<u8>,
    pub public_key: Vec<u8>,
    pub created_at: i64,
    pub is_valid: bool,
}

/// How exposed the node is to quantum attacks; `risk_score` is in
/// millionths, `timestamp` in milliseconds since the Unix epoch.
#[derive(Debug)]
pub struct QuantumThreatAssessment {
    pub timestamp: i64,
    pub threat_level: QuantumThreatLevel,
    pub estimated_quantum_advantage_years: u32,
    pub vulnerable_algorithms: Vec<String>,
    pub recommended_migrations: Vec<String>,
    pub risk_score: u32,
}

impl Keyed for QuantumJob {
    open spec fn key_view(&self) -> Seq<char> {
        self.id@
    }

    fn key(&self) -> (k: &String) {
        &self.id
    }
}

impl Keyed for QuantumResult {
    open spec fn key_view(&self) -> Seq<char> {
        self.job_id@
    }

    fn key(&self) -> (k: &String) {
        &self.job_id
    }
}

impl Keyed for QuantumKeyPair {
    open spec fn key_view(&self) -> Seq<char> {
        self.id@
    }

    fn key(&self) -> (k: &String) {
        &self.id
    }
}

impl Keyed for QKDSession {
    open spec fn key_view(&self) -> Seq<char> {
        self.id@
    }

    fn key(&self) -> (k: &String) {
        &self.id
    }
}

/// Position of an algorithm in declaration order.
pub open spec fn algorithm_index(a: QuantumAlgorithm) -> int {
    match a {
        QuantumAlgorithm::Shor => 0,
        QuantumAlgorithm::Grover => 1,
        QuantumAlgorithm::QuantumFourierTransform => 2,
        QuantumAlgorithm::QuantumPhaseEstimation => 3,
        QuantumAlgorithm::QuantumWalk => 4,
        QuantumAlgorithm::QuantumMachineLearning => 5,
        QuantumAlgorithm::QuantumOptimization => 6,
        QuantumAlgorithm::QuantumSimulation => 7,
        QuantumAlgorithm::QuantumCryptography => 8,
        QuantumAlgorithm::QuantumKeyDistribution => 9,
    }
}

fn algorithm_pos(a: QuantumAlgorithm) -> (i: usize)
    ensures
        i == algorithm_index(a),
{
    match a {
        QuantumAlgorithm::Shor => 0,
        QuantumAlgorithm::Grover => 1,
        QuantumAlgorithm::QuantumFourierTransform => 2,
        QuantumAlgorithm::QuantumPhaseEstimation => 3,
        QuantumAlgorithm::QuantumWalk => 4,
        QuantumAlgorithm::QuantumMachineLearning => 5,
        QuantumAlgorithm::QuantumOptimization => 6,
        QuantumAlgorithm::QuantumSimulation => 7,
        QuantumAlgorithm::QuantumCryptography => 8,
        QuantumAlgorithm::QuantumKeyDistribution => 9,
    }
}

/// Position of a status in declaration order.
pub open spec fn status_index(s: QuantumStatus) -> int {
    match s {
        QuantumStatus::Idle => 0,
        QuantumStatus::Running => 1,
        QuantumStatus::Completed => 2,
        QuantumStatus::Failed => 3,
        QuantumStatus::Error => 4,
    }
}

/// The count kept for the key at `i`, as `*entry(key).or_insert(0) += 1`
/// leaves it.
pub open spec fn counted(v: Seq<Option<u64>>, i: int) -> Seq<Option<u64>> {
    v.update(i, Some(match v[i] { Some(c) => (c + 1) as u64, None => 1u64 }))
}

/// Whether one more can be counted at `i` without overflow.
pub open spec fn room_at(v: Seq<Option<u64>>, i: int) -> bool {
    match v[i] { Some(c) => c < u64::MAX, None => true }
}

/// The count kept for the key at `i`, as `*entry(key).or_insert(1) -= 1`
/// leaves it.
pub open spec fn uncounted(v: Seq<Option<u64>>, i: int) -> Seq<Option<u64>> {
    v.update(i, Some(match v[i] { Some(c) => (c - 1) as u64, None => 0u64 }))
}

/// Counts one more at `i`.
fn count_at(v: &mut Vec<Option<u64>>, i: usize)
    requires
        i < old(v)@.len(),
        room_at(old(v)@, i as int),
    ensures
        final(v)@ == counted(old(v)@, i as int),
{
    let n: u64 = match v[i] {
        Some(c) => c + 1,
        None => 1,
    };
    v.set(i, Some(n));
}

/// Counts one less at `i`, a missing count standing for one.
fn uncount_at(v: &mut Vec<Option<u64>>, i: usize)
    requires
        i < old(v)@.len(),
        old(v)@[i as int] != Some(0u64),
    ensures
        final(v)@ == uncounted(old(v)@, i as int),
{
    let n: u64 = match v[i] {
        Some(c) => c - 1,
        None => 0,
    };
    v.set(i, Some(n));
}

/// The delay, in milliseconds, that simulates running `a`.
pub open spec fn job_delay(a: QuantumAlgorithm) -> u64 {
    match a {
        QuantumAlgorithm::Shor => 5000,
        QuantumAlgorithm::Grover => 3000,
        QuantumAlgorithm::QuantumFourierTransform => 2000,
        QuantumAlgorithm::QuantumPhaseEstimation => 4000,
        QuantumAlgorithm::QuantumWalk => 1500,
        QuantumAlgorithm::QuantumMachineLearning => 8000,
        QuantumAlgorithm::QuantumOptimization => 6000,
        QuantumAlgorithm::QuantumSimulation => 7000,
        QuantumAlgorithm::QuantumCryptography => 2500,
        QuantumAlgorithm::QuantumKeyDistribution => 3000,
    }
}

/// The simulated running time of `a`.
pub fn simulated_delay_ms(a: QuantumAlgorithm) -> (d: u64)
    ensures
        d == job_delay(a),
{
    match a {
        QuantumAlgorithm::Shor => 5000,
        QuantumAlgorithm::Grover => 3000,
        QuantumAlgorithm::QuantumFourierTransform => 2000,
        QuantumAlgorithm::QuantumPhaseEstimation => 4000,
        QuantumAlgorithm::QuantumWalk => 1500,
        QuantumAlgorithm::QuantumMachineLearning => 8000,
        QuantumAlgorithm::QuantumOptimization => 6000,
        QuantumAlgorithm::QuantumSimulation => 7000,
        QuantumAlgorithm::QuantumCryptography => 2500,
        QuantumAlgorithm::QuantumKeyDistribution => 3000,
    }
}

/// The output of a job of algorithm `a`: names and JSON text of the values.
pub open spec fn outputs_for(a: QuantumAlgorithm) -> Seq<(Seq<char>, Seq<char>)> {
    match a {
        QuantumAlgorithm::Shor => seq![("factors"@, "[3,7,11]"@), ("period"@, "42"@)],
        QuantumAlgorithm::Grover => seq![("marked_state"@, "\"1010\""@), ("iterations"@, "3"@)],
        QuantumAlgorithm::QuantumFourierTransform => seq![("frequencies"@, "[1.5,2.3,4.1]"@), ("amplitude"@, "0.8"@)],
        QuantumAlgorithm::QuantumPhaseEstimation => seq![("phase"@, "0.314"@), ("precision"@, "0.001"@)],
        QuantumAlgorithm::QuantumWalk => seq![("position"@, "15"@), ("probability"@, "0.75"@)],
        QuantumAlgorithm::QuantumMachineLearning => seq![("model_accuracy"@, "0.92"@), ("training_iterations"@, "100"@)],
        QuantumAlgorithm::QuantumOptimization => seq![("optimal_solution"@, "[1,0,1,1,0]"@), ("energy"@, "-2.5"@)],
        QuantumAlgorithm::QuantumSimulation => seq![("energy_levels"@, "[-1.2,0.5,2.1]"@), ("ground_state"@, "-1.2"@)],
        QuantumAlgorithm::QuantumCryptography => seq![("encrypted_message"@, "\"quantum_encrypted_data\""@), ("key_length"@, "256"@)],
        QuantumAlgorithm::QuantumKeyDistribution => seq![("shared_key"@, "\"quantum_shared_key\""@), ("key_rate"@, "1000"@)],
    }
}

/// The text of name/value pairs.
pub open spec fn pairs_view(v: Seq<(String, String)>) -> Seq<(Seq<char>, Seq<char>)> {
    v.map_values(|p: (String, String)| (p.0@, p.1@))
}

fn pair(a: &str, b: &str) -> (r: (String, String))
    ensures
        r.0@ == a@,
        r.1@ == b@,
{
    (owned(a), owned(b))
}

/// The output data of a job of algorithm `a`.
pub fn output_data_for(a: QuantumAlgorithm) -> (r: Vec<(String, String)>)
    ensures
        pairs_view(r@) == outputs_for(a),
{
    let r = match a {
        QuantumAlgorithm::Shor => vec![pair("factors", "[3,7,11]"), pair("period", "42")],
        QuantumAlgorithm::Grover => vec![pair("marked_state", "\"1010\""), pair("iterations", "3")],
        QuantumAlgorithm::QuantumFourierTransform => vec![pair("frequencies", "[1.5,2.3,4.1]"), pair("amplitude", "0.8")],
        QuantumAlgorithm::QuantumPhaseEstimation => vec![pair("phase", "0.314"), pair("precision", "0.001")],
        QuantumAlgorithm::QuantumWalk => vec![pair("position", "15"), pair("probability", "0.75")],
        QuantumAlgorithm::QuantumMachineLearning => vec![pair("model_accuracy", "0.92"), pair("training_iterations", "100")],
        QuantumAlgorithm::QuantumOptimization => vec![pair("optimal_solution", "[1,0,1,1,0]"), pair("energy", "-2.5")],
        QuantumAlgorithm::QuantumSimulation => vec![pair("energy_levels", "[-1.2,0.5,2.1]"), pair("ground_state", "-1.2")],
        QuantumAlgorithm::QuantumCryptography => vec![pair("encrypted_message", "\"quantum_encrypted_data\""), pair("key_length", "256")],
        QuantumAlgorithm::QuantumKeyDistribution => vec![pair("shared_key", "\"quantum_shared_key\""), pair("key_rate", "1000")],
    };
    proof {
        assert(pairs_view(r@) =~= outputs_for(a));
    }
    r
}

/// Copies name/value pairs.
pub fn copy_pairs(v: &Vec<(String, String)>) -> (r: Vec<(String, String)>)
    ensures
        pairs_view(r@) == pairs_view(v@),
{
    let mut r: Vec<(String, String)> = Vec::new();
    let mut i: usize = 0;
    while i < v.len()
        invariant
            i <= v@.len(),
            pairs_view(r@) =~= pairs_view(v@).take(i as int),
        decreases v@.len() - i,
    {
        let a = v[i].0.clone();
        let b = v[i].1.clone();
        let ghost before = r@;
        r.push((a, b));
        proof {
            assert(r@ == before.push((a, b)));
            assert(pairs_view(r@) =~= pairs_view(before).push((a@, b@)));
            assert(pairs_view(v@)[i as int] == (v@[i as int].0@, v@[i as int].1@));
        }
        i = i + 1;
        proof {
            assert(pairs_view(r@) =~= pairs_view(v@).take(i as int));
        }
    }
    proof {
        assert(pairs_view(v@).take(v@.len() as int) =~= pairs_view(v@));
    }
    r
}

/// Whether `a` and `b` hold the same result.
pub open spec fn same_result(a: QuantumResult, b: QuantumResult) -> bool {
    &&& a.job_id@ == b.job_id@
    &&& a.algorithm == b.algorithm
    &&& pairs_view(a.output_data@) == pairs_view(b.output_data@)
    &&& a.execution_time_ms == b.execution_time_ms
    &&& a.qubits_used == b.qubits_used
    &&& a.fidelity == b.fidelity
    &&& a.success_probability == b.success_probability
    &&& a.quantum_advantage == b.quantum_advantage
    &&& a.classical_equivalent_time_ms == b.classical_equivalent_time_ms
    &&& a.timestamp == b.timestamp
}

/// Copies a result.
pub fn copy_result(r: &QuantumResult) -> (c: QuantumResult)
    ensures
        same_result(c, *r),
{
    QuantumResult {
        job_id: r.job_id.clone(),
        algorithm: r.algorithm,
        output_data: copy_pairs(&r.output_data),
        execution_time_ms: r.execution_time_ms,
        qubits_used: r.qubits_used,
        fidelity: r.fidelity,
        success_probability: r.success_probability,
        quantum_advantage: r.quantum_advantage,
        classical_equivalent_time_ms: r.classical_equivalent_time_ms,
        timestamp: r.timestamp,
    }
}

/// `n` copies of `b`.
pub fn filled(b: u8, n: usize) -> (r: Vec<u8>)
    ensures
        r@ == Seq::new(n as nat, |i: int| b),
{
    let mut r: Vec<u8> = Vec::new();
    let mut i: usize = 0;
    while i < n
        invariant
            i <= n,
            r@ =~= Seq::new(i as nat, |j: int| b),
        decreases n - i,
    {
        r.push(b);
        i = i + 1;
        proof {
            assert(r@ =~= Seq::new(i as nat, |j: int| b));
        }
    }
    r
}

/// Copies bytes.
pub fn copy_bytes(v: &Vec<u8>) -> (r: Vec<u8>)
    ensures
        r@ == v@,
{
    let r = v.clone();
    proof {
        assert(r@ =~= v@);
    }
    r
}

/// One random byte (`rand::random::<u8>`); nothing is claimed of it.
#[verifier::external_body]
fn random_byte() -> u8 {
    rand::random::<u8>()
}

/// One random bit (`rand::random::<bool>`); nothing is claimed of it.
#[verifier::external_body]
fn random_bool() -> bool {
    rand::random::<bool>()
}

/// A random integer below `n` (`Rng::gen_range` on `0..n` with the thread
/// RNG). Claimed: it is below `n`. The range is not empty, as `gen_range`
/// requires.
#[verifier::external_body]
fn random_below(n: u64) -> (r: u64)
    requires
        n > 0,
    ensures
        r < n,
{
    rand::Rng::gen_range(&mut rand::thread_rng(), 0..n)
}


/// The job id for a submission at `now_ms`.
pub open spec fn job_id_at(now_ms: i64) -> Seq<char> {
    "quantum_job_"@ + signed_decimal(now_ms as int)
}

/// The id of a key pair made at `now_ms`.
pub open spec fn key_id_at(now_ms: i64) -> Seq<char> {
    "quantum_key_"@ + signed_decimal(now_ms as int)
}

/// The id of a post-quantum key pair made at `now_ms`.
pub open spec fn pq_key_id_at(now_ms: i64) -> Seq<char> {
    "pq_key_"@ + signed_decimal(now_ms as int)
}

/// The id of a post-quantum signature made at `now_ms`.
pub open spec fn pq_sig_id_at(now_ms: i64) -> Seq<char> {
    "pq_sig_"@ + signed_decimal(now_ms as int)
}

/// The id of a key distribution session started at `now_ms`.
pub open spec fn session_id_at(now_ms: i64) -> Seq<char> {
    "qkd_session_"@ + signed_decimal(now_ms as int)
}

/// A year, in milliseconds: how long a key pair stays valid.
pub open spec fn key_lifetime_ms() -> int {
    31_536_000_000
}

/// The message of every refusal while the service is disabled.
pub open spec fn disabled_message() -> Seq<char> {
    "Quantum system is disabled"@
}

fn disabled_error() -> (s: String)
    ensures
        s@ == disabled_message(),
{
    owned("Quantum system is disabled")
}

fn with_time(prefix: &str, now_ms: i64) -> (s: String)
    ensures
        s@ == prefix@ + signed_decimal(now_ms as int),
{
    let t = i64_to_string(now_ms);
    concat(prefix, t.as_str())
}

/// A simulated quantum computer with its jobs, results, key pairs and key
/// distribution sessions.
pub struct AdvancedQuantumSystem {
    jobs: Vec<QuantumJob>,
    results: Vec<QuantumResult>,
    key_pairs: Vec<QuantumKeyPair>,
    qkd_sessions: Vec<QKDSession>,
    stats: QuantumSystemStats,
    metrics: QuantumSystemMetrics,
    enabled: bool,
}

/// The figures the processor reports.
pub open spec fn initial_metrics() -> QuantumSystemMetrics {
    QuantumSystemMetrics {
        cpu_usage_percent: 0,
        memory_usage_percent: 0,
        quantum_processor_usage_percent: 0,
        active_jobs: 0,
        queued_jobs: 0,
        average_fidelity: 990_000,
        error_rate: 1_000,
        coherence_time_ms: 100_000_000,
        gate_fidelity: 999_000,
    }
}

impl AdvancedQuantumSystem {
    /// The jobs, in submission order.
    pub closed spec fn jobs(&self) -> Seq<QuantumJob> {
        self.jobs@
    }

    /// The results, in completion order.
    pub closed spec fn results(&self) -> Seq<QuantumResult> {
        self.results@
    }

    /// The key pairs, in creation order.
    pub closed spec fn key_pairs(&self) -> Seq<QuantumKeyPair> {
        self.key_pairs@
    }

    /// The key distribution sessions, in start order.
    pub closed spec fn sessions(&self) -> Seq<QKDSession> {
        self.qkd_sessions@
    }

    /// The counters.
    pub closed spec fn stats(&self) -> QuantumSystemStats {
        self.stats
    }

    /// Whether the service accepts work.
    pub closed spec fn is_enabled(&self) -> bool {
        self.enabled
    }

    /// The processor's figures.
    pub closed spec fn metrics(&self) -> QuantumSystemMetrics {
        self.metrics
    }

    /// The counters have one entry per algorithm and per status, and the
    /// processor's figures are those it was set up with.
    pub open spec fn wf(&self) -> bool {
        &&& self.stats().algorithms_by_type@.len() == 10
        &&& self.stats().jobs_by_status@.len() == 5
        &&& self.metrics() == initial_metrics()
    }

    /// An empty, enabled service with 100 qubits.
    pub fn new() -> (q: Self)
        ensures
            q.wf(),
            q.is_enabled(),
            q.jobs().len() == 0,
            q.results().len() == 0,
            q.key_pairs().len() == 0,
            q.sessions().len() == 0,
            q.stats().total_jobs == 0,
            q.stats().completed_jobs == 0,
            q.stats().failed_jobs == 0,
            q.stats().active_jobs == 0,
            q.stats().total_qubits == 100,
            q.stats().available_qubits == 100,
            q.stats().total_execution_time_ms == 0,
            q.stats().average_execution_time_ms == 0,
            q.stats().quantum_advantage_count == 0,
            q.stats().key_pairs_generated == 0,
            q.stats().qkd_sessions_completed == 0,
            q.stats().algorithms_by_type@ == Seq::new(10, |i: int| None::<u64>),
            q.stats().jobs_by_status@ == Seq::new(5, |i: int| None::<u64>),
    {
        let mut by_type: Vec<Option<u64>> = Vec::new();
        let mut i: usize = 0;
        while i < 10
            invariant
                i <= 10,
                by_type@ =~= Seq::new(i as nat, |j: int| None::<u64>),
            decreases 10 - i,
        {
            by_type.push(None);
            i = i + 1;
            proof {
                assert(by_type@ =~= Seq::new(i as nat, |j: int| None::<u64>));
            }
        }
        let by_status: Vec<Option<u64>> = vec![None, None, None, None, None];
        proof {
            assert(by_status@ =~= Seq::new(5, |j: int| None::<u64>));
        }
        AdvancedQuantumSystem {
            jobs: Vec::new(),
            results: Vec::new(),
            key_pairs: Vec::new(),
            qkd_sessions: Vec::new(),
            stats: QuantumSystemStats {
                total_jobs: 0,
                completed_jobs: 0,
                failed_jobs: 0,
                active_jobs: 0,
                total_qubits: 100,
                available_qubits: 100,
                total_execution_time_ms: 0,
                average_execution_time_ms: 0,
                quantum_advantage_count: 0,
                key_pairs_generated: 0,
                qkd_sessions_completed: 0,
                algorithms_by_type: by_type,
                jobs_by_status: by_status,
            },
            metrics: QuantumSystemMetrics {
                cpu_usage_percent: 0,
                memory_usage_percent: 0,
                quantum_processor_usage_percent: 0,
                active_jobs: 0,
                queued_jobs: 0,
                average_fidelity: 990_000,
                error_rate: 1_000,
                coherence_time_ms: 100_000_000,
                gate_fidelity: 999_000,
            },
            enabled: true,
        }
    }

    /// Whether the service accepts work.
    pub fn enabled(&self) -> (b: bool)
        ensures
            b == self.is_enabled(),
    {
        self.enabled
    }

    /// Lets the service accept work.
    pub fn enable(&mut self)
        requires
            old(self).wf(),
        ensures
            final(self).wf(),
            final(self).is_enabled(),
            final(self).jobs() == old(self).jobs(),
            final(self).results() == old(self).results(),
            final(self).key_pairs() == old(self).key_pairs(),
            final(self).sessions() == old(self).sessions(),
            final(self).stats() == old(self).stats(),
    {
        self.enabled = true;
    }

    /// Makes the service refuse work.
    pub fn disable(&mut self)
        requires
            old(self).wf(),
        ensures
            final(self).wf(),
            !final(self).is_enabled(),
            final(self).jobs() == old(self).jobs(),
            final(self).results() == old(self).results(),
            final(self).key_pairs() == old(self).key_pairs(),
            final(self).sessions() == old(self).sessions(),
            final(self).stats() == old(self).stats(),
    {
        self.enabled = false;
    }

    /// The job with id `job_id`.
    pub fn get_job(&self, job_id: &str) -> (r: Option<&QuantumJob>)
        ensures
            match r {
                Some(j) => lookup(self.jobs(), job_id@) == Some(*j),
                None => lookup(self.jobs(), job_id@) is None,
            },
    {
        get_key(&self.jobs, job_id)
    }

    /// The result of the job with id `job_id`.
    pub fn get_result(&self, job_id: &str) -> (r: Option<&QuantumResult>)
        ensures
            match r {
                Some(x) => lookup(self.results(), job_id@) == Some(*x),
                None => lookup(self.results(), job_id@) is None,
            },
    {
        get_key(&self.results, job_id)
    }

    /// All jobs.
    pub fn get_jobs(&self) -> (r: &Vec<QuantumJob>)
        ensures
            r@ == self.jobs(),
    {
        &self.jobs
    }

    /// The key pair with id `key_id`.
    pub fn get_key_pair(&self, key_id: &str) -> (r: Option<&QuantumKeyPair>)
        ensures
            match r {
                Some(k) => lookup(self.key_pairs(), key_id@) == Some(*k),
                None => lookup(self.key_pairs(), key_id@) is None,
            },
    {
        get_key(&self.key_pairs, key_id)
    }

    /// All key pairs.
    pub fn get_key_pairs(&self) -> (r: &Vec<QuantumKeyPair>)
        ensures
            r@ == self.key_pairs(),
    {
        &self.key_pairs
    }

    /// The key distribution session with id `session_id`.
    pub fn get_qkd_session(&self, session_id: &str) -> (r: Option<&QKDSession>)
        ensures
            match r {
                Some(x) => lookup(self.sessions(), session_id@) == Some(*x),
                None => lookup(self.sessions(), session_id@) is None,
            },
    {
        get_key(&self.qkd_sessions, session_id)
    }

    /// All key distribution sessions.
    pub fn get_qkd_sessions(&self) -> (r: &Vec<QKDSession>)
        ensures
            r@ == self.sessions(),
    {
        &self.qkd_sessions
    }

    /// The counters.
    pub fn get_stats(&self) -> (r: &QuantumSystemStats)
        ensures
            *r == self.stats(),
    {
        &self.stats
    }

    /// The processor's figures, which stay as they were set up.
    pub fn get_metrics(&self) -> (m: QuantumSystemMetrics)
        requires
            self.wf(),
        ensures
            m == initial_metrics(),
    {
        self.metrics
    }
}


/// Whether `j` is the job that a submission at `now_ms` makes.
pub open spec fn submitted(
    j: QuantumJob,
    algorithm: QuantumAlgorithm,
    input: Seq<(String, String)>,
    config: QuantumSystemConfig,
    now_ms: i64,
) -> bool {
    &&& j.id@ == job_id_at(now_ms)
    &&& j.algorithm == algorithm
    &&& j.input_data@ == input
    &&& j.config == config
    &&& j.status == QuantumStatus::Idle
    &&& j.created_at == now_ms
    &&& j.started_at is None
    &&& j.completed_at is None
    &&& j.result is None
    &&& j.error_message is None
}

/// The counters after a submission of algorithm `a`: one more job in all
/// and active, one more of its algorithm and one more idle.
pub open spec fn submit_stats(o: QuantumSystemStats, n: QuantumSystemStats, a: QuantumAlgorithm) -> bool {
    &&& n.total_jobs == o.total_jobs + 1
    &&& n.active_jobs == o.active_jobs + 1
    &&& n.algorithms_by_type@ == counted(o.algorithms_by_type@, algorithm_index(a))
    &&& n.jobs_by_status@ == counted(o.jobs_by_status@, status_index(QuantumStatus::Idle))
    &&& n.completed_jobs == o.completed_jobs
    &&& n.failed_jobs == o.failed_jobs
    &&& n.total_qubits == o.total_qubits
    &&& n.available_qubits == o.available_qubits
    &&& n.total_execution_time_ms == o.total_execution_time_ms
    &&& n.average_execution_time_ms == o.average_execution_time_ms
    &&& n.quantum_advantage_count == o.quantum_advantage_count
    &&& n.key_pairs_generated == o.key_pairs_generated
    &&& n.qkd_sessions_completed == o.qkd_sessions_completed
}

impl AdvancedQuantumSystem {
    /// Whether a submission of `a` overflows no counter.
    pub open spec fn room_to_submit(&self, a: QuantumAlgorithm) -> bool {
        &&& self.stats().total_jobs < u64::MAX
        &&& self.stats().active_jobs < u64::MAX
        &&& room_at(self.stats().algorithms_by_type@, algorithm_index(a))
        &&& room_at(self.stats().jobs_by_status@, status_index(QuantumStatus::Idle))
    }

    /// Whether a submission of `a` now would overflow no counter.
    pub fn can_submit(&self, a: QuantumAlgorithm) -> (b: bool)
        requires
            self.wf(),
        ensures
            b == self.room_to_submit(a),
    {
        let st = &self.stats;
        let room_algorithm = match st.algorithms_by_type[algorithm_pos(a)] {
            Some(c) => c < u64::MAX,
            None => true,
        };
        let room_idle = match st.jobs_by_status[0] {
            Some(c) => c < u64::MAX,
            None => true,
        };
        st.total_jobs < u64::MAX && st.active_jobs < u64::MAX && room_algorithm && room_idle
    }

    /// Queues a job of `algorithm` under the id `quantum_job_<now_ms>`,
    /// replacing a job with that id; refused while disabled.
    pub fn submit_job(
        &mut self,
        algorithm: QuantumAlgorithm,
        input_data: Vec<(String, String)>,
        config: QuantumSystemConfig,
        now_ms: i64,
    ) -> (r: Result<String, String>)
        requires
            old(self).wf(),
            old(self).is_enabled() ==> old(self).room_to_submit(algorithm),
        ensures
            final(self).wf(),
            r is Ok <==> old(self).is_enabled(),
            match r {
                Ok(id) => {
                    &&& id@ == job_id_at(now_ms)
                    &&& exists|j: QuantumJob| #![auto]
                        submitted(j, algorithm, input_data@, config, now_ms)
                        && final(self).jobs() == stored(old(self).jobs(), j)
                    &&& submit_stats(old(self).stats(), final(self).stats(), algorithm)
                },
                Err(e) => {
                    &&& e@ == disabled_message()
                    &&& final(self).jobs() == old(self).jobs()
                    &&& final(self).stats() == old(self).stats()
                },
            },
            final(self).results() == old(self).results(),
            final(self).key_pairs() == old(self).key_pairs(),
            final(self).sessions() == old(self).sessions(),
            final(self).is_enabled() == old(self).is_enabled(),
    {
        if !self.enabled {
            return Err(disabled_error());
        }
        let job_id = with_time("quantum_job_", now_ms);
        let job = QuantumJob {
            id: job_id.clone(),
            algorithm,
            input_data,
            config,
            status: QuantumStatus::Idle,
            created_at: now_ms,
            started_at: None,
            completed_at: None,
            result: None,
            error_message: None,
        };
        let ghost j = job;
        store(&mut self.jobs, job);
        self.stats.total_jobs = self.stats.total_jobs + 1;
        self.stats.active_jobs = self.stats.active_jobs + 1;
        count_at(&mut self.stats.algorithms_by_type, algorithm_pos(algorithm));
        count_at(&mut self.stats.jobs_by_status, 0);
        proof {
            assert(submitted(j, algorithm, input_data@, config, now_ms));
            assert(self.jobs() == stored(old(self).jobs(), j));
            assert(submit_stats(old(self).stats(), self.stats(), algorithm));
            assert(job_id@ == job_id_at(now_ms));
        }
        Ok(job_id)
    }
}


/// The message when no job has the id asked for.
pub open spec fn job_not_found() -> Seq<char> {
    "Job not found"@
}

/// Job `o` once started at `now_ms`.
pub open spec fn started_job(o: QuantumJob, now_ms: i64) -> QuantumJob {
    QuantumJob { status: QuantumStatus::Running, started_at: Some(now_ms), ..o }
}

/// Whether `n` is job `o` once completed at `now_ms` with result `res`.
pub open spec fn completed_job(o: QuantumJob, n: QuantumJob, res: QuantumResult, now_ms: i64) -> bool {
    &&& n.result matches Some(c) && same_result(c, res)
    &&& n == QuantumJob { status: QuantumStatus::Completed, completed_at: Some(now_ms), result: n.result, ..o }
}

/// Whether `res` is the result of job `j` that ran for `elapsed_ms`, read at
/// `now_ms`. Fidelity and success probability are drawn at random, at least
/// 0.95 and 0.8; whether the run showed an advantage is drawn too.
pub open spec fn result_of(res: QuantumResult, j: QuantumJob, elapsed_ms: u64, now_ms: i64) -> bool {
    &&& res.job_id@ == j.id@
    &&& res.algorithm == j.algorithm
    &&& pairs_view(res.output_data@) == outputs_for(j.algorithm)
    &&& res.execution_time_ms == elapsed_ms
    &&& res.qubits_used == j.config.qubits
    &&& 950_000 <= res.fidelity < 1_000_000
    &&& 800_000 <= res.success_probability < 1_000_000
    &&& res.classical_equivalent_time_ms == if res.quantum_advantage { Some((elapsed_ms * 10) as u64) } else { None }
    &&& res.timestamp == now_ms
}

/// The counters after a job completes in `elapsed_ms`: one more completed,
/// one fewer active (never below zero), the time added to the total and the
/// average taken anew, one more advantage if there was one, one more
/// completed and one fewer running by status.
pub open spec fn finish_stats(o: QuantumSystemStats, n: QuantumSystemStats, elapsed_ms: u64, advantage: bool) -> bool {
    &&& n.completed_jobs == o.completed_jobs + 1
    &&& n.active_jobs == if o.active_jobs > 0 { (o.active_jobs - 1) as u64 } else { 0u64 }
    &&& n.total_execution_time_ms == o.total_execution_time_ms + elapsed_ms
    &&& n.average_execution_time_ms == n.total_execution_time_ms / n.completed_jobs
    &&& n.quantum_advantage_count == o.quantum_advantage_count + if advantage { 1int } else { 0int }
    &&& n.jobs_by_status@ == uncounted(
        counted(o.jobs_by_status@, status_index(QuantumStatus::Completed)),
        status_index(QuantumStatus::Running),
    )
    &&& n.total_jobs == o.total_jobs
    &&& n.failed_jobs == o.failed_jobs
    &&& n.total_qubits == o.total_qubits
    &&& n.available_qubits == o.available_qubits
    &&& n.algorithms_by_type == o.algorithms_by_type
    &&& n.key_pairs_generated == o.key_pairs_generated
    &&& n.qkd_sessions_completed == o.qkd_sessions_completed
}

/// Moving a record out and back in place at the position of its key is
/// storing it.
proof fn lemma_stored_at<T: Keyed>(s: Seq<T>, i: int, x: T)
    requires
        keys_of(s).index_of_first(x.key_view()) == Some(i),
    ensures
        stored(s, x) == s.update(i, x),
{
}

impl AdvancedQuantumSystem {
    /// Whether completing a job that ran `elapsed_ms` overflows no counter.
    /// The running count is taken down by one, and a count of zero cannot
    /// be.
    pub open spec fn room_to_finish(&self, elapsed_ms: u64) -> bool {
        &&& self.stats().completed_jobs < u64::MAX
        &&& self.stats().total_execution_time_ms + elapsed_ms <= u64::MAX
        &&& self.stats().quantum_advantage_count < u64::MAX
        &&& room_at(self.stats().jobs_by_status@, status_index(QuantumStatus::Completed))
        &&& self.stats().jobs_by_status@[status_index(QuantumStatus::Running)] != Some(0u64)
    }

    /// Whether finishing a job that ran `elapsed_ms` would overflow no
    /// counter and find a running job counted.
    pub fn can_finish(&self, elapsed_ms: u64) -> (b: bool)
        requires
            self.wf(),
        ensures
            b == self.room_to_finish(elapsed_ms),
    {
        let st = &self.stats;
        let room_completed = match st.jobs_by_status[2] {
            Some(c) => c < u64::MAX,
            None => true,
        };
        let running_counted = match st.jobs_by_status[1] {
            Some(c) => c != 0,
            None => true,
        };
        st.completed_jobs < u64::MAX
            && elapsed_ms <= u64::MAX - st.total_execution_time_ms
            && st.quantum_advantage_count < u64::MAX
            && room_completed
            && running_counted
    }

    /// Marks job `job_id` running from `now_ms` and gives the time its
    /// algorithm takes to simulate, in milliseconds.
    pub fn begin_job(&mut self, job_id: &str, now_ms: i64) -> (r: Result<u64, String>)
        requires
            old(self).wf(),
        ensures
            final(self).wf(),
            match lookup(old(self).jobs(), job_id@) {
                Some(o) => {
                    &&& r == Ok::<u64, String>(job_delay(o.algorithm))
                    &&& final(self).jobs() == stored(old(self).jobs(), started_job(o, now_ms))
                },
                None => {
                    &&& r matches Err(e) && e@ == job_not_found()
                    &&& final(self).jobs() == old(self).jobs()
                },
            },
            final(self).results() == old(self).results(),
            final(self).key_pairs() == old(self).key_pairs(),
            final(self).sessions() == old(self).sessions(),
            final(self).stats() == old(self).stats(),
            final(self).is_enabled() == old(self).is_enabled(),
    {
        match find_key(&self.jobs, job_id) {
            None => Err(owned("Job not found")),
            Some(i) => {
                let ghost before = self.jobs@;
                let mut job = self.jobs.remove(i);
                job.status = QuantumStatus::Running;
                job.started_at = Some(now_ms);
                let delay = simulated_delay_ms(job.algorithm);
                let ghost n = job;
                self.jobs.insert(i, job);
                proof {
                    keys_of(before).index_of_first_ensures(job_id@);
                    assert(keys_of(before)[i as int] == before[i as int].key_view());
                    assert(n == started_job(before[i as int], now_ms));
                    lemma_stored_at(before, i as int, n);
                    assert(self.jobs@ =~= before.update(i as int, n));
                }
                Ok(delay)
            },
        }
    }

    /// Completes job `job_id`, which ran for `elapsed_ms`, at `now_ms`: its
    /// result is kept with the job and among the results, and the counters
    /// move on.
    pub fn finish_job(&mut self, job_id: &str, elapsed_ms: u64, now_ms: i64) -> (r: Result<QuantumResult, String>)
        requires
            old(self).wf(),
            elapsed_ms <= u64::MAX / 10,
            lookup(old(self).jobs(), job_id@) is Some ==> old(self).room_to_finish(elapsed_ms),
        ensures
            final(self).wf(),
            match lookup(old(self).jobs(), job_id@) {
                Some(o) => {
                    &&& r matches Ok(res) && {
                        &&& result_of(res, o, elapsed_ms, now_ms)
                        &&& exists|n: QuantumJob| #![auto]
                            completed_job(o, n, res, now_ms)
                            && final(self).jobs() == stored(old(self).jobs(), n)
                        &&& exists|x: QuantumResult| #![auto]
                            same_result(x, res)
                            && final(self).results() == stored(old(self).results(), x)
                        &&& finish_stats(old(self).stats(), final(self).stats(), elapsed_ms, res.quantum_advantage)
                    }
                },
                None => {
                    &&& r matches Err(e) && e@ == job_not_found()
                    &&& final(self).jobs() == old(self).jobs()
                    &&& final(self).results() == old(self).results()
                    &&& final(self).stats() == old(self).stats()
                },
            },
            final(self).key_pairs() == old(self).key_pairs(),
            final(self).sessions() == old(self).sessions(),
            final(self).is_enabled() == old(self).is_enabled(),
    {
        match find_key(&self.jobs, job_id) {
            None => Err(owned("Job not found")),
            Some(i) => {
                let ghost before = self.jobs@;
                let ghost o = before[i as int];
                let mut job = self.jobs.remove(i);
                let fidelity: u32 = 950_000 + (random_below(50_000) as u32);
                let success: u32 = 800_000 + (random_below(200_000) as u32);
                let advantage = random_bool();
                let result = QuantumResult {
                    job_id: job.id.clone(),
                    algorithm: job.algorithm,
                    output_data: output_data_for(job.algorithm),
                    execution_time_ms: elapsed_ms,
                    qubits_used: job.config.qubits,
                    fidelity,
                    success_probability: success,
                    quantum_advantage: advantage,
                    classical_equivalent_time_ms: if advantage { Some(elapsed_ms * 10) } else { None },
                    timestamp: now_ms,
                };
                job.status = QuantumStatus::Completed;
                job.completed_at = Some(now_ms);
                job.result = Some(copy_result(&result));
                let ghost n = job;
                self.jobs.insert(i, job);
                let kept = copy_result(&result);
                let ghost x = kept;
                store(&mut self.results, kept);
                self.stats.completed_jobs = self.stats.completed_jobs + 1;
                if self.stats.active_jobs > 0 {
                    self.stats.active_jobs = self.stats.active_jobs - 1;
                }
                self.stats.total_execution_time_ms = self.stats.total_execution_time_ms + elapsed_ms;
                self.stats.average_execution_time_ms = self.stats.total_execution_time_ms / self.stats.completed_jobs;
                if advantage {
                    self.stats.quantum_advantage_count = self.stats.quantum_advantage_count + 1;
                }
                count_at(&mut self.stats.jobs_by_status, 2);
                uncount_at(&mut self.stats.jobs_by_status, 1);
                proof {
                    keys_of(before).index_of_first_ensures(job_id@);
                    assert(keys_of(before)[i as int] == before[i as int].key_view());
                    assert(completed_job(o, n, result, now_ms));
                    lemma_stored_at(before, i as int, n);
                    assert(self.jobs@ =~= before.update(i as int, n));
                    assert(result_of(result, o, elapsed_ms, now_ms));
                    assert(same_result(x, result));
                    assert(finish_stats(old(self).stats(), self.stats(), elapsed_ms, advantage));
                }
                Ok(result)
            },
        }
    }
}


/// Whether every byte of `b` is the same.
pub open spec fn uniform(b: Seq<u8>) -> bool {
    forall|i: int, j: int| 0 <= i < b.len() && 0 <= j < b.len() ==> b[i] == b[j]
}

/// Whether `k` is the key pair made at `now_ms` for `algorithm` with
/// `key_size` bits: each key is `key_size / 8` bytes, one random byte
/// repeated, and it is valid for a year.
pub open spec fn made_key_pair(k: QuantumKeyPair, algorithm: QuantumResistantAlgorithm, key_size: u32, now_ms: i64) -> bool {
    &&& k.id@ == key_id_at(now_ms)
    &&& k.public_key@.len() == key_size / 8
    &&& k.private_key@.len() == key_size / 8
    &&& uniform(k.public_key@)
    &&& uniform(k.private_key@)
    &&& k.algorithm == algorithm
    &&& k.key_size == key_size
    &&& k.created_at == now_ms
    &&& k.expires_at == Some((now_ms + key_lifetime_ms()) as i64)
    &&& !k.is_compromised
}

/// Whether `k` is the post-quantum key pair made at `now_ms` for
/// `algorithm` at `level`: random keys of the scheme's size, valid for a
/// year.
pub open spec fn made_pq_key_pair(
    k: QuantumKeyPair,
    algorithm: QuantumResistantAlgorithm,
    level: PostQuantumSecurityLevel,
    now_ms: i64,
) -> bool {
    &&& k.id@ == pq_key_id_at(now_ms)
    &&& k.public_key@.len() == key_size_for(algorithm, level) / 8
    &&& k.private_key@.len() == key_size_for(algorithm, level) / 8
    &&& k.algorithm == algorithm
    &&& k.key_size == key_size_for(algorithm, level)
    &&& k.created_at == now_ms
    &&& k.expires_at == Some((now_ms + key_lifetime_ms()) as i64)
    &&& !k.is_compromised
}

/// Whether `x` is the session that `alice` and `bob` start at `now_ms`:
/// running, with error rates drawn at random between 1% and 3% (bits) and
/// 0.5% and 1.5% (qubits), and a secret key rate between 1000 and 6000 bits
/// per second.
pub open spec fn started_session(
    x: QKDSession,
    protocol: QKDProtocol,
    alice: Seq<char>,
    bob: Seq<char>,
    key_length: u32,
    now_ms: i64,
) -> bool {
    &&& x.id@ == session_id_at(now_ms)
    &&& x.protocol == protocol
    &&& x.alice_id@ == alice
    &&& x.bob_id@ == bob
    &&& x.key_length == key_length
    &&& 10_000 <= x.bit_error_rate < 30_000
    &&& 5_000 <= x.quantum_bit_error_rate < 15_000
    &&& 1_000_000_000 <= x.secret_key_rate < 6_000_000_000
    &&& x.status == QuantumStatus::Running
    &&& x.shared_key is None
    &&& x.created_at == now_ms
    &&& x.completed_at is None
}

/// Whether `n` is session `o` completed at `now_ms` with shared key `key`.
pub open spec fn completed_session(o: QKDSession, n: QKDSession, key: Seq<u8>, now_ms: i64) -> bool {
    &&& n.shared_key matches Some(k) && k@ == key
    &&& n == QKDSession { status: QuantumStatus::Completed, shared_key: n.shared_key, completed_at: Some(now_ms), ..o }
}

/// The message when no session has the id asked for.
pub open spec fn session_not_found() -> Seq<char> {
    "QKD session not found"@
}

/// The message when no key pair has the id asked for.
pub open spec fn key_pair_not_found() -> Seq<char> {
    "Key pair not found"@
}

impl AdvancedQuantumSystem {
    /// Makes a key pair of `key_size` bits under the id
    /// `quantum_key_<now_ms>`, replacing a pair with that id; refused while
    /// disabled.
    pub fn generate_quantum_key_pair(
        &mut self,
        algorithm: QuantumResistantAlgorithm,
        key_size: u32,
        now_ms: i64,
    ) -> (r: Result<String, String>)
        requires
            old(self).wf(),
            old(self).is_enabled() ==> old(self).stats().key_pairs_generated < u64::MAX
                && now_ms + key_lifetime_ms() <= i64::MAX,
        ensures
            final(self).wf(),
            r is Ok <==> old(self).is_enabled(),
            match r {
                Ok(id) => {
                    &&& id@ == key_id_at(now_ms)
                    &&& exists|k: QuantumKeyPair| #![auto]
                        made_key_pair(k, algorithm, key_size, now_ms)
                        && final(self).key_pairs() == stored(old(self).key_pairs(), k)
                    &&& final(self).stats() == QuantumSystemStats {
                        key_pairs_generated: (old(self).stats().key_pairs_generated + 1) as u64,
                        ..old(self).stats()
                    }
                },
                Err(e) => {
                    &&& e@ == disabled_message()
                    &&& final(self).key_pairs() == old(self).key_pairs()
                    &&& final(self).stats() == old(self).stats()
                },
            },
            final(self).jobs() == old(self).jobs(),
            final(self).results() == old(self).results(),
            final(self).sessions() == old(self).sessions(),
            final(self).is_enabled() == old(self).is_enabled(),
    {
        if !self.enabled {
            return Err(disabled_error());
        }
        let key_id = with_time("quantum_key_", now_ms);
        let n = (key_size / 8) as usize;
        let public_key = filled(random_byte(), n);
        let private_key = filled(random_byte(), n);
        let pair = QuantumKeyPair {
            id: key_id.clone(),
            public_key,
            private_key,
            algorithm,
            key_size,
            created_at: now_ms,
            expires_at: Some(now_ms + 31_536_000_000),
            is_compromised: false,
        };
        let ghost k = pair;
        store(&mut self.key_pairs, pair);
        self.stats.key_pairs_generated = self.stats.key_pairs_generated + 1;
        proof {
            assert(made_key_pair(k, algorithm, key_size, now_ms));
            assert(self.key_pairs() == stored(old(self).key_pairs(), k));
        }
        Ok(key_id)
    }

    /// Opens a key distribution session between `alice_id` and `bob_id`
    /// under the id `qkd_session_<now_ms>`; refused while disabled.
    pub fn start_qkd_session(
        &mut self,
        protocol: QKDProtocol,
        alice_id: &str,
        bob_id: &str,
        key_length: u32,
        now_ms: i64,
    ) -> (r: Result<String, String>)
        requires
            old(self).wf(),
        ensures
            final(self).wf(),
            r is Ok <==> old(self).is_enabled(),
            match r {
                Ok(id) => {
                    &&& id@ == session_id_at(now_ms)
                    &&& exists|x: QKDSession| #![auto]
                        started_session(x, protocol, alice_id@, bob_id@, key_length, now_ms)
                        && final(self).sessions() == stored(old(self).sessions(), x)
                },
                Err(e) => {
                    &&& e@ == disabled_message()
                    &&& final(self).sessions() == old(self).sessions()
                },
            },
            final(self).jobs() == old(self).jobs(),
            final(self).results() == old(self).results(),
            final(self).key_pairs() == old(self).key_pairs(),
            final(self).stats() == old(self).stats(),
            final(self).is_enabled() == old(self).is_enabled(),
    {
        if !self.enabled {
            return Err(disabled_error());
        }
        let session_id = with_time("qkd_session_", now_ms);
        let session = QKDSession {
            id: session_id.clone(),
            protocol,
            alice_id: owned(alice_id),
            bob_id: owned(bob_id),
            key_length,
            bit_error_rate: 10_000 + random_below(20_000),
            quantum_bit_error_rate: 5_000 + random_below(10_000),
            secret_key_rate: 1_000_000_000 + random_below(5_000_000_000),
            status: QuantumStatus::Running,
            shared_key: None,
            created_at: now_ms,
            completed_at: None,
        };
        let ghost x = session;
        store(&mut self.qkd_sessions, session);
        proof {
            assert(started_session(x, protocol, alice_id@, bob_id@, key_length, now_ms));
            assert(self.sessions() == stored(old(self).sessions(), x));
            assert(session_id@ == session_id_at(now_ms));
        }
        Ok(session_id)
    }

    /// Completes session `session_id` at `now_ms` with a shared key of
    /// `key_length / 8` bytes (one random byte repeated), which it returns.
    pub fn complete_qkd_session(&mut self, session_id: &str, now_ms: i64) -> (r: Result<Vec<u8>, String>)
        requires
            old(self).wf(),
            lookup(old(self).sessions(), session_id@) is Some ==> old(self).stats().qkd_sessions_completed < u64::MAX,
        ensures
            final(self).wf(),
            match lookup(old(self).sessions(), session_id@) {
                Some(o) => {
                    &&& r matches Ok(key) && {
                        &&& key@.len() == o.key_length / 8
                        &&& uniform(key@)
                        &&& exists|n: QKDSession| #![auto]
                            completed_session(o, n, key@, now_ms)
                            && final(self).sessions() == stored(old(self).sessions(), n)
                    }
                    &&& final(self).stats() == QuantumSystemStats {
                        qkd_sessions_completed: (old(self).stats().qkd_sessions_completed + 1) as u64,
                        ..old(self).stats()
                    }
                },
                None => {
                    &&& r matches Err(e) && e@ == session_not_found()
                    &&& final(self).sessions() == old(self).sessions()
                    &&& final(self).stats() == old(self).stats()
                },
            },
            final(self).jobs() == old(self).jobs(),
            final(self).results() == old(self).results(),
            final(self).key_pairs() == old(self).key_pairs(),
            final(self).is_enabled() == old(self).is_enabled(),
    {
        match find_key(&self.qkd_sessions, session_id) {
            None => Err(owned("QKD session not found")),
            Some(i) => {
                let ghost before = self.qkd_sessions@;
                let ghost o = before[i as int];
                let mut session = self.qkd_sessions.remove(i);
                let shared_key = filled(random_byte(), (session.key_length / 8) as usize);
                session.status = QuantumStatus::Completed;
                session.shared_key = Some(copy_bytes(&shared_key));
                session.completed_at = Some(now_ms);
                let ghost n = session;
                self.qkd_sessions.insert(i, session);
                self.stats.qkd_sessions_completed = self.stats.qkd_sessions_completed + 1;
                proof {
                    keys_of(before).index_of_first_ensures(session_id@);
                    assert(keys_of(before)[i as int] == before[i as int].key_view());
                    assert(completed_session(o, n, shared_key@, now_ms));
                    lemma_stored_at(before, i as int, n);
                    assert(self.qkd_sessions@ =~= before.update(i as int, n));
                }
                Ok(shared_key)
            },
        }
    }

    /// Makes a post-quantum key pair for `algorithm` at `security_level`
    /// under the id `pq_key_<now_ms>`, replacing a pair with that id; with
    /// `enable_hybrid`, classical keys are drawn as well and not kept.
    /// Refused while disabled.
    pub fn generate_post_quantum_key_pair(
        &mut self,
        algorithm: QuantumResistantAlgorithm,
        security_level: PostQuantumSecurityLevel,
        enable_hybrid: bool,
        now_ms: i64,
    ) -> (r: Result<String, String>)
        requires
            old(self).wf(),
            old(self).is_enabled() ==> old(self).stats().key_pairs_generated < u64::MAX
                && now_ms + key_lifetime_ms() <= i64::MAX,
        ensures
            final(self).wf(),
            r is Ok <==> old(self).is_enabled(),
            match r {
                Ok(id) => {
                    &&& id@ == pq_key_id_at(now_ms)
                    &&& exists|k: QuantumKeyPair| #![auto]
                        made_pq_key_pair(k, algorithm, security_level, now_ms)
                        && final(self).key_pairs() == stored(old(self).key_pairs(), k)
                    &&& final(self).stats() == QuantumSystemStats {
                        key_pairs_generated: (old(self).stats().key_pairs_generated + 1) as u64,
                        ..old(self).stats()
                    }
                },
                Err(e) => {
                    &&& e@ == disabled_message()
                    &&& final(self).key_pairs() == old(self).key_pairs()
                    &&& final(self).stats() == old(self).stats()
                },
            },
            final(self).jobs() == old(self).jobs(),
            final(self).results() == old(self).results(),
            final(self).sessions() == old(self).sessions(),
            final(self).is_enabled() == old(self).is_enabled(),
    {
        if !self.enabled {
            return Err(disabled_error());
        }
        let key_id = with_time("pq_key_", now_ms);
        let key_size = get_key_size_for_algorithm(algorithm, security_level);
        let n = (key_size / 8) as usize;
        let public_key = random_bytes(n);
        let private_key = random_bytes(n);
        if enable_hybrid {
            let _classical_public = random_bytes(256);
            let _classical_private = random_bytes(256);
        }
        let pair = QuantumKeyPair {
            id: key_id.clone(),
            public_key,
            private_key,
            algorithm,
            key_size,
            created_at: now_ms,
            expires_at: Some(now_ms + 31_536_000_000),
            is_compromised: false,
        };
        let ghost k = pair;
        store(&mut self.key_pairs, pair);
        self.stats.key_pairs_generated = self.stats.key_pairs_generated + 1;
        proof {
            assert(made_pq_key_pair(k, algorithm, security_level, now_ms));
            assert(self.key_pairs() == stored(old(self).key_pairs(), k));
        }
        Ok(key_id)
    }

    /// The key pair `key_id` as a post-quantum key pair: level 1, with no
    /// classical keys and no signature scheme.
    pub fn get_post_quantum_key_pair(&self, key_id: &str) -> (r: Result<PostQuantumKeyPair, String>)
        ensures
            match lookup(self.key_pairs(), key_id@) {
                Some(k) => r matches Ok(p) && {
                    &&& p.id@ == k.id@
                    &&& p.algorithm == k.algorithm
                    &&& p.security_level == PostQuantumSecurityLevel::Level1
                    &&& p.public_key@ == k.public_key@
                    &&& p.private_key@ == k.private_key@
                    &&& p.classical_public_key is None
                    &&& p.classical_private_key is None
                    &&& p.created_at == k.created_at
                    &&& p.expires_at == k.expires_at
                    &&& p.is_compromised == k.is_compromised
                    &&& p.key_size == k.key_size
                    &&& p.signature_scheme is None
                },
                None => r matches Err(e) && e@ == key_pair_not_found(),
            },
    {
        match get_key(&self.key_pairs, key_id) {
            None => Err(owned("Key pair not found")),
            Some(k) => Ok(PostQuantumKeyPair {
                id: k.id.clone(),
                algorithm: k.algorithm,
                security_level: PostQuantumSecurityLevel::Level1,
                public_key: copy_bytes(&k.public_key),
                private_key: copy_bytes(&k.private_key),
                classical_public_key: None,
                classical_private_key: None,
                created_at: k.created_at,
                expires_at: k.expires_at,
                is_compromised: k.is_compromised,
                key_size: k.key_size,
                signature_scheme: None,
            }),
        }
    }
}


/// The RFC 3339 text of the instant `ms` milliseconds after the Unix epoch,
/// in UTC, as chrono writes it; `None` outside the dates chrono represents.
pub uninterp spec fn rfc3339_text(ms: i64) -> Option<Seq<char>>;

/// chrono's `DateTime::<Utc>::from_timestamp_millis` followed by
/// `to_rfc3339`. Claimed: the result is `rfc3339_text(ms)`, a function of
/// `ms` alone (UTC, no locale).
#[verifier::external_body]
pub(crate) fn rfc3339_millis(ms: i64) -> (r: Option<String>)
    ensures
        match r {
            Some(s) => rfc3339_text(ms) == Some(s@),
            None => rfc3339_text(ms) is None,
        },
{
    match chrono::DateTime::<chrono::Utc>::from_timestamp_millis(ms) {
        Some(d) => Some(d.to_rfc3339()),
        None => None,
    }
}

/// Whether `e` seals `data` for `public_key`: the data is XORed with a
/// 32-byte symmetric key, which is itself XORed with the public key.
pub open spec fn sealed_for(e: QuantumResistantEncryptionResult, data: Seq<u8>, public_key: Seq<u8>) -> bool {
    exists|sym: Seq<u8>| #![auto]
        sym.len() == 32
        && e.encrypted_data@ == key_stream(data, sym)
        && e.encapsulated_key@ == key_stream(sym, public_key)
}

/// What decrypting `encrypted` under `encapsulated` with `private_key`
/// gives: the symmetric key is recovered with the private key, then the data
/// with the symmetric key.
pub open spec fn opened(encrypted: Seq<u8>, encapsulated: Seq<u8>, private_key: Seq<u8>) -> Seq<u8> {
    key_stream(encrypted, key_stream(encapsulated, private_key))
}

/// The metadata of a sealing at `now_ms`: scheme, level, whether hybrid,
/// and the time when chrono can write it.
pub open spec fn seal_metadata(
    algorithm: QuantumResistantAlgorithm,
    level: PostQuantumSecurityLevel,
    hybrid: bool,
    now_ms: i64,
) -> Seq<(Seq<char>, Seq<char>)> {
    let base = seq![
        ("algorithm"@, resistant_name(algorithm)),
        ("security_level"@, level_name(level)),
        ("hybrid"@, if hybrid { "true"@ } else { "false"@ }),
    ];
    match rfc3339_text(now_ms) {
        Some(t) => base.push(("timestamp"@, t)),
        None => base,
    }
}

/// Whether `sig` signs `data` with `private_key`: the SHA-256 hash of the
/// data XORed with the key.
pub open spec fn signed_with(sig: PostQuantumSignature, data: Seq<u8>, private_key: Seq<u8>) -> bool {
    &&& sig.message_hash@ == sha256(data)
    &&& sig.signature@ == key_stream(sha256(data), private_key)
}

/// Whether `sig` checks out against `public_key`.
pub open spec fn signature_checks(sig: PostQuantumSignature, public_key: Seq<u8>) -> bool {
    sig.signature@ == key_stream(sig.message_hash@, public_key)
}

/// Whether `a` and `b` hold the same bytes.
fn same_bytes(a: &Vec<u8>, b: &Vec<u8>) -> (r: bool)
    ensures
        r == (a@ == b@),
{
    if a.len() != b.len() {
        return false;
    }
    let mut i: usize = 0;
    while i < a.len()
        invariant
            i <= a@.len(),
            a@.len() == b@.len(),
            forall|j: int| 0 <= j < i ==> a@[j] == b@[j],
        decreases a@.len() - i,
    {
        if a[i] != b[i] {
            return false;
        }
        i = i + 1;
    }
    proof {
        assert(a@ =~= b@);
    }
    true
}

impl AdvancedQuantumSystem {
    /// Seals `data` for `public_key`: a fresh random 32-byte key encrypts the
    /// data and is itself encapsulated with the public key. Refused while
    /// disabled.
    pub fn encrypt_quantum_resistant(
        &self,
        data: &[u8],
        public_key: &[u8],
        algorithm: QuantumResistantAlgorithm,
        security_level: PostQuantumSecurityLevel,
        enable_hybrid: bool,
        now_ms: i64,
    ) -> (r: Result<QuantumResistantEncryptionResult, String>)
        requires
            self.is_enabled() ==> public_key@.len() > 0,
        ensures
            r is Ok <==> self.is_enabled(),
            match r {
                Ok(e) => {
                    &&& sealed_for(e, data@, public_key@)
                    &&& e.algorithm == algorithm
                    &&& e.security_level == security_level
                    &&& match e.hybrid_scheme {
                        Some(h) => {
                            &&& enable_hybrid
                            &&& h.classical_algorithm@ == "AES-256-GCM"@
                            &&& h.quantum_resistant_algorithm == algorithm
                            &&& h.security_level == security_level
                            &&& h.key_encapsulation
                            &&& h.signature_scheme == signature_scheme_for(algorithm)
                        },
                        None => !enable_hybrid,
                    }
                    &&& pairs_view(e.metadata@) == seal_metadata(algorithm, security_level, enable_hybrid, now_ms)
                },
                Err(m) => m@ == disabled_message(),
            },
    {
        if !self.enabled {
            return Err(disabled_error());
        }
        let symmetric_key = random_bytes(32);
        let encrypted_data = apply_key_stream(data, symmetric_key.as_slice());
        let encapsulated_key = apply_key_stream(symmetric_key.as_slice(), public_key);
        let hybrid_scheme = if enable_hybrid {
            Some(HybridEncryptionScheme {
                classical_algorithm: owned("AES-256-GCM"),
                quantum_resistant_algorithm: algorithm,
                security_level,
                key_encapsulation: true,
                signature_scheme: get_signature_scheme_for_algorithm(algorithm),
            })
        } else {
            None
        };
        let mut metadata: Vec<(String, String)> = Vec::new();
        metadata.push((owned("algorithm"), resistant_algorithm_name(algorithm)));
        metadata.push((owned("security_level"), security_level_name(security_level)));
        metadata.push((owned("hybrid"), if enable_hybrid { owned("true") } else { owned("false") }));
        let ghost base = pairs_view(metadata@);
        match rfc3339_millis(now_ms) {
            Some(t) => {
                metadata.push((owned("timestamp"), t));
            },
            None => {},
        }
        proof {
            assert(pairs_view(metadata@) =~= seal_metadata(algorithm, security_level, enable_hybrid, now_ms));
        }
        let e = QuantumResistantEncryptionResult {
            encrypted_data,
            encapsulated_key,
            algorithm,
            security_level,
            hybrid_scheme,
            metadata,
        };
        proof {
            let sym = symmetric_key@;
            assert(sym.len() == 32 && e.encrypted_data@ == key_stream(data@, sym)
                && e.encapsulated_key@ == key_stream(sym, public_key@));
        }
        Ok(e)
    }

    /// Opens `encrypted_result` with `private_key`. Refused while disabled.
    pub fn decrypt_quantum_resistant(
        &self,
        encrypted_result: &QuantumResistantEncryptionResult,
        private_key: &[u8],
    ) -> (r: Result<Vec<u8>, String>)
        requires
            self.is_enabled() ==> usable_key(encrypted_result.encapsulated_key@, private_key@)
                && usable_key(
                    encrypted_result.encrypted_data@,
                    key_stream(encrypted_result.encapsulated_key@, private_key@),
                ),
        ensures
            r is Ok <==> self.is_enabled(),
            match r {
                Ok(d) => d@ == opened(encrypted_result.encrypted_data@, encrypted_result.encapsulated_key@, private_key@),
                Err(m) => m@ == disabled_message(),
            },
    {
        if !self.enabled {
            return Err(disabled_error());
        }
        let symmetric_key = apply_key_stream(encrypted_result.encapsulated_key.as_slice(), private_key);
        let decrypted = apply_key_stream(encrypted_result.encrypted_data.as_slice(), symmetric_key.as_slice());
        Ok(decrypted)
    }

    /// Signs `data` with `private_key`, under the id `pq_sig_<now_ms>`; the
    /// public key is left empty for the caller. Refused while disabled.
    pub fn sign_quantum_resistant(
        &self,
        data: &[u8],
        private_key: &[u8],
        algorithm: QuantumResistantAlgorithm,
        now_ms: i64,
    ) -> (r: Result<PostQuantumSignature, String>)
        requires
            self.is_enabled() ==> private_key@.len() > 0,
        ensures
            r is Ok <==> self.is_enabled(),
            match r {
                Ok(sig) => {
                    &&& signed_with(sig, data@, private_key@)
                    &&& sig.id@ == pq_sig_id_at(now_ms)
                    &&& sig.algorithm == algorithm
                    &&& sig.public_key@.len() == 0
                    &&& sig.created_at == now_ms
                    &&& sig.is_valid
                },
                Err(m) => m@ == disabled_message(),
            },
    {
        if !self.enabled {
            return Err(disabled_error());
        }
        let digest = sha256_digest(data);
        let message_hash = bytes_of(&digest);
        let signature = apply_key_stream(message_hash.as_slice(), private_key);
        Ok(PostQuantumSignature {
            id: with_time("pq_sig_", now_ms),
            algorithm,
            message_hash,
            signature,
            public_key: Vec::new(),
            created_at: now_ms,
            is_valid: true,
        })
    }

    /// Whether `signature` checks out against `public_key`. Refused while
    /// disabled.
    pub fn verify_quantum_resistant_signature(
        &self,
        signature: &PostQuantumSignature,
        public_key: &[u8],
    ) -> (r: Result<bool, String>)
        requires
            self.is_enabled() ==> usable_key(signature.message_hash@, public_key@),
        ensures
            r is Ok <==> self.is_enabled(),
            match r {
                Ok(b) => b == signature_checks(*signature, public_key@),
                Err(m) => m@ == disabled_message(),
            },
    {
        if !self.enabled {
            return Err(disabled_error());
        }
        let expected = apply_key_stream(signature.message_hash.as_slice(), public_key);
        Ok(same_bytes(&signature.signature, &expected))
    }

    /// Assesses the quantum threat at `now_ms`: a medium threat, the
    /// vulnerable classical algorithms, the migrations for them and the
    /// risk they add up to. Refused while disabled.
    pub fn assess_quantum_threat(&self, now_ms: i64) -> (r: Result<QuantumThreatAssessment, String>)
        ensures
            r is Ok <==> self.is_enabled(),
            match r {
                Ok(a) => {
                    &&& a.timestamp == now_ms
                    &&& a.threat_level == QuantumThreatLevel::Medium
                    &&& a.estimated_quantum_advantage_years == advantage_years(QuantumThreatLevel::Medium)
                    &&& a.vulnerable_algorithms@.map_values(|s: String| s@) == vulnerable_algorithm_names()
                    &&& a.recommended_migrations@.map_values(|s: String| s@) == migrations_for_all(vulnerable_algorithm_names())
                    &&& a.risk_score == risk_score_for(QuantumThreatLevel::Medium, vulnerable_algorithm_names().len())
                },
                Err(m) => m@ == disabled_message(),
            },
    {
        if !self.enabled {
            return Err(disabled_error());
        }
        let threat_level = QuantumThreatLevel::Medium;
        let years = estimate_quantum_advantage_years(threat_level);
        let vulnerable = identify_vulnerable_algorithms();
        let migrations = generate_migration_recommendations(&vulnerable);
        let risk = calculate_quantum_risk_score(threat_level, &vulnerable);
        proof {
            assert(vulnerable@.len() == vulnerable_algorithm_names().len());
        }
        Ok(QuantumThreatAssessment {
            timestamp: now_ms,
            threat_level,
            estimated_quantum_advantage_years: years,
            vulnerable_algorithms: vulnerable,
            recommended_migrations: migrations,
            risk_score: risk,
        })
    }
}

/// Data sealed for a key and opened with the same key comes back unchanged.
pub proof fn lemma_open_after_seal(e: QuantumResistantEncryptionResult, data: Seq<u8>, key: Seq<u8>)
    requires
        sealed_for(e, data, key),
        key.len() > 0,
    ensures
        opened(e.encrypted_data@, e.encapsulated_key@, key) == data,
{
    let sym = choose|sym: Seq<u8>| #![auto]
        sym.len() == 32
        && e.encrypted_data@ == key_stream(data, sym)
        && e.encapsulated_key@ == key_stream(sym, key);
    lemma_key_stream_involution(sym, key);
    lemma_key_stream_involution(data, sym);
}

/// A signature made with a key checks out against that same key.
pub proof fn lemma_signature_checks_with_signing_key(sig: PostQuantumSignature, data: Seq<u8>, key: Seq<u8>)
    requires
        signed_with(sig, data, key),
    ensures
        signature_checks(sig, key),
{
}

} // verus!
