use ippan::quantum::{
    AdvancedQuantumSystem, PostQuantumSecurityLevel, QKDProtocol, QuantumAlgorithm,
    QuantumResistantAlgorithm, QuantumStatus, QuantumSystemConfig, QuantumThreatLevel,
    calculate_quantum_risk_score, generate_migration_recommendations, get_key_size_for_algorithm,
    get_signature_scheme_for_algorithm, apply_key_stream, simulated_delay_ms,
};

const NOW: i64 = 1_700_000_000_000;

fn config(algorithm: QuantumAlgorithm, qubits: u32, max_iterations: u32, optimization_level: u32) -> QuantumSystemConfig {
    QuantumSystemConfig {
        algorithm,
        qubits,
        max_iterations,
        error_threshold: 10_000,
        noise_model: "depolarizing".to_string(),
        optimization_level,
        backend_type: "ibmq_manila".to_string(),
        enable_quantum_key_distribution: true,
        enable_quantum_resistant_crypto: true,
        enable_quantum_machine_learning: true,
        default_post_quantum_algorithm: QuantumResistantAlgorithm::Kyber,
        default_security_level: PostQuantumSecurityLevel::Level1,
        enable_hybrid_encryption: false,
        enable_quantum_threat_monitoring: true,
        quantum_threat_assessment_interval_hours: 24,
    }
}

fn execute(system: &mut AdvancedQuantumSystem, job_id: &str, now: i64) -> ippan::quantum::QuantumResult {
    let delay = system.begin_job(job_id, now).unwrap();
    system.finish_job(job_id, delay, now + delay as i64).unwrap()
}

#[test]
fn test_quantum_system_creation() {
    let quantum_system = AdvancedQuantumSystem::new();
    assert!(quantum_system.enabled());
}

#[test]
fn test_quantum_job_submission() {
    let mut quantum_system = AdvancedQuantumSystem::new();
    let input_data = vec![("number".to_string(), "15".to_string())];
    let job_id = quantum_system
        .submit_job(QuantumAlgorithm::Shor, input_data, config(QuantumAlgorithm::Shor, 20, 1000, 2), NOW)
        .unwrap();
    assert!(!job_id.is_empty());

    let jobs = quantum_system.get_jobs();
    assert_eq!(jobs.len(), 1);
    assert_eq!(jobs[0].id, job_id);
}

#[test]
fn test_quantum_job_execution() {
    let mut quantum_system = AdvancedQuantumSystem::new();
    let input_data = vec![("search_space".to_string(), "\"database\"".to_string())];
    let job_id = quantum_system
        .submit_job(QuantumAlgorithm::Grover, input_data, config(QuantumAlgorithm::Grover, 10, 100, 1), NOW)
        .unwrap();
    let result = execute(&mut quantum_system, &job_id, NOW);

    assert_eq!(result.job_id, job_id);
    assert!(result.execution_time_ms > 0);
    assert!(result.fidelity > 0);
    assert!(result.success_probability > 0);
}

#[test]
fn test_quantum_key_pair_generation() {
    let mut quantum_system = AdvancedQuantumSystem::new();
    let key_id = quantum_system
        .generate_quantum_key_pair(QuantumResistantAlgorithm::LatticeBased, 256, NOW)
        .unwrap();
    assert!(!key_id.is_empty());

    let key_pair = quantum_system.get_key_pair(&key_id).unwrap();
    assert_eq!(key_pair.id, key_id);
    assert_eq!(key_pair.algorithm, QuantumResistantAlgorithm::LatticeBased);
    assert_eq!(key_pair.key_size, 256);
    assert!(!key_pair.is_compromised);
}

#[test]
fn test_post_quantum_key_pair_generation() {
    let mut quantum_system = AdvancedQuantumSystem::new();
    let key_id = quantum_system
        .generate_post_quantum_key_pair(QuantumResistantAlgorithm::Kyber, PostQuantumSecurityLevel::Level1, false, NOW)
        .unwrap();
    assert!(!key_id.is_empty());

    let key_pair = quantum_system.get_post_quantum_key_pair(&key_id).unwrap();
    assert_eq!(key_pair.id, key_id);
    assert_eq!(key_pair.algorithm, QuantumResistantAlgorithm::Kyber);
    assert_eq!(key_pair.security_level, PostQuantumSecurityLevel::Level1);
    assert!(!key_pair.is_compromised);
    assert_eq!(key_pair.key_size, 800);
}

#[test]
fn test_hybrid_key_pair_generation() {
    let mut quantum_system = AdvancedQuantumSystem::new();
    let key_id = quantum_system
        .generate_post_quantum_key_pair(QuantumResistantAlgorithm::Dilithium, PostQuantumSecurityLevel::Level3, true, NOW)
        .unwrap();
    assert!(!key_id.is_empty());

    let key_pair = quantum_system.get_post_quantum_key_pair(&key_id).unwrap();
    assert_eq!(key_pair.algorithm, QuantumResistantAlgorithm::Dilithium);
    assert!(key_pair.security_level == PostQuantumSecurityLevel::Level1
        || key_pair.security_level == PostQuantumSecurityLevel::Level3);
}

#[test]
fn test_quantum_resistant_encryption_decryption() {
    let mut quantum_system = AdvancedQuantumSystem::new();
    let key_id = quantum_system
        .generate_post_quantum_key_pair(QuantumResistantAlgorithm::Kyber, PostQuantumSecurityLevel::Level1, false, NOW)
        .unwrap();
    let key_pair = quantum_system.get_post_quantum_key_pair(&key_id).unwrap();
    let test_data = b"This is sensitive data that needs quantum-resistant encryption!";

    let encrypted_result = quantum_system
        .encrypt_quantum_resistant(test_data, &key_pair.public_key, QuantumResistantAlgorithm::Kyber,
            PostQuantumSecurityLevel::Level1, false, NOW)
        .unwrap();
    assert_eq!(encrypted_result.algorithm, QuantumResistantAlgorithm::Kyber);
    assert_eq!(encrypted_result.security_level, PostQuantumSecurityLevel::Level1);
    assert!(!encrypted_result.encrypted_data.is_empty());
    assert!(!encrypted_result.encapsulated_key.is_empty());

    let decrypted_data = quantum_system
        .decrypt_quantum_resistant(&encrypted_result, &key_pair.private_key)
        .unwrap();
    assert!(!decrypted_data.is_empty());
}

#[test]
fn test_hybrid_encryption_decryption() {
    let mut quantum_system = AdvancedQuantumSystem::new();
    let key_id = quantum_system
        .generate_post_quantum_key_pair(QuantumResistantAlgorithm::Dilithium, PostQuantumSecurityLevel::Level3, true, NOW)
        .unwrap();
    let key_pair = quantum_system.get_post_quantum_key_pair(&key_id).unwrap();
    let test_data = b"Hybrid encryption provides both classical and quantum-resistant security!";

    let encrypted_result = quantum_system
        .encrypt_quantum_resistant(test_data, &key_pair.public_key, QuantumResistantAlgorithm::Dilithium,
            PostQuantumSecurityLevel::Level3, true, NOW)
        .unwrap();
    assert!(encrypted_result.hybrid_scheme.is_some());
    let hybrid_scheme = encrypted_result.hybrid_scheme.as_ref().unwrap();
    assert_eq!(hybrid_scheme.classical_algorithm, "AES-256-GCM");
    assert_eq!(hybrid_scheme.quantum_resistant_algorithm, QuantumResistantAlgorithm::Dilithium);
    assert!(hybrid_scheme.key_encapsulation);

    let decrypted_data = quantum_system
        .decrypt_quantum_resistant(&encrypted_result, &key_pair.private_key)
        .unwrap();
    assert!(!decrypted_data.is_empty());
}

#[test]
fn test_quantum_resistant_signature() {
    let mut quantum_system = AdvancedQuantumSystem::new();
    let key_id = quantum_system
        .generate_post_quantum_key_pair(QuantumResistantAlgorithm::Dilithium, PostQuantumSecurityLevel::Level1, false, NOW)
        .unwrap();
    let key_pair = quantum_system.get_post_quantum_key_pair(&key_id).unwrap();
    let test_message = b"Important message that needs quantum-resistant signature!";

    let signature = quantum_system
        .sign_quantum_resistant(test_message, &key_pair.private_key, QuantumResistantAlgorithm::Dilithium, NOW)
        .unwrap();
    assert_eq!(signature.algorithm, QuantumResistantAlgorithm::Dilithium);
    assert!(!signature.signature.is_empty());
    assert!(signature.is_valid);

    let _is_valid = quantum_system
        .verify_quantum_resistant_signature(&signature, &key_pair.public_key)
        .unwrap();
}

#[test]
fn test_quantum_threat_assessment() {
    let quantum_system = AdvancedQuantumSystem::new();
    let assessment = quantum_system.assess_quantum_threat(NOW).unwrap();

    assert!(assessment.timestamp > NOW - 60_000);
    assert!(assessment.estimated_quantum_advantage_years > 0);
    assert!(!assessment.vulnerable_algorithms.is_empty());
    assert!(!assessment.recommended_migrations.is_empty());
    assert!(assessment.risk_score <= 1_000_000);
    assert!(assessment.vulnerable_algorithms.contains(&"RSA-2048".to_string()));
    assert!(assessment.vulnerable_algorithms.contains(&"ECDSA-P256".to_string()));
    assert!(assessment.recommended_migrations.iter().any(|r| r.contains("CRYSTALS-Kyber")));
    assert!(assessment.recommended_migrations.iter().any(|r| r.contains("CRYSTALS-Dilithium")));
}

#[test]
fn test_different_security_levels() {
    let mut quantum_system = AdvancedQuantumSystem::new();
    let security_levels = vec![
        PostQuantumSecurityLevel::Level1,
        PostQuantumSecurityLevel::Level3,
        PostQuantumSecurityLevel::Level5,
    ];
    for security_level in security_levels {
        let key_id = quantum_system
            .generate_post_quantum_key_pair(QuantumResistantAlgorithm::Kyber, security_level, false, NOW)
            .unwrap();
        let key_pair = quantum_system.get_post_quantum_key_pair(&key_id).unwrap();
        let expected_key_size = match security_level {
            PostQuantumSecurityLevel::Level1 => 800,
            PostQuantumSecurityLevel::Level3 => 1184,
            PostQuantumSecurityLevel::Level5 => 1568,
        };
        assert_eq!(key_pair.key_size, expected_key_size);
    }
}

#[test]
fn test_multiple_algorithms() {
    let mut quantum_system = AdvancedQuantumSystem::new();
    let algorithms = vec![
        QuantumResistantAlgorithm::Kyber,
        QuantumResistantAlgorithm::Dilithium,
        QuantumResistantAlgorithm::SphincsPlus,
        QuantumResistantAlgorithm::Falcon,
    ];
    for algorithm in algorithms {
        let key_id = quantum_system
            .generate_post_quantum_key_pair(algorithm, PostQuantumSecurityLevel::Level1, false, NOW)
            .unwrap();
        let key_pair = quantum_system.get_post_quantum_key_pair(&key_id).unwrap();
        assert_eq!(key_pair.algorithm, algorithm);
        assert!(!key_pair.public_key.is_empty());
        assert!(!key_pair.private_key.is_empty());
    }
}

#[test]
fn test_qkd_session() {
    let mut quantum_system = AdvancedQuantumSystem::new();
    let session_id = quantum_system.start_qkd_session(QKDProtocol::BB84, "alice", "bob", 256, NOW).unwrap();
    assert!(!session_id.is_empty());

    let shared_key = quantum_system.complete_qkd_session(&session_id, NOW + 5).unwrap();
    assert_eq!(shared_key.len(), 32);

    let session = quantum_system.get_qkd_session(&session_id).unwrap();
    assert_eq!(session.id, session_id);
    assert_eq!(session.status, QuantumStatus::Completed);
    assert!(session.shared_key.is_some());
}

#[test]
fn test_quantum_system_stats() {
    let mut quantum_system = AdvancedQuantumSystem::new();
    let job_id = quantum_system
        .submit_job(QuantumAlgorithm::QuantumMachineLearning, Vec::new(),
            config(QuantumAlgorithm::QuantumMachineLearning, 15, 500, 2), NOW)
        .unwrap();
    execute(&mut quantum_system, &job_id, NOW);

    let stats = quantum_system.get_stats();
    assert_eq!(stats.total_jobs, 1);
    assert_eq!(stats.completed_jobs, 1);
    assert!(stats.average_execution_time_ms > 0);
}

#[test]
fn quantum_ids_follow_the_clock() {
    let mut q = AdvancedQuantumSystem::new();
    let job = q.submit_job(QuantumAlgorithm::Shor, Vec::new(), config(QuantumAlgorithm::Shor, 5, 10, 1), 42).unwrap();
    assert_eq!(job, "quantum_job_42");
    assert_eq!(q.generate_quantum_key_pair(QuantumResistantAlgorithm::HQC, 64, 7).unwrap(), "quantum_key_7");
    assert_eq!(q.start_qkd_session(QKDProtocol::E91, "a", "b", 8, -3).unwrap(), "qkd_session_-3");
    assert_eq!(
        q.generate_post_quantum_key_pair(QuantumResistantAlgorithm::Falcon, PostQuantumSecurityLevel::Level5, false, 9).unwrap(),
        "pq_key_9"
    );
    let pair = q.get_key_pair("quantum_key_7").unwrap();
    assert_eq!(pair.public_key.len(), 8);
    assert!(pair.public_key.iter().all(|b| *b == pair.public_key[0]));
    assert_eq!(pair.expires_at, Some(7 + 31_536_000_000));
    assert_eq!(q.get_stats().key_pairs_generated, 2);
}

#[test]
fn quantum_disabled_refuses_work() {
    let mut q = AdvancedQuantumSystem::new();
    q.disable();
    assert!(!q.enabled());
    assert_eq!(
        q.submit_job(QuantumAlgorithm::Grover, Vec::new(), config(QuantumAlgorithm::Grover, 1, 1, 1), NOW),
        Err("Quantum system is disabled".to_string())
    );
    assert_eq!(q.generate_quantum_key_pair(QuantumResistantAlgorithm::Kyber, 256, NOW), Err("Quantum system is disabled".to_string()));
    assert!(q.assess_quantum_threat(NOW).is_err());
    assert!(q.sign_quantum_resistant(b"m", &[1], QuantumResistantAlgorithm::Kyber, NOW).is_err());
    assert_eq!(q.get_jobs().len(), 0);
    assert_eq!(q.get_stats().total_jobs, 0);
    q.enable();
    assert!(q.enabled());
}

#[test]
fn quantum_missing_records_are_reported() {
    let mut q = AdvancedQuantumSystem::new();
    assert_eq!(q.begin_job("none", NOW), Err("Job not found".to_string()));
    assert!(matches!(q.finish_job("none", 5, NOW), Err(e) if e == "Job not found"));
    assert_eq!(q.complete_qkd_session("none", NOW), Err("QKD session not found".to_string()));
    assert!(matches!(q.get_post_quantum_key_pair("none"), Err(e) if e == "Key pair not found"));
    assert!(q.get_job("none").is_none());
}

#[test]
fn quantum_job_lifecycle_and_counters() {
    let mut q = AdvancedQuantumSystem::new();
    let id = q.submit_job(QuantumAlgorithm::Shor, Vec::new(), config(QuantumAlgorithm::Shor, 20, 10, 1), NOW).unwrap();
    assert_eq!(q.get_job(&id).unwrap().status, QuantumStatus::Idle);
    assert_eq!(q.get_stats().algorithms_by_type[0], Some(1));
    assert_eq!(q.get_stats().jobs_by_status[0], Some(1));
    assert_eq!(q.begin_job(&id, NOW + 1), Ok(5000));
    assert_eq!(q.get_job(&id).unwrap().status, QuantumStatus::Running);
    assert_eq!(q.get_job(&id).unwrap().started_at, Some(NOW + 1));
    let r = q.finish_job(&id, 5000, NOW + 5001).unwrap();
    assert_eq!(r.qubits_used, 20);
    assert_eq!(r.output_data, vec![("factors".to_string(), "[3,7,11]".to_string()), ("period".to_string(), "42".to_string())]);
    assert!(r.fidelity >= 950_000 && r.fidelity < 1_000_000);
    assert!(r.success_probability >= 800_000 && r.success_probability < 1_000_000);
    assert_eq!(r.classical_equivalent_time_ms, if r.quantum_advantage { Some(50_000) } else { None });
    let job = q.get_job(&id).unwrap();
    assert_eq!(job.status, QuantumStatus::Completed);
    assert_eq!(job.completed_at, Some(NOW + 5001));
    assert_eq!(job.result.as_ref().unwrap().fidelity, r.fidelity);
    assert_eq!(q.get_result(&id).unwrap().fidelity, r.fidelity);
    let s = q.get_stats();
    assert_eq!(s.completed_jobs, 1);
    assert_eq!(s.active_jobs, 0);
    assert_eq!(s.average_execution_time_ms, 5000);
    assert_eq!(s.jobs_by_status[2], Some(1));
    assert_eq!(s.jobs_by_status[1], Some(0));
    assert_eq!(simulated_delay_ms(QuantumAlgorithm::QuantumWalk), 1500);
}

#[test]
fn quantum_sealing_round_trips_with_one_key() {
    let q = AdvancedQuantumSystem::new();
    let key = vec![7u8, 200, 13];
    let data = b"the same key opens what it sealed".to_vec();
    let sealed = q
        .encrypt_quantum_resistant(&data, &key, QuantumResistantAlgorithm::Kyber, PostQuantumSecurityLevel::Level3, false, NOW)
        .unwrap();
    assert_eq!(sealed.encapsulated_key.len(), 32);
    assert_eq!(sealed.encrypted_data.len(), data.len());
    assert_ne!(sealed.encrypted_data, data);
    assert_eq!(q.decrypt_quantum_resistant(&sealed, &key).unwrap(), data);
    assert_eq!(sealed.metadata[0], ("algorithm".to_string(), "Kyber".to_string()));
    assert_eq!(sealed.metadata[1], ("security_level".to_string(), "Level3".to_string()));
    assert_eq!(sealed.metadata[2], ("hybrid".to_string(), "false".to_string()));
    assert_eq!(sealed.metadata[3], ("timestamp".to_string(), "2023-11-14T22:13:20+00:00".to_string()));
    assert!(sealed.hybrid_scheme.is_none());
}

#[test]
fn quantum_signature_checks_with_signing_key_only() {
    let q = AdvancedQuantumSystem::new();
    let sig = q.sign_quantum_resistant(b"hello", &[9, 8, 7], QuantumResistantAlgorithm::Dilithium, 5).unwrap();
    assert_eq!(sig.id, "pq_sig_5");
    assert_eq!(sig.message_hash.len(), 32);
    assert!(sig.public_key.is_empty());
    assert_eq!(q.verify_quantum_resistant_signature(&sig, &[9, 8, 7]), Ok(true));
    assert_eq!(q.verify_quantum_resistant_signature(&sig, &[9, 8, 6]), Ok(false));
}

#[test]
fn quantum_tables() {
    assert_eq!(get_key_size_for_algorithm(QuantumResistantAlgorithm::Dilithium, PostQuantumSecurityLevel::Level5), 4000);
    assert_eq!(get_key_size_for_algorithm(QuantumResistantAlgorithm::Falcon, PostQuantumSecurityLevel::Level5), 2048);
    assert_eq!(get_signature_scheme_for_algorithm(QuantumResistantAlgorithm::Kyber), Some(QuantumResistantAlgorithm::Dilithium));
    assert_eq!(get_signature_scheme_for_algorithm(QuantumResistantAlgorithm::HQC), None);
    let names = vec!["RSA-2048".to_string(), "MD5".to_string(), "DSA-1024".to_string()];
    assert_eq!(
        generate_migration_recommendations(&names),
        vec![
            "Migrate to CRYSTALS-Kyber for key encapsulation".to_string(),
            "Migrate to CRYSTALS-Dilithium for digital signatures".to_string(),
            "Replace MD5 with quantum-resistant alternative".to_string(),
            "Immediately migrate to CRYSTALS-Dilithium".to_string(),
        ]
    );
    assert_eq!(calculate_quantum_risk_score(QuantumThreatLevel::Medium, &names), 700_000);
    assert_eq!(calculate_quantum_risk_score(QuantumThreatLevel::Critical, &names), 1_000_000);
    assert_eq!(apply_key_stream(&[1, 2, 3], &[1]), vec![0, 3, 2]);
}
