use devbind::cert::{root_ca_profile, CaKind, NameField};
use devbind::cert::{
    generate_root_ca, issue_leaf_cert, load_root_ca, CertAction, CertError, CertEvent, CertManager, LeafCert,
};
use rustls::sign::CertifiedKey;
use std::collections::HashMap;
use std::sync::Arc;

/// Certificate files kept in memory, standing in for the certs directory.
#[derive(Default)]
struct Disk {
    files: HashMap<String, Vec<u8>>,
    reads: usize,
}

impl Disk {
    fn has(&self, path: &str) -> bool {
        self.files.contains_key(path)
    }

    fn read(&mut self, path: &str) -> Vec<u8> {
        self.reads += 1;
        self.files[path].clone()
    }
}

/// Serves `domain`, performing each action the manager asks for on `disk`.
fn get_or_generate_cert(
    manager: &mut CertManager,
    disk: &mut Disk,
    domain: &str,
) -> Result<Arc<CertifiedKey>, CertError> {
    let mut event = CertEvent::Requested;
    loop {
        event = match manager.get_or_generate_cert(domain, event) {
            CertAction::Serve(key) => return Ok(key),
            CertAction::Fail(e) => return Err(e),
            CertAction::ReadLeaf { cert_path, key_path } => {
                if disk.has(&cert_path) && disk.has(&key_path) {
                    let cert_der = disk.read(&cert_path);
                    let key_der = disk.read(&key_path);
                    CertEvent::LeafRead(Some(LeafCert { cert_der, key_der }))
                } else {
                    CertEvent::LeafRead(None)
                }
            }
            CertAction::ReadRoot { cert_path, key_path } => {
                if disk.has(&cert_path) && disk.has(&key_path) {
                    let key_pem = String::from_utf8(disk.read(&key_path)).unwrap();
                    let cert_pem = String::from_utf8(disk.read(&cert_path)).unwrap();
                    CertEvent::RootRead(Some((key_pem, cert_pem)))
                } else {
                    CertEvent::RootRead(None)
                }
            }
            CertAction::WriteRoot { cert_path, key_path, ca, key_pem } => {
                disk.files.insert(cert_path, ca.cert_pem.clone().into_bytes());
                disk.files.insert(key_path, key_pem.into_bytes());
                CertEvent::RootWritten(ca)
            }
            CertAction::WriteLeaf { cert_path, key_path, leaf } => {
                disk.files.insert(cert_path, leaf.cert_der.clone());
                disk.files.insert(key_path, leaf.key_der.clone());
                CertEvent::LeafWritten(leaf)
            }
        };
    }
}

#[test]
fn test_cert_manager_creates_certs_dir() {
    let manager = CertManager::new("/tmp/devbind-config");
    assert_eq!(manager.certs_dir(), "/tmp/devbind-config/certs");
}

#[test]
fn test_cert_manager_generates_root_ca() {
    let mut disk = Disk::default();
    let mut manager = CertManager::new("/cfg");
    get_or_generate_cert(&mut manager, &mut disk, "first.test").expect("Failed to get or generate root CA");

    let (ca_cert_path, ca_key_path) = manager.root_ca_paths();
    assert_eq!(ca_cert_path, "/cfg/certs/devbind-rootCA.crt");
    assert!(disk.has(&ca_cert_path), "Root CA cert should be written to disk");
    assert!(disk.has(&ca_key_path), "Root CA key should be written to disk");

    // the next new domain is signed by the stored root CA
    let before = disk.files[&ca_cert_path].clone();
    get_or_generate_cert(&mut manager, &mut disk, "second.test").expect("Failed to reload root CA from disk");
    assert_eq!(disk.files[&ca_cert_path], before);
}

#[test]
fn test_cert_manager_get_or_generate_cert() {
    let mut disk = Disk::default();
    let mut manager = CertManager::new("/cfg");
    let test_domain = "myapp.test";

    let cert_key = get_or_generate_cert(&mut manager, &mut disk, test_domain).expect("Failed to generate cert");

    let (cert_path, key_path) = manager.domain_paths(test_domain);
    assert_eq!(cert_path, format!("/cfg/certs/{}.crt", test_domain));
    assert!(disk.has(&cert_path), "Domain cert should be written to disk");
    assert!(disk.has(&key_path), "Domain key should be written to disk");
    assert!(manager.is_cached(test_domain), "Cert should be cached in memory");

    let reads = disk.reads;
    let cert_key_cached = get_or_generate_cert(&mut manager, &mut disk, test_domain).expect("Failed to get cached cert");
    assert!(Arc::ptr_eq(&cert_key, &cert_key_cached), "Second call must return the cached Arc");
    assert_eq!(disk.reads, reads, "a cached certificate is served without reading files");
}

#[test]
fn test_cert_manager_loads_existing_cert_into_cache() {
    let mut disk = Disk::default();
    let mut manager1 = CertManager::new("/cfg");
    let test_domain = "persisted.test";
    let _ = get_or_generate_cert(&mut manager1, &mut disk, test_domain).unwrap();

    let mut manager2 = CertManager::new("/cfg");
    assert!(!manager2.is_cached(test_domain), "Fresh manager should have empty cache");
    let files = disk.files.len();
    let reloaded_cert = get_or_generate_cert(&mut manager2, &mut disk, test_domain).unwrap();
    let (cert_path, _) = manager2.domain_paths(test_domain);
    assert_eq!(reloaded_cert.cert.len(), 1);
    assert_eq!(reloaded_cert.cert[0].as_ref(), disk.files[&cert_path].as_slice());
    assert!(manager2.is_cached(test_domain), "Manager 2 should cache the cert after loading from disk");
    assert_eq!(disk.files.len(), files, "nothing new is written for a stored certificate");
}

#[test]
fn test_cert_generation_rejects_non_test_domain() {
    let mut disk = Disk::default();
    let mut manager = CertManager::new("/cfg");

    let result = get_or_generate_cert(&mut manager, &mut disk, "example.com");
    assert!(result.is_err(), "Non-.test domain should be rejected");

    let result = get_or_generate_cert(&mut manager, &mut disk, "shadcnstudio.com");
    assert!(result.is_err(), "Non-.test domain should be rejected");

    let result = get_or_generate_cert(&mut manager, &mut disk, "nottest");
    assert!(result.is_err(), "Domain without .test suffix should be rejected");
    assert!(disk.files.is_empty());
}

#[test]
fn test_cert_generation_allows_test_domains() {
    let mut disk = Disk::default();
    let mut manager = CertManager::new("/cfg");
    assert!(
        get_or_generate_cert(&mut manager, &mut disk, "myapp.test").is_ok(),
        "myapp.test should be allowed"
    );
    assert!(
        get_or_generate_cert(&mut manager, &mut disk, "deep.sub.test").is_ok(),
        "deep.sub.test should be allowed"
    );
}

#[test]
fn cert_rejection_names_the_domain() {
    let manager = CertManager::new("/cfg");
    let err = manager.lookup("example.com").err().unwrap();
    assert_eq!(err, CertError::NotTestDomain { domain: "example.com".to_string() });
    assert_eq!(
        err.to_string(),
        "Refusing to issue a certificate for a domain outside .test: example.com"
    );
}

#[test]
fn cert_first_step_reads_the_domain_files() {
    let mut manager = CertManager::new("/cfg/");
    assert_eq!(manager.certs_dir(), "/cfg/certs");
    match manager.get_or_generate_cert("a.test", CertEvent::Requested) {
        CertAction::ReadLeaf { cert_path, key_path } => {
            assert_eq!(cert_path, "/cfg/certs/a.test.crt");
            assert_eq!(key_path, "/cfg/certs/a.test.key");
        }
        _ => panic!("expected a read of the domain files"),
    }
    match manager.get_or_generate_cert("a.test", CertEvent::LeafRead(None)) {
        CertAction::ReadRoot { cert_path, key_path } => {
            assert_eq!(cert_path, "/cfg/certs/devbind-rootCA.crt");
            assert_eq!(key_path, "/cfg/certs/devbind-rootCA.key");
        }
        _ => panic!("expected a read of the root CA files"),
    }
    assert!(!manager.is_cached("a.test"));
}

#[test]
fn cert_bad_root_key_is_reported() {
    let err = load_root_ca("not a pem", String::new()).err().unwrap();
    match &err {
        CertError::RootKey { message } => assert!(!message.is_empty()),
        other => panic!("unexpected error {:?}", other),
    }
    assert!(err.to_string().starts_with("Failed parsing root key: "));
}

#[test]
fn cert_bad_ca_certificate_is_reported() {
    let root = generate_root_ca().unwrap();
    let broken = load_root_ca(&root.key_pem, "garbage".to_string()).unwrap();
    let err = issue_leaf_cert("myapp.test", &broken).err().unwrap();
    assert!(matches!(err, CertError::Issuer { .. }));
    assert!(err.to_string().starts_with("Failed to create CA issuer: "));
}

#[test]
fn cert_non_ascii_domain_is_not_a_dns_name() {
    let root = generate_root_ca().unwrap();
    let err = issue_leaf_cert("café.test", &root.ca).err().unwrap();
    assert_eq!(err, CertError::DnsName { message: "Invalid IA5String: 'café.test'".to_string() });
    assert_eq!(err.to_string(), "Invalid DNS name: Invalid IA5String: 'café.test'");
}

#[test]
fn cert_unusable_key_is_refused_and_not_cached() {
    let mut manager = CertManager::new("/cfg");
    let leaf = LeafCert { cert_der: vec![1, 2, 3], key_der: vec![4, 5, 6] };
    match manager.get_or_generate_cert("bad.test", CertEvent::LeafRead(Some(leaf))) {
        CertAction::Fail(err) => {
            assert_eq!(err, CertError::KeyFormat);
            assert_eq!(err.to_string(), "Invalid key format");
        }
        _ => panic!("expected a failure"),
    }
    assert!(!manager.is_cached("bad.test"));
}

#[test]
fn cert_profiles() {
    let p = root_ca_profile();
    assert_eq!(p.ca, CaKind::Unconstrained);
    assert_eq!(
        p.subject,
        vec![
            (NameField::CommonName, "DevBind Root CA".to_string()),
            (NameField::OrganizationName, "DevBind Proxy".to_string())
        ]
    );
    assert!(p.dns_names.is_empty());
}

#[test]
fn cert_served_chain_is_the_issued_certificate() {
    let mut manager = CertManager::new("/cfg");
    let root = generate_root_ca().unwrap();
    let leaf = issue_leaf_cert("chain.test", &root.ca).unwrap();
    let der = leaf.cert_der.clone();
    match manager.get_or_generate_cert("chain.test", CertEvent::LeafWritten(leaf)) {
        CertAction::Serve(k) => {
            assert_eq!(k.cert.len(), 1);
            assert_eq!(k.cert[0].as_ref(), der.as_slice());
        }
        _ => panic!("expected the certificate to be served"),
    }
    let cached = manager.lookup("chain.test").unwrap().unwrap();
    assert_eq!(cached.cert[0].as_ref(), der.as_slice());
}
