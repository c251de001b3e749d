use sha2::Digest;
use ox_ontology::eval_fingerprint::ConfigHash;
use ox_ontology::cluster_checkpoint::{ClusterSignature, ForeignKeyDef, TableCluster};

fn fk(from_t: &str, to_t: &str) -> ForeignKeyDef {
    ForeignKeyDef {
        from_table: from_t.to_string(),
        from_column: format!("{to_t}_id"),
        to_table: to_t.to_string(),
        to_column: "id".to_string(),
        inferred: false,
    }
}

fn cluster(tables: &[&str], internal: Vec<ForeignKeyDef>) -> TableCluster {
    TableCluster {
        id: 0,
        tables: tables.iter().map(|s| (*s).to_string()).collect(),
        internal_fks: internal,
        cross_fks: Vec::new(),
    }
}

#[test]
fn signature_is_deterministic_for_same_input() {
    let c = cluster(&["users", "orders"], vec![fk("orders", "users")]);
    let a = ClusterSignature::from_cluster(&c, "rh-1");
    let b = ClusterSignature::from_cluster(&c, "rh-1");
    assert_eq!(a, b);
    assert_eq!(a.as_str().len(), 64);
}

#[test]
fn signature_is_table_order_independent() {
    let a = cluster(&["users", "orders"], Vec::new());
    let b = cluster(&["orders", "users"], Vec::new());
    assert_eq!(ClusterSignature::from_cluster(&a, "rh-1"), ClusterSignature::from_cluster(&b, "rh-1"));
}

#[test]
fn signature_changes_when_table_set_changes() {
    let a = cluster(&["users", "orders"], Vec::new());
    let b = cluster(&["users", "orders", "products"], Vec::new());
    assert_ne!(ClusterSignature::from_cluster(&a, "rh-1"), ClusterSignature::from_cluster(&b, "rh-1"));
}

#[test]
fn signature_changes_when_fk_set_changes() {
    let a = cluster(&["users", "orders"], Vec::new());
    let b = cluster(&["users", "orders"], vec![fk("orders", "users")]);
    assert_ne!(ClusterSignature::from_cluster(&a, "rh-1"), ClusterSignature::from_cluster(&b, "rh-1"));
}

#[test]
fn signature_changes_when_prompt_render_hash_changes() {
    let c = cluster(&["users", "orders"], Vec::new());
    assert_ne!(ClusterSignature::from_cluster(&c, "rh-old"), ClusterSignature::from_cluster(&c, "rh-new"));
}

#[test]
fn signature_does_not_depend_on_cluster_id() {
    let mut a = cluster(&["users"], Vec::new());
    a.id = 0;
    let mut b = cluster(&["users"], Vec::new());
    b.id = 7;
    assert_eq!(ClusterSignature::from_cluster(&a, "rh-1"), ClusterSignature::from_cluster(&b, "rh-1"));
}

#[test]
fn signature_digests_the_canonical_text() {
    let c = cluster(&["users", "orders"], vec![fk("orders", "users")]);
    let text = "t|orders\nt|users\nifk|orders.users_id->users.id\nprh|rh-1";
    let expected = format!("{:x}", sha2::Sha256::digest(text.as_bytes()));
    assert_eq!(ClusterSignature::from_cluster(&c, "rh-1").as_str(), expected);
}

#[test]
fn from_hex_accepts_exactly_lowercase_digests() {
    let c = cluster(&["users"], Vec::new());
    let s = ClusterSignature::from_cluster(&c, "rh-1");
    let back = ClusterSignature::from_hex(s.as_str().to_string()).unwrap();
    assert_eq!(back, s);
    assert!(ClusterSignature::from_hex("abc".to_string()).is_err());
    assert!(ClusterSignature::from_hex("A".repeat(64)).is_err());
    assert!(ClusterSignature::from_hex("g".repeat(64)).is_err());
    assert!(ClusterSignature::from_hex("0".repeat(64)).is_ok());
}

#[test]
fn config_hash_is_sha256_hex_of_canonical_json() {
    let h = ConfigHash::from_canonical_json("{\"temperature\":0}");
    let expected = hex::encode(sha2::Sha256::digest(b"{\"temperature\":0}"));
    assert_eq!(h.as_str(), expected);
}

fn empty_output() -> ox_ontology::exchange::InputOntologyDef {
    ox_ontology::exchange::InputOntologyDef {
        format_version: 1,
        id: None,
        name: "cluster".to_string(),
        description: String::new(),
        version: 1,
        node_types: vec![],
        edge_types: vec![],
        indexes: vec![],
    }
}

#[test]
fn draft_at_leaves_store_fields_empty_and_sets_the_horizon() {
    let c = cluster(&["users"], Vec::new());
    let sig = ClusterSignature::from_cluster(&c, "rh-1");
    let project = uuid::Uuid::nil();
    let d = ox_ontology::cluster_checkpoint::DraftClusterCheckpoint::draft_at(
        1_000,
        project,
        "pg".to_string(),
        sig.clone(),
        3,
        empty_output(),
        86_400,
    );
    assert!(d.id.is_none());
    assert!(d.workspace_id.is_none());
    assert_eq!(d.project_id, project);
    assert_eq!(d.source_id, "pg");
    assert_eq!(d.signature, sig);
    assert_eq!(d.cluster_id, 3);
    assert_eq!(d.output, empty_output());
    assert_eq!(d.created_at, 1_000);
    assert_eq!(d.expires_at, 87_400);
}

#[test]
fn draft_expires_one_ttl_after_creation() {
    let c = cluster(&["users", "orders"], Vec::new());
    let sig = ClusterSignature::from_cluster(&c, "rh-1");
    let d = ox_ontology::cluster_checkpoint::DraftClusterCheckpoint::draft(
        uuid::Uuid::nil(),
        "pg".to_string(),
        sig,
        0,
        empty_output(),
        24 * 3600,
    );
    assert_eq!(d.expires_at - d.created_at, 24 * 3600);
    assert!(d.created_at > 1_700_000_000);
    assert!(d.id.is_none());
}
