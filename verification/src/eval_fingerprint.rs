//! Configuration hashes pinning how an evaluation run was configured.

use vstd::prelude::*;

use crate::crypto::{hex_lower, is_lower_hex, sha256_hex, sha256_of};
use vstd::utf8::encode_utf8;

verus! {

/// SHA-256 digest, in lowercase hex, of the canonical JSON text of a
/// configuration block: configurations with the same canonical text
/// hash identically.
#[derive(Debug, Clone, PartialEq, Eq, Hash)]
pub struct ConfigHash(pub String);

/// The hash of a canonical JSON text.
pub open spec fn config_digest(canonical_json: Seq<char>) -> Seq<char> {
    hex_lower(sha256_of(encode_utf8(canonical_json)))
}

impl ConfigHash {
    /// Hash the canonical JSON text of a configuration.
    pub fn from_canonical_json(canonical_json: &str) -> (r: ConfigHash)
        ensures
            r.0@ == config_digest(canonical_json@),
            r.0@.len() == 64,
            forall|i: int| 0 <= i < r.0@.len() ==> is_lower_hex(#[trigger] r.0@[i]),
    {
        ConfigHash(sha256_hex(canonical_json.as_bytes()))
    }

    /// The hash text.
    pub fn as_str(&self) -> (r: &str)
        ensures
            r@ == self.0@,
    {
        self.0.as_str()
    }
}


/// What an evaluation run pins for reproducibility: the ontology version
/// and dataset it scored against, the model, the prompt template and its
/// version (both or neither), the decoding configuration's hash and the
/// retrieval profile.
#[derive(Debug)]
pub struct EvaluationFingerprint {
    pub ontology_version_id: uuid::Uuid,
    pub dataset_id: uuid::Uuid,
    pub model_id: String,
    pub prompt_template_id: Option<String>,
    pub prompt_template_version: Option<String>,
    pub decoding_config_hash: Option<ConfigHash>,
    pub retrieval_profile_id: Option<String>,
}

} // verus!
