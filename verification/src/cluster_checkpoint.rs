//! Content-addressed signatures of table clusters, so that a design
//! pass can replay a cluster's cached output when its input shape has
//! not changed.
//!
//! A [`ClusterSignature`] is the SHA-256 digest, in lowercase hex, of a
//! canonical text: the cluster's tables (sorted), its internal and
//! cross-cluster foreign keys (as sorted lines) and the prompt render
//! hash. The cluster's in-pass id is not part of it.

use vstd::prelude::*;

use crate::clock::now_epoch_seconds;
use crate::exchange::InputOntologyDef;
use crate::crypto::{hex_lower, is_lower_hex, sha256_hex, sha256_of};
use crate::model::{copy_texts, texts};
use crate::text::{lemma_str_le_total, sort_texts, sorted_texts, str_le};
use vstd::string::StringExecFns;
use vstd::utf8::encode_utf8;

verus! {

/// A foreign key between two source tables.
#[derive(Debug, Clone, PartialEq, Eq, Default)]
pub struct ForeignKeyDef {
    pub from_table: String,
    pub from_column: String,
    pub to_table: String,
    pub to_column: String,
    pub inferred: bool,
}

/// A group of tables designed together, with the foreign keys inside
/// the group and those leaving it.
#[derive(Debug, Clone, PartialEq, Eq, Default)]
pub struct TableCluster {
    pub id: usize,
    pub tables: Vec<String>,
    pub internal_fks: Vec<ForeignKeyDef>,
    pub cross_fks: Vec<ForeignKeyDef>,
}

/// Digest pinning a cluster's input shape.
#[derive(Debug, Clone, PartialEq, Eq, Hash)]
pub struct ClusterSignature(String);

impl View for ClusterSignature {
    type V = Seq<char>;

    closed spec fn view(&self) -> Seq<char> {
        self.0@
    }
}

/// The shape of a signature: 64 lowercase hex digits.
pub open spec fn is_signature_text(s: Seq<char>) -> bool {
    s.len() == 64 && forall|i: int| 0 <= i < s.len() ==> is_lower_hex(#[trigger] s[i])
}

/// A text that is not a signature.
#[derive(Debug, Clone, PartialEq, Eq)]
pub struct ClusterSignatureParseError;

impl ClusterSignatureParseError {
    /// Human-readable description of the error.
    pub fn message(&self) -> (r: &'static str)
        ensures
            r@ == "ClusterSignature must be a 64-character lowercase SHA-256 hex digest"@,
    {
        "ClusterSignature must be a 64-character lowercase SHA-256 hex digest"
    }
}

/// The canonical line of a foreign key.
pub open spec fn fk_line(tag: Seq<char>, fk: ForeignKeyDef) -> Seq<char> {
    tag + "|"@ + fk.from_table@ + "."@ + fk.from_column@ + "->"@ + fk.to_table@ + "."@
        + fk.to_column@ + "\n"@
}

/// Canonical lines of foreign keys, in input order.
pub open spec fn fk_lines(tag: Seq<char>, fks: Seq<ForeignKeyDef>) -> Seq<Seq<char>> {
    fks.map_values(|fk: ForeignKeyDef| fk_line(tag, fk))
}

/// The table lines `t|<table>\n`, in order.
pub open spec fn table_block(ts: Seq<Seq<char>>) -> Seq<char>
    decreases ts.len(),
{
    if ts.len() == 0 {
        Seq::empty()
    } else {
        table_block(ts.subrange(0, ts.len() - 1)) + "t|"@ + ts[ts.len() - 1] + "\n"@
    }
}

/// Lines joined, in order.
pub open spec fn lines_block(ls: Seq<Seq<char>>) -> Seq<char>
    decreases ls.len(),
{
    if ls.len() == 0 {
        Seq::empty()
    } else {
        lines_block(ls.subrange(0, ls.len() - 1)) + ls[ls.len() - 1]
    }
}

/// The text a cluster's signature digests.
pub open spec fn signature_text(c: TableCluster, prompt_render_hash: Seq<char>) -> Seq<char> {
    table_block(sorted_texts(texts(c.tables@))) + lines_block(
        sorted_texts(fk_lines("ifk"@, c.internal_fks@)),
    ) + lines_block(sorted_texts(fk_lines("xfk"@, c.cross_fks@))) + "prh|"@ + prompt_render_hash
}

fn canonical_fk_lines(fks: &Vec<ForeignKeyDef>, tag: &str) -> (r: Vec<String>)
    ensures
        texts(r@) == sorted_texts(fk_lines(tag@, fks@)),
{
    let mut lines: Vec<String> = Vec::new();
    let mut i: usize = 0;
    while i < fks.len()
        invariant
            i <= fks.len(),
            texts(lines@) == fk_lines(tag@, fks@.subrange(0, i as int)),
        decreases fks.len() - i,
    {
        let fk = &fks[i];
        let mut line = String::from_str(tag);
        line.append("|");
        line.append(fk.from_table.as_str());
        line.append(".");
        line.append(fk.from_column.as_str());
        line.append("->");
        line.append(fk.to_table.as_str());
        line.append(".");
        line.append(fk.to_column.as_str());
        line.append("\n");
        let ghost before = lines@;
        let ghost lv = line@;
        assert(lv == fk_line(tag@, *fk));
        assert(texts(before).len() == i);
        lines.push(line);
        proof {
            assert(lines@.len() == i + 1);
            assert(lines@[i as int]@ == lv);
            let sub = fks@.subrange(0, i + 1);
            assert(sub[i as int] == *fk);
            assert(fks@.subrange(0, i as int) =~= sub.subrange(0, i as int));
            assert forall|k: int| 0 <= k < i implies #[trigger] texts(lines@)[k] == fk_lines(tag@, sub)[k] by {
                assert(lines@[k] == before[k]);
                assert(texts(lines@)[k] == texts(before)[k]);
                assert(fk_lines(tag@, fks@.subrange(0, i as int))[k] == fk_line(tag@, sub[k]));
            }
            assert(texts(lines@)[i as int] == fk_lines(tag@, sub)[i as int]);
        }
        assert(texts(lines@) =~= fk_lines(tag@, fks@.subrange(0, i + 1)));
        i = i + 1;
    }
    assert(fks@.subrange(0, fks.len() as int) =~= fks@);
    sort_texts(lines)
}

impl ClusterSignature {
    /// Digest the cluster's sorted tables, sorted foreign-key lines and
    /// the prompt render hash.
    pub fn from_cluster(cluster: &TableCluster, prompt_render_hash: &str) -> (r: ClusterSignature)
        ensures
            r@ == hex_lower(sha256_of(encode_utf8(signature_text(*cluster, prompt_render_hash@)))),
            is_signature_text(r@),
    {
        let tables = sort_texts(copy_texts(&cluster.tables));
        let ghost ts = texts(tables@);
        let mut msg = String::new();
        let mut i: usize = 0;
        while i < tables.len()
            invariant
                i <= tables.len(),
                ts == texts(tables@),
                msg@ == table_block(ts.subrange(0, i as int)),
            decreases tables.len() - i,
        {
            proof {
                let next = ts.subrange(0, i + 1);
                assert(next.subrange(0, i as int) =~= ts.subrange(0, i as int));
                assert(next[i as int] == tables@[i as int]@);
            }
            msg.append("t|");
            msg.append(tables[i].as_str());
            msg.append("\n");
            i = i + 1;
        }
        assert(ts.subrange(0, ts.len() as int) =~= ts);
        let ghost after_tables = msg@;
        let internal = canonical_fk_lines(&cluster.internal_fks, "ifk");
        let ghost ls = texts(internal@);
        let mut i: usize = 0;
        while i < internal.len()
            invariant
                i <= internal.len(),
                ls == texts(internal@),
                msg@ == after_tables + lines_block(ls.subrange(0, i as int)),
            decreases internal.len() - i,
        {
            proof {
                let next = ls.subrange(0, i + 1);
                assert(next.subrange(0, i as int) =~= ls.subrange(0, i as int));
                assert(next[i as int] == internal@[i as int]@);
            }
            msg.append(internal[i].as_str());
            assert(msg@ =~= after_tables + lines_block(ls.subrange(0, i + 1)));
            i = i + 1;
        }
        assert(ls.subrange(0, ls.len() as int) =~= ls);
        let ghost after_internal = msg@;
        let cross = canonical_fk_lines(&cluster.cross_fks, "xfk");
        let ghost xs = texts(cross@);
        let mut i: usize = 0;
        while i < cross.len()
            invariant
                i <= cross.len(),
                xs == texts(cross@),
                msg@ == after_internal + lines_block(xs.subrange(0, i as int)),
            decreases cross.len() - i,
        {
            proof {
                let next = xs.subrange(0, i + 1);
                assert(next.subrange(0, i as int) =~= xs.subrange(0, i as int));
                assert(next[i as int] == cross@[i as int]@);
            }
            msg.append(cross[i].as_str());
            assert(msg@ =~= after_internal + lines_block(xs.subrange(0, i + 1)));
            i = i + 1;
        }
        assert(xs.subrange(0, xs.len() as int) =~= xs);
        msg.append("prh|");
        msg.append(prompt_render_hash);
        assert(msg@ =~= signature_text(*cluster, prompt_render_hash@));
        let digest = sha256_hex(msg.as_str().as_bytes());
        ClusterSignature(digest)
    }

    /// The signature's text.
    pub fn as_str(&self) -> (r: &str)
        ensures
            r@ == self@,
    {
        self.0.as_str()
    }

    /// Accept a text that has the shape of a signature: 64 lowercase
    /// hex digits.
    pub fn from_hex(hex: String) -> (r: Result<ClusterSignature, ClusterSignatureParseError>)
        ensures
            r is Ok <==> is_signature_text(hex@),
            r matches Ok(s) ==> s@ == hex@,
    {
        let n = hex.as_str().unicode_len();
        if n != 64 {
            return Err(ClusterSignatureParseError);
        }
        let mut i: usize = 0;
        while i < n
            invariant
                n == hex@.len(),
                i <= n,
                forall|k: int| 0 <= k < i ==> is_lower_hex(#[trigger] hex@[k]),
            decreases n - i,
        {
            let c = hex.as_str().get_char(i);
            if !(('0' <= c && c <= '9') || ('a' <= c && c <= 'f')) {
                return Err(ClusterSignatureParseError);
            }
            i = i + 1;
        }
        Ok(ClusterSignature(hex))
    }
}

/// Clusters with the same tables (in any order), the same foreign keys
/// (in any order) and the same prompt render hash have the same
/// signature.
pub proof fn lemma_signature_order_independent(
    a: TableCluster,
    b: TableCluster,
    prompt_render_hash: Seq<char>,
)
    requires
        texts(a.tables@).to_multiset() == texts(b.tables@).to_multiset(),
        fk_lines("ifk"@, a.internal_fks@).to_multiset() == fk_lines("ifk"@, b.internal_fks@).to_multiset(),
        fk_lines("xfk"@, a.cross_fks@).to_multiset() == fk_lines("xfk"@, b.cross_fks@).to_multiset(),
    ensures
        signature_text(a, prompt_render_hash) == signature_text(b, prompt_render_hash),
{
    lemma_str_le_total();
    lemma_same_sorted(texts(a.tables@), texts(b.tables@));
    lemma_same_sorted(fk_lines("ifk"@, a.internal_fks@), fk_lines("ifk"@, b.internal_fks@));
    lemma_same_sorted(fk_lines("xfk"@, a.cross_fks@), fk_lines("xfk"@, b.cross_fks@));
}

proof fn lemma_same_sorted(x: Seq<Seq<char>>, y: Seq<Seq<char>>)
    requires
        x.to_multiset() == y.to_multiset(),
    ensures
        sorted_texts(x) == sorted_texts(y),
{
    lemma_str_le_total();
    x.lemma_sort_by_ensures(str_le());
    y.lemma_sort_by_ensures(str_le());
    vstd::seq_lib::lemma_sorted_unique(x.sort_by(str_le()), y.sort_by(str_le()), str_le());
}

/// A UUID, carried through unchanged.
#[verifier::external_type_specification]
#[verifier::external_body]
pub struct ExUuid(uuid::Uuid);

/// One completed cluster's design output, ready to persist or replay.
/// `id` and `workspace_id` are filled in by the store. Instants are
/// seconds since the Unix epoch.
#[derive(Debug)]
pub struct DraftClusterCheckpoint {
    pub id: Option<uuid::Uuid>,
    pub workspace_id: Option<uuid::Uuid>,
    pub project_id: uuid::Uuid,
    pub source_id: String,
    pub signature: ClusterSignature,
    pub cluster_id: usize,
    pub output: InputOntologyDef,
    pub created_at: i64,
    pub expires_at: i64,
}

impl DraftClusterCheckpoint {
    /// A fresh checkpoint authored at `now`, expiring `ttl_secs` later;
    /// the store-side fields are left empty.
    pub fn draft_at(
        now: i64,
        project_id: uuid::Uuid,
        source_id: String,
        signature: ClusterSignature,
        cluster_id: usize,
        output: InputOntologyDef,
        ttl_secs: i64,
    ) -> (r: DraftClusterCheckpoint)
        requires
            i64::MIN <= now + ttl_secs <= i64::MAX,
        ensures
            r.id is None,
            r.workspace_id is None,
            r.project_id == project_id,
            r.source_id == source_id,
            r.signature == signature,
            r.cluster_id == cluster_id,
            r.output == output,
            r.created_at == now,
            r.expires_at == now + ttl_secs,
    {
        DraftClusterCheckpoint {
            id: None,
            workspace_id: None,
            project_id,
            source_id,
            signature,
            cluster_id,
            output,
            created_at: now,
            expires_at: now + ttl_secs,
        }
    }

    /// A fresh checkpoint authored now, expiring `ttl_secs` later. The
    /// window is any whole number of seconds a `chrono::Duration` can
    /// hold: at most `i64::MAX` milliseconds either way.
    pub fn draft(
        project_id: uuid::Uuid,
        source_id: String,
        signature: ClusterSignature,
        cluster_id: usize,
        output: InputOntologyDef,
        ttl_secs: i64,
    ) -> (r: DraftClusterCheckpoint)
        requires
            -9_223_372_036_854_775 <= ttl_secs <= 9_223_372_036_854_775,
        ensures
            r.id is None,
            r.workspace_id is None,
            r.project_id == project_id,
            r.source_id == source_id,
            r.signature == signature,
            r.cluster_id == cluster_id,
            r.output == output,
            r.expires_at == r.created_at + ttl_secs,
            -crate::clock::CLOCK_LIMIT <= r.created_at <= crate::clock::CLOCK_LIMIT,
    {
        let now = now_epoch_seconds();
        Self::draft_at(now, project_id, source_id, signature, cluster_id, output, ttl_secs)
    }
}

} // verus!
