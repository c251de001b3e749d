//! Actions: typed operations on node or edge types.

use vstd::prelude::*;

use crate::model::{copy_texts, texts, DeepCopy};
use crate::rule::{Bilingual, BilingualModel};

verus! {

/// What an action operates on.
#[derive(Debug, Clone, PartialEq, Eq)]
pub enum ActionTarget {
    NodeType { node_type_id: String },
    EdgeType { edge_type_id: String },
}

/// What an action does.
#[derive(Debug, Clone, Copy, PartialEq, Eq, Structural)]
pub enum ActionKind {
    Create,
    Update,
    Upsert,
    Delete,
    Custom,
}

/// Whether repeated invocations are deduplicated.
#[derive(Debug, Clone, Copy, PartialEq, Eq, Structural)]
pub enum IdempotencyPolicy {
    /// No deduplication.
    Unkeyed,
    /// Invocations with the same key within the window count once.
    Keyed { window_seconds: u64 },
}

impl Default for IdempotencyPolicy {
    fn default() -> (r: IdempotencyPolicy)
        ensures
            r == IdempotencyPolicy::Unkeyed,
    {
        IdempotencyPolicy::Unkeyed
    }
}

impl IdempotencyPolicy {
    /// A keyed policy over a window of `window_secs` seconds; a negative
    /// window counts as zero.
    pub fn keyed(window_secs: i64) -> (r: IdempotencyPolicy)
        ensures
            r == (IdempotencyPolicy::Keyed {
                window_seconds: if window_secs < 0 {
                    0
                } else {
                    window_secs as u64
                },
            }),
    {
        let secs: u64 = if window_secs < 0 {
            0
        } else {
            window_secs as u64
        };
        IdempotencyPolicy::Keyed { window_seconds: secs }
    }
}


/// Who must sign off before an action runs.
#[derive(Debug, Clone, PartialEq, Eq, Default)]
pub enum ApprovalPolicy {
    /// Runs without approval.
    #[default]
    Automatic,
    /// One of the listed roles must approve first.
    RequireApproval { approver_roles: Vec<String>, rationale: Bilingual },
}

/// A typed operation on a node or edge type, with the rules checked
/// before and after it, its deduplication policy and its approval policy.
#[derive(Debug, Clone, PartialEq, Eq)]
pub struct ActionDef {
    pub id: String,
    pub name: String,
    pub description: Bilingual,
    pub target: ActionTarget,
    pub kind: ActionKind,
    pub preconditions: Vec<String>,
    pub postconditions: Vec<String>,
    pub idempotency: IdempotencyPolicy,
    pub approval: ApprovalPolicy,
}

/// Model of an [`ActionTarget`].
pub enum ActionTargetModel {
    NodeType { node_type_id: Seq<char> },
    EdgeType { edge_type_id: Seq<char> },
}

impl View for ActionTarget {
    type V = ActionTargetModel;

    open spec fn view(&self) -> ActionTargetModel {
        match self {
            ActionTarget::NodeType { node_type_id } => ActionTargetModel::NodeType { node_type_id: node_type_id@ },
            ActionTarget::EdgeType { edge_type_id } => ActionTargetModel::EdgeType { edge_type_id: edge_type_id@ },
        }
    }
}

impl DeepCopy for ActionTarget {
    fn deep_copy(&self) -> (r: ActionTarget) {
        match self {
            ActionTarget::NodeType { node_type_id } => ActionTarget::NodeType { node_type_id: node_type_id.clone() },
            ActionTarget::EdgeType { edge_type_id } => ActionTarget::EdgeType { edge_type_id: edge_type_id.clone() },
        }
    }
}

/// Model of an [`ApprovalPolicy`].
pub enum ApprovalModel {
    Automatic,
    RequireApproval { approver_roles: Seq<Seq<char>>, rationale: BilingualModel },
}

impl View for ApprovalPolicy {
    type V = ApprovalModel;

    open spec fn view(&self) -> ApprovalModel {
        match self {
            ApprovalPolicy::Automatic => ApprovalModel::Automatic,
            ApprovalPolicy::RequireApproval { approver_roles, rationale } => ApprovalModel::RequireApproval {
                approver_roles: texts(approver_roles@),
                rationale: rationale@,
            },
        }
    }
}

impl DeepCopy for ApprovalPolicy {
    fn deep_copy(&self) -> (r: ApprovalPolicy) {
        match self {
            ApprovalPolicy::Automatic => ApprovalPolicy::Automatic,
            ApprovalPolicy::RequireApproval { approver_roles, rationale } => ApprovalPolicy::RequireApproval {
                approver_roles: copy_texts(approver_roles),
                rationale: rationale.deep_copy(),
            },
        }
    }
}

/// Model of an [`ActionDef`].
pub struct ActionModel {
    pub id: Seq<char>,
    pub name: Seq<char>,
    pub description: BilingualModel,
    pub target: ActionTargetModel,
    pub kind: ActionKind,
    pub preconditions: Seq<Seq<char>>,
    pub postconditions: Seq<Seq<char>>,
    pub idempotency: IdempotencyPolicy,
    pub approval: ApprovalModel,
}

impl View for ActionDef {
    type V = ActionModel;

    open spec fn view(&self) -> ActionModel {
        ActionModel {
            id: self.id@,
            name: self.name@,
            description: self.description@,
            target: self.target@,
            kind: self.kind,
            preconditions: texts(self.preconditions@),
            postconditions: texts(self.postconditions@),
            idempotency: self.idempotency,
            approval: self.approval@,
        }
    }
}

impl DeepCopy for ActionDef {
    fn deep_copy(&self) -> (r: ActionDef) {
        ActionDef {
            id: self.id.clone(),
            name: self.name.clone(),
            description: self.description.deep_copy(),
            target: self.target.deep_copy(),
            kind: self.kind,
            preconditions: copy_texts(&self.preconditions),
            postconditions: copy_texts(&self.postconditions),
            idempotency: self.idempotency,
            approval: self.approval.deep_copy(),
        }
    }
}

} // verus!
