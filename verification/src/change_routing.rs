//! Change-type routing rules that drive approval automation.
//!
//! Every ontology edit classifies into one [`ChangeType`]; each change
//! type carries a default [`ApprovalRouting`] (auto-apply, apply with
//! notification, approval unless a skip predicate fires, or always
//! queue). [`decide_edit_routing`] evaluates a routing against the
//! author's role and the scope the edit declares.

use vstd::prelude::*;

verus! {

/// Taxonomy of edit operations the routing matrix knows about.
#[derive(Debug, Clone, Copy, PartialEq, Eq, Hash, Structural)]
pub enum ChangeType {
    CodedValueCreate,
    CodedValueDeprecate,
    TerminologyRegistryUpdate,
    SemanticBindingUpdate,
    NotationPatternCreate,
    CustomerSegmentCreate,
    ColumnRename,
    TableMerge,
    DataSourceRegister,
    StaleConceptDeprecate,
    OntologyVersionRollback,
    RuleCreate,
    RuleModify,
    RuleDelete,
}

/// Role reference. Admin outranks DataSteward which outranks Analyst.
#[derive(Debug, Clone, Copy, PartialEq, Eq, Structural)]
pub enum RoleRef {
    Admin,
    DataSteward,
    Analyst,
}

/// Dimension a scope predicate measures against.
#[derive(Debug, Clone, Copy, PartialEq, Eq, Hash, Structural)]
pub enum ScopeKind {
    CodeCount,
}

/// A single scope measurement an op declares at classification time.
#[derive(Debug, Clone, Copy, PartialEq, Eq, Structural)]
pub struct ScopeValue {
    pub kind: ScopeKind,
    pub value: u32,
}

/// Predicates the `ApprovalRequiredUnless` branch evaluates; the skip
/// list is OR'd.
#[derive(Debug, Clone, Copy, PartialEq, Eq, Structural)]
pub enum ApprovalSkipPredicate {
    /// The author's role matches or outranks this reference.
    AuthorHasRole { role: RoleRef },
    /// The op declares a scope of kind `scope` with a value strictly
    /// under `threshold`. No declared scope never fires.
    ChangeScopeBelow { scope: ScopeKind, threshold: u32 },
}

/// Destination for a classified change.
#[derive(Debug, Clone, PartialEq, Eq)]
pub enum ApprovalRouting {
    AutoApprove,
    AutoApproveWithNotification { notify_roles: Vec<RoleRef> },
    ApprovalRequiredUnless { skip_predicates: Vec<ApprovalSkipPredicate> },
    ApprovalRequired,
}

/// Mathematical model of an [`ApprovalRouting`].
pub enum RoutingModel {
    AutoApprove,
    AutoApproveWithNotification { notify_roles: Seq<RoleRef> },
    ApprovalRequiredUnless { skip_predicates: Seq<ApprovalSkipPredicate> },
    ApprovalRequired,
}

impl View for ApprovalRouting {
    type V = RoutingModel;

    open spec fn view(&self) -> RoutingModel {
        match self {
            ApprovalRouting::AutoApprove => RoutingModel::AutoApprove,
            ApprovalRouting::AutoApproveWithNotification { notify_roles } =>
                RoutingModel::AutoApproveWithNotification { notify_roles: notify_roles@ },
            ApprovalRouting::ApprovalRequiredUnless { skip_predicates } =>
                RoutingModel::ApprovalRequiredUnless { skip_predicates: skip_predicates@ },
            ApprovalRouting::ApprovalRequired => RoutingModel::ApprovalRequired,
        }
    }
}

/// Risk tier — audit / UI metadata only.
#[derive(Debug, Clone, Copy, PartialEq, Eq, Structural)]
pub enum RiskLevel {
    Low,
    Medium,
    High,
}

/// Evaluation result for a classified change request.
#[derive(Debug, Clone, PartialEq, Eq)]
pub enum EditRoutingDecision {
    /// Apply immediately; `notify_roles` non-empty for notifying routes.
    Apply { notify_roles: Vec<RoleRef> },
    /// Queue for human approval.
    Queue,
}

/// Mathematical model of an [`EditRoutingDecision`].
pub enum DecisionModel {
    Apply { notify_roles: Seq<RoleRef> },
    Queue,
}

impl View for EditRoutingDecision {
    type V = DecisionModel;

    open spec fn view(&self) -> DecisionModel {
        match self {
            EditRoutingDecision::Apply { notify_roles } =>
                DecisionModel::Apply { notify_roles: notify_roles@ },
            EditRoutingDecision::Queue => DecisionModel::Queue,
        }
    }
}

/// Inputs the router needs to evaluate skip predicates.
#[derive(Debug, Clone, Default)]
pub struct EditContext {
    pub author_role: Option<RoleRef>,
    pub scopes: Vec<ScopeValue>,
}

/// The canonical order of every change type.
pub open spec fn all_change_types() -> Seq<ChangeType> {
    seq![
        ChangeType::CodedValueCreate,
        ChangeType::CodedValueDeprecate,
        ChangeType::TerminologyRegistryUpdate,
        ChangeType::SemanticBindingUpdate,
        ChangeType::NotationPatternCreate,
        ChangeType::CustomerSegmentCreate,
        ChangeType::ColumnRename,
        ChangeType::TableMerge,
        ChangeType::DataSourceRegister,
        ChangeType::StaleConceptDeprecate,
        ChangeType::OntologyVersionRollback,
        ChangeType::RuleCreate,
        ChangeType::RuleModify,
        ChangeType::RuleDelete,
    ]
}

/// Skip-unless-role routing.
pub open spec fn unless_role(role: RoleRef) -> RoutingModel {
    RoutingModel::ApprovalRequiredUnless {
        skip_predicates: seq![ApprovalSkipPredicate::AuthorHasRole { role }],
    }
}

/// The patent-matrix default routing of each change type.
pub open spec fn default_routing_of(c: ChangeType) -> RoutingModel {
    match c {
        ChangeType::OntologyVersionRollback => RoutingModel::AutoApprove,
        ChangeType::StaleConceptDeprecate => RoutingModel::AutoApproveWithNotification {
            notify_roles: seq![RoleRef::DataSteward],
        },
        ChangeType::ColumnRename => unless_role(RoleRef::Admin),
        ChangeType::CodedValueCreate => RoutingModel::ApprovalRequiredUnless {
            skip_predicates: seq![
                ApprovalSkipPredicate::AuthorHasRole { role: RoleRef::DataSteward },
                ApprovalSkipPredicate::ChangeScopeBelow {
                    scope: ScopeKind::CodeCount,
                    threshold: 5,
                },
            ],
        },
        ChangeType::DataSourceRegister => unless_role(RoleRef::Admin),
        ChangeType::SemanticBindingUpdate => unless_role(RoleRef::DataSteward),
        ChangeType::TerminologyRegistryUpdate => unless_role(RoleRef::DataSteward),
        ChangeType::NotationPatternCreate => RoutingModel::ApprovalRequired,
        ChangeType::CodedValueDeprecate => RoutingModel::ApprovalRequired,
        ChangeType::CustomerSegmentCreate => RoutingModel::ApprovalRequired,
        ChangeType::TableMerge => RoutingModel::ApprovalRequired,
        ChangeType::RuleCreate => unless_role(RoleRef::DataSteward),
        ChangeType::RuleModify => unless_role(RoleRef::Admin),
        ChangeType::RuleDelete => RoutingModel::ApprovalRequired,
    }
}

/// Default risk badge of each change type.
pub open spec fn default_risk_of(c: ChangeType) -> RiskLevel {
    match c {
        ChangeType::CodedValueCreate
        | ChangeType::TerminologyRegistryUpdate
        | ChangeType::SemanticBindingUpdate
        | ChangeType::StaleConceptDeprecate => RiskLevel::Low,
        ChangeType::CodedValueDeprecate
        | ChangeType::NotationPatternCreate
        | ChangeType::CustomerSegmentCreate
        | ChangeType::DataSourceRegister
        | ChangeType::OntologyVersionRollback
        | ChangeType::RuleCreate => RiskLevel::Medium,
        ChangeType::ColumnRename
        | ChangeType::TableMerge
        | ChangeType::RuleModify
        | ChangeType::RuleDelete => RiskLevel::High,
    }
}

/// Position of a role on the authority ladder.
pub open spec fn role_rank(r: RoleRef) -> int {
    match r {
        RoleRef::Admin => 3,
        RoleRef::DataSteward => 2,
        RoleRef::Analyst => 1,
    }
}

/// Value of the first scope of kind `kind`, if any is declared.
pub open spec fn scope_lookup(scopes: Seq<ScopeValue>, kind: ScopeKind) -> Option<u32>
    decreases scopes.len(),
{
    if scopes.len() == 0 {
        None
    } else if scopes[0].kind == kind {
        Some(scopes[0].value)
    } else {
        scope_lookup(scopes.subrange(1, scopes.len() as int), kind)
    }
}

/// Whether one skip predicate fires for the given author role and scopes.
pub open spec fn predicate_fires(
    pred: ApprovalSkipPredicate,
    author_role: Option<RoleRef>,
    scopes: Seq<ScopeValue>,
) -> bool {
    match pred {
        ApprovalSkipPredicate::AuthorHasRole { role } => match author_role {
            Some(r) => role_rank(r) >= role_rank(role),
            None => false,
        },
        ApprovalSkipPredicate::ChangeScopeBelow { scope, threshold } => match scope_lookup(
            scopes,
            scope,
        ) {
            Some(v) => v < threshold,
            None => false,
        },
    }
}

/// Whether some skip predicate of the list fires.
pub open spec fn any_predicate_fires(
    preds: Seq<ApprovalSkipPredicate>,
    author_role: Option<RoleRef>,
    scopes: Seq<ScopeValue>,
) -> bool {
    exists|i: int| 0 <= i < preds.len() && #[trigger] predicate_fires(preds[i], author_role, scopes)
}

/// The routing decision for a routing model and an edit context.
pub open spec fn decision_of(
    routing: RoutingModel,
    author_role: Option<RoleRef>,
    scopes: Seq<ScopeValue>,
) -> DecisionModel {
    match routing {
        RoutingModel::AutoApprove => DecisionModel::Apply { notify_roles: Seq::empty() },
        RoutingModel::AutoApproveWithNotification { notify_roles } => DecisionModel::Apply {
            notify_roles,
        },
        RoutingModel::ApprovalRequiredUnless { skip_predicates } => if any_predicate_fires(
            skip_predicates,
            author_role,
            scopes,
        ) {
            DecisionModel::Apply { notify_roles: Seq::empty() }
        } else {
            DecisionModel::Queue
        },
        RoutingModel::ApprovalRequired => DecisionModel::Queue,
    }
}

impl ChangeType {
    /// All variants in canonical order.
    pub fn all() -> (r: Vec<ChangeType>)
        ensures
            r@ == all_change_types(),
    {
        let r = vec![
            ChangeType::CodedValueCreate,
            ChangeType::CodedValueDeprecate,
            ChangeType::TerminologyRegistryUpdate,
            ChangeType::SemanticBindingUpdate,
            ChangeType::NotationPatternCreate,
            ChangeType::CustomerSegmentCreate,
            ChangeType::ColumnRename,
            ChangeType::TableMerge,
            ChangeType::DataSourceRegister,
            ChangeType::StaleConceptDeprecate,
            ChangeType::OntologyVersionRollback,
            ChangeType::RuleCreate,
            ChangeType::RuleModify,
            ChangeType::RuleDelete,
        ];
        assert(r@ =~= all_change_types());
        r
    }

    /// Patent-matrix default routing for this change type.
    pub fn default_routing(self) -> (r: ApprovalRouting)
        ensures
            r@ == default_routing_of(self),
    {
        let r = match self {
            ChangeType::OntologyVersionRollback => ApprovalRouting::AutoApprove,
            ChangeType::StaleConceptDeprecate => ApprovalRouting::AutoApproveWithNotification {
                notify_roles: vec![RoleRef::DataSteward],
            },
            ChangeType::ColumnRename => ApprovalRouting::ApprovalRequiredUnless {
                skip_predicates: vec![ApprovalSkipPredicate::AuthorHasRole { role: RoleRef::Admin }],
            },
            ChangeType::CodedValueCreate => ApprovalRouting::ApprovalRequiredUnless {
                skip_predicates: vec![
                    ApprovalSkipPredicate::AuthorHasRole { role: RoleRef::DataSteward },
                    ApprovalSkipPredicate::ChangeScopeBelow {
                        scope: ScopeKind::CodeCount,
                        threshold: 5,
                    },
                ],
            },
            ChangeType::DataSourceRegister => ApprovalRouting::ApprovalRequiredUnless {
                skip_predicates: vec![ApprovalSkipPredicate::AuthorHasRole { role: RoleRef::Admin }],
            },
            ChangeType::SemanticBindingUpdate | ChangeType::TerminologyRegistryUpdate => {
                ApprovalRouting::ApprovalRequiredUnless {
                    skip_predicates: vec![
                        ApprovalSkipPredicate::AuthorHasRole { role: RoleRef::DataSteward },
                    ],
                }
            },
            ChangeType::NotationPatternCreate | ChangeType::CodedValueDeprecate => {
                ApprovalRouting::ApprovalRequired
            },
            ChangeType::CustomerSegmentCreate => ApprovalRouting::ApprovalRequired,
            ChangeType::TableMerge => ApprovalRouting::ApprovalRequired,
            ChangeType::RuleCreate => ApprovalRouting::ApprovalRequiredUnless {
                skip_predicates: vec![
                    ApprovalSkipPredicate::AuthorHasRole { role: RoleRef::DataSteward },
                ],
            },
            ChangeType::RuleModify => ApprovalRouting::ApprovalRequiredUnless {
                skip_predicates: vec![ApprovalSkipPredicate::AuthorHasRole { role: RoleRef::Admin }],
            },
            ChangeType::RuleDelete => ApprovalRouting::ApprovalRequired,
        };
        proof {
            match &r {
                ApprovalRouting::AutoApproveWithNotification { notify_roles } => {
                    assert(notify_roles@ =~= seq![RoleRef::DataSteward]);
                },
                ApprovalRouting::ApprovalRequiredUnless { skip_predicates } => {
                    if self == ChangeType::CodedValueCreate {
                        assert(skip_predicates@ =~= seq![
                            ApprovalSkipPredicate::AuthorHasRole { role: RoleRef::DataSteward },
                            ApprovalSkipPredicate::ChangeScopeBelow {
                                scope: ScopeKind::CodeCount,
                                threshold: 5,
                            },
                        ]);
                    } else if self == ChangeType::ColumnRename || self
                        == ChangeType::DataSourceRegister || self == ChangeType::RuleModify {
                        assert(skip_predicates@ =~= seq![
                            ApprovalSkipPredicate::AuthorHasRole { role: RoleRef::Admin },
                        ]);
                    } else {
                        assert(skip_predicates@ =~= seq![
                            ApprovalSkipPredicate::AuthorHasRole { role: RoleRef::DataSteward },
                        ]);
                    }
                },
                _ => {},
            }
        }
        r
    }

    /// Default risk badge for the global seed row.
    pub fn default_risk_level(self) -> (r: RiskLevel)
        ensures
            r == default_risk_of(self),
    {
        match self {
            ChangeType::CodedValueCreate
            | ChangeType::TerminologyRegistryUpdate
            | ChangeType::SemanticBindingUpdate
            | ChangeType::StaleConceptDeprecate => RiskLevel::Low,
            ChangeType::CodedValueDeprecate
            | ChangeType::NotationPatternCreate
            | ChangeType::CustomerSegmentCreate
            | ChangeType::DataSourceRegister
            | ChangeType::OntologyVersionRollback
            | ChangeType::RuleCreate => RiskLevel::Medium,
            ChangeType::ColumnRename
            | ChangeType::TableMerge
            | ChangeType::RuleModify
            | ChangeType::RuleDelete => RiskLevel::High,
        }
    }
}

/// Decide whether a classified change applies automatically or queues.
pub fn decide_edit_routing(routing: &ApprovalRouting, ctx: &EditContext) -> (r:
    EditRoutingDecision)
    ensures
        r@ == decision_of(routing@, ctx.author_role, ctx.scopes@),
{
    match routing {
        ApprovalRouting::AutoApprove => {
            let r = EditRoutingDecision::Apply { notify_roles: Vec::new() };
            assert(r@ == decision_of(routing@, ctx.author_role, ctx.scopes@)) by {
                if let EditRoutingDecision::Apply { notify_roles } = &r {
                    assert(notify_roles@ =~= Seq::<RoleRef>::empty());
                }
            }
            r
        },
        ApprovalRouting::AutoApproveWithNotification { notify_roles } => {
            EditRoutingDecision::Apply { notify_roles: notify_roles.clone() }
        },
        ApprovalRouting::ApprovalRequiredUnless { skip_predicates } => {
            let n = skip_predicates.len();
            let mut i: usize = 0;
            while i < n
                invariant
                    n == skip_predicates.len(),
                    i <= n,
                    routing@ == (RoutingModel::ApprovalRequiredUnless {
                        skip_predicates: skip_predicates@,
                    }),
                    forall|j: int|
                        0 <= j < i ==> !#[trigger] predicate_fires(
                            skip_predicates@[j],
                            ctx.author_role,
                            ctx.scopes@,
                        ),
                decreases n - i,
            {
                if pred_passes(&skip_predicates[i], ctx) {
                    let empty: Vec<RoleRef> = Vec::new();
                    assert(empty@ == Seq::<RoleRef>::empty());
                    let r = EditRoutingDecision::Apply { notify_roles: empty };
                    assert(predicate_fires(
                        skip_predicates@[i as int],
                        ctx.author_role,
                        ctx.scopes@,
                    ));
                    proof {
                        lemma_firing_predicate_applies(
                            skip_predicates@,
                            i as int,
                            ctx.author_role,
                            ctx.scopes@,
                        );
                    }
                    assert(r@ == (DecisionModel::Apply { notify_roles: Seq::<RoleRef>::empty() }));
                    return r;
                }
                i = i + 1;
            }
            EditRoutingDecision::Queue
        },
        ApprovalRouting::ApprovalRequired => EditRoutingDecision::Queue,
    }
}

fn pred_passes(pred: &ApprovalSkipPredicate, ctx: &EditContext) -> (r: bool)
    ensures
        r == predicate_fires(*pred, ctx.author_role, ctx.scopes@),
{
    match pred {
        ApprovalSkipPredicate::AuthorHasRole { role } => match ctx.author_role {
            Some(r) => role_outranks(r, *role),
            None => false,
        },
        ApprovalSkipPredicate::ChangeScopeBelow { scope, threshold } => {
            let n = ctx.scopes.len();
            let mut i: usize = 0;
            while i < n
                invariant
                    n == ctx.scopes.len(),
                    i <= n,
                    *pred == (ApprovalSkipPredicate::ChangeScopeBelow {
                        scope: *scope,
                        threshold: *threshold,
                    }),
                    scope_lookup(ctx.scopes@, *scope) == scope_lookup(
                        ctx.scopes@.subrange(i as int, n as int),
                        *scope,
                    ),
                decreases n - i,
            {
                let s = ctx.scopes[i];
                assert(ctx.scopes@.subrange(i as int, n as int).subrange(1, (n - i) as int)
                    =~= ctx.scopes@.subrange(i + 1, n as int));
                assert(ctx.scopes@.subrange(i as int, n as int)[0] == s);
                if s.kind == *scope {
                    return s.value < *threshold;
                }
                i = i + 1;
            }
            false
        },
    }
}

/// Admin outranks DataSteward which outranks Analyst.
fn role_outranks(actor: RoleRef, required: RoleRef) -> (r: bool)
    ensures
        r == (role_rank(actor) >= role_rank(required)),
{
    rank(actor) >= rank(required)
}

fn rank(r: RoleRef) -> (n: u8)
    ensures
        n == role_rank(r),
{
    match r {
        RoleRef::Admin => 3,
        RoleRef::DataSteward => 2,
        RoleRef::Analyst => 1,
    }
}

proof fn lemma_firing_predicate_applies(
    preds: Seq<ApprovalSkipPredicate>,
    i: int,
    author_role: Option<RoleRef>,
    scopes: Seq<ScopeValue>,
)
    requires
        0 <= i < preds.len(),
        predicate_fires(preds[i], author_role, scopes),
    ensures
        decision_of(
            RoutingModel::ApprovalRequiredUnless { skip_predicates: preds },
            author_role,
            scopes,
        ) == (DecisionModel::Apply { notify_roles: Seq::empty() }),
{
    assert(exists|k: int| 0 <= k < preds.len() && #[trigger] predicate_fires(preds[k], author_role, scopes));
    let d = decision_of(
            RoutingModel::ApprovalRequiredUnless { skip_predicates: preds },
            author_role,
            scopes,
        );
    assert(d is Apply);
}

/// `ChangeType::all` lists every change type exactly once.
pub proof fn lemma_all_change_types_complete_and_distinct(c: ChangeType)
    ensures
        all_change_types().contains(c),
        all_change_types().no_duplicates(),
        all_change_types().len() == 14,
{
    let s = all_change_types();
    match c {
        ChangeType::CodedValueCreate => assert(s[0] == c),
        ChangeType::CodedValueDeprecate => assert(s[1] == c),
        ChangeType::TerminologyRegistryUpdate => assert(s[2] == c),
        ChangeType::SemanticBindingUpdate => assert(s[3] == c),
        ChangeType::NotationPatternCreate => assert(s[4] == c),
        ChangeType::CustomerSegmentCreate => assert(s[5] == c),
        ChangeType::ColumnRename => assert(s[6] == c),
        ChangeType::TableMerge => assert(s[7] == c),
        ChangeType::DataSourceRegister => assert(s[8] == c),
        ChangeType::StaleConceptDeprecate => assert(s[9] == c),
        ChangeType::OntologyVersionRollback => assert(s[10] == c),
        ChangeType::RuleCreate => assert(s[11] == c),
        ChangeType::RuleModify => assert(s[12] == c),
        ChangeType::RuleDelete => assert(s[13] == c),
    }
}

/// Routing is monotone in the author's role: whatever the routing, if an
/// edit by an author of one role is applied, the same edit by an author of
/// a role at least as high, with the same scopes, is applied too.
pub proof fn lemma_higher_role_never_loses_skip(
    routing: RoutingModel,
    lower: RoleRef,
    higher: RoleRef,
    scopes: Seq<ScopeValue>,
)
    requires
        role_rank(lower) <= role_rank(higher),
        decision_of(routing, Some(lower), scopes) is Apply,
    ensures
        decision_of(routing, Some(higher), scopes) is Apply,
{
    match routing {
        RoutingModel::ApprovalRequiredUnless { skip_predicates } => {
            let i = choose|i: int|
                0 <= i < skip_predicates.len() && #[trigger] predicate_fires(
                    skip_predicates[i],
                    Some(lower),
                    scopes,
                );
            assert(predicate_fires(skip_predicates[i], Some(higher), scopes));
        },
        _ => {},
    }
}

/// Rule deletion never skips the approval queue, whoever authors it.
pub proof fn lemma_rule_delete_always_queues(author_role: Option<RoleRef>, scopes: Seq<ScopeValue>)
    ensures
        decision_of(default_routing_of(ChangeType::RuleDelete), author_role, scopes)
            is Queue,
{
}


/// A stored routing rule: the global default (no workspace) or a
/// workspace override; the higher priority wins. `created_at` is seconds
/// since the Unix epoch.
#[derive(Debug)]
pub struct ChangeRoutingRule {
    pub id: String,
    pub workspace_id: Option<uuid::Uuid>,
    pub change_type: ChangeType,
    pub routing: ApprovalRouting,
    pub risk_level: RiskLevel,
    pub priority: i32,
    pub created_at: i64,
}

} // verus!
