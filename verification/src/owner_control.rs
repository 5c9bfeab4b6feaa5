//! Owner control: pauses, stop rules, one-use exceptions and approach epochs.
//! Each cell decides, from its command and the records it read, exactly
//! which record it writes, or refuses.
use vstd::prelude::*;

use crate::error::{ErrorCode, ErrorDetail, ZapError};
use crate::ids::{CampaignId, DigestValue, ExceptionId, PauseId, ProblemId, Revision, StopRuleId, SubjectKey, WorkId};

verus! {

/// The header facts an Owner cell checks: the campaign and the revision the
/// command expects.
#[derive(Clone, Copy, Debug, PartialEq, Eq, Structural)]
pub struct CommandFacts {
    pub campaign_id: CampaignId,
    pub expected_revision: Revision,
}

/// What a pause stops.
#[derive(Debug)]
pub enum PauseScope {
    Campaign(CampaignId),
    Work(Vec<WorkId>),
    Subjects(Vec<SubjectKey>),
}

/// Whether a pause is in force.
#[derive(Clone, Copy, Debug, PartialEq, Eq, Structural)]
pub enum PauseStatus {
    Active,
    Resumed,
}

/// Who paused.
#[derive(Clone, Copy, Debug, PartialEq, Eq, Structural)]
pub enum PauseSource {
    Owner,
    StopRule(StopRuleId),
}

/// A pause record.
pub struct PauseRecord {
    pub pause_id: PauseId,
    pub campaign_id: CampaignId,
    pub scope: PauseScope,
    pub source: PauseSource,
    pub status: PauseStatus,
    pub revision: Revision,
    pub state_digest: DigestValue,
}

/// A stop rule record; its expression is evaluated elsewhere.
#[derive(Clone, Copy, Debug, PartialEq, Eq, Structural)]
pub struct StopRuleRecord {
    pub stop_rule_id: StopRuleId,
    pub campaign_id: CampaignId,
    pub active: bool,
    pub revision: Revision,
}

/// A one-use exception to a stop-rule pause.
#[derive(Clone, Copy, Debug, PartialEq, Eq, Structural)]
pub struct ActionExceptionRecord {
    pub exception_id: ExceptionId,
    pub campaign_id: CampaignId,
    pub pause_id: PauseId,
    pub stop_rule_id: StopRuleId,
    pub consumed: bool,
    pub revision: Revision,
}

/// The approach epoch of a problem.
#[derive(Clone, Copy, Debug, PartialEq, Eq, Structural)]
pub struct ApproachEpochRecord {
    pub problem_id: ProblemId,
    pub epoch: u64,
    pub failed_approaches: u64,
    pub revision: Revision,
}

/// The Owner pauses the campaign or part of it.
pub struct CampaignPaused {
    pub pause: PauseRecord,
}

/// The Owner resumes an active pause.
#[derive(Clone, Copy, Debug, PartialEq, Eq, Structural)]
pub struct PauseResumed {
    pub pause_id: PauseId,
    pub expected_state_digest: DigestValue,
}

/// The Owner records or revises a stop rule.
#[derive(Clone, Copy, Debug, PartialEq, Eq, Structural)]
pub struct StopRuleRecorded {
    pub rule: StopRuleRecord,
}

/// A stop rule fired and pauses the whole campaign.
pub struct StopRuleTriggered {
    pub stop_rule_id: StopRuleId,
    pub rule_revision: Revision,
    pub pause: PauseRecord,
}

/// The Owner grants a one-use exception.
#[derive(Clone, Copy, Debug, PartialEq, Eq, Structural)]
pub struct ActionExceptionGranted {
    pub exception: ActionExceptionRecord,
}

/// The Owner starts a new approach epoch for a problem.
#[derive(Clone, Copy, Debug, PartialEq, Eq, Structural)]
pub struct ApproachEpochAdvanced {
    pub epoch: ApproachEpochRecord,
}

/// How a cell writes its record: a new record, or a replacement of the
/// record at an expected revision.
#[derive(Debug, PartialEq, Eq)]
pub enum RecordWrite<T> {
    Insert(T),
    Replace { expected: Revision, record: T },
}

/// The revision after `r`; the last revision has none.
pub open spec fn next_revision(r: Revision) -> Option<Revision> {
    if r.0 < u64::MAX {
        Some(Revision((r.0 + 1) as u64))
    } else {
        None
    }
}

/// The revision after `r`; the last revision is an invalid value.
pub fn checked_next(r: Revision) -> (n: Result<Revision, ZapError>)
    ensures
        match next_revision(r) {
            Some(x) => n == Ok::<Revision, ZapError>(x),
            None => n == Err::<Revision, ZapError>(ZapError { code: ErrorCode::InvalidValue, detail: ErrorDetail::Empty }),
        },
{
    if r.0 == u64::MAX {
        Err(ZapError::new(ErrorCode::InvalidValue))
    } else {
        Ok(Revision(r.0 + 1))
    }
}

pub open spec fn strictly_increasing_work(s: Seq<WorkId>) -> bool {
    forall|i: int| 0 <= i < s.len() - 1 ==> (#[trigger] s[i]).0 < s[i + 1].0
}

pub open spec fn strictly_increasing_subjects(s: Seq<SubjectKey>) -> bool {
    forall|i: int| 0 <= i < s.len() - 1 ==> (#[trigger] s[i]).0 < s[i + 1].0
}

/// A campaign pause names the command's campaign; a work or subject pause
/// names at least one item, in strictly increasing order.
pub open spec fn scope_valid(scope: PauseScope, campaign: CampaignId) -> bool {
    match scope {
        PauseScope::Campaign(c) => c == campaign,
        PauseScope::Work(w) => w@.len() > 0 && strictly_increasing_work(w@),
        PauseScope::Subjects(s) => s@.len() > 0 && strictly_increasing_subjects(s@),
    }
}

#[verifier::loop_isolation(false)]
fn pause_scope_valid(scope: &PauseScope, campaign: CampaignId) -> (r: bool)
    ensures
        r == scope_valid(*scope, campaign),
{
    match scope {
        PauseScope::Campaign(c) => c.0 == campaign.0,
        PauseScope::Work(w) => {
            if w.len() == 0 {
                return false;
            }
            let mut k: usize = 1;
            while k < w.len()
                invariant
                    1 <= k,
                    forall|i: int| 0 <= i < k - 1 && i < w@.len() - 1 ==> (#[trigger] w@[i]).0 < w@[i + 1].0,
                decreases w.len() - k,
            {
                if w[k - 1].0 >= w[k].0 {
                    assert(w@[k as int - 1].0 >= w@[k as int - 1 + 1].0);
                    return false;
                }
                k += 1;
            }
            true
        },
        PauseScope::Subjects(s) => {
            if s.len() == 0 {
                return false;
            }
            let mut k: usize = 1;
            while k < s.len()
                invariant
                    1 <= k,
                    forall|i: int| 0 <= i < k - 1 && i < s@.len() - 1 ==> (#[trigger] s@[i]).0 < s@[i + 1].0,
                decreases s.len() - k,
            {
                if s[k - 1].0 >= s[k].0 {
                    assert(s@[k as int - 1].0 >= s@[k as int - 1 + 1].0);
                    return false;
                }
                k += 1;
            }
            true
        },
    }
}

/// A fresh exact Owner pause: valid scope, the command's campaign, active,
/// at the next revision, from the Owner, under a new pause id.
pub open spec fn owner_pause_admissible(h: CommandFacts, pause: PauseRecord, next: Revision, already_stored: bool) -> bool {
    &&& scope_valid(pause.scope, h.campaign_id)
    &&& pause.campaign_id == h.campaign_id
    &&& pause.status == PauseStatus::Active
    &&& pause.revision == next
    &&& pause.source == PauseSource::Owner
    &&& !already_stored
}

/// Records an Owner pause. `stored` is the pause already recorded under the
/// payload's pause id, if any.
pub struct CampaignPausedCell;

impl CampaignPausedCell {
    pub fn apply(&self, h: &CommandFacts, payload: CampaignPaused, stored: Option<&PauseRecord>) -> (r: Result<(PauseRecord, Revision), ZapError>)
        ensures
            next_revision(h.expected_revision) is None ==> r == Err::<(PauseRecord, Revision), ZapError>(ZapError { code: ErrorCode::InvalidValue, detail: ErrorDetail::Empty }),
            next_revision(h.expected_revision) matches Some(next) ==> (
                (r is Ok <==> owner_pause_admissible(*h, payload.pause, next, stored is Some))
                && (r matches Ok(out) ==> out.0 == payload.pause && out.1 == next)
                && (r matches Err(e) ==> e.code == ErrorCode::Conflict)),
    {
        let pause = payload.pause;
        let valid_scope = pause_scope_valid(&pause.scope, h.campaign_id);
        let next = checked_next(h.expected_revision)?;
        if !valid_scope || pause.campaign_id.0 != h.campaign_id.0 || !matches!(pause.status, PauseStatus::Active)
            || pause.revision.0 != next.0 || !matches!(pause.source, PauseSource::Owner) || stored.is_some()
        {
            return Err(ZapError::new(ErrorCode::Conflict));
        }
        Ok((pause, next))
    }
}

/// A triggered stop rule pauses the whole campaign: the rule is active, at the
/// stated revision, in the command's campaign and currently triggered, and the
/// pause is a fresh active whole-campaign pause from that rule at the next
/// revision.
pub open spec fn trigger_admissible(h: CommandFacts, p: StopRuleTriggered, rule: StopRuleRecord, triggered: bool, next: Revision, already_stored: bool) -> bool {
    &&& rule.active
    &&& rule.revision == p.rule_revision
    &&& rule.campaign_id == h.campaign_id
    &&& triggered
    &&& p.pause.campaign_id == rule.campaign_id
    &&& p.pause.source == PauseSource::StopRule(rule.stop_rule_id)
    &&& p.pause.scope == PauseScope::Campaign(rule.campaign_id)
    &&& p.pause.status == PauseStatus::Active
    &&& p.pause.revision == next
    &&& !already_stored
}

/// Records the pause of a triggered stop rule. `rule` is the stored rule,
/// `triggered` whether its expression evaluates as triggered on the payload's
/// facts, and `stored` the pause already recorded under the pause id.
pub struct StopRuleTriggeredCell;

impl StopRuleTriggeredCell {
    pub fn apply(&self, h: &CommandFacts, payload: StopRuleTriggered, rule: Option<StopRuleRecord>, triggered: bool, stored: Option<&PauseRecord>) -> (r: Result<(PauseRecord, Revision), ZapError>)
        ensures
            rule is None ==> r == Err::<(PauseRecord, Revision), ZapError>(ZapError { code: ErrorCode::MissingReference, detail: ErrorDetail::Empty }),
            rule is Some && next_revision(h.expected_revision) is None ==> r == Err::<(PauseRecord, Revision), ZapError>(ZapError { code: ErrorCode::InvalidValue, detail: ErrorDetail::Empty }),
            rule matches Some(rule) ==> (next_revision(h.expected_revision) matches Some(next) ==> (
                (r is Ok <==> trigger_admissible(*h, payload, rule, triggered, next, stored is Some))
                && (r matches Ok(out) ==> out.0 == payload.pause && out.1 == next)
                && (r matches Err(e) ==> e.code == ErrorCode::Conflict))),
    {
        let rule = match rule {
            None => {
                return Err(ZapError::new(ErrorCode::MissingReference));
            },
            Some(rule) => rule,
        };
        let next = checked_next(h.expected_revision)?;
        let pause = payload.pause;
        let source_ok = match pause.source {
            PauseSource::StopRule(id) => id.0 == rule.stop_rule_id.0,
            PauseSource::Owner => false,
        };
        let scope_ok = match &pause.scope {
            PauseScope::Campaign(c) => c.0 == rule.campaign_id.0,
            _ => false,
        };
        if !rule.active || rule.revision.0 != payload.rule_revision.0 || rule.campaign_id.0 != h.campaign_id.0 || !triggered
            || pause.campaign_id.0 != rule.campaign_id.0 || !source_ok || !scope_ok
            || !matches!(pause.status, PauseStatus::Active) || pause.revision.0 != next.0 || stored.is_some()
        {
            return Err(ZapError::new(ErrorCode::Conflict));
        }
        Ok((pause, next))
    }
}

/// Resumes the exact active pause of the command's campaign; the resumed pause
/// is the stored one at its next revision with status resumed.
pub struct PauseResumedCell;

impl PauseResumedCell {
    pub fn apply(&self, h: &CommandFacts, payload: &PauseResumed, stored: Option<PauseRecord>) -> (r: Result<RecordWrite<PauseRecord>, ZapError>)
        ensures
            stored is None ==> r == Err::<RecordWrite<PauseRecord>, ZapError>(ZapError { code: ErrorCode::MissingReference, detail: ErrorDetail::Empty }),
            stored matches Some(p) ==> (
                (p.campaign_id != h.campaign_id || p.status != PauseStatus::Active || p.state_digest != payload.expected_state_digest)
                    ==> r == Err::<RecordWrite<PauseRecord>, ZapError>(ZapError { code: ErrorCode::Conflict, detail: ErrorDetail::Empty })),
            stored matches Some(p) ==> (
                (p.campaign_id == h.campaign_id && p.status == PauseStatus::Active && p.state_digest == payload.expected_state_digest)
                    ==> match next_revision(p.revision) {
                        None => r == Err::<RecordWrite<PauseRecord>, ZapError>(ZapError { code: ErrorCode::InvalidValue, detail: ErrorDetail::Empty }),
                        Some(next) => r matches Ok(RecordWrite::Replace { expected, record }) && expected == p.revision
                            && record.revision == next && record.status == PauseStatus::Resumed
                            && record.pause_id == p.pause_id && record.campaign_id == p.campaign_id
                            && record.scope == p.scope && record.source == p.source && record.state_digest == p.state_digest,
                    }),
            r matches Ok(w) ==> w is Replace,
    {
        let mut pause = match stored {
            None => {
                return Err(ZapError::new(ErrorCode::MissingReference));
            },
            Some(p) => p,
        };
        if pause.campaign_id.0 != h.campaign_id.0 || !matches!(pause.status, PauseStatus::Active)
            || pause.state_digest.0 != payload.expected_state_digest.0
        {
            return Err(ZapError::new(ErrorCode::Conflict));
        }
        let expected = pause.revision;
        pause.revision = checked_next(pause.revision)?;
        pause.status = PauseStatus::Resumed;
        Ok(RecordWrite::Replace { expected, record: pause })
    }
}

/// Records a stop rule of the command's campaign: a new rule at the command's
/// next revision, or the next revision of the same campaign's stored rule.
/// `expression_check` is the verdict on the rule's expression.
pub struct StopRuleRecordedCell;

impl StopRuleRecordedCell {
    pub fn apply(&self, h: &CommandFacts, payload: &StopRuleRecorded, expression_check: Result<(), ZapError>, current: Option<StopRuleRecord>) -> (r: Result<RecordWrite<StopRuleRecord>, ZapError>)
        ensures
            expression_check matches Err(e) ==> r == Err::<RecordWrite<StopRuleRecord>, ZapError>(e),
            expression_check is Ok && payload.rule.campaign_id != h.campaign_id ==> r == Err::<RecordWrite<StopRuleRecord>, ZapError>(ZapError { code: ErrorCode::Conflict, detail: ErrorDetail::Empty }),
            expression_check is Ok && payload.rule.campaign_id == h.campaign_id ==> match current {
                Some(cur) => if cur.campaign_id == payload.rule.campaign_id {
                    match next_revision(cur.revision) {
                        None => r == Err::<RecordWrite<StopRuleRecord>, ZapError>(ZapError { code: ErrorCode::InvalidValue, detail: ErrorDetail::Empty }),
                        Some(n) => if payload.rule.revision == n {
                            r == Ok::<RecordWrite<StopRuleRecord>, ZapError>(RecordWrite::Replace { expected: cur.revision, record: payload.rule })
                        } else {
                            r == Err::<RecordWrite<StopRuleRecord>, ZapError>(ZapError { code: ErrorCode::Conflict, detail: ErrorDetail::Empty })
                        },
                    }
                } else {
                    r == Err::<RecordWrite<StopRuleRecord>, ZapError>(ZapError { code: ErrorCode::Conflict, detail: ErrorDetail::Empty })
                },
                None => match next_revision(h.expected_revision) {
                    None => r == Err::<RecordWrite<StopRuleRecord>, ZapError>(ZapError { code: ErrorCode::InvalidValue, detail: ErrorDetail::Empty }),
                    Some(n) => if payload.rule.revision == n {
                        r == Ok::<RecordWrite<StopRuleRecord>, ZapError>(RecordWrite::Insert(payload.rule))
                    } else {
                        r == Err::<RecordWrite<StopRuleRecord>, ZapError>(ZapError { code: ErrorCode::Conflict, detail: ErrorDetail::Empty })
                    },
                },
            },
    {
        match expression_check {
            Err(e) => {
                return Err(e);
            },
            Ok(()) => {},
        }
        let rule = payload.rule;
        if rule.campaign_id.0 != h.campaign_id.0 {
            return Err(ZapError::new(ErrorCode::Conflict));
        }
        match current {
            Some(cur) => {
                if cur.campaign_id.0 != rule.campaign_id.0 {
                    return Err(ZapError::new(ErrorCode::Conflict));
                }
                let n = checked_next(cur.revision)?;
                if rule.revision.0 == n.0 {
                    Ok(RecordWrite::Replace { expected: cur.revision, record: rule })
                } else {
                    Err(ZapError::new(ErrorCode::Conflict))
                }
            },
            None => {
                let n = checked_next(h.expected_revision)?;
                if rule.revision.0 == n.0 {
                    Ok(RecordWrite::Insert(rule))
                } else {
                    Err(ZapError::new(ErrorCode::Conflict))
                }
            },
        }
    }
}

/// A one-use exception binds the command's campaign, an active pause of that
/// campaign raised by the named rule, that rule while active, is unconsumed,
/// sits at the command's next revision and is new.
pub open spec fn exception_admissible(h: CommandFacts, e: ActionExceptionRecord, pause: PauseRecord, rule: StopRuleRecord, next: Revision, already_stored: bool) -> bool {
    &&& e.campaign_id == h.campaign_id
    &&& e.campaign_id == pause.campaign_id
    &&& e.campaign_id == rule.campaign_id
    &&& pause.status == PauseStatus::Active
    &&& pause.source == PauseSource::StopRule(e.stop_rule_id)
    &&& rule.active
    &&& !e.consumed
    &&& e.revision == next
    &&& !already_stored
}

/// Grants a one-use exception; `pause` and `rule` are the records it names and
/// `already_stored` whether its id is already recorded.
pub struct ActionExceptionGrantedCell;

impl ActionExceptionGrantedCell {
    pub fn apply(&self, h: &CommandFacts, payload: &ActionExceptionGranted, pause: Option<&PauseRecord>, rule: Option<StopRuleRecord>, already_stored: bool) -> (r: Result<ActionExceptionRecord, ZapError>)
        ensures
            (pause is None || rule is None) ==> r == Err::<ActionExceptionRecord, ZapError>(ZapError { code: ErrorCode::MissingReference, detail: ErrorDetail::Empty }),
            pause is Some && rule is Some && next_revision(h.expected_revision) is None
                ==> r == Err::<ActionExceptionRecord, ZapError>(ZapError { code: ErrorCode::InvalidValue, detail: ErrorDetail::Empty }),
            pause matches Some(p) ==> (rule matches Some(q) ==> (next_revision(h.expected_revision) matches Some(next) ==> (
                (r is Ok <==> exception_admissible(*h, payload.exception, *p, q, next, already_stored))
                && (r matches Ok(x) ==> x == payload.exception)
                && (r matches Err(e) ==> e.code == ErrorCode::Conflict)))),
    {
        let pause = match pause {
            None => {
                return Err(ZapError::new(ErrorCode::MissingReference));
            },
            Some(p) => p,
        };
        let rule = match rule {
            None => {
                return Err(ZapError::new(ErrorCode::MissingReference));
            },
            Some(q) => q,
        };
        let e = payload.exception;
        let next = checked_next(h.expected_revision)?;
        let source_ok = match pause.source {
            PauseSource::StopRule(id) => id.0 == e.stop_rule_id.0,
            PauseSource::Owner => false,
        };
        if e.campaign_id.0 != h.campaign_id.0 || e.campaign_id.0 != pause.campaign_id.0 || e.campaign_id.0 != rule.campaign_id.0
            || !matches!(pause.status, PauseStatus::Active) || !source_ok || !rule.active || e.consumed
            || e.revision.0 != next.0 || already_stored
        {
            return Err(ZapError::new(ErrorCode::Conflict));
        }
        Ok(e)
    }
}

/// Advances a problem's approach epoch exactly once from durable history: the
/// first epoch is one, each later one is the stored epoch plus one, and every
/// new epoch starts with no failed approach.
pub struct ApproachEpochAdvancedCell;

impl ApproachEpochAdvancedCell {
    pub fn apply(&self, h: &CommandFacts, payload: &ApproachEpochAdvanced, current: Option<ApproachEpochRecord>) -> (r: Result<RecordWrite<ApproachEpochRecord>, ZapError>)
        ensures
            (payload.epoch.epoch == 0 || payload.epoch.failed_approaches != 0) ==> r == Err::<RecordWrite<ApproachEpochRecord>, ZapError>(ZapError { code: ErrorCode::Conflict, detail: ErrorDetail::Empty }),
            r matches Ok(RecordWrite::Insert(x)) ==> current is None && x == payload.epoch && x.epoch == 1
                && next_revision(h.expected_revision) == Some(x.revision),
            r matches Ok(RecordWrite::Replace { expected, record }) ==> current matches Some(c) && expected == c.revision
                && record == payload.epoch && record.epoch == c.epoch + 1 && next_revision(c.revision) == Some(record.revision),
            payload.epoch.epoch > 0 && payload.epoch.failed_approaches == 0 ==> match current {
                None => (next_revision(h.expected_revision) matches Some(n) && payload.epoch.epoch == 1 && payload.epoch.revision == n) ==> r is Ok,
                Some(c) => (c.epoch < u64::MAX && payload.epoch.epoch == c.epoch + 1 && next_revision(c.revision) == Some(payload.epoch.revision)) ==> r is Ok,
            },
            r matches Err(e) ==> (e.code == ErrorCode::Conflict || e.code == ErrorCode::InvalidValue),
    {
        let epoch = payload.epoch;
        if epoch.epoch == 0 || epoch.failed_approaches != 0 {
            return Err(ZapError::new(ErrorCode::Conflict));
        }
        match current {
            Some(c) => {
                if c.epoch == u64::MAX {
                    return Err(ZapError::new(ErrorCode::Conflict));
                }
                let n = checked_next(c.revision)?;
                if epoch.epoch == c.epoch + 1 && epoch.revision.0 == n.0 {
                    Ok(RecordWrite::Replace { expected: c.revision, record: epoch })
                } else {
                    Err(ZapError::new(ErrorCode::Conflict))
                }
            },
            None => {
                let n = checked_next(h.expected_revision)?;
                if epoch.epoch == 1 && epoch.revision.0 == n.0 {
                    Ok(RecordWrite::Insert(epoch))
                } else {
                    Err(ZapError::new(ErrorCode::Conflict))
                }
            },
        }
    }
}

/// The Owner's choice on a change that required a decision.
#[derive(Clone, Copy, Debug, PartialEq, Eq, Structural)]
pub enum OwnerChangeChoice {
    Approve,
    Reject,
    Revise,
    Defer,
}

/// Where a change hold goes after the Owner decided.
#[derive(Clone, Copy, Debug, PartialEq, Eq, Structural)]
pub enum HoldStatus {
    Active,
    ApprovedApplying,
    RejectedRestoring,
    Deferred,
    Released,
}

/// An approved change applies, a rejected one restores, and a revised or
/// deferred one waits.
pub open spec fn decided_status(choice: OwnerChangeChoice) -> HoldStatus {
    match choice {
        OwnerChangeChoice::Approve => HoldStatus::ApprovedApplying,
        OwnerChangeChoice::Reject => HoldStatus::RejectedRestoring,
        OwnerChangeChoice::Revise | OwnerChangeChoice::Defer => HoldStatus::Deferred,
    }
}

pub fn hold_status_after(choice: OwnerChangeChoice) -> (r: HoldStatus)
    ensures
        r == decided_status(choice),
{
    match choice {
        OwnerChangeChoice::Approve => HoldStatus::ApprovedApplying,
        OwnerChangeChoice::Reject => HoldStatus::RejectedRestoring,
        OwnerChangeChoice::Revise | OwnerChangeChoice::Defer => HoldStatus::Deferred,
    }
}

} // verus!
