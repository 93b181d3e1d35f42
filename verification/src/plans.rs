//! Scheduled backup-plan definitions, as the controller hands them over,
//! and the cache that holds the most recently fetched list.

use vstd::prelude::*;

verus! {

/// The execution request a plan carries: opaque to the scheduler, handed
/// through to the command executor unchanged.
pub struct RusticBackupRequest {
    pub repository: String,
    pub password: Option<String>,
    pub backend: Option<String>,
    pub options: Vec<(String, String)>,
    pub paths: Vec<String>,
    pub tags: Option<Vec<String>>,
    pub dry_run: Option<bool>,
}

/// One scheduled plan: identity, raw cron string, and its request payload.
pub struct SyncedBackupPlan {
    pub id: String,
    pub cron: String,
    pub request: RusticBackupRequest,
}

/// What the scheduler reads of a plan: its id and its cron string.
pub open spec fn plan_views(plans: Seq<SyncedBackupPlan>) -> Seq<(Seq<char>, Seq<char>)> {
    plans.map_values(|p: SyncedBackupPlan| (p.id@, p.cron@))
}

/// The most recently fetched list of plans; each successful fetch replaces
/// the whole contents.
pub struct PlanCache {
    plans: Vec<SyncedBackupPlan>,
}

impl View for PlanCache {
    type V = Seq<(Seq<char>, Seq<char>)>;

    closed spec fn view(&self) -> Seq<(Seq<char>, Seq<char>)> {
        plan_views(self.plans@)
    }
}

impl PlanCache {
    /// The empty cache a fresh process starts with.
    pub fn new() -> (r: PlanCache)
        ensures
            r@ == Seq::<(Seq<char>, Seq<char>)>::empty(),
    {
        let r = PlanCache { plans: Vec::new() };
        proof {
            assert(r@ =~= Seq::<(Seq<char>, Seq<char>)>::empty());
        }
        r
    }

    /// Swaps in a freshly fetched list, replacing the previous contents
    /// entirely.
    pub fn replace_all(&mut self, plans: Vec<SyncedBackupPlan>)
        ensures
            final(self)@ == plan_views(plans@),
            final(self).entries_len() == plans@.len(),
    {
        self.plans = plans;
    }

    pub open spec fn entries_len(&self) -> nat {
        self@.len()
    }

    pub fn len(&self) -> (r: usize)
        ensures
            r == self@.len(),
    {
        self.plans.len()
    }

    /// Borrows the cached list for one scheduling tick.
    pub fn snapshot(&self) -> (r: &Vec<SyncedBackupPlan>)
        ensures
            plan_views(r@) == self@,
    {
        &self.plans
    }
}

} // verus!
