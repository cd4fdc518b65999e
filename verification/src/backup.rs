use vstd::prelude::*;

verus! {

use crate::session::now_ts;

/// State of one backup task.
pub enum BackupStatus {
    Running,
    Completed,
    Failed(String),
}

/// One backup task: a random 128-bit identifier, a display name, its state,
/// and start and finish times as Unix seconds.
pub struct Backup {
    pub id: u128,
    pub name: String,
    pub status: BackupStatus,
    pub started_at: i64,
    pub finished_at: Option<i64>,
}

/// Relies on uuid's `Uuid::new_v4` and `as_u128`: a random identifier;
/// nothing is promised of the value.
#[verifier::external_body]
fn new_backup_id() -> u128 {
    uuid::Uuid::new_v4().as_u128()
}

impl Backup {
    /// A new task: freshly identified, running, started now, not finished.
    pub fn new(name: String) -> (r: Self)
        ensures
            r.name == name,
            r.status is Running,
            r.finished_at is None,
    {
        Backup {
            id: new_backup_id(),
            name,
            status: BackupStatus::Running,
            started_at: now_ts(),
            finished_at: None,
        }
    }

    /// Marks the task completed, stamping the finish time; identity, name
    /// and start time stay.
    pub fn complete(self) -> (r: Self)
        ensures
            r.status is Completed,
            r.finished_at is Some,
            r.id == self.id,
            r.name == self.name,
            r.started_at == self.started_at,
    {
        Backup { status: BackupStatus::Completed, finished_at: Some(now_ts()), ..self }
    }

    /// Marks the task failed with the error text, stamping the finish time;
    /// identity, name and start time stay.
    pub fn fail(self, error: String) -> (r: Self)
        ensures
            (r.status matches BackupStatus::Failed(e) && e == error),
            r.finished_at is Some,
            r.id == self.id,
            r.name == self.name,
            r.started_at == self.started_at,
    {
        Backup { status: BackupStatus::Failed(error), finished_at: Some(now_ts()), ..self }
    }
}

} // verus!
