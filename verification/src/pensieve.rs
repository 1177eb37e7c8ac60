//! The assembled system: a normalised snapshot manager for one table. The
//! discovery of input files, the store itself and the load are the caller's;
//! what is handed over here is the aligned operation stream under its
//! cursor, named after the table it reconstructs.

use vstd::prelude::*;
use crate::manager::SnapshotManager;

verus! {

/// A normalised, navigable snapshot of one table.
pub struct Pensieve {
    pub manager: SnapshotManager,
    pub table_name: String,
}

impl Pensieve {
    /// Wrap an aligned snapshot manager and the name of its table.
    pub fn new(manager: SnapshotManager, table_name: String) -> (r: Pensieve)
        requires
            manager.wf(),
        ensures
            r.manager == manager,
            r.table_name == table_name,
            r.manager.wf(),
    {
        Pensieve { manager, table_name }
    }

    pub fn get_snapshot_position(&self) -> (r: usize)
        ensures
            r == self.manager.current_position,
    {
        self.manager.get_position()
    }

    /// The timestamp of the operation the snapshot is aligned to, if any.
    pub fn get_snapshot_timestamp(&self) -> (r: Option<&String>)
        ensures
            match r {
                Some(s) => (self.manager.current_position as int) < self.manager.ops().len()
                    && self.manager.ops()[self.manager.current_position as int].timestamp == Some(
                    s@,
                ),
                None => (self.manager.current_position as int) >= self.manager.ops().len()
                    || self.manager.ops()[self.manager.current_position as int].timestamp is None,
            },
    {
        self.manager.get_timestamp()
    }

    pub fn get_table_name(&self) -> (r: &str)
        ensures
            r@ == self.table_name@,
    {
        self.table_name.as_str()
    }

    /// Mutable access to the underlying snapshot manager.
    pub fn get_manager_mut(&mut self) -> (r: &mut SnapshotManager)
        ensures
            *r == old(self).manager,
            final(self).manager == *final(r),
            final(self).table_name == old(self).table_name,
    {
        &mut self.manager
    }

    /// The underlying snapshot manager.
    pub fn into_manager(self) -> (r: SnapshotManager)
        ensures
            r == self.manager,
    {
        self.manager
    }
}

} // verus!
