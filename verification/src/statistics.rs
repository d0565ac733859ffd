//! Counts over a whole store.
use crate::desktop::Desktop;
use crate::ids::VirtualWorkspaceId;
use crate::slots::has_size;
use crate::store::WorkspaceStore;
use crate::windows::WindowStore;
use crate::workspace::WorkspaceStats;
use std::collections::HashMap;
use vstd::prelude::*;

verus! {

broadcast use vstd::std_specs::hash::group_hash_axioms;

impl Desktop {
    /// The counts are those of this store and these windows.
    pub open spec fn counted_in(self, stats: WorkspaceStats) -> bool {
        &&& has_size(self.store.entries.dom(), stats.total_workspaces as nat)
        &&& stats.total_windows == self.windows.assignments.order.len()
        &&& has_size(self.store.active.dom(), stats.active_spaces as nat)
        &&& forall|id: VirtualWorkspaceId| #[trigger]
            self.store.entries.contains_key(id) ==> stats.workspace_window_counts@.contains_key(
                id.number(),
            ) && stats.workspace_window_counts@[id.number()] == self.windows.windows_in(
                self.store.entries[id].space,
                id,
            ).len()
        &&& forall|number: u64| #[trigger]
            stats.workspace_window_counts@.contains_key(number) ==> exists|id: VirtualWorkspaceId|
                self.store.entries.contains_key(id) && #[trigger] id.number() == number
    }
}

impl WorkspaceStore {
    pub fn get_stats(&self, window_store: &WindowStore) -> (r: WorkspaceStats)
        ensures
            crate::desktop::desktop(*self, *window_store).counted_in(r),
    {
        let ids = self.workspace_ids();
        let mut counts: HashMap<u64, usize> = HashMap::new();
        let mut i: usize = 0;
        while i < ids.len()
            invariant
                i <= ids.len(),
                ids@.to_set() == self@.entries.dom(),
                forall|k: int|
                    0 <= k < i ==> counts@.contains_key((#[trigger] ids@[k]).number())
                        && counts@[ids@[k].number()] == window_store@.windows_in(
                        self@.entries[ids@[k]].space,
                        ids@[k],
                    ).len(),
                forall|number: u64| #[trigger]
                    counts@.contains_key(number) ==> exists|k: int|
                        0 <= k < i && (#[trigger] ids@[k]).number() == number,
            decreases ids.len() - i,
        {
            let id = ids[i];
            let ghost before = counts@;
            proof {
                assert(ids@.to_set().contains(ids@[i as int]));
            }
            if let Some(space) = self.workspace_space(id) {
                counts.insert(id.as_raw(), window_store.workspace_window_count(space, id));
            }
            proof {
                assert forall|k: int| 0 <= k < i + 1 implies counts@.contains_key(
                    (#[trigger] ids@[k]).number(),
                ) && counts@[ids@[k].number()] == window_store@.windows_in(
                    self@.entries[ids@[k]].space,
                    ids@[k],
                ).len() by {
                    crate::ids::number_of_slot(ids@[k], id);
                }
                assert forall|number: u64| #[trigger]
                    counts@.contains_key(number) implies exists|k: int|
                    0 <= k < i + 1 && (#[trigger] ids@[k]).number() == number by {
                    if number == id.number() {
                        assert(ids@[i as int].number() == number);
                    } else {
                        assert(before.contains_key(number));
                        let k = choose|k: int|
                            0 <= k < i && (#[trigger] ids@[k]).number() == number;
                        assert(ids@[k].number() == number);
                    }
                }
            }
            i += 1;
        }
        proof {
            assert forall|id: VirtualWorkspaceId| #[trigger]
                self@.entries.contains_key(id) implies counts@.contains_key(id.number())
                && counts@[id.number()] == window_store@.windows_in(
                self@.entries[id].space,
                id,
            ).len() by {
                assert(ids@.to_set().contains(id));
                let k = choose|k: int| 0 <= k < ids.len() && ids@[k] == id;
                assert(counts@.contains_key(ids@[k].number()));
            }
            assert forall|number: u64| #[trigger] counts@.contains_key(number) implies exists|
                id: VirtualWorkspaceId,
            | self@.entries.contains_key(id) && #[trigger] id.number() == number by {
                let k = choose|k: int| 0 <= k < ids.len() && (#[trigger] ids@[k]).number() == number;
                assert(ids@.to_set().contains(ids@[k]));
                assert(self@.entries.contains_key(ids@[k]));
            }
        }
        WorkspaceStats {
            total_workspaces: self.workspace_count(),
            total_windows: window_store.workspace_assignment_count(),
            active_spaces: self.active_count(),
            workspace_window_counts: counts,
        }
    }
}

} // verus!
