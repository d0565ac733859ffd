# virtual_workspaces

Virtual workspaces on top of the native spaces of a desktop: which workspaces a
space has and shows, which windows are in them, how workspaces are numbered,
stepped through, moved between displays, shared by all displays, checked after
they were read from disk, and how app rules place a window.

`src/` is the library. Every function in it is verified by Verus against a
contract over mathematical models: `StoreState` (what a workspace store holds),
`WindowState` (where the windows are) and `Desktop` (both together). What an
operation does is a spec function on these models; what holds of operations
together is stated and proved in `soundness.rs`, `relocation.rs`,
`topology.rs`, `remapping.rs`, `numbering.rs`, `stepping.rs`,
`configuration.rs`, `persistence.rs`, `restoring.rs` and `laws.rs`.

The only code that is trusted is in `slots.rs`: the slot map of the `slotmap`
crate, which hands out the identifiers of workspaces. Slots are taken in ascending
order and never a second time, so workspaces are numbered in the order of their
creation.

`app/` holds what is not verified: where a hidden window is put, which is
floating-point arithmetic, and the stored form of the types.
