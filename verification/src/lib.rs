//! Virtual workspaces on native spaces: which workspaces each space has and
//! shows, how they are numbered, and which windows belong to them.
//!
//! `store` and the modules that extend it hold the code; `state` and `desktop`
//! say what it does; `soundness`, `relocation`, `topology`, `remapping`,
//! `numbering`, `configuration`, `persistence`, `stepping` and `laws` prove
//! what holds of it as a whole. `readings`, `provisions`, `assigning`,
//! `admission`, `changes`, `moves` and `fitting` say, operation by operation,
//! what comes of it and what it leaves alone.
pub mod activation;
pub mod admission;
pub mod app_rules;
pub mod assigning;
pub mod changes;
pub mod configuration;
pub mod creation;
pub mod desktop;
pub mod fitting;
pub mod focus;
pub mod growth;
pub mod ids;
pub mod laws;
pub mod layout;
pub mod limits;
pub mod membership;
pub mod moves;
pub mod numbering;
pub mod order;
pub mod ordering;
pub mod persistence;
pub mod placement;
pub mod provisions;
pub mod readings;
pub mod relocation;
pub mod remapping;
pub mod restoring;
pub mod roster;
pub mod ruling;
pub mod selectors;
pub mod sequences;
pub mod settings;
pub mod slots;
pub mod soundness;
pub mod state;
pub mod statistics;
pub mod stepping;
pub mod store;
pub mod table;
pub mod text;
pub mod topology;
pub mod windows;
pub mod workspace;

pub use app_rules::AppRuleDecision;
pub use app_rules::AppRuleEffects;
pub use app_rules::AppRuleRejection;
pub use app_rules::AppRuleResult;
pub use app_rules::WindowPosition;
pub use app_rules::WindowSize;
pub use ids::SpaceId;
pub use ids::VirtualWorkspaceId;
pub use ids::WindowId;
pub use layout::LayoutMode;
pub use layout::LayoutSettings;
pub use layout::LayoutSystemKind;
pub use persistence::TopologyFault;
pub use selectors::Direction;
pub use selectors::DisplayCycle;
pub use selectors::DisplaySelector;
pub use selectors::RestoreScope;
pub use selectors::RestoreSource;
pub use selectors::WorkspaceSelector;
pub use settings::VirtualWorkspaceSettings;
pub use settings::WorkspaceDisplayAssignment;
pub use settings::WorkspaceLayoutRule;
pub use settings::MAX_WORKSPACES;
pub use store::WorkspaceStore;
pub use windows::WindowRecord;
pub use windows::WindowStore;
pub use windows::WindowWorkspaceInfo;
pub use workspace::VirtualWorkspace;
pub use workspace::WorkspaceError;
pub use workspace::WorkspaceStats;
