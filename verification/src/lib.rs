//! Workspaces whose sessions outlive the editor that opened them.

pub mod adopt;
pub mod adopt_laws;
pub mod bulk;
pub mod button_laws;
pub mod calls;
pub mod cleanup;
pub mod cleanup_laws;
pub mod confirm;
pub mod confirm_laws;
pub mod daemon;
pub mod disconnected_overlay;
pub mod discovery_laws;
pub mod edit_prediction_button;
pub mod enrich;
pub mod entry;
pub mod entry_laws;
pub mod events;
pub mod laws;
pub mod listing;
pub mod listing_laws;
pub mod missing_tab;
pub mod naming_laws;
pub mod opening;
pub mod opening_laws;
pub mod order;
pub mod outlets;
pub mod paths;
pub mod reconcile;
pub mod reconcile_laws;
pub mod registry;
pub mod registry_laws;
pub mod rename_workspace_modal;
pub mod replay;
pub mod reset;
pub mod row_display;
pub mod scope;
pub mod scope_laws;
pub mod service;
pub mod session_backend;
pub mod session_laws;
pub mod sessions;
pub mod sidebar_laws;
pub mod snapshot;
pub mod store;
pub mod store_laws;
pub mod stream_laws;
pub mod terminal_agents;
pub mod terminal_laws;
pub mod terminal_pane;
pub mod text;
pub mod upkeep_laws;
pub mod view_laws;
pub mod wording_laws;
pub mod workspace;
pub mod workspace_sidebar;
pub mod workspace_view;
pub mod worktree_metadata_store;
