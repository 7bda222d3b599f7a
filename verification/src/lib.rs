//! Core rules of the Luna Mux terminal workbench.
pub mod bookmarks;
pub mod clock;
pub mod control_acts;
pub mod control_catalog;
pub mod control_contract;
pub mod control_diagnostics;
pub mod control_effects;
pub mod control_events;
pub mod control_idempotency;
pub mod control_lists;
pub mod control_mux;
pub mod control_outcomes;
pub mod control_permissions;
pub mod control_replies;
pub mod control_requests;
pub mod control_service;
pub mod database;
pub mod database_calls;
pub mod database_pane_ui;
pub mod database_runtime;
pub mod desktop;
pub mod doctor;
pub mod doctor_checks;
pub mod doctor_environment;
pub mod doctor_log;
pub mod doctor_probe;
pub mod doctor_wsl;
pub mod dump_plan;
pub mod dump_reading;
pub mod dump_run;
pub mod dump_script;
pub mod grok_build_adapter;
pub mod ids;
pub mod initialization;
pub mod json;
pub mod legacy_agent_hook_cleanup;
pub mod lifecycle;
pub mod local_pty;
pub mod mux_layout;
pub mod mux_store;
pub mod mysql_text;
pub mod notifications;
pub mod number_text;
pub mod opening;
pub mod ordered_text;
pub mod postgres_text;
pub mod remote_import;
pub mod rows;
pub mod saved_connections;
pub mod sql_dump;
pub mod sql_query;
pub mod sql_text;
pub mod stored_imports;
pub mod stored_records;
pub mod stored_transfers;
pub mod table;
pub mod text;
pub mod text_map;
