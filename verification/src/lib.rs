//! Application usage tracking, permission auditing and sandbox policy
//! evaluation.

pub mod clock;
pub mod keyed;
pub mod ranking;
pub mod text;
pub mod risk_score;
pub mod tally;
pub mod process_tree;
pub mod sandbox_evaluator;
pub mod sandbox_profiles;
pub mod policy_engine;
pub mod paths;
pub mod bounded;
pub mod sandbox;
pub mod data_flow;
pub mod permissions;
pub mod compliance;
pub mod tracker;
pub mod network_audit;
pub mod reporter;
pub mod network_acl;
pub mod autostart;
pub mod background_activity;
pub mod install_tracker;
pub mod uninstall_tracker;
pub mod data_exfil_monitor;
pub mod integrity_monitor;
pub mod permission_audit;
pub mod app_inventory;
pub mod data_attribution;
pub mod traffic_meter;
pub mod cert_tracker;
pub mod quarantine;
pub mod access_log;
pub mod usage_stats;
pub mod update_tracker;
pub mod alert;
pub mod policy;
pub mod launch_counter;
pub mod process_monitor;
pub mod archiver;
pub mod resource_quota;
pub mod telemetry_stream;
