//! Hook dispatch and agent-tool bridging for programs that run as units of an
//! orchestration agent.
//!
//! The agent starts the program under the name of a lifecycle event. The
//! program registers one callback per event and dispatches once; the callback
//! talks back to the agent through its command-line tools. Every tool call
//! goes through a process runner that the caller supplies, so that the rules
//! of the protocol (argument lists, privilege elevation, decoding and parsing
//! of replies, error mapping) are stated and proved here, whatever the
//! operating system does.
pub mod bridge;
pub mod config;
pub mod dump;
pub mod error;
pub mod hooks;
pub mod relation;
pub mod text;
pub mod tools;

pub use crate::bridge::{decode_text, process_output, run_command, run_command_no_args,
    CommandOutcome};
pub use crate::config::{parse_config, ConfigMap};
pub use crate::error::JujuError;
pub use crate::hooks::{dispatch, hook, process_hooks, Hook};
pub use crate::relation::{parse_relations, Relation};
pub use crate::tools::{action_fail, action_get, action_set, close_port, config_get,
    config_get_all, is_leader, log, open_port, reboot, relation_get, relation_get_by_unit,
    relation_ids, relation_list, relation_set, status_set, storage_get, storage_get_location,
    storage_list, unit_get_private_addr, unit_get_public_addr, Context, Status, StatusType,
    Transport};
