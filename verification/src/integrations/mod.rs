//! What runs around an agent's tool calls.
pub mod check_laws;
pub mod codex_hook;
pub mod edit_laws;
pub mod execution;
pub mod hook_laws;
pub mod hook_result;
pub mod mask;
pub mod mask_laws;
pub mod post_edit_check;
pub mod post_edit_state;
pub mod project_check;
pub mod project_laws;
pub mod run_laws;
