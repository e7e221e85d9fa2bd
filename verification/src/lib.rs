//! The core of a coding agent: everything that it decides, without the I/O.
//!
//! - Values: [`text`], [`json`], [`number`], [`js`], [`yaml`], [`paths`].
//! - The model layer: [`types`], [`codec`], [`event`], [`error`], [`transform`], [`validation`],
//!   [`sse`], and the Chat Completions protocol in [`completions_request`],
//!   [`completions_chunk`] and [`completions_run`].
//! - Runs of the agent: [`agent_event`], [`agent_tool`], [`agent_loop`].
//! - The journal of a session: [`session`].
//! - Prompts: [`template_parse`], [`template`], [`prompt_format`],
//!   [`prompt_symbols`], [`prompt`], [`system_prompt`], [`reminder`].
//! - What the host finds in its files: [`files`], [`frontmatter`], [`at_imports`],
//!   [`capability`], [`context_files`], [`project`], [`config_files`], [`system_md`],
//!   [`skills`].
//! - The command line and a scripted server: [`cli`], [`fake_upstream`].
//!
//! What holds of several functions together is stated and proved in the modules whose names end
//! in `_laws`, each beside the modules that it speaks of.
//!
//! A host performs the I/O: it asks the library what to do, does it, and tells what came of it.
pub mod text;
pub mod import_laws;
pub mod json;
pub mod types;
pub mod transform;
pub mod transform_laws;
pub mod error;
pub mod sse;
pub mod stream_laws;
pub mod detail_laws;
pub mod number;
pub mod validation;
pub mod validation_laws;
pub mod event;
pub mod event_laws;
pub mod completions_request;
pub mod request_laws;
pub mod completions_chunk;
pub mod chunk_laws;
pub mod call_laws;
pub mod completions_run;
pub mod codec;
pub mod codec_laws;
pub mod agent_event;
pub mod agent_tool;
pub mod agent_loop;
pub mod agent_laws;
pub mod loop_laws;
pub mod prompt_format;
pub mod prompt_laws;
pub mod prompt_symbols;
pub mod js;
pub mod template_parse;
pub mod template;
pub mod template_laws;
pub mod helper_laws;
pub mod tool_laws;
pub mod prompt;
pub mod session;
pub mod session_laws;
pub mod recovery_laws;
pub mod parse_laws;
pub mod paths;
pub mod place_laws;
pub mod value_laws;
pub mod order_laws;
pub mod yaml;
pub mod yaml_laws;
pub mod format_laws;
pub mod frontmatter;
pub mod frontmatter_laws;
pub mod files;
pub mod at_imports;
pub mod foreign;
pub mod capability;
pub mod context_files;
pub mod discovery_laws;
pub mod root_laws;
pub mod project;
pub mod config_files;
pub mod system_md;
pub mod skill_laws;
pub mod skills;
pub mod same;
pub mod reminder;
pub mod reminder_laws;
pub mod system_prompt;
pub mod cli;
pub mod cli_laws;
pub mod fake_upstream;
pub mod upstream_laws;
