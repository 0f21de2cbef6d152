pub mod completion_recovery;
pub mod context_recovery;
pub mod degrade;
pub mod memory_compress;
pub mod memory_facts;
pub mod models;
pub mod plan_memory;
pub mod retrieval_policy;
pub mod session_summary;
pub mod sliding_window;
pub mod text;
pub mod token_budget;
pub mod autonomous_plan;
pub mod verify_spec;
pub mod harness;
pub mod autonomous_runner;
pub mod tool_markup;
pub mod vector_memory;
pub mod providers;
pub mod harness_fixtures;
pub mod workspace_scope;
pub mod continuation;
pub mod prompt_format;
pub mod agent_tools;
pub mod chat_commands;
pub mod autonomous_prompts;
pub mod autonomous_run;

pub mod json_value;
pub mod relaxed_args;
pub mod gemma4;
pub mod tool_call_parse;
pub mod openai_messages;
pub mod tool_results;
pub mod tool_loop;
pub mod toolchain_probe;
pub mod memory_chunks;
pub mod lmstudio;
pub mod inference_gate;
pub mod embeddings;
pub mod plan_parse;
pub mod autonomous_turn;
