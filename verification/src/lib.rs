//! Bash-script minification toolkit: quote-aware line transforms
//! (strip, flatten, join), local-variable discovery and renaming,
//! an import bundler, and annotation-driven documentation helpers.

mod text;
mod quote;
mod strip;
mod flatten;
mod pattern;
mod discover;
mod obfuscate;
mod join;
mod pipeline;
mod bundle;
mod model;
mod toc;
pub mod doc_merge;
pub mod render;
mod field;
mod cmdtools;
mod jsontool;
pub mod doc_bash;
pub mod doc_rust;

pub use quote::QuoteTracker;
pub use strip::should_strip;
pub use strip::strip_lines;
pub use flatten::flatten_line;
pub use flatten::flatten_lines;
pub use pattern::IgnorePattern;
pub use discover::discover_variables;
pub use discover::split_outside_quotes;
pub use obfuscate::build_rename_map;
pub use obfuscate::Obfuscator;
pub use join::join_newlines;
pub use pipeline::parse_ignore_patterns;
pub use pipeline::MinifyConfig;
pub use pipeline::MinifyError;
pub use pipeline::minify;
pub use bundle::brace_depth_delta;
pub use bundle::extract_target;
pub use bundle::{BundleConfig, Bundler, BundleStep, BundleError, MAX_DEPTH};
pub use render::{Renderer, RendererKind, MarkdownRenderer, JsonRenderer, HtmlRenderer, create_renderer, render_arg, render_set, render_exitcode, unindent, derive_output_name, parse_file, filter_functions};
pub use model::{Document, FileDoc, FunctionDoc, SectionInfo, ArgEntry, OptionEntry, ImplLang, Implementation};
pub use field::{FieldDef, field_name, parse_field, format_field, field_lookup, field_positional};
pub use cmdtools::{levenshtein, suggest_command, check_required_flags};
pub use jsontool::{json_escape, sanitize_tool_name, argsh_type_to_json, extract_subcommands, extract_flags, extract_flags_for_llm, write_tool_properties, SubCmd, FlagInfo, JsonValue, parse_flat_json_object};
pub use toc::{render_toc_link, render_toc_item, github_slug};
pub use doc_merge::{merge, derive_module_name, canonical_name};

