//! Verified SQL metrics.
//!
//! [`SqlAnalyzer`] settles the dialect of a SQL text, parses it, and computes
//! its metrics together with the evidence for them. What the parser makes of a
//! text is taken as it is; everything behind it is proved.
//!
//! - text and places: [`text`], [`span`], [`order`], [`names`];
//! - the syntax tree: [`kind`], [`word`], [`tree`], [`rows`], [`measure`];
//! - dialects and parsing: [`grammar`], [`dialect`];
//! - queries: [`joins`], [`clauses`], [`predicates`], [`subqueries`],
//!   [`output`], [`ctes`] with [`chain`], [`halstead`], [`query_shape`];
//! - statements and objects: [`statements`], [`objects`], [`object_scan`];
//! - procedural code: [`token`], [`control`], [`scanner`], [`units`],
//!   [`unit_scan`], [`regions`], [`procedural`];
//! - a file as a whole: [`facts`], [`loc`], [`composite`], [`metric_key`],
//!   [`metrics`], [`spaces`], [`contributions`], [`diagnostics`], [`analyzer`];
//! - laws of a file as a whole: [`evidence`], [`metric_laws`], [`placement`],
//!   [`answers`], [`score_laws`], [`published_laws`], [`report_laws`],
//!   [`file_laws`], [`text_laws`];
//! - laws of what is counted, node by node: [`tree_laws`], [`vocabulary_laws`],
//!   [`scope_laws`], [`shape_laws`],
//!   [`clause_laws`], [`query_laws`], [`output_laws`], [`cte_laws`],
//!   [`statement_laws`], [`object_laws`], [`touch_laws`];
//! - laws of procedural code: [`flow_laws`], [`step_laws`], [`region_laws`],
//!   [`unit_laws`];
//! - developer tools: [`antlr`], [`codegen`], [`codegen_report`],
//!   [`contribution_report`], with [`codegen_laws`].

pub mod analyzer;
pub mod answers;
pub mod antlr;
pub mod chain;
pub mod clause_laws;
pub mod clauses;
pub mod codegen;
pub mod codegen_laws;
pub mod codegen_report;
pub mod composite;
pub mod contribution_report;
pub mod contributions;
pub mod control;
pub mod cte_laws;
pub mod ctes;
pub mod diagnostics;
pub mod dialect;
pub mod evidence;
pub mod facts;
pub mod file_laws;
pub mod flow_laws;
pub mod grammar;
pub mod halstead;
pub mod joins;
pub mod kind;
pub mod loc;
pub mod measure;
pub mod metric_key;
pub mod metric_laws;
pub mod metrics;
pub mod names;
pub mod object_laws;
pub mod object_scan;
pub mod objects;
pub mod order;
pub mod output;
pub mod output_laws;
pub mod placement;
pub mod predicates;
pub mod procedural;
pub mod published_laws;
pub mod query_laws;
pub mod query_shape;
pub mod region_laws;
pub mod regions;
pub mod report_laws;
pub mod rows;
pub mod scanner;
pub mod scope_laws;
pub mod score_laws;
pub mod shape_laws;
pub mod spaces;
pub mod span;
pub mod statement_laws;
pub mod statements;
pub mod step_laws;
pub mod subqueries;
pub mod text;
pub mod text_laws;
pub mod token;
pub mod touch_laws;
pub mod tree;
pub mod tree_laws;
pub mod unit_laws;
pub mod unit_scan;
pub mod units;
pub mod vocabulary_laws;
pub mod word;

pub use analyzer::SqlAnalyzer;
pub use metric_key::is_published_metric_key;
