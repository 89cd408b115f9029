//! The core of a command runner: the analysis of a manifest of recipes,
//! variables, aliases, settings and modules, and the decisions of a run of
//! its recipes.
//!
//! A manifest is checked and resolved by the [`analyzer`]. What it accepts
//! is a [`justfile`]: a tree of modules in which every name is resolved.
//! A command line is split into groups by a [`module`], and a [`runner`]
//! says, step by step, what is to be evaluated and run.

pub mod alias;
pub mod analysis;
pub mod analyzer;
pub mod assignment;
pub mod assignment_resolver;
pub mod capitalized;
pub mod collision;
pub mod compilation_error;
pub mod compilation_error_kind;
pub mod context;
pub mod entry;
pub mod expression;
pub mod fault;
pub mod function;
pub mod graph;
pub mod group;
pub mod item;
pub mod items;
pub mod justfile;
pub mod keyed;
pub mod line;
pub mod memo;
pub mod module;
pub mod namespace;
pub mod parameter;
pub mod parse;
pub mod pretty;
pub mod recipe;
pub mod recipe_resolver;
pub mod runner;
pub mod runtime_error;
pub mod scope;
pub mod setting;
pub mod shape;
pub mod sorted;
pub mod sorting;
pub mod strings;
pub mod submodule;
pub mod suggestion;
pub mod suite;
pub mod table;
pub mod token;
pub mod unindent;
pub mod warning;
