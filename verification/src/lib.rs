//! A change, review and integration ledger over Git.
pub mod aggregate;
pub mod attribution;
pub mod audit;
pub mod begin;
pub mod bundle;
pub mod chain;
pub mod changelog;
pub mod claims;
pub mod closing;
pub mod context;
pub mod debts;
pub mod dependency;
pub mod diff;
pub mod digest;
pub mod doctor;
pub mod event;
pub mod evidence;
pub mod findings;
pub mod forge;
pub mod fork;
pub mod graph;
pub mod identity;
pub mod ids;
pub mod import;
pub mod inbox;
pub mod input;
pub mod integrate;
pub mod items;
pub mod json;
pub mod listing;
pub mod merge;
pub mod messages;
pub mod metadata;
pub mod model;
pub mod observe;
pub mod order;
pub mod passes;
pub mod percentile;
pub mod queue;
pub mod report;
pub mod rescue;
pub mod review;
pub mod revisions;
pub mod rework;
pub mod rewrite;
pub mod runs;
pub mod sandbox;
pub mod state;
pub mod stats;
pub mod table;
pub mod text;
pub mod time;
pub mod timeline;
pub mod verify;
pub mod wrap;
pub mod writability;
