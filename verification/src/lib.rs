//! Policy-driven ZFS snapshot management: configuration, planning, execution
//! decisions, status summaries and notification messages.
pub mod adoption;
pub mod almanac;
pub mod bounds;
pub mod calendar;
pub mod census;
pub mod command;
pub mod complaint;
pub mod conduct;
pub mod config;
pub mod discretion;
pub mod dispatch;
pub mod division;
pub mod document;
pub mod environment;
pub mod error;
pub mod executor;
pub mod fidelity;
pub mod inheritance;
pub mod inlining;
pub mod integer;
pub mod listing;
pub mod migration;
pub mod model;
pub mod names;
pub mod naming;
pub mod notification;
pub mod orders;
pub mod payload;
pub mod planner;
pub mod policy;
pub mod provision;
pub mod readback;
pub mod recognition;
pub mod rendering;
pub mod rendition;
pub mod retention;
pub mod safety;
pub mod sanoid;
pub mod schedule;
pub mod schema;
pub mod shorthand;
pub mod sort;
pub mod status;
pub mod strictness;
pub mod text;
pub mod timing;
pub mod upshot;
pub mod validity;
pub mod vocabulary;
pub mod webhook;
pub mod zfs;
