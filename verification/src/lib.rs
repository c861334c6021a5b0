//! Dead man's switch monitoring for cron jobs and background services.

pub mod auth;
pub mod cli;
pub mod config;
pub mod engine;
pub mod error;
pub mod fields;
pub mod model;
pub mod notify;
pub mod outside;
pub mod schedule;
pub mod store;
pub mod text;
pub mod web;
