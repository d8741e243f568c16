//! Decision logic of a long-only futures desk: indicators, strategies, risk
//! gates, order sizing and the live order sequences, all on plain values.
pub mod dec;
pub mod app;
pub mod backtest;
pub mod config;
pub mod continuation;
pub mod dayrisk;
pub mod desk_orchestrator;
pub mod desk_schedule;
pub mod engine;
pub mod errorlog;
pub mod errors;
pub mod exchange;
pub mod flatten;
pub mod indicators;
pub mod journal;
pub mod json;
pub mod keys;
pub mod live;
pub mod models;
pub mod momentum;
pub mod money;
pub mod monitor;
pub mod openmeta;
pub mod pidlock;
pub mod poll;
pub mod profit;
pub mod ranking;
pub mod regime;
pub mod render;
pub mod report;
pub mod scalp;
pub mod sessions;
pub mod setup_score;
pub mod signals;
pub mod signing;
pub mod sim;
pub mod snapshot;
pub mod symbols;
pub mod telegram;
pub mod text;
pub mod trail;
pub mod trend;
pub mod tui;
pub mod view;
pub mod wire;
