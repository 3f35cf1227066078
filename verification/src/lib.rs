//! A futures trading engine: candles, swings, patterns and risk; the life of its orders; the
//! records it keeps; and a replay of those records.

pub mod abc_brc;
pub mod arguments;
pub mod backtest;
pub mod bignum;
pub mod candle;
pub mod config;
pub mod corpus;
pub mod fibonacci;
pub mod fixed;
pub mod health;
pub mod instrument;
pub mod json;
pub mod ladder;
pub mod laws;
pub mod live;
pub mod metrics;
pub mod number;
pub mod okx_interface;
pub mod order;
pub mod order_manager;
pub mod parse;
pub mod persistence;
pub mod portfolio;
pub mod position;
pub mod private_ws;
pub mod reconciliation;
pub mod reconnect;
pub mod risk;
pub mod root;
pub mod rounding;
pub mod signing;
pub mod swing;
pub mod synthetic;
pub mod text;
pub mod trader;
pub mod ws_client;
pub mod ws_types;
