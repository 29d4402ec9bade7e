//! The logic of the Steward launcher and its plugin platform.

pub mod calc;
pub mod calc_laws;
pub mod calendar;
pub mod calendar_laws;
pub mod call_laws;
pub mod desktop;
pub mod desktop_laws;
pub mod engine;
pub mod form;
pub mod host;
pub mod host_laws;
pub mod hotkeys;
pub mod icons;
pub mod input;
pub mod input_laws;
pub mod json;
pub mod launcher;
pub mod launcher_laws;
pub mod link;
pub mod link_laws;
pub mod lunar;
pub mod manifest;
pub mod manifest_laws;
pub mod model_laws;
pub mod order;
pub mod panel;
pub mod panel_laws;
pub mod pattern;
pub mod protocol;
pub mod protocol_laws;
pub mod registry;
pub mod results;
pub mod route;
pub mod route_laws;
pub mod scanner;
pub mod search;
pub mod search_bar;
pub mod search_laws;
pub mod settings;
pub mod settings_laws;
pub mod storage;
pub mod storage_laws;
pub mod table;
pub mod text;
pub mod text_laws;
pub mod view_laws;
pub mod views;
