//! Core library of the daily kanban board: text editing state, vi-style
//! modal editing, item and board bookkeeping, link parsing and settings.

pub mod text;
pub mod text_input;
pub mod vi;
pub mod ids;
pub mod item;
pub mod storage;
pub mod board;
pub mod category;
pub mod cli_state;
pub mod terminal;
pub mod listing;
pub mod selection;
pub mod link;
pub mod i18n;
pub mod config;
pub mod viewer;
pub mod theme;
pub mod editor;
pub mod commands;
pub mod kanban;
