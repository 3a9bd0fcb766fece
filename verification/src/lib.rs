use vstd::prelude::*;

pub mod calendar;
pub mod text;
pub mod util;
pub mod i18n;
pub mod api;
pub mod config;
pub mod state;
pub mod edit;
pub mod view;
pub mod demo;
pub mod popup;
pub mod ui;

verus! {
}
