use vstd::prelude::*;

pub mod text;
pub mod decimal;
pub mod find;
pub mod places;
pub mod paths;
pub mod markdown;
pub mod links;
pub mod remote;
pub mod scheme;
pub mod zoom;
pub mod window;
pub mod watch;
pub mod js;
pub mod view;
pub mod outline;
pub mod settings;
pub mod chrome;
pub mod export;
pub mod control;
pub mod editor;

verus! {

} // verus!
