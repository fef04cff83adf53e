//! What each command of the bot decides and replies with.

pub mod bot_status;
pub mod generate;
pub mod model;
pub mod model_switch;
pub mod prompt_refresh;
pub mod spweeboard;
