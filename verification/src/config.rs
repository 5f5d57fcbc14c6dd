//! The checks that configuration files must pass once read.
use vstd::prelude::*;
use crate::text::{all_space, blank};

verus! {

/// The Server's Telegram settings.
#[derive(Debug)]
pub struct TelegramConfig {
    pub bot_token: String,
}

/// A Client configuration names a nonzero port.
pub fn check_client(port: u16) -> (r: Result<(), String>)
    ensures
        match r {
            Ok(()) => port != 0,
            Err(e) => port == 0 && e@ == "port must be nonzero"@,
        },
{
    if port == 0 {
        return Err(crate::text::owned("port must be nonzero"));
    }
    Ok(())
}

/// A Server configuration listens on a nonzero port and has a Bot token that is not blank.
pub fn check_server(port: u16, telegram: &TelegramConfig) -> (r: Result<(), String>)
    ensures
        match r {
            Ok(()) => port != 0 && !all_space(telegram.bot_token@),
            Err(e) => (port == 0 || all_space(telegram.bot_token@)) && e@
                == "listen requires a nonzero port and bot_token must not be empty"@,
        },
{
    if port == 0 || blank(telegram.bot_token.as_str()) {
        return Err(crate::text::owned("listen requires a nonzero port and bot_token must not be empty"));
    }
    Ok(())
}

} // verus!
