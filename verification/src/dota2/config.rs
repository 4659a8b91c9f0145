//! Settings for the Dota 2 source.

use vstd::prelude::*;

verus! {

#[derive(Debug)]
pub struct DotaConfig {
    /// The local port to which the game sends its state.
    pub port: u16,
    /// A token that the game must send along, where one is set.
    pub auth_token: Option<String>,
    /// The player's name; the name that the game sends where none is set.
    pub player_name: Option<String>,
}

impl Default for DotaConfig {
    fn default() -> (r: Self)
        ensures
            r.port == 3838,
            r.auth_token is None,
            r.player_name is None,
    {
        DotaConfig { port: 3838, auth_token: None, player_name: None }
    }
}

}
