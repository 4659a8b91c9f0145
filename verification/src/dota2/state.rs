//! The state that the game sends. It leaves out what has not changed, so every
//! part is optional.

use vstd::prelude::*;
use crate::text;

verus! {

#[derive(Debug, Default)]
pub struct GsiState {
    pub provider: Option<Provider>,
    pub map: Option<GameMap>,
    pub player: Option<Player>,
    pub hero: Option<Hero>,
}

#[derive(Debug, Default)]
pub struct Provider {
    pub name: Option<String>,
    pub appid: Option<u32>,
    pub version: Option<u32>,
    pub timestamp: Option<u64>,
}

/// The battle ground and the hour there.
#[derive(Debug, Default)]
pub struct GameMap {
    pub name: Option<String>,
    pub game_state: Option<String>,
    pub clock_time: Option<i32>,
    pub daytime: Option<bool>,
    pub nightstalker_night: Option<bool>,
}

#[derive(Debug, Default)]
pub struct Player {
    pub steamid: Option<String>,
    pub name: Option<String>,
    pub activity: Option<String>,
    pub kills: Option<u32>,
    pub deaths: Option<u32>,
    pub assists: Option<u32>,
    pub team_name: Option<String>,
    pub gold: Option<u32>,
    pub gpm: Option<u32>,
    pub xpm: Option<u32>,
}

#[derive(Debug, Default)]
pub struct Hero {
    pub id: Option<u32>,
    pub name: Option<String>,
    pub level: Option<u32>,
    pub alive: Option<bool>,
    pub health: Option<u32>,
    pub max_health: Option<u32>,
    pub mana: Option<u32>,
    pub max_mana: Option<u32>,
}

impl Clone for Provider {
    fn clone(&self) -> (r: Self)
        ensures
            r == *self,
    {
        Provider {
            name: text::clone_opt_text(&self.name),
            appid: self.appid,
            version: self.version,
            timestamp: self.timestamp,
        }
    }
}

impl Clone for GameMap {
    fn clone(&self) -> (r: Self)
        ensures
            r == *self,
    {
        GameMap {
            name: text::clone_opt_text(&self.name),
            game_state: text::clone_opt_text(&self.game_state),
            clock_time: self.clock_time,
            daytime: self.daytime,
            nightstalker_night: self.nightstalker_night,
        }
    }
}

impl Clone for Player {
    fn clone(&self) -> (r: Self)
        ensures
            r == *self,
    {
        Player {
            steamid: text::clone_opt_text(&self.steamid),
            name: text::clone_opt_text(&self.name),
            activity: text::clone_opt_text(&self.activity),
            kills: self.kills,
            deaths: self.deaths,
            assists: self.assists,
            team_name: text::clone_opt_text(&self.team_name),
            gold: self.gold,
            gpm: self.gpm,
            xpm: self.xpm,
        }
    }
}

impl Clone for Hero {
    fn clone(&self) -> (r: Self)
        ensures
            r == *self,
    {
        Hero {
            id: self.id,
            name: text::clone_opt_text(&self.name),
            level: self.level,
            alive: self.alive,
            health: self.health,
            max_health: self.max_health,
            mana: self.mana,
            max_mana: self.max_mana,
        }
    }
}

impl Clone for GsiState {
    fn clone(&self) -> (r: Self)
        ensures
            r == *self,
    {
        GsiState {
            provider: match &self.provider {
                Some(provider) => Some(provider.clone()),
                None => None,
            },
            map: match &self.map {
                Some(map) => Some(map.clone()),
                None => None,
            },
            player: match &self.player {
                Some(player) => Some(player.clone()),
                None => None,
            },
            hero: match &self.hero {
                Some(hero) => Some(hero.clone()),
                None => None,
            },
        }
    }
}

}
