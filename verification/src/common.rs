use vstd::prelude::*;

verus! {

/// Player info.
#[derive(Debug)]
pub struct Player {
    pub name: String,
    pub clan: String,
    pub country: i32,
    pub score: i32,
    pub is_spectator: bool,
    /// The reserved field that the extended variant adds to each player.
    pub reserved: Option<String>,
}

/// What a player record says, as plain values.
pub struct PlayerView {
    pub name: Seq<char>,
    pub clan: Seq<char>,
    pub country: i32,
    pub score: i32,
    pub is_spectator: bool,
    pub reserved: Option<Seq<char>>,
}

impl View for Player {
    type V = PlayerView;

    open spec fn view(&self) -> PlayerView {
        PlayerView {
            name: self.name@,
            clan: self.clan@,
            country: self.country,
            score: self.score,
            is_spectator: self.is_spectator,
            reserved: match self.reserved {
                Some(r) => Some(r@),
                None => None,
            },
        }
    }
}

/// What a list of players says, player by player.
pub open spec fn roster(players: Seq<Player>) -> Seq<PlayerView> {
    players.map_values(|p: Player| p@)
}

} // verus!
