//! Various data used in RMS scripts, such as labels for if statements.

use vstd::prelude::*;

use crate::lexer;

verus! {

/// The type of label, indicating how it's intended to be used in a map script.
#[derive(Debug, PartialEq, Eq, Hash, Clone)]
pub enum LabelType {
    /// The game mode selected in the lobby dropdown menu.
    GameMode,
    /// The size of the map, including the original sizes and HD's Ludicrous.
    MapSizeLegacy,
    /// The size of the map, using the new sizes introduced in DE.
    MapSizeModern,
    /// The amount of resources with which players begin a game.
    StartingResources,
    /// The age and technology level at which players begin a game.
    StartingAge,
    /// Lobby checkboxes for settings in addition to the dropdown menus.
    AdditionalLobbySettings,
    /// The number of players in the game.
    PlayerCount,
    /// The number of teams in the game, where a team consists of at least 2 players.
    TeamCount,
    /// The number of players on each team. Note the team number refers to the lobby order,
    /// not the number selected in the lobby.
    TeamSize,
    /// Indicates whether a player is on a given team. Note the player and team numbers
    /// refer to lobby order, not the color or team numbers selected in the lobby.
    PlayerInTeam,
    /// The version of the game for which the map is generated.
    GameVersions,
}

impl LabelType {
    /// The human-readable name of this label type.
    pub open spec fn display_name_spec(&self) -> Seq<char> {
        match self {
            LabelType::GameMode => "Game Mode"@,
            LabelType::MapSizeLegacy => "Map Size Legacy"@,
            LabelType::MapSizeModern => "Map Size Modern"@,
            LabelType::StartingResources => "Starting Resources"@,
            LabelType::StartingAge => "Starting Age"@,
            LabelType::AdditionalLobbySettings => "Additional Lobby Settings"@,
            LabelType::PlayerCount => "Player Count"@,
            LabelType::TeamCount => "Team Count"@,
            LabelType::TeamSize => "Team Size"@,
            LabelType::PlayerInTeam => "Player-in-team"@,
            LabelType::GameVersions => "Game Versions"@,
        }
    }

    /// Returns the human-readable name of this label type.
    pub fn display_name(&self) -> (r: String)
        ensures
            r@ == self.display_name_spec(),
    {
        match self {
            LabelType::GameMode => String::from_str("Game Mode"),
            LabelType::MapSizeLegacy => String::from_str("Map Size Legacy"),
            LabelType::MapSizeModern => String::from_str("Map Size Modern"),
            LabelType::StartingResources => String::from_str("Starting Resources"),
            LabelType::StartingAge => String::from_str("Starting Age"),
            LabelType::AdditionalLobbySettings => String::from_str("Additional Lobby Settings"),
            LabelType::PlayerCount => String::from_str("Player Count"),
            LabelType::TeamCount => String::from_str("Team Count"),
            LabelType::TeamSize => String::from_str("Team Size"),
            LabelType::PlayerInTeam => String::from_str("Player-in-team"),
            LabelType::GameVersions => String::from_str("Game Versions"),
        }
    }
}

/// Mathematical content of a [`Label`].
#[verifier::ext_equal]
pub ghost struct LabelView {
    /// The label's name.
    pub name: Seq<char>,
    /// The label's description, if the label is built-in.
    pub description: Option<Seq<char>>,
    /// The label's type, if the label is built-in.
    pub label_type: Option<LabelType>,
}

/// A label for if statements.
#[derive(Debug, PartialEq, Eq, Hash, Clone)]
pub struct Label {
    /// The name of the label. Consists of only non-whitespace tokens and must be nonempty.
    name: String,
    /// The description of the label, if the label is built-in.
    description: Option<String>,
    /// The type of label, if the label is built-in.
    label_type: Option<LabelType>,
}

impl View for Label {
    type V = LabelView;

    closed spec fn view(&self) -> LabelView {
        LabelView {
            name: self.name@,
            description: match self.description {
                Some(d) => Some(d@),
                None => None,
            },
            label_type: self.label_type,
        }
    }
}

impl Label {
    /// Constructs a new label using `name` with the given `description`, and `label_type`.
    /// The `name` must consist of only non-whitespace tokens and must be nonempty.
    pub fn new(name: &str, description: Option<&str>, label_type: Option<LabelType>) -> (r: Self)
        requires
            name@.len() > 0,
            forall|i: int| 0 <= i < name@.len() ==> !lexer::is_whitespace_spec(name@[i]),
        ensures
            r@.name == name@,
            match description {
                Some(d) => r@.description matches Some(s) && s == d@,
                None => r@.description is None,
            },
            r@.label_type == label_type,
    {
        Self {
            name: String::from_str(name),
            description: match description {
                Some(d) => Some(String::from_str(d)),
                None => None,
            },
            label_type,
        }
    }
}

} // verus!
