//! Card roles: the functional tags a card can carry in a deck.
use vstd::prelude::*;
use vstd::string::*;

use crate::text::same_text;

verus! {

broadcast use vstd::string::group_string_axioms;

/// What a card does for a deck.
#[derive(Clone, Copy, Debug, PartialEq, Eq, Hash, PartialOrd, Ord, Structural)]
pub enum CardRole {
    Ramp,
    CardDraw,
    Removal,
    MassRemoval,
    Tutor,
    Protection,
    WinCondition,
}

/// The stored name of a role.
pub open spec fn role_name(role: CardRole) -> Seq<char> {
    match role {
        CardRole::Ramp => "ramp"@,
        CardRole::CardDraw => "card_draw"@,
        CardRole::Removal => "removal"@,
        CardRole::MassRemoval => "mass_removal"@,
        CardRole::Tutor => "tutor"@,
        CardRole::Protection => "protection"@,
        CardRole::WinCondition => "win_condition"@,
    }
}

/// The role a stored name stands for: the current names, and the older
/// `targeted_removal` and `board_wipe`.
pub open spec fn role_from_name(value: Seq<char>) -> Option<CardRole> {
    if value == "ramp"@ {
        Some(CardRole::Ramp)
    } else if value == "card_draw"@ {
        Some(CardRole::CardDraw)
    } else if value == "removal"@ || value == "targeted_removal"@ {
        Some(CardRole::Removal)
    } else if value == "mass_removal"@ || value == "board_wipe"@ {
        Some(CardRole::MassRemoval)
    } else if value == "tutor"@ {
        Some(CardRole::Tutor)
    } else if value == "protection"@ {
        Some(CardRole::Protection)
    } else if value == "win_condition"@ {
        Some(CardRole::WinCondition)
    } else {
        None
    }
}

/// The text that lists every role name.
pub open spec fn known_values_text() -> Seq<char> {
    "ramp, card_draw, removal, mass_removal, tutor, protection, win_condition"@
}

/// The message for a name that is no role.
pub open spec fn unknown_role_message(value: Seq<char>) -> Seq<char> {
    "unknown card role "@ + value + "; expected one of: "@ + known_values_text()
}

impl CardRole {
    /// The accepted role names, for messages.
    pub fn known_values() -> (r: &'static str)
        ensures
            r@ == known_values_text(),
    {
        "ramp, card_draw, removal, mass_removal, tutor, protection, win_condition"
    }

    /// The stored name of this role.
    pub fn as_str(&self) -> (r: &'static str)
        ensures
            r@ == role_name(*self),
    {
        match self {
            CardRole::Ramp => "ramp",
            CardRole::CardDraw => "card_draw",
            CardRole::Removal => "removal",
            CardRole::MassRemoval => "mass_removal",
            CardRole::Tutor => "tutor",
            CardRole::Protection => "protection",
            CardRole::WinCondition => "win_condition",
        }
    }

    /// The role that a stored name stands for, if any.
    pub fn from_db_value(value: &str) -> (r: Option<Self>)
        ensures
            r == role_from_name(value@),
    {
        if same_text(value, "ramp") {
            Some(CardRole::Ramp)
        } else if same_text(value, "card_draw") {
            Some(CardRole::CardDraw)
        } else if same_text(value, "removal") || same_text(value, "targeted_removal") {
            Some(CardRole::Removal)
        } else if same_text(value, "mass_removal") || same_text(value, "board_wipe") {
            Some(CardRole::MassRemoval)
        } else if same_text(value, "tutor") {
            Some(CardRole::Tutor)
        } else if same_text(value, "protection") {
            Some(CardRole::Protection)
        } else if same_text(value, "win_condition") {
            Some(CardRole::WinCondition)
        } else {
            None
        }
    }

    /// The role a name stands for, or the message that rejects it.
    fn parse_name(value: &str) -> (r: Result<Self, String>)
        ensures
            match r {
                Ok(role) => role_from_name(value@) == Some(role),
                Err(message) => role_from_name(value@) is None && message@
                    == unknown_role_message(value@),
            },
    {
        match CardRole::from_db_value(value) {
            Some(role) => Ok(role),
            None => {
                let mut message = "unknown card role ".to_string();
                message.append(value);
                message.append("; expected one of: ");
                message.append(CardRole::known_values());
                Err(message)
            },
        }
    }
}

/// Every role's stored name reads back as that role.
pub proof fn lemma_role_name_round_trip(role: CardRole)
    ensures
        role_from_name(role_name(role)) == Some(role),
{
    reveal_strlit("ramp");
    reveal_strlit("card_draw");
    reveal_strlit("removal");
    reveal_strlit("targeted_removal");
    reveal_strlit("mass_removal");
    reveal_strlit("board_wipe");
    reveal_strlit("tutor");
    reveal_strlit("protection");
    reveal_strlit("win_condition");
    assert("ramp"@.len() == 4);
    assert("card_draw"@.len() == 9);
    assert("removal"@.len() == 7);
    assert("targeted_removal"@.len() == 16);
    assert("mass_removal"@.len() == 12);
    assert("board_wipe"@.len() == 10);
    assert("tutor"@.len() == 5);
    assert("protection"@.len() == 10);
    assert("win_condition"@.len() == 13);
    assert("protection"@[0] != "board_wipe"@[0]);
}

/// The list of known values is the role names in declaration order,
/// separated by a comma and a space.
pub proof fn lemma_known_values_lists_roles()
    ensures
        known_values_text() == role_name(CardRole::Ramp) + ", "@ + role_name(CardRole::CardDraw)
            + ", "@ + role_name(CardRole::Removal) + ", "@ + role_name(CardRole::MassRemoval)
            + ", "@ + role_name(CardRole::Tutor) + ", "@ + role_name(CardRole::Protection) + ", "@
            + role_name(CardRole::WinCondition),
{
    reveal_strlit("ramp, card_draw, removal, mass_removal, tutor, protection, win_condition");
    reveal_strlit("ramp");
    reveal_strlit("card_draw");
    reveal_strlit("removal");
    reveal_strlit("mass_removal");
    reveal_strlit("tutor");
    reveal_strlit("protection");
    reveal_strlit("win_condition");
    reveal_strlit(", ");
    assert(known_values_text() =~= role_name(CardRole::Ramp) + ", "@ + role_name(
        CardRole::CardDraw,
    ) + ", "@ + role_name(CardRole::Removal) + ", "@ + role_name(CardRole::MassRemoval) + ", "@
        + role_name(CardRole::Tutor) + ", "@ + role_name(CardRole::Protection) + ", "@ + role_name(
        CardRole::WinCondition,
    ));
}

impl std::str::FromStr for CardRole {
    type Err = String;

    /// The role a name stands for, or the message that rejects the name.
    fn from_str(value: &str) -> (r: Result<Self, Self::Err>)
        ensures
            match r {
                Ok(role) => role_from_name(value@) == Some(role),
                Err(message) => role_from_name(value@) is None && message@
                    == unknown_role_message(value@),
            },
    {
        CardRole::parse_name(value)
    }
}

} // verus!
