//! Telling the window of the game from the other windows of the desktop.

use crate::text::{chars_of, lowercase, same_text, to_lower};
use vstd::prelude::*;
use vstd::string::*;

verus! {

/// The name under which the game shows up.
pub const APP_NAME: &'static str = "pokemmo";

/// The name under which the game shows up where only its runtime is named.
pub const JAVA: &'static str = "java";

/// A text in lower case is one of the names under which the game shows up.
pub open spec fn is_game_name(lowered: Seq<char>) -> bool {
    lowered == APP_NAME@ || lowered == JAVA@
}

/// Tests whether a text in lower case is one of the names under which the
/// game shows up.
pub fn names_game(lowered: &str) -> (r: bool)
    ensures
        r == is_game_name(lowered@),
{
    let have = chars_of(lowered);
    let app = chars_of(APP_NAME);
    let java = chars_of(JAVA);
    same_text(&have, &app) || same_text(&have, &java)
}

/// Tests whether a window is that of the game: its application name or its
/// title is, whatever the case of its letters, one of the names of the game.
pub fn game_exist(app_name: &str, title: &str) -> (r: bool)
    ensures
        r == (is_game_name(lowercase(app_name@)) || is_game_name(lowercase(title@))),
{
    let name = to_lower(app_name);
    let title = to_lower(title);
    names_game(name.as_str()) || names_game(title.as_str())
}

} // verus!
