//! Main menu decisions: where the menu box goes, what a selection means,
//! and the words of the tagline.

use vstd::prelude::*;
use vstd::string::StringExecFns;

verus! {

/// What the player chose in the main menu.
#[derive(Clone, Copy, Debug, PartialEq, Eq, Structural)]
pub enum MenuResult {
    Continue,
    MakeWorld,
    ResumeGame,
    Quit,
}

/// The menu box on a console of `console_size` characters: left, right, top
/// and bottom edges, 50 wide and 20 high around the centre.
pub fn menu_frame(console_size: (u32, u32)) -> (edges: (u32, u32, u32, u32))
    requires
        console_size.0 / 2 >= 25,
        console_size.1 / 2 >= 10,
    ensures
        edges == ((console_size.0 / 2 - 25) as u32, (console_size.0 / 2 + 25) as u32,
                  (console_size.1 / 2 - 10) as u32, (console_size.1 / 2 + 10) as u32),
{
    let left = console_size.0 / 2 - 25;
    let right = console_size.0 / 2 + 25;
    let top = console_size.1 / 2 - 10;
    let bottom = console_size.1 / 2 + 10;
    (left, right, top, bottom)
}

/// What a menu selection means: the first entry makes a world, the second
/// resumes the game, the third quits; no selection (or any other) continues.
pub fn menu_result(selection: Option<usize>) -> (r: MenuResult)
    ensures
        r == match selection {
            Some(0) => MenuResult::MakeWorld,
            Some(1) => MenuResult::ResumeGame,
            Some(2) => MenuResult::Quit,
            _ => MenuResult::Continue,
        },
{
    match selection {
        Some(0) => MenuResult::MakeWorld,
        Some(1) => MenuResult::ResumeGame,
        Some(2) => MenuResult::Quit,
        _ => MenuResult::Continue,
    }
}

/// The text of the first tagline word for a die roll `roll`.
pub open spec fn word_text(roll: int) -> Seq<char> {
    if roll == 1 {
        "Histories"@
    } else if roll == 2 {
        "Chronicles"@
    } else if roll == 3 {
        "Sagas"@
    } else if roll == 4 {
        "Annals"@
    } else if roll == 5 {
        "Narratives"@
    } else if roll == 6 {
        "Recitals"@
    } else if roll == 7 {
        "Tales"@
    } else if roll == 8 {
        "Stories"@
    } else {
        ""@
    }
}

/// The first word of the tagline for a roll of one eight-sided die; empty
/// for a roll outside 1 to 8.
pub fn tagline_word(roll: i32) -> (w: &'static str)
    ensures
        w@ == word_text(roll as int),
{
    proof {
        reveal_strlit("Histories");
        reveal_strlit("Chronicles");
        reveal_strlit("Sagas");
        reveal_strlit("Annals");
        reveal_strlit("Narratives");
        reveal_strlit("Recitals");
        reveal_strlit("Tales");
        reveal_strlit("Stories");
        reveal_strlit("");
    }
    match roll {
        1 => "Histories",
        2 => "Chronicles",
        3 => "Sagas",
        4 => "Annals",
        5 => "Narratives",
        6 => "Recitals",
        7 => "Tales",
        8 => "Stories",
        _ => "",
    }
}

/// Number of descriptive nouns the tagline draws from.
pub const NOUN_COUNT: usize = 19;

/// The text of the descriptive noun at `index` in the tagline's list.
pub open spec fn noun_text(index: int) -> Seq<char> {
    if index == 0 {
        "Stupidity"@
    } else if index == 1 {
        "Idiocy"@
    } else if index == 2 {
        "Dullness"@
    } else if index == 3 {
        "Foolishness"@
    } else if index == 4 {
        "Futility"@
    } else if index == 5 {
        "Naievity"@
    } else if index == 6 {
        "Senselessness"@
    } else if index == 7 {
        "Shortsightedness"@
    } else if index == 8 {
        "Triviality"@
    } else if index == 9 {
        "Brainlessness"@
    } else if index == 10 {
        "Inanity"@
    } else if index == 11 {
        "Insensitivity"@
    } else if index == 12 {
        "Indiscretion"@
    } else if index == 13 {
        "Mindlessness"@
    } else if index == 14 {
        "Moronism"@
    } else if index == 15 {
        "Myopia"@
    } else if index == 16 {
        "Obtuseness"@
    } else if index == 17 {
        "Obliviousness"@
    } else {
        "Unthinkingness"@
    }
}

/// The descriptive noun at `index` in the tagline's list.
pub fn descriptive_noun(index: usize) -> (w: &'static str)
    requires
        index < NOUN_COUNT,
    ensures
        w@ == noun_text(index as int),
{
    proof {
        reveal_strlit("Stupidity");
        reveal_strlit("Idiocy");
        reveal_strlit("Dullness");
        reveal_strlit("Foolishness");
        reveal_strlit("Futility");
        reveal_strlit("Naievity");
        reveal_strlit("Senselessness");
        reveal_strlit("Shortsightedness");
        reveal_strlit("Triviality");
        reveal_strlit("Brainlessness");
        reveal_strlit("Inanity");
        reveal_strlit("Insensitivity");
        reveal_strlit("Indiscretion");
        reveal_strlit("Mindlessness");
        reveal_strlit("Moronism");
        reveal_strlit("Myopia");
        reveal_strlit("Obtuseness");
        reveal_strlit("Obliviousness");
        reveal_strlit("Unthinkingness");
    }
    match index {
        0 => "Stupidity",
        1 => "Idiocy",
        2 => "Dullness",
        3 => "Foolishness",
        4 => "Futility",
        5 => "Naievity",
        6 => "Senselessness",
        7 => "Shortsightedness",
        8 => "Triviality",
        9 => "Brainlessness",
        10 => "Inanity",
        11 => "Insensitivity",
        12 => "Indiscretion",
        13 => "Mindlessness",
        14 => "Moronism",
        15 => "Myopia",
        16 => "Obtuseness",
        17 => "Obliviousness",
        _ => "Unthinkingness",
    }
}

/// The second noun of the tagline: the first of the nouns drawn, in order,
/// that differs from the first noun; none if every draw repeats it.
pub fn second_noun(first: usize, draws: &Vec<usize>) -> (r: Option<usize>)
    ensures
        match r {
            Some(i) => exists|k: int| 0 <= k < draws@.len() && draws@[k] == i && i != first
                && forall|j: int| 0 <= j < k ==> #[trigger] draws@[j] == first,
            None => forall|j: int| 0 <= j < draws@.len() ==> #[trigger] draws@[j] == first,
        },
{
    let mut k: usize = 0;
    while k < draws.len()
        invariant
            k <= draws@.len(),
            forall|j: int| 0 <= j < k ==> #[trigger] draws@[j] == first,
        decreases draws@.len() - k,
    {
        if draws[k] != first {
            return Some(draws[k]);
        }
        k = k + 1;
    }
    None
}

/// The menu tagline: the word for the die roll, "of", the first noun,
/// "and", the second noun.
pub fn tagline(roll: i32, first: usize, second: usize) -> (t: String)
    requires
        first < NOUN_COUNT,
        second < NOUN_COUNT,
    ensures
        t@ == word_text(roll as int) + " of "@ + noun_text(first as int) + " and "@ + noun_text(second as int),
{
    let mut t = String::from_str(tagline_word(roll));
    t.append(" of ");
    t.append(descriptive_noun(first));
    t.append(" and ");
    t.append(descriptive_noun(second));
    t
}

/// The seed of the menu's background map and the console size it was
/// drawn for.
pub struct MenuState {
    pub last_size: (u32, u32),
    pub seed: u64,
}

impl MenuState {
    /// No size drawn yet, seed 42.
    pub fn new() -> (m: Self)
        ensures
            m.last_size == (0u32, 0u32),
            m.seed == 42,
    {
        MenuState { last_size: (0, 0), seed: 42 }
    }

    /// One frame of the menu on a console of `console_size` characters:
    /// when the size changed or the background's time ran out
    /// (`timed_out`), the background is drawn anew from the next seed for
    /// this size (the caller restarts its clock); then the selection decides
    /// the result. Returns the result and whether the background was
    /// redrawn.
    pub fn tick(&mut self, console_size: (u32, u32), timed_out: bool, selection: Option<usize>) -> (r: (MenuResult, bool))
        requires
            (console_size != old(self).last_size || timed_out) ==> old(self).seed < u64::MAX,
        ensures
            r.1 == (console_size != old(self).last_size || timed_out),
            r.1 ==> final(self).seed == old(self).seed + 1 && final(self).last_size == console_size,
            !r.1 ==> final(self).seed == old(self).seed && final(self).last_size == old(self).last_size,
            r.0 == match selection {
                Some(0) => MenuResult::MakeWorld,
                Some(1) => MenuResult::ResumeGame,
                Some(2) => MenuResult::Quit,
                _ => MenuResult::Continue,
            },
    {
        let redraw = console_size.0 != self.last_size.0 || console_size.1 != self.last_size.1 || timed_out;
        if redraw {
            self.seed = self.seed + 1;
            self.last_size = console_size;
        }
        (menu_result(selection), redraw)
    }
}

} // verus!
