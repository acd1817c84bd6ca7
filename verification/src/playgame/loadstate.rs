//! Loading a saved game in the background, and what the game does each
//! frame while it waits for it.

use vstd::prelude::*;

verus! {

/// Where the background loader stands.
pub enum LoadState<G> {
    Idle,
    Loading,
    Loaded { game: G },
}

/// The loader state shared with the loading thread.
pub struct GameLoader<G> {
    pub state: LoadState<G>,
}

/// What the game must do this frame while it is not ready.
pub enum LoaderAction<G> {
    /// Start the background loader.
    StartLoader,
    /// Nothing to do yet.
    Wait,
    /// Install the loaded game and become ready.
    Install { game: G },
}

impl<G> GameLoader<G> {
    /// A loader that has not started.
    pub fn new() -> (l: Self)
        ensures
            l.state is Idle,
    {
        GameLoader { state: LoadState::Idle }
    }
}

/// One frame of waiting for a saved game: the first frame starts the
/// loader; later frames wait while it is loading or idle, and, once a game
/// is loaded, take it out (leaving the loader idle) to be installed.
pub fn loader_step<G>(started_loader: &mut bool, loader: &mut GameLoader<G>) -> (action: LoaderAction<G>)
    ensures
        !*old(started_loader) ==> {
            &&& *final(started_loader)
            &&& action is StartLoader
            &&& final(loader).state == old(loader).state
        },
        *old(started_loader) ==> {
            &&& *final(started_loader)
            &&& match old(loader).state {
                LoadState::Loaded { game } => {
                    &&& action == (LoaderAction::Install { game })
                    &&& final(loader).state is Idle
                },
                _ => {
                    &&& action is Wait
                    &&& final(loader).state == old(loader).state
                },
            }
        },
{
    if !*started_loader {
        *started_loader = true;
        return LoaderAction::StartLoader;
    }
    let mut state = LoadState::Idle;
    std::mem::swap(&mut state, &mut loader.state);
    match state {
        LoadState::Loaded { game } => LoaderAction::Install { game },
        other => {
            loader.state = other;
            LoaderAction::Wait
        },
    }
}

} // verus!
