//! The browser shell's picks, through the same selection policy as the
//! desktop's. Each one needs the opened library; before it has opened
//! (`None`), a pick changes nothing.
use vstd::prelude::*;
use crate::config::Config;
use crate::loadout::{GameId, LibraryIndex};
use crate::loadout::selection::{Error, Selection, SelView, restored, reconciled, picked_game, picked_save, picked_patch, adopted, opt_text};
use crate::paths::StorePath;
use crate::storage::Storage;

verus! {

/// The opened library: its files, its config, and what the last scan of
/// them found.
pub struct OpenLibrary<S> {
    pub files: S,
    pub config: Config,
    pub index: LibraryIndex,
}

/// Why a selection could not be resolved for launch.
#[derive(Debug, PartialEq, Eq)]
pub enum ResolveError {
    /// The library has not opened yet.
    LibraryNotOpen,
    /// The selection was refused, or its save could not be read.
    Selection(Error),
}

/// Bring back what was picked last visit.
pub fn restore<S>(loadout: &mut Selection, library: Option<&OpenLibrary<S>>)
    ensures
        match library {
            Some(l) => final(loadout)@ == restored(l.config, l.index, old(loadout)@),
            None => final(loadout)@ == old(loadout)@,
        },
{
    if let Some(l) = library {
        loadout.restore(&l.config, &l.index);
    }
}

/// Re-validate after the library changed underneath the pick.
pub fn reconcile<S>(loadout: &mut Selection, library: Option<&OpenLibrary<S>>)
    ensures
        match library {
            Some(l) => final(loadout)@ == reconciled(l.config, l.index, old(loadout)@),
            None => final(loadout)@ == old(loadout)@,
        },
{
    if let Some(l) = library {
        loadout.reconcile(&l.index, &l.config);
    }
}

/// Pick one concrete game.
pub fn pick_game<S>(loadout: &mut Selection, game: GameId, library: Option<&OpenLibrary<S>>)
    ensures
        match library {
            Some(l) => final(loadout)@ == picked_game(l.config, l.index, old(loadout)@, game@),
            None => final(loadout)@ == old(loadout)@,
        },
{
    if let Some(l) = library {
        loadout.pick_game(game, &l.index, &l.config);
    }
}

/// Pick a save of `game`.
pub fn pick_save<S>(loadout: &mut Selection, game: GameId, path: StorePath, library: Option<&OpenLibrary<S>>)
    ensures
        match library {
            Some(l) => final(loadout)@ == picked_save(l.config, l.index, old(loadout)@, game@, path@),
            None => final(loadout)@ == old(loadout)@,
        },
{
    if let Some(l) = library {
        loadout.pick_save(game, path, &l.index, &l.config);
    }
}

/// Pick a patch at an exact version, or `None` for the game as it
/// shipped.
pub fn pick_patch<S>(loadout: &mut Selection, patch: Option<(String, semver::Version)>, library: Option<&OpenLibrary<S>>)
    ensures
        match library {
            Some(l) => match patch {
                Some((name, version)) => final(loadout)@ == (SelView {
                    version: Some(version),
                    ..picked_patch(l.config, l.index, old(loadout)@, Some(name@))
                }),
                None => final(loadout)@ == picked_patch(l.config, l.index, old(loadout)@, None),
            },
            None => final(loadout)@ == old(loadout)@,
        },
{
    if let Some(l) = library {
        match patch {
            Some((name, version)) => {
                let ghost n = name@;
                loadout.pick_patch(Some(name), &l.index, &l.config);
                assert(opt_text(Some(name)) == Some(n));
                loadout.pick_patch_version(version);
            },
            None => {
                loadout.pick_patch(None, &l.index, &l.config);
            },
        }
    }
}

/// Adopt a save just created from a template.
pub fn adopt_created_save<S>(loadout: &mut Selection, game: GameId, path: StorePath, library: Option<&OpenLibrary<S>>)
    ensures
        match library {
            Some(l) => final(loadout)@ == adopted(l.index, old(loadout)@, game@, path@),
            None => final(loadout)@ == old(loadout)@,
        },
{
    if let Some(l) = library {
        loadout.adopt_created_save(game, path, &l.index);
    }
}

/// The selected save's bytes as stored; `None` before the library has
/// opened, with no save selected, or when it cannot be read.
pub fn save_bytes<S: Storage>(loadout: &Selection, library: Option<&OpenLibrary<S>>) -> (r: Option<Vec<u8>>)
    ensures
        library is None || loadout@.save is None ==> r is None,
        r matches Some(bytes) ==> (library matches Some(l) && (loadout@.save matches Some(p)
            && l.files.files().contains_key(p) && bytes@ == l.files.files()[p])),
{
    let l = match library {
        Some(l) => l,
        None => {
            return None;
        },
    };
    let path = match loadout.save() {
        Some(p) => p,
        None => {
            return None;
        },
    };
    match l.files.read(path) {
        Ok(bytes) => Some(bytes),
        Err(_) => None,
    }
}

/// The game and stored save bytes a launch of the selection boots from.
pub fn resolve<S: Storage>(loadout: &Selection, library: Option<&OpenLibrary<S>>) -> (r: Result<(GameId, Vec<u8>), ResolveError>)
    ensures
        library is None ==> r matches Err(ResolveError::LibraryNotOpen),
        library is Some && loadout@.game is None ==> r matches Err(ResolveError::Selection(Error::MissingGame)),
        library is Some && loadout@.game is Some && loadout@.save is None ==> r matches Err(
            ResolveError::Selection(Error::MissingSave),
        ),
        r matches Ok((g, bytes)) ==> (library matches Some(l) && loadout@.game == Some(g@) && (loadout@.save matches Some(p)
            && l.files.files().contains_key(p) && bytes@ == l.files.files()[p])),
{
    match library {
        None => Err(ResolveError::LibraryNotOpen),
        Some(l) => match loadout.launch_bytes(None, &l.files) {
            Ok(found) => Ok(found),
            Err(e) => Err(ResolveError::Selection(e)),
        },
    }
}

} // verus!
