use vstd::prelude::*;

use crate::cascade::Configuration;
use crate::path::DirPath;
use crate::registry::{ProfileRegistry, RegistryError};

verus! {

/// What the first-use flow asks the command layer to do next.
#[derive(Debug)]
pub enum FirstUseAction {
    /// Nothing to do: go on with the configuration already resolved.
    Proceed,
    /// Create the empty first-use marker, best effort, and go on.
    CreateMarker,
    /// Offer the interactive picker the registry's names.
    OfferPicker,
    /// Point the repository at the profile stored here, then reload.
    Apply(DirPath),
    /// Stop the command before delegating.
    Abort(FlowError),
}

#[derive(Debug)]
pub enum FlowError {
    /// The chosen name is not in the registry.
    NotFound(String),
    /// Pointing the repository at the chosen profile did not take effect.
    ApplyFailed,
}

/// Whether the loaded configuration asks for a choice on first use.
pub open spec fn first_use_enabled(config: Configuration) -> bool {
    config.interactive && config.select_profile_on_first_use
}

/// The first decision of the first-use flow, from what the command layer
/// found: whether the directory is in a repository, whether the repository
/// has its first-use marker, and how many profiles there are.
pub fn first_use_step(config: &Configuration, in_repo: bool, marker_exists: bool, profile_count: usize) -> (r: FirstUseAction)
    ensures
        !first_use_enabled(*config) || !in_repo || marker_exists ==> r is Proceed,
        first_use_enabled(*config) && in_repo && !marker_exists && profile_count == 0 ==> r is CreateMarker,
        first_use_enabled(*config) && in_repo && !marker_exists && profile_count > 0 ==> r is OfferPicker,
{
    if !(config.interactive && config.select_profile_on_first_use) || !in_repo || marker_exists {
        FirstUseAction::Proceed
    } else if profile_count == 0 {
        FirstUseAction::CreateMarker
    } else {
        FirstUseAction::OfferPicker
    }
}

/// The first-use flow after the picker: a declined choice leaves the empty
/// marker, a chosen name is applied, and an unknown one stops the command.
pub fn first_use_after_choice(registry: &ProfileRegistry, choice: Option<String>) -> (r: FirstUseAction)
    ensures
        choice is None ==> r is CreateMarker,
        choice is Some && registry.index_of(choice->0@) is Some ==> r is Apply && r->Apply_0@
            == registry.entries@[registry.index_of(choice->0@)->0].location@,
        choice is Some && registry.index_of(choice->0@) is None ==> (r matches FirstUseAction::Abort(
            FlowError::NotFound(n),
        ) && n@ == choice->0@),
{
    match choice {
        None => FirstUseAction::CreateMarker,
        Some(name) => match registry.resolve(&name) {
            Ok(location) => FirstUseAction::Apply(location),
            Err(RegistryError::NotFound(n)) => FirstUseAction::Abort(FlowError::NotFound(n)),
        },
    }
}

/// The first-use flow once the profile was written: go on with the reloaded
/// configuration where it took effect, stop otherwise.
pub fn first_use_after_apply(applied: bool) -> (r: FirstUseAction)
    ensures
        applied ==> r is Proceed,
        !applied ==> r matches FirstUseAction::Abort(FlowError::ApplyFailed),
{
    if applied {
        FirstUseAction::Proceed
    } else {
        FirstUseAction::Abort(FlowError::ApplyFailed)
    }
}

/// What the `set-profile` command does once its inputs are checked.
#[derive(Debug)]
pub enum SetProfileRequest {
    /// Ask the interactive picker for a name first.
    Pick,
    /// Point the current directory at the profile stored here.
    Apply(DirPath),
}

#[derive(Debug)]
pub enum CommandError {
    /// The registry is empty.
    NoProfiles,
    /// No name was given and none could be chosen.
    NotSelected,
    /// No profile has this name.
    NotFound(String),
}

/// The `set-profile` command: with a name, that profile; without one, the
/// picker where the configuration is interactive.
pub fn plan_set_profile(config: &Configuration, registry: &ProfileRegistry, name: Option<String>) -> (r: Result<SetProfileRequest, CommandError>)
    ensures
        registry.entries@.len() == 0 ==> r matches Err(CommandError::NoProfiles),
        registry.entries@.len() > 0 && name is None && !config.interactive ==> r matches Err(
            CommandError::NotSelected,
        ),
        registry.entries@.len() > 0 && name is None && config.interactive ==> r matches Ok(
            SetProfileRequest::Pick,
        ),
        registry.entries@.len() > 0 && name is Some && registry.index_of(name->0@) is Some ==> (r matches Ok(
            SetProfileRequest::Apply(p),
        ) && p@ == registry.entries@[registry.index_of(name->0@)->0].location@),
        registry.entries@.len() > 0 && name is Some && registry.index_of(name->0@) is None ==> (r matches Err(
            CommandError::NotFound(n),
        ) && n@ == name->0@),
{
    if registry.len() == 0 {
        return Err(CommandError::NoProfiles);
    }
    match name {
        None => {
            if config.interactive {
                Ok(SetProfileRequest::Pick)
            } else {
                Err(CommandError::NotSelected)
            }
        },
        Some(n) => match choose_profile(registry, Some(n)) {
            Ok(p) => Ok(SetProfileRequest::Apply(p)),
            Err(e) => Err(e),
        },
    }
}

/// The location of the profile that the picker returned.
pub fn choose_profile(registry: &ProfileRegistry, choice: Option<String>) -> (r: Result<DirPath, CommandError>)
    ensures
        choice is None ==> r matches Err(CommandError::NotSelected),
        choice is Some && registry.index_of(choice->0@) is Some ==> r is Ok && r->Ok_0@
            == registry.entries@[registry.index_of(choice->0@)->0].location@,
        choice is Some && registry.index_of(choice->0@) is None ==> (r matches Err(
            CommandError::NotFound(n),
        ) && n@ == choice->0@),
{
    match choice {
        None => Err(CommandError::NotSelected),
        Some(name) => match registry.resolve(&name) {
            Ok(location) => Ok(location),
            Err(RegistryError::NotFound(n)) => Err(CommandError::NotFound(n)),
        },
    }
}

} // verus!
