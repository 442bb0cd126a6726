use vstd::prelude::*;

verus! {

/// Construction of a full application context under the constraints of a
/// shell-completion engine: an implementor builds itself from ambient
/// configuration alone, with no arguments and no prompting. Building such a
/// context is input/output through and through (configuration files,
/// temporary directories, credentials), so implementations live with the
/// application; the library only fixes the shape of the hook.
pub trait FloxCompletionExt where Self: Sized {
    /// Builds the context, or reports in words why it cannot be built.
    fn completion_instance() -> Result<Self, String>;
}

} // verus!
