//! For what a sysroot is built.
use vstd::prelude::*;

verus! {

/// A target other than the host.
#[derive(Debug)]
pub enum Target {
    /// A target that the compiler knows.
    Builtin { triple: String },
    /// A target that a specification file defines.
    Custom { triple: String },
}

/// Whether a sysroot is built for the host or for another target.
#[derive(Debug)]
pub enum CompilationMode {
    Native(String),
    Cross(Target),
}

impl CompilationMode {
    /// The triple of the target.
    pub open spec fn spec_triple(&self) -> Seq<char> {
        match self {
            CompilationMode::Native(triple) => triple@,
            CompilationMode::Cross(Target::Builtin { triple }) => triple@,
            CompilationMode::Cross(Target::Custom { triple }) => triple@,
        }
    }

    /// The triple of the target.
    pub fn triple(&self) -> (r: &str)
        ensures
            r@ == self.spec_triple(),
    {
        match self {
            CompilationMode::Native(triple) => triple.as_str(),
            CompilationMode::Cross(Target::Builtin { triple }) => triple.as_str(),
            CompilationMode::Cross(Target::Custom { triple }) => triple.as_str(),
        }
    }

    /// Tests whether the sysroot is built for the host.
    pub fn is_native(&self) -> (r: bool)
        ensures
            r == (self is Native),
    {
        match self {
            CompilationMode::Native(_) => true,
            CompilationMode::Cross(_) => false,
        }
    }

    /// Whether a specification file defines the target.
    pub open spec fn spec_has_specification(&self) -> bool {
        self matches CompilationMode::Cross(Target::Custom { .. })
    }

    /// Tests whether a specification file defines the target.
    pub fn has_specification(&self) -> (r: bool)
        ensures
            r == self.spec_has_specification(),
    {
        match self {
            CompilationMode::Cross(Target::Custom { .. }) => true,
            _ => false,
        }
    }
}

/// A sysroot is built for the triple that its mode names, and only a custom target has a
/// specification file.
pub proof fn law_modes(triple: String)
    ensures
        CompilationMode::Native(triple).spec_triple() == triple@,
        CompilationMode::Cross(Target::Builtin { triple }).spec_triple() == triple@,
        CompilationMode::Cross(Target::Custom { triple }).spec_triple() == triple@,
        !CompilationMode::Native(triple).spec_has_specification(),
        !CompilationMode::Cross(Target::Builtin { triple }).spec_has_specification(),
        CompilationMode::Cross(Target::Custom { triple }).spec_has_specification(),
{
}

} // verus!
