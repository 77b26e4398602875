//! The kinds of Unreal Engine runs.

use vstd::prelude::*;

verus! {

/// What kind of Unreal Engine command produced a log.
#[derive(Debug, Clone, Copy, PartialEq, Eq, Structural)]
pub enum UnrealMode {
    Build,
    Uat,
    Cook,
    Package,
    Commandlet,
    Automation,
}

impl UnrealMode {
    /// The mode as it appears in reports.
    pub open spec fn label_text(self) -> Seq<char> {
        match self {
            UnrealMode::Build => "build"@,
            UnrealMode::Uat => "uat"@,
            UnrealMode::Cook => "cook"@,
            UnrealMode::Package => "package"@,
            UnrealMode::Commandlet => "commandlet"@,
            UnrealMode::Automation => "automation"@,
        }
    }

    /// The mode as it appears in reports.
    pub fn label(self) -> (r: &'static str)
        ensures
            r@ == self.label_text(),
    {
        match self {
            UnrealMode::Build => "build",
            UnrealMode::Uat => "uat",
            UnrealMode::Cook => "cook",
            UnrealMode::Package => "package",
            UnrealMode::Commandlet => "commandlet",
            UnrealMode::Automation => "automation",
        }
    }

    /// The name under which the raw log of a run is kept.
    pub open spec fn tee_text(self) -> Seq<char> {
        match self {
            UnrealMode::Build => "unreal_build"@,
            UnrealMode::Uat => "unreal_uat"@,
            UnrealMode::Cook => "unreal_cook"@,
            UnrealMode::Package => "unreal_package"@,
            UnrealMode::Commandlet => "unreal_commandlet"@,
            UnrealMode::Automation => "unreal_automation"@,
        }
    }

    /// The name under which the raw log of a run is kept.
    pub fn tee_label(self) -> (r: &'static str)
        ensures
            r@ == self.tee_text(),
    {
        match self {
            UnrealMode::Build => "unreal_build",
            UnrealMode::Uat => "unreal_uat",
            UnrealMode::Cook => "unreal_cook",
            UnrealMode::Package => "unreal_package",
            UnrealMode::Commandlet => "unreal_commandlet",
            UnrealMode::Automation => "unreal_automation",
        }
    }
}

} // verus!
