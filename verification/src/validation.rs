//! The static check of a module against the capabilities that the host
//! offers, made before the module is stored or compiled.

use vstd::prelude::*;
use vstd::string::*;

verus! {

/// What static inspection found in a module's bytes.
#[derive(Clone, Debug, PartialEq, Eq)]
pub struct ModuleReport {
    /// Whether the bytes have the structure of a module.
    pub well_formed: bool,
    /// Whether the module uses a construct that no hosted module may use.
    pub uses_disallowed_constructs: bool,
    /// The capabilities that the module requires of its host.
    pub required_capabilities: Vec<String>,
}

/// Why a module is rejected. A rejection is final for those bytes.
#[derive(Clone, Debug, PartialEq, Eq)]
pub enum ValidationError {
    /// The bytes do not have the structure of a module.
    Malformed,
    /// The module uses a construct that no hosted module may use.
    DisallowedConstruct,
    /// The module requires capabilities that the host does not offer.
    MissingCapabilities { missing: Vec<String> },
}

/// The names that a list of strings holds.
pub open spec fn names(list: Seq<String>) -> Seq<Seq<char>> {
    list.map_values(|s: String| s@)
}

/// The names of `required` that `available` lacks, in the order of
/// `required`.
pub open spec fn missing_from(required: Seq<Seq<char>>, available: Seq<Seq<char>>) -> Seq<
    Seq<char>,
>
    decreases required.len(),
{
    if required.len() == 0 {
        Seq::empty()
    } else if available.contains(required.last()) {
        missing_from(required.drop_last(), available)
    } else {
        missing_from(required.drop_last(), available).push(required.last())
    }
}

/// Whether `r` is what the check of a module with this report gives on a
/// host that offers the capabilities `available`.
pub open spec fn validated(
    report: ModuleReport,
    available: Seq<String>,
    r: Result<(), ValidationError>,
) -> bool {
    let missing = missing_from(names(report.required_capabilities@), names(available));
    match r {
        Ok(_) => report.well_formed && !report.uses_disallowed_constructs && missing.len() == 0,
        Err(ValidationError::Malformed) => !report.well_formed,
        Err(ValidationError::DisallowedConstruct) => report.well_formed
            && report.uses_disallowed_constructs,
        Err(ValidationError::MissingCapabilities { missing: list }) => {
            &&& report.well_formed
            &&& !report.uses_disallowed_constructs
            &&& missing.len() > 0
            &&& names(list@) == missing
        },
    }
}

/// Whether `name` is among `list`.
pub fn has_name(list: &Vec<String>, name: &String) -> (r: bool)
    ensures
        r == names(list@).contains(name@),
{
    let mut i: usize = 0;
    while i < list.len()
        invariant
            i <= list.len(),
            forall|j: int| 0 <= j < i ==> names(list@)[j] != name@,
        decreases list.len() - i,
    {
        if list[i] == *name {
            assert(names(list@)[i as int] == name@);
            return true;
        }
        i += 1;
    }
    false
}

/// Checks a module by its report: it must be well formed, use no disallowed
/// construct, and require no capability that `available` lacks.
pub fn validate(report: &ModuleReport, available: &Vec<String>) -> (r: Result<
    (),
    ValidationError,
>)
    ensures
        validated(*report, available@, r),
{
    if !report.well_formed {
        return Err(ValidationError::Malformed);
    }
    if report.uses_disallowed_constructs {
        return Err(ValidationError::DisallowedConstruct);
    }
    let ghost required = names(report.required_capabilities@);
    let mut missing: Vec<String> = Vec::new();
    let mut i: usize = 0;
    while i < report.required_capabilities.len()
        invariant
            i <= report.required_capabilities.len(),
            required == names(report.required_capabilities@),
            names(missing@) == missing_from(required.take(i as int), names(available@)),
        decreases report.required_capabilities.len() - i,
    {
        let ghost before = names(missing@);
        proof {
            let next = required.take(i + 1);
            assert(next.drop_last() =~= required.take(i as int));
            assert(next.last() == report.required_capabilities@[i as int]@);
        }
        if !has_name(available, &report.required_capabilities[i]) {
            missing.push(report.required_capabilities[i].clone());
            assert(names(missing@) =~= before.push(report.required_capabilities@[i as int]@));
        }
        i += 1;
    }
    assert(required.take(i as int) =~= required);
    if missing.len() == 0 {
        Ok(())
    } else {
        Err(ValidationError::MissingCapabilities { missing })
    }
}

} // verus!
