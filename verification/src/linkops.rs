//! The current-version link operations, as decisions over a snapshot of the
//! world: the installed directory names, and the name the current link
//! points at (`None` when no link exists). The caller reads the snapshot,
//! asks for a plan, and performs the few filesystem steps the plan names;
//! every decision is verified here.

use vstd::prelude::*;
use crate::language::{spec_installed_view, spec_lookup};
use crate::strutil::str_eq;

verus! {

/// Whether `name` is one of the installed directory names.
pub open spec fn spec_is_installed(installed: Seq<(Seq<char>, bool)>, name: Seq<char>) -> bool {
    spec_lookup(installed, name) is Some
}

pub fn is_installed(installed: &Vec<(String, bool)>, name: &str) -> (r: bool)
    ensures
        r == spec_is_installed(spec_installed_view(installed@), name@),
{
    let found = crate::language::lookup_installed(installed, name);
    found.is_some()
}

/// The plan for `use`: why nothing is to be done, or how to repoint the
/// link.
pub enum UsePlan {
    NotInstalled,
    AlreadyUsed,
    Switch { remove_first: bool, show_hint: bool },
}

/// What the current link points at after a plan is carried out.
pub open spec fn spec_apply_use(current: Option<Seq<char>>, plan: UsePlan, version: Seq<char>) -> Option<
    Seq<char>,
> {
    match plan {
        UsePlan::Switch { remove_first, show_hint } => Some(version),
        _ => current,
    }
}

/// Decides `use`: an absent version is refused; using the active version
/// again is a no-op; otherwise the link is replaced (removed first when one
/// exists), and the path hint is shown only when no link existed before.
pub fn plan_use(installed: &Vec<(String, bool)>, current: &Option<String>, version: &str) -> (r:
    UsePlan)
    ensures
        (r is NotInstalled) == !spec_is_installed(spec_installed_view(installed@), version@),
        spec_is_installed(spec_installed_view(installed@), version@) ==> {
            &&& (r is AlreadyUsed) == (current matches Some(c) && c@ == version@)
            &&& (current is None) ==> r == (UsePlan::Switch { remove_first: false, show_hint: true })
            &&& (current matches Some(c) && c@ != version@) ==> r == (UsePlan::Switch {
                remove_first: true,
                show_hint: false,
            })
        },
{
    if !is_installed(installed, version) {
        return UsePlan::NotInstalled;
    }
    match current {
        None => UsePlan::Switch { remove_first: false, show_hint: true },
        Some(c) => {
            if str_eq(c.as_str(), version) {
                UsePlan::AlreadyUsed
            } else {
                UsePlan::Switch { remove_first: true, show_hint: false }
            }
        },
    }
}

/// After `use(a)` then `use(b)` on two distinct installed versions, the
/// current link points at `b`, and `b` is installed, so the link is not
/// dangling.
pub proof fn lemma_use_swap(
    installed: Seq<(Seq<char>, bool)>,
    current: Option<Seq<char>>,
    a: Seq<char>,
    b: Seq<char>,
    plan_a: UsePlan,
    plan_b: UsePlan,
    mid: Option<Seq<char>>,
    fin: Option<Seq<char>>,
)
    requires
        spec_is_installed(installed, a),
        spec_is_installed(installed, b),
        a != b,
        !(plan_a is NotInstalled),
        (plan_a is AlreadyUsed) == (current matches Some(c) && c == a),
        plan_a matches UsePlan::Switch { .. } || plan_a is AlreadyUsed,
        mid == spec_apply_use(current, plan_a, a),
        current matches Some(c) && c == a ==> plan_a is AlreadyUsed,
        current is None || (current matches Some(c) && c != a) ==> plan_a matches UsePlan::Switch {
            ..
        },
        (plan_b is AlreadyUsed) == (mid matches Some(c) && c == b),
        mid matches Some(c) && c == b ==> plan_b is AlreadyUsed,
        mid is None || (mid matches Some(c) && c != b) ==> plan_b matches UsePlan::Switch { .. },
        fin == spec_apply_use(mid, plan_b, b),
    ensures
        fin == Some(b),
        spec_is_installed(installed, b),
{
    assert(mid == Some(a) || (plan_a is AlreadyUsed && current == mid));
}

/// The plan for `unuse`: remove the link when one exists; silently do
/// nothing when none does.
pub fn plan_unuse(current: &Option<String>) -> (r: bool)
    ensures
        r == (current is Some),
{
    current.is_some()
}

/// The plan for `uninstall`.
pub struct UninstallPlan {
    /// The active version is being uninstalled: remove the current link
    /// first.
    pub remove_link: bool,
    /// The version directory exists: delete it. Deleting an absent version
    /// is a no-op, not an error.
    pub remove_dir: bool,
}

pub fn plan_uninstall(installed: &Vec<(String, bool)>, current: &Option<String>, version: &str) -> (r:
    UninstallPlan)
    ensures
        r.remove_link == (current matches Some(c) && c@ == version@),
        r.remove_dir == spec_is_installed(spec_installed_view(installed@), version@),
{
    let remove_link = match current {
        Some(c) => str_eq(c.as_str(), version),
        None => false,
    };
    let remove_dir = is_installed(installed, version);
    UninstallPlan { remove_link, remove_dir }
}

/// The plan for creating a virtual environment.
pub enum VenvPlan {
    NotInstalled,
    AlreadyUsed,
    /// Create the environment directory afresh; wipe it first when it
    /// already exists.
    Create { wipe_first: bool },
}

/// Decides `venv` from the snapshot: the installed names, whether the
/// environment directory exists, and what its language link points at when
/// it does.
pub fn plan_venv(
    installed: &Vec<(String, bool)>,
    version: &str,
    venv_dir_exists: bool,
    venv_linked: &Option<String>,
) -> (r: VenvPlan)
    ensures
        (r is NotInstalled) == !spec_is_installed(spec_installed_view(installed@), version@),
        spec_is_installed(spec_installed_view(installed@), version@) ==> {
            &&& (r is AlreadyUsed) == (venv_dir_exists && (venv_linked matches Some(c) && c@
                == version@))
            &&& !(venv_dir_exists && (venv_linked matches Some(c) && c@ == version@)) ==> r == (
            VenvPlan::Create { wipe_first: venv_dir_exists })
        },
{
    if !is_installed(installed, version) {
        return VenvPlan::NotInstalled;
    }
    if venv_dir_exists {
        match venv_linked {
            Some(c) => {
                if str_eq(c.as_str(), version) {
                    VenvPlan::AlreadyUsed
                } else {
                    VenvPlan::Create { wipe_first: true }
                }
            },
            None => VenvPlan::Create { wipe_first: true },
        }
    } else {
        VenvPlan::Create { wipe_first: false }
    }
}

/// Marks each installed directory name with whether it is the one the
/// current link points at: the snapshot the listing and the planners use.
pub fn mark_installed(names: Vec<String>, current: &Option<String>) -> (r: Vec<(String, bool)>)
    ensures
        r@.len() == names@.len(),
        forall|i: int|
            0 <= i < r@.len() ==> {
                &&& (#[trigger] r@[i]).0@ == names@[i]@
                &&& r@[i].1 == (current matches Some(c) && c@ == names@[i]@)
            },
{
    let n = names.len();
    let mut r: Vec<(String, bool)> = Vec::new();
    let mut i: usize = 0;
    while i < n
        invariant
            i <= n,
            n == names@.len(),
            r@.len() == i,
            forall|j: int|
                0 <= j < i ==> {
                    &&& (#[trigger] r@[j]).0@ == names@[j]@
                    &&& r@[j].1 == (current matches Some(c) && c@ == names@[j]@)
                },
        decreases n - i,
    {
        let inuse = match current {
            Some(c) => str_eq(c.as_str(), names[i].as_str()),
            None => false,
        };
        r.push((names[i].clone(), inuse));
        i = i + 1;
    }
    r
}

} // verus!
