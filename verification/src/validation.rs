//! The start-up check of the host: which tools and system interfaces the
//! daemon needs were found, and whether it can run.
use vstd::prelude::*;
use crate::text::push_str;

verus! {

/// Whether a component was found, and where.
#[derive(Debug, Clone)]
pub enum ComponentStatus {
    Installed(String),
    Missing,
}

/// One tool or interface the daemon relies on.
#[derive(Debug, Clone)]
pub struct SystemComponent {
    pub name: String,
    pub status: ComponentStatus,
    pub is_critical: bool,
}

/// The outcome of the host check.
#[derive(Debug, Clone)]
pub struct ValidationReport {
    pub os_name: String,
    pub components: Vec<SystemComponent>,
    pub is_ready: bool,
}

/// The check itself could not run.
#[derive(Debug)]
pub enum ValidationError {
    CheckFailed(String),
}

impl ValidationError {
    /// The error's message.
    pub fn message(&self) -> (r: String)
        ensures
            match *self {
                ValidationError::CheckFailed(m) => r@ == "System validation failed: "@ + m@,
            },
    {
        match self {
            ValidationError::CheckFailed(m) => {
                let mut out = String::from_str("System validation failed: ");
                push_str(&mut out, m.as_str());
                out
            },
        }
    }
}

/// Whether every critical component was found.
pub open spec fn all_critical_installed(cs: Seq<SystemComponent>) -> bool {
    forall|i: int| 0 <= i < cs.len() && (#[trigger] cs[i]).is_critical ==> cs[i].status is Installed
}

/// The views of a list of strings.
pub open spec fn string_list(s: Seq<&str>) -> Seq<Seq<char>> {
    s.map_values(|x: &str| x@)
}

/// Whether `c` is the critical component `name` with the lookup result
/// `found` (a path when found).
pub open spec fn is_component(c: SystemComponent, name: Seq<char>, found: Option<String>) -> bool {
    &&& c.name@ == name
    &&& c.is_critical
    &&& match found {
        Some(p) => c.status matches ComponentStatus::Installed(q) && q@ == p@,
        None => c.status is Missing,
    }
}

impl ValidationReport {
    /// A report over `components`: ready when every critical one was found.
    pub fn assemble(os_name: &str, components: Vec<SystemComponent>) -> (r: ValidationReport)
        ensures
            r.os_name@ == os_name@,
            r.components@ == components@,
            r.is_ready == all_critical_installed(components@),
    {
        let mut ready = true;
        let mut i: usize = 0;
        while i < components.len()
            invariant
                i <= components@.len(),
                ready == forall|j: int| 0 <= j < i && (#[trigger] components@[j]).is_critical ==> components@[j].status is Installed,
            decreases components.len() - i,
        {
            let c = &components[i];
            if c.is_critical {
                match &c.status {
                    ComponentStatus::Installed(_) => {},
                    ComponentStatus::Missing => {
                        ready = false;
                    },
                }
            }
            i = i + 1;
        }
        ValidationReport { os_name: String::from_str(os_name), components, is_ready: ready }
    }
}

/// A critical component named `name`, found at `found` or missing.
pub fn critical_component(name: &str, found: Option<String>) -> (r: SystemComponent)
    ensures
        is_component(r, name@, found),
{
    let status = match found {
        Some(p) => ComponentStatus::Installed(p),
        None => ComponentStatus::Missing,
    };
    SystemComponent { name: String::from_str(name), status, is_critical: true }
}

/// The commands the Linux disk manager runs.
pub open spec fn linux_commands() -> Seq<Seq<char>> {
    seq!["parted"@, "partprobe"@, "e2fsck"@, "resize2fs"@, "mount"@, "umount"@, "btrfs"@]
}

/// Checks a Linux host.
pub struct LinuxValidator;

impl LinuxValidator {
    /// The commands that must be on the search path, in the order checked.
    pub fn required_commands() -> (r: Vec<&'static str>)
        ensures
            string_list(r@) == linux_commands(),
    {
        let r = vec!["parted", "partprobe", "e2fsck", "resize2fs", "mount", "umount", "btrfs"];
        assert(string_list(r@) =~= linux_commands());
        r
    }

    /// The report, given where each required command was found (in the
    /// order of `required_commands`; a missing entry counts as not found).
    pub fn report(found: Vec<Option<String>>) -> (r: ValidationReport)
        ensures
            r.os_name@ == "Linux"@,
            r.components@.len() == 7,
            forall|i: int| 0 <= i < 7 ==> is_component(#[trigger] r.components@[i], linux_commands()[i],
                if i < found@.len() { found@[i] } else { None }),
            r.is_ready == all_critical_installed(r.components@),
    {
        let names = Self::required_commands();
        let mut components: Vec<SystemComponent> = Vec::new();
        assert(names@.len() == string_list(names@).len());
        let mut i: usize = 0;
        while i < names.len()
            invariant
                string_list(names@) == linux_commands(),
                names@.len() == 7,
                i <= 7,
                components@.len() == i,
                forall|j: int| 0 <= j < i ==> is_component(#[trigger] components@[j], linux_commands()[j],
                    if j < found@.len() { found@[j] } else { None }),
            decreases 7 - i,
        {
            let f = if i < found.len() { found[i].clone() } else { None };
            assert(names@[i as int]@ == linux_commands()[i as int]);
            let c = critical_component(names[i], f);
            components.push(c);
            i = i + 1;
        }
        ValidationReport::assemble("Linux", components)
    }
}

/// Checks a Windows host.
pub struct WindowsValidator;

impl WindowsValidator {
    /// The report, given where PowerShell was found and whether the WMI
    /// storage namespace could be opened.
    pub fn report(powershell: Option<String>, wmi_storage: bool) -> (r: ValidationReport)
        ensures
            r.os_name@ == "Windows"@,
            r.components@.len() == 2,
            is_component(r.components@[0], "powershell.exe"@, powershell),
            r.components@[1].name@ == "WMI Storage API"@,
            r.components@[1].is_critical,
            wmi_storage ==> (r.components@[1].status matches ComponentStatus::Installed(p) && p@ == "System API"@),
            !wmi_storage ==> r.components@[1].status is Missing,
            r.is_ready == all_critical_installed(r.components@),
    {
        let mut components: Vec<SystemComponent> = Vec::new();
        components.push(critical_component("powershell.exe", powershell));
        let wmi = if wmi_storage { Some(String::from_str("System API")) } else { None };
        components.push(critical_component("WMI Storage API", wmi));
        ValidationReport::assemble("Windows", components)
    }
}

} // verus!
