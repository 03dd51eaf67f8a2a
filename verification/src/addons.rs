//! The add-on records the installer keeps between runs.
//!
//! An [`Addon`] remembers its catalog page address, the version marker of
//! the installed release, and the top-level folders that release owns.
//! [`Addons`] is the whole configuration: the destination folder and every
//! known add-on.  Reading and writing the configuration file, and probing
//! the filesystem, happen outside the library; the functions here make the
//! decisions those collaborators act on.

use vstd::prelude::*;

verus! {

/// One tracked add-on.
pub struct Addon {
    /// The catalog page the add-on is fetched from.
    pub url: String,
    /// The version marker of the installed release, if any is installed.
    pub installed: Option<String>,
    /// The top-level folders the installed release owns.
    pub folders: Vec<String>,
}

impl Addon {
    /// A fresh record for an add-on that is not installed yet.
    pub fn new(url: &str) -> (a: Addon)
        ensures
            a.url@ == url@,
            a.installed is None,
            a.folders@.len() == 0,
    {
        Addon { url: url.to_owned(), installed: None, folders: Vec::new() }
    }

    /// Whether a release with the given version marker should be fetched:
    /// nothing is installed yet, or something other than that version is.
    pub fn needs_update(&self, version: &String) -> (b: bool)
        ensures
            b == match self.installed {
                None => true,
                Some(v) => v@ != version@,
            },
    {
        match &self.installed {
            None => true,
            Some(v) => !v.eq(version),
        }
    }

    /// Record a completed installation: the version marker and the
    /// owned-folder list the install call returned replace the old ones.
    pub fn record_install(&mut self, version: String, folders: Vec<String>)
        ensures
            final(self).url == old(self).url,
            final(self).installed == Some(version),
            final(self).folders == folders,
    {
        self.installed = Some(version);
        self.folders = folders;
    }
}

/// What stops an installation before it starts: the destination folder was
/// never configured, or it is not a directory.
#[derive(Clone, Copy, Debug, PartialEq, Eq, Structural)]
pub enum FolderProblem {
    NotSet,
    NotADirectory,
}

/// The whole configuration: the destination folder and the known add-ons.
pub struct Addons {
    /// The directory add-ons are installed into.
    pub addon_folder: String,
    /// Every add-on the installer knows about.
    pub addons: Vec<Addon>,
}

impl Addons {
    /// Whether an add-on with this catalog address is already tracked.
    pub fn is_installed(&self, url: &str) -> (b: bool)
        ensures
            b == exists|i: int| 0 <= i < self.addons@.len()
                && (#[trigger] self.addons@[i]).url@ == url@,
    {
        let u: String = url.to_owned();
        let mut k: usize = 0;
        while k < self.addons.len()
            invariant
                k <= self.addons@.len(),
                u@ == url@,
                forall|j: int| 0 <= j < k ==> (#[trigger] self.addons@[j]).url@ != url@,
            decreases self.addons@.len() - k,
        {
            if self.addons[k].url.eq(&u) {
                return true;
            }
            k = k + 1;
        }
        false
    }

    /// Decide whether the configured destination folder can be used,
    /// given whether it is a directory on disk.
    pub fn check_folder(&self, folder_is_dir: bool) -> (r: Result<(), FolderProblem>)
        ensures
            self.addon_folder@.len() == 0 ==> r == Err::<(), FolderProblem>(FolderProblem::NotSet),
            self.addon_folder@.len() > 0 && !folder_is_dir
                ==> r == Err::<(), FolderProblem>(FolderProblem::NotADirectory),
            self.addon_folder@.len() > 0 && folder_is_dir ==> r is Ok,
    {
        if self.addon_folder.as_str().is_empty() {
            Err(FolderProblem::NotSet)
        } else if !folder_is_dir {
            Err(FolderProblem::NotADirectory)
        } else {
            Ok(())
        }
    }
}

/// The well-known default destination on a Mac.
pub open spec fn mac_addons_dir() -> Seq<char> {
    "/Applications/World of Warcraft/Interface/Addons"@
}

/// The well-known default destination elsewhere.
pub open spec fn windows_addons_dir() -> Seq<char> {
    "C:\\Program Files (x86)\\World of Warcraft\\Interface\\Addons"@
}

/// The destination folder worth probing on this kind of system.
pub fn default_addons_dir(on_macos: bool) -> (p: String)
    ensures
        on_macos ==> p@ == mac_addons_dir(),
        !on_macos ==> p@ == windows_addons_dir(),
{
    if on_macos {
        "/Applications/World of Warcraft/Interface/Addons".to_owned()
    } else {
        "C:\\Program Files (x86)\\World of Warcraft\\Interface\\Addons".to_owned()
    }
}

/// The destination folder to start a fresh configuration with: the
/// system's well-known default when it exists as a directory (the caller
/// probes the filesystem), and empty otherwise, leaving the user to set it.
pub fn discover_addon_folder(on_macos: bool, candidate_is_dir: bool) -> (p: String)
    ensures
        candidate_is_dir && on_macos ==> p@ == mac_addons_dir(),
        candidate_is_dir && !on_macos ==> p@ == windows_addons_dir(),
        !candidate_is_dir ==> p@ == Seq::<char>::empty(),
{
    if candidate_is_dir {
        default_addons_dir(on_macos)
    } else {
        let p = String::new();
        proof {
            assert(p@ =~= Seq::<char>::empty());
        }
        p
    }
}

/// A fresh configuration around the discovered destination folder, with no
/// add-ons tracked yet.  The caller persists it.
pub fn addons_default(folder: String) -> (a: Addons)
    ensures
        a.addon_folder == folder,
        a.addons@.len() == 0,
{
    Addons { addon_folder: folder, addons: Vec::new() }
}

} // verus!
