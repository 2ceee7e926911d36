//! Detection and provisioning of the external archiving tool (7-Zip).
//!
//! Detection is an ordered probe: a registry-equivalent uninstall entry
//! wins; otherwise the first hit on the executable search path is taken,
//! with a synthetic version marker; otherwise the tool is reported absent.
//! The probes themselves (registry read, path scan, download, elevated
//! execution) are platform calls made by the caller, which hands their
//! plain-value results to the functions here.

use vstd::prelude::*;
use crate::model::Error;

verus! {

/// A registry-equivalent uninstall entry for the tool: the recorded display
/// version and install location.
pub struct RegistryEntry {
    pub display_version: String,
    pub install_location: String,
}

#[verifier::ext_equal]
pub ghost struct RegistryEntryView {
    pub display_version: Seq<char>,
    pub install_location: Seq<char>,
}

impl View for RegistryEntry {
    type V = RegistryEntryView;

    open spec fn view(&self) -> RegistryEntryView {
        RegistryEntryView {
            display_version: self.display_version@,
            install_location: self.install_location@,
        }
    }
}

/// The processor architectures with a known vendor installer artifact.
#[derive(Clone, Copy, PartialEq, Eq, Structural, Debug)]
pub enum Arch {
    X86,
    X64,
    Arm64,
}

/// The detected (or absent) archiving tool: `version` present exactly when
/// the tool is considered installed.  Transient; recomputed on every
/// detection and never persisted.
pub struct _7Zip {
    pub version: Option<String>,
    pub executable: Option<String>,
}

#[verifier::ext_equal]
pub ghost struct _7ZipView {
    pub version: Option<Seq<char>>,
    pub executable: Option<Seq<char>>,
}

impl View for _7Zip {
    type V = _7ZipView;

    open spec fn view(&self) -> _7ZipView {
        _7ZipView {
            version: match self.version {
                Some(s) => Some(s@),
                None => None,
            },
            executable: match self.executable {
                Some(s) => Some(s@),
                None => None,
            },
        }
    }
}

/// The tool's executable under an install directory, with a separator added
/// only when the directory does not already end in one.
pub open spec fn spec_join_exe(dir: Seq<char>) -> Seq<char> {
    if dir.len() > 0 && dir[dir.len() - 1] == '\\' {
        dir + "7z.exe"@
    } else {
        dir + "\\7z.exe"@
    }
}

/// What detection derives from the registry probe: version and executable
/// from the entry when one exists, an empty descriptor otherwise.
pub open spec fn spec_from_registry(e: Option<RegistryEntryView>) -> _7ZipView {
    match e {
        Some(ent) => _7ZipView {
            version: Some(ent.display_version),
            executable: Some(spec_join_exe(ent.install_location)),
        },
        None => _7ZipView { version: None, executable: None },
    }
}

fn join_exe(dir: &String) -> (r: String)
    ensures
        r@ == spec_join_exe(dir@),
{
    let n = dir.as_str().unicode_len();
    let mut out = dir.clone();
    if n > 0 && dir.as_str().get_char(n - 1) == '\\' {
        out.append("7z.exe");
    } else {
        out.append("\\7z.exe");
    }
    out
}

impl _7Zip {
    /// Detection step one: derive the descriptor from the registry probe's
    /// result.
    pub fn new_from_registry(entry: &Option<RegistryEntry>) -> (r: _7Zip)
        ensures
            r@ == spec_from_registry(match entry {
                Some(e) => Some(e@),
                None => None,
            }),
    {
        match entry {
            Some(e) => _7Zip {
                version: Some(e.display_version.clone()),
                executable: Some(join_exe(&e.install_location)),
            },
            None => _7Zip { version: None, executable: None },
        }
    }

    /// Detection step two: the first directory of the executable search
    /// path that holds the binary (`present[i]` reports whether directory
    /// `i` does).  A tool found this way has no retrievable version string,
    /// so a synthetic non-empty marker is reported.
    pub fn new_from_path(dirs: &Vec<String>, present: &Vec<bool>) -> (r: _7Zip)
        requires
            dirs@.len() == present@.len(),
        ensures
            (forall|j: int| 0 <= j < present@.len() ==> !present@[j])
                ==> r@ == (_7ZipView { version: None, executable: None }),
            forall|i: int|
                (0 <= i < present@.len() && present@[i] && (forall|j: int|
                    0 <= j < i ==> !present@[j]))
                    ==> r@ == (_7ZipView {
                        version: Some("0.0.0"@),
                        executable: Some(spec_join_exe(dirs@[i]@)),
                    }),
    {
        let mut i: usize = 0;
        while i < present.len()
            invariant
                i <= present@.len(),
                dirs@.len() == present@.len(),
                forall|j: int| 0 <= j < i ==> !present@[j],
            decreases present@.len() - i,
        {
            if present[i] {
                return _7Zip {
                    version: Some(String::from_str("0.0.0")),
                    executable: Some(join_exe(&dirs[i])),
                };
            }
            i += 1;
        }
        _7Zip { version: None, executable: None }
    }

    /// Ordered detection, first match wins: a registry entry beats a search
    /// path hit; absence at both steps is "not installed", not an error.
    pub fn new(registry: &Option<RegistryEntry>, dirs: &Vec<String>, present: &Vec<bool>) -> (r:
        _7Zip)
        requires
            dirs@.len() == present@.len(),
        ensures
            registry is Some ==> r@ == spec_from_registry(match registry {
                Some(e) => Some(e@),
                None => None,
            }),
            registry is None ==> {
                &&& (forall|j: int| 0 <= j < present@.len() ==> !present@[j])
                    ==> r@ == (_7ZipView { version: None, executable: None })
                &&& forall|i: int|
                    (0 <= i < present@.len() && present@[i] && (forall|j: int|
                        0 <= j < i ==> !present@[j]))
                        ==> r@ == (_7ZipView {
                            version: Some("0.0.0"@),
                            executable: Some(spec_join_exe(dirs@[i]@)),
                        })
            },
    {
        let reg = Self::new_from_registry(registry);
        if reg.version.is_some() {
            reg
        } else {
            Self::new_from_path(dirs, present)
        }
    }

    /// The executable to dispatch `run` arguments to; running a tool that
    /// was never detected fails with `NotInstalled`.
    pub fn command(&self) -> (r: Result<String, Error>)
        ensures
            match r {
                Ok(p) => self@.executable == Some(p@),
                Err(e) => e == Error::NotInstalled && self@.executable is None,
            },
    {
        match &self.executable {
            Some(p) => Ok(p.clone()),
            None => Err(Error::NotInstalled),
        }
    }
}

/// The version-pinned, architecture-selected installer URL.
pub open spec fn spec_download_url(arch: Arch) -> Seq<char> {
    match arch {
        Arch::X86 => "https://7-zip.org/a/7z2500.exe"@,
        Arch::X64 => "https://7-zip.org/a/7z2500-x64.exe"@,
        Arch::Arm64 => "https://7-zip.org/a/7z2500-arm64.exe"@,
    }
}

/// The installer package URL for the running architecture; an architecture
/// without a known artifact is a hard configuration error.
pub fn download_url(arch: Option<Arch>) -> (r: Result<String, Error>)
    ensures
        match r {
            Ok(u) => match arch {
                Some(a) => u@ == spec_download_url(a),
                None => false,
            },
            Err(e) => e == Error::UnsupportedPlatform && arch is None,
        },
{
    match arch {
        None => Err(Error::UnsupportedPlatform),
        Some(Arch::X86) => Ok(String::from_str("https://7-zip.org/a/7z2500.exe")),
        Some(Arch::X64) => Ok(String::from_str("https://7-zip.org/a/7z2500-x64.exe")),
        Some(Arch::Arm64) => Ok(String::from_str("https://7-zip.org/a/7z2500-arm64.exe")),
    }
}

/// The verdict of the install flow once the elevated installer has exited:
/// a non-success exit status is a terminal install failure.
pub fn install_verdict(exit_success: bool) -> (r: Result<(), Error>)
    ensures
        exit_success ==> r == Result::<(), Error>::Ok(()),
        !exit_success ==> r == Result::<(), Error>::Err(Error::InstallFailure),
{
    if exit_success {
        Ok(())
    } else {
        Err(Error::InstallFailure)
    }
}

} // verus!
