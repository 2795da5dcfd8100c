//! Download and installation of the pinned server bundle, as a state
//! machine: the caller performs each requested action (lock, file system,
//! download, `tar`) and reports its outcome as the next event.
//!
//! The archive is downloaded uncompressed so that its SHA-256 can be checked
//! before extraction; the host HTTP client cannot resume, so whole attempts
//! are retried (three at most, waiting two and then four seconds).

use vstd::prelude::*;
use crate::paths::{join, path_join};
use crate::server::{Bundle, Os, spec_launcher_path, spec_launcher_name, launcher_path, launcher_name, lock_dir, digest_mismatch_message};
use crate::eula::{sha256_hex, sha256_of, hex_bytes};
use crate::uri::{utf8_lossy, string_from_utf8_lossy};

verus! {

broadcast use vstd::string::group_string_axioms;

/// Where the installation stands: which action's outcome it waits for.
#[derive(Debug, Clone, Copy, PartialEq, Eq, Structural)]
pub enum InstallPhase {
    Start,
    Locking,
    CheckingExisting,
    Staging,
    Reporting,
    Downloading,
    Waiting,
    Reading,
    Extracting,
    Finding,
    Renaming,
    Rechecking,
    MakingExecutable,
    CleaningUp,
    Finished,
}

/// The outcome of the action last asked for.
pub enum InstallEvent {
    Begin,
    /// The install lock was taken (or why not).
    Locked(Result<(), String>),
    /// Whether the launcher under `final_dir` exists.
    LauncherExists(bool),
    /// `downloads_dir` and `extract_dir` were created (or the error).
    Staged(Result<(), String>),
    Reported,
    Downloaded(Result<(), String>),
    Waited,
    /// The bytes of the downloaded archive (or the read error).
    Read(Result<Vec<u8>, String>),
    /// `tar`'s exit status and standard error (or why it could not run).
    Extracted(Result<(Option<i32>, Vec<u8>), String>),
    /// The directory of the extracted archive that holds `bin/<launcher>`.
    Found(Option<String>),
    Renamed(Result<(), String>),
    MadeExecutable(Result<(), String>),
    CleanedUp,
}

/// What the caller does next.
pub enum InstallAction {
    /// Take the install lock `lock_dir` (creating `servers_dir` first).
    AcquireLock,
    /// Check whether the launcher under `final_dir` exists.
    CheckLauncher,
    /// Create `downloads_dir` and `extract_dir`.
    CreateStaging,
    /// Tell the editor the server is being downloaded.
    ReportDownloading,
    /// Download `bundle.url` to `archive_path`.
    Download,
    /// Remove `archive_path`, then sleep this many seconds.
    RetryAfter(u64),
    /// Read the bytes of `archive_path`.
    ReadArchive,
    /// Run `tar -xf <archive_path> -C <extract_dir>`.
    Extract,
    /// Find the directory holding `bin/<launcher>` in `extract_dir`.
    FindRoot,
    /// Rename this directory to `final_dir`.
    Rename(String),
    /// Make the launcher under `final_dir` executable.
    MakeExecutable,
    /// Remove `archive_path` and `extract_dir`, and clear the editor status.
    Cleanup,
    /// Release the lock (if taken) and return this result.
    Done(Result<String, String>),
}

/// An installation of `bundle` into `<workdir>/servers/<version>`.
pub struct Installer {
    pub bundle: Bundle,
    pub os: Os,
    pub servers_dir: String,
    pub final_dir: String,
    pub lock_dir: String,
    pub downloads_dir: String,
    pub archive_path: String,
    pub extract_dir: String,
    pub phase: InstallPhase,
    /// Download attempts made so far.
    pub attempt: u64,
    /// The error of the failed rename being double-checked.
    pub rename_error: String,
    /// The result reported once cleanup is done.
    pub outcome: Result<String, String>,
}

pub open spec fn is_done_ok(a: InstallAction, v: Seq<char>) -> bool {
    a is Done && a->Done_0 is Ok && a->Done_0->Ok_0@ == v
}

pub open spec fn is_done_err(a: InstallAction, m: Seq<char>) -> bool {
    a is Done && a->Done_0 is Err && a->Done_0->Err_0@ == m
}

pub open spec fn outcome_ok(o: Result<String, String>, v: Seq<char>) -> bool {
    o is Ok && o->Ok_0@ == v
}

pub open spec fn outcome_err(o: Result<String, String>, m: Seq<char>) -> bool {
    o is Err && o->Err_0@ == m
}

/// The event answers the action asked for in `phase`.
pub open spec fn event_fits(phase: InstallPhase, e: InstallEvent) -> bool {
    match phase {
        InstallPhase::Start => e is Begin,
        InstallPhase::Locking => e is Locked,
        InstallPhase::CheckingExisting => e is LauncherExists,
        InstallPhase::Staging => e is Staged,
        InstallPhase::Reporting => e is Reported,
        InstallPhase::Downloading => e is Downloaded,
        InstallPhase::Waiting => e is Waited,
        InstallPhase::Reading => e is Read,
        InstallPhase::Extracting => e is Extracted,
        InstallPhase::Finding => e is Found,
        InstallPhase::Renaming => e is Renamed,
        InstallPhase::Rechecking => e is LauncherExists,
        InstallPhase::MakingExecutable => e is MadeExecutable,
        InstallPhase::CleaningUp => e is CleanedUp,
        InstallPhase::Finished => false,
    }
}

/// The installer's fixed layout: everything but the progress fields.
pub open spec fn same_layout(a: Installer, b: Installer) -> bool {
    &&& a.bundle == b.bundle
    &&& a.os == b.os
    &&& a.servers_dir == b.servers_dir
    &&& a.final_dir == b.final_dir
    &&& a.lock_dir == b.lock_dir
    &&& a.downloads_dir == b.downloads_dir
    &&& a.archive_path == b.archive_path
    &&& a.extract_dir == b.extract_dir
}

/// After the server landed in `final_dir`: make the launcher executable
/// unless on Windows, where the installation is complete.
pub open spec fn installed_next(s: Installer, t: Installer, a: InstallAction) -> bool {
    if s.os != Os::Windows {
        t.phase == InstallPhase::MakingExecutable && a is MakeExecutable
    } else {
        t.phase == InstallPhase::CleaningUp && outcome_ok(t.outcome, s.final_dir@) && a is Cleanup
    }
}

/// Stop with the failure `m`, cleaning up the staging files first.
pub open spec fn fail_after_staging(t: Installer, a: InstallAction, m: Seq<char>) -> bool {
    t.phase == InstallPhase::CleaningUp && outcome_err(t.outcome, m) && a is Cleanup
}

pub open spec fn tar_failure_message(stderr: Seq<u8>) -> Seq<char> {
    "tar extraction failed: "@ + utf8_lossy(stderr)
}

/// The transition of the installer on an event.
pub open spec fn install_step(s: Installer, e: InstallEvent, t: Installer, a: InstallAction) -> bool {
    &&& same_layout(s, t)
    &&& match e {
        InstallEvent::Begin => t.phase == InstallPhase::Locking && a is AcquireLock,
        InstallEvent::Locked(Err(m)) => t.phase == InstallPhase::Finished && is_done_err(a, m@),
        InstallEvent::Locked(Ok(())) => t.phase == InstallPhase::CheckingExisting && a is CheckLauncher,
        InstallEvent::LauncherExists(exists) => if s.phase == InstallPhase::CheckingExisting {
            if exists {
                t.phase == InstallPhase::Finished && is_done_ok(a, s.final_dir@)
            } else {
                t.phase == InstallPhase::Staging && a is CreateStaging
            }
        } else if exists {
            installed_next(s, t, a)
        } else {
            fail_after_staging(t, a, "Cannot install server to "@ + s.final_dir@ + ": "@ + s.rename_error@)
        },
        InstallEvent::Staged(Err(m)) => t.phase == InstallPhase::Finished
            && is_done_err(a, "Cannot create download staging dirs: "@ + m@),
        InstallEvent::Staged(Ok(())) => t.phase == InstallPhase::Reporting && a is ReportDownloading,
        InstallEvent::Reported => t.phase == InstallPhase::Downloading && t.attempt == 1 && a is Download,
        InstallEvent::Downloaded(Ok(())) => t.phase == InstallPhase::Reading && a is ReadArchive,
        InstallEvent::Downloaded(Err(m)) => if s.attempt < 3 {
            t.phase == InstallPhase::Waiting && t.attempt == s.attempt && a == InstallAction::RetryAfter(
                (2 * s.attempt) as u64,
            )
        } else {
            fail_after_staging(t, a, "Failed to download "@ + s.bundle.url@ + " after 3 attempts: "@ + m@)
        },
        InstallEvent::Waited => t.phase == InstallPhase::Downloading && t.attempt == s.attempt + 1 && a is Download,
        InstallEvent::Read(Err(m)) => fail_after_staging(t, a, "Cannot read downloaded archive: "@ + m@),
        InstallEvent::Read(Ok(bytes)) => if hex_bytes(sha256_of(bytes@)) == s.bundle.sha256@ {
            t.phase == InstallPhase::Extracting && a is Extract
        } else {
            fail_after_staging(
                t,
                a,
                digest_mismatch_message(s.bundle.archive_name@, s.bundle.sha256@, hex_bytes(sha256_of(bytes@))),
            )
        },
        InstallEvent::Extracted(Err(m)) => fail_after_staging(t, a, "Failed to run tar: "@ + m@),
        InstallEvent::Extracted(Ok((status, stderr))) => if status == Some(0i32) {
            t.phase == InstallPhase::Finding && a is FindRoot
        } else {
            fail_after_staging(t, a, tar_failure_message(stderr@))
        },
        InstallEvent::Found(None) => fail_after_staging(
            t,
            a,
            "No bin/"@ + spec_launcher_name(s.os) + " found in the extracted archive"@,
        ),
        InstallEvent::Found(Some(dir)) => t.phase == InstallPhase::Renaming && a is Rename && a->Rename_0@ == dir@,
        InstallEvent::Renamed(Ok(())) => installed_next(s, t, a),
        InstallEvent::Renamed(Err(m)) => t.phase == InstallPhase::Rechecking && t.rename_error@ == m@
            && a is CheckLauncher,
        InstallEvent::MadeExecutable(Err(m)) => fail_after_staging(t, a, m@),
        InstallEvent::MadeExecutable(Ok(())) => t.phase == InstallPhase::CleaningUp
            && outcome_ok(t.outcome, s.final_dir@) && a is Cleanup,
        InstallEvent::CleanedUp => t.phase == InstallPhase::Finished && a is Done && a->Done_0 == s.outcome,
    }
}

/// The texts of `parts` one after another, as one string.
fn message(parts: &[&str]) -> (r: String)
    ensures
        r@ == concat_all(parts@),
{
    let mut out = String::new();
    let mut i: usize = 0;
    while i < parts.len()
        invariant
            i <= parts@.len(),
            out@ == concat_all(parts@.take(i as int)),
        decreases parts@.len() - i,
    {
        out.append(parts[i]);
        proof {
            assert(parts@.take(i + 1).drop_last() =~= parts@.take(i as int));
        }
        i = i + 1;
    }
    assert(parts@.take(parts@.len() as int) =~= parts@);
    out
}

/// The texts of `parts` one after another.
pub open spec fn concat_all(parts: Seq<&str>) -> Seq<char>
    decreases parts.len(),
{
    if parts.len() == 0 {
        Seq::empty()
    } else {
        concat_all(parts.drop_last()) + parts.last()@
    }
}

impl Installer {
    /// At most three download attempts, and a retry only after fewer.
    pub open spec fn wf(&self) -> bool {
        &&& self.attempt <= 3
        &&& self.phase == InstallPhase::Waiting ==> self.attempt < 3
    }

    /// An installer of `bundle` into the extension working directory `workdir`:
    /// `servers/<version>` is the destination, `downloads/` the staging area.
    pub fn new(bundle: Bundle, workdir: &str, os: Os) -> (r: Installer)
        ensures
            r.wf(),
            r.phase == InstallPhase::Start,
            r.bundle == bundle,
            r.os == os,
            r.attempt == 0,
            r.servers_dir@ == path_join(workdir@, "servers"@),
            r.final_dir@ == path_join(path_join(workdir@, "servers"@), bundle.version@),
            r.lock_dir@ == path_join(path_join(workdir@, "servers"@), ".install-"@ + bundle.version@ + ".lock"@),
            r.downloads_dir@ == path_join(workdir@, "downloads"@),
            r.archive_path@ == path_join(path_join(workdir@, "downloads"@), bundle.archive_name@),
            r.extract_dir@ == path_join(path_join(workdir@, "downloads"@), "extract-"@ + bundle.version@),
    {
        let servers_dir = join(workdir, "servers");
        let final_dir = join(servers_dir.as_str(), bundle.version.as_str());
        let lock = lock_dir(servers_dir.as_str(), bundle.version.as_str());
        let downloads_dir = join(workdir, "downloads");
        let archive_path = join(downloads_dir.as_str(), bundle.archive_name.as_str());
        let extract_name = String::from_str("extract-").concat(bundle.version.as_str());
        let extract_dir = join(downloads_dir.as_str(), extract_name.as_str());
        Installer {
            bundle,
            os,
            servers_dir,
            final_dir,
            lock_dir: lock,
            downloads_dir,
            archive_path,
            extract_dir,
            phase: InstallPhase::Start,
            attempt: 0,
            rename_error: String::new(),
            outcome: Ok(String::new()),
        }
    }

    /// The launcher path under `final_dir`.
    pub fn final_launcher(&self) -> (r: String)
        ensures
            r@ == spec_launcher_path(self.final_dir@, self.os),
    {
        launcher_path(self.final_dir.as_str(), self.os)
    }

    fn installed(&mut self) -> (a: InstallAction)
        requires
            old(self).wf(),
        ensures
            final(self).wf(),
            same_layout(*old(self), *final(self)),
            installed_next(*old(self), *final(self), a),
    {
        if self.os != Os::Windows {
            self.phase = InstallPhase::MakingExecutable;
            InstallAction::MakeExecutable
        } else {
            self.phase = InstallPhase::CleaningUp;
            self.outcome = Ok(self.final_dir.clone());
            InstallAction::Cleanup
        }
    }

    fn fail(&mut self, m: String) -> (a: InstallAction)
        requires
            old(self).wf(),
        ensures
            final(self).wf(),
            same_layout(*old(self), *final(self)),
            fail_after_staging(*final(self), a, m@),
    {
        self.phase = InstallPhase::CleaningUp;
        self.outcome = Err(m);
        InstallAction::Cleanup
    }

    /// Advances the installation by the outcome of the last action.
    pub fn step(&mut self, event: InstallEvent) -> (a: InstallAction)
        requires
            old(self).wf(),
            event_fits(old(self).phase, event),
        ensures
            final(self).wf(),
            install_step(*old(self), event, *final(self), a),
    {
        match event {
            InstallEvent::Begin => {
                self.phase = InstallPhase::Locking;
                InstallAction::AcquireLock
            },
            InstallEvent::Locked(Err(m)) => {
                self.phase = InstallPhase::Finished;
                InstallAction::Done(Err(m))
            },
            InstallEvent::Locked(Ok(())) => {
                self.phase = InstallPhase::CheckingExisting;
                InstallAction::CheckLauncher
            },
            InstallEvent::LauncherExists(exists) => {
                if self.phase == InstallPhase::CheckingExisting {
                    if exists {
                        self.phase = InstallPhase::Finished;
                        InstallAction::Done(Ok(self.final_dir.clone()))
                    } else {
                        self.phase = InstallPhase::Staging;
                        InstallAction::CreateStaging
                    }
                } else if exists {
                    self.installed()
                } else {
                    let m = message(&[
                        "Cannot install server to ",
                        self.final_dir.as_str(),
                        ": ",
                        self.rename_error.as_str(),
                    ]);
                    proof {
                        reveal_with_fuel(concat_all, 5);
                    }
                    self.fail(m)
                }
            },
            InstallEvent::Staged(Err(m)) => {
                self.phase = InstallPhase::Finished;
                InstallAction::Done(Err(String::from_str("Cannot create download staging dirs: ").concat(m.as_str())))
            },
            InstallEvent::Staged(Ok(())) => {
                self.phase = InstallPhase::Reporting;
                InstallAction::ReportDownloading
            },
            InstallEvent::Reported => {
                self.phase = InstallPhase::Downloading;
                self.attempt = 1;
                InstallAction::Download
            },
            InstallEvent::Downloaded(Ok(())) => {
                self.phase = InstallPhase::Reading;
                InstallAction::ReadArchive
            },
            InstallEvent::Downloaded(Err(m)) => {
                if self.attempt < 3 {
                    self.phase = InstallPhase::Waiting;
                    InstallAction::RetryAfter(2 * self.attempt)
                } else {
                    let msg = message(&["Failed to download ", self.bundle.url.as_str(), " after 3 attempts: ", m.as_str()]);
                    proof {
                        reveal_with_fuel(concat_all, 5);
                    }
                    self.fail(msg)
                }
            },
            InstallEvent::Waited => {
                self.phase = InstallPhase::Downloading;
                self.attempt = self.attempt + 1;
                InstallAction::Download
            },
            InstallEvent::Read(Err(m)) => {
                self.fail(String::from_str("Cannot read downloaded archive: ").concat(m.as_str()))
            },
            InstallEvent::Read(Ok(bytes)) => {
                let actual = sha256_hex(bytes.as_slice());
                if crate::json::str_eq(actual.as_str(), self.bundle.sha256.as_str()) {
                    self.phase = InstallPhase::Extracting;
                    InstallAction::Extract
                } else {
                    let m = message(&[
                        "SHA-256 mismatch for ",
                        self.bundle.archive_name.as_str(),
                        ": expected ",
                        self.bundle.sha256.as_str(),
                        ", got ",
                        actual.as_str(),
                    ]);
                    proof {
                        reveal_with_fuel(concat_all, 7);
                    }
                    self.fail(m)
                }
            },
            InstallEvent::Extracted(Err(m)) => {
                self.fail(String::from_str("Failed to run tar: ").concat(m.as_str()))
            },
            InstallEvent::Extracted(Ok((status, stderr))) => {
                if status == Some(0i32) {
                    self.phase = InstallPhase::Finding;
                    InstallAction::FindRoot
                } else {
                    let text = string_from_utf8_lossy(stderr.as_slice());
                    self.fail(String::from_str("tar extraction failed: ").concat(text.as_str()))
                }
            },
            InstallEvent::Found(None) => {
                let m = message(&["No bin/", launcher_name(self.os), " found in the extracted archive"]);
                proof {
                    reveal_with_fuel(concat_all, 4);
                }
                self.fail(m)
            },
            InstallEvent::Found(Some(dir)) => {
                self.phase = InstallPhase::Renaming;
                InstallAction::Rename(dir)
            },
            InstallEvent::Renamed(Ok(())) => self.installed(),
            InstallEvent::Renamed(Err(m)) => {
                self.phase = InstallPhase::Rechecking;
                self.rename_error = m;
                InstallAction::CheckLauncher
            },
            InstallEvent::MadeExecutable(Err(m)) => self.fail(m),
            InstallEvent::MadeExecutable(Ok(())) => {
                self.phase = InstallPhase::CleaningUp;
                self.outcome = Ok(self.final_dir.clone());
                InstallAction::Cleanup
            },
            InstallEvent::CleanedUp => {
                self.phase = InstallPhase::Finished;
                let o = match &self.outcome {
                    Ok(d) => Ok(d.clone()),
                    Err(e) => Err(e.clone()),
                };
                InstallAction::Done(o)
            },
        }
    }
}

/// Nothing is extracted before the downloaded archive's SHA-256 matched
/// the pinned one, and a successful installation always ends in the final
/// directory.
pub proof fn lemma_install_safety(s: Installer, e: InstallEvent, t: Installer, a: InstallAction)
    requires
        install_step(s, e, t, a),
    ensures
        a is Extract ==> match e {
            InstallEvent::Read(Ok(bytes)) => hex_bytes(sha256_of(bytes@)) == s.bundle.sha256@,
            _ => false,
        },
        (a is Done && a->Done_0 is Ok && e !is CleanedUp) ==> a->Done_0->Ok_0@ == s.final_dir@,
        (t.phase == InstallPhase::CleaningUp && t.outcome is Ok) ==> t.outcome->Ok_0@ == s.final_dir@,
{
}

} // verus!
