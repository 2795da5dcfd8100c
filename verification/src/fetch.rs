//! Fetching of the pinned `ij-zed-proxy` release, as a state machine: the
//! caller performs each requested action (file system, download, editor
//! status) and reports its outcome as the next event.
//!
//! A proxy that cannot be fetched is no failure: the fetch then ends with
//! no proxy, and the server runs directly.

use vstd::prelude::*;
use crate::server::{Os, ProxyFetch, check_digest, digest_mismatch_message, text_result_view};
use crate::eula::{sha256_of, hex_bytes};

verus! {

broadcast use vstd::string::group_string_axioms;

/// Where the fetch stands: which action's outcome it waits for.
#[derive(Debug, Clone, Copy, PartialEq, Eq, Structural)]
pub enum FetchPhase {
    Start,
    CheckingExisting,
    Reporting,
    Creating,
    Downloading,
    Reading,
    Removing,
    MakingExecutable,
    Renaming,
    Clearing,
    Finished,
}

/// The outcome of the action last asked for.
pub enum FetchEvent {
    Begin,
    /// Whether `proxy_bin` exists.
    Exists(bool),
    Reported,
    /// `proxy_dir` was created (or the error).
    Created(Result<(), String>),
    Downloaded(Result<(), String>),
    /// The bytes of `download_path` (or the read error).
    Read(Result<Vec<u8>, String>),
    Removed,
    MadeExecutable(Result<(), String>),
    Renamed(Result<(), String>),
    Cleared,
}

/// What the caller does next.
pub enum FetchAction {
    /// Check whether `proxy_bin` exists.
    CheckExisting,
    /// Tell the editor the proxy is being downloaded.
    ReportDownloading,
    /// Create `proxy_dir` and its parents.
    CreateDir,
    /// Download this URL, uncompressed, to `download_path`.
    Download(String),
    /// Read the bytes of `download_path`.
    ReadDownload,
    /// Remove `download_path`; whether that works does not matter.
    RemoveDownload,
    /// Make `download_path` executable.
    MakeExecutable,
    /// Rename `download_path` to `proxy_bin`.
    Rename,
    /// Clear the editor status.
    ClearStatus,
    /// The proxy to run: `Some(proxy_bin)`, or `None` to run the server directly.
    Done(Option<String>),
}

/// A fetch of the release described by `fetch`.
pub struct ProxyFetcher {
    pub fetch: ProxyFetch,
    pub os: Os,
    /// Whether the editor is told about the download.
    pub report: bool,
    pub phase: FetchPhase,
    /// Whether the downloaded bytes matched the pinned SHA-256.
    pub verified: bool,
    /// How the fetch ended, kept while the download is removed or the
    /// status cleared.
    pub outcome: Result<String, String>,
}

pub open spec fn fetch_ok(o: Result<Seq<char>, Seq<char>>) -> Option<Seq<char>> {
    match o {
        Ok(p) => Some(p),
        Err(_) => None,
    }
}

pub open spec fn done_view(a: FetchAction) -> Option<Seq<char>> {
    match a {
        FetchAction::Done(Some(p)) => Some(p@),
        _ => None,
    }
}

/// `a` ends the fetch with the proxy `p` (`None`: no proxy).
pub open spec fn is_done_with(a: FetchAction, p: Option<Seq<char>>) -> bool {
    a is Done && done_view(a) == p
}

/// The event answers the action asked for in `phase`.
pub open spec fn fetch_event_fits(phase: FetchPhase, e: FetchEvent) -> bool {
    match phase {
        FetchPhase::Start => e is Begin,
        FetchPhase::CheckingExisting => e is Exists,
        FetchPhase::Reporting => e is Reported,
        FetchPhase::Creating => e is Created,
        FetchPhase::Downloading => e is Downloaded,
        FetchPhase::Reading => e is Read,
        FetchPhase::Removing => e is Removed,
        FetchPhase::MakingExecutable => e is MadeExecutable,
        FetchPhase::Renaming => e is Renamed,
        FetchPhase::Clearing => e is Cleared,
        FetchPhase::Finished => false,
    }
}

/// `e` brought downloaded bytes whose SHA-256 is `sha256`.
pub open spec fn digest_matched(e: FetchEvent, sha256: Seq<char>) -> bool {
    match e {
        FetchEvent::Read(Ok(bytes)) => hex_bytes(sha256_of(bytes@)) == sha256,
        _ => false,
    }
}

/// The fetch ends with `o`: the status is cleared first where it was set.
pub open spec fn finish_next(s: ProxyFetcher, t: ProxyFetcher, a: FetchAction, o: Result<Seq<char>, Seq<char>>) -> bool {
    &&& text_result_view(t.outcome) == o
    &&& if s.report {
        t.phase == FetchPhase::Clearing && a is ClearStatus
    } else {
        t.phase == FetchPhase::Finished && is_done_with(a, fetch_ok(o))
    }
}

/// Once the download is verified: make it executable unless on Windows,
/// then put it in place.
pub open spec fn verified_next(s: ProxyFetcher, t: ProxyFetcher, a: FetchAction) -> bool {
    if s.os != Os::Windows {
        t.phase == FetchPhase::MakingExecutable && a is MakeExecutable
    } else {
        t.phase == FetchPhase::Renaming && a is Rename
    }
}

pub open spec fn missing_url_message() -> Seq<char> {
    "proxy-bundles.json: missing releaseBaseUrl"@
}

/// The transition of the fetcher on an event.
pub open spec fn fetch_step(s: ProxyFetcher, e: FetchEvent, t: ProxyFetcher, a: FetchAction) -> bool {
    &&& t.fetch == s.fetch
    &&& t.os == s.os
    &&& t.report == s.report
    &&& t.verified == (s.verified || digest_matched(e, s.fetch.sha256@))
    &&& match e {
        FetchEvent::Begin => t.phase == FetchPhase::CheckingExisting && a is CheckExisting,
        FetchEvent::Exists(true) => t.phase == FetchPhase::Finished && is_done_with(a, Some(s.fetch.proxy_bin@)),
        FetchEvent::Exists(false) => if s.report {
            t.phase == FetchPhase::Reporting && a is ReportDownloading
        } else {
            t.phase == FetchPhase::Creating && a is CreateDir
        },
        FetchEvent::Reported => t.phase == FetchPhase::Creating && a is CreateDir,
        FetchEvent::Created(Err(m)) => finish_next(s, t, a, Err(m@)),
        FetchEvent::Created(Ok(())) => match s.fetch.url {
            None => finish_next(s, t, a, Err(missing_url_message())),
            Some(u) => t.phase == FetchPhase::Downloading && a is Download && a->Download_0@ == u@,
        },
        FetchEvent::Downloaded(Err(m)) => finish_next(s, t, a, Err(m@)),
        FetchEvent::Downloaded(Ok(())) => t.phase == FetchPhase::Reading && a is ReadDownload,
        FetchEvent::Read(Err(m)) => finish_next(s, t, a, Err(m@)),
        FetchEvent::Read(Ok(bytes)) => if hex_bytes(sha256_of(bytes@)) == s.fetch.sha256@ {
            verified_next(s, t, a)
        } else {
            &&& t.phase == FetchPhase::Removing
            &&& text_result_view(t.outcome) == Err::<Seq<char>, Seq<char>>(
                digest_mismatch_message(s.fetch.archive@, s.fetch.sha256@, hex_bytes(sha256_of(bytes@))),
            )
            &&& a is RemoveDownload
        },
        FetchEvent::Removed => finish_next(s, t, a, text_result_view(s.outcome)),
        FetchEvent::MadeExecutable(Err(m)) => finish_next(s, t, a, Err(m@)),
        FetchEvent::MadeExecutable(Ok(())) => t.phase == FetchPhase::Renaming && a is Rename,
        FetchEvent::Renamed(Err(m)) => finish_next(s, t, a, Err(m@)),
        FetchEvent::Renamed(Ok(())) => finish_next(s, t, a, Ok(s.fetch.proxy_bin@)),
        FetchEvent::Cleared => t.phase == FetchPhase::Finished && is_done_with(
            a,
            fetch_ok(text_result_view(s.outcome)),
        ),
    }
}

impl ProxyFetcher {
    /// A kept outcome is the fetched binary or a failure, and the download
    /// is made executable or put in place only once verified.
    pub open spec fn wf(&self) -> bool {
        &&& self.outcome is Ok ==> self.outcome->Ok_0@ == self.fetch.proxy_bin@
        &&& (self.phase == FetchPhase::MakingExecutable || self.phase == FetchPhase::Renaming) ==> self.verified
    }

    /// A fetch of `fetch` on `os`; `report` tells whether the editor is to be
    /// told about the download.
    pub fn new(fetch: ProxyFetch, os: Os, report: bool) -> (r: ProxyFetcher)
        ensures
            r.wf(),
            r.fetch == fetch,
            r.os == os,
            r.report == report,
            r.phase == FetchPhase::Start,
            !r.verified,
    {
        ProxyFetcher { fetch, os, report, phase: FetchPhase::Start, verified: false, outcome: Err(String::new()) }
    }

    fn finish(&mut self, o: Result<String, String>) -> (a: FetchAction)
        requires
            old(self).wf(),
            o is Ok ==> o->Ok_0@ == old(self).fetch.proxy_bin@,
        ensures
            final(self).wf(),
            final(self).fetch == old(self).fetch,
            final(self).os == old(self).os,
            final(self).report == old(self).report,
            final(self).verified == old(self).verified,
            finish_next(*old(self), *final(self), a, text_result_view(o)),
    {
        if self.report {
            self.phase = FetchPhase::Clearing;
            self.outcome = o;
            FetchAction::ClearStatus
        } else {
            self.phase = FetchPhase::Finished;
            let r = match &o {
                Ok(p) => Some(p.clone()),
                Err(_) => None,
            };
            self.outcome = o;
            FetchAction::Done(r)
        }
    }

    /// Advances the fetch by the outcome of the last action.
    pub fn step(&mut self, event: FetchEvent) -> (a: FetchAction)
        requires
            old(self).wf(),
            fetch_event_fits(old(self).phase, event),
        ensures
            final(self).wf(),
            fetch_step(*old(self), event, *final(self), a),
    {
        match event {
            FetchEvent::Begin => {
                self.phase = FetchPhase::CheckingExisting;
                FetchAction::CheckExisting
            },
            FetchEvent::Exists(exists) => {
                if exists {
                    self.phase = FetchPhase::Finished;
                    FetchAction::Done(Some(self.fetch.proxy_bin.clone()))
                } else if self.report {
                    self.phase = FetchPhase::Reporting;
                    FetchAction::ReportDownloading
                } else {
                    self.phase = FetchPhase::Creating;
                    FetchAction::CreateDir
                }
            },
            FetchEvent::Reported => {
                self.phase = FetchPhase::Creating;
                FetchAction::CreateDir
            },
            FetchEvent::Created(Err(m)) => self.finish(Err(m)),
            FetchEvent::Created(Ok(())) => {
                match &self.fetch.url {
                    None => self.finish(Err(String::from_str("proxy-bundles.json: missing releaseBaseUrl"))),
                    Some(u) => {
                        let u = u.clone();
                        self.phase = FetchPhase::Downloading;
                        FetchAction::Download(u)
                    },
                }
            },
            FetchEvent::Downloaded(Err(m)) => self.finish(Err(m)),
            FetchEvent::Downloaded(Ok(())) => {
                self.phase = FetchPhase::Reading;
                FetchAction::ReadDownload
            },
            FetchEvent::Read(Err(m)) => self.finish(Err(m)),
            FetchEvent::Read(Ok(bytes)) => {
                match check_digest(self.fetch.archive.as_str(), self.fetch.sha256.as_str(), bytes.as_slice()) {
                    Ok(()) => {
                        self.verified = true;
                        if self.os != Os::Windows {
                            self.phase = FetchPhase::MakingExecutable;
                            FetchAction::MakeExecutable
                        } else {
                            self.phase = FetchPhase::Renaming;
                            FetchAction::Rename
                        }
                    },
                    Err(m) => {
                        self.phase = FetchPhase::Removing;
                        self.outcome = Err(m);
                        FetchAction::RemoveDownload
                    },
                }
            },
            FetchEvent::Removed => {
                let o = match &self.outcome {
                    Ok(p) => Ok(p.clone()),
                    Err(e) => Err(e.clone()),
                };
                self.finish(o)
            },
            FetchEvent::MadeExecutable(Err(m)) => self.finish(Err(m)),
            FetchEvent::MadeExecutable(Ok(())) => {
                self.phase = FetchPhase::Renaming;
                FetchAction::Rename
            },
            FetchEvent::Renamed(Err(m)) => self.finish(Err(m)),
            FetchEvent::Renamed(Ok(())) => {
                let p = self.fetch.proxy_bin.clone();
                self.finish(Ok(p))
            },
            FetchEvent::Cleared => {
                self.phase = FetchPhase::Finished;
                let r = match &self.outcome {
                    Ok(p) => Some(p.clone()),
                    Err(_) => None,
                };
                FetchAction::Done(r)
            },
        }
    }
}

/// The downloaded proxy is made executable or put in place only once its
/// bytes matched the pinned SHA-256, and a fetch that hands out a proxy
/// hands out `proxy_bin`.
pub proof fn lemma_fetch_safety(s: ProxyFetcher, e: FetchEvent, t: ProxyFetcher, a: FetchAction)
    requires
        s.wf(),
        fetch_event_fits(s.phase, e),
        fetch_step(s, e, t, a),
    ensures
        (a is MakeExecutable || a is Rename) ==> t.verified,
        t.verified ==> s.verified || digest_matched(e, s.fetch.sha256@),
        done_view(a) is Some ==> done_view(a) == Some(s.fetch.proxy_bin@),
{
}

} // verus!
