//! The installation pipeline as a state machine. The machine takes every
//! decision — reuse or redownload, verify, wipe, extract, rename, repoint
//! the link, clean up — while the caller only performs the named filesystem
//! and network steps and reports what happened. Re-running after a crash is
//! safe by construction: a stale or unverifiable download is deleted and
//! fetched afresh, and an already-installed version ends the run before any
//! write.

use vstd::prelude::*;
use crate::checksum::{ChecksumMethod, spec_find_digest, find_digest_for};

verus! {

/// Where the expected digest comes from.
pub enum ChecksumSource {
    /// The catalog row carries the digest itself.
    Inline { method: ChecksumMethod, digest: String },
    /// A digest file must be fetched; with `lookup_file` the artifact's
    /// entry is looked up in it, otherwise the whole text is the digest.
    FetchText { url: String, method: ChecksumMethod, lookup_file: bool },
    /// No digest is known; a cached download can never be trusted.
    Absent,
}

pub struct ChecksumSourceView {
    pub kind: int,
    pub method: ChecksumMethod,
    pub digest: Seq<char>,
    pub url: Seq<char>,
    pub lookup_file: bool,
}

impl View for ChecksumSource {
    type V = ChecksumSourceView;

    open spec fn view(&self) -> ChecksumSourceView {
        match self {
            ChecksumSource::Inline { method, digest } => ChecksumSourceView {
                kind: 0,
                method: *method,
                digest: digest@,
                url: Seq::empty(),
                lookup_file: false,
            },
            ChecksumSource::FetchText { url, method, lookup_file } => ChecksumSourceView {
                kind: 1,
                method: *method,
                digest: Seq::empty(),
                url: url@,
                lookup_file: *lookup_file,
            },
            ChecksumSource::Absent => ChecksumSourceView {
                kind: 2,
                method: ChecksumMethod::Skip,
                digest: Seq::empty(),
                url: Seq::empty(),
                lookup_file: false,
            },
        }
    }
}

/// How the extracted top-level folder is named.
pub enum ExtractDirSource {
    /// The archive's top folder is known beforehand; a leftover of the same
    /// name is wiped before extraction.
    Fixed { name: String },
    /// The extractor reports the top folder; `fallback` stands in when it
    /// cannot.
    Reported { fallback: String },
}

pub struct ExtractDirSourceView {
    pub fixed: bool,
    pub name: Seq<char>,
}

impl View for ExtractDirSource {
    type V = ExtractDirSourceView;

    open spec fn view(&self) -> ExtractDirSourceView {
        match self {
            ExtractDirSource::Fixed { name } => ExtractDirSourceView { fixed: true, name: name@ },
            ExtractDirSource::Reported { fallback } => ExtractDirSourceView {
                fixed: false,
                name: fallback@,
            },
        }
    }
}

/// Everything the pipeline needs to know, computed before it starts.
pub struct InstallRequest {
    /// The canonical installed-directory name.
    pub version_dir: String,
    /// The artifact's file name in the transient download directory.
    pub archive_file: String,
    pub url: String,
    pub checksum: ChecksumSource,
    pub extract_dir: ExtractDirSource,
    /// Whether the current-version link is repointed on success.
    pub link_after: bool,
}

pub struct InstallRequestView {
    pub version_dir: Seq<char>,
    pub archive_file: Seq<char>,
    pub url: Seq<char>,
    pub checksum: ChecksumSourceView,
    pub extract_dir: ExtractDirSourceView,
    pub link_after: bool,
}

impl View for InstallRequest {
    type V = InstallRequestView;

    open spec fn view(&self) -> InstallRequestView {
        InstallRequestView {
            version_dir: self.version_dir@,
            archive_file: self.archive_file@,
            url: self.url@,
            checksum: self.checksum@,
            extract_dir: self.extract_dir@,
            link_after: self.link_after,
        }
    }
}

/// What the caller reports back after performing an action.
pub enum InstallEvent {
    InstalledAnswer { installed: bool },
    ChecksumText { text: String },
    TmpFileExists { exists: bool },
    VerifyAnswer { ok: bool },
    FileDeleted,
    Downloaded,
    DirWiped,
    Extracted { top_folder: Option<String> },
    Renamed,
    LinkAnswer { exists: bool },
    LinkRemoved,
    LinkCreated,
}

pub struct InstallEventView {
    pub kind: int,
    pub flag: bool,
    pub text: Seq<char>,
    pub top_folder: Option<Seq<char>>,
}

impl View for InstallEvent {
    type V = InstallEventView;

    open spec fn view(&self) -> InstallEventView {
        match self {
            InstallEvent::InstalledAnswer { installed } => InstallEventView {
                kind: 0,
                flag: *installed,
                text: Seq::empty(),
                top_folder: None,
            },
            InstallEvent::ChecksumText { text } => InstallEventView {
                kind: 1,
                flag: false,
                text: text@,
                top_folder: None,
            },
            InstallEvent::TmpFileExists { exists } => InstallEventView {
                kind: 2,
                flag: *exists,
                text: Seq::empty(),
                top_folder: None,
            },
            InstallEvent::VerifyAnswer { ok } => InstallEventView {
                kind: 3,
                flag: *ok,
                text: Seq::empty(),
                top_folder: None,
            },
            InstallEvent::FileDeleted => InstallEventView {
                kind: 4,
                flag: false,
                text: Seq::empty(),
                top_folder: None,
            },
            InstallEvent::Downloaded => InstallEventView {
                kind: 5,
                flag: false,
                text: Seq::empty(),
                top_folder: None,
            },
            InstallEvent::DirWiped => InstallEventView {
                kind: 6,
                flag: false,
                text: Seq::empty(),
                top_folder: None,
            },
            InstallEvent::Extracted { top_folder } => InstallEventView {
                kind: 7,
                flag: false,
                text: Seq::empty(),
                top_folder: match top_folder {
                    Some(t) => Some(t@),
                    None => None,
                },
            },
            InstallEvent::Renamed => InstallEventView {
                kind: 8,
                flag: false,
                text: Seq::empty(),
                top_folder: None,
            },
            InstallEvent::LinkAnswer { exists } => InstallEventView {
                kind: 9,
                flag: *exists,
                text: Seq::empty(),
                top_folder: None,
            },
            InstallEvent::LinkRemoved => InstallEventView {
                kind: 10,
                flag: false,
                text: Seq::empty(),
                top_folder: None,
            },
            InstallEvent::LinkCreated => InstallEventView {
                kind: 11,
                flag: false,
                text: Seq::empty(),
                top_folder: None,
            },
        }
    }
}

pub enum InstallOutcome {
    Success,
    SuccessNeedHint,
    AlreadyInstalled,
    VerificationFailed,
}

/// What the caller is asked to do next. Only some actions write to the
/// world; the probes and the fetches of text do not.
pub enum InstallAction {
    /// Report whether the canonical version directory exists.
    CheckInstalled { version_dir: String },
    /// Fetch the digest listing text.
    FetchChecksum { url: String },
    /// Report whether the artifact file exists in the download directory.
    ProbeTmpFile { file: String },
    /// Verify the file's bytes against the digest.
    VerifyFile { file: String, method: ChecksumMethod, digest: String },
    DeleteTmpFile { file: String },
    Download { url: String, file: String },
    /// Remove the directory if it exists.
    WipeDir { dir: String },
    /// Extract the artifact into the versions directory and report the
    /// archive's top folder when determinable.
    Extract { file: String },
    Rename { from: String, to: String },
    ProbeCurrentLink,
    RemoveCurrentLink,
    CreateCurrentLink { to: String },
    Finish { outcome: InstallOutcome },
}

pub struct InstallActionView {
    pub kind: int,
    pub a: Seq<char>,
    pub b: Seq<char>,
    pub method: ChecksumMethod,
    pub outcome: Option<InstallOutcome>,
}

impl View for InstallAction {
    type V = InstallActionView;

    open spec fn view(&self) -> InstallActionView {
        match self {
            InstallAction::CheckInstalled { version_dir } => InstallActionView {
                kind: 0,
                a: version_dir@,
                b: Seq::empty(),
                method: ChecksumMethod::Skip,
                outcome: None,
            },
            InstallAction::FetchChecksum { url } => InstallActionView {
                kind: 1,
                a: url@,
                b: Seq::empty(),
                method: ChecksumMethod::Skip,
                outcome: None,
            },
            InstallAction::ProbeTmpFile { file } => InstallActionView {
                kind: 2,
                a: file@,
                b: Seq::empty(),
                method: ChecksumMethod::Skip,
                outcome: None,
            },
            InstallAction::VerifyFile { file, method, digest } => InstallActionView {
                kind: 3,
                a: file@,
                b: digest@,
                method: *method,
                outcome: None,
            },
            InstallAction::DeleteTmpFile { file } => InstallActionView {
                kind: 4,
                a: file@,
                b: Seq::empty(),
                method: ChecksumMethod::Skip,
                outcome: None,
            },
            InstallAction::Download { url, file } => InstallActionView {
                kind: 5,
                a: url@,
                b: file@,
                method: ChecksumMethod::Skip,
                outcome: None,
            },
            InstallAction::WipeDir { dir } => InstallActionView {
                kind: 6,
                a: dir@,
                b: Seq::empty(),
                method: ChecksumMethod::Skip,
                outcome: None,
            },
            InstallAction::Extract { file } => InstallActionView {
                kind: 7,
                a: file@,
                b: Seq::empty(),
                method: ChecksumMethod::Skip,
                outcome: None,
            },
            InstallAction::Rename { from, to } => InstallActionView {
                kind: 8,
                a: from@,
                b: to@,
                method: ChecksumMethod::Skip,
                outcome: None,
            },
            InstallAction::ProbeCurrentLink => InstallActionView {
                kind: 9,
                a: Seq::empty(),
                b: Seq::empty(),
                method: ChecksumMethod::Skip,
                outcome: None,
            },
            InstallAction::RemoveCurrentLink => InstallActionView {
                kind: 10,
                a: Seq::empty(),
                b: Seq::empty(),
                method: ChecksumMethod::Skip,
                outcome: None,
            },
            InstallAction::CreateCurrentLink { to } => InstallActionView {
                kind: 11,
                a: to@,
                b: Seq::empty(),
                method: ChecksumMethod::Skip,
                outcome: None,
            },
            InstallAction::Finish { outcome } => InstallActionView {
                kind: 12,
                a: Seq::empty(),
                b: Seq::empty(),
                method: ChecksumMethod::Skip,
                outcome: Some(*outcome),
            },
        }
    }
}

/// Whether an action writes to the filesystem.
pub open spec fn spec_action_mutates(a: InstallActionView) -> bool {
    a.kind == 4 || a.kind == 5 || a.kind == 6 || a.kind == 7 || a.kind == 8 || a.kind == 10
        || a.kind == 11
}

#[derive(PartialEq, Eq, Structural, Clone, Copy, Debug)]
pub enum InstallStep {
    Start,
    AwaitInstalled,
    AwaitChecksumText,
    AwaitTmpProbe,
    AwaitPreVerify,
    AwaitPreDelete,
    AwaitDownload,
    AwaitPostVerify,
    AwaitWipe,
    AwaitExtract,
    AwaitRename,
    AwaitLinkProbe,
    AwaitLinkRemove,
    AwaitLinkCreate,
    AwaitFinalDelete,
    AwaitFailDelete,
    Done,
}

pub struct InstallMachine {
    pub req: InstallRequest,
    pub step: InstallStep,
    pub digest: Option<(ChecksumMethod, String)>,
    pub hint: bool,
}

pub struct InstallMachineView {
    pub req: InstallRequestView,
    pub step: InstallStep,
    pub digest: Option<(ChecksumMethod, Seq<char>)>,
    pub hint: bool,
}

impl View for InstallMachine {
    type V = InstallMachineView;

    open spec fn view(&self) -> InstallMachineView {
        InstallMachineView {
            req: self.req@,
            step: self.step,
            digest: match &self.digest {
                Some(p) => Some((p.0, p.1@)),
                None => None,
            },
            hint: self.hint,
        }
    }
}

/// Which event a waiting machine expects.
pub open spec fn spec_expects(step: InstallStep, ev: InstallEventView) -> bool {
    match step {
        InstallStep::AwaitInstalled => ev.kind == 0,
        InstallStep::AwaitChecksumText => ev.kind == 1,
        InstallStep::AwaitTmpProbe => ev.kind == 2,
        InstallStep::AwaitPreVerify => ev.kind == 3,
        InstallStep::AwaitPreDelete => ev.kind == 4,
        InstallStep::AwaitDownload => ev.kind == 5,
        InstallStep::AwaitPostVerify => ev.kind == 3,
        InstallStep::AwaitWipe => ev.kind == 6,
        InstallStep::AwaitExtract => ev.kind == 7,
        InstallStep::AwaitRename => ev.kind == 8,
        InstallStep::AwaitLinkProbe => ev.kind == 9,
        InstallStep::AwaitLinkRemove => ev.kind == 10,
        InstallStep::AwaitLinkCreate => ev.kind == 11,
        InstallStep::AwaitFinalDelete => ev.kind == 4,
        InstallStep::AwaitFailDelete => ev.kind == 4,
        InstallStep::Start => false,
        InstallStep::Done => false,
    }
}

/// The state and action that enter the extraction phase.
pub open spec fn spec_extract_entry(m: InstallMachineView) -> (
    InstallMachineView,
    InstallActionView,
) {
    if m.req.extract_dir.fixed {
        (
            InstallMachineView { step: InstallStep::AwaitWipe, ..m },
            InstallActionView {
                kind: 6,
                a: m.req.extract_dir.name,
                b: Seq::empty(),
                method: ChecksumMethod::Skip,
                outcome: None,
            },
        )
    } else {
        (
            InstallMachineView { step: InstallStep::AwaitExtract, ..m },
            InstallActionView {
                kind: 7,
                a: m.req.archive_file,
                b: Seq::empty(),
                method: ChecksumMethod::Skip,
                outcome: None,
            },
        )
    }
}

pub open spec fn spec_view_action(kind: int, a: Seq<char>, b: Seq<char>) -> InstallActionView {
    InstallActionView { kind: kind, a: a, b: b, method: ChecksumMethod::Skip, outcome: None }
}

pub open spec fn spec_finish(outcome: InstallOutcome) -> InstallActionView {
    InstallActionView {
        kind: 12,
        a: Seq::empty(),
        b: Seq::empty(),
        method: ChecksumMethod::Skip,
        outcome: Some(outcome),
    }
}

/// The machine's whole transition relation.
pub open spec fn spec_step(m: InstallMachineView, ev: InstallEventView) -> (
    InstallMachineView,
    InstallActionView,
) {
    match m.step {
        InstallStep::AwaitInstalled => {
            if ev.flag {
                (
                    InstallMachineView { step: InstallStep::Done, ..m },
                    spec_finish(InstallOutcome::AlreadyInstalled),
                )
            } else if m.req.checksum.kind == 1 {
                (
                    InstallMachineView { step: InstallStep::AwaitChecksumText, ..m },
                    spec_view_action(1, m.req.checksum.url, Seq::empty()),
                )
            } else {
                let digest = if m.req.checksum.kind == 0 {
                    Some((m.req.checksum.method, m.req.checksum.digest))
                } else {
                    None
                };
                (
                    InstallMachineView { step: InstallStep::AwaitTmpProbe, digest: digest, ..m },
                    spec_view_action(2, m.req.archive_file, Seq::empty()),
                )
            }
        },
        InstallStep::AwaitChecksumText => {
            let digest = if m.req.checksum.lookup_file {
                match spec_find_digest(ev.text, m.req.archive_file) {
                    Some(d) => Some((m.req.checksum.method, d)),
                    None => None,
                }
            } else {
                Some((m.req.checksum.method, ev.text))
            };
            (
                InstallMachineView { step: InstallStep::AwaitTmpProbe, digest: digest, ..m },
                spec_view_action(2, m.req.archive_file, Seq::empty()),
            )
        },
        InstallStep::AwaitTmpProbe => {
            if !ev.flag {
                (
                    InstallMachineView { step: InstallStep::AwaitDownload, ..m },
                    spec_view_action(5, m.req.url, m.req.archive_file),
                )
            } else {
                match m.digest {
                    Some(d) => (
                        InstallMachineView { step: InstallStep::AwaitPreVerify, ..m },
                        InstallActionView {
                            kind: 3,
                            a: m.req.archive_file,
                            b: d.1,
                            method: d.0,
                            outcome: None,
                        },
                    ),
                    None => (
                        InstallMachineView { step: InstallStep::AwaitPreDelete, ..m },
                        spec_view_action(4, m.req.archive_file, Seq::empty()),
                    ),
                }
            }
        },
        InstallStep::AwaitPreVerify => {
            if ev.flag {
                spec_extract_entry(m)
            } else {
                (
                    InstallMachineView { step: InstallStep::AwaitPreDelete, ..m },
                    spec_view_action(4, m.req.archive_file, Seq::empty()),
                )
            }
        },
        InstallStep::AwaitPreDelete => (
            InstallMachineView { step: InstallStep::AwaitDownload, ..m },
            spec_view_action(5, m.req.url, m.req.archive_file),
        ),
        InstallStep::AwaitDownload => {
            match m.digest {
                Some(d) => (
                    InstallMachineView { step: InstallStep::AwaitPostVerify, ..m },
                    InstallActionView {
                        kind: 3,
                        a: m.req.archive_file,
                        b: d.1,
                        method: d.0,
                        outcome: None,
                    },
                ),
                None => spec_extract_entry(m),
            }
        },
        InstallStep::AwaitPostVerify => {
            if ev.flag {
                spec_extract_entry(m)
            } else {
                (
                    InstallMachineView { step: InstallStep::AwaitFailDelete, ..m },
                    spec_view_action(4, m.req.archive_file, Seq::empty()),
                )
            }
        },
        InstallStep::AwaitFailDelete => (
            InstallMachineView { step: InstallStep::Done, ..m },
            spec_finish(InstallOutcome::VerificationFailed),
        ),
        InstallStep::AwaitWipe => (
            InstallMachineView { step: InstallStep::AwaitExtract, ..m },
            spec_view_action(7, m.req.archive_file, Seq::empty()),
        ),
        InstallStep::AwaitExtract => {
            let from = if m.req.extract_dir.fixed {
                m.req.extract_dir.name
            } else {
                match ev.top_folder {
                    Some(t) => t,
                    None => m.req.extract_dir.name,
                }
            };
            (
                InstallMachineView { step: InstallStep::AwaitRename, ..m },
                spec_view_action(8, from, m.req.version_dir),
            )
        },
        InstallStep::AwaitRename => {
            if m.req.link_after {
                (
                    InstallMachineView { step: InstallStep::AwaitLinkProbe, ..m },
                    spec_view_action(9, Seq::empty(), Seq::empty()),
                )
            } else {
                (
                    InstallMachineView { step: InstallStep::AwaitFinalDelete, ..m },
                    spec_view_action(4, m.req.archive_file, Seq::empty()),
                )
            }
        },
        InstallStep::AwaitLinkProbe => {
            if ev.flag {
                (
                    InstallMachineView { step: InstallStep::AwaitLinkRemove, ..m },
                    spec_view_action(10, Seq::empty(), Seq::empty()),
                )
            } else {
                (
                    InstallMachineView { step: InstallStep::AwaitLinkCreate, hint: true, ..m },
                    spec_view_action(11, m.req.version_dir, Seq::empty()),
                )
            }
        },
        InstallStep::AwaitLinkRemove => (
            InstallMachineView { step: InstallStep::AwaitLinkCreate, ..m },
            spec_view_action(11, m.req.version_dir, Seq::empty()),
        ),
        InstallStep::AwaitLinkCreate => (
            InstallMachineView { step: InstallStep::AwaitFinalDelete, ..m },
            spec_view_action(4, m.req.archive_file, Seq::empty()),
        ),
        InstallStep::AwaitFinalDelete => (
            InstallMachineView { step: InstallStep::Done, ..m },
            spec_finish(
                if m.hint {
                    InstallOutcome::SuccessNeedHint
                } else {
                    InstallOutcome::Success
                },
            ),
        ),
        _ => (m, spec_finish(InstallOutcome::VerificationFailed)),
    }
}

/// Idempotence of install: when the canonical version directory already
/// exists, the pipeline — whose first and only action so far was the
/// non-mutating installed-check — finishes at once with `AlreadyInstalled`
/// and its final action mutates nothing, so a second run with the same
/// arguments performs no filesystem write.
pub proof fn lemma_install_idempotent(m0: InstallMachineView, ev: InstallEventView)
    requires
        m0.step == InstallStep::AwaitInstalled,
        ev.kind == 0,
        ev.flag == true,
    ensures
        spec_step(m0, ev).0.step == InstallStep::Done,
        spec_step(m0, ev).1 == spec_finish(InstallOutcome::AlreadyInstalled),
        !spec_action_mutates(spec_step(m0, ev).1),
{
}

/// The checksum gate: when verification after a download fails, the next
/// action deletes the downloaded artifact, and only after that deletion is
/// confirmed does the run end, with `VerificationFailed` — so the artifact
/// no longer exists at the download path afterward.
pub proof fn lemma_checksum_gate(
    m0: InstallMachineView,
    bad: InstallEventView,
    done: InstallEventView,
)
    requires
        m0.step == InstallStep::AwaitPostVerify,
        bad.kind == 3,
        bad.flag == false,
        done.kind == 4,
    ensures
        spec_step(m0, bad).1.kind == 4,
        spec_step(m0, bad).1.a == m0.req.archive_file,
        spec_step(spec_step(m0, bad).0, done).1 == spec_finish(InstallOutcome::VerificationFailed),
        spec_step(spec_step(m0, bad).0, done).0.step == InstallStep::Done,
{
}

// ---------------------------------------------------------------------------
// Naming the extracted top folder from an archive's entry names.
// ---------------------------------------------------------------------------

/// The top folder a zip archive's entry names show: the shortest directory
/// entry (one ending in a slash), with that slash cut off.
pub open spec fn spec_zip_top(names: Seq<Seq<char>>) -> Option<Seq<char>>
    decreases names.len(),
{
    if names.len() == 0 {
        None
    } else {
        let rest = spec_zip_top(names.drop_last());
        let last = names.last();
        if last.len() > 0 && last.last() == '/' {
            match rest {
                Some(t) => if last.len() - 1 < t.len() {
                    Some(last.drop_last())
                } else {
                    rest
                },
                None => Some(last.drop_last()),
            }
        } else {
            rest
        }
    }
}

/// Picks the top folder out of a zip archive's entry names.
pub fn zip_top_folder(names: &Vec<String>) -> (r: Option<String>)
    ensures
        (r is Some) == (spec_zip_top(names.deep_view()) is Some),
        r matches Some(t) ==> spec_zip_top(names.deep_view()) == Some(t@),
{
    let ghost nv = names.deep_view();
    let n = names.len();
    let mut top: Option<String> = None;
    let mut i: usize = 0;
    proof {
        assert(nv.take(0) =~= Seq::<Seq<char>>::empty());
    }
    while i < n
        invariant
            i <= n,
            n == nv.len(),
            nv == names.deep_view(),
            (top is Some) == (spec_zip_top(nv.take(i as int)) is Some),
            top matches Some(t) ==> spec_zip_top(nv.take(i as int)) == Some(t@),
        decreases n - i,
    {
        proof {
            assert(nv[i as int] == names@[i as int]@);
            assert(nv.take(i + 1).drop_last() =~= nv.take(i as int));
            assert(nv.take(i + 1).last() == nv[i as int]);
        }
        let name = names[i].as_str();
        let m = name.unicode_len();
        if m > 0 && name.get_char(m - 1) == '/' {
            let candidate = name.substring_char(0, m - 1).to_owned();
            proof {
                assert(candidate@ =~= nv[i as int].drop_last());
            }
            let shorter = match &top {
                Some(t) => candidate.as_str().unicode_len() < t.as_str().unicode_len(),
                None => true,
            };
            if shorter {
                top = Some(candidate);
            }
        }
        i = i + 1;
    }
    proof {
        assert(nv.take(n as int) =~= nv);
    }
    top
}

/// The top folder a tarball's first entry path shows: the path's first
/// component, with one leading root, current-directory or parent marker
/// skipped.
pub open spec fn spec_tar_top(path: Seq<char>) -> Option<Seq<char>> {
    let parts = crate::strutil::spec_split(path, '/');
    let head = parts[0];
    if head.len() > 0 && head != "."@ && head != ".."@ {
        Some(head)
    } else if parts.len() > 1 && parts[1].len() > 0 {
        Some(parts[1])
    } else {
        None
    }
}

/// Picks the top folder out of a tarball's first entry path.
pub fn tar_top_folder(path: &str) -> (r: Option<String>)
    ensures
        (r is Some) == (spec_tar_top(path@) is Some),
        r matches Some(t) ==> spec_tar_top(path@) == Some(t@),
{
    proof {
        reveal_strlit(".");
        reveal_strlit("..");
        assert("."@.len() == 1 && ".."@.len() == 2);
    }
    let parts = crate::strutil::split_char(path, '/');
    proof {
        assert(parts.deep_view()[0] == parts@[0]@);
        if parts@.len() > 1 {
            assert(parts.deep_view()[1] == parts@[1]@);
        }
    }
    let head = parts[0].as_str();
    if !head.is_empty() && !crate::strutil::str_eq(head, ".") && !crate::strutil::str_eq(
        head,
        "..",
    ) {
        return Some(head.to_owned());
    }
    if parts.len() > 1 && !parts[1].as_str().is_empty() {
        return Some(parts[1].clone());
    }
    None
}

impl InstallMachine {
    /// Starts the pipeline: the first action only asks whether the version
    /// is already installed; nothing has been written yet.
    pub fn start(req: InstallRequest) -> (r: (InstallMachine, InstallAction))
        ensures
            r.0@.req == req@,
            r.0@.step == InstallStep::AwaitInstalled,
            r.0@.digest is None,
            r.0@.hint == false,
            r.1@ == spec_view_action(0, req@.version_dir, Seq::<char>::empty()),
            !spec_action_mutates(r.1@),
    {
        let version_dir = req.version_dir.clone();
        let m = InstallMachine { req, step: InstallStep::AwaitInstalled, digest: None, hint: false };
        (m, InstallAction::CheckInstalled { version_dir })
    }

    /// Feeds the machine the answer to its last action and takes the next
    /// one, exactly as the transition relation says.
    pub fn step(&mut self, ev: InstallEvent) -> (a: InstallAction)
        requires
            spec_expects(old(self)@.step, ev@),
        ensures
            final(self)@ == spec_step(old(self)@, ev@).0,
            a@ == spec_step(old(self)@, ev@).1,
    {
        match self.step {
            InstallStep::AwaitInstalled => {
                let installed = match ev {
                    InstallEvent::InstalledAnswer { installed } => installed,
                    _ => false,
                };
                if installed {
                    self.step = InstallStep::Done;
                    InstallAction::Finish { outcome: InstallOutcome::AlreadyInstalled }
                } else {
                    match &self.req.checksum {
                        ChecksumSource::FetchText { url, .. } => {
                            let u = url.clone();
                            self.step = InstallStep::AwaitChecksumText;
                            InstallAction::FetchChecksum { url: u }
                        },
                        ChecksumSource::Inline { method, digest } => {
                            let d = (method.clone(), digest.clone());
                            self.digest = Some(d);
                            self.step = InstallStep::AwaitTmpProbe;
                            InstallAction::ProbeTmpFile { file: self.req.archive_file.clone() }
                        },
                        ChecksumSource::Absent => {
                            self.digest = None;
                            self.step = InstallStep::AwaitTmpProbe;
                            InstallAction::ProbeTmpFile { file: self.req.archive_file.clone() }
                        },
                    }
                }
            },
            InstallStep::AwaitChecksumText => {
                let text = match ev {
                    InstallEvent::ChecksumText { text } => text,
                    _ => String::new(),
                };
                let (method, lookup_file) = match &self.req.checksum {
                    ChecksumSource::FetchText { method, lookup_file, .. } => (
                        *method,
                        *lookup_file,
                    ),
                    ChecksumSource::Inline { method, .. } => (*method, false),
                    ChecksumSource::Absent => (ChecksumMethod::Skip, false),
                };
                if lookup_file {
                    self.digest =
                    match find_digest_for(text.as_str(), self.req.archive_file.as_str()) {
                        Some(d) => Some((method, d)),
                        None => None,
                    };
                } else {
                    self.digest = Some((method, text));
                }
                self.step = InstallStep::AwaitTmpProbe;
                InstallAction::ProbeTmpFile { file: self.req.archive_file.clone() }
            },
            InstallStep::AwaitTmpProbe => {
                let exists = match ev {
                    InstallEvent::TmpFileExists { exists } => exists,
                    _ => false,
                };
                if !exists {
                    self.step = InstallStep::AwaitDownload;
                    InstallAction::Download {
                        url: self.req.url.clone(),
                        file: self.req.archive_file.clone(),
                    }
                } else {
                    match &self.digest {
                        Some(d) => {
                            let a = InstallAction::VerifyFile {
                                file: self.req.archive_file.clone(),
                                method: d.0.clone(),
                                digest: d.1.clone(),
                            };
                            self.step = InstallStep::AwaitPreVerify;
                            a
                        },
                        None => {
                            self.step = InstallStep::AwaitPreDelete;
                            InstallAction::DeleteTmpFile { file: self.req.archive_file.clone() }
                        },
                    }
                }
            },
            InstallStep::AwaitPreVerify => {
                let ok = match ev {
                    InstallEvent::VerifyAnswer { ok } => ok,
                    _ => false,
                };
                if ok {
                    self.enter_extract()
                } else {
                    self.step = InstallStep::AwaitPreDelete;
                    InstallAction::DeleteTmpFile { file: self.req.archive_file.clone() }
                }
            },
            InstallStep::AwaitPreDelete => {
                self.step = InstallStep::AwaitDownload;
                InstallAction::Download {
                    url: self.req.url.clone(),
                    file: self.req.archive_file.clone(),
                }
            },
            InstallStep::AwaitDownload => {
                match &self.digest {
                    Some(d) => {
                        let a = InstallAction::VerifyFile {
                            file: self.req.archive_file.clone(),
                            method: d.0.clone(),
                            digest: d.1.clone(),
                        };
                        self.step = InstallStep::AwaitPostVerify;
                        a
                    },
                    None => self.enter_extract(),
                }
            },
            InstallStep::AwaitPostVerify => {
                let ok = match ev {
                    InstallEvent::VerifyAnswer { ok } => ok,
                    _ => false,
                };
                if ok {
                    self.enter_extract()
                } else {
                    self.step = InstallStep::AwaitFailDelete;
                    InstallAction::DeleteTmpFile { file: self.req.archive_file.clone() }
                }
            },
            InstallStep::AwaitFailDelete => {
                self.step = InstallStep::Done;
                InstallAction::Finish { outcome: InstallOutcome::VerificationFailed }
            },
            InstallStep::AwaitWipe => {
                self.step = InstallStep::AwaitExtract;
                InstallAction::Extract { file: self.req.archive_file.clone() }
            },
            InstallStep::AwaitExtract => {
                let top = match ev {
                    InstallEvent::Extracted { top_folder } => top_folder,
                    _ => None,
                };
                let from = match &self.req.extract_dir {
                    ExtractDirSource::Fixed { name } => name.clone(),
                    ExtractDirSource::Reported { fallback } => match top {
                        Some(t) => t,
                        None => fallback.clone(),
                    },
                };
                self.step = InstallStep::AwaitRename;
                InstallAction::Rename { from, to: self.req.version_dir.clone() }
            },
            InstallStep::AwaitRename => {
                if self.req.link_after {
                    self.step = InstallStep::AwaitLinkProbe;
                    InstallAction::ProbeCurrentLink
                } else {
                    self.step = InstallStep::AwaitFinalDelete;
                    InstallAction::DeleteTmpFile { file: self.req.archive_file.clone() }
                }
            },
            InstallStep::AwaitLinkProbe => {
                let exists = match ev {
                    InstallEvent::LinkAnswer { exists } => exists,
                    _ => false,
                };
                if exists {
                    self.step = InstallStep::AwaitLinkRemove;
                    InstallAction::RemoveCurrentLink
                } else {
                    self.hint = true;
                    self.step = InstallStep::AwaitLinkCreate;
                    InstallAction::CreateCurrentLink { to: self.req.version_dir.clone() }
                }
            },
            InstallStep::AwaitLinkRemove => {
                self.step = InstallStep::AwaitLinkCreate;
                InstallAction::CreateCurrentLink { to: self.req.version_dir.clone() }
            },
            InstallStep::AwaitLinkCreate => {
                self.step = InstallStep::AwaitFinalDelete;
                InstallAction::DeleteTmpFile { file: self.req.archive_file.clone() }
            },
            InstallStep::AwaitFinalDelete => {
                self.step = InstallStep::Done;
                let outcome = if self.hint {
                    InstallOutcome::SuccessNeedHint
                } else {
                    InstallOutcome::Success
                };
                InstallAction::Finish { outcome }
            },
            _ => {
                proof {
                    assert(false);
                }
                InstallAction::Finish { outcome: InstallOutcome::VerificationFailed }
            },
        }
    }

    /// Enters the extraction phase: a fixed top folder is wiped first, an
    /// extractor-reported one goes straight to extraction.
    fn enter_extract(&mut self) -> (a: InstallAction)
        ensures
            final(self)@ == spec_extract_entry(old(self)@).0,
            a@ == spec_extract_entry(old(self)@).1,
    {
        match &self.req.extract_dir {
            ExtractDirSource::Fixed { name } => {
                let d = name.clone();
                self.step = InstallStep::AwaitWipe;
                InstallAction::WipeDir { dir: d }
            },
            ExtractDirSource::Reported { .. } => {
                self.step = InstallStep::AwaitExtract;
                InstallAction::Extract { file: self.req.archive_file.clone() }
            },
        }
    }
}

} // verus!
