use uvm::checksum::ChecksumMethod;
use uvm::install::{
    ChecksumSource, ExtractDirSource, InstallAction, InstallEvent, InstallMachine, InstallOutcome,
    InstallRequest,
};

fn plain_request() -> InstallRequest {
    InstallRequest {
        version_dir: "1.21.0".to_string(),
        archive_file: "go1.21.0.linux-amd64.tar.gz".to_string(),
        url: "https://go.dev/dl/go1.21.0.linux-amd64.tar.gz".to_string(),
        checksum: ChecksumSource::Inline {
            method: ChecksumMethod::Sha256,
            digest: "abc".to_string(),
        },
        extract_dir: ExtractDirSource::Fixed {
            name: "go".to_string(),
        },
        link_after: true,
    }
}

#[test]
fn test_install_idempotent() {
    // the pipeline's first action only probes; on "already installed" it
    // finishes at once, with no write ever asked for
    let (mut m, first) = InstallMachine::start(plain_request());
    match first {
        InstallAction::CheckInstalled { version_dir } => assert_eq!("1.21.0", version_dir),
        _ => panic!("expected the installed-check first"),
    }
    let second = m.step(InstallEvent::InstalledAnswer { installed: true });
    match second {
        InstallAction::Finish { outcome } => {
            assert!(matches!(outcome, InstallOutcome::AlreadyInstalled))
        }
        _ => panic!("expected the run to finish"),
    }
}

#[test]
fn test_checksum_gate() {
    // a failed verification after download deletes the artifact before the
    // failure is reported
    let (mut m, _) = InstallMachine::start(plain_request());
    let a = m.step(InstallEvent::InstalledAnswer { installed: false });
    assert!(matches!(a, InstallAction::ProbeTmpFile { .. }));
    let a = m.step(InstallEvent::TmpFileExists { exists: false });
    assert!(matches!(a, InstallAction::Download { .. }));
    let a = m.step(InstallEvent::Downloaded);
    match a {
        InstallAction::VerifyFile { file, method, digest } => {
            assert_eq!("go1.21.0.linux-amd64.tar.gz", file);
            assert!(matches!(method, ChecksumMethod::Sha256));
            assert_eq!("abc", digest);
        }
        _ => panic!("expected verification after download"),
    }
    let a = m.step(InstallEvent::VerifyAnswer { ok: false });
    match a {
        InstallAction::DeleteTmpFile { file } => {
            assert_eq!("go1.21.0.linux-amd64.tar.gz", file)
        }
        _ => panic!("expected the artifact to be deleted"),
    }
    let a = m.step(InstallEvent::FileDeleted);
    match a {
        InstallAction::Finish { outcome } => {
            assert!(matches!(outcome, InstallOutcome::VerificationFailed))
        }
        _ => panic!("expected the run to fail"),
    }
}

#[test]
fn test_install_success_path() {
    let (mut m, _) = InstallMachine::start(plain_request());
    m.step(InstallEvent::InstalledAnswer { installed: false });
    // a cached artifact that verifies is reused without redownloading
    let a = m.step(InstallEvent::TmpFileExists { exists: true });
    assert!(matches!(a, InstallAction::VerifyFile { .. }));
    let a = m.step(InstallEvent::VerifyAnswer { ok: true });
    match a {
        InstallAction::WipeDir { dir } => assert_eq!("go", dir),
        _ => panic!("expected the fixed top folder to be wiped"),
    }
    let a = m.step(InstallEvent::DirWiped);
    assert!(matches!(a, InstallAction::Extract { .. }));
    let a = m.step(InstallEvent::Extracted { top_folder: None });
    match a {
        InstallAction::Rename { from, to } => {
            assert_eq!("go", from);
            assert_eq!("1.21.0", to);
        }
        _ => panic!("expected the rename"),
    }
    let a = m.step(InstallEvent::Renamed);
    assert!(matches!(a, InstallAction::ProbeCurrentLink));
    // no link existed: one is created and the path hint is owed
    let a = m.step(InstallEvent::LinkAnswer { exists: false });
    match a {
        InstallAction::CreateCurrentLink { to } => assert_eq!("1.21.0", to),
        _ => panic!("expected the link"),
    }
    let a = m.step(InstallEvent::LinkCreated);
    assert!(matches!(a, InstallAction::DeleteTmpFile { .. }));
    let a = m.step(InstallEvent::FileDeleted);
    match a {
        InstallAction::Finish { outcome } => {
            assert!(matches!(outcome, InstallOutcome::SuccessNeedHint))
        }
        _ => panic!("expected success with a hint"),
    }
}

#[test]
fn test_stale_download_self_heals() {
    // a cached artifact that fails verification is deleted and fetched afresh
    let (mut m, _) = InstallMachine::start(plain_request());
    m.step(InstallEvent::InstalledAnswer { installed: false });
    let a = m.step(InstallEvent::TmpFileExists { exists: true });
    assert!(matches!(a, InstallAction::VerifyFile { .. }));
    let a = m.step(InstallEvent::VerifyAnswer { ok: false });
    assert!(matches!(a, InstallAction::DeleteTmpFile { .. }));
    let a = m.step(InstallEvent::FileDeleted);
    assert!(matches!(a, InstallAction::Download { .. }));
}

#[test]
fn test_checksum_fetch_and_lookup() {
    // a request whose digest comes from a fetched listing, looked up by
    // artifact name
    let req = InstallRequest {
        version_dir: "20.10.0".to_string(),
        archive_file: "node-v20.10.0-linux-x64.tar.gz".to_string(),
        url: "https://nodejs.org/dist/v20.10.0/node-v20.10.0-linux-x64.tar.gz".to_string(),
        checksum: ChecksumSource::FetchText {
            url: "https://nodejs.org/dist/v20.10.0/SHASUMS256.txt".to_string(),
            method: ChecksumMethod::Sha256,
            lookup_file: true,
        },
        extract_dir: ExtractDirSource::Fixed {
            name: "node-v20.10.0-linux-x64".to_string(),
        },
        link_after: false,
    };
    let (mut m, _) = InstallMachine::start(req);
    let a = m.step(InstallEvent::InstalledAnswer { installed: false });
    match a {
        InstallAction::FetchChecksum { url } => {
            assert_eq!("https://nodejs.org/dist/v20.10.0/SHASUMS256.txt", url)
        }
        _ => panic!("expected the digest listing fetch"),
    }
    let listing = "deadbeef  node-v20.10.0-linux-x64.tar.gz\ncafe node-v20.10.0-win-x64.zip\n";
    let a = m.step(InstallEvent::ChecksumText {
        text: listing.to_string(),
    });
    assert!(matches!(a, InstallAction::ProbeTmpFile { .. }));
    let a = m.step(InstallEvent::TmpFileExists { exists: false });
    assert!(matches!(a, InstallAction::Download { .. }));
    let a = m.step(InstallEvent::Downloaded);
    match a {
        InstallAction::VerifyFile { digest, .. } => assert_eq!("deadbeef", digest),
        _ => panic!("expected verification with the looked-up digest"),
    }
    // with no-use requested, no link action follows the rename
    let a = m.step(InstallEvent::VerifyAnswer { ok: true });
    assert!(matches!(a, InstallAction::WipeDir { .. }));
    let a = m.step(InstallEvent::DirWiped);
    assert!(matches!(a, InstallAction::Extract { .. }));
    let a = m.step(InstallEvent::Extracted { top_folder: None });
    assert!(matches!(a, InstallAction::Rename { .. }));
    let a = m.step(InstallEvent::Renamed);
    assert!(matches!(a, InstallAction::DeleteTmpFile { .. }));
    let a = m.step(InstallEvent::FileDeleted);
    match a {
        InstallAction::Finish { outcome } => assert!(matches!(outcome, InstallOutcome::Success)),
        _ => panic!("expected plain success"),
    }
}
