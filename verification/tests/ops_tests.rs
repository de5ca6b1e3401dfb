use uvm::appdir::AppDir;
use uvm::install::{tar_top_folder, zip_top_folder};
use uvm::checksum::{verify, find_digest_for, ChecksumMethod};
use uvm::config::{load_config, ConfigExecutor, ConfigKey, UvmConfig};
use uvm::language::{annotate_versions, list_installed_only};
use uvm::linkops::{
    mark_installed, plan_uninstall, plan_unuse, plan_use, plan_venv, UsePlan, VenvPlan,
};
use uvm::resolver::VersionKey;
use uvm::version::SemVer;

fn installed(names: &[&str], current: &Option<String>) -> Vec<(String, bool)> {
    mark_installed(
        names.iter().map(|s| s.to_string()).collect(),
        current,
    )
}

#[test]
fn test_use_swap() {
    // after use(A) then use(B), the link points at B and B is installed
    let current0: Option<String> = None;
    let inst = installed(&["1.20.0", "1.21.0"], &current0);
    let plan_a = plan_use(&inst, &current0, "1.20.0");
    let current1 = match plan_a {
        UsePlan::Switch { remove_first, show_hint } => {
            assert!(!remove_first);
            assert!(show_hint);
            Some("1.20.0".to_string())
        }
        _ => panic!("expected a switch"),
    };
    let plan_b = plan_use(&inst, &current1, "1.21.0");
    let current2 = match plan_b {
        UsePlan::Switch { remove_first, show_hint } => {
            assert!(remove_first);
            assert!(!show_hint);
            Some("1.21.0".to_string())
        }
        _ => panic!("expected a switch"),
    };
    assert_eq!(Some("1.21.0".to_string()), current2);
    assert!(inst.iter().any(|p| p.0 == "1.21.0"));
}

#[test]
fn test_use_edge_cases() {
    let current = Some("1.21.0".to_string());
    let inst = installed(&["1.21.0"], &current);
    assert!(matches!(
        plan_use(&inst, &current, "1.21.0"),
        UsePlan::AlreadyUsed
    ));
    assert!(matches!(
        plan_use(&inst, &current, "9.9.9"),
        UsePlan::NotInstalled
    ));
}

#[test]
fn test_unuse_and_uninstall() {
    let current = Some("1.21.0".to_string());
    assert!(plan_unuse(&current));
    assert!(!plan_unuse(&None));
    let inst = installed(&["1.21.0", "1.20.0"], &current);
    let p = plan_uninstall(&inst, &current, "1.21.0");
    assert!(p.remove_link);
    assert!(p.remove_dir);
    let p = plan_uninstall(&inst, &current, "1.20.0");
    assert!(!p.remove_link);
    assert!(p.remove_dir);
    // deleting a non-installed version is a no-op, not an error
    let p = plan_uninstall(&inst, &current, "9.9.9");
    assert!(!p.remove_link);
    assert!(!p.remove_dir);
}

#[test]
fn test_venv_plans() {
    let inst = installed(&["1.21.0"], &None);
    assert!(matches!(
        plan_venv(&inst, "9.9.9", false, &None),
        VenvPlan::NotInstalled
    ));
    assert!(matches!(
        plan_venv(&inst, "1.21.0", false, &None),
        VenvPlan::Create { wipe_first: false }
    ));
    assert!(matches!(
        plan_venv(&inst, "1.21.0", true, &None),
        VenvPlan::Create { wipe_first: true }
    ));
    let linked = Some("1.21.0".to_string());
    assert!(matches!(
        plan_venv(&inst, "1.21.0", true, &linked),
        VenvPlan::AlreadyUsed
    ));
}

#[test]
fn test_listing() {
    let current = Some("1.21.0".to_string());
    let inst = installed(&["1.21.0", "1.20.0"], &current);
    let rows = list_installed_only(&inst);
    assert_eq!(2, rows.len());
    assert!(rows[0].installed && rows[0].inuse);
    assert!(rows[1].installed && !rows[1].inuse);
    let entries = vec![
        VersionKey {
            display: "1.20.0".to_string(),
            sem: SemVer::release(1, 20, 0),
        },
        VersionKey {
            display: "1.22.0".to_string(),
            sem: SemVer::release(1, 22, 0),
        },
    ];
    let rows = annotate_versions(&entries, &inst);
    assert_eq!(2, rows.len());
    assert_eq!("1.20.0", rows[0].version);
    assert!(rows[0].installed && !rows[0].inuse);
    assert!(!rows[1].installed && !rows[1].inuse);
}

#[test]
fn test_verify_digests() {
    let data = b"abc";
    assert!(verify(
        ChecksumMethod::Sha256,
        data,
        "ba7816bf8f01cfea414140de5dae2223b00361a396177a9cb410ff61f20015ad"
    ));
    assert!(verify(
        ChecksumMethod::Sha256,
        data,
        "  ba7816bf8f01cfea414140de5dae2223b00361a396177a9cb410ff61f20015ad\n"
    ));
    assert!(!verify(ChecksumMethod::Sha256, data, "deadbeef"));
    assert!(verify(
        ChecksumMethod::Md5,
        data,
        "900150983cd24fb0d6963f7d28e17f72"
    ));
    assert!(!verify(ChecksumMethod::Md5, data, "00000000"));
    assert!(verify(ChecksumMethod::Skip, data, "anything"));
}

#[test]
fn test_digest_listing_lookup() {
    let listing = "abc  one.tar.gz\r\ndef\tother.zip\nbroken\nnewer one.tar.gz\n";
    assert_eq!(
        Some("newer".to_string()),
        find_digest_for(listing, "one.tar.gz")
    );
    assert_eq!(Some("def".to_string()), find_digest_for(listing, "other.zip"));
    assert_eq!(None, find_digest_for(listing, "missing"));
}

#[test]
fn test_app_layout() {
    let dirs = AppDir::new("/home/someone");
    assert_eq!("/home/someone/.uvm", dirs.get_home_dir());
    assert_eq!("/home/someone/.uvm/log", dirs.get_log_dir());
    let go = dirs.get_language_dir("go").expect("go is supported");
    assert_eq!("/home/someone/.uvm/data/go/versions", go.get_versions_dir());
    assert_eq!("/home/someone/.uvm/data/go/current", go.get_current_dir());
    assert_eq!("/home/someone/.uvm/data/go/tmp", go.get_tmp_dir());
    assert!(dirs.get_language_dir("java").is_some());
    assert!(dirs.get_language_dir("node").is_some());
    assert!(dirs.get_language_dir("rust").is_none());
}

#[test]
fn test_config_roundtrip() {
    let cfg = load_config(Some("proxy = \"http://proxy.example:8080\"\n"));
    assert_eq!(Some("http://proxy.example:8080".to_string()), cfg.proxy);
    let text = cfg.save().expect("the configuration should render");
    let again = UvmConfig::load_config(text.as_str()).expect("the rendering should parse");
    assert_eq!(cfg.proxy, again.proxy);
    // unreadable text falls back to the default
    let cfg = load_config(Some("= not toml ="));
    assert_eq!(None, cfg.proxy);
    assert!(UvmConfig::load_config("= not toml =").is_err());
    let cfg = load_config(None);
    assert_eq!(None, cfg.proxy);
}

#[test]
fn test_config_keys() {
    let ex = ConfigExecutor {};
    let mut cfg = load_config(None);
    ex.set(
        &vec![(ConfigKey::Proxy, "http://p".to_string())],
        &mut cfg,
    );
    assert_eq!(Some("http://p".to_string()), cfg.proxy);
    let got = ex.get(&vec![ConfigKey::Proxy], &cfg);
    assert_eq!(1, got.len());
    assert_eq!("http://p", got[0].1);
    assert_eq!(0, ex.get(&Vec::new(), &cfg).len());
    ex.del(&vec![ConfigKey::Proxy], &mut cfg);
    assert_eq!(None, cfg.proxy);
    assert_eq!(0, ex.get(&vec![ConfigKey::Proxy], &cfg).len());
}

#[test]
fn test_lts_display_and_canonical_lookup() {
    // an installed LTS release is found under its canonical directory name
    // even though the listing shows the LTS mark
    let current = Some("20.10.0".to_string());
    let inst = installed(&["20.10.0"], &current);
    let entries = vec![VersionKey {
        display: "20.10.0 LTS".to_string(),
        sem: SemVer::release(20, 10, 0),
    }];
    let rows = uvm::language::annotate_versions_canonical(&entries, &inst);
    assert_eq!(1, rows.len());
    assert_eq!("20.10.0 LTS", rows[0].version);
    assert!(rows[0].installed);
    assert!(rows[0].inuse);
}

#[test]
fn test_archive_top_folders() {
    assert_eq!(Some("go".to_string()), tar_top_folder("go/bin/gofmt"));
    assert_eq!(Some("node-v20".to_string()), tar_top_folder("./node-v20/bin"));
    assert_eq!(Some("jdk-18".to_string()), tar_top_folder("/jdk-18/bin"));
    assert_eq!(None, tar_top_folder("./"));
    let names = vec![
        "jdk-18/bin/".to_string(),
        "jdk-18/".to_string(),
        "jdk-18/bin/java".to_string(),
    ];
    assert_eq!(Some("jdk-18".to_string()), zip_top_folder(&names));
    assert_eq!(None, zip_top_folder(&vec!["flat-file".to_string()]));
}
