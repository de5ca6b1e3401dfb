use uvm::corretto::{parse_checksum_cell, parse_corretto_release_body, is_corretto_repo_name};
use uvm::golang::{merge_go_sections, parse_golang_official, go_versions_from_section, GolangPackage};
use uvm::install::{ChecksumSource, InstallRequest};
use uvm::java::Vendor;
use uvm::node::{parse_node_official, NodeVersion};
use uvm::openjdk::{parse_openjdk_file, openjdk_versions_from_links};
use uvm::prepare::{node_prepare_install, PrepareError};

fn go_pkg(file_name: &str) -> GolangPackage {
    GolangPackage {
        version_type: "stable".to_string(),
        file_name: file_name.to_string(),
        os: "Linux".to_string(),
        kind: "Archive".to_string(),
        arch: "x86-64".to_string(),
        checksum: "abc".to_string(),
        size: "64MB".to_string(),
        url: "/dl/x".to_string(),
    }
}

#[test]
fn test_go_merge_unstable_supersedes_stable() {
    // the same version token in stable and unstable: after the merge only
    // the unstable section's package set remains for that token
    let stable = vec![("go1.21.0".to_string(), vec![go_pkg("stable-a"), go_pkg("stable-b")])];
    let unstable = vec![("go1.21.0".to_string(), vec![go_pkg("unstable-a")])];
    let archive: Vec<(String, Vec<GolangPackage>)> = Vec::new();
    let merged = merge_go_sections(stable, unstable, archive);
    assert_eq!(1, merged.len());
    assert_eq!("go1.21.0", merged[0].0);
    assert_eq!(1, merged[0].1.len());
    assert_eq!("unstable-a", merged[0].1[0].file_name);
}

#[test]
fn test_go_merge_archive_wins() {
    let stable = vec![
        ("go1.20.0".to_string(), vec![go_pkg("s20")]),
        ("go1.19.0".to_string(), vec![go_pkg("s19")]),
    ];
    let unstable = vec![("go1.22rc1".to_string(), vec![go_pkg("u22")])];
    let archive = vec![("go1.20.0".to_string(), vec![go_pkg("a20")])];
    let merged = merge_go_sections(stable, unstable, archive);
    let find = |k: &str| {
        merged
            .iter()
            .find(|e| e.0 == k)
            .map(|e| e.1[0].file_name.clone())
    };
    assert_eq!(Some("a20".to_string()), find("go1.20.0"));
    assert_eq!(Some("s19".to_string()), find("go1.19.0"));
    assert_eq!(Some("u22".to_string()), find("go1.22rc1"));
}

#[test]
fn test_go_page_parsing() {
    let mut html = String::new();
    html.push_str("<html><body>");
    html.push_str("<h2 id=\"stable\"></h2>");
    html.push_str("<div id=\"go1.21.0\"><table class=\"downloadtable\"><tbody>");
    html.push_str(
        "<tr><td><a href=\"/dl/go1.21.0.linux-amd64.tar.gz\">go1.21.0.linux-amd64.tar.gz</a></td>",
    );
    html.push_str("<td>Archive</td><td>Linux</td><td>x86-64</td><td>64MB</td><td><tt>deadbeef</tt></td></tr>");
    html.push_str("<tr><td>no link</td><td>x</td><td>x</td><td>x</td><td>x</td><td>x</td></tr>");
    html.push_str("</tbody></table></div>");
    html.push_str("<h2 id=\"archive\"></h2>");
    html.push_str("</body></html>");
    let html = html.as_str();
    let section = parse_golang_official(html);
    assert_eq!(1, section.len());
    assert_eq!("go1.21.0", section[0].0);
    assert_eq!(1, section[0].1.len());
    let p = &section[0].1[0];
    assert_eq!("go1.21.0.linux-amd64.tar.gz", p.file_name);
    assert_eq!("Linux", p.os);
    assert_eq!("Archive", p.kind);
    assert_eq!("x86-64", p.arch);
    assert_eq!("deadbeef", p.checksum);
    assert_eq!("/dl/go1.21.0.linux-amd64.tar.gz", p.url);
    let versions = go_versions_from_section(section);
    assert_eq!(1, versions.len());
    assert_eq!(1, versions[0].sem_version.major);
    assert_eq!(21, versions[0].sem_version.minor);
    assert!(versions[0].has_matched_package("linux", "x86-64"));
    assert!(!versions[0].has_matched_package("windows", "x86-64"));
}

#[test]
fn test_node_catalog_scenario() {
    // the Node scenario: request 20.10.0 on linux/x64 resolves to the first
    // record and selects its linux-x64 archive package
    let mut json = String::new();
    json.push_str("[");
    json.push_str("{\"version\":\"v20.10.0\",\"files\":[\"linux-x64-tar\",\"win-x64-zip\"],");
    json.push_str("\"npm\":\"10.2.3\",\"lts\":\"Iron\"},");
    json.push_str("{\"version\":\"v21.0.0\",\"files\":[\"linux-x64-tar\"],\"lts\":false}");
    json.push_str("]");
    let json = json.as_str();
    let items = parse_node_official(json).expect("the index should parse");
    assert_eq!(2, items.len());
    assert!(items[0].is_lts());
    assert!(!items[1].is_lts());
    let versions: Vec<NodeVersion> = items.iter().filter_map(NodeVersion::from).collect();
    assert_eq!(2, versions.len());
    assert_eq!(2, versions[0].packages.len());
    let (chosen, req): (usize, InstallRequest) =
        node_prepare_install(&versions, "20.10.0", "linux", "x86_64", false)
            .expect("the request should resolve");
    assert_eq!(0, chosen);
    assert_eq!("20.10.0", req.version_dir);
    assert_eq!("node-v20.10.0-linux-x64.tar.gz", req.archive_file);
    assert_eq!(
        "https://nodejs.org/dist/v20.10.0/node-v20.10.0-linux-x64.tar.gz",
        req.url
    );
    match &req.checksum {
        ChecksumSource::FetchText { url, lookup_file, .. } => {
            assert_eq!("https://nodejs.org/dist/v20.10.0/SHASUMS256.txt", url);
            assert!(*lookup_file);
        }
        _ => panic!("expected a digest listing fetch"),
    }
}

#[test]
fn test_node_catalog_errors() {
    assert!(parse_node_official("not json at all").is_err());
    assert!(parse_node_official("{\"an\":\"object\"}").is_err());
    // an entry missing its version is a parse failure, as the strict decoder
    // had it
    assert!(parse_node_official("[{\"files\":[],\"lts\":false}]").is_err());
}

#[test]
fn test_node_no_matching_package() {
    let json = "[{\"version\":\"v21.0.0\",\"files\":[\"win-x64-zip\"],\"lts\":false}]";
    let items = parse_node_official(json).unwrap();
    let versions: Vec<NodeVersion> = items.iter().filter_map(NodeVersion::from).collect();
    let r = node_prepare_install(&versions, "21.0.0", "linux", "x86_64", false);
    assert_eq!(Err(PrepareError::NoMatchedArchOrOS), r.map(|p| p.0));
    let r = node_prepare_install(&versions, "nonsense!!", "linux", "x86_64", false);
    assert_eq!(Err(PrepareError::InvalidExpression), r.map(|p| p.0));
    let r = node_prepare_install(&versions, "9.9.9", "linux", "x86_64", false);
    assert_eq!(Err(PrepareError::NoSuchVersion), r.map(|p| p.0));
}

#[test]
fn test_checksum_regex() {
    let caps = parse_checksum_cell("`1`").unwrap();
    assert_eq!("1", caps.0);
    let caps = parse_checksum_cell("`1` /<br /> `2`").unwrap();
    assert_eq!("1", caps.0);
    assert_eq!("2", caps.1.expect(""));
}

#[test]
fn test_corretto_release_body() {
    let url = "https://corretto.aws/downloads/resources/17.0.3.6.1/amazon-corretto-17.0.3.6.1-linux-x64.tar.gz";
    let body = format!(
        "| Platform | Type | Download Link | Checksum |\r\n|---|---|---|---|\r\n| Linux x64 | JDK | [Download]({}) | `0123456789abcdef` |\r\n| Linux x64 | JRE | [Download]({}) | `ff` |\r\n",
        url, url
    );
    let version = parse_corretto_release_body(body.as_str()).expect("the body should parse");
    assert_eq!("corretto", version.vendor.name);
    assert_eq!("17.0.3.6.1", version.version);
    assert_eq!(17, version.sem_version.major);
    assert_eq!(3, version.sem_version.patch);
    assert_eq!("6.1", version.sem_version.build);
    // only the JDK row counts
    assert_eq!(1, version.packages.len());
    let p = &version.packages[0];
    assert_eq!("linux", p.os);
    assert_eq!("x64", p.arch);
    assert_eq!(Some("0123456789abcdef".to_string()), p.checksum_md5);
    assert_eq!(None, p.checksum_sha256);
    assert_eq!("corretto-17.0.3.6.1", version.get_display_name());
}

#[test]
fn test_corretto_repo_name() {
    assert!(is_corretto_repo_name("corretto-17"));
    assert!(is_corretto_repo_name("corretto-8"));
    assert!(!is_corretto_repo_name("corretto-"));
    assert!(!is_corretto_repo_name("corretto-17u"));
    assert!(!is_corretto_repo_name("other-17"));
}

#[test]
fn test_vendor_version_text() {
    let corretto = Vendor::from_str("corretto").unwrap();
    assert_eq!(
        "17.0.3+6.1",
        corretto.parse_version("17.0.3.6.1").expect("")
    );
    assert_eq!("17.0.3", corretto.parse_version("17.0.3").expect(""));
    assert_eq!(
        "17.0.3+6.1",
        corretto.parse_version("corretto-17.0.3.6.1").expect("")
    );
    assert!(corretto.parse_version("nonsense").is_none());
    assert_eq!("17", corretto.trim("corretto-17"));
    assert_eq!("17", corretto.trim("17"));
    let openjdk = Vendor::from_str("openjdk").unwrap();
    assert_eq!("18.0.1", openjdk.parse_version("openjdk-18.0.1").expect(""));
    assert!(Vendor::from_str("unknown").is_none());
}

#[test]
fn test_openjdk_file_names() {
    let (v, os, arch, ext) =
        parse_openjdk_file("openjdk-18.0.1.1_windows-x64_bin.zip", false).unwrap();
    assert_eq!("18.0.1.1", v);
    assert_eq!("windows", os);
    assert_eq!("x64", arch);
    assert_eq!("zip", ext);
    let (v, os, arch, ext) =
        parse_openjdk_file("openjdk-24-ea+12_linux-aarch64_bin.tar.gz", true).unwrap();
    assert_eq!("24-ea+12", v);
    assert_eq!("linux", os);
    assert_eq!("aarch64", arch);
    assert_eq!("tar.gz", ext);
    assert!(parse_openjdk_file("openjdk-18.0.1.1_windows-x64_bin.zip", true).is_none());
    assert!(parse_openjdk_file("somethingelse.zip", false).is_none());
}

#[test]
fn test_openjdk_links_grouping() {
    let base = "https://download.java.net/java/GA/jdk18.0.1.1/x/2/GPL";
    let hrefs = vec![
        format!("{}/openjdk-18.0.1.1_windows-x64_bin.zip", base),
        format!("{}/openjdk-18.0.1.1_windows-x64_bin.zip.sha256", base),
        format!("{}/openjdk-18.0.1.1_linux-x64_bin.tar.gz", base),
        "https://elsewhere.example/openjdk-1.2.3_linux-x64_bin.tar.gz".to_string(),
    ];
    let versions = openjdk_versions_from_links(&hrefs, false);
    assert_eq!(1, versions.len());
    let v = &versions[0];
    assert_eq!("openjdk", v.vendor.name);
    assert_eq!("18.0.1.1", v.version);
    assert_eq!(2, v.packages.len());
    // the .sha256 side link becomes the windows artifact's digest-file URL
    let win = v.packages.iter().find(|p| p.os == "windows").unwrap();
    assert_eq!(
        Some(format!("{}/openjdk-18.0.1.1_windows-x64_bin.zip.sha256", base)),
        win.checksum_url
    );
    let linux = v.packages.iter().find(|p| p.os == "linux").unwrap();
    assert_eq!(None, linux.checksum_url);
}

#[test]
fn test_go_prepare_exact_and_range() {
    let mk = |token: &str, file: &str| {
        uvm::golang::GolangVersion::from_packages(
            token.to_string(),
            vec![GolangPackage {
                version_type: "stable".to_string(),
                file_name: file.to_string(),
                os: "Linux".to_string(),
                kind: "Archive".to_string(),
                arch: "x86-64".to_string(),
                checksum: String::new(),
                url: "/dl/x".to_string(),
                size: "1MB".to_string(),
            }],
        )
        .unwrap()
    };
    let versions = vec![mk("go1.18", "a"), mk("go1.20.0", "b"), mk("go1.21.0", "c")];
    // a range request takes the newest compatible release
    let (chosen, req) =
        uvm::prepare::go_prepare_install(&versions, "^1.18", "linux", "x86_64", true).unwrap();
    assert_eq!(2, chosen);
    assert_eq!("1.21.0", req.version_dir);
    assert!(!req.link_after);
    // an empty row checksum leaves the download unguarded
    assert!(matches!(req.checksum, ChecksumSource::Absent));
    // an exact token picks the named release even when a newer one matches
    // the range
    let (chosen, req) =
        uvm::prepare::go_prepare_install(&versions, "1.18", "linux", "x86_64", false).unwrap();
    assert_eq!(0, chosen);
    assert_eq!("1.18.0", req.version_dir);
    assert!(req.link_after);
}

#[test]
fn test_go_request_url_rooting() {
    let v = uvm::golang::GolangVersion::from_packages(
        "go1.21.0".to_string(),
        vec![GolangPackage {
            version_type: "stable".to_string(),
            file_name: "go1.21.0.linux-amd64.tar.gz".to_string(),
            os: "Linux".to_string(),
            kind: "Archive".to_string(),
            arch: "x86-64".to_string(),
            checksum: "deadbeef".to_string(),
            url: "/dl/go1.21.0.linux-amd64.tar.gz".to_string(),
            size: "64MB".to_string(),
        }],
    )
    .unwrap();
    let p = v.get_matched_package("linux", "x86-64").unwrap().clone();
    let req = uvm::golang::go_install_request(&v, &p, false);
    assert_eq!("https://go.dev/dl/go1.21.0.linux-amd64.tar.gz", req.url);
    match &req.checksum {
        ChecksumSource::Inline { digest, .. } => assert_eq!("deadbeef", digest),
        _ => panic!("expected the row's digest inline"),
    }
    match &req.extract_dir {
        uvm::install::ExtractDirSource::Fixed { name } => assert_eq!("go", name),
        _ => panic!("expected the fixed top folder"),
    }
}

#[test]
fn test_java_prepare_from_corretto_body() {
    let url = "https://corretto.aws/downloads/resources/17.0.3.6.1/amazon-corretto-17.0.3.6.1-linux-x64.tar.gz";
    let body = format!(
        "| Linux x64 | JDK | [Download]({}) | `0123456789abcdef` |\r\n",
        url
    );
    let versions = vec![parse_corretto_release_body(body.as_str()).unwrap()];
    let vendor = Vendor::from_str("corretto").unwrap();
    let (chosen, req) = uvm::prepare::java_prepare_install(
        &versions,
        &vendor,
        "17.0.3.6.1",
        "linux",
        "x86_64",
        false,
    )
    .unwrap();
    assert_eq!(0, chosen);
    assert_eq!("corretto-17.0.3.6.1", req.version_dir);
    assert_eq!("amazon-corretto-17.0.3.6.1-linux-x64.tar.gz", req.archive_file);
    assert_eq!(url, req.url);
    match &req.checksum {
        ChecksumSource::Inline { method, digest } => {
            assert!(matches!(method, uvm::checksum::ChecksumMethod::Md5));
            assert_eq!("0123456789abcdef", digest);
        }
        _ => panic!("expected the row's digest inline"),
    }
    match &req.extract_dir {
        uvm::install::ExtractDirSource::Reported { fallback } => {
            // the fallback keeps the separating dot, as the convention has it
            assert_eq!("amazon-corretto-17.0.3.6.1-linux-x64.", fallback)
        }
        _ => panic!("expected the extractor-reported folder"),
    }
    // the vendor-prefixed form of the request works too
    let r = uvm::prepare::java_prepare_install(
        &versions,
        &vendor,
        "corretto-17.0.3.6.1",
        "linux",
        "x86_64",
        false,
    );
    assert!(r.is_ok());
    // text the vendor cannot read is refused
    let r = uvm::prepare::java_prepare_install(
        &versions,
        &vendor,
        "nonsense",
        "linux",
        "x86_64",
        false,
    );
    assert_eq!(Err(PrepareError::InvalidVersion), r.map(|p| p.0));
}

#[test]
fn test_go_filter_matching() {
    let v = uvm::golang::GolangVersion::from_packages(
        "go1.21.0".to_string(),
        vec![GolangPackage {
            version_type: "stable".to_string(),
            file_name: "go1.21.0.Linux-amd64.tar.gz".to_string(),
            os: "Linux".to_string(),
            kind: "Archive".to_string(),
            arch: "x86-64".to_string(),
            checksum: String::new(),
            url: "/dl/x".to_string(),
            size: "1MB".to_string(),
        }],
    )
    .unwrap();
    // the filter matches file names case-insensitively
    assert!(v.is_match("linux"));
    assert!(v.is_match("LINUX-AMD64"));
    assert!(!v.is_match("windows"));
}

#[test]
fn test_empty_codename_is_not_lts() {
    // spec: only a non-empty string codename means long-term support
    let json = "[{\"version\":\"v20.10.0\",\"files\":[\"linux-x64-tar\"],\"lts\":\"\"}]";
    let items = parse_node_official(json).unwrap();
    assert!(!items[0].is_lts());
    let versions: Vec<NodeVersion> = items.iter().filter_map(NodeVersion::from).collect();
    assert!(!versions[0].lts);
}

#[test]
fn test_corretto_body_rejecting_version() {
    // a body whose only JDK row carries an unversionable link yields nothing
    let body = "| x | JDK | [d](https://example.net/notaversion/amazon-corretto-x-linux-x64.tar.gz) | `aa` |\r\n";
    assert!(parse_corretto_release_body(body).is_none());
}
