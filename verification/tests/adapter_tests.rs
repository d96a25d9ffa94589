use bread_scan::args::{ArgDest, ArgError, ArgSource, Args, Os};
use bread_scan::flowextra::err_stop;
use bread_scan::golang::process_golang_gomod;
use bread_scan::java::maven_pom_url;
use bread_scan::javascript::{npm_manifest_path, npm_repo_candidate};
use bread_scan::os_arch::{filter_https_links, pacman_urls, parse_pacman_line};
use bread_scan::os_debian::{apt_source_arg, debian_source_field, debian_version_field};
use bread_scan::python::{python_dep_plan, pypi_api_url, PythonDepPlan};
use bread_scan::rust::{crates_api_url, rust_dep_plan, RustDepPlan};
use bread_scan::unit::{resolve_plan, DependencyReference, Ecosystem, ResolutionStep};
use bread_scan::weights::WorkingWeights;

#[test]
fn gomod_requires_are_recorded() {
    let text = "module example.com/m\n\
        \n\
        go 1.20\n\
        \n\
        require example.com/single v1.0.0\n\
        \n\
        require (\n\
        \texample.com/a v1.2.3\n\
        \texample.com/b v0.1.0 // indirect\n\
        \texample.com/c v2.0.0 // note\n\
        )\n"
        .to_string();
    let mut w = WorkingWeights::new();
    process_golang_gomod(&mut w, &text);
    assert_eq!(w.projects.len(), 3);
    assert!(w
        .projects
        .contains_key(&"https://example.com/single".to_string()));
    assert!(w.projects.contains_key(&"https://example.com/a".to_string()));
    assert!(!w.projects.contains_key(&"https://example.com/b".to_string()));
    assert!(w.projects.contains_key(&"https://example.com/c".to_string()));
}

#[test]
fn gomod_ignores_other_blocks() {
    let text = "exclude (\n\texample.com/x v1.0.0\n)\nrequire example.com/y v1.0.0\n".to_string();
    let mut w = WorkingWeights::new();
    process_golang_gomod(&mut w, &text);
    assert_eq!(w.projects.len(), 1);
    assert!(w.projects.contains_key(&"https://example.com/y".to_string()));
}

#[test]
fn maven_pom_location() {
    assert_eq!(
        maven_pom_url(
            &"org.apache.commons".to_string(),
            &"commons-lang3".to_string(),
            &"3.12.0".to_string()
        ),
        "https://search.maven.org/remotecontent?filepath=\
         org/apache/commons/commons-lang3/3.12.0/commons-lang3-3.12.0.pom"
            .to_string()
    );
}

#[test]
fn npm_manifest_location_and_repo_candidate() {
    assert_eq!(
        npm_manifest_path(&"lodash".to_string()),
        "node_modules/lodash/package.json".to_string()
    );
    assert_eq!(
        npm_repo_candidate(&"git+https://github.com/lodash/lodash.git".to_string()),
        Some("https://github.com/lodash/lodash".to_string())
    );
    assert_eq!(
        npm_repo_candidate(&"https://example.com/repo".to_string()),
        Some("https://example.com/repo".to_string())
    );
    assert_eq!(npm_repo_candidate(&"not a url".to_string()), None);
}

#[test]
fn registry_endpoints() {
    assert_eq!(
        crates_api_url(&"serde".to_string()),
        "https://crates.io/api/v1/crates/serde".to_string()
    );
    assert_eq!(
        pypi_api_url(&"requests".to_string()),
        "https://pypi.org/pypi/requests/json".to_string()
    );
}

#[test]
fn rust_dep_classification() {
    match rust_dep_plan(
        "x".to_string(),
        Some("https://git.example/r.git".to_string()),
        false,
        None,
    ) {
        RustDepPlan::RecordGit(u) => assert_eq!(u, "https://git.example/r.git".to_string()),
        _ => panic!("expected RecordGit"),
    }
    assert!(matches!(
        rust_dep_plan("x".to_string(), None, true, None),
        RustDepPlan::LocalPath
    ));
    match rust_dep_plan(
        "alias".to_string(),
        None,
        false,
        Some("realname".to_string()),
    ) {
        RustDepPlan::LookupCrate { cache_key, api_url } => {
            assert_eq!(cache_key, "rust-realname".to_string());
            assert_eq!(
                api_url,
                "https://crates.io/api/v1/crates/realname".to_string()
            );
        },
        _ => panic!("expected LookupCrate"),
    }
}

#[test]
fn python_dep_classification() {
    assert!(matches!(
        python_dep_plan(&"python".to_string()),
        PythonDepPlan::Skip
    ));
    match python_dep_plan(&"requests".to_string()) {
        PythonDepPlan::LookupPackage { cache_key, api_url } => {
            assert_eq!(cache_key, "python-requests".to_string());
            assert_eq!(api_url, "https://pypi.org/pypi/requests/json".to_string());
        },
        _ => panic!("expected LookupPackage"),
    }
}

#[test]
fn resolution_plan_order() {
    let d = DependencyReference {
        ecosystem: Ecosystem::Rust,
        identifier: "id".to_string(),
        url: Some("https://direct".to_string()),
        path: Some("/local".to_string()),
    };
    assert!(matches!(resolve_plan(d), ResolutionStep::RecordDirect(u) if u == "https://direct"));
    let d = DependencyReference {
        ecosystem: Ecosystem::Rust,
        identifier: "id".to_string(),
        url: None,
        path: Some("/local".to_string()),
    };
    assert!(matches!(resolve_plan(d), ResolutionStep::RecurseLocal(p) if p == "/local"));
    let d = DependencyReference {
        ecosystem: Ecosystem::Debian,
        identifier: "bash".to_string(),
        url: None,
        path: None,
    };
    assert!(matches!(resolve_plan(d), ResolutionStep::Lookup(k) if k == "debian-bash"));
}

#[test]
fn debian_fields() {
    let copyright =
        "Format: https://www.debian.org/doc\nSource: https://example.com/src\nSource: https://two\n";
    assert_eq!(
        debian_source_field(&copyright.to_string()),
        Some("https://example.com/src".to_string())
    );
    assert_eq!(debian_source_field(&"nothing here\n".to_string()), None);
    let status = "Package: p\nVersion: 1.0\nOther: x\nVersion: 2.0\n";
    assert_eq!(
        debian_version_field(&status.to_string()),
        Some("2.0".to_string())
    );
    assert_eq!(apt_source_arg(&"p".to_string(), &"1.0".to_string()), "p=1.0");
}

#[test]
fn pacman_info_lines() {
    let line: Vec<char> = "Name            : foobar".chars().collect();
    let (k, v) = parse_pacman_line(&line).unwrap();
    assert_eq!(k, "Name".to_string());
    assert_eq!(v, "foobar".to_string());
    let url_line: Vec<char> = "URL             : https://example.com/p".chars().collect();
    let (k, v) = parse_pacman_line(&url_line).unwrap();
    assert_eq!(k, "URL".to_string());
    assert_eq!(v, "https://example.com/p".to_string());
    let bad: Vec<char> = "no colon here".chars().collect();
    assert_eq!(parse_pacman_line(&bad), None);
    let indented: Vec<char> = "    continuation".chars().collect();
    assert_eq!(parse_pacman_line(&indented), None);
}

#[test]
fn pacman_listing_url_fields() {
    let listing = "Name            : foo\n\
        Version         : 1.0-1\n\
        URL             : https://example.com/foo\n\
        Description     : something\n\
                          wrapped onto a second line\n\
        \n\
        Name            : bar\n\
        URL             : https://example.com/bar\n"
        .to_string();
    assert_eq!(
        pacman_urls(&listing),
        vec![
            "https://example.com/foo".to_string(),
            "https://example.com/bar".to_string()
        ]
    );
}

#[test]
fn https_links_filtered_in_order() {
    let hrefs = vec![
        "https://a".to_string(),
        "http://b".to_string(),
        "ftp://c".to_string(),
        "https://d".to_string(),
    ];
    assert_eq!(
        filter_https_links(&hrefs),
        vec!["https://a".to_string(), "https://d".to_string()]
    );
}

#[test]
fn source_selectors() {
    assert!(matches!(
        ArgSource::from_str(&"project=/tmp/x".to_string()),
        Ok(ArgSource::Project(p)) if p == "/tmp/x"
    ));
    assert!(matches!(
        ArgSource::from_str(&"donate".to_string()),
        Ok(ArgSource::Donate)
    ));
    assert!(matches!(
        ArgSource::from_str(&"os=debian".to_string()),
        Ok(ArgSource::Os(Os::Debian))
    ));
    assert!(matches!(
        ArgSource::from_str(&"os=arch".to_string()),
        Ok(ArgSource::Os(Os::Arch))
    ));
    assert!(matches!(
        ArgSource::from_str(&"file=out.json".to_string()),
        Ok(ArgSource::File(p)) if p == "out.json"
    ));
    assert!(matches!(
        ArgSource::from_str(&"project".to_string()),
        Err(ArgError::MissingPath)
    ));
    assert!(matches!(
        ArgSource::from_str(&"os".to_string()),
        Err(ArgError::MissingOsName)
    ));
    assert!(matches!(
        ArgSource::from_str(&"os=mac".to_string()),
        Err(ArgError::UnknownOs)
    ));
    assert!(matches!(
        ArgSource::from_str(&"donate=extra".to_string()),
        Err(ArgError::DonateTakesNoParameters)
    ));
    assert!(matches!(
        ArgSource::from_str(&"mystery=3".to_string()),
        Err(ArgError::UnknownSourceType)
    ));
}

#[test]
fn dest_selectors() {
    assert!(matches!(
        ArgDest::from_str(&"project-yaml=/tmp/x".to_string()),
        Ok(ArgDest::ProjectYaml(p)) if p == "/tmp/x"
    ));
    assert!(matches!(
        ArgDest::from_str(&"donate".to_string()),
        Ok(ArgDest::Donate)
    ));
    assert!(matches!(
        ArgDest::from_str(&"file=o".to_string()),
        Ok(ArgDest::File(p)) if p == "o"
    ));
    assert!(matches!(
        ArgDest::from_str(&"project-yaml".to_string()),
        Err(ArgError::MissingPath)
    ));
    assert!(matches!(
        ArgDest::from_str(&"mystery".to_string()),
        Err(ArgError::UnknownDestType)
    ));
}

#[test]
fn args_collect_parsed_selectors() {
    let args = Args {
        source: vec![
            ArgSource::from_str(&"project=/x".to_string()).unwrap(),
            ArgSource::from_str(&"os=debian".to_string()).unwrap(),
        ],
        dest: vec![ArgDest::from_str(&"file=out".to_string()).unwrap()],
        remove: true,
        remove_accounts: false,
    };
    assert_eq!(args.source.len(), 2);
    assert_eq!(args.dest.len(), 1);
    assert!(args.remove);
    assert!(!args.remove_accounts);
}

#[test]
fn err_stop_passes_results_through() {
    let ok: Result<u32, String> = err_stop(|| Ok(7));
    assert_eq!(ok, Ok(7));
    let err: Result<u32, String> = err_stop(|| Err("stop".to_string()));
    assert_eq!(err, Err("stop".to_string()));
}
