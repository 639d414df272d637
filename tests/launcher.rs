use python_launcher::action::{build_action, decide, parse_args, usage, Action, Request};
use python_launcher::registry::{Candidate, Registry};
use python_launcher::resolve::{resolve, ResolveError, Signals};
use python_launcher::scan::{file_version, scan_directory, scan_path, DirEntry, Directory};
use python_launcher::signals::{env_version, shebang_version, venv_override, venv_python_path};
use python_launcher::version::{ParseError, Version};

fn v(major: u64, minor: Option<u64>) -> Version {
    Version { major, minor }
}

fn entry(name: &str, target: &str) -> DirEntry {
    DirEntry { name: name.to_string(), target: target.to_string(), executable: true }
}

fn dir(path: &str, names: &[&str]) -> Directory {
    Directory {
        path: path.to_string(),
        entries: names.iter().map(|n| entry(n, &format!("{}/{}", path, n))).collect(),
    }
}

fn fixture_dirs() -> Vec<Directory> {
    vec![dir("/d1", &["python2.7", "python3.6"]), dir("/d2", &["python3.6", "python3.7"])]
}

fn fixture_registry() -> Registry {
    Registry::from_candidates(&scan_path(&fixture_dirs()))
}

fn no_signals() -> Signals {
    Signals { venv: None, shebang: None, env: None }
}

fn strings(items: &[&str]) -> Vec<String> {
    items.iter().map(|s| s.to_string()).collect()
}

#[test]
fn first_directory_wins_for_duplicate_version() {
    let dirs = vec![dir("/d1", &["python3.6"]), dir("/d2", &["python3.6"])];
    let reg = Registry::from_candidates(&scan_path(&dirs));
    assert_eq!(resolve(None, &no_signals(), &reg), Ok("/d1/python3.6".to_string()));
    assert_eq!(reg.get(&v(3, Some(6))), Some("/d1/python3.6".to_string()));
}

#[test]
fn unspecified_request_picks_highest_version() {
    let reg = fixture_registry();
    assert_eq!(resolve(None, &no_signals(), &reg), Ok("/d2/python3.7".to_string()));
}

#[test]
fn major_request_picks_its_highest_minor() {
    let reg = fixture_registry();
    assert_eq!(resolve(Some(v(2, None)), &no_signals(), &reg), Ok("/d1/python2.7".to_string()));
    assert_eq!(resolve(Some(v(3, None)), &no_signals(), &reg), Ok("/d2/python3.7".to_string()));
}

#[test]
fn exact_request_picks_first_found() {
    let reg = fixture_registry();
    assert_eq!(resolve(Some(v(3, Some(6))), &no_signals(), &reg), Ok("/d1/python3.6".to_string()));
}

#[test]
fn missing_exact_version_fails() {
    let reg = fixture_registry();
    assert_eq!(
        resolve(Some(v(3, Some(9))), &no_signals(), &reg),
        Err(ResolveError::NoMatchingVersion(v(3, Some(9))))
    );
    assert_eq!(
        resolve(Some(v(4, None)), &no_signals(), &reg),
        Err(ResolveError::NoMatchingVersion(v(4, None)))
    );
}

#[test]
fn virtual_environment_overrides_every_signal() {
    let reg = fixture_registry();
    let signals = Signals {
        venv: Some("/venv/bin/python".to_string()),
        shebang: Some(v(2, Some(7))),
        env: Some(v(3, Some(6))),
    };
    assert_eq!(resolve(Some(v(3, Some(9))), &signals, &reg), Ok("/venv/bin/python".to_string()));
    let empty = Registry::new();
    assert_eq!(resolve(None, &signals, &empty), Ok("/venv/bin/python".to_string()));
}

#[test]
fn without_virtual_environment_path_tiers_decide() {
    let reg = fixture_registry();
    let signals = Signals { venv: venv_override(&None, true), shebang: None, env: None };
    assert_eq!(signals.venv, None);
    assert_eq!(resolve(Some(v(2, None)), &signals, &reg), Ok("/d1/python2.7".to_string()));
}

#[test]
fn tiers_apply_in_order() {
    let reg = fixture_registry();
    let signals = Signals { venv: None, shebang: Some(v(2, None)), env: Some(v(3, Some(6))) };
    assert_eq!(resolve(None, &signals, &reg), Ok("/d1/python2.7".to_string()));
    assert_eq!(resolve(Some(v(3, Some(7))), &signals, &reg), Ok("/d2/python3.7".to_string()));
    let env_only = Signals { venv: None, shebang: None, env: Some(v(3, Some(6))) };
    assert_eq!(resolve(None, &env_only, &reg), Ok("/d1/python3.6".to_string()));
    let failing = Signals { venv: None, shebang: Some(v(3, Some(9))), env: Some(v(3, Some(6))) };
    assert_eq!(resolve(None, &failing, &reg), Err(ResolveError::NoMatchingVersion(v(3, Some(9)))));
}

#[test]
fn version_round_trips() {
    for text in ["3", "3.9", "2.7", "10.11", "0", "3.10", "37", "12"] {
        let parsed = Version::parse(text).unwrap();
        assert_eq!(Version::parse(&parsed.to_string()), Ok(parsed));
    }
}

#[test]
fn version_parse_forms() {
    assert_eq!(Version::parse("3"), Ok(v(3, None)));
    assert_eq!(Version::parse("3.9"), Ok(v(3, Some(9))));
    assert_eq!(Version::parse("37"), Ok(v(3, Some(7))));
    assert_eq!(Version::parse("3.10"), Ok(v(3, Some(10))));
    assert_eq!(Version::parse("12"), Ok(v(12, None)));
    assert_eq!(v(3, Some(10)).to_string(), "3.10");
    assert_eq!(v(3, None).to_string(), "3");
}

#[test]
fn version_parse_rejects_malformed() {
    for text in ["", "abc", "3.", ".3", "03", "3.x", "3.9.1", "-3", "99999999999999999999"] {
        assert_eq!(Version::parse(text), Err(ParseError::Malformed), "{}", text);
    }
}

#[test]
fn version_matching_and_order() {
    assert!(v(3, None).matches(&v(3, Some(7))));
    assert!(v(3, Some(7)).matches(&v(3, Some(7))));
    assert!(!v(3, Some(6)).matches(&v(3, Some(7))));
    assert!(!v(2, None).matches(&v(3, Some(7))));
    assert!(v(2, Some(7)).less_than(&v(3, Some(0))));
    assert!(v(3, Some(6)).less_than(&v(3, Some(10))));
    assert!(!v(3, Some(6)).less_than(&v(3, Some(6))));
}

#[test]
fn listing_is_descending_with_one_entry_per_version() {
    let reg = fixture_registry();
    let all = reg.all();
    let versions: Vec<Version> = all.iter().map(|c: &Candidate| c.version).collect();
    assert_eq!(versions, vec![v(3, Some(7)), v(3, Some(6)), v(2, Some(7))]);
    assert_eq!(all[1].path, "/d1/python3.6");
    assert_eq!(
        reg.listing(),
        "3.7\t/d2/python3.7\n3.6\t/d1/python3.6\n2.7\t/d1/python2.7\n"
    );
}

#[test]
fn empty_search_path_has_no_interpreters() {
    let reg = Registry::from_candidates(&scan_path(&Vec::new()));
    assert_eq!(resolve(None, &no_signals(), &reg), Err(ResolveError::NoInterpreters));
    assert_eq!(
        resolve(Some(v(3, None)), &no_signals(), &reg),
        Err(ResolveError::NoMatchingVersion(v(3, None)))
    );
    assert_eq!(reg.listing(), "");
    let useless = vec![dir("/d1", &["ls", "pythonw", "python3"])];
    let reg = Registry::from_candidates(&scan_path(&useless));
    assert_eq!(resolve(None, &no_signals(), &reg), Err(ResolveError::NoInterpreters));
}

#[test]
fn malformed_environment_value_is_ignored() {
    assert_eq!(env_version(&Some("abc".to_string()), &None), None);
    assert_eq!(env_version(&Some("abc".to_string()), &Some("3.6".to_string())), None);
    let reg = fixture_registry();
    let signals = Signals { venv: None, shebang: None, env: env_version(&Some("abc".to_string()), &None) };
    assert_eq!(resolve(None, &signals, &reg), Ok("/d2/python3.7".to_string()));
}

#[test]
fn environment_versions() {
    assert_eq!(env_version(&Some("2.7".to_string()), &None), Some(v(2, Some(7))));
    assert_eq!(env_version(&Some("3".to_string()), &Some("3.6".to_string())), Some(v(3, Some(6))));
    assert_eq!(env_version(&Some("3".to_string()), &Some("bad".to_string())), Some(v(3, None)));
    assert_eq!(env_version(&Some("2".to_string()), &Some("3.6".to_string())), Some(v(2, None)));
    assert_eq!(env_version(&None, &Some("3.6".to_string())), None);
}

#[test]
fn file_names_declare_full_versions() {
    assert_eq!(file_version("python3.6"), Some(v(3, Some(6))));
    assert_eq!(file_version("python37"), Some(v(3, Some(7))));
    assert_eq!(file_version("python3"), None);
    assert_eq!(file_version("python"), None);
    assert_eq!(file_version("pythonw3.6"), None);
    assert_eq!(file_version("jython3.6"), None);
}

#[test]
fn directory_scan_skips_non_executables_and_aliases() {
    let entries = vec![
        entry("python3.6", "/opt/python3.6"),
        DirEntry { name: "python2.7".to_string(), target: "/d/python2.7".to_string(), executable: false },
        entry("python3.7", "/opt/python3.6"),
        entry("python3.8", "/d/python3.8"),
        entry("README", "/d/README"),
    ];
    let found = scan_directory("/d", &entries);
    let got: Vec<(Version, String)> = found.iter().map(|c| (c.version, c.path.clone())).collect();
    assert_eq!(got, vec![(v(3, Some(6)), "/d/python3.6".to_string()), (v(3, Some(8)), "/d/python3.8".to_string())]);
}

#[test]
fn shebang_lines() {
    assert_eq!(shebang_version("#! /usr/bin/env python3.6"), Some(v(3, Some(6))));
    assert_eq!(shebang_version("#!/usr/bin/python2"), Some(v(2, None)));
    assert_eq!(shebang_version("#!/usr/bin/python"), None);
    assert_eq!(shebang_version("#!/bin/sh"), None);
    assert_eq!(shebang_version("import sys"), None);
    assert_eq!(shebang_version(""), None);
    assert_eq!(shebang_version("#!/usr/bin/env pythonX"), None);
}

#[test]
fn virtual_environment_path() {
    assert_eq!(venv_python_path("/venv"), "/venv/bin/python");
    assert_eq!(venv_override(&Some("/venv".to_string()), true), Some("/venv/bin/python".to_string()));
    assert_eq!(venv_override(&Some("/venv".to_string()), false), None);
    assert_eq!(venv_override(&Some(String::new()), true), None);
}

#[test]
fn command_line_reading() {
    let q = parse_args(&strings(&["py", "-3.6", "script.py", "-v"])).unwrap();
    assert_eq!(q.version_flag, Some(v(3, Some(6))));
    assert_eq!(q.script_path, Some("script.py".to_string()));
    assert_eq!(q.remaining_args, strings(&["script.py", "-v"]));
    assert!(!q.help_requested && !q.list_requested);

    let q = parse_args(&strings(&["py", "--list"])).unwrap();
    assert!(q.list_requested);
    let q = parse_args(&strings(&["py", "--help"])).unwrap();
    assert!(q.help_requested);
    let q = parse_args(&strings(&["py", "-c", "pass"])).unwrap();
    assert_eq!(q.version_flag, None);
    assert_eq!(q.script_path, None);
    assert_eq!(q.remaining_args, strings(&["-c", "pass"]));
    assert_eq!(parse_args(&strings(&["py", "-3.x"])).err(), Some(ParseError::Malformed));
}

#[test]
fn actions() {
    let reg = fixture_registry();
    let req = parse_args(&strings(&["py", "-2", "x.py"])).unwrap();
    match build_action(&req, &no_signals(), &reg) {
        Ok(Action::Execute { executable, args }) => {
            assert_eq!(executable, "/d1/python2.7");
            assert_eq!(args, strings(&["x.py"]));
        }
        other => panic!("unexpected {:?}", other),
    }
    let req = parse_args(&strings(&["py", "--help"])).unwrap();
    match build_action(&req, &no_signals(), &reg) {
        Ok(Action::Help(message, executable)) => {
            assert_eq!(message, usage());
            assert_eq!(executable, "/d2/python3.7");
        }
        other => panic!("unexpected {:?}", other),
    }
    let req = parse_args(&strings(&["py", "--list"])).unwrap();
    match build_action(&req, &no_signals(), &Registry::new()) {
        Ok(Action::List(text)) => assert_eq!(text, ""),
        other => panic!("unexpected {:?}", other),
    }
    let req = Request {
        version_flag: Some(v(3, Some(9))),
        script_path: None,
        help_requested: false,
        list_requested: false,
        remaining_args: Vec::new(),
    };
    assert!(matches!(
        build_action(&req, &no_signals(), &reg),
        Err(ResolveError::NoMatchingVersion(_))
    ));
}

#[test]
fn decision_from_environment_snapshot() {
    let req = parse_args(&strings(&["py", "script.py"])).unwrap();
    let line = Some("#!/usr/bin/env python2".to_string());
    match decide(&req, &fixture_dirs(), &None, false, &line, &Some("3.6".to_string()), &None) {
        Ok(Action::Execute { executable, .. }) => assert_eq!(executable, "/d1/python2.7"),
        other => panic!("unexpected {:?}", other),
    }
    match decide(&req, &fixture_dirs(), &Some("/venv".to_string()), true, &line, &None, &None) {
        Ok(Action::Execute { executable, .. }) => assert_eq!(executable, "/venv/bin/python"),
        other => panic!("unexpected {:?}", other),
    }
    match decide(&req, &fixture_dirs(), &None, false, &None, &Some("abc".to_string()), &None) {
        Ok(Action::Execute { executable, .. }) => assert_eq!(executable, "/d2/python3.7"),
        other => panic!("unexpected {:?}", other),
    }
}
