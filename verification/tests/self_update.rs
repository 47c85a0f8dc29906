//! Versions, release metadata, checksums and the self-update.

use update_agents::bytes::PathBytes;
use update_agents::json::Json;
use update_agents::selfupdate::{
    asset_url, checksum_for, fetch_latest, is_yes, latest_tag, run_self_update, sha256_hex,
    startup_check, target_triple, verify_checksum, Cache, CheckRecord, CheckStep, Installation,
    Machine, Startup, UpdateRecord, UpdateStep, Version,
};

#[test]
fn parses_and_orders_release_tags() {
    assert_eq!(
        Version::parse("v0.1.2"),
        Some(Version {
            major: 0,
            minor: 1,
            patch: 2
        })
    );
    assert_eq!(
        Version::parse("1.2"),
        Some(Version {
            major: 1,
            minor: 2,
            patch: 0
        })
    );
    assert_eq!(
        Version::parse("v2.0.0-rc.1+meta"),
        Some(Version {
            major: 2,
            minor: 0,
            patch: 0
        })
    );
    assert!(Version::parse("not-a-version").is_none());
    assert!(Version::parse("v0.1.10").unwrap() > Version::parse("v0.1.9").unwrap());
    assert!(Version::parse("v0.10.0").unwrap() > Version::parse("v0.2.0").unwrap());
}

#[test]
fn finds_checksum_with_and_without_star() {
    let sums = "abc123  update-agents-x86_64-unknown-linux-gnu\n\
                def456 *update-agents-aarch64-apple-darwin\n";
    assert_eq!(
        checksum_for(sums, "update-agents-x86_64-unknown-linux-gnu").as_deref(),
        Some("abc123")
    );
    assert_eq!(
        checksum_for(sums, "update-agents-aarch64-apple-darwin").as_deref(),
        Some("def456")
    );
    assert_eq!(checksum_for(sums, "missing"), None);
}

#[test]
fn version_texts_read_back() {
    let current = Version::current();
    assert_eq!(current.to_text(), "0.1.0");
    assert_eq!(Version::parse(&current.to_text()), Some(current));
    let big = Version {
        major: u64::MAX,
        minor: 0,
        patch: 7,
    };
    assert_eq!(Version::parse(&big.to_text()), Some(big));
    assert_eq!(Version::parse(" V3 "), Version::parse("3.0.0"));
    assert!(Version::parse("").is_none());
    assert!(Version::parse("1..2").is_none());
    assert!(current.is_later(&Version::parse("0.0.9").unwrap()));
    assert!(!current.is_later(&current));
}

#[test]
fn checksums_are_sha256_and_ignore_case() {
    let hex = sha256_hex(b"abc");
    assert_eq!(
        hex,
        "ba7816bf8f01cfea414140de5dae2223b00361a396177a9cb410ff61f20015ad"
    );
    assert!(verify_checksum("a", &format!(" {} ", hex.to_uppercase()), &hex).is_ok());
    assert_eq!(
        verify_checksum("asset", "00", "ff").unwrap_err(),
        "checksum mismatch for asset (expected 00, got ff)"
    );
}

#[test]
fn release_metadata_is_read_from_json() {
    let body = r#"{"tag_name":"v9.1.0","n":1.5,"assets":[{"name":"x"},
        {"name":"sha256sums.txt","browser_download_url":"http://s"}]}"#;
    let release = fetch_latest(body).unwrap();
    assert_eq!(latest_tag(body).unwrap(), "v9.1.0");
    assert_eq!(asset_url(&release, "sha256sums.txt").as_deref(), Some("http://s"));
    assert_eq!(asset_url(&release, "x"), None);
    assert_eq!(asset_url(&release, "y"), None);
    assert_eq!(
        latest_tag("[]").unwrap_err(),
        "release metadata has no tag_name"
    );
    assert!(fetch_latest("{ not json")
        .unwrap_err()
        .starts_with("cannot parse release metadata: "));
    assert!(matches!(release.get("n"), Some(Json::Number(n)) if n == "1.5"));
}

#[test]
fn targets_are_known_machines() {
    assert_eq!(
        target_triple("linux", "x86_64").as_deref(),
        Some("x86_64-unknown-linux-gnu")
    );
    assert_eq!(
        target_triple("macos", "aarch64").as_deref(),
        Some("aarch64-apple-darwin")
    );
    assert_eq!(target_triple("windows", "x86_64"), None);
}

fn machine() -> Machine {
    Machine {
        os: "linux".to_string(),
        arch: "x86_64".to_string(),
        pid: 7,
    }
}

fn release_body() -> String {
    r#"{"tag_name":"v0.2.0","assets":[
        {"name":"update-agents-x86_64-unknown-linux-gnu","browser_download_url":"http://bin"},
        {"name":"sha256sums.txt","browser_download_url":"http://sums"}]}"#
        .to_string()
}

/// Runs a self-update whose download has the given content.
fn self_update(content: &[u8], sums: &str) -> (Vec<String>, Result<String, String>, bool) {
    let mut rec = UpdateRecord::new();
    let mut steps = Vec::new();
    loop {
        match run_self_update(&Version::current(), &machine(), &rec) {
            UpdateStep::FetchRelease => {
                steps.push("release".to_string());
                rec.release = Some(Ok(release_body()));
            }
            UpdateStep::FetchSums(url) => {
                steps.push(url);
                rec.sums = Some(Ok(sums.to_string()));
            }
            UpdateStep::Locate => {
                steps.push("locate".to_string());
                rec.installation = Some(Ok(Installation {
                    exe: PathBytes::from_text("/opt/bin/update-agents"),
                    dir: Some(PathBytes::from_text("/opt/bin")),
                }));
            }
            UpdateStep::Download(url, tmp) => {
                steps.push(format!("{url} {}", tmp.display()));
                rec.downloaded = Some(None);
            }
            UpdateStep::ReadBack(_) => rec.content = Some(Ok(content.to_vec())),
            UpdateStep::Install(_, exe) => {
                steps.push(format!("install {}", exe.display()));
                rec.installed = Some(None);
            }
            UpdateStep::Done(result, tmp) => return (steps, result, tmp.is_some()),
        }
    }
}

#[test]
fn a_verified_download_is_installed() {
    let sums = format!(
        "{}  update-agents-x86_64-unknown-linux-gnu\n",
        sha256_hex(b"binary")
    );
    let (steps, result, leftover) = self_update(b"binary", &sums);
    assert_eq!(
        steps,
        vec![
            "release",
            "http://sums",
            "locate",
            "http://bin /opt/bin/.update-agents.7.tmp",
            "install /opt/bin/update-agents"
        ]
    );
    assert_eq!(
        result.unwrap(),
        "update-agents: installed v0.2.0 at /opt/bin/update-agents\n"
    );
    assert!(!leftover);
}

#[test]
fn a_tampered_download_is_not_installed() {
    let sums = format!(
        "{}  update-agents-x86_64-unknown-linux-gnu\n",
        sha256_hex(b"binary")
    );
    let (steps, result, leftover) = self_update(b"other", &sums);
    assert!(!steps.iter().any(|s| s.starts_with("install")));
    assert!(result.unwrap_err().starts_with(
        "checksum mismatch for update-agents-x86_64-unknown-linux-gnu (expected "
    ));
    assert!(leftover, "the temporary file is removed");
}

#[test]
fn self_update_errors_are_named() {
    let fail = |rec: UpdateRecord, m: Machine| match run_self_update(&Version::current(), &m, &rec)
    {
        UpdateStep::Done(Err(e), _) => e,
        other => panic!("expected a failure, got {other:?}"),
    };
    let with_body = |body: &str| {
        let mut rec = UpdateRecord::new();
        rec.release = Some(Ok(body.to_string()));
        rec
    };
    let mut offline = UpdateRecord::new();
    offline.release = Some(Err("offline".to_string()));
    assert_eq!(fail(offline, machine()), "offline");
    assert_eq!(
        fail(with_body(r#"{"tag_name":"later"}"#), machine()),
        "release tag 'later' is not a version"
    );
    assert_eq!(
        fail(with_body(r#"{"tag_name":"v9"}"#), machine()),
        "release v9 has no asset named update-agents-x86_64-unknown-linux-gnu"
    );
    let mut odd = machine();
    odd.os = "plan9".to_string();
    assert_eq!(
        fail(with_body(r#"{"tag_name":"v9"}"#), odd),
        "no prebuilt binary for plan9/x86_64"
    );
    let no_sums = r#"{"tag_name":"v9","assets":[
        {"name":"update-agents-x86_64-unknown-linux-gnu","browser_download_url":"u"}]}"#;
    assert_eq!(
        fail(with_body(no_sums), machine()),
        "release v9 has no sha256sums.txt"
    );
    let mut rec = with_body(&release_body());
    rec.sums = Some(Ok("aa other\n".to_string()));
    assert_eq!(
        fail(rec, machine()),
        "sha256sums.txt has no entry for update-agents-x86_64-unknown-linux-gnu"
    );
    let entry = "aa update-agents-x86_64-unknown-linux-gnu\n".to_string();
    let mut rec = with_body(&release_body());
    rec.sums = Some(Ok(entry.clone()));
    rec.installation = Some(Err("gone".to_string()));
    assert_eq!(fail(rec, machine()), "cannot locate current executable: gone");
    let mut rec = with_body(&release_body());
    rec.sums = Some(Ok(entry));
    rec.installation = Some(Ok(Installation {
        exe: PathBytes::from_text("/"),
        dir: None,
    }));
    assert_eq!(
        fail(rec, machine()),
        "cannot determine install directory of /"
    );
    match run_self_update(
        &Version::current(),
        &machine(),
        &with_body(r#"{"tag_name":"v0.1.0"}"#),
    ) {
        UpdateStep::Done(Ok(s), None) => {
            assert_eq!(s, "update-agents: already up to date (v0.1.0)\n")
        }
        other => panic!("expected success, got {other:?}"),
    }
}

fn cache(checked_at: u64, latest: &str, acknowledged: &str) -> Cache {
    Cache {
        checked_at,
        latest: latest.to_string(),
        acknowledged_version: acknowledged.to_string(),
    }
}

fn nothing() -> CheckRecord {
    CheckRecord {
        release: None,
        answer: None,
        update: None,
    }
}

#[test]
fn a_new_version_is_raised_once_a_day() {
    let current = Version::current();
    // Nothing remembered: the release is fetched.
    assert!(matches!(
        startup_check(cache(0, "", ""), 1000, &current, false, &nothing()),
        CheckStep::FetchRelease
    ));
    // A remembered tag is raised and noted.
    let CheckStep::Done(end) =
        startup_check(cache(1000, "v0.2.0", ""), 1001, &current, false, &nothing())
    else {
        panic!("expected an end")
    };
    assert_eq!(
        end.out,
        "update-agents: v0.2.0 is available (you have 0.1.0); \
         update with `update-agents self-update`.\n"
    );
    assert_eq!(end.startup, Startup::Continue);
    let saved = end.save.unwrap();
    assert_eq!(saved.acknowledged_version, "v0.2.0");
    // The next check of the same day is silent.
    let CheckStep::Done(end) = startup_check(saved, 1000 + 86399, &current, false, &nothing())
    else {
        panic!("expected an end")
    };
    assert!(end.out.is_empty());
    // A day later it is fetched again.
    assert!(matches!(
        startup_check(
            cache(1000, "v0.2.0", "v0.2.0"),
            1000 + 86400,
            &current,
            false,
            &nothing()
        ),
        CheckStep::FetchRelease
    ));
}

#[test]
fn the_user_is_asked_before_an_update() {
    let current = Version::current();
    let fetched = |answer: Option<&str>, update: Option<Option<String>>| {
        let rec = CheckRecord {
            release: Some(Ok(r#"{"tag_name":"v0.3.0"}"#.to_string())),
            answer: answer.map(str::to_string),
            update,
        };
        startup_check(cache(0, "", ""), 50, &current, true, &rec)
    };
    match fetched(None, None) {
        CheckStep::Ask(saved, prompt) => {
            assert_eq!(saved.checked_at, 50);
            assert_eq!(saved.latest, "v0.3.0");
            assert_eq!(saved.acknowledged_version, "v0.3.0");
            assert_eq!(
                prompt,
                "update-agents: v0.3.0 is available (you have 0.1.0). Update now? [y/N] "
            );
        }
        other => panic!("expected a question, got {other:?}"),
    }
    assert!(matches!(fetched(Some(" YES\n"), None), CheckStep::SelfUpdate));
    match fetched(Some("no"), None) {
        CheckStep::Done(end) => {
            assert_eq!(
                end.out,
                "update-agents: keeping 0.1.0; update later with `update-agents self-update`.\n"
            );
            assert!(end.save.is_none());
        }
        other => panic!("expected an end, got {other:?}"),
    }
    match fetched(Some("y"), Some(None)) {
        CheckStep::Done(end) => {
            assert_eq!(end.startup, Startup::Updated);
            assert_eq!(
                end.out,
                "update-agents: updated to v0.3.0; the next run uses the new version.\n"
            );
        }
        other => panic!("expected an end, got {other:?}"),
    }
    match fetched(Some("y"), Some(Some("boom".to_string()))) {
        CheckStep::Done(end) => {
            assert_eq!(end.startup, Startup::Continue);
            assert_eq!(end.err, "update-agents: self-update failed: boom\n");
        }
        other => panic!("expected an end, got {other:?}"),
    }
    assert!(is_yes("Y"));
    assert!(!is_yes("yep"));
}

#[test]
fn a_failed_check_goes_on_silently() {
    let rec = CheckRecord {
        release: Some(Err("offline".to_string())),
        answer: None,
        update: None,
    };
    match startup_check(cache(0, "", ""), 50, &Version::current(), true, &rec) {
        CheckStep::Done(end) => {
            assert_eq!(end.startup, Startup::Continue);
            assert!(end.save.is_none() && end.out.is_empty() && end.err.is_empty());
        }
        other => panic!("expected an end, got {other:?}"),
    }
}
