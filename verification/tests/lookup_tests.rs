use gfind::branch::BranchFreshness;
use gfind::branch::BranchUpstreamStatus;
use gfind::config::BranchHash;
use gfind::lookup::StatusStep;
use gfind::lookup::start_lookup;

/// Runs a lookup with canned git output; returns the commands asked for and the outcome.
fn run_lookup(branch: &str, hash: BranchHash, prefer_origin: bool, reply: impl Fn(&[String]) -> Option<String>) -> (Vec<String>, Result<BranchUpstreamStatus, String>) {
    let mut asked = Vec::new();
    let mut step = start_lookup(branch, hash, prefer_origin);
    loop {
        match step {
            StatusStep::Done(result) => return (asked, result.map_err(|e| e.text().to_string())),
            StatusStep::Run(lookup, command) => {
                asked.push(command.join(" "));
                let output = reply(&command);
                step = lookup.next(output.as_deref(), "/repo");
            }
        }
    }
}

#[test]
fn origin_lookup_with_the_same_commit_is_up_to_date() {
    let (asked, result) = run_lookup("main", BranchHash::Short, true, |command| match command[0].as_str() {
        "ls-remote" => Some("abcdef1234\trefs/heads/main\n".to_string()),
        "rev-parse" => Some("abcdef1234\n".to_string()),
        _ => None,
    });
    assert_eq!(asked, vec!["ls-remote origin refs/heads/main", "rev-parse --verify refs/heads/main"]);
    assert_eq!(
        result.unwrap(),
        BranchUpstreamStatus::Origin {
            remote: "origin/main".to_string(),
            remote_hash: Some("abcdef1".to_string()),
            freshness: BranchFreshness::UpToDate,
        }
    );
}

#[test]
fn origin_lookup_counts_different_commits() {
    let (asked, result) = run_lookup("dev", BranchHash::Full, true, |command| match command[0].as_str() {
        "ls-remote" => Some("bbb\trefs/heads/dev\n".to_string()),
        "rev-parse" => Some("aaa\n".to_string()),
        "rev-list" => Some("0\t4\n".to_string()),
        _ => None,
    });
    assert_eq!(
        asked,
        vec![
            "ls-remote origin refs/heads/dev",
            "rev-parse --verify refs/heads/dev",
            "rev-list --left-right --count refs/heads/dev...bbb",
        ]
    );
    assert_eq!(
        result.unwrap(),
        BranchUpstreamStatus::Origin {
            remote: "origin/dev".to_string(),
            remote_hash: Some("bbb".to_string()),
            freshness: BranchFreshness::Behind(4),
        }
    );
}

#[test]
fn origin_lookup_falls_back_to_the_upstream() {
    let (asked, result) = run_lookup("main", BranchHash::Omitted, true, |command| match command[0].as_str() {
        "ls-remote" => Some("abc\trefs/heads/other\n".to_string()),
        "rev-parse" => Some("origin/main\n".to_string()),
        "rev-list" => Some("1\t2\n".to_string()),
        _ => None,
    });
    assert_eq!(
        asked,
        vec![
            "ls-remote origin refs/heads/main",
            "rev-parse --abbrev-ref main@{upstream}",
            "rev-list --left-right --count main...origin/main",
        ]
    );
    assert_eq!(
        result.unwrap(),
        BranchUpstreamStatus::Tracking { upstream: "origin/main".to_string(), upstream_hash: None, ahead: 1, behind: 2 }
    );
}

#[test]
fn upstream_lookup_reads_hash_and_counts() {
    let (asked, result) = run_lookup("main", BranchHash::Short, false, |command| {
        if command[1] == "--abbrev-ref" {
            Some("origin/main\n".to_string())
        } else if command[1] == "--short" {
            Some("abc1234\n".to_string())
        } else {
            Some("0\t0".to_string())
        }
    });
    assert_eq!(
        asked,
        vec![
            "rev-parse --abbrev-ref main@{upstream}",
            "rev-parse --short origin/main",
            "rev-list --left-right --count main...origin/main",
        ]
    );
    assert_eq!(
        result.unwrap(),
        BranchUpstreamStatus::Tracking {
            upstream: "origin/main".to_string(),
            upstream_hash: Some("abc1234".to_string()),
            ahead: 0,
            behind: 0,
        }
    );
}

#[test]
fn upstream_lookup_without_upstream_or_counts() {
    let (asked, result) = run_lookup("main", BranchHash::Full, false, |_| None);
    assert_eq!(asked, vec!["rev-parse --abbrev-ref main@{upstream}"]);
    assert_eq!(result.unwrap(), BranchUpstreamStatus::NoUpstream);

    let (_, result) = run_lookup("main", BranchHash::Omitted, false, |command| {
        if command[0] == "rev-parse" { Some("origin/main".to_string()) } else { None }
    });
    assert_eq!(result.unwrap(), BranchUpstreamStatus::NoUpstream);
}

#[test]
fn unreadable_upstream_counts_are_an_error() {
    let (_, result) = run_lookup("main", BranchHash::Omitted, false, |command| {
        if command[0] == "rev-parse" { Some("origin/main".to_string()) } else { Some("??".to_string()) }
    });
    assert_eq!(result.unwrap_err(), "failed to parse upstream status for /repo branch main");
}
