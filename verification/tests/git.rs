use ide_backend::git::{
    branch_ref, diff_lines, list_branches, log_entries, status_shows, Change,
    CheckoutRequest, CommitRecord, CommitRequest, DiffQuery, GitBranch, GitCommit, GitDiff,
    GitError, GitStatus, PatchLine, StatusEntry, LOG_LIMIT, STATUS_INDEX_DELETED,
    STATUS_INDEX_MODIFIED, STATUS_INDEX_NEW, STATUS_WT_DELETED, STATUS_WT_MODIFIED,
    STATUS_WT_NEW,
};

const ALL_CHANGES: [Change; 4] =
    [Change::Staged, Change::Modified, Change::Created, Change::Deleted];

fn shown(status: u32) -> Vec<Change> {
    ALL_CHANGES.iter().copied().filter(|change| status_shows(status, *change)).collect()
}

#[test]
fn status_flags_are_those_of_git2() {
    assert_eq!(STATUS_INDEX_NEW, git2::Status::INDEX_NEW.bits());
    assert_eq!(STATUS_INDEX_MODIFIED, git2::Status::INDEX_MODIFIED.bits());
    assert_eq!(STATUS_INDEX_DELETED, git2::Status::INDEX_DELETED.bits());
    assert_eq!(STATUS_WT_NEW, git2::Status::WT_NEW.bits());
    assert_eq!(STATUS_WT_MODIFIED, git2::Status::WT_MODIFIED.bits());
    assert_eq!(STATUS_WT_DELETED, git2::Status::WT_DELETED.bits());
}

#[test]
fn each_flag_shows_its_changes() {
    assert_eq!(shown(0), vec![]);
    assert_eq!(shown(STATUS_INDEX_NEW), vec![Change::Staged, Change::Created]);
    assert_eq!(shown(STATUS_INDEX_MODIFIED), vec![Change::Staged, Change::Modified]);
    assert_eq!(shown(STATUS_INDEX_DELETED), vec![Change::Staged, Change::Deleted]);
    assert_eq!(shown(STATUS_WT_NEW), vec![Change::Created]);
    assert_eq!(shown(STATUS_WT_MODIFIED), vec![Change::Modified]);
    assert_eq!(shown(STATUS_WT_DELETED), vec![Change::Deleted]);
}

#[test]
fn other_flags_show_nothing() {
    for bit in [3u32, 4, 5, 6, 10, 11, 12, 13, 14, 15, 16, 31] {
        assert_eq!(shown(1 << bit), vec![]);
    }
    assert_eq!(shown(git2::Status::IGNORED.bits()), vec![]);
    assert_eq!(shown(git2::Status::CONFLICTED.bits()), vec![]);
    assert_eq!(shown(git2::Status::INDEX_RENAMED.bits()), vec![]);
}

#[test]
fn flags_together_show_all_their_changes() {
    assert_eq!(
        shown(STATUS_INDEX_NEW | STATUS_WT_MODIFIED),
        vec![Change::Staged, Change::Modified, Change::Created]
    );
    assert_eq!(shown(u32::MAX), ALL_CHANGES.to_vec());
}

#[test]
fn head_without_a_name_goes_by_head() {
    assert_eq!(GitStatus::collect(Some("main"), &Vec::new()).branch, "main");
    assert_eq!(GitStatus::collect(None, &Vec::new()).branch, "HEAD");
    assert_eq!(GitStatus::collect(Some(""), &Vec::new()).branch, "");
}

#[test]
fn entry_without_a_path_has_the_empty_path() {
    assert_eq!(StatusEntry::new(Some("a.rs"), 2), StatusEntry { path: "a.rs".to_string(), status: 2 });
    assert_eq!(StatusEntry::new(None, 0x80), StatusEntry { path: String::new(), status: 0x80 });
}

#[test]
fn status_sorts_paths_by_change() {
    let entries = vec![
        StatusEntry::new(Some("new_staged.rs"), STATUS_INDEX_NEW),
        StatusEntry::new(Some("edited.rs"), STATUS_WT_MODIFIED),
        StatusEntry::new(Some("untracked.rs"), STATUS_WT_NEW),
        StatusEntry::new(Some("gone.rs"), STATUS_WT_DELETED),
        StatusEntry::new(Some("staged_edit.rs"), STATUS_INDEX_MODIFIED | STATUS_WT_MODIFIED),
        StatusEntry::new(Some("staged_gone.rs"), STATUS_INDEX_DELETED),
        StatusEntry::new(Some("ignored.rs"), git2::Status::IGNORED.bits()),
        StatusEntry::new(Some("clean.rs"), 0),
    ];
    let status = GitStatus::collect(Some("main"), &entries);
    assert_eq!(status.branch, "main");
    assert_eq!(status.staged, vec!["new_staged.rs", "staged_edit.rs", "staged_gone.rs"]);
    assert_eq!(status.modified, vec!["edited.rs", "staged_edit.rs"]);
    assert_eq!(status.created, vec!["new_staged.rs", "untracked.rs"]);
    assert_eq!(status.deleted, vec!["gone.rs", "staged_gone.rs"]);
}

#[test]
fn status_of_a_clean_tree_is_empty() {
    let status = GitStatus::collect(None, &Vec::new());
    assert_eq!(
        status,
        GitStatus {
            branch: "HEAD".to_string(),
            modified: vec![],
            created: vec![],
            deleted: vec![],
            staged: vec![],
        }
    );
}

#[test]
fn current_branch_is_marked() {
    let names = vec![Some("main".to_string()), None, Some("feature/x".to_string())];
    assert_eq!(
        list_branches(&names, Some("feature/x")),
        vec![
            GitBranch { name: "main".to_string(), is_current: false },
            GitBranch { name: "feature/x".to_string(), is_current: true },
        ]
    );
    assert_eq!(
        list_branches(&names, None),
        vec![
            GitBranch { name: "main".to_string(), is_current: false },
            GitBranch { name: "feature/x".to_string(), is_current: false },
        ]
    );
    assert_eq!(
        list_branches(&vec![Some(String::new()), Some("HEAD".to_string())], None),
        vec![
            GitBranch { name: String::new(), is_current: true },
            GitBranch { name: "HEAD".to_string(), is_current: false },
        ]
    );
    assert_eq!(list_branches(&Vec::new(), Some("main")), vec![]);
}

#[test]
fn branch_reference_is_under_refs_heads() {
    assert_eq!(branch_ref("main"), "refs/heads/main");
    assert_eq!(branch_ref("feature/x"), "refs/heads/feature/x");
    assert_eq!(branch_ref(""), "refs/heads/");
}

#[test]
fn diff_keeps_the_lines_that_have_a_path() {
    let lines = vec![
        PatchLine { path: Some("a.rs".to_string()), content: "+fn a() {}\n".to_string() },
        PatchLine { path: None, content: "lost\n".to_string() },
        PatchLine { path: Some("b.rs".to_string()), content: "-fn b() {}\n".to_string() },
    ];
    assert_eq!(
        diff_lines(&lines),
        vec![
            GitDiff { path: "a.rs".to_string(), diff: "+fn a() {}\n".to_string() },
            GitDiff { path: "b.rs".to_string(), diff: "-fn b() {}\n".to_string() },
        ]
    );
    assert_eq!(diff_lines(&Vec::new()), vec![]);
}

#[test]
fn commit_without_author_or_message_gets_the_defaults() {
    let record =
        CommitRecord { id: "abc123".to_string(), author: None, message: None, seconds: -5 };
    assert_eq!(
        GitCommit::from_record(&record),
        GitCommit {
            id: "abc123".to_string(),
            author: "Unknown".to_string(),
            message: String::new(),
            timestamp: -5,
        }
    );
    let record = CommitRecord {
        id: "def456".to_string(),
        author: Some("Ada".to_string()),
        message: Some("first\n".to_string()),
        seconds: 1_700_000_000,
    };
    assert_eq!(
        GitCommit::from_record(&record),
        GitCommit {
            id: "def456".to_string(),
            author: "Ada".to_string(),
            message: "first\n".to_string(),
            timestamp: 1_700_000_000,
        }
    );
}

#[test]
fn log_stops_at_fifty_commits() {
    assert_eq!(LOG_LIMIT, 50);
    let records: Vec<CommitRecord> = (0..120)
        .map(|n| CommitRecord {
            id: format!("{:040x}", n),
            author: Some(format!("author {}", n)),
            message: Some(format!("commit {}", n)),
            seconds: n,
        })
        .collect();
    let log = log_entries(&records);
    assert_eq!(log.len(), 50);
    for (n, commit) in log.iter().enumerate() {
        assert_eq!(commit.id, format!("{:040x}", n));
        assert_eq!(commit.timestamp, n as i64);
    }
    assert_eq!(log_entries(&records[..50].iter().map(copy_of).collect()).len(), 50);
    assert_eq!(log_entries(&records[..49].iter().map(copy_of).collect()).len(), 49);
    assert_eq!(log_entries(&Vec::new()).len(), 0);
}

fn copy_of(record: &CommitRecord) -> CommitRecord {
    CommitRecord {
        id: record.id.clone(),
        author: record.author.clone(),
        message: record.message.clone(),
        seconds: record.seconds,
    }
}

#[test]
fn git_failure_is_answered_with_500() {
    let error = GitError::Git("reference 'refs/heads/x' not found".to_string());
    assert_eq!(error.into_parts(), (500, "reference 'refs/heads/x' not found".to_string()));
}

#[test]
fn git_not_found_is_answered_with_404() {
    assert_eq!(GitError::NotFound.into_parts(), (404, "Not found".to_string()));
}

#[test]
fn requests_hold_what_they_were_given() {
    assert_eq!(CommitRequest { message: "fix".to_string() }.message, "fix");
    assert_eq!(CheckoutRequest { branch: "dev".to_string() }.branch, "dev");
    assert_eq!(DiffQuery { file: None }.file, None);
    assert_eq!(DiffQuery { file: Some("a.rs".to_string()) }.file, Some("a.rs".to_string()));
}
