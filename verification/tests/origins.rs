use session_repair::backfill::{backfill_archive_origins, infer_backfill_origin, ArchivedRollout};
use session_repair::model::{
    ArchiveOrigin, BranchStatus, Family, FamilyBranch, FamilyEntry, FamilyStore, IndexEntry,
};
use session_repair::rollout::{RolloutIdentity, DEFAULT_PROVIDER};

fn branch(id: &str, note: Option<&str>, origin: Option<ArchiveOrigin>) -> FamilyBranch {
    FamilyBranch {
        id: id.to_string(),
        provider: DEFAULT_PROVIDER.to_string(),
        created_at: "2026-04-22T00:00:00Z".to_string(),
        status: BranchStatus::Archived,
        rollout_relpath: format!("archived_sessions/rollout-{id}.jsonl"),
        sha256: None,
        line_count: None,
        note: note.map(|note| note.to_string()),
        archive_origin: origin,
    }
}

fn store_of(chain: Vec<FamilyBranch>) -> FamilyStore {
    let mut index: Vec<IndexEntry> = chain
        .iter()
        .map(|branch| IndexEntry {
            session_id: branch.id.clone(),
            family_id: "family".to_string(),
        })
        .collect();
    index.sort_by(|left, right| left.session_id.cmp(&right.session_id));
    let active_id = chain[0].id.clone();
    FamilyStore {
        version: 1,
        families: vec![FamilyEntry {
            key: "family".to_string(),
            family: Family {
                family_id: "family".to_string(),
                root_id: active_id.clone(),
                title: "title".to_string(),
                chain,
                active_id,
                updated_at: "2026-04-22T00:00:00Z".to_string(),
            },
        }],
        index,
    }
}

fn archived(id: &str, modified_at: Option<i64>) -> ArchivedRollout {
    ArchivedRollout {
        identity: Some(RolloutIdentity {
            id: id.to_string(),
            model_provider: "openai".to_string(),
            source: None,
        }),
        modified_at,
        source_path: format!("archived_sessions/rollout-{id}.jsonl"),
    }
}

#[test]
fn backfill_prefers_an_explicit_origin_over_a_legacy_fork_note() {
    let session_id = "explicit-provider-sync";
    let family = Family {
        family_id: "explicit-origin-family".to_string(),
        root_id: session_id.to_string(),
        title: "explicit origin".to_string(),
        chain: vec![FamilyBranch {
            id: session_id.to_string(),
            provider: DEFAULT_PROVIDER.to_string(),
            created_at: "2026-04-22T00:00:00Z".to_string(),
            status: BranchStatus::Archived,
            rollout_relpath: format!("archived_sessions/rollout-{session_id}.jsonl"),
            sha256: None,
            line_count: None,
            note: Some("forked_from:legacy-source@line:1".to_string()),
            archive_origin: Some(ArchiveOrigin::ProviderSync),
        }],
        active_id: session_id.to_string(),
        updated_at: "2026-04-22T00:00:00Z".to_string(),
    };
    let store = FamilyStore {
        version: 1,
        families: vec![FamilyEntry {
            key: family.family_id.clone(),
            family,
        }],
        index: vec![IndexEntry {
            session_id: session_id.to_string(),
            family_id: "explicit-origin-family".to_string(),
        }],
    };

    assert_eq!(
        infer_backfill_origin(&store, session_id),
        ArchiveOrigin::ProviderSync
    );
}

#[test]
fn notes_tell_the_origin_of_old_archives() {
    let store = store_of(vec![
        branch("forked", Some("forked_from:a@line:2"), None),
        branch("cloned", Some("cloned_from:a"), None),
        branch("plain", Some("something else"), None),
    ]);
    assert_eq!(infer_backfill_origin(&store, "forked"), ArchiveOrigin::Fork);
    assert_eq!(
        infer_backfill_origin(&store, "cloned"),
        ArchiveOrigin::ProviderSync
    );
    assert_eq!(
        infer_backfill_origin(&store, "plain"),
        ArchiveOrigin::Unknown
    );
    assert_eq!(
        infer_backfill_origin(&store, "stranger"),
        ArchiveOrigin::Unknown
    );
}

#[test]
fn backfill_enters_each_archived_session_once() {
    let store = store_of(vec![
        branch("forked", Some("forked_from:a@line:2"), None),
        branch("cloned", Some("cloned_from:a"), None),
    ]);
    let rollouts = vec![
        archived("known", None),
        archived("forked", Some(7)),
        archived("cloned", None),
        archived("other", Some(9)),
        ArchivedRollout {
            identity: None,
            modified_at: None,
            source_path: "archived_sessions/broken.jsonl".to_string(),
        },
    ];
    let ledger = vec!["known".to_string()];
    let outcome = backfill_archive_origins(&ledger, &store, &rollouts, false, false);
    assert_eq!(outcome.report.skipped_existing, 1);
    assert_eq!(outcome.report.fork_marked, 1);
    assert_eq!(outcome.report.provider_sync_marked, 1);
    assert_eq!(outcome.report.unknown_marked, 1);
    assert!(!outcome.report.dry_run);
    assert!(outcome.save);
    let ids: Vec<&str> = outcome
        .entries
        .iter()
        .map(|entry| entry.session_id.as_str())
        .collect();
    assert_eq!(ids.len(), 3);
    for id in ["forked", "cloned", "other"] {
        assert!(ids.contains(&id), "{id}");
    }
    let dry = backfill_archive_origins(&ledger, &store, &rollouts, true, false);
    assert!(!dry.save);
    assert_eq!(dry.report.fork_marked, 1);
    let mut grown = ledger;
    grown.extend(outcome.entries.into_iter().map(|entry| entry.session_id));
    let again = backfill_archive_origins(&grown, &store, &rollouts, false, false);
    assert_eq!(again.report.scanned, outcome.report.scanned);
    assert_eq!(again.report.skipped_existing, 4);
    assert_eq!(again.report.fork_marked, 0);
    assert_eq!(again.report.provider_sync_marked, 0);
    assert_eq!(again.report.unknown_marked, 0);
    assert!(again.entries.is_empty());
}
