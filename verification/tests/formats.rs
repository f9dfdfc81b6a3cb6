use arc_ledger::aggregate::STATS_SCHEMA;
use arc_ledger::attribution::STATS_BY_MODEL_SCHEMA;
use arc_ledger::bundle::BUNDLE_SCHEMA;
use arc_ledger::chain::{chain, CHAIN_SCHEMA};
use arc_ledger::changelog::CHANGELOG_SCHEMA;
use arc_ledger::closing::CHECK_SCHEMA;
use arc_ledger::findings::FINDINGS_SCHEMA;
use arc_ledger::inbox::CATCHUP_SCHEMA;
use arc_ledger::metadata::METADATA_SCHEMA;
use arc_ledger::review::REVIEW_SCHEMA;
use arc_ledger::sandbox::{
    readable_marker, MARKER_SCHEMA, SANDBOX_CLONE_SCHEMA, SANDBOX_DIFF_SCHEMA,
};
use arc_ledger::writability::WRITABILITY_SCHEMA;

#[test]
fn formats_have_names_and_versions() {
    assert_eq!(
        [BUNDLE_SCHEMA, CHAIN_SCHEMA, CHANGELOG_SCHEMA, CHECK_SCHEMA, FINDINGS_SCHEMA],
        ["arc-bundle/1", "arc-chain/4", "arc-changelog/1", "arc-check/3", "arc-findings/2"]
    );
    assert_eq!(
        [CATCHUP_SCHEMA, METADATA_SCHEMA, REVIEW_SCHEMA, STATS_SCHEMA, STATS_BY_MODEL_SCHEMA],
        ["arc-catchup/1", "arc-metadata/1", "arc-review/1", "arc-stats/1", "arc-stats-by-model/1"]
    );
    assert_eq!(
        [MARKER_SCHEMA, SANDBOX_CLONE_SCHEMA, SANDBOX_DIFF_SCHEMA, WRITABILITY_SCHEMA],
        ["arc-sandbox/1", "arc-sandbox-clone/1", "arc-sandbox-diff/1", "arc-writability/1"]
    );
    assert!(readable_marker(MARKER_SCHEMA) && !readable_marker(SANDBOX_CLONE_SCHEMA));
    let empty = chain(&Vec::new(), &Vec::new(), "tag", false, &Vec::new()).ok().unwrap();
    assert_eq!(empty.schema, "arc-chain/4");
}
