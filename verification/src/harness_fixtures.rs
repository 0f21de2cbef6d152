//! Synthetic workspace files for harness probes; they never touch real project code.
use vstd::prelude::*;

verus! {

/// Workspace folder of the synthetic fixtures.
pub const HARNESS_FIXTURES_DIR: &'static str = "test/harness-fixtures";

/// Relative path of the buggy PHP fixture.
pub const SYNTHETIC_BUGGY_API_REL: &'static str = "test/harness-fixtures/SyntheticProjectsAPI.php";

/// The intentional typo in the fixture.
pub const BUG_NEEDLE: &'static str = "$projectUids";

/// The corrected spelling.
pub const FIX_NEEDLE: &'static str = "$projectUuids";

/// Line a probe patch replaces.
pub const PATCH_OLD: &'static str = "foreach ($projectUids as $projectUuid)";

/// Line a probe patch writes.
pub const PATCH_NEW: &'static str = "foreach ($projectUuids as $projectUuid)";

/// Minimal PHP with an intentional typo, safe to patch and revert in probes.
pub const BUGGY_FIXTURE_SOURCE: &'static str = r#"<?php
/**
 * Harness synthetic fixture — intentional bug for agent/probe tests.
 * Reset by harness_fixtures::reset_synthetic_buggy_api before each run.
 */

class SyntheticProjectsAPI
{
    public function getDolgomerInfo(array $payload): array
    {
        $projectUuids = [];
        $projects = $payload['projects'] ?? [];

        foreach ($projectUids as $projectUuid) {
            $projectUuids[] = $projectUuid;
        }

        return ['projects' => $projectUuids];
    }
}
"#;

} // verus!
