use condenser::overwrite_decision;
use condenser::OverwriteBehavior;
use condenser::OverwriteDecision;

#[test]
fn always_policy_proceeds() {
    assert_eq!(
        overwrite_decision(&OverwriteBehavior::Always, true, None),
        OverwriteDecision::Proceed
    );
    assert_eq!(
        overwrite_decision(&OverwriteBehavior::Always, false, None),
        OverwriteDecision::Proceed
    );
}

#[test]
fn never_policy_skips_existing_target() {
    // A pre-existing target under the Never policy: no write, no error,
    // whatever the timestamps would have said.
    assert_eq!(
        overwrite_decision(&OverwriteBehavior::Never, true, None),
        OverwriteDecision::SkipExisting
    );
    assert_eq!(
        overwrite_decision(&OverwriteBehavior::Never, true, Some((100, 1))),
        OverwriteDecision::SkipExisting
    );
    assert_eq!(
        overwrite_decision(&OverwriteBehavior::Never, false, None),
        OverwriteDecision::Proceed
    );
}

#[test]
fn if_newer_policy_compares_timestamps() {
    // Input not strictly newer: no write. Strictly newer: write.
    assert_eq!(
        overwrite_decision(&OverwriteBehavior::IfNewer, true, Some((5, 5))),
        OverwriteDecision::SkipExisting
    );
    assert_eq!(
        overwrite_decision(&OverwriteBehavior::IfNewer, true, Some((4, 5))),
        OverwriteDecision::SkipExisting
    );
    assert_eq!(
        overwrite_decision(&OverwriteBehavior::IfNewer, true, Some((6, 5))),
        OverwriteDecision::Proceed
    );
    assert_eq!(
        overwrite_decision(&OverwriteBehavior::IfNewer, false, None),
        OverwriteDecision::Proceed
    );
}

#[test]
fn if_newer_policy_surfaces_unreadable_timestamps() {
    assert_eq!(
        overwrite_decision(&OverwriteBehavior::IfNewer, true, None),
        OverwriteDecision::TimestampUnavailable
    );
}
