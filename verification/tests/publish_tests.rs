use leonardo::publish::{plan_publish, publish_advance, publish_start, PublishOutcome,
    PublishPhase, PublishStep, Submission, OVERLAY_PROJECT_ID};

fn submission() -> Submission {
    Submission {
        app_identifier: "com.example.app".to_string(),
        icon_name: "testicon".to_string(),
        description: "desc".to_string(),
        vector_bytes: vec![60, 47, 62],
    }
}

#[test]
fn plan_derives_every_name() {
    let plan = plan_publish(&submission()).expect("a safe submission must plan");
    assert_eq!(plan.branch_name, "bot/icon_testicon");
    assert_eq!(plan.branch_refspec, "refs/heads/bot/icon_testicon");
    assert_eq!(plan.drawable_file_name, "themed_icon_testicon.xml");
    assert_eq!(plan.commit_message, "overlay: Add icon for testicon");
    assert_eq!(
        plan.index_line,
        "    <icon drawable=\"@drawable/themed_icon_testicon\" package=\"com.example.app\" />"
    );
    assert_eq!(plan.merge_request.id, OVERLAY_PROJECT_ID);
    assert_eq!(plan.merge_request.source_branch, "bot/icon_testicon");
    assert_eq!(plan.merge_request.target_branch, "12.1");
    assert!(plan.merge_request.remove_source_branch);
    assert_eq!(plan.merge_request.title, "overlay: Add icon for testicon");
    assert_eq!(plan.merge_request.description, "desc");
}

#[test]
fn plan_rejects_unsafe_icon_name() {
    let mut s = submission();
    s.icon_name = "bad name/with stuff".to_string();
    assert!(plan_publish(&s).is_none());
    s.icon_name = "".to_string();
    assert!(plan_publish(&s).is_none());
}

#[test]
fn plan_rejects_unembeddable_package() {
    let mut s = submission();
    s.app_identifier = "com.\"quoted\"".to_string();
    assert!(plan_publish(&s).is_none());
}

fn run_to_end(results: &[(PublishStep, bool)]) -> PublishOutcome {
    let mut phase = publish_start();
    for (expected_step, success) in results {
        match phase {
            PublishPhase::Running { step, .. } => {
                assert_eq!(step, *expected_step);
                phase = publish_advance(phase, *success);
            }
            PublishPhase::Finished { .. } => panic!("finished before all results were consumed"),
        }
    }
    match phase {
        PublishPhase::Finished { outcome } => outcome,
        PublishPhase::Running { .. } => panic!("publish attempt still running"),
    }
}

#[test]
fn all_steps_succeeding_is_published() {
    let outcome = run_to_end(&[
        (PublishStep::ResolveTree, true),
        (PublishStep::CreateBranch, true),
        (PublishStep::SwitchToBranch, true),
        (PublishStep::WriteDrawable, true),
        (PublishStep::UpdateIndex, true),
        (PublishStep::Commit, true),
        (PublishStep::Push, true),
        (PublishStep::RestoreBranch, true),
        (PublishStep::RequestMerge, true),
    ]);
    assert_eq!(outcome, PublishOutcome::Published);
}

#[test]
fn failed_push_still_restores_branch_and_reports_push() {
    let outcome = run_to_end(&[
        (PublishStep::ResolveTree, true),
        (PublishStep::CreateBranch, true),
        (PublishStep::SwitchToBranch, true),
        (PublishStep::WriteDrawable, true),
        (PublishStep::UpdateIndex, true),
        (PublishStep::Commit, true),
        (PublishStep::Push, false),
        (PublishStep::RestoreBranch, true),
    ]);
    assert_eq!(outcome, PublishOutcome::Failed { step: PublishStep::Push });
}

#[test]
fn failed_merge_request_after_push_is_partial() {
    let outcome = run_to_end(&[
        (PublishStep::ResolveTree, true),
        (PublishStep::CreateBranch, true),
        (PublishStep::SwitchToBranch, true),
        (PublishStep::WriteDrawable, true),
        (PublishStep::UpdateIndex, true),
        (PublishStep::Commit, true),
        (PublishStep::Push, true),
        (PublishStep::RestoreBranch, true),
        (PublishStep::RequestMerge, false),
    ]);
    assert_eq!(outcome, PublishOutcome::PartialPublish);
}

#[test]
fn early_failure_reports_failing_step_after_cleanup() {
    let outcome = run_to_end(&[
        (PublishStep::ResolveTree, true),
        (PublishStep::CreateBranch, false),
        (PublishStep::RestoreBranch, true),
    ]);
    assert_eq!(outcome, PublishOutcome::Failed { step: PublishStep::CreateBranch });
}
