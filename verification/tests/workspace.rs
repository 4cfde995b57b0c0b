use mem_cli::project::ProjectContext;
use mem_cli::workspace::workspace_id;

#[test]
fn workspace_override_is_validated() {
    assert_eq!(
        workspace_id(Some("worktree:feature"), &None, &None).expect("workspace"),
        "worktree:feature"
    );
    assert!(workspace_id(Some("   "), &None, &None).is_err());
}

#[test]
fn workspace_override_is_validated_without_project_identity() {
    let context =
        ProjectContext::detect(Some("worktree:feature"), &None, &None, &None).expect("context");
    assert_eq!(context.workspace_id, "worktree:feature");
    assert!(ProjectContext::detect(Some("   "), &None, &None, &None).is_err());
}
