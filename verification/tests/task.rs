use garde::task::version::Version;

#[test]
fn version_task_succeeds() {
    assert!(Version {}.run().is_ok());
}
