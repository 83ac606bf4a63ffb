#[test]
fn test_test() {}
