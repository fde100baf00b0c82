use rostfacto::models::{decide_next_status, Category, Status};

#[test]
fn test_status_default() {
    assert_eq!(Status::default(), Status::Created);
}

#[test]
fn test_category_to_string() {
    assert_eq!(Category::Good.to_string(), "GOOD");
    assert_eq!(Category::Bad.to_string(), "BAD");
    assert_eq!(Category::Watch.to_string(), "WATCH");
}

#[test]
fn test_next_status_table() {
    assert_eq!(decide_next_status(Status::Created, false), Status::Highlighted);
    assert_eq!(decide_next_status(Status::Created, true), Status::Created);
    assert_eq!(decide_next_status(Status::Highlighted, false), Status::Completed);
    assert_eq!(decide_next_status(Status::Highlighted, true), Status::Completed);
    assert_eq!(decide_next_status(Status::Completed, false), Status::Completed);
    assert_eq!(decide_next_status(Status::Completed, true), Status::Completed);
    assert_eq!(decide_next_status(Status::Archived, false), Status::Archived);
    assert_eq!(decide_next_status(Status::Archived, true), Status::Archived);
}
