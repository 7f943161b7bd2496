use ruach::search::{SearchPlan, SearchService};

#[test]
fn blank_query_plans_nothing() {
    assert!(matches!(SearchService::plan("  "), SearchPlan::Nothing));
    assert!(matches!(SearchService::plan(""), SearchPlan::Nothing));
}

#[test]
fn long_query_is_a_quoted_phrase() {
    match SearchService::plan("  风的形状 ") {
        SearchPlan::Fts { matcher, title_pattern, limit } => {
            assert_eq!(matcher, "\"风的形状\"");
            assert_eq!(title_pattern, "%风的形状%");
            assert_eq!(limit, 50);
        }
        other => panic!("unexpected {:?}", other),
    }
    match SearchService::plan("say \"hi\"") {
        SearchPlan::Fts { matcher, .. } => assert_eq!(matcher, "\"say \"\"hi\"\"\""),
        other => panic!("unexpected {:?}", other),
    }
}

#[test]
fn short_query_is_an_escaped_like_scan() {
    match SearchService::plan("风") {
        SearchPlan::Like { pattern, limit } => {
            assert_eq!(pattern, "%风%");
            assert_eq!(limit, 50);
        }
        other => panic!("unexpected {:?}", other),
    }
    match SearchService::plan("%_") {
        SearchPlan::Like { pattern, .. } => assert_eq!(pattern, "%\\%\\_%"),
        other => panic!("unexpected {:?}", other),
    }
    match SearchService::plan("\\") {
        SearchPlan::Like { pattern, .. } => assert_eq!(pattern, "%\\\\%"),
        other => panic!("unexpected {:?}", other),
    }
}
