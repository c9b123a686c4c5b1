use gravity_funnel::doc_tab::{DocTab, DocTabState};

#[test]
fn window_opens_on_the_overview() {
    let s = DocTabState::new();
    assert_eq!(s.current, DocTab::Overview);
    assert!(s.is_selected(DocTab::Overview));
    assert!(!s.is_selected(DocTab::Equations));
}

#[test]
fn selecting_a_tab_makes_it_the_only_selected_one() {
    let mut s = DocTabState::new();
    s.select(DocTab::RealPhysics);
    assert!(s.is_selected(DocTab::RealPhysics));
    assert!(!s.is_selected(DocTab::Overview));
    assert!(!s.is_selected(DocTab::Equations));
    s.select(DocTab::Equations);
    assert_eq!(s.current, DocTab::Equations);
}
