use esotereel::client_views::{full_range, ranges_overlap, ClientViews, ViewRange};

fn sorted(mut v: Vec<u32>) -> Vec<u32> {
    v.sort();
    v
}

#[test]
fn a_client_watches_what_it_last_asked_for() {
    let mut views = ClientViews::new();
    views.update_client_view(1, 0, ViewRange { start: 0, end: 100 });
    views.update_client_view(2, 0, ViewRange { start: 200, end: 300 });
    views.update_client_view(1, 0, ViewRange { start: 150, end: 250 });
    assert_eq!(sorted(views.clients_watching_in(0, &ViewRange { start: 0, end: 100 })), Vec::<u32>::new());
    assert_eq!(sorted(views.clients_watching_in(0, &ViewRange { start: 240, end: 260 })), vec![1, 2]);
    assert_eq!(sorted(views.clients_watching_in(0, &ViewRange { start: 250, end: 260 })), vec![2]);
    assert_eq!(sorted(views.clients_watching_timeline(0)), vec![1, 2]);
    assert_eq!(views.clients_watching_timeline(1), Vec::<u32>::new());
}

#[test]
fn ranges_that_only_touch_do_not_overlap() {
    let a = ViewRange { start: 0, end: 10 };
    assert!(!ranges_overlap(&a, &ViewRange { start: 10, end: 20 }));
    assert!(ranges_overlap(&a, &ViewRange { start: 9, end: 20 }));
    assert!(ranges_overlap(&full_range(), &a));
    assert_eq!(full_range(), ViewRange { start: i64::MIN, end: i64::MAX });
}

#[test]
fn a_removed_client_watches_nothing() {
    let mut views = ClientViews::new();
    views.update_client_view(3, 0, full_range());
    views.update_client_view(3, 1, full_range());
    views.update_client_view(4, 1, full_range());
    views.remove_client_view(3);
    assert_eq!(views.clients_watching_timeline(0), Vec::<u32>::new());
    assert_eq!(views.clients_watching_timeline(1), vec![4]);
}
