use money::date::NaiveDateFilter::{Between, DateIgnored, Since, Until};
use money::date::Date;
use money::filter::VisibilityFilter::{HiddenOnly, VisibilityIgnored, VisibleOnly};
use money::filter::{Filter, ItemSelector};
use money::order::{Order, TransactionState};

fn ymd(year: i32, month: u32, day: u32) -> Date {
    Date::from_ymd(year, month, day).unwrap()
}

#[test]
fn allow_order_with_any_visibility() {
    let filter = Filter {
        visibility: VisibilityIgnored,
        ..Filter::default()
    };
    let allowed_order_1 = Order {
        visible: true,
        ..Order::default()
    };
    let allowed_order_2 = Order {
        visible: false,
        ..Order::default()
    };

    assert_eq!(filter.is_order_allowed(&allowed_order_1), true);
    assert_eq!(filter.is_order_allowed(&allowed_order_2), true);
}

#[test]
fn allow_visible_order_only() {
    let filter = Filter {
        visibility: VisibleOnly,
        ..Filter::default()
    };
    let allowed_order = Order {
        visible: true,
        ..Order::default()
    };
    let rejected_order = Order {
        visible: false,
        ..Order::default()
    };

    assert_eq!(filter.is_order_allowed(&allowed_order), true);
    assert_eq!(filter.is_order_allowed(&rejected_order), false);
}

#[test]
fn allow_hidden_order_only() {
    let filter = Filter {
        visibility: HiddenOnly,
        ..Filter::default()
    };
    let allowed_order = Order {
        visible: false,
        ..Order::default()
    };
    let rejected_order = Order {
        visible: true,
        ..Order::default()
    };

    assert_eq!(filter.is_order_allowed(&allowed_order), true);
    assert_eq!(filter.is_order_allowed(&rejected_order), false);
}

#[test]
fn allow_order_with_any_date() {
    let filter = Filter {
        date_option: DateIgnored,
        ..Filter::default()
    };
    let allowed_order_1 = Order {
        date: None,
        ..Order::default()
    };
    let allowed_order_2 = Order {
        date: Some(ymd(2020, 9, 9)),
        ..Order::default()
    };

    assert_eq!(filter.is_order_allowed(&allowed_order_1), true);
    assert_eq!(filter.is_order_allowed(&allowed_order_2), true);
}

#[test]
fn allow_order_with_date_before_end() {
    let filter = Filter {
        date_option: Until(ymd(2020, 9, 9)),
        ..Filter::default()
    };
    let allowed_order_1 = Order {
        date: Some(ymd(2020, 8, 8)),
        ..Order::default()
    };
    let allowed_order_2 = Order {
        date: Some(ymd(2020, 9, 9)),
        ..Order::default()
    };
    let rejected_order = Order {
        date: Some(ymd(2020, 9, 12)),
        ..Order::default()
    };

    assert_eq!(filter.is_order_allowed(&allowed_order_1), true);
    assert_eq!(filter.is_order_allowed(&allowed_order_2), true);
    assert_eq!(filter.is_order_allowed(&rejected_order), false);
}

#[test]
fn allow_order_with_date_after_beginning() {
    let filter = Filter {
        date_option: Since(ymd(2020, 9, 9)),
        ..Filter::default()
    };
    let allowed_order_1 = Order {
        date: Some(ymd(2020, 9, 12)),
        ..Order::default()
    };
    let allowed_order_2 = Order {
        date: Some(ymd(2020, 9, 9)),
        ..Order::default()
    };
    let rejected_order = Order {
        date: Some(ymd(2020, 9, 6)),
        ..Order::default()
    };

    assert_eq!(filter.is_order_allowed(&allowed_order_1), true);
    assert_eq!(filter.is_order_allowed(&allowed_order_2), true);
    assert_eq!(filter.is_order_allowed(&rejected_order), false);
}

#[test]
fn allow_order_with_date_between_range() {
    let filter = Filter {
        date_option: Between(ymd(2020, 9, 1), ymd(2020, 10, 1)),
        ..Filter::default()
    };
    let allowed_order_1 = Order {
        date: Some(ymd(2020, 9, 1)),
        ..Order::default()
    };
    let allowed_order_2 = Order {
        date: Some(ymd(2020, 10, 1)),
        ..Order::default()
    };
    let allowed_order_3 = Order {
        date: Some(ymd(2020, 9, 12)),
        ..Order::default()
    };
    let rejected_order_1 = Order {
        date: Some(ymd(2020, 8, 30)),
        ..Order::default()
    };
    let rejected_order_2 = Order {
        date: Some(ymd(2020, 10, 5)),
        ..Order::default()
    };

    assert_eq!(filter.is_order_allowed(&allowed_order_1), true);
    assert_eq!(filter.is_order_allowed(&allowed_order_2), true);
    assert_eq!(filter.is_order_allowed(&allowed_order_3), true);
    assert_eq!(filter.is_order_allowed(&rejected_order_1), false);
    assert_eq!(filter.is_order_allowed(&rejected_order_2), false);
}

#[test]
fn toggle_twice_restores_selector() {
    let mut selector = ItemSelector::Selected;
    selector.toggle();
    assert_eq!(selector, ItemSelector::Discarded);
    selector.toggle();
    assert_eq!(selector, ItemSelector::Selected);
}

#[test]
fn reject_order_of_discarded_state() {
    let mut filter = Filter::create();
    let done = Order {
        state: TransactionState::Done,
        ..Order::default()
    };

    assert_eq!(filter.is_order_allowed(&done), true);
    filter.toggle_state(TransactionState::Done);
    assert_eq!(filter.get_state(TransactionState::Done), ItemSelector::Discarded);
    assert_eq!(filter.get_state(TransactionState::Pending), ItemSelector::Selected);
    assert_eq!(filter.is_order_allowed(&done), false);
    assert_eq!(filter.is_order_allowed(&Order::default()), true);
}

#[test]
fn set_date_boundaries_from_text() {
    let mut filter = Filter::default();

    assert_eq!(filter.set_date_option("2020-02-03", "2020-05-05"), true);
    assert_eq!(*filter.date_option(), Between(ymd(2020, 2, 3), ymd(2020, 5, 5)));
    assert_eq!(filter.set_date_option("2020-02-10", "not a date"), true);
    assert_eq!(*filter.date_option(), Between(ymd(2020, 2, 10), ymd(2020, 5, 5)));
    assert_eq!(filter.set_date_option("", "2020-06-01"), true);
    assert_eq!(*filter.date_option(), Between(ymd(2020, 2, 10), ymd(2020, 6, 1)));
    assert_eq!(filter.set_date_end("2020-01-01"), false);
    assert_eq!(*filter.date_option(), Since(ymd(2020, 2, 10)));
    assert_eq!(filter.set_date_end("2020-12-31"), true);
    assert_eq!(*filter.date_option(), Between(ymd(2020, 2, 10), ymd(2020, 12, 31)));
    assert_eq!(filter.set_date_beginning("2020-06-01"), true);
    assert_eq!(*filter.date_option(), Between(ymd(2020, 6, 1), ymd(2020, 12, 31)));
    filter.disable_date_option();
    assert_eq!(*filter.date_option(), DateIgnored);
    assert_eq!(filter.set_date_option("bad", "worse"), false);
    assert_eq!(*filter.date_option(), DateIgnored);
}

#[test]
fn rejected_date_text_keeps_boundaries() {
    let mut filter = Filter {
        date_option: Since(ymd(2020, 2, 3)),
        ..Filter::default()
    };

    assert_eq!(filter.set_date_beginning("not a date"), true);
    assert_eq!(*filter.date_option(), Since(ymd(2020, 2, 3)));
    assert_eq!(filter.set_date_beginning(""), true);
    assert_eq!(*filter.date_option(), Since(ymd(2020, 2, 3)));
    assert_eq!(filter.set_date_end("2020-02-30"), false);
    assert_eq!(*filter.date_option(), Since(ymd(2020, 2, 3)));

    let mut filter = Filter {
        date_option: Until(ymd(2020, 5, 5)),
        ..Filter::default()
    };
    assert_eq!(filter.set_date_end("yesterday"), true);
    assert_eq!(*filter.date_option(), Until(ymd(2020, 5, 5)));
    assert_eq!(filter.set_date_beginning("2020-13-01"), false);
    assert_eq!(*filter.date_option(), Until(ymd(2020, 5, 5)));
    assert_eq!(filter.set_date_option("nope", "nope"), false);
    assert_eq!(*filter.date_option(), Until(ymd(2020, 5, 5)));
}

#[test]
fn cleared_filter_admits_every_order() {
    let mut filter = Filter {
        visibility: VisibleOnly,
        date_option: Since(ymd(2020, 1, 1)),
        state_option: [ItemSelector::Discarded, ItemSelector::Discarded, ItemSelector::Discarded],
        ordering: money::ext::OrderingPreference::ByAmount,
        ..Filter::default()
    };
    let hidden = Order {
        visible: false,
        ..Order::default()
    };

    assert_eq!(filter.is_order_allowed(&hidden), false);
    filter.clear_filters();
    assert_eq!(filter.is_order_allowed(&hidden), true);
    assert_eq!(filter.is_order_allowed(&Order::default()), true);
    assert_eq!(filter.ordering, money::ext::OrderingPreference::ByAmount);
}
