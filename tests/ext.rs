use money::date::{Date, OptionNaiveDateRange};
use money::ext::CategoryType::{Resource, Tag};
use money::ext::OrderingDirection::{Ascending, Descending};
use money::ext::OrderingPreference::{ByAmount, ByDate, ByDescription, ById};
use money::ext::{CategoryAmount, ExclusiveItemExt, OrderListExt, RequestFailure};
use money::filter::Filter;
use money::order::Order;
use money::order::TransactionState::{Done, InProgress, Pending};

fn ymd(year: i32, month: u32, day: u32) -> Date {
    Date::from_ymd(year, month, day).unwrap()
}

#[test]
fn add_valid_key() {
    let items = (0..3)
        .map(|id| format!("Key {}", id))
        .collect::<Vec<String>>();

    let mut list: Vec<String> = items.as_slice()[..2].to_vec();

    assert_eq!(list.add_exclusive(items[2].as_str()), None);
    assert_eq!(list, items);
}

#[test]
fn remove_known_key() {
    let items = (0..3)
        .map(|id| format!("Key {}", id))
        .collect::<Vec<String>>();

    let mut list = items.clone();

    assert_eq!(list.remove_exclusive(items[2].as_str()), None);
    assert_eq!(list, items.as_slice()[..2].to_vec());
}

#[test]
fn discard_adding_existing_key() {
    let items = (0..3)
        .map(|id| format!("Key {}", id))
        .collect::<Vec<String>>();

    let mut list = items.clone();

    assert_eq!(
        list.add_exclusive(items[2].as_str()),
        Some(RequestFailure::ExistingItem)
    );
    assert_eq!(list, items);
}

#[test]
fn discard_adding_empty_key() {
    let mut list: Vec<String> = Vec::new();

    assert_eq!(list.add_exclusive(""), Some(RequestFailure::EmptyArgument));
    assert_eq!(list.is_empty(), true);
}

#[test]
fn discard_adding_incorrect_key() {
    let mut list: Vec<String> = Vec::new();

    assert_eq!(
        list.add_exclusive("  "),
        Some(RequestFailure::IncorrectArgument)
    );
    assert_eq!(list.is_empty(), true);
}

#[test]
fn discard_removing_unknown_key() {
    let items = (0..3)
        .map(|id| format!("Key {}", id))
        .collect::<Vec<String>>();

    let mut list = items.clone();

    assert_eq!(
        list.remove_exclusive("Key 4"),
        Some(RequestFailure::UnknownItem)
    );
    assert_eq!(list, items);
}

#[test]
fn compute_overall_resource_amount() {
    let resources = [String::from("Bank"), String::from("Cash")];
    let tuples = vec![
        (resources[0].clone(), -6540, Done),
        (resources[1].clone(), -3283, Done),
        (resources[1].clone(), -1399, Pending),
        (resources[1].clone(), -744, InProgress),
        (resources[1].clone(), 1500, Pending),
        (resources[1].clone(), -6999, InProgress),
        (resources[1].clone(), 799, Done),
    ];
    let result = CategoryAmount {
        current: tuples
            .iter()
            .filter(|x| x.0 == resources[1] && x.2 == Done)
            .fold(0, |acc, x| acc + x.1 as i128),
        pending: tuples
            .iter()
            .filter(|x| x.0 == resources[1] && x.2 == Pending)
            .fold(0, |acc, x| acc + x.1 as i128),
        in_progress: tuples
            .iter()
            .filter(|x| x.0 == resources[1] && x.2 == InProgress)
            .fold(0, |acc, x| acc + x.1 as i128),
        expected: tuples
            .iter()
            .filter(|x| x.0 == resources[1])
            .fold(0, |acc, x| acc + x.1 as i128),
    };
    let orders = tuples
        .into_iter()
        .map(|x| Order {
            resource: Some(x.0),
            amount: x.1,
            state: x.2,
            ..Order::default()
        })
        .collect::<Vec<Order>>();

    assert_eq!(
        orders.calculate_category_amount(
            Resource,
            resources[1].as_str(),
            OptionNaiveDateRange(None, None)
        ),
        Some(result)
    );
}

#[test]
fn compute_resource_amount_at_date() {
    let resources = [String::from("Bank")];
    let tuples = vec![
        (Some(ymd(2020, 1, 1)), resources[0].clone(), -6540, Pending),
        (Some(ymd(2020, 2, 1)), resources[0].clone(), -3283, InProgress),
        (Some(ymd(2020, 3, 1)), resources[0].clone(), -1399, Done),
        (Some(ymd(2020, 4, 1)), resources[0].clone(), -744, Done),
        (Some(ymd(2020, 5, 1)), resources[0].clone(), 1500, Pending),
        (Some(ymd(2020, 6, 1)), resources[0].clone(), -6999, Pending),
        (Some(ymd(2020, 7, 1)), resources[0].clone(), 799, Pending),
    ];
    let desired_date = ymd(2020, 6, 12);
    let not_after = |d: &Option<Date>| {
        let d = d.unwrap();
        (d.year, d.month, d.day) <= (desired_date.year, desired_date.month, desired_date.day)
    };
    let result = CategoryAmount {
        current: tuples
            .iter()
            .filter(|x| not_after(&x.0) && x.3 == Done)
            .fold(0, |acc, x| acc + x.2 as i128),
        pending: tuples
            .iter()
            .filter(|x| not_after(&x.0) && x.3 == Pending)
            .fold(0, |acc, x| acc + x.2 as i128),
        in_progress: tuples
            .iter()
            .filter(|x| not_after(&x.0) && x.3 == InProgress)
            .fold(0, |acc, x| acc + x.2 as i128),
        expected: tuples
            .iter()
            .filter(|x| not_after(&x.0))
            .fold(0, |acc, x| acc + x.2 as i128),
    };
    let orders = tuples
        .into_iter()
        .map(|x| Order {
            date: x.0,
            resource: Some(x.1),
            amount: x.2,
            state: x.3,
            ..Order::default()
        })
        .collect::<Vec<Order>>();

    assert_eq!(
        orders.calculate_category_amount(
            Resource,
            resources[0].as_str(),
            OptionNaiveDateRange(None, Some(desired_date))
        ),
        Some(result)
    );
}

#[test]
fn no_category_amount_at_date() {
    let resources = [String::from("Bank")];
    let tuples = vec![
        (Some(ymd(2020, 1, 1)), resources[0].clone(), -6540, Pending),
        (Some(ymd(2020, 2, 1)), resources[0].clone(), -3283, InProgress),
    ];
    let desired_date = ymd(2020, 6, 12);
    let orders = tuples
        .into_iter()
        .map(|x| Order {
            date: x.0,
            resource: Some(x.1),
            amount: x.2,
            state: x.3,
            ..Order::default()
        })
        .collect::<Vec<Order>>();

    assert_eq!(
        orders.calculate_category_amount(
            Resource,
            "Cash",
            OptionNaiveDateRange(None, Some(desired_date))
        ),
        None
    );
}

#[test]
fn sort_orders_by_date() {
    let orders = vec![
        Order {
            date: Some(ymd(2020, 6, 3)),
            ..Order::default()
        },
        Order {
            date: Some(ymd(2020, 10, 11)),
            ..Order::default()
        },
        Order {
            date: None,
            ..Order::default()
        },
        Order {
            date: Some(ymd(2020, 8, 23)),
            ..Order::default()
        },
    ];
    let result = [2, 0, 3, 1]
        .iter()
        .map(|&x| (x, &orders[x]))
        .collect::<Vec<(usize, &Order)>>();

    assert_eq!(
        orders.apply_filter(&Filter {
            ordering: ByDate,
            direction: Ascending,
            ..Filter::default()
        }),
        result
    );

    let result = [1, 3, 0, 2]
        .iter()
        .map(|&x| (x, &orders[x]))
        .collect::<Vec<(usize, &Order)>>();

    assert_eq!(
        orders.apply_filter(&Filter {
            ordering: ByDate,
            direction: Descending,
            ..Filter::default()
        }),
        result
    );
}

#[test]
fn sort_orders_by_description() {
    let orders = vec![
        Order {
            description: "Shopping 🛍".into(),
            ..Order::default()
        },
        Order {
            description: "Restaurant 🥘".into(),
            ..Order::default()
        },
        Order {
            description: "Cinema 🍿".into(),
            ..Order::default()
        },
        Order {
            description: "Tennis 🎾".into(),
            ..Order::default()
        },
    ];

    let result = [2, 1, 0, 3]
        .iter()
        .map(|&x| (x, &orders[x]))
        .collect::<Vec<(usize, &Order)>>();

    assert_eq!(
        orders.apply_filter(&Filter {
            ordering: ByDescription,
            direction: Ascending,
            ..Filter::default()
        }),
        result
    );

    let result = [3, 0, 1, 2]
        .iter()
        .map(|&x| (x, &orders[x]))
        .collect::<Vec<(usize, &Order)>>();

    assert_eq!(
        orders.apply_filter(&Filter {
            ordering: ByDescription,
            direction: Descending,
            ..Filter::default()
        }),
        result
    );
}

#[test]
fn sort_orders_by_id() {
    let orders = vec![
        Order {
            description: "Shopping 🛍".into(),
            ..Order::default()
        },
        Order {
            description: "Restaurant 🥘".into(),
            ..Order::default()
        },
        Order {
            description: "Cinema 🍿".into(),
            ..Order::default()
        },
        Order {
            description: "Tennis 🎾".into(),
            ..Order::default()
        },
    ];

    let result = [0, 1, 2, 3]
        .iter()
        .map(|&x| (x, &orders[x]))
        .collect::<Vec<(usize, &Order)>>();

    assert_eq!(
        orders.apply_filter(&Filter {
            ordering: ById,
            direction: Ascending,
            ..Filter::default()
        }),
        result
    );

    let result = [3, 2, 1, 0]
        .iter()
        .map(|&x| (x, &orders[x]))
        .collect::<Vec<(usize, &Order)>>();

    assert_eq!(
        orders.apply_filter(&Filter {
            ordering: ById,
            direction: Descending,
            ..Filter::default()
        }),
        result
    );
}

#[test]
fn sort_orders_by_amount() {
    let orders = vec![
        Order {
            amount: 3499,
            ..Order::default()
        },
        Order {
            amount: -550,
            ..Order::default()
        },
        Order {
            amount: -6999,
            ..Order::default()
        },
        Order {
            amount: 1500,
            ..Order::default()
        },
    ];

    let result = [2, 1, 3, 0]
        .iter()
        .map(|&x| (x, &orders[x]))
        .collect::<Vec<(usize, &Order)>>();

    assert_eq!(
        orders.apply_filter(&Filter {
            ordering: ByAmount,
            direction: Ascending,
            ..Filter::default()
        }),
        result
    );

    let result = [0, 3, 1, 2]
        .iter()
        .map(|&x| (x, &orders[x]))
        .collect::<Vec<(usize, &Order)>>();

    assert_eq!(
        orders.apply_filter(&Filter {
            ordering: ByAmount,
            direction: Descending,
            ..Filter::default()
        }),
        result
    );
}

#[test]
fn equal_keys_keep_position_order_in_both_directions() {
    let orders = vec![
        Order {
            description: "b".into(),
            amount: 5,
            ..Order::default()
        },
        Order {
            description: "A".into(),
            amount: 5,
            ..Order::default()
        },
        Order {
            description: "a".into(),
            amount: 7,
            ..Order::default()
        },
    ];
    let ids = |v: Vec<(usize, &Order)>| v.iter().map(|x| x.0).collect::<Vec<usize>>();

    let filter = Filter {
        ordering: ByAmount,
        direction: Descending,
        ..Filter::default()
    };
    assert_eq!(ids(orders.apply_filter(&filter)), vec![2, 0, 1]);
    let filter = Filter {
        ordering: ByDescription,
        direction: Ascending,
        ..Filter::default()
    };
    assert_eq!(ids(orders.apply_filter(&filter)), vec![1, 2, 0]);
    let filter = Filter {
        ordering: ByDescription,
        direction: Descending,
        ..Filter::default()
    };
    assert_eq!(ids(orders.apply_filter(&filter)), vec![0, 1, 2]);
    let filter = Filter {
        ordering: ByDate,
        direction: Descending,
        ..Filter::default()
    };
    assert_eq!(ids(orders.apply_filter(&filter)), vec![0, 1, 2]);
}

#[test]
fn empty_list_gives_empty_view_and_no_amount() {
    let orders: Vec<Order> = Vec::new();

    assert_eq!(orders.apply_filter(&Filter::default()).len(), 0);
    assert_eq!(
        orders.calculate_category_amount(Tag, "Food", OptionNaiveDateRange(None, None)),
        None
    );
}

#[test]
fn compute_tag_amount_of_visible_orders() {
    let orders = vec![
        Order {
            tags: vec!["Food".to_string(), "Home".to_string()],
            amount: -1000,
            state: Done,
            ..Order::default()
        },
        Order {
            tags: vec!["Home".to_string()],
            amount: -250,
            state: Pending,
            ..Order::default()
        },
        Order {
            tags: vec!["Food".to_string()],
            amount: -300,
            state: InProgress,
            visible: false,
            ..Order::default()
        },
        Order {
            tags: vec!["Food".to_string()],
            amount: 0,
            state: Pending,
            ..Order::default()
        },
    ];

    assert_eq!(
        orders.calculate_category_amount(Tag, "Food", OptionNaiveDateRange(None, None)),
        Some(CategoryAmount {
            current: -1000,
            pending: 0,
            in_progress: 0,
            expected: -1000,
        })
    );
    assert_eq!(
        orders.calculate_category_amount(Resource, "Food", OptionNaiveDateRange(None, None)),
        None
    );
}

#[test]
fn amounts_of_extreme_values_do_not_overflow() {
    let orders = vec![
        Order {
            resource: Some("Bank".to_string()),
            amount: i64::MAX,
            ..Order::default()
        },
        Order {
            resource: Some("Bank".to_string()),
            amount: i64::MAX,
            ..Order::default()
        },
    ];
    let total = 2 * i64::MAX as i128;

    assert_eq!(
        orders.calculate_category_amount(Resource, "Bank", OptionNaiveDateRange(None, None)),
        Some(CategoryAmount {
            current: 0,
            pending: total,
            in_progress: 0,
            expected: total,
        })
    );
}

#[test]
fn blank_key_is_incorrect_whatever_white_space() {
    let mut list: Vec<String> = Vec::new();

    assert_eq!(list.add_exclusive("\t\n "), Some(RequestFailure::IncorrectArgument));
    assert_eq!(list.add_exclusive(" a "), None);
    assert_eq!(list, vec![" a ".to_string()]);
}

#[test]
fn white_space_list_agrees_with_std() {
    for code in 0..=0x10FFFFu32 {
        if let Some(c) = char::from_u32(code) {
            assert_eq!(money::ext::is_white_space(c), c.is_whitespace(), "U+{:04X}", code);
        }
    }
}
