use money::category::Category;
use money::category::CategoryFilter::{CategoryIgnored, Enabled};
use money::filter::ItemSelector::{Discarded, Selected};

#[test]
fn toggle_selection() {
    let categories = [
        "Category to be toggled 1 time only 😭".to_string(),
        "Category to be toggled 2 times!".to_string(),
    ];
    let intial_categories = [
        Category(categories[0].clone(), Selected),
        Category(categories[1].clone(), Selected),
    ];
    let mut category_filter = Enabled(intial_categories.to_vec());
    let final_categories = [
        Category(categories[0].clone(), Selected),
        Category(categories[1].clone(), Discarded),
    ];
    category_filter.toggle(intial_categories[1].0.as_str());

    assert_eq!(category_filter, Enabled(final_categories.to_vec()));

    let final_categories = [
        Category(categories[0].clone(), Discarded),
        Category(categories[1].clone(), Selected),
    ];
    category_filter.toggle(intial_categories[0].0.as_str());
    category_filter.toggle(intial_categories[1].0.as_str());

    assert_eq!(category_filter, Enabled(final_categories.to_vec()));
}

#[test]
fn set_categories_to_disabled() {
    let categories = vec![
        Category("First category".into(), Selected),
        Category("Second category".into(), Selected),
        Category("Last category!".into(), Selected),
    ];
    let mut category_filter = CategoryIgnored;
    category_filter.set(categories.clone());

    assert_eq!(category_filter, Enabled(categories));
}

#[test]
fn update_categories_to_enabled() {
    let intial_categories = vec![
        Category("First category".into(), Selected),
        Category("Last category!".into(), Selected),
    ];
    let final_categories = vec![
        Category("First category".into(), Selected),
        Category("Second category".into(), Selected),
        Category("Last category!".into(), Selected),
    ];
    let mut category_filter = Enabled(intial_categories);
    category_filter.set(final_categories.clone());

    assert_eq!(category_filter, Enabled(final_categories));
}

#[test]
fn add_category_to_enabled() {
    let intial_categories = vec![
        Category("First category".into(), Selected),
        Category("Last category!".into(), Selected),
    ];
    let final_categories = vec![
        Category("First category".into(), Selected),
        Category("Last category!".into(), Selected),
        Category("The (new) last category".into(), Selected),
    ];
    let mut category_filter = Enabled(intial_categories);
    category_filter.add(final_categories[2].clone());

    assert_eq!(category_filter, Enabled(final_categories));
}

#[test]
fn enable_when_first_category_added() {
    let final_categories = vec![Category("First category".into(), Selected)];
    let mut category_filter = CategoryIgnored;
    category_filter.add(final_categories[0].clone());

    assert_eq!(category_filter, Enabled(final_categories));
}

#[test]
fn remove_category_to_enabled() {
    let initial_categories = [
        Category("First category".into(), Selected),
        Category("Last category!".into(), Selected),
    ];
    let final_categories = vec![Category("Last category!".into(), Selected)];
    let mut category_filter = Enabled(initial_categories.to_vec());

    assert_eq!(category_filter.remove(initial_categories[0].0.as_str()), true);
    assert_eq!(category_filter, Enabled(final_categories));
}

#[test]
fn disable_when_last_category_removed() {
    let initial_categories = [Category("Last category!".into(), Selected)];
    let mut category_filter = Enabled(initial_categories.to_vec());

    assert_eq!(category_filter.remove(initial_categories[0].0.as_str()), true);
    assert_eq!(category_filter, CategoryIgnored);
}

#[test]
fn attempt_to_remove_unknown_category() {
    let initial_categories = vec![
        Category("First category".into(), Selected),
        Category("Last category!".into(), Selected),
    ];
    let mut category_filter = Enabled(initial_categories.clone());

    assert_eq!(category_filter.remove("Unknown category"), false);
    assert_eq!(category_filter, Enabled(initial_categories));
}

#[test]
fn allow_any_category() {
    let category_filter = CategoryIgnored;
    let allowed_category_1 = None;
    let allowed_category_2 = Some("Car".to_string());

    assert_eq!(category_filter.among_any_selected(&allowed_category_1), true);
    assert_eq!(category_filter.among_any_selected(&allowed_category_2), true);
}

#[test]
fn allow_selected_category() {
    let categories = vec![
        Category("Bank".to_string(), Selected),
        Category("Cash".to_string(), Discarded),
    ];
    let allowed_category = Some(categories[0].0.clone());
    let rejected_category_1 = Some(categories[1].0.clone());
    let rejected_category_2 = Some("Unknown".to_string());
    let rejected_category_3 = None;
    let category_filter = Enabled(categories);

    assert_eq!(category_filter.among_any_selected(&allowed_category), true);
    assert_eq!(category_filter.among_any_selected(&rejected_category_1), false);
    assert_eq!(category_filter.among_any_selected(&rejected_category_2), false);
    assert_eq!(category_filter.among_any_selected(&rejected_category_3), false);
}

#[test]
fn allow_empty_category_only() {
    let categories = vec![
        Category("Bank".to_string(), Discarded),
        Category("Cash".to_string(), Discarded),
    ];
    let allowed_category = None;
    let rejected_category_1 = Some(categories[0].0.clone());
    let rejected_category_2 = Some(categories[1].0.clone());
    let rejected_category_3 = Some("Unknown".to_string());
    let category_filter = Enabled(categories);

    assert_eq!(category_filter.among_any_selected(&allowed_category), true);
    assert_eq!(category_filter.among_any_selected(&rejected_category_1), false);
    assert_eq!(category_filter.among_any_selected(&rejected_category_2), false);
    assert_eq!(category_filter.among_any_selected(&rejected_category_3), false);
}

#[test]
fn allow_any_list() {
    let category_filter = CategoryIgnored;
    let allowed_category_1: [String; 0] = [];
    let allowed_category_2 = ["Car".to_string(), "Insurance".to_string()];

    assert_eq!(category_filter.with_each_selected(&allowed_category_1), true);
    assert_eq!(category_filter.with_each_selected(&allowed_category_2), true);
}

#[test]
fn allow_list_with_each_selected_categories() {
    let categories = vec![
        Category("Car".to_string(), Selected),
        Category("Mum".to_string(), Discarded),
        Category("Microsoft".to_string(), Selected),
    ];
    let allowed_category_1 = [
        categories[0].0.clone(),
        categories[1].0.clone(),
        categories[2].0.clone(),
    ];
    let allowed_category_2 = [categories[0].0.clone(), categories[2].0.clone()];
    let rejected_category_1 = [categories[1].0.clone()];
    let rejected_category_2 = ["Unknown".to_string()];
    let rejected_category_3: [String; 0] = [];
    let rejected_category_4 = [categories[0].0.clone()];
    let rejected_category_5 = [categories[2].0.clone()];
    let category_filter = Enabled(categories);

    assert_eq!(category_filter.with_each_selected(&allowed_category_1), true);
    assert_eq!(category_filter.with_each_selected(&allowed_category_2), true);
    assert_eq!(category_filter.with_each_selected(&rejected_category_1), false);
    assert_eq!(category_filter.with_each_selected(&rejected_category_2), false);
    assert_eq!(category_filter.with_each_selected(&rejected_category_3), false);
    assert_eq!(category_filter.with_each_selected(&rejected_category_4), false);
    assert_eq!(category_filter.with_each_selected(&rejected_category_5), false);
}

#[test]
fn any_selected_follows_bank_and_cash_selection() {
    let category_filter = Enabled(vec![
        Category("Bank".to_string(), Discarded),
        Category("Cash".to_string(), Selected),
    ]);

    assert_eq!(category_filter.among_any_selected(&Some("Bank".to_string())), false);
    assert_eq!(category_filter.among_any_selected(&Some("Cash".to_string())), true);
    assert_eq!(category_filter.among_any_selected(&None), false);
}

#[test]
fn each_selected_requires_every_selected_name() {
    let category_filter = Enabled(vec![
        Category("Car".to_string(), Selected),
        Category("Mum".to_string(), Discarded),
        Category("Microsoft".to_string(), Selected),
    ]);

    assert_eq!(
        category_filter.with_each_selected(&["Car".to_string(), "Microsoft".to_string()]),
        true
    );
    assert_eq!(category_filter.with_each_selected(&["Mum".to_string()]), false);
    assert_eq!(category_filter.with_each_selected(&[]), false);
}

#[test]
fn toggle_reports_new_state_and_ignores_unknown_names() {
    let mut category_filter = Enabled(vec![Category("Car".to_string(), Selected)]);

    assert_eq!(category_filter.toggle("Car"), Some(&Discarded));
    assert_eq!(category_filter.toggle("Car"), Some(&Selected));
    assert_eq!(category_filter.toggle("Boat"), None);
    assert_eq!(CategoryIgnored.toggle("Car"), None);
    assert_eq!(category_filter, Enabled(vec![Category("Car".to_string(), Selected)]));
}

#[test]
fn remove_keeps_order_of_remaining_categories() {
    let mut category_filter = Enabled(vec![
        Category("A".to_string(), Selected),
        Category("B".to_string(), Discarded),
        Category("C".to_string(), Selected),
    ]);

    assert_eq!(category_filter.remove("B"), true);
    assert_eq!(
        category_filter,
        Enabled(vec![
            Category("A".to_string(), Selected),
            Category("C".to_string(), Selected),
        ])
    );
    assert_eq!(CategoryIgnored.remove("A"), false);
}
