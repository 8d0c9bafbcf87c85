//! Requests on an account and a filter, as a user interface issues them:
//! orders addressed by position, categories addressed by kind and name.
use crate::category::{entries, first_with_name, has_name, Category, CategoryFilter};
use crate::date::Date;
use crate::ext::{add_outcome, name_order, texts, CategoryType, ExclusiveItemExt};
use crate::filter::{parsed_date, Filter, ItemSelector};
use crate::order::{opt_text, Order, TransactionState};
use crate::Account;
use vstd::prelude::*;

verus! {

/// The account after a request that may only change the order at `index`:
/// every other part is kept.
pub open spec fn only_order_changed(before: Account, after: Account, index: int) -> bool {
    &&& after.label == before.label
    &&& after.tags == before.tags
    &&& after.resources == before.resources
    &&& after.orders.len() == before.orders.len()
    &&& forall|k: int|
        0 <= k < before.orders.len() && k != index ==> #[trigger] after.orders@[k]
            == before.orders@[k]
}

/// Everything but the tags, the resource and the visibility is the same.
pub open spec fn same_but_visibility(a: Order, b: Order) -> bool {
    &&& a.date == b.date
    &&& a.description == b.description
    &&& a.amount == b.amount
    &&& a.resource == b.resource
    &&& a.tags == b.tags
    &&& a.state == b.state
}

/// The registered names of a kind.
pub open spec fn names_of(account: Account, kind: CategoryType) -> Seq<Seq<char>> {
    match kind {
        CategoryType::Resource => texts(account.resources@),
        CategoryType::Tag => texts(account.tags@),
    }
}

/// The registered names of a kind, sorted case-insensitively.
pub fn get_account_categories(account: &Account, category_type: CategoryType) -> (r: Vec<String>)
    ensures
        exists|p: Seq<usize>|
            name_order(names_of(*account, category_type), p) && texts(r@) == p.map_values(
                |i: usize| names_of(*account, category_type)[i as int],
            ),
{
    let names = match category_type {
        CategoryType::Resource => account.resources(),
        CategoryType::Tag => account.tags(),
    };
    let r = names.sorted_keys();
    proof {
        let t = names_of(*account, category_type);
        assert(t == texts(names@));
        let p = choose|p: Seq<usize>|
            name_order(texts(names@), p) && texts(r@) == p.map_values(
                |i: usize| texts(names@)[i as int],
            );
        assert(p.map_values(|i: usize| t[i as int]) =~= p.map_values(
            |i: usize| texts(names@)[i as int],
        ));
    }
    r
}

/// Flips the visibility of an order; returns whether it exists.
pub fn toggle_account_order_visibility(account: &mut Account, index: usize) -> (r: bool)
    ensures
        r == (index < old(account).orders.len()),
        only_order_changed(*old(account), *final(account), index as int),
        r ==> {
            let (a, b) = (old(account).orders@[index as int], final(account).orders@[index as int]);
            &&& b.visible == !a.visible
            &&& same_but_visibility(a, b)
        },
        !r ==> final(account).orders == old(account).orders,
{
    if index < account.orders.len() {
        let visible = account.orders[index].visible;
        account.orders[index].visible = !visible;
        true
    } else {
        false
    }
}

/// Deletes an order permanently; returns whether it existed.
pub fn delete_account_order(account: &mut Account, index: usize) -> (r: bool)
    ensures
        r == (index < old(account).orders.len()),
        r ==> final(account).orders@ == old(account).orders@.remove(index as int),
        !r ==> final(account).orders@ == old(account).orders@,
        final(account).label == old(account).label,
        final(account).tags == old(account).tags,
        final(account).resources == old(account).resources,
{
    account.delete_order(index)
}

/// Sets the date of an order from a text: an empty text clears it, one that
/// does not parse changes nothing. Returns whether the date was set.
pub fn set_account_order_date(account: &mut Account, index: usize, date: &str) -> (r: bool)
    ensures
        r == (index < old(account).orders.len() && (date@.len() == 0 || parsed_date(date@) is Some)),
        only_order_changed(*old(account), *final(account), index as int),
        index < old(account).orders.len() ==> {
            let (a, b) = (old(account).orders@[index as int], final(account).orders@[index as int]);
            &&& b.date == if date@.len() == 0 {
                None
            } else if parsed_date(date@) is Some {
                parsed_date(date@)
            } else {
                a.date
            }
            &&& b.description == a.description
            &&& b.amount == a.amount
            &&& b.resource == a.resource
            &&& b.tags == a.tags
            &&& b.state == a.state
            &&& b.visible == a.visible
        },
{
    if index < account.orders.len() {
        if date.is_empty() {
            account.orders[index].date = None;
            true
        } else {
            match Date::parse(date) {
                Some(d) => {
                    account.orders[index].date = Some(d);
                    true
                },
                None => false,
            }
        }
    } else {
        false
    }
}

/// Sets the description of an order; returns whether it exists.
pub fn set_account_order_description(account: &mut Account, index: usize, description: &str) -> (r: bool)
    ensures
        r == (index < old(account).orders.len()),
        only_order_changed(*old(account), *final(account), index as int),
        r ==> {
            let (a, b) = (old(account).orders@[index as int], final(account).orders@[index as int]);
            &&& b.description@ == description@
            &&& b.date == a.date
            &&& b.amount == a.amount
            &&& b.resource == a.resource
            &&& b.tags == a.tags
            &&& b.state == a.state
            &&& b.visible == a.visible
        },
        !r ==> final(account).orders == old(account).orders,
{
    if index < account.orders.len() {
        account.orders[index].description = description.to_owned();
        true
    } else {
        false
    }
}

/// Sets the amount of an order; returns whether it exists.
pub fn set_account_order_amount(account: &mut Account, index: usize, amount: i64) -> (r: bool)
    ensures
        r == (index < old(account).orders.len()),
        only_order_changed(*old(account), *final(account), index as int),
        r ==> {
            let (a, b) = (old(account).orders@[index as int], final(account).orders@[index as int]);
            &&& b.amount == amount
            &&& b.date == a.date
            &&& b.description == a.description
            &&& b.resource == a.resource
            &&& b.tags == a.tags
            &&& b.state == a.state
            &&& b.visible == a.visible
        },
        !r ==> final(account).orders == old(account).orders,
{
    if index < account.orders.len() {
        account.orders[index].amount = amount;
        true
    } else {
        false
    }
}

/// Sets the resource of an order if it is registered; returns whether the
/// order exists.
pub fn set_account_order_resource(account: &mut Account, index: usize, resource: &str) -> (r: bool)
    ensures
        r == (index < old(account).orders.len()),
        only_order_changed(*old(account), *final(account), index as int),
        r ==> {
            let (a, b) = (old(account).orders@[index as int], final(account).orders@[index as int]);
            &&& opt_text(b.resource) == if texts(old(account).resources@).contains(resource@) {
                Some(resource@)
            } else {
                opt_text(a.resource)
            }
            &&& texts(old(account).resources@).contains(resource@) || b.resource == a.resource
            &&& b.date == a.date
            &&& b.description == a.description
            &&& b.amount == a.amount
            &&& b.tags == a.tags
            &&& b.state == a.state
            &&& b.visible == a.visible
        },
        !r ==> final(account).orders == old(account).orders,
{
    if index < account.orders.len() {
        let available = account.resources.clone();
        proof {
            assert(texts(available@) =~= texts(account.resources@));
        }
        account.orders[index].set_resource(resource, available.as_slice());
        true
    } else {
        false
    }
}

/// Tags held after adding `names` one after the other to no tags, with
/// whether every addition succeeded: a name is added when it is registered
/// and not held yet.
pub open spec fn tags_added(available: Seq<Seq<char>>, names: Seq<Seq<char>>) -> (Seq<Seq<char>>, bool)
    decreases names.len(),
{
    if names.len() == 0 {
        (Seq::empty(), true)
    } else {
        let (held, ok) = tags_added(available, names.drop_last());
        let n = names.last();
        if available.contains(n) && add_outcome(held, n) is None {
            (held.push(n), ok)
        } else {
            (held, false)
        }
    }
}

/// Replaces the tags of an order by the registered ones among `tags`;
/// returns whether the order exists and every tag could be added.
pub fn set_account_order_tags(account: &mut Account, index: usize, tags: &Vec<String>) -> (r: bool)
    ensures
        only_order_changed(*old(account), *final(account), index as int),
        index < old(account).orders.len() ==> {
            let (a, b) = (old(account).orders@[index as int], final(account).orders@[index as int]);
            let (held, ok) = tags_added(texts(old(account).tags@), texts(tags@));
            &&& texts(b.tags@) == held
            &&& r == ok
            &&& b.date == a.date
            &&& b.description == a.description
            &&& b.amount == a.amount
            &&& b.resource == a.resource
            &&& b.state == a.state
            &&& b.visible == a.visible
        },
        index >= old(account).orders.len() ==> !r && final(account).orders == old(account).orders,
{
    if index >= account.orders.len() {
        return false;
    }
    let available = account.tags.clone();
    let ghost avail = texts(account.tags@);
    proof {
        assert(texts(available@) =~= avail);
    }
    let ghost names = texts(tags@);
    account.orders[index].clear_tags();
    proof {
        assert(texts(account.orders@[index as int].tags@) =~= Seq::<Seq<char>>::empty());
    }
    let mut failed = false;
    let mut i: usize = 0;
    while i < tags.len()
        invariant
            0 <= i <= tags.len(),
            index < account.orders.len(),
            avail == texts(old(account).tags@),
            texts(available@) == avail,
            names == texts(tags@),
            only_order_changed(*old(account), *account, index as int),
            ({
                let (a, b) = (old(account).orders@[index as int], account.orders@[index as int]);
                let (held, ok) = tags_added(avail, names.take(i as int));
                &&& texts(b.tags@) == held
                &&& failed == !ok
                &&& b.date == a.date
                &&& b.description == a.description
                &&& b.amount == a.amount
                &&& b.resource == a.resource
                &&& b.state == a.state
                &&& b.visible == a.visible
            }),
        decreases tags.len() - i,
    {
        proof {
            assert(names.take(i + 1).drop_last() =~= names.take(i as int));
            assert(names.take(i + 1).last() == tags@[i as int]@);
        }
        let added = account.orders[index].add_tag(tags[i].as_str(), available.as_slice());
        if !added {
            failed = true;
        }
        i += 1;
    }
    proof {
        assert(names.take(i as int) =~= names);
    }
    !failed
}

/// Sets the state of an order (a done order without date gets `today`, the
/// day of the change); returns whether it exists.
pub fn set_account_order_state(
    account: &mut Account,
    index: usize,
    state: TransactionState,
    today: Date,
) -> (r: bool)
    ensures
        r == (index < old(account).orders.len()),
        only_order_changed(*old(account), *final(account), index as int),
        r ==> {
            let (a, b) = (old(account).orders@[index as int], final(account).orders@[index as int]);
            &&& b.state == state
            &&& if state == TransactionState::Done && a.date is None {
                b.date == Some(today)
            } else {
                b.date == a.date
            }
            &&& b.description == a.description
            &&& b.amount == a.amount
            &&& b.resource == a.resource
            &&& b.tags == a.tags
            &&& b.visible == a.visible
        },
        !r ==> final(account).orders == old(account).orders,
{
    if index < account.orders.len() {
        account.orders[index].set_state(state, today);
        true
    } else {
        false
    }
}

/// The category option of a kind.
pub open spec fn option_of(filter: Filter, kind: CategoryType) -> CategoryFilter {
    match kind {
        CategoryType::Resource => filter.resource_option,
        CategoryType::Tag => filter.tag_option,
    }
}

/// The filter after a request that may only change the category option of
/// a kind.
pub open spec fn only_option_changed(before: Filter, after: Filter, kind: CategoryType) -> bool {
    &&& after.visibility == before.visibility
    &&& after.date_option == before.date_option
    &&& after.state_option == before.state_option
    &&& after.ordering == before.ordering
    &&& after.direction == before.direction
    &&& kind == CategoryType::Resource ==> after.tag_option == before.tag_option
    &&& kind == CategoryType::Tag ==> after.resource_option == before.resource_option
}

/// The category option of a kind, to change it.
fn option_mut(filter: &mut Filter, kind: CategoryType) -> (r: &mut CategoryFilter)
    ensures
        *r == option_of(*old(filter), kind),
        option_of(*final(filter), kind) == *final(r),
        only_option_changed(*old(filter), *final(filter), kind),
{
    match kind {
        CategoryType::Resource => filter.get_resource_option_mut(),
        CategoryType::Tag => filter.get_tag_option_mut(),
    }
}

/// Turns off the category option of a kind.
pub fn clear_filter_categories(filter: &mut Filter, category_type: CategoryType)
    ensures
        option_of(*final(filter), category_type)@ is None,
        only_option_changed(*old(filter), *final(filter), category_type),
{
    let option = option_mut(filter, category_type);
    *option = CategoryFilter::CategoryIgnored;
}

/// Selection entries of names, each selected.
pub open spec fn all_selected(names: Seq<Seq<char>>) -> Seq<(Seq<char>, ItemSelector)> {
    names.map_values(|n: Seq<char>| (n, ItemSelector::Selected))
}

/// Enables the category option of a kind with exactly the names, each
/// selected.
pub fn set_filter_categories(filter: &mut Filter, category_type: CategoryType, names: &Vec<String>)
    ensures
        option_of(*final(filter), category_type)@ == Some(all_selected(texts(names@))),
        only_option_changed(*old(filter), *final(filter), category_type),
{
    let mut categories: Vec<Category> = Vec::new();
    let mut i: usize = 0;
    while i < names.len()
        invariant
            0 <= i <= names.len(),
            entries(categories@) == all_selected(texts(names@)).take(i as int),
        decreases names.len() - i,
    {
        let ghost before = categories@;
        let name = names[i].clone();
        categories.push(Category(name, ItemSelector::Selected));
        proof {
            assert(entries(categories@) =~= entries(before).push((names@[i as int]@, ItemSelector::Selected)));
            assert(entries(categories@) =~= all_selected(texts(names@)).take(i + 1));
        }
        i += 1;
    }
    proof {
        assert(all_selected(texts(names@)).take(i as int) =~= all_selected(texts(names@)));
    }
    let option = option_mut(filter, category_type);
    option.set(categories);
}

/// Appends a selected category to the option of a kind, enabling it if it
/// was off.
pub fn add_filter_category(filter: &mut Filter, category_type: CategoryType, name: &str)
    ensures
        option_of(*final(filter), category_type)@ == Some(
            match option_of(*old(filter), category_type)@ {
                None => seq![(name@, ItemSelector::Selected)],
                Some(items) => items.push((name@, ItemSelector::Selected)),
            },
        ),
        only_option_changed(*old(filter), *final(filter), category_type),
{
    let option = option_mut(filter, category_type);
    option.add(Category(name.to_owned(), ItemSelector::Selected));
}

/// Removes the first category with the name from the option of a kind,
/// turning it off when it was the last one; returns whether one was removed.
pub fn remove_filter_category(filter: &mut Filter, category_type: CategoryType, name: &str) -> (r: bool)
    ensures
        r == (option_of(*old(filter), category_type)@ matches Some(items) && has_name(items, name@)),
        r ==> (option_of(*old(filter), category_type)@ matches Some(items) && {
            let i = first_with_name(items, name@);
            option_of(*final(filter), category_type)@ == if items.len() == 1 {
                None
            } else {
                Some(items.remove(i))
            }
        }),
        !r ==> option_of(*final(filter), category_type)@ == option_of(*old(filter), category_type)@,
        only_option_changed(*old(filter), *final(filter), category_type),
{
    let option = option_mut(filter, category_type);
    option.remove(name)
}

/// Selection state of the first category with the name in the option of a
/// kind; nothing when the option is off or has no such category.
pub fn get_filter_category_state(filter: &Filter, category_type: CategoryType, name: &str) -> (r: Option<ItemSelector>)
    ensures
        r == match option_of(*filter, category_type)@ {
            Some(items) => if has_name(items, name@) {
                Some(items[first_with_name(items, name@)].1)
            } else {
                None
            },
            None => None,
        },
{
    let option = match category_type {
        CategoryType::Resource => filter.resource_option(),
        CategoryType::Tag => filter.tag_option(),
    };
    match option {
        CategoryFilter::Enabled(items) => {
            match crate::category::position_of(items, name) {
                Some(index) => {
                    proof {
                        assert(entries(items@)[index as int] == items@[index as int]@);
                    }
                    Some(items[index].1)
                },
                None => None,
            }
        },
        CategoryFilter::CategoryIgnored => None,
    }
}

/// Toggles the first category with the name in the option of a kind and
/// returns its new state; nothing, and no change, when there is none.
pub fn toggle_filter_category(filter: &mut Filter, category_type: CategoryType, name: &str) -> (r: Option<ItemSelector>)
    ensures
        r is Some == (option_of(*old(filter), category_type)@ matches Some(items) && has_name(items, name@)),
        r matches Some(sel) ==> (option_of(*old(filter), category_type)@ matches Some(items) && {
            let i = first_with_name(items, name@);
            &&& sel == items[i].1.flipped()
            &&& option_of(*final(filter), category_type)@ == Some(
                items.update(i, (items[i].0, items[i].1.flipped())),
            )
        }),
        r is None ==> option_of(*final(filter), category_type)@ == option_of(*old(filter), category_type)@,
        only_option_changed(*old(filter), *final(filter), category_type),
{
    let option = option_mut(filter, category_type);
    match option.toggle(name) {
        Some(selector) => Some(*selector),
        None => None,
    }
}

/// Sum of the amounts of the orders that the filter admits.
pub open spec fn admitted_sum(os: Seq<Order>, filter: Filter) -> int
    decreases os.len(),
{
    if os.len() == 0 {
        0
    } else {
        admitted_sum(os.drop_last(), filter) + if filter.admits(os.last()) {
            os.last().amount as int
        } else {
            0
        }
    }
}

/// Sums the amounts of the orders that the filter admits.
pub fn sum_filtered_orders(account: &Account, filter: &Filter) -> (r: i128)
    ensures
        r == admitted_sum(account.orders@, *filter),
{
    let orders = &account.orders;
    let mut sum: i128 = 0;
    let mut i: usize = 0;
    while i < orders.len()
        invariant
            0 <= i <= orders.len(),
            sum == admitted_sum(orders@.take(i as int), *filter),
            -(i as int) * crate::ext::AMOUNT_BOUND <= sum <= (i as int) * crate::ext::AMOUNT_BOUND,
        decreases orders.len() - i,
    {
        proof {
            assert(orders@.take(i + 1).drop_last() =~= orders@.take(i as int));
            assert(orders@.take(i + 1).last() == orders@[i as int]);
        }
        let admitted = filter.is_order_allowed(&orders[i]);
        sum = crate::ext::add_if(sum, admitted, orders[i].amount, i);
        i += 1;
    }
    proof {
        assert(orders@.take(i as int) =~= orders@);
    }
    sum
}

} // verus!
