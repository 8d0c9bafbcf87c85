//! Personal money tracking: orders grouped by tags and resources, and the
//! filtering, ordering and aggregation rules that present them.
pub mod category;
pub mod commands;
pub mod date;
pub mod ext;
pub mod filter;
pub mod order;

use crate::ext::{
    add_outcome, first_index, texts, ExclusiveItemExt, OrderListExt, RequestFailure,
};
use crate::filter::Filter;
use crate::order::{opt_text, Order};
use vstd::prelude::*;

verus! {

/// An account: a label, the registered tags and resources, and the orders.
#[derive(PartialEq, Debug)]
pub struct Account {
    pub label: String,
    pub tags: Vec<String>,
    pub resources: Vec<String>,
    pub orders: Vec<Order>,
}

/// The order after a tag was removed from the account: the tag's first
/// occurrence is gone, everything else is kept.
pub open spec fn tag_dropped(before: Order, after: Order, tag: Seq<char>) -> bool {
    &&& after.tags@ == if texts(before.tags@).contains(tag) {
        before.tags@.remove(first_index(texts(before.tags@), tag))
    } else {
        before.tags@
    }
    &&& after.date == before.date
    &&& after.description == before.description
    &&& after.amount == before.amount
    &&& after.resource == before.resource
    &&& after.state == before.state
    &&& after.visible == before.visible
}

/// The order after a resource was removed from the account: it loses the
/// resource if it had it, everything else is kept.
pub open spec fn resource_dropped(before: Order, after: Order, resource: Seq<char>) -> bool {
    &&& if opt_text(before.resource) == Some(resource) {
        after.resource is None
    } else {
        after.resource == before.resource
    }
    &&& after.date == before.date
    &&& after.description == before.description
    &&& after.amount == before.amount
    &&& after.tags == before.tags
    &&& after.state == before.state
    &&& after.visible == before.visible
}

impl Account {
    /// A new account labelled `MONEY`, without tags, resources or orders.
    pub fn create() -> (r: Account)
        ensures
            r.label@ == "MONEY"@,
            r.tags@.len() == 0,
            r.resources@.len() == 0,
            r.orders@.len() == 0,
    {
        Account {
            label: "MONEY".to_owned(),
            tags: Vec::new(),
            resources: Vec::new(),
            orders: Vec::new(),
        }
    }

    /// Updates the label.
    pub fn set_label(&mut self, label: &str)
        ensures
            final(self).label@ == label@,
            final(self).tags == old(self).tags,
            final(self).resources == old(self).resources,
            final(self).orders == old(self).orders,
    {
        self.label = label.to_owned();
    }

    /// Registers a tag that is not empty, not blank and not registered yet.
    pub fn add_tag(&mut self, tag: &str) -> (r: Option<RequestFailure>)
        ensures
            r == add_outcome(texts(old(self).tags@), tag@),
            r is None ==> texts(final(self).tags@) == texts(old(self).tags@).push(tag@),
            r is Some ==> final(self).tags@ == old(self).tags@,
            final(self).label == old(self).label,
            final(self).resources == old(self).resources,
            final(self).orders == old(self).orders,
    {
        self.tags.add_exclusive(tag)
    }

    /// Unregisters a tag and takes it off every order.
    pub fn remove_tag(&mut self, tag: &str) -> (r: Option<RequestFailure>)
        ensures
            r == if texts(old(self).tags@).contains(tag@) {
                None
            } else {
                Some(RequestFailure::UnknownItem)
            },
            r is None ==> final(self).tags@ == old(self).tags@.remove(
                first_index(texts(old(self).tags@), tag@),
            ),
            r is None ==> final(self).orders.len() == old(self).orders.len() && forall|k: int|
                0 <= k < old(self).orders.len() ==> tag_dropped(
                    old(self).orders@[k],
                    #[trigger] final(self).orders@[k],
                    tag@,
                ),
            r is Some ==> final(self).tags@ == old(self).tags@ && final(self).orders@ == old(
                self,
            ).orders@,
            final(self).label == old(self).label,
            final(self).resources == old(self).resources,
    {
        if self.tags.remove_exclusive(tag).is_none() {
            let ghost before = self.orders@;
            let ghost kept = self.tags@;
            let mut k: usize = 0;
            while k < self.orders.len()
                invariant
                    0 <= k <= self.orders.len(),
                    self.orders.len() == before.len(),
                    before == old(self).orders@,
                    kept == old(self).tags@.remove(first_index(texts(old(self).tags@), tag@)),
                    self.tags@ == kept,
                    self.label == old(self).label,
                    self.resources == old(self).resources,
                    forall|j: int| 0 <= j < k ==> tag_dropped(before[j], #[trigger] self.orders@[j], tag@),
                    forall|j: int| k <= j < before.len() ==> #[trigger] self.orders@[j] == before[j],
                decreases self.orders.len() - k,
            {
                self.orders[k].remove_tag(tag);
                k += 1;
            }
            None
        } else {
            Some(RequestFailure::UnknownItem)
        }
    }

    /// Registers a resource that is not empty, not blank and not registered
    /// yet.
    pub fn add_resource(&mut self, resource: &str) -> (r: Option<RequestFailure>)
        ensures
            r == add_outcome(texts(old(self).resources@), resource@),
            r is None ==> texts(final(self).resources@) == texts(old(self).resources@).push(
                resource@,
            ),
            r is Some ==> final(self).resources@ == old(self).resources@,
            final(self).label == old(self).label,
            final(self).tags == old(self).tags,
            final(self).orders == old(self).orders,
    {
        self.resources.add_exclusive(resource)
    }

    /// Unregisters a resource and takes it off every order that has it.
    pub fn remove_resource(&mut self, resource: &str) -> (r: Option<RequestFailure>)
        ensures
            r == if texts(old(self).resources@).contains(resource@) {
                None
            } else {
                Some(RequestFailure::UnknownItem)
            },
            r is None ==> final(self).resources@ == old(self).resources@.remove(
                first_index(texts(old(self).resources@), resource@),
            ),
            r is None ==> final(self).orders.len() == old(self).orders.len() && forall|k: int|
                0 <= k < old(self).orders.len() ==> resource_dropped(
                    old(self).orders@[k],
                    #[trigger] final(self).orders@[k],
                    resource@,
                ),
            r is Some ==> final(self).resources@ == old(self).resources@ && final(self).orders@
                == old(self).orders@,
            final(self).label == old(self).label,
            final(self).tags == old(self).tags,
    {
        if self.resources.remove_exclusive(resource).is_none() {
            let key = resource.to_owned();
            let ghost before = self.orders@;
            let ghost kept = self.resources@;
            let mut k: usize = 0;
            while k < self.orders.len()
                invariant
                    0 <= k <= self.orders.len(),
                    key@ == resource@,
                    before == old(self).orders@,
                    kept == old(self).resources@.remove(first_index(texts(old(self).resources@), resource@)),
                    self.resources@ == kept,
                    self.label == old(self).label,
                    self.tags == old(self).tags,
                    self.orders.len() == before.len(),
                    forall|j: int|
                        0 <= j < k ==> resource_dropped(before[j], #[trigger] self.orders@[j], resource@),
                    forall|j: int| k <= j < before.len() ==> #[trigger] self.orders@[j] == before[j],
                decreases self.orders.len() - k,
            {
                let held = match &self.orders[k].resource {
                    Some(r) => *r == key,
                    None => false,
                };
                if held {
                    self.orders[k].resource = None;
                }
                k += 1;
            }
            None
        } else {
            Some(RequestFailure::UnknownItem)
        }
    }

    /// Appends a new default order.
    pub fn add_order(&mut self)
        ensures
            final(self).orders.len() == old(self).orders.len() + 1,
            forall|k: int| 0 <= k < old(self).orders.len() ==> #[trigger] final(self).orders@[k] == old(self).orders@[k],
            final(self).orders@.last().is_blank_order(),
            final(self).label == old(self).label,
            final(self).tags == old(self).tags,
            final(self).resources == old(self).resources,
    {
        self.orders.push(Order::default());
    }

    /// Appends a copy of an existing order; returns whether it exists.
    pub fn duplicate_order(&mut self, index: usize) -> (r: bool)
        ensures
            r == (index < old(self).orders.len()),
            r ==> final(self).orders.len() == old(self).orders.len() + 1 && final(self).orders@.last().same_as(old(self).orders@[index as int]),
            !r ==> final(self).orders@ == old(self).orders@,
            forall|k: int| 0 <= k < old(self).orders.len() ==> #[trigger] final(self).orders@[k] == old(self).orders@[k],
            final(self).label == old(self).label,
            final(self).tags == old(self).tags,
            final(self).resources == old(self).resources,
    {
        if index < self.orders.len() {
            let copy = self.orders[index].duplicate();
            self.orders.push(copy);
            true
        } else {
            false
        }
    }

    /// Deletes an order permanently; returns whether it existed.
    pub fn delete_order(&mut self, index: usize) -> (r: bool)
        ensures
            r == (index < old(self).orders.len()),
            r ==> final(self).orders@ == old(self).orders@.remove(index as int),
            !r ==> final(self).orders@ == old(self).orders@,
            final(self).label == old(self).label,
            final(self).tags == old(self).tags,
            final(self).resources == old(self).resources,
    {
        if index < self.orders.len() {
            self.orders.remove(index);
            true
        } else {
            false
        }
    }

    /// The label.
    pub fn label(&self) -> (r: &String)
        ensures
            *r == self.label,
    {
        &self.label
    }

    /// The registered tags.
    pub fn tags(&self) -> (r: &Vec<String>)
        ensures
            *r == self.tags,
    {
        &self.tags
    }

    /// The registered resources.
    pub fn resources(&self) -> (r: &Vec<String>)
        ensures
            *r == self.resources,
    {
        &self.resources
    }

    /// Mutable access to an order, if it exists.
    pub fn get_order_mut(&mut self, index: usize) -> (r: Option<&mut Order>)
        ensures
            r is Some == (index < old(self).orders.len()),
            r matches Some(o) ==> *o == old(self).orders@[index as int] && final(self).orders@
                == old(self).orders@.update(index as int, *final(o)),
            r is None ==> final(self).orders == old(self).orders,
            final(self).label == old(self).label,
            final(self).tags == old(self).tags,
            final(self).resources == old(self).resources,
    {
        if index < self.orders.len() {
            Some(&mut self.orders[index])
        } else {
            None
        }
    }

    /// All orders.
    pub fn orders(&self) -> (r: &Vec<Order>)
        ensures
            *r == self.orders,
    {
        &self.orders
    }

    /// The orders that the filter admits, with their positions, sorted as
    /// the filter asks.
    pub fn filtered_orders(&self, filter: &Filter) -> (r: Vec<(usize, &Order)>)
        ensures
            forall|k: int|
                0 <= k < r.len() ==> {
                    let i = #[trigger] r@[k].0;
                    &&& i < self.orders.len()
                    &&& *r@[k].1 == self.orders@[i as int]
                    &&& filter.admits(self.orders@[i as int])
                },
            forall|i: int|
                0 <= i < self.orders.len() && filter.admits(#[trigger] self.orders@[i]) ==> exists|k: int|
                    0 <= k < r.len() && r@[k].0 == i,
            forall|a: int, b: int|
                0 <= a < b < r.len() ==> crate::ext::precedes(
                    self.orders@,
                    filter.ordering,
                    filter.direction,
                    #[trigger] r@[a].0 as int,
                    #[trigger] r@[b].0 as int,
                ),
    {
        self.orders.apply_filter(filter)
    }
}

} // verus!
