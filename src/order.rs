//! A transaction and its states.
use crate::category::CategoryFilter;
use crate::date::{Date, NaiveDateFilter};
use crate::ext::{add_outcome, first_index, texts, ExclusiveItemExt};
use crate::filter::{Filter, ItemSelector, VisibilityFilter};
use vstd::prelude::*;

verus! {

/// Payment stages of a transaction.
#[derive(Clone, Copy, PartialEq, Eq, Structural, Debug)]
pub enum TransactionState {
    /// No payment performed yet.
    Pending,
    /// Payment ordered but postponed.
    InProgress,
    /// Payment done.
    Done,
}

impl TransactionState {
    /// Rank of the state: 0, 1 and 2 in stage order.
    pub open spec fn spec_ordinal(self) -> int {
        match self {
            TransactionState::Pending => 0,
            TransactionState::InProgress => 1,
            TransactionState::Done => 2,
        }
    }

    /// Rank of the state: 0, 1 and 2 in stage order.
    pub fn ordinal(self) -> (r: usize)
        ensures
            r == self.spec_ordinal(),
    {
        match self {
            TransactionState::Pending => 0,
            TransactionState::InProgress => 1,
            TransactionState::Done => 2,
        }
    }
}

/// A transaction. The amount counts hundredths of the currency unit.
#[derive(Clone, PartialEq, Debug)]
pub struct Order {
    pub date: Option<Date>,
    pub description: String,
    pub amount: i64,
    pub resource: Option<String>,
    pub tags: Vec<String>,
    pub state: TransactionState,
    pub visible: bool,
}

/// Text of an optional string.
pub open spec fn opt_text(s: Option<String>) -> Option<Seq<char>> {
    match s {
        Some(t) => Some(t@),
        None => None,
    }
}

impl Order {
    /// The order as built by `default`: no date, empty description, zero
    /// amount, no resource, no tag, pending and visible.
    pub open spec fn is_blank_order(self) -> bool {
        &&& self.date is None
        &&& self.description@.len() == 0
        &&& self.amount == 0
        &&& self.resource is None
        &&& self.tags@.len() == 0
        &&& self.state == TransactionState::Pending
        &&& self.visible
    }

    /// Selects the resource if it is among the available ones.
    pub fn set_resource(&mut self, resource: &str, list: &[String]) -> (r: bool)
        ensures
            r == texts(list@).contains(resource@),
            r ==> opt_text(final(self).resource) == Some(resource@),
            !r ==> final(self).resource == old(self).resource,
            final(self).date == old(self).date,
            final(self).description == old(self).description,
            final(self).amount == old(self).amount,
            final(self).tags == old(self).tags,
            final(self).state == old(self).state,
            final(self).visible == old(self).visible,
    {
        let owned = resource.to_owned();
        if crate::category::contains_name(list, &owned) {
            self.resource = Some(owned);
            true
        } else {
            false
        }
    }

    /// Adds a tag if it is among the available ones and not held yet.
    pub fn add_tag(&mut self, tag: &str, list: &[String]) -> (r: bool)
        ensures
            r == (texts(list@).contains(tag@) && add_outcome(texts(old(self).tags@), tag@) is None),
            r ==> texts(final(self).tags@) == texts(old(self).tags@).push(tag@),
            !r ==> final(self).tags@ == old(self).tags@,
            final(self).date == old(self).date,
            final(self).description == old(self).description,
            final(self).amount == old(self).amount,
            final(self).resource == old(self).resource,
            final(self).state == old(self).state,
            final(self).visible == old(self).visible,
    {
        let owned = tag.to_owned();
        if crate::category::contains_name(list, &owned) {
            self.tags.add_exclusive(tag).is_none()
        } else {
            false
        }
    }

    /// Removes a held tag.
    pub fn remove_tag(&mut self, tag: &str) -> (r: bool)
        ensures
            r == texts(old(self).tags@).contains(tag@),
            r ==> final(self).tags@ == old(self).tags@.remove(
                first_index(texts(old(self).tags@), tag@),
            ),
            !r ==> final(self).tags@ == old(self).tags@,
            final(self).date == old(self).date,
            final(self).description == old(self).description,
            final(self).amount == old(self).amount,
            final(self).resource == old(self).resource,
            final(self).state == old(self).state,
            final(self).visible == old(self).visible,
    {
        self.tags.remove_exclusive(tag).is_none()
    }

    /// Removes all tags.
    pub fn clear_tags(&mut self)
        ensures
            final(self).tags@.len() == 0,
            final(self).date == old(self).date,
            final(self).description == old(self).description,
            final(self).amount == old(self).amount,
            final(self).resource == old(self).resource,
            final(self).state == old(self).state,
            final(self).visible == old(self).visible,
    {
        self.tags.clear();
    }

    /// Sets the state. An order that becomes done without a date gets
    /// `today`, the day of the change.
    pub fn set_state(&mut self, state: TransactionState, today: Date)
        ensures
            final(self).state == state,
            state == TransactionState::Done && old(self).date is None ==> final(self).date
                == Some(today),
            !(state == TransactionState::Done && old(self).date is None) ==> final(self).date
                == old(self).date,
            final(self).description == old(self).description,
            final(self).amount == old(self).amount,
            final(self).resource == old(self).resource,
            final(self).tags == old(self).tags,
            final(self).visible == old(self).visible,
    {
        if state == TransactionState::Done && self.date.is_none() {
            self.date = Some(today);
        }
        self.state = state;
    }

    /// The current state.
    pub fn state(&self) -> (r: TransactionState)
        ensures
            r == self.state,
    {
        self.state
    }
}

impl Default for Order {
    fn default() -> (r: Order)
        ensures
            r.is_blank_order(),
    {
        Order {
            date: None,
            description: String::new(),
            amount: 0,
            resource: None,
            tags: Vec::new(),
            state: TransactionState::Pending,
            visible: true,
        }
    }
}

/// Names of the selected entries, in order.
pub open spec fn selected_names(items: Seq<(Seq<char>, ItemSelector)>) -> Seq<Seq<char>>
    decreases items.len(),
{
    if items.len() == 0 {
        Seq::empty()
    } else {
        let init = selected_names(items.drop_last());
        if items.last().1 == ItemSelector::Selected {
            init.push(items.last().0)
        } else {
            init
        }
    }
}

/// Name of the first selected entry, if any.
pub open spec fn first_selected(items: Seq<(Seq<char>, ItemSelector)>) -> Option<Seq<char>>
    decreases items.len(),
{
    if items.len() == 0 {
        None
    } else {
        match first_selected(items.drop_last()) {
            Some(n) => Some(n),
            None => if items.last().1 == ItemSelector::Selected {
                Some(items.last().0)
            } else {
                None
            },
        }
    }
}

/// Date that a new order takes from a date filter: its start, else its end.
pub open spec fn draft_date(f: NaiveDateFilter) -> Option<Date> {
    match f {
        NaiveDateFilter::DateIgnored => None,
        NaiveDateFilter::Since(d) | NaiveDateFilter::Between(d, _) => Some(d),
        NaiveDateFilter::Until(d) => Some(d),
    }
}

/// State that a new order takes from the state selection: the first
/// selected one in stage order, else pending.
pub open spec fn draft_state(sel: Seq<ItemSelector>) -> TransactionState {
    if sel[0] == ItemSelector::Selected {
        TransactionState::Pending
    } else if sel[1] == ItemSelector::Selected {
        TransactionState::InProgress
    } else if sel[2] == ItemSelector::Selected {
        TransactionState::Done
    } else {
        TransactionState::Pending
    }
}

impl Order {
    /// The order as a new order drafted from a filter: it satisfies what the
    /// filter selects where one value can be picked.
    pub open spec fn drafted_from(self, filter: Filter) -> bool {
        &&& self.date == draft_date(filter.date_option)
        &&& self.description@.len() == 0
        &&& self.amount == 0
        &&& opt_text(self.resource) == match filter.resource_option@ {
            None => None,
            Some(items) => first_selected(items),
        }
        &&& texts(self.tags@) == match filter.tag_option@ {
            None => Seq::empty(),
            Some(items) => selected_names(items),
        }
        &&& self.state == draft_state(filter.state_option@)
        &&& self.visible == (filter.visibility != VisibilityFilter::HiddenOnly)
    }
}

/// Clone of a string, with its text.
fn clone_text(s: &String) -> (r: String)
    ensures
        r@ == s@,
{
    s.clone()
}

/// Name of the first selected category of an enabled filter.
fn first_selected_of(filter: &CategoryFilter) -> (r: Option<String>)
    ensures
        opt_text(r) == match filter@ {
            None => None,
            Some(items) => first_selected(items),
        },
{
    match filter {
        CategoryFilter::CategoryIgnored => None,
        CategoryFilter::Enabled(items) => {
            let ghost e = crate::category::entries(items@);
            let mut i: usize = 0;
            while i < items.len()
                invariant
                    0 <= i <= items.len(),
                    e == crate::category::entries(items@),
                    filter@ == Some(e),
                    first_selected(e.take(i as int)) is None,
                decreases items.len() - i,
            {
                proof {
                    assert(e.take(i + 1).drop_last() =~= e.take(i as int));
                }
                if items[i].1 == ItemSelector::Selected {
                    let name = clone_text(&items[i].0);
                    proof {
                        assert(e[i as int] == items@[i as int]@);
                        lemma_first_selected_extends(e, i as int + 1);
                    }
                    return Some(name);
                }
                i += 1;
            }
            proof {
                assert(e.take(i as int) =~= e);
            }
            None
        },
    }
}

/// Once found in a prefix, the first selected name stays the same.
proof fn lemma_first_selected_extends(e: Seq<(Seq<char>, ItemSelector)>, k: int)
    requires
        0 <= k <= e.len(),
        first_selected(e.take(k)) is Some,
    ensures
        first_selected(e) == first_selected(e.take(k)),
    decreases e.len() - k,
{
    if k < e.len() {
        assert(e.take(k + 1).drop_last() =~= e.take(k));
        lemma_first_selected_extends(e, k + 1);
    } else {
        assert(e.take(k) =~= e);
    }
}

/// Names of the selected categories of an enabled filter.
fn selected_names_of(filter: &CategoryFilter) -> (r: Vec<String>)
    ensures
        texts(r@) == match filter@ {
            None => Seq::empty(),
            Some(items) => selected_names(items),
        },
{
    let mut names: Vec<String> = Vec::new();
    match filter {
        CategoryFilter::CategoryIgnored => {
            assert(texts(names@) =~= Seq::empty());
        },
        CategoryFilter::Enabled(items) => {
            let ghost e = crate::category::entries(items@);
            let mut i: usize = 0;
            while i < items.len()
                invariant
                    0 <= i <= items.len(),
                    e == crate::category::entries(items@),
                    filter@ == Some(e),
                    texts(names@) == selected_names(e.take(i as int)),
                decreases items.len() - i,
            {
                proof {
                    assert(e.take(i + 1).drop_last() =~= e.take(i as int));
                }
                if items[i].1 == ItemSelector::Selected {
                    let ghost before = names@;
                    names.push(clone_text(&items[i].0));
                    proof {
                        assert(e[i as int] == items@[i as int]@);
                        assert(texts(names@) =~= texts(before).push(e[i as int].0));
                    }
                }
                i += 1;
            }
            proof {
                assert(e.take(i as int) =~= e);
            }
        },
    }
    names
}

impl Order {
    /// A new order that fits the filter: the filter's start date (else its
    /// end date), its first selected resource, its selected tags, its first
    /// selected state and its visibility.
    pub fn from_filter(filter: &Filter) -> (r: Order)
        ensures
            r.drafted_from(*filter),
    {
        let date = match filter.date_option {
            NaiveDateFilter::DateIgnored => None,
            NaiveDateFilter::Since(date) | NaiveDateFilter::Between(date, _) => Some(date),
            NaiveDateFilter::Until(date) => Some(date),
        };
        let state = if filter.state_option[0] == ItemSelector::Selected {
            TransactionState::Pending
        } else if filter.state_option[1] == ItemSelector::Selected {
            TransactionState::InProgress
        } else if filter.state_option[2] == ItemSelector::Selected {
            TransactionState::Done
        } else {
            TransactionState::Pending
        };
        Order {
            date,
            description: String::new(),
            amount: 0,
            resource: first_selected_of(&filter.resource_option),
            tags: selected_names_of(&filter.tag_option),
            state,
            visible: !matches!(filter.visibility, VisibilityFilter::HiddenOnly),
        }
    }
}

impl<'a> From<&'a Filter> for Order {
    fn from(filter: &'a Filter) -> (r: Order)
        ensures
            r.drafted_from(*filter),
    {
        Order::from_filter(filter)
    }
}

impl<'a> vstd::std_specs::convert::FromSpecImpl<&'a Filter> for Order {
    /// The drafted order holds new strings, which no spec value can name:
    /// the contract of `from` above says what it is.
    open spec fn obeys_from_spec() -> bool {
        false
    }

    open spec fn from_spec(filter: &'a Filter) -> Order {
        arbitrary()
    }
}

impl Order {
    /// Whether two orders hold the same values.
    pub open spec fn same_as(self, other: Order) -> bool {
        &&& self.date == other.date
        &&& self.description == other.description
        &&& self.amount == other.amount
        &&& self.resource == other.resource
        &&& self.tags@ == other.tags@
        &&& self.state == other.state
        &&& self.visible == other.visible
    }

    /// A copy of the order.
    pub fn duplicate(&self) -> (r: Order)
        ensures
            r.same_as(*self),
    {
        let mut tags: Vec<String> = Vec::new();
        let mut i: usize = 0;
        while i < self.tags.len()
            invariant
                0 <= i <= self.tags.len(),
                tags@ == self.tags@.take(i as int),
            decreases self.tags.len() - i,
        {
            tags.push(self.tags[i].clone());
            proof {
                assert(tags@ =~= self.tags@.take(i + 1));
            }
            i += 1;
        }
        proof {
            assert(tags@ =~= self.tags@);
        }
        Order {
            date: self.date,
            description: self.description.clone(),
            amount: self.amount,
            resource: match &self.resource {
                Some(r) => Some(r.clone()),
                None => None,
            },
            tags,
            state: self.state,
            visible: self.visible,
        }
    }
}

} // verus!
