//! Filtering options for an order list.
use crate::category::CategoryFilter;
use crate::date::{range_filter, parsed_ymd, Date, NaiveDateFilter, OptionNaiveDateRange};
use crate::ext::{texts, OrderingDirection, OrderingPreference};
use crate::order::{opt_text, Order, TransactionState};
use vstd::prelude::*;

verus! {

/// Selection state of one filtering parameter.
#[derive(Clone, Copy, PartialEq, Eq, Structural, Debug)]
pub enum ItemSelector {
    /// Filter out.
    Discarded,
    /// Filter in.
    Selected,
}

impl ItemSelector {
    /// The other state.
    pub open spec fn flipped(self) -> ItemSelector {
        match self {
            ItemSelector::Discarded => ItemSelector::Selected,
            ItemSelector::Selected => ItemSelector::Discarded,
        }
    }

    /// Toggles the state.
    pub fn toggle(&mut self)
        ensures
            *final(self) == old(self).flipped(),
    {
        *self = match *self {
            ItemSelector::Discarded => ItemSelector::Selected,
            ItemSelector::Selected => ItemSelector::Discarded,
        };
    }
}

/// Toggling twice gives back the state one started from.
pub proof fn toggle_is_involution(s: ItemSelector)
    ensures
        s.flipped().flipped() == s,
{
}

/// Filtering options for visibility.
#[derive(Clone, Copy, PartialEq, Eq, Structural, Debug)]
pub enum VisibilityFilter {
    /// No visibility filtering.
    VisibilityIgnored,
    /// Visible orders only.
    VisibleOnly,
    /// Hidden orders only.
    HiddenOnly,
}

/// The date that a text parses to, as a value of the library.
pub open spec fn parsed_date(s: Seq<char>) -> Option<Date> {
    match parsed_ymd(s) {
        Some(t) => Some(Date { year: t.0 as i32, month: t.1 as u32, day: t.2 as u32 }),
        None => None,
    }
}

/// All filtering options of an order view.
pub struct Filter {
    pub visibility: VisibilityFilter,
    pub date_option: NaiveDateFilter,
    /// Selection of each transaction state, indexed by its rank.
    pub state_option: [ItemSelector; 3],
    pub resource_option: CategoryFilter,
    pub tag_option: CategoryFilter,
    pub ordering: OrderingPreference,
    pub direction: OrderingDirection,
}

impl Filter {
    /// Whether the visibility option admits an order of that visibility.
    pub open spec fn admits_visibility(self, visible: bool) -> bool {
        match self.visibility {
            VisibilityFilter::VisibilityIgnored => true,
            VisibilityFilter::VisibleOnly => visible,
            VisibilityFilter::HiddenOnly => !visible,
        }
    }

    /// Whether the state is selected.
    pub open spec fn admits_state(self, state: TransactionState) -> bool {
        self.state_option@[state.spec_ordinal()] == ItemSelector::Selected
    }

    /// Whether the order satisfies every filtering option.
    pub open spec fn admits(self, order: Order) -> bool {
        &&& self.admits_visibility(order.visible)
        &&& self.admits_state(order.state)
        &&& self.date_option.allows(order.date)
        &&& self.tag_option.admits_all_of(texts(order.tags@))
        &&& self.resource_option.admits_one(opt_text(order.resource))
    }

    /// The options that admit every visible order, sorted by position.
    pub open spec fn is_initial(self) -> bool {
        &&& self.visibility == VisibilityFilter::VisibleOnly
        &&& self.date_option == NaiveDateFilter::DateIgnored
        &&& forall|i: int| 0 <= i < 3 ==> #[trigger] self.state_option@[i] == ItemSelector::Selected
        &&& self.resource_option@ is None
        &&& self.tag_option@ is None
        &&& self.ordering == OrderingPreference::ById
        &&& self.direction == OrderingDirection::Ascending
    }

    /// Everything but the date option is the same in both.
    pub open spec fn same_but_date(self, other: Filter) -> bool {
        &&& self.visibility == other.visibility
        &&& self.state_option == other.state_option
        &&& self.resource_option@ == other.resource_option@
        &&& self.tag_option@ == other.tag_option@
        &&& self.ordering == other.ordering
        &&& self.direction == other.direction
    }

    /// The initial options.
    pub fn create() -> (r: Filter)
        ensures
            r.is_initial(),
    {
        Filter::default()
    }

    /// Selection of a state.
    pub fn get_state(&self, state: TransactionState) -> (r: ItemSelector)
        ensures
            r == self.state_option@[state.spec_ordinal()],
    {
        self.state_option[state.ordinal()]
    }

    /// Sets both date boundaries from texts. A text that does not parse is
    /// rejected and its boundary stays as it was. Returns whether a closed
    /// range results.
    pub fn set_date_option(&mut self, start: &str, stop: &str) -> (r: bool)
        ensures
            final(self).date_option == range_filter(
                if parsed_date(start@) is Some {
                    parsed_date(start@)
                } else {
                    old(self).date_option.start()
                },
                if parsed_date(stop@) is Some {
                    parsed_date(stop@)
                } else {
                    old(self).date_option.end()
                },
            ),
            final(self).same_but_date(*old(self)),
            r == final(self).date_option is Between,
    {
        let begin = match Date::parse(start) {
            Some(d) => Some(d),
            None => self.date_option.start_date(),
        };
        let end = match Date::parse(stop) {
            Some(d) => Some(d),
            None => self.date_option.end_date(),
        };
        self.date_option.set_range(OptionNaiveDateRange(begin, end));
        matches!(self.date_option, NaiveDateFilter::Between(_, _))
    }

    /// Sets the start boundary from a text, keeping any end boundary. A text
    /// that does not parse is rejected and changes nothing. Returns whether
    /// a start boundary results.
    pub fn set_date_beginning(&mut self, start: &str) -> (r: bool)
        ensures
            parsed_date(start@) is Some ==> final(self).date_option == range_filter(
                parsed_date(start@),
                old(self).date_option.end(),
            ),
            parsed_date(start@) is None ==> final(self).date_option == old(self).date_option,
            final(self).same_but_date(*old(self)),
            r == final(self).date_option.start() is Some,
    {
        let begin = Date::parse(start);
        if begin.is_some() {
            self.date_option.set_beginning(begin);
        }
        match self.date_option {
            NaiveDateFilter::DateIgnored | NaiveDateFilter::Until(_) => false,
            NaiveDateFilter::Since(_) | NaiveDateFilter::Between(_, _) => true,
        }
    }

    /// Sets the end boundary from a text, keeping any start boundary. A text
    /// that does not parse is rejected and changes nothing. Returns whether
    /// an end boundary results.
    pub fn set_date_end(&mut self, end: &str) -> (r: bool)
        ensures
            parsed_date(end@) is Some ==> final(self).date_option == range_filter(
                old(self).date_option.start(),
                parsed_date(end@),
            ),
            parsed_date(end@) is None ==> final(self).date_option == old(self).date_option,
            final(self).same_but_date(*old(self)),
            r == final(self).date_option.end() is Some,
    {
        let stop = Date::parse(end);
        if stop.is_some() {
            self.date_option.set_end(stop);
        }
        match self.date_option {
            NaiveDateFilter::DateIgnored | NaiveDateFilter::Since(_) => false,
            NaiveDateFilter::Until(_) | NaiveDateFilter::Between(_, _) => true,
        }
    }

    /// Turns every filtering option off, keeping the sorting preference:
    /// every order is then admitted.
    pub fn clear_filters(&mut self)
        ensures
            forall|order: Order| #[trigger] final(self).admits(order),
            final(self).ordering == old(self).ordering,
            final(self).direction == old(self).direction,
    {
        self.visibility = VisibilityFilter::VisibilityIgnored;
        self.date_option = NaiveDateFilter::DateIgnored;
        self.state_option = [ItemSelector::Selected, ItemSelector::Selected, ItemSelector::Selected];
        self.resource_option = CategoryFilter::CategoryIgnored;
        self.tag_option = CategoryFilter::CategoryIgnored;
    }

    /// Turns the date option off.
    pub fn disable_date_option(&mut self)
        ensures
            final(self).date_option == NaiveDateFilter::DateIgnored,
            final(self).same_but_date(*old(self)),
    {
        self.date_option = NaiveDateFilter::DateIgnored;
    }

    /// Toggles the selection of a state.
    pub fn toggle_state(&mut self, state: TransactionState)
        ensures
            final(self).state_option@ == old(self).state_option@.update(
                state.spec_ordinal(),
                old(self).state_option@[state.spec_ordinal()].flipped(),
            ),
            final(self).visibility == old(self).visibility,
            final(self).date_option == old(self).date_option,
            final(self).resource_option@ == old(self).resource_option@,
            final(self).tag_option@ == old(self).tag_option@,
            final(self).ordering == old(self).ordering,
            final(self).direction == old(self).direction,
    {
        let i = state.ordinal();
        let mut selector = self.state_option[i];
        selector.toggle();
        self.state_option[i] = selector;
    }

    /// The date option.
    pub fn date_option(&self) -> (r: &NaiveDateFilter)
        ensures
            *r == self.date_option,
    {
        &self.date_option
    }

    /// The tag option.
    pub fn tag_option(&self) -> (r: &CategoryFilter)
        ensures
            *r == self.tag_option,
    {
        &self.tag_option
    }

    /// The resource option.
    pub fn resource_option(&self) -> (r: &CategoryFilter)
        ensures
            *r == self.resource_option,
    {
        &self.resource_option
    }

    /// Mutable access to the tag option.
    pub fn get_tag_option_mut(&mut self) -> (r: &mut CategoryFilter)
        ensures
            *r == old(self).tag_option,
            final(self).tag_option == *final(r),
            final(self).visibility == old(self).visibility,
            final(self).date_option == old(self).date_option,
            final(self).state_option == old(self).state_option,
            final(self).resource_option == old(self).resource_option,
            final(self).ordering == old(self).ordering,
            final(self).direction == old(self).direction,
    {
        &mut self.tag_option
    }

    /// Mutable access to the resource option.
    pub fn get_resource_option_mut(&mut self) -> (r: &mut CategoryFilter)
        ensures
            *r == old(self).resource_option,
            final(self).resource_option == *final(r),
            final(self).visibility == old(self).visibility,
            final(self).date_option == old(self).date_option,
            final(self).state_option == old(self).state_option,
            final(self).tag_option == old(self).tag_option,
            final(self).ordering == old(self).ordering,
            final(self).direction == old(self).direction,
    {
        &mut self.resource_option
    }

    /// Whether the order satisfies all filtering options: its visibility,
    /// its state, its date, its tags (each selected tag held) and its
    /// resource (a selected one, or none when nothing is selected).
    pub fn is_order_allowed(&self, order: &Order) -> (r: bool)
        ensures
            r == self.admits(*order),
    {
        let visibility_match = match self.visibility {
            VisibilityFilter::VisibilityIgnored => true,
            VisibilityFilter::VisibleOnly => order.visible,
            VisibilityFilter::HiddenOnly => !order.visible,
        };
        let state_match = self.state_option[order.state().ordinal()] == ItemSelector::Selected;
        let date_match = self.date_option.is_date_allowed(order.date);
        let tag_match = self.tag_option.with_each_selected(order.tags.as_slice());
        let resource_match = self.resource_option.among_any_selected(&order.resource);
        proof {
            assert(opt_text(order.resource) == match order.resource {
                Some(n) => Some(n@),
                None => None::<Seq<char>>,
            });
        }
        visibility_match && state_match && date_match && tag_match && resource_match
    }
}

impl Default for Filter {
    fn default() -> (r: Filter)
        ensures
            r.is_initial(),
    {
        Filter {
            visibility: VisibilityFilter::VisibleOnly,
            date_option: NaiveDateFilter::DateIgnored,
            state_option: [ItemSelector::Selected, ItemSelector::Selected, ItemSelector::Selected],
            resource_option: CategoryFilter::CategoryIgnored,
            tag_option: CategoryFilter::CategoryIgnored,
            ordering: OrderingPreference::ById,
            direction: OrderingDirection::Ascending,
        }
    }
}

} // verus!
