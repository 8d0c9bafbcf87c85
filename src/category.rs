//! Filtering option that admits an order or not by the categories (tags or
//! resources) it holds.
use crate::filter::ItemSelector;
use vstd::prelude::*;

verus! {

/// A named tag or resource with its selection state.
#[derive(Clone, PartialEq, Debug)]
pub struct Category(pub String, pub ItemSelector);

impl View for Category {
    type V = (Seq<char>, ItemSelector);

    open spec fn view(&self) -> (Seq<char>, ItemSelector) {
        (self.0@, self.1)
    }
}

/// Filtering options for tags or resources.
#[derive(PartialEq, Debug)]
pub enum CategoryFilter {
    CategoryIgnored,
    Enabled(Vec<Category>),
}

/// The entries of a category list, as names and selection states.
pub open spec fn entries(items: Seq<Category>) -> Seq<(Seq<char>, ItemSelector)> {
    items.map_values(|c: Category| c@)
}

/// Whether an entry of the list has the name.
pub open spec fn has_name(items: Seq<(Seq<char>, ItemSelector)>, name: Seq<char>) -> bool {
    exists|i: int| 0 <= i < items.len() && #[trigger] items[i].0 == name
}

/// Position of the first entry with the name.
pub open spec fn first_with_name(items: Seq<(Seq<char>, ItemSelector)>, name: Seq<char>) -> int
    recommends
        has_name(items, name),
{
    choose|i: int|
        0 <= i < items.len() && items[i].0 == name && forall|j: int|
            0 <= j < i ==> #[trigger] items[j].0 != name
}

/// Whether every selected entry is named in `names`.
pub open spec fn each_selected_named(
    items: Seq<(Seq<char>, ItemSelector)>,
    names: Seq<Seq<char>>,
) -> bool {
    forall|i: int|
        0 <= i < items.len() && #[trigger] items[i].1 == ItemSelector::Selected ==> names.contains(
            items[i].0,
        )
}

/// Whether every entry is discarded.
pub open spec fn all_discarded(items: Seq<(Seq<char>, ItemSelector)>) -> bool {
    forall|i: int| 0 <= i < items.len() ==> #[trigger] items[i].1 == ItemSelector::Discarded
}

/// Whether a selected entry has the name.
pub open spec fn selected_with_name(items: Seq<(Seq<char>, ItemSelector)>, name: Seq<char>) -> bool {
    exists|i: int|
        0 <= i < items.len() && #[trigger] items[i].0 == name && items[i].1
            == ItemSelector::Selected
}

impl View for CategoryFilter {
    /// `None` when the filter is off, else its entries in order.
    type V = Option<Seq<(Seq<char>, ItemSelector)>>;

    open spec fn view(&self) -> Option<Seq<(Seq<char>, ItemSelector)>> {
        match self {
            CategoryFilter::CategoryIgnored => None,
            CategoryFilter::Enabled(items) => Some(entries(items@)),
        }
    }
}

impl CategoryFilter {
    /// Admission of a list of names: every selected entry must be among them.
    pub open spec fn admits_all_of(self, names: Seq<Seq<char>>) -> bool {
        match self@ {
            None => true,
            Some(items) => each_selected_named(items, names),
        }
    }

    /// Admission of an optional name: a missing name passes when nothing is
    /// selected; a name passes when a selected entry has it.
    pub open spec fn admits_one(self, name: Option<Seq<char>>) -> bool {
        match self@ {
            None => true,
            Some(items) => match name {
                None => all_discarded(items),
                Some(n) => selected_with_name(items, n),
            },
        }
    }

    /// Enables the filter with exactly the given categories, in order.
    pub fn set(&mut self, categories: Vec<Category>)
        ensures
            final(self)@ == Some(entries(categories@)),
    {
        *self = CategoryFilter::Enabled(categories);
    }

    /// Appends a category, enabling the filter if it was off.
    pub fn add(&mut self, category: Category)
        ensures
            final(self)@ == Some(
                match old(self)@ {
                    None => seq![category@],
                    Some(items) => items.push(category@),
                },
            ),
    {
        match self {
            CategoryFilter::Enabled(items) => {
                let ghost before = items@;
                items.push(category);
                proof {
                    assert(entries(items@) =~= entries(before).push(category@));
                }
            },
            CategoryFilter::CategoryIgnored => {
                let mut items: Vec<Category> = Vec::new();
                items.push(category);
                proof {
                    assert(entries(items@) =~= seq![category@]);
                }
                *self = CategoryFilter::Enabled(items);
            },
        }
    }

    /// Removes the first category with the name. When it was the last one,
    /// the filter is turned off. Returns whether a category was removed.
    pub fn remove(&mut self, category_name: &str) -> (r: bool)
        ensures
            r == (old(self)@ matches Some(items) && has_name(items, category_name@)),
            r ==> (old(self)@ matches Some(items) && {
                let i = first_with_name(items, category_name@);
                final(self)@ == if items.len() == 1 {
                    None
                } else {
                    Some(items.remove(i))
                }
            }),
            !r ==> final(self)@ == old(self)@,
    {
        match self {
            CategoryFilter::Enabled(items) => {
                let ghost before = items@;
                match position_of(items, category_name) {
                    Some(index) => {
                        if items.len() > 1 {
                            items.remove(index);
                            proof {
                                assert(entries(items@) =~= entries(before).remove(index as int));
                            }
                        } else {
                            *self = CategoryFilter::CategoryIgnored;
                        }
                        true
                    },
                    None => false,
                }
            },
            CategoryFilter::CategoryIgnored => false,
        }
    }

    /// Toggles the first category with the name and returns its new state;
    /// returns nothing, and changes nothing, when the filter is off or no
    /// category has the name.
    pub fn toggle(&mut self, category: &str) -> (r: Option<&ItemSelector>)
        ensures
            r is Some == (old(self)@ matches Some(items) && has_name(items, category@)),
            r matches Some(sel) ==> (old(self)@ matches Some(items) && {
                let i = first_with_name(items, category@);
                &&& *sel == items[i].1.flipped()
                &&& final(self)@ == Some(items.update(i, (items[i].0, items[i].1.flipped())))
            }),
            r is None ==> final(self)@ == old(self)@,
    {
        match self {
            CategoryFilter::Enabled(items) => {
                let ghost before = items@;
                match position_of(items, category) {
                    Some(index) => {
                        let mut entry = items.remove(index);
                        entry.1.toggle();
                        items.insert(index, entry);
                        proof {
                            assert(entries(items@) =~= entries(before).update(
                                index as int,
                                (before[index as int].0@, before[index as int].1.flipped()),
                            ));
                        }
                        Some(&items[index].1)
                    },
                    None => None,
                }
            },
            CategoryFilter::CategoryIgnored => None,
        }
    }

    /// Whether the names hold every selected category (always, when off).
    pub fn with_each_selected(&self, category_names: &[String]) -> (r: bool)
        ensures
            r == self.admits_all_of(category_names@.map_values(|s: String| s@)),
    {
        match self {
            CategoryFilter::CategoryIgnored => true,
            CategoryFilter::Enabled(categories) => {
                let ghost names = category_names@.map_values(|s: String| s@);
                let mut i: usize = 0;
                while i < categories.len()
                    invariant
                        0 <= i <= categories.len(),
                        names == category_names@.map_values(|s: String| s@),
                        self@ == Some(entries(categories@)),
                        each_selected_named(entries(categories@).take(i as int), names),
                    decreases categories.len() - i,
                {
                    if categories[i].1 == ItemSelector::Selected {
                        if !contains_name(category_names, &categories[i].0) {
                            proof {
                                let e = entries(categories@);
                                assert(e[i as int] == categories@[i as int]@);
                                assert(e[i as int].1 == ItemSelector::Selected);
                                assert(!each_selected_named(e, names));
                            }
                            return false;
                        }
                    }
                    proof {
                        let e = entries(categories@);
                        assert(e.take(i + 1) =~= e.take(i as int).push(e[i as int]));
                    }
                    i += 1;
                }
                proof {
                    assert(entries(categories@).take(i as int) =~= entries(categories@));
                }
                true
            },
        }
    }

    /// Whether an optional name passes: always when off; a missing name when
    /// every category is discarded; a name when a selected category has it.
    pub fn among_any_selected(&self, category_name: &Option<String>) -> (r: bool)
        ensures
            r == self.admits_one(
                match category_name {
                    Some(n) => Some(n@),
                    None => None,
                },
            ),
    {
        match self {
            CategoryFilter::CategoryIgnored => true,
            CategoryFilter::Enabled(categories) => {
                let ghost e = entries(categories@);
                let mut i: usize = 0;
                while i < categories.len()
                    invariant
                        0 <= i <= categories.len(),
                        e == entries(categories@),
                        self@ == Some(e),
                        match category_name {
                            None => all_discarded(e.take(i as int)),
                            Some(n) => !selected_with_name(e.take(i as int), n@),
                        },
                    decreases categories.len() - i,
                {
                    match category_name {
                        None => {
                            if categories[i].1 == ItemSelector::Selected {
                                assert(e[i as int] == categories@[i as int]@);
                                assert(e[i as int].1 == ItemSelector::Selected);
                                return false;
                            }
                        },
                        Some(n) => {
                            if categories[i].1 == ItemSelector::Selected && categories[i].0
                                == *n {
                                assert(e[i as int] == categories@[i as int]@);
                                assert(e[i as int].0 == n@);
                                assert(selected_with_name(e, n@));
                                return true;
                            }
                        },
                    }
                    proof {
                        assert(e.take(i + 1) =~= e.take(i as int).push(e[i as int]));
                    }
                    i += 1;
                }
                proof {
                    assert(e.take(i as int) =~= e);
                }
                category_name.is_none()
            },
        }
    }
}

/// Position of the first category with the name.
pub fn position_of(items: &Vec<Category>, name: &str) -> (r: Option<usize>)
    ensures
        r is Some == has_name(entries(items@), name@),
        r matches Some(i) ==> i == first_with_name(entries(items@), name@) && i < items.len(),
{
    let key = name.to_owned();
    let ghost e = entries(items@);
    let mut i: usize = 0;
    while i < items.len()
        invariant
            0 <= i <= items.len(),
            e == entries(items@),
            key@ == name@,
            forall|j: int| 0 <= j < i ==> #[trigger] e[j].0 != name@,
        decreases items.len() - i,
    {
        if items[i].0 == key {
            proof {
                assert(e[i as int].0 == name@);
                let f = first_with_name(e, name@);
                assert(0 <= f < e.len() && e[f].0 == name@ && forall|j: int|
                    0 <= j < f ==> #[trigger] e[j].0 != name@);
                if f < i {
                } else if f > i {
                }
            }
            return Some(i);
        }
        i += 1;
    }
    None
}

/// Whether a name is among the given ones.
pub fn contains_name(names: &[String], name: &String) -> (r: bool)
    ensures
        r == names@.map_values(|s: String| s@).contains(name@),
{
    let ghost v = names@.map_values(|s: String| s@);
    let mut i: usize = 0;
    while i < names.len()
        invariant
            0 <= i <= names.len(),
            v == names@.map_values(|s: String| s@),
            forall|j: int| 0 <= j < i ==> #[trigger] v[j] != name@,
        decreases names.len() - i,
    {
        if names[i] == *name {
            assert(v[i as int] == name@);
            return true;
        }
        i += 1;
    }
    false
}

} // verus!
