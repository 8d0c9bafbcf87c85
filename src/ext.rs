//! Shared types, unique-name lists, and the interpretation of order lists:
//! filtering, ordering and per-category amounts.
use crate::date::{range_filter, Date, NaiveDateFilter, OptionNaiveDateRange};
use crate::filter::Filter;
use crate::order::{opt_text, Order, TransactionState};
use vstd::prelude::*;

verus! {

/// Reasons for which a request on a name list fails.
#[derive(Clone, Copy, PartialEq, Eq, Structural, Debug)]
pub enum RequestFailure {
    /// The name holds only white space.
    IncorrectArgument,
    /// The name is empty.
    EmptyArgument,
    /// The name is not in the list.
    UnknownItem,
    /// The name is already in the list.
    ExistingItem,
}

/// Kinds of categories.
#[derive(Clone, Copy, PartialEq, Eq, Structural, Debug)]
pub enum CategoryType {
    /// Something which represents or holds money.
    Resource,
    /// A class of expense.
    Tag,
}

/// Sorting keys for orders.
#[derive(Clone, Copy, PartialEq, Eq, Structural, Debug)]
pub enum OrderingPreference {
    ByDate,
    ByDescription,
    ByAmount,
    ById,
}

/// Sorting directions.
#[derive(Clone, Copy, PartialEq, Eq, Structural, Debug)]
pub enum OrderingDirection {
    Ascending,
    Descending,
}

/// Whether the character has the Unicode `White_Space` property.
pub open spec fn white_space(c: char) -> bool {
    let u = c as u32;
    ||| 0x09 <= u <= 0x0D
    ||| u == 0x20
    ||| u == 0x85
    ||| u == 0xA0
    ||| u == 0x1680
    ||| 0x2000 <= u <= 0x200A
    ||| u == 0x2028
    ||| u == 0x2029
    ||| u == 0x202F
    ||| u == 0x205F
    ||| u == 0x3000
}

/// Whether the character has the Unicode `White_Space` property, as
/// `char::is_whitespace` tells.
pub fn is_white_space(c: char) -> (r: bool)
    ensures
        r == white_space(c),
{
    let u = c as u32;
    (0x09 <= u && u <= 0x0D) || u == 0x20 || u == 0x85 || u == 0xA0 || u == 0x1680 || (0x2000
        <= u && u <= 0x200A) || u == 0x2028 || u == 0x2029 || u == 0x202F || u == 0x205F || u
        == 0x3000
}

/// Whether every character of the text is white space.
pub open spec fn all_white_space(s: Seq<char>) -> bool {
    forall|i: int| 0 <= i < s.len() ==> white_space(#[trigger] s[i])
}

/// Whether the text holds only white space.
pub fn is_blank(s: &str) -> (r: bool)
    ensures
        r == all_white_space(s@),
{
    let n = s.unicode_len();
    let mut i: usize = 0;
    while i < n
        invariant
            0 <= i <= n,
            n == s@.len(),
            forall|j: int| 0 <= j < i ==> white_space(#[trigger] s@[j]),
        decreases n - i,
    {
        if !is_white_space(s.get_char(i)) {
            return false;
        }
        i += 1;
    }
    true
}

/// The texts of a list of strings.
pub open spec fn texts(v: Seq<String>) -> Seq<Seq<char>> {
    v.map_values(|s: String| s@)
}

/// Position of the first occurrence of `x` in `s`.
pub open spec fn first_index<A>(s: Seq<A>, x: A) -> int
    recommends
        s.contains(x),
{
    choose|i: int| 0 <= i < s.len() && s[i] == x && forall|j: int| 0 <= j < i ==> #[trigger] s[j] != x
}

/// Outcome of adding a name to a list of names.
pub open spec fn add_outcome(names: Seq<Seq<char>>, key: Seq<char>) -> Option<RequestFailure> {
    if key.len() == 0 {
        Some(RequestFailure::EmptyArgument)
    } else if all_white_space(key) {
        Some(RequestFailure::IncorrectArgument)
    } else if names.contains(key) {
        Some(RequestFailure::ExistingItem)
    } else {
        None
    }
}

/// A list of names that holds each name at most once.
pub trait ExclusiveItemExt {
    /// Adds a name that is not empty, not blank and not in the list yet.
    fn add_exclusive(&mut self, key: &str) -> Option<RequestFailure>;

    /// Removes a name of the list.
    fn remove_exclusive(&mut self, key: &str) -> Option<RequestFailure>;

    /// The names sorted case-insensitively, equal ones in list order.
    fn sorted_keys(&self) -> Vec<String>;
}

/// Position of the first string with the text `key`.
pub fn find_text(v: &Vec<String>, key: &String) -> (r: Option<usize>)
    ensures
        r is Some == texts(v@).contains(key@),
        r matches Some(i) ==> i == first_index(texts(v@), key@) && i < v.len(),
{
    let ghost t = texts(v@);
    let mut i: usize = 0;
    while i < v.len()
        invariant
            0 <= i <= v.len(),
            t == texts(v@),
            forall|j: int| 0 <= j < i ==> #[trigger] t[j] != key@,
        decreases v.len() - i,
    {
        if v[i] == *key {
            proof {
                assert(t[i as int] == key@);
                let f = first_index(t, key@);
                assert(0 <= f < t.len() && t[f] == key@ && forall|j: int|
                    0 <= j < f ==> #[trigger] t[j] != key@);
                if f < i {
                } else if f > i {
                }
            }
            return Some(i);
        }
        i += 1;
    }
    proof {
        if t.contains(key@) {
            let k = choose|k: int| 0 <= k < t.len() && t[k] == key@;
            assert(t[k] != key@);
        }
    }
    None
}

impl ExclusiveItemExt for Vec<String> {
    fn add_exclusive(&mut self, key: &str) -> (r: Option<RequestFailure>)
        ensures
            r == add_outcome(texts(old(self)@), key@),
            r is None ==> texts(final(self)@) == texts(old(self)@).push(key@),
            r is Some ==> final(self)@ == old(self)@,
    {
        if key.is_empty() {
            proof {
                assert(key@.len() == 0);
            }
            return Some(RequestFailure::EmptyArgument);
        }
        if is_blank(key) {
            return Some(RequestFailure::IncorrectArgument);
        }
        let owned = key.to_owned();
        match find_text(self, &owned) {
            Some(_) => Some(RequestFailure::ExistingItem),
            None => {
                let ghost before = self@;
                self.push(owned);
                proof {
                    assert(texts(self@) =~= texts(before).push(key@));
                }
                None
            },
        }
    }

    fn remove_exclusive(&mut self, key: &str) -> (r: Option<RequestFailure>)
        ensures
            r == if texts(old(self)@).contains(key@) {
                None
            } else {
                Some(RequestFailure::UnknownItem)
            },
            r is None ==> final(self)@ == old(self)@.remove(first_index(texts(old(self)@), key@)),
            r is Some ==> final(self)@ == old(self)@,
    {
        let owned = key.to_owned();
        match find_text(self, &owned) {
            Some(index) => {
                self.remove(index);
                None
            },
            None => Some(RequestFailure::UnknownItem),
        }
    }

    fn sorted_keys(&self) -> (r: Vec<String>)
        ensures
            exists|p: Seq<usize>|
                name_order(texts(self@), p) && texts(r@) == p.map_values(
                    |i: usize| texts(self@)[i as int],
                ),
    {
        let p = name_positions(self);
        let mut r: Vec<String> = Vec::new();
        let mut k: usize = 0;
        while k < p.len()
            invariant
                0 <= k <= p.len(),
                name_order(texts(self@), p@),
                texts(r@) == p@.take(k as int).map_values(|i: usize| texts(self@)[i as int]),
            decreases p.len() - k,
        {
            let ghost before = r@;
            r.push(self[p[k]].clone());
            proof {
                assert(texts(r@) =~= texts(before).push(texts(self@)[p@[k as int] as int]));
                assert(p@.take(k + 1).map_values(|i: usize| texts(self@)[i as int]) =~= p@.take(
                    k as int,
                ).map_values(|i: usize| texts(self@)[i as int]).push(texts(self@)[p@[k as int] as int]));
            }
            k += 1;
        }
        proof {
            assert(p@.take(k as int) =~= p@);
        }
        r
    }
}

/// Whether the name at `i` comes before the one at `j` when sorting
/// case-insensitively: by lowercased text, equal ones by position.
pub open spec fn name_precedes(t: Seq<Seq<char>>, i: int, j: int) -> bool {
    ||| text_lt(lower_of(t[i]), lower_of(t[j]))
    ||| (lower_of(t[i]) == lower_of(t[j]) && i < j)
}

/// Whether `p` lists every position of `t` once, in sorted order.
pub open spec fn name_order(t: Seq<Seq<char>>, p: Seq<usize>) -> bool {
    &&& p.len() == t.len()
    &&& forall|k: int| 0 <= k < p.len() ==> #[trigger] p[k] < t.len()
    &&& forall|i: usize| i < t.len() ==> #[trigger] p.contains(i)
    &&& forall|a: int, b: int|
        0 <= a < b < p.len() ==> name_precedes(t, #[trigger] p[a] as int, #[trigger] p[b] as int)
}

proof fn lemma_name_precedes(t: Seq<Seq<char>>, i: int, j: int, k: int)
    ensures
        i != j ==> name_precedes(t, i, j) || name_precedes(t, j, i),
        name_precedes(t, i, j) && name_precedes(t, j, k) ==> name_precedes(t, i, k),
{
    let (a, b, c) = (lower_of(t[i]), lower_of(t[j]), lower_of(t[k]));
    lemma_text_lt_total(a, b);
    lemma_text_lt_irreflexive(a);
    lemma_text_lt_irreflexive(b);
    if text_lt(a, b) {
        lemma_text_lt_asymmetric(a, b);
    }
    if text_lt(a, b) && text_lt(b, c) {
        lemma_text_lt_transitive(a, b, c);
    }
}

/// Positions of the names in case-insensitive order.
pub fn name_positions(names: &Vec<String>) -> (p: Vec<usize>)
    ensures
        name_order(texts(names@), p@),
{
    let ghost t = texts(names@);
    let mut lows: Vec<Vec<char>> = Vec::new();
    let mut i: usize = 0;
    while i < names.len()
        invariant
            0 <= i <= names.len(),
            t == texts(names@),
            lows.len() == i,
            forall|k: int| 0 <= k < i ==> #[trigger] lows@[k]@ == lower_of(t[k]),
        decreases names.len() - i,
    {
        let low = lowercase(names[i].as_str());
        lows.push(chars_of(&low));
        i += 1;
    }
    let mut sorted: Vec<usize> = Vec::new();
    let mut i: usize = 0;
    while i < names.len()
        invariant
            0 <= i <= names.len(),
            t == texts(names@),
            lows.len() == names.len(),
            forall|k: int| 0 <= k < lows.len() ==> #[trigger] lows@[k]@ == lower_of(t[k]),
            sorted.len() == i,
            forall|m: int| 0 <= m < sorted.len() ==> #[trigger] sorted@[m] < i,
            forall|j: usize| j < i ==> #[trigger] sorted@.contains(j),
            forall|a: int, b: int|
                0 <= a < b < sorted.len() ==> name_precedes(t, #[trigger] sorted@[a] as int, #[trigger] sorted@[b] as int),
        decreases names.len() - i,
    {
        let mut q: usize = 0;
        while q < sorted.len() && !name_before(&lows, i, sorted[q])
            invariant
                0 <= q <= sorted.len(),
                i < lows.len(),
                lows.len() == names.len(),
                forall|k: int| 0 <= k < lows.len() ==> #[trigger] lows@[k]@ == lower_of(t[k]),
                forall|m: int| 0 <= m < sorted.len() ==> #[trigger] sorted@[m] < i,
                forall|x: int| 0 <= x < q ==> name_precedes(t, #[trigger] sorted@[x] as int, i as int),
            decreases sorted.len() - q,
        {
            proof {
                lemma_name_precedes(t, i as int, sorted@[q as int] as int, 0);
            }
            q += 1;
        }
        let ghost before = sorted@;
        proof {
            assert forall|x: int| q <= x < before.len() implies name_precedes(t, i as int, #[trigger] before[x] as int) by {
                if x > q {
                    lemma_name_precedes(t, i as int, before[q as int] as int, before[x] as int);
                }
            }
        }
        sorted.insert(q, i);
        proof {
            assert(sorted@ =~= before.insert(q as int, i));
            assert forall|a: int, b: int| 0 <= a < b < sorted.len() implies name_precedes(
                t, #[trigger] sorted@[a] as int, #[trigger] sorted@[b] as int) by {
                if b < q {
                    assert(sorted@[a] == before[a] && sorted@[b] == before[b]);
                } else if b == q {
                    assert(sorted@[a] == before[a]);
                } else if a == q {
                    assert(sorted@[b] == before[b - 1]);
                } else if a < q {
                    assert(sorted@[a] == before[a] && sorted@[b] == before[b - 1]);
                } else {
                    assert(sorted@[a] == before[a - 1] && sorted@[b] == before[b - 1]);
                }
            }
            assert forall|j: usize| j < i + 1 implies #[trigger] sorted@.contains(j) by {
                if j < i {
                    assert(before.contains(j));
                    let m = choose|m: int| 0 <= m < before.len() && before[m] == j;
                    if m < q {
                        assert(sorted@[m] == j);
                    } else {
                        assert(sorted@[m + 1] == j);
                    }
                } else {
                    assert(sorted@[q as int] == i);
                }
            }
            assert forall|m: int| 0 <= m < sorted.len() implies #[trigger] sorted@[m] < i + 1 by {
                if m < q {
                    assert(sorted@[m] == before[m]);
                } else if m > q {
                    assert(sorted@[m] == before[m - 1]);
                }
            }
        }
        i += 1;
    }
    sorted
}

/// Executable `name_precedes` over lowercased names.
fn name_before(lows: &Vec<Vec<char>>, i: usize, j: usize) -> (r: bool)
    requires
        i < lows.len(),
        j < lows.len(),
    ensures
        r == (text_lt(lows@[i as int]@, lows@[j as int]@) || (lows@[i as int]@ == lows@[j as int]@ && i < j)),
{
    proof {
        lemma_text_lt_total(lows@[i as int]@, lows@[j as int]@);
        lemma_text_lt_irreflexive(lows@[i as int]@);
    }
    let lt = text_less(&lows[i], &lows[j]);
    let gt = text_less(&lows[j], &lows[i]);
    lt || (!lt && !gt && i < j)
}

/// Amounts of a category, in hundredths of the currency unit.
#[derive(Clone, Copy, PartialEq, Eq, Structural, Debug)]
pub struct CategoryAmount {
    /// Sum of the done orders.
    pub current: i128,
    /// Sum of the pending orders.
    pub pending: i128,
    /// Sum of the orders in progress.
    pub in_progress: i128,
    /// Sum of all orders.
    pub expected: i128,
}

/// What std's `str::to_lowercase` makes of a text.
pub uninterp spec fn lower_of(s: Seq<char>) -> Seq<char>;

/// Relies on `str::to_lowercase`, whose result depends on the text alone.
#[verifier::external_body]
fn lowercase(s: &str) -> (r: String)
    ensures
        r@ == lower_of(s@),
{
    s.to_lowercase()
}

/// Lexicographic order of texts by code point, a proper prefix first.
pub open spec fn text_lt(a: Seq<char>, b: Seq<char>) -> bool
    decreases a.len(),
{
    if a.len() == 0 {
        b.len() > 0
    } else if b.len() == 0 {
        false
    } else if a[0] != b[0] {
        (a[0] as u32) < (b[0] as u32)
    } else {
        text_lt(a.drop_first(), b.drop_first())
    }
}

/// Order of optional dates: a missing date first, then calendar order.
pub open spec fn date_lt(a: Option<Date>, b: Option<Date>) -> bool {
    match (a, b) {
        (None, Some(_)) => true,
        (Some(x), Some(y)) => x.spec_le(y) && x != y,
        _ => false,
    }
}

/// Whether the sorting key of the order at `i` is below the one at `j`.
pub open spec fn key_lt(o: Seq<Order>, pref: OrderingPreference, i: int, j: int) -> bool {
    match pref {
        OrderingPreference::ByDate => date_lt(o[i].date, o[j].date),
        OrderingPreference::ByDescription => text_lt(
            lower_of(o[i].description@),
            lower_of(o[j].description@),
        ),
        OrderingPreference::ByAmount => o[i].amount < o[j].amount,
        OrderingPreference::ById => i < j,
    }
}

/// Whether the orders at `i` and `j` have the same sorting key.
pub open spec fn key_eq(o: Seq<Order>, pref: OrderingPreference, i: int, j: int) -> bool {
    match pref {
        OrderingPreference::ByDate => o[i].date == o[j].date,
        OrderingPreference::ByDescription => lower_of(o[i].description@) == lower_of(
            o[j].description@,
        ),
        OrderingPreference::ByAmount => o[i].amount == o[j].amount,
        OrderingPreference::ById => i == j,
    }
}

/// Whether the order at position `i` comes before the one at `j` in a
/// sorted view: by key in the given direction, equal keys by position.
pub open spec fn precedes(
    o: Seq<Order>,
    pref: OrderingPreference,
    dir: OrderingDirection,
    i: int,
    j: int,
) -> bool {
    ||| (match dir {
        OrderingDirection::Ascending => key_lt(o, pref, i, j),
        OrderingDirection::Descending => key_lt(o, pref, j, i),
    })
    ||| (key_eq(o, pref, i, j) && i < j)
}

proof fn lemma_text_lt_irreflexive(a: Seq<char>)
    ensures
        !text_lt(a, a),
    decreases a.len(),
{
    if a.len() > 0 {
        lemma_text_lt_irreflexive(a.drop_first());
    }
}

proof fn lemma_text_lt_total(a: Seq<char>, b: Seq<char>)
    ensures
        a == b || text_lt(a, b) || text_lt(b, a),
    decreases a.len(),
{
    if a.len() > 0 && b.len() > 0 && a[0] == b[0] {
        lemma_text_lt_total(a.drop_first(), b.drop_first());
        if a.drop_first() == b.drop_first() {
            assert(a =~= seq![a[0]] + a.drop_first());
            assert(b =~= seq![b[0]] + b.drop_first());
        }
    } else if a.len() == 0 && b.len() == 0 {
        assert(a =~= b);
    } else if a.len() > 0 && b.len() > 0 {
        vstd::utf8::char_u32_cast(a[0], a[0] as u32);
        vstd::utf8::char_u32_cast(b[0], b[0] as u32);
        assert((a[0] as u32) != (b[0] as u32));
    }
}

proof fn lemma_text_lt_transitive(a: Seq<char>, b: Seq<char>, c: Seq<char>)
    requires
        text_lt(a, b),
        text_lt(b, c),
    ensures
        text_lt(a, c),
    decreases a.len(),
{
    if a.len() > 0 && b.len() > 0 && c.len() > 0 && a[0] == b[0] && b[0] == c[0] {
        lemma_text_lt_transitive(a.drop_first(), b.drop_first(), c.drop_first());
    }
}

proof fn lemma_text_lt_asymmetric(a: Seq<char>, b: Seq<char>)
    requires
        text_lt(a, b),
    ensures
        !text_lt(b, a),
{
    if text_lt(b, a) {
        lemma_text_lt_transitive(a, b, a);
        lemma_text_lt_irreflexive(a);
    }
}

/// `precedes` orders any two distinct positions one way or the other.
proof fn lemma_precedes_total(
    o: Seq<Order>,
    pref: OrderingPreference,
    dir: OrderingDirection,
    i: int,
    j: int,
)
    requires
        i != j,
    ensures
        precedes(o, pref, dir, i, j) || precedes(o, pref, dir, j, i),
{
    if pref == OrderingPreference::ByDescription {
        lemma_text_lt_total(lower_of(o[i].description@), lower_of(o[j].description@));
    }
}

/// `precedes` is transitive and never holds both ways.
proof fn lemma_precedes_order(
    o: Seq<Order>,
    pref: OrderingPreference,
    dir: OrderingDirection,
    i: int,
    j: int,
    k: int,
)
    ensures
        precedes(o, pref, dir, i, j) && precedes(o, pref, dir, j, k) ==> precedes(o, pref, dir, i, k),
        precedes(o, pref, dir, i, j) ==> !precedes(o, pref, dir, j, i),
{
    if pref == OrderingPreference::ByDescription {
        let a = lower_of(o[i].description@);
        let b = lower_of(o[j].description@);
        let c = lower_of(o[k].description@);
        lemma_text_lt_irreflexive(a);
        lemma_text_lt_irreflexive(b);
        if text_lt(a, b) {
            lemma_text_lt_asymmetric(a, b);
        }
        if text_lt(b, a) {
            lemma_text_lt_asymmetric(b, a);
        }
        if text_lt(a, b) && text_lt(b, c) {
            lemma_text_lt_transitive(a, b, c);
        }
        if text_lt(c, b) && text_lt(b, a) {
            lemma_text_lt_transitive(c, b, a);
        }
    }
}

/// The characters of a text.
fn chars_of(s: &String) -> (r: Vec<char>)
    ensures
        r@ == s@,
{
    let t = s.as_str();
    let n = t.unicode_len();
    let mut r: Vec<char> = Vec::new();
    let mut i: usize = 0;
    while i < n
        invariant
            0 <= i <= n,
            n == t@.len(),
            t@ == s@,
            r@ == t@.take(i as int),
        decreases n - i,
    {
        r.push(t.get_char(i));
        proof {
            assert(r@ =~= t@.take(i + 1));
        }
        i += 1;
    }
    proof {
        assert(r@ =~= s@);
    }
    r
}

/// Whether `a` comes before `b` in lexicographic order by code point.
pub fn text_less(a: &Vec<char>, b: &Vec<char>) -> (r: bool)
    ensures
        r == text_lt(a@, b@),
{
    let mut k: usize = 0;
    proof {
        assert(a@.skip(0) =~= a@);
        assert(b@.skip(0) =~= b@);
    }
    while k < a.len() && k < b.len()
        invariant
            0 <= k <= a.len(),
            k <= b.len(),
            text_lt(a@, b@) == text_lt(a@.skip(k as int), b@.skip(k as int)),
        decreases a.len() - k,
    {
        if a[k] != b[k] {
            proof {
                assert(a@.skip(k as int)[0] == a@[k as int]);
                assert(b@.skip(k as int)[0] == b@[k as int]);
            }
            return (a[k] as u32) < (b[k] as u32);
        }
        proof {
            assert(a@.skip(k as int).drop_first() =~= a@.skip(k + 1));
            assert(b@.skip(k as int).drop_first() =~= b@.skip(k + 1));
        }
        k += 1;
    }
    k == a.len() && k < b.len()
}

/// Lowercased descriptions of the orders, as characters.
fn lowered_descriptions(orders: &Vec<Order>) -> (r: Vec<Vec<char>>)
    ensures
        r.len() == orders.len(),
        forall|k: int| 0 <= k < r.len() ==> #[trigger] r@[k]@ == lower_of(orders@[k].description@),
{
    let mut r: Vec<Vec<char>> = Vec::new();
    let mut i: usize = 0;
    while i < orders.len()
        invariant
            0 <= i <= orders.len(),
            r.len() == i,
            forall|k: int| 0 <= k < i ==> #[trigger] r@[k]@ == lower_of(orders@[k].description@),
        decreases orders.len() - i,
    {
        let low = lowercase(orders[i].description.as_str());
        r.push(chars_of(&low));
        i += 1;
    }
    r
}

/// Executable `precedes`; `lows` holds the lowercased descriptions when
/// sorting by description.
fn precedes_at(
    orders: &Vec<Order>,
    lows: &Vec<Vec<char>>,
    pref: OrderingPreference,
    dir: OrderingDirection,
    i: usize,
    j: usize,
) -> (r: bool)
    requires
        i < orders.len(),
        j < orders.len(),
        pref == OrderingPreference::ByDescription ==> lows.len() == orders.len() && forall|k: int|
            0 <= k < lows.len() ==> #[trigger] lows@[k]@ == lower_of(orders@[k].description@),
    ensures
        r == precedes(orders@, pref, dir, i as int, j as int),
{
    let (a, b) = match dir {
        OrderingDirection::Ascending => (i, j),
        OrderingDirection::Descending => (j, i),
    };
    let (lt, eq) = match pref {
        OrderingPreference::ByDate => {
            let (x, y) = (orders[a].date, orders[b].date);
            let lt = match (x, y) {
                (None, Some(_)) => true,
                (Some(p), Some(q)) => p.not_after(&q) && p != q,
                _ => false,
            };
            (lt, x == y)
        },
        OrderingPreference::ByDescription => {
            proof {
                lemma_text_lt_total(lows@[a as int]@, lows@[b as int]@);
                lemma_text_lt_irreflexive(lows@[a as int]@);
            }
            let lt = text_less(&lows[a], &lows[b]);
            let gt = text_less(&lows[b], &lows[a]);
            (lt, !lt && !gt)
        },
        OrderingPreference::ByAmount => (orders[a].amount < orders[b].amount, orders[a].amount
            == orders[b].amount),
        OrderingPreference::ById => (a < b, a == b),
    };
    lt || (eq && i < j)
}

/// Whether `p` lists, each once and in `precedes` order, exactly the
/// positions of the orders that the filter admits.
pub open spec fn is_sorted_view(o: Seq<Order>, filter: Filter, p: Seq<usize>) -> bool {
    &&& forall|k: int|
        0 <= k < p.len() ==> #[trigger] p[k] < o.len() && filter.admits(o[p[k] as int])
    &&& forall|i: usize| i < o.len() && filter.admits(o[i as int]) ==> #[trigger] p.contains(i)
    &&& forall|a: int, b: int|
        0 <= a < b < p.len() ==> precedes(
            o,
            filter.ordering,
            filter.direction,
            #[trigger] p[a] as int,
            #[trigger] p[b] as int,
        )
}

/// Two lists of the same positions, both strictly in `precedes` order, are
/// the same list.
proof fn lemma_sorted_unique(
    o: Seq<Order>,
    pref: OrderingPreference,
    dir: OrderingDirection,
    p: Seq<usize>,
    q: Seq<usize>,
)
    requires
        forall|x: usize| p.contains(x) <==> q.contains(x),
        forall|a: int, b: int|
            0 <= a < b < p.len() ==> precedes(o, pref, dir, #[trigger] p[a] as int, #[trigger] p[b] as int),
        forall|a: int, b: int|
            0 <= a < b < q.len() ==> precedes(o, pref, dir, #[trigger] q[a] as int, #[trigger] q[b] as int),
    ensures
        p == q,
    decreases p.len(),
{
    if p.len() == 0 {
        if q.len() > 0 {
            assert(q.contains(q[0]));
        }
        assert(p =~= q);
    } else {
        assert(p.contains(p[0]));
        assert(q.len() > 0);
        let (x, y) = (p[0], q[0]);
        assert(q.contains(y));
        if x != y {
            let m = choose|m: int| 0 <= m < p.len() && p[m] == y;
            let n = choose|n: int| 0 <= n < q.len() && q[n] == x;
            assert(m != 0 && n != 0);
            assert(precedes(o, pref, dir, p[0] as int, p[m] as int));
            assert(precedes(o, pref, dir, q[0] as int, q[n] as int));
            lemma_precedes_order(o, pref, dir, x as int, y as int, x as int);
        }
        let (pt, qt) = (p.drop_first(), q.drop_first());
        assert forall|z: usize| pt.contains(z) <==> qt.contains(z) by {
            if pt.contains(z) {
                let m = choose|m: int| 0 <= m < pt.len() && pt[m] == z;
                assert(precedes(o, pref, dir, p[0] as int, p[m + 1] as int));
                lemma_precedes_order(o, pref, dir, x as int, z as int, x as int);
                assert(p.contains(z));
                let n = choose|n: int| 0 <= n < q.len() && q[n] == z;
                assert(n != 0);
                assert(qt[n - 1] == z);
            }
            if qt.contains(z) {
                let n = choose|n: int| 0 <= n < qt.len() && qt[n] == z;
                assert(precedes(o, pref, dir, q[0] as int, q[n + 1] as int));
                lemma_precedes_order(o, pref, dir, y as int, z as int, y as int);
                assert(q.contains(z));
                let m = choose|m: int| 0 <= m < p.len() && p[m] == z;
                assert(m != 0);
                assert(pt[m - 1] == z);
            }
        }
        assert forall|a: int, b: int| 0 <= a < b < pt.len() implies precedes(
            o, pref, dir, #[trigger] pt[a] as int, #[trigger] pt[b] as int) by {
            assert(pt[a] == p[a + 1] && pt[b] == p[b + 1]);
        }
        assert forall|a: int, b: int| 0 <= a < b < qt.len() implies precedes(
            o, pref, dir, #[trigger] qt[a] as int, #[trigger] qt[b] as int) by {
            assert(qt[a] == q[a + 1] && qt[b] == q[b + 1]);
        }
        lemma_sorted_unique(o, pref, dir, pt, qt);
        assert(p =~= seq![x] + pt);
        assert(q =~= seq![y] + qt);
    }
}

/// The sorted view of an order list under a filter is unique: two position
/// lists that both are one are equal.
pub proof fn sorted_view_is_unique(o: Seq<Order>, filter: Filter, p: Seq<usize>, q: Seq<usize>)
    requires
        is_sorted_view(o, filter, p),
        is_sorted_view(o, filter, q),
    ensures
        p == q,
{
    assert forall|x: usize| p.contains(x) <==> q.contains(x) by {
        if p.contains(x) {
            let m = choose|m: int| 0 <= m < p.len() && p[m] == x;
            assert(x < o.len() && filter.admits(o[x as int]));
        }
        if q.contains(x) {
            let m = choose|m: int| 0 <= m < q.len() && q[m] == x;
            assert(x < o.len() && filter.admits(o[x as int]));
        }
    }
    lemma_sorted_unique(o, filter.ordering, filter.direction, p, q);
}

/// Interpretation of an order list.
pub trait OrderListExt {
    /// Sums the amounts of the visible orders of a category within a date
    /// range, by state; nothing when no order counts.
    fn calculate_category_amount(
        &self,
        kind: CategoryType,
        category: &str,
        date_range: OptionNaiveDateRange,
    ) -> Option<CategoryAmount>;

    /// The orders that the filter admits, with their positions, sorted as
    /// the filter asks.
    fn apply_filter(&self, filter: &Filter) -> Vec<(usize, &Order)>;
}

/// Whether the order counts toward the amounts of a category.
pub open spec fn counts_toward(
    o: Order,
    kind: CategoryType,
    category: Seq<char>,
    f: NaiveDateFilter,
) -> bool {
    &&& o.visible
    &&& match kind {
        CategoryType::Resource => opt_text(o.resource) == Some(category),
        CategoryType::Tag => texts(o.tags@).contains(category),
    }
    &&& f.allows(o.date)
}

/// Number of orders that count toward a category.
pub open spec fn count_toward(
    os: Seq<Order>,
    kind: CategoryType,
    category: Seq<char>,
    f: NaiveDateFilter,
) -> nat
    decreases os.len(),
{
    if os.len() == 0 {
        0
    } else {
        count_toward(os.drop_last(), kind, category, f) + if counts_toward(
            os.last(),
            kind,
            category,
            f,
        ) {
            1nat
        } else {
            0nat
        }
    }
}

/// Sum of the amounts of the orders that count toward a category, over
/// one state or, with `None`, over all of them.
pub open spec fn sum_toward(
    os: Seq<Order>,
    kind: CategoryType,
    category: Seq<char>,
    f: NaiveDateFilter,
    state: Option<TransactionState>,
) -> int
    decreases os.len(),
{
    if os.len() == 0 {
        0
    } else {
        sum_toward(os.drop_last(), kind, category, f, state) + if counts_toward(
            os.last(),
            kind,
            category,
            f,
        ) && (state is None || state == Some(os.last().state)) {
            os.last().amount as int
        } else {
            0
        }
    }
}

/// The amounts of a category over an order list: nothing when no order
/// counts.
pub open spec fn category_amounts(
    os: Seq<Order>,
    kind: CategoryType,
    category: Seq<char>,
    f: NaiveDateFilter,
) -> Option<CategoryAmount> {
    if count_toward(os, kind, category, f) == 0 {
        None
    } else {
        Some(
            CategoryAmount {
                current: sum_toward(os, kind, category, f, Some(TransactionState::Done)) as i128,
                pending: sum_toward(os, kind, category, f, Some(TransactionState::Pending)) as i128,
                in_progress: sum_toward(os, kind, category, f, Some(TransactionState::InProgress))
                    as i128,
                expected: sum_toward(os, kind, category, f, None) as i128,
            },
        )
    }
}

/// Amounts exist exactly when at least one order counts: no matching order
/// gives nothing, not zero sums.
pub proof fn amounts_only_with_matching_orders(
    os: Seq<Order>,
    kind: CategoryType,
    category: Seq<char>,
    f: NaiveDateFilter,
)
    ensures
        category_amounts(os, kind, category, f) is None <==> count_toward(os, kind, category, f)
            == 0,
{
}

/// Largest magnitude of an amount.
pub const AMOUNT_BOUND: i128 = 0x8000_0000_0000_0000;

/// Adds the amount to the sum when the condition holds.
pub fn add_if(sum: i128, cond: bool, amount: i64, n: usize) -> (r: i128)
    requires
        -(n as int) * AMOUNT_BOUND <= sum <= (n as int) * AMOUNT_BOUND,
    ensures
        r == sum + if cond {
            amount as int
        } else {
            0
        },
        -(n + 1) * AMOUNT_BOUND <= r <= (n + 1) * AMOUNT_BOUND,
{
    assert((n as int) + 1 <= 0x1_0000_0000_0000_0000);
    assert((n + 1) * AMOUNT_BOUND <= 0x1_0000_0000_0000_0000 * 0x8000_0000_0000_0000)
        by (nonlinear_arith)
        requires
            (n as int) + 1 <= 0x1_0000_0000_0000_0000,
    ;
    if cond {
        sum + amount as i128
    } else {
        sum
    }
}

impl OrderListExt for Vec<Order> {
    fn calculate_category_amount(
        &self,
        kind: CategoryType,
        category: &str,
        date_range: OptionNaiveDateRange,
    ) -> (r: Option<CategoryAmount>)
        ensures
            r == category_amounts(self@, kind, category@, range_filter(date_range.0, date_range.1)),
    {
        let date_filter = NaiveDateFilter::from(date_range);
        let ghost f = date_filter;
        let key = category.to_owned();
        let mut current: i128 = 0;
        let mut pending: i128 = 0;
        let mut in_progress: i128 = 0;
        let mut expected: i128 = 0;
        let mut nb_orders: usize = 0;
        let mut i: usize = 0;
        while i < self.len()
            invariant
                0 <= i <= self.len(),
                key@ == category@,
                f == date_filter,
                nb_orders == count_toward(self@.take(i as int), kind, category@, f),
                nb_orders <= i,
                current == sum_toward(self@.take(i as int), kind, category@, f, Some(TransactionState::Done)),
                pending == sum_toward(self@.take(i as int), kind, category@, f, Some(TransactionState::Pending)),
                in_progress == sum_toward(self@.take(i as int), kind, category@, f, Some(TransactionState::InProgress)),
                expected == sum_toward(self@.take(i as int), kind, category@, f, None),
                -(i as int) * AMOUNT_BOUND <= current <= (i as int) * AMOUNT_BOUND,
                -(i as int) * AMOUNT_BOUND <= pending <= (i as int) * AMOUNT_BOUND,
                -(i as int) * AMOUNT_BOUND <= in_progress <= (i as int) * AMOUNT_BOUND,
                -(i as int) * AMOUNT_BOUND <= expected <= (i as int) * AMOUNT_BOUND,
            decreases self.len() - i,
        {
            let order = &self[i];
            let in_category = match kind {
                CategoryType::Resource => match &order.resource {
                    Some(r) => *r == key,
                    None => false,
                },
                CategoryType::Tag => crate::category::contains_name(order.tags.as_slice(), &key),
            };
            let counted = order.visible && in_category && date_filter.is_date_allowed(order.date);
            proof {
                assert(self@.take(i + 1).drop_last() =~= self@.take(i as int));
                assert(self@.take(i + 1).last() == self@[i as int]);
                assert(counted == counts_toward(self@[i as int], kind, category@, f));
            }
            current = add_if(current, counted && order.state == TransactionState::Done, order.amount, i);
            pending = add_if(pending, counted && order.state == TransactionState::Pending, order.amount, i);
            in_progress = add_if(in_progress, counted && order.state == TransactionState::InProgress, order.amount, i);
            expected = add_if(expected, counted, order.amount, i);
            if counted {
                nb_orders += 1;
            }
            i += 1;
        }
        proof {
            assert(self@.take(i as int) =~= self@);
        }
        if nb_orders > 0 {
            Some(CategoryAmount { current, pending, in_progress, expected })
        } else {
            None
        }
    }

    fn apply_filter(&self, filter: &Filter) -> (r: Vec<(usize, &Order)>)
        ensures
            is_sorted_view(self@, *filter, r@.map_values(|e: (usize, &Order)| e.0)),
            forall|k: int|
                0 <= k < r.len() ==> {
                    let i = #[trigger] r@[k].0;
                    &&& i < self.len()
                    &&& *r@[k].1 == self@[i as int]
                    &&& filter.admits(self@[i as int])
                },
            forall|i: int|
                0 <= i < self.len() && filter.admits(#[trigger] self@[i]) ==> exists|k: int|
                    0 <= k < r.len() && r@[k].0 == i,
            forall|a: int, b: int|
                0 <= a < b < r.len() ==> precedes(
                    self@,
                    filter.ordering,
                    filter.direction,
                    #[trigger] r@[a].0 as int,
                    #[trigger] r@[b].0 as int,
                ),
    {
        let pref = filter.ordering;
        let dir = filter.direction;
        let lows = if pref == OrderingPreference::ByDescription {
            lowered_descriptions(self)
        } else {
            Vec::new()
        };
        let mut sorted: Vec<usize> = Vec::new();
        let mut i: usize = 0;
        while i < self.len()
            invariant
                0 <= i <= self.len(),
                pref == filter.ordering,
                dir == filter.direction,
                pref == OrderingPreference::ByDescription ==> lows.len() == self.len() && forall|k: int|
                    0 <= k < lows.len() ==> #[trigger] lows@[k]@ == lower_of(self@[k].description@),
                forall|m: int|
                    0 <= m < sorted.len() ==> #[trigger] sorted@[m] < i && filter.admits(
                        self@[sorted@[m] as int],
                    ),
                forall|j: int| 0 <= j < i && filter.admits(#[trigger] self@[j]) ==> sorted@.contains(j as usize),
                forall|a: int, b: int|
                    0 <= a < b < sorted.len() ==> precedes(
                        self@,
                        pref,
                        dir,
                        #[trigger] sorted@[a] as int,
                        #[trigger] sorted@[b] as int,
                    ),
            decreases self.len() - i,
        {
            if filter.is_order_allowed(&self[i]) {
                let mut p: usize = 0;
                while p < sorted.len() && !precedes_at(self, &lows, pref, dir, i, sorted[p])
                    invariant
                        0 <= p <= sorted.len(),
                        i < self.len(),
                        pref == OrderingPreference::ByDescription ==> lows.len() == self.len() && forall|k: int|
                            0 <= k < lows.len() ==> #[trigger] lows@[k]@ == lower_of(self@[k].description@),
                        forall|m: int| 0 <= m < sorted.len() ==> #[trigger] sorted@[m] < i,
                        forall|q: int| 0 <= q < p ==> precedes(self@, pref, dir, #[trigger] sorted@[q] as int, i as int),
                    decreases sorted.len() - p,
                {
                    proof {
                        lemma_precedes_total(self@, pref, dir, i as int, sorted@[p as int] as int);
                    }
                    p += 1;
                }
                let ghost before = sorted@;
                proof {
                    assert forall|q: int| p <= q < before.len() implies precedes(self@, pref, dir, i as int, #[trigger] before[q] as int) by {
                        if q > p {
                            lemma_precedes_order(self@, pref, dir, i as int, before[p as int] as int, before[q] as int);
                        }
                    }
                }
                sorted.insert(p, i);
                proof {
                    assert(sorted@ =~= before.insert(p as int, i));
                    assert forall|a: int, b: int| 0 <= a < b < sorted.len() implies precedes(
                        self@, pref, dir, #[trigger] sorted@[a] as int, #[trigger] sorted@[b] as int) by {
                        if b < p {
                            assert(sorted@[a] == before[a] && sorted@[b] == before[b]);
                        } else if b == p {
                            assert(sorted@[a] == before[a]);
                        } else if a == p {
                            assert(sorted@[b] == before[b - 1]);
                        } else if a < p {
                            assert(sorted@[a] == before[a] && sorted@[b] == before[b - 1]);
                        } else {
                            assert(sorted@[a] == before[a - 1] && sorted@[b] == before[b - 1]);
                        }
                    }
                    assert forall|j: int| 0 <= j < i + 1 && filter.admits(#[trigger] self@[j]) implies sorted@.contains(j as usize) by {
                        if j < i {
                            let m = choose|m: int| 0 <= m < before.len() && before[m] == j as usize;
                            if m < p {
                                assert(sorted@[m] == j as usize);
                            } else {
                                assert(sorted@[m + 1] == j as usize);
                            }
                        } else {
                            assert(sorted@[p as int] == i);
                        }
                    }
                    assert forall|m: int| 0 <= m < sorted.len() implies #[trigger] sorted@[m] < i + 1 && filter.admits(self@[sorted@[m] as int]) by {
                        if m < p {
                            assert(sorted@[m] == before[m]);
                        } else if m > p {
                            assert(sorted@[m] == before[m - 1]);
                        }
                    }
                }
            } else {
                proof {
                    assert forall|j: int| 0 <= j < i + 1 && filter.admits(#[trigger] self@[j]) implies sorted@.contains(j as usize) by {
                    }
                }
            }
            i += 1;
        }
        let mut r: Vec<(usize, &Order)> = Vec::new();
        let mut k: usize = 0;
        while k < sorted.len()
            invariant
                0 <= k <= sorted.len(),
                r.len() == k,
                forall|m: int| 0 <= m < sorted.len() ==> #[trigger] sorted@[m] < self.len(),
                forall|m: int| 0 <= m < k ==> (#[trigger] r@[m]).0 == sorted@[m] && *r@[m].1 == self@[sorted@[m] as int],
            decreases sorted.len() - k,
        {
            let index = sorted[k];
            r.push((index, &self[index]));
            k += 1;
        }
        proof {
            assert forall|i: int| 0 <= i < self.len() && filter.admits(#[trigger] self@[i]) implies exists|k: int|
                0 <= k < r.len() && r@[k].0 == i by {
                let m = choose|m: int| 0 <= m < sorted.len() && sorted@[m] == i as usize;
                assert(r@[m].0 == i);
            }
            assert forall|a: int, b: int| 0 <= a < b < r.len() implies precedes(self@, filter.ordering, filter.direction,
                #[trigger] r@[a].0 as int, #[trigger] r@[b].0 as int) by {
                assert(r@[a].0 == sorted@[a] && r@[b].0 == sorted@[b]);
            }
            let ids = r@.map_values(|e: (usize, &Order)| e.0);
            assert(ids =~= sorted@);
        }
        r
    }
}

} // verus!
