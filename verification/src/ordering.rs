//! The orders in which files and folders are listed, and a stable sort by them.

use vstd::prelude::*;

verus! {

/// Where one item stands relative to another.
#[derive(Clone, Copy, Debug, PartialEq, Eq, Structural)]
pub enum Precedence {
    Before,
    Same,
    After,
}

/// The same relation seen from the other item.
pub open spec fn reversed(p: Precedence) -> Precedence {
    match p {
        Precedence::Before => Precedence::After,
        Precedence::Same => Precedence::Same,
        Precedence::After => Precedence::Before,
    }
}

/// The place of `a` relative to `b` in the natural order of texts, letter case aside: what
/// `natord::compare_ignore_case` answers.
pub uninterp spec fn natural_order(a: Seq<char>, b: Seq<char>) -> Precedence;

/// Compares two names in natural order: runs of digits by their value, letter case aside.
///
/// This is the order of names where the system has none of its own. Calls
/// `natord::compare_ignore_case`. The answer is taken to depend on the two texts alone
/// and to come from one order of all texts: it is reversed when the texts are exchanged, and it
/// agrees with where any third text stands. (The function reads each text as a sequence of digit
/// runs and other characters, white space left out, and compares the two sequences item by
/// item.) What the order is on given texts is not stated.
#[verifier::external_body]
pub fn compare_logical(a: &str, b: &str) -> (r: Precedence)
    ensures
        r == natural_order(a@, b@),
        natural_order(b@, a@) == reversed(r),
        r !is After ==> forall|c: Seq<char>|
            natural_order(b@, c) !is After ==> #[trigger] natural_order(a@, c) !is After,
        r is After ==> forall|c: Seq<char>|
            natural_order(a@, c) !is After ==> #[trigger] natural_order(b@, c) is Before,
        r !is Before ==> forall|c: Seq<char>|
            natural_order(b@, c) !is Before ==> #[trigger] natural_order(a@, c) !is Before,
        r is Before ==> forall|c: Seq<char>|
            natural_order(a@, c) !is Before ==> #[trigger] natural_order(b@, c) is After,
{
    match natord::compare_ignore_case(a, b) {
        std::cmp::Ordering::Less => Precedence::Before,
        std::cmp::Ordering::Equal => Precedence::Same,
        std::cmp::Ordering::Greater => Precedence::After,
    }
}

/// What a listing is sorted by.
#[derive(Clone, Copy, Debug, PartialEq, Eq, Structural)]
pub enum SortKey {
    Name,
    ModifiedDate,
}

/// The direction of a listing.
#[derive(Clone, Copy, Debug, PartialEq, Eq, Structural)]
pub enum SortOrder {
    Ascending,
    Descending,
}

/// Whether a listing is divided into date groups.
#[derive(Clone, Copy, Debug, PartialEq, Eq, Structural)]
pub enum GroupBy {
    Off,
    ModifiedDate,
}

/// How a listing is arranged.
#[derive(Clone, Copy, Debug, PartialEq, Eq, Structural)]
pub struct SortRule {
    pub sort_key: SortKey,
    pub sort_order: SortOrder,
    pub group_by: GroupBy,
}

/// A point in time: whole seconds since the Unix epoch, negative before it, and the nanoseconds
/// that follow.
#[derive(Clone, Copy, Debug, PartialEq, Eq, Structural)]
pub struct FileTime {
    pub secs: i64,
    pub nanos: u32,
}

/// Date groups, from newest to oldest.
#[derive(Clone, Copy, Debug, PartialEq, Eq, Structural)]
pub enum DateGroup {
    Today,
    LastWeek,
    LastMonth,
    ThisYear,
    LongAgo,
}

/// Whole days since the Unix epoch; a time before it counts as day zero.
pub open spec fn epoch_days(time: FileTime) -> int {
    if time.secs >= 0 {
        time.secs as int / 86400
    } else {
        0
    }
}

/// Whole days since the Unix epoch; a time before it counts as day zero.
pub fn days_since_epoch(time: FileTime) -> (d: i64)
    ensures
        d == epoch_days(time),
        0 <= d,
{
    if time.secs >= 0 {
        time.secs / 86400
    } else {
        0
    }
}

/// The date group of something that is `age` days old.
pub open spec fn group_of_age(age: int) -> DateGroup {
    if age <= 0 {
        DateGroup::Today
    } else if age <= 7 {
        DateGroup::LastWeek
    } else if age <= 30 {
        DateGroup::LastMonth
    } else if age <= 365 {
        DateGroup::ThisYear
    } else {
        DateGroup::LongAgo
    }
}

/// The date group of a file, seen from `now`.
pub fn classify_date_group(file_time: FileTime, now: FileTime) -> (g: DateGroup)
    ensures
        g == group_of_age(epoch_days(now) - epoch_days(file_time)),
{
    let diff: i64 = days_since_epoch(now) - days_since_epoch(file_time);
    if diff <= 0 {
        DateGroup::Today
    } else if diff <= 7 {
        DateGroup::LastWeek
    } else if diff <= 30 {
        DateGroup::LastMonth
    } else if diff <= 365 {
        DateGroup::ThisYear
    } else {
        DateGroup::LongAgo
    }
}

/// The place of a date group among the groups, the newest first.
pub open spec fn group_rank(g: DateGroup) -> int {
    match g {
        DateGroup::Today => 0,
        DateGroup::LastWeek => 1,
        DateGroup::LastMonth => 2,
        DateGroup::ThisYear => 3,
        DateGroup::LongAgo => 4,
    }
}

/// A file never moves to a newer group as time passes.
pub proof fn lemma_groups_age(file_time: FileTime, earlier: FileTime, later: FileTime)
    requires
        epoch_days(earlier) <= epoch_days(later),
    ensures
        group_rank(group_of_age(epoch_days(earlier) - epoch_days(file_time))) <= group_rank(
            group_of_age(epoch_days(later) - epoch_days(file_time)),
        ),
{
}

/// What the order of a listing reads of one of its items.
pub struct SortItem {
    pub name: String,
    pub modified: FileTime,
    pub group: DateGroup,
    /// The place of the name where the system has an order of names of its own.
    pub system_place: Option<u32>,
}

/// The mathematical form of a sort item.
pub struct ItemView {
    pub name: Seq<char>,
    pub modified: FileTime,
    pub group: DateGroup,
    pub system_place: Option<u32>,
}

impl View for SortItem {
    type V = ItemView;

    open spec fn view(&self) -> ItemView {
        ItemView {
            name: self.name@,
            modified: self.modified,
            group: self.group,
            system_place: self.system_place,
        }
    }
}

/// The views of a sequence of items.
pub open spec fn item_views(items: Seq<SortItem>) -> Seq<ItemView> {
    items.map_values(|i: SortItem| i@)
}

/// The order of integers.
pub open spec fn int_order(a: int, b: int) -> Precedence {
    if a < b {
        Precedence::Before
    } else if a == b {
        Precedence::Same
    } else {
        Precedence::After
    }
}

/// The order of points in time.
pub open spec fn time_order(a: FileTime, b: FileTime) -> Precedence {
    if a.secs != b.secs {
        int_order(a.secs as int, b.secs as int)
    } else {
        int_order(a.nanos as int, b.nanos as int)
    }
}

/// The order of two items by name: where the system has an order of names of its own, by the places
/// that it gives them, and else in natural order. An item with a place comes before one without.
pub open spec fn name_order(a: ItemView, b: ItemView) -> Precedence {
    match (a.system_place, b.system_place) {
        (Some(x), Some(y)) => int_order(x as int, y as int),
        (Some(_), None) => Precedence::Before,
        (None, Some(_)) => Precedence::After,
        (None, None) => natural_order(a.name, b.name),
    }
}

/// The order of two items by a sort key, ascending.
pub open spec fn key_order(a: ItemView, b: ItemView, key: SortKey) -> Precedence {
    match key {
        SortKey::Name => name_order(a, b),
        SortKey::ModifiedDate => time_order(a.modified, b.modified),
    }
}

/// The order of two items under a rule: by date group first where the rule groups, then by key;
/// the other way round where the rule is descending.
pub open spec fn item_order(a: ItemView, b: ItemView, rule: SortRule) -> Precedence {
    let ascending = if rule.group_by is ModifiedDate && a.group != b.group {
        int_order(group_rank(a.group), group_rank(b.group))
    } else {
        key_order(a, b, rule.sort_key)
    };
    match rule.sort_order {
        SortOrder::Ascending => ascending,
        SortOrder::Descending => reversed(ascending),
    }
}

/// How the answer on `a` and `b` agrees with the places of `b` and `a` and of any third item.
spec fn key_agrees(a: ItemView, b: ItemView, key: SortKey) -> bool {
    let r = key_order(a, b, key);
    &&& key_order(b, a, key) == reversed(r)
    &&& r !is After ==> forall|c: ItemView|
        key_order(b, c, key) !is After ==> #[trigger] key_order(a, c, key) !is After
    &&& r is After ==> forall|c: ItemView|
        key_order(a, c, key) !is After ==> #[trigger] key_order(b, c, key) is Before
    &&& r !is Before ==> forall|c: ItemView|
        key_order(b, c, key) !is Before ==> #[trigger] key_order(a, c, key) !is Before
    &&& r is Before ==> forall|c: ItemView|
        key_order(a, c, key) !is Before ==> #[trigger] key_order(b, c, key) is After
}

/// How the answer on `a` and `b` under a rule agrees with the places of any third item.
pub open spec fn order_agrees(a: ItemView, b: ItemView, rule: SortRule) -> bool {
    let r = item_order(a, b, rule);
    &&& item_order(b, a, rule) == reversed(r)
    &&& r !is After ==> forall|c: ItemView|
        item_order(b, c, rule) !is After ==> #[trigger] item_order(a, c, rule) !is After
    &&& r is After ==> forall|c: ItemView|
        item_order(a, c, rule) !is After ==> #[trigger] item_order(b, c, rule) is Before
}

fn compare_keys(a: &SortItem, b: &SortItem, key: SortKey) -> (r: Precedence)
    ensures
        r == key_order(a@, b@, key),
        key_agrees(a@, b@, key),
{
    match key {
        SortKey::Name => match (a.system_place, b.system_place) {
            (Some(x), Some(y)) => if x < y {
                Precedence::Before
            } else if x == y {
                Precedence::Same
            } else {
                Precedence::After
            },
            (Some(_), None) => Precedence::Before,
            (None, Some(_)) => Precedence::After,
            (None, None) => compare_logical(a.name.as_str(), b.name.as_str()),
        },
        SortKey::ModifiedDate => {
            if a.modified.secs < b.modified.secs || (a.modified.secs == b.modified.secs
                && a.modified.nanos < b.modified.nanos) {
                Precedence::Before
            } else if a.modified.secs == b.modified.secs && a.modified.nanos == b.modified.nanos {
                Precedence::Same
            } else {
                Precedence::After
            }
        },
    }
}

fn rank_of_group(g: DateGroup) -> (r: u8)
    ensures
        r == group_rank(g),
{
    match g {
        DateGroup::Today => 0,
        DateGroup::LastWeek => 1,
        DateGroup::LastMonth => 2,
        DateGroup::ThisYear => 3,
        DateGroup::LongAgo => 4,
    }
}

proof fn lemma_rule_agrees(a: ItemView, b: ItemView, rule: SortRule)
    requires
        rule.group_by is ModifiedDate && a.group != b.group || key_agrees(a, b, rule.sort_key),
    ensures
        order_agrees(a, b, rule),
{
    let key = rule.sort_key;
    let r = item_order(a, b, rule);
    assert forall|c: ItemView| r !is After && item_order(b, c, rule) !is After implies #[trigger]
        item_order(a, c, rule) !is After by {
        let k = key_order(b, c, key);
        let l = key_order(a, c, key);
    }
    assert forall|c: ItemView| r is After && item_order(a, c, rule) !is After implies #[trigger]
        item_order(b, c, rule) is Before by {
        let k = key_order(b, c, key);
        let l = key_order(a, c, key);
    }
}

/// Compares two items under a rule.
pub fn compare_items(a: &SortItem, b: &SortItem, rule: SortRule) -> (r: Precedence)
    ensures
        r == item_order(a@, b@, rule),
        order_agrees(a@, b@, rule),
{
    let grouped = match rule.group_by {
        GroupBy::Off => false,
        GroupBy::ModifiedDate => true,
    };
    let (ga, gb): (u8, u8) = (rank_of_group(a.group), rank_of_group(b.group));
    let ascending = if grouped && ga != gb {
        if ga < gb {
            Precedence::Before
        } else {
            Precedence::After
        }
    } else {
        compare_keys(a, b, rule.sort_key)
    };
    proof {
        lemma_rule_agrees(a@, b@, rule);
    }
    match rule.sort_order {
        SortOrder::Ascending => ascending,
        SortOrder::Descending => match ascending {
            Precedence::Before => Precedence::After,
            Precedence::Same => Precedence::Same,
            Precedence::After => Precedence::Before,
        },
    }
}

/// Whether the item at `i` comes before the item at `j`: by the rule, and by position where the
/// rule tells them not apart.
pub open spec fn comes_before(items: Seq<ItemView>, i: int, j: int, rule: SortRule) -> bool {
    let r = item_order(items[i], items[j], rule);
    r is Before || (r is Same && i < j)
}

/// Whether `order` lists the positions `lo` to `hi` of `items`, each once, sorted by the rule,
/// with items that the rule tells not apart in the order of their positions.
pub open spec fn is_stable_order(
    order: Seq<int>,
    items: Seq<ItemView>,
    lo: int,
    hi: int,
    rule: SortRule,
) -> bool {
    &&& order.len() == hi - lo
    &&& forall|i: int| 0 <= i < order.len() ==> lo <= #[trigger] order[i] < hi
    &&& order.no_duplicates()
    &&& forall|i: int, j: int|
        0 <= i < j < order.len() ==> comes_before(items, #[trigger] order[i], #[trigger] order[j], rule)
}

/// A sequence of positions as integers.
pub open spec fn positions(v: Seq<usize>) -> Seq<int> {
    v.map_values(|i: usize| i as int)
}

/// Merges two sorted runs of positions, the second run after the first in the listing.
fn merge_runs(
    items: &Vec<SortItem>,
    left: &Vec<usize>,
    right: &Vec<usize>,
    rule: SortRule,
    Ghost(lo): Ghost<int>,
    Ghost(mid): Ghost<int>,
    Ghost(hi): Ghost<int>,
) -> (out: Vec<usize>)
    requires
        0 <= lo <= mid <= hi <= items@.len(),
        is_stable_order(positions(left@), item_views(items@), lo, mid, rule),
        is_stable_order(positions(right@), item_views(items@), mid, hi, rule),
    ensures
        is_stable_order(positions(out@), item_views(items@), lo, hi, rule),
{
    let ghost views = item_views(items@);
    let ghost ls = positions(left@);
    let ghost rs = positions(right@);
    let mut out: Vec<usize> = Vec::new();
    let mut i: usize = 0;
    let mut j: usize = 0;
    while i < left.len() || j < right.len()
        invariant
            0 <= lo <= mid <= hi <= items@.len(),
            views == item_views(items@),
            ls == positions(left@),
            rs == positions(right@),
            is_stable_order(ls, views, lo, mid, rule),
            is_stable_order(rs, views, mid, hi, rule),
            i <= left@.len(),
            j <= right@.len(),
            out@.len() == i + j,
            forall|k: int| 0 <= k < out@.len() ==> lo <= #[trigger] out@[k] < hi,
            out@.no_duplicates(),
            forall|k: int, m: int|
                0 <= k < m < out@.len() ==> comes_before(
                    views,
                    #[trigger] out@[k] as int,
                    #[trigger] out@[m] as int,
                    rule,
                ),
            forall|k: int, m: int|
                0 <= k < out@.len() && i <= m < ls.len() ==> comes_before(
                    views,
                    #[trigger] out@[k] as int,
                    #[trigger] ls[m],
                    rule,
                ) && out@[k] != ls[m],
            forall|k: int, m: int|
                0 <= k < out@.len() && j <= m < rs.len() ==> comes_before(
                    views,
                    #[trigger] out@[k] as int,
                    #[trigger] rs[m],
                    rule,
                ) && out@[k] != rs[m],
        decreases left.len() - i + right.len() - j,
    {
        let ghost before = out@;
        let take_left = if i < left.len() && j < right.len() {
            let (a, b): (usize, usize) = (left[i], right[j]);
            assert(ls[i as int] == a && rs[j as int] == b);
            let r = compare_items(&items[a], &items[b], rule);
            assert(views[a as int] == items@[a as int]@);
            assert(views[b as int] == items@[b as int]@);
            let first = match r {
                Precedence::After => false,
                _ => true,
            };
            proof {
                if first {
                    assert forall|m: int| j <= m < rs.len() implies comes_before(
                        views,
                        a as int,
                        #[trigger] rs[m],
                        rule,
                    ) by {
                        if m > j {
                            assert(comes_before(views, rs[j as int], rs[m], rule));
                            assert(item_order(views[b as int], views[rs[m]], rule) !is After);
                            assert(item_order(views[a as int], views[rs[m]], rule) !is After);
                        }
                    }
                } else {
                    assert forall|m: int| i <= m < ls.len() implies comes_before(
                        views,
                        b as int,
                        #[trigger] ls[m],
                        rule,
                    ) by {
                        if m > i {
                            assert(comes_before(views, ls[i as int], ls[m], rule));
                            assert(item_order(views[a as int], views[ls[m]], rule) !is After);
                            assert(item_order(views[b as int], views[ls[m]], rule) is Before);
                        }
                    }
                }
            }
            first
        } else {
            i < left.len()
        };
        if take_left {
            let a: usize = left[i];
            assert(ls[i as int] == a);
            out.push(a);
            proof {
                assert forall|m: int| i < m < ls.len() implies comes_before(
                    views,
                    a as int,
                    #[trigger] ls[m],
                    rule,
                ) && a != ls[m] by {
                    assert(comes_before(views, ls[i as int], ls[m], rule));
                }
                assert forall|m: int| j <= m < rs.len() implies comes_before(
                    views,
                    a as int,
                    #[trigger] rs[m],
                    rule,
                ) && a != rs[m] by {}
                assert forall|k: int| 0 <= k < before.len() implies before[k] != a by {
                    assert(before[k] != ls[i as int]);
                }
            }
            i += 1;
        } else {
            let b: usize = right[j];
            assert(rs[j as int] == b);
            out.push(b);
            proof {
                assert forall|m: int| j < m < rs.len() implies comes_before(
                    views,
                    b as int,
                    #[trigger] rs[m],
                    rule,
                ) && b != rs[m] by {
                    assert(comes_before(views, rs[j as int], rs[m], rule));
                }
                assert forall|m: int| i <= m < ls.len() implies comes_before(
                    views,
                    b as int,
                    #[trigger] ls[m],
                    rule,
                ) && b != ls[m] by {}
                assert forall|k: int| 0 <= k < before.len() implies before[k] != b by {
                    assert(before[k] != rs[j as int]);
                }
            }
            j += 1;
        }
    }
    assert(is_stable_order(positions(out@), views, lo, hi, rule)) by {
        let o = positions(out@);
        assert forall|k: int, m: int| 0 <= k < o.len() && 0 <= m < o.len() && k != m implies o[k]
            != o[m] by {
            assert(out@[k] != out@[m]);
        }
    }
    out
}

/// A stable order leaves no position out.
pub proof fn lemma_order_is_onto(order: Seq<int>, items: Seq<ItemView>, n: int, rule: SortRule)
    requires
        is_stable_order(order, items, 0, n, rule),
    ensures
        forall|m: int| 0 <= m < n ==> order.contains(m),
{
    let range = vstd::set_lib::set_int_range(0, n);
    vstd::set_lib::lemma_int_range(0, n);
    order.unique_seq_to_set();
    assert(order.to_set().subset_of(range));
    vstd::set_lib::lemma_subset_equality(order.to_set(), range);
    assert forall|m: int| 0 <= m < n implies order.contains(m) by {
        assert(range.contains(m));
        assert(order.to_set().contains(m));
    }
}

fn sort_range(items: &Vec<SortItem>, lo: usize, hi: usize, rule: SortRule) -> (out: Vec<usize>)
    requires
        lo <= hi <= items@.len(),
    ensures
        is_stable_order(positions(out@), item_views(items@), lo as int, hi as int, rule),
    decreases hi - lo,
{
    if hi - lo <= 1 {
        let mut out: Vec<usize> = Vec::new();
        if lo < hi {
            out.push(lo);
        }
        return out;
    }
    let mid: usize = lo + (hi - lo) / 2;
    let left = sort_range(items, lo, mid, rule);
    let right = sort_range(items, mid, hi, rule);
    merge_runs(items, &left, &right, rule, Ghost(lo as int), Ghost(mid as int), Ghost(hi as int))
}

/// The positions of the items, sorted by the rule; items that the rule tells not apart keep
/// their order.
pub fn stable_order(items: &Vec<SortItem>, rule: SortRule) -> (out: Vec<usize>)
    ensures
        is_stable_order(positions(out@), item_views(items@), 0, items@.len() as int, rule),
{
    sort_range(items, 0, items.len(), rule)
}

} // verus!
