//! The board: six ordered columns of items, and moving items between them.
use vstd::prelude::*;

use crate::item::{now, Category, Item, Status, Timestamp};
use crate::storage::{completion_after_move, loc_at, Location, Storage};

verus! {

broadcast use vstd::string::group_string_axioms;

/// The four active columns.
#[derive(Debug)]
pub struct ActiveColumns {
    pub yesterday: Vec<Item>,
    pub today: Vec<Item>,
    pub this_week: Vec<Item>,
    pub next_week: Vec<Item>,
}

/// The board: backlog, the active columns and done.
#[derive(Debug)]
pub struct Board {
    pub backlog: Vec<Item>,
    pub active: ActiveColumns,
    pub done: Vec<Item>,
}

/// What is saved of a board: for each column folder, the order of its items.
#[derive(Debug, Clone, PartialEq, Eq)]
pub struct BoardState {
    pub version: u32,
    pub order: Vec<(String, Vec<u128>)>,
    /// Days since 1 January of year 1 (common era) of the last active day.
    pub last_active_date: Option<i32>,
}

impl View for Board {
    /// The six columns, in column order.
    type V = Seq<Seq<Item>>;

    open spec fn view(&self) -> Seq<Seq<Item>> {
        seq![
            self.backlog@,
            self.active.yesterday@,
            self.active.today@,
            self.active.this_week@,
            self.active.next_week@,
            self.done@,
        ]
    }
}

/// Index of the first item with `id` in `items`, or -1.
pub open spec fn first_index(items: Seq<Item>, id: u128) -> int
    decreases items.len(),
{
    if items.len() == 0 {
        -1
    } else if items.last().id == id && first_index(items.drop_last(), id) < 0 {
        items.len() - 1
    } else {
        first_index(items.drop_last(), id)
    }
}

/// Index of the last item with `id` in `items`, or -1.
pub open spec fn last_index(items: Seq<Item>, id: u128) -> int
    decreases items.len(),
{
    if items.len() == 0 {
        -1
    } else if items.last().id == id {
        items.len() - 1
    } else {
        last_index(items.drop_last(), id)
    }
}

/// The first of the first `k` columns that holds `id`, in column order.
pub open spec fn locate_in(cols: Seq<Seq<Item>>, id: u128, k: int) -> Option<Location>
    decreases k,
{
    if k <= 0 {
        None
    } else {
        match locate_in(cols, id, k - 1) {
            Some(l) => Some(l),
            None => if first_index(cols[k - 1], id) >= 0 {
                Some(loc_at(k - 1))
            } else {
                None
            },
        }
    }
}

/// The column holding `id`, the first one in column order.
pub open spec fn location_of(cols: Seq<Seq<Item>>, id: u128) -> Option<Location> {
    locate_in(cols, id, 6)
}

/// Whether an item may move to `to`: it is on the board, it is not in the
/// backlog going to done, and it is not already there.
pub open spec fn can_move_to(cols: Seq<Seq<Item>>, id: u128, to: Location) -> bool {
    match location_of(cols, id) {
        None => false,
        Some(from) => !(from.status_of() == Status::Backlog && to.status_of() == Status::Done)
            && from != to,
    }
}

/// The identifiers of a column, in order.
pub open spec fn ids_of(items: Seq<Item>) -> Seq<u128> {
    items.map_values(|it: Item| it.id)
}

/// `m` is `item` moved from `from` to `to`: same identity, body and creation
/// time; the completion time follows `completion_after_move` with the update
/// time as the moment of the move.
pub open spec fn moved_copy(item: Item, m: Item, from: Location, to: Location) -> bool {
    &&& m.id == item.id
    &&& m.body == item.body
    &&& m.created_at == item.created_at
    &&& m.completed_at == completion_after_move(
        from.status_of(),
        to.status_of(),
        item.completed_at,
        m.updated_at,
    )
}

/// The items of a column placed in the order of `ids`: for each identifier,
/// the first time it is listed, the last item carrying it.
pub open spec fn placed(col: Seq<Item>, ids: Seq<u128>) -> Seq<Item>
    decreases ids.len(),
{
    if ids.len() == 0 {
        Seq::empty()
    } else {
        let p = placed(col, ids.drop_last());
        let id = ids.last();
        if last_index(col, id) >= 0 && !ids.drop_last().contains(id) {
            p.push(col[last_index(col, id)])
        } else {
            p
        }
    }
}

/// The items among the first `k` of a column that `ids` does not list, one per
/// identifier (the last carrying it), in column order.
pub open spec fn leftovers(col: Seq<Item>, ids: Seq<u128>, k: int) -> Seq<Item>
    decreases k,
{
    if k <= 0 {
        Seq::empty()
    } else {
        let l = leftovers(col, ids, k - 1);
        let it = col[k - 1];
        if last_index(col, it.id) == k - 1 && !ids.contains(it.id) {
            l.push(it)
        } else {
            l
        }
    }
}

/// A column reordered by `ids`: the listed items first, in listed order, then
/// the others in column order.
pub open spec fn reordered(col: Seq<Item>, ids: Seq<u128>) -> Seq<Item> {
    placed(col, ids) + leftovers(col, ids, col.len() as int)
}

proof fn lemma_first_index(items: Seq<Item>, id: u128)
    ensures
        -1 <= first_index(items, id) < items.len(),
        first_index(items, id) >= 0 ==> items[first_index(items, id)].id == id,
        first_index(items, id) < 0 ==> forall|i: int| 0 <= i < items.len() ==> items[i].id != id,
        first_index(items, id) >= 0 ==> forall|i: int|
            0 <= i < first_index(items, id) ==> items[i].id != id,
    decreases items.len(),
{
    if items.len() > 0 {
        let init = items.drop_last();
        lemma_first_index(init, id);
        assert(forall|i: int| 0 <= i < init.len() ==> init[i] == items[i]);
    }
}

proof fn lemma_last_index(items: Seq<Item>, id: u128)
    ensures
        -1 <= last_index(items, id) < items.len(),
        last_index(items, id) >= 0 ==> items[last_index(items, id)].id == id,
        last_index(items, id) < 0 ==> forall|i: int| 0 <= i < items.len() ==> items[i].id != id,
    decreases items.len(),
{
    if items.len() > 0 {
        let init = items.drop_last();
        lemma_last_index(init, id);
        assert(forall|i: int| 0 <= i < init.len() ==> init[i] == items[i]);
    }
}

/// Index of the first item with `id`.
fn position(items: &Vec<Item>, id: u128) -> (r: Option<usize>)
    ensures
        r is Some ==> r->0 < items@.len() && r->0 as int == first_index(items@, id),
        r is None ==> first_index(items@, id) == -1,
{
    let mut i: usize = 0;
    while i < items.len()
        invariant
            i <= items@.len(),
            forall|j: int| 0 <= j < i ==> items@[j].id != id,
        decreases items@.len() - i,
    {
        if items[i].id == id {
            proof {
                lemma_first_is(items@, id, i as int);
            }
            return Some(i);
        }
        i = i + 1;
    }
    proof {
        lemma_first_is(items@, id, -1);
    }
    None
}

/// `first_index` is the position of the first match.
proof fn lemma_first_is(items: Seq<Item>, id: u128, i: int)
    requires
        -1 <= i < items.len(),
        i >= 0 ==> items[i].id == id,
        forall|j: int| 0 <= j < (if i >= 0 { i } else { items.len() as int }) ==> items[j].id != id,
    ensures
        first_index(items, id) == i,
{
    lemma_first_index(items, id);
}

/// Index of the last item with `id`.
fn last_position(items: &Vec<Item>, id: u128) -> (r: Option<usize>)
    ensures
        r is Some ==> r->0 < items@.len() && r->0 as int == last_index(items@, id),
        r is None ==> last_index(items@, id) == -1,
{
    let mut k = items.len();
    assert(items@.take(k as int) =~= items@);
    while k > 0
        invariant
            k <= items@.len(),
            last_index(items@, id) == last_index(items@.take(k as int), id),
        decreases k,
    {
        assert(items@.take(k as int).drop_last() =~= items@.take(k as int - 1));
        if items[k - 1].id == id {
            return Some(k - 1);
        }
        k = k - 1;
    }
    None
}

/// Whether `v` holds `id`.
fn contains_id(v: &Vec<u128>, n: usize, id: u128) -> (r: bool)
    requires
        n <= v@.len(),
    ensures
        r == v@.take(n as int).contains(id),
{
    let mut i: usize = 0;
    while i < n
        invariant
            i <= n <= v@.len(),
            forall|j: int| 0 <= j < i ==> v@[j] != id,
        decreases n - i,
    {
        if v[i] == id {
            assert(v@.take(n as int)[i as int] == id);
            return true;
        }
        i = i + 1;
    }
    false
}

/// Removes and returns the first item with `id`.
fn remove_first(v: &mut Vec<Item>, id: u128) -> (r: Option<Item>)
    ensures
        first_index(old(v)@, id) < 0 ==> r is None && final(v)@ == old(v)@,
        first_index(old(v)@, id) >= 0 ==> r == Some(old(v)@[first_index(old(v)@, id)])
            && final(v)@ == old(v)@.remove(first_index(old(v)@, id)),
{
    match position(v, id) {
        Some(pos) => Some(v.remove(pos)),
        None => None,
    }
}

/// Clone of a column.
fn clone_items(v: &Vec<Item>) -> (r: Vec<Item>)
    ensures
        r@ == v@,
{
    let mut r: Vec<Item> = Vec::new();
    let mut i: usize = 0;
    while i < v.len()
        invariant
            i <= v@.len(),
            r@ == v@.take(i as int),
        decreases v@.len() - i,
    {
        r.push(v[i].clone());
        assert(v@.take(i as int + 1) =~= v@.take(i as int).push(v@[i as int]));
        i = i + 1;
    }
    assert(v@.take(i as int) =~= v@);
    r
}

/// The identifiers of a column.
fn column_ids(v: &Vec<Item>) -> (r: Vec<u128>)
    ensures
        r@ == ids_of(v@),
{
    let mut r: Vec<u128> = Vec::new();
    let mut i: usize = 0;
    while i < v.len()
        invariant
            i <= v@.len(),
            r@ == ids_of(v@.take(i as int)),
        decreases v@.len() - i,
    {
        r.push(v[i].id);
        assert(ids_of(v@.take(i as int + 1)) =~= ids_of(v@.take(i as int)).push(v@[i as int].id));
        i = i + 1;
    }
    assert(v@.take(i as int) =~= v@);
    r
}

/// The column reordered by `ids`.
fn reorder_column(col: &Vec<Item>, ids: &Vec<u128>) -> (r: Vec<Item>)
    ensures
        r@ == reordered(col@, ids@),
{
    let mut out: Vec<Item> = Vec::new();
    let mut j: usize = 0;
    while j < ids.len()
        invariant
            j <= ids@.len(),
            out@ == placed(col@, ids@.take(j as int)),
        decreases ids@.len() - j,
    {
        let id = ids[j];
        let ghost pre = ids@.take(j as int + 1);
        assert(pre.drop_last() =~= ids@.take(j as int));
        assert(pre.last() == id);
        if !contains_id(ids, j, id) {
            match last_position(col, id) {
                Some(p) => {
                    out.push(col[p].clone());
                },
                None => {},
            }
        }
        j = j + 1;
    }
    assert(ids@.take(j as int) =~= ids@);
    let ghost placed_part = out@;
    let mut k: usize = 0;
    while k < col.len()
        invariant
            k <= col@.len(),
            out@ == placed_part + leftovers(col@, ids@, k as int),
        decreases col@.len() - k,
    {
        let id = col[k].id;
        let last = last_position(col, id);
        let keep = match last {
            Some(p) => p == k,
            None => false,
        };
        proof {
            assert(ids@.take(ids@.len() as int) =~= ids@);
        }
        if keep && !contains_id(ids, ids.len(), id) {
            out.push(col[k].clone());
        }
        proof {
            lemma_last_index(col@, id);
        }
        k = k + 1;
    }
    out
}

impl Clone for ActiveColumns {
    fn clone(&self) -> (r: Self)
        ensures
            r.yesterday@ == self.yesterday@,
            r.today@ == self.today@,
            r.this_week@ == self.this_week@,
            r.next_week@ == self.next_week@,
    {
        ActiveColumns {
            yesterday: clone_items(&self.yesterday),
            today: clone_items(&self.today),
            this_week: clone_items(&self.this_week),
            next_week: clone_items(&self.next_week),
        }
    }
}

impl Clone for Board {
    fn clone(&self) -> (r: Self)
        ensures
            r@ == self@,
    {
        Board {
            backlog: clone_items(&self.backlog),
            active: self.active.clone(),
            done: clone_items(&self.done),
        }
    }
}

impl Default for ActiveColumns {
    fn default() -> (r: Self)
        ensures
            r.yesterday@.len() == 0 && r.today@.len() == 0 && r.this_week@.len() == 0
                && r.next_week@.len() == 0,
    {
        ActiveColumns {
            yesterday: Vec::new(),
            today: Vec::new(),
            this_week: Vec::new(),
            next_week: Vec::new(),
        }
    }
}

impl Default for Board {
    fn default() -> (r: Self)
        ensures
            forall|i: int| 0 <= i < 6 ==> (#[trigger] r@[i]).len() == 0,
    {
        Board { backlog: Vec::new(), active: ActiveColumns::default(), done: Vec::new() }
    }
}

impl Board {
    /// Reorders a column: the items listed in `ordered_ids` first, in that
    /// order, then the others in their column order.
    pub fn set_column_order(&mut self, location: &Location, ordered_ids: Vec<u128>)
        ensures
            final(self)@ == old(self)@.update(
                location.index(),
                reordered(old(self)@[location.index()], ordered_ids@),
            ),
    {
        match location {
            Location::Backlog => {
                self.backlog = reorder_column(&self.backlog, &ordered_ids);
            },
            Location::Active(Category::Yesterday) => {
                self.active.yesterday = reorder_column(&self.active.yesterday, &ordered_ids);
            },
            Location::Active(Category::Today) => {
                self.active.today = reorder_column(&self.active.today, &ordered_ids);
            },
            Location::Active(Category::ThisWeek) => {
                self.active.this_week = reorder_column(&self.active.this_week, &ordered_ids);
            },
            Location::Active(Category::NextWeek) => {
                self.active.next_week = reorder_column(&self.active.next_week, &ordered_ids);
            },
            Location::Done => {
                self.done = reorder_column(&self.done, &ordered_ids);
            },
        }
        proof {
            assert(final(self)@ =~= old(self)@.update(
                location.index(),
                reordered(old(self)@[location.index()], ordered_ids@),
            ));
        }
    }

    /// The order of every column, keyed by its folder.
    pub fn to_board_state(&self) -> (r: BoardState)
        ensures
            r.version == 1,
            r.last_active_date is None,
            r.order@.len() == 6,
            forall|i: int|
                0 <= i < 6 ==> (#[trigger] r.order@[i]).0@ == loc_at(i).path_of() && r.order@[i].1@
                    == ids_of(self@[i]),
    {
        let mut order: Vec<(String, Vec<u128>)> = Vec::new();
        order.push((Location::Backlog.to_path().to_owned(), column_ids(&self.backlog)));
        order.push(
            (
                Location::Active(Category::Yesterday).to_path().to_owned(),
                column_ids(&self.active.yesterday),
            ),
        );
        order.push(
            (
                Location::Active(Category::Today).to_path().to_owned(),
                column_ids(&self.active.today),
            ),
        );
        order.push(
            (
                Location::Active(Category::ThisWeek).to_path().to_owned(),
                column_ids(&self.active.this_week),
            ),
        );
        order.push(
            (
                Location::Active(Category::NextWeek).to_path().to_owned(),
                column_ids(&self.active.next_week),
            ),
        );
        order.push((Location::Done.to_path().to_owned(), column_ids(&self.done)));
        BoardState { version: 1, order, last_active_date: None }
    }

    /// The column of a location.
    fn column(&self, location: &Location) -> (r: &Vec<Item>)
        ensures
            r@ == self@[location.index()],
    {
        match location {
            Location::Backlog => &self.backlog,
            Location::Active(Category::Yesterday) => &self.active.yesterday,
            Location::Active(Category::Today) => &self.active.today,
            Location::Active(Category::ThisWeek) => &self.active.this_week,
            Location::Active(Category::NextWeek) => &self.active.next_week,
            Location::Done => &self.done,
        }
    }

    /// The column of a location, for changing it.
    fn column_mut(&mut self, location: &Location) -> (r: &mut Vec<Item>)
        ensures
            r@ == old(self)@[location.index()],
            final(self)@ == old(self)@.update(location.index(), final(r)@),
    {
        match location {
            Location::Backlog => &mut self.backlog,
            Location::Active(Category::Yesterday) => &mut self.active.yesterday,
            Location::Active(Category::Today) => &mut self.active.today,
            Location::Active(Category::ThisWeek) => &mut self.active.this_week,
            Location::Active(Category::NextWeek) => &mut self.active.next_week,
            Location::Done => &mut self.done,
        }
    }

    /// The first item with `id`, in column order, for changing it in place.
    pub fn find_item_mut(&mut self, id: &u128) -> (r: Option<&mut Item>)
        ensures
            match location_of(old(self)@, *id) {
                Some(l) => {
                    let col = old(self)@[l.index()];
                    let i = first_index(col, *id);
                    r matches Some(x) && *x == col[i] && final(self)@ == old(self)@.update(
                        l.index(),
                        col.update(i, *final(x)),
                    )
                },
                None => r is None && final(self)@ == old(self)@,
            },
    {
        match self.find_item_location(id) {
            None => None,
            Some(loc) => {
                let col = self.column_mut(&loc);
                match position(col, *id) {
                    Some(i) => Some(&mut col[i]),
                    None => None,
                }
            },
        }
    }

    /// The first item with `id`, in column order.
    pub fn find_item(&self, id: &u128) -> (r: Option<&Item>)
        ensures
            match location_of(self@, *id) {
                Some(l) => r == Some(&self@[l.index()][first_index(self@[l.index()], *id)]),
                None => r is None,
            },
    {
        match self.find_item_location(id) {
            Some(loc) => {
                let col = self.column(&loc);
                match position(col, *id) {
                    Some(p) => Some(&col[p]),
                    None => None,
                }
            },
            None => None,
        }
    }

    /// The first column holding `id`, in column order.
    pub fn find_item_location(&self, id: &u128) -> (r: Option<Location>)
        ensures
            r == location_of(self@, *id),
            r matches Some(l) ==> first_index(self@[l.index()], *id) >= 0,
    {
        let mut k: usize = 0;
        while k < 6
            invariant
                k <= 6,
                locate_in(self@, *id, k as int) is None,
            decreases 6 - k,
        {
            let loc = if k == 0 {
                Location::Backlog
            } else if k == 1 {
                Location::Active(Category::Yesterday)
            } else if k == 2 {
                Location::Active(Category::Today)
            } else if k == 3 {
                Location::Active(Category::ThisWeek)
            } else if k == 4 {
                Location::Active(Category::NextWeek)
            } else {
                Location::Done
            };
            assert(loc == loc_at(k as int) && loc.index() == k);
            if position(self.column(&loc), *id).is_some() {
                proof {
                    lemma_locate_stable(self@, *id, k as int + 1, 6);
                }
                return Some(loc);
            }
            k = k + 1;
        }
        proof {
            lemma_locate_monotone(self@, *id, 6);
        }
        None
    }

    /// Whether the item may move to `to`.
    pub fn can_move(&self, id: &u128, to: &Location) -> (r: bool)
        ensures
            r == can_move_to(self@, *id, *to),
    {
        let from = match self.find_item_location(id) {
            Some(l) => l,
            None => {
                return false;
            },
        };
        if from.status() == Status::Backlog && to.status() == Status::Done {
            return false;
        }
        if from == *to {
            return false;
        }
        true
    }

    /// Moves the item to `to`, updating its time stamps; returns where it came
    /// from and went, or `None` (and changes nothing) when it may not move.
    pub fn move_item(&mut self, id: &u128, to: &Location) -> (r: Option<(Location, Location)>)
        ensures
            !can_move_to(old(self)@, *id, *to) ==> r is None && final(self)@ == old(self)@,
            can_move_to(old(self)@, *id, *to) ==> {
                let from = location_of(old(self)@, *id)->0;
                let col = old(self)@[from.index()];
                let i = first_index(col, *id);
                let dest = old(self)@[to.index()];
                let m = final(self)@[to.index()].last();
                &&& r == Some((from, *to))
                &&& final(self)@ == old(self)@.update(from.index(), col.remove(i)).update(
                    to.index(),
                    dest.push(m),
                )
                &&& moved_copy(col[i], m, from, *to)
            },
    {
        if !self.can_move(id, to) {
            return None;
        }
        let from = match self.find_item_location(id) {
            Some(l) => l,
            None => {
                return None;
            },
        };
        let t = now();
        let removed = self.remove_item(id, &from);
        match removed {
            Some(mut item) => {
                item.updated_at = t;
                item.completed_at = Storage::completed_at_after_move(&from, to, item.completed_at, t);
                self.insert_item(item, to);
                Some((from, *to))
            },
            None => None,
        }
    }

    /// Removes and returns the first item with `id` from a column.
    pub fn remove_item(&mut self, id: &u128, location: &Location) -> (r: Option<Item>)
        ensures
            ({
                let col = old(self)@[location.index()];
                let i = first_index(col, *id);
                &&& i < 0 ==> r is None && final(self)@ == old(self)@
                &&& i >= 0 ==> r == Some(col[i]) && final(self)@ == old(self)@.update(
                    location.index(),
                    col.remove(i),
                )
            }),
    {
        let r = match location {
            Location::Backlog => remove_first(&mut self.backlog, *id),
            Location::Active(Category::Yesterday) => remove_first(&mut self.active.yesterday, *id),
            Location::Active(Category::Today) => remove_first(&mut self.active.today, *id),
            Location::Active(Category::ThisWeek) => remove_first(&mut self.active.this_week, *id),
            Location::Active(Category::NextWeek) => remove_first(&mut self.active.next_week, *id),
            Location::Done => remove_first(&mut self.done, *id),
        };
        proof {
            let col = old(self)@[location.index()];
            let i = first_index(col, *id);
            if i >= 0 {
                assert(final(self)@ =~= old(self)@.update(location.index(), col.remove(i)));
            } else {
                assert(final(self)@ =~= old(self)@);
            }
        }
        r
    }

    /// Appends an item to a column.
    pub fn insert_item(&mut self, item: Item, location: &Location)
        ensures
            final(self)@ == old(self)@.update(
                location.index(),
                old(self)@[location.index()].push(item),
            ),
    {
        let ghost it = item;
        match location {
            Location::Backlog => self.backlog.push(item),
            Location::Active(Category::Yesterday) => self.active.yesterday.push(item),
            Location::Active(Category::Today) => self.active.today.push(item),
            Location::Active(Category::ThisWeek) => self.active.this_week.push(item),
            Location::Active(Category::NextWeek) => self.active.next_week.push(item),
            Location::Done => self.done.push(item),
        }
        proof {
            assert(final(self)@ =~= old(self)@.update(
                location.index(),
                old(self)@[location.index()].push(it),
            ));
        }
    }
}

/// Once found, the location stays the same for more columns.
proof fn lemma_locate_stable(cols: Seq<Seq<Item>>, id: u128, j: int, k: int)
    requires
        0 <= j <= k,
        locate_in(cols, id, j) is Some,
    ensures
        locate_in(cols, id, k) == locate_in(cols, id, j),
    decreases k - j,
{
    if k > j {
        lemma_locate_stable(cols, id, j, k - 1);
    }
}

/// Once a column holds the item, the search stops there.
proof fn lemma_locate_monotone(cols: Seq<Seq<Item>>, id: u128, k: int)
    requires
        0 <= k <= 6,
    ensures
        locate_in(cols, id, k) matches Some(l) ==> 0 <= l.index() < k && first_index(
            cols[l.index()],
            id,
        ) >= 0 && l == loc_at(l.index()),
    decreases k,
{
    if k > 0 {
        lemma_locate_monotone(cols, id, k - 1);
    }
}

/// No identifier occurs twice on the board.
pub open spec fn unique_ids(cols: Seq<Seq<Item>>) -> bool {
    forall|c1: int, i1: int, c2: int, i2: int|
        0 <= c1 < cols.len() && 0 <= c2 < cols.len() && 0 <= i1 < cols[c1].len() && 0 <= i2
            < cols[c2].len() && (c1 != c2 || i1 != i2) ==> #[trigger] cols[c1][i1].id
            != #[trigger] cols[c2][i2].id
}

/// The number of items on the board.
pub open spec fn item_count(cols: Seq<Seq<Item>>) -> nat {
    cols[0].len() + cols[1].len() + cols[2].len() + cols[3].len() + cols[4].len() + cols[5].len()
}

/// The board after `move_item(id, to)` moved the item, `m` being the item as
/// it arrives (same identifier, new time stamps).
pub open spec fn moved_board(cols: Seq<Seq<Item>>, id: u128, to: Location, m: Item) -> Seq<
    Seq<Item>,
> {
    let from = location_of(cols, id)->0;
    let col = cols[from.index()];
    cols.update(from.index(), col.remove(first_index(col, id))).update(
        to.index(),
        cols[to.index()].push(m),
    )
}

/// When no column below `k` holds `id`, the search finds nothing; when
/// column `c` is the only one that does, the search finds it.
proof fn lemma_locate_only(cols: Seq<Seq<Item>>, id: u128, c: int, k: int)
    requires
        0 <= k <= 6,
        0 <= c < 6,
        forall|d: int| 0 <= d < k && d != c ==> first_index(#[trigger] cols[d], id) < 0,
    ensures
        c < k && first_index(cols[c], id) >= 0 ==> locate_in(cols, id, k) == Some(loc_at(c)),
        (c >= k || first_index(cols[c], id) < 0) ==> locate_in(cols, id, k) is None,
    decreases k,
{
    if k > 0 {
        lemma_locate_only(cols, id, c, k - 1);
    }
}

/// A location is the one at its own index.
proof fn lemma_loc_index(l: Location)
    ensures
        0 <= l.index() < 6,
        loc_at(l.index()) == l,
{
}

/// The item that `move_item` places in the destination column is completed
/// at the time of the move when it enters Done, has no completion time when it
/// leaves Done for another column, and otherwise keeps its completion time.
pub proof fn law_moved_item_completion(item: Item, m: Item, from: Location, to: Location)
    requires
        moved_copy(item, m, from, to),
    ensures
        to.status_of() == Status::Done ==> m.completed_at == Some(m.updated_at),
        from.status_of() == Status::Done && to.status_of() != Status::Done ==> m.completed_at is None,
        from.status_of() != Status::Done && to.status_of() != Status::Done ==> m.completed_at
            == item.completed_at,
{
}

/// Moving an item keeps every identifier on the board once, keeps the
/// number of items, and leaves the item at the end of its destination
/// column, where the board then finds it.
pub proof fn law_move_keeps_board(cols: Seq<Seq<Item>>, id: u128, to: Location, m: Item)
    requires
        cols.len() == 6,
        unique_ids(cols),
        can_move_to(cols, id, to),
        m.id == id,
    ensures
        ({
            let after = moved_board(cols, id, to, m);
            &&& unique_ids(after)
            &&& item_count(after) == item_count(cols)
            &&& after[to.index()].last() == m
            &&& location_of(after, id) == Some(to)
        }),
{
    let from = location_of(cols, id)->0;
    lemma_locate_monotone(cols, id, 6);
    lemma_loc_index(from);
    lemma_loc_index(to);
    let f = from.index();
    let t = to.index();
    let col = cols[f];
    let i = first_index(col, id);
    lemma_first_index(col, id);
    let after = moved_board(cols, id, to, m);
    assert(f != t) by {
        if f == t {
            assert(from == to);
        }
    }
    let dest = cols[t];
    assert(after[f] == col.remove(i));
    assert(after[t] == dest.push(m));
    assert forall|d: int| 0 <= d < 6 && d != f && d != t implies after[d] == cols[d] by {}
    // Where each item of the new board came from.
    assert forall|c1: int, i1: int, c2: int, i2: int|
        0 <= c1 < after.len() && 0 <= c2 < after.len() && 0 <= i1 < after[c1].len() && 0 <= i2
            < after[c2].len() && (c1 != c2 || i1 != i2) implies #[trigger] after[c1][i1].id
        != #[trigger] after[c2][i2].id by {
        let o1 = if c1 == f && i1 >= i {
            i1 + 1
        } else {
            i1
        };
        let o2 = if c2 == f && i2 >= i {
            i2 + 1
        } else {
            i2
        };
        let new1 = c1 == t && i1 == dest.len();
        let new2 = c2 == t && i2 == dest.len();
        if !new1 {
            assert(after[c1][i1] == cols[c1][o1]);
        } else {
            assert(after[c1][i1] == m);
        }
        if !new2 {
            assert(after[c2][i2] == cols[c2][o2]);
        } else {
            assert(after[c2][i2] == m);
        }
        if new1 && !new2 {
            assert(cols[f][i].id == id);
            assert(c2 != f || o2 != i);
        } else if new2 && !new1 {
            assert(cols[f][i].id == id);
            assert(c1 != f || o1 != i);
        } else if !new1 && !new2 {
            assert(c1 != c2 || o1 != o2);
        }
    }
    // Only the destination column holds the item now.
    assert forall|d: int| 0 <= d < 6 && d != t implies first_index(#[trigger] after[d], id) < 0 by {
        lemma_first_index(after[d], id);
        if first_index(after[d], id) >= 0 {
            let j = first_index(after[d], id);
            if d == f {
                let o = if j >= i {
                    j + 1
                } else {
                    j
                };
                assert(after[d][j] == cols[f][o]);
                assert(cols[f][i].id == id);
            } else {
                assert(after[d][j] == cols[d][j]);
                assert(cols[f][i].id == id);
            }
        }
    }
    lemma_first_index(after[t], id);
    assert(after[t][dest.len() as int].id == id);
    lemma_locate_only(after, id, t, 6);
}

proof fn lemma_placed_ids(col: Seq<Item>, ids: Seq<u128>)
    requires
        ids.no_duplicates(),
        forall|j: int| 0 <= j < ids.len() ==> ids_of(col).contains(#[trigger] ids[j]),
    ensures
        ids_of(placed(col, ids)) == ids,
    decreases ids.len(),
{
    if ids.len() > 0 {
        let init = ids.drop_last();
        assert(init.no_duplicates());
        assert forall|j: int| 0 <= j < init.len() implies ids_of(col).contains(#[trigger] init[j]) by {
            assert(init[j] == ids[j]);
        }
        lemma_placed_ids(col, init);
        let id = ids.last();
        assert(ids_of(col).contains(ids[ids.len() - 1]));
        let k = choose|k: int| 0 <= k < ids_of(col).len() && ids_of(col)[k] == id;
        assert(col[k].id == id);
        lemma_last_index(col, id);
        assert(!init.contains(id)) by {
            if init.contains(id) {
                let j = choose|j: int| 0 <= j < init.len() && init[j] == id;
                assert(ids[j] == ids[ids.len() - 1]);
            }
        }
        assert(ids_of(placed(col, ids)) =~= ids_of(placed(col, init)).push(id));
        assert(init.push(id) =~= ids);
    }
}

proof fn lemma_no_leftovers(col: Seq<Item>, ids: Seq<u128>, k: int)
    requires
        0 <= k <= col.len(),
        forall|q: int| 0 <= q < col.len() ==> ids.contains(#[trigger] col[q].id),
    ensures
        leftovers(col, ids, k) == Seq::<Item>::empty(),
    decreases k,
{
    if k > 0 {
        lemma_no_leftovers(col, ids, k - 1);
        assert(ids.contains(col[k - 1].id));
    }
}

/// Reordering a column by a list that names each of its items exactly once
/// gives the column in that order: what `set_column_order` stores,
/// `to_board_state` reads back unchanged.
pub proof fn law_order_round_trip(col: Seq<Item>, ids: Seq<u128>)
    requires
        ids.no_duplicates(),
        forall|j: int| 0 <= j < ids.len() ==> ids_of(col).contains(#[trigger] ids[j]),
        forall|q: int| 0 <= q < col.len() ==> ids.contains(#[trigger] col[q].id),
    ensures
        ids_of(reordered(col, ids)) == ids,
{
    lemma_placed_ids(col, ids);
    lemma_no_leftovers(col, ids, col.len() as int);
    assert(reordered(col, ids) =~= placed(col, ids));
}

} // verus!
