//! Change notifications: what a renderer has to redraw since it last drew.
//!
//! A notification says that nothing changed, that everything did, or lists
//! up to sixteen cells with their new state. Notifications are merged into
//! one until the renderer takes it.
use vstd::prelude::*;
use crate::piece::{distinct, Cell, Coordination, TetrominoBlocks};
use crate::trusted::{entries_as_slice, entries_new, entries_of, entries_push, entries_set};

verus! {

/// The most cells that a notification lists before it asks for a full redraw.
pub const CAPACITY: usize = 16;

/// What the renderer has to redraw.
#[derive(Debug, PartialEq)]
pub enum BoardUpdate {
    /// Everything.
    Full,
    /// The listed cells, each with its new state.
    Partial(heapless::Vec<(Coordination, Cell), 16>),
    /// Nothing.
    Nothing,
}

/// A notification as the contracts see it: the list is a sequence.
pub enum UpdateView {
    Full,
    Partial(Seq<(Coordination, Cell)>),
    Nothing,
}

impl View for BoardUpdate {
    type V = UpdateView;

    open spec fn view(&self) -> UpdateView {
        match self {
            BoardUpdate::Full => UpdateView::Full,
            BoardUpdate::Partial(list) => UpdateView::Partial(entries_of(*list)),
            BoardUpdate::Nothing => UpdateView::Nothing,
        }
    }
}

/// Whether `entries` lists the cell at `place`.
pub open spec fn lists(entries: Seq<(Coordination, Cell)>, place: Coordination) -> bool {
    exists|i: int| 0 <= i < entries.len() && (#[trigger] entries[i]).0 == place
}

/// Whether `i` is the first index at which `entries` lists the cell at `place`.
pub open spec fn first_slot(
    entries: Seq<(Coordination, Cell)>,
    place: Coordination,
    i: int,
) -> bool {
    &&& 0 <= i < entries.len()
    &&& entries[i].0 == place
    &&& forall|k: int| 0 <= k < i ==> (#[trigger] entries[k]).0 != place
}

/// The first index at which `entries` lists the cell at `place`.
pub open spec fn slot_of(entries: Seq<(Coordination, Cell)>, place: Coordination) -> int {
    choose|i: int| first_slot(entries, place, i)
}

/// No cell is listed twice.
pub open spec fn each_place_once(entries: Seq<(Coordination, Cell)>) -> bool {
    forall|i: int, j: int|
        0 <= i < j < entries.len() ==> (#[trigger] entries[i]).0 != (#[trigger] entries[j]).0
}

/// `entries` after one more change: the change replaces the one listed for the
/// same cell, or is appended while fewer than `cap` cells are listed. Where
/// neither can be, the list overflows.
pub open spec fn absorbed_one(
    entries: Seq<(Coordination, Cell)>,
    change: (Coordination, Cell),
    cap: nat,
) -> Option<Seq<(Coordination, Cell)>> {
    if lists(entries, change.0) {
        Some(entries.update(slot_of(entries, change.0), change))
    } else if entries.len() < cap {
        Some(entries.push(change))
    } else {
        None
    }
}

/// `entries` after the changes of `more`, taken in their order; `None` where
/// the list overflows on the way.
pub open spec fn absorbed(
    entries: Seq<(Coordination, Cell)>,
    more: Seq<(Coordination, Cell)>,
    cap: nat,
) -> Option<Seq<(Coordination, Cell)>>
    decreases more.len(),
{
    if more.len() == 0 {
        Some(entries)
    } else {
        match absorbed(entries, more.drop_last(), cap) {
            Some(so_far) => absorbed_one(so_far, more.last(), cap),
            None => None,
        }
    }
}

/// The notification that stands for `first` followed by `second`, where a
/// list holds at most `cap` cells.
pub open spec fn merged(first: UpdateView, second: UpdateView, cap: nat) -> UpdateView {
    match first {
        UpdateView::Nothing => second,
        UpdateView::Full => UpdateView::Full,
        UpdateView::Partial(entries) => match second {
            UpdateView::Nothing => first,
            UpdateView::Full => UpdateView::Full,
            UpdateView::Partial(more) => match absorbed(entries, more, cap) {
                Some(all) => UpdateView::Partial(all),
                None => UpdateView::Full,
            },
        },
    }
}

/// Marks with `state` each block that `others` does not hold.
pub open spec fn unless_in(others: Seq<Coordination>, state: Cell) -> spec_fn(
    Coordination,
) -> Option<(Coordination, Cell)> {
    |block: Coordination|
        if others.contains(block) {
            None
        } else {
            Some((block, state))
        }
}

/// The cells that change when a piece moves from `previous` to `current`:
/// first those it leaves, now empty, then those it enters, now occupied.
pub open spec fn moved(previous: Seq<Coordination>, current: Seq<Coordination>) -> Seq<
    (Coordination, Cell),
> {
    previous.filter_map(unless_in(current, Cell::Empty)) + current.filter_map(
        unless_in(previous, Cell::Occured),
    )
}

fn holds_block(blocks: &TetrominoBlocks, block: Coordination) -> (found: bool)
    ensures
        found == blocks@.contains(block),
{
    let mut i: usize = 0;
    while i < 4
        invariant
            i <= 4,
            forall|k: int| 0 <= k < i ==> blocks@[k] != block,
        decreases 4 - i,
    {
        if blocks[i] == block {
            return true;
        }
        i += 1;
    }
    false
}

impl Default for BoardUpdate {
    fn default() -> (update: Self)
        ensures
            update@ == UpdateView::Nothing,
    {
        BoardUpdate::Nothing
    }
}

impl BoardUpdate {
    /// A listed notification holds at most sixteen cells, each once.
    pub open spec fn wf(&self) -> bool {
        self@ matches UpdateView::Partial(entries) ==> entries.len() <= CAPACITY && each_place_once(
            entries,
        )
    }

    /// The notification for a piece that moved from `previous_blocks` to
    /// `current_blocks`.
    pub fn get_partial_update(
        previous_blocks: TetrominoBlocks,
        current_blocks: TetrominoBlocks,
    ) -> (update: Self)
        ensures
            update@ == UpdateView::Partial(moved(previous_blocks@, current_blocks@)),
            distinct(previous_blocks@) && distinct(current_blocks@) ==> update.wf(),
    {
        proof {
            if distinct(previous_blocks@) && distinct(current_blocks@) {
                lemma_moved_lists_each_place_once(previous_blocks@, current_blocks@);
            }
        }
        let mut list = entries_new();
        let ghost leave = unless_in(current_blocks@, Cell::Empty);
        let ghost enter = unless_in(previous_blocks@, Cell::Occured);
        let mut i: usize = 0;
        proof {
            assert(previous_blocks@.take(0) =~= Seq::<Coordination>::empty());
        }
        while i < 4
            invariant
                i <= 4,
                leave == unless_in(current_blocks@, Cell::Empty),
                entries_of(list) == previous_blocks@.take(i as int).filter_map(leave),
                entries_of(list).len() <= i,
            decreases 4 - i,
        {
            let block = previous_blocks[i];
            proof {
                assert(previous_blocks@.take(i + 1).drop_last() =~= previous_blocks@.take(
                    i as int,
                ));
                assert(previous_blocks@.take(i + 1).last() == block);
            }
            if !holds_block(&current_blocks, block) {
                let pushed = entries_push(&mut list, (block, Cell::Empty));
                assert(pushed is Ok);
                proof {
                    let so_far = previous_blocks@.take(i as int).filter_map(leave);
                    let mark = (block, Cell::Empty);
                    assert(so_far.push(mark) =~= so_far + seq![mark]);
                }
            }
            i += 1;
        }
        let ghost left = entries_of(list);
        let mut j: usize = 0;
        proof {
            assert(previous_blocks@.take(4) =~= previous_blocks@);
            assert(current_blocks@.take(0) =~= Seq::<Coordination>::empty());
            assert(left + Seq::<(Coordination, Cell)>::empty() =~= left);
        }
        while j < 4
            invariant
                j <= 4,
                enter == unless_in(previous_blocks@, Cell::Occured),
                left == previous_blocks@.filter_map(unless_in(current_blocks@, Cell::Empty)),
                left.len() <= 4,
                entries_of(list) == left + current_blocks@.take(j as int).filter_map(enter),
                entries_of(list).len() <= 4 + j,
            decreases 4 - j,
        {
            let block = current_blocks[j];
            proof {
                assert(current_blocks@.take(j + 1).drop_last() =~= current_blocks@.take(j as int));
                assert(current_blocks@.take(j + 1).last() == block);
            }
            if !holds_block(&previous_blocks, block) {
                let pushed = entries_push(&mut list, (block, Cell::Occured));
                assert(pushed is Ok);
                proof {
                    let so_far = current_blocks@.take(j as int).filter_map(enter);
                    let mark = (block, Cell::Occured);
                    assert((left + so_far).push(mark) =~= left + (so_far + seq![mark]));
                }
            }
            j += 1;
        }
        proof {
            assert(current_blocks@.take(4) =~= current_blocks@);
        }
        BoardUpdate::Partial(list)
    }

    /// Takes `other`, the later notification, into this one.
    pub fn merge(&mut self, other: Self)
        ensures
            final(self)@ == merged(old(self)@, other@, CAPACITY as nat),
            old(self).wf() && other.wf() ==> final(self).wf(),
    {
        proof {
            if old(self).wf() && other.wf() {
                if let UpdateView::Partial(first) = old(self)@ {
                    if let UpdateView::Partial(second) = other@ {
                        lemma_merge_of_lists(first, second, CAPACITY as nat);
                    }
                }
            }
        }
        let mut mine = BoardUpdate::Nothing;
        core::mem::swap(self, &mut mine);
        let result = match mine {
            BoardUpdate::Nothing => other,
            BoardUpdate::Full => BoardUpdate::Full,
            BoardUpdate::Partial(list) => match other {
                BoardUpdate::Nothing => BoardUpdate::Partial(list),
                BoardUpdate::Full => BoardUpdate::Full,
                BoardUpdate::Partial(more) => match absorb(list, &more) {
                    Some(all) => BoardUpdate::Partial(all),
                    None => BoardUpdate::Full,
                },
            },
        };
        *self = result;
    }
}

/// Finds the first index at which `list` holds a change for the cell at `place`.
fn find_slot(list: &heapless::Vec<(Coordination, Cell), 16>, place: Coordination) -> (found: Option<
    usize,
>)
    ensures
        found is Some <==> lists(entries_of(*list), place),
        found matches Some(i) ==> i == slot_of(entries_of(*list), place) && first_slot(
            entries_of(*list),
            place,
            i as int,
        ),
{
    let items = entries_as_slice(list);
    let mut i: usize = 0;
    while i < items.len()
        invariant
            i <= items.len(),
            items@ == entries_of(*list),
            forall|k: int| 0 <= k < i ==> (#[trigger] items@[k]).0 != place,
        decreases items.len() - i,
    {
        if items[i].0 == place {
            proof {
                assert(first_slot(items@, place, i as int));
                let chosen = slot_of(items@, place);
                assert(first_slot(items@, place, chosen));
            }
            return Some(i);
        }
        i += 1;
    }
    None
}

/// Takes the changes of `more` into `list`, in their order.
fn absorb(
    list: heapless::Vec<(Coordination, Cell), 16>,
    more: &heapless::Vec<(Coordination, Cell), 16>,
) -> (all: Option<heapless::Vec<(Coordination, Cell), 16>>)
    ensures
        match all {
            Some(result) => absorbed(entries_of(list), entries_of(*more), CAPACITY as nat) == Some(
                entries_of(result),
            ),
            None => absorbed(entries_of(list), entries_of(*more), CAPACITY as nat) is None,
        },
{
    let mut grown = list;
    let items = entries_as_slice(more);
    let mut i: usize = 0;
    proof {
        assert(items@.take(0) =~= Seq::<(Coordination, Cell)>::empty());
    }
    while i < items.len()
        invariant
            i <= items.len(),
            items@ == entries_of(*more),
            absorbed(entries_of(list), items@.take(i as int), CAPACITY as nat) == Some(
                entries_of(grown),
            ),
        decreases items.len() - i,
    {
        let change = items[i];
        proof {
            assert(items@.take(i + 1).drop_last() =~= items@.take(i as int));
            assert(items@.take(i + 1).last() == change);
        }
        match find_slot(&grown, change.0) {
            Some(slot) => {
                entries_set(&mut grown, slot, change);
            },
            None => {
                if entries_push(&mut grown, change).is_err() {
                    proof {
                        assert(absorbed(
                            entries_of(list),
                            items@.take(i + 1),
                            CAPACITY as nat,
                        ) is None);
                        lemma_overflow_stays(entries_of(list), items@, i + 1, CAPACITY as nat);
                    }
                    return None;
                }
            },
        }
        i += 1;
    }
    proof {
        assert(items@.take(items@.len() as int) =~= items@);
    }
    Some(grown)
}

/// Once the list has overflowed, further changes do not bring it back.
proof fn lemma_overflow_stays(
    entries: Seq<(Coordination, Cell)>,
    more: Seq<(Coordination, Cell)>,
    n: int,
    cap: nat,
)
    requires
        0 <= n <= more.len(),
        absorbed(entries, more.take(n), cap) is None,
    ensures
        absorbed(entries, more, cap) is None,
    decreases more.len() - n,
{
    if n < more.len() {
        assert(more.take(n + 1).drop_last() =~= more.take(n));
        lemma_overflow_stays(entries, more, n + 1, cap);
    } else {
        assert(more.take(n) =~= more);
    }
}

/// The marks for the blocks that `others` does not hold: one for each such
/// block, in the order of the blocks.
proof fn lemma_marks(blocks: Seq<Coordination>, others: Seq<Coordination>, state: Cell)
    requires
        distinct(blocks),
    ensures
        blocks.filter_map(unless_in(others, state)).len() <= blocks.len(),
        each_place_once(blocks.filter_map(unless_in(others, state))),
        forall|i: int|
            0 <= i < blocks.filter_map(unless_in(others, state)).len() ==> {
                let mark = #[trigger] blocks.filter_map(unless_in(others, state))[i];
                blocks.contains(mark.0) && !others.contains(mark.0) && mark.1 == state
            },
    decreases blocks.len(),
{
    if blocks.len() > 0 {
        let rest = blocks.drop_last();
        let marks = rest.filter_map(unless_in(others, state));
        assert forall|i: int, j: int| 0 <= i < j < rest.len() implies rest[i] != rest[j] by {
            assert(blocks[i] != blocks[j]);
        }
        lemma_marks(rest, others, state);
        assert forall|i: int| 0 <= i < marks.len() implies blocks.contains((#[trigger] marks[i]).0)
            && marks[i].0 != blocks.last() by {
            let k = choose|k: int| 0 <= k < rest.len() && rest[k] == marks[i].0;
            assert(blocks[k] == marks[i].0);
            assert(blocks[k] != blocks[blocks.len() - 1]);
        }
        assert(blocks[blocks.len() - 1] == blocks.last());
    }
}

/// The changes of a piece that moves between two sets of distinct cells list
/// no cell twice, and at most eight cells.
pub proof fn lemma_moved_lists_each_place_once(
    previous: Seq<Coordination>,
    current: Seq<Coordination>,
)
    requires
        distinct(previous),
        distinct(current),
    ensures
        each_place_once(moved(previous, current)),
        moved(previous, current).len() <= previous.len() + current.len(),
{
    let left = previous.filter_map(unless_in(current, Cell::Empty));
    let entered = current.filter_map(unless_in(previous, Cell::Occured));
    lemma_marks(previous, current, Cell::Empty);
    lemma_marks(current, previous, Cell::Occured);
    let all = left + entered;
    assert forall|i: int, j: int| 0 <= i < j < all.len() implies (#[trigger] all[i]).0 != (
    #[trigger] all[j]).0 by {
        if j < left.len() {
            assert(left[i].0 != left[j].0);
        } else if i >= left.len() {
            assert(entered[i - left.len()].0 != entered[j - left.len()].0);
        } else {
            assert(!current.contains(left[i].0));
            assert(current.contains(entered[j - left.len()].0));
        }
    }
}

/// The cells that `entries` lists.
pub open spec fn places(entries: Seq<(Coordination, Cell)>) -> Set<Coordination> {
    Set::new(|place: Coordination| lists(entries, place))
}

/// Whether `i` is the last index at which `entries` lists the cell at `place`.
pub open spec fn last_slot(
    entries: Seq<(Coordination, Cell)>,
    place: Coordination,
    i: int,
) -> bool {
    &&& 0 <= i < entries.len()
    &&& entries[i].0 == place
    &&& forall|k: int| i < k < entries.len() ==> (#[trigger] entries[k]).0 != place
}

/// The state that `entries` gives last for the cell at `place`.
pub open spec fn latest(entries: Seq<(Coordination, Cell)>, place: Coordination) -> Cell {
    entries[choose|i: int| last_slot(entries, place, i)].1
}

proof fn lemma_latest_at(entries: Seq<(Coordination, Cell)>, place: Coordination, i: int)
    requires
        last_slot(entries, place, i),
    ensures
        latest(entries, place) == entries[i].1,
{
    let chosen = choose|k: int| last_slot(entries, place, k);
    assert(last_slot(entries, place, chosen));
    if chosen < i {
        assert(entries[i].0 != place);
    }
    if chosen > i {
        assert(entries[chosen].0 != place);
    }
}

proof fn lemma_listed_place_has_last_slot(
    entries: Seq<(Coordination, Cell)>,
    place: Coordination,
) -> (i: int)
    requires
        lists(entries, place),
    ensures
        last_slot(entries, place, i),
    decreases entries.len(),
{
    let n = entries.len() - 1;
    if entries[n].0 == place {
        n
    } else {
        let rest = entries.drop_last();
        let k = choose|k: int| 0 <= k < entries.len() && (#[trigger] entries[k]).0 == place;
        assert(rest[k].0 == place);
        let i = lemma_listed_place_has_last_slot(rest, place);
        assert forall|k: int| i < k < entries.len() implies (#[trigger] entries[k]).0 != place by {
            if k < n {
                assert(rest[k].0 != place);
            }
        }
        i
    }
}

proof fn lemma_places_of_push(entries: Seq<(Coordination, Cell)>, change: (Coordination, Cell))
    ensures
        places(entries.push(change)) == places(entries).insert(change.0),
{
    let more = entries.push(change);
    assert forall|place: Coordination| lists(more, place) <==> lists(entries, place) || place
        == change.0 by {
        if lists(more, place) {
            let k = choose|k: int| 0 <= k < more.len() && (#[trigger] more[k]).0 == place;
            if k < entries.len() {
                assert(entries[k].0 == place);
            }
        }
        if lists(entries, place) {
            let k = choose|k: int| 0 <= k < entries.len() && (#[trigger] entries[k]).0 == place;
            assert(more[k].0 == place);
        }
        if place == change.0 {
            assert(more[entries.len() as int].0 == place);
        }
    }
    assert(places(more) =~= places(entries).insert(change.0));
}

proof fn lemma_places_of_update(
    entries: Seq<(Coordination, Cell)>,
    slot: int,
    change: (Coordination, Cell),
)
    requires
        0 <= slot < entries.len(),
        entries[slot].0 == change.0,
    ensures
        places(entries.update(slot, change)) == places(entries),
{
    let other = entries.update(slot, change);
    assert forall|place: Coordination| lists(other, place) <==> lists(entries, place) by {
        if lists(other, place) {
            let k = choose|k: int| 0 <= k < other.len() && (#[trigger] other[k]).0 == place;
            assert(entries[k].0 == place);
        }
        if lists(entries, place) {
            let k = choose|k: int| 0 <= k < entries.len() && (#[trigger] entries[k]).0 == place;
            assert(other[k].0 == place);
        }
    }
    assert(places(other) =~= places(entries));
}

/// The cells that a list holds are finitely many, and as many as the list is
/// long where no cell is listed twice.
proof fn lemma_places_counted(entries: Seq<(Coordination, Cell)>)
    ensures
        places(entries).finite(),
        places(entries).len() <= entries.len(),
        each_place_once(entries) ==> places(entries).len() == entries.len(),
    decreases entries.len(),
{
    if entries.len() == 0 {
        assert(places(entries) =~= Set::<Coordination>::empty());
    } else {
        let rest = entries.drop_last();
        let change = entries.last();
        lemma_places_counted(rest);
        assert(rest.push(change) =~= entries);
        lemma_places_of_push(rest, change);
        if each_place_once(entries) {
            assert forall|i: int, j: int| 0 <= i < j < rest.len() implies (#[trigger] rest[i]).0
                != (#[trigger] rest[j]).0 by {
                assert(entries[i].0 != entries[j].0);
            }
            if lists(rest, change.0) {
                let k = choose|k: int| 0 <= k < rest.len() && (#[trigger] rest[k]).0 == change.0;
                assert(entries[k].0 != entries[entries.len() - 1].0);
            }
        }
    }
}

/// What one more change does to a list in which no cell is listed twice.
proof fn lemma_absorbed_one(
    entries: Seq<(Coordination, Cell)>,
    change: (Coordination, Cell),
    cap: nat,
)
    requires
        each_place_once(entries),
    ensures
        match absorbed_one(entries, change, cap) {
            Some(all) => {
                &&& each_place_once(all)
                &&& places(all) == places(entries).insert(change.0)
                &&& latest(all, change.0) == change.1
                &&& forall|place: Coordination|
                    place != change.0 && lists(entries, place) ==> #[trigger] latest(all, place)
                        == latest(entries, place)
            },
            None => !lists(entries, change.0) && entries.len() >= cap,
        },
{
    if lists(entries, change.0) {
        let slot = slot_of(entries, change.0);
        let k = choose|k: int| 0 <= k < entries.len() && (#[trigger] entries[k]).0 == change.0;
        let first = lemma_first_slot_exists(entries, change.0, k);
        assert(first_slot(entries, change.0, slot));
        let all = entries.update(slot, change);
        lemma_places_of_update(entries, slot, change);
        assert(places(entries).insert(change.0) =~= places(entries));
        assert forall|i: int, j: int| 0 <= i < j < all.len() implies (#[trigger] all[i]).0 != (
        #[trigger] all[j]).0 by {
            assert(entries[i].0 != entries[j].0);
        }
        assert(last_slot(all, change.0, slot)) by {
            assert forall|k: int| slot < k < all.len() implies (#[trigger] all[k]).0
                != change.0 by {
                assert(entries[slot].0 != entries[k].0);
            }
        }
        lemma_latest_at(all, change.0, slot);
        assert forall|place: Coordination|
            place != change.0 && lists(entries, place) implies #[trigger] latest(all, place)
            == latest(entries, place) by {
            let i = lemma_listed_place_has_last_slot(entries, place);
            assert(last_slot(all, place, i)) by {
                assert forall|k: int| i < k < all.len() implies (#[trigger] all[k]).0 != place by {
                    assert(entries[k].0 != place);
                }
            }
            lemma_latest_at(entries, place, i);
            lemma_latest_at(all, place, i);
        }
    } else if entries.len() < cap {
        let all = entries.push(change);
        lemma_places_of_push(entries, change);
        assert forall|i: int, j: int| 0 <= i < j < all.len() implies (#[trigger] all[i]).0 != (
        #[trigger] all[j]).0 by {
            if j < entries.len() {
                assert(entries[i].0 != entries[j].0);
            } else {
                assert(entries[i].0 != change.0);
            }
        }
        assert(last_slot(all, change.0, entries.len() as int));
        lemma_latest_at(all, change.0, entries.len() as int);
        assert forall|place: Coordination|
            place != change.0 && lists(entries, place) implies #[trigger] latest(all, place)
            == latest(entries, place) by {
            let i = lemma_listed_place_has_last_slot(entries, place);
            assert(last_slot(all, place, i)) by {
                assert forall|k: int| i < k < all.len() implies (#[trigger] all[k]).0 != place by {
                    if k < entries.len() {
                        assert(entries[k].0 != place);
                    }
                }
            }
            lemma_latest_at(entries, place, i);
            lemma_latest_at(all, place, i);
        }
    }
}

proof fn lemma_first_slot_exists(
    entries: Seq<(Coordination, Cell)>,
    place: Coordination,
    k: int,
) -> (i: int)
    requires
        0 <= k < entries.len(),
        entries[k].0 == place,
    ensures
        first_slot(entries, place, i),
    decreases k,
{
    if exists|j: int| 0 <= j < k && (#[trigger] entries[j]).0 == place {
        let j = choose|j: int| 0 <= j < k && (#[trigger] entries[j]).0 == place;
        lemma_first_slot_exists(entries, place, j)
    } else {
        k
    }
}

/// Merging with a full redraw gives a full redraw, whichever comes first.
pub proof fn lemma_merge_with_full_is_full(update: UpdateView, cap: nat)
    ensures
        merged(UpdateView::Full, update, cap) == UpdateView::Full,
        merged(update, UpdateView::Full, cap) == UpdateView::Full,
{
}

/// Merging with the notification that nothing changed gives the other
/// notification, whichever comes first.
pub proof fn lemma_merge_with_nothing_is_the_other(update: UpdateView, cap: nat)
    ensures
        merged(UpdateView::Nothing, update, cap) == update,
        merged(update, UpdateView::Nothing, cap) == update,
{
}

/// Merging two lists: while the cells of both together are at most `cap`, the
/// result lists each of them once, with the state that the later list gives
/// where it lists the cell, and that of the earlier list where it does not.
/// With more cells than `cap` the result is a full redraw.
pub proof fn lemma_merge_of_lists(
    first: Seq<(Coordination, Cell)>,
    second: Seq<(Coordination, Cell)>,
    cap: nat,
)
    requires
        each_place_once(first),
        first.len() <= cap,
    ensures
        places(first).union(places(second)).finite(),
        places(first).union(places(second)).len() > cap ==> merged(
            UpdateView::Partial(first),
            UpdateView::Partial(second),
            cap,
        ) == UpdateView::Full,
        places(first).union(places(second)).len() <= cap ==> {
            &&& merged(
                UpdateView::Partial(first),
                UpdateView::Partial(second),
                cap,
            ) matches UpdateView::Partial(all)
            &&& each_place_once(all)
            &&& all.len() == places(first).union(places(second)).len()
            &&& places(all) == places(first).union(places(second))
            &&& forall|place: Coordination|
                #![trigger latest(all, place)]
                lists(second, place) ==> latest(all, place) == latest(second, place)
            &&& forall|place: Coordination|
                #![trigger latest(all, place)]
                lists(first, place) && !lists(second, place) ==> latest(all, place) == latest(
                    first,
                    place,
                )
        },
    decreases second.len(),
{
    let both = places(first).union(places(second));
    lemma_places_counted(first);
    lemma_places_counted(second);
    if second.len() == 0 {
        assert(places(second) =~= Set::<Coordination>::empty());
        assert(both =~= places(first));
        assert forall|place: Coordination| !lists(second, place) by {}
    } else {
        let init = second.drop_last();
        let change = second.last();
        let before = places(first).union(places(init));
        lemma_merge_of_lists(first, init, cap);
        lemma_places_counted(init);
        assert(init.push(change) =~= second);
        lemma_places_of_push(init, change);
        assert(both =~= before.insert(change.0));
        assert(last_slot(second, change.0, second.len() - 1));
        lemma_latest_at(second, change.0, second.len() - 1);
        assert forall|place: Coordination| place != change.0 implies (lists(second, place)
            <==> lists(init, place)) && (lists(init, place) ==> latest(second, place) == latest(
            init,
            place,
        )) by {
            assert(places(second).contains(place) <==> places(init).insert(change.0).contains(
                place,
            ));
            if lists(init, place) {
                let i = lemma_listed_place_has_last_slot(init, place);
                assert(last_slot(second, place, i)) by {
                    assert forall|k: int| i < k < second.len() implies (#[trigger] second[k]).0
                        != place by {
                        if k < init.len() {
                            assert(init[k].0 != place);
                        }
                    }
                }
                lemma_latest_at(init, place, i);
                lemma_latest_at(second, place, i);
            }
        }
        match absorbed(first, init, cap) {
            None => {
                vstd::set_lib::lemma_len_subset(before, both);
            },
            Some(mid) => {
                vstd::set_lib::lemma_len_subset(before, both);
                lemma_absorbed_one(mid, change, cap);
                lemma_places_counted(mid);
                match absorbed_one(mid, change, cap) {
                    Some(all) => {
                        lemma_places_counted(all);
                        assert(places(all) =~= both);
                        assert forall|place: Coordination|
                            #![trigger latest(all, place)]
                            lists(second, place) implies latest(all, place) == latest(
                            second,
                            place,
                        ) by {
                            if place != change.0 {
                                assert(places(mid).contains(place));
                            }
                        }
                        assert forall|place: Coordination|
                            #![trigger latest(all, place)]
                            lists(first, place) && !lists(second, place) implies latest(all, place)
                            == latest(first, place) by {
                            assert(place != change.0) by {
                                assert(places(second).contains(change.0));
                            }
                            assert(places(first).contains(place));
                            assert(places(mid).contains(place));
                        }
                    },
                    None => {
                        assert(!before.contains(change.0)) by {
                            assert(!places(mid).contains(change.0));
                        }
                    },
                }
            },
        }
    }
}

} // verus!
