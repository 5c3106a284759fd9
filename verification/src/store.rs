//! What is kept on disk: the list of parcels and what is known of each.
use vstd::prelude::*;

use crate::clock::{Moment, Timestamp};
use crate::geo::{Coord, GeoCache};
use crate::provider::{Tracking, TrackingModel};
use crate::text::{
    ascii_upper, concat3, is_white, law_ascii_upper_is_settled, law_trimmed_is_settled,
    lemma_upper_keeps_white, same_text, to_ascii_upper, trim, trim_end, trim_start, trimmed,
};
use crate::text_map::TextMap;

verus! {

/// A parcel that is tracked.
#[derive(Debug, Clone, PartialEq, Eq)]
pub struct Parcel {
    pub number: String,
    pub label: Option<String>,
    pub added: Timestamp,
}

/// The value of a [`Parcel`].
pub struct ParcelModel {
    pub number: Seq<char>,
    pub label: Option<Seq<char>>,
    pub added: Moment,
}

impl DeepView for Parcel {
    type V = ParcelModel;

    open spec fn deep_view(&self) -> ParcelModel {
        ParcelModel {
            number: self.number@,
            label: self.label.deep_view(),
            added: self.added@,
        }
    }
}

/// The parcels that are tracked, in the order in which they were added, and the
/// address that they are on their way to.
#[derive(Debug, Clone, PartialEq, Eq)]
pub struct ParcelList {
    pub parcels: Vec<Parcel>,
    pub home: Option<String>,
}

/// The value of a [`ParcelList`].
pub struct ListModel {
    pub parcels: Seq<ParcelModel>,
    pub home: Option<Seq<char>>,
}

impl DeepView for ParcelList {
    type V = ListModel;

    open spec fn deep_view(&self) -> ListModel {
        ListModel { parcels: self.parcels.deep_view(), home: self.home.deep_view() }
    }
}

/// What is known of a parcel: the last tracking that was had, and how the polls
/// since went.
#[derive(Debug, Clone, PartialEq, Eq)]
pub struct ParcelState {
    pub tracking: Option<Tracking>,
    pub last_error: Option<String>,
    pub failures: u32,
    pub next_poll: Timestamp,
}

/// The value of a [`ParcelState`].
pub struct ParcelStateModel {
    pub tracking: Option<TrackingModel>,
    pub last_error: Option<Seq<char>>,
    pub failures: nat,
    pub next_poll: Moment,
}

impl DeepView for ParcelState {
    type V = ParcelStateModel;

    open spec fn deep_view(&self) -> ParcelStateModel {
        ParcelStateModel {
            tracking: self.tracking.deep_view(),
            last_error: self.last_error.deep_view(),
            failures: self.failures as nat,
            next_poll: self.next_poll@,
        }
    }
}

/// What is known of the parcels, by their numbers, and of the places that they
/// went through.
#[derive(Debug, Clone)]
pub struct StateCache {
    pub by_number: TextMap<ParcelState>,
    pub geo: GeoCache,
}

/// The value of a [`StateCache`].
pub struct CacheModel {
    pub by_number: Map<Seq<char>, ParcelStateModel>,
    pub geo: Map<Seq<char>, Option<Coord>>,
}

impl DeepView for StateCache {
    type V = CacheModel;

    open spec fn deep_view(&self) -> CacheModel {
        CacheModel { by_number: self.by_number.deep_view(), geo: self.geo@ }
    }
}

impl Default for StateCache {
    /// Nothing is known of any parcel or place.
    fn default() -> (r: StateCache)
        ensures
            r.deep_view() == (CacheModel { by_number: Map::empty(), geo: Map::empty() }),
    {
        let r = StateCache { by_number: TextMap::new(), geo: TextMap::new() };
        assert(r.by_number.deep_view() =~= Map::<Seq<char>, ParcelStateModel>::empty());
        r
    }
}

/// A number as it is kept: without white space around it, in upper case.
pub open spec fn normalized(number: Seq<char>) -> Seq<char> {
    ascii_upper(trimmed(number))
}

/// A number as it is kept: without white space around it, in upper case.
pub fn normalize(number: &str) -> (r: String)
    ensures
        r@ == normalized(number@),
{
    to_ascii_upper(&trim(number))
}

/// A number that is kept is not changed by being normalized again.
pub proof fn law_normalized_is_settled(number: Seq<char>)
    ensures
        normalized(normalized(number)) == normalized(number),
{
    let t = trimmed(number);
    let u = ascii_upper(t);
    law_trimmed_is_settled(number);
    if t.len() > 0 {
        lemma_upper_keeps_white(t[0]);
        lemma_upper_keeps_white(t.last());
        assert(!is_white(u[0]));
        assert(!is_white(u.last()));
    }
    assert(trim_start(u) == u);
    assert(trim_end(u) == u);
    law_ascii_upper_is_settled(t);
}

/// A label as it is kept: none where there is nothing but white space.
pub open spec fn kept_label(label: Option<Seq<char>>) -> Option<Seq<char>> {
    match label {
        Some(l) if trimmed(l).len() > 0 => Some(trimmed(l)),
        _ => None,
    }
}

/// A parcel with the number `number` is in the list.
pub open spec fn lists(parcels: Seq<ParcelModel>, number: Seq<char>) -> bool {
    exists|i: int| 0 <= i < parcels.len() && (#[trigger] parcels[i]).number == number
}

impl ListModel {
    /// A parcel with the number `number` is in the list.
    pub open spec fn contains(self, number: Seq<char>) -> bool {
        lists(self.parcels, number)
    }

    /// A parcel of this number can be added: there is a number at all, and it
    /// is not in the list yet.
    pub open spec fn takes(self, number: Seq<char>) -> bool {
        normalized(number).len() > 0 && !self.contains(normalized(number))
    }

    /// The list with a parcel added at its end, if it can be.
    pub open spec fn added(
        self,
        number: Seq<char>,
        label: Option<Seq<char>>,
        now: Moment,
    ) -> ListModel {
        if self.takes(number) {
            ListModel {
                parcels: self.parcels.push(
                    ParcelModel { number: normalized(number), label: kept_label(label), added: now },
                ),
                home: self.home,
            }
        } else {
            self
        }
    }

    /// The list without the parcels that have the number `number`.
    pub open spec fn removed(self, number: Seq<char>) -> ListModel {
        ListModel { parcels: without(self.parcels, number), home: self.home }
    }

    /// Every number is normalized and not empty, and none occurs twice.
    pub open spec fn well_kept(self) -> bool {
        &&& forall|i: int|
            0 <= i < self.parcels.len() ==> {
                &&& (#[trigger] self.parcels[i]).number.len() > 0
                &&& normalized(self.parcels[i].number) == self.parcels[i].number
            }
        &&& forall|i: int, j: int|
            0 <= i < j < self.parcels.len() ==> (#[trigger] self.parcels[i]).number != (
            #[trigger] self.parcels[j]).number
    }
}

/// The parcels that do not have the number `number`, in their order.
pub open spec fn without(parcels: Seq<ParcelModel>, number: Seq<char>) -> Seq<ParcelModel>
    decreases parcels.len(),
{
    if parcels.len() == 0 {
        Seq::empty()
    } else if parcels.last().number == number {
        without(parcels.drop_last(), number)
    } else {
        without(parcels.drop_last(), number).push(parcels.last())
    }
}

impl Default for ParcelList {
    /// The list without parcels.
    fn default() -> (r: ParcelList)
        ensures
            r.deep_view() == (ListModel { parcels: Seq::empty(), home: None }),
    {
        let r = ParcelList { parcels: Vec::new(), home: None };
        assert(r.parcels.deep_view() =~= Seq::<ParcelModel>::empty());
        r
    }
}

impl ParcelList {
    /// Whether a parcel with the number `number` is in the list.
    pub fn contains(&self, number: &str) -> (r: bool)
        ensures
            r == self.deep_view().contains(number@),
    {
        let ghost all = self.parcels.deep_view();
        let mut i: usize = 0;
        while i < self.parcels.len()
            invariant
                i <= self.parcels.len(),
                all == self.parcels.deep_view(),
                forall|k: int| 0 <= k < i ==> (#[trigger] all[k]).number != number@,
            decreases self.parcels.len() - i,
        {
            assert(all[i as int] == self.parcels[i as int].deep_view());
            if same_text(&self.parcels[i].number, number) {
                return true;
            }
            i += 1;
        }
        false
    }

    /// Adds a parcel at the end of the list. Returns false, and changes
    /// nothing, where there is no number or it is in the list already.
    pub fn add(&mut self, number: &str, label: Option<&str>, now: Timestamp) -> (r: bool)
        ensures
            r == old(self).deep_view().takes(number@),
            final(self).deep_view() == old(self).deep_view().added(
                number@,
                match label {
                    Some(l) => Some(l@),
                    None => None,
                },
                now@,
            ),
    {
        let number = normalize(number);
        if number.as_str().is_empty() || self.contains(&number) {
            return false;
        }
        let label = match label {
            Some(l) => {
                let l = trim(l);
                if l.as_str().is_empty() {
                    None
                } else {
                    Some(l)
                }
            },
            None => None,
        };
        let ghost before = self.parcels.deep_view();
        let parcel = Parcel { number, label, added: now };
        let ghost pm = parcel.deep_view();
        self.parcels.push(parcel);
        assert(self.parcels.deep_view() =~= before.push(pm));
        true
    }

    /// Removes every parcel with the number `number`. Returns whether there was
    /// one.
    pub fn remove(&mut self, number: &str) -> (r: bool)
        ensures
            r == old(self).deep_view().contains(number@),
            final(self).deep_view() == old(self).deep_view().removed(number@),
    {
        let ghost all = self.parcels.deep_view();
        let ghost mut seen: int = 0;
        let mut found = false;
        let mut i: usize = 0;
        proof {
            assert(all.take(0) =~= Seq::empty());
            assert(all =~= without(all.take(0), number@) + all.skip(0));
        }
        while i < self.parcels.len()
            invariant
                0 <= seen <= all.len(),
                i == without(all.take(seen), number@).len(),
                self.parcels.deep_view() == without(all.take(seen), number@) + all.skip(seen),
                found == lists(all.take(seen), number@),
                self.home == old(self).home,
            decreases all.len() - seen,
        {
            let ghost kept = without(all.take(seen), number@);
            let ghost view = self.parcels.deep_view();
            proof {
                assert(view.len() == kept.len() + (all.len() - seen));
                assert(view[i as int] == self.parcels[i as int].deep_view());
                assert(view[i as int] == all[seen]);
                assert(all.take(seen + 1).drop_last() =~= all.take(seen));
                assert(all.take(seen + 1).last() == all[seen]);
                assert(all.take(seen + 1)[seen] == all[seen]);
                assert forall|k: int| 0 <= k < seen implies #[trigger] all.take(seen)[k]
                    == all.take(seen + 1)[k] by {}
                if lists(all.take(seen), number@) {
                    let k = choose|k: int|
                        0 <= k < seen && (#[trigger] all.take(seen)[k]).number == number@;
                    assert(all.take(seen + 1)[k].number == number@);
                }
                if lists(all.take(seen + 1), number@) && all[seen].number != number@ {
                    let k = choose|k: int|
                        0 <= k < seen + 1 && (#[trigger] all.take(seen + 1)[k]).number == number@;
                    assert(all.take(seen)[k].number == number@);
                }
            }
            if same_text(&self.parcels[i].number, number) {
                self.parcels.remove(i);
                found = true;
                assert(self.parcels.deep_view() =~= view.remove(i as int));
                assert(view.remove(i as int) =~= kept + all.skip(seen + 1));
            } else {
                i += 1;
                assert(view =~= kept.push(all[seen]) + all.skip(seen + 1));
            }
            proof {
                seen = seen + 1;
            }
        }
        proof {
            assert(seen == all.len());
            assert(all.take(seen) =~= all);
            assert(self.parcels.deep_view() =~= without(all, number@));
        }
        found
    }
}

proof fn lemma_without(parcels: Seq<ParcelModel>, number: Seq<char>)
    ensures
        !lists(without(parcels, number), number),
        forall|n: Seq<char>| n != number ==> lists(without(parcels, number), n) == #[trigger] lists(
            parcels,
            n,
        ),
        !lists(parcels, number) ==> without(parcels, number) == parcels,
        without(parcels, number).len() <= parcels.len(),
    decreases parcels.len(),
{
    if parcels.len() > 0 {
        let front = parcels.drop_last();
        let last = parcels.last();
        lemma_without(front, number);
        assert(parcels =~= front.push(last));
        lemma_lists_push(front, last);
        lemma_lists_push(without(front, number), last);
    }
}

proof fn lemma_lists_push(parcels: Seq<ParcelModel>, p: ParcelModel)
    ensures
        forall|n: Seq<char>| #[trigger]
            lists(parcels.push(p), n) == (lists(parcels, n) || p.number == n),
{
    assert forall|n: Seq<char>| #[trigger]
        lists(parcels.push(p), n) == (lists(parcels, n) || p.number == n) by {
        let more = parcels.push(p);
        if lists(parcels, n) {
            let i = choose|i: int| 0 <= i < parcels.len() && (#[trigger] parcels[i]).number == n;
            assert(more[i].number == n);
        }
        if p.number == n {
            assert(more[parcels.len() as int].number == n);
        }
        if lists(more, n) && p.number != n {
            let i = choose|i: int| 0 <= i < more.len() && (#[trigger] more[i]).number == n;
            assert(parcels[i].number == n);
        }
    }
}

proof fn lemma_without_keeps(parcels: Seq<ParcelModel>, number: Seq<char>)
    requires
        (ListModel { parcels, home: None }).well_kept(),
    ensures
        (ListModel { parcels: without(parcels, number), home: None }).well_kept(),
    decreases parcels.len(),
{
    if parcels.len() > 0 {
        let front = parcels.drop_last();
        let last = parcels.last();
        let fm = ListModel { parcels: front, home: None };
        assert forall|i: int| 0 <= i < front.len() implies (#[trigger] fm.parcels[i]).number.len()
            > 0 && normalized(fm.parcels[i].number) == fm.parcels[i].number by {
            assert(parcels[i] == front[i]);
        }
        assert forall|i: int, j: int| 0 <= i < j < front.len() implies (
        #[trigger] fm.parcels[i]).number != (#[trigger] fm.parcels[j]).number by {
            assert(parcels[i] == front[i]);
            assert(parcels[j] == front[j]);
        }
        lemma_without_keeps(front, number);
        lemma_without(front, number);
        if last.number != number {
            assert(!lists(front, last.number)) by {
                if lists(front, last.number) {
                    let i = choose|i: int|
                        0 <= i < front.len() && (#[trigger] front[i]).number == last.number;
                    assert(parcels[i].number != parcels[parcels.len() - 1].number);
                }
            }
            let less = without(front, number);
            assert(!lists(less, last.number));
            let r = ListModel { parcels: less.push(last), home: None };
            let lm = ListModel { parcels: less, home: None };
            assert forall|i: int| 0 <= i < r.parcels.len() implies (
            #[trigger] r.parcels[i]).number.len() > 0 && normalized(r.parcels[i].number)
                == r.parcels[i].number by {
                if i < less.len() {
                    assert(lm.parcels[i] == r.parcels[i]);
                } else {
                    assert(parcels[parcels.len() - 1] == last);
                }
            }
            assert forall|i: int, j: int| 0 <= i < j < r.parcels.len() implies (
            #[trigger] r.parcels[i]).number != (#[trigger] r.parcels[j]).number by {
                if j < less.len() {
                    assert(lm.parcels[i] == r.parcels[i] && lm.parcels[j] == r.parcels[j]);
                } else {
                    assert(less[i] == r.parcels[i]);
                }
            }
        }
    }
}

/// Adding a parcel keeps the list's numbers normalized and different from one
/// another.
pub proof fn law_add_keeps_the_list(
    list: ListModel,
    number: Seq<char>,
    label: Option<Seq<char>>,
    now: Moment,
)
    requires
        list.well_kept(),
    ensures
        list.added(number, label, now).well_kept(),
        list.takes(number) ==> list.added(number, label, now).contains(normalized(number)),
{
    law_normalized_is_settled(number);
    if list.takes(number) {
        let r = list.added(number, label, now);
        let n = list.parcels.len() as int;
        assert forall|i: int, j: int| 0 <= i < j < r.parcels.len() implies (
        #[trigger] r.parcels[i]).number != (#[trigger] r.parcels[j]).number by {
            if j < n {
                assert(list.parcels[i] == r.parcels[i] && list.parcels[j] == r.parcels[j]);
            } else {
                assert(list.parcels[i] == r.parcels[i]);
            }
        }
        assert forall|i: int| 0 <= i < r.parcels.len() implies (
        #[trigger] r.parcels[i]).number.len() > 0 && normalized(r.parcels[i].number)
            == r.parcels[i].number by {
            if i < n {
                assert(list.parcels[i] == r.parcels[i]);
            }
        }
        assert(r.parcels[n].number == normalized(number));
    }
}

/// Removing a parcel keeps the list's numbers normalized and different from one
/// another, takes every parcel of that number out, and leaves every other in.
pub proof fn law_remove_keeps_the_list(list: ListModel, number: Seq<char>, other: Seq<char>)
    ensures
        list.well_kept() ==> list.removed(number).well_kept(),
        !list.removed(number).contains(number),
        other != number ==> list.removed(number).contains(other) == list.contains(other),
{
    lemma_without(list.parcels, number);
    if list.well_kept() {
        assert((ListModel { parcels: list.parcels, home: None }).well_kept());
        lemma_without_keeps(list.parcels, number);
        let a = ListModel { parcels: without(list.parcels, number), home: None };
        assert(list.removed(number).parcels == a.parcels);
        assert(list.removed(number).well_kept());
    }
}

/// Removing a parcel that was just added gives the list back.
pub proof fn law_remove_undoes_add(
    list: ListModel,
    number: Seq<char>,
    label: Option<Seq<char>>,
    now: Moment,
)
    requires
        list.takes(number),
    ensures
        list.added(number, label, now).removed(normalized(number)) == list,
{
    let more = list.added(number, label, now).parcels;
    assert(more.drop_last() =~= list.parcels);
    lemma_without(list.parcels, normalized(number));
}

/// A parcel cannot be added twice, however its number is written.
pub proof fn law_no_parcel_is_added_twice(
    list: ListModel,
    number: Seq<char>,
    label: Option<Seq<char>>,
    now: Moment,
    again: Seq<char>,
)
    requires
        normalized(again) == normalized(number),
    ensures
        !list.added(number, label, now).takes(again),
{
    let more = list.added(number, label, now);
    if list.takes(number) {
        assert(more.parcels[list.parcels.len() as int].number == normalized(number));
    }
}

/// The home address that an argument sets: none where there is nothing but white
/// space.
pub open spec fn home_in(argument: Seq<char>) -> Option<Seq<char>> {
    if trimmed(argument).len() == 0 {
        None
    } else {
        Some(argument)
    }
}

/// The name of the file that is written before the file `name`.
pub open spec fn temp_name(name: Seq<char>) -> Seq<char> {
    "."@ + name + ".tmp"@
}

/// The name of the file that is written before it takes the place of the file
/// `name`.
pub fn temp_file_name(name: &str) -> (r: String)
    ensures
        r@ == temp_name(name@),
        r@ == "."@ + name@ + ".tmp"@,
{
    concat3(".", name, ".tmp")
}

/// The home address to keep: none where the one that was given is blank.
pub fn home_from_argument(home: &str) -> (r: Option<String>)
    ensures
        r.deep_view() == home_in(home@),
        r.deep_view() == if trimmed(home@).len() == 0 {
            None
        } else {
            Some(home@)
        },
{
    if trim(home).as_str().is_empty() {
        None
    } else {
        Some(home.to_owned())
    }
}

} // verus!
