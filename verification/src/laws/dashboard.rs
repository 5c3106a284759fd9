//! What keys and polls do to the dashboard.
use vstd::arithmetic::power2::pow2;
use vstd::prelude::*;

use crate::app::{
    failure_text, label_in, law_entered_number_is_normalized, number_in, AppModel, EffectModel,
    Failure, ModeModel,
};
use crate::clock::{backoff_factor, lemma_backoff_is_a_power, shifted, Moment};
use crate::geo::Coord;
use crate::keys::{line_text, KeyCode, KeyEvent};
use crate::laws::texts::{
    all_blank, all_ink, law_blank_text_trims_to_nothing, law_trimming_takes_the_ends,
};
use crate::poller::{one_more, CommandModel, PollEventModel};
use crate::provider::TrackingModel;
use crate::store::{
    lists, normalized, without, CacheModel, ListModel, ParcelModel, ParcelStateModel,
};
use crate::text::{ascii_upper, is_white, lemma_word_len, trimmed, word_len};

verus! {

/// One of the dashboard's parcels has the number `number`.
pub open spec fn is_listed(app: AppModel, number: Seq<char>) -> bool {
    exists|i: int|
        0 <= i < app.parcels.parcels.len() && (#[trigger] app.parcels.parcels[i]).number == number
}

/// Nothing but what is known, what is being polled and the last error differs.
pub open spec fn same_but_for_polls(a: AppModel, b: AppModel) -> bool {
    &&& a.parcels == b.parcels
    &&& a.mode == b.mode
    &&& a.selected == b.selected
    &&& a.interval == b.interval
    &&& a.show_map == b.show_map
}

// ---------------------------------------------------------------------------
// Polls
// ---------------------------------------------------------------------------
/// A poll that went well replaces what was known of its parcel, whatever that
/// was: by the tracking that it brought, no error, no failures, and a next poll
/// an interval later. That is saved, and nothing else changes but that the poll
/// is over.
pub proof fn law_new_tracking_replaces_the_old(
    app: AppModel,
    number: Seq<char>,
    t: TrackingModel,
    now: Moment,
)
    requires
        is_listed(app, number),
        0 <= app.interval <= i64::MAX * 1_000_000,
    ensures
        ({
            let (after, effects) = app.told(
                PollEventModel::Finished { number, result: Ok(t) },
                now,
            );
            &&& same_but_for_polls(after, app)
            &&& after.last_error == app.last_error
            &&& after.cache.geo == app.cache.geo
            &&& after.cache.by_number == app.cache.by_number.insert(
                number,
                ParcelStateModel {
                    tracking: Some(t),
                    last_error: None,
                    failures: 0,
                    next_poll: shifted(now, app.interval),
                },
            )
            &&& app.polling == Some(number) ==> after.polling is None
            &&& app.polling != Some(number) ==> after.polling == app.polling
            &&& effects == seq![EffectModel::SaveState]
        }),
{
    assert(lists(app.parcels.parcels, number));
}

/// A poll that failed keeps the tracking, notes the error for its parcel and for
/// all to see, and counts: the `k`th failure in a row puts the next poll off by
/// the interval times two to the power of `k`, at most of sixteen, and by an
/// hour at most; the count stops at the largest number that it can hold. That is
/// saved, and nothing else changes but that the poll is over.
pub proof fn law_failure_is_noted_and_counted(
    app: AppModel,
    number: Seq<char>,
    error: Seq<char>,
    now: Moment,
)
    requires
        is_listed(app, number),
        0 <= app.interval <= i64::MAX * 1_000_000,
    ensures
        ({
            let (after, effects) = app.told(
                PollEventModel::Finished { number, result: Err(error) },
                now,
            );
            let known = app.cache.by_number.contains_key(number);
            let k = if !known {
                1
            } else if app.cache.by_number[number].failures < u32::MAX {
                app.cache.by_number[number].failures + 1
            } else {
                app.cache.by_number[number].failures
            };
            let doubled = app.interval * pow2(if k < 16 { k } else { 16 });
            let hour = 3_600_000_000_000int;
            &&& same_but_for_polls(after, app)
            &&& after.last_error == Some(number + ": "@ + error)
            &&& after.cache.geo == app.cache.geo
            &&& after.cache.by_number == app.cache.by_number.insert(
                number,
                ParcelStateModel {
                    tracking: if known {
                        app.cache.by_number[number].tracking
                    } else {
                        None
                    },
                    last_error: Some(error),
                    failures: k,
                    next_poll: shifted(
                        now,
                        if doubled < hour {
                            doubled
                        } else {
                            hour
                        },
                    ),
                },
            )
            &&& app.polling == Some(number) ==> after.polling is None
            &&& app.polling != Some(number) ==> after.polling == app.polling
            &&& effects == seq![EffectModel::SaveState]
        }),
{
    assert(lists(app.parcels.parcels, number));
    let failures = app.state_or_blank(number, now).failures;
    lemma_backoff_is_a_power(one_more(failures));
}

/// An interval that is longer than any span of time counts as none, for a poll
/// that went well as for one that failed.
pub proof fn law_endless_interval_counts_as_none(
    app: AppModel,
    number: Seq<char>,
    result: Result<TrackingModel, Seq<char>>,
    now: Moment,
)
    requires
        is_listed(app, number),
        app.interval > i64::MAX * 1_000_000,
    ensures
        app.told(PollEventModel::Finished { number, result }, now).0.cache.by_number.contains_key(
            number,
        ),
        app.told(
            PollEventModel::Finished { number, result },
            now,
        ).0.cache.by_number[number].next_poll == shifted(now, 0),
{
    assert(lists(app.parcels.parcels, number));
    let failures = app.state_or_blank(number, now).failures;
    assert(0 * backoff_factor(one_more(failures)) == 0);
}

/// The outcome of a poll of a parcel that is not in the list changes nothing but
/// that the poll is over; the start of a poll shows and changes nothing else;
/// and where a place is, or that it is nowhere, is kept under its name and saved.
pub proof fn law_other_messages_change_little(
    app: AppModel,
    number: Seq<char>,
    result: Result<TrackingModel, Seq<char>>,
    key: Seq<char>,
    coord: Option<Coord>,
    now: Moment,
)
    ensures
        !is_listed(app, number) ==> app.told(PollEventModel::Finished { number, result }, now) == (
            AppModel {
                polling: if app.polling == Some(number) {
                    None
                } else {
                    app.polling
                },
                ..app
            },
            Seq::<EffectModel>::empty(),
        ),
        app.told(PollEventModel::Started(number), now) == (
            AppModel { polling: Some(number), ..app },
            Seq::<EffectModel>::empty(),
        ),
        app.told(PollEventModel::Geocoded { key, coord }, now) == (
            AppModel {
                cache: CacheModel {
                    by_number: app.cache.by_number,
                    geo: app.cache.geo.insert(key, coord),
                },
                ..app
            },
            seq![EffectModel::SaveState],
        ),
{
    assert(lists(app.parcels.parcels, number) == is_listed(app, number));
}

/// What could not be done is told in words.
pub proof fn law_failures_are_told(e: Failure)
    ensures
        e matches Failure::SavingParcels(why) ==> failure_text(e) == "saving parcels: "@ + why@,
        e matches Failure::SavingState(why) ==> failure_text(e) == "saving state: "@ + why@,
        e is PollerStopped ==> failure_text(e) == "poller stopped"@,
{
}

// ---------------------------------------------------------------------------
// Keys in the table
// ---------------------------------------------------------------------------
/// The key has no command of its own in the table.
pub open spec fn idle_in_table(code: KeyCode) -> bool {
    match code {
        KeyCode::Char(c) => c != 'q' && c != 'j' && c != 'k' && c != 'a' && c != 'd' && c != 'r'
            && c != 'R' && c != 'm',
        KeyCode::Down | KeyCode::Up | KeyCode::Enter => false,
        _ => true,
    }
}

/// In the table, `j` and the arrow down select the next parcel if there is one,
/// `k` and the arrow up the one before; `a` starts an empty line, `d` asks before
/// it removes the selected parcel, Enter shows it in full, `r` polls it and `R`
/// polls all; `m` turns the map on or off, `q` quits, and every other key does
/// nothing. Nothing changes that is not named.
pub proof fn law_keys_in_the_table(app: AppModel, key: KeyEvent, now: Moment)
    requires
        app.mode is Normal,
        !(key.code == KeyCode::Char('c') && key.modifiers / 2 % 2 == 1),
    ensures
        ({
            let (after, effects) = app.pressed(key, now);
            let none = Seq::<EffectModel>::empty();
            let len = app.parcels.parcels.len();
            let code = key.code;
            let some = 0 <= app.selected < len;
            &&& code == KeyCode::Char('j') || code == KeyCode::Down ==> effects == none && after == (
            AppModel {
                selected: if app.selected + 1 < len {
                    app.selected + 1
                } else {
                    app.selected
                },
                ..app
            })
            &&& code == KeyCode::Char('k') || code == KeyCode::Up ==> effects == none && after == (
            AppModel {
                selected: if app.selected > 0 {
                    app.selected - 1
                } else {
                    app.selected
                },
                ..app
            })
            &&& code == KeyCode::Char('a') ==> effects == none && after == (AppModel {
                mode: ModeModel::Adding(Seq::empty()),
                ..app
            })
            &&& code == KeyCode::Char('d') ==> effects == none && after == (AppModel {
                mode: if some {
                    ModeModel::ConfirmRemove
                } else {
                    ModeModel::Normal
                },
                ..app
            })
            &&& code == KeyCode::Enter ==> effects == none && after == (AppModel {
                mode: if some {
                    ModeModel::Detail { scroll: 0 }
                } else {
                    ModeModel::Normal
                },
                ..app
            })
            &&& code == KeyCode::Char('r') ==> after == app && effects == (if some {
                seq![
                    EffectModel::Send(
                        CommandModel::Refresh(app.parcels.parcels[app.selected].number),
                    ),
                ]
            } else {
                none
            })
            &&& code == KeyCode::Char('R') ==> after == app && effects == seq![
                EffectModel::Send(CommandModel::RefreshAll),
            ]
            &&& code == KeyCode::Char('m') ==> effects == none && after == (AppModel {
                show_map: !app.show_map,
                ..app
            })
            &&& code == KeyCode::Char('q') ==> after == app && effects == seq![EffectModel::Quit]
            &&& idle_in_table(code) ==> after == app && effects == none
        }),
{
}

// ---------------------------------------------------------------------------
// Keys in the other modes
// ---------------------------------------------------------------------------
/// While one parcel is shown, `j` and the arrow down scroll on, `k` and the arrow
/// up scroll back as far as the start; `q`, Escape and Enter go back to the
/// table; `r` polls the parcel, `m` turns the map on or off, and every other key
/// does nothing. Nothing changes that is not named.
pub proof fn law_keys_in_the_detail_view(app: AppModel, scroll: int, key: KeyEvent, now: Moment)
    requires
        app.mode == (ModeModel::Detail { scroll }),
        0 <= scroll < u16::MAX,
        !(key.code == KeyCode::Char('c') && key.modifiers / 2 % 2 == 1),
    ensures
        ({
            let (after, effects) = app.pressed(key, now);
            let none = Seq::<EffectModel>::empty();
            let code = key.code;
            let moved = |to: int| AppModel { mode: ModeModel::Detail { scroll: to }, ..app };
            &&& code == KeyCode::Char('j') || code == KeyCode::Down ==> effects == none && after
                == moved(scroll + 1)
            &&& code == KeyCode::Char('k') || code == KeyCode::Up ==> effects == none && after
                == moved(
                if scroll > 0 {
                    scroll - 1
                } else {
                    0
                },
            )
            &&& code == KeyCode::Char('q') || code == KeyCode::Esc || code == KeyCode::Enter
                ==> effects == none && after == (AppModel { mode: ModeModel::Normal, ..app })
            &&& code == KeyCode::Char('r') ==> after == app && effects == (if 0 <= app.selected
                < app.parcels.parcels.len() {
                seq![
                    EffectModel::Send(
                        CommandModel::Refresh(app.parcels.parcels[app.selected].number),
                    ),
                ]
            } else {
                none
            })
            &&& code == KeyCode::Char('m') ==> effects == none && after == (AppModel {
                show_map: !app.show_map,
                ..app
            })
            &&& (match code {
                KeyCode::Char(c) => c != 'j' && c != 'k' && c != 'q' && c != 'r' && c != 'm',
                KeyCode::Down | KeyCode::Up | KeyCode::Esc | KeyCode::Enter => false,
                _ => true,
            }) ==> after == app && effects == none
        }),
{
}

/// A yes removes the selected parcel: every parcel of its number goes from the
/// list and what was known of it is forgotten, the others stay in their order and
/// with all that is known of them, and the selection stays where it is, or moves
/// to the last parcel where it would be behind it. Both files are saved and the
/// poller is told. A no, and Escape, change nothing but the mode, and any other
/// key nothing at all.
pub proof fn law_keys_at_the_question(app: AppModel, key: KeyEvent, now: Moment)
    requires
        app.mode is ConfirmRemove,
        0 <= app.selected < app.parcels.parcels.len(),
        !(key.code == KeyCode::Char('c') && key.modifiers / 2 % 2 == 1),
    ensures
        ({
            let (after, effects) = app.pressed(key, now);
            let none = Seq::<EffectModel>::empty();
            let code = key.code;
            let number = app.parcels.parcels[app.selected].number;
            let left = after.parcels.parcels;
            &&& code == KeyCode::Char('y') || code == KeyCode::Char('Y') ==> {
                &&& after.mode is Normal
                &&& left == app.parcels.parcels.filter(|p: ParcelModel| p.number != number)
                &&& after.parcels.home == app.parcels.home
                &&& after.cache.by_number == app.cache.by_number.remove(number)
                &&& after.cache.geo == app.cache.geo
                &&& after.polling == (if app.polling == Some(number) {
                    None
                } else {
                    app.polling
                })
                &&& after.selected == (if app.selected < left.len() {
                    app.selected
                } else if left.len() > 0 {
                    left.len() - 1
                } else {
                    0
                })
                &&& after.last_error == app.last_error
                &&& after.interval == app.interval
                &&& after.show_map == app.show_map
                &&& effects == seq![
                    EffectModel::SaveParcels,
                    EffectModel::SaveState,
                    EffectModel::Send(CommandModel::Remove(number)),
                ]
            }
            &&& code == KeyCode::Char('n') || code == KeyCode::Char('N') || code == KeyCode::Esc
                ==> effects == none && after == (AppModel { mode: ModeModel::Normal, ..app })
            &&& (match code {
                KeyCode::Char(c) => c != 'y' && c != 'Y' && c != 'n' && c != 'N',
                KeyCode::Esc => false,
                _ => true,
            }) ==> after == app && effects == none
        }),
{
    lemma_without_filters(app.parcels.parcels, app.parcels.parcels[app.selected].number);
}

/// Removing a number from a list keeps the parcels of other numbers, in their
/// order, and home.
pub proof fn law_removing_filters_the_list(list: ListModel, number: Seq<char>)
    ensures
        list.removed(number).parcels == list.parcels.filter(
            |p: ParcelModel| p.number != number,
        ),
        list.removed(number).home == list.home,
{
    lemma_without_filters(list.parcels, number);
}

proof fn lemma_without_filters(parcels: Seq<ParcelModel>, number: Seq<char>)
    ensures
        without(parcels, number) == parcels.filter(|p: ParcelModel| p.number != number),
    decreases parcels.len(),
{
    reveal(Seq::filter);
    if parcels.len() > 0 {
        lemma_without_filters(parcels.drop_last(), number);
    } else {
        assert(without(parcels, number) =~= parcels.filter(
            |p: ParcelModel| p.number != number,
        ));
    }
}

// ---------------------------------------------------------------------------
// Entering a parcel
// ---------------------------------------------------------------------------
/// A line holds a number and behind it a label: the number is the first word, in
/// upper case, and the label is the rest, without the white space around it.
/// White space before the number does not matter, and a line without a second
/// word has no label.
pub proof fn law_line_is_number_and_label(
    a: Seq<char>,
    w: Seq<char>,
    b: Seq<char>,
    label: Seq<char>,
    c: Seq<char>,
)
    requires
        all_blank(a),
        w.len() > 0,
        all_ink(w),
        b.len() > 0,
        all_blank(b),
        label.len() > 0,
        !is_white(label[0]),
        !is_white(label.last()),
        all_blank(c),
    ensures
        number_in(a + w + b + label + c) == ascii_upper(w),
        label_in(a + w + b + label + c) == Some(label),
        number_in(a + w + c) == ascii_upper(w),
        label_in(a + w + c) is None,
        number_in(a).len() == 0,
{
    let none = Seq::<char>::empty();
    let t = w + b + label;
    assert(t[0] == w[0] && t.last() == label.last());
    law_trimming_takes_the_ends(a, t, c);
    assert(a + w + b + label + c =~= a + t + c);
    lemma_word_end(w, b + label);
    assert(t =~= w + (b + label));
    assert(t.take(w.len() as int) =~= w);
    let rest = t.skip(w.len() as int + 1);
    assert(rest =~= b.skip(1) + label + none);
    assert forall|i: int| 0 <= i < b.skip(1).len() implies is_white(#[trigger] b.skip(1)[i]) by {
        assert(b.skip(1)[i] == b[i + 1]);
    }
    law_trimming_takes_the_ends(b.skip(1), label, none);
    law_trimming_takes_the_ends(a, w, c);
    lemma_word_end(w, none);
    assert(w + none =~= w);
    assert(w.take(w.len() as int) =~= w);
    law_trimming_takes_the_ends(a, none, none);
    assert(a + none + none =~= a);
}

proof fn lemma_word_end(w: Seq<char>, rest: Seq<char>)
    requires
        all_ink(w),
        rest.len() > 0 ==> is_white(rest[0]),
    ensures
        word_len(w + rest) == w.len(),
{
    lemma_word_len(w + rest);
    let n = word_len(w + rest) as int;
    if n < w.len() {
        assert((w + rest)[n] == w[n]);
    }
    if n > w.len() {
        assert((w + rest)[w.len() as int] == rest[0]);
    }
}

/// A line with a number that is not in the list adds that parcel at the end of
/// the list, with its label and the time, selects it, saves the list and tells
/// the poller. A number that is in the list is refused with a word, and a line
/// without a number does nothing. The dashboard is then back at the table, and
/// nothing else changes.
pub proof fn law_entering_a_line(app: AppModel, line: Seq<char>, now: Moment)
    ensures
        ({
            let (after, effects) = app.entered(line, now);
            let number = number_in(line);
            let none = Seq::<EffectModel>::empty();
            let back = AppModel { mode: ModeModel::Normal, ..app };
            &&& number.len() == 0 ==> after == back && effects == none
            &&& number.len() > 0 && is_listed(app, number) ==> effects == none && after == (
            AppModel { last_error: Some(number + " is already tracked"@), ..back })
            &&& number.len() > 0 && !is_listed(app, number) ==> {
                &&& after == (AppModel {
                    parcels: ListModel {
                        parcels: app.parcels.parcels.push(
                            ParcelModel { number, label: label_in(line), added: now },
                        ),
                        home: app.parcels.home,
                    },
                    selected: app.parcels.parcels.len() as int,
                    ..back
                })
                &&& effects == seq![
                    EffectModel::SaveParcels,
                    EffectModel::Send(CommandModel::Add(number)),
                ]
            }
        }),
{
    let number = number_in(line);
    assert(lists(app.parcels.parcels, number) == is_listed(app, number));
    law_entered_number_is_normalized(line);
    let t = trimmed(line);
    crate::text::law_trimmed_is_settled(t.skip(word_len(t) as int + 1));
}

/// While a line is being entered, Enter enters it, Escape gives it up, and every
/// other key goes into the line.
pub proof fn law_keys_while_entering(
    app: AppModel,
    keys: Seq<KeyEvent>,
    key: KeyEvent,
    now: Moment,
)
    requires
        app.mode == ModeModel::Adding(keys),
        !(key.code == KeyCode::Char('c') && key.modifiers / 2 % 2 == 1),
    ensures
        key.code == KeyCode::Enter ==> app.pressed(key, now) == app.entered(line_text(keys), now),
        key.code == KeyCode::Esc ==> app.pressed(key, now) == (
            AppModel { mode: ModeModel::Normal, ..app },
            Seq::<EffectModel>::empty(),
        ),
        key.code != KeyCode::Enter && key.code != KeyCode::Esc ==> app.pressed(key, now) == (
            AppModel { mode: ModeModel::Adding(keys.push(key)), ..app },
            Seq::<EffectModel>::empty(),
        ),
{
}

/// Control-C, with whatever else is held, quits from anywhere and changes
/// nothing; without the control key a `c` does not.
pub proof fn law_control_c_quits(app: AppModel, key: KeyEvent, now: Moment)
    requires
        key.code == KeyCode::Char('c'),
    ensures
        key.modifiers / 2 % 2 == 1 ==> app.pressed(key, now) == (app, seq![EffectModel::Quit]),
        key.modifiers / 2 % 2 != 1 ==> !app.pressed(key, now).1.contains(EffectModel::Quit),
{
}

// ---------------------------------------------------------------------------
// The list
// ---------------------------------------------------------------------------
/// A number that is not blank and not in the list is taken in, in upper case and
/// without white space around it, at the end, with the time and with its label,
/// if that is not blank; any other number leaves the list as it is.
pub proof fn law_adding_to_the_list(
    list: ListModel,
    number: Seq<char>,
    label: Option<Seq<char>>,
    now: Moment,
)
    ensures
        ({
            let kept = ascii_upper(trimmed(number));
            let there = exists|i: int|
                0 <= i < list.parcels.len() && (#[trigger] list.parcels[i]).number == kept;
            let added = list.added(number, label, now);
            &&& list.takes(number) == (!all_blank(number) && !there)
            &&& all_blank(number) || there ==> added == list
            &&& !all_blank(number) && !there ==> added == (ListModel {
                parcels: list.parcels.push(
                    ParcelModel {
                        number: kept,
                        label: match label {
                            Some(l) => if all_blank(l) {
                                None
                            } else {
                                Some(trimmed(l))
                            },
                            None => None,
                        },
                        added: now,
                    },
                ),
                home: list.home,
            })
        }),
{
    law_blank_text_trims_to_nothing(number);
    if let Some(l) = label {
        law_blank_text_trims_to_nothing(l);
    }
    assert(lists(list.parcels, normalized(number)) == exists|i: int|
        0 <= i < list.parcels.len() && (#[trigger] list.parcels[i]).number == normalized(number));
}

/// A number is in the list where a parcel has it.
pub proof fn law_list_holds_its_numbers(list: ListModel, number: Seq<char>)
    ensures
        list.contains(number) <==> exists|i: int|
            0 <= i < list.parcels.len() && (#[trigger] list.parcels[i]).number == number,
{
}

} // verus!
