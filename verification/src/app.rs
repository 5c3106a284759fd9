//! The dashboard's state, and what keys and polls do to it.
use vstd::prelude::*;

use crate::clock::{
    backoff, backoff_factor, has_room, lemma_backoff_factor, shifted, span_of_interval, Interval,
    Moment, TimeSpan, Timestamp, NANOS,
};
use crate::keys::{all_typing, line_text, typed, KeyCode, KeyEvent, LineInput};
use crate::poller::{
    one_more, outcome_model, CommandModel, PollCommand, PollEvent, PollEventModel, PollResult,
    ScheduleModel,
};
use crate::provider::TrackingModel;
use crate::store::{
    kept_label, law_add_keeps_the_list, law_remove_keeps_the_list, normalized, CacheModel,
    ListModel, Parcel, ParcelList, ParcelModel, ParcelState, ParcelStateModel, StateCache,
};
use crate::text::{
    ascii_upper, chars_of, concat2, concat3, is_white, is_whitespace, law_trimmed_is_settled,
    lemma_upper_keeps_white, lemma_word_len, same_text, text_between, to_ascii_upper, trim,
    trim_end, trim_start, trimmed, word_len,
};
use crate::text_map::{lemma_deep_insert, lemma_deep_remove};

verus! {

/// What the keys are for.
#[derive(Debug)]
pub enum Mode {
    Normal,
    /// A tracking number is being entered.
    Adding(LineInput),
    /// Removing the selected parcel has to be confirmed.
    ConfirmRemove,
    /// The selected parcel is shown in full.
    Detail { scroll: u16 },
}

/// The value of a [`Mode`].
pub enum ModeModel {
    Normal,
    Adding(Seq<KeyEvent>),
    ConfirmRemove,
    Detail { scroll: int },
}

impl DeepView for Mode {
    type V = ModeModel;

    open spec fn deep_view(&self) -> ModeModel {
        match self {
            Mode::Normal => ModeModel::Normal,
            Mode::Adding(input) => ModeModel::Adding(input@),
            Mode::ConfirmRemove => ModeModel::ConfirmRemove,
            Mode::Detail { scroll } => ModeModel::Detail { scroll: *scroll as int },
        }
    }
}

/// What has to be done outside after a key or a poll.
#[derive(Debug, PartialEq, Eq)]
pub enum Effect {
    SaveParcels,
    SaveState,
    Send(PollCommand),
    Quit,
}

/// The value of an [`Effect`].
pub enum EffectModel {
    SaveParcels,
    SaveState,
    Send(CommandModel),
    Quit,
}

impl DeepView for Effect {
    type V = EffectModel;

    open spec fn deep_view(&self) -> EffectModel {
        match self {
            Effect::SaveParcels => EffectModel::SaveParcels,
            Effect::SaveState => EffectModel::SaveState,
            Effect::Send(c) => EffectModel::Send(c.deep_view()),
            Effect::Quit => EffectModel::Quit,
        }
    }
}

/// The dashboard's state.
#[derive(Debug)]
pub struct App {
    pub parcels: ParcelList,
    pub cache: StateCache,
    pub mode: Mode,
    /// The position of the selected parcel in the list.
    pub selected: usize,
    /// The parcel that is being polled.
    pub polling: Option<String>,
    pub last_error: Option<String>,
    pub interval: Interval,
    pub show_map: bool,
}

/// The value of an [`App`].
pub struct AppModel {
    pub parcels: ListModel,
    pub cache: CacheModel,
    pub mode: ModeModel,
    pub selected: int,
    pub polling: Option<Seq<char>>,
    pub last_error: Option<Seq<char>>,
    pub interval: int,
    pub show_map: bool,
}

impl DeepView for App {
    type V = AppModel;

    open spec fn deep_view(&self) -> AppModel {
        AppModel {
            parcels: self.parcels.deep_view(),
            cache: self.cache.deep_view(),
            mode: self.mode.deep_view(),
            selected: self.selected as int,
            polling: self.polling.deep_view(),
            last_error: self.last_error.deep_view(),
            interval: self.interval@,
            show_map: self.show_map,
        }
    }
}

// ---------------------------------------------------------------------------
// Number and label
// ---------------------------------------------------------------------------
/// The number in a line of input: its first word, in upper case.
pub open spec fn number_in(input: Seq<char>) -> Seq<char> {
    let t = trimmed(input);
    ascii_upper(t.take(word_len(t) as int))
}

/// The label in a line of input: what follows the first word, without white
/// space around it.
pub open spec fn label_in(input: Seq<char>) -> Option<Seq<char>> {
    let t = trimmed(input);
    if word_len(t) < t.len() {
        kept_label(Some(t.skip(word_len(t) as int + 1)))
    } else {
        None
    }
}

/// "RB123 camera body" is the number "RB123" and the label "camera body". The
/// number comes in upper case.
pub fn split_number_and_label(input: &str) -> (r: (String, Option<String>))
    ensures
        r.0@ == number_in(input@),
        r.1.deep_view() == label_in(input@),
{
    let line = trim(input);
    let chars = chars_of(&line);
    let mut n: usize = 0;
    assert(chars@.skip(0) =~= chars@);
    while n < chars.len() && !is_whitespace(chars[n])
        invariant
            n <= chars.len(),
            word_len(chars@) == n + word_len(chars@.skip(n as int)),
        decreases chars.len() - n,
    {
        assert(chars@.skip(n as int).skip(1) =~= chars@.skip(n + 1));
        n += 1;
    }
    let word = text_between(&chars, 0, n);
    assert(word@ =~= chars@.take(n as int));
    let number = to_ascii_upper(&word);
    let label = if n < chars.len() {
        let rest = text_between(&chars, n + 1, chars.len());
        assert(rest@ =~= chars@.skip(n + 1));
        let l = trim(&rest);
        if l.as_str().is_empty() {
            None
        } else {
            Some(l)
        }
    } else {
        None
    };
    (number, label)
}

/// A number that was read from a line is kept as it is.
pub proof fn law_entered_number_is_normalized(input: Seq<char>)
    ensures
        normalized(number_in(input)) == number_in(input),
{
    let t = trimmed(input);
    lemma_word_len(t);
    let w = t.take(word_len(t) as int);
    let u = ascii_upper(w);
    if w.len() > 0 {
        lemma_upper_keeps_white(w[0]);
        lemma_upper_keeps_white(w.last());
        assert(w[0] == t[0]);
        assert(w.last() == t[word_len(t) - 1]);
        assert(!is_white(u[0]) && !is_white(u.last()));
    }
    assert(trim_start(u) == u);
    assert(trim_end(u) == u);
    assert(ascii_upper(u) =~= u);
}

// ---------------------------------------------------------------------------
// Keys
// ---------------------------------------------------------------------------
/// No effect at all.
pub open spec fn none() -> Seq<EffectModel> {
    Seq::empty()
}

impl AppModel {
    /// The number of the selected parcel, if one is.
    pub open spec fn selected_number(self) -> Option<Seq<char>> {
        if 0 <= self.selected < self.parcels.parcels.len() {
            Some(self.parcels.parcels[self.selected].number)
        } else {
            None
        }
    }

    /// The dashboard in another mode.
    pub open spec fn in_mode(self, mode: ModeModel) -> AppModel {
        AppModel { mode, ..self }
    }

    /// The command to poll the selected parcel at once.
    pub open spec fn refresh(self) -> Seq<EffectModel> {
        match self.selected_number() {
            Some(n) => seq![EffectModel::Send(CommandModel::Refresh(n))],
            None => none(),
        }
    }

    /// A key in normal mode.
    pub open spec fn pressed_normal(self, key: KeyEvent) -> (AppModel, Seq<EffectModel>) {
        let len = self.parcels.parcels.len();
        match key.code {
            KeyCode::Char('q') => (self, seq![EffectModel::Quit]),
            KeyCode::Char('j') | KeyCode::Down => if self.selected + 1 < len {
                (AppModel { selected: self.selected + 1, ..self }, none())
            } else {
                (self, none())
            },
            KeyCode::Char('k') | KeyCode::Up => if self.selected > 0 {
                (AppModel { selected: self.selected - 1, ..self }, none())
            } else {
                (self, none())
            },
            KeyCode::Char('a') => (self.in_mode(ModeModel::Adding(Seq::empty())), none()),
            KeyCode::Char('d') => if self.selected_number() is Some {
                (self.in_mode(ModeModel::ConfirmRemove), none())
            } else {
                (self, none())
            },
            KeyCode::Char('r') => (self, self.refresh()),
            KeyCode::Char('R') => (self, seq![EffectModel::Send(CommandModel::RefreshAll)]),
            KeyCode::Char('m') => (AppModel { show_map: !self.show_map, ..self }, none()),
            KeyCode::Enter => if self.selected_number() is Some {
                (self.in_mode(ModeModel::Detail { scroll: 0 }), none())
            } else {
                (self, none())
            },
            _ => (self, none()),
        }
    }

    /// The end of entering a number: `line` is what was entered.
    pub open spec fn entered(self, line: Seq<char>, now: Moment) -> (AppModel, Seq<EffectModel>) {
        let number = number_in(line);
        let done = self.in_mode(ModeModel::Normal);
        if number.len() == 0 {
            (done, none())
        } else if self.parcels.contains(number) {
            (
                AppModel { last_error: Some(number + " is already tracked"@), ..done },
                none(),
            )
        } else {
            let parcels = self.parcels.added(number, label_in(line), now);
            (
                AppModel { parcels, selected: parcels.parcels.len() - 1, ..done },
                seq![EffectModel::SaveParcels, EffectModel::Send(CommandModel::Add(number))],
            )
        }
    }

    /// A key while a number is being entered.
    pub open spec fn pressed_adding(self, keys: Seq<KeyEvent>, key: KeyEvent, now: Moment) -> (
        AppModel,
        Seq<EffectModel>,
    ) {
        match key.code {
            KeyCode::Esc => (self.in_mode(ModeModel::Normal), none()),
            KeyCode::Enter => self.entered(line_text(keys), now),
            _ => (self.in_mode(ModeModel::Adding(keys.push(key))), none()),
        }
    }

    /// The selected parcel is removed.
    pub open spec fn removed(self) -> (AppModel, Seq<EffectModel>) {
        let done = self.in_mode(ModeModel::Normal);
        match self.selected_number() {
            Some(number) => {
                let parcels = self.parcels.removed(number);
                (
                    AppModel {
                        parcels,
                        cache: CacheModel {
                            by_number: self.cache.by_number.remove(number),
                            geo: self.cache.geo,
                        },
                        polling: if self.polling == Some(number) {
                            None
                        } else {
                            self.polling
                        },
                        selected: clamped(self.selected, parcels.parcels.len()),
                        ..done
                    },
                    seq![
                        EffectModel::SaveParcels,
                        EffectModel::SaveState,
                        EffectModel::Send(CommandModel::Remove(number)),
                    ],
                )
            },
            None => (done, none()),
        }
    }

    /// A key while a removal has to be confirmed.
    pub open spec fn pressed_confirm(self, key: KeyEvent) -> (AppModel, Seq<EffectModel>) {
        match key.code {
            KeyCode::Char('y') | KeyCode::Char('Y') => self.removed(),
            KeyCode::Char('n') | KeyCode::Char('N') | KeyCode::Esc => (
                self.in_mode(ModeModel::Normal),
                none(),
            ),
            _ => (self, none()),
        }
    }

    /// A key while a parcel is shown in full.
    pub open spec fn pressed_detail(self, scroll: int, key: KeyEvent) -> (
        AppModel,
        Seq<EffectModel>,
    ) {
        match key.code {
            KeyCode::Char('q') | KeyCode::Esc | KeyCode::Enter => (
                self.in_mode(ModeModel::Normal),
                none(),
            ),
            KeyCode::Char('j') | KeyCode::Down => if scroll < u16::MAX {
                (self.in_mode(ModeModel::Detail { scroll: scroll + 1 }), none())
            } else {
                (self, none())
            },
            KeyCode::Char('k') | KeyCode::Up => if scroll > 0 {
                (self.in_mode(ModeModel::Detail { scroll: scroll - 1 }), none())
            } else {
                (self, none())
            },
            KeyCode::Char('r') => (self, self.refresh()),
            KeyCode::Char('m') => (AppModel { show_map: !self.show_map, ..self }, none()),
            _ => (self, none()),
        }
    }

    /// What a key does to the dashboard, and what has to be done then.
    pub open spec fn pressed(self, key: KeyEvent, now: Moment) -> (AppModel, Seq<EffectModel>) {
        if key.code == KeyCode::Char('c') && key.with_control() {
            (self, seq![EffectModel::Quit])
        } else {
            match self.mode {
                ModeModel::Normal => self.pressed_normal(key),
                ModeModel::Adding(keys) => self.pressed_adding(keys, key, now),
                ModeModel::ConfirmRemove => self.pressed_confirm(key),
                ModeModel::Detail { scroll } => self.pressed_detail(scroll, key),
            }
        }
    }
}

/// The position nearest to `selected` in a list of `len`.
pub open spec fn clamped(selected: int, len: nat) -> int {
    if len == 0 {
        0
    } else if selected < len {
        selected
    } else {
        len - 1
    }
}

impl App {
    /// The dashboard at its start.
    pub fn new(parcels: ParcelList, cache: StateCache, interval: Interval) -> (r: App)
        ensures
            r.deep_view() == (AppModel {
                parcels: parcels.deep_view(),
                cache: cache.deep_view(),
                mode: ModeModel::Normal,
                selected: 0,
                polling: None,
                last_error: None,
                interval: interval@,
                show_map: true,
            }),
    {
        App {
            parcels,
            cache,
            mode: Mode::Normal,
            selected: 0,
            polling: None,
            last_error: None,
            interval,
            show_map: true,
        }
    }

    /// The selected parcel, if one is.
    pub fn selected_parcel(&self) -> (r: Option<&Parcel>)
        ensures
            match r {
                Some(p) => self.selected < self.parcels.parcels.len() && *p
                    == self.parcels.parcels[self.selected as int],
                None => self.selected >= self.parcels.parcels.len(),
            },
    {
        if self.selected < self.parcels.parcels.len() {
            Some(&self.parcels.parcels[self.selected])
        } else {
            None
        }
    }

    /// What is known of the parcel `number`.
    pub fn state_for(&self, number: &str) -> (r: Option<&ParcelState>)
        ensures
            match r {
                Some(s) => self.deep_view().cache.by_number.contains_key(number@)
                    && s.deep_view() == self.deep_view().cache.by_number[number@] && *s
                    == self.cache.by_number@[number@],
                None => !self.deep_view().cache.by_number.contains_key(number@),
            },
    {
        self.cache.by_number.get(number)
    }

    /// The number of the selected parcel, if one is.
    fn selected_number(&self) -> (r: Option<String>)
        ensures
            r.deep_view() == self.deep_view().selected_number(),
    {
        match self.selected_parcel() {
            Some(p) => {
                assert(self.deep_view().parcels.parcels[self.selected as int] == p.deep_view());
                Some(p.number.clone())
            },
            None => None,
        }
    }

    /// Moves the selection back into the list.
    fn clamp_selection(&mut self)
        ensures
            final(self).deep_view() == (AppModel {
                selected: clamped(
                    old(self).selected as int,
                    old(self).deep_view().parcels.parcels.len(),
                ),
                ..old(self).deep_view()
            }),
    {
        let len = self.parcels.parcels.len();
        if len == 0 {
            self.selected = 0;
        } else if self.selected >= len {
            self.selected = len - 1;
        }
    }

    /// The command to poll the selected parcel at once.
    fn refresh_selected(&self) -> (r: Vec<Effect>)
        ensures
            r.deep_view() == self.deep_view().refresh(),
    {
        match self.selected_number() {
            Some(number) => one_effect(Effect::Send(PollCommand::Refresh(number))),
            None => no_effect(),
        }
    }

    /// Takes in a key in normal mode.
    fn handle_normal(&mut self, key: KeyEvent) -> (r: Vec<Effect>)
        requires
            old(self).mode is Normal,
        ensures
            (final(self).deep_view(), r.deep_view()) == old(self).deep_view().pressed_normal(key),
    {
        match key.code {
            KeyCode::Char('q') => one_effect(Effect::Quit),
            KeyCode::Char('j') | KeyCode::Down => {
                let len = self.parcels.parcels.len();
                if self.selected < len && self.selected + 1 < len {
                    self.selected = self.selected + 1;
                }
                no_effect()
            },
            KeyCode::Char('k') | KeyCode::Up => {
                if self.selected > 0 {
                    self.selected = self.selected - 1;
                }
                no_effect()
            },
            KeyCode::Char('a') => {
                self.mode = Mode::Adding(LineInput::new());
                no_effect()
            },
            KeyCode::Char('d') => {
                if self.selected_parcel().is_some() {
                    self.mode = Mode::ConfirmRemove;
                }
                no_effect()
            },
            KeyCode::Char('r') => self.refresh_selected(),
            KeyCode::Char('R') => one_effect(Effect::Send(PollCommand::RefreshAll)),
            KeyCode::Char('m') => {
                self.show_map = !self.show_map;
                no_effect()
            },
            KeyCode::Enter => {
                if self.selected_parcel().is_some() {
                    self.mode = Mode::Detail { scroll: 0 };
                }
                no_effect()
            },
            _ => no_effect(),
        }
    }
}

impl App {
    /// Takes in the line that was entered: the parcel is added, unless there is
    /// no number or it is tracked already.
    pub fn enter_line(&mut self, line: &str, now: Timestamp) -> (r: Vec<Effect>)
        ensures
            (final(self).deep_view(), r.deep_view()) == old(self).deep_view().entered(line@, now@),
    {
        let (number, label) = split_number_and_label(line);
        self.mode = Mode::Normal;
        if number.as_str().is_empty() {
            return no_effect();
        }
        if self.parcels.contains(&number) {
            self.last_error = Some(concat2(&number, " is already tracked"));
            return no_effect();
        }
        proof {
            law_entered_number_is_normalized(line@);
        }
        let label = match &label {
            Some(l) => Some(l.as_str()),
            None => None,
        };
        assert(kept_label(label_in(line@)) == label_in(line@)) by {
            let t = trimmed(line@);
            law_trimmed_is_settled(t.skip(word_len(t) as int + 1));
        }
        self.parcels.add(&number, label, now);
        assert(self.parcels.parcels.deep_view().len() > 0);
        self.selected = self.parcels.parcels.len() - 1;
        let mut r: Vec<Effect> = Vec::new();
        r.push(Effect::SaveParcels);
        let ghost n = number@;
        r.push(Effect::Send(PollCommand::Add(number)));
        assert(r.deep_view() =~= seq![
            EffectModel::SaveParcels,
            EffectModel::Send(CommandModel::Add(n)),
        ]);
        r
    }

    /// Removes the selected parcel.
    fn remove_selected(&mut self) -> (r: Vec<Effect>)
        ensures
            (final(self).deep_view(), r.deep_view()) == old(self).deep_view().removed(),
    {
        let found = self.selected_number();
        self.mode = Mode::Normal;
        let number = match found {
            Some(n) => n,
            None => {
                return no_effect();
            },
        };
        self.parcels.remove(&number);
        let ghost was = self.cache.by_number;
        self.cache.by_number.remove(&number);
        proof {
            lemma_deep_remove(was, self.cache.by_number, number@);
        }
        self.clear_polling(&number);
        self.clamp_selection();
        let mut r: Vec<Effect> = Vec::new();
        r.push(Effect::SaveParcels);
        r.push(Effect::SaveState);
        let ghost n = number@;
        r.push(Effect::Send(PollCommand::Remove(number)));
        assert(r.deep_view() =~= seq![
            EffectModel::SaveParcels,
            EffectModel::SaveState,
            EffectModel::Send(CommandModel::Remove(n)),
        ]);
        r
    }

    /// Forgets that the parcel `number` is being polled.
    fn clear_polling(&mut self, number: &str)
        ensures
            final(self).deep_view() == (AppModel {
                polling: if old(self).deep_view().polling == Some(number@) {
                    None
                } else {
                    old(self).deep_view().polling
                },
                ..old(self).deep_view()
            }),
    {
        let same = match &self.polling {
            Some(p) => same_text(p, number),
            None => false,
        };
        if same {
            self.polling = None;
        }
    }

    /// Takes in a key and says what has to be done then.
    pub fn handle_key(&mut self, key: KeyEvent, now: Timestamp) -> (r: Vec<Effect>)
        ensures
            (final(self).deep_view(), r.deep_view()) == old(self).deep_view().pressed(key, now@),
            old(self).deep_view().mode matches ModeModel::Adding(keys) ==> (key.code
                == KeyCode::Enter && all_typing(keys) ==> (final(self).deep_view(), r.deep_view())
                == old(self).deep_view().entered(typed(keys), now@)),
    {
        if key.code == KeyCode::Char('c') && key.has_control() {
            return one_effect(Effect::Quit);
        }
        match &self.mode {
            Mode::Normal => self.handle_normal(key),
            Mode::Adding(input) => match key.code {
                KeyCode::Esc => {
                    self.mode = Mode::Normal;
                    no_effect()
                },
                KeyCode::Enter => {
                    let line = input.value();
                    self.enter_line(&line, now)
                },
                _ => {
                    if let Mode::Adding(input) = &mut self.mode {
                        input.press(key);
                    }
                    no_effect()
                },
            },
            Mode::ConfirmRemove => match key.code {
                KeyCode::Char('y') | KeyCode::Char('Y') => self.remove_selected(),
                KeyCode::Char('n') | KeyCode::Char('N') | KeyCode::Esc => {
                    self.mode = Mode::Normal;
                    no_effect()
                },
                _ => no_effect(),
            },
            Mode::Detail { scroll } => {
                let scroll: u16 = *scroll;
                match key.code {
                    KeyCode::Char('q') | KeyCode::Esc | KeyCode::Enter => {
                        self.mode = Mode::Normal;
                        no_effect()
                    },
                    KeyCode::Char('j') | KeyCode::Down => {
                        if scroll < u16::MAX {
                            self.mode = Mode::Detail { scroll: scroll + 1 };
                        }
                        no_effect()
                    },
                    KeyCode::Char('k') | KeyCode::Up => {
                        if scroll > 0 {
                            self.mode = Mode::Detail { scroll: scroll - 1 };
                        }
                        no_effect()
                    },
                    KeyCode::Char('r') => self.refresh_selected(),
                    KeyCode::Char('m') => {
                        self.show_map = !self.show_map;
                        no_effect()
                    },
                    _ => no_effect(),
                }
            },
        }
    }
}

// ---------------------------------------------------------------------------
// Polls
// ---------------------------------------------------------------------------
/// What is known of a parcel before anything is.
pub open spec fn blank_state(now: Moment) -> ParcelStateModel {
    ParcelStateModel { tracking: None, last_error: None, failures: 0, next_poll: now }
}

/// What is known of a parcel after a poll with this outcome.
pub open spec fn polled(
    state: ParcelStateModel,
    result: Result<TrackingModel, Seq<char>>,
    interval: int,
    now: Moment,
) -> ParcelStateModel {
    match result {
        Ok(t) => ParcelStateModel {
            tracking: Some(t),
            last_error: None,
            failures: 0,
            next_poll: shifted(now, span_of_interval(interval)),
        },
        Err(e) => ParcelStateModel {
            tracking: state.tracking,
            last_error: Some(e),
            failures: one_more(state.failures),
            next_poll: shifted(
                now,
                backoff(span_of_interval(interval), one_more(state.failures)),
            ),
        },
    }
}

impl AppModel {
    /// What is known of the parcel `number`, as far as anything is.
    pub open spec fn state_or_blank(self, number: Seq<char>, now: Moment) -> ParcelStateModel {
        if self.cache.by_number.contains_key(number) {
            self.cache.by_number[number]
        } else {
            blank_state(now)
        }
    }

    /// The outcome of a poll. That of a parcel that is not in the list any more
    /// is dropped.
    pub open spec fn told_result(
        self,
        number: Seq<char>,
        result: Result<TrackingModel, Seq<char>>,
        now: Moment,
    ) -> (AppModel, Seq<EffectModel>) {
        let idle = AppModel {
            polling: if self.polling == Some(number) {
                None
            } else {
                self.polling
            },
            ..self
        };
        if !self.parcels.contains(number) {
            (idle, none())
        } else {
            let state = polled(self.state_or_blank(number, now), result, self.interval, now);
            (
                AppModel {
                    cache: CacheModel {
                        by_number: self.cache.by_number.insert(number, state),
                        geo: self.cache.geo,
                    },
                    last_error: match result {
                        Ok(_) => self.last_error,
                        Err(e) => Some(number + ": "@ + e),
                    },
                    ..idle
                },
                seq![EffectModel::SaveState],
            )
        }
    }

    /// What the poller's message does to the dashboard, and what has to be done
    /// then.
    pub open spec fn told(self, event: PollEventModel, now: Moment) -> (
        AppModel,
        Seq<EffectModel>,
    ) {
        match event {
            PollEventModel::Started(number) => (
                AppModel { polling: Some(number), ..self },
                none(),
            ),
            PollEventModel::Finished { number, result } => self.told_result(number, result, now),
            PollEventModel::Geocoded { key, coord } => (
                AppModel {
                    cache: CacheModel {
                        by_number: self.cache.by_number,
                        geo: self.cache.geo.insert(key, coord),
                    },
                    ..self
                },
                seq![EffectModel::SaveState],
            ),
        }
    }

    /// The time of the next poll that the outcome of a poll leads to can be
    /// represented, and so can the wait before it is cut to an hour.
    pub open spec fn can_take(
        self,
        number: Seq<char>,
        result: Result<TrackingModel, Seq<char>>,
        now: Moment,
    ) -> bool {
        self.parcels.contains(number) ==> {
            let before = self.state_or_blank(number, now);
            &&& polled(before, result, self.interval, now).next_poll.valid()
            &&& result is Err ==> span_of_interval(self.interval) * backoff_factor(
                one_more(before.failures),
            ) / (NANOS as int) < i64::MAX
        }
    }
}

impl App {
    /// Takes in the outcome of a poll.
    fn apply_poll_result(&mut self, r: PollResult, now: Timestamp) -> (out: Vec<Effect>)
        requires
            old(self).deep_view().can_take(r.number@, outcome_model(r.result), now@),
        ensures
            (final(self).deep_view(), out.deep_view()) == old(self).deep_view().told_result(
                r.number@,
                outcome_model(r.result),
                now@,
            ),
    {
        let PollResult { number, result } = r;
        let ghost om = outcome_model(result);
        self.clear_polling(&number);
        if !self.parcels.contains(&number) {
            return no_effect();
        }
        let ghost was = self.cache.by_number;
        let known = self.cache.by_number.remove(&number);
        let ghost before = old(self).deep_view().state_or_blank(number@, now@);
        let (tracking, failures) = match known {
            Some(s) => (s.tracking, s.failures),
            None => (None, 0u32),
        };
        let state = match result {
            Ok(t) => ParcelState {
                tracking: Some(t),
                last_error: None,
                failures: 0,
                next_poll: now.plus(&self.interval.to_span()),
            },
            Err(message) => {
                let failures: u32 = if failures < u32::MAX {
                    failures + 1
                } else {
                    failures
                };
                proof {
                    lemma_backoff_factor(failures as nat);
                }
                let wait = if self.interval.fits_span() {
                    self.interval.backoff_span(failures)
                } else {
                    TimeSpan::zero()
                };
                self.last_error = Some(concat3(&number, ": ", &message));
                ParcelState {
                    tracking,
                    last_error: Some(message),
                    failures,
                    next_poll: now.plus(&wait),
                }
            },
        };
        let ghost sm = state.deep_view();
        let ghost n = number@;
        let ghost middle = self.cache.by_number;
        assert(sm == polled(before, om, old(self).deep_view().interval, now@));
        self.cache.by_number.insert(number, state);
        proof {
            lemma_deep_remove(was, middle, n);
            lemma_deep_insert(middle, self.cache.by_number, n, state);
            assert(was.deep_view().remove(n).insert(n, sm) =~= was.deep_view().insert(n, sm));
        }
        one_effect(Effect::SaveState)
    }

    /// Takes in a message of the poller. `Started` comes for every poll,
    /// scheduled or asked for; `Finished` brings its outcome.
    pub fn apply_poll_event(&mut self, event: PollEvent, now: Timestamp) -> (r: Vec<Effect>)
        requires
            event.deep_view() matches PollEventModel::Finished { number, result } ==> old(
                self,
            ).deep_view().can_take(number, result, now@),
        ensures
            (final(self).deep_view(), r.deep_view()) == old(self).deep_view().told(
                event.deep_view(),
                now@,
            ),
    {
        match event {
            PollEvent::Started(number) => {
                self.polling = Some(number);
                no_effect()
            },
            PollEvent::Finished(r) => self.apply_poll_result(r, now),
            PollEvent::Geocoded { key, coord } => {
                self.cache.geo.insert(key, coord);
                one_effect(Effect::SaveState)
            },
        }
    }
}

// ---------------------------------------------------------------------------
// What could not be done
// ---------------------------------------------------------------------------
/// What could not be done outside, and why.
#[derive(Debug)]
pub enum Failure {
    SavingParcels(String),
    SavingState(String),
    PollerStopped,
}

/// The failure in words.
pub open spec fn failure_text(failure: Failure) -> Seq<char> {
    match failure {
        Failure::SavingParcels(e) => "saving parcels: "@ + e@,
        Failure::SavingState(e) => "saving state: "@ + e@,
        Failure::PollerStopped => "poller stopped"@,
    }
}

impl App {
    /// Notes that something could not be done.
    pub fn note_failure(&mut self, failure: Failure)
        ensures
            final(self).deep_view() == (AppModel {
                last_error: Some(failure_text(failure)),
                ..old(self).deep_view()
            }),
    {
        let text = match failure {
            Failure::SavingParcels(e) => concat2("saving parcels: ", &e),
            Failure::SavingState(e) => concat2("saving state: ", &e),
            Failure::PollerStopped => "poller stopped".to_owned(),
        };
        self.last_error = Some(text);
    }
}

// ---------------------------------------------------------------------------
// What holds of every run
// ---------------------------------------------------------------------------
impl AppModel {
    /// The selection is in the list, or at its start where the list is empty.
    pub open spec fn selects(self) -> bool {
        0 <= self.selected && (self.selected < self.parcels.parcels.len() || self.selected == 0)
    }
}

/// No key and no poll moves the selection out of the list.
pub proof fn law_selection_stays_in_the_list(
    app: AppModel,
    key: KeyEvent,
    event: PollEventModel,
    now: Moment,
)
    requires
        app.selects(),
    ensures
        app.pressed(key, now).0.selects(),
        app.told(event, now).0.selects(),
{
    if let ModeModel::Adding(keys) = app.mode {
        law_entered_number_is_normalized(line_text(keys));
    }
}

/// No key and no poll lets a number into the list that is empty, not normalized
/// or there already.
pub proof fn law_list_stays_well_kept(
    app: AppModel,
    key: KeyEvent,
    event: PollEventModel,
    now: Moment,
)
    requires
        app.parcels.well_kept(),
    ensures
        app.pressed(key, now).0.parcels.well_kept(),
        app.told(event, now).0.parcels.well_kept(),
{
    if let ModeModel::Adding(keys) = app.mode {
        let line = line_text(keys);
        law_add_keeps_the_list(app.parcels, number_in(line), label_in(line), now);
    }
    if let Some(number) = app.selected_number() {
        law_remove_keeps_the_list(app.parcels, number, number);
    }
}

/// What a key changes is saved: whenever the list has changed it is saved, and
/// the poller hears of it; whenever what is known has changed it is saved.
pub proof fn law_changes_are_saved(
    app: AppModel,
    key: KeyEvent,
    event: PollEventModel,
    now: Moment,
)
    ensures
        ({
            let (after, effects) = app.pressed(key, now);
            &&& after.parcels != app.parcels ==> effects.contains(EffectModel::SaveParcels)
                && effects.last() is Send
            &&& after.cache != app.cache ==> effects.contains(EffectModel::SaveState)
        }),
        ({
            let (after, effects) = app.told(event, now);
            &&& after.parcels == app.parcels
            &&& after.cache != app.cache ==> effects.contains(EffectModel::SaveState)
        }),
{
    let (after, effects) = app.pressed(key, now);
    if effects.len() == 2 {
        assert(effects[0] is SaveParcels);
    }
    if effects.len() == 3 {
        assert(effects[0] is SaveParcels && effects[1] is SaveState);
    }
    let (after, effects) = app.told(event, now);
    if effects.len() == 1 {
        assert(effects[0] is SaveState);
    }
}

/// A number that is new is added with its label, at the end of the list, and is
/// then selected; nothing else of the list changes.
pub proof fn law_entered_parcel_is_added(app: AppModel, line: Seq<char>, now: Moment)
    requires
        number_in(line).len() > 0,
        !app.parcels.contains(number_in(line)),
    ensures
        ({
            let (after, effects) = app.entered(line, now);
            let parcel = ParcelModel {
                number: number_in(line),
                label: label_in(line),
                added: now,
            };
            &&& after.parcels.parcels == app.parcels.parcels.push(parcel)
            &&& after.selected_number() == Some(number_in(line))
            &&& after.mode is Normal
            &&& effects == seq![
                EffectModel::SaveParcels,
                EffectModel::Send(CommandModel::Add(number_in(line))),
            ]
        }),
{
    law_entered_number_is_normalized(line);
    let t = trimmed(line);
    law_trimmed_is_settled(t.skip(word_len(t) as int + 1));
}

/// Only `q` in normal mode and Control-C in any mode quit.
pub proof fn law_nothing_else_quits(app: AppModel, key: KeyEvent, now: Moment)
    requires
        app.pressed(key, now).1.contains(EffectModel::Quit),
    ensures
        key.code == KeyCode::Char('c') && key.with_control() || app.mode is Normal && key.code
            == KeyCode::Char('q'),
{
}

/// Escape leaves every mode but the normal one, and changes nothing else.
pub proof fn law_escape_goes_back(app: AppModel, key: KeyEvent, now: Moment)
    requires
        key.code == KeyCode::Esc,
    ensures
        app.pressed(key, now) == (app.in_mode(ModeModel::Normal), none()),
{
}

/// Control-C quits in every mode and changes nothing.
pub proof fn law_control_c_always_quits(app: AppModel, key: KeyEvent, now: Moment)
    requires
        key.code == KeyCode::Char('c'),
        key.with_control(),
    ensures
        app.pressed(key, now) == (app, seq![EffectModel::Quit]),
{
}

/// While a number is being entered a key is text: but for Escape, Enter and
/// Control-C it changes nothing but the line, and nothing has to be done.
pub proof fn law_typing_is_no_command(
    app: AppModel,
    keys: Seq<KeyEvent>,
    key: KeyEvent,
    now: Moment,
)
    requires
        app.mode == ModeModel::Adding(keys),
        key.code != KeyCode::Esc,
        key.code != KeyCode::Enter,
        !(key.code == KeyCode::Char('c') && key.with_control()),
    ensures
        app.pressed(key, now) == (app.in_mode(ModeModel::Adding(keys.push(key))), none()),
{
}

/// Nothing is removed without a yes: only `y` while a removal has to be
/// confirmed takes a parcel out of the list.
pub proof fn law_removal_is_confirmed(
    app: AppModel,
    key: KeyEvent,
    now: Moment,
    number: Seq<char>,
)
    requires
        app.parcels.contains(number),
        !app.pressed(key, now).0.parcels.contains(number),
    ensures
        app.mode is ConfirmRemove,
        key.code == KeyCode::Char('y') || key.code == KeyCode::Char('Y'),
        app.selected_number() == Some(number),
{
    if let ModeModel::Adding(keys) = app.mode {
        let after = app.pressed(key, now).0.parcels.parcels;
        let i = choose|i: int|
            0 <= i < app.parcels.parcels.len() && (
            #[trigger] app.parcels.parcels[i]).number == number;
        assert(after[i] == app.parcels.parcels[i]);
    }
    if let Some(n) = app.selected_number() {
        law_remove_keeps_the_list(app.parcels, n, number);
    }
}

/// A removed parcel is gone: from the list, from what is known, and from what
/// is being polled; and a result that comes late brings nothing of it back.
pub proof fn law_removed_parcel_stays_gone(
    app: AppModel,
    key: KeyEvent,
    now: Moment,
    number: Seq<char>,
    result: Result<TrackingModel, Seq<char>>,
    later: Moment,
)
    requires
        app.mode is ConfirmRemove,
        key.code == KeyCode::Char('y') || key.code == KeyCode::Char('Y'),
        app.selected_number() == Some(number),
    ensures
        ({
            let after = app.pressed(key, now).0;
            let late = after.told(PollEventModel::Finished { number, result }, later);
            &&& !after.parcels.contains(number)
            &&& !after.cache.by_number.contains_key(number)
            &&& after.polling != Some(number)
            &&& late == (after, none())
        }),
{
    law_remove_keeps_the_list(app.parcels, number, number);
}

/// A failed poll loses nothing that was known: the last tracking stays.
pub proof fn law_failed_poll_keeps_the_tracking(
    app: AppModel,
    number: Seq<char>,
    error: Seq<char>,
    now: Moment,
)
    requires
        app.parcels.contains(number),
    ensures
        ({
            let after = app.told(PollEventModel::Finished { number, result: Err(error) }, now).0;
            &&& after.cache.by_number.contains_key(number)
            &&& after.cache.by_number[number].tracking == app.state_or_blank(number, now).tracking
            &&& after.cache.by_number[number].last_error == Some(error)
            &&& after.last_error == Some(number + ": "@ + error)
        }),
{
}

/// A poll shows while it runs and no longer: its start is shown, and its end is
/// not, whatever its outcome.
pub proof fn law_polling_shows_while_it_runs(
    app: AppModel,
    number: Seq<char>,
    result: Result<TrackingModel, Seq<char>>,
    now: Moment,
    later: Moment,
)
    ensures
        app.told(PollEventModel::Started(number), now).0.polling == Some(number),
        app.told(PollEventModel::Started(number), now).0.told(
            PollEventModel::Finished { number, result },
            later,
        ).0.polling is None,
{
}

/// Where a poll at `now` leaves room for the next one, and the interval can be
/// multiplied with every factor, every outcome can be taken in.
pub proof fn law_room_lets_every_outcome_in(
    app: AppModel,
    number: Seq<char>,
    result: Result<TrackingModel, Seq<char>>,
    now: Moment,
)
    requires
        0 <= app.interval,
        app.interval * 65536 / (NANOS as int) < i64::MAX,
        has_room(now, app.interval),
    ensures
        app.can_take(number, result, now),
{
    let failures = one_more(app.state_or_blank(number, now).failures);
    lemma_backoff_factor(failures);
    let span = span_of_interval(app.interval);
    let f = backoff_factor(failures);
    assert(0 <= span * f <= app.interval * 65536) by (nonlinear_arith)
        requires
            0 <= span <= app.interval,
            0 <= f <= 65536,
    ;
    assert(span * f / 1_000_000_000 <= app.interval * 65536 / 1_000_000_000);
}

/// The outcome of one poll leaves what is known of every other parcel as it is.
pub proof fn law_polls_touch_one_parcel(
    app: AppModel,
    number: Seq<char>,
    result: Result<TrackingModel, Seq<char>>,
    now: Moment,
    other: Seq<char>,
)
    requires
        other != number,
        app.cache.by_number.contains_key(other),
    ensures
        ({
            let after = app.told(PollEventModel::Finished { number, result }, now).0;
            &&& after.cache.by_number.contains_key(other)
            &&& after.cache.by_number[other] == app.cache.by_number[other]
        }),
{
}

/// The dashboard shows when the poller will poll next: told the outcome of a
/// poll at the same moment, both arrive at the same time. After a failure this
/// holds where they have counted the same failures, and for an interval that
/// is a span of time.
pub proof fn law_dashboard_and_schedule_agree(
    app: AppModel,
    schedule: ScheduleModel,
    number: Seq<char>,
    result: Result<TrackingModel, Seq<char>>,
    now: Moment,
)
    requires
        app.parcels.contains(number),
        schedule.entries.contains_key(number),
        schedule.interval == app.interval,
        result is Err ==> schedule.entries[number].failures == app.state_or_blank(
            number,
            now,
        ).failures && span_of_interval(app.interval) == app.interval,
    ensures
        ({
            let after = app.told(PollEventModel::Finished { number, result }, now).0;
            let then = match result {
                Ok(t) => schedule.succeeded(number, t.status, now),
                Err(_) => schedule.failed(number, now),
            };
            &&& after.cache.by_number[number].next_poll == then.entries[number].next_poll
            &&& after.cache.by_number[number].failures == then.entries[number].failures
        }),
{
}

/// No effect at all.
fn no_effect() -> (r: Vec<Effect>)
    ensures
        r.deep_view() == none(),
{
    let r: Vec<Effect> = Vec::new();
    assert(r.deep_view() =~= none());
    r
}

/// One effect.
fn one_effect(e: Effect) -> (r: Vec<Effect>)
    ensures
        r.deep_view() == seq![e.deep_view()],
{
    let mut r: Vec<Effect> = Vec::new();
    let ghost em = e.deep_view();
    r.push(e);
    assert(r.deep_view() =~= seq![em]);
    r
}

} // verus!
