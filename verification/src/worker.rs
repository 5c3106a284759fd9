//! The worker behind the dashboard: it polls one due parcel at a time. Its
//! decisions are taken here; what they ask for (a request, a message, a wait)
//! is done outside, and the outcome is handed back as an event.
use vstd::prelude::*;

use crate::clock::{
    backoff_factor, has_room, law_shift_back_and_forth, lemma_backoff_factor, max_span, shifted,
    span_of_interval, Interval, Moment, Timestamp, NANOS,
};
use crate::enrich::{
    apply_translation, filled, kept_text, lemma_filled, lemma_next_place, next_place,
    next_unlocated, next_untranslated, place_of, TranslationCache,
};
use crate::geo::{Coord, GeoCache};
use crate::poller::{
    one_more, outcome_model, CommandModel, PollCommand, PollEvent, PollEventModel, PollResult,
    ScheduleModel, Scheduler, SlotModel,
};
use crate::provider::{EventModel, Status, Tracking, TrackingModel};
use crate::store::{lists, CacheModel, Parcel, ParcelModel, StateCache};

verus! {

/// What has happened outside.
#[derive(Debug)]
pub enum WorkerEvent {
    /// The worker has been started.
    Begun,
    /// A command has come.
    Command(PollCommand),
    /// No command can come any more.
    Closed,
    /// It is time to look for a due parcel.
    Tick,
    /// The message has been sent, or nobody listens any more.
    Sent(bool),
    /// The tracking site has answered.
    Answered(Result<Tracking, String>),
    /// The translator has answered, or failed.
    Translated(Result<Option<String>, ()>),
    /// The lookup of a place has answered, or failed.
    Located(Result<Option<Coord>, ()>),
}

/// The value of a [`WorkerEvent`].
pub enum WorkerEventModel {
    Begun,
    Command(CommandModel),
    Closed,
    Tick,
    Sent(bool),
    Answered(Result<TrackingModel, Seq<char>>),
    Translated(Option<Option<Seq<char>>>),
    Located(Option<Option<Coord>>),
}

impl DeepView for WorkerEvent {
    type V = WorkerEventModel;

    open spec fn deep_view(&self) -> WorkerEventModel {
        match self {
            WorkerEvent::Begun => WorkerEventModel::Begun,
            WorkerEvent::Command(c) => WorkerEventModel::Command(c.deep_view()),
            WorkerEvent::Closed => WorkerEventModel::Closed,
            WorkerEvent::Tick => WorkerEventModel::Tick,
            WorkerEvent::Sent(ok) => WorkerEventModel::Sent(*ok),
            WorkerEvent::Answered(r) => WorkerEventModel::Answered(outcome_model(*r)),
            WorkerEvent::Translated(r) => WorkerEventModel::Translated(
                match r {
                    Ok(t) => Some(t.deep_view()),
                    Err(_) => None,
                },
            ),
            WorkerEvent::Located(r) => WorkerEventModel::Located(
                match r {
                    Ok(c) => Some(*c),
                    Err(_) => None,
                },
            ),
        }
    }
}

/// What is to be done outside, and how its outcome is handed back.
#[derive(Debug)]
pub enum WorkerAction {
    /// Wait for a command or a tick.
    Wait,
    /// Send this to the dashboard; answered by `Sent`.
    Send(PollEvent),
    /// Ask the tracking site for this parcel; answered by `Answered`.
    Track(String),
    /// Ask the translator for this text; answered by `Translated`.
    Translate(String),
    /// Look up this place; answered by `Located`.
    Locate { query: String, settlement_only: bool },
    /// Stop for good.
    Stop,
}

/// The value of a [`WorkerAction`].
pub enum WorkerActionModel {
    Wait,
    Send(PollEventModel),
    Track(Seq<char>),
    Translate(Seq<char>),
    Locate { query: Seq<char>, settlement_only: bool },
    Stop,
}

impl DeepView for WorkerAction {
    type V = WorkerActionModel;

    open spec fn deep_view(&self) -> WorkerActionModel {
        match self {
            WorkerAction::Wait => WorkerActionModel::Wait,
            WorkerAction::Send(e) => WorkerActionModel::Send(e.deep_view()),
            WorkerAction::Track(n) => WorkerActionModel::Track(n@),
            WorkerAction::Translate(t) => WorkerActionModel::Translate(t@),
            WorkerAction::Locate { query, settlement_only } => WorkerActionModel::Locate {
                query: query@,
                settlement_only: *settlement_only,
            },
            WorkerAction::Stop => WorkerActionModel::Stop,
        }
    }
}

/// How far the worker is.
#[derive(Debug)]
pub enum Phase {
    /// Before anything else.
    Starting,
    /// The home address is being looked up.
    LocatingHome { home: String },
    /// The dashboard is being told where home is.
    ReportingHome,
    /// Between two polls.
    Idle,
    /// The dashboard is being told that a poll begins.
    Announcing { number: String },
    /// The tracking site is being asked.
    Tracking { number: String },
    /// The translator is being asked for the event `at`.
    Translating { number: String, tracking: Tracking, at: usize },
    /// The place `key` of the event `at` is being looked up.
    Locating { number: String, tracking: Tracking, at: usize, key: String },
    /// The dashboard is being told where the place of the event `at` is.
    ReportingPlace { number: String, tracking: Tracking, at: usize },
    /// The dashboard is being told how the poll went.
    Reporting,
    /// The worker does nothing any more.
    Stopped,
}

/// The value of a [`Phase`].
pub enum PhaseModel {
    Starting,
    LocatingHome { home: Seq<char> },
    ReportingHome,
    Idle,
    Announcing { number: Seq<char> },
    Tracking { number: Seq<char> },
    Translating { number: Seq<char>, tracking: TrackingModel, at: int },
    Locating { number: Seq<char>, tracking: TrackingModel, at: int, key: Seq<char> },
    ReportingPlace { number: Seq<char>, tracking: TrackingModel, at: int },
    Reporting,
    Stopped,
}

impl DeepView for Phase {
    type V = PhaseModel;

    open spec fn deep_view(&self) -> PhaseModel {
        match self {
            Phase::Starting => PhaseModel::Starting,
            Phase::LocatingHome { home } => PhaseModel::LocatingHome { home: home@ },
            Phase::ReportingHome => PhaseModel::ReportingHome,
            Phase::Idle => PhaseModel::Idle,
            Phase::Announcing { number } => PhaseModel::Announcing { number: number@ },
            Phase::Tracking { number } => PhaseModel::Tracking { number: number@ },
            Phase::Translating { number, tracking, at } => PhaseModel::Translating {
                number: number@,
                tracking: tracking.deep_view(),
                at: *at as int,
            },
            Phase::Locating { number, tracking, at, key } => PhaseModel::Locating {
                number: number@,
                tracking: tracking.deep_view(),
                at: *at as int,
                key: key@,
            },
            Phase::ReportingPlace { number, tracking, at } => PhaseModel::ReportingPlace {
                number: number@,
                tracking: tracking.deep_view(),
                at: *at as int,
            },
            Phase::Reporting => PhaseModel::Reporting,
            Phase::Stopped => PhaseModel::Stopped,
        }
    }
}

impl PhaseModel {
    /// The event that a phase is at is one of its events.
    pub open spec fn in_range(self) -> bool {
        match self {
            PhaseModel::Translating { tracking, at, .. } => 0 <= at < tracking.events.len(),
            PhaseModel::Locating { tracking, at, .. } => 0 <= at < tracking.events.len(),
            PhaseModel::ReportingPlace { tracking, at, .. } => 0 <= at < tracking.events.len(),
            _ => true,
        }
    }
}

/// What the worker works with: its schedule, and what it knows of texts and
/// places.
#[derive(Debug)]
struct Desk {
    scheduler: Scheduler,
    translates: bool,
    translations: TranslationCache,
    locates: bool,
    geo: GeoCache,
    home: Option<String>,
}

/// The worker: what it works with, and how far it is.
#[derive(Debug)]
pub struct Worker {
    desk: Desk,
    phase: Phase,
}

/// The value of a [`Worker`].
pub struct WorkerModel {
    pub scheduler: ScheduleModel,
    pub translates: bool,
    pub translations: Map<Seq<char>, Option<Seq<char>>>,
    pub locates: bool,
    pub geo: Map<Seq<char>, Option<Coord>>,
    pub home: Option<Seq<char>>,
    pub phase: PhaseModel,
}

impl Desk {
    /// The value of a worker at this desk that is in the phase `phase`.
    spec fn at(self, phase: PhaseModel) -> WorkerModel {
        WorkerModel {
            scheduler: self.scheduler.deep_view(),
            translates: self.translates,
            translations: self.translations.deep_view(),
            locates: self.locates,
            geo: self.geo@,
            home: self.home.deep_view(),
            phase,
        }
    }
}

impl DeepView for Worker {
    type V = WorkerModel;

    closed spec fn deep_view(&self) -> WorkerModel {
        self.desk.at(self.phase.deep_view())
    }
}

impl WorkerModel {
    /// The worker in another phase, with something to do.
    pub open spec fn turned(self, phase: PhaseModel, action: WorkerActionModel) -> (
        WorkerModel,
        WorkerActionModel,
    ) {
        (WorkerModel { phase, ..self }, action)
    }

    /// The worker waiting for the next command or tick.
    pub open spec fn idle(self) -> (WorkerModel, WorkerActionModel) {
        self.turned(PhaseModel::Idle, WorkerActionModel::Wait)
    }

    /// The worker stopped for good.
    pub open spec fn stopped(self) -> (WorkerModel, WorkerActionModel) {
        self.turned(PhaseModel::Stopped, WorkerActionModel::Stop)
    }

    /// The start: the home address is looked up once, if there is one whose
    /// place is not known.
    pub open spec fn begun(self) -> (WorkerModel, WorkerActionModel) {
        match self.home {
            Some(h) if self.locates && h.len() > 0 && !self.geo.contains_key(h) => self.turned(
                PhaseModel::LocatingHome { home: h },
                WorkerActionModel::Locate { query: h, settlement_only: false },
            ),
            _ => self.idle(),
        }
    }

    /// A command.
    pub open spec fn commanded(self, command: CommandModel, now: Moment) -> (
        WorkerModel,
        WorkerActionModel,
    ) {
        let s = self.scheduler;
        match command {
            CommandModel::Shutdown => self.stopped(),
            CommandModel::Add(n) => (WorkerModel { scheduler: s.added(n, now), ..self }).idle(),
            CommandModel::Remove(n) => (WorkerModel { scheduler: s.removed(n), ..self }).idle(),
            CommandModel::Refresh(n) => (WorkerModel {
                scheduler: s.refreshed(n, now),
                ..self
            }).idle(),
            CommandModel::RefreshAll => (WorkerModel {
                scheduler: s.all_refreshed(now),
                ..self
            }).idle(),
        }
    }

    /// The end of a poll: its outcome goes into the schedule, and then to the
    /// dashboard.
    pub open spec fn finished(
        self,
        number: Seq<char>,
        result: Result<TrackingModel, Seq<char>>,
        now: Moment,
    ) -> (WorkerModel, WorkerActionModel) {
        let scheduler = match result {
            Ok(t) => self.scheduler.succeeded(number, t.status, now),
            Err(_) => self.scheduler.failed(number, now),
        };
        (WorkerModel { scheduler, ..self }).turned(
            PhaseModel::Reporting,
            WorkerActionModel::Send(PollEventModel::Finished { number, result }),
        )
    }

    /// The lookups of a poll: the first place, from the event `from` on, that
    /// is not known; and where there is none, the end of the poll.
    pub open spec fn locating(
        self,
        number: Seq<char>,
        tracking: TrackingModel,
        from: int,
        now: Moment,
    ) -> (WorkerModel, WorkerActionModel) {
        if self.locates {
            match next_place(self.geo, tracking.events, from) {
                Some((at, key)) => self.turned(
                    PhaseModel::Locating { number, tracking, at, key },
                    WorkerActionModel::Locate { query: key, settlement_only: true },
                ),
                None => self.finished(number, Ok(tracking), now),
            }
        } else {
            self.finished(number, Ok(tracking), now)
        }
    }

    /// The translations of a poll: the first text, from the event `from` on,
    /// that has to be asked for; and where there is none, the lookups.
    pub open spec fn translating(
        self,
        number: Seq<char>,
        tracking: TrackingModel,
        from: int,
        now: Moment,
    ) -> (WorkerModel, WorkerActionModel) {
        if self.translates {
            let (events, next) = filled(self.translations, tracking.events, from);
            let told = TrackingModel { events, ..tracking };
            match next {
                Some(at) => self.turned(
                    PhaseModel::Translating { number, tracking: told, at },
                    WorkerActionModel::Translate(events[at].description),
                ),
                None => self.locating(number, told, 0, now),
            }
        } else {
            self.locating(number, tracking, 0, now)
        }
    }

    /// The translator's answer for the event `at`, and the translations behind
    /// it.
    pub open spec fn translated(
        self,
        number: Seq<char>,
        tracking: TrackingModel,
        at: int,
        english: Option<Seq<char>>,
        now: Moment,
    ) -> (WorkerModel, WorkerActionModel) {
        let event = tracking.events[at];
        let text = kept_text(event.description, english);
        let events = tracking.events.update(at, EventModel { translated: Some(text), ..event });
        (WorkerModel {
            translations: self.translations.insert(event.description, Some(text)),
            ..self
        }).translating(number, TrackingModel { events, ..tracking }, at + 1, now)
    }

    /// What becomes of the worker after `event`, and what is to be done next.
    /// An event that is not awaited changes nothing.
    pub open spec fn after(self, event: WorkerEventModel, now: Moment) -> (
        WorkerModel,
        WorkerActionModel,
    ) {
        match (self.phase, event) {
            (PhaseModel::Starting, WorkerEventModel::Begun) => self.begun(),
            (PhaseModel::LocatingHome { home }, WorkerEventModel::Located(r)) => match r {
                Some(coord) => (WorkerModel {
                    geo: self.geo.insert(home, coord),
                    ..self
                }).turned(
                    PhaseModel::ReportingHome,
                    WorkerActionModel::Send(PollEventModel::Geocoded { key: home, coord }),
                ),
                None => self.idle(),
            },
            (PhaseModel::ReportingHome, WorkerEventModel::Sent(ok)) => if ok {
                self.idle()
            } else {
                self.stopped()
            },
            (PhaseModel::Idle, WorkerEventModel::Command(c)) => self.commanded(c, now),
            (PhaseModel::Idle, WorkerEventModel::Closed) => self.stopped(),
            (PhaseModel::Idle, WorkerEventModel::Tick) => match self.scheduler.next_due(now) {
                Some(number) => self.turned(
                    PhaseModel::Announcing { number },
                    WorkerActionModel::Send(PollEventModel::Started(number)),
                ),
                None => self.idle(),
            },
            (PhaseModel::Announcing { number }, WorkerEventModel::Sent(ok)) => if ok {
                self.turned(PhaseModel::Tracking { number }, WorkerActionModel::Track(number))
            } else {
                self.stopped()
            },
            (PhaseModel::Tracking { number }, WorkerEventModel::Answered(r)) => match r {
                Ok(tracking) => self.translating(number, tracking, 0, now),
                Err(e) => self.finished(number, Err(e), now),
            },
            (
                PhaseModel::Translating { number, tracking, at },
                WorkerEventModel::Translated(r),
            ) => match r {
                Some(english) => self.translated(number, tracking, at, english, now),
                None => self.locating(number, tracking, 0, now),
            },
            (
                PhaseModel::Locating { number, tracking, at, key },
                WorkerEventModel::Located(r),
            ) => match r {
                Some(coord) => (WorkerModel { geo: self.geo.insert(key, coord), ..self }).turned(
                    PhaseModel::ReportingPlace { number, tracking, at },
                    WorkerActionModel::Send(PollEventModel::Geocoded { key, coord }),
                ),
                None => self.finished(number, Ok(tracking), now),
            },
            (PhaseModel::ReportingPlace { number, tracking, at }, WorkerEventModel::Sent(ok)) =>
                if ok {
                    self.locating(number, tracking, at + 1, now)
                } else {
                    self.finished(number, Ok(tracking), now)
                },
            (PhaseModel::Reporting, WorkerEventModel::Sent(ok)) => if ok {
                self.idle()
            } else {
                self.stopped()
            },
            (PhaseModel::Stopped, _) => self.stopped(),
            _ => (self, WorkerActionModel::Wait),
        }
    }
}

impl WorkerModel {
    /// The poll that ends with `event`, if one does, leads to a next poll whose
    /// time can be represented.
    pub open spec fn fits(self, event: WorkerEventModel, now: Moment) -> bool {
        let (after, action) = self.after(event, now);
        action matches WorkerActionModel::Send(PollEventModel::Finished { number, result })
            ==> after.scheduler.fits_slot(number)
    }
}

impl Desk {
    /// The start: the home address is looked up once, if there is one whose
    /// place is not known.
    fn begin(&self) -> (r: (Phase, WorkerAction))
        ensures
            (self.at(r.0.deep_view()), r.1.deep_view()) == self.at(PhaseModel::Idle).begun(),
            r.0.deep_view().in_range(),
    {
        if let Some(h) = &self.home {
            if self.locates && !h.as_str().is_empty() && !self.geo.contains_key(h) {
                return (
                    Phase::LocatingHome { home: h.clone() },
                    WorkerAction::Locate { query: h.clone(), settlement_only: false },
                );
            }
        }
        (Phase::Idle, WorkerAction::Wait)
    }

    /// Obeys a command.
    fn obey(&mut self, command: PollCommand, now: Timestamp) -> (r: (Phase, WorkerAction))
        ensures
            (final(self).at(r.0.deep_view()), r.1.deep_view()) == old(self).at(
                PhaseModel::Idle,
            ).commanded(command.deep_view(), now@),
            r.0.deep_view().in_range(),
    {
        match command {
            PollCommand::Shutdown => {
                return (Phase::Stopped, WorkerAction::Stop);
            },
            PollCommand::Add(n) => self.scheduler.add(&n, now),
            PollCommand::Remove(n) => self.scheduler.remove(&n),
            PollCommand::Refresh(n) => self.scheduler.refresh(&n, now),
            PollCommand::RefreshAll => self.scheduler.refresh_all(now),
        }
        (Phase::Idle, WorkerAction::Wait)
    }

    /// The end of a poll: its outcome goes into the schedule, and then to the
    /// dashboard.
    fn finish(&mut self, number: String, result: Result<Tracking, String>, now: Timestamp) -> (r: (
        Phase,
        WorkerAction,
    ))
        requires
            old(self).at(PhaseModel::Idle).finished(
                number@,
                outcome_model(result),
                now@,
            ).0.scheduler.fits_slot(number@),
        ensures
            (final(self).at(r.0.deep_view()), r.1.deep_view()) == old(self).at(
                PhaseModel::Idle,
            ).finished(number@, outcome_model(result), now@),
            r.0.deep_view().in_range(),
    {
        match &result {
            Ok(t) => self.scheduler.record_success(&number, t.status, now),
            Err(_) => self.scheduler.record_failure(&number, now),
        }
        (Phase::Reporting, WorkerAction::Send(PollEvent::Finished(PollResult { number, result })))
    }

    /// The lookups of a poll, from the event `from` on.
    fn locate(&mut self, number: String, tracking: Tracking, from: usize, now: Timestamp) -> (r: (
        Phase,
        WorkerAction,
    ))
        requires
            from <= tracking.deep_view().events.len(),
            old(self).at(PhaseModel::Idle).locating(
                number@,
                tracking.deep_view(),
                from as int,
                now@,
            ).1 is Send ==> old(self).at(PhaseModel::Idle).locating(
                number@,
                tracking.deep_view(),
                from as int,
                now@,
            ).0.scheduler.fits_slot(number@),
        ensures
            (final(self).at(r.0.deep_view()), r.1.deep_view()) == old(self).at(
                PhaseModel::Idle,
            ).locating(number@, tracking.deep_view(), from as int, now@),
            r.0.deep_view().in_range(),
    {
        if self.locates {
            match next_unlocated(&self.geo, &tracking.events, from) {
                Some((at, key)) => {
                    proof {
                        lemma_next_place(self.geo@, tracking.deep_view().events, from as int);
                    }
                    let query = key.clone();
                    (
                        Phase::Locating { number, tracking, at, key },
                        WorkerAction::Locate { query, settlement_only: true },
                    )
                },
                None => self.finish(number, Ok(tracking), now),
            }
        } else {
            self.finish(number, Ok(tracking), now)
        }
    }

    /// The translations of a poll, from the event `from` on.
    fn translate(
        &mut self,
        number: String,
        tracking: Tracking,
        from: usize,
        now: Timestamp,
    ) -> (r: (Phase, WorkerAction))
        requires
            from <= tracking.deep_view().events.len(),
            old(self).at(PhaseModel::Idle).translating(
                number@,
                tracking.deep_view(),
                from as int,
                now@,
            ).1 is Send ==> old(self).at(PhaseModel::Idle).translating(
                number@,
                tracking.deep_view(),
                from as int,
                now@,
            ).0.scheduler.fits_slot(number@),
        ensures
            (final(self).at(r.0.deep_view()), r.1.deep_view()) == old(self).at(
                PhaseModel::Idle,
            ).translating(number@, tracking.deep_view(), from as int, now@),
            r.0.deep_view().in_range(),
    {
        if !self.translates {
            return self.locate(number, tracking, 0, now);
        }
        let ghost tm = tracking.deep_view();
        let Tracking { number: own, carrier, status, events, fetched_at, attributes, tracking_url } =
            tracking;
        let mut events = events;
        proof {
            lemma_filled(self.translations.deep_view(), tm.events, from as int);
        }
        let next = next_untranslated(&self.translations, &mut events, from);
        let ghost told = events.deep_view();
        let tracking = Tracking {
            number: own,
            carrier,
            status,
            events,
            fetched_at,
            attributes,
            tracking_url,
        };
        assert(tracking.deep_view() == (TrackingModel { events: told, ..tm }));
        match next {
            Some(at) => {
                assert(told[at as int] == tracking.events[at as int].deep_view());
                let text = tracking.events[at].description.clone();
                (Phase::Translating { number, tracking, at }, WorkerAction::Translate(text))
            },
            None => self.locate(number, tracking, 0, now),
        }
    }

    /// Takes in the translator's answer for the event `at`.
    fn take_translation(
        &mut self,
        number: String,
        tracking: Tracking,
        at: usize,
        english: Option<String>,
        now: Timestamp,
    ) -> (r: (Phase, WorkerAction))
        requires
            at < tracking.deep_view().events.len(),
            old(self).at(PhaseModel::Idle).translated(
                number@,
                tracking.deep_view(),
                at as int,
                english.deep_view(),
                now@,
            ).1 is Send ==> old(self).at(PhaseModel::Idle).translated(
                number@,
                tracking.deep_view(),
                at as int,
                english.deep_view(),
                now@,
            ).0.scheduler.fits_slot(number@),
        ensures
            (final(self).at(r.0.deep_view()), r.1.deep_view()) == old(self).at(
                PhaseModel::Idle,
            ).translated(
                number@,
                tracking.deep_view(),
                at as int,
                english.deep_view(),
                now@,
            ),
            r.0.deep_view().in_range(),
    {
        let ghost tm = tracking.deep_view();
        assert(at < tracking.events.len());
        let Tracking { number: own, carrier, status, events, fetched_at, attributes, tracking_url } =
            tracking;
        let mut events = events;
        apply_translation(&mut self.translations, &mut events, at, english);
        let ghost told = events.deep_view();
        let tracking = Tracking {
            number: own,
            carrier,
            status,
            events,
            fetched_at,
            attributes,
            tracking_url,
        };
        assert(tracking.deep_view() == (TrackingModel { events: told, ..tm }));
        self.translate(number, tracking, at + 1, now)
    }
}

impl Worker {
    /// The event that the phase is at is one of its events.
    #[verifier::type_invariant]
    closed spec fn normal(self) -> bool {
        self.phase.deep_view().in_range()
    }

    /// A worker that has not been started.
    pub fn new(
        scheduler: Scheduler,
        translates: bool,
        translations: TranslationCache,
        locates: bool,
        geo: GeoCache,
        home: Option<String>,
    ) -> (r: Worker)
        ensures
            r.deep_view() == (WorkerModel {
                scheduler: scheduler.deep_view(),
                translates,
                translations: translations.deep_view(),
                locates,
                geo: geo@,
                home: home.deep_view(),
                phase: PhaseModel::Starting,
            }),
    {
        Worker {
            desk: Desk { scheduler, translates, translations, locates, geo, home },
            phase: Phase::Starting,
        }
    }

    /// Takes in what has happened outside and says what is to be done next.
    /// `now` is the time at which it happened. Where a poll ends, the time of
    /// the next one, counted from `now`, must be one that can be represented.
    pub fn step(self, event: WorkerEvent, now: Timestamp) -> (r: (Worker, WorkerAction))
        requires
            self.deep_view().fits(event.deep_view(), now@),
        ensures
            (r.0.deep_view(), r.1.deep_view()) == self.deep_view().after(event.deep_view(), now@),
    {
        proof {
            use_type_invariant(&self);
        }
        let Worker { desk, phase } = self;
        let mut desk = desk;
        let (phase, action) = match (phase, event) {
            (Phase::Starting, WorkerEvent::Begun) => desk.begin(),
            (Phase::LocatingHome { home }, WorkerEvent::Located(r)) => match r {
                Ok(coord) => {
                    desk.geo.insert(home.clone(), coord);
                    (
                        Phase::ReportingHome,
                        WorkerAction::Send(PollEvent::Geocoded { key: home, coord }),
                    )
                },
                Err(_) => (Phase::Idle, WorkerAction::Wait),
            },
            (Phase::ReportingHome, WorkerEvent::Sent(ok)) => if ok {
                (Phase::Idle, WorkerAction::Wait)
            } else {
                (Phase::Stopped, WorkerAction::Stop)
            },
            (Phase::Idle, WorkerEvent::Command(c)) => desk.obey(c, now),
            (Phase::Idle, WorkerEvent::Closed) => (Phase::Stopped, WorkerAction::Stop),
            (Phase::Idle, WorkerEvent::Tick) => match desk.scheduler.next_due(now) {
                Some(number) => {
                    let told = number.clone();
                    (Phase::Announcing { number }, WorkerAction::Send(PollEvent::Started(told)))
                },
                None => (Phase::Idle, WorkerAction::Wait),
            },
            (Phase::Announcing { number }, WorkerEvent::Sent(ok)) => if ok {
                let asked = number.clone();
                (Phase::Tracking { number }, WorkerAction::Track(asked))
            } else {
                (Phase::Stopped, WorkerAction::Stop)
            },
            (Phase::Tracking { number }, WorkerEvent::Answered(r)) => match r {
                Ok(tracking) => desk.translate(number, tracking, 0, now),
                Err(e) => desk.finish(number, Err(e), now),
            },
            (Phase::Translating { number, tracking, at }, WorkerEvent::Translated(r)) => match r {
                Ok(english) => desk.take_translation(number, tracking, at, english, now),
                Err(_) => desk.locate(number, tracking, 0, now),
            },
            (Phase::Locating { number, tracking, at, key }, WorkerEvent::Located(r)) => match r {
                Ok(coord) => {
                    desk.geo.insert(key.clone(), coord);
                    (
                        Phase::ReportingPlace { number, tracking, at },
                        WorkerAction::Send(PollEvent::Geocoded { key, coord }),
                    )
                },
                Err(_) => desk.finish(number, Ok(tracking), now),
            },
            (Phase::ReportingPlace { number, tracking, at }, WorkerEvent::Sent(ok)) => if ok {
                assert(at < tracking.events.len());
                desk.locate(number, tracking, at + 1, now)
            } else {
                desk.finish(number, Ok(tracking), now)
            },
            (Phase::Reporting, WorkerEvent::Sent(ok)) => if ok {
                (Phase::Idle, WorkerAction::Wait)
            } else {
                (Phase::Stopped, WorkerAction::Stop)
            },
            (Phase::Stopped, _) => (Phase::Stopped, WorkerAction::Stop),
            (phase, _) => (phase, WorkerAction::Wait),
        };
        (Worker { desk, phase }, action)
    }
}

// ---------------------------------------------------------------------------
// What holds of every step
// ---------------------------------------------------------------------------
/// Polls come one at a time: the tracking site is asked for a parcel only when
/// the dashboard has just been told that this very poll begins, and a poll
/// begins only between two polls, with the parcel that is due first.
pub proof fn law_polls_come_one_at_a_time(
    w: WorkerModel,
    event: WorkerEventModel,
    now: Moment,
    number: Seq<char>,
)
    ensures
        w.after(event, now).1 == WorkerActionModel::Track(number) ==> w.phase
            == (PhaseModel::Announcing { number }) && event == WorkerEventModel::Sent(true),
        w.after(event, now).1 == WorkerActionModel::Send(PollEventModel::Started(number)) ==> {
            &&& w.phase is Idle
            &&& event is Tick
            &&& w.scheduler.next_due(now) == Some(number)
            &&& w.after(event, now).0.phase == (PhaseModel::Announcing { number })
        },
{
}

impl PhaseModel {
    /// The parcel whose poll is under way: the tracking site has been asked for
    /// it, and the dashboard has not been told of the outcome.
    pub open spec fn polls(self) -> Option<Seq<char>> {
        match self {
            PhaseModel::Tracking { number } => Some(number),
            PhaseModel::Translating { number, .. } => Some(number),
            PhaseModel::Locating { number, .. } => Some(number),
            PhaseModel::ReportingPlace { number, .. } => Some(number),
            _ => None,
        }
    }
}

/// A poll that has begun runs to its report: until then no other parcel is
/// asked for or announced, no command is obeyed, the schedule stays as it is,
/// and the worker does not stop.
pub proof fn law_a_poll_runs_to_its_report(
    w: WorkerModel,
    event: WorkerEventModel,
    now: Moment,
    number: Seq<char>,
)
    requires
        w.phase.polls() == Some(number),
    ensures
        ({
            let (after, action) = w.after(event, now);
            ||| {
                &&& after.phase.polls() == Some(number)
                &&& after.scheduler == w.scheduler
                &&& !(action is Track) && !(action is Stop)
                &&& action matches WorkerActionModel::Send(message) ==> message is Geocoded
            }
            ||| {
                &&& after.phase is Reporting
                &&& action matches WorkerActionModel::Send(PollEventModel::Finished {
                    number: reported,
                    result,
                })
                &&& reported == number
            }
        }),
{
}

/// The dashboard hears how a poll went only once the schedule knows it, and the
/// poll is then over.
pub proof fn law_outcomes_are_scheduled_before_they_are_reported(
    w: WorkerModel,
    event: WorkerEventModel,
    now: Moment,
    number: Seq<char>,
    result: Result<TrackingModel, Seq<char>>,
)
    requires
        w.after(event, now).1 == WorkerActionModel::Send(
            PollEventModel::Finished { number, result },
        ),
    ensures
        w.after(event, now).0.phase is Reporting,
        w.after(event, now).0.scheduler == match result {
            Ok(t) => w.scheduler.succeeded(number, t.status, now),
            Err(_) => w.scheduler.failed(number, now),
        },
{
}

/// A translation that fails ends the translations of the poll: no other text is
/// asked for, the answer is not remembered, and the poll goes on with the
/// events as they are.
pub proof fn law_failed_translation_ends_translating(
    w: WorkerModel,
    now: Moment,
    number: Seq<char>,
    tracking: TrackingModel,
    at: int,
)
    requires
        w.phase == (PhaseModel::Translating { number, tracking, at }),
    ensures
        ({
            let (after, action) = w.after(WorkerEventModel::Translated(None), now);
            &&& after.translations == w.translations
            &&& !(action is Translate)
            &&& action is Send ==> action == WorkerActionModel::Send(
                PollEventModel::Finished { number, result: Ok(tracking) },
            )
        }),
{
}

/// A lookup that fails ends the lookups of the poll: the failure is not
/// remembered, and the poll's outcome is reported as it is.
pub proof fn law_failed_lookup_ends_lookups(
    w: WorkerModel,
    now: Moment,
    number: Seq<char>,
    tracking: TrackingModel,
    at: int,
    key: Seq<char>,
)
    requires
        w.phase == (PhaseModel::Locating { number, tracking, at, key }),
    ensures
        w.after(WorkerEventModel::Located(None), now).0.geo == w.geo,
        w.after(WorkerEventModel::Located(None), now).1 == WorkerActionModel::Send(
            PollEventModel::Finished { number, result: Ok(tracking) },
        ),
{
}

/// The home address is looked up at the start and never again: no other lookup
/// takes in more than settlements, and the start never comes back.
pub proof fn law_home_is_looked_up_once(
    w: WorkerModel,
    event: WorkerEventModel,
    now: Moment,
    query: Seq<char>,
)
    ensures
        w.after(event, now).1 == (WorkerActionModel::Locate { query, settlement_only: false })
            ==> w.phase is Starting && w.home == Some(query) && !w.geo.contains_key(query),
        w.after(event, now).0.phase is Starting ==> w.phase is Starting && !(event is Begun),
{
}

/// Every text that is asked for is unknown, and every place that is looked up
/// during a poll is unknown.
pub proof fn law_only_the_unknown_is_asked_for(
    w: WorkerModel,
    event: WorkerEventModel,
    now: Moment,
    text: Seq<char>,
)
    requires
        w.phase.in_range(),
    ensures
        ({
            let (after, action) = w.after(event, now);
            &&& action == WorkerActionModel::Translate(text) ==> !after.translations.contains_key(
                text,
            )
            &&& action == (WorkerActionModel::Locate { query: text, settlement_only: true })
                ==> !after.geo.contains_key(text)
        }),
{
    match (w.phase, event) {
        (PhaseModel::Tracking { number }, WorkerEventModel::Answered(r)) => {
            if let Ok(t) = r {
                lemma_translating_asks_the_unknown(w, number, t, 0, now, text);
            }
        },
        (PhaseModel::Translating { number, tracking, at }, WorkerEventModel::Translated(r)) => {
            match r {
                Some(english) => {
                    let e = tracking.events[at];
                    let kept = kept_text(e.description, english);
                    let events = tracking.events.update(
                        at,
                        EventModel { translated: Some(kept), ..e },
                    );
                    let next = WorkerModel {
                        translations: w.translations.insert(e.description, Some(kept)),
                        ..w
                    };
                    lemma_translating_asks_the_unknown(
                        next,
                        number,
                        TrackingModel { events, ..tracking },
                        at + 1,
                        now,
                        text,
                    );
                },
                None => {
                    lemma_locating_asks_the_unknown(w, number, tracking, 0, now, text);
                },
            }
        },
        (PhaseModel::ReportingPlace { number, tracking, at }, WorkerEventModel::Sent(ok)) => {
            lemma_locating_asks_the_unknown(w, number, tracking, at + 1, now, text);
        },
        _ => {},
    }
}

proof fn lemma_translating_asks_the_unknown(
    w: WorkerModel,
    number: Seq<char>,
    tracking: TrackingModel,
    from: int,
    now: Moment,
    text: Seq<char>,
)
    requires
        0 <= from,
    ensures
        ({
            let (after, action) = w.translating(number, tracking, from, now);
            &&& action == WorkerActionModel::Translate(text) ==> !after.translations.contains_key(
                text,
            )
            &&& action == (WorkerActionModel::Locate { query: text, settlement_only: true })
                ==> !after.geo.contains_key(text)
        }),
{
    lemma_filled(w.translations, tracking.events, from);
    let told = TrackingModel {
        events: filled(w.translations, tracking.events, from).0,
        ..tracking
    };
    lemma_locating_asks_the_unknown(w, number, told, 0, now, text);
    lemma_locating_asks_the_unknown(w, number, tracking, 0, now, text);
}

proof fn lemma_locating_asks_the_unknown(
    w: WorkerModel,
    number: Seq<char>,
    tracking: TrackingModel,
    from: int,
    now: Moment,
    text: Seq<char>,
)
    requires
        0 <= from,
    ensures
        ({
            let (after, action) = w.locating(number, tracking, from, now);
            &&& !(action is Translate)
            &&& action == (WorkerActionModel::Locate { query: text, settlement_only: true })
                ==> !after.geo.contains_key(text)
        }),
{
    lemma_next_place(w.geo, tracking.events, from);
}

/// Nothing but places is looked up: the home address at the start, and during a
/// poll the place of one of its events.
pub proof fn law_only_places_are_looked_up(
    w: WorkerModel,
    event: WorkerEventModel,
    now: Moment,
    query: Seq<char>,
    settlement_only: bool,
)
    requires
        w.phase.in_range(),
        w.after(event, now).1 == (WorkerActionModel::Locate { query, settlement_only }),
    ensures
        match w.after(event, now).0.phase {
            PhaseModel::LocatingHome { home } => {
                &&& !settlement_only
                &&& query == home
                &&& w.home == Some(home)
            },
            PhaseModel::Locating { tracking, at, key, .. } => {
                &&& settlement_only
                &&& query == key
                &&& 0 <= at < tracking.events.len()
                &&& place_of(tracking.events[at]) == Some(query)
            },
            _ => false,
        },
{
    match (w.phase, event) {
        (PhaseModel::Tracking { number }, WorkerEventModel::Answered(Ok(t))) => {
            lemma_translating_asks_of_events(w, number, t, 0, now);
        },
        (PhaseModel::Translating { number, tracking, at }, WorkerEventModel::Translated(r)) => {
            match r {
                Some(english) => {
                    lemma_translated_asks_of_events(w, number, tracking, at, english, now);
                },
                None => {
                    lemma_next_place(w.geo, tracking.events, 0);
                },
            }
        },
        (PhaseModel::ReportingPlace { number, tracking, at }, WorkerEventModel::Sent(ok)) => {
            lemma_next_place(w.geo, tracking.events, at + 1);
        },
        _ => {},
    }
}

/// Nothing but the descriptions of the poll's events is translated.
pub proof fn law_only_descriptions_are_translated(
    w: WorkerModel,
    event: WorkerEventModel,
    now: Moment,
    text: Seq<char>,
)
    requires
        w.phase.in_range(),
        w.after(event, now).1 == WorkerActionModel::Translate(text),
    ensures
        match w.after(event, now).0.phase {
            PhaseModel::Translating { tracking, at, .. } => {
                &&& 0 <= at < tracking.events.len()
                &&& tracking.events[at].description == text
            },
            _ => false,
        },
{
    match (w.phase, event) {
        (PhaseModel::Tracking { number }, WorkerEventModel::Answered(Ok(t))) => {
            lemma_translating_asks_of_events(w, number, t, 0, now);
        },
        (
            PhaseModel::Translating { number, tracking, at },
            WorkerEventModel::Translated(Some(english)),
        ) => {
            lemma_translated_asks_of_events(w, number, tracking, at, english, now);
        },
        _ => {},
    }
}

/// What is asked for, and of which event of the poll.
spec fn asks_of_events(after: WorkerModel, action: WorkerActionModel) -> bool {
    match action {
        WorkerActionModel::Translate(text) => match after.phase {
            PhaseModel::Translating { tracking, at, .. } => 0 <= at < tracking.events.len()
                && tracking.events[at].description == text,
            _ => false,
        },
        WorkerActionModel::Locate { query, settlement_only } => match after.phase {
            PhaseModel::Locating { tracking, at, key, .. } => settlement_only && query == key && 0
                <= at < tracking.events.len() && place_of(tracking.events[at]) == Some(query),
            _ => false,
        },
        _ => true,
    }
}

proof fn lemma_translating_asks_of_events(
    w: WorkerModel,
    number: Seq<char>,
    tracking: TrackingModel,
    from: int,
    now: Moment,
)
    requires
        0 <= from,
    ensures
        ({
            let (after, action) = w.translating(number, tracking, from, now);
            asks_of_events(after, action)
        }),
{
    lemma_filled(w.translations, tracking.events, from);
    lemma_next_place(w.geo, filled(w.translations, tracking.events, from).0, 0);
    lemma_next_place(w.geo, tracking.events, 0);
}

proof fn lemma_translated_asks_of_events(
    w: WorkerModel,
    number: Seq<char>,
    tracking: TrackingModel,
    at: int,
    english: Option<Seq<char>>,
    now: Moment,
)
    requires
        0 <= at,
    ensures
        ({
            let (after, action) = w.translated(number, tracking, at, english, now);
            asks_of_events(after, action)
        }),
{
    let event = tracking.events[at];
    let text = kept_text(event.description, english);
    let events = tracking.events.update(at, EventModel { translated: Some(text), ..event });
    lemma_translating_asks_of_events(
        WorkerModel { translations: w.translations.insert(event.description, Some(text)), ..w },
        number,
        TrackingModel { events, ..tracking },
        at + 1,
        now,
    );
}

// ---------------------------------------------------------------------------
// What holds of every run
// ---------------------------------------------------------------------------
impl WorkerModel {
    /// The worker after some events, each at its time, and what it asked for, in
    /// order.
    pub open spec fn run(self, steps: Seq<(WorkerEventModel, Moment)>) -> (
        WorkerModel,
        Seq<WorkerActionModel>,
    )
        decreases steps.len(),
    {
        if steps.len() == 0 {
            (self, Seq::empty())
        } else {
            let (w, actions) = self.run(steps.drop_last());
            let (after, action) = w.after(steps.last().0, steps.last().1);
            (after, actions.push(action))
        }
    }
}

/// What is to be heard of polls: every message but those on places, and every
/// request to the tracking site.
pub open spec fn is_poll_action(action: WorkerActionModel) -> bool {
    match action {
        WorkerActionModel::Send(message) => !(message is Geocoded),
        WorkerActionModel::Track(_) => true,
        _ => false,
    }
}

/// What is to be heard of polls among `actions`, in order.
pub open spec fn poll_actions(actions: Seq<WorkerActionModel>) -> Seq<WorkerActionModel>
    decreases actions.len(),
{
    if actions.len() == 0 {
        Seq::empty()
    } else {
        let front = poll_actions(actions.drop_last());
        if is_poll_action(actions.last()) {
            front.push(actions.last())
        } else {
            front
        }
    }
}

/// The action announces the poll of `number`.
pub open spec fn announces(action: WorkerActionModel, number: Seq<char>) -> bool {
    action == WorkerActionModel::Send(PollEventModel::Started(number))
}

/// The action reports how the poll of `number` went.
pub open spec fn reports(action: WorkerActionModel, number: Seq<char>) -> bool {
    action matches WorkerActionModel::Send(PollEventModel::Finished { number: n, .. }) && n
        == number
}

/// The parcel that an action on a poll is about.
pub open spec fn subject(action: WorkerActionModel) -> Seq<char> {
    match action {
        WorkerActionModel::Send(PollEventModel::Started(n)) => n,
        WorkerActionModel::Send(PollEventModel::Finished { number, .. }) => number,
        WorkerActionModel::Track(n) => n,
        _ => Seq::empty(),
    }
}

/// Polls follow each other: each is announced, then the tracking site is asked
/// once, then the outcome is reported, all of one parcel. The last poll may not
/// have got that far.
pub open spec fn one_after_the_other(actions: Seq<WorkerActionModel>) -> bool {
    forall|i: int| #![trigger actions[i]]
        0 <= i < actions.len() ==> {
            let number = subject(actions[i - i % 3]);
            if i % 3 == 0 {
                announces(actions[i], number)
            } else if i % 3 == 1 {
                actions[i] == WorkerActionModel::Track(number)
            } else {
                reports(actions[i], number)
            }
        }
}

/// How far the worker's phase says that the last of the polls has got.
spec fn keeps_pace(phase: PhaseModel, actions: Seq<WorkerActionModel>) -> bool {
    match phase {
        PhaseModel::Stopped => true,
        PhaseModel::Announcing { number } => actions.len() % 3 == 1 && announces(
            actions.last(),
            number,
        ),
        _ => match phase.polls() {
            Some(number) => actions.len() % 3 == 2 && actions.last() == WorkerActionModel::Track(
                number,
            ),
            None => actions.len() % 3 == 0,
        },
    }
}

/// How one step can lead from a phase to the next: the poll that is announced is
/// asked for, the poll that is under way goes on or is reported, a poll is
/// announced between two polls, and nothing else is to be heard of polls.
spec fn leads(from: PhaseModel, to: PhaseModel, action: WorkerActionModel) -> bool {
    match from {
        PhaseModel::Stopped => to is Stopped && !is_poll_action(action),
        PhaseModel::Announcing { number } => {
            ||| to == from && !is_poll_action(action)
            ||| to is Stopped && !is_poll_action(action)
            ||| to == (PhaseModel::Tracking { number }) && action == WorkerActionModel::Track(
                number,
            )
        },
        _ => match from.polls() {
            Some(number) => {
                ||| to.polls() == Some(number) && !is_poll_action(action)
                ||| to is Reporting && reports(action, number)
            },
            None => {
                ||| to.polls() is None && !(to is Announcing) && !is_poll_action(action)
                ||| to is Announcing && announces(action, to->Announcing_number)
            },
        },
    }
}

proof fn lemma_step_leads(w: WorkerModel, event: WorkerEventModel, now: Moment)
    ensures
        leads(w.phase, w.after(event, now).0.phase, w.after(event, now).1),
{
    if let Some(number) = w.phase.polls() {
        law_a_poll_runs_to_its_report(w, event, now, number);
    }
}

proof fn lemma_one_more_action(
    from: PhaseModel,
    to: PhaseModel,
    action: WorkerActionModel,
    so_far: Seq<WorkerActionModel>,
)
    requires
        one_after_the_other(so_far),
        keeps_pace(from, so_far),
        leads(from, to, action),
    ensures
        ({
            let then = if is_poll_action(action) {
                so_far.push(action)
            } else {
                so_far
            };
            one_after_the_other(then) && keeps_pace(to, then)
        }),
{
    if is_poll_action(action) {
        let n = so_far.len() as int;
        let then = so_far.push(action);
        if let Some(number) = from.polls() {
            assert(so_far[n - 1] == WorkerActionModel::Track(number));
            assert(subject(so_far[n - 2]) == number);
        }
        assert forall|i: int| #![trigger then[i]] 0 <= i < then.len() implies {
            let number = subject(then[i - i % 3]);
            if i % 3 == 0 {
                announces(then[i], number)
            } else if i % 3 == 1 {
                then[i] == WorkerActionModel::Track(number)
            } else {
                reports(then[i], number)
            }
        } by {
            assert(then[i - i % 3] == if i - i % 3 < n {
                so_far[i - i % 3]
            } else {
                action
            });
            if i < n {
                assert(then[i] == so_far[i]);
            }
        }
    }
}

/// Polls are strictly sequential over a whole run, whatever happens: the
/// messages to the dashboard, those on places aside, alternate between the start
/// of a poll and the outcome of the same poll, and between the two the tracking
/// site is asked exactly once, for that parcel, and it is asked at no other time.
pub proof fn law_polls_follow_each_other(
    w: WorkerModel,
    steps: Seq<(WorkerEventModel, Moment)>,
)
    requires
        w.phase is Starting,
    ensures
        one_after_the_other(poll_actions(w.run(steps).1)),
{
    lemma_run_keeps_pace(w, steps);
}

proof fn lemma_run_keeps_pace(w: WorkerModel, steps: Seq<(WorkerEventModel, Moment)>)
    requires
        w.phase is Starting,
    ensures
        one_after_the_other(poll_actions(w.run(steps).1)),
        keeps_pace(w.run(steps).0.phase, poll_actions(w.run(steps).1)),
    decreases steps.len(),
{
    if steps.len() > 0 {
        let front = steps.drop_last();
        lemma_run_keeps_pace(w, front);
        let (v, actions) = w.run(front);
        let (after, action) = v.after(steps.last().0, steps.last().1);
        lemma_step_leads(v, steps.last().0, steps.last().1);
        lemma_one_more_action(v.phase, after.phase, action, poll_actions(actions));
        assert(actions.push(action).drop_last() =~= actions);
    }
}

/// A poll that fails is reported with its error, and the worker goes on.
pub proof fn law_worker_survives_a_failed_poll(
    w: WorkerModel,
    number: Seq<char>,
    error: Seq<char>,
    now: Moment,
    later: Moment,
)
    requires
        w.phase == (PhaseModel::Tracking { number }),
    ensures
        ({
            let (reporting, action) = w.after(WorkerEventModel::Answered(Err(error)), now);
            let (after, next) = reporting.after(WorkerEventModel::Sent(true), later);
            &&& action == WorkerActionModel::Send(
                PollEventModel::Finished { number, result: Err(error) },
            )
            &&& after.phase is Idle
            &&& next is Wait
        }),
{
}

/// The event ends the worker: it is told to stop, or no command can come any
/// more, or nobody listens any more.
pub open spec fn ends_worker(event: WorkerEventModel) -> bool {
    match event {
        WorkerEventModel::Command(c) => c is Shutdown,
        WorkerEventModel::Closed => true,
        WorkerEventModel::Sent(ok) => !ok,
        _ => false,
    }
}

/// The worker goes on as long as it is not told to stop, commands can come and
/// the dashboard listens.
pub proof fn law_nothing_else_ends_the_worker(
    w: WorkerModel,
    steps: Seq<(WorkerEventModel, Moment)>,
)
    requires
        !(w.phase is Stopped),
        forall|i: int| 0 <= i < steps.len() ==> !ends_worker((#[trigger] steps[i]).0),
    ensures
        !(w.run(steps).0.phase is Stopped),
        forall|i: int| 0 <= i < steps.len() ==> !((#[trigger] w.run(steps).1[i]) is Stop),
        w.run(steps).1.len() == steps.len(),
    decreases steps.len(),
{
    if steps.len() > 0 {
        let front = steps.drop_last();
        assert forall|i: int| 0 <= i < front.len() implies !ends_worker(
            (#[trigger] front[i]).0,
        ) by {
            assert(front[i] == steps[i]);
        }
        law_nothing_else_ends_the_worker(w, front);
        let (v, actions) = w.run(front);
        let (after, action) = v.after(steps.last().0, steps.last().1);
        assert(!ends_worker(steps[steps.len() - 1].0));
        assert forall|i: int| 0 <= i < steps.len() implies !((#[trigger] w.run(
            steps,
        ).1[i]) is Stop) by {
            if i < front.len() {
                assert(w.run(steps).1[i] == actions[i]);
            }
        }
    }
}

// ---------------------------------------------------------------------------
// Room for the next poll
// ---------------------------------------------------------------------------
/// Where a poll at `now` leaves room for the next one, every event fits.
pub proof fn law_room_lets_every_event_in(w: WorkerModel, event: WorkerEventModel, now: Moment)
    requires
        w.scheduler.interval >= 0,
        has_room(now, w.scheduler.interval),
    ensures
        w.fits(event, now),
{
    let (after, action) = w.after(event, now);
    if let WorkerActionModel::Send(PollEventModel::Finished { number, result }) = action {
        law_outcomes_are_scheduled_before_they_are_reported(w, event, now, number, result);
        if w.scheduler.entries.contains_key(number) {
            let failures = one_more(w.scheduler.entries[number].failures);
            lemma_backoff_factor(failures);
            let f = backoff_factor(failures);
            assert(w.scheduler.interval * f >= 0) by (nonlinear_arith)
                requires
                    w.scheduler.interval >= 0,
                    f >= 0,
            ;
        }
    }
}

// ---------------------------------------------------------------------------
// A restart
// ---------------------------------------------------------------------------
/// The interval is longer than any span of time that can be counted.
#[derive(Debug, Clone, Copy, PartialEq, Eq)]
pub struct IntervalTooLong;

/// There is a tracking of the parcel `number` from an earlier run.
pub open spec fn has_tracking(cache: CacheModel, number: Seq<char>) -> bool {
    cache.by_number.contains_key(number) && cache.by_number[number].tracking is Some
}

/// The schedule after a restart: a parcel with a tracking is polled when it
/// would have been polled next, and any other at once.
pub open spec fn resumed(
    interval: int,
    parcels: Seq<ParcelModel>,
    cache: CacheModel,
    now: Moment,
) -> ScheduleModel
    decreases parcels.len(),
{
    if parcels.len() == 0 {
        ScheduleModel { interval, entries: Map::empty() }
    } else {
        let number = parcels.last().number;
        let s = resumed(interval, parcels.drop_last(), cache, now).added(number, now);
        if has_tracking(cache, number) {
            s.succeeded(
                number,
                cache.by_number[number].tracking->0.status,
                shifted(cache.by_number[number].next_poll, -interval),
            )
        } else {
            s
        }
    }
}

/// The time of the next poll, counted back by the interval and forward again,
/// stays within what can be represented.
pub open spec fn can_resume(interval: int, cache: CacheModel, number: Seq<char>) -> bool {
    has_tracking(cache, number) ==> {
        let polled = shifted(cache.by_number[number].next_poll, -interval);
        polled.valid() && shifted(polled, interval).valid()
    }
}

/// Every parcel's schedule can be resumed.
pub open spec fn all_resumable(
    interval: int,
    parcels: Seq<ParcelModel>,
    cache: CacheModel,
) -> bool {
    interval <= max_span() ==> forall|i: int|
        0 <= i < parcels.len() ==> can_resume(interval, cache, (#[trigger] parcels[i]).number)
}

/// Whether every parcel's schedule can be resumed.
pub fn is_resumable(interval: &Interval, parcels: &Vec<Parcel>, cache: &StateCache) -> (r: bool)
    ensures
        r == all_resumable(interval@, parcels.deep_view(), cache.deep_view()),
{
    if !interval.fits_span() {
        return true;
    }
    let span = interval.to_span();
    let back = span.negated();
    let ghost all = parcels.deep_view();
    let ghost cm = cache.deep_view();
    let mut i: usize = 0;
    while i < parcels.len()
        invariant
            i <= parcels.len(),
            all == parcels.deep_view(),
            cm == cache.deep_view(),
            span@ == interval@,
            back@ == -interval@,
            interval@ <= max_span(),
            forall|k: int|
                0 <= k < i ==> can_resume(interval@, cm, (#[trigger] all[k]).number),
        decreases parcels.len() - i,
    {
        let number = &parcels[i].number;
        assert(all[i as int].number == number@);
        if let Some(state) = cache.by_number.get(number) {
            if state.tracking.is_some() {
                let fits = match state.next_poll.checked_add(&back) {
                    Some(polled) => polled.checked_add(&span).is_some(),
                    None => false,
                };
                if !fits {
                    assert(!can_resume(interval@, cm, all[i as int].number));
                    return false;
                }
            }
        }
        assert(can_resume(interval@, cm, all[i as int].number));
        i += 1;
    }
    true
}

/// Resumes the schedule of an earlier run, so that a restart does not poll every
/// parcel at once. Fails exactly where the interval is too long to be counted
/// back from a poll.
pub fn resume_schedule(
    interval: Interval,
    parcels: &Vec<Parcel>,
    cache: &StateCache,
    now: Timestamp,
) -> (r: Result<Scheduler, IntervalTooLong>)
    requires
        all_resumable(interval@, parcels.deep_view(), cache.deep_view()),
    ensures
        match r {
            Ok(s) => s.deep_view() == resumed(
                interval@,
                parcels.deep_view(),
                cache.deep_view(),
                now@,
            ) && (interval@ <= max_span() || forall|i: int|
                0 <= i < parcels.len() ==> !has_tracking(
                    cache.deep_view(),
                    (#[trigger] parcels.deep_view()[i]).number,
                )),
            Err(_) => interval@ > max_span() && exists|i: int|
                0 <= i < parcels.len() && has_tracking(
                    cache.deep_view(),
                    (#[trigger] parcels.deep_view()[i]).number,
                ),
        },
{
    let none: Vec<String> = Vec::new();
    assert(none.deep_view() =~= Seq::<Seq<char>>::empty());
    let mut s = Scheduler::new(interval, none, now);
    let ghost all = parcels.deep_view();
    let ghost cm = cache.deep_view();
    let span = interval.to_span();
    let fits = interval.fits_span();
    let mut i: usize = 0;
    proof {
        assert(all.take(0) =~= Seq::empty());
    }
    while i < parcels.len()
        invariant
            i <= parcels.len(),
            all == parcels.deep_view(),
            cm == cache.deep_view(),
            span@ == span_of_interval(interval@),
            fits == (interval@ <= max_span()),
            interval@ >= 0,
            s.deep_view() == resumed(interval@, all.take(i as int), cm, now@),
            s.deep_view().interval == interval@,
            fits ==> forall|k: int|
                0 <= k < parcels.len() ==> can_resume(
                    interval@,
                    cm,
                    (#[trigger] all[k]).number,
                ),
            !fits ==> forall|k: int|
                0 <= k < i ==> !has_tracking(cm, (#[trigger] all[k]).number),
        decreases parcels.len() - i,
    {
        let number = &parcels[i].number;
        proof {
            assert(all.take(i + 1).drop_last() =~= all.take(i as int));
            assert(all.take(i + 1).last() == all[i as int]);
            assert(all[i as int].number == number@);
        }
        s.add(number, now);
        if let Some(state) = cache.by_number.get(number) {
            if let Some(t) = &state.tracking {
                if !fits {
                    return Err(IntervalTooLong);
                }
                let back = span.negated();
                assert(can_resume(interval@, cm, all[i as int].number));
                let polled = state.next_poll.plus(&back);
                s.record_success(number, t.status, polled);
            }
        }
        i += 1;
    }
    assert(all.take(i as int) =~= all);
    Ok(s)
}

/// After a restart a parcel that was tracked before is polled when it would have
/// been polled next, outside leap seconds, and is done if it was delivered.
pub proof fn law_restart_keeps_the_schedule(
    interval: int,
    parcels: Seq<ParcelModel>,
    cache: CacheModel,
    now: Moment,
    number: Seq<char>,
)
    requires
        0 <= interval <= max_span(),
        lists(parcels, number),
        has_tracking(cache, number),
        0 <= cache.by_number[number].next_poll.nanos < NANOS,
    ensures
        resumed(interval, parcels, cache, now).entries.contains_key(number),
        resumed(interval, parcels, cache, now).entries[number] == (SlotModel {
            next_poll: cache.by_number[number].next_poll,
            failures: 0,
            delivered: cache.by_number[number].tracking->0.status == Status::Delivered,
        }),
    decreases parcels.len(),
{
    let front = parcels.drop_last();
    let last = parcels.last();
    lemma_resumed_interval(interval, front, cache, now);
    if last.number == number {
        law_shift_back_and_forth(cache.by_number[number].next_poll, interval);
    } else {
        let i = choose|i: int| 0 <= i < parcels.len() && (#[trigger] parcels[i]).number == number;
        assert(front[i].number == number);
        law_restart_keeps_the_schedule(interval, front, cache, now, number);
    }
}

/// After a restart a parcel that was never tracked is due at once.
pub proof fn law_restart_polls_the_untracked(
    interval: int,
    parcels: Seq<ParcelModel>,
    cache: CacheModel,
    now: Moment,
    number: Seq<char>,
)
    requires
        lists(parcels, number),
        !has_tracking(cache, number),
    ensures
        resumed(interval, parcels, cache, now).due(number, now),
    decreases parcels.len(),
{
    let front = parcels.drop_last();
    if lists(front, number) {
        law_restart_polls_the_untracked(interval, front, cache, now, number);
    } else {
        assert(parcels.last().number == number) by {
            let i = choose|i: int|
                0 <= i < parcels.len() && (#[trigger] parcels[i]).number == number;
            if i < front.len() {
                assert(front[i].number == number);
            }
        }
        lemma_resumed_lists(interval, front, cache, now, number);
    }
}

proof fn lemma_resumed_interval(
    interval: int,
    parcels: Seq<ParcelModel>,
    cache: CacheModel,
    now: Moment,
)
    ensures
        resumed(interval, parcels, cache, now).interval == interval,
    decreases parcels.len(),
{
    if parcels.len() > 0 {
        lemma_resumed_interval(interval, parcels.drop_last(), cache, now);
    }
}

proof fn lemma_resumed_lists(
    interval: int,
    parcels: Seq<ParcelModel>,
    cache: CacheModel,
    now: Moment,
    number: Seq<char>,
)
    requires
        !lists(parcels, number),
    ensures
        !resumed(interval, parcels, cache, now).entries.contains_key(number),
    decreases parcels.len(),
{
    if parcels.len() > 0 {
        let front = parcels.drop_last();
        assert(!lists(front, number)) by {
            if lists(front, number) {
                let i = choose|i: int| 0 <= i < front.len() && (#[trigger] front[i]).number == number;
                assert(parcels[i].number == number);
            }
        }
        assert(parcels[parcels.len() - 1].number != number);
        lemma_resumed_lists(interval, front, cache, now, number);
    }
}

} // verus!
