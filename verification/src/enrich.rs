//! What a poll adds to the events that the tracking site reports: English texts
//! and the places on the map.
use vstd::prelude::*;

use crate::geo::{normalize_place, Coord, GeoCache};
use crate::provider::{copy_text, EventModel, TrackEvent};
use crate::store::{CacheModel, StateCache};
use crate::text::{collapsed, trim, trimmed};
use crate::text_map::{
    distinct_keys, has_key, key_at, key_index, lemma_deep_insert, lemma_key_index, TextMap,
};

verus! {

// ---------------------------------------------------------------------------
// Translations
// ---------------------------------------------------------------------------
/// The English text for each description that is known.
pub type TranslationCache = TextMap<Option<String>>;

/// Some event of some parcel has the description `description` and the English
/// text `english`.
pub open spec fn translation_known(
    cache: CacheModel,
    description: Seq<char>,
    english: Seq<char>,
) -> bool {
    exists|number: Seq<char>, i: int| #[trigger]
        translates_at(cache, number, i, description, english)
}

/// The event `i` of the parcel `number` has the description `description` and
/// the English text `english`.
pub open spec fn translates_at(
    cache: CacheModel,
    number: Seq<char>,
    i: int,
    description: Seq<char>,
    english: Seq<char>,
) -> bool {
    &&& cache.by_number.contains_key(number)
    &&& cache.by_number[number].tracking is Some
    &&& 0 <= i < cache.by_number[number].tracking->0.events.len()
    &&& cache.by_number[number].tracking->0.events[i].description == description
    &&& cache.by_number[number].tracking->0.events[i].translated == Some(english)
}

/// The event `i` of the parcel `number` is the last translated one of that
/// parcel's events with the description `description`, and its English text is
/// `english`.
pub open spec fn translates_last_at(
    cache: CacheModel,
    number: Seq<char>,
    i: int,
    description: Seq<char>,
    english: Seq<char>,
) -> bool {
    &&& translates_at(cache, number, i, description, english)
    &&& is_last_translated(cache.by_number[number].tracking->0.events, i, description)
}

/// No event behind the event `i` has the description `description` and an
/// English text.
pub open spec fn is_last_translated(
    events: Seq<EventModel>,
    i: int,
    description: Seq<char>,
) -> bool {
    forall|j: int|
        i < j < events.len() && (#[trigger] events[j]).description == description
            ==> events[j].translated is None
}

/// `english` is the English text of the last translated event of some parcel
/// with the description `description`.
pub open spec fn translation_kept(
    cache: CacheModel,
    description: Seq<char>,
    english: Seq<char>,
) -> bool {
    exists|number: Seq<char>, i: int| #[trigger]
        translates_last_at(cache, number, i, description, english)
}

/// What is known once the translated events have been noted, each over what was
/// known of its description before.
pub open spec fn noted(
    known: Map<Seq<char>, Option<Seq<char>>>,
    events: Seq<EventModel>,
) -> Map<Seq<char>, Option<Seq<char>>>
    decreases events.len(),
{
    if events.len() == 0 {
        known
    } else {
        let before = noted(known, events.drop_last());
        let e = events.last();
        if e.translated is Some {
            before.insert(e.description, e.translated)
        } else {
            before
        }
    }
}

/// What is known once the events of the parcels `order` have been noted, parcel
/// by parcel in that order.
pub open spec fn seeded(cache: CacheModel, order: Seq<Seq<char>>) -> Map<
    Seq<char>,
    Option<Seq<char>>,
>
    decreases order.len(),
{
    if order.len() == 0 {
        Map::empty()
    } else {
        let before = seeded(cache, order.drop_last());
        match cache.by_number[order.last()].tracking {
            Some(t) => noted(before, t.events),
            None => before,
        }
    }
}

/// `order` holds every parcel that something is known of, and each once.
pub open spec fn lists_parcels(cache: CacheModel, order: Seq<Seq<char>>) -> bool {
    &&& order.no_duplicates()
    &&& forall|n: Seq<char>| #[trigger] order.contains(n) <==> cache.by_number.contains_key(n)
}

/// The event needs no translation: it has one, or there is nothing to
/// translate.
pub open spec fn is_settled(e: EventModel) -> bool {
    e.translated is Some || trimmed(e.description).len() == 0
}

/// The events with the English texts that `cache` knows, from the event `from`
/// to the first one whose text has to be asked for; and that event.
pub open spec fn filled(
    cache: Map<Seq<char>, Option<Seq<char>>>,
    events: Seq<EventModel>,
    from: int,
) -> (Seq<EventModel>, Option<int>)
    decreases events.len() - from,
{
    if !(0 <= from < events.len()) {
        (events, None)
    } else if is_settled(events[from]) {
        filled(cache, events, from + 1)
    } else if cache.contains_key(events[from].description) {
        filled(
            cache,
            events.update(
                from,
                EventModel { translated: cache[events[from].description], ..events[from] },
            ),
            from + 1,
        )
    } else {
        (events, Some(from))
    }
}

/// The text to keep for a description once the translator has answered: the
/// description itself where it is English already.
pub open spec fn kept_text(description: Seq<char>, english: Option<Seq<char>>) -> Seq<char> {
    match english {
        Some(t) => t,
        None => description,
    }
}

/// Fills in the English texts that `cache` knows, from the event `from` on, and
/// stops at the first event whose text has to be asked for.
pub fn next_untranslated(
    cache: &TranslationCache,
    events: &mut Vec<TrackEvent>,
    from: usize,
) -> (r: Option<usize>)
    requires
        from <= old(events).len(),
    ensures
        ({
            let (to, at) = filled(cache.deep_view(), old(events).deep_view(), from as int);
            &&& final(events).deep_view() == to
            &&& match at {
                Some(k) => r is Some && r->0 == k,
                None => r is None,
            }
        }),
{
    let ghost goal = filled(cache.deep_view(), events.deep_view(), from as int);
    let mut i: usize = from;
    while i < events.len()
        invariant
            i <= events.len(),
            goal == filled(cache.deep_view(), events.deep_view(), i as int),
            goal == filled(cache.deep_view(), old(events).deep_view(), from as int),
        decreases events.len() - i,
    {
        let ghost before = events.deep_view();
        assert(before[i as int] == events[i as int].deep_view());
        if events[i].translated.is_some() || trim(&events[i].description).as_str().is_empty() {
            i += 1;
            continue;
        }
        let english = match cache.get(&events[i].description) {
            Some(known) => copy_text(known),
            None => {
                return Some(i);
            },
        };
        let mut e = events[i].clone();
        e.translated = english;
        let ghost em = e.deep_view();
        events.set(i, e);
        assert(events.deep_view() =~= before.update(i as int, em));
        i += 1;
    }
    None
}

/// Takes in what the translator answered for the event `at`.
pub fn apply_translation(
    cache: &mut TranslationCache,
    events: &mut Vec<TrackEvent>,
    at: usize,
    english: Option<String>,
)
    requires
        at < old(events).len(),
    ensures
        ({
            let event = old(events).deep_view()[at as int];
            let text = kept_text(event.description, english.deep_view());
            &&& final(cache).deep_view() == old(cache).deep_view().insert(
                event.description,
                Some(text),
            )
            &&& final(events).deep_view() == old(events).deep_view().update(
                at as int,
                EventModel { translated: Some(text), ..event },
            )
        }),
{
    let ghost before = events.deep_view();
    let ghost was = *cache;
    let mut e = events[at].clone();
    let text = match english {
        Some(t) => t,
        None => e.description.clone(),
    };
    let ghost d = e.description@;
    let kept = Some(text.clone());
    cache.insert(e.description.clone(), kept);
    proof {
        assert(before[at as int] == events[at as int].deep_view());
        lemma_deep_insert(was, *cache, d, kept);
    }
    e.translated = Some(text);
    let ghost em = e.deep_view();
    events.set(at, e);
    assert(events.deep_view() =~= before.update(at as int, em));
}

/// Where filling in stops, and what it leaves as it is.
pub proof fn lemma_filled(
    cache: Map<Seq<char>, Option<Seq<char>>>,
    events: Seq<EventModel>,
    from: int,
)
    requires
        0 <= from,
    ensures
        ({
            let (to, at) = filled(cache, events, from);
            &&& to.len() == events.len()
            &&& at is Some ==> from <= at->0 < events.len() && to[at->0] == events[at->0]
                && !is_settled(events[at->0]) && !cache.contains_key(events[at->0].description)
            &&& forall|i: int|
                0 <= i < events.len() ==> (#[trigger] to[i]) == (EventModel {
                    translated: to[i].translated,
                    ..events[i]
                })
            &&& forall|i: int|
                0 <= i < events.len() && (i < from || at is Some && i >= at->0 || is_settled(
                    events[i],
                )) ==> (#[trigger] to[i]) == events[i]
            &&& forall|i: int|
                from <= i < (if at is Some {
                    at->0
                } else {
                    events.len() as int
                }) && !is_settled(events[i]) ==> (#[trigger] to[i]).translated
                    == cache[events[i].description] && cache.contains_key(events[i].description)
        }),
    decreases events.len() - from,
{
    if from < events.len() {
        if is_settled(events[from]) {
            lemma_filled(cache, events, from + 1);
        } else if cache.contains_key(events[from].description) {
            let next = events.update(
                from,
                EventModel { translated: cache[events[from].description], ..events[from] },
            );
            lemma_filled(cache, next, from + 1);
            let (to, at) = filled(cache, next, from + 1);
            assert forall|i: int| 0 <= i < events.len() implies (#[trigger] to[i]) == (EventModel {
                translated: to[i].translated,
                ..events[i]
            }) by {
                assert(to[i] == (EventModel { translated: to[i].translated, ..next[i] }));
            }
            assert(to[from] == next[from]);
        }
    }
}

/// No description is asked for twice: once the translator has answered for an
/// event, neither its description nor any other known one is asked for again.
pub proof fn law_no_description_is_asked_twice(
    cache: Map<Seq<char>, Option<Seq<char>>>,
    events: Seq<EventModel>,
    at: int,
    english: Option<Seq<char>>,
)
    requires
        0 <= at < events.len(),
    ensures
        ({
            let d = events[at].description;
            let text = kept_text(d, english);
            let known = cache.insert(d, Some(text));
            let told = events.update(at, EventModel { translated: Some(text), ..events[at] });
            let (to, next) = filled(known, told, at + 1);
            next is Some ==> events[next->0].description != d && !cache.contains_key(
                events[next->0].description,
            )
        }),
{
    let d = events[at].description;
    let text = kept_text(d, english);
    let known = cache.insert(d, Some(text));
    let told = events.update(at, EventModel { translated: Some(text), ..events[at] });
    lemma_filled(known, told, at + 1);
}

/// Translating changes nothing of an event but its English text, and that only
/// where there was none; an event that is passed over got the text that is
/// known for its description.
pub proof fn law_translating_changes_only_translations(
    cache: Map<Seq<char>, Option<Seq<char>>>,
    events: Seq<EventModel>,
    from: int,
    i: int,
)
    requires
        0 <= from,
        0 <= i < events.len(),
    ensures
        filled(cache, events, from).0.len() == events.len(),
        filled(cache, events, from).0[i] == (EventModel {
            translated: filled(cache, events, from).0[i].translated,
            ..events[i]
        }),
        is_settled(events[i]) ==> filled(cache, events, from).0[i] == events[i],
        from <= i && filled(cache, events, from).1 is None && !is_settled(events[i])
            ==> cache.contains_key(events[i].description) && filled(
            cache,
            events,
            from,
        ).0[i].translated == cache[events[i].description],
{
    lemma_filled(cache, events, from);
    let to = filled(cache, events, from).0;
    assert(to[i] == to[i]);
}

/// The known translations of every event of every parcel, so that a restart
/// asks for none of them again. The parcels come in some order, and the events
/// of each in theirs. Where one description has several English texts, the last
/// one is kept.
pub fn seed_translation_cache(cache: &StateCache) -> (r: TranslationCache)
    ensures
        exists|order: Seq<Seq<char>>| #[trigger]
            lists_parcels(cache.deep_view(), order) && r.deep_view() == seeded(
                cache.deep_view(),
                order,
            ),
        forall|d: Seq<char>| #[trigger]
            r.deep_view().contains_key(d) <==> (exists|e: Seq<char>| #[trigger]
                translation_known(cache.deep_view(), d, e)),
        forall|d: Seq<char>| #[trigger]
            r.deep_view().contains_key(d) ==> r.deep_view()[d] is Some && translation_kept(
                cache.deep_view(),
                d,
                r.deep_view()[d]->0,
            ),
{
    let map = &cache.by_number;
    proof {
        use_type_invariant(map);
    }
    let ghost cm = cache.deep_view();
    let mut r: TranslationCache = TextMap::new();
    let pairs = map.pairs();
    let ghost order = Seq::new(pairs@.len(), |k: int| pairs@[k].0@);
    let mut i: usize = 0;
    proof {
        assert(order.take(0) =~= Seq::empty());
        assert(r.deep_view() =~= Map::<Seq<char>, Option<Seq<char>>>::empty());
    }
    while i < pairs.len()
        invariant
            i <= pairs.len(),
            cm == cache.deep_view(),
            pairs@ == cache.by_number.listed(),
            distinct_keys(pairs@),
            order == Seq::new(pairs@.len(), |k: int| pairs@[k].0@),
            r.deep_view() == seeded(cm, order.take(i as int)),
        decreases pairs.len() - i,
    {
        proof {
            lemma_key_index(pairs@, i as int);
            assert(order.take(i + 1).drop_last() =~= order.take(i as int));
            assert(order.take(i + 1).last() == order[i as int]);
            assert(cm.by_number[order[i as int]] == pairs@[i as int].1.deep_view());
        }
        let ghost before = r.deep_view();
        match &pairs[i].1.tracking {
            Some(t) => {
                let ghost events = t.events.deep_view();
                let mut j: usize = 0;
                assert(events.take(0) =~= Seq::empty());
                while j < t.events.len()
                    invariant
                        j <= t.events.len(),
                        events == t.events.deep_view(),
                        r.deep_view() == noted(before, events.take(j as int)),
                    decreases t.events.len() - j,
                {
                    let e = &t.events[j];
                    proof {
                        assert(events.take(j + 1).drop_last() =~= events.take(j as int));
                        assert(events.take(j + 1).last() == e.deep_view());
                    }
                    if e.translated.is_some() {
                        let ghost was = r;
                        let ghost d = e.description@;
                        let text = copy_text(&e.translated);
                        r.insert(e.description.clone(), text);
                        proof {
                            lemma_deep_insert(was, r, d, text);
                        }
                    }
                    j += 1;
                }
                assert(events.take(j as int) =~= events);
            },
            None => {},
        }
        i += 1;
    }
    proof {
        assert(order.take(i as int) =~= order);
        assert forall|a: int, b: int|
            0 <= a < order.len() && 0 <= b < order.len() && a != b implies order[a] != order[b] by {
            assert(pairs@[a].0@ != pairs@[b].0@);
        }
        assert forall|n: Seq<char>| #[trigger]
            order.contains(n) <==> cm.by_number.contains_key(n) by {
            if order.contains(n) {
                let k = choose|k: int| 0 <= k < order.len() && order[k] == n;
                lemma_key_index(pairs@, k);
            }
            if cm.by_number.contains_key(n) {
                let k = key_index(pairs@, n);
                assert(has_key(pairs@, n));
                assert(key_at(pairs@, n, k));
                assert(order[k] == n);
            }
        }
        assert(lists_parcels(cm, order));
        assert forall|k: int| 0 <= k < order.len() implies cm.by_number.contains_key(
            #[trigger] order[k],
        ) by {
            assert(order.contains(order[k]));
        }
        lemma_seeded(cm, order);
        assert forall|d: Seq<char>, e: Seq<char>| #[trigger]
            translation_known(cm, d, e) implies r.deep_view().contains_key(d) by {
            let (number, k) = choose|number: Seq<char>, k: int| #[trigger]
                translates_at(cm, number, k, d, e);
            assert(order.contains(number));
        }
        assert forall|d: Seq<char>| #[trigger] r.deep_view().contains_key(d) implies exists|
            e: Seq<char>,
        | #[trigger] translation_known(cm, d, e) by {
            let e = r.deep_view()[d]->0;
            let (number, k) = choose|number: Seq<char>, k: int| #[trigger]
                translates_last_at(cm, number, k, d, e);
            assert(translates_at(cm, number, k, d, e));
            assert(translation_known(cm, d, e));
        }
    }
    r
}

/// Of each description, the last translated event decides; of one that no event
/// translates, what was known before stays.
pub proof fn lemma_noted(
    known: Map<Seq<char>, Option<Seq<char>>>,
    events: Seq<EventModel>,
    d: Seq<char>,
)
    ensures
        ({
            let after = noted(known, events);
            ||| exists|i: int|
                0 <= i < events.len() && (#[trigger] events[i]).description == d
                    && events[i].translated is Some && is_last_translated(events, i, d)
                    && after.contains_key(d) && after[d] == events[i].translated
            ||| {
                &&& is_last_translated(events, -1, d)
                &&& after.contains_key(d) == known.contains_key(d)
                &&& after.contains_key(d) ==> after[d] == known[d]
            }
        }),
    decreases events.len(),
{
    if events.len() > 0 {
        let front = events.drop_last();
        lemma_noted(known, front, d);
        let last = events.len() - 1;
        if events[last].description == d && events[last].translated is Some {
            assert(is_last_translated(events, last, d));
        } else {
            assert forall|i: int|
                -1 <= i && is_last_translated(front, i, d) implies is_last_translated(
                events,
                i,
                d,
            ) by {
                assert forall|j: int|
                    i < j < events.len() && (#[trigger] events[j]).description
                        == d implies events[j].translated is None by {
                    if j < last {
                        assert(front[j] == events[j]);
                    }
                }
            }
            if exists|i: int|
                0 <= i < front.len() && (#[trigger] front[i]).description == d
                    && front[i].translated is Some && is_last_translated(front, i, d) && noted(
                    known,
                    front,
                ).contains_key(d) && noted(known, front)[d] == front[i].translated {
                let i = choose|i: int|
                    0 <= i < front.len() && (#[trigger] front[i]).description == d
                        && front[i].translated is Some && is_last_translated(front, i, d) && noted(
                        known,
                        front,
                    ).contains_key(d) && noted(known, front)[d] == front[i].translated;
                assert(events[i] == front[i]);
            }
        }
    }
}

/// What is known is what the last translated events of the parcels say, and
/// nothing that an event says is left out.
pub proof fn lemma_seeded(cache: CacheModel, order: Seq<Seq<char>>)
    requires
        forall|k: int|
            0 <= k < order.len() ==> cache.by_number.contains_key(#[trigger] order[k]),
    ensures
        forall|d: Seq<char>| #[trigger]
            seeded(cache, order).contains_key(d) ==> seeded(cache, order)[d] is Some
                && translation_kept(cache, d, seeded(cache, order)[d]->0),
        forall|number: Seq<char>, i: int, d: Seq<char>, e: Seq<char>| #[trigger]
            translates_at(cache, number, i, d, e) && order.contains(number) ==> seeded(
                cache,
                order,
            ).contains_key(d),
    decreases order.len(),
{
    if order.len() > 0 {
        let front = order.drop_last();
        let last = order.last();
        assert forall|k: int| 0 <= k < front.len() implies cache.by_number.contains_key(
            #[trigger] front[k],
        ) by {
            assert(front[k] == order[k]);
        }
        lemma_seeded(cache, front);
        let before = seeded(cache, front);
        let after = seeded(cache, order);
        assert(cache.by_number.contains_key(order[order.len() - 1]));
        assert forall|d: Seq<char>| #[trigger] after.contains_key(d) implies after[d] is Some
            && translation_kept(cache, d, after[d]->0) by {
            if let Some(t) = cache.by_number[last].tracking {
                lemma_noted(before, t.events, d);
                if !(is_last_translated(t.events, -1, d) && before.contains_key(d) && after[d]
                    == before[d]) {
                    let i = choose|i: int|
                        0 <= i < t.events.len() && (#[trigger] t.events[i]).description == d
                            && t.events[i].translated is Some && is_last_translated(t.events, i, d)
                            && after.contains_key(d) && after[d] == t.events[i].translated;
                    assert(translates_last_at(cache, last, i, d, after[d]->0));
                }
            }
        }
        assert forall|number: Seq<char>, i: int, d: Seq<char>, e: Seq<char>| #[trigger]
            translates_at(cache, number, i, d, e) && order.contains(number) implies
            after.contains_key(d) by {
            if let Some(t) = cache.by_number[last].tracking {
                lemma_noted(before, t.events, d);
                if number == last {
                    assert(t.events[i].description == d);
                }
            }
            if number != last {
                let k = choose|k: int| 0 <= k < order.len() && order[k] == number;
                assert(front[k] == number);
                assert(front.contains(number));
            }
        }
    }
}

// ---------------------------------------------------------------------------
// Places
// ---------------------------------------------------------------------------
/// The place of an event: none where it has no location, or a blank one.
pub open spec fn place_of(e: EventModel) -> Option<Seq<char>> {
    match e.location {
        Some(l) if collapsed(l).len() > 0 => Some(collapsed(l)),
        _ => None,
    }
}

/// The first event from `from` on whose place is not known yet, and that place.
pub open spec fn next_place(
    geo: Map<Seq<char>, Option<Coord>>,
    events: Seq<EventModel>,
    from: int,
) -> Option<(int, Seq<char>)>
    decreases events.len() - from,
{
    if !(0 <= from < events.len()) {
        None
    } else {
        match place_of(events[from]) {
            Some(key) if !geo.contains_key(key) => Some((from, key)),
            _ => next_place(geo, events, from + 1),
        }
    }
}

/// The first event from `from` on whose place is not known yet, and that place.
pub fn next_unlocated(geo: &GeoCache, events: &Vec<TrackEvent>, from: usize) -> (r: Option<
    (usize, String),
>)
    requires
        from <= events.len(),
    ensures
        match next_place(geo@, events.deep_view(), from as int) {
            Some((i, key)) => r matches Some(q) && q.0 == i && q.1@ == key,
            None => r is None,
        },
{
    let mut i: usize = from;
    while i < events.len()
        invariant
            from <= i <= events.len(),
            next_place(geo@, events.deep_view(), from as int) == next_place(
                geo@,
                events.deep_view(),
                i as int,
            ),
        decreases events.len() - i,
    {
        assert(events.deep_view()[i as int] == events[i as int].deep_view());
        if let Some(l) = &events[i].location {
            let key = normalize_place(l);
            if !key.as_str().is_empty() && !geo.contains_key(&key) {
                return Some((i, key));
            }
        }
        i += 1;
    }
    None
}

/// The event that is found has an unknown place, and those before it have not.
pub proof fn lemma_next_place(
    geo: Map<Seq<char>, Option<Coord>>,
    events: Seq<EventModel>,
    from: int,
)
    requires
        0 <= from,
    ensures
        match next_place(geo, events, from) {
            Some(p) => {
                &&& from <= p.0 < events.len()
                &&& place_of(events[p.0]) == Some(p.1)
                &&& !geo.contains_key(p.1)
            },
            None => forall|i: int|
                from <= i < events.len() && place_of(#[trigger] events[i]) is Some
                    ==> geo.contains_key(place_of(events[i])->0),
        },
    decreases events.len() - from,
{
    if from < events.len() {
        lemma_next_place(geo, events, from + 1);
    }
}

/// No place is looked up twice: once a lookup has answered, found or not,
/// neither that place nor any other known one is looked up again.
pub proof fn law_no_place_is_looked_up_twice(
    geo: Map<Seq<char>, Option<Coord>>,
    events: Seq<EventModel>,
    from: int,
    key: Seq<char>,
    coord: Option<Coord>,
)
    requires
        0 <= from,
    ensures
        match next_place(geo.insert(key, coord), events, from) {
            Some(p) => p.1 != key && !geo.contains_key(p.1) && p.1.len() > 0,
            None => true,
        },
{
    lemma_next_place(geo.insert(key, coord), events, from);
}

/// When no place is left to look up, the place of every event is known.
pub proof fn law_every_place_is_looked_up(
    geo: Map<Seq<char>, Option<Coord>>,
    events: Seq<EventModel>,
    i: int,
)
    requires
        next_place(geo, events, 0) is None,
        0 <= i < events.len(),
        place_of(events[i]) is Some,
    ensures
        geo.contains_key(place_of(events[i])->0),
{
    lemma_next_place(geo, events, 0);
}

} // verus!
