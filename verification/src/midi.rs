//! The document container: events keyed by id, an id-to-(track, tick)
//! position map as the single authority on placement, and the operations
//! that build, edit and query a document. Track indices are capped at 15;
//! id 0 is reserved to mean "no event" at the boundary layer, so ids start
//! at 1.

use crate::error::ApresError;
use crate::event::MIDIEvent;
use vstd::prelude::*;

verus! {

/// The index of the first entry with key `k`, or -1.
pub open spec fn map_index_of<V>(s: Seq<(u64, V)>, k: u64) -> int
    decreases s.len(),
{
    if s.len() == 0 {
        -1
    } else if s[0].0 == k {
        0
    } else if map_index_of(s.drop_first(), k) < 0 {
        -1
    } else {
        1 + map_index_of(s.drop_first(), k)
    }
}

/// Whether some entry carries key `k`.
pub open spec fn map_has_key<V>(s: Seq<(u64, V)>, k: u64) -> bool {
    map_index_of(s, k) >= 0
}

/// The value stored under key `k`.
pub open spec fn map_lookup<V>(s: Seq<(u64, V)>, k: u64) -> Option<V> {
    if map_has_key(s, k) {
        Some(s[map_index_of(s, k)].1)
    } else {
        None
    }
}

/// No two entries share a key.
pub open spec fn unique_keys<V>(s: Seq<(u64, V)>) -> bool {
    forall|i: int, j: int| 0 <= i < j < s.len() ==> (#[trigger] s[i]).0 != (#[trigger] s[j]).0
}

/// What `map_index_of` finds: the first entry with the key, if any.
pub proof fn lemma_map_index_of<V>(s: Seq<(u64, V)>, k: u64)
    ensures
        map_index_of(s, k) >= 0 ==> 0 <= map_index_of(s, k) < s.len() && s[map_index_of(s, k)].0
            == k,
        map_index_of(s, k) < 0 ==> forall|i: int|
            0 <= i < s.len() ==> (#[trigger] s[i]).0 != k,
        map_index_of(s, k) >= 0 ==> forall|i: int|
            0 <= i < map_index_of(s, k) ==> (#[trigger] s[i]).0 != k,
    decreases s.len(),
{
    if s.len() > 0 && s[0].0 != k {
        let t = s.drop_first();
        lemma_map_index_of(t, k);
        assert forall|i: int| 1 <= i < s.len() implies (#[trigger] s[i]) == t[i - 1] by {}
    }
}

/// If the first entry with key `k` stands at `i`, `map_index_of` says `i`.
pub proof fn lemma_map_index_of_at<V>(s: Seq<(u64, V)>, k: u64, i: int)
    requires
        0 <= i < s.len(),
        s[i].0 == k,
        forall|j: int| 0 <= j < i ==> (#[trigger] s[j]).0 != k,
    ensures
        map_index_of(s, k) == i,
    decreases s.len(),
{
    if i > 0 {
        let t = s.drop_first();
        assert forall|j: int| 0 <= j < i - 1 implies (#[trigger] t[j]).0 != k by {
            assert(t[j] == s[j + 1]);
        }
        assert(t[i - 1] == s[i]);
        lemma_map_index_of_at(t, k, i - 1);
    }
}

/// A key that no entry carries is not found.
pub proof fn lemma_map_index_of_none<V>(s: Seq<(u64, V)>, k: u64)
    requires
        forall|i: int| 0 <= i < s.len() ==> (#[trigger] s[i]).0 != k,
    ensures
        map_index_of(s, k) < 0,
    decreases s.len(),
{
    if s.len() > 0 {
        let t = s.drop_first();
        assert forall|i: int| 0 <= i < t.len() implies (#[trigger] t[i]).0 != k by {
            assert(t[i] == s[i + 1]);
        }
        lemma_map_index_of_none(t, k);
    }
}

/// Appending a fresh key puts it at the end; every other key is unmoved.
pub proof fn lemma_map_push<V>(s: Seq<(u64, V)>, k: u64, v: V, k2: u64)
    requires
        !map_has_key(s, k),
    ensures
        map_index_of(s.push((k, v)), k) == s.len(),
        map_lookup(s.push((k, v)), k) == Some(v),
        k2 != k ==> map_index_of(s.push((k, v)), k2) == map_index_of(s, k2),
        k2 != k ==> map_lookup(s.push((k, v)), k2) == map_lookup(s, k2),
{
    let s2 = s.push((k, v));
    lemma_map_index_of(s, k);
    assert forall|j: int| 0 <= j < s.len() implies (#[trigger] s2[j]).0 != k by {
        assert(s2[j] == s[j]);
    }
    assert(s2[s.len() as int].0 == k);
    lemma_map_index_of_at(s2, k, s.len() as int);
    if k2 != k {
        lemma_map_index_of(s, k2);
        if map_index_of(s, k2) >= 0 {
            let i = map_index_of(s, k2);
            assert(s2[i] == s[i]);
            assert forall|j: int| 0 <= j < i implies (#[trigger] s2[j]).0 != k2 by {
                assert(s2[j] == s[j]);
            }
            lemma_map_index_of_at(s2, k2, i);
        } else {
            assert forall|j: int| 0 <= j < s2.len() implies (#[trigger] s2[j]).0 != k2 by {
                if j < s.len() {
                    assert(s2[j] == s[j]);
                }
            }
            lemma_map_index_of_none(s2, k2);
        }
    }
}

/// Updating the entry that holds key `k` changes that key's value alone.
pub proof fn lemma_map_update<V>(s: Seq<(u64, V)>, k: u64, v: V, k2: u64)
    requires
        unique_keys(s),
        map_has_key(s, k),
    ensures
        unique_keys(s.update(map_index_of(s, k), (k, v))),
        map_index_of(s.update(map_index_of(s, k), (k, v)), k) == map_index_of(s, k),
        map_lookup(s.update(map_index_of(s, k), (k, v)), k) == Some(v),
        k2 != k ==> map_index_of(s.update(map_index_of(s, k), (k, v)), k2) == map_index_of(
            s,
            k2,
        ),
        k2 != k ==> map_lookup(s.update(map_index_of(s, k), (k, v)), k2) == map_lookup(s, k2),
{
    lemma_map_index_of(s, k);
    let i = map_index_of(s, k);
    let s2 = s.update(i, (k, v));
    assert forall|a: int, b: int| 0 <= a < b < s2.len() implies (#[trigger] s2[a]).0 != (
    #[trigger] s2[b]).0 by {
        assert(s2[a].0 == s[a].0);
        assert(s2[b].0 == s[b].0);
    }
    assert forall|j: int| 0 <= j < i implies (#[trigger] s2[j]).0 != k by {
        assert(s2[j] == s[j]);
    }
    lemma_map_index_of_at(s2, k, i);
    if k2 != k {
        lemma_map_index_of(s, k2);
        if map_index_of(s, k2) >= 0 {
            let j = map_index_of(s, k2);
            assert(s2[j].0 == s[j].0);
            assert forall|m: int| 0 <= m < j implies (#[trigger] s2[m]).0 != k2 by {
                assert(s2[m].0 == s[m].0);
            }
            lemma_map_index_of_at(s2, k2, j);
        } else {
            assert forall|m: int| 0 <= m < s2.len() implies (#[trigger] s2[m]).0 != k2 by {
                assert(s2[m].0 == s[m].0);
            }
            lemma_map_index_of_none(s2, k2);
        }
    }
}

/// An insertion-ordered association list with unique keys, the store behind
/// both document maps.
pub struct IdMap<V> {
    entries: Vec<(u64, V)>,
}

impl<V> View for IdMap<V> {
    type V = Seq<(u64, V)>;

    closed spec fn view(&self) -> Seq<(u64, V)> {
        self.entries@
    }
}

impl<V> IdMap<V> {
    /// Keys are unique.
    pub open spec fn wf(&self) -> bool {
        unique_keys(self@)
    }

    pub fn new() -> (r: IdMap<V>)
        ensures
            r@ == Seq::<(u64, V)>::empty(),
            r.wf(),
    {
        IdMap { entries: Vec::new() }
    }

    /// How many entries the map holds.
    pub fn len(&self) -> (r: usize)
        ensures
            r == self@.len(),
    {
        self.entries.len()
    }

    fn find(&self, k: u64) -> (r: Option<usize>)
        ensures
            match r {
                Some(i) => map_index_of(self@, k) == i && i < self@.len() && self@[i as int].0
                    == k,
                None => map_index_of(self@, k) < 0,
            },
    {
        let n = self.entries.len();
        let mut i: usize = 0;
        while i < n
            invariant
                i <= n,
                n == self@.len(),
                self@ == self.entries@,
                forall|j: int| 0 <= j < i ==> (#[trigger] self@[j]).0 != k,
            decreases n - i,
        {
            if self.entries[i].0 == k {
                proof {
                    lemma_map_index_of_at(self@, k, i as int);
                }
                return Some(i);
            }
            i = i + 1;
        }
        proof {
            lemma_map_index_of_none(self@, k);
        }
        None
    }

    /// The entry at position `i` in insertion order.
    pub fn entry_at(&self, i: usize) -> (r: &(u64, V))
        requires
            i < self@.len(),
        ensures
            *r == self@[i as int],
    {
        &self.entries[i]
    }

    /// Whether the map holds key `k`.
    pub fn contains_key(&self, k: u64) -> (r: bool)
        ensures
            r == map_has_key(self@, k),
    {
        let f = self.find(k);
        match f {
            Some(_) => true,
            None => false,
        }
    }

    /// The value under key `k`, if any.
    pub fn get(&self, k: u64) -> (r: Option<&V>)
        ensures
            match r {
                Some(v) => map_lookup(self@, k) == Some(*v),
                None => map_lookup(self@, k) is None,
            },
    {
        let f = self.find(k);
        match f {
            Some(i) => Some(&self.entries[i].1),
            None => None,
        }
    }

    /// Store `v` under `k`: replace the value in place if the key is held,
    /// append a new entry otherwise.
    pub fn insert(&mut self, k: u64, v: V)
        requires
            old(self).wf(),
        ensures
            final(self).wf(),
            map_has_key(old(self)@, k) ==> final(self)@ == old(self)@.update(
                map_index_of(old(self)@, k),
                (k, v),
            ),
            !map_has_key(old(self)@, k) ==> final(self)@ == old(self)@.push((k, v)),
    {
        let f = self.find(k);
        match f {
            Some(i) => {
                proof {
                    lemma_map_index_of_at(self@, k, map_index_of(self@, k));
                    lemma_map_update(self@, k, v, k);
                }
                *vstd::std_specs::vec::vec_index_mut(&mut self.entries, i) = (k, v);
            },
            None => {
                proof {
                    lemma_map_index_of(self@, k);
                    lemma_map_push(self@, k, v, k);
                }
                self.entries.push((k, v));
                proof {
                    assert forall|a: int, b: int|
                        0 <= a < b < self@.len() implies (#[trigger] self@[a]).0 != (
                    #[trigger] self@[b]).0 by {
                        if b < self@.len() - 1 {
                        } else {
                            assert(self@[b].0 == k);
                        }
                    }
                }
            },
        }
    }
}

/// Some positioned event sits on track `t`.
pub open spec fn track_used(s: Seq<(u64, (usize, usize))>, t: int) -> bool {
    exists|i: int| 0 <= i < s.len() && (#[trigger] s[i]).1.0 == t
}

/// How many of the tracks below `t` hold at least one positioned event.
pub open spec fn count_tracks_upto(s: Seq<(u64, (usize, usize))>, t: int) -> int
    decreases t,
{
    if t <= 0 {
        0
    } else {
        count_tracks_upto(s, t - 1) + if track_used(s, t - 1) {
            1int
        } else {
            0int
        }
    }
}

/// The greatest tick any event on track `t` occupies, or -1 if none does.
pub open spec fn track_top_tick(s: Seq<(u64, (usize, usize))>, t: int) -> int
    decreases s.len(),
{
    if s.len() == 0 {
        -1
    } else if s.last().1.0 == t && s.last().1.1 as int > track_top_tick(s.drop_last(), t) {
        s.last().1.1 as int
    } else {
        track_top_tick(s.drop_last(), t)
    }
}

/// A MIDI document: resolution and format words, the owned events, and the
/// authoritative id-to-(track, tick) placement map.
pub struct MIDI {
    /// Pulses per quarter note, the file's time resolution.
    pub ppqn: u16,
    /// The header's format word.
    pub midi_format: u16,
    /// Every event the document owns, keyed by id.
    pub events: IdMap<MIDIEvent>,
    /// Where each event stands; an id absent here is never serialized.
    pub event_positions: IdMap<(usize, usize)>,
    /// The next id to hand out; ids are monotonic and start at 1.
    pub event_id_gen: u64,
}

impl MIDI {
    /// The next id an insert will hand out.
    pub open spec fn next_id(&self) -> u64 {
        self.event_id_gen
    }

    /// The stored pulses-per-quarter-note word.
    pub open spec fn spec_ppqn(&self) -> u16 {
        self.ppqn
    }

    /// The stored format word.
    pub open spec fn spec_format(&self) -> u16 {
        self.midi_format
    }

    /// Both maps have unique keys; every positioned id is an owned event;
    /// tracks stay below 16 and ticks below the address-space bound; ids
    /// stay below the generator, which starts at 1.
    pub open spec fn wf(&self) -> bool {
        &&& self.events.wf()
        &&& self.event_positions.wf()
        &&& forall|i: int|
            0 <= i < self.event_positions@.len() ==> map_has_key(
                self.events@,
                (#[trigger] self.event_positions@[i]).0,
            )
        &&& forall|i: int|
            0 <= i < self.event_positions@.len() ==> (#[trigger] self.event_positions@[i]).1.0
                < 16
        &&& forall|i: int|
            0 <= i < self.event_positions@.len() ==> (#[trigger] self.event_positions@[i]).1.1
                < usize::MAX
        &&& forall|i: int|
            0 <= i < self.events@.len() ==> (#[trigger] self.events@[i]).0 < self.next_id()
        &&& self.next_id() >= 1
    }

    /// An empty document: 120 pulses per quarter note, format 1.
    pub fn new() -> (r: MIDI)
        ensures
            r.wf(),
            r.spec_ppqn() == 120,
            r.spec_format() == 1,
            r.events@ == Seq::<(u64, MIDIEvent)>::empty(),
            r.event_positions@ == Seq::<(u64, (usize, usize))>::empty(),
            r.next_id() == 1,
    {
        MIDI {
            ppqn: 120,
            midi_format: 1,
            events: IdMap::new(),
            event_positions: IdMap::new(),
            event_id_gen: 1,
        }
    }

    pub fn get_ppqn(&self) -> (r: u16)
        ensures
            r == self.spec_ppqn(),
    {
        self.ppqn
    }

    pub fn set_ppqn(&mut self, ppqn: u16)
        ensures
            final(self).spec_ppqn() == ppqn,
            final(self).spec_format() == old(self).spec_format(),
            final(self).events@ == old(self).events@,
            final(self).event_positions@ == old(self).event_positions@,
            final(self).next_id() == old(self).next_id(),
            old(self).wf() ==> final(self).wf(),
    {
        self.ppqn = ppqn;
    }

    pub fn get_format(&self) -> (r: u16)
        ensures
            r == self.spec_format(),
    {
        self.midi_format
    }

    pub fn set_format(&mut self, new_format: u16)
        ensures
            final(self).spec_format() == new_format,
            final(self).spec_ppqn() == old(self).spec_ppqn(),
            final(self).events@ == old(self).events@,
            final(self).event_positions@ == old(self).event_positions@,
            final(self).next_id() == old(self).next_id(),
            old(self).wf() ==> final(self).wf(),
    {
        self.midi_format = new_format;
    }

    /// Place `event` at (`track`, `tick`) under a fresh id. Tracks beyond 15
    /// are rejected.
    pub fn insert_event(&mut self, track: usize, tick: usize, event: MIDIEvent) -> (r: Result<
        u64,
        ApresError,
    >)
        requires
            old(self).wf(),
            old(self).next_id() < u64::MAX,
            tick < usize::MAX,
        ensures
            final(self).wf(),
            track > 15 ==> r == Err::<u64, ApresError>(ApresError::TrackOutOfBounds),
            track > 15 ==> *final(self) == *old(self),
            track <= 15 ==> {
                &&& r == Ok::<u64, ApresError>(old(self).next_id())
                &&& final(self).events@ == old(self).events@.push(
                    (old(self).next_id(), event),
                )
                &&& final(self).event_positions@ == old(self).event_positions@.push(
                    (old(self).next_id(), (track, tick)),
                )
                &&& final(self).next_id() == old(self).next_id() + 1
                &&& final(self).spec_ppqn() == old(self).spec_ppqn()
                &&& final(self).spec_format() == old(self).spec_format()
            },
    {
        if track > 15 {
            return Err(ApresError::TrackOutOfBounds);
        }
        let id = self.event_id_gen;
        proof {
            assert forall|i: int| 0 <= i < self.events@.len() implies (
            #[trigger] self.events@[i]).0 != id by {}
            lemma_map_index_of_none(self.events@, id);
            lemma_map_push(self.events@, id, event, id);
            assert forall|i: int|
                0 <= i < self.event_positions@.len() implies (
            #[trigger] self.event_positions@[i]).0 != id by {
                let k = self.event_positions@[i].0;
                lemma_map_index_of(self.events@, k);
            }
            lemma_map_index_of_none(self.event_positions@, id);
            lemma_map_push(self.event_positions@, id, (track, tick), id);
        }
        let ghost events0 = self.events@;
        let ghost positions0 = self.event_positions@;
        self.event_id_gen = id + 1;
        self.events.insert(id, event);
        self.event_positions.insert(id, (track, tick));
        proof {
            assert(self.events@ == events0.push((id, event)));
            assert(self.event_positions@ == positions0.push((id, (track, tick))));
            assert forall|i: int|
                0 <= i < self.event_positions@.len() implies map_has_key(
                self.events@,
                (#[trigger] self.event_positions@[i]).0,
            ) by {
                let k = self.event_positions@[i].0;
                if i < positions0.len() {
                    assert(self.event_positions@[i] == positions0[i]);
                    lemma_map_index_of(positions0, k);
                    lemma_map_index_of_at(positions0, k, map_index_of(positions0, k));
                    assert(map_has_key(events0, k)) by {
                        lemma_map_index_of(positions0, k);
                    }
                    lemma_map_push(events0, id, event, k);
                } else {
                    assert(k == id);
                    lemma_map_push(events0, id, event, id);
                }
            }
        }
        Ok(id)
    }

    /// Re-place the event `event_id` at (`track`, `tick`) without touching
    /// its content: an upsert into the position map alone.
    pub fn move_event(&mut self, track: usize, tick: usize, event_id: u64)
        requires
            old(self).wf(),
            map_has_key(old(self).events@, event_id),
            track <= 15,
            tick < usize::MAX,
        ensures
            final(self).wf(),
            final(self).events@ == old(self).events@,
            final(self).spec_ppqn() == old(self).spec_ppqn(),
            final(self).spec_format() == old(self).spec_format(),
            final(self).next_id() == old(self).next_id(),
            map_lookup(final(self).event_positions@, event_id) == Some((track, tick)),
            forall|k: u64|
                k != event_id ==> #[trigger] map_lookup(final(self).event_positions@, k)
                    == map_lookup(old(self).event_positions@, k),
            map_has_key(old(self).event_positions@, event_id) ==> final(self).event_positions@
                == old(self).event_positions@.update(
                map_index_of(old(self).event_positions@, event_id),
                (event_id, (track, tick)),
            ),
            !map_has_key(old(self).event_positions@, event_id) ==> final(self).event_positions@
                == old(self).event_positions@.push((event_id, (track, tick))),
    {
        let ghost positions0 = self.event_positions@;
        proof {
            if map_has_key(positions0, event_id) {
                assert forall|k: u64| true implies #[trigger] map_lookup(
                    positions0.update(
                        map_index_of(positions0, event_id),
                        (event_id, (track, tick)),
                    ),
                    k,
                ) == (if k == event_id {
                    Some((track, tick))
                } else {
                    map_lookup(positions0, k)
                }) by {
                    lemma_map_update(positions0, event_id, (track, tick), k);
                }
            } else {
                assert forall|k: u64| true implies #[trigger] map_lookup(
                    positions0.push((event_id, (track, tick))),
                    k,
                ) == (if k == event_id {
                    Some((track, tick))
                } else {
                    map_lookup(positions0, k)
                }) by {
                    lemma_map_push(positions0, event_id, (track, tick), k);
                }
            }
        }
        self.event_positions.insert(event_id, (track, tick));
        proof {
            if map_has_key(positions0, event_id) {
                lemma_map_index_of(positions0, event_id);
                lemma_map_update(positions0, event_id, (track, tick), event_id);
                assert forall|i: int|
                    0 <= i < self.event_positions@.len() implies map_has_key(
                    self.events@,
                    (#[trigger] self.event_positions@[i]).0,
                ) && (#[trigger] self.event_positions@[i]).1.0 < 16 && (
                #[trigger] self.event_positions@[i]).1.1 < usize::MAX by {
                    if i != map_index_of(positions0, event_id) {
                        assert(self.event_positions@[i] == positions0[i]);
                    }
                }
            } else {
                lemma_map_push(positions0, event_id, (track, tick), event_id);
                assert forall|i: int|
                    0 <= i < self.event_positions@.len() implies map_has_key(
                    self.events@,
                    (#[trigger] self.event_positions@[i]).0,
                ) && (#[trigger] self.event_positions@[i]).1.0 < 16 && (
                #[trigger] self.event_positions@[i]).1.1 < usize::MAX by {
                    if i < positions0.len() {
                        assert(self.event_positions@[i] == positions0[i]);
                    }
                }
            }
        }
    }

    /// Swap the content stored under `event_id` without touching its
    /// position; an unknown id is reported and nothing changes.
    pub fn replace_event(&mut self, event_id: u64, new_midi_event: MIDIEvent) -> (r: Result<
        (),
        ApresError,
    >)
        requires
            old(self).wf(),
        ensures
            final(self).wf(),
            final(self).event_positions@ == old(self).event_positions@,
            final(self).spec_ppqn() == old(self).spec_ppqn(),
            final(self).spec_format() == old(self).spec_format(),
            final(self).next_id() == old(self).next_id(),
            map_has_key(old(self).events@, event_id) ==> {
                &&& r == Ok::<(), ApresError>(())
                &&& map_lookup(final(self).events@, event_id) == Some(new_midi_event)
                &&& forall|k: u64|
                    k != event_id ==> #[trigger] map_lookup(final(self).events@, k)
                        == map_lookup(old(self).events@, k)
                &&& final(self).events@ == old(self).events@.update(
                    map_index_of(old(self).events@, event_id),
                    (event_id, new_midi_event),
                )
            },
            !map_has_key(old(self).events@, event_id) ==> r == Err::<(), ApresError>(
                ApresError::EventNotFound(event_id),
            ) && *final(self) == *old(self),
    {
        let present = self.events.contains_key(event_id);
        if !present {
            return Err(ApresError::EventNotFound(event_id));
        }
        let ghost events0 = self.events@;
        proof {
            assert forall|k: u64| k != event_id implies #[trigger] map_lookup(
                events0.update(map_index_of(events0, event_id), (event_id, new_midi_event)),
                k,
            ) == map_lookup(events0, k) by {
                lemma_map_update(events0, event_id, new_midi_event, k);
            }
            lemma_map_update(events0, event_id, new_midi_event, event_id);
            lemma_map_index_of(events0, event_id);
        }
        self.events.insert(event_id, new_midi_event);
        proof {
            assert forall|i: int|
                0 <= i < self.event_positions@.len() implies map_has_key(
                self.events@,
                (#[trigger] self.event_positions@[i]).0,
            ) by {
                let k = self.event_positions@[i].0;
                lemma_map_update(events0, event_id, new_midi_event, k);
                lemma_map_index_of(self.events@, k);
            }
            assert forall|i: int|
                0 <= i < self.events@.len() implies (#[trigger] self.events@[i]).0
                < self.next_id() by {
                if i != map_index_of(events0, event_id) {
                    assert(self.events@[i] == events0[i]);
                } else {
                    assert(events0[i].0 == event_id);
                }
            }
        }
        Ok(())
    }

    /// Where `event_id` stands, if it is placed.
    pub fn get_event_position(&self, event_id: u64) -> (r: Option<&(usize, usize)>)
        ensures
            match r {
                Some(p) => map_lookup(self.event_positions@, event_id) == Some(*p),
                None => map_lookup(self.event_positions@, event_id) is None,
            },
    {
        self.event_positions.get(event_id)
    }

    /// The event stored under `event_id`, if any.
    pub fn get_event(&self, event_id: u64) -> (r: Option<&MIDIEvent>)
        ensures
            match r {
                Some(e) => map_lookup(self.events@, event_id) == Some(*e),
                None => map_lookup(self.events@, event_id) is None,
            },
    {
        self.events.get(event_id)
    }

    /// How many events the document owns.
    pub fn count_events(&self) -> (r: usize)
        ensures
            r == self.events@.len(),
    {
        self.events.len()
    }

    /// How many distinct tracks hold at least one positioned event.
    pub fn count_tracks(&self) -> (r: usize)
        requires
            self.wf(),
        ensures
            r == count_tracks_upto(self.event_positions@, 16),
    {
        let mut c: usize = 0;
        let mut t: usize = 0;
        while t < 16
            invariant
                t <= 16,
                c == count_tracks_upto(self.event_positions@, t as int),
                c <= t,
            decreases 16 - t,
        {
            if position_track_used(&self.event_positions, t) {
                c = c + 1;
            }
            t = t + 1;
        }
        c
    }

    /// One past the greatest occupied tick of `track`, or zero for a track
    /// with no events.
    pub fn get_track_length(&self, track: usize) -> (r: usize)
        requires
            self.wf(),
        ensures
            r == track_top_tick(self.event_positions@, track as int) + 1,
    {
        let ghost s = self.event_positions@;
        let n = self.event_positions.len();
        let mut len: usize = 0;
        proof {
            assert(s.take(0) =~= Seq::<(u64, (usize, usize))>::empty());
        }
        let mut i: usize = 0;
        while i < n
            invariant
                i <= n,
                n == s.len(),
                self.wf(),
                s == self.event_positions@,
                len == track_top_tick(s.take(i as int), track as int) + 1,
            decreases n - i,
        {
            let entry = position_entry(&self.event_positions, i);
            proof {
                assert(s.take(i + 1).drop_last() =~= s.take(i as int));
                assert(s.take(i + 1).last() == s[i as int]);
            }
            if entry.1.0 == track && entry.1.1 + 1 > len {
                len = entry.1.1 + 1;
            }
            i = i + 1;
        }
        proof {
            assert(s.take(n as int) =~= s);
        }
        len
    }

    /// Append `event` to `track` after its current last tick, `wait` ticks
    /// later; an empty track counts its last tick as zero.
    pub fn push_event(&mut self, track: usize, wait: usize, event: MIDIEvent) -> (r: u64)
        requires
            old(self).wf(),
            old(self).next_id() < u64::MAX,
            track <= 15,
            ({
                let top = track_top_tick(old(self).event_positions@, track as int);
                (if top < 0 {
                    0
                } else {
                    top
                }) + wait < usize::MAX
            }),
        ensures
            final(self).wf(),
            r == old(self).next_id(),
            final(self).next_id() == old(self).next_id() + 1,
            final(self).events@ == old(self).events@.push((old(self).next_id(), event)),
            ({
                let top = track_top_tick(old(self).event_positions@, track as int);
                let tick = ((if top < 0 {
                    0
                } else {
                    top
                }) + wait) as usize;
                final(self).event_positions@ == old(self).event_positions@.push(
                    (old(self).next_id(), (track, tick)),
                )
            }),
            final(self).spec_ppqn() == old(self).spec_ppqn(),
            final(self).spec_format() == old(self).spec_format(),
    {
        let length = self.get_track_length(track);
        let last_tick: usize = if length > 0 {
            length - 1
        } else {
            0
        };
        let res = self.insert_event(track, last_tick + wait, event);
        match res {
            Ok(id) => id,
            Err(_) => 0,
        }
    }
}

/// A header chunk tag stands at `i`.
pub open spec fn is_mthd_at(s: Seq<u8>, i: int) -> bool {
    &&& s.len() >= i + 4
    &&& s[i] == 0x4d
    &&& s[i + 1] == 0x54
    &&& s[i + 2] == 0x68
    &&& s[i + 3] == 0x64
}

/// A track chunk tag stands at `i`.
pub open spec fn is_mtrk_at(s: Seq<u8>, i: int) -> bool {
    &&& s.len() >= i + 4
    &&& s[i] == 0x4d
    &&& s[i + 1] == 0x54
    &&& s[i + 2] == 0x72
    &&& s[i + 3] == 0x6b
}

/// One accepted event of a file decode: the track and tick the document
/// places it at, where its bytes start, and the running status in force
/// there.
pub ghost struct FileSlot {
    pub track: usize,
    pub tick: usize,
    pub offset: int,
    pub status: u8,
}

/// The event framed at `ep` is a trailing end-of-track meta, which the
/// decoder drops: serialization synthesizes one for every track anyway.
pub open spec fn is_eot_at(bytes: Seq<u8>, ep: int) -> bool {
    &&& bytes[ep] == 0xff
    &&& ep + 1 < bytes.len()
    &&& bytes[ep + 1] == 0x2f
}

/// The placements one track chunk's bytes decode to, walking `[at, end)`
/// with the accumulated `tick` and running `status`, together with the
/// running status left for the next chunk; `None` is a structural fault
/// that aborts the whole file.
pub open spec fn track_slots(
    bytes: Seq<u8>,
    at: int,
    end: int,
    track: usize,
    tick: usize,
    status: u8,
) -> Option<(Seq<FileSlot>, u8)>
    decreases end - at,
{
    if at >= end {
        if at == end {
            Some((Seq::empty(), status))
        } else {
            None
        }
    } else {
        let k = crate::varlen::varlen_span(bytes.skip(at));
        if k < 0 {
            None
        } else {
            let delta = crate::varlen::varlen_value(bytes.skip(at).take(k))
                % 0x10000000000000000;
            if delta > usize::MAX - 1 - tick {
                None
            } else {
                let tick2 = (tick + delta) as usize;
                let ep = at + k;
                if ep >= end {
                    None
                } else {
                    let lead = bytes[ep];
                    let st2 = if 0x80 <= lead < 0xf0 {
                        lead
                    } else {
                        status
                    };
                    match crate::parse::parse_shape(bytes.skip(ep), st2) {
                        crate::parse::ParseShape::Event { used } => {
                            if used < 1 || used > end - ep {
                                None
                            } else if is_eot_at(bytes, ep) {
                                track_slots(bytes, ep + used, end, track, tick2, st2)
                            } else {
                                match track_slots(bytes, ep + used, end, track, tick2, st2) {
                                    Some(p) => Some(
                                        (
                                            seq![
                                                FileSlot {
                                                    track,
                                                    tick: tick2,
                                                    offset: ep,
                                                    status: st2,
                                                },
                                            ] + p.0,
                                            p.1,
                                        ),
                                    ),
                                    None => None,
                                }
                            }
                        },
                        crate::parse::ParseShape::SkipMeta { used } => {
                            if used < 1 || used > end - ep {
                                None
                            } else {
                                track_slots(bytes, ep + used, end, track, tick2, st2)
                            }
                        },
                        crate::parse::ParseShape::SkipText { used, .. } => {
                            if used < 1 || used > end - ep {
                                None
                            } else {
                                track_slots(bytes, ep + used, end, track, tick2, st2)
                            }
                        },
                        crate::parse::ParseShape::Fail => None,
                    }
                }
            }
        }
    }
}

/// The placements of every chunk from `at` on, tracks numbered from
/// `track`, running status carried across chunks. A repeated header chunk
/// is refused: the stored resolution and format words would no longer be
/// the first header's.
pub open spec fn chunk_slots(bytes: Seq<u8>, at: int, track: usize, status: u8) -> Option<
    Seq<FileSlot>,
>
    decreases bytes.len() - at,
{
    if at >= bytes.len() {
        if at == bytes.len() {
            Some(Seq::empty())
        } else {
            None
        }
    } else if bytes.len() - at < 8 {
        None
    } else if is_mthd_at(bytes, at) {
        None
    } else if is_mtrk_at(bytes, at) {
        if track > 15 {
            None
        } else {
            let tlen = crate::varlen::be_value(bytes.subrange(at + 4, at + 8));
            if tlen > bytes.len() - (at + 8) {
                None
            } else {
                let end = at + 8 + tlen;
                match track_slots(bytes, at + 8, end, track, 0, status) {
                    Some(p) => match chunk_slots(bytes, end, (track + 1) as usize, p.1) {
                        Some(rest) => Some(p.0 + rest),
                        None => None,
                    },
                    None => None,
                }
            }
        }
    } else {
        None
    }
}

/// What a whole file's bytes decode to: the header must come first, then
/// every chunk must parse; `None` wherever the decode aborts.
pub open spec fn file_slots(bytes: Seq<u8>) -> Option<Seq<FileSlot>> {
    if bytes.len() >= 4 && is_mtrk_at(bytes, 0) {
        None
    } else if bytes.len() < 14 || !is_mthd_at(bytes, 0) {
        None
    } else {
        chunk_slots(bytes, 14, 0, 0x90)
    }
}

impl MIDI {
    /// Decode a whole Standard MIDI File. The header must come first; each
    /// track chunk's events are inserted in order at their accumulated tick,
    /// under ids 1, 2, ... in decode order, with running status carried
    /// across the whole file. A meta event with an unknown sub-type or an
    /// illegible text payload is skipped, and a trailing end-of-track is
    /// dropped (serialization synthesizes one); every structural fault
    /// aborts the decode. Success happens exactly when `file_slots` accepts
    /// the bytes, and the document then holds exactly the slots' events.
    pub fn from_bytes(bytes: Vec<u8>) -> (r: Result<MIDI, ApresError>)
        ensures
            (r is Ok) <==> (file_slots(bytes@) is Some),
            match r {
                Ok(m) => {
                    &&& m.wf()
                    &&& bytes@.len() >= 14
                    &&& is_mthd_at(bytes@, 0)
                    &&& m.spec_format() as nat == crate::varlen::be_value(
                        bytes@.subrange(8, 10),
                    )
                    &&& m.spec_ppqn() as nat == crate::varlen::be_value(
                        bytes@.subrange(12, 14),
                    ) % 0x8000
                    &&& match file_slots(bytes@) {
                        Some(slots) => {
                            &&& m.events@.len() == slots.len()
                            &&& m.event_positions@.len() == slots.len()
                            &&& m.next_id() == slots.len() + 1
                            &&& forall|i: int|
                                0 <= i < slots.len() ==> (#[trigger] m.events@[i]).0 == i + 1
                            &&& forall|i: int|
                                0 <= i < slots.len() ==> (#[trigger] m.event_positions@[i])
                                    == ((i + 1) as u64, (slots[i].track, slots[i].tick))
                            &&& forall|i: int|
                                0 <= i < slots.len()
                                    ==> crate::parse::event_parses_from(
                                    bytes@.skip((#[trigger] slots[i]).offset),
                                    slots[i].status,
                                    m.events@[i].1,
                                )
                        },
                        None => false,
                    }
                },
                Err(_) => true,
            },
            (r == Err::<MIDI, ApresError>(ApresError::MissingHeader)) <==> is_mtrk_at(
                bytes@,
                0,
            ),
    {
        let n = bytes.len();
        if n >= 4 && bytes[0] == 0x4d && bytes[1] == 0x54 && bytes[2] == 0x72 && bytes[3]
            == 0x6b {
            return Err(ApresError::MissingHeader);
        }
        if n < 14 || !(bytes[0] == 0x4d && bytes[1] == 0x54 && bytes[2] == 0x68 && bytes[3]
            == 0x64) {
            return Err(ApresError::InvalidBytes(bytes));
        }
        let mut m = MIDI::new();
        let hdr_fmt = crate::varlen::read_fixed_width(&bytes, 8, 2);
        let division = crate::varlen::read_fixed_width(&bytes, 12, 2);
        proof {
            assert(crate::varlen::pow256(2) == 0x10000) by {
                assert(crate::varlen::pow256(0) == 1);
                assert(crate::varlen::pow256(1) == 0x100);
            }
            crate::varlen::lemma_be_value_bound(bytes@.subrange(8, 10));
            crate::varlen::lemma_be_value_bound(bytes@.subrange(12, 14));
            assert((division as u16) & 0x7fff == division as u16 % 0x8000) by (bit_vector);
        }
        m.set_format(hdr_fmt as u16);
        m.set_ppqn((division as u16) & 0x7fff);
        let mut cursor: usize = 14;
        let mut track_idx: usize = 0;
        let mut active_byte: u8 = 0x90;
        let ghost mut done: Seq<FileSlot> = Seq::empty();
        proof {
            assert(!is_mtrk_at(bytes@, 0));
            assert(file_slots(bytes@) == chunk_slots(bytes@, 14, 0, 0x90));
            let cs = chunk_slots(bytes@, 14, 0, 0x90);
            match cs {
                Some(rem) => {
                    assert(done + rem =~= rem);
                },
                None => {
                },
            }
        }
        while cursor < n
            invariant
                m.wf(),
                14 <= cursor <= n,
                n == bytes@.len(),
                2 * m.next_id() <= cursor,
                m.spec_format() as nat == crate::varlen::be_value(bytes@.subrange(8, 10)),
                m.spec_ppqn() as nat == crate::varlen::be_value(bytes@.subrange(12, 14))
                    % 0x8000,
                track_idx <= 16,
                !is_mtrk_at(bytes@, 0),
                m.events@.len() == done.len(),
                m.event_positions@.len() == done.len(),
                m.next_id() == done.len() + 1,
                forall|i: int|
                    0 <= i < done.len() ==> (#[trigger] m.events@[i]).0 == i + 1,
                forall|i: int|
                    0 <= i < done.len() ==> (#[trigger] m.event_positions@[i]) == (
                    (i + 1) as u64,
                    (done[i].track, done[i].tick),
                ),
                forall|i: int|
                    0 <= i < done.len() ==> crate::parse::event_parses_from(
                        bytes@.skip((#[trigger] done[i]).offset),
                        done[i].status,
                        m.events@[i].1,
                    ),
                match chunk_slots(bytes@, cursor as int, track_idx, active_byte) {
                    Some(rem) => file_slots(bytes@) == Some(done + rem),
                    None => file_slots(bytes@) is None,
                },
            decreases n - cursor,
        {
            if n - cursor < 8 {
                proof {
                    assert(chunk_slots(bytes@, cursor as int, track_idx, active_byte)
                        is None);
                }
                return Err(ApresError::InvalidBytes(bytes));
            }
            let t0 = bytes[cursor];
            let t1 = bytes[cursor + 1];
            let t2 = bytes[cursor + 2];
            let t3 = bytes[cursor + 3];
            if t0 == 0x4d && t1 == 0x54 && t2 == 0x68 && t3 == 0x64 {
                // A repeated header chunk would replace the stored format
                // and division words; it is refused instead.
                proof {
                    assert(is_mthd_at(bytes@, cursor as int));
                    assert(chunk_slots(bytes@, cursor as int, track_idx, active_byte)
                        is None);
                }
                return Err(ApresError::InvalidBytes(bytes));
            } else if t0 == 0x4d && t1 == 0x54 && t2 == 0x72 && t3 == 0x6b {
                proof {
                    assert(is_mtrk_at(bytes@, cursor as int));
                    assert(!is_mthd_at(bytes@, cursor as int));
                }
                if track_idx > 15 {
                    proof {
                        assert(chunk_slots(bytes@, cursor as int, track_idx, active_byte)
                            is None);
                    }
                    return Err(ApresError::InvalidBytes(bytes));
                }
                let tlen = crate::varlen::read_fixed_width(&bytes, cursor + 4, 4);
                if tlen > (n - (cursor + 8)) as u64 {
                    proof {
                        assert(chunk_slots(bytes@, cursor as int, track_idx, active_byte)
                            is None);
                    }
                    return Err(ApresError::InvalidBytes(bytes));
                }
                let track_end = cursor + 8 + (tlen as usize);
                let ghost chunk_start = cursor as int;
                cursor = cursor + 8;
                let mut tick: usize = 0;
                proof {
                    let ts = track_slots(
                        bytes@,
                        cursor as int,
                        track_end as int,
                        track_idx,
                        0,
                        active_byte,
                    );
                    match ts {
                        Some(p) => {
                            match chunk_slots(
                                bytes@,
                                track_end as int,
                                (track_idx + 1) as usize,
                                p.1,
                            ) {
                                Some(rest) => {
                                    assert(done + (p.0 + rest) =~= done + p.0 + rest);
                                },
                                None => {
                                },
                            }
                        },
                        None => {
                        },
                    }
                }
                while cursor < track_end
                    invariant
                        m.wf(),
                        14 <= cursor <= track_end <= n,
                        n == bytes@.len(),
                        2 * m.next_id() <= cursor,
                        m.spec_format() as nat == crate::varlen::be_value(
                            bytes@.subrange(8, 10),
                        ),
                        m.spec_ppqn() as nat == crate::varlen::be_value(
                            bytes@.subrange(12, 14),
                        ) % 0x8000,
                        tick < usize::MAX,
                        track_idx <= 15,
                        !is_mtrk_at(bytes@, 0),
                        m.events@.len() == done.len(),
                        m.event_positions@.len() == done.len(),
                        m.next_id() == done.len() + 1,
                        forall|i: int|
                            0 <= i < done.len() ==> (#[trigger] m.events@[i]).0 == i + 1,
                        forall|i: int|
                            0 <= i < done.len() ==> (#[trigger] m.event_positions@[i]) == (
                            (i + 1) as u64,
                            (done[i].track, done[i].tick),
                        ),
                        forall|i: int|
                            0 <= i < done.len() ==> crate::parse::event_parses_from(
                                bytes@.skip((#[trigger] done[i]).offset),
                                done[i].status,
                                m.events@[i].1,
                            ),
                        match track_slots(
                            bytes@,
                            cursor as int,
                            track_end as int,
                            track_idx,
                            tick,
                            active_byte,
                        ) {
                            Some(p) => match chunk_slots(
                                bytes@,
                                track_end as int,
                                (track_idx + 1) as usize,
                                p.1,
                            ) {
                                Some(rest) => file_slots(bytes@) == Some(
                                    done + p.0 + rest,
                                ),
                                None => file_slots(bytes@) is None,
                            },
                            None => file_slots(bytes@) is None,
                        },
                    decreases track_end - cursor,
                {
                    let ghost at0 = cursor as int;
                    let ghost tick0 = tick;
                    let ghost status0 = active_byte;
                    let vr = crate::varlen::read_varlen_at(&bytes, cursor);
                    let (delta, dlen) = match vr {
                        Some(p) => p,
                        None => {
                            proof {
                                assert(track_slots(
                                    bytes@,
                                    at0,
                                    track_end as int,
                                    track_idx,
                                    tick0,
                                    status0,
                                ) is None);
                            }
                            return Err(ApresError::InvalidBytes(bytes));
                        },
                    };
                    if delta > (usize::MAX - 1 - tick) as u64 {
                        proof {
                            assert(track_slots(
                                bytes@,
                                at0,
                                track_end as int,
                                track_idx,
                                tick0,
                                status0,
                            ) is None);
                        }
                        return Err(ApresError::InvalidBytes(bytes));
                    }
                    tick = tick + (delta as usize);
                    cursor = cursor + dlen;
                    if cursor >= track_end {
                        proof {
                            assert(track_slots(
                                bytes@,
                                at0,
                                track_end as int,
                                track_idx,
                                tick0,
                                status0,
                            ) is None);
                        }
                        return Err(ApresError::InvalidBytes(bytes));
                    }
                    let lead = bytes[cursor];
                    if lead >= 0x80 && lead < 0xf0 {
                        active_byte = lead;
                    }
                    let (res, used) = crate::parse::parse_event_at(&bytes, cursor, active_byte);
                    if used < 1 || used > track_end - cursor {
                        proof {
                            assert(track_slots(
                                bytes@,
                                at0,
                                track_end as int,
                                track_idx,
                                tick0,
                                status0,
                            ) is None);
                        }
                        return Err(ApresError::InvalidBytes(bytes));
                    }
                    match res {
                        Ok(e) => {
                            if lead == 0xff && cursor + 1 < n && bytes[cursor + 1] == 0x2f {
                                // A trailing end-of-track: dropped, since
                                // serialization synthesizes one per track.
                                proof {
                                    assert(is_eot_at(bytes@, cursor as int));
                                    assert(track_slots(
                                        bytes@,
                                        at0,
                                        track_end as int,
                                        track_idx,
                                        tick0,
                                        status0,
                                    ) == track_slots(
                                        bytes@,
                                        cursor + used,
                                        track_end as int,
                                        track_idx,
                                        tick,
                                        active_byte,
                                    ));
                                }
                            } else {
                                proof {
                                    assert(!is_eot_at(bytes@, cursor as int));
                                }
                                let ghost events0 = m.events@;
                                let ghost positions0 = m.event_positions@;
                                let ghost slot = FileSlot {
                                    track: track_idx,
                                    tick: tick,
                                    offset: cursor as int,
                                    status: active_byte,
                                };
                                let ins = m.insert_event(track_idx, tick, e);
                                match ins {
                                    Ok(_) => {
                                        proof {
                                            done = done.push(slot);
                                            assert forall|i: int|
                                                0 <= i < done.len() implies (
                                            #[trigger] m.events@[i]).0 == i + 1 by {
                                                if i < done.len() - 1 {
                                                    assert(m.events@[i] == events0[i]);
                                                }
                                            }
                                            assert forall|i: int|
                                                0 <= i < done.len() implies (
                                            #[trigger] m.event_positions@[i]) == (
                                                (i + 1) as u64,
                                                (done[i].track, done[i].tick),
                                            ) by {
                                                if i < done.len() - 1 {
                                                    assert(m.event_positions@[i]
                                                        == positions0[i]);
                                                    assert(done[i] == done.drop_last()[i]);
                                                }
                                            }
                                            assert forall|i: int|
                                                0 <= i < done.len()
                                                    implies crate::parse::event_parses_from(
                                                bytes@.skip((#[trigger] done[i]).offset),
                                                done[i].status,
                                                m.events@[i].1,
                                            ) by {
                                                if i < done.len() - 1 {
                                                    assert(m.events@[i] == events0[i]);
                                                    assert(done[i] == done.drop_last()[i]);
                                                } else {
                                                    assert(done[i] == slot);
                                                }
                                            }
                                            let ts2 = track_slots(
                                                bytes@,
                                                cursor + used,
                                                track_end as int,
                                                track_idx,
                                                tick,
                                                active_byte,
                                            );
                                            match ts2 {
                                                Some(p2) => {
                                                    assert(track_slots(
                                                        bytes@,
                                                        at0,
                                                        track_end as int,
                                                        track_idx,
                                                        tick0,
                                                        status0,
                                                    ) == Some(
                                                        (seq![slot] + p2.0, p2.1),
                                                    ));
                                                    assert(done.drop_last() + (seq![slot]
                                                        + p2.0) =~= done + p2.0);
                                                    match chunk_slots(
                                                        bytes@,
                                                        track_end as int,
                                                        (track_idx + 1) as usize,
                                                        p2.1,
                                                    ) {
                                                        Some(rest) => {
                                                            assert(done.drop_last() + (
                                                            seq![slot] + p2.0) + rest
                                                                =~= done + p2.0 + rest);
                                                        },
                                                        None => {
                                                        },
                                                    }
                                                },
                                                None => {
                                                    assert(track_slots(
                                                        bytes@,
                                                        at0,
                                                        track_end as int,
                                                        track_idx,
                                                        tick0,
                                                        status0,
                                                    ) is None);
                                                },
                                            }
                                        }
                                    },
                                    Err(er) => {
                                        return Err(er);
                                    },
                                }
                            }
                        },
                        Err(er) => {
                            match er {
                                ApresError::UnknownMetaEvent(_) => {
                                    proof {
                                        assert(track_slots(
                                            bytes@,
                                            at0,
                                            track_end as int,
                                            track_idx,
                                            tick0,
                                            status0,
                                        ) == track_slots(
                                            bytes@,
                                            cursor + used,
                                            track_end as int,
                                            track_idx,
                                            tick,
                                            active_byte,
                                        ));
                                    }
                                },
                                ApresError::IllegibleString(_) => {
                                    proof {
                                        assert(track_slots(
                                            bytes@,
                                            at0,
                                            track_end as int,
                                            track_idx,
                                            tick0,
                                            status0,
                                        ) == track_slots(
                                            bytes@,
                                            cursor + used,
                                            track_end as int,
                                            track_idx,
                                            tick,
                                            active_byte,
                                        ));
                                    }
                                },
                                _ => {
                                    return Err(ApresError::InvalidBytes(bytes));
                                },
                            }
                        },
                    }
                    cursor = cursor + used;
                }
                proof {
                    assert(cursor == track_end);
                    assert(track_slots(
                        bytes@,
                        cursor as int,
                        track_end as int,
                        track_idx,
                        tick,
                        active_byte,
                    ) == Some((Seq::<FileSlot>::empty(), active_byte)));
                    match chunk_slots(
                        bytes@,
                        track_end as int,
                        (track_idx + 1) as usize,
                        active_byte,
                    ) {
                        Some(rest) => {
                            assert(done + Seq::<FileSlot>::empty() + rest =~= done + rest);
                        },
                        None => {
                        },
                    }
                }
                track_idx = track_idx + 1;
            } else {
                proof {
                    assert(!is_mthd_at(bytes@, cursor as int));
                    assert(!is_mtrk_at(bytes@, cursor as int));
                    assert(chunk_slots(bytes@, cursor as int, track_idx, active_byte)
                        is None);
                }
                return Err(ApresError::InvalidBytes(bytes));
            }
        }
        proof {
            assert(chunk_slots(bytes@, cursor as int, track_idx, active_byte) == Some(
                Seq::<FileSlot>::empty(),
            ));
            assert(done + Seq::<FileSlot>::empty() =~= done);
        }
        Ok(m)
    }
}



/// A sixteen-bit big-endian word.
pub open spec fn be16_bytes(n: nat) -> Seq<u8> {
    seq![((n / 0x100) % 0x100) as u8, (n % 0x100) as u8]
}

/// A thirty-two-bit big-endian word.
pub open spec fn be32_bytes(n: nat) -> Seq<u8> {
    seq![
        ((n / 0x1000000) % 0x100) as u8,
        ((n / 0x10000) % 0x100) as u8,
        ((n / 0x100) % 0x100) as u8,
        (n % 0x100) as u8,
    ]
}

/// The (id, tick) pairs positioned on track `t`, in storage order.
pub open spec fn track_entries(s: Seq<(u64, (usize, usize))>, t: int) -> Seq<(u64, usize)>
    decreases s.len(),
{
    if s.len() == 0 {
        Seq::empty()
    } else if s.last().1.0 == t {
        track_entries(s.drop_last(), t).push((s.last().0, s.last().1.1))
    } else {
        track_entries(s.drop_last(), t)
    }
}

/// Insert one entry into a tick-sorted list, after every entry whose tick is
/// equal or smaller: ties keep their arrival order.
pub open spec fn insert_by_tick(x: (u64, usize), s: Seq<(u64, usize)>) -> Seq<(u64, usize)>
    decreases s.len(),
{
    if s.len() == 0 {
        seq![x]
    } else if s.last().1 <= x.1 {
        s.push(x)
    } else {
        insert_by_tick(x, s.drop_last()).push(s.last())
    }
}

/// Stable insertion sort by tick.
pub open spec fn sort_by_tick(s: Seq<(u64, usize)>) -> Seq<(u64, usize)>
    decreases s.len(),
{
    if s.len() == 0 {
        Seq::empty()
    } else {
        insert_by_tick(s.last(), sort_by_tick(s.drop_last()))
    }
}

/// The event stored under `id`; an end-of-track stands in for a hole, which
/// a well-formed document never has.
pub open spec fn event_of(events: Seq<(u64, MIDIEvent)>, id: u64) -> MIDIEvent {
    match map_lookup(events, id) {
        Some(e) => e,
        None => MIDIEvent::EndOfTrack,
    }
}

/// A track body: each event with its tick delta from the one before, closed
/// by a synthesized end-of-track at delta zero.
pub open spec fn track_body_bytes(
    events: Seq<(u64, MIDIEvent)>,
    sorted: Seq<(u64, usize)>,
    prev: int,
) -> Seq<u8>
    decreases sorted.len(),
{
    if sorted.len() == 0 {
        seq![0x00u8, 0xffu8, 0x2fu8, 0x00u8]
    } else {
        let tick = sorted[0].1 as int;
        let delta = if tick >= prev {
            tick - prev
        } else {
            0
        };
        crate::varlen::varlen_bytes(delta as nat) + crate::event::event_bytes(
            event_of(events, sorted[0].0),
        ) + track_body_bytes(events, sorted.drop_first(), tick)
    }
}

/// A track chunk: the tag, the body length as 32 bits, the body.
pub open spec fn track_chunk_bytes(body: Seq<u8>) -> Seq<u8> {
    seq![0x4du8, 0x54u8, 0x72u8, 0x6bu8] + be32_bytes((body.len() % 0x100000000) as nat) + body
}

/// The greatest track index in use, or -1 for an empty document.
pub open spec fn max_track(s: Seq<(u64, (usize, usize))>) -> int
    decreases s.len(),
{
    if s.len() == 0 {
        -1
    } else if s.last().1.0 as int > max_track(s.drop_last()) {
        s.last().1.0 as int
    } else {
        max_track(s.drop_last())
    }
}

/// The chunks of tracks `from` up to (excluding) `upto`, in order.
pub open spec fn tracks_bytes(
    events: Seq<(u64, MIDIEvent)>,
    positions: Seq<(u64, (usize, usize))>,
    from: int,
    upto: int,
) -> Seq<u8>
    decreases upto - from,
{
    if from >= upto {
        Seq::<u8>::empty()
    } else {
        track_chunk_bytes(
            track_body_bytes(events, sort_by_tick(track_entries(positions, from)), 0),
        ) + tracks_bytes(events, positions, from + 1, upto)
    }
}

/// A whole file: the header chunk with the derived track count, then every
/// track from zero through the greatest in use.
pub open spec fn midi_file_bytes(m: MIDI) -> Seq<u8> {
    seq![0x4du8, 0x54u8, 0x68u8, 0x64u8, 0x00u8, 0x00u8, 0x00u8, 0x06u8] + be16_bytes(
        m.midi_format as nat,
    ) + be16_bytes((max_track(m.event_positions@) + 1) as nat) + be16_bytes(m.ppqn as nat)
        + tracks_bytes(m.events@, m.event_positions@, 0, max_track(m.event_positions@) + 1)
}

proof fn lemma_tracks_bytes_snoc(
    events: Seq<(u64, MIDIEvent)>,
    positions: Seq<(u64, (usize, usize))>,
    from: int,
    upto: int,
)
    requires
        from <= upto,
    ensures
        tracks_bytes(events, positions, from, upto + 1) == tracks_bytes(
            events,
            positions,
            from,
            upto,
        ) + track_chunk_bytes(
            track_body_bytes(events, sort_by_tick(track_entries(positions, upto)), 0),
        ),
    decreases upto - from,
{
    let chunk = track_chunk_bytes(
        track_body_bytes(events, sort_by_tick(track_entries(positions, upto)), 0),
    );
    if from == upto {
        assert(tracks_bytes(events, positions, upto + 1, upto + 1) == Seq::<u8>::empty());
        assert(tracks_bytes(events, positions, from, upto + 1) =~= tracks_bytes(
            events,
            positions,
            from,
            upto,
        ) + chunk);
    } else {
        lemma_tracks_bytes_snoc(events, positions, from + 1, upto);
        assert(tracks_bytes(events, positions, from, upto + 1) =~= tracks_bytes(
            events,
            positions,
            from,
            upto,
        ) + chunk);
    }
}

proof fn lemma_insert_by_tick_at(x: (u64, usize), s: Seq<(u64, usize)>, j: int)
    requires
        -1 <= j < s.len(),
        forall|k: int| j < k < s.len() ==> (#[trigger] s[k]).1 > x.1,
        j >= 0 ==> s[j].1 <= x.1,
    ensures
        insert_by_tick(x, s) == s.take(j + 1).push(x) + s.skip(j + 1),
    decreases s.len(),
{
    if s.len() == 0 {
        assert(insert_by_tick(x, s) =~= s.take(j + 1).push(x) + s.skip(j + 1));
    } else if s.last().1 <= x.1 {
        assert(j == s.len() - 1);
        assert(insert_by_tick(x, s) =~= s.take(j + 1).push(x) + s.skip(j + 1));
    } else {
        let t = s.drop_last();
        assert(j < s.len() - 1);
        assert forall|k: int| j < k < t.len() implies (#[trigger] t[k]).1 > x.1 by {
            assert(t[k] == s[k]);
        }
        if j >= 0 {
            assert(t[j] == s[j]);
        }
        lemma_insert_by_tick_at(x, t, j);
        assert(insert_by_tick(x, s) == insert_by_tick(x, t).push(s.last()));
        assert(insert_by_tick(x, t).push(s.last()) =~= s.take(j + 1).push(x) + s.skip(j + 1));
    }
}

fn doc_max_track(positions: &IdMap<(usize, usize)>) -> (r: usize)
    requires
        forall|i: int|
            0 <= i < positions@.len() ==> (#[trigger] positions@[i]).1.0 < 16,
    ensures
        r == max_track(positions@) + 1,
        r <= 16,
{
    let ghost s = positions@;
    let n = positions.len();
    let mut top: usize = 0;
    proof {
        assert(s.take(0) =~= Seq::<(u64, (usize, usize))>::empty());
    }
    let mut i: usize = 0;
    while i < n
        invariant
            i <= n,
            n == s.len(),
            s == positions@,
            forall|j: int| 0 <= j < s.len() ==> (#[trigger] s[j]).1.0 < 16,
            top == max_track(s.take(i as int)) + 1,
            top <= 16,
        decreases n - i,
    {
        let entry = position_entry(positions, i);
        proof {
            assert(s.take(i + 1).drop_last() =~= s.take(i as int));
            assert(s.take(i + 1).last() == s[i as int]);
        }
        if entry.1.0 + 1 > top {
            top = entry.1.0 + 1;
        }
        i = i + 1;
    }
    proof {
        assert(s.take(n as int) =~= s);
    }
    top
}

fn collect_track_entries(positions: &IdMap<(usize, usize)>, t: usize) -> (r: Vec<(u64, usize)>)
    ensures
        r@ == track_entries(positions@, t as int),
{
    let ghost s = positions@;
    let n = positions.len();
    let mut out: Vec<(u64, usize)> = Vec::new();
    proof {
        assert(s.take(0) =~= Seq::<(u64, (usize, usize))>::empty());
    }
    let mut i: usize = 0;
    while i < n
        invariant
            i <= n,
            n == s.len(),
            s == positions@,
            out@ == track_entries(s.take(i as int), t as int),
        decreases n - i,
    {
        let entry = position_entry(positions, i);
        proof {
            assert(s.take(i + 1).drop_last() =~= s.take(i as int));
            assert(s.take(i + 1).last() == s[i as int]);
        }
        if entry.1.0 == t {
            out.push((entry.0, entry.1.1));
        }
        i = i + 1;
    }
    proof {
        assert(s.take(n as int) =~= s);
    }
    out
}

fn sort_entries(entries: Vec<(u64, usize)>) -> (r: Vec<(u64, usize)>)
    ensures
        r@ == sort_by_tick(entries@),
{
    let ghost s = entries@;
    let n = entries.len();
    let mut out: Vec<(u64, usize)> = Vec::new();
    proof {
        assert(s.take(0) =~= Seq::<(u64, usize)>::empty());
    }
    let mut i: usize = 0;
    while i < n
        invariant
            i <= n,
            n == s.len(),
            s == entries@,
            out@ == sort_by_tick(s.take(i as int)),
        decreases n - i,
    {
        let x = entries[i];
        let mut j: usize = out.len();
        while j > 0
            invariant_except_break
                j <= out@.len(),
                forall|k: int| j <= k < out@.len() ==> (#[trigger] out@[k]).1 > x.1,
            ensures
                j <= out@.len(),
                forall|k: int| j <= k < out@.len() ==> (#[trigger] out@[k]).1 > x.1,
                j > 0 ==> out@[j - 1].1 <= x.1,
            decreases j,
        {
            let prev = out[j - 1];
            if prev.1 <= x.1 {
                break ;
            }
            j = j - 1;
        }
        proof {
            lemma_insert_by_tick_at(x, out@, j - 1);
            assert(out@.insert(j as int, x) =~= out@.take(j as int).push(x) + out@.skip(
                j as int,
            ));
            assert(s.take(i + 1).drop_last() =~= s.take(i as int));
            assert(s.take(i + 1).last() == s[i as int]);
        }
        out.insert(j, x);
        i = i + 1;
    }
    proof {
        assert(s.take(n as int) =~= s);
    }
    out
}

fn build_track_body(events: &IdMap<MIDIEvent>, sorted: &Vec<(u64, usize)>) -> (r: Vec<u8>)
    ensures
        r@ == track_body_bytes(events@, sorted@, 0),
{
    let ghost s = sorted@;
    let n = sorted.len();
    let mut out: Vec<u8> = Vec::new();
    let mut prev: usize = 0;
    proof {
        assert(s.skip(0) =~= s);
    }
    let mut i: usize = 0;
    while i < n
        invariant
            i <= n,
            n == s.len(),
            s == sorted@,
            track_body_bytes(events@, s, 0) == out@ + track_body_bytes(
                events@,
                s.skip(i as int),
                prev as int,
            ),
        decreases n - i,
    {
        let p = sorted[i];
        let tick = p.1;
        let delta: usize = if tick >= prev {
            tick - prev
        } else {
            0
        };
        proof {
            assert(s.skip(i as int).drop_first() =~= s.skip(i + 1));
            assert(s.skip(i as int)[0] == s[i as int]);
        }
        let mut db = crate::varlen::to_variable_length_bytes(delta);
        out.append(&mut db);
        let found = events.get(p.0);
        match found {
            Some(e) => {
                let mut eb = e.as_bytes();
                out.append(&mut eb);
            },
            None => {
                let mut eb = MIDIEvent::EndOfTrack.as_bytes();
                out.append(&mut eb);
            },
        }
        prev = tick;
        i = i + 1;
    }
    out.push(0x00);
    out.push(0xff);
    out.push(0x2f);
    out.push(0x00);
    proof {
        assert(s.skip(n as int) =~= Seq::<(u64, usize)>::empty());
        assert(out@ =~= track_body_bytes(events@, s, 0));
    }
    out
}

impl MIDI {
    /// Serialize the whole document: the header chunk, then each track from
    /// zero through the greatest in use, events in tick order with ties kept
    /// in insertion order, every track closed by a synthesized end-of-track.
    pub fn as_bytes(&self) -> (r: Vec<u8>)
        requires
            self.wf(),
        ensures
            r@ == midi_file_bytes(*self),
    {
        let ntracks = doc_max_track(&self.event_positions);
        let mut out: Vec<u8> = Vec::new();
        out.push(0x4d);
        out.push(0x54);
        out.push(0x68);
        out.push(0x64);
        out.push(0x00);
        out.push(0x00);
        out.push(0x00);
        out.push(0x06);
        out.push(((self.midi_format / 0x100) % 0x100) as u8);
        out.push((self.midi_format % 0x100) as u8);
        out.push(((ntracks / 0x100) % 0x100) as u8);
        out.push((ntracks % 0x100) as u8);
        out.push(((self.ppqn / 0x100) % 0x100) as u8);
        out.push((self.ppqn % 0x100) as u8);
        let ghost header = out@;
        proof {
            assert(header =~= seq![
                0x4du8,
                0x54u8,
                0x68u8,
                0x64u8,
                0x00u8,
                0x00u8,
                0x00u8,
                0x06u8,
            ] + be16_bytes(self.midi_format as nat) + be16_bytes(
                (max_track(self.event_positions@) + 1) as nat,
            ) + be16_bytes(self.ppqn as nat));
        }
        let mut t: usize = 0;
        while t < ntracks
            invariant
                t <= ntracks,
                self.wf(),
                ntracks == max_track(self.event_positions@) + 1,
                out@ == header + tracks_bytes(
                    self.events@,
                    self.event_positions@,
                    0,
                    t as int,
                ),
            decreases ntracks - t,
        {
            let entries = collect_track_entries(&self.event_positions, t);
            let sorted = sort_entries(entries);
            let body = build_track_body(&self.events, &sorted);
            out.push(0x4d);
            out.push(0x54);
            out.push(0x72);
            out.push(0x6b);
            let blen = (body.len() as u64) % 0x100000000;
            out.push(((blen / 0x1000000) % 0x100) as u8);
            out.push(((blen / 0x10000) % 0x100) as u8);
            out.push(((blen / 0x100) % 0x100) as u8);
            out.push((blen % 0x100) as u8);
            let mut b = body;
            out.append(&mut b);
            proof {
                lemma_tracks_bytes_snoc(self.events@, self.event_positions@, 0, t as int);
                assert(out@ =~= header + tracks_bytes(
                    self.events@,
                    self.event_positions@,
                    0,
                    t + 1,
                ));
            }
            t = t + 1;
        }
        proof {
            assert(out@ =~= midi_file_bytes(*self));
        }
        out
    }
}

fn position_track_used(positions: &IdMap<(usize, usize)>, t: usize) -> (r: bool)
    ensures
        r == track_used(positions@, t as int),
{
    let n = positions.len();
    let mut i: usize = 0;
    while i < n
        invariant
            i <= n,
            n == positions@.len(),
            forall|j: int| 0 <= j < i ==> (#[trigger] positions@[j]).1.0 != t,
        decreases n - i,
    {
        let entry = position_entry(positions, i);
        if entry.1.0 == t {
            return true;
        }
        i = i + 1;
    }
    false
}

fn position_entry(positions: &IdMap<(usize, usize)>, i: usize) -> (r: (u64, (usize, usize)))
    requires
        i < positions@.len(),
    ensures
        r == positions@[i as int],
{
    *positions.entry_at(i)
}

} // verus!
