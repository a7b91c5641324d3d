//! The note registry: the notes that sound or fade, each bound to its
//! instrument, and their life from key-down to silence.

use vstd::prelude::*;
use std::sync::Arc;
use crate::fixed::{saturate, saturate_spec};
use crate::instrument::{lemma_pure_bank_gives_one_sample, Instrument, Note};
use crate::oscillator::{pure_bank, OscCall};

verus! {

/// A note with the instrument that plays it.
pub struct Voice {
    /// The note.
    pub note: Note,
    /// The instrument, shared with every other note that uses it.
    pub instrument: Arc<Instrument>,
}

impl Voice {
    /// Whether the key is up: the note is held only while `on > off`.
    pub open spec fn releasing(self) -> bool {
        self.note.off >= self.note.on
    }

    /// Whether the note leaves the registry at `now`: its envelope has
    /// reached zero and it was in fact released.
    pub open spec fn retired(self, now: i64) -> bool {
        self.instrument@.finished(now, self.note) && self.note.off > self.note.on
    }
}

/// Whether a note of key `id` is in the registry.
pub open spec fn has_note(voices: Seq<Voice>, id: i32) -> bool {
    exists|i: int| 0 <= i < voices.len() && (#[trigger] voices[i]).note.id == id
}

/// Where the note of key `id` stands, if there is one.
pub open spec fn index_of(voices: Seq<Voice>, id: i32) -> int {
    choose|i: int| 0 <= i < voices.len() && (#[trigger] voices[i]).note.id == id
}

/// What holds of a registry: one note per key at most, and every note
/// active.
pub open spec fn registry_inv(voices: Seq<Voice>) -> bool {
    &&& forall|i: int, j: int|
        0 <= i < j < voices.len() ==> (#[trigger] voices[i]).note.id != (
        #[trigger] voices[j]).note.id
    &&& forall|i: int| 0 <= i < voices.len() ==> (#[trigger] voices[i]).note.active
}

/// The registry after key `id` went down at `now`. A key with no note gets
/// one, held from `now` and played by `instrument`; a note that is releasing
/// starts again at `now`, on the instrument it has; a held note stays as it
/// is.
pub open spec fn after_key_down(
    voices: Seq<Voice>,
    id: i32,
    now: i64,
    instrument: Arc<Instrument>,
) -> Seq<Voice> {
    if has_note(voices, id) {
        let i = index_of(voices, id);
        if voices[i].releasing() {
            voices.update(
                i,
                Voice { note: Note { on: now, active: true, ..voices[i].note }, ..voices[i] },
            )
        } else {
            voices
        }
    } else {
        voices.push(Voice { note: Note { id, on: now, off: 0, active: true }, instrument })
    }
}

/// The registry after key `id` went up at `now`: a held note of that key is
/// released at `now`; nothing else changes.
pub open spec fn after_key_up(voices: Seq<Voice>, id: i32, now: i64) -> Seq<Voice> {
    if has_note(voices, id) && !voices[index_of(voices, id)].releasing() {
        let i = index_of(voices, id);
        voices.update(i, Voice { note: Note { off: now, ..voices[i].note }, ..voices[i] })
    } else {
        voices
    }
}

/// The test a note passes to stay in the registry at `now`.
pub open spec fn stays(now: i64) -> spec_fn(Voice) -> bool {
    |voice: Voice| !voice.retired(now)
}

/// The registry after the tick at `now`: the notes that have not retired, in
/// their order.
pub open spec fn after_tick(voices: Seq<Voice>, now: i64) -> Seq<Voice> {
    voices.filter(stays(now))
}

/// Whether `answers` holds, for each voice in turn, answers that the
/// oscillator bank `osc` can give to that voice's requests at `now`.
pub open spec fn all_heard<F: Fn(OscCall) -> i32>(
    voices: Seq<Voice>,
    osc: F,
    now: i64,
    answers: Seq<Seq<i32>>,
) -> bool {
    &&& answers.len() == voices.len()
    &&& forall|i: int|
        0 <= i < voices.len() ==> (#[trigger] voices[i]).instrument@.heard(
            osc,
            now,
            voices[i].note,
            answers[i],
        )
}

/// The sum of the samples of the first `count` voices at `now`.
pub open spec fn mix_sum(voices: Seq<Voice>, now: i64, answers: Seq<Seq<i32>>, count: nat) -> int
    decreases count,
{
    if count == 0 {
        0
    } else {
        mix_sum(voices, now, answers, (count - 1) as nat) + voices[count - 1].instrument@.sample(
            now,
            voices[count - 1].note,
            answers[count - 1],
        )
    }
}

/// The mixed output of all voices at `now`, held within 64 bits.
pub open spec fn mixed(voices: Seq<Voice>, now: i64, answers: Seq<Seq<i32>>) -> int {
    saturate_spec(mix_sum(voices, now, answers, voices.len()))
}

/// In a registry the note of a key stands at one place only.
pub proof fn lemma_index_unique(voices: Seq<Voice>, id: i32, i: int)
    requires
        registry_inv(voices),
        0 <= i < voices.len(),
        voices[i].note.id == id,
    ensures
        has_note(voices, id),
        index_of(voices, id) == i,
{
    let j = index_of(voices, id);
    if j < i {
        assert(voices[j].note.id != voices[i].note.id);
    } else if i < j {
        assert(voices[i].note.id != voices[j].note.id);
    }
}

/// A key event keeps the registry a registry.
pub proof fn lemma_keys_keep_invariant(
    voices: Seq<Voice>,
    id: i32,
    now: i64,
    instrument: Arc<Instrument>,
)
    requires
        registry_inv(voices),
    ensures
        registry_inv(after_key_down(voices, id, now, instrument)),
        registry_inv(after_key_up(voices, id, now)),
{
    let down = after_key_down(voices, id, now, instrument);
    if !has_note(voices, id) {
        assert forall|i: int, j: int| 0 <= i < j < down.len() implies (#[trigger] down[i]).note.id
            != (#[trigger] down[j]).note.id by {
            if j == voices.len() {
                assert(voices[i].note.id != id);
            } else {
                assert(voices[i].note.id != voices[j].note.id);
            }
        }
    }
}

/// After key-down at an instant that is not before the clock's start nor
/// before the note's last release, the key has an active note whose note-off
/// is not after its note-on. Where the instant is later than both, the note
/// is held.
pub proof fn lemma_key_down_orders(
    voices: Seq<Voice>,
    id: i32,
    now: i64,
    instrument: Arc<Instrument>,
)
    requires
        registry_inv(voices),
        now >= 0,
        has_note(voices, id) ==> now >= voices[index_of(voices, id)].note.off,
    ensures
        has_note(after_key_down(voices, id, now, instrument), id),
        ({
            let after = after_key_down(voices, id, now, instrument);
            let voice = after[index_of(after, id)];
            &&& voice.note.active
            &&& voice.note.off <= voice.note.on
            &&& (now > 0 && (has_note(voices, id) ==> now > voices[index_of(
                voices,
                id,
            )].note.off)) ==> !voice.releasing()
        }),
{
    let after = after_key_down(voices, id, now, instrument);
    lemma_keys_keep_invariant(voices, id, now, instrument);
    if has_note(voices, id) {
        let i = index_of(voices, id);
        assert(after[i].note.id == id);
        lemma_index_unique(after, id, i);
    } else {
        let i = voices.len() as int;
        assert(after[i].note.id == id);
        lemma_index_unique(after, id, i);
    }
}

/// After key-up at an instant later than note-on, a held note is released:
/// its note-off is after its note-on. A note that was released before stays
/// so.
pub proof fn lemma_key_up_releases(voices: Seq<Voice>, id: i32, now: i64)
    requires
        registry_inv(voices),
        has_note(voices, id),
        ({
            let voice = voices[index_of(voices, id)];
            ||| voice.note.on > voice.note.off && now > voice.note.on
            ||| voice.note.off > voice.note.on
        }),
    ensures
        has_note(after_key_up(voices, id, now), id),
        ({
            let after = after_key_up(voices, id, now);
            let voice = after[index_of(after, id)];
            voice.note.off > voice.note.on
        }),
{
    let after = after_key_up(voices, id, now);
    let i = index_of(voices, id);
    lemma_keys_keep_invariant(voices, id, now, voices[i].instrument);
    assert(after[i].note.id == id);
    lemma_index_unique(after, id, i);
}

/// Keys do not disturb each other: a key event of one key leaves the note of
/// every other key as it is, instants and instrument alike.
pub proof fn lemma_keys_are_independent(
    voices: Seq<Voice>,
    id: i32,
    other: i32,
    now: i64,
    instrument: Arc<Instrument>,
)
    requires
        registry_inv(voices),
        has_note(voices, other),
        other != id,
    ensures
        has_note(after_key_down(voices, id, now, instrument), other),
        has_note(after_key_up(voices, id, now), other),
        ({
            let down = after_key_down(voices, id, now, instrument);
            down[index_of(down, other)] == voices[index_of(voices, other)]
        }),
        ({
            let up = after_key_up(voices, id, now);
            up[index_of(up, other)] == voices[index_of(voices, other)]
        }),
{
    let down = after_key_down(voices, id, now, instrument);
    let up = after_key_up(voices, id, now);
    let o = index_of(voices, other);
    lemma_keys_keep_invariant(voices, id, now, instrument);
    assert(down[o] == voices[o]);
    assert(up[o] == voices[o]);
    lemma_index_unique(down, other, o);
    lemma_index_unique(up, other, o);
}

/// The tick at `now` purges exactly the notes that were released and have
/// fallen silent: a note is in the registry afterwards if and only if it was
/// there and has not retired, and then it is unchanged.
pub proof fn lemma_tick_purges(voices: Seq<Voice>, now: i64, id: i32)
    requires
        registry_inv(voices),
    ensures
        registry_inv(after_tick(voices, now)),
        after_tick(voices, now).len() <= voices.len(),
        has_note(after_tick(voices, now), id) <==> has_note(voices, id) && !voices[index_of(
            voices,
            id,
        )].retired(now),
        has_note(after_tick(voices, now), id) ==> after_tick(voices, now)[index_of(
            after_tick(voices, now),
            id,
        )] == voices[index_of(voices, id)],
    decreases voices.len(),
{
    let keep = stays(now);
    let after = after_tick(voices, now);
    reveal(Seq::filter);
    if voices.len() == 0 {
        assert(after.len() == 0);
    } else {
        let front = voices.drop_last();
        let last = voices.last();
        let front_after = after_tick(front, now);
        assert forall|i: int, j: int| 0 <= i < j < front.len() implies (#[trigger] front[i]).note.id
            != (#[trigger] front[j]).note.id by {
            assert(voices[i].note.id != voices[j].note.id);
        }
        assert forall|i: int| 0 <= i < front.len() implies (#[trigger] front[i]).note.active by {
            assert(voices[i].note.active);
        }
        lemma_tick_purges(front, now, id);
        lemma_tick_purges(front, now, last.note.id);
        // the last note's key occurs nowhere in the front
        assert(!has_note(front, last.note.id)) by {
            if has_note(front, last.note.id) {
                let k = index_of(front, last.note.id);
                assert(voices[k].note.id != voices[voices.len() - 1].note.id);
            }
        }
        assert(after == if keep(last) {
            front_after.push(last)
        } else {
            front_after
        });
        // the invariant carries over
        assert(registry_inv(after)) by {
            if keep(last) {
                assert forall|i: int, j: int| 0 <= i < j < after.len() implies (
                #[trigger] after[i]).note.id != (#[trigger] after[j]).note.id by {
                    if j == front_after.len() {
                        assert(front_after[i].note.id == after[i].note.id);
                        assert(has_note(front_after, after[i].note.id));
                        lemma_tick_purges(front, now, after[i].note.id);
                    } else {
                        assert(front_after[i].note.id != front_after[j].note.id);
                    }
                }
            }
        }
        // membership, case by case
        if has_note(front, id) {
            let k = index_of(front, id);
            assert(voices[k].note.id == id);
            lemma_index_unique(voices, id, k);
            if has_note(front_after, id) {
                let m = index_of(front_after, id);
                assert(after[m].note.id == id);
                lemma_index_unique(after, id, m);
            } else {
                if has_note(after, id) {
                    let m = index_of(after, id);
                    if m < front_after.len() {
                        assert(front_after[m].note.id == id);
                    }
                }
            }
        } else if last.note.id == id {
            lemma_index_unique(voices, id, voices.len() - 1);
            if keep(last) {
                let m = front_after.len() as int;
                assert(after[m].note.id == id);
                lemma_index_unique(after, id, m);
            } else {
                assert(!has_note(after, id));
            }
        } else {
            if has_note(voices, id) {
                let k = index_of(voices, id);
                if k < front.len() {
                    assert(front[k].note.id == id);
                }
            }
            if has_note(after, id) {
                let m = index_of(after, id);
                if m < front_after.len() {
                    assert(front_after[m].note.id == id);
                }
            }
        }
    }
}

/// A pure oscillator bank makes a pure mix: for a fixed registry and instant
/// the mixed output is the same at every call.
pub proof fn lemma_pure_bank_gives_one_mix<F: Fn(OscCall) -> i32>(
    voices: Seq<Voice>,
    osc: F,
    now: i64,
    a: Seq<Seq<i32>>,
    b: Seq<Seq<i32>>,
)
    requires
        pure_bank(osc),
        all_heard(voices, osc, now, a),
        all_heard(voices, osc, now, b),
    ensures
        a == b,
        mixed(voices, now, a) == mixed(voices, now, b),
{
    assert forall|i: int| 0 <= i < a.len() implies a[i] == b[i] by {
        lemma_pure_bank_gives_one_sample(
            voices[i].instrument@,
            osc,
            now,
            voices[i].note,
            a[i],
            b[i],
        );
    }
    assert(a =~= b);
}

/// The sum of the first `count` samples looks at no later answer.
proof fn lemma_mix_sum_prefix(
    voices: Seq<Voice>,
    now: i64,
    a: Seq<Seq<i32>>,
    b: Seq<Seq<i32>>,
    count: nat,
)
    requires
        count <= a.len(),
        count <= b.len(),
        forall|i: int| 0 <= i < count ==> a[i] == b[i],
    ensures
        mix_sum(voices, now, a, count) == mix_sum(voices, now, b, count),
    decreases count,
{
    if count > 0 {
        lemma_mix_sum_prefix(voices, now, a, b, (count - 1) as nat);
    }
}

/// The notes that sound or fade, each with its instrument.
pub struct NoteRegistry {
    voices: Vec<Voice>,
}

impl View for NoteRegistry {
    type V = Seq<Voice>;

    closed spec fn view(&self) -> Seq<Voice> {
        self.voices@
    }
}

impl NoteRegistry {
    #[verifier::type_invariant]
    spec fn valid(&self) -> bool {
        registry_inv(self.voices@)
    }

    /// A registry without notes.
    pub fn new() -> (r: NoteRegistry)
        ensures
            r@ == Seq::<Voice>::empty(),
            registry_inv(r@),
    {
        NoteRegistry { voices: Vec::new() }
    }

    /// Number of notes.
    pub fn len(&self) -> (r: usize)
        ensures
            r == self@.len(),
            registry_inv(self@),
    {
        proof {
            use_type_invariant(self);
        }
        self.voices.len()
    }

    /// Where the note of key `id` stands among `voices`.
    fn position(voices: &Vec<Voice>, id: i32) -> (r: Option<usize>)
        requires
            registry_inv(voices@),
        ensures
            r is Some <==> has_note(voices@, id),
            r matches Some(i) ==> i < voices.len() && i == index_of(voices@, id) && voices[i as int].note.id
                == id,
        no_unwind
    {
        let mut i: usize = 0;
        while i < voices.len()
            invariant
                i <= voices.len(),
                registry_inv(voices@),
                forall|k: int| 0 <= k < i ==> (#[trigger] voices[k]).note.id != id,
            decreases voices.len() - i,
        {
            if voices[i].note.id == id {
                proof {
                    lemma_index_unique(voices@, id, i as int);
                }
                return Some(i);
            }
            i = i + 1;
        }
        None
    }

    /// The note of key `id`, if the registry holds one.
    pub fn note(&self, id: i32) -> (r: Option<Note>)
        ensures
            r is Some <==> has_note(self@, id),
            r matches Some(note) ==> note == self@[index_of(self@, id)].note && note.id == id,
            registry_inv(self@),
    {
        proof {
            use_type_invariant(self);
        }
        match Self::position(&self.voices, id) {
            Some(i) => Some(self.voices[i].note),
            None => None,
        }
    }

    /// The note at place `index`, in the order the keys first went down.
    pub fn note_at(&self, index: usize) -> (r: Option<Note>)
        ensures
            r is Some <==> index < self@.len(),
            r matches Some(note) ==> note == self@[index as int].note,
    {
        if index < self.voices.len() {
            Some(self.voices[index].note)
        } else {
            None
        }
    }

    /// Key `id` went down at `now`. A key without a note gets one, held from
    /// `now`, active, and played by `instrument`. A note that is releasing
    /// starts again: its note-on becomes `now`, its instrument stays. A held
    /// note is left alone.
    pub fn key_down(&mut self, id: i32, now: i64, instrument: Arc<Instrument>)
        ensures
            final(self)@ == after_key_down(old(self)@, id, now, instrument),
            registry_inv(final(self)@),
    {
        proof {
            use_type_invariant(&*self);
            lemma_keys_keep_invariant(self@, id, now, instrument);
        }
        match Self::position(&self.voices, id) {
            Some(i) => {
                let note: Note = self.voices[i].note;
                if note.off >= note.on {
                    let mut voices: Vec<Voice> = Vec::new();
                    std::mem::swap(&mut voices, &mut self.voices);
                    voices[i].note = Note { on: now, active: true, ..note };
                    std::mem::swap(&mut voices, &mut self.voices);
                }
            },
            None => {
                let mut voices: Vec<Voice> = Vec::new();
                std::mem::swap(&mut voices, &mut self.voices);
                voices.push(Voice { note: Note { id, on: now, off: 0, active: true }, instrument });
                std::mem::swap(&mut voices, &mut self.voices);
            },
        }
    }

    /// Key `id` went up at `now`: a held note of that key is released at
    /// `now`. A note that is releasing already, and a key without a note,
    /// change nothing.
    pub fn key_up(&mut self, id: i32, now: i64)
        ensures
            final(self)@ == after_key_up(old(self)@, id, now),
            registry_inv(final(self)@),
    {
        proof {
            use_type_invariant(&*self);
            if has_note(self@, id) {
                lemma_keys_keep_invariant(self@, id, now, self@[index_of(self@, id)].instrument);
            }
        }
        match Self::position(&self.voices, id) {
            Some(i) => {
                let note: Note = self.voices[i].note;
                if note.on > note.off {
                    let mut voices: Vec<Voice> = Vec::new();
                    std::mem::swap(&mut voices, &mut self.voices);
                    voices[i].note = Note { off: now, ..note };
                    std::mem::swap(&mut voices, &mut self.voices);
                }
            },
            None => {},
        }
    }
    /// One synthesis tick at `now`. Gives the mixed output: the sum, held
    /// within 64 bits, of the sample of every note, each from its instrument
    /// asking the oscillator bank `osc`. Then every note whose envelope has
    /// reached zero and that was released leaves the registry; the others
    /// stay, unchanged and in their order.
    pub fn tick<F: Fn(OscCall) -> i32>(&mut self, now: i64, osc: &F) -> (r: i64)
        requires
            forall|call: OscCall| call_requires(*osc, (call,)),
        ensures
            final(self)@ == after_tick(old(self)@, now),
            registry_inv(final(self)@),
            exists|answers: Seq<Seq<i32>>| #[trigger]
                all_heard(old(self)@, *osc, now, answers) && r == mixed(old(self)@, now, answers),
    {
        proof {
            use_type_invariant(&*self);
        }
        let count: usize = self.voices.len();
        let ghost mut answers: Seq<Seq<i32>> = Seq::empty();
        let mut retire: Vec<bool> = Vec::new();
        let mut total: i128 = 0;
        let mut i: usize = 0;
        while i < count
            invariant
                i <= count,
                count == self.voices.len(),
                self.voices@ == old(self).voices@,
                retire.len() == i,
                answers.len() == i,
                total == mix_sum(self.voices@, now, answers, i as nat),
                -(i * 0x8000_0000_0000_0000) <= total <= i * 0x8000_0000_0000_0000,
                forall|call: OscCall| call_requires(*osc, (call,)),
                forall|k: int| 0 <= k < i ==> retire[k] == (#[trigger] self.voices[k]).retired(now),
                forall|k: int|
                    0 <= k < i ==> (#[trigger] self.voices[k]).instrument@.heard(
                        *osc,
                        now,
                        self.voices[k].note,
                        answers[k],
                    ),
            decreases count - i,
        {
            let note: Note = self.voices[i].note;
            let (sample, finished) = self.voices[i].instrument.sound(now, note, osc);
            proof {
                let timbre = self.voices[i as int].instrument@;
                let values = choose|values: Seq<i32>| #[trigger]
                    timbre.heard(*osc, now, note, values) && sample == timbre.sample(
                        now,
                        note,
                        values,
                    );
                let extended = answers.push(values);
                lemma_mix_sum_prefix(self.voices@, now, answers, extended, i as nat);
                assert((i + 1) * 0x8000_0000_0000_0000 == i * 0x8000_0000_0000_0000
                    + 0x8000_0000_0000_0000) by (nonlinear_arith);
                assert(i * 0x8000_0000_0000_0000 <= 0xffff_ffff_ffff_fffe * 0x8000_0000_0000_0000)
                    by (nonlinear_arith)
                    requires
                        i < 0xffff_ffff_ffff_ffff,
                ;
                answers = extended;
            }
            total = total + sample as i128;
            retire.push(finished && note.off > note.on);
            i = i + 1;
        }
        proof {
            assert(all_heard(self.voices@, *osc, now, answers));
            lemma_tick_purges(self.voices@, now, 0);
        }
        let mut voices: Vec<Voice> = Vec::new();
        std::mem::swap(&mut voices, &mut self.voices);
        let ghost before = voices@;
        let mut kept: usize = 0;
        let mut j: usize = 0;
        while j < count
            invariant
                kept <= j <= count,
                count == before.len(),
                retire.len() == count,
                forall|k: int| 0 <= k < count ==> retire[k] == (#[trigger] before[k]).retired(now),
                kept == before.take(j as int).filter(stays(now)).len(),
                voices@ == before.take(j as int).filter(stays(now)) + before.skip(j as int),
            decreases count - j,
        {
            proof {
                let head = before.take(j as int);
                assert(before.take(j + 1) == head.push(before[j as int]));
                head.lemma_filter_push(before[j as int], stays(now));
                assert(before.skip(j as int) == seq![before[j as int]] + before.skip(j + 1));
            }
            if retire[j] {
                let gone = voices.remove(kept);
                assert(voices@ == before.take(j + 1).filter(stays(now)) + before.skip(j + 1));
            } else {
                assert(voices@ == before.take(j + 1).filter(stays(now)) + before.skip(j + 1));
                kept = kept + 1;
            }
            j = j + 1;
        }
        proof {
            assert(before.take(count as int) == before);
            assert(voices@ == after_tick(before, now));
        }
        std::mem::swap(&mut voices, &mut self.voices);
        saturate(total)
    }
}

} // verus!
