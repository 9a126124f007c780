use vstd::prelude::*;

use crate::pcm::{output_level, to_output};
use crate::store::{loaded, SampleStore};

verus! {

/// The device's frame rate, in frames per second.
pub const SAMPLE_RATE: u64 = 44100;

/// The number of steps of the beat grid.
pub const STEPS: u64 = 16;

/// The most voices an engine holds at once.
pub const MAX_VOICES: usize = 64;

/// Frames between two beats at `tempo` beats per minute.
pub open spec fn frames_per_beat(tempo: int) -> int {
    44100int * 60 / tempo
}

/// Whether `mask` asks for a restart on beat `beat`.
pub open spec fn selects(mask: u16, beat: int) -> bool {
    mask & (1u16 << (beat as u16)) != 0
}

/// One playback of a sound: a cursor into its own copy of the samples, a
/// Q15 gain and the beats that restart it.
pub struct Voice {
    /// Handed out once, in increasing order.
    pub id: u64,
    /// The index of the next sample to mix.
    pub offset: usize,
    /// Whether the mixer reads from this voice.
    pub playing: bool,
    /// The Q15 gain: `GAIN_UNIT` is a gain of one.
    pub gain: u16,
    /// The voice's own copy of its sound.
    pub samples: Vec<i16>,
    /// Bit `i` set restarts the voice when the scheduler enters beat `i`.
    pub beat_mask: u16,
}

/// The cursor stays within the samples.
pub open spec fn voice_ok(v: Voice) -> bool {
    v.offset <= v.samples@.len()
}

/// The voice once the scheduler has entered beat `beat`: restarted from the
/// top if its mask selects the beat, as it was otherwise.
pub open spec fn retriggered(v: Voice, beat: int) -> Voice {
    if selects(v.beat_mask, beat) {
        Voice { playing: true, offset: 0, ..v }
    } else {
        v
    }
}

/// The voice after `n` output samples have been mixed from it: a voice that
/// runs out of samples within them stops and rewinds.
pub open spec fn advanced(v: Voice, n: int) -> Voice {
    if !v.playing {
        v
    } else if v.offset + n > v.samples@.len() {
        Voice { playing: false, offset: 0, ..v }
    } else {
        Voice { offset: (v.offset + n) as usize, ..v }
    }
}

/// What the voice adds, in Q15 units, to output slot `j` of a render.
pub open spec fn contribution(v: Voice, j: int) -> int {
    if v.playing && v.offset + j < v.samples@.len() {
        v.samples@[v.offset + j] as int * v.gain as int
    } else {
        0
    }
}

/// The Q15 sum of what the voices add to output slot `j`.
pub open spec fn mixed(vs: Seq<Voice>, j: int) -> int
    decreases vs.len(),
{
    if vs.len() == 0 {
        0
    } else {
        mixed(vs.drop_last(), j) + contribution(vs.last(), j)
    }
}

/// The voices once the scheduler has entered beat `beat`.
pub open spec fn on_beat(vs: Seq<Voice>, beat: int) -> Seq<Voice> {
    vs.map_values(|v: Voice| retriggered(v, beat))
}

/// The voice, stopped where it stands.
pub open spec fn stopped(v: Voice) -> Voice {
    Voice { playing: false, ..v }
}

/// The voice with its gain set to `gain`.
pub open spec fn with_gain(v: Voice, gain: u16) -> Voice {
    Voice { gain: gain, ..v }
}

/// A voice that nothing will ever sound again, whose slot may be reused.
pub open spec fn spent(v: Voice) -> bool {
    !v.playing && v.beat_mask == 0
}

/// `v` is a voice just started with these values.
pub open spec fn fresh_voice(v: Voice, id: u64, gain: u16, beat_mask: u16, samples: Seq<i16>) -> bool {
    &&& v.id == id
    &&& v.offset == 0
    &&& v.playing
    &&& v.gain == gain
    &&& v.beat_mask == beat_mask
    &&& v.samples@ == samples
}

/// Why a voice could not be started.
#[derive(Debug, Clone, Copy, PartialEq, Eq, Structural)]
pub enum EngineError {
    /// No buffer is cached under the sound's name.
    UnknownSound,
    /// Every voice id has been handed out.
    IdsExhausted,
    /// All voice slots are taken by voices that may still sound.
    TooManyVoices,
}

proof fn lemma_contribution_bound(v: Voice, j: int)
    ensures
        -2147483648 <= contribution(v, j) <= 2147483648,
{
    if v.playing && v.offset + j < v.samples@.len() {
        let s = v.samples@[v.offset + j] as int;
        let g = v.gain as int;
        assert(-2147483648 <= s * g <= 2147483648) by (nonlinear_arith)
            requires
                -32768 <= s <= 32767,
                0 <= g <= 65535,
        ;
    }
}

proof fn lemma_mixed_prefix(vs: Seq<Voice>, i: int, j: int)
    requires
        0 <= i < vs.len(),
    ensures
        mixed(vs.subrange(0, i + 1), j) == mixed(vs.subrange(0, i), j) + contribution(vs[i], j),
{
    assert(vs.subrange(0, i + 1).drop_last() =~= vs.subrange(0, i));
}

fn retrigger(vs: &mut Vec<Voice>, i: usize, beat: u64)
    requires
        i < old(vs)@.len(),
        beat < 16,
    ensures
        final(vs)@ == old(vs)@.update(i as int, retriggered(old(vs)@[i as int], beat as int)),
{
    let bit: u16 = 1u16 << (beat as u16);
    if vs[i].beat_mask & bit != 0 {
        vs[i].playing = true;
        vs[i].offset = 0;
    }
}

/// Restarts every voice whose mask selects `beat`.
fn retrigger_all(vs: &mut Vec<Voice>, beat: u64)
    requires
        beat < 16,
    ensures
        final(vs)@ == on_beat(old(vs)@, beat as int),
{
    let mut i: usize = 0;
    while i < vs.len()
        invariant
            beat < 16,
            i <= vs@.len(),
            vs@.len() == old(vs)@.len(),
            forall|k: int| 0 <= k < i ==> vs@[k] == retriggered(old(vs)@[k], beat as int),
            forall|k: int| i <= k < vs@.len() ==> vs@[k] == old(vs)@[k],
        decreases vs@.len() - i,
    {
        retrigger(vs, i, beat);
        i = i + 1;
    }
    assert(vs@ =~= on_beat(old(vs)@, beat as int));
}

fn advance(vs: &mut Vec<Voice>, i: usize, n: usize)
    requires
        i < old(vs)@.len(),
        voice_ok(old(vs)@[i as int]),
    ensures
        final(vs)@ == old(vs)@.update(i as int, advanced(old(vs)@[i as int], n as int)),
{
    if vs[i].playing {
        if vs[i].samples.len() - vs[i].offset < n {
            vs[i].playing = false;
            vs[i].offset = 0;
        } else {
            vs[i].offset = vs[i].offset + n;
        }
    }
}

/// Moves every voice on by `n` output samples.
fn advance_all(vs: &mut Vec<Voice>, n: usize)
    requires
        forall|k: int| 0 <= k < old(vs)@.len() ==> voice_ok(#[trigger] old(vs)@[k]),
    ensures
        final(vs)@.len() == old(vs)@.len(),
        forall|k: int|
            0 <= k < old(vs)@.len() ==> #[trigger] final(vs)@[k] == advanced(old(vs)@[k], n as int),
{
    let mut i: usize = 0;
    while i < vs.len()
        invariant
            i <= vs@.len(),
            vs@.len() == old(vs)@.len(),
            forall|k: int| 0 <= k < old(vs)@.len() ==> voice_ok(#[trigger] old(vs)@[k]),
            forall|k: int| 0 <= k < i ==> #[trigger] vs@[k] == advanced(old(vs)@[k], n as int),
            forall|k: int| i <= k < vs@.len() ==> #[trigger] vs@[k] == old(vs)@[k],
        decreases vs@.len() - i,
    {
        advance(vs, i, n);
        i = i + 1;
    }
}

/// The Q15 sum that the voices add to output slot `j`.
fn mix_at(vs: &Vec<Voice>, j: usize) -> (r: i64)
    requires
        vs@.len() <= MAX_VOICES,
    ensures
        r as int == mixed(vs@, j as int),
        -0x4000_0000_0000_0000 <= r <= 0x4000_0000_0000_0000,
{
    let mut acc: i64 = 0;
    let mut i: usize = 0;
    while i < vs.len()
        invariant
            vs@.len() <= MAX_VOICES,
            i <= vs@.len(),
            acc as int == mixed(vs@.subrange(0, i as int), j as int),
            -2147483648 * i <= acc <= 2147483648 * i,
        decreases vs@.len() - i,
    {
        proof {
            lemma_mixed_prefix(vs@, i as int, j as int);
            lemma_contribution_bound(vs@[i as int], j as int);
        }
        let v = &vs[i];
        if v.playing && v.offset < v.samples.len() && j < v.samples.len() - v.offset {
            acc = acc + v.samples[v.offset + j] as i64 * v.gain as i64;
        }
        i = i + 1;
    }
    assert(vs@.subrange(0, vs@.len() as int) =~= vs@);
    acc
}

/// Fills `buffer` with the clamped mix of the voices, slot by slot.
fn mix_into(vs: &Vec<Voice>, buffer: &mut [i16])
    requires
        vs@.len() <= MAX_VOICES,
    ensures
        final(buffer)@.len() == old(buffer)@.len(),
        forall|j: int|
            0 <= j < old(buffer)@.len() ==> #[trigger] final(buffer)@[j] as int == output_level(
                mixed(vs@, j),
            ),
{
    let n: usize = buffer.len();
    let mut j: usize = 0;
    while j < n
        invariant
            vs@.len() <= MAX_VOICES,
            n == buffer@.len(),
            n == old(buffer)@.len(),
            j <= n,
            forall|k: int| 0 <= k < j ==> #[trigger] buffer@[k] as int == output_level(mixed(vs@, k)),
        decreases n - j,
    {
        let acc = mix_at(vs, j);
        buffer[j] = to_output(acc);
        j = j + 1;
    }
}

/// The drum-machine engine: the sample store, the voices, and the beat
/// scheduler that a render call drives.
pub struct AudioEngine {
    voices: Vec<Voice>,
    sounds: SampleStore,
    next_voice_id: u64,
    beat: u64,
    next_beat_frame: u64,
    frame_clock: u64,
    tempo: u64,
    beats_fired: Ghost<nat>,
}

impl AudioEngine {
    /// The voices, in slot order.
    pub closed spec fn voices(&self) -> Seq<Voice> {
        self.voices@
    }

    /// The cached sample buffers, by name.
    pub closed spec fn sounds(&self) -> Map<Seq<char>, Seq<i16>> {
        self.sounds@
    }

    /// The id the next started voice gets.
    pub closed spec fn next_id(&self) -> u64 {
        self.next_voice_id
    }

    /// The current step of the grid.
    pub closed spec fn beat(&self) -> int {
        self.beat as int
    }

    /// The frame count at which the next beat fires.
    pub closed spec fn next_beat(&self) -> int {
        self.next_beat_frame as int
    }

    /// The frames rendered so far.
    pub closed spec fn clock(&self) -> int {
        self.frame_clock as int
    }

    /// The tempo, in beats per minute.
    pub closed spec fn tempo(&self) -> int {
        self.tempo as int
    }

    /// How many beats have fired so far.
    pub closed spec fn beats(&self) -> nat {
        self.beats_fired@
    }

    /// Frames between two beats of this engine.
    pub open spec fn beat_gap(&self) -> int {
        frames_per_beat(self.tempo())
    }

    /// Whether a render of `n` interleaved samples keeps the frame counters
    /// within range.
    pub open spec fn can_render(&self, n: int) -> bool {
        self.clock() + n / 2 + self.beat_gap() <= u64::MAX
    }

    /// The engine's invariant: a well-formed store, at most `MAX_VOICES`
    /// voices with cursors in range and distinct ids below the next id, and
    /// beats on a grid of `beat_gap` frames.
    pub closed spec fn wf(&self) -> bool {
        &&& self.sounds.wf()
        &&& self.voices@.len() <= MAX_VOICES
        &&& forall|i: int|
            0 <= i < self.voices@.len() ==> voice_ok(#[trigger] self.voices@[i])
                && self.voices@[i].id < self.next_voice_id
        &&& forall|i: int, j: int|
            0 <= i < j < self.voices@.len() ==> self.voices@[i].id != self.voices@[j].id
        &&& self.tempo >= 1
        &&& self.beat < 16
        &&& self.beat == self.beats_fired@ % 16
        &&& self.next_beat_frame == (self.beats_fired@ + 1) * frames_per_beat(self.tempo as int)
        &&& self.next_beat_frame <= self.frame_clock + frames_per_beat(self.tempo as int)
    }

    /// A silent engine at `tempo` beats per minute, with no sounds and no
    /// voices, waiting for the first beat.
    pub fn new(tempo: usize) -> (r: AudioEngine)
        requires
            tempo >= 1,
        ensures
            r.wf(),
            r.tempo() == tempo,
            r.voices().len() == 0,
            r.sounds() == Map::<Seq<char>, Seq<i16>>::empty(),
            r.next_id() == 0,
            r.beat() == 0,
            r.beats() == 0,
            r.clock() == 0,
            r.next_beat() == frames_per_beat(tempo as int),
    {
        let t: u64 = tempo as u64;
        let gap: u64 = SAMPLE_RATE * 60 / t;
        assert(gap == frames_per_beat(t as int));
        assert((0nat + 1) * frames_per_beat(t as int) == frames_per_beat(t as int)) by (nonlinear_arith);
        AudioEngine {
            voices: Vec::new(),
            sounds: SampleStore::new(),
            next_voice_id: 0,
            beat: 0,
            next_beat_frame: gap,
            frame_clock: 0,
            tempo: t,
            beats_fired: Ghost(0),
        }
    }

    /// The current step of the grid.
    pub fn current_beat(&self) -> (r: u64)
        ensures
            r == self.beat(),
    {
        self.beat
    }

    /// The frames rendered so far.
    pub fn frames_rendered(&self) -> (r: u64)
        ensures
            r == self.clock(),
    {
        self.frame_clock
    }

    /// The frame count at which the next beat fires.
    pub fn next_beat_frame(&self) -> (r: u64)
        ensures
            r == self.next_beat(),
    {
        self.next_beat_frame
    }

    /// The number of voice slots in use.
    pub fn voice_count(&self) -> (r: usize)
        ensures
            r == self.voices().len(),
    {
        self.voices.len()
    }

    /// Whether `update` may be called with a buffer of `n` samples.
    pub fn render_fits(&self, n: usize) -> (r: bool)
        requires
            self.wf(),
        ensures
            r == self.can_render(n as int),
    {
        let gap: u64 = SAMPLE_RATE * 60 / self.tempo;
        let frames: u64 = (n / 2) as u64;
        self.frame_clock <= u64::MAX - frames && self.frame_clock + frames <= u64::MAX - gap
    }

    /// Renders one buffer of interleaved samples. The clock moves on by the
    /// buffer's frames; if it reaches the next beat, one beat fires (at most
    /// one per call: a buffer longer than a beat skips the rest), the grid
    /// moves on by exactly one gap and the voices its mask selects restart.
    /// Then every slot gets the clamped Q15 mix of the playing voices, and
    /// each voice moves on, stopping and rewinding when it runs out.
    pub fn update(&mut self, buffer: &mut [i16])
        requires
            old(self).wf(),
            old(self).can_render(old(buffer)@.len() as int),
        ensures
            final(self).wf(),
            final(buffer)@.len() == old(buffer)@.len(),
            final(self).tempo() == old(self).tempo(),
            final(self).sounds() == old(self).sounds(),
            final(self).next_id() == old(self).next_id(),
            final(self).clock() == old(self).clock() + old(buffer)@.len() / 2,
            final(self).clock() >= old(self).next_beat() ==> {
                &&& final(self).next_beat() == old(self).next_beat() + old(self).beat_gap()
                &&& final(self).beat() == (old(self).beat() + 1) % 16
                &&& final(self).beats() == old(self).beats() + 1
            },
            final(self).clock() < old(self).next_beat() ==> {
                &&& final(self).next_beat() == old(self).next_beat()
                &&& final(self).beat() == old(self).beat()
                &&& final(self).beats() == old(self).beats()
            },
            ({
                let staged = if final(self).clock() >= old(self).next_beat() {
                    on_beat(old(self).voices(), final(self).beat())
                } else {
                    old(self).voices()
                };
                &&& final(self).voices().len() == staged.len()
                &&& forall|i: int|
                    0 <= i < staged.len() ==> #[trigger] final(self).voices()[i] == advanced(
                        staged[i],
                        old(buffer)@.len() as int,
                    )
                &&& forall|j: int|
                    0 <= j < old(buffer)@.len() ==> #[trigger] final(buffer)@[j] as int
                        == output_level(mixed(staged, j))
            }),
    {
        let n: usize = buffer.len();
        let gap: u64 = SAMPLE_RATE * 60 / self.tempo;
        self.frame_clock = self.frame_clock + (n / 2) as u64;
        if self.frame_clock >= self.next_beat_frame {
            let ghost b = self.beats_fired@;
            self.next_beat_frame = self.next_beat_frame + gap;
            self.beat = if self.beat + 1 >= STEPS { 0 } else { self.beat + 1 };
            self.beats_fired = Ghost(b + 1);
            proof {
                let g = frames_per_beat(self.tempo as int);
                assert((b + 2) * g == (b + 1) * g + g) by (nonlinear_arith);
            }
            retrigger_all(&mut self.voices, self.beat);
        }
        let ghost staged = self.voices@;
        mix_into(&self.voices, buffer);
        advance_all(&mut self.voices, n);
    }

    /// Caches `decoded` as the buffer of `name` unless one is cached there
    /// already. Returns whether `decoded` was taken.
    pub fn load_sound(&mut self, name: &str, decoded: Vec<i16>) -> (r: bool)
        requires
            old(self).wf(),
        ensures
            final(self).wf(),
            r == !old(self).sounds().contains_key(name@),
            final(self).sounds() == loaded(old(self).sounds(), name@, decoded@),
            final(self).voices() == old(self).voices(),
            final(self).next_id() == old(self).next_id(),
            final(self).scheduler_kept(*old(self)),
    {
        self.sounds.load(name, decoded)
    }

    /// Whether a buffer is cached under `name`.
    pub fn is_loaded(&self, name: &str) -> (r: bool)
        requires
            self.wf(),
        ensures
            r == self.sounds().contains_key(name@),
    {
        self.sounds.contains(name)
    }

    /// Evicts the buffer of `name`; voices already started keep their copy.
    pub fn unload_sound(&mut self, name: &str)
        requires
            old(self).wf(),
        ensures
            final(self).wf(),
            final(self).sounds() == old(self).sounds().remove(name@),
            final(self).voices() == old(self).voices(),
            final(self).next_id() == old(self).next_id(),
            final(self).scheduler_kept(*old(self)),
    {
        self.sounds.unload(name)
    }

    /// The scheduler of `self` is that of `o`.
    pub open spec fn scheduler_kept(&self, o: AudioEngine) -> bool {
        &&& self.tempo() == o.tempo()
        &&& self.beat() == o.beat()
        &&& self.beats() == o.beats()
        &&& self.next_beat() == o.next_beat()
        &&& self.clock() == o.clock()
    }

    /// Starts a voice of the cached sound `name` with a Q15 `gain`, restarted
    /// on each beat that `beat_mask` selects, and returns its id: ids are
    /// handed out in increasing order and never reused. While fewer than
    /// `MAX_VOICES` voices exist the new one is appended; after that it takes
    /// the slot of the first spent voice, one that is stopped and has no beat
    /// to restart it.
    pub fn play_sound(&mut self, name: &str, gain: u16, beat_mask: u16) -> (r: Result<
        u64,
        EngineError,
    >)
        requires
            old(self).wf(),
        ensures
            final(self).wf(),
            final(self).sounds() == old(self).sounds(),
            final(self).scheduler_kept(*old(self)),
            r == Err::<u64, EngineError>(EngineError::UnknownSound) <==> !old(
                self,
            ).sounds().contains_key(name@),
            r == Err::<u64, EngineError>(EngineError::IdsExhausted) <==> old(
                self,
            ).sounds().contains_key(name@) && old(self).next_id() == u64::MAX,
            r == Err::<u64, EngineError>(EngineError::TooManyVoices) <==> {
                &&& old(self).sounds().contains_key(name@)
                &&& old(self).next_id() < u64::MAX
                &&& old(self).voices().len() >= MAX_VOICES
                &&& forall|k: int| 0 <= k < old(self).voices().len() ==> !spent(#[trigger] old(self).voices()[k])
            },
            r is Err ==> final(self).voices() == old(self).voices() && final(self).next_id() == old(
                self,
            ).next_id(),
            r matches Ok(id) ==> {
                let vs = old(self).voices();
                let ws = final(self).voices();
                &&& id == old(self).next_id()
                &&& final(self).next_id() == id + 1
                &&& vs.len() < MAX_VOICES ==> {
                    &&& ws.len() == vs.len() + 1
                    &&& ws.subrange(0, vs.len() as int) == vs
                    &&& fresh_voice(ws[vs.len() as int], id, gain, beat_mask, old(self).sounds()[name@])
                }
                &&& vs.len() >= MAX_VOICES ==> exists|k: int|
                    {
                        &&& 0 <= k < vs.len()
                        &&& spent(#[trigger] vs[k])
                        &&& forall|m: int| 0 <= m < k ==> !spent(#[trigger] vs[m])
                        &&& ws == vs.update(k, ws[k])
                        &&& fresh_voice(ws[k], id, gain, beat_mask, old(self).sounds()[name@])
                    }
            },
    {
        if !self.sounds.contains(name) {
            return Err(EngineError::UnknownSound);
        }
        if self.next_voice_id == u64::MAX {
            return Err(EngineError::IdsExhausted);
        }
        let slot: Option<usize> = if self.voices.len() < MAX_VOICES {
            None
        } else {
            match first_spent(&self.voices) {
                None => {
                    return Err(EngineError::TooManyVoices);
                },
                Some(k) => Some(k),
            }
        };
        let samples = match self.sounds.get(name) {
            Some(s) => copy_samples(s),
            None => Vec::new(),
        };
        let id = self.next_voice_id;
        let voice = Voice { id, offset: 0, playing: true, gain, samples, beat_mask };
        match slot {
            None => {
                self.voices.push(voice);
            },
            Some(k) => {
                self.voices.set(k, voice);
            },
        }
        self.next_voice_id = id + 1;
        Ok(id)
    }

    /// Stops the voice with id `id`, if there is one; an id never handed out
    /// changes nothing.
    pub fn stop_channel(&mut self, id: u64)
        requires
            old(self).wf(),
        ensures
            final(self).wf(),
            final(self).sounds() == old(self).sounds(),
            final(self).next_id() == old(self).next_id(),
            final(self).scheduler_kept(*old(self)),
            final(self).voices().len() == old(self).voices().len(),
            forall|i: int|
                0 <= i < old(self).voices().len() ==> #[trigger] final(self).voices()[i] == if old(
                    self,
                ).voices()[i].id == id {
                    stopped(old(self).voices()[i])
                } else {
                    old(self).voices()[i]
                },
            id >= old(self).next_id() ==> final(self).voices() == old(self).voices(),
    {
        let mut i: usize = 0;
        while i < self.voices.len()
            invariant
                old(self).wf(),
                i <= self.voices@.len(),
                self.voices@.len() == old(self).voices@.len(),
                self.sounds == old(self).sounds,
                self.next_voice_id == old(self).next_voice_id,
                self.beat == old(self).beat,
                self.beats_fired == old(self).beats_fired,
                self.next_beat_frame == old(self).next_beat_frame,
                self.frame_clock == old(self).frame_clock,
                self.tempo == old(self).tempo,
                forall|k: int|
                    0 <= k < i ==> #[trigger] self.voices@[k] == if old(self).voices@[k].id == id {
                        stopped(old(self).voices@[k])
                    } else {
                        old(self).voices@[k]
                    },
                forall|k: int| i <= k < self.voices@.len() ==> #[trigger] self.voices@[k] == old(self).voices@[k],
            decreases self.voices@.len() - i,
        {
            if self.voices[i].id == id {
                self.voices[i].playing = false;
            }
            i = i + 1;
        }
        proof {
            if id >= old(self).next_voice_id {
                assert(self.voices@ =~= old(self).voices@);
            }
        }
    }

    /// Stops every voice.
    pub fn stop_all_channels(&mut self)
        requires
            old(self).wf(),
        ensures
            final(self).wf(),
            final(self).sounds() == old(self).sounds(),
            final(self).next_id() == old(self).next_id(),
            final(self).scheduler_kept(*old(self)),
            final(self).voices().len() == old(self).voices().len(),
            forall|i: int|
                0 <= i < old(self).voices().len() ==> #[trigger] final(self).voices()[i] == stopped(old(self).voices()[i]),
    {
        let mut i: usize = 0;
        while i < self.voices.len()
            invariant
                old(self).wf(),
                i <= self.voices@.len(),
                self.voices@.len() == old(self).voices@.len(),
                self.sounds == old(self).sounds,
                self.next_voice_id == old(self).next_voice_id,
                self.beat == old(self).beat,
                self.beats_fired == old(self).beats_fired,
                self.next_beat_frame == old(self).next_beat_frame,
                self.frame_clock == old(self).frame_clock,
                self.tempo == old(self).tempo,
                forall|k: int|
                    0 <= k < i ==> #[trigger] self.voices@[k] == stopped(old(self).voices@[k]),
                forall|k: int| i <= k < self.voices@.len() ==> #[trigger] self.voices@[k] == old(self).voices@[k],
            decreases self.voices@.len() - i,
        {
            self.voices[i].playing = false;
            i = i + 1;
        }
    }

    /// Sets the Q15 gain of the voice with id `id`, if there is one.
    pub fn set_channel_volume(&mut self, id: u64, gain: u16)
        requires
            old(self).wf(),
        ensures
            final(self).wf(),
            final(self).sounds() == old(self).sounds(),
            final(self).next_id() == old(self).next_id(),
            final(self).scheduler_kept(*old(self)),
            final(self).voices().len() == old(self).voices().len(),
            forall|i: int|
                0 <= i < old(self).voices().len() ==> #[trigger] final(self).voices()[i] == if old(
                    self,
                ).voices()[i].id == id {
                    with_gain(old(self).voices()[i], gain)
                } else {
                    old(self).voices()[i]
                },
    {
        let mut i: usize = 0;
        while i < self.voices.len()
            invariant
                old(self).wf(),
                i <= self.voices@.len(),
                self.voices@.len() == old(self).voices@.len(),
                self.sounds == old(self).sounds,
                self.next_voice_id == old(self).next_voice_id,
                self.beat == old(self).beat,
                self.beats_fired == old(self).beats_fired,
                self.next_beat_frame == old(self).next_beat_frame,
                self.frame_clock == old(self).frame_clock,
                self.tempo == old(self).tempo,
                forall|k: int|
                    0 <= k < i ==> #[trigger] self.voices@[k] == if old(self).voices@[k].id == id {
                        with_gain(old(self).voices@[k], gain)
                    } else {
                        old(self).voices@[k]
                    },
                forall|k: int| i <= k < self.voices@.len() ==> #[trigger] self.voices@[k] == old(self).voices@[k],
            decreases self.voices@.len() - i,
        {
            if self.voices[i].id == id {
                self.voices[i].gain = gain;
            }
            i = i + 1;
        }
    }

    /// Whether the voice with id `id` exists and is playing.
    pub fn channel_playing(&self, id: u64) -> (r: bool)
        requires
            self.wf(),
        ensures
            r == exists|i: int|
                0 <= i < self.voices().len() && #[trigger] self.voices()[i].id == id
                    && self.voices()[i].playing,
    {
        let mut i: usize = 0;
        while i < self.voices.len()
            invariant
                self.wf(),
                i <= self.voices@.len(),
                forall|k: int| 0 <= k < i ==> !(#[trigger] self.voices()[k].id == id && self.voices()[k].playing),
            decreases self.voices@.len() - i,
        {
            if self.voices[i].id == id && self.voices[i].playing {
                assert(self.voices()[i as int].id == id);
                return true;
            }
            i = i + 1;
        }
        false
    }
}

/// A copy of `s`.
fn copy_samples(s: &Vec<i16>) -> (r: Vec<i16>)
    ensures
        r@ == s@,
{
    let mut out: Vec<i16> = Vec::with_capacity(s.len());
    let mut i: usize = 0;
    while i < s.len()
        invariant
            i <= s@.len(),
            out@ == s@.subrange(0, i as int),
        decreases s@.len() - i,
    {
        out.push(s[i]);
        i = i + 1;
    }
    assert(out@ =~= s@);
    out
}

/// The first spent voice, if any.
fn first_spent(vs: &Vec<Voice>) -> (r: Option<usize>)
    ensures
        r is None <==> forall|k: int| 0 <= k < vs@.len() ==> !spent(#[trigger] vs@[k]),
        r matches Some(k) ==> k < vs@.len() && spent(vs@[k as int]) && forall|m: int|
            0 <= m < k ==> !spent(#[trigger] vs@[m]),
{
    let mut i: usize = 0;
    while i < vs.len()
        invariant
            i <= vs@.len(),
            forall|m: int| 0 <= m < i ==> !spent(#[trigger] vs@[m]),
        decreases vs@.len() - i,
    {
        if !vs[i].playing && vs[i].beat_mask == 0 {
            return Some(i);
        }
        i = i + 1;
    }
    None
}

/// Beats fall on a grid: the next beat is due one gap after as many gaps as
/// beats have fired, the step is that count taken cyclically over the
/// sixteen steps, and the next beat is never more than one gap ahead of the
/// clock. With `update`'s own contract, consecutive beats lie exactly
/// `frames_per_beat(tempo)` frames apart.
pub proof fn lemma_beat_grid(e: AudioEngine)
    requires
        e.wf(),
    ensures
        e.next_beat() == (e.beats() + 1) * e.beat_gap(),
        e.beat() == e.beats() % 16,
        0 <= e.beat() < 16,
        e.next_beat() <= e.clock() + e.beat_gap(),
{
}

/// A voice whose mask is empty is never restarted, whatever the beat.
pub proof fn lemma_zero_mask_never_retriggered(v: Voice, beat: int)
    requires
        v.beat_mask == 0,
        0 <= beat < 16,
    ensures
        !selects(v.beat_mask, beat),
        retriggered(v, beat) == v,
{
    let b = beat as u16;
    assert(0u16 & (1u16 << b) == 0) by (bit_vector);
}

/// A voice's cursor never passes the end of its samples. A playing voice
/// that would run past the end stops, and a stopped voice stays stopped
/// until a beat that its mask selects.
pub proof fn lemma_cursor_in_range(v: Voice, n: int, beat: int)
    requires
        voice_ok(v),
        n >= 0,
    ensures
        voice_ok(advanced(v, n)),
        voice_ok(retriggered(v, beat)),
        v.playing && v.offset + n > v.samples@.len() ==> !advanced(v, n).playing
            && advanced(v, n).offset == 0,
        !v.playing ==> advanced(v, n) == v,
        !v.playing && !selects(v.beat_mask, beat) ==> !retriggered(v, beat).playing,
{
}

} // verus!
