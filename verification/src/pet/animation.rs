//! The pet's sprite animation: a few frames per mood, shown in turn.
use vstd::prelude::*;
pub use crate::pet::state::Mood;

verus! {

/// The frames of each mood, as text.
pub open spec fn mood_frames(mood: Mood) -> Seq<Seq<char>> {
    match mood {
        Mood::Ecstatic => seq!["\\(=^◕ᴥ◕^=)/"@, "(=^✧ω✧^=)"@],
        Mood::Happy => seq!["(=^◕ᴥ◕^=)"@, "(=^◕‿◕^=)ﾉ"@],
        Mood::Content => seq!["(=^·ω·^=)"@, "(=^·_·^=)"@],
        Mood::Bored => seq!["(=^-_-^=)"@, "(=^· ·^=) ..."@],
        Mood::Hungry => seq!["(=^;ω;^=)"@, "(=^; ;^=)"@],
        Mood::Sad => seq!["(=^;_;^=)"@, "(=^; ;^=)"@],
        Mood::Sleeping => seq!["(=^-ω-^=) zzZ"@, "(=^- -^=) zZz"@],
    }
}

/// Each mood has frames of its own.
pub proof fn lemma_mood_frames_distinct(a: Mood, b: Mood)
    ensures
        mood_frames(a) == mood_frames(b) ==> a == b,
{
    reveal_strlit("\\(=^◕ᴥ◕^=)/");
    reveal_strlit("(=^✧ω✧^=)");
    reveal_strlit("(=^◕ᴥ◕^=)");
    reveal_strlit("(=^◕‿◕^=)ﾉ");
    reveal_strlit("(=^·ω·^=)");
    reveal_strlit("(=^·_·^=)");
    reveal_strlit("(=^-_-^=)");
    reveal_strlit("(=^· ·^=) ...");
    reveal_strlit("(=^;ω;^=)");
    reveal_strlit("(=^; ;^=)");
    reveal_strlit("(=^;_;^=)");
    reveal_strlit("(=^-ω-^=) zzZ");
    reveal_strlit("(=^- -^=) zZz");
    let sig = |m: Mood| (mood_frames(m)[0].len(), mood_frames(m)[0][3], mood_frames(m)[0][4]);
    assert(sig(Mood::Ecstatic) == (11nat, '^', '◕'));
    assert(sig(Mood::Happy) == (9nat, '◕', 'ᴥ'));
    assert(sig(Mood::Content) == (9nat, '·', 'ω'));
    assert(sig(Mood::Bored) == (9nat, '-', '_'));
    assert(sig(Mood::Hungry) == (9nat, ';', 'ω'));
    assert(sig(Mood::Sad) == (9nat, ';', '_'));
    assert(sig(Mood::Sleeping) == (13nat, '-', 'ω'));
    if a != b {
        assert(sig(a) != sig(b));
    }
}

/// The text of each frame of `frames`.
pub open spec fn frames_text(frames: &[&str]) -> Seq<Seq<char>> {
    Seq::new(frames@.len(), |i: int| frames@[i]@)
}

/// The frames shown for a mood.
pub fn frames_for_mood(mood: &Mood) -> (r: &'static [&'static str])
    ensures
        frames_text(r) == mood_frames(*mood),
{
    let r: &'static [&'static str] = match mood {
        Mood::Ecstatic => &["\\(=^◕ᴥ◕^=)/", "(=^✧ω✧^=)"],
        Mood::Happy => &["(=^◕ᴥ◕^=)", "(=^◕‿◕^=)ﾉ"],
        Mood::Content => &["(=^·ω·^=)", "(=^·_·^=)"],
        Mood::Bored => &["(=^-_-^=)", "(=^· ·^=) ..."],
        Mood::Hungry => &["(=^;ω;^=)", "(=^; ;^=)"],
        Mood::Sad => &["(=^;_;^=)", "(=^; ;^=)"],
        Mood::Sleeping => &["(=^-ω-^=) zzZ", "(=^- -^=) zZz"],
    };
    assert(frames_text(r) =~= mood_frames(*mood));
    r
}

/// The animation `a` one tick later (see `Animation::tick`).
pub open spec fn tick_step(a: Animation) -> Animation {
    if a.tick_counter + 1 >= a.ticks_per_frame {
        Animation {
            tick_counter: 0,
            frame_index: ((a.frame_index + 1) % (a.frames@.len() as int)) as usize,
            ..a
        }
    } else {
        Animation { tick_counter: (a.tick_counter + 1) as u64, ..a }
    }
}

/// The animation `a` after `n` ticks.
pub open spec fn ticks(a: Animation, n: nat) -> Animation
    decreases n,
{
    if n == 0 {
        a
    } else {
        tick_step(ticks(a, (n - 1) as nat))
    }
}

/// The number of ticks each frame shows for: `ticks_per_frame`, but at least one.
pub open spec fn frame_length(ticks_per_frame: u64) -> int {
    if ticks_per_frame == 0 {
        1
    } else {
        ticks_per_frame as int
    }
}

/// From a fresh animation, after `n` ticks the frame shown is frame
/// `n / ticks_per_frame` counted round the list, and `n % ticks_per_frame`
/// ticks of it have passed (a frame length of zero counts as one).
pub proof fn lemma_ticks_from_start(frames: &'static [&'static str], k: u64, n: nat)
    requires
        0 < frames@.len() <= usize::MAX,
    ensures
        ({
            let a = ticks(Animation { frames, frame_index: 0, ticks_per_frame: k, tick_counter: 0 }, n);
            &&& a.frames == frames
            &&& a.ticks_per_frame == k
            &&& a.frame_index == ((n as int) / frame_length(k)) % (frames@.len() as int)
            &&& a.tick_counter == (n as int) % frame_length(k)
        }),
    decreases n,
{
    let p = frame_length(k);
    let len = frames@.len() as int;
    if n == 0 {
        assert(0int / p == 0) by (nonlinear_arith) requires p > 0;
        assert(0int % p == 0) by (nonlinear_arith) requires p > 0;
        assert(0int % len == 0) by (nonlinear_arith) requires len > 0;
        let a0 = Animation { frames, frame_index: 0, ticks_per_frame: k, tick_counter: 0 };
        assert(ticks(a0, 0) == a0);
        assert(a0.frame_index == ((0int) / p) % len);
    } else {
        let m = (n - 1) as nat;
        lemma_ticks_from_start(frames, k, m);
        let q: int = (m as int) / p;
        let c: int = (m as int) % p;
        vstd::arithmetic::div_mod::lemma_fundamental_div_mod(m as int, p);
        assert(0 <= c < p) by (nonlinear_arith) requires p > 0, c == (m as int) % p;
        assert(m as int == q * p + c) by (nonlinear_arith)
            requires
                m as int == p * ((m as int) / p) + (m as int) % p,
                q == (m as int) / p,
                c == (m as int) % p,
        ;
        if c + 1 == p {
            assert(n as int == (q + 1) * p + 0) by (nonlinear_arith)
                requires
                    m as int == q * p + c,
                    c + 1 == p,
                    n == m + 1,
            ;
            vstd::arithmetic::div_mod::lemma_fundamental_div_mod_converse(n as int, p, q + 1, 0);
        } else {
            vstd::arithmetic::div_mod::lemma_fundamental_div_mod_converse(n as int, p, q, c + 1);
        }
        vstd::arithmetic::div_mod::lemma_add_mod_noop_right(1, q, len);
        let a0 = Animation { frames, frame_index: 0, ticks_per_frame: k, tick_counter: 0 };
        let b = ticks(a0, m);
        assert(ticks(a0, n) == tick_step(b));
        assert(b.frame_index == q % len);
        assert(b.tick_counter == c);
        if c + 1 == p {
            assert(b.tick_counter + 1 >= b.ticks_per_frame);
            assert((1 + q % len) % len == (q + 1) % len);
            assert(0 <= (q + 1) % len < len) by (nonlinear_arith) requires len > 0;
            assert(ticks(a0, n).frame_index == (q + 1) % len);
            assert(ticks(a0, n).tick_counter == 0);
        } else {
            assert(k >= 1);
            assert(!(b.tick_counter + 1 >= b.ticks_per_frame));
            assert(ticks(a0, n).frame_index == q % len);
            assert(ticks(a0, n).tick_counter == c + 1);
        }
    }
}

/// Steps through a list of frames, one frame every `ticks_per_frame` ticks.
pub struct Animation {
    pub frames: &'static [&'static str],
    pub frame_index: usize,
    pub ticks_per_frame: u64,
    pub tick_counter: u64,
}

impl Animation {
    /// The animation is in a state its methods keep: it has a frame to show,
    /// and its counter has not reached the frame length unless it is zero.
    pub open spec fn wf(&self) -> bool {
        &&& self.frames@.len() > 0
        &&& self.frame_index < self.frames@.len()
        &&& (self.tick_counter == 0 || self.tick_counter < self.ticks_per_frame)
    }

    /// An animation over `frames`, at the first frame.
    pub fn new(frames: &'static [&'static str], ticks_per_frame: u64) -> (a: Self)
        ensures
            a.frames == frames,
            a.frame_index == 0,
            a.ticks_per_frame == ticks_per_frame,
            a.tick_counter == 0,
            frames@.len() > 0 ==> a.wf(),
    {
        Animation { frames, frame_index: 0, ticks_per_frame, tick_counter: 0 }
    }

    /// Counts one tick; every `ticks_per_frame` ticks the next frame comes,
    /// after the last frame the first.
    pub fn tick(&mut self)
        requires
            old(self).wf(),
        ensures
            final(self).wf(),
            final(self).frames == old(self).frames,
            final(self).ticks_per_frame == old(self).ticks_per_frame,
            *final(self) == tick_step(*old(self)),
            if old(self).tick_counter + 1 >= old(self).ticks_per_frame {
                &&& final(self).tick_counter == 0
                &&& final(self).frame_index == (old(self).frame_index + 1) % (old(
                    self,
                ).frames@.len() as int)
            } else {
                &&& final(self).tick_counter == old(self).tick_counter + 1
                &&& final(self).frame_index == old(self).frame_index
            },
    {
        let n = self.frames.len();
        self.tick_counter = self.tick_counter + 1;
        if self.tick_counter >= self.ticks_per_frame {
            self.tick_counter = 0;
            self.frame_index = (self.frame_index + 1) % n;
        }
    }

    /// The frame to show now.
    pub fn current_frame(&self) -> (f: &'static str)
        requires
            self.frame_index < self.frames@.len(),
        ensures
            f == self.frames@[self.frame_index as int],
    {
        self.frames[self.frame_index]
    }

    /// Switches to the frames of `mood`; when they differ from the current
    /// frames the animation starts over from their first frame. Frames are
    /// told apart by their texts, not by where they are stored: an animation
    /// over a copy of a mood's frames counts as showing that mood and is not
    /// restarted. No two moods share their frames (`lemma_mood_frames_distinct`),
    /// so for frames that `frames_for_mood` gave, this is the same as asking
    /// whether the mood changed.
    pub fn set_mood(&mut self, mood: &Mood)
        requires
            old(self).wf(),
        ensures
            final(self).wf(),
            final(self).ticks_per_frame == old(self).ticks_per_frame,
            frames_text(final(self).frames) == mood_frames(*mood),
            if frames_text(old(self).frames) == mood_frames(*mood) {
                *final(self) == *old(self)
            } else {
                final(self).frame_index == 0 && final(self).tick_counter == 0
            },
    {
        let new_frames = frames_for_mood(mood);
        assert(mood_frames(*mood).len() == 2);
        assert(frames_text(new_frames).len() == new_frames@.len());
        if !same_frames(self.frames, new_frames) {
            self.frames = new_frames;
            self.frame_index = 0;
            self.tick_counter = 0;
        }
    }
}

/// Whether two frame lists hold the same texts.
fn same_frames(a: &[&str], b: &[&str]) -> (r: bool)
    ensures
        r == (frames_text(a) == frames_text(b)),
{
    if a.len() != b.len() {
        assert(frames_text(a).len() != frames_text(b).len());
        return false;
    }
    let mut i: usize = 0;
    while i < a.len()
        invariant
            a@.len() == b@.len(),
            i <= a@.len(),
            forall|k: int| 0 <= k < i ==> a@[k]@ == b@[k]@,
        decreases a@.len() - i,
    {
        if !crate::text::str_eq(a[i], b[i]) {
            assert(frames_text(a)[i as int] != frames_text(b)[i as int]);
            return false;
        }
        i = i + 1;
    }
    assert(frames_text(a) =~= frames_text(b));
    true
}

} // verus!
