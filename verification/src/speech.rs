//! Text-to-speech providers and the timing of spoken text.
use vstd::prelude::*;
use crate::text::{chars_of, chars_eq_str, runs, runs_of, RunKind, string_of, views};

verus! {

/// Available TTS providers.
#[derive(Debug, Clone, Copy, PartialEq, Eq, Structural)]
pub enum TtsProvider {
    System,
    ElevenLabs,
    Silent,
}

/// The provider a setting names: `elevenlabs`/`eleven_labs`, `silent`/`none`, else the
/// system voice.
pub open spec fn provider_named(s: Seq<char>) -> TtsProvider {
    if s == "elevenlabs"@ || s == "eleven_labs"@ {
        TtsProvider::ElevenLabs
    } else if s == "silent"@ || s == "none"@ {
        TtsProvider::Silent
    } else {
        TtsProvider::System
    }
}

impl TtsProvider {
    /// The provider a setting names.
    pub fn from_str(s: &str) -> (p: Self)
        ensures
            p == provider_named(s@),
    {
        let v = chars_of(s);
        if chars_eq_str(&v, "elevenlabs") || chars_eq_str(&v, "eleven_labs") {
            TtsProvider::ElevenLabs
        } else if chars_eq_str(&v, "silent") || chars_eq_str(&v, "none") {
            TtsProvider::Silent
        } else {
            TtsProvider::System
        }
    }
}

/// Text-to-speech engine.
pub struct TtsEngine {
    provider: TtsProvider,
}

impl TtsEngine {
    /// The provider the engine speaks with.
    pub closed spec fn spec_provider(&self) -> TtsProvider {
        self.provider
    }

    pub fn new(provider: TtsProvider) -> (e: Self)
        ensures
            e.spec_provider() == provider,
    {
        TtsEngine { provider }
    }

    /// Whether speaking plays audio and gives a channel of speech events: never for the
    /// `Silent` provider nor when the system voice could not start; ElevenLabs speaks
    /// through the system voice for now.
    pub fn speaks(&self, tts_ready: bool) -> (b: bool)
        ensures
            b == (self.spec_provider() != TtsProvider::Silent && tts_ready),
    {
        match self.provider {
            TtsProvider::Silent => false,
            TtsProvider::System => tts_ready,
            TtsProvider::ElevenLabs => tts_ready,
        }
    }
}

/// A char that adds a pause when spoken.
pub open spec fn is_pause(c: char) -> bool {
    c == '.' || c == ',' || c == ';' || c == ':' || c == '?' || c == '!'
}

/// How many pause chars the text holds.
pub open spec fn pause_count(s: Seq<char>) -> nat
    decreases s.len(),
{
    if s.len() == 0 {
        0
    } else {
        pause_count(s.drop_last()) + if is_pause(s.last()) {
            1nat
        } else {
            0nat
        }
    }
}

/// Estimated milliseconds to speak the text: 285 per word and 90 per pause, at least 650
/// and at most 12000.
pub open spec fn speech_duration(s: Seq<char>) -> nat {
    let raw = runs(s, RunKind::Word).len() * 285 + pause_count(s) * 90;
    if raw < 650 {
        650
    } else if raw > 12000 {
        12000
    } else {
        raw
    }
}

/// Estimated milliseconds to speak the text.
pub fn estimate_speech_duration_ms(text: &str) -> (ms: u64)
    ensures
        ms == speech_duration(text@),
{
    let s = chars_of(text);
    let words = runs_of(&s, RunKind::Word).len();
    let mut pauses: usize = 0;
    let mut i: usize = 0;
    assert(s@.take(0) =~= Seq::<char>::empty());
    while i < s.len()
        invariant
            i <= s.len(),
            pauses <= i,
            pauses == pause_count(s@.take(i as int)),
        decreases s.len() - i,
    {
        assert(s@.take(i + 1).drop_last() =~= s@.take(i as int));
        let c = s[i];
        if c == '.' || c == ',' || c == ';' || c == ':' || c == '?' || c == '!' {
            pauses = pauses + 1;
        }
        i = i + 1;
    }
    assert(s@.take(s.len() as int) =~= s@);
    let raw: u128 = (words as u128) * 285 + (pauses as u128) * 90;
    if raw < 650 {
        650
    } else if raw > 12000 {
        12000
    } else {
        raw as u64
    }
}

/// Whether `char::is_uppercase` holds of a char (the Unicode `Uppercase` property).
pub uninterp spec fn uppercase(c: char) -> bool;

/// `char::is_uppercase`; the contract names the result.
#[verifier::external_body]
fn is_uppercase(c: char) -> (b: bool)
    ensures
        b == uppercase(c),
{
    c.is_uppercase()
}

/// How many uppercase chars a word holds.
pub open spec fn upper_count(w: Seq<char>) -> nat
    decreases w.len(),
{
    if w.len() == 0 {
        0
    } else {
        upper_count(w.drop_last()) + if uppercase(w.last()) {
            1nat
        } else {
            0nat
        }
    }
}

/// A word said with emphasis: it ends in `!` or `?`, or holds more than one capital.
pub open spec fn emphatic(w: Seq<char>) -> bool {
    (w.len() > 0 && (w.last() == '!' || w.last() == '?')) || upper_count(w) > 1
}

/// Whether a word is said with emphasis.
pub fn is_emphatic(word: &str) -> (b: bool)
    ensures
        b == emphatic(word@),
{
    let w = chars_of(word);
    if w.len() > 0 && (w[w.len() - 1] == '!' || w[w.len() - 1] == '?') {
        return true;
    }
    let mut n: usize = 0;
    let mut i: usize = 0;
    assert(w@.take(0) =~= Seq::<char>::empty());
    while i < w.len()
        invariant
            i <= w.len(),
            n <= i,
            n == upper_count(w@.take(i as int)),
        decreases w.len() - i,
    {
        assert(w@.take(i + 1).drop_last() =~= w@.take(i as int));
        if is_uppercase(w[i]) {
            n = n + 1;
        }
        i = i + 1;
    }
    assert(w@.take(w.len() as int) =~= w@);
    n > 1
}

/// The words of a text, as `split_whitespace` finds them.
pub fn spoken_words(text: &str) -> (out: Vec<String>)
    ensures
        out@.map_values(|x: String| x@) == runs(text@, RunKind::Word),
{
    let r = runs_of(&chars_of(text), RunKind::Word);
    let mut out: Vec<String> = Vec::new();
    let mut i: usize = 0;
    while i < r.len()
        invariant
            i <= r.len(),
            out@.map_values(|x: String| x@) == views(r@).take(i as int),
        decreases r.len() - i,
    {
        let ghost before = out@.map_values(|x: String| x@);
        let s = string_of(r[i].as_slice());
        out.push(s);
        assert(out@.map_values(|x: String| x@) =~= before.push(s@));
        assert(views(r@).take(i + 1) =~= views(r@).take(i as int).push(r@[i as int]@));
        i = i + 1;
    }
    assert(views(r@).take(r.len() as int) =~= views(r@));
    out
}

} // verus!
