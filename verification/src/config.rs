//! Settings for the interface, speech, summaries and the LLM, with their defaults.
use vstd::prelude::*;
use crate::text::{trim, has_prefix, count_until, strip_char, chars_of, trim_range,
    strip_char_range, string_of, slice_chars, starts_with_str_at, lemma_count_until, lines,
    lines_of, views};
use crate::summary::str_string;

verus! {

/// Interface settings.
#[derive(Debug, Clone)]
pub struct UiConfig {
    pub show_recap_banner: bool,
    pub renderer: String,
    pub face_frame_rate: u32,
}

/// Speech settings.
#[derive(Debug, Clone)]
pub struct SpeechConfig {
    pub tts_provider: String,
    pub enable_lip_sync: bool,
    pub speak_by_default: bool,
}

/// Summary settings.
#[derive(Debug, Clone)]
pub struct SummaryConfig {
    pub allow_llm_deep_recaps: bool,
    pub banner_max_chars: usize,
    pub speech_recap_sentences: usize,
}

/// LLM settings.
#[derive(Debug, Clone)]
pub struct LlmConfig {
    pub provider: String,
    pub api_key: String,
    pub endpoint: String,
    pub model: String,
}

/// All settings.
#[derive(Debug, Clone)]
pub struct CortanaConfig {
    pub ui: UiConfig,
    pub speech: SpeechConfig,
    pub summary: SummaryConfig,
    pub llm: LlmConfig,
}

impl Default for UiConfig {
    fn default() -> (c: Self)
        ensures
            c.show_recap_banner,
            c.renderer@ == "ascii"@,
            c.face_frame_rate == 15,
    {
        UiConfig { show_recap_banner: true, renderer: str_string("ascii"), face_frame_rate: 15 }
    }
}

impl Default for SpeechConfig {
    fn default() -> (c: Self)
        ensures
            c.tts_provider@ == "system"@,
            c.enable_lip_sync,
            !c.speak_by_default,
    {
        SpeechConfig {
            tts_provider: str_string("system"),
            enable_lip_sync: true,
            speak_by_default: false,
        }
    }
}

impl Default for SummaryConfig {
    fn default() -> (c: Self)
        ensures
            c.allow_llm_deep_recaps,
            c.banner_max_chars == 120,
            c.speech_recap_sentences == 2,
    {
        SummaryConfig {
            allow_llm_deep_recaps: true,
            banner_max_chars: 120,
            speech_recap_sentences: 2,
        }
    }
}

impl LlmConfig {
    /// The default LLM settings with the API key found in the environment (empty if none).
    pub fn with_api_key(api_key: String) -> (c: Self)
        ensures
            c.provider@ == "openai-compatible"@,
            c.api_key == api_key,
            c.endpoint@ == "https://api.deepseek.com/v1"@,
            c.model@ == "deepseek-chat"@,
    {
        LlmConfig {
            provider: str_string("openai-compatible"),
            api_key,
            endpoint: str_string("https://api.deepseek.com/v1"),
            model: str_string("deepseek-chat"),
        }
    }
}

impl CortanaConfig {
    /// The default settings, with the API key found in the environment (empty if none).
    pub fn with_api_key(api_key: String) -> (c: Self)
        ensures
            c.ui.show_recap_banner,
            c.ui.renderer@ == "ascii"@,
            c.ui.face_frame_rate == 15,
            c.speech.tts_provider@ == "system"@,
            c.speech.enable_lip_sync,
            !c.speech.speak_by_default,
            c.summary.allow_llm_deep_recaps,
            c.summary.banner_max_chars == 120,
            c.summary.speech_recap_sentences == 2,
            c.llm.provider@ == "openai-compatible"@,
            c.llm.api_key == api_key,
            c.llm.endpoint@ == "https://api.deepseek.com/v1"@,
            c.llm.model@ == "deepseek-chat"@,
    {
        CortanaConfig {
            ui: UiConfig::default(),
            speech: SpeechConfig::default(),
            summary: SummaryConfig::default(),
            llm: LlmConfig::with_api_key(api_key),
        }
    }
}

/// Value of a missing boolean setting that defaults to on.
pub fn default_true() -> (b: bool)
    ensures
        b,
{
    true
}

/// Renderer of a settings file that names none.
pub fn default_renderer() -> (s: String)
    ensures
        s@ == "canvas"@,
{
    str_string("canvas")
}

/// Face frame rate of a settings file that names none.
pub fn default_face_frame_rate() -> (r: u32)
    ensures
        r == 15,
{
    15
}

/// Speech provider of a settings file that names none.
pub fn default_tts_provider() -> (s: String)
    ensures
        s@ == "system"@,
{
    str_string("system")
}

/// Banner length of a settings file that names none.
pub fn default_banner_max_chars() -> (r: usize)
    ensures
        r == 120,
{
    120
}

/// Spoken recap length of a settings file that names none.
pub fn default_speech_recap_sentences() -> (r: usize)
    ensures
        r == 2,
{
    2
}

/// LLM provider of a settings file that names none.
pub fn default_llm_provider() -> (s: String)
    ensures
        s@ == "openai-compatible"@,
{
    str_string("openai-compatible")
}

/// LLM endpoint of a settings file that names none.
pub fn default_llm_endpoint() -> (s: String)
    ensures
        s@ == "https://api.deepseek.com/v1"@,
{
    str_string("https://api.deepseek.com/v1")
}

/// LLM model of a settings file that names none.
pub fn default_llm_model() -> (s: String)
    ensures
        s@ == "deepseek-chat"@,
{
    str_string("deepseek-chat")
}

/// The `KEY=VALUE` entry of a `.env` line: blank lines and `#` comments have none, nor has
/// a line without `=`; the key is trimmed, the value trimmed and stripped of surrounding
/// double and then single quotes.
pub open spec fn env_entry(line: Seq<char>) -> Option<(Seq<char>, Seq<char>)> {
    let t = trim(line);
    if t.len() == 0 || has_prefix(t, "#"@) {
        None
    } else {
        let k = count_until(t, '=');
        if k >= t.len() {
            None
        } else {
            Some(
                (
                    trim(t.take(k as int)),
                    strip_char(strip_char(trim(t.skip(k + 1 as int)), '"'), '\''),
                ),
            )
        }
    }
}

/// Reads one line of a `.env` file.
pub fn dotenv_entry(line: &str) -> (r: Option<(String, String)>)
    ensures
        match r {
            Some((k, v)) => env_entry(line@) == Some((k@, v@)),
            None => env_entry(line@) is None,
        },
{
    let l = chars_of(line);
    let (a, b) = trim_range(&l, 0, l.len());
    assert(l@.subrange(0, l@.len() as int) =~= l@);
    let t = slice_chars(&l, a, b);
    assert(t@.skip(0) =~= t@);
    if t.len() == 0 || starts_with_str_at(&t, 0, "#") {
        return None;
    }
    let mut k: usize = 0;
    while k < t.len() && t[k] != '='
        invariant
            k <= t.len(),
            forall|j: int| 0 <= j < k ==> #[trigger] t@[j] != '=',
        decreases t.len() - k,
    {
        k = k + 1;
    }
    proof {
        lemma_count_until(t@, '=', k as int);
    }
    if k == t.len() {
        return None;
    }
    let (ka, kb) = trim_range(&t, 0, k);
    assert(t@.subrange(0, k as int) =~= t@.take(k as int));
    let key = string_of(slice_chars(&t, ka, kb).as_slice());
    let (va, vb) = trim_range(&t, k + 1, t.len());
    assert(t@.subrange(k + 1, t@.len() as int) =~= t@.skip(k + 1));
    let (qa, qb) = strip_char_range(&t, va, vb, '"');
    let (sa, sb) = strip_char_range(&t, qa, qb, '\'');
    let value = string_of(slice_chars(&t, sa, sb).as_slice());
    Some((key, value))
}

/// The settings a `.env` text holds, line by line.
pub open spec fn env_entries(ls: Seq<Seq<char>>) -> Seq<(Seq<char>, Seq<char>)>
    decreases ls.len(),
{
    if ls.len() == 0 {
        seq![]
    } else {
        env_entries(ls.drop_last()) + match env_entry(ls.last()) {
            Some(e) => seq![e],
            None => seq![],
        }
    }
}

/// The views of key and value pairs.
pub open spec fn pair_views(v: Seq<(String, String)>) -> Seq<(Seq<char>, Seq<char>)> {
    v.map_values(|p: (String, String)| (p.0@, p.1@))
}

/// The `KEY=VALUE` settings of a `.env` text, in order.
pub fn dotenv_entries(content: &str) -> (r: Vec<(String, String)>)
    ensures
        pair_views(r@) == env_entries(lines(content@)),
{
    let ls = lines_of(&chars_of(content));
    let ghost all = views(ls@);
    let mut r: Vec<(String, String)> = Vec::new();
    let mut i: usize = 0;
    while i < ls.len()
        invariant
            i <= ls.len(),
            all == views(ls@),
            all == lines(content@),
            pair_views(r@) == env_entries(all.take(i as int)),
        decreases ls.len() - i,
    {
        let line = string_of(ls[i].as_slice());
        assert(line@ == all[i as int]);
        let ghost before = pair_views(r@);
        assert(all.take(i + 1).drop_last() =~= all.take(i as int));
        match dotenv_entry(line.as_str()) {
            Some(e) => {
                r.push(e);
                assert(pair_views(r@) =~= before.push((e.0@, e.1@)));
            },
            None => {},
        }
        i = i + 1;
    }
    assert(all.take(ls.len() as int) =~= all);
    r
}

} // verus!
