//! Speech transcription with a whisper.cpp sidecar: its configuration, the
//! choice of binary and the command line it is run with.

use vstd::prelude::*;
use crate::color::lut::{chars_vec, is_ws, is_ws_char, text_of};

verus! {

/// Configuration for whisper.cpp transcription.
#[derive(Debug, Clone)]
pub struct TranscriberConfig {
    /// Path to the whisper.cpp binary.
    pub whisper_binary: String,
    /// Path to the whisper model file (`.bin`).
    pub model_path: String,
    /// Language code (`None` means auto-detect).
    pub language: Option<String>,
    /// Number of threads to use.
    pub threads: u32,
}

/// `num_cpus::get`: the number of CPUs this process may use. Its documentation
/// promises at least one; the count itself depends on the machine.
#[verifier::external_body]
fn cpu_count() -> (n: usize)
    ensures
        n >= 1,
{
    num_cpus::get()
}

/// Threads used for `cpus` CPUs: one each, up to what a `u32` holds.
pub open spec fn thread_count(cpus: nat) -> nat {
    if cpus > u32::MAX { u32::MAX as nat } else { cpus }
}

/// The names under which a whisper.cpp binary is looked for, in order.
pub open spec fn whisper_names() -> Seq<Seq<char>> {
    seq!["whisper-cpp"@, "whisper"@, "main"@]
}

/// The first of the names that was found, or `whisper-cpp` when none was.
pub open spec fn chosen_binary(found: Seq<bool>) -> Seq<char> {
    if found[0] {
        whisper_names()[0]
    } else if found[1] {
        whisper_names()[1]
    } else if found[2] {
        whisper_names()[2]
    } else {
        "whisper-cpp"@
    }
}

/// Pick the whisper.cpp binary, given for each of the names of
/// [`whisper_names`] whether it was found on the search path.
pub fn choose_whisper_binary(found: &[bool]) -> (name: &'static str)
    requires
        found@.len() == 3,
    ensures
        name@ == chosen_binary(found@),
{
    if found[0] {
        "whisper-cpp"
    } else if found[1] {
        "whisper"
    } else if found[2] {
        "main"
    } else {
        "whisper-cpp"
    }
}

/// The command-line arguments whisper.cpp is run with on `audio`.
pub open spec fn whisper_arguments(
    model: Seq<char>,
    audio: Seq<char>,
    threads: Seq<char>,
    language: Option<Seq<char>>,
) -> Seq<Seq<char>> {
    seq!["-m"@, model, "-f"@, audio, "--output-json"@, "-pp"@, "-t"@, threads, "-l"@,
        match language { Some(l) => l, None => "auto"@ }]
}

/// The text of an optional language code.
pub open spec fn language_view(language: Option<String>) -> Option<Seq<char>> {
    match language {
        Some(l) => Some(l@),
        None => None,
    }
}

fn owned(s: &str) -> (r: String)
    ensures
        r@ == s@,
{
    String::from_str(s)
}

impl TranscriberConfig {
    /// A configuration for the given binary, with no model, automatic
    /// language detection and one thread per available CPU.
    pub fn for_binary(whisper_binary: String) -> (c: Self)
        ensures
            c.whisper_binary@ == whisper_binary@,
            c.model_path@ == Seq::<char>::empty(),
            c.language is None,
            c.threads >= 1,
            exists|n: nat| n >= 1 && c.threads == thread_count(n),
    {
        let cpus = cpu_count();
        Self::with_cpu_count(whisper_binary, cpus)
    }

    /// A configuration for the given binary, with no model, automatic
    /// language detection and one thread per CPU for `cpus` CPUs (as many as
    /// a `u32` holds).
    pub fn with_cpu_count(whisper_binary: String, cpus: usize) -> (c: Self)
        ensures
            c.whisper_binary@ == whisper_binary@,
            c.model_path@ == Seq::<char>::empty(),
            c.language is None,
            c.threads == thread_count(cpus as nat),
    {
        let threads: u32 = if cpus > u32::MAX as usize { u32::MAX } else { cpus as u32 };
        TranscriberConfig {
            whisper_binary,
            model_path: String::new(),
            language: None,
            threads,
        }
    }

    /// The arguments to run whisper.cpp with on the audio file `audio_path`.
    pub fn whisper_args(&self, audio_path: &str) -> (args: Vec<String>)
        ensures
            args@.map_values(|a: String| a@) == whisper_arguments(
                self.model_path@,
                audio_path@,
                crate::foundation::timecode::decimal(self.threads as nat),
                language_view(self.language),
            ),
    {
        let mut threads = String::new();
        crate::foundation::timecode::push_decimal(&mut threads, self.threads as u64);
        let mut args: Vec<String> = Vec::new();
        args.push(owned("-m"));
        args.push(owned(self.model_path.as_str()));
        args.push(owned("-f"));
        args.push(owned(audio_path));
        args.push(owned("--output-json"));
        args.push(owned("-pp"));
        args.push(owned("-t"));
        args.push(threads);
        args.push(owned("-l"));
        match &self.language {
            Some(l) => args.push(owned(l.as_str())),
            None => args.push(owned("auto")),
        }
        proof {
            let expected = whisper_arguments(
                self.model_path@,
                audio_path@,
                crate::foundation::timecode::decimal(self.threads as nat),
                language_view(self.language),
            );
            assert(args@.map_values(|a: String| a@) =~= expected);
        }
        args
    }
}

/// Whisper.cpp-based transcription engine.
pub struct Transcriber {
    config: TranscriberConfig,
}

impl Transcriber {
    /// The configuration the transcriber was made with.
    pub closed spec fn settings(&self) -> TranscriberConfig {
        self.config
    }

    /// Create a new transcriber with the given configuration.
    pub fn new(config: TranscriberConfig) -> (t: Self)
        ensures
            t.settings() == config,
    {
        Transcriber { config }
    }

    /// The transcriber's configuration.
    pub fn config(&self) -> (c: &TranscriberConfig)
        ensures
            *c == self.settings(),
    {
        &self.config
    }
}


/// The words of `t[..i]` (maximal runs of characters that are not white
/// space) and the start of the word under way at `i`.
pub open spec fn word_scan(t: Seq<char>, i: nat) -> (Seq<Seq<char>>, int)
    decreases i,
{
    if i == 0 {
        (Seq::empty(), 0)
    } else {
        let prev = word_scan(t, (i - 1) as nat);
        if is_ws(t[i - 1]) {
            (if prev.1 < i - 1 { prev.0.push(t.subrange(prev.1, i - 1)) } else { prev.0 }, i as int)
        } else {
            prev
        }
    }
}

/// The words of `t`, in order, as `str::split_whitespace` gives them.
pub open spec fn words_of(t: Seq<char>) -> Seq<Seq<char>> {
    let r = word_scan(t, t.len());
    if r.1 < t.len() {
        r.0.push(t.subrange(r.1, t.len() as int))
    } else {
        r.0
    }
}

/// The texts of a list of strings.
pub open spec fn word_texts(v: Seq<String>) -> Seq<Seq<char>> {
    v.map_values(|s: String| s@)
}

/// Split a transcript segment's text into its words: the maximal runs of
/// characters that are not white space.
pub fn split_words(text: &str) -> (words: Vec<String>)
    ensures
        word_texts(words@) == words_of(text@),
{
    let cs = chars_vec(text);
    let ghost t = cs@;
    let mut out: Vec<String> = Vec::new();
    let mut st: usize = 0;
    let mut i: usize = 0;
    while i < cs.len()
        invariant
            st <= i <= cs.len(),
            t == cs@,
            (word_texts(out@), st as int) == word_scan(t, i as nat),
        decreases cs.len() - i,
    {
        if is_ws_char(cs[i]) {
            if st < i {
                let w = text_of(vstd::slice::slice_subrange(cs.as_slice(), st, i));
                let ghost before = out@;
                out.push(w);
                proof {
                    assert(w@ =~= t.subrange(st as int, i as int));
                    assert(word_texts(out@) =~= word_texts(before).push(t.subrange(st as int, i as int)));
                }
            }
            st = i + 1;
        }
        i = i + 1;
    }
    if st < cs.len() {
        let w = text_of(vstd::slice::slice_subrange(cs.as_slice(), st, cs.len()));
        let ghost before = out@;
        out.push(w);
        proof {
            assert(w@ =~= t.subrange(st as int, t.len() as int));
            assert(word_texts(out@) =~= word_texts(before).push(t.subrange(st as int, t.len() as int)));
        }
    }
    out
}

/// The words of a transcript segment whose text may be missing: none where
/// it is, else the maximal runs of characters that are not white space.
pub fn segment_words(text: Option<&str>) -> (words: Vec<String>)
    ensures
        word_texts(words@) == (match text {
            Some(t) => words_of(t@),
            None => Seq::empty(),
        }),
{
    match text {
        Some(t) => split_words(t),
        None => {
            let v: Vec<String> = Vec::new();
            proof {
                assert(word_texts(v@) =~= Seq::<Seq<char>>::empty());
            }
            v
        },
    }
}

/// The language a transcript reports, English (`en`) where it reports none.
pub fn transcript_language(found: Option<&str>) -> (lang: String)
    ensures
        lang@ == (match found {
            Some(l) => l@,
            None => "en"@,
        }),
{
    match found {
        Some(l) => l.to_owned(),
        None => "en".to_owned(),
    }
}

/// The command-line arguments ffmpeg is run with to extract a video's audio
/// track as 16 kHz mono WAV.
pub open spec fn ffmpeg_extract_arguments(video: Seq<char>, wav: Seq<char>) -> Seq<Seq<char>> {
    seq!["-i"@, video, "-ar"@, "16000"@, "-ac"@, "1"@, "-vn"@, wav, "-y"@]
}

/// The arguments to run ffmpeg with to write the audio of `video_path` to
/// `wav_path` as 16 kHz mono WAV, overwriting it.
pub fn ffmpeg_extract_args(video_path: &str, wav_path: &str) -> (args: Vec<String>)
    ensures
        args@.map_values(|a: String| a@) == ffmpeg_extract_arguments(video_path@, wav_path@),
{
    let mut args: Vec<String> = Vec::new();
    args.push(owned("-i"));
    args.push(owned(video_path));
    args.push(owned("-ar"));
    args.push(owned("16000"));
    args.push(owned("-ac"));
    args.push(owned("1"));
    args.push(owned("-vn"));
    args.push(owned(wav_path));
    args.push(owned("-y"));
    proof {
        assert(args@.map_values(|a: String| a@) =~= ffmpeg_extract_arguments(video_path@, wav_path@));
    }
    args
}

} // verus!
