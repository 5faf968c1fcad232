//! Filler word detection over transcript words: hesitations, verbal fillers,
//! words of the user's own list, and repetitions of the previous word.

use vstd::prelude::*;
use crate::color::lut::{chars_vec, text_of, trim_bounds, trim_ws};

verus! {

/// Category of filler word.
#[derive(Debug, Clone, Copy, PartialEq, Eq, Structural)]
pub enum FillerCategory {
    /// Hesitation sounds: um, uh, er, ah.
    Hesitation,
    /// Verbal fillers: like, you know, basically, actually.
    Verbal,
    /// Word repetitions: "I I", "the the".
    Repetition,
}

/// Configuration for filler word detection.
#[derive(Debug, Clone)]
pub struct FillerDetectConfig {
    /// Detect hesitation sounds (um, uh, and the like).
    pub detect_hesitations: bool,
    /// Detect verbal fillers (like, basically, and the like).
    pub detect_verbal_fillers: bool,
    /// Detect word repetitions (I I, the the, and the like).
    pub detect_repetitions: bool,
    /// Additional words to flag as fillers.
    pub custom_filler_words: Vec<String>,
}

impl Default for FillerDetectConfig {
    fn default() -> (c: Self)
        ensures
            c.detect_hesitations,
            c.detect_verbal_fillers,
            c.detect_repetitions,
            c.custom_filler_words@.len() == 0,
    {
        FillerDetectConfig {
            detect_hesitations: true,
            detect_verbal_fillers: true,
            detect_repetitions: true,
            custom_filler_words: Vec::new(),
        }
    }
}

/// A transcript word flagged as a filler.
#[derive(Debug, Clone)]
pub struct FillerMark {
    /// Position of the word in the transcript.
    pub index: usize,
    /// The word, lowercased and trimmed.
    pub word: String,
    /// Category of filler.
    pub category: FillerCategory,
}

/// What `str::to_lowercase` gives for a text (Unicode lowercase mapping).
pub uninterp spec fn lowercase_of(s: Seq<char>) -> Seq<char>;

/// `str::to_lowercase`. Claimed: the result is [`lowercase_of`] of the text.
#[verifier::external_body]
fn to_lower(s: &str) -> (r: String)
    ensures
        r@ == lowercase_of(s@),
{
    s.to_lowercase()
}

/// Known hesitation sounds.
pub open spec fn hesitation_words() -> Seq<Seq<char>> {
    seq!["um"@, "uh"@, "er"@, "ah"@, "hmm"@, "hm"@, "erm"@]
}

/// Known verbal filler words and phrases.
pub open spec fn verbal_words() -> Seq<Seq<char>> {
    seq![
        "like"@,
        "you know"@,
        "basically"@,
        "actually"@,
        "sort of"@,
        "kind of"@,
        "right"@,
        "so"@,
        "well"@,
        "just"@,
        "literally"@,
        "i mean"@,
        "you see"@,
    ]
}

/// A word as it is compared: lowercased, then trimmed.
pub open spec fn normalized(w: Seq<char>) -> Seq<char> {
    trim_ws(lowercase_of(w))
}

/// The texts of a list of strings.
pub open spec fn texts(v: Seq<String>) -> Seq<Seq<char>> {
    v.map_values(|s: String| s@)
}

/// The category of word `i`, given the normalized words and the lowercased
/// custom words; the first test that matches decides.
pub open spec fn filler_category(
    normed: Seq<Seq<char>>,
    custom: Seq<Seq<char>>,
    c: FillerDetectConfig,
    i: int,
) -> Option<FillerCategory> {
    let w = normed[i];
    if c.detect_hesitations && hesitation_words().contains(w) {
        Some(FillerCategory::Hesitation)
    } else if c.detect_verbal_fillers && verbal_words().contains(w) {
        Some(FillerCategory::Verbal)
    } else if custom.contains(w) {
        Some(FillerCategory::Verbal)
    } else if c.detect_repetitions && i > 0 && w == normed[i - 1] && w.len() > 0 {
        Some(FillerCategory::Repetition)
    } else {
        None
    }
}

/// The fillers among the first `n` words, in order, as (position, word,
/// category).
pub open spec fn filler_marks(
    normed: Seq<Seq<char>>,
    custom: Seq<Seq<char>>,
    c: FillerDetectConfig,
    n: int,
) -> Seq<(int, Seq<char>, FillerCategory)>
    decreases n,
{
    if n <= 0 {
        Seq::empty()
    } else {
        let rest = filler_marks(normed, custom, c, n - 1);
        match filler_category(normed, custom, c, n - 1) {
            Some(cat) => rest.push((n - 1, normed[n - 1], cat)),
            None => rest,
        }
    }
}

/// The marks as (position, word, category).
pub open spec fn marks_view(marks: Seq<FillerMark>) -> Seq<(int, Seq<char>, FillerCategory)> {
    marks.map_values(|m: FillerMark| (m.index as int, m.word@, m.category))
}

fn literal(s: &str) -> (r: String)
    ensures
        r@ == s@,
{
    String::from_str(s)
}

fn is_hesitation(w: &String) -> (b: bool)
    ensures
        b == hesitation_words().contains(w@),
{
    let b = *w == literal("um") || *w == literal("uh") || *w == literal("er") || *w == literal("ah")
        || *w == literal("hmm") || *w == literal("hm") || *w == literal("erm");
    proof {
        let h = hesitation_words();
        if b {
            assert(exists|i: int| 0 <= i < h.len() && h[i] == w@) by {
                if w@ == h[0] {} else if w@ == h[1] {} else if w@ == h[2] {} else if w@ == h[3] {
                } else if w@ == h[4] {} else if w@ == h[5] {} else {
                    assert(w@ == h[6]);
                }
            }
        } else {
            assert forall|i: int| 0 <= i < h.len() implies h[i] != w@ by {}
        }
    }
    b
}

fn is_verbal(w: &String) -> (b: bool)
    ensures
        b == verbal_words().contains(w@),
{
    let b = *w == literal("like") || *w == literal("you know") || *w == literal("basically")
        || *w == literal("actually") || *w == literal("sort of") || *w == literal("kind of")
        || *w == literal("right") || *w == literal("so") || *w == literal("well") || *w == literal(
        "just",
    ) || *w == literal("literally") || *w == literal("i mean") || *w == literal("you see");
    proof {
        let v = verbal_words();
        if b {
            assert(exists|i: int| 0 <= i < v.len() && v[i] == w@) by {
                if w@ == v[0] {} else if w@ == v[1] {} else if w@ == v[2] {} else if w@ == v[3] {
                } else if w@ == v[4] {} else if w@ == v[5] {} else if w@ == v[6] {
                } else if w@ == v[7] {} else if w@ == v[8] {} else if w@ == v[9] {
                } else if w@ == v[10] {} else if w@ == v[11] {} else {
                    assert(w@ == v[12]);
                }
            }
        } else {
            assert forall|i: int| 0 <= i < v.len() implies v[i] != w@ by {}
        }
    }
    b
}

fn contains_text(list: &Vec<String>, w: &String) -> (b: bool)
    ensures
        b == texts(list@).contains(w@),
{
    let mut i: usize = 0;
    while i < list.len()
        invariant
            i <= list.len(),
            forall|k: int| 0 <= k < i ==> texts(list@)[k] != w@,
        decreases list.len() - i,
    {
        if list[i] == *w {
            assert(texts(list@)[i as int] == w@);
            return true;
        }
        i = i + 1;
    }
    false
}

/// A word lowercased and trimmed, the form in which it is compared.
pub fn normalize_word(w: &str) -> (r: String)
    ensures
        r@ == normalized(w@),
{
    let lower = to_lower(w);
    let cs = chars_vec(lower.as_str());
    let (a, b) = trim_bounds(&cs, 0, cs.len());
    proof {
        assert(cs@.subrange(0, cs.len() as int) =~= cs@);
    }
    text_of(vstd::slice::slice_subrange(cs.as_slice(), a, b))
}

/// Find the filler words of a transcript, given its words in order. Each
/// word is lowercased and trimmed; a hesitation sound, a verbal filler or a
/// word of the custom list (compared lowercased) is flagged once, by the
/// first of these tests that it meets, where the test is enabled; otherwise a
/// non-empty word equal to the word before it is flagged as a repetition.
pub fn detect_filler_marks(words: &Vec<String>, config: &FillerDetectConfig) -> (marks: Vec<
    FillerMark,
>)
    ensures
        marks_view(marks@) == filler_marks(
            texts(words@).map_values(|w: Seq<char>| normalized(w)),
            texts(config.custom_filler_words@).map_values(|w: Seq<char>| lowercase_of(w)),
            *config,
            words@.len() as int,
        ),
{
    let ghost normed = texts(words@).map_values(|w: Seq<char>| normalized(w));
    let ghost custom = texts(config.custom_filler_words@).map_values(
        |w: Seq<char>| lowercase_of(w),
    );
    let mut norm: Vec<String> = Vec::new();
    let mut i: usize = 0;
    while i < words.len()
        invariant
            i <= words.len(),
            normed == texts(words@).map_values(|w: Seq<char>| normalized(w)),
            norm@.len() == i,
            forall|k: int| 0 <= k < i ==> #[trigger] norm@[k]@ == normed[k],
        decreases words.len() - i,
    {
        norm.push(normalize_word(words[i].as_str()));
        i = i + 1;
    }
    let mut lowered: Vec<String> = Vec::new();
    let mut j: usize = 0;
    while j < config.custom_filler_words.len()
        invariant
            j <= config.custom_filler_words.len(),
            custom == texts(config.custom_filler_words@).map_values(|w: Seq<char>| lowercase_of(w)),
            lowered@.len() == j,
            forall|k: int| 0 <= k < j ==> #[trigger] lowered@[k]@ == custom[k],
        decreases config.custom_filler_words.len() - j,
    {
        lowered.push(to_lower(config.custom_filler_words[j].as_str()));
        j = j + 1;
    }
    assert(texts(lowered@) =~= custom);
    let mut marks: Vec<FillerMark> = Vec::new();
    let mut i: usize = 0;
    while i < norm.len()
        invariant
            i <= norm.len(),
            norm@.len() == normed.len(),
            normed.len() == words@.len(),
            forall|k: int| 0 <= k < norm@.len() ==> #[trigger] norm@[k]@ == normed[k],
            texts(lowered@) == custom,
            marks_view(marks@) == filler_marks(normed, custom, *config, i as int),
        decreases norm.len() - i,
    {
        let w = &norm[i];
        let ghost cat = filler_category(normed, custom, *config, i as int);
        let found: Option<FillerCategory> = if config.detect_hesitations && is_hesitation(w) {
            Some(FillerCategory::Hesitation)
        } else if config.detect_verbal_fillers && is_verbal(w) {
            Some(FillerCategory::Verbal)
        } else if contains_text(&lowered, w) {
            Some(FillerCategory::Verbal)
        } else if config.detect_repetitions && i > 0 && *w == norm[i - 1] && w.as_str().unicode_len()
            > 0 {
            Some(FillerCategory::Repetition)
        } else {
            None
        };
        assert(found == cat);
        let ghost before = marks@;
        match found {
            Some(category) => {
                marks.push(FillerMark { index: i, word: w.clone(), category });
                assert(marks_view(marks@) =~= marks_view(before).push(
                    (i as int, normed[i as int], category),
                ));
            },
            None => {},
        }
        i = i + 1;
    }
    marks
}

/// The marks among the first `n` words name positions below `n`, in strictly
/// increasing order, each with its own word.
proof fn lemma_marks_positions(
    normed: Seq<Seq<char>>,
    custom: Seq<Seq<char>>,
    c: FillerDetectConfig,
    n: int,
)
    requires
        0 <= n <= normed.len(),
    ensures
        forall|k: int|
            0 <= k < filler_marks(normed, custom, c, n).len() ==> 0 <= (
            #[trigger] filler_marks(normed, custom, c, n)[k]).0 < n
                && filler_marks(normed, custom, c, n)[k].1 == normed[filler_marks(normed, custom, c, n)[k].0],
        forall|k: int, l: int|
            0 <= k < l < filler_marks(normed, custom, c, n).len() ==> (#[trigger] filler_marks(
                normed,
                custom,
                c,
                n,
            )[k]).0 < (#[trigger] filler_marks(normed, custom, c, n)[l]).0,
    decreases n,
{
    if n > 0 {
        lemma_marks_positions(normed, custom, c, n - 1);
        let m = filler_marks(normed, custom, c, n);
        let rest = filler_marks(normed, custom, c, n - 1);
        assert forall|k: int| 0 <= k < rest.len() implies #[trigger] m[k] == rest[k] by {}
        assert forall|k: int| 0 <= k < m.len() implies 0 <= (#[trigger] m[k]).0 < n && m[k].1
            == normed[m[k].0] by {
            if k < rest.len() {
                assert(m[k] == rest[k]);
            }
        }
        assert forall|k: int, l: int| 0 <= k < l < m.len() implies (#[trigger] m[k]).0 < (
        #[trigger] m[l]).0 by {
            assert(m[k] == rest[k]);
            if l < rest.len() {
                assert(m[l] == rest[l]);
            }
        }
    }
}

/// Word `i` is marked with `cat` exactly when its category is `cat`.
proof fn lemma_marks_member(
    normed: Seq<Seq<char>>,
    custom: Seq<Seq<char>>,
    c: FillerDetectConfig,
    n: int,
    i: int,
    cat: FillerCategory,
)
    requires
        0 <= i < n <= normed.len(),
    ensures
        filler_marks(normed, custom, c, n).contains((i, normed[i], cat)) <==> filler_category(
            normed,
            custom,
            c,
            i,
        ) == Some(cat),
    decreases n,
{
    let m = filler_marks(normed, custom, c, n);
    let rest = filler_marks(normed, custom, c, n - 1);
    lemma_marks_positions(normed, custom, c, n - 1);
    if i == n - 1 {
        if m.contains((i, normed[i], cat)) {
            let k = choose|k: int| 0 <= k < m.len() && m[k] == (i, normed[i], cat);
            if k < rest.len() {
                assert(m[k] == rest[k]);
            }
        }
        if filler_category(normed, custom, c, i) == Some(cat) {
            assert(m[m.len() - 1] == (i, normed[i], cat));
        }
    } else {
        lemma_marks_member(normed, custom, c, n - 1, i, cat);
        if m.contains((i, normed[i], cat)) {
            let k = choose|k: int| 0 <= k < m.len() && m[k] == (i, normed[i], cat);
            if k < rest.len() {
                assert(m[k] == rest[k]);
                assert(rest.contains((i, normed[i], cat)));
            }
        }
        if rest.contains((i, normed[i], cat)) {
            let k = choose|k: int| 0 <= k < rest.len() && rest[k] == (i, normed[i], cat);
            assert(m[k] == rest[k]);
        }
    }
}

/// What the marks of a transcript say, word by word. For each word `i` of
/// the normalized words, with `custom` the lowercased custom words:
/// - a hesitation sound is marked as a hesitation when hesitations are
///   detected;
/// - otherwise a verbal filler is marked as verbal when verbal fillers are
///   detected;
/// - otherwise a custom word is marked as verbal, whatever the flags say;
/// - otherwise a non-empty word equal to the word before it is marked as a
///   repetition when repetitions are detected;
/// - any other word is not marked;
/// and no word is marked twice: the marks are in strictly increasing word
/// order, each with its word.
pub proof fn lemma_filler_marks_law(
    normed: Seq<Seq<char>>,
    custom: Seq<Seq<char>>,
    c: FillerDetectConfig,
    i: int,
)
    requires
        0 <= i < normed.len(),
    ensures
        ({
            let marks = filler_marks(normed, custom, c, normed.len() as int);
            let w = normed[i];
            let hes = c.detect_hesitations && hesitation_words().contains(w);
            let verb = c.detect_verbal_fillers && verbal_words().contains(w);
            let cust = custom.contains(w);
            let rep = c.detect_repetitions && i > 0 && w == normed[i - 1] && w.len() > 0;
            &&& hes ==> marks.contains((i, w, FillerCategory::Hesitation))
            &&& !hes && verb ==> marks.contains((i, w, FillerCategory::Verbal))
            &&& !hes && !verb && cust ==> marks.contains((i, w, FillerCategory::Verbal))
            &&& !hes && !verb && !cust && rep ==> marks.contains((i, w, FillerCategory::Repetition))
            &&& !hes && !verb && !cust && !rep ==> forall|cat: FillerCategory| !marks.contains((i, w, cat))
            &&& forall|a: FillerCategory, b: FillerCategory|
                marks.contains((i, w, a)) && marks.contains((i, w, b)) ==> a == b
        }),
        forall|k: int, l: int|
            0 <= k < l < filler_marks(normed, custom, c, normed.len() as int).len() ==> (
            #[trigger] filler_marks(normed, custom, c, normed.len() as int)[k]).0 < (
            #[trigger] filler_marks(normed, custom, c, normed.len() as int)[l]).0,
        forall|k: int|
            0 <= k < filler_marks(normed, custom, c, normed.len() as int).len() ==> 0 <= (
            #[trigger] filler_marks(normed, custom, c, normed.len() as int)[k]).0 < normed.len()
                && filler_marks(normed, custom, c, normed.len() as int)[k].1 == normed[filler_marks(
                normed,
                custom,
                c,
                normed.len() as int,
            )[k].0],
{
    let n = normed.len() as int;
    lemma_marks_positions(normed, custom, c, n);
    lemma_marks_member(normed, custom, c, n, i, FillerCategory::Hesitation);
    lemma_marks_member(normed, custom, c, n, i, FillerCategory::Verbal);
    lemma_marks_member(normed, custom, c, n, i, FillerCategory::Repetition);
    assert forall|cat: FillerCategory| filler_marks(normed, custom, c, n).contains((i, normed[i], cat))
        <==> filler_category(normed, custom, c, i) == Some(cat) by {
        lemma_marks_member(normed, custom, c, n, i, cat);
    }
}

} // verus!
