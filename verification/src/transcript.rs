//! What becomes of the text that the speech recogniser returns: joining its
//! segments, filtering out what it invents on silence, and the rolling
//! transcript shown while dictating.
use vstd::prelude::*;
use vstd::utf8::*;
use crate::text::{chars_of, is_trimmed, is_white_space, lemma_trim_shape, lemma_trim_idempotent, lemma_trim_is_trimmed, owned, push_char, push_str, same_text, string_from_range, trim, trim_bounds};

verus! {

/// The lower-case form of a text, as `str::to_lowercase` computes it (full
/// Unicode case mapping, the same on every machine).
pub uninterp spec fn lowercase_of(s: Seq<char>) -> Seq<char>;

/// Lower-cases a text with `str::to_lowercase`.
///
/// Trusted: the result is the lower-case mapping of the characters of `s`,
/// a function of those characters alone; what that mapping is, the Unicode
/// tables decide, and no clause here states it.
#[verifier::external_body]
fn to_lowercase(s: &str) -> (r: String)
    ensures
        r@ == lowercase_of(s@),
{
    s.to_lowercase()
}

/// Phrases that the recogniser produces on silence or noise, in lower case.
pub open spec fn hallucinations() -> Seq<Seq<char>> {
    seq![
        "thank you for watching"@,
        "thanks for watching"@,
        "thank you."@,
        "thanks."@,
    ]
}

/// `s` starts with `open` and ends with `close`.
pub open spec fn wrapped_in(s: Seq<char>, open: char, close: char) -> bool {
    s.len() > 0 && s[0] == open && s.last() == close
}

/// The cleaned form of a raw recognition result: the text without leading
/// and trailing white space, or nothing when that is empty, is a bracketed
/// or parenthesised annotation such as `[BLANK_AUDIO]` or `(silence)`, or is
/// one of the known silence phrases in any letter case.
pub open spec fn cleaned(raw: Seq<char>) -> Option<Seq<char>> {
    let s = trim(raw);
    if s.len() == 0 {
        None
    } else if wrapped_in(s, '[', ']') {
        None
    } else if wrapped_in(s, '(', ')') {
        None
    } else if hallucinations().contains(lowercase_of(s)) {
        None
    } else {
        Some(s)
    }
}

/// The view of an optional `String`.
pub open spec fn text_view(o: Option<String>) -> Option<Seq<char>> {
    match o {
        Some(t) => Some(t@),
        None => None,
    }
}

/// Whether an already lower-cased text is one of the known silence phrases.
pub fn is_hallucination(lowered: &str) -> (r: bool)
    ensures
        r == hallucinations().contains(lowered@),
{
    let a = same_text(lowered, "thank you for watching");
    let b = same_text(lowered, "thanks for watching");
    let c = same_text(lowered, "thank you.");
    let d = same_text(lowered, "thanks.");
    proof {
        let h = hallucinations();
        assert(h[0] == "thank you for watching"@);
        assert(h[1] == "thanks for watching"@);
        assert(h[2] == "thank you."@);
        assert(h[3] == "thanks."@);
        if h.contains(lowered@) {
            let i = choose|i: int| 0 <= i < h.len() && h[i] == lowered@;
            assert(i == 0 || i == 1 || i == 2 || i == 3);
        }
    }
    a || b || c || d
}

/// Filters recogniser hallucinations and surrounding white space out of a
/// raw result; `None` when nothing useful was recognised.
pub fn clean_text(raw: &str) -> (r: Option<String>)
    ensures
        text_view(r) == cleaned(raw@),
{
    let v = chars_of(raw);
    let (a, b) = trim_bounds(&v);
    if a == b {
        return None;
    }
    let first = v[a];
    let last = v[b - 1];
    if first == '[' && last == ']' {
        return None;
    }
    if first == '(' && last == ')' {
        return None;
    }
    let s = string_from_range(&v, a, b);
    let lower = to_lowercase(s.as_str());
    if is_hallucination(lower.as_str()) {
        return None;
    }
    Some(s)
}

/// Cleaning is idempotent: a cleaned text cleans to itself.
pub proof fn lemma_cleaned_idempotent(raw: Seq<char>)
    requires
        cleaned(raw) is Some,
    ensures
        cleaned(cleaned(raw)->0) == cleaned(raw),
{
    lemma_trim_idempotent(raw);
}

/// A cleaned text is not empty and has white space at neither end.
pub proof fn lemma_cleaned_is_trimmed(raw: Seq<char>)
    requires
        cleaned(raw) is Some,
    ensures
        cleaned(raw)->0.len() > 0,
        is_trimmed(cleaned(raw)->0),
{
    lemma_trim_is_trimmed(raw);
}

/// What cleaning keeps and drops, in terms of the trimmed text `t`: the
/// result is `Some(t)` unless `t` is empty, starts with `[` and ends with `]`,
/// starts with `(` and ends with `)`, or lower-cases to one of "thank you for
/// watching", "thanks for watching", "thank you." and "thanks."; in those
/// cases it is `None`. A text that ends with `)` or `]` but does not start
/// with the matching bracket is kept.
pub proof fn lemma_cleaned_keeps_and_drops(raw: Seq<char>)
    ensures
        ({
            let t = trim(raw);
            let dropped = t.len() == 0 || (t[0] == '[' && t[t.len() - 1] == ']') || (t[0] == '('
                && t[t.len() - 1] == ')') || lowercase_of(t) == "thank you for watching"@
                || lowercase_of(t) == "thanks for watching"@ || lowercase_of(t) == "thank you."@
                || lowercase_of(t) == "thanks."@;
            &&& dropped ==> cleaned(raw) is None
            &&& !dropped ==> cleaned(raw) == Some(t)
        }),
{
    let h = hallucinations();
    let t = trim(raw);
    assert(h[0] == "thank you for watching"@);
    assert(h[1] == "thanks for watching"@);
    assert(h[2] == "thank you."@);
    assert(h[3] == "thanks."@);
    if h.contains(lowercase_of(t)) {
        let i = choose|i: int| 0 <= i < h.len() && h[i] == lowercase_of(t);
        assert(i == 0 || i == 1 || i == 2 || i == 3);
    }
    if lowercase_of(t) == "thanks."@ {
        assert(h.contains(lowercase_of(t)));
    }
    if lowercase_of(t) == "thank you."@ {
        assert(h.contains(lowercase_of(t)));
    }
    if lowercase_of(t) == "thanks for watching"@ {
        assert(h.contains(lowercase_of(t)));
    }
    if lowercase_of(t) == "thank you for watching"@ {
        assert(h.contains(lowercase_of(t)));
    }
}

/// What cleaning keeps is the raw text with only white space taken off its
/// two ends: `raw` is white space, then the kept text, then white space.
pub proof fn lemma_cleaned_is_raw_without_outer_space(raw: Seq<char>)
    requires
        cleaned(raw) is Some,
    ensures
        exists|i: int, j: int|
            0 <= i <= j <= raw.len() && cleaned(raw)->0 == raw.subrange(i, j) && (forall|k: int|
                0 <= k < i ==> is_white_space(#[trigger] raw[k])) && (forall|k: int|
                j <= k < raw.len() ==> is_white_space(#[trigger] raw[k])),
{
    lemma_trim_shape(raw);
}

/// The concatenation of the segments that could be read, in order.
pub open spec fn joined_parts(parts: Seq<Option<String>>) -> Seq<char>
    decreases parts.len(),
{
    if parts.len() == 0 {
        Seq::empty()
    } else {
        joined_parts(parts.drop_last()) + match parts.last() {
            Some(t) => t@,
            None => Seq::<char>::empty(),
        }
    }
}

/// The text of one recognition: the readable segments joined in order, then
/// cleaned. Segments that could not be read are `None` and are skipped.
pub fn transcript_text(parts: &Vec<Option<String>>) -> (r: Option<String>)
    ensures
        text_view(r) == cleaned(joined_parts(parts@)),
{
    let mut text = String::new();
    let mut i: usize = 0;
    while i < parts.len()
        invariant
            i <= parts.len(),
            text@ == joined_parts(parts@.take(i as int)),
        decreases parts.len() - i,
    {
        assert(parts@.take(i + 1).drop_last() =~= parts@.take(i as int));
        match &parts[i] {
            Some(t) => push_str(&mut text, t.as_str()),
            None => {},
        }
        i = i + 1;
        assert(text@ =~= joined_parts(parts@.take(i as int)));
    }
    assert(parts@.take(parts.len() as int) =~= parts@);
    clean_text(text.as_str())
}

/// The transcript shown while dictating stays under this many bytes.
pub const TRANSCRIPT_MAX_BYTES: usize = 250;

/// When it grows past the limit, this many of its last bytes are kept.
pub const TRANSCRIPT_KEEP_BYTES: usize = 200;

/// The transcript with a new text added, separated by a space.
pub open spec fn extended_transcript(shown: Seq<char>, text: Seq<char>) -> Seq<char> {
    if shown.len() == 0 {
        text
    } else {
        shown + seq![' '] + text
    }
}

/// The first character boundary of `b` at or after `from`.
pub open spec fn boundary_from(b: Seq<u8>, from: int) -> int
    decreases b.len() - from,
{
    if from >= b.len() || is_char_boundary(b, from) {
        from
    } else {
        boundary_from(b, from + 1)
    }
}

/// In valid UTF-8, the first boundary at or after a position inside the
/// bytes is a boundary, and lies between that position and the end.
pub proof fn lemma_boundary_from(b: Seq<u8>, from: int)
    requires
        valid_utf8(b),
        0 <= from <= b.len(),
    ensures
        from <= boundary_from(b, from) <= b.len(),
        is_char_boundary(b, boundary_from(b, from)),
    decreases b.len() - from,
{
    is_char_boundary_start_end_of_seq(b);
    if from < b.len() && !is_char_boundary(b, from) {
        lemma_boundary_from(b, from + 1);
    }
}

/// A new text is added to a non-empty transcript after exactly one space,
/// and becomes the whole transcript when there was none.
pub proof fn lemma_extended_transcript(shown: Seq<char>, text: Seq<char>)
    ensures
        shown.len() == 0 ==> extended_transcript(shown, text) == text,
        shown.len() > 0 ==> {
            let e = extended_transcript(shown, text);
            &&& e.len() == shown.len() + 1 + text.len()
            &&& e.take(shown.len() as int) == shown
            &&& e[shown.len() as int] == ' '
            &&& e.skip(shown.len() as int + 1) == text
        },
{
    if shown.len() > 0 {
        let e = extended_transcript(shown, text);
        assert(e.take(shown.len() as int) =~= shown);
        assert(e.skip(shown.len() as int + 1) =~= text);
    }
}

/// Adds a recognised text to the rolling transcript, separated by a space.
/// When the transcript then holds more than 250 bytes of UTF-8, it keeps only
/// its end, from the first character boundary at or after the last 200 bytes.
pub fn push_transcript(shown: &mut String, text: &str)
    requires
        encode_utf8(extended_transcript(old(shown)@, text@)).len() <= usize::MAX,
    ensures
        ({
            let joined = extended_transcript(old(shown)@, text@);
            let all = encode_utf8(joined);
            if all.len() > TRANSCRIPT_MAX_BYTES {
                encode_utf8(final(shown)@) == all.subrange(
                    boundary_from(all, all.len() - TRANSCRIPT_KEEP_BYTES),
                    all.len() as int,
                )
            } else {
                final(shown)@ == joined
            }
        }),
        final(shown)@ == extended_transcript(old(shown)@, text@).skip(
            extended_transcript(old(shown)@, text@).len() - final(shown)@.len(),
        ),
        encode_utf8(final(shown)@).len() <= TRANSCRIPT_MAX_BYTES,
{
    broadcast use encode_utf8_valid_utf8;

    if !shown.as_str().is_empty() {
        push_char(shown, ' ');
    }
    push_str(shown, text);
    let ghost joined = extended_transcript(old(shown)@, text@);
    assert(shown@ =~= joined);
    let n = shown.as_str().len();
    if n > TRANSCRIPT_MAX_BYTES {
        let ghost all = encode_utf8(joined);
        let keep = n - TRANSCRIPT_KEEP_BYTES;
        proof {
            lemma_boundary_from(all, keep as int);
            is_char_boundary_start_end_of_seq(all);
        }
        let mut k = keep;
        while !shown.as_str().is_char_boundary(k)
            invariant
                keep <= k <= n,
                n == all.len(),
                all == encode_utf8(shown@),
                valid_utf8(all),
                is_char_boundary(all, n as int),
                boundary_from(all, k as int) == boundary_from(all, keep as int),
            decreases n - k,
        {
            k = k + 1;
        }
        let (_, tail) = shown.as_str().split_at(k);
        let ghost head_bytes = all.subrange(0, k as int);
        let ghost tail_bytes = all.subrange(k as int, all.len() as int);
        *shown = owned(tail);
        proof {
            encode_utf8_decode_utf8(joined);
            encode_utf8_decode_utf8(shown@);
            decode_utf8_split(all, k as int);
            assert(decode_utf8(tail_bytes) == shown@);
            assert(joined =~= decode_utf8(head_bytes) + shown@);
            assert(joined.skip(joined.len() - shown@.len()) =~= shown@);
        }
    } else {
        assert(joined.skip(0) =~= joined);
    }
}

} // verus!
