use vstd::prelude::*;
use crate::schedule::FrameRate;
use crate::text::{chars_of, split_chars, split_fields, string_from_chars};

verus! {

/// The file name of a path without its extension, if it has a file name.
pub uninterp spec fn file_stem_of(path: Seq<char>) -> Option<Seq<char>>;

/// Relies on std::path::Path::file_stem; a path made from a `&str` is valid
/// UTF-8, and so is its stem.
#[verifier::external_body]
fn path_file_stem(path: &str) -> (r: Option<String>)
    ensures
        r matches Some(s) ==> file_stem_of(path@) == Some(s@),
        r is None ==> file_stem_of(path@) is None,
{
    std::path::Path::new(path).file_stem().and_then(|s| s.to_str()).map(|s| s.to_string())
}

/// The stem of a video's file name, which names its cache directory;
/// "test" for a path without a file name.
pub fn get_file_stem(path: &str) -> (r: String)
    ensures
        r@ == match file_stem_of(path@) {
            Some(s) => s,
            None => "test"@,
        },
{
    match path_file_stem(path) {
        Some(s) => s,
        None => "test".to_owned(),
    }
}

/// Whether `c` is an ASCII decimal digit.
pub open spec fn is_digit(c: char) -> bool {
    '0' <= c <= '9'
}

/// The value of a string of decimal digits.
pub open spec fn digits_value(s: Seq<char>) -> nat
    decreases s.len(),
{
    if s.len() == 0 {
        0
    } else {
        digits_value(s.drop_last()) * 10 + ((s.last() as int) - ('0' as int)) as nat
    }
}

/// The value of an unsigned decimal numeral, as `from_str` of the unsigned
/// integer types reads it: an optional `+`, then one or more ASCII digits.
pub open spec fn numeral_value(s: Seq<char>) -> Option<nat> {
    let d = unsigned_digits(s);
    if d.len() > 0 && all_digits(d) {
        Some(digits_value(d))
    } else {
        None
    }
}

/// A numeral without its optional leading `+`.
pub open spec fn unsigned_digits(s: Seq<char>) -> Seq<char> {
    if s.len() > 0 && s[0] == '+' {
        s.drop_first()
    } else {
        s
    }
}

pub open spec fn all_digits(d: Seq<char>) -> bool {
    forall|i: int| 0 <= i < d.len() ==> is_digit(#[trigger] d[i])
}

/// The value of a numeral, where it is one whose value is at most `max`.
pub open spec fn parsed_bounded(s: Seq<char>, max: nat) -> Option<nat> {
    match numeral_value(s) {
        Some(v) if v <= max => Some(v),
        _ => None,
    }
}

/// Reads an unsigned decimal numeral whose value is at most `max`.
fn parse_bounded(s: &str, max: u64) -> (r: Option<u64>)
    ensures
        match parsed_bounded(s@, max as nat) {
            Some(v) => r == Some(v as u64),
            None => r is None,
        },
{
    let cs = chars_of(s);
    let start: usize = if cs.len() > 0 && cs[0] == '+' {
        1
    } else {
        0
    };
    let ghost d = unsigned_digits(s@);
    assert(d =~= cs@.subrange(start as int, cs@.len() as int));
    if start >= cs.len() {
        return None;
    }
    let mut acc: u64 = 0;
    let mut i: usize = start;
    while i < cs.len()
        invariant
            start <= i <= cs@.len(),
            cs@ == s@,
            d == unsigned_digits(s@),
            d == cs@.subrange(start as int, cs@.len() as int),
            forall|k: int| start <= k < i ==> is_digit(#[trigger] cs@[k]),
            acc as nat == digits_value(cs@.subrange(start as int, i as int)),
            acc <= max,
        decreases cs@.len() - i,
    {
        let c = cs[i];
        assert(cs@.subrange(start as int, i + 1).drop_last() =~= cs@.subrange(start as int, i as int));
        if !('0' <= c && c <= '9') {
            assert(d[i - start] == c);
            assert(!is_digit(d[i - start]));
            assert(!all_digits(d));
            return None;
        }
        let digit: u64 = ((c as u32) - ('0' as u32)) as u64;
        let next: u128 = (acc as u128) * 10 + (digit as u128);
        if next > max as u128 {
            proof {
                lemma_digits_grow(cs@.subrange(start as int, cs@.len() as int), (i + 1 - start) as int);
                assert(cs@.subrange(start as int, cs@.len() as int).subrange(0, i + 1 - start)
                    =~= cs@.subrange(start as int, i + 1));
            }
            return None;
        }
        acc = next as u64;
        i = i + 1;
    }
    assert(cs@.subrange(start as int, i as int) =~= d);
    assert forall|k: int| 0 <= k < d.len() implies is_digit(#[trigger] d[k]) by {
        assert(d[k] == cs@[start + k]);
    }
    Some(acc)
}

proof fn lemma_digits_grow(s: Seq<char>, k: int)
    requires
        0 <= k <= s.len(),
    ensures
        digits_value(s.subrange(0, k)) <= digits_value(s),
    decreases s.len() - k,
{
    if k < s.len() {
        lemma_digits_grow(s, k + 1);
        assert(s.subrange(0, k + 1).drop_last() =~= s.subrange(0, k));
    } else {
        assert(s.subrange(0, k) =~= s);
    }
}

/// The value of a decimal numeral, if it is one that fits a `u32`.
pub open spec fn parsed_u32(s: Seq<char>) -> Option<u32> {
    match parsed_bounded(s, u32::MAX as nat) {
        Some(v) => Some(v as u32),
        None => None,
    }
}

/// Reads a decimal numeral that fits a `u32`, as `u32::from_str` does.
pub fn parse_u32(s: &str) -> (r: Option<u32>)
    ensures
        r == parsed_u32(s@),
{
    match parse_bounded(s, u32::MAX as u64) {
        Some(v) => Some(v as u32),
        None => None,
    }
}

/// The index of the first '/' in `s`, if any.
pub open spec fn first_slash(s: Seq<char>) -> Option<int>
    decreases s.len(),
{
    if s.len() == 0 {
        None
    } else {
        match first_slash(s.drop_last()) {
            Some(i) => Some(i),
            None => if s.last() == '/' {
                Some(s.len() - 1)
            } else {
                None
            },
        }
    }
}

/// A frame rate as the prober writes it: `num/den`, or a bare `num`; a
/// numerator that does not parse counts as 30, a denominator as 1.
pub open spec fn fps_of(s: Seq<char>) -> FrameRate {
    match first_slash(s) {
        Some(p) => FrameRate {
            num: match parsed_u32(s.subrange(0, p)) {
                Some(n) => n,
                None => 30,
            },
            den: match parsed_u32(s.subrange(p + 1, s.len() as int)) {
                Some(d) => d,
                None => 1,
            },
        },
        None => FrameRate {
            num: match parsed_u32(s) {
                Some(n) => n,
                None => 30,
            },
            den: 1,
        },
    }
}

fn find_slash(cs: &Vec<char>) -> (r: Option<usize>)
    ensures
        r matches Some(p) ==> first_slash(cs@) == Some(p as int) && p < cs@.len(),
        r is None ==> first_slash(cs@) is None,
{
    let mut i: usize = 0;
    while i < cs.len()
        invariant
            i <= cs@.len(),
            first_slash(cs@.subrange(0, i as int)) is None,
        decreases cs@.len() - i,
    {
        assert(cs@.subrange(0, i + 1).drop_last() =~= cs@.subrange(0, i as int));
        if cs[i] == '/' {
            proof {
                lemma_first_slash_prefix(cs@, (i + 1) as int);
            }
            return Some(i);
        }
        i = i + 1;
    }
    assert(cs@.subrange(0, cs@.len() as int) =~= cs@);
    None
}

proof fn lemma_first_slash_prefix(s: Seq<char>, k: int)
    requires
        0 < k <= s.len(),
        first_slash(s.subrange(0, k)) is Some,
    ensures
        first_slash(s) == first_slash(s.subrange(0, k)),
    decreases s.len() - k,
{
    if k < s.len() {
        assert(s.subrange(0, k + 1).drop_last() =~= s.subrange(0, k));
        lemma_first_slash_prefix(s, k + 1);
    } else {
        assert(s.subrange(0, k) =~= s);
    }
}

fn sub_string(cs: &Vec<char>, from: usize, to: usize) -> (s: String)
    requires
        from <= to <= cs@.len(),
    ensures
        s@ == cs@.subrange(from as int, to as int),
{
    let mut out: Vec<char> = Vec::new();
    let mut i: usize = from;
    while i < to
        invariant
            from <= i <= to <= cs@.len(),
            out@ == cs@.subrange(from as int, i as int),
        decreases to - i,
    {
        out.push(cs[i]);
        i = i + 1;
        assert(out@ =~= cs@.subrange(from as int, i as int));
    }
    string_from_chars(&out)
}

/// Reads a frame rate written as `num/den` or as a bare `num`.
pub fn parse_fps(s: &str) -> (r: FrameRate)
    ensures
        r == fps_of(s@),
{
    let cs = chars_of(s);
    let found = find_slash(&cs);
    match found {
        Some(p) => {
            assert(first_slash(cs@) == Some(p as int));
            let num_text = sub_string(&cs, 0, p);
            let den_text = sub_string(&cs, p + 1, cs.len());
            let num = match parse_u32(num_text.as_str()) {
                Some(n) => n,
                None => 30,
            };
            let den = match parse_u32(den_text.as_str()) {
                Some(d) => d,
                None => 1,
            };
            FrameRate { num, den }
        },
        None => {
            let num = match parse_u32(s) {
                Some(n) => n,
                None => 30,
            };
            FrameRate { num, den: 1 }
        },
    }
}

} // verus!

verus! {

/// The value of a decimal numeral, if it is one that fits a `u64`.
pub open spec fn parsed_u64(s: Seq<char>) -> Option<u64> {
    match parsed_bounded(s, u64::MAX as nat) {
        Some(v) => Some(v as u64),
        None => None,
    }
}

/// Reads a decimal numeral that fits a `u64`, as `u64::from_str` does.
pub fn parse_u64(s: &str) -> (r: Option<u64>)
    ensures
        r == parsed_u64(s@),
{
    parse_bounded(s, u64::MAX)
}

/// Whether `c` has the Unicode White_Space property, as `char::is_whitespace`
/// tests it.
pub open spec fn is_white_space(c: char) -> bool {
    ('\t' <= c <= '\r') || c == ' ' || c == '\u{85}' || c == '\u{a0}' || c == '\u{1680}' || (
    '\u{2000}' <= c <= '\u{200a}') || c == '\u{2028}' || c == '\u{2029}' || c == '\u{202f}'
        || c == '\u{205f}' || c == '\u{3000}'
}

fn white_space(c: char) -> (r: bool)
    ensures
        r == is_white_space(c),
{
    ('\t' <= c && c <= '\r') || c == ' ' || c == '\u{85}' || c == '\u{a0}' || c == '\u{1680}' || (
    '\u{2000}' <= c && c <= '\u{200a}') || c == '\u{2028}' || c == '\u{2029}' || c == '\u{202f}'
        || c == '\u{205f}' || c == '\u{3000}'
}

/// `s` without its leading white space.
pub open spec fn trim_start(s: Seq<char>) -> Seq<char>
    decreases s.len(),
{
    if s.len() > 0 && is_white_space(s[0]) {
        trim_start(s.drop_first())
    } else {
        s
    }
}

/// `s` without its trailing white space.
pub open spec fn trim_end(s: Seq<char>) -> Seq<char>
    decreases s.len(),
{
    if s.len() > 0 && is_white_space(s.last()) {
        trim_end(s.drop_last())
    } else {
        s
    }
}

/// `s` without leading and trailing white space, as `str::trim` gives it.
pub open spec fn trimmed_of(s: Seq<char>) -> Seq<char> {
    trim_end(trim_start(s))
}

/// Removes leading and trailing white space.
pub fn trim_text(s: &str) -> (r: String)
    ensures
        r@ == trimmed_of(s@),
{
    let cs = chars_of(s);
    let n = cs.len();
    let mut i: usize = 0;
    assert(cs@.subrange(0, n as int) =~= cs@);
    while i < n && white_space(cs[i])
        invariant
            n == cs@.len(),
            i <= n,
            trim_start(cs@) == trim_start(cs@.subrange(i as int, n as int)),
        decreases n - i,
    {
        assert(cs@.subrange(i as int, n as int).drop_first() =~= cs@.subrange(i + 1, n as int));
        i = i + 1;
    }
    if i < n {
        assert(cs@.subrange(i as int, n as int)[0] == cs@[i as int]);
    } else {
        assert(cs@.subrange(i as int, n as int).len() == 0);
    }
    let mut j: usize = n;
    while j > i && white_space(cs[j - 1])
        invariant
            n == cs@.len(),
            i <= j <= n,
            trim_start(cs@) == cs@.subrange(i as int, n as int),
            trim_end(cs@.subrange(i as int, n as int)) == trim_end(cs@.subrange(i as int, j as int)),
        decreases j - i,
    {
        assert(cs@.subrange(i as int, j as int).drop_last() =~= cs@.subrange(i as int, j - 1));
        j = j - 1;
    }
    if j > i {
        assert(cs@.subrange(i as int, j as int).last() == cs@[j - 1]);
    }
    let mut out: Vec<char> = Vec::new();
    let mut k: usize = i;
    while k < j
        invariant
            i <= k <= j <= n,
            n == cs@.len(),
            out@ == cs@.subrange(i as int, k as int),
        decreases j - k,
    {
        out.push(cs[k]);
        k = k + 1;
        assert(out@ =~= cs@.subrange(i as int, k as int));
    }
    string_from_chars(&out)
}

/// What the prober reports of a video stream: its pixel size, frame rate and
/// frame count.
#[derive(Clone, Copy, Debug, PartialEq, Eq, Structural)]
pub struct VideoProbe {
    pub width: u32,
    pub height: u32,
    pub frame_rate: FrameRate,
    pub total_frames: u64,
}

/// Why a prober report could not be read.
#[derive(Clone, Copy, Debug, PartialEq, Eq, Structural)]
pub enum ProbeError {
    /// Not exactly four comma-separated fields.
    FieldCount,
    /// The width, the height or the frame count is not a number.
    BadNumber,
}

/// The reading of a prober report `width,height,rate,frames`, surrounding
/// whitespace ignored.
pub open spec fn probe_of(text: Seq<char>) -> Result<VideoProbe, ProbeError> {
    let f = split_fields(trimmed_of(text), ',');
    if f.len() != 4 {
        Err(ProbeError::FieldCount)
    } else {
        match (parsed_u32(f[0]), parsed_u32(f[1]), parsed_u64(f[3])) {
            (Some(w), Some(h), Some(n)) => Ok(
                VideoProbe { width: w, height: h, frame_rate: fps_of(f[2]), total_frames: n },
            ),
            _ => Err(ProbeError::BadNumber),
        }
    }
}

/// Reads the prober's report on a video stream.
pub fn parse_video_probe(text: &str) -> (r: Result<VideoProbe, ProbeError>)
    ensures
        r == probe_of(text@),
{
    let trimmed = trim_text(text);
    let cs = chars_of(trimmed.as_str());
    let fields = split_chars(&cs, ',');
    let ghost fv = fields@.map_values(|f: Vec<char>| f@);
    if fields.len() != 4 {
        return Err(ProbeError::FieldCount);
    }
    assert(fv[0] == fields@[0]@ && fv[1] == fields@[1]@ && fv[2] == fields@[2]@ && fv[3] == fields@[3]@);
    let w_text = string_from_chars(&fields[0]);
    let h_text = string_from_chars(&fields[1]);
    let r_text = string_from_chars(&fields[2]);
    let n_text = string_from_chars(&fields[3]);
    let w = parse_u32(w_text.as_str());
    let h = parse_u32(h_text.as_str());
    let n = parse_u64(n_text.as_str());
    match (w, h, n) {
        (Some(w), Some(h), Some(n)) => Ok(
            VideoProbe { width: w, height: h, frame_rate: parse_fps(r_text.as_str()), total_frames: n },
        ),
        _ => Err(ProbeError::BadNumber),
    }
}

} // verus!

verus! {

/// Whether `pat` occurs in `s` starting at index `i`.
pub open spec fn occurs_at(s: Seq<char>, pat: Seq<char>, i: int) -> bool {
    0 <= i && i + pat.len() <= s.len() && s.subrange(i, i + pat.len()) == pat
}

/// Whether `pat` occurs anywhere in `s`.
pub open spec fn contains_text(s: Seq<char>, pat: Seq<char>) -> bool {
    exists|i: int|
        0 <= i && i + pat.len() <= s.len() && #[trigger] s.subrange(i, i + pat.len()) == pat
}

fn occurs_at_exec(s: &Vec<char>, pat: &Vec<char>, i: usize) -> (r: bool)
    requires
        i + pat@.len() <= s@.len(),
    ensures
        r == occurs_at(s@, pat@, i as int),
{
    let n: usize = s.len();
    let mut j: usize = 0;
    while j < pat.len()
        invariant
            n == s@.len(),
            i + pat@.len() <= s@.len(),
            j <= pat@.len(),
            forall|k: int| 0 <= k < j ==> s@[i + k] == pat@[k],
        decreases pat@.len() - j,
    {
        if s[i + j] != pat[j] {
            assert(s@.subrange(i as int, i + pat@.len())[j as int] != pat@[j as int]);
            return false;
        }
        j = j + 1;
    }
    assert(s@.subrange(i as int, i + pat@.len()) =~= pat@);
    true
}

/// Whether `pat` occurs in `s`.
pub fn contains_chars(s: &Vec<char>, pat: &Vec<char>) -> (r: bool)
    ensures
        r == contains_text(s@, pat@),
{
    if pat.len() > s.len() {
        return false;
    }
    if pat.len() == 0 {
        assert(s@.subrange(0, 0int + pat@.len()) =~= pat@);
        return true;
    }
    let n: usize = s.len();
    let last = n - pat.len();
    let mut i: usize = 0;
    while i <= last
        invariant
            n == s@.len(),
            pat@.len() >= 1,
            last < s@.len(),
            last == s@.len() - pat@.len(),
            pat@.len() <= s@.len(),
            i <= last + 1,
            forall|k: int| 0 <= k < i ==> !occurs_at(s@, pat@, k),
        decreases last + 1 - i,
    {
        if occurs_at_exec(s, pat, i) {
            assert(s@.subrange(i as int, i + pat@.len()) == pat@);
            return true;
        }
        i = i + 1;
    }
    assert forall|k: int|
        0 <= k && k + pat@.len() <= s@.len() implies #[trigger] s@.subrange(k, k + pat@.len())
        != pat@ by {
        assert(!occurs_at(s@, pat@, k));
    }
    false
}

/// The exit status that the extractor gives when a video has no audio to
/// extract.
pub const NO_AUDIO_EXIT_CODE: i32 = -22;

/// Whether a failed audio extraction stops the program: it does not when
/// the extractor exited with `NO_AUDIO_EXIT_CODE` or reported that its
/// output has no stream, in which case playback goes on without sound.
pub fn audio_failure_is_fatal(code: Option<i32>, stderr: &str) -> (r: bool)
    ensures
        r == !(code == Some(NO_AUDIO_EXIT_CODE) || contains_text(
            stderr@,
            "Output file does not contain any stream"@,
        )),
{
    if code == Some(NO_AUDIO_EXIT_CODE) {
        return false;
    }
    let s = chars_of(stderr);
    let pat = chars_of("Output file does not contain any stream");
    !contains_chars(&s, &pat)
}

} // verus!
