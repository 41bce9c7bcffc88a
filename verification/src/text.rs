//! Verified text utilities shared by the managers: blankness tests,
//! decimal rendering of identifiers and timestamps, joining segment
//! texts, and case-insensitive language-tag comparison.

use vstd::prelude::*;
use vstd::string::StrSliceExecFns;
use vstd::string::StringExecFns;

verus! {

/// Relies on `String::push`: appends the given character to the end of
/// the string (vstd specifies `String` but not this method).
pub assume_specification[ String::push ](s: &mut String, ch: char)
    ensures
        final(s)@ == old(s)@.push(ch),
;

/// The characters `str::trim` strips: Unicode code points with the
/// `White_Space` property.
pub open spec fn is_space_char(c: char) -> bool {
    c == ' ' || c == '\t' || c == '\n' || c == '\r' || c == '\u{000B}' || c == '\u{000C}'
        || c == '\u{0085}' || c == '\u{00A0}' || c == '\u{1680}' || c == '\u{2000}'
        || c == '\u{2001}' || c == '\u{2002}' || c == '\u{2003}' || c == '\u{2004}'
        || c == '\u{2005}' || c == '\u{2006}' || c == '\u{2007}' || c == '\u{2008}'
        || c == '\u{2009}' || c == '\u{200A}' || c == '\u{2028}' || c == '\u{2029}'
        || c == '\u{202F}' || c == '\u{205F}' || c == '\u{3000}'
}

/// A string is blank when trimming it would leave nothing: every
/// character is whitespace.
pub open spec fn blank(s: Seq<char>) -> bool {
    forall|i: int| 0 <= i < s.len() ==> is_space_char(s[i])
}

fn is_space(c: char) -> (r: bool)
    ensures
        r == is_space_char(c),
{
    c == ' ' || c == '\t' || c == '\n' || c == '\r' || c == '\u{000B}' || c == '\u{000C}'
        || c == '\u{0085}' || c == '\u{00A0}' || c == '\u{1680}' || c == '\u{2000}'
        || c == '\u{2001}' || c == '\u{2002}' || c == '\u{2003}' || c == '\u{2004}'
        || c == '\u{2005}' || c == '\u{2006}' || c == '\u{2007}' || c == '\u{2008}'
        || c == '\u{2009}' || c == '\u{200A}' || c == '\u{2028}' || c == '\u{2029}'
        || c == '\u{202F}' || c == '\u{205F}' || c == '\u{3000}'
}

/// Whether `s` consists of whitespace only (the test the chunk
/// processor applies before recording a segment).
pub fn is_blank(s: &str) -> (r: bool)
    ensures
        r == blank(s@),
{
    let n = s.unicode_len();
    let mut i: usize = 0;
    while i < n
        invariant
            n == s@.len(),
            0 <= i <= n,
            forall|j: int| 0 <= j < i ==> is_space_char(s@[j]),
        decreases n - i,
    {
        if !is_space(s.get_char(i)) {
            return false;
        }
        i = i + 1;
    }
    true
}

/// The decimal digit character for `d` in `0 ..= 9`.
pub open spec fn digit_char(d: int) -> char {
    if d == 0 { '0' }
    else if d == 1 { '1' }
    else if d == 2 { '2' }
    else if d == 3 { '3' }
    else if d == 4 { '4' }
    else if d == 5 { '5' }
    else if d == 6 { '6' }
    else if d == 7 { '7' }
    else if d == 8 { '8' }
    else { '9' }
}

fn digit_to_char(d: u64) -> (c: char)
    requires
        d < 10,
    ensures
        c == digit_char(d as int),
{
    if d == 0 { '0' }
    else if d == 1 { '1' }
    else if d == 2 { '2' }
    else if d == 3 { '3' }
    else if d == 4 { '4' }
    else if d == 5 { '5' }
    else if d == 6 { '6' }
    else if d == 7 { '7' }
    else if d == 8 { '8' }
    else { '9' }
}

/// Decimal rendering of an unsigned number, most significant digit
/// first, with no leading zeros (a single `'0'` for zero).
pub open spec fn dec_str(n: nat) -> Seq<char>
    decreases n,
{
    if n < 10 {
        seq![digit_char(n as int)]
    } else {
        dec_str(n / 10) + seq![digit_char((n % 10) as int)]
    }
}

/// Decimal rendering of a signed number: a leading `'-'` for negative
/// values, then the digits of the magnitude.
pub open spec fn dec_str_signed(v: int) -> Seq<char> {
    if v >= 0 {
        dec_str(v as nat)
    } else {
        seq!['-'] + dec_str((-v) as nat)
    }
}

fn push_dec(n: u64, out: &mut String)
    ensures
        final(out)@ == old(out)@ + dec_str(n as nat),
    decreases n,
{
    if n >= 10 {
        push_dec(n / 10, out);
    }
    let c = digit_to_char(n % 10);
    out.push(c);
    proof {
        if n < 10 {
            assert(final(out)@ =~= old(out)@ + dec_str(n as nat));
        } else {
            assert(final(out)@ =~= old(out)@ + (dec_str((n / 10) as nat) + seq![
                digit_char((n % 10) as int),
            ]));
        }
    }
}

fn push_dec_signed(v: i64, out: &mut String)
    ensures
        final(out)@ == old(out)@ + dec_str_signed(v as int),
{
    if v >= 0 {
        push_dec(v as u64, out);
    } else {
        out.push('-');
        let m: u64 = ((-(v + 1)) as u64) + 1;
        assert(m == -(v as int));
        push_dec(m, out);
        assert(final(out)@ =~= old(out)@ + dec_str_signed(v as int));
    }
}

/// Renders a signed number in decimal, the shape identifiers and
/// timestamps take in titles and file names.
pub fn decimal_string(v: i64) -> (r: String)
    ensures
        r@ == dec_str_signed(v as int),
{
    let mut r = String::new();
    push_dec_signed(v, &mut r);
    assert(r@ =~= dec_str_signed(v as int));
    r
}

/// Builds `{prefix}{timestamp}.wav`, the shape of every recording file
/// name the backend produces.
pub fn wav_file_name(prefix: &str, timestamp: i64) -> (r: String)
    ensures
        r@ == prefix@ + dec_str_signed(timestamp as int) + ".wav"@,
{
    let mut r = prefix.to_owned();
    push_dec_signed(timestamp, &mut r);
    r.append(".wav");
    assert(r@ =~= prefix@ + dec_str_signed(timestamp as int) + ".wav"@);
    r
}

/// The texts of a session joined with single spaces, in order; empty
/// when there are no texts.
pub open spec fn joined(texts: Seq<Seq<char>>) -> Seq<char>
    decreases texts.len(),
{
    if texts.len() == 0 {
        Seq::empty()
    } else if texts.len() == 1 {
        texts[0]
    } else {
        joined(texts.drop_last()) + seq![' '] + texts.last()
    }
}

/// Space-joins a list of strings, as the stop path does with segment
/// texts to build the history transcript.
pub fn join_with_spaces(texts: &Vec<String>) -> (r: String)
    ensures
        r@ == joined(texts.deep_view()),
{
    let mut r = String::new();
    let n = texts.len();
    let mut i: usize = 0;
    while i < n
        invariant
            n == texts@.len(),
            0 <= i <= n,
            r@ == joined(texts.deep_view().take(i as int)),
        decreases n - i,
    {
        if i > 0 {
            r.push(' ');
        }
        r.append(texts[i].as_str());
        proof {
            let tv = texts.deep_view();
            assert(tv.take(i + 1).drop_last() =~= tv.take(i as int));
            assert(tv.take(i + 1).last() == tv[i as int]);
            assert(r@ =~= joined(tv.take(i + 1)));
        }
        i = i + 1;
    }
    assert(texts.deep_view().take(n as int) =~= texts.deep_view());
    r
}

/// Case-insensitive match (over the two cases of each Latin letter)
/// against `"en"` or `"english"`: the routing test that picks the
/// transcription engine's native translation path.
pub open spec fn english_tag(s: Seq<char>) -> bool {
    (s.len() == 2 && (s[0] == 'e' || s[0] == 'E') && (s[1] == 'n' || s[1] == 'N')) || (s.len() == 7
        && (s[0] == 'e' || s[0] == 'E') && (s[1] == 'n' || s[1] == 'N') && (s[2] == 'g' || s[2]
        == 'G') && (s[3] == 'l' || s[3] == 'L') && (s[4] == 'i' || s[4] == 'I') && (s[5] == 's'
        || s[5] == 'S') && (s[6] == 'h' || s[6] == 'H'))
}

/// Whether the requested target language names English.
pub fn is_english_tag(s: &str) -> (r: bool)
    ensures
        r == english_tag(s@),
{
    let n = s.unicode_len();
    if n == 2 {
        let c0 = s.get_char(0);
        let c1 = s.get_char(1);
        (c0 == 'e' || c0 == 'E') && (c1 == 'n' || c1 == 'N')
    } else if n == 7 {
        let c0 = s.get_char(0);
        let c1 = s.get_char(1);
        let c2 = s.get_char(2);
        let c3 = s.get_char(3);
        let c4 = s.get_char(4);
        let c5 = s.get_char(5);
        let c6 = s.get_char(6);
        (c0 == 'e' || c0 == 'E') && (c1 == 'n' || c1 == 'N') && (c2 == 'g' || c2 == 'G') && (c3
            == 'l' || c3 == 'L') && (c4 == 'i' || c4 == 'I') && (c5 == 's' || c5 == 'S') && (c6
            == 'h' || c6 == 'H')
    } else {
        false
    }
}

} // verus!
