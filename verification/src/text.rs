//! Character-level building blocks: searching, line and word splitting,
//! decimal rendering, and conversions between strings and character slices.
//!
//! Every specification here is stated over `Seq<char>`, the view of a string.

use vstd::prelude::*;
use vstd::slice::slice_subrange;
use vstd::utf8::*;

verus! {

/// The code points that carry the Unicode `White_Space` property.
pub open spec fn is_space(c: char) -> bool {
    let u: u32 = c as u32;
    ||| 0x09 <= u <= 0x0D
    ||| u == 0x20
    ||| u == 0x85
    ||| u == 0xA0
    ||| u == 0x1680
    ||| 0x2000 <= u <= 0x200A
    ||| u == 0x2028
    ||| u == 0x2029
    ||| u == 0x202F
    ||| u == 0x205F
    ||| u == 0x3000
}

/// Decides whether `c` separates words.
pub fn is_whitespace(c: char) -> (b: bool)
    ensures
        b == is_space(c),
{
    let u: u32 = c as u32;
    (0x09 <= u && u <= 0x0D) || u == 0x20 || u == 0x85 || u == 0xA0 || u == 0x1680 || (0x2000 <= u
        && u <= 0x200A) || u == 0x2028 || u == 0x2029 || u == 0x202F || u == 0x205F || u == 0x3000
}

/// `pat` stands in `s` at index `i`.
pub open spec fn occurs_at(s: Seq<char>, pat: Seq<char>, i: int) -> bool {
    &&& 0 <= i
    &&& i + pat.len() <= s.len()
    &&& s.subrange(i, i + pat.len()) == pat
}

/// `pat` stands in `s` at index `i` and at no smaller index.
pub open spec fn is_first_match(s: Seq<char>, pat: Seq<char>, i: int) -> bool {
    &&& occurs_at(s, pat, i)
    &&& forall|j: int| 0 <= j < i ==> !occurs_at(s, pat, j)
}

/// The index of the leftmost occurrence of `pat` in `s`, if there is one.
pub open spec fn first_match(s: Seq<char>, pat: Seq<char>) -> Option<int> {
    if exists|i: int| is_first_match(s, pat, i) {
        Some(choose|i: int| is_first_match(s, pat, i))
    } else {
        None
    }
}

/// A leftmost occurrence is the value of `first_match`.
pub proof fn lemma_first_match_is(s: Seq<char>, pat: Seq<char>, i: int)
    requires
        is_first_match(s, pat, i),
    ensures
        first_match(s, pat) == Some(i),
{
    let k = choose|k: int| is_first_match(s, pat, k);
    assert(is_first_match(s, pat, k));
    if k < i {
        assert(!occurs_at(s, pat, k));
    } else if i < k {
        assert(!occurs_at(s, pat, i));
    }
}

/// Where `pat` occurs nowhere, `first_match` is `None`.
pub proof fn lemma_first_match_none(s: Seq<char>, pat: Seq<char>)
    requires
        forall|j: int| !occurs_at(s, pat, j),
    ensures
        first_match(s, pat) is None,
{
}

/// What `first_match` returns is a leftmost occurrence, and `None` means no occurrence.
pub proof fn lemma_first_match_sound(s: Seq<char>, pat: Seq<char>)
    ensures
        match first_match(s, pat) {
            Some(i) => is_first_match(s, pat, i),
            None => forall|j: int| !occurs_at(s, pat, j),
        },
{
    if first_match(s, pat) is None {
        assert forall|j: int| !occurs_at(s, pat, j) by {
            if occurs_at(s, pat, j) {
                lemma_some_occurrence_has_first(s, pat, j);
            }
        }
    }
}

/// Among the occurrences up to `j` one is leftmost.
proof fn lemma_some_occurrence_has_first(s: Seq<char>, pat: Seq<char>, j: int)
    requires
        occurs_at(s, pat, j),
    ensures
        exists|i: int| is_first_match(s, pat, i),
    decreases j,
{
    if exists|k: int| 0 <= k < j && occurs_at(s, pat, k) {
        let k = choose|k: int| 0 <= k < j && occurs_at(s, pat, k);
        lemma_some_occurrence_has_first(s, pat, k);
    } else {
        assert(is_first_match(s, pat, j));
    }
}

/// The first place at which a character stands is the leftmost occurrence
/// of the pattern that holds this character alone.
pub proof fn lemma_first_match_char(s: Seq<char>, c: char, i: int)
    requires
        0 <= i < s.len(),
        s[i] == c,
        forall|j: int| 0 <= j < i ==> s[j] != c,
    ensures
        first_match(s, seq![c]) == Some(i),
{
    assert(s.subrange(i, i + 1) =~= seq![c]);
    assert forall|j: int| 0 <= j < i implies !occurs_at(s, seq![c], j) by {
        if occurs_at(s, seq![c], j) {
            assert(s.subrange(j, j + 1)[0] == s[j]);
        }
    }
    lemma_first_match_is(s, seq![c], i);
}

/// A character that stands nowhere in `s` has no occurrence as a pattern.
pub proof fn lemma_first_match_char_none(s: Seq<char>, c: char)
    requires
        forall|j: int| 0 <= j < s.len() ==> s[j] != c,
    ensures
        first_match(s, seq![c]) is None,
{
    assert forall|j: int| !occurs_at(s, seq![c], j) by {
        if occurs_at(s, seq![c], j) {
            assert(s.subrange(j, j + 1)[0] == s[j]);
        }
    }
}

/// Finds the leftmost occurrence of `pat` in `s`.
pub fn find(s: &[char], pat: &[char]) -> (r: Option<usize>)
    ensures
        match r {
            Some(i) => first_match(s@, pat@) == Some(i as int),
            None => first_match(s@, pat@) is None,
        },
{
    let n: usize = s.len();
    let m: usize = pat.len();
    if m > n {
        proof {
            lemma_first_match_none(s@, pat@);
        }
        return None;
    }
    let last: usize = n - m;
    let mut i: usize = 0;
    while i <= last
        invariant
            n == s@.len(),
            m == pat@.len(),
            m <= n,
            last == n - m,
            0 <= i <= last + 1,
            forall|j: int| 0 <= j < i ==> !occurs_at(s@, pat@, j),
        decreases last + 1 - i,
    {
        let mut k: usize = 0;
        while k < m && s[i + k] == pat[k]
            invariant
                n == s@.len(),
                m == pat@.len(),
                i + m <= n,
                0 <= k <= m,
                forall|t: int| 0 <= t < k ==> s@[i + t] == pat@[t],
            decreases m - k,
        {
            k = k + 1;
        }
        if k == m {
            proof {
                assert(s@.subrange(i as int, i + m) =~= pat@);
                lemma_first_match_is(s@, pat@, i as int);
            }
            return Some(i);
        }
        proof {
            assert(s@.subrange(i as int, i + m)[k as int] == s@[i + k]);
        }
        i = i + 1;
    }
    proof {
        lemma_first_match_none(s@, pat@);
    }
    None
}

/// Decides whether `s` begins with `prefix`.
pub fn starts_with(s: &[char], prefix: &[char]) -> (r: bool)
    ensures
        r == occurs_at(s@, prefix@, 0),
{
    let m: usize = prefix.len();
    if m > s.len() {
        return false;
    }
    let mut k: usize = 0;
    while k < m && s[k] == prefix[k]
        invariant
            m == prefix@.len(),
            m <= s@.len(),
            0 <= k <= m,
            forall|t: int| 0 <= t < k ==> s@[t] == prefix@[t],
        decreases m - k,
    {
        k = k + 1;
    }
    proof {
        if k == m {
            assert(s@.subrange(0, m as int) =~= prefix@);
        } else {
            assert(s@.subrange(0, m as int)[k as int] == s@[k as int]);
        }
    }
    k == m
}

/// The line feed, as a one-character pattern.
pub open spec fn line_feed() -> Seq<char> {
    seq!['\n']
}

/// `line` without one trailing carriage return, if it has one.
pub open spec fn strip_cr(line: Seq<char>) -> Seq<char> {
    if line.len() > 0 && line.last() == '\r' {
        line.drop_last()
    } else {
        line
    }
}

/// The lines of `s`. A line ends at a line feed; the line feed, and a carriage
/// return directly before it, belong to no line. Text after the last line feed
/// is a line of its own, kept as it is, unless it is empty.
pub open spec fn lines_of(s: Seq<char>) -> Seq<Seq<char>>
    decreases s.len(),
    via lines_of_decreases
{
    if s.len() == 0 {
        Seq::empty()
    } else {
        match first_match(s, line_feed()) {
            Some(i) => seq![strip_cr(s.take(i))] + lines_of(s.skip(i + 1)),
            None => seq![s],
        }
    }
}

#[via_fn]
proof fn lines_of_decreases(s: Seq<char>) {
    lemma_first_match_sound(s, line_feed());
}

/// Splits the first line off `s`: the line without its line ending, and all
/// that follows the line ending. An empty text has no line.
pub fn split_line(s: &[char]) -> (r: Option<(&[char], &[char])>)
    ensures
        match r {
            Some((line, rest)) => {
                &&& s@.len() > 0
                &&& match first_match(s@, line_feed()) {
                    Some(i) => line@ == strip_cr(s@.take(i)) && rest@ == s@.skip(i + 1),
                    None => line@ == s@ && rest@ == Seq::<char>::empty(),
                }
                &&& lines_of(s@) == seq![line@] + lines_of(rest@)
                &&& rest@.len() < s@.len()
            },
            None => s@.len() == 0 && lines_of(s@) == Seq::<Seq<char>>::empty(),
        },
{
    let len: usize = s.len();
    if len == 0 {
        return None;
    }
    let pat: [char; 1] = ['\n'];
    proof {
        assert(pat@ =~= line_feed());
        lemma_first_match_sound(s@, line_feed());
    }
    match find(s, pat.as_slice()) {
        Some(i) => {
            let mut end: usize = i;
            if end > 0 && s[end - 1] == '\r' {
                end = end - 1;
            }
            let line = slice_subrange(s, 0, end);
            let rest = slice_subrange(s, i + 1, len);
            proof {
                assert(line@ =~= strip_cr(s@.take(i as int)));
                assert(rest@ =~= s@.skip(i + 1));
            }
            Some((line, rest))
        },
        None => {
            let rest = slice_subrange(s, len, len);
            proof {
                assert(rest@ =~= Seq::<char>::empty());
                assert(lines_of(rest@) =~= Seq::<Seq<char>>::empty());
                assert(seq![s@] + lines_of(rest@) =~= seq![s@]);
            }
            Some((s, rest))
        },
    }
}

/// The number of characters at the start of `s` that are white space (`space`
/// true) or that are not (`space` false).
pub open spec fn run_len(s: Seq<char>, space: bool) -> nat
    decreases s.len(),
{
    if s.len() > 0 && is_space(s[0]) == space {
        1 + run_len(s.drop_first(), space)
    } else {
        0
    }
}

/// A run is no longer than the text it starts.
pub proof fn lemma_run_len_bound(s: Seq<char>, space: bool)
    ensures
        run_len(s, space) <= s.len(),
        run_len(s, space) < s.len() ==> is_space(s[run_len(s, space) as int]) != space,
        forall|j: int| 0 <= j < run_len(s, space) ==> is_space(#[trigger] s[j]) == space,
    decreases s.len(),
{
    if s.len() > 0 && is_space(s[0]) == space {
        let t = s.drop_first();
        lemma_run_len_bound(t, space);
        assert forall|j: int| 0 <= j < run_len(s, space) implies is_space(#[trigger] s[j])
            == space by {
            if j > 0 {
                assert(s[j] == t[j - 1]);
            }
        }
        if run_len(s, space) < s.len() {
            assert(s[run_len(s, space) as int] == t[run_len(t, space) as int]);
        }
    }
}

/// A maximal run of `n` characters of one kind at the start of `s` has length `run_len`.
pub proof fn lemma_run_len_is(s: Seq<char>, space: bool, n: int)
    requires
        0 <= n <= s.len(),
        forall|j: int| 0 <= j < n ==> is_space(#[trigger] s[j]) == space,
        n < s.len() ==> is_space(s[n]) != space,
    ensures
        run_len(s, space) == n,
    decreases n,
{
    if n > 0 {
        let t = s.drop_first();
        assert forall|j: int| 0 <= j < n - 1 implies is_space(#[trigger] t[j]) == space by {
            assert(t[j] == s[j + 1]);
        }
        if n - 1 < t.len() {
            assert(t[n - 1] == s[n]);
        }
        lemma_run_len_is(t, space, n - 1);
    }
}

/// The words of `s`: its maximal runs of characters that are not white space,
/// from left to right.
pub open spec fn words_of(s: Seq<char>) -> Seq<Seq<char>>
    decreases s.len(),
    via words_of_decreases
{
    let t = s.skip(run_len(s, true) as int);
    if t.len() == 0 {
        Seq::empty()
    } else {
        let n = run_len(t, false);
        seq![t.take(n as int)] + words_of(t.skip(n as int))
    }
}

#[via_fn]
proof fn words_of_decreases(s: Seq<char>) {
    lemma_run_len_bound(s, true);
    let t = s.skip(run_len(s, true) as int);
    if t.len() != 0 {
        lemma_run_len_bound(t, false);
        assert(is_space(t[0]) == false) by {
            assert(t[0] == s[run_len(s, true) as int]);
        }
        assert(run_len(t, false) > 0);
    }
}

/// No word is empty, and no word holds white space.
pub proof fn lemma_words_are_words(s: Seq<char>, k: int)
    requires
        0 <= k < words_of(s).len(),
    ensures
        words_of(s)[k].len() > 0,
        forall|j: int| 0 <= j < words_of(s)[k].len() ==> !is_space(#[trigger] words_of(s)[k][j]),
    decreases s.len(),
{
    lemma_run_len_bound(s, true);
    let t = s.skip(run_len(s, true) as int);
    lemma_run_len_bound(t, false);
    let n = run_len(t, false);
    assert(is_space(t[0]) == false) by {
        assert(t[0] == s[run_len(s, true) as int]);
    }
    if k == 0 {
        assert forall|j: int| 0 <= j < t.take(n as int).len() implies !is_space(
            #[trigger] t.take(n as int)[j],
        ) by {
            assert(t.take(n as int)[j] == t[j]);
        }
    } else {
        lemma_words_are_words(t.skip(n as int), k - 1);
        assert(words_of(s)[k] == words_of(t.skip(n as int))[k - 1]);
    }
}

/// No line holds a line feed.
pub proof fn lemma_lines_are_lines(s: Seq<char>, k: int)
    requires
        0 <= k < lines_of(s).len(),
    ensures
        forall|j: int| 0 <= j < lines_of(s)[k].len() ==> #[trigger] lines_of(s)[k][j] != '\n',
    decreases s.len(),
{
    lemma_first_match_sound(s, line_feed());
    match first_match(s, line_feed()) {
        Some(i) => {
            if k == 0 {
                let line = strip_cr(s.take(i));
                assert forall|j: int| 0 <= j < line.len() implies #[trigger] line[j] != '\n' by {
                    if line[j] == '\n' {
                        assert(s[j] == '\n');
                        assert(s.subrange(j, j + 1) =~= line_feed());
                        assert(occurs_at(s, line_feed(), j));
                    }
                }
            } else {
                lemma_lines_are_lines(s.skip(i + 1), k - 1);
                assert(lines_of(s)[k] == lines_of(s.skip(i + 1))[k - 1]);
            }
        },
        None => {
            assert forall|j: int| 0 <= j < s.len() implies #[trigger] s[j] != '\n' by {
                if s[j] == '\n' {
                    assert(s.subrange(j, j + 1) =~= line_feed());
                    assert(occurs_at(s, line_feed(), j));
                }
            }
        },
    }
}

/// Counts the characters of one kind at the start of `s`.
pub fn scan_run(s: &[char], space: bool) -> (n: usize)
    ensures
        n == run_len(s@, space),
{
    let mut n: usize = 0;
    while n < s.len() && is_whitespace(s[n]) == space
        invariant
            0 <= n <= s@.len(),
            forall|j: int| 0 <= j < n ==> is_space(#[trigger] s@[j]) == space,
        decreases s@.len() - n,
    {
        n = n + 1;
    }
    proof {
        lemma_run_len_is(s@, space, n as int);
    }
    n
}

/// Splits the first word off `s`: the word, and all that follows it. Where
/// `s` holds white space only there is no word.
pub fn split_word(s: &[char]) -> (r: Option<(&[char], &[char])>)
    ensures
        ({
            let t = s@.skip(run_len(s@, true) as int);
            match r {
                Some((word, rest)) => {
                    &&& t.len() > 0
                    &&& word@ == t.take(run_len(t, false) as int)
                    &&& rest@ == t.skip(run_len(t, false) as int)
                },
                None => t.len() == 0,
            }
        }),
        match r {
            Some((word, rest)) => words_of(s@) == seq![word@] + words_of(rest@) && rest@.len()
                < s@.len(),
            None => words_of(s@) == Seq::<Seq<char>>::empty(),
        },
{
    let start: usize = scan_run(s, true);
    proof {
        lemma_run_len_bound(s@, true);
    }
    let t = slice_subrange(s, start, s.len());
    assert(t@ =~= s@.skip(run_len(s@, true) as int));
    if t.len() == 0 {
        None
    } else {
        let n: usize = scan_run(t, false);
        proof {
            lemma_run_len_bound(t@, false);
            assert(is_space(t@[0]) == false) by {
                assert(t@[0] == s@[run_len(s@, true) as int]);
            }
        }
        let word = slice_subrange(t, 0, n);
        let rest = slice_subrange(t, n, t.len());
        proof {
            assert(word@ =~= t@.take(n as int));
            assert(rest@ =~= t@.skip(n as int));
        }
        Some((word, rest))
    }
}

/// `String::push` of the standard library appends one character to the end
/// of the string and changes nothing else.
pub assume_specification[ String::push ](s: &mut String, ch: char)
    ensures
        final(s)@ == old(s)@.push(ch),
;

/// What `String::from_utf8_lossy` of the standard library makes of `bytes`.
pub uninterp spec fn lossy_text(bytes: Seq<u8>) -> Seq<char>;

/// Calls `String::from_utf8_lossy` of the standard library. The contract
/// gives the result the name `lossy_text`, and says that bytes that are
/// UTF-8 come out as the text that they encode.
#[verifier::external_body]
fn decode_lossy(bytes: &[u8]) -> (text: String)
    ensures
        text@ == lossy_text(bytes@),
        valid_utf8(bytes@) ==> text@ == decode_utf8(bytes@),
{
    String::from_utf8_lossy(bytes).into_owned()
}

/// The text that `bytes` are read as: the text that they encode where they
/// are UTF-8, and else what the lossy conversion of the standard library
/// makes of them.
pub open spec fn text_of_bytes(bytes: Seq<u8>) -> Seq<char> {
    if valid_utf8(bytes) {
        decode_utf8(bytes)
    } else {
        lossy_text(bytes)
    }
}

/// Reads bytes as text.
pub fn bytes_to_text(bytes: &[u8]) -> (text: String)
    ensures
        text@ == text_of_bytes(bytes@),
{
    decode_lossy(bytes)
}

/// Copies the characters of a string into a vector.
pub fn to_chars(s: &str) -> (v: Vec<char>)
    ensures
        v@ == s@,
{
    let mut v: Vec<char> = Vec::new();
    for c in it: s.chars()
        invariant
            it.seq() == s@,
            v@ == it.seq().take(it.index() as int),
    {
        v.push(c);
    }
    v
}

/// Builds a string from a slice of characters.
pub fn text_of(chars: &[char]) -> (s: String)
    ensures
        s@ == chars@,
{
    let mut s = String::new();
    let mut i: usize = 0;
    while i < chars.len()
        invariant
            0 <= i <= chars@.len(),
            s@ == chars@.take(i as int),
        decreases chars@.len() - i,
    {
        s.push(chars[i]);
        proof {
            assert(chars@.take(i + 1) =~= chars@.take(i as int).push(chars@[i as int]));
        }
        i = i + 1;
    }
    proof {
        assert(chars@.take(chars@.len() as int) =~= chars@);
    }
    s
}

/// Decides whether two strings hold the same characters.
pub fn same_text(a: &str, b: &str) -> (r: bool)
    ensures
        r == (a@ == b@),
{
    let x = a.as_bytes();
    let y = b.as_bytes();
    proof {
        encode_utf8_decode_utf8(a@);
        encode_utf8_decode_utf8(b@);
    }
    if x.len() != y.len() {
        return false;
    }
    let mut i: usize = 0;
    while i < x.len()
        invariant
            x@ == encode_utf8(a@),
            y@ == encode_utf8(b@),
            x@.len() == y@.len(),
            0 <= i <= x@.len(),
            forall|j: int| 0 <= j < i ==> x@[j] == y@[j],
        decreases x@.len() - i,
    {
        if x[i] != y[i] {
            proof {
                if a@ == b@ {
                    assert(x@[i as int] == y@[i as int]);
                }
            }
            return false;
        }
        i = i + 1;
    }
    proof {
        assert(x@ =~= y@);
    }
    true
}

/// The character that stands for a digit below ten.
pub open spec fn digit(d: nat) -> char {
    seq!['0', '1', '2', '3', '4', '5', '6', '7', '8', '9'][d as int]
}

/// `n` in decimal, most significant digit first, without leading zeros.
pub open spec fn decimal(n: nat) -> Seq<char>
    decreases n,
{
    if n < 10 {
        seq![digit(n)]
    } else {
        decimal(n / 10).push(digit(n % 10))
    }
}

fn digit_char(d: usize) -> (c: char)
    requires
        d < 10,
    ensures
        c == digit(d as nat),
{
    match d {
        0 => '0',
        1 => '1',
        2 => '2',
        3 => '3',
        4 => '4',
        5 => '5',
        6 => '6',
        7 => '7',
        8 => '8',
        _ => '9',
    }
}

/// Appends `n` in decimal to `out`.
pub fn push_decimal(out: &mut String, n: usize)
    ensures
        final(out)@ == old(out)@ + decimal(n as nat),
    decreases n,
{
    if n >= 10 {
        push_decimal(out, n / 10);
    }
    out.push(digit_char(n % 10));
    proof {
        if n >= 10 {
            assert(old(out)@ + decimal((n / 10) as nat).push(digit((n % 10) as nat)) =~= (old(
                out,
            )@ + decimal((n / 10) as nat)).push(digit((n % 10) as nat)));
        } else {
            assert(old(out)@ + seq![digit(n as nat)] =~= old(out)@.push(digit(n as nat)));
        }
    }
}

} // verus!
