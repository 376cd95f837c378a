//! Character-level helpers: line splitting, trimming, tokenising and
//! decimal index parsing, each stated against a spec function.
use vstd::prelude::*;
use vstd::std_specs::iter::IteratorSpec;

verus! {

/// ASCII whitespace: space, tab, line feed, form feed and carriage return.
pub open spec fn is_ascii_ws(c: char) -> bool {
    c == ' ' || c == '\t' || c == '\n' || c == '\x0C' || c == '\r'
}

/// Characters with the Unicode `White_Space` property.
pub open spec fn is_white_space(c: char) -> bool {
    ('\t' <= c && c <= '\r') || c == ' ' || c == '\u{85}' || c == '\u{A0}' || c == '\u{1680}'
        || ('\u{2000}' <= c && c <= '\u{200A}') || c == '\u{2028}' || c == '\u{2029}'
        || c == '\u{202F}' || c == '\u{205F}' || c == '\u{3000}'
}

pub open spec fn newline_stop() -> spec_fn(char) -> bool {
    |c: char| c == '\n'
}

pub open spec fn ws_stop() -> spec_fn(char) -> bool {
    |c: char| is_ascii_ws(c)
}

pub open spec fn slash_stop() -> spec_fn(char) -> bool {
    |c: char| c == '/'
}

/// The number of leading characters of `s` on which `stop` does not hold.
pub open spec fn run_len(s: Seq<char>, stop: spec_fn(char) -> bool) -> nat
    decreases s.len(),
{
    if s.len() == 0 || stop(s[0]) {
        0
    } else {
        1 + run_len(s.drop_first(), stop)
    }
}

pub proof fn lemma_run_len_bound(s: Seq<char>, stop: spec_fn(char) -> bool)
    ensures
        run_len(s, stop) <= s.len(),
        run_len(s, stop) < s.len() ==> stop(s[run_len(s, stop) as int]),
        forall|k: int| 0 <= k < run_len(s, stop) ==> !stop(#[trigger] s[k]),
    decreases s.len(),
{
    if s.len() > 0 && !stop(s[0]) {
        lemma_run_len_bound(s.drop_first(), stop);
        assert forall|k: int| 0 <= k < run_len(s, stop) implies !stop(#[trigger] s[k]) by {
            if k > 0 {
                assert(s[k] == s.drop_first()[k - 1]);
            }
        }
    }
}

/// `run_len` is the first position where `stop` holds, or the length.
pub proof fn lemma_run_len_is(s: Seq<char>, stop: spec_fn(char) -> bool, j: int)
    requires
        0 <= j <= s.len(),
        forall|k: int| 0 <= k < j ==> !stop(#[trigger] s[k]),
        j < s.len() ==> stop(s[j]),
    ensures
        run_len(s, stop) == j,
    decreases j,
{
    if j > 0 {
        assert forall|k: int| 0 <= k < j - 1 implies !stop(#[trigger] s.drop_first()[k]) by {
            assert(s.drop_first()[k] == s[k + 1]);
        }
        lemma_run_len_is(s.drop_first(), stop, j - 1);
    }
}

/// A line without its terminating carriage return, if it has one.
pub open spec fn strip_cr(l: Seq<char>) -> Seq<char> {
    if l.len() > 0 && l.last() == '\r' {
        l.drop_last()
    } else {
        l
    }
}

/// The lines of `s`: split at each line feed, a carriage return right before
/// the line feed dropped, with no empty line after a final line feed.
pub open spec fn lines(s: Seq<char>) -> Seq<Seq<char>>
    decreases s.len(),
    via lines_decreases
{
    if s.len() == 0 {
        seq![]
    } else {
        let n = run_len(s, newline_stop());
        if n < s.len() {
            seq![strip_cr(s.take(n as int))] + lines(s.skip(n + 1 as int))
        } else {
            seq![s]
        }
    }
}

#[via_fn]
proof fn lines_decreases(s: Seq<char>) {
    lemma_run_len_bound(s, newline_stop());
}

/// The maximal runs of characters that are not ASCII whitespace, in order.
pub open spec fn tokens(s: Seq<char>) -> Seq<Seq<char>>
    decreases s.len(),
    via tokens_decreases
{
    if s.len() == 0 {
        seq![]
    } else if is_ascii_ws(s[0]) {
        tokens(s.drop_first())
    } else {
        let n = run_len(s, ws_stop());
        seq![s.take(n as int)] + tokens(s.skip(n as int))
    }
}

#[via_fn]
proof fn tokens_decreases(s: Seq<char>) {
    lemma_run_len_bound(s, ws_stop());
    if s.len() > 0 && !is_ascii_ws(s[0]) {
        assert(run_len(s, ws_stop()) > 0);
    }
}

/// The pieces of `s` between slashes; an empty `s` is one empty piece.
pub open spec fn fields(s: Seq<char>) -> Seq<Seq<char>>
    decreases s.len(),
    via fields_decreases
{
    let n = run_len(s, slash_stop());
    if n < s.len() {
        seq![s.take(n as int)] + fields(s.skip(n + 1 as int))
    } else {
        seq![s]
    }
}

#[via_fn]
proof fn fields_decreases(s: Seq<char>) {
    lemma_run_len_bound(s, slash_stop());
}

/// `s` without its leading white space.
pub open spec fn trim_start(s: Seq<char>) -> Seq<char>
    decreases s.len(),
{
    if s.len() > 0 && is_white_space(s[0]) {
        trim_start(s.drop_first())
    } else {
        s
    }
}

/// `s` without its trailing white space.
pub open spec fn trim_end(s: Seq<char>) -> Seq<char>
    decreases s.len(),
{
    if s.len() > 0 && is_white_space(s.last()) {
        trim_end(s.drop_last())
    } else {
        s
    }
}

/// `s` without leading and trailing white space.
pub open spec fn trim(s: Seq<char>) -> Seq<char> {
    trim_end(trim_start(s))
}

/// The characters of `s`, in order.
pub fn chars_of(s: &str) -> (r: Vec<char>)
    ensures
        r@ == s@,
{
    let mut r: Vec<char> = Vec::new();
    let mut chars_it = s.chars();
    for c in it: chars_it
        invariant
            it.seq() == s@,
            r@ == it.seq().take(it.index() as int),
    {
        r.push(c);
    }
    proof {
        assert(r@ =~= s@);
    }
    r
}

/// Relies on `FromIterator<char> for String`: the string holds exactly the
/// given characters, in order.
#[verifier::external_body]
pub(crate) fn string_from_chars(c: &[char]) -> (r: String)
    ensures
        r@ == c@,
{
    c.iter().collect()
}

pub fn is_ascii_whitespace(c: char) -> (r: bool)
    ensures
        r == is_ascii_ws(c),
{
    c == ' ' || c == '\t' || c == '\n' || c == '\x0C' || c == '\r'
}

pub fn is_whitespace(c: char) -> (r: bool)
    ensures
        r == is_white_space(c),
{
    ('\t' <= c && c <= '\r') || c == ' ' || c == '\u{85}' || c == '\u{A0}' || c == '\u{1680}'
        || ('\u{2000}' <= c && c <= '\u{200A}') || c == '\u{2028}' || c == '\u{2029}'
        || c == '\u{202F}' || c == '\u{205F}' || c == '\u{3000}'
}

/// The characters of `s` from `lo` up to `hi`.
pub fn copy_range(s: &[char], lo: usize, hi: usize) -> (r: Vec<char>)
    requires
        lo <= hi <= s@.len(),
    ensures
        r@ == s@.subrange(lo as int, hi as int),
{
    let mut r: Vec<char> = Vec::new();
    let mut i: usize = lo;
    while i < hi
        invariant
            lo <= i <= hi <= s@.len(),
            r@ == s@.subrange(lo as int, i as int),
        decreases hi - i,
    {
        r.push(s[i]);
        i = i + 1;
        proof {
            assert(r@ =~= s@.subrange(lo as int, i as int));
        }
    }
    r
}

/// Splits `s` into lines as `lines` states.
pub fn split_lines(s: &[char]) -> (r: Vec<Vec<char>>)
    ensures
        r@.map_values(|l: Vec<char>| l@) == lines(s@),
{
    let mut r: Vec<Vec<char>> = Vec::new();
    let mut i: usize = 0;
    proof {
        assert(s@.skip(0) =~= s@);
        assert(r@.map_values(|l: Vec<char>| l@) + lines(s@) =~= lines(s@));
    }
    while i < s.len()
        invariant
            i <= s@.len(),
            r@.map_values(|l: Vec<char>| l@) + lines(s@.skip(i as int)) == lines(s@),
        decreases s@.len() - i,
    {
        let ghost rest = s@.skip(i as int);
        let mut j: usize = i;
        while j < s.len() && s[j] != '\n'
            invariant
                i <= j <= s@.len(),
                forall|k: int| i <= k < j ==> s@[k] != '\n',
            decreases s@.len() - j,
        {
            j = j + 1;
        }
        proof {
            lemma_run_len_is(rest, newline_stop(), j - i);
        }
        let ghost old_r = r@;
        if j < s.len() {
            let mut end: usize = j;
            if j > i && s[j - 1] == '\r' {
                end = j - 1;
            }
            let line = copy_range(s, i, end);
            proof {
                assert(line@ =~= strip_cr(rest.take(j - i)));
                assert(rest.skip(j - i + 1) =~= s@.skip(j + 1));
            }
            r.push(line);
            i = j + 1;
        } else {
            let line = copy_range(s, i, j);
            proof {
                assert(line@ =~= rest);
                assert(s@.skip(j as int) =~= seq![]);
            }
            r.push(line);
            i = j;
        }
        proof {
            assert(r@.map_values(|l: Vec<char>| l@) =~= old_r.map_values(|l: Vec<char>| l@).push(
                r@.last()@,
            ));
            assert(lines(s@.skip(i as int)) == lines(rest).skip(1)) by {
                if i == s@.len() {
                    assert(s@.skip(i as int) =~= seq![]);
                }
            }
            assert(r@.map_values(|l: Vec<char>| l@) + lines(s@.skip(i as int)) =~= old_r.map_values(
                |l: Vec<char>| l@,
            ) + lines(rest));
        }
    }
    proof {
        assert(s@.skip(i as int) =~= seq![]);
        assert(r@.map_values(|l: Vec<char>| l@) + lines(s@.skip(i as int)) =~= r@.map_values(
            |l: Vec<char>| l@,
        ));
    }
    r
}


/// Trims leading and trailing white space, as `trim` states.
pub fn trim_chars(s: &[char]) -> (r: Vec<char>)
    ensures
        r@ == trim(s@),
{
    let mut lo: usize = 0;
    proof {
        assert(s@.skip(0) =~= s@);
    }
    while lo < s.len() && is_whitespace(s[lo])
        invariant
            lo <= s@.len(),
            trim_start(s@.skip(lo as int)) == trim_start(s@),
        decreases s@.len() - lo,
    {
        proof {
            assert(s@.skip(lo as int).drop_first() =~= s@.skip(lo + 1));
        }
        lo = lo + 1;
    }
    proof {
        if lo == s@.len() {
            assert(s@.skip(lo as int) =~= seq![]);
        }
        assert(s@.subrange(lo as int, s@.len() as int) =~= s@.skip(lo as int));
    }
    let mut hi: usize = s.len();
    while hi > lo && is_whitespace(s[hi - 1])
        invariant
            lo <= hi <= s@.len(),
            trim_end(s@.subrange(lo as int, hi as int)) == trim(s@),
        decreases hi,
    {
        proof {
            assert(s@.subrange(lo as int, hi as int).drop_last() =~= s@.subrange(
                lo as int,
                hi - 1,
            ));
        }
        hi = hi - 1;
    }
    copy_range(s, lo, hi)
}

/// Splits `s` at runs of ASCII whitespace, as `tokens` states.
pub fn split_ascii_ws(s: &[char]) -> (r: Vec<Vec<char>>)
    ensures
        r@.map_values(|t: Vec<char>| t@) == tokens(s@),
{
    let mut r: Vec<Vec<char>> = Vec::new();
    let mut i: usize = 0;
    proof {
        assert(s@.skip(0) =~= s@);
        assert(r@.map_values(|t: Vec<char>| t@) + tokens(s@) =~= tokens(s@));
    }
    while i < s.len()
        invariant
            i <= s@.len(),
            r@.map_values(|t: Vec<char>| t@) + tokens(s@.skip(i as int)) == tokens(s@),
        decreases s@.len() - i,
    {
        let ghost rest = s@.skip(i as int);
        if is_ascii_whitespace(s[i]) {
            proof {
                assert(rest.drop_first() =~= s@.skip(i + 1));
            }
            i = i + 1;
        } else {
            let mut j: usize = i;
            while j < s.len() && !is_ascii_whitespace(s[j])
                invariant
                    i <= j <= s@.len(),
                    forall|k: int| i <= k < j ==> !is_ascii_ws(#[trigger] s@[k]),
                decreases s@.len() - j,
            {
                j = j + 1;
            }
            proof {
                lemma_run_len_is(rest, ws_stop(), j - i);
                assert(rest.take(j - i) =~= s@.subrange(i as int, j as int));
                assert(rest.skip(j - i) =~= s@.skip(j as int));
            }
            let ghost old_r = r@;
            let t = copy_range(s, i, j);
            r.push(t);
            i = j;
            proof {
                assert(r@.map_values(|t: Vec<char>| t@) =~= old_r.map_values(|t: Vec<char>| t@).push(
                    t@,
                ));
                assert(r@.map_values(|t: Vec<char>| t@) + tokens(s@.skip(i as int))
                    =~= old_r.map_values(|t: Vec<char>| t@) + tokens(rest));
            }
        }
    }
    proof {
        assert(s@.skip(i as int) =~= seq![]);
        assert(r@.map_values(|t: Vec<char>| t@) + tokens(s@.skip(i as int)) =~= r@.map_values(
            |t: Vec<char>| t@,
        ));
    }
    r
}

/// Splits `s` at each slash, as `fields` states.
pub fn split_slash(s: &[char]) -> (r: Vec<Vec<char>>)
    ensures
        r@.map_values(|f: Vec<char>| f@) == fields(s@),
{
    let mut r: Vec<Vec<char>> = Vec::new();
    let mut i: usize = 0;
    let mut done = false;
    proof {
        assert(s@.skip(0) =~= s@);
        assert(r@.map_values(|f: Vec<char>| f@) + fields(s@) =~= fields(s@));
    }
    while !done
        invariant
            i <= s@.len(),
            !done ==> r@.map_values(|f: Vec<char>| f@) + fields(s@.skip(i as int)) == fields(s@),
            done ==> r@.map_values(|f: Vec<char>| f@) == fields(s@),
        decreases 2 * (s@.len() - i) + (if done { 0int } else { 1int }),
    {
        let ghost rest = s@.skip(i as int);
        let mut j: usize = i;
        while j < s.len() && s[j] != '/'
            invariant
                i <= j <= s@.len(),
                forall|k: int| i <= k < j ==> s@[k] != '/',
            decreases s@.len() - j,
        {
            j = j + 1;
        }
        proof {
            lemma_run_len_is(rest, slash_stop(), j - i);
            assert(rest.take(j - i) =~= s@.subrange(i as int, j as int));
        }
        let ghost old_r = r@;
        let f = copy_range(s, i, j);
        r.push(f);
        proof {
            assert(r@.map_values(|f: Vec<char>| f@) =~= old_r.map_values(|f: Vec<char>| f@).push(
                f@,
            ));
        }
        if j < s.len() {
            proof {
                assert(rest.skip(j - i + 1) =~= s@.skip(j + 1));
                assert(r@.map_values(|f: Vec<char>| f@) + fields(s@.skip(j + 1)) =~= old_r.map_values(
                    |f: Vec<char>| f@,
                ) + fields(rest));
            }
            i = j + 1;
        } else {
            proof {
                assert(rest =~= s@.subrange(i as int, j as int));
                assert(r@.map_values(|f: Vec<char>| f@) =~= old_r.map_values(|f: Vec<char>| f@)
                    + fields(rest));
            }
            done = true;
        }
    }
    r
}

pub open spec fn is_digit(c: char) -> bool {
    '0' <= c && c <= '9'
}

/// The value of a run of decimal digits, most significant first.
pub open spec fn decimal_value(d: Seq<char>) -> int
    decreases d.len(),
{
    if d.len() == 0 {
        0
    } else {
        decimal_value(d.drop_last()) * 10 + (d.last() as int - '0' as int)
    }
}

/// The digits of an index, after an optional leading plus sign.
pub open spec fn unsigned_digits(s: Seq<char>) -> Seq<char> {
    if s.len() > 0 && s[0] == '+' {
        s.drop_first()
    } else {
        s
    }
}

/// What reading `s` as a decimal `usize` gives: an optional plus sign and at
/// least one digit, with a value that fits.
pub open spec fn parse_index(s: Seq<char>) -> Option<usize> {
    let d = unsigned_digits(s);
    if d.len() > 0 && (forall|k: int| 0 <= k < d.len() ==> is_digit(#[trigger] d[k]))
        && decimal_value(d) <= usize::MAX {
        Some(decimal_value(d) as usize)
    } else {
        None
    }
}

proof fn lemma_decimal_mono(d: Seq<char>, k: int)
    requires
        0 <= k <= d.len(),
        forall|m: int| 0 <= m < d.len() ==> is_digit(#[trigger] d[m]),
    ensures
        0 <= decimal_value(d.take(k)) <= decimal_value(d),
    decreases d.len(),
{
    if d.len() > 0 {
        let p = d.drop_last();
        if k < d.len() {
            assert(p.take(k) =~= d.take(k));
            lemma_decimal_mono(p, k);
        } else {
            assert(d.take(k) =~= d);
            assert(p.take(p.len() as int) =~= p);
            lemma_decimal_mono(p, p.len() as int);
        }
    } else {
        assert(d.take(k) =~= d);
    }
}

/// Reads `s` as a decimal index, as `parse_index` states.
pub fn parse_index_chars(s: &[char]) -> (r: Option<usize>)
    ensures
        r == parse_index(s@),
{
    let start: usize = if s.len() > 0 && s[0] == '+' {
        1
    } else {
        0
    };
    let ghost d = unsigned_digits(s@);
    proof {
        assert(d =~= s@.subrange(start as int, s@.len() as int));
    }
    if start == s.len() {
        return None;
    }
    let mut v: usize = 0;
    let mut i: usize = start;
    proof {
        assert(d.take(0) =~= seq![]);
    }
    while i < s.len()
        invariant
            start <= i <= s@.len(),
            d == s@.subrange(start as int, s@.len() as int),
            d == unsigned_digits(s@),
            forall|k: int| 0 <= k < i - start ==> is_digit(#[trigger] d[k]),
            v == decimal_value(d.take(i - start)),
        decreases s@.len() - i,
    {
        let c = s[i];
        if !('0' <= c && c <= '9') {
            proof {
                assert(!is_digit(d[i - start]));
                assert(!(forall|k: int| 0 <= k < d.len() ==> is_digit(#[trigger] d[k])));
            }
            return None;
        }
        proof {
            assert(d.take(i + 1 - start).drop_last() =~= d.take(i - start));
        }
        let digit = (c as u32 - '0' as u32) as usize;
        let next = match v.checked_mul(10) {
            Some(m) => m.checked_add(digit),
            None => None,
        };
        match next {
            Some(n) => {
                proof {
                    assert(d.take(i + 1 - start).last() == c);
                }
                v = n;
                i = i + 1;
            },
            None => {
                proof {
                    assert(d.take(i + 1 - start).last() == c);
                    assert(decimal_value(d.take(i + 1 - start)) > usize::MAX);
                    if forall|k: int| 0 <= k < d.len() ==> is_digit(#[trigger] d[k]) {
                        lemma_decimal_mono(d, i + 1 - start);
                    }
                }
                return None;
            },
        }
    }
    proof {
        assert(d.take(i - start) =~= d);
    }
    Some(v)
}

} // verus!
