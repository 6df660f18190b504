//! Text primitives over character sequences, each with the meaning that the
//! corresponding `str` operation of the standard library has.
use vstd::prelude::*;
use vstd::std_specs::iter::IteratorSpec;

verus! {

// ------------------------------------------------------------------ std items

/// What `str::to_lowercase` returns for a text (Unicode lowercase mapping).
pub uninterp spec fn lowercase_of(s: Seq<char>) -> Seq<char>;

/// `str::to_lowercase`: the result is the Unicode lowercase mapping of the
/// text, a function of the text alone.
pub assume_specification[ str::to_lowercase ](s: &str) -> (r: String)
    ensures
        r@ == lowercase_of(s@),
;

/// `String::push`: appends one character at the end.
pub assume_specification[ String::push ](string: &mut String, ch: char)
    ensures
        final(string)@ == old(string)@.push(ch),
;

// ------------------------------------------------------------------ spec model

/// The Unicode `White_Space` property, as `char::is_whitespace` tests it.
pub open spec fn is_ws(c: char) -> bool {
    let u = c as u32;
    ||| 0x9 <= u <= 0xd
    ||| u == 0x20
    ||| u == 0x85
    ||| u == 0xa0
    ||| u == 0x1680
    ||| 0x2000 <= u <= 0x200a
    ||| u == 0x2028
    ||| u == 0x2029
    ||| u == 0x202f
    ||| u == 0x205f
    ||| u == 0x3000
}

/// Leading characters that satisfy `p` removed.
pub open spec fn drop_lead(s: Seq<char>, p: spec_fn(char) -> bool) -> Seq<char>
    decreases s.len(),
{
    if s.len() > 0 && p(s[0]) {
        drop_lead(s.drop_first(), p)
    } else {
        s
    }
}

/// Trailing characters that satisfy `p` removed.
pub open spec fn drop_trail(s: Seq<char>, p: spec_fn(char) -> bool) -> Seq<char>
    decreases s.len(),
{
    if s.len() > 0 && p(s.last()) {
        drop_trail(s.drop_last(), p)
    } else {
        s
    }
}

pub open spec fn ws_pred() -> spec_fn(char) -> bool {
    |c: char| is_ws(c)
}

pub open spec fn eq_pred(c: char) -> spec_fn(char) -> bool {
    |x: char| x == c
}

/// `str::trim`.
pub open spec fn trim(s: Seq<char>) -> Seq<char> {
    drop_trail(drop_lead(s, ws_pred()), ws_pred())
}

/// `str::trim_start_matches(c)`.
pub open spec fn trim_start_char(s: Seq<char>, c: char) -> Seq<char> {
    drop_lead(s, eq_pred(c))
}

/// `str::trim_matches(c)`.
pub open spec fn trim_char(s: Seq<char>, c: char) -> Seq<char> {
    drop_trail(drop_lead(s, eq_pred(c)), eq_pred(c))
}

/// `pat` stands in `s` at index `i`.
pub open spec fn occurs_at(s: Seq<char>, pat: Seq<char>, i: int) -> bool {
    &&& 0 <= i
    &&& i + pat.len() <= s.len()
    &&& s.subrange(i, i + pat.len()) == pat
}

/// The first index, from `i` on, where `pat` stands in `s`.
pub open spec fn find_from(s: Seq<char>, pat: Seq<char>, i: int) -> Option<int>
    decreases s.len() + 1 - i,
{
    if i < 0 || i + pat.len() > s.len() {
        None
    } else if occurs_at(s, pat, i) {
        Some(i)
    } else {
        find_from(s, pat, i + 1)
    }
}

/// `str::find`.
pub open spec fn find(s: Seq<char>, pat: Seq<char>) -> Option<int> {
    find_from(s, pat, 0)
}

/// `str::contains`.
pub open spec fn contains(s: Seq<char>, pat: Seq<char>) -> bool {
    find(s, pat) is Some
}

/// `str::split_once`: the text before and after the first occurrence.
pub open spec fn split_once(s: Seq<char>, pat: Seq<char>) -> Option<(Seq<char>, Seq<char>)> {
    match find(s, pat) {
        Some(i) => Some((s.take(i), s.skip(i + pat.len()))),
        None => None,
    }
}

/// A line with its carriage return removed, where it ended with one.
pub open spec fn strip_cr(l: Seq<char>) -> Seq<char> {
    if l.len() > 0 && l.last() == '\r' {
        l.drop_last()
    } else {
        l
    }
}

/// The lines of `s`, given that the current line so far is `cur`.
pub open spec fn lines_from(s: Seq<char>, cur: Seq<char>) -> Seq<Seq<char>>
    decreases s.len(),
{
    if s.len() == 0 {
        if cur.len() == 0 {
            seq![]
        } else {
            seq![cur]
        }
    } else if s[0] == '\n' {
        seq![strip_cr(cur)] + lines_from(s.drop_first(), seq![])
    } else {
        lines_from(s.drop_first(), cur.push(s[0]))
    }
}

/// The texts held by a sequence of character vectors.
pub open spec fn views(v: Seq<Vec<char>>) -> Seq<Seq<char>> {
    v.map_values(|x: Vec<char>| x@)
}

/// `str::lines`: split at `\n`, a `\r` before it removed, no final empty line.
pub open spec fn lines(s: Seq<char>) -> Seq<Seq<char>> {
    lines_from(s, seq![])
}

/// The pieces of `s` between separators, given the current piece `cur`.
pub open spec fn split_from(s: Seq<char>, seps: Seq<char>, cur: Seq<char>) -> Seq<Seq<char>>
    decreases s.len(),
{
    if s.len() == 0 {
        seq![cur]
    } else if seps.contains(s[0]) {
        seq![cur] + split_from(s.drop_first(), seps, seq![])
    } else {
        split_from(s.drop_first(), seps, cur.push(s[0]))
    }
}

/// `str::split` with a character predicate: every piece, empty ones too.
pub open spec fn split_any(s: Seq<char>, seps: Seq<char>) -> Seq<Seq<char>> {
    split_from(s, seps, seq![])
}

pub open spec fn is_digit(c: char) -> bool {
    0x30 <= (c as u32) <= 0x39
}

pub open spec fn digit_val(c: char) -> int {
    (c as u32) - 0x30
}

pub open spec fn all_digits(s: Seq<char>) -> bool {
    forall|i: int| 0 <= i < s.len() ==> is_digit(#[trigger] s[i])
}

/// The value of a run of decimal digits.
pub open spec fn digits_value(s: Seq<char>) -> int
    decreases s.len(),
{
    if s.len() == 0 {
        0
    } else {
        digits_value(s.drop_last()) * 10 + digit_val(s.last())
    }
}

/// `i64::from_str`: an optional sign, then one or more digits, in range.
pub open spec fn parse_i64(s: Seq<char>) -> Option<int> {
    let signed = s.len() > 0 && (s[0] == '+' || s[0] == '-');
    let body = if signed {
        s.drop_first()
    } else {
        s
    };
    let v = if signed && s[0] == '-' {
        -digits_value(body)
    } else {
        digits_value(body)
    };
    if body.len() > 0 && all_digits(body) && i64::MIN <= v <= i64::MAX {
        Some(v)
    } else {
        None
    }
}

/// `s` with every `c` taken out (`str::replace(c, "")`).
pub open spec fn remove_char(s: Seq<char>, c: char) -> Seq<char>
    decreases s.len(),
{
    if s.len() == 0 {
        s
    } else if s.last() == c {
        remove_char(s.drop_last(), c)
    } else {
        remove_char(s.drop_last(), c).push(s.last())
    }
}

pub open spec fn ascii_lower(c: char) -> char {
    if 'A' <= c <= 'Z' {
        ((c as u32) + 32) as char
    } else {
        c
    }
}

/// `str::eq_ignore_ascii_case`.
pub open spec fn eq_ignore_ascii_case(a: Seq<char>, b: Seq<char>) -> bool {
    &&& a.len() == b.len()
    &&& forall|i: int| 0 <= i < a.len() ==> ascii_lower(#[trigger] a[i]) == ascii_lower(b[i])
}

/// The decimal digits of `n`.
pub open spec fn dec(n: nat) -> Seq<char>
    decreases n,
{
    if n < 10 {
        seq![digit_char(n)]
    } else {
        dec(n / 10).push(digit_char(n % 10))
    }
}

pub open spec fn digit_char(n: nat) -> char {
    (('0' as u32) + n) as char
}

/// `n` in decimal, padded on the left with zeros to at least `w` characters.
pub open spec fn dec_pad(n: nat, w: nat) -> Seq<char> {
    let d = dec(n);
    if d.len() < w {
        Seq::new((w - d.len()) as nat, |i: int| '0') + d
    } else {
        d
    }
}

// ------------------------------------------------------------------ lemmas

pub proof fn lemma_drop_lead_step(s: Seq<char>, p: spec_fn(char) -> bool, i: int)
    requires
        0 <= i < s.len(),
        p(s[i]),
    ensures
        drop_lead(s.skip(i), p) == drop_lead(s.skip(i + 1), p),
{
    assert(s.skip(i).drop_first() =~= s.skip(i + 1));
}

pub proof fn lemma_drop_trail_step(s: Seq<char>, p: spec_fn(char) -> bool, i: int, j: int)
    requires
        0 <= i < j <= s.len(),
        p(s[j - 1]),
    ensures
        drop_trail(s.subrange(i, j), p) == drop_trail(s.subrange(i, j - 1), p),
{
    assert(s.subrange(i, j).drop_last() =~= s.subrange(i, j - 1));
}

pub proof fn lemma_find_from_found(s: Seq<char>, pat: Seq<char>, i: int, j: int)
    requires
        0 <= i <= j,
        forall|k: int| i <= k < j ==> !occurs_at(s, pat, k),
        occurs_at(s, pat, j),
    ensures
        find_from(s, pat, i) == Some(j),
    decreases j - i,
{
    if i < j {
        lemma_find_from_found(s, pat, i + 1, j);
    }
}

pub proof fn lemma_find_from_none(s: Seq<char>, pat: Seq<char>, i: int)
    requires
        0 <= i,
        forall|k: int| i <= k && k + pat.len() <= s.len() ==> !occurs_at(s, pat, k),
    ensures
        find_from(s, pat, i) is None,
    decreases s.len() + 1 - i,
{
    if i + pat.len() <= s.len() {
        lemma_find_from_none(s, pat, i + 1);
    }
}

/// What `find_from` returns is an occurrence at or after `i`, and the first one.
pub proof fn lemma_find_from_spec(s: Seq<char>, pat: Seq<char>, i: int)
    requires
        0 <= i,
    ensures
        match find_from(s, pat, i) {
            Some(j) => i <= j && j + pat.len() <= s.len() && occurs_at(s, pat, j) && forall|k: int|
                i <= k < j ==> !occurs_at(s, pat, k),
            None => forall|k: int| i <= k ==> !occurs_at(s, pat, k),
        },
    decreases s.len() + 1 - i,
{
    if i + pat.len() > s.len() {
    } else if occurs_at(s, pat, i) {
    } else {
        lemma_find_from_spec(s, pat, i + 1);
    }
}

pub proof fn lemma_lines_step(s: Seq<char>, i: int, cur: Seq<char>)
    requires
        0 <= i < s.len(),
    ensures
        lines_from(s.skip(i), cur) == (if s[i] == '\n' {
            seq![strip_cr(cur)] + lines_from(s.skip(i + 1), seq![])
        } else {
            lines_from(s.skip(i + 1), cur.push(s[i]))
        }),
{
    assert(s.skip(i).drop_first() =~= s.skip(i + 1));
}

pub proof fn lemma_split_step(s: Seq<char>, seps: Seq<char>, i: int, cur: Seq<char>)
    requires
        0 <= i < s.len(),
    ensures
        split_from(s.skip(i), seps, cur) == (if seps.contains(s[i]) {
            seq![cur] + split_from(s.skip(i + 1), seps, seq![])
        } else {
            split_from(s.skip(i + 1), seps, cur.push(s[i]))
        }),
{
    assert(s.skip(i).drop_first() =~= s.skip(i + 1));
}

pub proof fn lemma_digits_value_nonneg(s: Seq<char>)
    requires
        all_digits(s),
    ensures
        digits_value(s) >= 0,
    decreases s.len(),
{
    if s.len() > 0 {
        assert(all_digits(s.drop_last()));
        lemma_digits_value_nonneg(s.drop_last());
    }
}

/// Adding digits never lowers the value.
pub proof fn lemma_digits_value_grows(s: Seq<char>, k: int)
    requires
        all_digits(s),
        0 <= k <= s.len(),
    ensures
        digits_value(s.take(k)) <= digits_value(s),
    decreases s.len(),
{
    if k < s.len() {
        assert(all_digits(s.drop_last()));
        assert(s.drop_last().take(k) =~= s.take(k));
        lemma_digits_value_grows(s.drop_last(), k);
        lemma_digits_value_nonneg(s.drop_last());
        assert(is_digit(s[s.len() - 1]));
    } else {
        assert(s.take(k) =~= s);
    }
}

pub proof fn lemma_remove_char_take(s: Seq<char>, c: char, i: int)
    requires
        0 <= i < s.len(),
    ensures
        remove_char(s.take(i + 1), c) == (if s[i] == c {
            remove_char(s.take(i), c)
        } else {
            remove_char(s.take(i), c).push(s[i])
        }),
{
    assert(s.take(i + 1).drop_last() =~= s.take(i));
}

// ------------------------------------------------------------------ exec

/// `char::is_whitespace`.
pub fn is_whitespace(c: char) -> (b: bool)
    ensures
        b == is_ws(c),
{
    let u = c as u32;
    (0x9 <= u && u <= 0xd) || u == 0x20 || u == 0x85 || u == 0xa0 || u == 0x1680 || (0x2000 <= u
        && u <= 0x200a) || u == 0x2028 || u == 0x2029 || u == 0x202f || u == 0x205f || u == 0x3000
}

/// The characters of a text.
pub fn chars_of(s: &str) -> (v: Vec<char>)
    ensures
        v@ == s@,
{
    broadcast use vstd::string::group_string_axioms;

    let mut v: Vec<char> = Vec::new();
    let mut it = s.chars();
    loop
        invariant
            v@ + it.remaining() == s@,
            it.decrease() is Some,
        ensures
            v@ == s@,
        decreases it.decrease()->0,
    {
        let ghost before = it.remaining();
        match it.next() {
            Some(c) => {
                proof {
                    assert(v@.push(c) + it.remaining() =~= v@ + before);
                }
                v.push(c);
            },
            None => {
                assert(v@ + it.remaining() =~= v@);
                break ;
            },
        }
    }
    v
}

/// A `String` holding the given characters.
pub fn string_of(v: &Vec<char>) -> (s: String)
    ensures
        s@ == v@,
{
    let mut s = String::new();
    let mut i: usize = 0;
    while i < v.len()
        invariant
            i <= v.len(),
            s@ == v@.take(i as int),
        decreases v.len() - i,
    {
        s.push(v[i]);
        proof {
            assert(v@.take(i + 1) =~= v@.take(i as int).push(v@[i as int]));
        }
        i += 1;
    }
    proof {
        assert(v@.take(i as int) =~= v@);
    }
    s
}

/// The characters from index `a` up to `b`.
pub fn slice_of(s: &Vec<char>, a: usize, b: usize) -> (r: Vec<char>)
    requires
        a <= b <= s.len(),
    ensures
        r@ == s@.subrange(a as int, b as int),
{
    let mut r: Vec<char> = Vec::new();
    let mut i: usize = a;
    while i < b
        invariant
            a <= i <= b <= s.len(),
            r@ == s@.subrange(a as int, i as int),
        decreases b - i,
    {
        r.push(s[i]);
        proof {
            assert(s@.subrange(a as int, i + 1) =~= s@.subrange(a as int, i as int).push(
                s@[i as int],
            ));
        }
        i += 1;
    }
    r
}

/// `str::trim`.
pub fn trim_chars(s: &Vec<char>) -> (r: Vec<char>)
    ensures
        r@ == trim(s@),
{
    let ghost p = ws_pred();
    let mut i: usize = 0;
    proof {
        assert(s@.skip(0) =~= s@);
    }
    while i < s.len() && is_whitespace(s[i])
        invariant
            i <= s.len(),
            p == ws_pred(),
            drop_lead(s@, p) == drop_lead(s@.skip(i as int), p),
        decreases s.len() - i,
    {
        proof {
            lemma_drop_lead_step(s@, p, i as int);
        }
        i += 1;
    }
    assert(drop_lead(s@, p) == s@.skip(i as int));
    assert(s@.skip(i as int) =~= s@.subrange(i as int, s.len() as int));
    let mut j: usize = s.len();
    while j > i && is_whitespace(s[j - 1])
        invariant
            i <= j <= s.len(),
            p == ws_pred(),
            drop_trail(s@.subrange(i as int, s.len() as int), p) == drop_trail(
                s@.subrange(i as int, j as int),
                p,
            ),
        decreases j,
    {
        proof {
            lemma_drop_trail_step(s@, p, i as int, j as int);
        }
        j -= 1;
    }
    slice_of(s, i, j)
}

/// `str::trim_start_matches(c)`.
pub fn trim_start_char_chars(s: &Vec<char>, c: char) -> (r: Vec<char>)
    ensures
        r@ == trim_start_char(s@, c),
{
    let ghost p = eq_pred(c);
    let mut i: usize = 0;
    proof {
        assert(s@.skip(0) =~= s@);
    }
    while i < s.len() && s[i] == c
        invariant
            i <= s.len(),
            p == eq_pred(c),
            drop_lead(s@, p) == drop_lead(s@.skip(i as int), p),
        decreases s.len() - i,
    {
        proof {
            lemma_drop_lead_step(s@, p, i as int);
        }
        i += 1;
    }
    assert(s@.skip(i as int) =~= s@.subrange(i as int, s.len() as int));
    slice_of(s, i, s.len())
}

/// `str::trim_matches(c)`.
pub fn trim_char_chars(s: &Vec<char>, c: char) -> (r: Vec<char>)
    ensures
        r@ == trim_char(s@, c),
{
    let ghost p = eq_pred(c);
    let mut i: usize = 0;
    proof {
        assert(s@.skip(0) =~= s@);
    }
    while i < s.len() && s[i] == c
        invariant
            i <= s.len(),
            p == eq_pred(c),
            drop_lead(s@, p) == drop_lead(s@.skip(i as int), p),
        decreases s.len() - i,
    {
        proof {
            lemma_drop_lead_step(s@, p, i as int);
        }
        i += 1;
    }
    assert(drop_lead(s@, p) == s@.skip(i as int));
    assert(s@.skip(i as int) =~= s@.subrange(i as int, s.len() as int));
    let mut j: usize = s.len();
    while j > i && s[j - 1] == c
        invariant
            i <= j <= s.len(),
            p == eq_pred(c),
            drop_trail(s@.subrange(i as int, s.len() as int), p) == drop_trail(
                s@.subrange(i as int, j as int),
                p,
            ),
        decreases j,
    {
        proof {
            lemma_drop_trail_step(s@, p, i as int, j as int);
        }
        j -= 1;
    }
    slice_of(s, i, j)
}

/// Whether `pat` stands in `s` at index `i`.
pub fn occurs_at_exec(s: &Vec<char>, pat: &Vec<char>, i: usize) -> (b: bool)
    requires
        i + pat.len() <= s.len(),
    ensures
        b == occurs_at(s@, pat@, i as int),
{
    let mut k: usize = 0;
    while k < pat.len()
        invariant
            k <= pat.len(),
            i + pat.len() <= s.len(),
            forall|t: int| 0 <= t < k ==> s@[i + t] == pat@[t],
        decreases pat.len() - k,
    {
        if s[i + k] != pat[k] {
            assert(s@.subrange(i as int, i + pat.len())[k as int] != pat@[k as int]);
            return false;
        }
        k += 1;
    }
    assert(s@.subrange(i as int, i + pat.len()) =~= pat@);
    true
}

/// `str::find`.
pub fn find_chars(s: &Vec<char>, pat: &Vec<char>) -> (r: Option<usize>)
    ensures
        r matches Some(i) ==> find(s@, pat@) == Some(i as int),
        r is None ==> find(s@, pat@) is None,
{
    if pat.len() > s.len() {
        return None;
    }
    let last = s.len() - pat.len();
    let mut i: usize = 0;
    loop
        invariant
            last == s.len() - pat.len(),
            pat.len() <= s.len(),
            i <= last,
            forall|k: int| 0 <= k < i ==> !occurs_at(s@, pat@, k),
        decreases last - i,
    {
        if occurs_at_exec(s, pat, i) {
            proof {
                lemma_find_from_found(s@, pat@, 0, i as int);
            }
            return Some(i);
        }
        if i == last {
            proof {
                lemma_find_from_none(s@, pat@, 0);
            }
            return None;
        }
        i += 1;
    }
}

/// `str::contains`.
pub fn contains_chars(s: &Vec<char>, pat: &Vec<char>) -> (b: bool)
    ensures
        b == contains(s@, pat@),
{
    find_chars(s, pat).is_some()
}

/// `str::contains` for a literal needle.
pub fn contains_str(s: &Vec<char>, pat: &str) -> (b: bool)
    ensures
        b == contains(s@, pat@),
{
    let p = chars_of(pat);
    contains_chars(s, &p)
}

/// `str::split_once`.
pub fn split_once_chars(s: &Vec<char>, pat: &Vec<char>) -> (r: Option<(Vec<char>, Vec<char>)>)
    ensures
        r matches Some(pair) ==> split_once(s@, pat@) == Some((pair.0@, pair.1@)),
        r is None ==> split_once(s@, pat@) is None,
{
    match find_chars(s, pat) {
        Some(i) => {
            proof {
                lemma_find_from_spec(s@, pat@, 0);
            }
            assert(i + pat@.len() <= s@.len());
            assert(i + pat.len() <= s.len());
            let a = slice_of(s, 0, i);
            let b = slice_of(s, i + pat.len(), s.len());
            assert(a@ =~= s@.take(i as int));
            assert(b@ =~= s@.skip(i + pat.len()));
            Some((a, b))
        },
        None => None,
    }
}

/// `str::split_once` for a literal pattern.
pub fn split_once_str(s: &Vec<char>, pat: &str) -> (r: Option<(Vec<char>, Vec<char>)>)
    ensures
        r matches Some(pair) ==> split_once(s@, pat@) == Some((pair.0@, pair.1@)),
        r is None ==> split_once(s@, pat@) is None,
{
    let p = chars_of(pat);
    split_once_chars(s, &p)
}

/// `str::lines`.
pub fn lines_chars(s: &Vec<char>) -> (r: Vec<Vec<char>>)
    ensures
        views(r@) == lines(s@),
{
    let mut out: Vec<Vec<char>> = Vec::new();
    let mut cur: Vec<char> = Vec::new();
    let mut i: usize = 0;
    proof {
        assert(s@.skip(0) =~= s@);
    }
    while i < s.len()
        invariant
            i <= s.len(),
            lines(s@) == views(out@) + lines_from(s@.skip(i as int), cur@),
        decreases s.len() - i,
    {
        proof {
            lemma_lines_step(s@, i as int, cur@);
        }
        if s[i] == '\n' {
            let n = cur.len();
            let line = if n > 0 && cur[n - 1] == '\r' {
                slice_of(&cur, 0, n - 1)
            } else {
                slice_of(&cur, 0, n)
            };
            assert(line@ =~= strip_cr(cur@));
            let ghost before = views(out@);
            out.push(line);
            proof {
                assert(views(out@) =~= before.push(line@));
                assert(before.push(line@) + lines_from(s@.skip(i + 1), seq![]) =~= before + (
                seq![line@] + lines_from(s@.skip(i + 1), seq![])));
            }
            cur = Vec::new();
        } else {
            cur.push(s[i]);
        }
        i += 1;
    }
    assert(s@.skip(i as int) =~= Seq::<char>::empty());
    if cur.len() > 0 {
        let ghost before = views(out@);
        out.push(cur);
        proof {
            assert(views(out@) =~= before + seq![cur@]);
        }
    } else {
        assert(views(out@) + Seq::<Seq<char>>::empty() =~= views(out@));
    }
    out
}

/// `str::split` at any of the given separator characters.
pub fn split_any_chars(s: &Vec<char>, seps: &Vec<char>) -> (r: Vec<Vec<char>>)
    ensures
        views(r@) == split_any(s@, seps@),
{
    let mut out: Vec<Vec<char>> = Vec::new();
    let mut cur: Vec<char> = Vec::new();
    let mut i: usize = 0;
    proof {
        assert(s@.skip(0) =~= s@);
    }
    while i < s.len()
        invariant
            i <= s.len(),
            split_any(s@, seps@) == views(out@) + split_from(s@.skip(i as int), seps@, cur@),
        decreases s.len() - i,
    {
        proof {
            lemma_split_step(s@, seps@, i as int, cur@);
        }
        let c = s[i];
        let mut is_sep = false;
        let mut k: usize = 0;
        while k < seps.len()
            invariant
                k <= seps.len(),
                is_sep == (exists|t: int| 0 <= t < k && seps@[t] == c),
            decreases seps.len() - k,
        {
            if seps[k] == c {
                is_sep = true;
            }
            k += 1;
        }
        assert(is_sep == seps@.contains(c));
        if is_sep {
            let ghost before = views(out@);
            let piece = cur;
            out.push(piece);
            proof {
                assert(views(out@) =~= before.push(piece@));
                assert(before.push(piece@) + split_from(s@.skip(i + 1), seps@, seq![]) =~= before
                    + (seq![piece@] + split_from(s@.skip(i + 1), seps@, seq![])));
            }
            cur = Vec::new();
        } else {
            cur.push(c);
        }
        i += 1;
    }
    assert(s@.skip(i as int) =~= Seq::<char>::empty());
    let ghost before = views(out@);
    out.push(cur);
    proof {
        assert(views(out@) =~= before + seq![cur@]);
    }
    out
}

/// `i64::from_str`, giving `None` where it gives an error.
pub fn parse_i64_chars(s: &Vec<char>) -> (r: Option<i64>)
    ensures
        r matches Some(v) ==> parse_i64(s@) == Some(v as int),
        r is None ==> parse_i64(s@) is None,
{
    let n = s.len();
    let signed = n > 0 && (s[0] == '+' || s[0] == '-');
    let neg = signed && s[0] == '-';
    let start: usize = if signed {
        1
    } else {
        0
    };
    let ghost body = if signed {
        s@.drop_first()
    } else {
        s@
    };
    assert(body =~= s@.subrange(start as int, n as int));
    if start >= n {
        return None;
    }
    // magnitude, capped just above what an i64 can hold
    let limit: u64 = 9223372036854775808;
    let mut acc: u64 = 0;
    let mut i: usize = start;
    proof {
        assert(body.take(0) =~= Seq::<char>::empty());
    }
    while i < n
        invariant
            start <= i <= n == s.len(),
            start < n,
            signed == (s@.len() > 0 && (s@[0] == '+' || s@[0] == '-')),
            neg == (signed && s@[0] == '-'),
            start == (if signed { 1usize } else { 0usize }),
            body == (if signed { s@.drop_first() } else { s@ }),
            body =~= s@.subrange(start as int, n as int),
            acc == digits_value(body.take(i - start)),
            limit == 9223372036854775808u64,
            acc <= limit,
            all_digits(body.take(i - start)),
        decreases n - i,
    {
        let c = s[i];
        let u = c as u32;
        if !(0x30 <= u && u <= 0x39) {
            assert(body[i - start] == c);
            assert(!all_digits(body));
            return None;
        }
        let d = (u - 0x30) as u64;
        proof {
            assert(body.take(i - start + 1).drop_last() =~= body.take(i - start));
            assert(body.take(i - start + 1).last() == c);
            assert(all_digits(body.take(i - start + 1)));
        }
        if acc > (limit - d) / 10 {
            proof {
                if all_digits(body) {
                    lemma_digits_value_grows(body, i - start + 1);
                }
            }
            return None;
        }
        acc = acc * 10 + d;
        i += 1;
    }
    assert(body.take(n - start) =~= body);
    if neg {
        if acc == limit {
            Some(i64::MIN)
        } else {
            Some(-(acc as i64))
        }
    } else {
        if acc == limit {
            None
        } else {
            Some(acc as i64)
        }
    }
}

/// The number of decimal digits of `n`.
pub fn dec_len(n: u64) -> (k: usize)
    ensures
        k as int == dec(n as nat).len(),
        1 <= k <= 20,
    decreases n,
{
    if n < 10 {
        1
    } else {
        let k = dec_len(n / 10);
        assert(dec(n as nat) == dec((n / 10) as nat).push(digit_char((n % 10) as nat)));
        proof {
            reveal_with_fuel(pow10, 20);
            assert(pow10(19) == 10000000000000000000nat);
            lemma_dec_len_small((n / 10) as nat, 19);
        }
        k + 1
    }
}

proof fn lemma_dec_len_small(n: nat, k: nat)
    requires
        n < pow10(k),
        k >= 1,
    ensures
        dec(n).len() <= k,
    decreases k,
{
    if n >= 10 {
        assert(k >= 2) by {
            if k == 1 {
                assert(pow10(1) == 10 * pow10(0));
            }
        }
        assert(n / 10 < pow10((k - 1) as nat)) by (nonlinear_arith)
            requires
                n < pow10(k),
                pow10(k) == 10 * pow10((k - 1) as nat),
        ;
        lemma_dec_len_small(n / 10, (k - 1) as nat);
    }
}

pub open spec fn pow10(k: nat) -> nat
    decreases k,
{
    if k == 0 {
        1
    } else {
        10 * pow10((k - 1) as nat)
    }
}

/// Appends the decimal digits of `n`.
pub fn push_dec(s: &mut String, n: u64)
    ensures
        final(s)@ == old(s)@ + dec(n as nat),
    decreases n,
{
    if n >= 10 {
        push_dec(s, n / 10);
    }
    let c = char_of_digit((n % 10) as u32);
    s.push(c);
    proof {
        if n >= 10 {
            assert(old(s)@ + dec(n as nat) =~= old(s)@ + dec((n / 10) as nat) + seq![c]);
        } else {
            assert(old(s)@ + dec(n as nat) =~= old(s)@.push(c));
        }
    }
}

/// The character of a decimal digit.
pub fn char_of_digit(d: u32) -> (c: char)
    requires
        d < 10,
    ensures
        c == digit_char(d as nat),
{
    match d {
        0 => '0',
        1 => '1',
        2 => '2',
        3 => '3',
        4 => '4',
        5 => '5',
        6 => '6',
        7 => '7',
        8 => '8',
        _ => '9',
    }
}

/// Appends `n` in decimal, zero-padded on the left to at least `w` characters.
pub fn push_dec_pad(s: &mut String, n: u64, w: usize)
    ensures
        final(s)@ == old(s)@ + dec_pad(n as nat, w as nat),
{
    let k = dec_len(n);
    let mut i: usize = k;
    while i < w
        invariant
            k <= i <= w || (w <= k && i == k),
            k as int == dec(n as nat).len(),
            s@ == old(s)@ + Seq::new((i - k) as nat, |j: int| '0'),
        decreases w - i,
    {
        let ghost before = s@;
        s.push('0');
        proof {
            assert(s@ =~= old(s)@ + Seq::new((i + 1 - k) as nat, |j: int| '0'));
        }
        i += 1;
    }
    let ghost mid = s@;
    push_dec(s, n);
    proof {
        if k < w {
            assert(s@ =~= old(s)@ + dec_pad(n as nat, w as nat));
        } else {
            assert(mid =~= old(s)@);
        }
    }
}

/// The lowercase of a text (`str::to_lowercase`), as characters.
pub fn lowercase_chars(s: &str) -> (r: Vec<char>)
    ensures
        r@ == lowercase_of(s@),
{
    let low = s.to_lowercase();
    chars_of(low.as_str())
}

/// Whether two character sequences are equal.
pub fn chars_eq(a: &Vec<char>, b: &Vec<char>) -> (r: bool)
    ensures
        r == (a@ == b@),
{
    if a.len() != b.len() {
        return false;
    }
    let mut i: usize = 0;
    while i < a.len()
        invariant
            i <= a.len() == b.len(),
            forall|k: int| 0 <= k < i ==> a@[k] == b@[k],
        decreases a.len() - i,
    {
        if a[i] != b[i] {
            return false;
        }
        i += 1;
    }
    assert(a@ =~= b@);
    true
}

/// Whether the characters spell the given literal.
pub fn chars_eq_str(a: &Vec<char>, b: &str) -> (r: bool)
    ensures
        r == (a@ == b@),
{
    let bv = chars_of(b);
    chars_eq(a, &bv)
}

/// Whether a character occurs in the sequence.
pub fn has_char(s: &Vec<char>, c: char) -> (r: bool)
    ensures
        r == s@.contains(c),
{
    let mut i: usize = 0;
    while i < s.len()
        invariant
            i <= s.len(),
            forall|k: int| 0 <= k < i ==> s@[k] != c,
        decreases s.len() - i,
    {
        if s[i] == c {
            assert(s@[i as int] == c);
            return true;
        }
        i += 1;
    }
    false
}

/// `s` with every `c` taken out (`str::replace(c, "")`).
pub fn remove_char_chars(s: &Vec<char>, c: char) -> (r: Vec<char>)
    ensures
        r@ == remove_char(s@, c),
{
    let mut r: Vec<char> = Vec::new();
    let mut i: usize = 0;
    proof {
        assert(s@.take(0) =~= Seq::<char>::empty());
    }
    while i < s.len()
        invariant
            i <= s.len(),
            r@ == remove_char(s@.take(i as int), c),
        decreases s.len() - i,
    {
        proof {
            lemma_remove_char_take(s@, c, i as int);
        }
        if s[i] != c {
            r.push(s[i]);
        }
        i += 1;
    }
    assert(s@.take(i as int) =~= s@);
    r
}

/// `str::eq_ignore_ascii_case`.
pub fn eq_ignore_ascii_case_chars(a: &Vec<char>, b: &Vec<char>) -> (r: bool)
    ensures
        r == eq_ignore_ascii_case(a@, b@),
{
    if a.len() != b.len() {
        return false;
    }
    let mut i: usize = 0;
    while i < a.len()
        invariant
            i <= a.len() == b.len(),
            forall|k: int| 0 <= k < i ==> ascii_lower(#[trigger] a@[k]) == ascii_lower(b@[k]),
        decreases a.len() - i,
    {
        if to_ascii_lower(a[i]) != to_ascii_lower(b[i]) {
            return false;
        }
        i += 1;
    }
    true
}

/// `char::to_ascii_lowercase`.
pub fn to_ascii_lower(c: char) -> (r: char)
    ensures
        r == ascii_lower(c),
{
    if 'A' <= c && c <= 'Z' {
        let u = c as u32 + 32;
        proof {
            assert(0x41 <= c as u32 <= 0x5a);
        }
        char_from_ascii(u)
    } else {
        c
    }
}

/// The ASCII character with code `u`.
fn char_from_ascii(u: u32) -> (c: char)
    requires
        0x61 <= u <= 0x7a,
    ensures
        c == (u as char),
{
    let b = u as u8;
    b as char
}

/// The first whitespace-separated word (`split_whitespace().next()`).
pub open spec fn first_word(s: Seq<char>) -> Option<Seq<char>> {
    let t = drop_lead(s, ws_pred());
    if t.len() == 0 {
        None
    } else {
        Some(
            match find_ws(t, 0) {
                Some(k) => t.take(k),
                None => t,
            },
        )
    }
}

/// The first index, from `i` on, of a whitespace character.
pub open spec fn find_ws(s: Seq<char>, i: int) -> Option<int>
    decreases s.len() - i,
{
    if i < 0 || i >= s.len() {
        None
    } else if is_ws(s[i]) {
        Some(i)
    } else {
        find_ws(s, i + 1)
    }
}

proof fn lemma_find_ws_found(s: Seq<char>, i: int, j: int)
    requires
        0 <= i <= j < s.len(),
        forall|k: int| i <= k < j ==> !is_ws(s[k]),
        is_ws(s[j]),
    ensures
        find_ws(s, i) == Some(j),
    decreases j - i,
{
    if i < j {
        lemma_find_ws_found(s, i + 1, j);
    }
}

proof fn lemma_find_ws_none(s: Seq<char>, i: int)
    requires
        0 <= i <= s.len(),
        forall|k: int| i <= k < s.len() ==> !is_ws(s[k]),
    ensures
        find_ws(s, i) is None,
    decreases s.len() - i,
{
    if i < s.len() {
        lemma_find_ws_none(s, i + 1);
    }
}

/// `split_whitespace().next()`.
pub fn first_word_chars(s: &Vec<char>) -> (r: Option<Vec<char>>)
    ensures
        r matches Some(w) ==> first_word(s@) == Some(w@),
        r is None ==> first_word(s@) is None,
{
    let ghost p = ws_pred();
    let mut i: usize = 0;
    proof {
        assert(s@.skip(0) =~= s@);
    }
    while i < s.len() && is_whitespace(s[i])
        invariant
            i <= s.len(),
            p == ws_pred(),
            drop_lead(s@, p) == drop_lead(s@.skip(i as int), p),
        decreases s.len() - i,
    {
        proof {
            lemma_drop_lead_step(s@, p, i as int);
        }
        i += 1;
    }
    let ghost t = s@.skip(i as int);
    assert(drop_lead(s@, p) == t);
    if i == s.len() {
        return None;
    }
    let mut j: usize = i;
    while j < s.len() && !is_whitespace(s[j])
        invariant
            i <= j <= s.len(),
            t == s@.skip(i as int),
            forall|k: int| 0 <= k < j - i ==> !is_ws(t[k]),
        decreases s.len() - j,
    {
        j += 1;
    }
    let w = slice_of(s, i, j);
    proof {
        if j < s.len() {
            lemma_find_ws_found(t, 0, j - i);
            assert(w@ =~= t.take(j - i));
        } else {
            lemma_find_ws_none(t, 0);
            assert(w@ =~= t);
        }
    }
    Some(w)
}

/// A character that is in no part of a text is in none of its lines.
pub proof fn lemma_lines_lack(s: Seq<char>, cur: Seq<char>, c: char)
    requires
        !s.contains(c),
        !cur.contains(c),
    ensures
        forall|k: int| 0 <= k < lines_from(s, cur).len() ==> !(#[trigger] lines_from(s, cur)[k]).contains(c),
    decreases s.len(),
{
    if s.len() > 0 {
        assert(!s.drop_first().contains(c)) by {
            if s.drop_first().contains(c) {
                let j = choose|j: int| 0 <= j < s.drop_first().len() && s.drop_first()[j] == c;
                assert(s[j + 1] == c);
            }
        }
        if s[0] == '\n' {
            lemma_lines_lack(s.drop_first(), seq![], c);
            assert(!strip_cr(cur).contains(c)) by {
                if strip_cr(cur).contains(c) {
                    let j = choose|j: int| 0 <= j < strip_cr(cur).len() && strip_cr(cur)[j] == c;
                    assert(cur[j] == c);
                }
            }
            let rest = lines_from(s.drop_first(), seq![]);
            assert forall|k: int| 0 <= k < lines_from(s, cur).len() implies !(#[trigger] lines_from(
                s,
                cur,
            )[k]).contains(c) by {
                if k > 0 {
                    assert(lines_from(s, cur)[k] == rest[k - 1]);
                }
            }
        } else {
            assert(!cur.push(s[0]).contains(c)) by {
                if cur.push(s[0]).contains(c) {
                    let j = choose|j: int| 0 <= j < cur.push(s[0]).len() && cur.push(s[0])[j] == c;
                    if j < cur.len() {
                        assert(cur[j] == c);
                    }
                }
            }
            lemma_lines_lack(s.drop_first(), cur.push(s[0]), c);
            assert(lines_from(s, cur) == lines_from(s.drop_first(), cur.push(s[0])));
        }
    } else if cur.len() > 0 {
        assert(lines_from(s, cur) == seq![cur]);
        assert(seq![cur][0] == cur);
    } else {
        assert(lines_from(s, cur).len() == 0);
    }
}

/// Taking characters off the front keeps a character out.
pub proof fn lemma_drop_lead_lack(s: Seq<char>, p: spec_fn(char) -> bool, c: char)
    requires
        !s.contains(c),
    ensures
        !drop_lead(s, p).contains(c),
    decreases s.len(),
{
    if s.len() > 0 && p(s[0]) {
        assert(!s.drop_first().contains(c)) by {
            if s.drop_first().contains(c) {
                let j = choose|j: int| 0 <= j < s.drop_first().len() && s.drop_first()[j] == c;
                assert(s[j + 1] == c);
            }
        }
        lemma_drop_lead_lack(s.drop_first(), p, c);
    }
}

/// Taking characters off the end keeps a character out.
pub proof fn lemma_drop_trail_lack(s: Seq<char>, p: spec_fn(char) -> bool, c: char)
    requires
        !s.contains(c),
    ensures
        !drop_trail(s, p).contains(c),
    decreases s.len(),
{
    if s.len() > 0 && p(s.last()) {
        assert(!s.drop_last().contains(c)) by {
            if s.drop_last().contains(c) {
                let j = choose|j: int| 0 <= j < s.drop_last().len() && s.drop_last()[j] == c;
                assert(s[j] == c);
            }
        }
        lemma_drop_trail_lack(s.drop_last(), p, c);
    }
}


// ------------------------------------------------------------------ pieces of a text

/// `a` stands somewhere in `b`.
pub open spec fn infix(a: Seq<char>, b: Seq<char>) -> bool {
    exists|i: int| #[trigger] occurs_at(b, a, i)
}

/// What stands in a text is found in it.
pub proof fn lemma_infix_contains(a: Seq<char>, b: Seq<char>)
    requires
        infix(a, b),
    ensures
        contains(b, a),
{
    let i = choose|i: int| #[trigger] occurs_at(b, a, i);
    lemma_find_from_spec(b, a, 0);
}

/// A piece of a piece of a text is a piece of the text.
pub proof fn lemma_infix_trans(a: Seq<char>, b: Seq<char>, c: Seq<char>)
    requires
        infix(a, b),
        infix(b, c),
    ensures
        infix(a, c),
{
    let i = choose|i: int| #[trigger] occurs_at(b, a, i);
    let j = choose|j: int| #[trigger] occurs_at(c, b, j);
    assert forall|k: int| 0 <= k < a.len() implies c[j + i + k] == a[k] by {
        assert(c.subrange(j, j + b.len())[i + k] == b[i + k]);
        assert(b.subrange(i, i + a.len())[k] == a[k]);
    }
    assert(c.subrange(j + i, j + i + a.len()) =~= a);
    assert(occurs_at(c, a, j + i));
}

/// A subrange of a text stands in it.
pub proof fn lemma_infix_subrange(s: Seq<char>, lo: int, hi: int)
    requires
        0 <= lo <= hi <= s.len(),
    ensures
        infix(s.subrange(lo, hi), s),
{
    assert(s.subrange(lo, lo + s.subrange(lo, hi).len()) =~= s.subrange(lo, hi));
    assert(occurs_at(s, s.subrange(lo, hi), lo));
}

/// A text stands in itself.
pub proof fn lemma_infix_self(s: Seq<char>)
    ensures
        infix(s, s),
{
    lemma_infix_subrange(s, 0, s.len() as int);
    assert(s.subrange(0, s.len() as int) =~= s);
}

/// What `drop_lead` leaves stands in the text.
pub proof fn lemma_drop_lead_infix(s: Seq<char>, p: spec_fn(char) -> bool)
    ensures
        infix(drop_lead(s, p), s),
    decreases s.len(),
{
    if s.len() > 0 && p(s[0]) {
        lemma_drop_lead_infix(s.drop_first(), p);
        lemma_infix_subrange(s, 1, s.len() as int);
        assert(s.subrange(1, s.len() as int) =~= s.drop_first());
        lemma_infix_trans(drop_lead(s.drop_first(), p), s.drop_first(), s);
    } else {
        lemma_infix_self(s);
    }
}

/// What `drop_trail` leaves stands in the text.
pub proof fn lemma_drop_trail_infix(s: Seq<char>, p: spec_fn(char) -> bool)
    ensures
        infix(drop_trail(s, p), s),
    decreases s.len(),
{
    if s.len() > 0 && p(s.last()) {
        lemma_drop_trail_infix(s.drop_last(), p);
        lemma_infix_subrange(s, 0, s.len() - 1);
        assert(s.subrange(0, s.len() - 1) =~= s.drop_last());
        lemma_infix_trans(drop_trail(s.drop_last(), p), s.drop_last(), s);
    } else {
        lemma_infix_self(s);
    }
}

/// The trimmed text stands in the text.
pub proof fn lemma_trim_infix(s: Seq<char>)
    ensures
        infix(trim(s), s),
{
    lemma_drop_lead_infix(s, ws_pred());
    lemma_drop_trail_infix(drop_lead(s, ws_pred()), ws_pred());
    lemma_infix_trans(trim(s), drop_lead(s, ws_pred()), s);
}

/// The first word stands in the text.
pub proof fn lemma_first_word_infix(s: Seq<char>)
    ensures
        first_word(s) matches Some(w) ==> infix(w, s),
{
    let t = drop_lead(s, ws_pred());
    lemma_drop_lead_infix(s, ws_pred());
    if t.len() > 0 {
        match find_ws(t, 0) {
            Some(k) => {
                lemma_find_ws_range(t, 0);
                lemma_infix_subrange(t, 0, k);
                assert(t.subrange(0, k) =~= t.take(k));
                lemma_infix_trans(t.take(k), t, s);
            },
            None => {},
        }
    }
}

proof fn lemma_find_ws_range(s: Seq<char>, i: int)
    ensures
        find_ws(s, i) matches Some(k) ==> i <= k < s.len(),
    decreases s.len() - i,
{
    if 0 <= i < s.len() && !is_ws(s[i]) {
        lemma_find_ws_range(s, i + 1);
    }
}

/// Each line stands in the text.
pub proof fn lemma_lines_infix(s: Seq<char>, cur: Seq<char>)
    ensures
        forall|k: int| 0 <= k < lines_from(s, cur).len() ==> infix(#[trigger] lines_from(s, cur)[k], cur + s),
    decreases s.len(),
{
    let whole = cur + s;
    if s.len() == 0 {
        assert(whole =~= cur);
        lemma_infix_self(cur);
        if cur.len() > 0 {
            assert(lines_from(s, cur) == seq![cur]);
            assert(seq![cur][0] == cur);
        }
    } else if s[0] == '\n' {
        let rest = lines_from(s.drop_first(), seq![]);
        lemma_lines_infix(s.drop_first(), seq![]);
        assert(seq![] + s.drop_first() =~= s.drop_first());
        lemma_infix_subrange(whole, cur.len() + 1int, whole.len() as int);
        assert(whole.subrange(cur.len() + 1int, whole.len() as int) =~= s.drop_first());
        lemma_infix_subrange(whole, 0, strip_cr(cur).len() as int);
        assert(whole.subrange(0, strip_cr(cur).len() as int) =~= strip_cr(cur));
        assert forall|k: int| 0 <= k < lines_from(s, cur).len() implies infix(
            #[trigger] lines_from(s, cur)[k],
            whole,
        ) by {
            if k > 0 {
                assert(lines_from(s, cur)[k] == rest[k - 1]);
                lemma_infix_trans(rest[k - 1], s.drop_first(), whole);
            }
        }
    } else {
        lemma_lines_infix(s.drop_first(), cur.push(s[0]));
        assert(cur.push(s[0]) + s.drop_first() =~= whole);
        assert(lines_from(s, cur) == lines_from(s.drop_first(), cur.push(s[0])));
    }
}

/// A character that a text lacks is lacking in every piece of it.
pub proof fn lemma_infix_lack(a: Seq<char>, b: Seq<char>, c: char)
    requires
        infix(a, b),
        !b.contains(c),
    ensures
        !a.contains(c),
{
    let i = choose|i: int| #[trigger] occurs_at(b, a, i);
    if a.contains(c) {
        let j = choose|j: int| 0 <= j < a.len() && a[j] == c;
        assert(b.subrange(i, i + a.len())[j] == a[j]);
        assert(b[i + j] == c);
    }
}

/// What `drop_lead` leaves does not start with a removed character.
proof fn lemma_drop_lead_head(s: Seq<char>, p: spec_fn(char) -> bool)
    ensures
        drop_lead(s, p).len() > 0 ==> !p(drop_lead(s, p)[0]),
    decreases s.len(),
{
    if s.len() > 0 && p(s[0]) {
        lemma_drop_lead_head(s.drop_first(), p);
    }
}

/// What `drop_trail` leaves is a prefix that does not end with a removed
/// character.
proof fn lemma_drop_trail_shape(s: Seq<char>, p: spec_fn(char) -> bool)
    ensures
        drop_trail(s, p) == s.take(drop_trail(s, p).len() as int),
        drop_trail(s, p).len() <= s.len(),
        drop_trail(s, p).len() > 0 ==> !p(drop_trail(s, p).last()),
    decreases s.len(),
{
    if s.len() > 0 && p(s.last()) {
        lemma_drop_trail_shape(s.drop_last(), p);
        assert(s.drop_last().take(drop_trail(s, p).len() as int) =~= s.take(
            drop_trail(s, p).len() as int,
        ));
    } else {
        assert(s.take(s.len() as int) =~= s);
    }
}

/// A trimmed text that is not empty starts and ends with a non-space.
pub proof fn lemma_trim_ends(s: Seq<char>)
    ensures
        trim(s).len() > 0 ==> !is_ws(trim(s)[0]) && !is_ws(trim(s).last()),
{
    let y = drop_lead(s, ws_pred());
    lemma_drop_lead_head(s, ws_pred());
    lemma_drop_trail_shape(y, ws_pred());
    if trim(s).len() > 0 {
        assert(trim(s)[0] == y.take(trim(s).len() as int)[0]);
        assert((ws_pred())(y[0]) == is_ws(y[0]));
        assert((ws_pred())(trim(s).last()) == is_ws(trim(s).last()));
    }
}

/// Trimming a text that starts and ends with a non-space leaves it.
pub proof fn lemma_trim_fixed(s: Seq<char>)
    requires
        s.len() > 0,
        !is_ws(s[0]),
        !is_ws(s.last()),
    ensures
        trim(s) == s,
{
    assert(!(ws_pred())(s[0]));
    assert(drop_lead(s, ws_pred()) == s);
    assert(!(ws_pred())(s.last()));
    assert(drop_trail(s, ws_pred()) == s);
}

/// No line holds a line break.
pub proof fn lemma_lines_no_break(s: Seq<char>, cur: Seq<char>)
    requires
        !cur.contains('\n'),
    ensures
        forall|k: int| 0 <= k < lines_from(s, cur).len() ==> !(#[trigger] lines_from(s, cur)[k]).contains('\n'),
    decreases s.len(),
{
    if s.len() == 0 {
        if cur.len() > 0 {
            assert(lines_from(s, cur) == seq![cur]);
            assert(seq![cur][0] == cur);
        }
    } else if s[0] == '\n' {
        let rest = lines_from(s.drop_first(), seq![]);
        lemma_lines_no_break(s.drop_first(), seq![]);
        assert(!strip_cr(cur).contains('\n')) by {
            if strip_cr(cur).contains('\n') {
                let j = choose|j: int| 0 <= j < strip_cr(cur).len() && strip_cr(cur)[j] == '\n';
                assert(cur[j] == '\n');
            }
        }
        assert forall|k: int| 0 <= k < lines_from(s, cur).len() implies !(#[trigger] lines_from(
            s,
            cur,
        )[k]).contains('\n') by {
            if k > 0 {
                assert(lines_from(s, cur)[k] == rest[k - 1]);
            }
        }
    } else {
        assert(!cur.push(s[0]).contains('\n')) by {
            if cur.push(s[0]).contains('\n') {
                let j = choose|j: int| 0 <= j < cur.push(s[0]).len() && cur.push(s[0])[j] == '\n';
                if j < cur.len() {
                    assert(cur[j] == '\n');
                }
            }
        }
        lemma_lines_no_break(s.drop_first(), cur.push(s[0]));
        assert(lines_from(s, cur) == lines_from(s.drop_first(), cur.push(s[0])));
    }
}

/// A text without line breaks is one line.
pub proof fn lemma_lines_single(s: Seq<char>, cur: Seq<char>)
    requires
        !s.contains('\n'),
        (cur + s).len() > 0,
    ensures
        lines_from(s, cur) == seq![cur + s],
    decreases s.len(),
{
    if s.len() == 0 {
        assert(cur + s =~= cur);
    } else {
        assert(s[0] != '\n');
        assert(!s.drop_first().contains('\n')) by {
            if s.drop_first().contains('\n') {
                let j = choose|j: int| 0 <= j < s.drop_first().len() && s.drop_first()[j] == '\n';
                assert(s[j + 1] == '\n');
            }
        }
        assert(cur.push(s[0]) + s.drop_first() =~= cur + s);
        lemma_lines_single(s.drop_first(), cur.push(s[0]));
    }
}

} // verus!
