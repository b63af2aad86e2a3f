//! Character-level text utilities shared by the rest of the library.

use vstd::prelude::*;
use vstd::std_specs::iter::IteratorSpec;

verus! {

broadcast use vstd::string::group_string_axioms;

/// Appends one character to a `String` (std's `String::push`).
#[verifier::external_body]
pub(crate) fn string_push(s: &mut String, c: char)
    ensures
        final(s)@ == old(s)@.push(c),
{
    s.push(c);
}

/// The characters of a string slice, in order.
pub fn str_chars(s: &str) -> (v: Vec<char>)
    ensures
        v@ == s@,
{
    let mut v: Vec<char> = Vec::new();
    for c in it: s.chars()
        invariant
            v@ == it.seq().take(it.index() as int),
            it.seq() == s@,
    {
        v.push(c);
    }
    v
}

/// Builds a `String` from a sequence of characters.
pub fn string_from_chars(v: &[char]) -> (s: String)
    ensures
        s@ == v@,
{
    let mut s = String::new();
    let mut i: usize = 0;
    while i < v.len()
        invariant
            i <= v.len(),
            s@ == v@.subrange(0, i as int),
        decreases v.len() - i,
    {
        string_push(&mut s, v[i]);
        i = i + 1;
    }
    s
}

} // verus!

verus! {

/// Unicode `White_Space`, the set that `char::is_whitespace` and `str::trim` use.
pub open spec fn is_ws(c: char) -> bool {
    let u = c as u32;
    (0x9 <= u && u <= 0xd) || u == 0x20 || u == 0x85 || u == 0xa0 || u == 0x1680 || (0x2000 <= u
        && u <= 0x200a) || u == 0x2028 || u == 0x2029 || u == 0x202f || u == 0x205f || u == 0x3000
}

/// Executable form of [`is_ws`].
pub fn char_is_ws(c: char) -> (b: bool)
    ensures
        b == is_ws(c),
{
    let u = c as u32;
    (0x9 <= u && u <= 0xd) || u == 0x20 || u == 0x85 || u == 0xa0 || u == 0x1680 || (0x2000 <= u
        && u <= 0x200a) || u == 0x2028 || u == 0x2029 || u == 0x202f || u == 0x205f || u == 0x3000
}

/// Index of the first non-whitespace character (the length if there is none).
pub open spec fn trim_start_index(s: Seq<char>) -> int
    decreases s.len(),
{
    if s.len() == 0 {
        0
    } else if is_ws(s[0]) {
        1 + trim_start_index(s.drop_first())
    } else {
        0
    }
}

/// Index just after the last non-whitespace character (0 if there is none).
pub open spec fn trim_end_index(s: Seq<char>) -> int
    decreases s.len(),
{
    if s.len() == 0 {
        0
    } else if is_ws(s.last()) {
        trim_end_index(s.drop_last())
    } else {
        s.len() as int
    }
}

/// `s` without leading and trailing whitespace.
pub open spec fn trimmed(s: Seq<char>) -> Seq<char> {
    let a = trim_start_index(s);
    let b = trim_end_index(s);
    if a < b {
        s.subrange(a, b)
    } else {
        Seq::empty()
    }
}

proof fn lemma_trim_start_bounds(s: Seq<char>)
    ensures
        0 <= trim_start_index(s) <= s.len(),
        forall|k: int| 0 <= k < trim_start_index(s) ==> is_ws(#[trigger] s[k]),
        trim_start_index(s) < s.len() ==> !is_ws(s[trim_start_index(s)]),
    decreases s.len(),
{
    if s.len() > 0 && is_ws(s[0]) {
        lemma_trim_start_bounds(s.drop_first());
        assert forall|k: int| 0 <= k < trim_start_index(s) implies is_ws(#[trigger] s[k]) by {
            if k > 0 {
                assert(s[k] == s.drop_first()[k - 1]);
            }
        }
    }
}

proof fn lemma_trim_end_bounds(s: Seq<char>)
    ensures
        0 <= trim_end_index(s) <= s.len(),
        forall|k: int| trim_end_index(s) <= k < s.len() ==> is_ws(#[trigger] s[k]),
        trim_end_index(s) > 0 ==> !is_ws(s[trim_end_index(s) - 1]),
    decreases s.len(),
{
    if s.len() > 0 && is_ws(s.last()) {
        lemma_trim_end_bounds(s.drop_last());
        assert forall|k: int| trim_end_index(s) <= k < s.len() implies is_ws(#[trigger] s[k]) by {
            if k < s.len() - 1 {
                assert(s[k] == s.drop_last()[k]);
            }
        }
    }
}

proof fn lemma_trim_start_char(s: Seq<char>, a: int)
    requires
        0 <= a <= s.len(),
        forall|k: int| 0 <= k < a ==> is_ws(#[trigger] s[k]),
        a < s.len() ==> !is_ws(s[a]),
    ensures
        trim_start_index(s) == a,
    decreases s.len(),
{
    if s.len() > 0 && a > 0 {
        assert(is_ws(s[0]));
        assert forall|k: int| 0 <= k < a - 1 implies is_ws(#[trigger] s.drop_first()[k]) by {
            assert(s.drop_first()[k] == s[k + 1]);
        }
        lemma_trim_start_char(s.drop_first(), a - 1);
    }
}

proof fn lemma_trim_end_char(s: Seq<char>, b: int)
    requires
        0 <= b <= s.len(),
        forall|k: int| b <= k < s.len() ==> is_ws(#[trigger] s[k]),
        b > 0 ==> !is_ws(s[b - 1]),
    ensures
        trim_end_index(s) == b,
    decreases s.len(),
{
    if s.len() > 0 && b < s.len() {
        assert(is_ws(s.last()));
        assert forall|k: int| b <= k < s.len() - 1 implies is_ws(#[trigger] s.drop_last()[k]) by {
            assert(s.drop_last()[k] == s[k]);
        }
        lemma_trim_end_char(s.drop_last(), b);
    }
}

/// `str::trim` on a sequence of characters.
pub fn trim_chars(s: &[char]) -> (r: Vec<char>)
    ensures
        r@ == trimmed(s@),
{
    let mut a: usize = 0;
    while a < s.len() && char_is_ws(s[a])
        invariant
            a <= s.len(),
            forall|k: int| 0 <= k < a ==> is_ws(#[trigger] s@[k]),
        decreases s.len() - a,
    {
        a = a + 1;
    }
    let mut b: usize = s.len();
    while b > a && char_is_ws(s[b - 1])
        invariant
            a <= b <= s.len(),
            forall|k: int| b <= k < s.len() ==> is_ws(#[trigger] s@[k]),
        decreases b,
    {
        b = b - 1;
    }
    proof {
        lemma_trim_start_char(s@, a as int);
        lemma_trim_end_bounds(s@);
        if b > a {
            lemma_trim_end_char(s@, b as int);
        } else {
            // everything from a on is whitespace, so the end index is at most a
            if trim_end_index(s@) > a {
                assert(!is_ws(s@[trim_end_index(s@) - 1]));
                assert(is_ws(s@[trim_end_index(s@) - 1]));
            }
        }
    }
    let mut r: Vec<char> = Vec::new();
    let mut i: usize = a;
    while i < b
        invariant
            a <= i <= b <= s.len(),
            r@ == s@.subrange(a as int, i as int),
        decreases b - i,
    {
        r.push(s[i]);
        i = i + 1;
    }
    r
}

/// `str::trim`, returning an owned string.
pub fn trim_str(s: &str) -> (r: String)
    ensures
        r@ == trimmed(s@),
{
    let cs = str_chars(s);
    let t = trim_chars(cs.as_slice());
    string_from_chars(t.as_slice())
}

} // verus!

verus! {

/// Whether two character sequences are equal.
pub fn chars_eq(a: &[char], b: &[char]) -> (r: bool)
    ensures
        r == (a@ == b@),
{
    if a.len() != b.len() {
        return false;
    }
    let mut i: usize = 0;
    while i < a.len()
        invariant
            a.len() == b.len(),
            i <= a.len(),
            forall|k: int| 0 <= k < i ==> a@[k] == b@[k],
        decreases a.len() - i,
    {
        if a[i] != b[i] {
            return false;
        }
        i = i + 1;
    }
    assert(a@ =~= b@);
    true
}

/// Whether two strings hold the same characters.
pub fn str_eq(a: &str, b: &str) -> (r: bool)
    ensures
        r == (a@ == b@),
{
    let x = str_chars(a);
    let y = str_chars(b);
    chars_eq(x.as_slice(), y.as_slice())
}

/// Whether `t` occurs in `s` at position `k`.
pub open spec fn occurs_at(s: Seq<char>, t: Seq<char>, k: int) -> bool {
    0 <= k && k + t.len() <= s.len() && s.subrange(k, k + t.len()) == t
}

/// Whether `t` occurs anywhere in `s`.
pub open spec fn contains_chars(s: Seq<char>, t: Seq<char>) -> bool {
    exists|k: int| occurs_at(s, t, k)
}

/// Whether `s` begins with `t`.
pub open spec fn starts_with_chars(s: Seq<char>, t: Seq<char>) -> bool {
    occurs_at(s, t, 0)
}

/// Whether `t` occurs in `s` at position `k` (executable).
pub fn occurs_at_exec(s: &[char], t: &[char], k: usize) -> (r: bool)
    ensures
        r == occurs_at(s@, t@, k as int),
{
    if k > s.len() || t.len() > s.len() - k {
        return false;
    }
    let mut i: usize = 0;
    while i < t.len()
        invariant
            k + t.len() <= s.len(),
            i <= t.len(),
            forall|m: int| 0 <= m < i ==> s@[k + m] == t@[m],
        decreases t.len() - i,
    {
        if s[k + i] != t[i] {
            assert(s@.subrange(k as int, k + t.len())[i as int] != t@[i as int]);
            return false;
        }
        i = i + 1;
    }
    assert(s@.subrange(k as int, k + t.len()) =~= t@);
    true
}

/// The first position at or after `k` at which `t` occurs in `s`, if any.
pub open spec fn occurrence_from(s: Seq<char>, t: Seq<char>, k: int) -> Option<int>
    decreases s.len() + 1 - k,
{
    if k < 0 || k > s.len() {
        None
    } else if occurs_at(s, t, k) {
        Some(k)
    } else {
        occurrence_from(s, t, k + 1)
    }
}

/// The first position at which `t` occurs in `s`, if any.
pub open spec fn first_occurrence(s: Seq<char>, t: Seq<char>) -> Option<int> {
    occurrence_from(s, t, 0)
}

proof fn lemma_occurrence_from(s: Seq<char>, t: Seq<char>, k: int)
    requires
        0 <= k,
    ensures
        occurrence_from(s, t, k) matches Some(w) ==> k <= w && occurs_at(s, t, w) && forall|m: int|
            k <= m < w ==> !occurs_at(s, t, m),
        occurrence_from(s, t, k) is None ==> forall|m: int| k <= m ==> !occurs_at(s, t, m),
    decreases s.len() + 1 - k,
{
    if k <= s.len() && !occurs_at(s, t, k) {
        lemma_occurrence_from(s, t, k + 1);
    }
}

/// What [`occurrence_from`] finds: the first occurrence at or after `k`.
pub proof fn lemma_occurrence_from_pub(s: Seq<char>, t: Seq<char>, k: int)
    requires
        0 <= k,
    ensures
        occurrence_from(s, t, k) matches Some(w) ==> k <= w && occurs_at(s, t, w) && forall|m: int|
            k <= m < w ==> !occurs_at(s, t, m),
        occurrence_from(s, t, k) is None ==> forall|m: int| k <= m ==> !occurs_at(s, t, m),
{
    lemma_occurrence_from(s, t, k);
}

/// Finds the first position at which `t` occurs in `s`.
pub fn find_chars(s: &[char], t: &[char]) -> (r: Option<usize>)
    ensures
        r matches Some(k) ==> first_occurrence(s@, t@) == Some(k as int),
        r is None ==> first_occurrence(s@, t@) is None,
        r is None <==> !contains_chars(s@, t@),
{
    let mut k: usize = 0;
    proof {
        lemma_occurrence_from(s@, t@, 0);
    }
    loop
        invariant
            k <= s.len(),
            occurrence_from(s@, t@, 0) == occurrence_from(s@, t@, k as int),
        ensures
            occurrence_from(s@, t@, 0) is None,
        decreases s.len() - k,
    {
        if occurs_at_exec(s, t, k) {
            return Some(k);
        }
        if k == s.len() {
            assert(occurrence_from(s@, t@, k as int + 1) is None);
            break;
        }
        k = k + 1;
    }
    proof {
        lemma_occurrence_from(s@, t@, 0);
        if contains_chars(s@, t@) {
            let m = choose|m: int| occurs_at(s@, t@, m);
        }
    }
    None
}

/// Whether `t` occurs anywhere in `s` (executable).
pub fn contains_exec(s: &[char], t: &[char]) -> (r: bool)
    ensures
        r == contains_chars(s@, t@),
{
    let r = find_chars(s, t);
    proof {
        lemma_occurrence_from(s@, t@, 0);
        if r is Some {
            assert(occurs_at(s@, t@, r->0 as int));
        }
    }
    r.is_some()
}

} // verus!

verus! {

/// The decimal digit for `d < 10`.
pub open spec fn digit_char(d: nat) -> char {
    if d == 0 {
        '0'
    } else if d == 1 {
        '1'
    } else if d == 2 {
        '2'
    } else if d == 3 {
        '3'
    } else if d == 4 {
        '4'
    } else if d == 5 {
        '5'
    } else if d == 6 {
        '6'
    } else if d == 7 {
        '7'
    } else if d == 8 {
        '8'
    } else {
        '9'
    }
}

/// The decimal writing of a number, without leading zeros.
pub open spec fn decimal(n: nat) -> Seq<char>
    decreases n,
{
    if n < 10 {
        seq![digit_char(n)]
    } else {
        decimal(n / 10).push(digit_char(n % 10))
    }
}

fn digit_exec(d: u64) -> (c: char)
    requires
        d < 10,
    ensures
        c == digit_char(d as nat),
{
    if d == 0 {
        '0'
    } else if d == 1 {
        '1'
    } else if d == 2 {
        '2'
    } else if d == 3 {
        '3'
    } else if d == 4 {
        '4'
    } else if d == 5 {
        '5'
    } else if d == 6 {
        '6'
    } else if d == 7 {
        '7'
    } else if d == 8 {
        '8'
    } else {
        '9'
    }
}

/// Writes a number in decimal (as `u64::to_string` does).
pub fn decimal_string(n: u64) -> (s: String)
    ensures
        s@ == decimal(n as nat),
    decreases n,
{
    if n < 10 {
        let mut s = String::new();
        string_push(&mut s, digit_exec(n));
        assert(s@ =~= seq![digit_char(n as nat)]);
        s
    } else {
        let mut s = decimal_string(n / 10);
        string_push(&mut s, digit_exec(n % 10));
        s
    }
}

/// ASCII lowercase of one character (others are kept).
pub open spec fn ascii_lower(c: char) -> char {
    if 'A' <= c && c <= 'Z' {
        ((c as u32) + 32) as char
    } else {
        c
    }
}

/// `str::to_ascii_lowercase` on a character sequence.
pub open spec fn ascii_lowered(s: Seq<char>) -> Seq<char> {
    Seq::new(s.len(), |i: int| ascii_lower(s[i]))
}

/// Executable form of [`ascii_lower`].
pub fn ascii_lower_exec(c: char) -> (r: char)
    ensures
        r == ascii_lower(c),
{
    if 'A' <= c && c <= 'Z' {
        let u = c as u32;
        assert(0x41 <= u <= 0x5a);
        let b = u as u8;
        assert(b == u);
        let l = (b + 32) as char;
        l
    } else {
        c
    }
}

/// The characters of `s` with ASCII letters lowered.
pub fn ascii_lowercase_chars(s: &[char]) -> (r: Vec<char>)
    ensures
        r@ == ascii_lowered(s@),
{
    let mut r: Vec<char> = Vec::new();
    let mut i: usize = 0;
    while i < s.len()
        invariant
            i <= s.len(),
            r@ == ascii_lowered(s@).subrange(0, i as int),
        decreases s.len() - i,
    {
        r.push(ascii_lower_exec(s[i]));
        i = i + 1;
        assert(r@ =~= ascii_lowered(s@).subrange(0, i as int));
    }
    assert(ascii_lowered(s@).subrange(0, s@.len() as int) =~= ascii_lowered(s@));
    r
}

} // verus!

verus! {

/// `s` cut at every occurrence of `c` (as `str::split` with a character:
/// an empty text gives one empty piece).
pub open spec fn split_on(s: Seq<char>, c: char) -> Seq<Seq<char>>
    decreases s.len(),
{
    if s.len() == 0 {
        seq![Seq::empty()]
    } else {
        let prev = split_on(s.drop_last(), c);
        if s.last() == c {
            prev.push(Seq::empty())
        } else {
            prev.update(prev.len() - 1, prev.last().push(s.last()))
        }
    }
}

proof fn lemma_split_nonempty(s: Seq<char>, c: char)
    ensures
        split_on(s, c).len() >= 1,
    decreases s.len(),
{
    if s.len() > 0 {
        lemma_split_nonempty(s.drop_last(), c);
    }
}

/// The pieces trimmed, without the empty ones.
pub open spec fn trimmed_nonempty(pieces: Seq<Seq<char>>) -> Seq<Seq<char>>
    decreases pieces.len(),
{
    if pieces.len() == 0 {
        Seq::empty()
    } else {
        let prev = trimmed_nonempty(pieces.drop_last());
        let t = trimmed(pieces.last());
        if t.len() == 0 {
            prev
        } else {
            prev.push(t)
        }
    }
}

/// The items of a comma-separated list: the pieces between commas,
/// trimmed, without the empty ones.
pub open spec fn comma_items_of(s: Seq<char>) -> Seq<Seq<char>> {
    trimmed_nonempty(split_on(s, ','))
}

/// The texts of a sequence of strings.
pub open spec fn texts(v: Seq<String>) -> Seq<Seq<char>> {
    Seq::new(v.len(), |i: int| v[i]@)
}

/// Cuts `s` at every occurrence of `c`.
pub fn split_chars(s: &[char], c: char) -> (r: Vec<Vec<char>>)
    ensures
        r@.len() == split_on(s@, c).len(),
        forall|k: int| 0 <= k < r@.len() ==> (#[trigger] r@[k])@ == split_on(s@, c)[k],
{
    let mut done: Vec<Vec<char>> = Vec::new();
    let mut cur: Vec<char> = Vec::new();
    let mut i: usize = 0;
    while i < s.len()
        invariant
            i <= s.len(),
            done@.len() + 1 == split_on(s@.subrange(0, i as int), c).len(),
            forall|k: int|
                0 <= k < done@.len() ==> (#[trigger] done@[k])@ == split_on(
                    s@.subrange(0, i as int),
                    c,
                )[k],
            cur@ == split_on(s@.subrange(0, i as int), c).last(),
        decreases s.len() - i,
    {
        let ghost prefix = s@.subrange(0, i as int);
        proof {
            lemma_split_nonempty(prefix, c);
        }
        assert(s@.subrange(0, i + 1).drop_last() == prefix);
        if s[i] == c {
            done.push(cur);
            cur = Vec::new();
        } else {
            cur.push(s[i]);
        }
        i = i + 1;
    }
    assert(s@.subrange(0, s@.len() as int) == s@);
    done.push(cur);
    done
}

/// The items of a comma-separated list, trimmed, without the empty ones.
pub fn comma_items(s: &str) -> (r: Vec<String>)
    ensures
        texts(r@) == comma_items_of(s@),
{
    let cs = str_chars(s);
    let pieces = split_chars(cs.as_slice(), ',');
    let ghost sp = split_on(s@, ',');
    let mut r: Vec<String> = Vec::new();
    let mut i: usize = 0;
    while i < pieces.len()
        invariant
            i <= pieces@.len(),
            pieces@.len() == sp.len(),
            forall|k: int| 0 <= k < pieces@.len() ==> (#[trigger] pieces@[k])@ == sp[k],
            texts(r@) == trimmed_nonempty(sp.subrange(0, i as int)),
        decreases pieces@.len() - i,
    {
        assert(sp.subrange(0, i + 1).drop_last() == sp.subrange(0, i as int));
        let t = trim_chars(pieces[i].as_slice());
        if t.len() > 0 {
            let ghost before = r@;
            r.push(string_from_chars(t.as_slice()));
            assert(texts(r@) =~= texts(before).push(t@));
        }
        i = i + 1;
    }
    assert(sp.subrange(0, sp.len() as int) == sp);
    r
}

/// Whether a character is an ASCII digit.
pub open spec fn is_digit(c: char) -> bool {
    '0' <= c && c <= '9'
}

/// The value of a sequence of ASCII digits.
pub open spec fn digits_value(s: Seq<char>) -> nat
    decreases s.len(),
{
    if s.len() == 0 {
        0
    } else {
        digits_value(s.drop_last()) * 10 + ((s.last() as u32) - 48) as nat
    }
}

/// The text after an optional leading `+`.
pub open spec fn digits_part(s: Seq<char>) -> Seq<char> {
    if s.len() > 0 && s[0] == '+' {
        s.drop_first()
    } else {
        s
    }
}

/// Whether every character is an ASCII digit.
pub open spec fn all_digits(d: Seq<char>) -> bool {
    forall|k: int| 0 <= k < d.len() ==> is_digit(#[trigger] d[k])
}

/// What `str::parse` gives for an unsigned integer type whose largest value
/// is `max`: an optional `+`, then at least one ASCII digit and nothing else,
/// of value at most `max`.
pub open spec fn parse_unsigned(s: Seq<char>, max: nat) -> Option<nat> {
    let d = digits_part(s);
    if d.len() > 0 && all_digits(d) && digits_value(d) <= max {
        Some(digits_value(d))
    } else {
        None
    }
}

proof fn lemma_digits_value_mono(s: Seq<char>, k: int)
    requires
        0 <= k <= s.len(),
        forall|q: int| 0 <= q < s.len() ==> is_digit(#[trigger] s[q]),
    ensures
        digits_value(s.subrange(0, k)) <= digits_value(s),
    decreases s.len() - k,
{
    if k < s.len() {
        lemma_digits_value_mono(s, k + 1);
        assert(s.subrange(0, k + 1).drop_last() =~= s.subrange(0, k));
        assert(digits_value(s.subrange(0, k + 1)) == digits_value(s.subrange(0, k)) * 10 + ((
        s[k] as u32) - 48) as nat);
        assert(digits_value(s.subrange(0, k)) <= digits_value(s.subrange(0, k)) * 10)
            by (nonlinear_arith);
    } else {
        assert(s.subrange(0, k) =~= s);
    }
}

/// Parses an unsigned integer no larger than `max` as `str::parse` does.
pub fn parse_unsigned_exec(s: &str, max: u64) -> (r: Option<u64>)
    ensures
        match r {
            Some(v) => parse_unsigned(s@, max as nat) == Some(v as nat),
            None => parse_unsigned(s@, max as nat) is None,
        },
{
    let cs = str_chars(s);
    let start: usize = if cs.len() > 0 && cs[0] == '+' {
        1
    } else {
        0
    };
    let ghost d = digits_part(s@);
    assert(d =~= cs@.subrange(start as int, cs@.len() as int));
    if start == cs.len() {
        return None;
    }
    let mut v: u64 = 0;
    let mut i: usize = start;
    while i < cs.len()
        invariant
            start <= i <= cs@.len(),
            cs@ == s@,
            d == cs@.subrange(start as int, cs@.len() as int),
            d == digits_part(s@),
            forall|k: int| 0 <= k < i - start ==> is_digit(#[trigger] d[k]),
            v as nat == digits_value(d.subrange(0, i - start)),
            v <= max,
        decreases cs@.len() - i,
    {
        let c = cs[i];
        if !('0' <= c && c <= '9') {
            assert(!is_digit(d[i - start]));
            return None;
        }
        let dv = (c as u32 - 48) as u128;
        assert(d.subrange(0, i - start + 1).drop_last() =~= d.subrange(0, i - start));
        let nv: u128 = (v as u128) * 10 + dv;
        assert(nv as nat == digits_value(d.subrange(0, i - start + 1)));
        if nv > max as u128 {
            proof {
                if all_digits(d) {
                    lemma_digits_value_mono(d, i - start + 1);
                }
            }
            return None;
        }
        v = nv as u64;
        i = i + 1;
    }
    assert(d.subrange(0, d.len() as int) =~= d);
    Some(v)
}

/// Whether one of the strings holds the text `t`.
pub fn text_listed(list: &Vec<String>, t: &str) -> (r: bool)
    ensures
        r == texts(list@).contains(t@),
{
    let mut i: usize = 0;
    while i < list.len()
        invariant
            i <= list@.len(),
            forall|k: int| 0 <= k < i ==> (#[trigger] list@[k])@ != t@,
        decreases list@.len() - i,
    {
        if str_eq(list[i].as_str(), t) {
            assert(texts(list@)[i as int] == t@);
            return true;
        }
        i = i + 1;
    }
    proof {
        if texts(list@).contains(t@) {
            let k = choose|k: int| 0 <= k < texts(list@).len() && texts(list@)[k] == t@;
            assert(list@[k]@ == t@);
        }
    }
    false
}


pub(crate) proof fn lemma_trimmed_idempotent(t: Seq<char>)
    ensures
        trimmed(trimmed(t)) == trimmed(t),
        forall|i: int|
            #![trigger trimmed(t)[i]]
            0 <= i < trimmed(t).len() ==> exists|j: int|
                #![trigger t[j]]
                0 <= j < t.len() && trimmed(t)[i] == t[j],
{
    lemma_trim_start_bounds(t);
    lemma_trim_end_bounds(t);
    let a = trim_start_index(t);
    let b = trim_end_index(t);
    let u = trimmed(t);
    if a < b {
        assert(u[0] == t[a]);
        assert(u[u.len() - 1] == t[b - 1]);
        lemma_trim_start_char(u, 0);
        lemma_trim_end_char(u, u.len() as int);
        assert(u.subrange(0, u.len() as int) =~= u);
        assert forall|i: int| #![trigger u[i]] 0 <= i < u.len() implies exists|j: int|
            #![trigger t[j]]
            0 <= j < t.len() && u[i] == t[j] by {
            assert(u[i] == t[a + i]);
        }
    } else {
        assert(trimmed(u) =~= u);
    }
}

proof fn lemma_split_without_sep(s: Seq<char>, c: char)
    ensures
        forall|k: int, i: int|
            0 <= k < split_on(s, c).len() && 0 <= i < split_on(s, c)[k].len()
                ==> #[trigger] split_on(s, c)[k][i] != c,
    decreases s.len(),
{
    if s.len() > 0 {
        let pre = s.drop_last();
        lemma_split_without_sep(pre, c);
        lemma_split_nonempty(pre, c);
        let prev = split_on(pre, c);
        let cur = split_on(s, c);
        assert forall|k: int, i: int| 0 <= k < cur.len() && 0 <= i < cur[k].len() implies #[trigger] cur[k][i]
            != c by {
            if s.last() == c {
                if k < prev.len() {
                    assert(cur[k] == prev[k]);
                }
            } else if k < prev.len() - 1 {
                assert(cur[k] == prev[k]);
            } else {
                let l = prev.last();
                assert(cur[k] == l.push(s.last()));
                if i < l.len() {
                    assert(cur[k][i] == prev[prev.len() - 1][i]);
                }
            }
        }
    }
}

proof fn lemma_trimmed_nonempty(pieces: Seq<Seq<char>>)
    ensures
        forall|k: int|
            0 <= k < trimmed_nonempty(pieces).len() ==> exists|j: int|
                #![trigger pieces[j]]
                0 <= j < pieces.len() && #[trigger] trimmed_nonempty(pieces)[k] == trimmed(pieces[j]),
        forall|k: int|
            0 <= k < trimmed_nonempty(pieces).len() ==> #[trigger] trimmed_nonempty(pieces)[k].len() > 0,
    decreases pieces.len(),
{
    if pieces.len() > 0 {
        let pre = pieces.drop_last();
        lemma_trimmed_nonempty(pre);
        let r = trimmed_nonempty(pieces);
        let rp = trimmed_nonempty(pre);
        assert forall|k: int| 0 <= k < r.len() implies exists|j: int|
            #![trigger pieces[j]]
            0 <= j < pieces.len() && #[trigger] r[k] == trimmed(pieces[j]) by {
            if k < rp.len() {
                assert(r[k] == rp[k]);
                let j = choose|j: int| #![trigger pre[j]] 0 <= j < pre.len() && rp[k] == trimmed(pre[j]);
                assert(pieces[j] == pre[j]);
            } else {
                assert(r[k] == trimmed(pieces[pieces.len() - 1]));
            }
        }
        assert forall|k: int| 0 <= k < r.len() implies #[trigger] r[k].len() > 0 by {
            if k < rp.len() {
                assert(r[k] == rp[k]);
            }
        }
    }
}

/// The items of a comma-separated list are clean: none is empty, none has
/// whitespace left at either end, and none holds a comma.
pub proof fn law_comma_items_clean(s: Seq<char>)
    ensures
        forall|k: int|
            0 <= k < comma_items_of(s).len() ==> {
                let t = #[trigger] comma_items_of(s)[k];
                &&& t.len() > 0
                &&& trimmed(t) == t
                &&& !t.contains(',')
            },
{
    let pieces = split_on(s, ',');
    lemma_trimmed_nonempty(pieces);
    lemma_split_without_sep(s, ',');
    assert forall|k: int| 0 <= k < comma_items_of(s).len() implies {
        let t = #[trigger] comma_items_of(s)[k];
        &&& t.len() > 0
        &&& trimmed(t) == t
        &&& !t.contains(',')
    } by {
        let t = comma_items_of(s)[k];
        let j = choose|j: int| #![trigger pieces[j]] 0 <= j < pieces.len() && t == trimmed(pieces[j]);
        let p = pieces[j];
        lemma_trimmed_idempotent(p);
        if t.contains(',') {
            let i = choose|i: int| 0 <= i < t.len() && t[i] == ',';
            let q = choose|q: int| #![trigger p[q]] 0 <= q < p.len() && t[i] == p[q];
            assert(split_on(s, ',')[j][q] != ',');
        }
    }
}

} // verus!
