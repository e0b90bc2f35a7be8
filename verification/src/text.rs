//! Character-sequence utilities shared by the whole crate.
//!
//! All string logic in this crate is specified over `Seq<char>` (the view of
//! `&str` and `String`) and executed over `Vec<char>`.

use vstd::prelude::*;

verus! {

/// `pat` occurs in `text` starting at index `at`.
pub open spec fn matches_at(text: Seq<char>, pat: Seq<char>, at: int) -> bool {
    &&& 0 <= at
    &&& at + pat.len() <= text.len()
    &&& text.subrange(at, at + pat.len()) == pat
}

/// `pat` occurs somewhere in `text`.
pub open spec fn contains_seq(text: Seq<char>, pat: Seq<char>) -> bool {
    exists|i: int| matches_at(text, pat, i)
}

/// Turn a `&str` into the vector of its characters.
pub fn str_to_chars(s: &str) -> (r: Vec<char>)
    ensures
        r@ == s@,
{
    let n = s.unicode_len();
    let mut r: Vec<char> = Vec::new();
    let mut i: usize = 0;
    while i < n
        invariant
            n == s@.len(),
            i <= n,
            r@ == s@.subrange(0, i as int),
        decreases n - i,
    {
        r.push(s.get_char(i));
        assert(r@ =~= s@.subrange(0, i + 1 as int));
        i = i + 1;
    }
    assert(r@ =~= s@);
    r
}

/// Relies on `String::push`: appends one character to the string.
#[verifier::external_body]
pub fn push_char(s: &mut String, c: char)
    ensures
        final(s)@ == old(s)@.push(c),
{
    s.push(c);
}

/// Turn a character slice back into a `String`.
pub fn chars_to_string(v: &[char]) -> (r: String)
    ensures
        r@ == v@,
{
    let mut r = String::new();
    let mut i: usize = 0;
    while i < v.len()
        invariant
            i <= v@.len(),
            r@ == v@.subrange(0, i as int),
        decreases v@.len() - i,
    {
        push_char(&mut r, v[i]);
        assert(r@ =~= v@.subrange(0, i + 1 as int));
        i = i + 1;
    }
    assert(r@ =~= v@);
    r
}

/// Compare two character slices for equality.
pub fn chars_eq(a: &[char], b: &[char]) -> (r: bool)
    ensures
        r == (a@ == b@),
{
    if a.len() != b.len() {
        assert(a@ != b@);
        return false;
    }
    let mut i: usize = 0;
    while i < a.len()
        invariant
            a@.len() == b@.len(),
            i <= a@.len(),
            forall|j: int| 0 <= j < i ==> a@[j] == b@[j],
        decreases a@.len() - i,
    {
        if a[i] != b[i] {
            return false;
        }
        i = i + 1;
    }
    assert(a@ =~= b@);
    true
}

/// Equality between a character slice and a string's characters.
pub fn chars_eq_str(a: &[char], s: &str) -> (r: bool)
    ensures
        r == (a@ == s@),
{
    let b = str_to_chars(s);
    chars_eq(a, b.as_slice())
}

/// `pat` matches `text` at position `i`.
pub fn match_at(text: &[char], pat: &[char], i: usize) -> (r: bool)
    requires
        i + pat@.len() <= text@.len(),
        text@.len() <= usize::MAX,
    ensures
        r == matches_at(text@, pat@, i as int),
{
    let mut j: usize = 0;
    while j < pat.len()
        invariant
            i + pat@.len() <= text@.len(),
            text@.len() <= usize::MAX,
            j <= pat@.len(),
            forall|k: int| 0 <= k < j ==> text@[i + k] == pat@[k],
        decreases pat@.len() - j,
    {
        if text[i + j] != pat[j] {
            assert(text@.subrange(i as int, i as int + pat@.len()) != pat@) by {
                assert(text@.subrange(i as int, i as int + pat@.len())[j as int] == text@[i as int
                    + j as int]);
            }
            return false;
        }
        j = j + 1;
    }
    assert(text@.subrange(i as int, i as int + pat@.len()) =~= pat@);
    true
}

/// `pat` occurs in `text` (naive scan).
pub fn contains_chars(text: &[char], pat: &[char]) -> (r: bool)
    ensures
        r == contains_seq(text@, pat@),
{
    if pat.len() > text.len() {
        assert(forall|i: int| !matches_at(text@, pat@, i));
        return false;
    }
    if pat.len() == 0 {
        assert(text@.subrange(0, 0) =~= pat@);
        assert(matches_at(text@, pat@, 0));
        return true;
    }
    let last = text.len() - pat.len();
    let mut i: usize = 0;
    while i <= last
        invariant
            1 <= pat@.len() <= text@.len(),
            text@.len() <= usize::MAX,
            last == text@.len() - pat@.len(),
            i <= last + 1,
            forall|k: int| 0 <= k < i ==> !matches_at(text@, pat@, k),
        decreases last + 1 - i,
    {
        if match_at(text, pat, i) {
            return true;
        }
        i = i + 1;
    }
    assert(forall|k: int| k > last ==> !matches_at(text@, pat@, k));
    false
}

/// `pat` (a literal) occurs in `text`.
pub fn contains_lit(text: &[char], pat: &str) -> (r: bool)
    ensures
        r == contains_seq(text@, pat@),
{
    let p = str_to_chars(pat);
    contains_chars(text, p.as_slice())
}

/// Blank characters stripped by trimming.
pub open spec fn is_ws(c: char) -> bool {
    c == ' ' || c == '\t' || c == '\n' || c == '\r'
}

/// Executable test for a blank character.
pub fn is_ws_char(c: char) -> (r: bool)
    ensures
        r == is_ws(c),
{
    c == ' ' || c == '\t' || c == '\n' || c == '\r'
}

pub open spec fn trim_start_spec(s: Seq<char>) -> Seq<char>
    decreases s.len(),
{
    if s.len() > 0 && is_ws(s[0]) {
        trim_start_spec(s.drop_first())
    } else {
        s
    }
}

pub open spec fn trim_end_spec(s: Seq<char>) -> Seq<char>
    decreases s.len(),
{
    if s.len() > 0 && is_ws(s.last()) {
        trim_end_spec(s.drop_last())
    } else {
        s
    }
}

/// `s` with blanks stripped from both ends.
pub open spec fn trim_spec(s: Seq<char>) -> Seq<char> {
    trim_end_spec(trim_start_spec(s))
}

proof fn lemma_trim_start_skip(s: Seq<char>, k: int)
    requires
        0 <= k <= s.len(),
        forall|i: int| 0 <= i < k ==> is_ws(s[i]),
        k < s.len() ==> !is_ws(s[k]),
    ensures
        trim_start_spec(s) == s.subrange(k, s.len() as int),
    decreases k,
{
    if k == 0 {
        if s.len() > 0 && is_ws(s[0]) {
            assert(false);
        }
        assert(s.subrange(0, s.len() as int) =~= s);
    } else {
        assert(is_ws(s[0]));
        let t = s.drop_first();
        assert(forall|i: int| 0 <= i < k - 1 ==> t[i] == s[i + 1] && is_ws(t[i]));
        lemma_trim_start_skip(t, k - 1);
        assert(t.subrange(k - 1, t.len() as int) =~= s.subrange(k, s.len() as int));
    }
}

proof fn lemma_trim_end_take(s: Seq<char>, k: int)
    requires
        0 <= k <= s.len(),
        forall|i: int| k <= i < s.len() ==> is_ws(s[i]),
        k > 0 ==> !is_ws(s[k - 1]),
    ensures
        trim_end_spec(s) == s.subrange(0, k),
    decreases s.len(),
{
    if k == s.len() {
        if s.len() > 0 && is_ws(s.last()) {
            assert(false);
        }
        assert(s.subrange(0, s.len() as int) =~= s);
    } else {
        assert(is_ws(s.last()));
        let t = s.drop_last();
        assert(forall|i: int| k <= i < t.len() ==> t[i] == s[i] && is_ws(t[i]));
        if k > 0 {
            assert(t[k - 1] == s[k - 1]);
        }
        lemma_trim_end_take(t, k);
        assert(t.subrange(0, k) =~= s.subrange(0, k));
    }
}

/// `s` with blanks stripped from both ends.
pub fn trim_chars(s: &[char]) -> (r: Vec<char>)
    ensures
        r@ == trim_spec(s@),
{
    let n = s.len();
    let mut a: usize = 0;
    while a < n && is_ws_char(s[a])
        invariant
            n == s@.len(),
            a <= n,
            forall|i: int| 0 <= i < a ==> is_ws(s@[i]),
        decreases n - a,
    {
        a = a + 1;
    }
    proof {
        lemma_trim_start_skip(s@, a as int);
    }
    let mut b: usize = n;
    while b > a && is_ws_char(s[b - 1])
        invariant
            n == s@.len(),
            a <= b <= n,
            forall|i: int| b <= i < n ==> is_ws(s@[i]),
        decreases b,
    {
        b = b - 1;
    }
    let ghost mid = s@.subrange(a as int, n as int);
    proof {
        assert(forall|i: int| b - a <= i < mid.len() ==> mid[i] == s@[i + a] && is_ws(mid[i]));
        if b > a {
            assert(mid[b - a - 1] == s@[b - 1]);
        }
        lemma_trim_end_take(mid, b - a);
    }
    let mut r: Vec<char> = Vec::new();
    let mut i: usize = a;
    while i < b
        invariant
            a <= i <= b <= n,
            n == s@.len(),
            r@ == s@.subrange(a as int, i as int),
        decreases b - i,
    {
        r.push(s[i]);
        assert(r@ =~= s@.subrange(a as int, i + 1 as int));
        i = i + 1;
    }
    proof {
        assert(mid.subrange(0, b - a as int) =~= s@.subrange(a as int, b as int));
    }
    r
}

/// Strict lexicographic order on character sequences, by code point.
pub open spec fn lex_lt(a: Seq<char>, b: Seq<char>) -> bool
    decreases a.len(),
{
    if b.len() == 0 {
        false
    } else if a.len() == 0 {
        true
    } else if (a[0] as int) < (b[0] as int) {
        true
    } else if a[0] == b[0] {
        lex_lt(a.drop_first(), b.drop_first())
    } else {
        false
    }
}

/// Non-strict lexicographic order on character sequences.
pub open spec fn lex_le(a: Seq<char>, b: Seq<char>) -> bool {
    lex_lt(a, b) || a == b
}

/// Dropping a common prefix does not change the lexicographic order.
proof fn lemma_lex_skip(a: Seq<char>, b: Seq<char>, i: int)
    requires
        0 <= i <= a.len(),
        i <= b.len(),
        forall|j: int| 0 <= j < i ==> a[j] == b[j],
    ensures
        lex_lt(a, b) == lex_lt(a.skip(i), b.skip(i)),
    decreases i,
{
    if i > 0 {
        assert(a.len() > 0 && b.len() > 0 && a[0] == b[0]);
        let a1 = a.drop_first();
        let b1 = b.drop_first();
        assert(forall|j: int| 0 <= j < i - 1 ==> a1[j] == b1[j]);
        lemma_lex_skip(a1, b1, i - 1);
        assert(a1.skip(i - 1) =~= a.skip(i));
        assert(b1.skip(i - 1) =~= b.skip(i));
    } else {
        assert(a.skip(0) =~= a);
        assert(b.skip(0) =~= b);
    }
}

/// Order two characters by code point.
fn char_lt(ca: char, cb: char) -> (r: bool)
    ensures
        r == ((ca as int) < (cb as int)),
{
    let ua = ca as u32;
    let ub = cb as u32;
    assert(ua as int == ca as int);
    assert(ub as int == cb as int);
    ua < ub
}

/// Decide `lex_le` on two character slices.
pub fn chars_le(a: &[char], b: &[char]) -> (r: bool)
    ensures
        r == lex_le(a@, b@),
{
    let n = if a.len() < b.len() {
        a.len()
    } else {
        b.len()
    };
    let mut i: usize = 0;
    while i < n
        invariant
            n <= a@.len(),
            n <= b@.len(),
            n == a@.len() || n == b@.len(),
            i <= n,
            forall|j: int| 0 <= j < i ==> a@[j] == b@[j],
        decreases n - i,
    {
        if a[i] != b[i] {
            proof {
                lemma_lex_skip(a@, b@, i as int);
                let sa = a@.skip(i as int);
                let sb = b@.skip(i as int);
                assert(sa.len() > 0 && sb.len() > 0);
                assert(sa[0] == a@[i as int]);
                assert(sb[0] == b@[i as int]);
                assert(lex_lt(sa, sb) == ((a@[i as int] as int) < (b@[i as int] as int)));
                assert(a@ != b@) by {
                    assert(a@[i as int] != b@[i as int]);
                }
            }
            let r = char_lt(a[i], b[i]);
            return r;
        }
        i = i + 1;
    }
    proof {
        lemma_lex_skip(a@, b@, n as int);
    }
    if a.len() < b.len() {
        assert(lex_lt(a@.skip(n as int), b@.skip(n as int)));
        true
    } else if a.len() == b.len() {
        assert(a@ =~= b@);
        true
    } else {
        assert(!lex_lt(a@.skip(n as int), b@.skip(n as int)));
        assert(a@ != b@);
        false
    }
}

pub open spec fn trim_char_start(s: Seq<char>, c: char) -> Seq<char>
    decreases s.len(),
{
    if s.len() > 0 && s[0] == c {
        trim_char_start(s.drop_first(), c)
    } else {
        s
    }
}

pub open spec fn trim_char_end(s: Seq<char>, c: char) -> Seq<char>
    decreases s.len(),
{
    if s.len() > 0 && s.last() == c {
        trim_char_end(s.drop_last(), c)
    } else {
        s
    }
}

/// `s` with every leading and trailing occurrence of `c` stripped.
pub open spec fn trim_char(s: Seq<char>, c: char) -> Seq<char> {
    trim_char_end(trim_char_start(s, c), c)
}

proof fn lemma_trim_char_start_skip(s: Seq<char>, c: char, k: int)
    requires
        0 <= k <= s.len(),
        forall|i: int| 0 <= i < k ==> s[i] == c,
        k < s.len() ==> s[k] != c,
    ensures
        trim_char_start(s, c) == s.subrange(k, s.len() as int),
    decreases k,
{
    if k == 0 {
        assert(s.subrange(0, s.len() as int) =~= s);
    } else {
        let t = s.drop_first();
        assert(forall|i: int| 0 <= i < k - 1 ==> t[i] == s[i + 1]);
        if k < s.len() {
            assert(t[k - 1] == s[k]);
        }
        lemma_trim_char_start_skip(t, c, k - 1);
        assert(t.subrange(k - 1, t.len() as int) =~= s.subrange(k, s.len() as int));
    }
}

proof fn lemma_trim_char_end_take(s: Seq<char>, c: char, k: int)
    requires
        0 <= k <= s.len(),
        forall|i: int| k <= i < s.len() ==> s[i] == c,
        k > 0 ==> s[k - 1] != c,
    ensures
        trim_char_end(s, c) == s.subrange(0, k),
    decreases s.len(),
{
    if k == s.len() {
        assert(s.subrange(0, s.len() as int) =~= s);
    } else {
        let t = s.drop_last();
        assert(forall|i: int| k <= i < t.len() ==> t[i] == s[i]);
        if k > 0 {
            assert(t[k - 1] == s[k - 1]);
        }
        lemma_trim_char_end_take(t, c, k);
        assert(t.subrange(0, k) =~= s.subrange(0, k));
    }
}

/// `s` with trailing occurrences of `c` stripped.
pub fn trim_char_end_chars(s: &[char], c: char) -> (r: Vec<char>)
    ensures
        r@ == trim_char_end(s@, c),
{
    let n = s.len();
    let mut b: usize = n;
    while b > 0 && s[b - 1] == c
        invariant
            b <= n,
            n == s@.len(),
            forall|i: int| b <= i < n ==> s@[i] == c,
        decreases b,
    {
        b = b - 1;
    }
    proof {
        lemma_trim_char_end_take(s@, c, b as int);
    }
    let mut r: Vec<char> = Vec::new();
    let mut i: usize = 0;
    while i < b
        invariant
            i <= b <= n,
            n == s@.len(),
            r@ == s@.subrange(0, i as int),
        decreases b - i,
    {
        r.push(s[i]);
        assert(r@ =~= s@.subrange(0, i + 1 as int));
        i = i + 1;
    }
    r
}

/// `s` with leading and trailing occurrences of `c` stripped.
pub fn trim_char_chars(s: &[char], c: char) -> (r: Vec<char>)
    ensures
        r@ == trim_char(s@, c),
{
    let n = s.len();
    let mut a: usize = 0;
    while a < n && s[a] == c
        invariant
            a <= n,
            n == s@.len(),
            forall|i: int| 0 <= i < a ==> s@[i] == c,
        decreases n - a,
    {
        a = a + 1;
    }
    proof {
        lemma_trim_char_start_skip(s@, c, a as int);
    }
    let mut b: usize = n;
    while b > a && s[b - 1] == c
        invariant
            a <= b <= n,
            n == s@.len(),
            forall|i: int| b <= i < n ==> s@[i] == c,
        decreases b,
    {
        b = b - 1;
    }
    let ghost mid = s@.subrange(a as int, n as int);
    proof {
        assert(forall|i: int| b - a <= i < mid.len() ==> mid[i] == s@[i + a] && mid[i] == c);
        if b > a {
            assert(mid[b - a - 1] == s@[b - 1]);
        }
        lemma_trim_char_end_take(mid, c, b - a);
    }
    let mut r: Vec<char> = Vec::new();
    let mut i: usize = a;
    while i < b
        invariant
            a <= i <= b <= n,
            n == s@.len(),
            r@ == s@.subrange(a as int, i as int),
        decreases b - i,
    {
        r.push(s[i]);
        assert(r@ =~= s@.subrange(a as int, i + 1 as int));
        i = i + 1;
    }
    proof {
        assert(mid.subrange(0, b - a as int) =~= s@.subrange(a as int, b as int));
    }
    r
}

/// Lower-case code point of `c`, folding only the ASCII letters.
pub open spec fn lower_int(c: char) -> int {
    if 'A' as int <= c as int <= 'Z' as int {
        c as int + 32
    } else {
        c as int
    }
}

/// `s` equals token `t` up to ASCII case (the token itself is lower case).
pub open spec fn matches_token_ci(s: Seq<char>, t: Seq<char>) -> bool {
    s.len() == t.len() && (forall|i: int| 0 <= i < s.len() ==> lower_int(s[i]) == t[i] as int)
}

/// One character of input against one lower-case token character.
pub fn char_ieq(a: char, b: char) -> (r: bool)
    ensures
        r == (lower_int(a) == b as int),
{
    let au = a as u32;
    if au >= 65 && au <= 90 {
        au + 32 == (b as u32)
    } else {
        a == b
    }
}

/// `s` equals the lower-case token `t` up to ASCII case.
pub fn token_ieq(s: &[char], t: &str) -> (r: bool)
    ensures
        r == matches_token_ci(s@, t@),
{
    let tc = str_to_chars(t);
    if s.len() != tc.len() {
        return false;
    }
    let mut i: usize = 0;
    while i < s.len()
        invariant
            s@.len() == tc@.len(),
            tc@ == t@,
            i <= s@.len(),
            forall|j: int| 0 <= j < i ==> lower_int(s@[j]) == t@[j] as int,
        decreases s@.len() - i,
    {
        if !char_ieq(s[i], tc[i]) {
            return false;
        }
        i = i + 1;
    }
    true
}

fn probe_char(c: char, d: char) {
    let u = c as u32;
    assert(u as int == c as int);
    let lt = (c as u32) < (d as u32);
    assert(lt == ((c as int) < (d as int)));
}

/// Index of the first occurrence of `c`, or -1.
pub open spec fn first_index(s: Seq<char>, c: char) -> int
    decreases s.len(),
{
    if s.len() == 0 {
        -1
    } else if s[0] == c {
        0
    } else {
        let r = first_index(s.drop_first(), c);
        if r == -1 {
            -1
        } else {
            r + 1
        }
    }
}

/// Where the first hit is known, `first_index` finds it.
pub proof fn lemma_first_index_at(s: Seq<char>, c: char, k: int)
    requires
        0 <= k < s.len(),
        s[k] == c,
        forall|i: int| 0 <= i < k ==> s[i] != c,
    ensures
        first_index(s, c) == k,
    decreases k,
{
    if k > 0 {
        let t = s.drop_first();
        assert(forall|i: int| 0 <= i < k - 1 ==> t[i] == s[i + 1]);
        assert(t[k - 1] == s[k]);
        lemma_first_index_at(t, c, k - 1);
    }
}

/// Where no hit exists, `first_index` reports none.
pub proof fn lemma_first_index_none(s: Seq<char>, c: char)
    requires
        forall|i: int| 0 <= i < s.len() ==> s[i] != c,
    ensures
        first_index(s, c) == -1,
    decreases s.len(),
{
    if s.len() > 0 {
        lemma_first_index_none(s.drop_first(), c);
    }
}

/// `s` split at every occurrence of `sep`, keeping empty pieces.
pub open spec fn split_sep(s: Seq<char>, sep: char) -> Seq<Seq<char>>
    decreases s.len(),
{
    let k = first_index(s, sep);
    if 0 <= k < s.len() {
        seq![s.subrange(0, k)] + split_sep(s.skip(k + 1), sep)
    } else {
        seq![s]
    }
}

/// `s` split at every newline, keeping empty pieces.
pub open spec fn split_nl(s: Seq<char>) -> Seq<Seq<char>> {
    split_sep(s, '\n')
}

/// A line with any trailing carriage return removed.
pub open spec fn strip_cr(s: Seq<char>) -> Seq<char> {
    if s.len() > 0 && s.last() == '\r' {
        s.drop_last()
    } else {
        s
    }
}

/// The lines of `s`, as `str::lines` yields them: split at newlines, a
/// trailing carriage return stripped from each, no final empty line.
pub open spec fn lines_of(s: Seq<char>) -> Seq<Seq<char>> {
    if s.len() == 0 {
        Seq::empty()
    } else if s.last() == '\n' {
        split_nl(s).drop_last().map_values(|l: Seq<char>| strip_cr(l))
    } else {
        split_nl(s).map_values(|l: Seq<char>| strip_cr(l))
    }
}

/// A pending line joined onto the front of later pieces.
pub open spec fn prepend_line(l: Seq<char>, ps: Seq<Seq<char>>) -> Seq<Seq<char>> {
    if ps.len() == 0 {
        seq![l]
    } else {
        seq![l + ps[0]] + ps.drop_first()
    }
}

/// Splitting yields at least one piece.
pub proof fn lemma_split_nonempty(s: Seq<char>, sep: char)
    ensures
        split_sep(s, sep).len() >= 1,
{
}

/// Consuming one ordinary character extends the pending line.
proof fn lemma_split_step_char(l: Seq<char>, cur: Seq<char>, sep: char)
    requires
        cur.len() > 0,
        cur[0] != sep,
    ensures
        prepend_line(l.push(cur[0]), split_sep(cur.drop_first(), sep)) == prepend_line(
            l,
            split_sep(cur, sep),
        ),
{
    let t = cur.drop_first();
    let k = first_index(cur, sep);
    let kt = first_index(t, sep);
    assert(k == if kt == -1 { -1int } else { kt + 1 });
    if 0 <= k < cur.len() {
        assert(0 <= kt < t.len());
        assert(t.skip(kt + 1) =~= cur.skip(k + 1));
        assert(l.push(cur[0]) + t.subrange(0, kt) =~= l + cur.subrange(0, k));
        assert(prepend_line(l.push(cur[0]), split_sep(t, sep)) =~= prepend_line(
            l,
            split_sep(cur, sep),
        ));
    } else {
        assert(kt == -1 || !(0 <= kt < t.len()));
        assert(l.push(cur[0]) + t =~= l + cur);
        assert(prepend_line(l.push(cur[0]), split_sep(t, sep)) =~= prepend_line(
            l,
            split_sep(cur, sep),
        ));
    }
}

/// Split a text into its raw pieces at a separator.
#[verifier::loop_isolation(false)]
#[verifier::rlimit(100)]
pub fn split_pieces(v: &[char], sep: char) -> (r: Vec<Vec<char>>)
    requires
        !(sep == '\u{0}') || true,
    ensures
        r@.map_values(|l: Vec<char>| l@) == split_sep(v@, sep),
{
    let mut out: Vec<Vec<char>> = Vec::new();
    let mut line: Vec<char> = Vec::new();
    let mut i: usize = 0;
    proof {
        assert(v@.skip(0) =~= v@);
        assert(out@.map_values(|l: Vec<char>| l@) =~= Seq::<Seq<char>>::empty());
        lemma_split_nonempty(v@, sep);
        assert(Seq::<Seq<char>>::empty() + prepend_line(line@, split_sep(v@, sep))
            =~= prepend_line(Seq::<char>::empty(), split_sep(v@, sep)));
        assert(prepend_line(Seq::<char>::empty(), split_sep(v@, sep)) =~= split_sep(v@, sep));
    }
    while i < v.len()
        invariant
            i <= v@.len(),
            split_sep(v@, sep) == out@.map_values(|l: Vec<char>| l@) + prepend_line(
                line@,
                split_sep(v@.skip(i as int), sep),
            ),
        decreases v@.len() - i,
    {
        let ghost cur = v@.skip(i as int);
        proof {
            assert(cur[0] == v@[i as int]);
        }
        if v[i] == sep {
            proof {
                assert(first_index(cur, sep) == 0);
                assert(cur.subrange(0, 0) =~= Seq::<char>::empty());
                assert(cur.skip(1) =~= v@.skip(i + 1 as int));
                lemma_split_nonempty(cur.skip(1), sep);
            }
            let ghost o0 = out@;
            let ghost l0 = line@;
            let done = line;
            out.push(done);
            line = Vec::new();
            proof {
                assert(out@.map_values(|l: Vec<char>| l@) =~= o0.map_values(|l: Vec<char>| l@)
                    .push(l0)) by {
                    assert(out@ =~= o0.push(done));
                }
                assert(l0 + Seq::<char>::empty() =~= l0);
                assert(prepend_line(l0, split_sep(cur, sep)) =~= seq![l0] + split_sep(
                    v@.skip(i + 1 as int),
                    sep,
                ));
                assert(prepend_line(Seq::<char>::empty(), split_sep(v@.skip(i + 1 as int), sep))
                    =~= split_sep(v@.skip(i + 1 as int), sep));
                assert(split_sep(v@, sep) =~= out@.map_values(|l: Vec<char>| l@) + prepend_line(
                    line@,
                    split_sep(v@.skip(i + 1 as int), sep),
                ));
            }
        } else {
            let ghost l0 = line@;
            line.push(v[i]);
            proof {
                assert(line@ == l0.push(cur[0]));
                assert(cur.drop_first() =~= v@.skip(i + 1 as int));
                lemma_split_step_char(l0, cur, sep);
            }
        }
        i = i + 1;
    }
    proof {
        assert(v@.skip(v@.len() as int).len() == 0);
        assert(first_index(v@.skip(v@.len() as int), sep) == -1);
    }
    let ghost o0 = out@;
    let ghost l0 = line@;
    out.push(line);
    proof {
        assert(prepend_line(l0, split_sep(v@.skip(v@.len() as int), sep)) =~= seq![l0 + v@.skip(
            v@.len() as int,
        )]);
        assert(l0 + v@.skip(v@.len() as int) =~= l0);
        assert(out@.map_values(|l: Vec<char>| l@) =~= o0.map_values(|l: Vec<char>| l@).push(l0));
        assert(out@.map_values(|l: Vec<char>| l@) =~= split_sep(v@, sep));
    }
    out
}

/// Split a text into its lines, as `str::lines` yields them.
#[verifier::loop_isolation(false)]
#[verifier::rlimit(100)]
pub fn split_lines(v: &[char]) -> (r: Vec<Vec<char>>)
    ensures
        r@.map_values(|l: Vec<char>| l@) == lines_of(v@),
{
    if v.len() == 0 {
        let out: Vec<Vec<char>> = Vec::new();
        proof {
            assert(out@.map_values(|l: Vec<char>| l@) =~= Seq::<Seq<char>>::empty());
        }
        return out;
    }
    let mut pieces = split_pieces(v, '\n');
    let ghost pv = split_nl(v@);
    let last_nl = v[v.len() - 1] == '\n';
    proof {
        assert(v@.last() == v@[v@.len() - 1]);
        lemma_split_nonempty(v@, '\n');
    }
    let take = if last_nl {
        pieces.len() - 1
    } else {
        pieces.len()
    };
    let ghost target = if last_nl {
        pv.drop_last()
    } else {
        pv
    };
    let mut out: Vec<Vec<char>> = Vec::new();
    let mut k: usize = 0;
    proof {
        assert(target =~= pv.subrange(0, take as int));
        assert(out@.map_values(|l: Vec<char>| l@) =~= target.subrange(0, 0).map_values(
            |l: Seq<char>| strip_cr(l),
        ));
    }
    while k < take
        invariant
            k <= take,
            take <= pieces@.len(),
            pieces@.map_values(|l: Vec<char>| l@) == pv,
            target == pv.subrange(0, take as int),
            out@.map_values(|l: Vec<char>| l@) == target.subrange(0, k as int).map_values(
                |l: Seq<char>| strip_cr(l),
            ),
        decreases take - k,
    {
        proof {
            assert(pv[k as int] == pieces@[k as int]@);
        }
        let mut piece: Vec<char> = Vec::new();
        let plen = pieces[k].len();
        let mut t: usize = 0;
        let cut = if plen > 0 && pieces[k][plen - 1] == '\r' {
            plen - 1
        } else {
            plen
        };
        proof {
            if pv[k as int].len() > 0 {
                assert(pv[k as int].last() == pv[k as int][pv[k as int].len() - 1]);
            }
            assert(strip_cr(pv[k as int]) =~= pv[k as int].subrange(0, cut as int));
            assert(piece@ =~= pv[k as int].subrange(0, 0));
        }
        while t < cut
            invariant
                t <= cut,
                cut <= pieces@[k as int]@.len(),
                k < pieces@.len(),
                piece@ == pieces@[k as int]@.subrange(0, t as int),
            decreases cut - t,
        {
            piece.push(pieces[k][t]);
            assert(piece@ =~= pieces@[k as int]@.subrange(0, t + 1 as int));
            t = t + 1;
        }
        let ghost o0 = out@;
        out.push(piece);
        proof {
            assert(out@.map_values(|l: Vec<char>| l@) =~= o0.map_values(|l: Vec<char>| l@).push(
                strip_cr(pv[k as int]),
            )) by {
                assert(out@ =~= o0.push(piece));
            }
            assert(target.subrange(0, k + 1).map_values(|l: Seq<char>| strip_cr(l))
                =~= target.subrange(0, k as int).map_values(|l: Seq<char>| strip_cr(l)).push(
                strip_cr(target[k as int]),
            ));
        }
        k = k + 1;
    }
    proof {
        assert(target.subrange(0, take as int) =~= target);
    }
    out
}

/// The decimal digit character of a value below ten./// The decimal digit character of a value below ten.
pub open spec fn dec_digit(d: nat) -> char {
    if d == 0 {
        '0'
    } else if d == 1 {
        '1'
    } else if d == 2 {
        '2'
    } else if d == 3 {
        '3'
    } else if d == 4 {
        '4'
    } else if d == 5 {
        '5'
    } else if d == 6 {
        '6'
    } else if d == 7 {
        '7'
    } else if d == 8 {
        '8'
    } else {
        '9'
    }
}

/// The decimal text of a natural number.
pub open spec fn dec_of(n: nat) -> Seq<char>
    decreases n,
{
    if n < 10 {
        seq![dec_digit(n)]
    } else {
        dec_of(n / 10).push(dec_digit(n % 10))
    }
}

/// The decimal digit character of a value below ten.
pub fn dec_digit_exec(d: usize) -> (r: char)
    requires
        d < 10,
    ensures
        r == dec_digit(d as nat),
{
    if d == 0 {
        '0'
    } else if d == 1 {
        '1'
    } else if d == 2 {
        '2'
    } else if d == 3 {
        '3'
    } else if d == 4 {
        '4'
    } else if d == 5 {
        '5'
    } else if d == 6 {
        '6'
    } else if d == 7 {
        '7'
    } else if d == 8 {
        '8'
    } else {
        '9'
    }
}

/// Append the decimal text of `n`.
pub fn push_dec(out: &mut String, n: usize)
    ensures
        final(out)@ == old(out)@ + dec_of(n as nat),
    decreases n,
{
    if n < 10 {
        push_char(out, dec_digit_exec(n));
        assert(final(out)@ =~= old(out)@ + dec_of(n as nat));
    } else {
        push_dec(out, n / 10);
        push_char(out, dec_digit_exec(n % 10));
        assert(final(out)@ =~= old(out)@ + dec_of(n as nat));
    }
}

} // verus!
