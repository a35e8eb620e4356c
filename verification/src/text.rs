//! Character-level text operations with their mathematical meaning.
//!
//! Every operation here works on `Seq<char>` views: a `&str` or `String` is
//! read into a `Vec<char>` once and then handled with the functions below.

use vstd::prelude::*;

verus! {

broadcast use vstd::string::group_string_axioms;

/// `String::push` appends one character: the view grows by exactly that
/// character at the end.
pub assume_specification[ String::push ](s: &mut String, ch: char)
    ensures
        final(s)@ == old(s)@.push(ch),
;

/// The characters of a string slice, in order.
pub fn chars_of(s: &str) -> (v: Vec<char>)
    ensures
        v@ == s@,
{
    let mut v: Vec<char> = Vec::new();
    let mut it = s.chars();
    assert(vstd::std_specs::iter::IteratorSpec::remaining(&it) == s@);
    loop
        invariant
            v@ + vstd::std_specs::iter::IteratorSpec::remaining(&it) == s@,
            vstd::std_specs::iter::IteratorSpec::obeys_prophetic_iter_laws(&it),
                    vstd::std_specs::iter::IteratorSpec::decrease(&it) is Some,
        decreases vstd::std_specs::iter::IteratorSpec::decrease(&it)->0,
    {
        let ghost before = vstd::std_specs::iter::IteratorSpec::remaining(&it);
        match it.next() {
            Some(c) => {
                assert(before.len() > 0);
                v.push(c);
                assert(v@ + vstd::std_specs::iter::IteratorSpec::remaining(&it) =~= s@);
            },
            None => {
                assert(before.len() == 0);
                assert(v@ =~= s@);
                return v;
            },
        }
    }
}

/// A `String` holding exactly the given characters.
pub fn string_of(v: &[char]) -> (s: String)
    ensures
        s@ == v@,
{
    let mut s = String::new();
    let mut i: usize = 0;
    while i < v.len()
        invariant
            i <= v@.len(),
            s@ == v@.take(i as int),
        decreases v@.len() - i,
    {
        s.push(v[i]);
        i = i + 1;
        assert(s@ =~= v@.take(i as int));
    }
    assert(v@.take(v@.len() as int) =~= v@);
    s
}


/// A copy of the characters `s[lo..hi]`.
pub fn copy_range(s: &[char], lo: usize, hi: usize) -> (r: Vec<char>)
    requires
        lo <= hi <= s@.len(),
    ensures
        r@ == s@.subrange(lo as int, hi as int),
{
    let mut r: Vec<char> = Vec::new();
    let mut i = lo;
    while i < hi
        invariant
            lo <= i <= hi <= s@.len(),
            r@ == s@.subrange(lo as int, i as int),
        decreases hi - i,
    {
        r.push(s[i]);
        i = i + 1;
        assert(r@ =~= s@.subrange(lo as int, i as int));
    }
    r
}

/// Concatenation of two character vectors.
pub fn concat(a: &[char], b: &[char]) -> (r: Vec<char>)
    ensures
        r@ == a@ + b@,
{
    let mut r = copy_range(a, 0, a.len());
    let mut i: usize = 0;
    while i < b.len()
        invariant
            i <= b@.len(),
            r@ == a@ + b@.take(i as int),
        decreases b@.len() - i,
    {
        r.push(b[i]);
        i = i + 1;
        assert(r@ =~= a@ + b@.take(i as int));
    }
    assert(b@.take(b@.len() as int) =~= b@);
    r
}

/// Whether two character sequences are equal.
pub fn chars_eq(a: &[char], b: &[char]) -> (r: bool)
    ensures
        r == (a@ == b@),
{
    if a.len() != b.len() {
        return false;
    }
    let mut i: usize = 0;
    while i < a.len()
        invariant
            a@.len() == b@.len(),
            i <= a@.len(),
            forall|j: int| 0 <= j < i ==> a@[j] == b@[j],
        decreases a@.len() - i,
    {
        if a[i] != b[i] {
            return false;
        }
        i = i + 1;
    }
    assert(a@ =~= b@);
    true
}

/// Whether the characters of a string slice equal those of another.
pub fn str_eq(a: &str, b: &str) -> (r: bool)
    ensures
        r == (a@ == b@),
{
    let x = chars_of(a);
    let y = chars_of(b);
    chars_eq(&x, &y)
}

/// The Unicode `White_Space` property, which `char::is_whitespace` tests.
pub open spec fn is_ws(c: char) -> bool {
    ||| '\t' <= c <= '\r'
    ||| c == ' '
    ||| c == '\u{85}'
    ||| c == '\u{a0}'
    ||| c == '\u{1680}'
    ||| '\u{2000}' <= c <= '\u{200a}'
    ||| c == '\u{2028}'
    ||| c == '\u{2029}'
    ||| c == '\u{202f}'
    ||| c == '\u{205f}'
    ||| c == '\u{3000}'
}

/// Whether a character is Unicode white space.
pub fn is_whitespace(c: char) -> (r: bool)
    ensures
        r == is_ws(c),
{
    ('\t' <= c && c <= '\r') || c == ' ' || c == '\u{85}' || c == '\u{a0}' || c == '\u{1680}'
        || ('\u{2000}' <= c && c <= '\u{200a}') || c == '\u{2028}' || c == '\u{2029}'
        || c == '\u{202f}' || c == '\u{205f}' || c == '\u{3000}'
}

/// `s` without its leading white space.
pub open spec fn trim_start(s: Seq<char>) -> Seq<char>
    decreases s.len(),
{
    if s.len() > 0 && is_ws(s[0]) {
        trim_start(s.drop_first())
    } else {
        s
    }
}

/// `trim_start` leaves a suffix of the text, and the whole text when it
/// does not start with white space.
pub proof fn lemma_trim_start_suffix(s: Seq<char>)
    ensures
        trim_start(s).len() <= s.len(),
        trim_start(s) == s.skip(s.len() - trim_start(s).len()),
        s.len() > 0 && !is_ws(s[0]) ==> trim_start(s) == s,
    decreases s.len(),
{
    if s.len() > 0 && is_ws(s[0]) {
        lemma_trim_start_suffix(s.drop_first());
        assert(s.drop_first().skip(s.drop_first().len() - trim_start(s).len()) =~= s.skip(
            s.len() - trim_start(s).len(),
        ));
    } else {
        assert(s.skip(0) =~= s);
    }
}

/// `s` without its trailing white space.
pub open spec fn trim_end(s: Seq<char>) -> Seq<char>
    decreases s.len(),
{
    if s.len() > 0 && is_ws(s.last()) {
        trim_end(s.drop_last())
    } else {
        s
    }
}

/// `s` without leading and trailing white space (what `str::trim` gives).
pub open spec fn trim(s: Seq<char>) -> Seq<char> {
    trim_end(trim_start(s))
}

/// Index of the first character of `s` that is not white space.
pub fn trim_start_index(s: &[char]) -> (i: usize)
    ensures
        i <= s@.len(),
        trim_start(s@) == s@.skip(i as int),
{
    let mut i: usize = 0;
    assert(s@.skip(0) =~= s@);
    while i < s.len() && is_whitespace(s[i])
        invariant
            i <= s@.len(),
            trim_start(s@) == trim_start(s@.skip(i as int)),
        decreases s@.len() - i,
    {
        assert(s@.skip(i as int).drop_first() =~= s@.skip(i + 1));
        i = i + 1;
    }
    i
}

/// The characters of `s` without leading white space.
pub fn trim_start_chars(s: &[char]) -> (r: Vec<char>)
    ensures
        r@ == trim_start(s@),
{
    let i = trim_start_index(s);
    copy_range(s, i, s.len())
}

/// The characters of `s` without leading and trailing white space.
pub fn trim_chars(s: &[char]) -> (r: Vec<char>)
    ensures
        r@ == trim(s@),
{
    let lo = trim_start_index(s);
    let ghost t = s@.skip(lo as int);
    let mut hi: usize = s.len();
    assert(s@.subrange(lo as int, hi as int) =~= t);
    while hi > lo && is_whitespace(s[hi - 1])
        invariant
            lo <= hi <= s@.len(),
            t == s@.skip(lo as int),
            trim_end(t) == trim_end(s@.subrange(lo as int, hi as int)),
        decreases hi,
    {
        assert(s@.subrange(lo as int, hi as int).drop_last() =~= s@.subrange(lo as int, hi - 1));
        hi = hi - 1;
    }
    copy_range(s, lo, hi)
}

/// Whether `s` begins with `p`.
pub open spec fn has_prefix(s: Seq<char>, p: Seq<char>) -> bool {
    p.len() <= s.len() && s.take(p.len() as int) == p
}

/// Whether `s` ends with `p`.
pub open spec fn has_suffix(s: Seq<char>, p: Seq<char>) -> bool {
    p.len() <= s.len() && s.skip(s.len() - p.len()) == p
}

/// Whether `s` begins with `p`.
pub fn starts_with(s: &[char], p: &[char]) -> (r: bool)
    ensures
        r == has_prefix(s@, p@),
{
    if p.len() > s.len() {
        return false;
    }
    let mut i: usize = 0;
    while i < p.len()
        invariant
            p@.len() <= s@.len(),
            i <= p@.len(),
            forall|j: int| 0 <= j < i ==> s@[j] == p@[j],
        decreases p@.len() - i,
    {
        if s[i] != p[i] {
            assert(s@.take(p@.len() as int)[i as int] != p@[i as int]);
            return false;
        }
        i = i + 1;
    }
    assert(s@.take(p@.len() as int) =~= p@);
    true
}

/// Whether `s` ends with `p`.
pub fn ends_with(s: &[char], p: &[char]) -> (r: bool)
    ensures
        r == has_suffix(s@, p@),
{
    if p.len() > s.len() {
        return false;
    }
    let off = s.len() - p.len();
    let mut i: usize = 0;
    while i < p.len()
        invariant
            p@.len() <= s@.len(),
            off == s@.len() - p@.len(),
            s@.len() == s.len(),
            i <= p@.len(),
            forall|j: int| 0 <= j < i ==> s@[off + j] == p@[j],
        decreases p@.len() - i,
    {
        if s[off + i] != p[i] {
            assert(s@.skip(off as int)[i as int] != p@[i as int]);
            return false;
        }
        i = i + 1;
    }
    assert(s@.skip(off as int) =~= p@);
    true
}

/// A text whose first character differs from that of a non-empty prefix
/// does not start with that prefix.
pub proof fn lemma_other_prefix(t: Seq<char>, p: Seq<char>)
    requires
        t.len() > 0,
        p.len() > 0,
    ensures
        has_prefix(t, p) ==> t[0] == p[0],
{
    if has_prefix(t, p) {
        assert(t.take(p.len() as int)[0] == t[0]);
    }
}

/// `s` without the prefix `p`, when `s` begins with `p` (what `str::strip_prefix` gives).
pub open spec fn strip_prefix(s: Seq<char>, p: Seq<char>) -> Option<Seq<char>> {
    if has_prefix(s, p) {
        Some(s.skip(p.len() as int))
    } else {
        None
    }
}

/// `s` without the suffix `p`, when `s` ends with `p` (what `str::strip_suffix` gives).
pub open spec fn strip_suffix(s: Seq<char>, p: Seq<char>) -> Option<Seq<char>> {
    if has_suffix(s, p) {
        Some(s.take(s.len() - p.len()))
    } else {
        None
    }
}

/// The characters an optional vector holds.
pub open spec fn opt_chars(o: Option<Vec<char>>) -> Option<Seq<char>> {
    match o {
        Some(v) => Some(v@),
        None => None,
    }
}

/// `s` without the prefix `p`, when `s` begins with `p`.
pub fn strip_prefix_chars(s: &[char], p: &[char]) -> (r: Option<Vec<char>>)
    ensures
        opt_chars(r) == strip_prefix(s@, p@),
{
    if starts_with(s, p) {
        Some(copy_range(s, p.len(), s.len()))
    } else {
        None
    }
}

/// `s` without the prefix given by a string literal or slice.
pub fn strip_prefix_str(s: &[char], p: &str) -> (r: Option<Vec<char>>)
    ensures
        opt_chars(r) == strip_prefix(s@, p@),
{
    let pc = chars_of(p);
    strip_prefix_chars(s, &pc)
}

/// `s` without the suffix given by a string literal or slice.
pub fn strip_suffix_str(s: &[char], p: &str) -> (r: Option<Vec<char>>)
    ensures
        opt_chars(r) == strip_suffix(s@, p@),
{
    let pc = chars_of(p);
    if ends_with(s, &pc) {
        Some(copy_range(s, 0, s.len() - pc.len()))
    } else {
        None
    }
}

/// Whether `s` begins with the given string.
pub fn starts_with_str(s: &[char], p: &str) -> (r: bool)
    ensures
        r == has_prefix(s@, p@),
{
    let pc = chars_of(p);
    starts_with(s, &pc)
}

/// Whether `s` consists of the characters of the given string.
pub fn eq_str(s: &[char], p: &str) -> (r: bool)
    ensures
        r == (s@ == p@),
{
    let pc = chars_of(p);
    chars_eq(s, &pc)
}


/// Whether `p` occurs in `s` starting at index `i`.
pub open spec fn occurs_at(s: Seq<char>, p: Seq<char>, i: int) -> bool {
    0 <= i && i + p.len() <= s.len() && s.subrange(i, i + p.len()) == p
}

/// The first index at or after `from` where `p` occurs in `s`.
pub open spec fn find_from(s: Seq<char>, p: Seq<char>, from: nat) -> Option<nat>
    decreases s.len() + 1 - from,
{
    if from + p.len() > s.len() {
        None
    } else if occurs_at(s, p, from as int) {
        Some(from)
    } else {
        find_from(s, p, from + 1)
    }
}

/// The first index where `p` occurs in `s` (what `str::find` gives).
pub open spec fn find(s: Seq<char>, p: Seq<char>) -> Option<nat> {
    find_from(s, p, 0)
}

/// The last index at or before `i` where `p` occurs in `s`.
pub open spec fn rfind_from(s: Seq<char>, p: Seq<char>, i: int) -> Option<nat>
    decreases i + 1,
{
    if i < 0 {
        None
    } else if occurs_at(s, p, i) {
        Some(i as nat)
    } else {
        rfind_from(s, p, i - 1)
    }
}

/// The last index where `p` occurs in `s` (what `str::rfind` gives).
pub open spec fn rfind(s: Seq<char>, p: Seq<char>) -> Option<nat> {
    rfind_from(s, p, s.len() - p.len())
}

/// `find_from` gives the first occurrence at or after `from`, and none only
/// when there is none there.
pub proof fn lemma_find_from(s: Seq<char>, p: Seq<char>, from: nat)
    ensures
        match find_from(s, p, from) {
            Some(k) => from <= k && occurs_at(s, p, k as int) && forall|i: int|
                from <= i < k ==> !#[trigger] occurs_at(s, p, i),
            None => forall|i: int| from <= i ==> !#[trigger] occurs_at(s, p, i),
        },
    decreases s.len() + 1 - from,
{
    if from + p.len() <= s.len() && !occurs_at(s, p, from as int) {
        lemma_find_from(s, p, from + 1);
    }
}

/// `rfind_from` finds nothing where nothing occurs at or before `i`.
pub proof fn lemma_rfind_from_none(s: Seq<char>, p: Seq<char>, i: int)
    requires
        forall|j: int| 0 <= j <= i ==> !#[trigger] occurs_at(s, p, j),
    ensures
        rfind_from(s, p, i) is None,
    decreases i + 1,
{
    if i >= 0 {
        lemma_rfind_from_none(s, p, i - 1);
    }
}

/// Where `find` finds nothing, so does `rfind`.
pub proof fn lemma_rfind_none_of_find_none(s: Seq<char>, p: Seq<char>)
    requires
        find(s, p) is None,
    ensures
        rfind(s, p) is None,
{
    lemma_find_from(s, p, 0);
    lemma_rfind_from_none(s, p, s.len() - p.len());
}

/// Whether `p` occurs in `s` at index `i`.
pub fn occurs_at_exec(s: &[char], p: &[char], i: usize) -> (r: bool)
    ensures
        r == occurs_at(s@, p@, i as int),
{
    if i > s.len() || p.len() > s.len() - i {
        return false;
    }
    let mut k: usize = 0;
    while k < p.len()
        invariant
            i + p@.len() <= s@.len(),
            s@.len() == s.len(),
            k <= p@.len(),
            forall|j: int| 0 <= j < k ==> s@[i + j] == p@[j],
        decreases p@.len() - k,
    {
        if s[i + k] != p[k] {
            assert(s@.subrange(i as int, i + p@.len())[k as int] != p@[k as int]);
            return false;
        }
        k = k + 1;
    }
    assert(s@.subrange(i as int, i + p@.len()) =~= p@);
    true
}

/// The first index where `p` occurs in `s`.
pub fn find_chars(s: &[char], p: &[char]) -> (r: Option<usize>)
    ensures
        match r {
            Some(i) => find(s@, p@) == Some(i as nat) && occurs_at(s@, p@, i as int),
            None => find(s@, p@) is None,
        },
{
    let mut i: usize = 0;
    while i <= s.len() && p.len() <= s.len() - i
        invariant
            s@.len() == s.len(),
            i <= s@.len(),
            find(s@, p@) == find_from(s@, p@, i as nat),
        decreases s@.len() + 1 - i,
    {
        if occurs_at_exec(s, p, i) {
            return Some(i);
        }
        if i == s.len() {
            assert(find_from(s@, p@, (i + 1) as nat) is None);
            return None;
        }
        i = i + 1;
    }
    None
}

/// The last index where `p` occurs in `s`.
pub fn rfind_chars(s: &[char], p: &[char]) -> (r: Option<usize>)
    ensures
        match r {
            Some(i) => rfind(s@, p@) == Some(i as nat) && occurs_at(s@, p@, i as int),
            None => rfind(s@, p@) is None,
        },
{
    if p.len() > s.len() {
        return None;
    }
    let mut i: usize = s.len() - p.len();
    loop
        invariant
            s@.len() == s.len(),
            i + p@.len() <= s@.len(),
            rfind(s@, p@) == rfind_from(s@, p@, i as int),
        decreases i,
    {
        if occurs_at_exec(s, p, i) {
            return Some(i);
        }
        if i == 0 {
            assert(rfind_from(s@, p@, -1) is None);
            return None;
        }
        i = i - 1;
    }
}

/// The Unicode `Alphabetic` or `Numeric` property, which `char::is_alphanumeric` tests.
pub uninterp spec fn char_is_alphanumeric(c: char) -> bool;

/// `char::is_alphanumeric` reports whether a character is alphabetic or
/// numeric in Unicode's tables; the contract names that result and claims
/// nothing more about it.
pub assume_specification[ char::is_alphanumeric ](c: char) -> (r: bool)
    ensures
        r == char_is_alphanumeric(c),
;

/// A character that may stand in an identifier: alphanumeric or `_`.
pub open spec fn is_ident_char(c: char) -> bool {
    char_is_alphanumeric(c) || c == '_'
}

/// The longest prefix of `s` made of identifier characters.
pub open spec fn ident_prefix(s: Seq<char>) -> Seq<char>
    decreases s.len(),
{
    if s.len() > 0 && is_ident_char(s[0]) {
        seq![s[0]] + ident_prefix(s.drop_first())
    } else {
        seq![]
    }
}

/// The longest prefix of `s` made of alphanumeric characters and `_`.
pub fn take_ident(s: &[char]) -> (r: Vec<char>)
    ensures
        r@ == ident_prefix(s@),
{
    let mut i: usize = 0;
    assert(s@.skip(0) =~= s@);
    assert(s@.take(0) + ident_prefix(s@.skip(0)) =~= ident_prefix(s@));
    while i < s.len() && (s[i].is_alphanumeric() || s[i] == '_')
        invariant
            i <= s@.len(),
            ident_prefix(s@) == s@.take(i as int) + ident_prefix(s@.skip(i as int)),
        decreases s@.len() - i,
    {
        assert(s@.skip(i as int).drop_first() =~= s@.skip(i + 1));
        assert(s@.take(i + 1) =~= s@.take(i as int) + seq![s@[i as int]]);
        assert(s@.take(i as int) + ident_prefix(s@.skip(i as int)) =~= s@.take(i + 1)
            + ident_prefix(s@.skip(i + 1)));
        i = i + 1;
    }
    assert(ident_prefix(s@.skip(i as int)) =~= seq![]);
    assert(ident_prefix(s@) =~= s@.take(i as int));
    copy_range(s, 0, i)
}

/// A line with one trailing carriage return removed, if it has one.
pub open spec fn strip_cr(l: Seq<char>) -> Seq<char> {
    if l.len() > 0 && l.last() == '\r' {
        l.drop_last()
    } else {
        l
    }
}

/// The lines of `s` that a newline has ended so far, and the text after the
/// last newline.
pub open spec fn split_lines(s: Seq<char>) -> (Seq<Seq<char>>, Seq<char>)
    decreases s.len(),
{
    if s.len() == 0 {
        (seq![], seq![])
    } else {
        let (done, cur) = split_lines(s.drop_last());
        if s.last() == '\n' {
            (done.push(strip_cr(cur)), seq![])
        } else {
            (done, cur.push(s.last()))
        }
    }
}

/// The lines of `s` as `str::lines` yields them: split at `\n`, a `\r`
/// before the `\n` removed, and no empty line after a final newline.
pub open spec fn lines_of(s: Seq<char>) -> Seq<Seq<char>> {
    let (done, cur) = split_lines(s);
    if cur.len() == 0 {
        done
    } else {
        done.push(cur)
    }
}

/// The views of a sequence of character vectors.
pub open spec fn views(v: Seq<Vec<char>>) -> Seq<Seq<char>> {
    v.map_values(|l: Vec<char>| l@)
}

/// The lines of `s`.
pub fn lines(s: &[char]) -> (r: Vec<Vec<char>>)
    ensures
        views(r@) == lines_of(s@),
{
    let mut done: Vec<Vec<char>> = Vec::new();
    let mut cur: Vec<char> = Vec::new();
    let mut i: usize = 0;
    assert(s@.take(0) =~= Seq::<char>::empty());
    assert(views(done@) =~= Seq::<Seq<char>>::empty());
    while i < s.len()
        invariant
            i <= s@.len(),
            (views(done@), cur@) == split_lines(s@.take(i as int)),
        decreases s@.len() - i,
    {
        let c = s[i];
        let ghost pre = s@.take(i as int);
        assert(s@.take(i + 1).drop_last() =~= pre);
        assert(s@.take(i + 1).last() == c);
        if c == '\n' {
            if cur.len() > 0 && cur[cur.len() - 1] == '\r' {
                cur.pop();
            }
            let ghost old_done = views(done@);
            done.push(cur);
            assert(views(done@) =~= old_done.push(strip_cr(split_lines(pre).1)));
            cur = Vec::new();
        } else {
            cur.push(c);
        }
        i = i + 1;
    }
    assert(s@.take(s@.len() as int) =~= s@);
    if cur.len() > 0 {
        let ghost old_done = views(done@);
        done.push(cur);
        assert(views(done@) =~= old_done.push(split_lines(s@).1));
    }
    done
}


/// The decimal digit for `d < 10`.
pub open spec fn digit_char(d: nat) -> char {
    seq!['0', '1', '2', '3', '4', '5', '6', '7', '8', '9'][d as int]
}

/// The decimal notation of `n`, without leading zeros.
pub open spec fn decimal(n: nat) -> Seq<char>
    decreases n,
{
    if n < 10 {
        seq![digit_char(n)]
    } else {
        decimal(n / 10).push(digit_char(n % 10))
    }
}

/// The decimal digit for `d < 10`.
pub fn digit(d: usize) -> (c: char)
    requires
        d < 10,
    ensures
        c == digit_char(d as nat),
{
    if d == 0 {
        '0'
    } else if d == 1 {
        '1'
    } else if d == 2 {
        '2'
    } else if d == 3 {
        '3'
    } else if d == 4 {
        '4'
    } else if d == 5 {
        '5'
    } else if d == 6 {
        '6'
    } else if d == 7 {
        '7'
    } else if d == 8 {
        '8'
    } else {
        '9'
    }
}

/// Appends the decimal notation of `n` to `s`.
pub fn push_decimal(s: &mut String, n: usize)
    ensures
        final(s)@ == old(s)@ + decimal(n as nat),
    decreases n,
{
    if n >= 10 {
        push_decimal(s, n / 10);
    }
    s.push(digit(n % 10));
    assert(final(s)@ =~= old(s)@ + decimal(n as nat));
}

/// Appends the characters of `t` to `s`.
pub fn push_str(s: &mut String, t: &str)
    ensures
        final(s)@ == old(s)@ + t@,
{
    let v = chars_of(t);
    let mut i: usize = 0;
    let ghost s0 = s@;
    while i < v.len()
        invariant
            i <= v@.len(),
            v@ == t@,
            s@ == s0 + v@.take(i as int),
        decreases v@.len() - i,
    {
        s.push(v[i]);
        i = i + 1;
        assert(s@ =~= s0 + v@.take(i as int));
    }
    assert(v@.take(v@.len() as int) =~= v@);
}

/// The pieces joined with `sep` between each two (what `[String]::join` gives).
pub open spec fn join(parts: Seq<Seq<char>>, sep: Seq<char>) -> Seq<char>
    decreases parts.len(),
{
    if parts.len() == 0 {
        seq![]
    } else if parts.len() == 1 {
        parts[0]
    } else {
        join(parts.drop_last(), sep) + sep + parts.last()
    }
}

/// The views of a sequence of strings.
pub open spec fn string_views(v: Seq<String>) -> Seq<Seq<char>> {
    v.map_values(|x: String| x@)
}

/// The strings joined with `sep` between each two.
pub fn join_strings(parts: &Vec<String>, sep: &str) -> (r: String)
    ensures
        r@ == join(string_views(parts@), sep@),
{
    let mut r = String::new();
    let mut i: usize = 0;
    while i < parts.len()
        invariant
            i <= parts@.len(),
            r@ == join(string_views(parts@).take(i as int), sep@),
        decreases parts@.len() - i,
    {
        let ghost pre = string_views(parts@).take(i as int);
        assert(string_views(parts@).take(i + 1).drop_last() =~= pre);
        if i > 0 {
            push_str(&mut r, sep);
        }
        push_str(&mut r, parts[i].as_str());
        i = i + 1;
        assert(r@ =~= join(string_views(parts@).take(i as int), sep@));
    }
    assert(string_views(parts@).take(parts@.len() as int) =~= string_views(parts@));
    r
}


/// The total number of characters in a sequence of lines.
pub open spec fn total_len(ls: Seq<Seq<char>>) -> nat
    decreases ls.len(),
{
    if ls.len() == 0 {
        0
    } else {
        total_len(ls.drop_last()) + ls.last().len()
    }
}

/// The lines of a text hold at most as many characters as the text.
pub proof fn lemma_lines_total_len(s: Seq<char>)
    ensures
        total_len(lines_of(s)) <= s.len(),
{
    lemma_split_lines_len(s);
    let (done, cur) = split_lines(s);
    if cur.len() > 0 {
        assert(done.push(cur).drop_last() =~= done);
    }
}

/// The ended lines and the open line together hold at most the characters of
/// the text.
pub proof fn lemma_split_lines_len(s: Seq<char>)
    ensures
        total_len(split_lines(s).0) + split_lines(s).1.len() <= s.len(),
    decreases s.len(),
{
    if s.len() > 0 {
        lemma_split_lines_len(s.drop_last());
        let (done, cur) = split_lines(s.drop_last());
        if s.last() == '\n' {
            assert(done.push(strip_cr(cur)).drop_last() =~= done);
        }
    }
}

/// Each finished line took a newline, and an unfinished one a character:
/// there are no more lines than characters.
pub proof fn lemma_split_lines_count(s: Seq<char>)
    ensures
        split_lines(s).0.len() + (if split_lines(s).1.len() > 0 { 1int } else { 0int }) <= s.len(),
        lines_of(s).len() <= s.len(),
    decreases s.len(),
{
    if s.len() > 0 {
        lemma_split_lines_count(s.drop_last());
    }
}

/// A prefix of the lines holds the characters of a shorter prefix plus those
/// of the lines in between.
pub proof fn lemma_total_len_take(ls: Seq<Seq<char>>, i: int)
    requires
        0 <= i < ls.len(),
    ensures
        total_len(ls.take(i + 1)) == total_len(ls.take(i)) + ls[i].len(),
        total_len(ls.take(i + 1)) <= total_len(ls),
    decreases ls.len(),
{
    assert(ls.take(i + 1).drop_last() =~= ls.take(i));
    if i + 1 < ls.len() {
        lemma_total_len_take(ls.drop_last(), i);
        assert(ls.drop_last().take(i + 1) =~= ls.take(i + 1));
    } else {
        assert(ls.take(i + 1) =~= ls);
    }
}

/// `s` without all of its trailing `c` characters (what
/// `str::trim_end_matches(c)` gives).
pub open spec fn trim_end_char(s: Seq<char>, c: char) -> Seq<char>
    decreases s.len(),
{
    if s.len() > 0 && s.last() == c {
        trim_end_char(s.drop_last(), c)
    } else {
        s
    }
}

/// The characters of `s` without all of its trailing `c` characters.
pub fn trim_end_char_chars(s: &[char], c: char) -> (r: Vec<char>)
    ensures
        r@ == trim_end_char(s@, c),
{
    let mut hi = s.len();
    assert(s@.take(hi as int) =~= s@);
    while hi > 0 && s[hi - 1] == c
        invariant
            hi <= s@.len(),
            trim_end_char(s@, c) == trim_end_char(s@.take(hi as int), c),
        decreases hi,
    {
        assert(s@.take(hi as int).drop_last() =~= s@.take(hi - 1));
        hi = hi - 1;
    }
    copy_range(s, 0, hi)
}


/// Splitting text that follows an ended line continues the earlier split.
pub proof fn lemma_split_lines_append(p: Seq<char>, q: Seq<char>)
    requires
        split_lines(p).1.len() == 0,
    ensures
        split_lines(p + q) == (split_lines(p).0 + split_lines(q).0, split_lines(q).1),
    decreases q.len(),
{
    if q.len() == 0 {
        assert(p + q =~= p);
        assert(split_lines(p).0 + Seq::<Seq<char>>::empty() =~= split_lines(p).0);
    } else {
        lemma_split_lines_append(p, q.drop_last());
        assert((p + q).drop_last() =~= p + q.drop_last());
        assert((p + q).last() == q.last());
        let (dq, cq) = split_lines(q.drop_last());
        if q.last() == '\n' {
            assert((split_lines(p).0 + dq).push(strip_cr(cq)) =~= split_lines(p).0 + dq.push(
                strip_cr(cq),
            ));
        }
    }
}

/// The lines of `a`, a newline and `b`: the lines `a` ends (its last line
/// ended by the newline) and then the lines of `b`.
pub proof fn lemma_lines_of_joined(a: Seq<char>, b: Seq<char>)
    ensures
        lines_of(a + seq!['\n'] + b) == split_lines(a).0.push(strip_cr(split_lines(a).1))
            + lines_of(b),
{
    let p = a + seq!['\n'];
    assert(p.drop_last() =~= a);
    assert(split_lines(p) == (split_lines(a).0.push(strip_cr(split_lines(a).1)), Seq::<char>::empty()));
    lemma_split_lines_append(p, b);
    assert(a + seq!['\n'] + b =~= p + b);
    let (db, cb) = split_lines(b);
    if cb.len() > 0 {
        assert((split_lines(p).0 + db).push(cb) =~= split_lines(p).0 + db.push(cb));
    }
}

/// Removing white space at the end of a text does not change its trimmed
/// form.
pub proof fn lemma_trim_drop_last_ws(s: Seq<char>)
    requires
        s.len() > 0,
        is_ws(s.last()),
    ensures
        trim(s.drop_last()) == trim(s),
    decreases s.len(),
{
    if is_ws(s[0]) {
        if s.len() == 1 {
            assert(s.drop_first() =~= Seq::<char>::empty());
            assert(s.drop_last() =~= Seq::<char>::empty());
        } else {
            lemma_trim_drop_last_ws(s.drop_first());
            assert(s.drop_first().drop_last() =~= s.drop_last().drop_first());
        }
    } else {
        assert(s.len() >= 2);
        assert(s.drop_last()[0] == s[0]);
    }
}

/// A line's trimmed form does not depend on a trailing carriage return.
pub proof fn lemma_trim_strip_cr(s: Seq<char>)
    ensures
        trim(strip_cr(s)) == trim(s),
{
    if s.len() > 0 && s.last() == '\r' {
        lemma_trim_drop_last_ws(s);
    }
}

} // verus!
