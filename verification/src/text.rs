//! Text as sequences of characters: trimming, searching, splitting and joining.

use vstd::prelude::*;

verus! {

/// The characters with the Unicode property `White_Space`.
pub open spec fn is_space(c: char) -> bool {
    let v = c as u32;
    ||| 0x09 <= v <= 0x0d
    ||| v == 0x20
    ||| v == 0x85
    ||| v == 0xa0
    ||| v == 0x1680
    ||| 0x2000 <= v <= 0x200a
    ||| v == 0x2028
    ||| v == 0x2029
    ||| v == 0x202f
    ||| v == 0x205f
    ||| v == 0x3000
}

/// `s` without its leading white space.
pub open spec fn left_trimmed(s: Seq<char>) -> Seq<char>
    decreases s.len(),
{
    if s.len() > 0 && is_space(s.first()) {
        left_trimmed(s.drop_first())
    } else {
        s
    }
}

/// `s` without its trailing white space.
pub open spec fn right_trimmed(s: Seq<char>) -> Seq<char>
    decreases s.len(),
{
    if s.len() > 0 && is_space(s.last()) {
        right_trimmed(s.drop_last())
    } else {
        s
    }
}

/// `s` without white space at either end.
pub open spec fn trimmed(s: Seq<char>) -> Seq<char> {
    right_trimmed(left_trimmed(s))
}

/// Trimming on the left gives the end of a text, without white space before it.
pub proof fn lemma_left_trimmed(s: Seq<char>)
    ensures
        left_trimmed(s).len() <= s.len(),
        left_trimmed(s) == s.skip(s.len() - left_trimmed(s).len()),
        left_trimmed(s).len() > 0 ==> !is_space(left_trimmed(s).first()),
        left_trimmed(s) == s <==> (s.len() == 0 || !is_space(s.first())),
    decreases s.len(),
{
    if s.len() > 0 && is_space(s.first()) {
        lemma_left_trimmed(s.drop_first());
        assert(left_trimmed(s) =~= s.skip(s.len() - left_trimmed(s).len()));
    } else {
        assert(s.skip(0) =~= s);
    }
}

/// Trimming on the right gives the beginning of a text, without white space behind it.
pub proof fn lemma_right_trimmed(s: Seq<char>)
    ensures
        right_trimmed(s).len() <= s.len(),
        right_trimmed(s) == s.take(right_trimmed(s).len() as int),
        right_trimmed(s).len() > 0 ==> !is_space(right_trimmed(s).last()),
        right_trimmed(s) == s <==> (s.len() == 0 || !is_space(s.last())),
    decreases s.len(),
{
    if s.len() > 0 && is_space(s.last()) {
        lemma_right_trimmed(s.drop_last());
        assert(right_trimmed(s) =~= s.take(right_trimmed(s).len() as int));
    } else {
        assert(s.take(s.len() as int) =~= s);
    }
}

/// A text is trimmed if and only if it neither begins nor ends with white space.
pub proof fn lemma_trimmed_is(s: Seq<char>)
    ensures
        trimmed(s) == s <==> (s.len() == 0 || (!is_space(s.first()) && !is_space(s.last()))),
        trimmed(s).len() <= s.len(),
        trimmed(s).len() > 0 ==> !is_space(trimmed(s).first()) && !is_space(trimmed(s).last()),
{
    let l = left_trimmed(s);
    lemma_left_trimmed(s);
    lemma_right_trimmed(l);
    if trimmed(s) == s {
        assert(l.len() == s.len());
        assert(s.skip(0) =~= s);
        assert(l == s);
    }
    if trimmed(s).len() > 0 {
        assert(trimmed(s).first() == l.first());
    }
}

/// Whether a character is white space.
pub fn is_white(c: char) -> (r: bool)
    ensures
        r == is_space(c),
{
    let v = c as u32;
    (0x09 <= v && v <= 0x0d) || v == 0x20 || v == 0x85 || v == 0xa0 || v == 0x1680 || (0x2000 <= v
        && v <= 0x200a) || v == 0x2028 || v == 0x2029 || v == 0x202f || v == 0x205f || v == 0x3000
}

/// The characters of a text, in order.
pub fn chars_of(s: &str) -> (v: Vec<char>)
    ensures
        v@ == s@,
{
    let mut v: Vec<char> = Vec::new();
    for c in it: s.chars()
        invariant
            v@ == it.seq().take(it.index() as int),
    {
        v.push(c);
    }
    v
}

/// Whether two texts are equal.
pub fn same(a: &str, b: &str) -> (r: bool)
    ensures
        r == (a@ == b@),
{
    a.to_owned() == b.to_owned()
}

/// `s` without white space at either end.
pub fn trim(s: &str) -> (r: &str)
    ensures
        r@ == trimmed(s@),
{
    let chars: Vec<char> = chars_of(s);
    let n: usize = chars.len();
    let mut i: usize = 0;
    assert(s@.skip(0) =~= s@);
    while i < n && is_white(chars[i])
        invariant
            i <= n,
            n == chars@.len(),
            chars@ == s@,
            left_trimmed(s@) == left_trimmed(s@.skip(i as int)),
        decreases n - i,
    {
        proof {
            assert(s@.skip(i as int).drop_first() =~= s@.skip(i + 1));
        }
        i = i + 1;
    }
    let mut j: usize = n;
    assert(s@.skip(i as int) =~= s@.subrange(i as int, n as int));
    while i < j && is_white(chars[j - 1])
        invariant
            i <= j <= n,
            n == chars@.len(),
            chars@ == s@,
            right_trimmed(s@.skip(i as int)) == right_trimmed(s@.subrange(i as int, j as int)),
        decreases j - i,
    {
        proof {
            assert(s@.subrange(i as int, j as int).drop_last() =~= s@.subrange(i as int, j - 1));
        }
        j = j - 1;
    }
    s.substring_char(i, j)
}

/// `s` without its leading white space.
pub fn trim_start(s: &str) -> (r: &str)
    ensures
        r@ == left_trimmed(s@),
{
    let chars: Vec<char> = chars_of(s);
    let n: usize = chars.len();
    let mut i: usize = 0;
    assert(s@.skip(0) =~= s@);
    while i < n && is_white(chars[i])
        invariant
            i <= n,
            n == chars@.len(),
            chars@ == s@,
            left_trimmed(s@) == left_trimmed(s@.skip(i as int)),
        decreases n - i,
    {
        proof {
            assert(s@.skip(i as int).drop_first() =~= s@.skip(i + 1));
        }
        i = i + 1;
    }
    assert(s@.skip(i as int) =~= s@.subrange(i as int, n as int));
    s.substring_char(i, n)
}

// ---------------------------------------------------------------------------
// One character at an end
// ---------------------------------------------------------------------------

/// `s` without its leading characters equal to `c`.
pub open spec fn without_leading(s: Seq<char>, c: char) -> Seq<char>
    decreases s.len(),
{
    if s.len() > 0 && s.first() == c {
        without_leading(s.drop_first(), c)
    } else {
        s
    }
}

/// `s` without its trailing characters equal to `c`.
pub open spec fn without_trailing(s: Seq<char>, c: char) -> Seq<char>
    decreases s.len(),
{
    if s.len() > 0 && s.last() == c {
        without_trailing(s.drop_last(), c)
    } else {
        s
    }
}

/// `s` without its leading characters equal to `c`.
pub fn strip_leading(s: &str, c: char) -> (r: &str)
    ensures
        r@ == without_leading(s@, c),
{
    let chars: Vec<char> = chars_of(s);
    let n: usize = chars.len();
    let mut i: usize = 0;
    assert(s@.skip(0) =~= s@);
    while i < n && chars[i] == c
        invariant
            i <= n,
            n == chars@.len(),
            chars@ == s@,
            without_leading(s@, c) == without_leading(s@.skip(i as int), c),
        decreases n - i,
    {
        proof {
            assert(s@.skip(i as int).drop_first() =~= s@.skip(i + 1));
        }
        i = i + 1;
    }
    assert(s@.skip(i as int) =~= s@.subrange(i as int, n as int));
    s.substring_char(i, n)
}

/// `s` without its trailing characters equal to `c`.
pub fn strip_trailing(s: &str, c: char) -> (r: &str)
    ensures
        r@ == without_trailing(s@, c),
{
    let chars: Vec<char> = chars_of(s);
    let n: usize = chars.len();
    let mut j: usize = n;
    assert(s@.take(n as int) =~= s@);
    while 0 < j && chars[j - 1] == c
        invariant
            j <= n,
            n == chars@.len(),
            chars@ == s@,
            without_trailing(s@, c) == without_trailing(s@.take(j as int), c),
        decreases j,
    {
        proof {
            assert(s@.take(j as int).drop_last() =~= s@.take(j - 1));
        }
        j = j - 1;
    }
    assert(s@.take(j as int) =~= s@.subrange(0, j as int));
    s.substring_char(0, j)
}

// ---------------------------------------------------------------------------
// The order of texts
// ---------------------------------------------------------------------------

/// `a` comes before `b` in the order of their characters, or is the same.
pub open spec fn at_most(a: Seq<char>, b: Seq<char>) -> bool
    decreases a.len(),
{
    if a.len() == 0 {
        true
    } else if b.len() == 0 {
        false
    } else if a.first() == b.first() {
        at_most(a.drop_first(), b.drop_first())
    } else {
        (a.first() as int) < (b.first() as int)
    }
}

/// Of two texts one comes before the other, or they are the same.
pub proof fn lemma_at_most_total(a: Seq<char>, b: Seq<char>)
    ensures
        at_most(a, b) || at_most(b, a),
    decreases a.len(),
{
    if a.len() > 0 && b.len() > 0 && a.first() == b.first() {
        lemma_at_most_total(a.drop_first(), b.drop_first());
    }
}

/// The order of texts is transitive.
pub proof fn lemma_at_most_transitive(a: Seq<char>, b: Seq<char>, c: Seq<char>)
    requires
        at_most(a, b),
        at_most(b, c),
    ensures
        at_most(a, c),
    decreases a.len(),
{
    if a.len() > 0 && a.first() == b.first() && b.first() == c.first() {
        lemma_at_most_transitive(a.drop_first(), b.drop_first(), c.drop_first());
    }
}

fn code(c: char) -> (r: u32)
    ensures
        r == c as int,
{
    c as u32
}

/// Whether `a` comes before `b` in the order of their characters, or is the same.
pub fn in_order(a: &str, b: &str) -> (r: bool)
    ensures
        r == at_most(a@, b@),
{
    let x: Vec<char> = chars_of(a);
    let y: Vec<char> = chars_of(b);
    let mut i: usize = 0;
    assert(a@.skip(0) =~= a@);
    assert(b@.skip(0) =~= b@);
    while i < x.len()
        invariant
            i <= x@.len(),
            i <= y@.len(),
            x@ == a@,
            y@ == b@,
            at_most(a@, b@) == at_most(a@.skip(i as int), b@.skip(i as int)),
        decreases x@.len() - i,
    {
        if i >= y.len() {
            return false;
        }
        assert(a@.skip(i as int).first() == x@[i as int]);
        assert(b@.skip(i as int).first() == y@[i as int]);
        assert(a@.skip(i as int).drop_first() =~= a@.skip(i + 1));
        assert(b@.skip(i as int).drop_first() =~= b@.skip(i + 1));
        if x[i] != y[i] {
            return code(x[i]) < code(y[i]);
        }
        i = i + 1;
    }
    true
}

// ---------------------------------------------------------------------------
// Letter case of ASCII
// ---------------------------------------------------------------------------

/// The character with an ASCII capital letter replaced by its small letter.
pub open spec fn ascii_lower(c: char) -> int {
    let v = c as int;
    if 0x41 <= v <= 0x5a {
        v + 0x20
    } else {
        v
    }
}

/// Two texts are the same but for the case of ASCII letters.
pub open spec fn same_ignoring_case(a: Seq<char>, b: Seq<char>) -> bool {
    &&& a.len() == b.len()
    &&& forall|i: int| #![trigger a[i]] 0 <= i < a.len() ==> ascii_lower(a[i]) == ascii_lower(b[i])
}

fn lower_code(c: char) -> (r: u32)
    ensures
        r == ascii_lower(c),
{
    let v: u32 = c as u32;
    if 0x41 <= v && v <= 0x5a {
        v + 0x20
    } else {
        v
    }
}

/// Whether two texts are the same but for the case of ASCII letters.
pub fn eq_ignore_case(a: &str, b: &str) -> (r: bool)
    ensures
        r == same_ignoring_case(a@, b@),
{
    let x: Vec<char> = chars_of(a);
    let y: Vec<char> = chars_of(b);
    if x.len() != y.len() {
        return false;
    }
    let mut i: usize = 0;
    while i < x.len()
        invariant
            i <= x@.len(),
            x@ == a@,
            y@ == b@,
            x@.len() == y@.len(),
            forall|j: int| #![trigger a@[j]] 0 <= j < i ==> ascii_lower(a@[j]) == ascii_lower(b@[j]),
        decreases x@.len() - i,
    {
        if lower_code(x[i]) != lower_code(y[i]) {
            proof {
                assert(ascii_lower(a@[i as int]) != ascii_lower(b@[i as int]));
            }
            return false;
        }
        i = i + 1;
    }
    true
}

// ---------------------------------------------------------------------------
// Searching
// ---------------------------------------------------------------------------

/// `pat` stands in `s` at position `i`.
pub open spec fn occurs_at(s: Seq<char>, pat: Seq<char>, i: int) -> bool {
    &&& 0 <= i
    &&& i + pat.len() <= s.len()
    &&& s.subrange(i, i + pat.len()) == pat
}

/// `pat` stands somewhere in `s`.
pub open spec fn includes(s: Seq<char>, pat: Seq<char>) -> bool {
    exists|i: int| occurs_at(s, pat, i)
}

/// `s` begins with `pat`.
pub open spec fn begins(s: Seq<char>, pat: Seq<char>) -> bool {
    occurs_at(s, pat, 0)
}

/// `s` ends with `pat`.
pub open spec fn finishes(s: Seq<char>, pat: Seq<char>) -> bool {
    occurs_at(s, pat, s.len() - pat.len())
}

/// The first position, from `from` on, at which `pat` stands in `s`.
pub open spec fn found_from(s: Seq<char>, pat: Seq<char>, from: int) -> Option<int>
    decreases s.len() + 1 - from,
{
    if from < 0 || from + pat.len() > s.len() {
        None
    } else if occurs_at(s, pat, from) {
        Some(from)
    } else {
        found_from(s, pat, from + 1)
    }
}

/// The first position at which `pat` stands in `s`.
pub open spec fn found(s: Seq<char>, pat: Seq<char>) -> Option<int> {
    found_from(s, pat, 0)
}

/// What [`found_from`] finds: an occurrence with none before it, or that there is none.
pub proof fn lemma_found_from(s: Seq<char>, pat: Seq<char>, from: int)
    requires
        0 <= from,
    ensures
        match found_from(s, pat, from) {
            Some(i) => {
                &&& from <= i
                &&& occurs_at(s, pat, i)
                &&& forall|j: int| from <= j < i ==> !occurs_at(s, pat, j)
            },
            None => forall|j: int| from <= j ==> !occurs_at(s, pat, j),
        },
    decreases s.len() + 1 - from,
{
    if from + pat.len() <= s.len() && !occurs_at(s, pat, from) {
        lemma_found_from(s, pat, from + 1);
    }
}

/// The position found is the only one that is an occurrence with none before it.
pub proof fn lemma_found_is(s: Seq<char>, pat: Seq<char>, from: int, i: int)
    requires
        0 <= from <= i,
        occurs_at(s, pat, i),
        forall|j: int| from <= j < i ==> !occurs_at(s, pat, j),
    ensures
        found_from(s, pat, from) == Some(i),
{
    lemma_found_from(s, pat, from);
}

/// A text that differs from `pat` in some position does not begin with it.
pub proof fn lemma_not_begins(s: Seq<char>, pat: Seq<char>, k: int)
    requires
        0 <= k < pat.len(),
        k < s.len(),
        s[k] != pat[k],
    ensures
        !begins(s, pat),
{
    if begins(s, pat) {
        assert(s.subrange(0, pat.len() as int)[k] == pat[k]);
    }
}

/// Whether `pat` stands in `chars` at position `i`.
fn matches_at(chars: &Vec<char>, pat: &Vec<char>, i: usize) -> (r: bool)
    ensures
        r == occurs_at(chars@, pat@, i as int),
{
    let n: usize = chars.len();
    let m: usize = pat.len();
    if m > n || i > n - m {
        return false;
    }
    let mut k: usize = 0;
    while k < m
        invariant
            k <= m,
            n == chars@.len(),
            m == pat@.len(),
            i + m <= n,
            forall|j: int| 0 <= j < k ==> chars@[i + j] == pat@[j],
        decreases m - k,
    {
        if chars[i + k] != pat[k] {
            proof {
                assert(chars@.subrange(i as int, i + m)[k as int] != pat@[k as int]);
            }
            return false;
        }
        k = k + 1;
    }
    assert(chars@.subrange(i as int, i + m) =~= pat@);
    true
}

/// The first position, from `from` on, at which `pat` stands in `chars`.
fn seek(chars: &Vec<char>, pat: &Vec<char>, from: usize) -> (r: Option<usize>)
    ensures
        match r {
            Some(i) => found_from(chars@, pat@, from as int) == Some(i as int),
            None => found_from(chars@, pat@, from as int) is None,
        },
{
    let n: usize = chars.len();
    let m: usize = pat.len();
    if m > n {
        return None;
    }
    let mut i: usize = from;
    while i <= n - m
        invariant
            n == chars@.len(),
            m == pat@.len(),
            m <= n,
            found_from(chars@, pat@, from as int) == found_from(chars@, pat@, i as int),
        decreases n + 1 - i,
    {
        if matches_at(chars, pat, i) {
            return Some(i);
        }
        proof {
            if i == n {
                assert(chars@.subrange(n as int, n as int) =~= pat@);
            }
        }
        i = i + 1;
    }
    None
}

/// The position, counted in characters, of the first `pat` in `s`.
pub fn find(s: &str, pat: &str) -> (r: Option<usize>)
    ensures
        match r {
            Some(i) => found(s@, pat@) == Some(i as int) && i + pat@.len() <= s@.len(),
            None => found(s@, pat@) is None,
        },
{
    let chars: Vec<char> = chars_of(s);
    let p: Vec<char> = chars_of(pat);
    let r: Option<usize> = seek(&chars, &p, 0);
    proof {
        lemma_found_from(s@, pat@, 0);
    }
    r
}

/// Whether `pat` stands in `s`.
pub fn contains(s: &str, pat: &str) -> (r: bool)
    ensures
        r == includes(s@, pat@),
{
    proof {
        lemma_found_from(s@, pat@, 0);
    }
    find(s, pat).is_some()
}

/// Whether `s` begins with `pat`.
pub fn starts_with(s: &str, pat: &str) -> (r: bool)
    ensures
        r == begins(s@, pat@),
{
    let chars: Vec<char> = chars_of(s);
    let p: Vec<char> = chars_of(pat);
    matches_at(&chars, &p, 0)
}

/// Whether `s` ends with `pat`.
pub fn ends_with(s: &str, pat: &str) -> (r: bool)
    ensures
        r == finishes(s@, pat@),
{
    let chars: Vec<char> = chars_of(s);
    let p: Vec<char> = chars_of(pat);
    if p.len() > chars.len() {
        return false;
    }
    matches_at(&chars, &p, chars.len() - p.len())
}

/// The part of `s` from the character position `from` on.
pub fn rest_from(s: &str, from: usize) -> (r: &str)
    requires
        from <= s@.len(),
    ensures
        r@ == s@.skip(from as int),
{
    let n: usize = s.unicode_len();
    assert(s@.skip(from as int) =~= s@.subrange(from as int, n as int));
    s.substring_char(from, n)
}

/// The first `to` characters of `s`.
pub fn first_chars(s: &str, to: usize) -> (r: &str)
    requires
        to <= s@.len(),
    ensures
        r@ == s@.take(to as int),
{
    assert(s@.take(to as int) =~= s@.subrange(0, to as int));
    s.substring_char(0, to)
}

// ---------------------------------------------------------------------------
// Lists of texts
// ---------------------------------------------------------------------------

/// The texts of a list of strings.
pub open spec fn texts(v: Seq<String>) -> Seq<Seq<char>> {
    Seq::new(v.len(), |i: int| v[i]@)
}

/// `parts` with `sep` between each two of them.
pub open spec fn joined(parts: Seq<Seq<char>>, sep: Seq<char>) -> Seq<char>
    decreases parts.len(),
{
    if parts.len() == 0 {
        Seq::empty()
    } else if parts.len() == 1 {
        parts[0]
    } else {
        joined(parts.drop_last(), sep) + sep + parts.last()
    }
}

/// The pieces of `s`, from position `start` on, between the occurrences of `sep`.
pub open spec fn pieces_from(s: Seq<char>, sep: Seq<char>, start: int) -> Seq<Seq<char>>
    decreases s.len() - start,
{
    if start < 0 || start > s.len() || sep.len() == 0 {
        Seq::empty()
    } else {
        match found_from(s, sep, start) {
            Some(i) => {
                proof {
                    lemma_found_from(s, sep, start);
                }
                seq![s.subrange(start, i)] + pieces_from(s, sep, i + sep.len())
            },
            None => seq![s.skip(start)],
        }
    }
}

/// The pieces of `s` between the occurrences of `sep`, found from left to right.
pub open spec fn pieces(s: Seq<char>, sep: Seq<char>) -> Seq<Seq<char>> {
    pieces_from(s, sep, 0)
}

/// The pieces of `s` between the occurrences of `sep`.
pub fn split(s: &str, sep: &str) -> (r: Vec<String>)
    requires
        sep@.len() > 0,
    ensures
        texts(r@) == pieces(s@, sep@),
        r@.len() > 0,
{
    let chars: Vec<char> = chars_of(s);
    let p: Vec<char> = chars_of(sep);
    let n: usize = chars.len();
    let m: usize = p.len();
    let mut out: Vec<String> = Vec::new();
    let mut start: usize = 0;
    assert(texts(out@) + pieces(s@, sep@) =~= pieces(s@, sep@));
    loop
        invariant
            chars@ == s@,
            p@ == sep@,
            n == s@.len(),
            m == sep@.len(),
            m > 0,
            start <= n,
            texts(out@) + pieces_from(s@, sep@, start as int) == pieces(s@, sep@),
        decreases n - start,
    {
        let ghost before = texts(out@);
        match seek(&chars, &p, start) {
            Some(i) => {
                proof {
                    lemma_found_from(s@, sep@, start as int);
                }
                out.push(s.substring_char(start, i).to_owned());
                proof {
                    assert(texts(out@) =~= before.push(s@.subrange(start as int, i as int)));
                    assert(texts(out@) + pieces_from(s@, sep@, i + m) =~= before + (seq![
                        s@.subrange(start as int, i as int),
                    ] + pieces_from(s@, sep@, i + m)));
                }
                start = i + m;
            },
            None => {
                out.push(rest_from(s, start).to_owned());
                proof {
                    assert(texts(out@) =~= before + seq![s@.skip(start as int)]);
                }
                return out;
            },
        }
    }
}

/// The parts with `sep` between each two of them.
pub fn join(parts: &Vec<String>, sep: &str) -> (r: String)
    ensures
        r@ == joined(texts(parts@), sep@),
{
    let n: usize = parts.len();
    if n == 0 {
        return String::new();
    }
    let mut out: String = parts[0].clone();
    let mut i: usize = 1;
    assert(texts(parts@).take(1) =~= seq![parts@[0]@]);
    while i < n
        invariant
            1 <= i <= n,
            n == parts@.len(),
            out@ == joined(texts(parts@).take(i as int), sep@),
        decreases n - i,
    {
        out.append(sep);
        out.append(parts[i].as_str());
        proof {
            assert(texts(parts@).take(i + 1).drop_last() =~= texts(parts@).take(i as int));
        }
        i = i + 1;
    }
    assert(texts(parts@).take(n as int) =~= texts(parts@));
    out
}

/// The parts, joined by `sep`, come apart at the same places again: each part ends where the
/// first `sep` behind it stands, and the last has none in it.
pub open spec fn separable(parts: Seq<Seq<char>>, sep: Seq<char>) -> bool {
    &&& parts.len() > 0
    &&& found(parts.last(), sep) is None
    &&& forall|i: int| #![trigger parts[i]]
        0 <= i < parts.len() - 1 ==> found(parts[i] + sep, sep) == Some(parts[i].len() as int)
}

/// What is found behind a beginning is found in what stands there.
pub proof fn lemma_found_shift(a: Seq<char>, t: Seq<char>, pat: Seq<char>, k: int)
    requires
        0 <= k,
    ensures
        found_from(a + t, pat, a.len() + k) == match found_from(t, pat, k) {
            Some(i) => Some(a.len() + i),
            None => None,
        },
    decreases t.len() + 1 - k,
{
    if k + pat.len() <= t.len() {
        let n = a.len() as int;
        assert((a + t).subrange(n + k, n + k + pat.len()) =~= t.subrange(k, k + pat.len()));
        if !occurs_at(t, pat, k) {
            lemma_found_shift(a, t, pat, k + 1);
        }
    }
}

proof fn lemma_pieces_shift(a: Seq<char>, t: Seq<char>, sep: Seq<char>, k: int)
    requires
        0 <= k <= t.len(),
        sep.len() > 0,
    ensures
        pieces_from(a + t, sep, a.len() + k) == pieces_from(t, sep, k),
    decreases t.len() - k,
{
    let n = a.len() as int;
    lemma_found_shift(a, t, sep, k);
    lemma_found_from(t, sep, k);
    match found_from(t, sep, k) {
        Some(i) => {
            assert((a + t).subrange(n + k, n + i) =~= t.subrange(k, i));
            lemma_pieces_shift(a, t, sep, i + sep.len());
        },
        None => {
            assert((a + t).skip(n + k) =~= t.skip(k));
        },
    }
}

/// What stands behind a `sep` does not change whether it is the first one.
pub proof fn lemma_found_in_front(a: Seq<char>, sep: Seq<char>, t: Seq<char>)
    requires
        sep.len() > 0,
    ensures
        found(a + sep, sep) == Some(a.len() as int) <==> found(a + sep + t, sep) == Some(
            a.len() as int,
        ),
{
    let s = a + sep;
    let w = s + t;
    let n = a.len() as int;
    assert forall|j: int| 0 <= j <= n implies occurs_at(s, sep, j) == occurs_at(w, sep, j) by {
        assert(w.subrange(j, j + sep.len()) =~= s.subrange(j, j + sep.len()));
    }
    assert(s.subrange(n, n + sep.len()) =~= sep);
    lemma_found_from(s, sep, 0);
    lemma_found_from(w, sep, 0);
}

/// Parts that are separable come apart at the same places again.
pub proof fn lemma_pieces_of_joined(parts: Seq<Seq<char>>, sep: Seq<char>)
    requires
        sep.len() > 0,
        separable(parts, sep),
    ensures
        pieces(joined(parts, sep), sep) == parts,
    decreases parts.len(),
{
    let s = joined(parts, sep);
    let first = parts[0];
    if parts.len() == 1 {
        assert(s.skip(0) =~= s);
        assert(pieces(s, sep) =~= parts);
    } else {
        let rest = parts.drop_first();
        let t = joined(rest, sep);
        lemma_joined_first(parts, sep);
        assert(rest.last() == parts.last());
        assert forall|i: int| #![trigger rest[i]] 0 <= i < rest.len() - 1 implies found(
            rest[i] + sep,
            sep,
        ) == Some(rest[i].len() as int) by {
            assert(rest[i] == parts[i + 1]);
        }
        lemma_pieces_of_joined(rest, sep);
        lemma_found_in_front(first, sep, t);
        let a = first + sep;
        lemma_pieces_shift(a, t, sep, 0);
        assert(s.subrange(0, first.len() as int) =~= first);
        assert(seq![first] + rest =~= parts);
    }
}

/// The pieces of a text are separable, and joined they give the text.
pub proof fn lemma_pieces_separable(s: Seq<char>, sep: Seq<char>)
    requires
        sep.len() > 0,
    ensures
        separable(pieces(s, sep), sep),
        joined(pieces(s, sep), sep) == s,
    decreases s.len(),
{
    lemma_found_from(s, sep, 0);
    match found(s, sep) {
        None => {
            assert(s.skip(0) =~= s);
            assert(pieces(s, sep) =~= seq![s]);
        },
        Some(i) => {
            let first = s.subrange(0, i);
            let a = s.take(i + sep.len());
            let t = s.skip(i + sep.len());
            assert(a =~= first + sep);
            assert(s =~= a + t);
            lemma_pieces_separable(t, sep);
            lemma_pieces_shift(a, t, sep, 0);
            let rest = pieces(t, sep);
            let parts = seq![first] + rest;
            assert(pieces(s, sep) == parts);
            assert(parts.drop_first() =~= rest);
            lemma_joined_first(parts, sep);
            lemma_found_in_front(first, sep, t);
            assert(parts.last() == rest.last());
            assert forall|j: int| #![trigger parts[j]] 0 <= j < parts.len() - 1 implies found(
                parts[j] + sep,
                sep,
            ) == Some(parts[j].len() as int) by {
                if j > 0 {
                    assert(parts[j] == rest[j - 1]);
                }
            }
        },
    }
}

/// `s` with every `pat` in it, found from left to right, replaced by `new`. An empty `pat` is
/// found before every character and at the end.
pub open spec fn replaced_all(s: Seq<char>, pat: Seq<char>, new: Seq<char>) -> Seq<char> {
    if pat.len() > 0 {
        joined(pieces(s, pat), new)
    } else {
        interleaved(s, new)
    }
}

/// `new` before every character of `s` and at its end.
pub open spec fn interleaved(s: Seq<char>, new: Seq<char>) -> Seq<char>
    decreases s.len(),
{
    if s.len() == 0 {
        new
    } else {
        interleaved(s.drop_last(), new) + seq![s.last()] + new
    }
}

/// Replacing a text by itself changes nothing.
pub proof fn lemma_replaced_by_itself(s: Seq<char>, pat: Seq<char>)
    ensures
        replaced_all(s, pat, pat) == s,
    decreases s.len(),
{
    if pat.len() > 0 {
        lemma_pieces_separable(s, pat);
    } else if s.len() > 0 {
        lemma_replaced_by_itself(s.drop_last(), pat);
        assert(s.drop_last() + seq![s.last()] + pat =~= s);
    } else {
        assert(pat =~= s);
    }
}

/// `s` with every `pat` in it replaced by `new`.
pub fn replace_all(s: &str, pat: &str, new: &str) -> (r: String)
    ensures
        r@ == replaced_all(s@, pat@, new@),
{
    if pat.unicode_len() > 0 {
        return join(&split(s, pat), new);
    }
    let n: usize = s.unicode_len();
    let mut out: String = new.to_owned();
    let mut i: usize = 0;
    assert(s@.take(0) =~= Seq::<char>::empty());
    while i < n
        invariant
            i <= n == s@.len(),
            out@ == interleaved(s@.take(i as int), new@),
        decreases n - i,
    {
        out.append(s.substring_char(i, i + 1));
        out.append(new);
        proof {
            assert(s@.take(i + 1).drop_last() =~= s@.take(i as int));
            assert(s@.subrange(i as int, i + 1) =~= seq![s@[i as int]]);
        }
        i = i + 1;
    }
    assert(s@.take(i as int) =~= s@);
    out
}

// ---------------------------------------------------------------------------
// Lines
// ---------------------------------------------------------------------------

/// The first position, from `from` on, at which `s` holds the character `c`; the
/// length of `s` where there is none.
pub open spec fn next_char(s: Seq<char>, c: char, from: int) -> int
    decreases s.len() - from,
{
    if from < 0 || from >= s.len() {
        s.len() as int
    } else if s[from] == c {
        from
    } else {
        next_char(s, c, from + 1)
    }
}

/// The position found by [`next_char`] is the first one.
pub proof fn lemma_next_char(s: Seq<char>, c: char, from: int)
    requires
        0 <= from <= s.len(),
    ensures
        from <= next_char(s, c, from) <= s.len(),
        next_char(s, c, from) < s.len() ==> s[next_char(s, c, from)] == c,
        forall|j: int| from <= j < next_char(s, c, from) ==> s[j] != c,
    decreases s.len() - from,
{
    if from < s.len() && s[from] != c {
        lemma_next_char(s, c, from + 1);
    }
}

/// The first position, from `from` on, at which `chars` holds `c`, else its length.
fn seek_char(chars: &Vec<char>, c: char, from: usize) -> (r: usize)
    requires
        from <= chars@.len(),
    ensures
        r == next_char(chars@, c, from as int),
        from <= r <= chars@.len(),
{
    let mut i: usize = from;
    while i < chars.len() && chars[i] != c
        invariant
            from <= i <= chars@.len(),
            next_char(chars@, c, from as int) == next_char(chars@, c, i as int),
        decreases chars@.len() - i,
    {
        i = i + 1;
    }
    i
}

/// A line without the carriage return that belonged to its line ending.
pub open spec fn without_return(line: Seq<char>) -> Seq<char> {
    if line.len() > 0 && line.last() == '\r' {
        line.drop_last()
    } else {
        line
    }
}

/// The lines of `s` from position `start` on. A line ends at a line feed, or at a
/// carriage return with a line feed behind it; the last line may lack its ending.
pub open spec fn lines_from(s: Seq<char>, start: int) -> Seq<Seq<char>>
    decreases s.len() - start,
{
    if start < 0 || start >= s.len() {
        Seq::empty()
    } else {
        let i = next_char(s, '\n', start);
        proof {
            lemma_next_char(s, '\n', start);
        }
        if i < s.len() {
            seq![without_return(s.subrange(start, i))] + lines_from(s, i + 1)
        } else {
            seq![s.skip(start)]
        }
    }
}

/// The lines of `s`.
pub open spec fn line_seq(s: Seq<char>) -> Seq<Seq<char>> {
    lines_from(s, 0)
}

/// The lines of `s`, without their endings.
pub fn lines(s: &str) -> (r: Vec<String>)
    ensures
        texts(r@) == line_seq(s@),
{
    let chars: Vec<char> = chars_of(s);
    let n: usize = chars.len();
    let mut out: Vec<String> = Vec::new();
    let mut start: usize = 0;
    assert(texts(out@) + line_seq(s@) =~= line_seq(s@));
    while start < n
        invariant
            chars@ == s@,
            n == s@.len(),
            start <= n,
            texts(out@) + lines_from(s@, start as int) == line_seq(s@),
        decreases n - start,
    {
        let ghost before = texts(out@);
        let i: usize = seek_char(&chars, '\n', start);
        if i < n {
            let end: usize = if i > start && chars[i - 1] == '\r' {
                i - 1
            } else {
                i
            };
            out.push(s.substring_char(start, end).to_owned());
            proof {
                let line = s@.subrange(start as int, i as int);
                assert(without_return(line) =~= s@.subrange(start as int, end as int));
                assert(texts(out@) =~= before.push(without_return(line)));
                assert(texts(out@) + lines_from(s@, i + 1) =~= before + (seq![without_return(line)]
                    + lines_from(s@, i + 1)));
            }
            start = i + 1;
        } else {
            out.push(rest_from(s, start).to_owned());
            proof {
                assert(texts(out@) =~= before + seq![s@.skip(start as int)]);
                assert(lines_from(s@, n as int) =~= Seq::<Seq<char>>::empty());
                assert(texts(out@) + lines_from(s@, n as int) =~= texts(out@));
            }
            start = n;
        }
    }
    assert(lines_from(s@, start as int) =~= Seq::<Seq<char>>::empty());
    assert(texts(out@) + lines_from(s@, start as int) =~= texts(out@));
    out
}

/// The text is a line: no line feed is in it, and no carriage return at its end.
pub open spec fn is_line(s: Seq<char>) -> bool {
    &&& forall|j: int| #![trigger s[j]] 0 <= j < s.len() ==> s[j] != '\n'
    &&& s.len() > 0 ==> s.last() != '\r'
}

/// Joined texts begin with the first of them.
pub proof fn lemma_joined_first(parts: Seq<Seq<char>>, sep: Seq<char>)
    requires
        parts.len() >= 2,
    ensures
        joined(parts, sep) == parts[0] + sep + joined(parts.drop_first(), sep),
    decreases parts.len(),
{
    let rest = parts.drop_first();
    if parts.len() == 2 {
        assert(parts.drop_last() =~= seq![parts[0]]);
        assert(joined(parts.drop_last(), sep) == parts[0]);
        assert(rest.len() == 1);
    } else {
        lemma_joined_first(parts.drop_last(), sep);
        assert(parts.drop_last().drop_first() =~= rest.drop_last());
        assert(joined(parts, sep) =~= parts[0] + sep + joined(rest, sep));
    }
}

proof fn lemma_next_char_shift(a: Seq<char>, t: Seq<char>, c: char, k: int)
    requires
        0 <= k <= t.len(),
    ensures
        next_char(a + t, c, a.len() + k) == a.len() + next_char(t, c, k),
    decreases t.len() - k,
{
    if k < t.len() {
        assert((a + t)[a.len() + k] == t[k]);
        if t[k] != c {
            lemma_next_char_shift(a, t, c, k + 1);
        }
    }
}

/// The lines behind a beginning are those of what stands there.
pub proof fn lemma_lines_shift(a: Seq<char>, t: Seq<char>, k: int)
    requires
        0 <= k <= t.len(),
    ensures
        lines_from(a + t, a.len() + k) == lines_from(t, k),
    decreases t.len() - k,
{
    if k < t.len() {
        let s = a + t;
        lemma_next_char_shift(a, t, '\n', k);
        lemma_next_char(t, '\n', k);
        let i = next_char(t, '\n', k);
        if i < t.len() {
            assert(s.subrange(a.len() + k, a.len() + i) =~= t.subrange(k, i));
            lemma_lines_shift(a, t, i + 1);
        } else {
            assert(s.skip(a.len() + k) =~= t.skip(k));
        }
    }
}

proof fn lemma_next_char_is(s: Seq<char>, c: char, from: int, i: int)
    requires
        0 <= from <= i <= s.len(),
        forall|j: int| #![trigger s[j]] from <= j < i ==> s[j] != c,
        i < s.len() ==> s[i] == c,
    ensures
        next_char(s, c, from) == i,
{
    lemma_next_char(s, c, from);
}

/// Lines that were joined by line feeds come apart again; an empty last line does not show.
pub proof fn lemma_lines_of_joined(parts: Seq<Seq<char>>)
    requires
        parts.len() > 0,
        forall|j: int| #![trigger parts[j]] 0 <= j < parts.len() ==> is_line(parts[j]),
    ensures
        line_seq(joined(parts, "\n"@)) == if parts.last().len() == 0 {
            parts.drop_last()
        } else {
            parts
        },
    decreases parts.len(),
{
    reveal_strlit("\n");
    let s = joined(parts, "\n"@);
    let first = parts[0];
    if parts.len() == 1 {
        assert(s == first);
        if first.len() > 0 {
            lemma_next_char_is(s, '\n', 0, s.len() as int);
            assert(s.skip(0) =~= s);
            assert(line_seq(s) =~= parts);
        } else {
            assert(line_seq(s) =~= parts.drop_last());
        }
    } else {
        let rest = parts.drop_first();
        lemma_joined_first(parts, "\n"@);
        lemma_lines_of_joined(rest);
        let t = joined(rest, "\n"@);
        let a = first + "\n"@;
        assert(s =~= a + t);
        lemma_next_char_is(s, '\n', 0, first.len() as int);
        assert(s.subrange(0, first.len() as int) =~= first);
        lemma_lines_shift(a, t, 0);
        assert(line_seq(s) == seq![first] + line_seq(t));
        assert(rest.last() == parts.last());
        if parts.last().len() == 0 {
            assert(seq![first] + rest.drop_last() =~= parts.drop_last());
        } else {
            assert(seq![first] + rest =~= parts);
        }
    }
}

// ---------------------------------------------------------------------------
// Words
// ---------------------------------------------------------------------------

/// The first position, from `from` on, that holds no white space, else the length.
pub open spec fn word_start(s: Seq<char>, from: int) -> int
    decreases s.len() - from,
{
    if from < 0 || from >= s.len() {
        s.len() as int
    } else if is_space(s[from]) {
        word_start(s, from + 1)
    } else {
        from
    }
}

/// The first position, from `from` on, that holds white space, else the length.
pub open spec fn word_end(s: Seq<char>, from: int) -> int
    decreases s.len() - from,
{
    if from < 0 || from >= s.len() {
        s.len() as int
    } else if is_space(s[from]) {
        from
    } else {
        word_end(s, from + 1)
    }
}

/// Bounds on what [`word_start`] and [`word_end`] find.
pub proof fn lemma_word_bounds(s: Seq<char>, from: int)
    requires
        0 <= from <= s.len(),
    ensures
        from <= word_start(s, from) <= s.len(),
        from <= word_end(s, from) <= s.len(),
        from < s.len() && !is_space(s[from]) ==> from < word_end(s, from),
        word_start(s, from) < s.len() ==> !is_space(s[word_start(s, from)]),
    decreases s.len() - from,
{
    if from < s.len() {
        lemma_word_bounds(s, from + 1);
    }
}

/// The words of `s` from position `from` on: the longest runs without white space.
pub open spec fn words_from(s: Seq<char>, from: int) -> Seq<Seq<char>>
    decreases s.len() - from,
{
    if from < 0 || from > s.len() {
        Seq::empty()
    } else {
        let a = word_start(s, from);
        let b = word_end(s, a);
        proof {
            lemma_word_bounds(s, from);
            lemma_word_bounds(s, a);
        }
        if a >= s.len() {
            Seq::empty()
        } else {
            seq![s.subrange(a, b)] + words_from(s, b)
        }
    }
}

/// The words of `s`.
pub open spec fn word_seq(s: Seq<char>) -> Seq<Seq<char>> {
    words_from(s, 0)
}

/// The words of `s`, parted by white space.
pub fn words(s: &str) -> (r: Vec<String>)
    ensures
        texts(r@) == word_seq(s@),
{
    let chars: Vec<char> = chars_of(s);
    let n: usize = chars.len();
    let mut out: Vec<String> = Vec::new();
    let mut from: usize = 0;
    assert(texts(out@) + word_seq(s@) =~= word_seq(s@));
    loop
        invariant
            chars@ == s@,
            n == s@.len(),
            from <= n,
            texts(out@) + words_from(s@, from as int) == word_seq(s@),
        decreases n - from,
    {
        let ghost before = texts(out@);
        let mut a: usize = from;
        while a < n && is_white(chars[a])
            invariant
                chars@ == s@,
                n == s@.len(),
                from <= a <= n,
                word_start(s@, from as int) == word_start(s@, a as int),
            decreases n - a,
        {
            a = a + 1;
        }
        if a >= n {
            proof {
                assert(words_from(s@, from as int) =~= Seq::<Seq<char>>::empty());
                assert(before + words_from(s@, from as int) =~= before);
            }
            return out;
        }
        let mut b: usize = a;
        while b < n && !is_white(chars[b])
            invariant
                chars@ == s@,
                n == s@.len(),
                a <= b <= n,
                word_end(s@, a as int) == word_end(s@, b as int),
            decreases n - b,
        {
            b = b + 1;
        }
        out.push(s.substring_char(a, b).to_owned());
        proof {
            lemma_word_bounds(s@, a as int);
            assert(texts(out@) =~= before.push(s@.subrange(a as int, b as int)));
            assert(texts(out@) + words_from(s@, b as int) =~= before + (seq![
                s@.subrange(a as int, b as int),
            ] + words_from(s@, b as int)));
        }
        from = b;
    }
}

// ---------------------------------------------------------------------------
// Building texts
// ---------------------------------------------------------------------------

/// Two texts, one behind the other.
pub fn concat2(a: &str, b: &str) -> (r: String)
    ensures
        r@ == a@ + b@,
{
    let mut out: String = a.to_owned();
    out.append(b);
    out
}

/// Three texts, one behind the other.
pub fn concat3(a: &str, b: &str, c: &str) -> (r: String)
    ensures
        r@ == a@ + b@ + c@,
{
    let mut out: String = a.to_owned();
    out.append(b);
    out.append(c);
    out
}

/// Four texts, one behind the other.
pub fn concat4(a: &str, b: &str, c: &str, d: &str) -> (r: String)
    ensures
        r@ == a@ + b@ + c@ + d@,
{
    let mut out: String = a.to_owned();
    out.append(b);
    out.append(c);
    out.append(d);
    out
}

/// Five texts, one behind the other.
pub fn concat5(a: &str, b: &str, c: &str, d: &str, e: &str) -> (r: String)
    ensures
        r@ == a@ + b@ + c@ + d@ + e@,
{
    let mut out: String = a.to_owned();
    out.append(b);
    out.append(c);
    out.append(d);
    out.append(e);
    out
}

// ---------------------------------------------------------------------------
// Laws
// ---------------------------------------------------------------------------

/// `x` stands in `s`, and `y` somewhere behind it.
pub open spec fn stands_before(s: Seq<char>, x: Seq<char>, y: Seq<char>) -> bool {
    exists|a: Seq<char>, b: Seq<char>, c: Seq<char>| #![trigger a + x + b + y + c]
        s == a + x + b + y + c
}

/// A text is in every text that it is a part of, which begins with what is before it and ends with
/// what is behind it.
pub proof fn law_parts_are_in_the_whole(a: Seq<char>, b: Seq<char>, c: Seq<char>)
    ensures
        includes(a + b + c, a),
        includes(a + b + c, b),
        includes(a + b + c, c),
        begins(a + b + c, a),
        begins(a + b + c, a + b),
        finishes(a + b + c, c),
        finishes(a + b + c, b + c),
{
    let s = a + b + c;
    let n = a.len() as int;
    let m = (a + b).len() as int;
    assert(s.subrange(0, n) =~= a);
    assert(s.subrange(n, m) =~= b);
    assert(s.subrange(m, s.len() as int) =~= c);
    assert(s.subrange(0, m) =~= a + b);
    assert(s.subrange(n, s.len() as int) =~= b + c);
    assert(occurs_at(s, a, 0));
    assert(occurs_at(s, b, n));
    assert(occurs_at(s, c, m));
}

/// What is in a part of a text is in the text.
pub proof fn law_includes_is_transitive(a: Seq<char>, b: Seq<char>, c: Seq<char>)
    requires
        includes(a, b),
        includes(b, c),
    ensures
        includes(a, c),
{
    let i = choose|i: int| occurs_at(a, b, i);
    let j = choose|j: int| occurs_at(b, c, j);
    let cut = a.subrange(i + j, i + j + c.len());
    assert forall|k: int| 0 <= k < c.len() implies #[trigger] cut[k] == c[k] by {
        assert(a.subrange(i, i + b.len())[j + k] == b[j + k]);
        assert(b.subrange(j, j + c.len())[k] == c[k]);
    }
    assert(cut =~= c);
    assert(occurs_at(a, c, i + j));
}

/// A text that is in a part of a text is in the text.
pub proof fn lemma_includes_within(a: Seq<char>, b: Seq<char>, c: Seq<char>, x: Seq<char>)
    requires
        includes(b, x),
    ensures
        includes(a + b + c, x),
{
    law_parts_are_in_the_whole(a, b, c);
    law_includes_is_transitive(a + b + c, b, x);
}

/// Joining one more part puts it, behind a separator, at the end; the first one stands alone.
pub proof fn law_joined_grows(parts: Seq<Seq<char>>, sep: Seq<char>, x: Seq<char>)
    ensures
        joined(parts.push(x), sep) == if parts.len() == 0 {
            x
        } else {
            joined(parts, sep) + sep + x
        },
        joined(Seq::<Seq<char>>::empty(), sep).len() == 0,
{
    assert(parts.push(x).drop_last() =~= parts);
}

proof fn lemma_joined_beginning(parts: Seq<Seq<char>>, sep: Seq<char>, i: int)
    requires
        0 <= i < parts.len(),
    ensures
        exists|a: Seq<char>, c: Seq<char>| #![trigger a + parts[i] + c]
            joined(parts, sep) == a + parts[i] + c && (a + parts[i]) == joined(
                parts.take(i + 1),
                sep,
            ),
    decreases parts.len(),
{
    let x = parts[i];
    if i == parts.len() - 1 {
        assert(parts.take(i + 1) =~= parts);
        let a = if parts.len() == 1 {
            Seq::empty()
        } else {
            joined(parts.drop_last(), sep) + sep
        };
        assert(joined(parts, sep) =~= a + x + Seq::<char>::empty());
        assert(a + x =~= joined(parts.take(i + 1), sep));
    } else {
        let front = parts.drop_last();
        lemma_joined_beginning(front, sep, i);
        assert(front[i] == x);
        assert(front.take(i + 1) =~= parts.take(i + 1));
        let (a, c) = choose|a: Seq<char>, c: Seq<char>| #![trigger a + front[i] + c]
            joined(front, sep) == a + front[i] + c && (a + front[i]) == joined(
                front.take(i + 1),
                sep,
            );
        let d = c + sep + parts.last();
        assert(joined(parts, sep) =~= a + x + d);
    }
}

/// Every part is in the joined text.
pub proof fn law_joined_holds_every_part(parts: Seq<Seq<char>>, sep: Seq<char>, i: int)
    requires
        0 <= i < parts.len(),
    ensures
        includes(joined(parts, sep), parts[i]),
{
    lemma_joined_beginning(parts, sep, i);
    let (a, c) = choose|a: Seq<char>, c: Seq<char>| #![trigger a + parts[i] + c]
        joined(parts, sep) == a + parts[i] + c && (a + parts[i]) == joined(
            parts.take(i + 1),
            sep,
        );
    law_parts_are_in_the_whole(a, parts[i], c);
}

/// The parts stand in the joined text in their order.
pub proof fn law_joined_keeps_order(parts: Seq<Seq<char>>, sep: Seq<char>, i: int, j: int)
    requires
        0 <= i < j < parts.len(),
    ensures
        stands_before(joined(parts, sep), parts[i], parts[j]),
{
    lemma_joined_beginning(parts, sep, j);
    let (a, c) = choose|a: Seq<char>, c: Seq<char>| #![trigger a + parts[j] + c]
        joined(parts, sep) == a + parts[j] + c && (a + parts[j]) == joined(
            parts.take(j + 1),
            sep,
        );
    let front = parts.take(j);
    assert(parts.take(j + 1).drop_last() =~= front);
    assert(a =~= joined(front, sep) + sep) by {
        let w = joined(front, sep) + sep;
        assert(a + parts[j] == w + parts[j]);
        assert(a.len() == w.len());
        assert forall|k: int| 0 <= k < a.len() implies a[k] == w[k] by {
            assert((a + parts[j])[k] == (w + parts[j])[k]);
        }
    }
    lemma_joined_beginning(front, sep, i);
    let (b, d) = choose|b: Seq<char>, d: Seq<char>| #![trigger b + front[i] + d]
        joined(front, sep) == b + front[i] + d && (b + front[i]) == joined(
            front.take(i + 1),
            sep,
        );
    assert(joined(parts, sep) =~= b + parts[i] + (d + sep) + parts[j] + c);
}

/// Order in a part is order in the whole.
pub proof fn lemma_stands_before_within(
    a: Seq<char>,
    s: Seq<char>,
    c: Seq<char>,
    x: Seq<char>,
    y: Seq<char>,
)
    requires
        stands_before(s, x, y),
    ensures
        stands_before(a + s + c, x, y),
{
    let (p, q, r) = choose|p: Seq<char>, q: Seq<char>, r: Seq<char>| #![trigger p + x + q + y + r]
        s == p + x + q + y + r;
    assert(a + s + c =~= (a + p) + x + q + y + (r + c));
}

/// Order in a text is order in every text that it is in.
pub proof fn lemma_stands_before_through(
    whole: Seq<char>,
    s: Seq<char>,
    x: Seq<char>,
    y: Seq<char>,
)
    requires
        includes(whole, s),
        stands_before(s, x, y),
    ensures
        stands_before(whole, x, y),
{
    let i = choose|i: int| occurs_at(whole, s, i);
    let a = whole.take(i);
    let c = whole.skip(i + s.len());
    assert(whole =~= a + whole.subrange(i, i + s.len()) + c);
    lemma_stands_before_within(a, s, c, x, y);
}

/// The text is nothing but white space.
pub open spec fn all_space(s: Seq<char>) -> bool {
    forall|k: int| #![trigger s[k]] 0 <= k < s.len() ==> is_space(s[k])
}

proof fn lemma_left_trimmed_off(s: Seq<char>)
    ensures
        all_space(s.take(s.len() - left_trimmed(s).len())),
        s == s.take(s.len() - left_trimmed(s).len()) + left_trimmed(s),
    decreases s.len(),
{
    lemma_left_trimmed(s);
    let n = s.len() - left_trimmed(s).len();
    if s.len() > 0 && is_space(s.first()) {
        let rest = s.drop_first();
        lemma_left_trimmed_off(rest);
        let m = rest.len() - left_trimmed(rest).len();
        assert forall|k: int| #![trigger s.take(n)[k]] 0 <= k < s.take(n).len() implies is_space(
            s.take(n)[k],
        ) by {
            if k > 0 {
                assert(rest.take(m)[k - 1] == s[k]);
            }
        }
    }
    assert(s =~= s.take(n) + s.skip(n));
}

proof fn lemma_right_trimmed_off(s: Seq<char>)
    ensures
        all_space(s.skip(right_trimmed(s).len() as int)),
        s == right_trimmed(s) + s.skip(right_trimmed(s).len() as int),
    decreases s.len(),
{
    lemma_right_trimmed(s);
    let n = right_trimmed(s).len() as int;
    if s.len() > 0 && is_space(s.last()) {
        let front = s.drop_last();
        lemma_right_trimmed_off(front);
        lemma_right_trimmed(front);
        assert forall|k: int| #![trigger s.skip(n)[k]] 0 <= k < s.skip(n).len() implies is_space(
            s.skip(n)[k],
        ) by {
            if n + k < front.len() {
                assert(front.skip(n)[k] == s[n + k]);
            }
        }
    }
    assert(s =~= s.take(n) + s.skip(n));
}

/// Trimming takes white space off both ends and nothing else, and leaves none there.
pub proof fn law_trimming_takes_only_space(s: Seq<char>)
    ensures
        exists|a: Seq<char>, b: Seq<char>| #![trigger a + trimmed(s) + b]
            s == a + trimmed(s) + b && all_space(a) && all_space(b),
        trimmed(s).len() > 0 ==> !is_space(trimmed(s).first()) && !is_space(trimmed(s).last()),
        trimmed(s).len() == 0 <==> all_space(s),
{
    let l = left_trimmed(s);
    let t = trimmed(s);
    lemma_trimmed_is(s);
    lemma_left_trimmed_off(s);
    lemma_right_trimmed_off(l);
    let a = s.take(s.len() - l.len());
    let b = l.skip(t.len() as int);
    assert(s =~= a + t + b);
    if t.len() == 0 {
        assert forall|k: int| #![trigger s[k]] 0 <= k < s.len() implies is_space(s[k]) by {
            if k < a.len() {
                assert(a[k] == s[k]);
            } else {
                assert(b[k - a.len()] == s[k]);
            }
        }
    } else {
        assert(s[a.len() as int] == t.first());
    }
}

/// Replacing goes from left to right: what stands before the first old text stays, the new text
/// takes the place of the old one, and the rest is treated alike. A text that is not there leaves
/// everything as it is.
pub proof fn law_every_one_is_replaced(
    a: Seq<char>,
    pat: Seq<char>,
    b: Seq<char>,
    new: Seq<char>,
)
    requires
        pat.len() > 0,
    ensures
        (forall|j: int| 0 <= j < a.len() ==> !occurs_at(a + pat + b, pat, j)) ==> replaced_all(
            a + pat + b,
            pat,
            new,
        ) == a + new + replaced_all(b, pat, new),
        !includes(a, pat) ==> replaced_all(a, pat, new) == a,
{
    let s = a + pat + b;
    let n = a.len() as int;
    if forall|j: int| 0 <= j < a.len() ==> !occurs_at(s, pat, j) {
        assert(s.subrange(n, n + pat.len()) =~= pat);
        lemma_found_is(s, pat, 0, n);
        lemma_pieces_shift(a + pat, b, pat, 0);
        assert(s.subrange(0, n) =~= a);
        let rest = pieces(b, pat);
        assert(pieces(s, pat) == seq![a] + rest);
        lemma_pieces_separable(b, pat);
        assert(rest.len() > 0);
        lemma_joined_first(pieces(s, pat), new);
        assert(pieces(s, pat).drop_first() =~= rest);
    }
    if !includes(a, pat) {
        lemma_found_from(a, pat, 0);
        match found(a, pat) {
            Some(i) => {
                assert(occurs_at(a, pat, i));
            },
            None => {},
        }
        assert(a.skip(0) =~= a);
        assert(pieces(a, pat) =~= seq![a]);
        assert(seq![a].last() == a);
    }
}

proof fn lemma_words_shift(a: Seq<char>, t: Seq<char>, k: int)
    requires
        0 <= k <= t.len(),
    ensures
        word_start(a + t, a.len() + k) == a.len() + word_start(t, k),
        word_end(a + t, a.len() + k) == a.len() + word_end(t, k),
    decreases t.len() - k,
{
    if k < t.len() {
        assert((a + t)[a.len() + k] == t[k]);
        lemma_words_shift(a, t, k + 1);
    }
}

proof fn lemma_words_behind(a: Seq<char>, t: Seq<char>, k: int)
    requires
        0 <= k <= t.len(),
    ensures
        words_from(a + t, a.len() + k) == words_from(t, k),
    decreases t.len() - k,
{
    let s = a + t;
    let n = a.len() as int;
    lemma_words_shift(a, t, k);
    lemma_word_bounds(t, k);
    let i = word_start(t, k);
    if i < t.len() {
        lemma_words_shift(a, t, i);
        lemma_word_bounds(t, i);
        let j = word_end(t, i);
        assert(s.subrange(n + i, n + j) =~= t.subrange(i, j));
        lemma_words_behind(a, t, j);
    }
}

proof fn lemma_word_within(a: Seq<char>, b: Seq<char>, c: char, k: int)
    requires
        is_space(c),
        0 <= k <= a.len(),
    ensures
        word_start(a, k) < a.len() ==> word_start(a + seq![c] + b, k) == word_start(a, k),
        word_start(a, k) >= a.len() ==> word_start(a + seq![c] + b, k) == word_start(
            a + seq![c] + b,
            a.len() + 1int,
        ),
        word_end(a + seq![c] + b, k) == word_end(a, k),
    decreases a.len() - k,
{
    let s = a + seq![c] + b;
    assert(s[a.len() as int] == c);
    if k < a.len() {
        assert(s[k] == a[k]);
        lemma_word_within(a, b, c, k + 1);
    }
}

proof fn lemma_words_parted(a: Seq<char>, b: Seq<char>, c: char, k: int)
    requires
        is_space(c),
        0 <= k <= a.len(),
    ensures
        words_from(a + seq![c] + b, k) == words_from(a, k) + word_seq(b),
    decreases a.len() - k,
{
    let s = a + seq![c] + b;
    lemma_word_within(a, b, c, k);
    lemma_word_bounds(a, k);
    let i = word_start(a, k);
    if i < a.len() {
        lemma_word_within(a, b, c, i);
        lemma_word_bounds(a, i);
        let j = word_end(a, i);
        assert(s.subrange(i, j) =~= a.subrange(i, j));
        lemma_words_parted(a, b, c, j);
        assert(words_from(s, k) =~= words_from(a, k) + word_seq(b));
    } else {
        lemma_words_behind(a + seq![c], b, 0);
        assert((a + seq![c]).len() == a.len() + 1);
        assert(words_from(s, k) == words_from(s, a.len() + 1int));
        assert(words_from(a, k) + word_seq(b) =~= word_seq(b));
    }
}

/// White space parts words: the words on both sides of it are those of the whole, in order. A text
/// without white space is one word.
pub proof fn law_white_space_parts_words(a: Seq<char>, c: char, b: Seq<char>)
    ensures
        is_space(c) ==> word_seq(a + seq![c] + b) == word_seq(a) + word_seq(b),
        a.len() > 0 && (forall|i: int| #![trigger a[i]] 0 <= i < a.len() ==> !is_space(a[i]))
            ==> word_seq(a) == seq![a],
        word_seq(Seq::empty()).len() == 0,
{
    if is_space(c) {
        lemma_words_parted(a, b, c, 0);
    }
    if a.len() > 0 && (forall|i: int| #![trigger a[i]] 0 <= i < a.len() ==> !is_space(a[i])) {
        lemma_word_bounds(a, 0);
        assert(word_start(a, 0) == 0);
        lemma_whole_word(a, 0);
        assert(a.subrange(0, a.len() as int) =~= a);
        assert(words_from(a, a.len() as int) =~= Seq::<Seq<char>>::empty());
        assert(word_seq(a) =~= seq![a]);
    }
}

proof fn lemma_whole_word(a: Seq<char>, k: int)
    requires
        0 <= k <= a.len(),
        forall|i: int| #![trigger a[i]] 0 <= i < a.len() ==> !is_space(a[i]),
    ensures
        word_end(a, k) == a.len(),
    decreases a.len() - k,
{
    if k < a.len() {
        assert(!is_space(a[k]));
        lemma_whole_word(a, k + 1);
    }
}

/// Line feeds part lines, with or without a carriage return before them: a line is what stands
/// before the first, and the other lines are those of what stands behind it. The last line needs
/// no ending.
pub proof fn law_line_feeds_part_lines(line: Seq<char>, rest: Seq<char>)
    requires
        is_line(line),
    ensures
        line_seq(line + seq!['\n'] + rest) == seq![line] + line_seq(rest),
        line_seq(line + seq!['\r', '\n'] + rest) == seq![line] + line_seq(rest),
        line.len() > 0 ==> line_seq(line) == seq![line],
        line_seq(Seq::empty()).len() == 0,
{
    let n = line.len() as int;
    let s = line + seq!['\n'] + rest;
    lemma_next_char_is(s, '\n', 0, n);
    assert(s.subrange(0, n) =~= line);
    lemma_lines_shift(line + seq!['\n'], rest, 0);
    let t = line + seq!['\r', '\n'] + rest;
    assert(t[n] == '\r' && t[n + 1] == '\n');
    lemma_next_char_is(t, '\n', 0, n + 1);
    assert(t.subrange(0, n + 1) =~= line.push('\r'));
    assert(line.push('\r').drop_last() =~= line);
    lemma_lines_shift(line + seq!['\r', '\n'], rest, 0);
    if n > 0 {
        lemma_next_char_is(line, '\n', 0, n);
        assert(line.skip(0) =~= line);
    }
}

} // verus!
