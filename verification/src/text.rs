//! Text primitives: every function is stated over the characters of its arguments.

use vstd::prelude::*;
use vstd::string::*;

verus! {

/// A sequence of strings, each taken as its characters.
pub open spec fn texts(v: Seq<String>) -> Seq<Seq<char>> {
    v.map_values(|s: String| s@)
}

/// An optional string as its characters.
pub open spec fn opt_text(o: Option<String>) -> Option<Seq<char>> {
    match o {
        Some(s) => Some(s@),
        None => None,
    }
}

/// An optional list of strings, each taken as its characters.
pub open spec fn opt_texts(o: Option<Vec<String>>) -> Option<Seq<Seq<char>>> {
    match o {
        Some(v) => Some(texts(v@)),
        None => None,
    }
}

/// The texts of strings are those of each, in their order; the text of a string that is not there is not
/// there.
pub proof fn texts_are_as_viewed(v: Seq<String>, i: int, s: String, list: Vec<String>)
    ensures
        texts(v).len() == v.len(),
        0 <= i < v.len() ==> texts(v)[i] == v[i]@,
        opt_text(Some(s)) == Some(s@),
        opt_text(None) is None,
        opt_texts(Some(list)) == Some(texts(list@)),
        opt_texts(None) is None,
{
}

/// `String::push` appends one character to the end of the string.
pub assume_specification[ String::push ](s: &mut String, c: char)
    ensures
        final(s)@ == old(s)@.push(c),
;

/// The characters of a string.
pub fn chars_of(s: &str) -> (r: Vec<char>)
    ensures
        r@ == s@,
{
    let mut out: Vec<char> = Vec::new();
    for c in it: s.chars()
        invariant
            it.seq() == s@,
            out@ == s@.take(it.index() as int),
    {
        out.push(c);
    }
    out
}

/// Whether two strings hold the same characters.
pub fn same(a: &str, b: &str) -> (r: bool)
    ensures
        r == (a@ == b@),
{
    let x = chars_of(a);
    let y = chars_of(b);
    if x.len() != y.len() {
        return false;
    }
    let mut i: usize = 0;
    while i < x.len()
        invariant
            i <= x.len(),
            x@ == a@,
            y@ == b@,
            x.len() == y.len(),
            forall|j: int| 0 <= j < i ==> x@[j] == y@[j],
        decreases x.len() - i,
    {
        if x[i] != y[i] {
            return false;
        }
        i += 1;
    }
    assert(x@ =~= y@);
    true
}

// ---------------------------------------------------------------------------
// Trimming
// ---------------------------------------------------------------------------

/// The characters with the Unicode property `White_Space`.
pub open spec fn white_space(c: char) -> bool {
    let n = c as u32;
    ||| 0x9 <= n <= 0xd
    ||| n == 0x20
    ||| n == 0x85
    ||| n == 0xa0
    ||| n == 0x1680
    ||| 0x2000 <= n <= 0x200a
    ||| n == 0x2028
    ||| n == 0x2029
    ||| n == 0x202f
    ||| n == 0x205f
    ||| n == 0x3000
}

/// Whether a character has the Unicode property `White_Space`.
pub fn is_white_space(c: char) -> (r: bool)
    ensures
        r == white_space(c),
{
    let n: u32 = c as u32;
    (0x9 <= n && n <= 0xd) || n == 0x20 || n == 0x85 || n == 0xa0 || n == 0x1680 || (0x2000 <= n
        && n <= 0x200a) || n == 0x2028 || n == 0x2029 || n == 0x202f || n == 0x205f || n == 0x3000
}

/// What a trim takes away: one given character, or all white space.
pub open spec fn trims(which: Option<char>, c: char) -> bool {
    match which {
        Some(d) => c == d,
        None => white_space(c),
    }
}

/// `s` without the characters at its start that the trim takes away.
pub open spec fn without_start(s: Seq<char>, which: Option<char>) -> Seq<char>
    decreases s.len(),
{
    if s.len() > 0 && trims(which, s[0]) {
        without_start(s.skip(1), which)
    } else {
        s
    }
}

/// `s` without the characters at its end that the trim takes away.
pub open spec fn without_end(s: Seq<char>, which: Option<char>) -> Seq<char>
    decreases s.len(),
{
    if s.len() > 0 && trims(which, s.last()) {
        without_end(s.drop_last(), which)
    } else {
        s
    }
}

/// `s` without white space at its two ends.
pub open spec fn trimmed(s: Seq<char>) -> Seq<char> {
    without_end(without_start(s, None), None)
}

/// `s` without `c` at its two ends.
pub open spec fn trimmed_of(s: Seq<char>, c: char) -> Seq<char> {
    without_end(without_start(s, Some(c)), Some(c))
}

fn is_trimmed_away(which: Option<char>, c: char) -> (r: bool)
    ensures
        r == trims(which, c),
{
    match which {
        Some(d) => c == d,
        None => is_white_space(c),
    }
}

fn start_of_kept(chars: &Vec<char>, which: Option<char>) -> (r: usize)
    ensures
        r <= chars.len(),
        chars@.skip(r as int) == without_start(chars@, which),
{
    let mut i: usize = 0;
    assert(chars@.skip(0) =~= chars@);
    while i < chars.len() && is_trimmed_away(which, chars[i])
        invariant
            i <= chars.len(),
            without_start(chars@.skip(i as int), which) == without_start(chars@, which),
        decreases chars.len() - i,
    {
        assert(chars@.skip(i as int).skip(1) =~= chars@.skip(i + 1));
        i += 1;
    }
    i
}

fn end_of_kept(chars: &Vec<char>, from: usize, which: Option<char>) -> (r: usize)
    requires
        from <= chars.len(),
    ensures
        from <= r <= chars.len(),
        chars@.subrange(from as int, r as int) == without_end(chars@.skip(from as int), which),
{
    let mut j: usize = chars.len();
    assert(chars@.subrange(from as int, j as int) =~= chars@.skip(from as int));
    while j > from && is_trimmed_away(which, chars[j - 1])
        invariant
            from <= j <= chars.len(),
            without_end(chars@.subrange(from as int, j as int), which) == without_end(
                chars@.skip(from as int),
                which,
            ),
        decreases j,
    {
        assert(chars@.subrange(from as int, j as int).drop_last() =~= chars@.subrange(
            from as int,
            j - 1,
        ));
        j -= 1;
    }
    j
}

/// `str::trim`: the string without white space at its two ends.
pub fn trim<'a>(s: &'a str) -> (r: &'a str)
    ensures
        r@ == trimmed(s@),
{
    let chars = chars_of(s);
    let i = start_of_kept(&chars, None);
    let j = end_of_kept(&chars, i, None);
    s.substring_char(i, j)
}

/// `str::trim_matches` with one character.
pub fn trim_matches<'a>(s: &'a str, c: char) -> (r: &'a str)
    ensures
        r@ == trimmed_of(s@, c),
{
    let chars = chars_of(s);
    let i = start_of_kept(&chars, Some(c));
    let j = end_of_kept(&chars, i, Some(c));
    s.substring_char(i, j)
}

/// `str::trim_end_matches` with one character.
pub fn trim_end_matches<'a>(s: &'a str, c: char) -> (r: &'a str)
    ensures
        r@ == without_end(s@, Some(c)),
{
    let chars = chars_of(s);
    let j = end_of_kept(&chars, 0, Some(c));
    assert(chars@.skip(0) =~= chars@);
    s.substring_char(0, j)
}

/// Trimming changes nothing in a text that has been trimmed, and leaves a text that does not
/// begin or end with white space.
pub proof fn trimming_is_final(s: Seq<char>)
    ensures
        trimmed(trimmed(s)) == trimmed(s),
        trimmed(s).len() > 0 ==> !white_space(trimmed(s)[0]) && !white_space(trimmed(s).last()),
{
    let a = without_start(s, None);
    lemma_without_start(s, None);
    lemma_without_end(a, None);
    let t = trimmed(s);
    if t.len() > 0 {
        assert(t[0] == a[0]);
    }
}

/// A text that does not begin or end with white space is not changed by trimming.
pub proof fn already_trimmed(s: Seq<char>)
    requires
        s.len() > 0,
        !white_space(s[0]),
        !white_space(s.last()),
    ensures
        trimmed(s) == s,
{
}

proof fn lemma_without_start(s: Seq<char>, which: Option<char>)
    ensures
        without_start(s, which).len() > 0 ==> !trims(which, without_start(s, which)[0]),
    decreases s.len(),
{
    if s.len() > 0 && trims(which, s[0]) {
        lemma_without_start(s.skip(1), which);
    }
}

proof fn lemma_without_end(s: Seq<char>, which: Option<char>)
    ensures
        without_end(s, which).len() > 0 ==> !trims(which, without_end(s, which).last()),
        without_end(s, which).len() > 0 ==> without_end(s, which)[0] == s[0],
        without_end(s, which).len() <= s.len(),
    decreases s.len(),
{
    if s.len() > 0 && trims(which, s.last()) {
        lemma_without_end(s.drop_last(), which);
    }
}

proof fn lemma_start_kept(s: Seq<char>, which: Option<char>) -> (i: int)
    ensures
        0 <= i <= s.len(),
        without_start(s, which) == s.skip(i),
        forall|k: int| 0 <= k < i ==> trims(which, #[trigger] s[k]),
        i < s.len() ==> !trims(which, s[i]),
    decreases s.len(),
{
    if s.len() > 0 && trims(which, s[0]) {
        let i = lemma_start_kept(s.skip(1), which);
        assert(s.skip(1).skip(i) =~= s.skip(i + 1));
        assert forall|k: int| 0 <= k < i + 1 implies trims(which, #[trigger] s[k]) by {
            if k > 0 {
                assert(s.skip(1)[k - 1] == s[k]);
            }
        }
        i + 1
    } else {
        assert(s.skip(0) =~= s);
        0
    }
}

proof fn lemma_end_kept(s: Seq<char>, which: Option<char>) -> (j: int)
    ensures
        0 <= j <= s.len(),
        without_end(s, which) == s.take(j),
        forall|k: int| j <= k < s.len() ==> trims(which, #[trigger] s[k]),
        j > 0 ==> !trims(which, s[j - 1]),
    decreases s.len(),
{
    if s.len() > 0 && trims(which, s.last()) {
        let j = lemma_end_kept(s.drop_last(), which);
        assert(s.drop_last().take(j) =~= s.take(j));
        assert forall|k: int| j <= k < s.len() implies trims(which, #[trigger] s[k]) by {
            if k < s.len() - 1 {
                assert(s.drop_last()[k] == s[k]);
            }
        }
        j
    } else {
        assert(s.take(s.len() as int) =~= s);
        s.len() as int
    }
}

proof fn lemma_kept(s: Seq<char>, which: Option<char>) -> (r: (int, int))
    ensures
        0 <= r.0 <= r.1 <= s.len(),
        without_end(without_start(s, which), which) == s.subrange(r.0, r.1),
        forall|k: int| 0 <= k < r.0 ==> trims(which, #[trigger] s[k]),
        forall|k: int| r.1 <= k < s.len() ==> trims(which, #[trigger] s[k]),
        r.0 < r.1 ==> !trims(which, s[r.0]) && !trims(which, s[r.1 - 1]),
{
    let i = lemma_start_kept(s, which);
    let j = lemma_end_kept(s.skip(i), which);
    assert(s.skip(i).take(j) =~= s.subrange(i, i + j));
    assert forall|k: int| i + j <= k < s.len() implies trims(which, #[trigger] s[k]) by {
        assert(s.skip(i)[k - i] == s[k]);
    }
    (i, i + j)
}

/// The characters that count as white space.
pub proof fn white_space_characters(c: char)
    ensures
        white_space(c) <==> ('\u{9}' <= c <= '\u{d}' || c == ' ' || c == '\u{85}' || c == '\u{a0}' || c
            == '\u{1680}' || '\u{2000}' <= c <= '\u{200a}' || c == '\u{2028}' || c == '\u{2029}' || c
            == '\u{202f}' || c == '\u{205f}' || c == '\u{3000}'),
{
}

/// Trimming takes away white space at the two ends, all of it, and nothing else: what is left are the
/// characters from `r.0` to `r.1`.
pub proof fn trimming_takes_only_space(s: Seq<char>) -> (r: (int, int))
    ensures
        0 <= r.0 <= r.1 <= s.len(),
        trimmed(s) == s.subrange(r.0, r.1),
        forall|k: int| 0 <= k < r.0 ==> white_space(#[trigger] s[k]),
        forall|k: int| r.1 <= k < s.len() ==> white_space(#[trigger] s[k]),
        r.0 < r.1 ==> !white_space(s[r.0]) && !white_space(s[r.1 - 1]),
{
    lemma_kept(s, None)
}

/// Trimming by a character takes away that character at the two ends, as often as it stands there,
/// and nothing else.
pub proof fn trimming_takes_only(s: Seq<char>, c: char) -> (r: (int, int))
    ensures
        0 <= r.0 <= r.1 <= s.len(),
        trimmed_of(s, c) == s.subrange(r.0, r.1),
        forall|k: int| 0 <= k < r.0 ==> #[trigger] s[k] == c,
        forall|k: int| r.1 <= k < s.len() ==> #[trigger] s[k] == c,
        r.0 < r.1 ==> s[r.0] != c && s[r.1 - 1] != c,
{
    lemma_kept(s, Some(c))
}

/// Trimming the end by a character takes away that character at the end, as often as it stands there,
/// and nothing else.
pub proof fn ends_are_trimmed(s: Seq<char>, c: char) -> (j: int)
    ensures
        0 <= j <= s.len(),
        without_end(s, Some(c)) == s.take(j),
        forall|k: int| j <= k < s.len() ==> #[trigger] s[k] == c,
        j > 0 ==> s[j - 1] != c,
{
    lemma_end_kept(s, Some(c))
}

/// White space around a text that neither begins nor ends with any comes off; of white space alone
/// nothing is left.
pub proof fn space_around_comes_off(front: Seq<char>, inner: Seq<char>, back: Seq<char>)
    requires
        inner.len() > 0 ==> !white_space(inner[0]) && !white_space(inner.last()),
        forall|k: int| 0 <= k < front.len() ==> white_space(#[trigger] front[k]),
        forall|k: int| 0 <= k < back.len() ==> white_space(#[trigger] back[k]),
    ensures
        trimmed(front + inner + back) == inner,
{
    let s = front + inner + back;
    let r = trimming_takes_only_space(s);
    let a = front.len() as int;
    let b = (front.len() + inner.len()) as int;
    if inner.len() > 0 {
        assert(s[a] == inner[0]);
        assert(s[b - 1] == inner.last());
        if r.0 < a {
            assert(s[r.0] == front[r.0]);
        }
        if r.1 > b {
            assert(s[r.1 - 1] == back[r.1 - 1 - b]);
        }
        assert(s.subrange(a, b) =~= inner);
    } else {
        if r.0 < r.1 {
            if r.0 < a {
                assert(s[r.0] == front[r.0]);
            } else {
                assert(s[r.0] == back[r.0 - a]);
            }
        }
        assert(s.subrange(r.0, r.1) =~= inner);
    }
}

// ---------------------------------------------------------------------------
// Searching
// ---------------------------------------------------------------------------

/// `t` stands in `s` at position `i`.
pub open spec fn is_at(s: Seq<char>, t: Seq<char>, i: int) -> bool {
    0 <= i && i + t.len() <= s.len() && s.subrange(i, i + t.len()) == t
}

/// `t` stands somewhere in `s`.
pub open spec fn has_text(s: Seq<char>, t: Seq<char>) -> bool {
    exists|i: int| is_at(s, t, i)
}

/// `t` stands in `s` at position `i` and at no earlier one.
pub open spec fn first_at(s: Seq<char>, t: Seq<char>, i: int) -> bool {
    is_at(s, t, i) && forall|j: int| 0 <= j < i ==> !is_at(s, t, j)
}

fn stands_at(s: &Vec<char>, t: &Vec<char>, i: usize) -> (r: bool)
    requires
        i <= s.len(),
    ensures
        r == is_at(s@, t@, i as int),
{
    if t.len() > s.len() - i {
        return false;
    }
    let mut k: usize = 0;
    while k < t.len()
        invariant
            i <= s.len(),
            t.len() <= s.len() - i,
            k <= t.len(),
            forall|j: int| 0 <= j < k ==> s@[i + j] == t@[j],
        decreases t.len() - k,
    {
        if s[i + k] != t[k] {
            assert(s@.subrange(i as int, i + t.len())[k as int] != t@[k as int]);
            return false;
        }
        k += 1;
    }
    assert(s@.subrange(i as int, i + t.len()) =~= t@);
    true
}

/// `str::find` with a string: the first position, in characters, at which `t` stands in `s`.
pub fn find(s: &str, t: &str) -> (r: Option<usize>)
    ensures
        match r {
            Some(i) => first_at(s@, t@, i as int),
            None => !has_text(s@, t@),
        },
{
    let a = chars_of(s);
    let b = chars_of(t);
    let mut i: usize = 0;
    while i < a.len()
        invariant
            i <= a.len(),
            a@ == s@,
            b@ == t@,
            forall|j: int| 0 <= j < i ==> !is_at(s@, t@, j),
        decreases a.len() - i,
    {
        if stands_at(&a, &b, i) {
            return Some(i);
        }
        i += 1;
    }
    if stands_at(&a, &b, i) {
        Some(i)
    } else {
        None
    }
}

/// `str::contains` with a string.
pub fn contains(s: &str, t: &str) -> (r: bool)
    ensures
        r == has_text(s@, t@),
{
    match find(s, t) {
        Some(i) => {
            assert(is_at(s@, t@, i as int));
            true
        },
        None => false,
    }
}

/// `str::contains` with one character.
pub fn contains_char(s: &str, c: char) -> (r: bool)
    ensures
        r == s@.contains(c),
{
    let chars = chars_of(s);
    let mut i: usize = 0;
    while i < chars.len()
        invariant
            i <= chars.len(),
            chars@ == s@,
            forall|j: int| 0 <= j < i ==> s@[j] != c,
        decreases chars.len() - i,
    {
        if chars[i] == c {
            return true;
        }
        i += 1;
    }
    false
}

/// `str::starts_with` with a string.
pub fn starts_with(s: &str, t: &str) -> (r: bool)
    ensures
        r == is_at(s@, t@, 0),
{
    let a = chars_of(s);
    let b = chars_of(t);
    stands_at(&a, &b, 0)
}

/// A text stands where its characters stand, one behind the other; and it stands between whatever is
/// put around it.
pub proof fn texts_stand_by_their_characters(a: Seq<char>, t: Seq<char>, b: Seq<char>, i: int)
    ensures
        is_at(a, t, i) <==> (0 <= i && i + t.len() <= a.len() && forall|k: int|
            0 <= k < t.len() ==> a[i + k] == #[trigger] t[k]),
        is_at(a + t + b, t, a.len() as int),
        has_text(a + t + b, t),
        has_text(a, t) <==> exists|k: int| is_at(a, t, k),
        first_at(a, t, i) <==> is_at(a, t, i) && !exists|k: int| 0 <= k < i && is_at(a, t, k),
{
    if 0 <= i && i + t.len() <= a.len() {
        let u = a.subrange(i, i + t.len());
        if forall|k: int| 0 <= k < t.len() ==> a[i + k] == #[trigger] t[k] {
            assert(u =~= t);
        }
        if u == t {
            assert forall|k: int| 0 <= k < t.len() implies a[i + k] == #[trigger] t[k] by {
                assert(u[k] == t[k]);
            }
        }
    }
    assert((a + t + b).subrange(a.len() as int, (a.len() + t.len()) as int) =~= t);
}

/// What follows the prefix `p`, where `s` begins with it.
pub open spec fn after_prefix(s: Seq<char>, p: Seq<char>) -> Option<Seq<char>> {
    if is_at(s, p, 0) {
        Some(s.skip(p.len() as int))
    } else {
        None
    }
}

/// A prefix is taken off exactly where the text is the prefix and something behind it.
pub proof fn prefixes_come_off(s: Seq<char>, p: Seq<char>, rest: Seq<char>)
    ensures
        after_prefix(s, p) == Some(rest) <==> s == p + rest,
{
    if after_prefix(s, p) == Some(rest) {
        assert(s =~= s.subrange(0, p.len() as int) + s.skip(p.len() as int));
    }
    if s == p + rest {
        assert(s.subrange(0, p.len() as int) =~= p);
        assert(s.skip(p.len() as int) =~= rest);
    }
}

/// `str::strip_prefix` with a string.
pub fn strip_prefix<'a>(s: &'a str, p: &str) -> (r: Option<&'a str>)
    ensures
        match r {
            Some(t) => after_prefix(s@, p@) == Some(t@),
            None => after_prefix(s@, p@) is None,
        },
{
    let a = chars_of(s);
    let b = chars_of(p);
    if stands_at(&a, &b, 0) {
        assert(s@.subrange(p@.len() as int, s@.len() as int) =~= s@.skip(p@.len() as int));
        Some(s.substring_char(b.len(), a.len()))
    } else {
        None
    }
}

/// The part before the first `c` and the part after it.
pub open spec fn cut(s: Seq<char>, c: char) -> Option<(Seq<char>, Seq<char>)> {
    if s.contains(c) {
        let i = s.index_of_first(c).unwrap();
        Some((s.take(i), s.skip(i + 1)))
    } else {
        None
    }
}

/// A text is cut where a text without `c` is followed by `c`.
pub proof fn cut_of_sum(a: Seq<char>, b: Seq<char>, c: char)
    requires
        !a.contains(c),
    ensures
        cut(a + seq![c] + b, c) == Some((a, b)),
{
    let s = a + seq![c] + b;
    assert(s[a.len() as int] == c);
    assert(s.contains(c));
    s.index_of_first_ensures(c);
    let i = s.index_of_first(c).unwrap();
    assert(i == a.len()) by {
        if i < a.len() {
            assert(a[i] == c);
        }
    }
    assert(s.take(i) =~= a);
    assert(s.skip(i + 1) =~= b);
}

/// A text is cut exactly at its first `c`: what comes before holds no `c`, and the two parts with `c`
/// between them are the text.
pub proof fn cuts_are_at_the_first(s: Seq<char>, c: char, a: Seq<char>, b: Seq<char>)
    ensures
        cut(s, c) == Some((a, b)) <==> s == a + seq![c] + b && !a.contains(c),
        cut(s, c) is None <==> !s.contains(c),
{
    if s == a + seq![c] + b && !a.contains(c) {
        cut_of_sum(a, b, c);
    }
    if cut(s, c) == Some((a, b)) {
        s.index_of_first_ensures(c);
        let i = s.index_of_first(c).unwrap();
        assert(s =~= a + seq![c] + b);
        assert forall|k: int| 0 <= k < a.len() implies a[k] != c by {
            assert(s[k] == a[k]);
        }
    }
}

/// `str::split_once` with one character.
pub fn split_once<'a>(s: &'a str, c: char) -> (r: Option<(&'a str, &'a str)>)
    ensures
        match r {
            Some((a, b)) => cut(s@, c) == Some((a@, b@)),
            None => cut(s@, c) is None,
        },
{
    let chars = chars_of(s);
    let mut i: usize = 0;
    while i < chars.len()
        invariant
            i <= chars.len(),
            chars@ == s@,
            forall|j: int| 0 <= j < i ==> s@[j] != c,
        decreases chars.len() - i,
    {
        if chars[i] == c {
            proof {
                s@.index_of_first_ensures(c);
            }
            assert(s@.contains(c));
            assert(s@.subrange(0, i as int) =~= s@.take(i as int));
            assert(s@.subrange(i + 1, s@.len() as int) =~= s@.skip(i + 1));
            return Some((s.substring_char(0, i), s.substring_char(i + 1, chars.len())));
        }
        i += 1;
    }
    None
}

// ---------------------------------------------------------------------------
// Splitting and joining
// ---------------------------------------------------------------------------

/// The pieces of `s` between the characters `sep`; a text without `sep` is one piece.
pub open spec fn pieces(s: Seq<char>, sep: char) -> Seq<Seq<char>>
    decreases s.len(),
{
    if s.len() == 0 {
        seq![Seq::empty()]
    } else {
        let p = pieces(s.drop_last(), sep);
        if s.last() == sep {
            p.push(Seq::empty())
        } else {
            p.update(p.len() - 1, p.last().push(s.last()))
        }
    }
}

/// The texts in a row, with `sep` between each two.
pub open spec fn joined(parts: Seq<Seq<char>>, sep: Seq<char>) -> Seq<char>
    decreases parts.len(),
{
    if parts.len() == 0 {
        Seq::empty()
    } else if parts.len() == 1 {
        parts[0]
    } else {
        joined(parts.drop_last(), sep) + sep + parts.last()
    }
}

/// There is always at least one piece.
pub proof fn pieces_not_empty(s: Seq<char>, sep: char)
    ensures
        pieces(s, sep).len() > 0,
    decreases s.len(),
{
    if s.len() > 0 {
        pieces_not_empty(s.drop_last(), sep);
    }
}

/// No piece of a text holds the separator, and the pieces joined by it are the text again.
pub proof fn pieces_joined(s: Seq<char>, sep: char)
    ensures
        joined(pieces(s, sep), seq![sep]) == s,
        forall|i: int| 0 <= i < pieces(s, sep).len() ==> !(#[trigger] pieces(s, sep)[i]).contains(sep),
    decreases s.len(),
{
    pieces_not_empty(s, sep);
    if s.len() > 0 {
        let t = s.drop_last();
        let p = pieces(t, sep);
        let q = pieces(s, sep);
        pieces_joined(t, sep);
        pieces_not_empty(t, sep);
        assert(t.push(s.last()) =~= s);
        if s.last() == sep {
            assert(q.drop_last() =~= p);
            assert(joined(q, seq![sep]) =~= s);
        } else {
            assert(q.drop_last() =~= p.drop_last());
            assert(joined(q, seq![sep]) =~= s);
            assert forall|i: int| 0 <= i < q.len() implies !(#[trigger] q[i]).contains(sep) by {
                if i < q.len() - 1 {
                    assert(q[i] == p[i]);
                } else {
                    let last = p.last();
                    assert(!last.contains(sep));
                    assert(q[i] == last.push(s.last()));
                    assert forall|k: int| 0 <= k < q[i].len() implies q[i][k] != sep by {
                        if k < last.len() {
                            assert(last[k] == q[i][k]);
                        }
                    }
                }
            }
        }
    }
}

/// A text without the separator is its own only piece.
pub proof fn pieces_of_plain(s: Seq<char>, sep: char)
    requires
        !s.contains(sep),
    ensures
        pieces(s, sep) == seq![s],
    decreases s.len(),
{
    if s.len() > 0 {
        let t = s.drop_last();
        assert forall|i: int| 0 <= i < t.len() implies t[i] != sep by {
            assert(s[i] == t[i]);
        }
        pieces_of_plain(t, sep);
        assert(t.push(s.last()) =~= s);
        assert(pieces(s, sep) =~= seq![s]);
    } else {
        assert(s =~= Seq::empty());
    }
}

/// A separator and a text without it add one piece to those of the text before.
pub proof fn pieces_of_sum(a: Seq<char>, b: Seq<char>, sep: char)
    requires
        !b.contains(sep),
    ensures
        pieces(a + seq![sep] + b, sep) == pieces(a, sep).push(b),
    decreases b.len(),
{
    let s = a + seq![sep] + b;
    if b.len() > 0 {
        let c = b.drop_last();
        assert forall|i: int| 0 <= i < c.len() implies c[i] != sep by {
            assert(b[i] == c[i]);
        }
        pieces_of_sum(a, c, sep);
        assert(s.drop_last() =~= a + seq![sep] + c);
        assert(s.last() == b.last());
        assert(c.push(b.last()) =~= b);
        assert(pieces(s, sep) =~= pieces(a, sep).push(b));
    } else {
        assert(s.drop_last() =~= a);
        assert(b =~= Seq::empty());
    }
}

/// The pieces of two texts with a separator between them are those of the first and then those of the
/// second.
pub proof fn pieces_of_two(a: Seq<char>, b: Seq<char>, sep: char)
    ensures
        pieces(a + seq![sep] + b, sep) == pieces(a, sep) + pieces(b, sep),
    decreases b.len(),
{
    let s = a + seq![sep] + b;
    pieces_not_empty(b, sep);
    if b.len() > 0 {
        let c = b.drop_last();
        pieces_of_two(a, c, sep);
        pieces_not_empty(c, sep);
        assert(s.drop_last() =~= a + seq![sep] + c);
        assert(s.last() == b.last());
        assert(pieces(s, sep) =~= pieces(a, sep) + pieces(b, sep));
    } else {
        assert(s.drop_last() =~= a);
        assert(pieces(s, sep) =~= pieces(a, sep) + pieces(b, sep));
    }
}

/// The first piece of a text is what stands before the first separator, or the whole text where there is
/// none.
pub proof fn first_pieces(s: Seq<char>, sep: char)
    ensures
        pieces(s, sep).len() > 0,
        pieces(s, sep)[0] == (match cut(s, sep) {
            Some((a, _)) => a,
            None => s,
        }),
{
    if s.contains(sep) {
        let (a, b) = cut(s, sep)->0;
        cuts_are_at_the_first(s, sep, a, b);
        pieces_of_two(a, b, sep);
        pieces_of_plain(a, sep);
    } else {
        pieces_of_plain(s, sep);
    }
}

/// Joining puts the separator between the texts and nowhere else: a single text is itself, no text is
/// nothing, and two rows that are joined one after the other have one separator between them.
pub proof fn joining_puts_separators_between(
    a: Seq<Seq<char>>,
    b: Seq<Seq<char>>,
    sep: Seq<char>,
    single: Seq<char>,
)
    ensures
        joined(Seq::empty(), sep) == Seq::<char>::empty(),
        joined(seq![single], sep) == single,
        a.len() > 0 && b.len() > 0 ==> joined(a + b, sep) == joined(a, sep) + sep + joined(b, sep),
    decreases b.len(),
{
    if a.len() > 0 && b.len() > 0 {
        assert((a + b).drop_last() =~= a + b.drop_last());
        assert((a + b).last() == b.last());
        if b.len() > 1 {
            joining_puts_separators_between(a, b.drop_last(), sep, single);
            assert(joined(a + b, sep) =~= joined(a, sep) + sep + joined(b, sep));
        } else {
            assert(a + b.drop_last() =~= a);
        }
    }
}

/// Texts without the separator that are joined by it come apart into the same texts.
pub proof fn joined_texts_come_apart(parts: Seq<Seq<char>>, sep: char)
    requires
        parts.len() > 0,
        forall|i: int| 0 <= i < parts.len() ==> !(#[trigger] parts[i]).contains(sep),
    ensures
        pieces(joined(parts, seq![sep]), sep) == parts,
    decreases parts.len(),
{
    let before = parts.drop_last();
    assert(!parts[parts.len() - 1].contains(sep));
    if parts.len() > 1 {
        assert forall|i: int| 0 <= i < before.len() implies !(#[trigger] before[i]).contains(sep) by {
            assert(before[i] == parts[i]);
        }
        joined_texts_come_apart(before, sep);
        pieces_of_sum(joined(before, seq![sep]), parts.last(), sep);
        assert(before.push(parts.last()) =~= parts);
    } else {
        pieces_of_plain(parts[0], sep);
        assert(seq![parts[0]] =~= parts);
    }
}

/// `str::split` with one character, all pieces at once.
pub fn split(s: &str, sep: char) -> (r: Vec<String>)
    ensures
        texts(r@) == pieces(s@, sep),
        r.len() > 0,
{
    let chars = chars_of(s);
    let mut out: Vec<String> = Vec::new();
    let mut current = String::new();
    let mut i: usize = 0;
    assert(chars@.take(0) =~= Seq::empty());
    assert(texts(out@).push(current@) =~= pieces(chars@.take(0), sep));
    while i < chars.len()
        invariant
            i <= chars.len(),
            texts(out@).push(current@) == pieces(chars@.take(i as int), sep),
        decreases chars.len() - i,
    {
        let c = chars[i];
        let ghost before = texts(out@).push(current@);
        assert(chars@.take(i + 1).drop_last() =~= chars@.take(i as int));
        if c == sep {
            out.push(current);
            current = String::new();
            assert(texts(out@) =~= before);
        } else {
            current.push(c);
            assert(texts(out@).push(current@) =~= before.update(
                before.len() - 1,
                before.last().push(c),
            ));
        }
        i += 1;
    }
    let ghost before = texts(out@).push(current@);
    out.push(current);
    assert(texts(out@) =~= before);
    assert(chars@.take(i as int) =~= s@);
    out
}

/// `join` of a list of strings.
pub fn join(parts: &Vec<String>, sep: &str) -> (r: String)
    ensures
        r@ == joined(texts(parts@), sep@),
{
    let mut out = String::new();
    let mut i: usize = 0;
    assert(texts(parts@).take(0) =~= Seq::empty());
    while i < parts.len()
        invariant
            i <= parts.len(),
            out@ == joined(texts(parts@).take(i as int), sep@),
        decreases parts.len() - i,
    {
        let ghost all = texts(parts@);
        assert(all.take(i + 1).drop_last() =~= all.take(i as int));
        assert(all.take(i + 1).last() == parts@[i as int]@);
        if i > 0 {
            out.append(sep);
        } else {
            assert(out@ =~= Seq::empty());
        }
        out.append(parts[i].as_str());
        i += 1;
        assert(out@ =~= joined(all.take(i as int), sep@));
    }
    assert(texts(parts@).take(i as int) =~= texts(parts@));
    out
}

// ---------------------------------------------------------------------------
// Replacing
// ---------------------------------------------------------------------------

/// `s` with every occurrence of `from` turned into `to`, taken from left to right without overlap.
pub open spec fn replaced(s: Seq<char>, from: Seq<char>, to: Seq<char>) -> Seq<char>
    decreases s.len(),
{
    if s.len() == 0 || from.len() == 0 {
        s
    } else if is_at(s, from, 0) {
        to + replaced(s.skip(from.len() as int), from, to)
    } else {
        seq![s[0]] + replaced(s.skip(1), from, to)
    }
}

/// A text in which `from` does not stand stays as it is.
pub proof fn texts_without_it_stay(s: Seq<char>, from: Seq<char>, to: Seq<char>)
    requires
        !has_text(s, from),
    ensures
        replaced(s, from, to) == s,
    decreases s.len(),
{
    if s.len() > 0 && from.len() > 0 {
        assert(!is_at(s, from, 0));
        let rest = s.skip(1);
        assert forall|i: int| !is_at(rest, from, i) by {
            if is_at(rest, from, i) {
                assert(s.subrange(i + 1, i + 1 + from.len()) =~= rest.subrange(i, i + from.len()));
                assert(is_at(s, from, i + 1));
            }
        }
        texts_without_it_stay(rest, from, to);
        assert(replaced(s, from, to) =~= s);
    }
}

/// Up to the first occurrence of `from` nothing changes, `to` takes its place, and what follows is
/// treated in the same way.
pub proof fn first_occurrences_are_replaced(
    a: Seq<char>,
    from: Seq<char>,
    b: Seq<char>,
    to: Seq<char>,
)
    requires
        from.len() > 0,
        first_at(a + from + b, from, a.len() as int),
    ensures
        replaced(a + from + b, from, to) == a + to + replaced(b, from, to),
    decreases a.len(),
{
    let s = a + from + b;
    if a.len() == 0 {
        assert(s.skip(from.len() as int) =~= b);
        assert(replaced(s, from, to) =~= a + to + replaced(b, from, to));
    } else {
        assert(!is_at(s, from, 0));
        let c = a.skip(1);
        let rest = c + from + b;
        assert(s.skip(1) =~= rest);
        assert(rest.subrange(c.len() as int, (c.len() + from.len()) as int) =~= from);
        assert forall|j: int| 0 <= j < c.len() implies !is_at(rest, from, j) by {
            if is_at(rest, from, j) {
                assert(s.subrange(j + 1, j + 1 + from.len()) =~= rest.subrange(j, j + from.len()));
                assert(is_at(s, from, j + 1));
            }
        }
        first_occurrences_are_replaced(c, from, b, to);
        assert(replaced(s, from, to) =~= a + to + replaced(b, from, to));
    }
}

/// Replacing one character by another changes every such character and no other.
pub proof fn characters_are_replaced(s: Seq<char>, c: char, d: char)
    ensures
        replaced(s, seq![c], seq![d]) == s.map_values(
            |x: char|
                if x == c {
                    d
                } else {
                    x
                },
        ),
    decreases s.len(),
{
    if s.len() > 0 {
        characters_are_replaced(s.skip(1), c, d);
        assert(is_at(s, seq![c], 0) <==> s[0] == c) by {
            if s[0] == c {
                assert(s.subrange(0, 1) =~= seq![c]);
            }
            if is_at(s, seq![c], 0) {
                assert(s.subrange(0, 1)[0] == seq![c][0]);
            }
        }
    }
    assert(replaced(s, seq![c], seq![d]) =~= s.map_values(
        |x: char|
            if x == c {
                d
            } else {
                x
            },
    ));
}

/// Replacing a character by nothing leaves the other characters, in their order.
pub proof fn characters_are_removed(s: Seq<char>, c: char)
    ensures
        replaced(s, seq![c], Seq::empty()) == s.filter(|x: char| x != c),
    decreases s.len(),
{
    let p = |x: char| x != c;
    if s.len() > 0 {
        let rest = s.skip(1);
        characters_are_removed(rest, c);
        assert(is_at(s, seq![c], 0) <==> s[0] == c) by {
            if s[0] == c {
                assert(s.subrange(0, 1) =~= seq![c]);
            }
            if is_at(s, seq![c], 0) {
                assert(s.subrange(0, 1)[0] == seq![c][0]);
            }
        }
        assert(seq![s[0]] + rest =~= s);
        Seq::filter_distributes_over_add(seq![s[0]], rest, p);
        let one = seq![s[0]];
        reveal(Seq::filter);
        assert(one.drop_last() =~= Seq::empty());
        assert(one.drop_last().filter(p) =~= Seq::empty());
        assert(one.filter(p) =~= if s[0] != c {
            one
        } else {
            Seq::empty()
        });
    }
    assert(replaced(s, seq![c], Seq::empty()) =~= s.filter(p));
}

/// `str::replace` of a non-empty text.
pub fn replace(s: &str, from: &str, to: &str) -> (r: String)
    requires
        from@.len() > 0,
    ensures
        r@ == replaced(s@, from@, to@),
{
    let a = chars_of(s);
    let b = chars_of(from);
    let mut out = String::new();
    let mut i: usize = 0;
    assert(s@.skip(0) =~= s@);
    assert(out@ + replaced(s@.skip(0), from@, to@) =~= replaced(s@, from@, to@));
    while i < a.len()
        invariant
            from@.len() > 0,
            i <= a.len(),
            a@ == s@,
            b@ == from@,
            out@ + replaced(s@.skip(i as int), from@, to@) == replaced(s@, from@, to@),
        decreases a.len() - i,
    {
        let ghost rest = s@.skip(i as int);
        let ghost before = out@;
        if stands_at(&a, &b, i) {
            assert(rest.subrange(0, from@.len() as int) =~= s@.subrange(i as int, i + from@.len()));
            assert(rest.skip(from@.len() as int) =~= s@.skip(i + from@.len()));
            out.append(to);
            i += b.len();
            assert(out@ + replaced(s@.skip(i as int), from@, to@) =~= before + replaced(
                rest,
                from@,
                to@,
            ));
        } else {
            assert(!is_at(rest, from@, 0)) by {
                if is_at(rest, from@, 0) {
                    assert(rest.subrange(0, from@.len() as int) =~= s@.subrange(
                        i as int,
                        i + from@.len(),
                    ));
                }
            }
            assert(rest.skip(1) =~= s@.skip(i + 1));
            out.push(a[i]);
            i += 1;
            assert(out@ + replaced(s@.skip(i as int), from@, to@) =~= before + replaced(
                rest,
                from@,
                to@,
            ));
        }
    }
    assert(out@ + replaced(s@.skip(i as int), from@, to@) =~= out@);
    out
}

// ---------------------------------------------------------------------------
// Numbers
// ---------------------------------------------------------------------------

/// The decimal digit of a number below ten.
pub open spec fn digit(n: int) -> char {
    (n + 48) as char
}

/// The decimal notation of a number.
pub open spec fn decimal(n: nat) -> Seq<char>
    decreases n,
{
    if n < 10 {
        seq![digit(n as int)]
    } else {
        decimal(n / 10).push(digit((n % 10) as int))
    }
}

/// The decimal notation of a number that may be negative.
pub open spec fn signed_decimal(n: int) -> Seq<char> {
    if n < 0 {
        seq!['-'] + decimal((-n) as nat)
    } else {
        decimal(n as nat)
    }
}

/// A number is written by its digits: one below ten by a single one, and any other by the digits of its
/// tenth and then its last digit. No two numbers are written alike, and a minus sign stands before
/// those below zero and no others.
pub proof fn numbers_are_written_by_digits(n: nat, d: nat, m: nat)
    requires
        d < 10,
    ensures
        decimal(d) == seq![(48 + d) as char],
        n > 0 ==> decimal(10 * n + d) == decimal(n).push((48 + d) as char),
        decimal(n) == decimal(m) ==> n == m,
        signed_decimal(n as int) == decimal(n),
        n > 0 ==> signed_decimal(-(n as int)) == seq!['-'] + decimal(n),
    decreases n,
{
    assert((10 * n + d) / 10 == n);
    assert((10 * n + d) % 10 == d);
    lemma_digits(n);
    lemma_digits(m);
    if decimal(n) == decimal(m) {
        if n < 10 && m < 10 {
            assert(decimal(n)[0] == decimal(m)[0]);
        } else if n >= 10 && m >= 10 {
            assert(decimal(n).drop_last() =~= decimal(n / 10));
            assert(decimal(m).drop_last() =~= decimal(m / 10));
            assert(decimal(n).last() == decimal(m).last());
            numbers_are_written_by_digits(n / 10, 0, m / 10);
        }
    }
}

proof fn lemma_digits(n: nat)
    ensures
        decimal(n).len() > 0,
        n < 10 <==> decimal(n).len() == 1,
    decreases n,
{
    if n >= 10 {
        lemma_digits(n / 10);
    }
}

/// The decimal notation of a number.
pub fn number(n: u64) -> (r: String)
    ensures
        r@ == decimal(n as nat),
    decreases n,
{
    let d: u8 = (n % 10) as u8 + 48;
    if n < 10 {
        let mut out = String::new();
        out.push(d as char);
        assert(out@ =~= decimal(n as nat));
        out
    } else {
        let mut out = number(n / 10);
        out.push(d as char);
        out
    }
}

/// The decimal notation of a number that may be negative.
pub fn signed_number(n: i64) -> (r: String)
    ensures
        r@ == signed_decimal(n as int),
{
    if n >= 0 {
        number(n as u64)
    } else {
        let mut out = String::new();
        out.push('-');
        let size: u64 = if n == i64::MIN {
            0x8000_0000_0000_0000
        } else {
            (-n) as u64
        };
        let digits = number(size);
        out.append(digits.as_str());
        assert(out@ =~= signed_decimal(n as int));
        out
    }
}

/// Whether a character is one of the ten ASCII digits.
pub open spec fn ascii_digit(c: char) -> bool {
    '0' <= c <= '9'
}

} // verus!
