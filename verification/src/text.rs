//! Text as a sequence of characters: searching, cutting, trimming, joining.
//!
//! Contracts speak of `Seq<char>`, the view of `str` and `String`. Positions
//! are counted in characters throughout, never in bytes.

use vstd::prelude::*;
use vstd::string::*;

verus! {

/// Appends `c` to the end of `text`.
///
/// Trusted: `String::push` leaves the characters already there in place and
/// puts `c` after the last of them.
pub assume_specification[ String::push ](text: &mut String, c: char)
    ensures
        final(text)@ == old(text)@.push(c),
;

// ---------------------------------------------------------------- models

/// Where `c` first occurs in `s`.
pub open spec fn find(s: Seq<char>, c: char) -> Option<int>
    decreases s.len(),
{
    if s.len() == 0 {
        None
    } else if s[0] == c {
        Some(0)
    } else {
        match find(s.drop_first(), c) {
            Some(i) => Some(i + 1),
            None => None,
        }
    }
}

/// What stands before the first `c` and what stands after it.
pub open spec fn split_once(s: Seq<char>, c: char) -> Option<(Seq<char>, Seq<char>)> {
    match find(s, c) {
        Some(i) => Some((s.take(i), s.skip(i + 1))),
        None => None,
    }
}

/// The field in front of the first `c`, and the rest when there is a `c`.
pub open spec fn cut(s: Seq<char>, c: char) -> (Seq<char>, Option<Seq<char>>) {
    match split_once(s, c) {
        Some((head, tail)) => (head, Some(tail)),
        None => (s, None),
    }
}

/// Whether Unicode gives `c` the `White_Space` property.
pub open spec fn is_white_space(c: char) -> bool {
    let code = c as u32;
    ||| 0x09 <= code <= 0x0d
    ||| code == 0x20
    ||| code == 0x85
    ||| code == 0xa0
    ||| code == 0x1680
    ||| 0x2000 <= code <= 0x200a
    ||| code == 0x2028
    ||| code == 0x2029
    ||| code == 0x202f
    ||| code == 0x205f
    ||| code == 0x3000
}

/// `s` without the white space it starts with.
pub open spec fn trim_start(s: Seq<char>) -> Seq<char>
    decreases s.len(),
{
    if s.len() > 0 && is_white_space(s[0]) {
        trim_start(s.drop_first())
    } else {
        s
    }
}

/// `s` without the white space it ends with.
pub open spec fn trim_end(s: Seq<char>) -> Seq<char>
    decreases s.len(),
{
    if s.len() > 0 && is_white_space(s.last()) {
        trim_end(s.drop_last())
    } else {
        s
    }
}

/// `s` without the white space around it.
pub open spec fn trim(s: Seq<char>) -> Seq<char> {
    trim_end(trim_start(s))
}

/// `c` in lower case, where it is an ASCII capital.
pub open spec fn ascii_lower(c: char) -> char {
    if 'A' <= c <= 'Z' {
        ((c as u32) + 32) as char
    } else {
        c
    }
}

/// `s` with its ASCII capitals in lower case.
pub open spec fn to_ascii_lowercase(s: Seq<char>) -> Seq<char> {
    s.map_values(|c: char| ascii_lower(c))
}

/// Whether `pattern` stands in `s` from position `i` on.
pub open spec fn stands_at(s: Seq<char>, pattern: Seq<char>, i: int) -> bool {
    &&& 0 <= i
    &&& i + pattern.len() <= s.len()
    &&& s.subrange(i, i + pattern.len()) == pattern
}

/// Whether `pattern` stands somewhere in `s`.
pub open spec fn contains(s: Seq<char>, pattern: Seq<char>) -> bool {
    exists|i: int| stands_at(s, pattern, i)
}

/// `s` with every `c` taken out.
pub open spec fn without(s: Seq<char>, c: char) -> Seq<char> {
    s.filter(|x: char| x != c)
}

/// The parts in order, with `separator` between neighbours.
pub open spec fn join(parts: Seq<Seq<char>>, separator: Seq<char>) -> Seq<char>
    decreases parts.len(),
{
    if parts.len() == 0 {
        Seq::empty()
    } else if parts.len() == 1 {
        parts[0]
    } else {
        join(parts.drop_last(), separator) + separator + parts.last()
    }
}

/// `Some` of what an optional text holds.
pub open spec fn option_view(text: Option<String>) -> Option<Seq<char>> {
    match text {
        Some(text) => Some(text@),
        None => None,
    }
}

/// `Some` of what an optional text slice holds.
pub open spec fn option_str_view(text: Option<&str>) -> Option<Seq<char>> {
    match text {
        Some(text) => Some(text@),
        None => None,
    }
}

/// What each text of a list holds.
pub open spec fn strings_view(texts: Seq<String>) -> Seq<Seq<char>> {
    texts.map_values(|text: String| text@)
}

/// What each text slice of a list holds.
pub open spec fn strs_view(texts: Seq<&str>) -> Seq<Seq<char>> {
    texts.map_values(|text: &str| text@)
}

// ---------------------------------------------------------------- lemmas

/// `find` answers with the first position that holds `c`, if one does.
pub proof fn lemma_find(s: Seq<char>, c: char)
    ensures
        match find(s, c) {
            Some(i) => {
                &&& 0 <= i < s.len()
                &&& s[i] == c
                &&& forall|j: int| 0 <= j < i ==> s[j] != c
            },
            None => forall|j: int| 0 <= j < s.len() ==> s[j] != c,
        },
    decreases s.len(),
{
    if s.len() > 0 && s[0] != c {
        let t = s.drop_first();
        lemma_find(t, c);
        assert(forall|j: int| 0 < j < s.len() ==> s[j] == t[j - 1]);
    }
}

/// Whatever position is the first to hold `c` is the one that `find` gives.
pub proof fn lemma_find_is(s: Seq<char>, c: char, i: int)
    requires
        0 <= i < s.len(),
        s[i] == c,
        forall|j: int| 0 <= j < i ==> s[j] != c,
    ensures
        find(s, c) == Some(i),
{
    lemma_find(s, c);
    let k = find(s, c)->0;
    if k < i {
        assert(s[k] != c);
    }
}

/// Where `c` does not occur, `find` gives nothing.
pub proof fn lemma_find_none(s: Seq<char>, c: char)
    requires
        !s.contains(c),
    ensures
        find(s, c) is None,
{
    lemma_find(s, c);
    if find(s, c) is Some {
        assert(s.contains(s[find(s, c)->0]));
    }
}

/// The first `c` of `a + [c] + b` stands behind an `a` that has none.
pub proof fn lemma_split_once_joined(a: Seq<char>, c: char, b: Seq<char>)
    requires
        !a.contains(c),
    ensures
        split_once(a + seq![c] + b, c) == Some((a, b)),
{
    let s = a + seq![c] + b;
    assert(s[a.len() as int] == c);
    assert forall|j: int| 0 <= j < a.len() implies s[j] != c by {
        assert(s[j] == a[j]);
        assert(a.contains(a[j]));
    }
    lemma_find_is(s, c, a.len() as int);
    assert(s.take(a.len() as int) =~= a);
    assert(s.skip(a.len() as int + 1) =~= b);
}

// ---------------------------------------------------------------- code

/// Where `c` first occurs in `s`, in characters.
pub fn find_char(s: &str, c: char) -> (found: Option<usize>)
    ensures
        match found {
            Some(i) => find(s@, c) == Some(i as int),
            None => find(s@, c) is None,
        },
{
    let n: usize = s.unicode_len();
    let mut i: usize = 0;
    for x in it: s.chars()
        invariant
            n == s@.len(),
            it.seq() == s@,
            i == it.index(),
            forall|j: int| 0 <= j < i ==> s@[j] != c,
    {
        if x == c {
            proof {
                lemma_find_is(s@, c, i as int);
            }
            return Some(i);
        }
        i = i + 1;
    }
    proof {
        lemma_find(s@, c);
    }
    None
}

/// The texts around the first `c` in `s`.
pub fn cut_once<'a>(s: &'a str, c: char) -> (parts: Option<(&'a str, &'a str)>)
    ensures
        match parts {
            Some((head, tail)) => split_once(s@, c) == Some((head@, tail@)),
            None => split_once(s@, c) is None,
        },
{
    match find_char(s, c) {
        Some(i) => {
            proof {
                lemma_find(s@, c);
            }
            let n: usize = s.unicode_len();
            let head = s.substring_char(0, i);
            let tail = s.substring_char(i + 1, n);
            assert(head@ =~= s@.take(i as int));
            assert(tail@ =~= s@.skip(i + 1));
            Some((head, tail))
        },
        None => None,
    }
}

/// The characters of `s`, one by one.
pub fn chars_of(s: &str) -> (chars: Vec<char>)
    ensures
        chars@ == s@,
{
    let mut chars: Vec<char> = Vec::new();
    for x in it: s.chars()
        invariant
            it.seq() == s@,
            chars@ =~= s@.take(it.index()),
    {
        chars.push(x);
    }
    assert(s@.take(s@.len() as int) =~= s@);
    chars
}

/// Whether `c` is white space.
pub fn white_space(c: char) -> (white: bool)
    ensures
        white == is_white_space(c),
{
    let code: u32 = c as u32;
    (0x09 <= code && code <= 0x0d) || code == 0x20 || code == 0x85 || code == 0xa0 || code == 0x1680
        || (0x2000 <= code && code <= 0x200a) || code == 0x2028 || code == 0x2029 || code == 0x202f
        || code == 0x205f || code == 0x3000
}

/// `s` without the white space around it.
pub fn trimmed(s: &str) -> (inner: &str)
    ensures
        inner@ == trim(s@),
{
    let chars = chars_of(s);
    let n: usize = chars.len();
    let mut from: usize = 0;
    assert(s@.skip(0) =~= s@);
    while from < n && white_space(chars[from])
        invariant
            from <= n,
            n == chars@.len(),
            chars@ == s@,
            trim_start(s@) == trim_start(s@.skip(from as int)),
        decreases n - from,
    {
        assert(s@.skip(from as int).drop_first() =~= s@.skip(from + 1));
        from = from + 1;
    }
    let ghost rest = s@.skip(from as int);
    assert(trim_start(s@) == rest);
    let mut to: usize = n;
    assert(s@.subrange(from as int, n as int) =~= rest);
    while to > from && white_space(chars[to - 1])
        invariant
            from <= to <= n,
            n == chars@.len(),
            chars@ == s@,
            trim_end(rest) == trim_end(s@.subrange(from as int, to as int)),
        decreases to,
    {
        assert(s@.subrange(from as int, to as int).drop_last() =~= s@.subrange(
            from as int,
            to - 1,
        ));
        to = to - 1;
    }
    s.substring_char(from, to)
}

/// `s` with its ASCII capitals in lower case.
pub fn lowercased(s: &str) -> (lower: String)
    ensures
        lower@ == to_ascii_lowercase(s@),
{
    let mut lower = String::new();
    for x in it: s.chars()
        invariant
            it.seq() == s@,
            lower@ =~= to_ascii_lowercase(s@.take(it.index())),
    {
        let y: char = lower_char(x);
        lower.push(y);
    }
    assert(s@.take(s@.len() as int) =~= s@);
    lower
}

/// `c` in lower case, where it is an ASCII capital.
fn lower_char(c: char) -> (lower: char)
    ensures
        lower == ascii_lower(c),
{
    if 'A' <= c && c <= 'Z' {
        ((c as u8) + 32) as char
    } else {
        c
    }
}

/// Whether `pattern` stands somewhere in `s`.
pub fn has(s: &str, pattern: &str) -> (found: bool)
    ensures
        found == contains(s@, pattern@),
{
    let chars = chars_of(s);
    let wanted = chars_of(pattern);
    let n: usize = chars.len();
    let m: usize = wanted.len();
    if m > n {
        return false;
    }
    let mut i: usize = 0;
    while i <= n - m
        invariant
            m <= n,
            n == chars@.len(),
            m == wanted@.len(),
            chars@ == s@,
            wanted@ == pattern@,
            i <= n - m + 1,
            forall|j: int| 0 <= j < i ==> !stands_at(s@, pattern@, j),
        decreases n - m + 1 - i,
    {
        let mut k: usize = 0;
        while k < m && chars[i + k] == wanted[k]
            invariant
                k <= m,
                m <= n,
                i <= n - m,
                n == chars@.len(),
                m == wanted@.len(),
                chars@ == s@,
                wanted@ == pattern@,
                forall|j: int| 0 <= j < k ==> s@[i + j] == pattern@[j],
            decreases m - k,
        {
            k = k + 1;
        }
        if k == m {
            assert(s@.subrange(i as int, i + m) =~= pattern@);
            assert(stands_at(s@, pattern@, i as int));
            return true;
        }
        assert(s@.subrange(i as int, i + m)[k as int] != pattern@[k as int]);
        assert(!stands_at(s@, pattern@, i as int));
        i = i + 1;
    }
    false
}

/// `s` with every `c` taken out.
pub fn strip(s: &str, c: char) -> (rest: String)
    ensures
        rest@ == without(s@, c),
{
    let mut rest = String::new();
    for x in it: s.chars()
        invariant
            it.seq() == s@,
            rest@ =~= without(s@.take(it.index()), c),
    {
        proof {
            let taken = s@.take(it.index() + 1);
            assert(taken.drop_last() =~= s@.take(it.index()));
            assert(taken.last() == x);
            reveal_with_fuel(Seq::filter, 2);
        }
        if x != c {
            rest.push(x);
        }
    }
    assert(s@.take(s@.len() as int) =~= s@);
    rest
}

/// The parts in order, with `separator` between neighbours.
pub fn join_with(parts: &Vec<String>, separator: &str) -> (joined: String)
    ensures
        joined@ == join(strings_view(parts@), separator@),
{
    let ghost views = strings_view(parts@);
    let mut joined = String::new();
    let mut i: usize = 0;
    assert(views.take(0) =~= Seq::empty());
    while i < parts.len()
        invariant
            i <= parts@.len(),
            views == strings_view(parts@),
            joined@ =~= join(views.take(i as int), separator@),
        decreases parts@.len() - i,
    {
        if i > 0 {
            joined.append(separator);
        }
        joined.append(parts[i].as_str());
        proof {
            let taken = views.take(i + 1);
            assert(taken.drop_last() =~= views.take(i as int));
            assert(taken.last() == views[i as int]);
            if i == 0 {
                assert(views.take(0) =~= Seq::empty());
            }
        }
        i = i + 1;
    }
    assert(views.take(views.len() as int) =~= views);
    joined
}

/// Whether two texts hold the same characters.
pub fn same(a: &str, b: &str) -> (equal: bool)
    ensures
        equal == (a@ == b@),
{
    a.to_owned() == b.to_owned()
}

// ---------------------------------------------------------------- laws

/// Whether a text is nothing but white space.
pub open spec fn blank(s: Seq<char>) -> bool {
    forall|i: int| 0 <= i < s.len() ==> is_white_space(#[trigger] s[i])
}

/// Whether a text neither starts nor ends with white space.
pub open spec fn snug(s: Seq<char>) -> bool {
    s.len() > 0 ==> !is_white_space(s[0]) && !is_white_space(s[s.len() - 1])
}

/// Trimming the end leaves a prefix that does not end in white space.
proof fn lemma_trim_end(s: Seq<char>)
    ensures
        trim_end(s).len() <= s.len(),
        trim_end(s) == s.take(trim_end(s).len() as int),
        trim_end(s).len() > 0 ==> !is_white_space(trim_end(s).last()),
        forall|j: int| trim_end(s).len() <= j < s.len() ==> is_white_space(s[j]),
    decreases s.len(),
{
    if s.len() > 0 && is_white_space(s.last()) {
        let t = s.drop_last();
        lemma_trim_end(t);
        let k = trim_end(t).len() as int;
        assert(t.take(k) =~= s.take(k));
        assert forall|j: int| k <= j < s.len() implies is_white_space(s[j]) by {
            if j < t.len() {
                assert(s[j] == t[j]);
            }
        }
    } else {
        assert(s.take(s.len() as int) =~= s);
    }
}

/// Trimming the start leaves a suffix that does not start with white space.
proof fn lemma_trim_start(s: Seq<char>)
    ensures
        trim_start(s).len() <= s.len(),
        trim_start(s) == s.skip(s.len() - trim_start(s).len()),
        trim_start(s).len() > 0 ==> !is_white_space(trim_start(s)[0]),
        forall|j: int| 0 <= j < s.len() - trim_start(s).len() ==> is_white_space(s[j]),
    decreases s.len(),
{
    if s.len() > 0 && is_white_space(s[0]) {
        let t = s.drop_first();
        lemma_trim_start(t);
        let k = t.len() - trim_start(t).len();
        assert(t.skip(k) =~= s.skip(k + 1));
        assert forall|j: int| 0 <= j < k + 1 implies is_white_space(s[j]) by {
            if j > 0 {
                assert(s[j] == t[j - 1]);
            }
        }
    } else {
        assert(s.skip(0) =~= s);
    }
}

/// Trimming takes off white space and nothing else: the text is what was
/// trimmed, between two blanks. What is left neither starts nor ends with white
/// space.
pub proof fn law_trimming_takes_off_blanks(s: Seq<char>) -> (blanks: (Seq<char>, Seq<char>))
    ensures
        s == blanks.0 + trim(s) + blanks.1,
        blank(blanks.0),
        blank(blanks.1),
        snug(trim(s)),
{
    lemma_trim_start(s);
    let t = trim_start(s);
    lemma_trim_end(t);
    let a = s.take(s.len() - t.len());
    let b = t.skip(trim(s).len() as int);
    assert(s =~= a + trim(s) + b);
    if trim(s).len() > 0 {
        assert(trim(s)[0] == t[0]);
    }
    assert forall|i: int| 0 <= i < b.len() implies is_white_space(#[trigger] b[i]) by {
        assert(b[i] == t[i + trim(s).len()]);
    }
    (a, b)
}

/// Blanks around a text do not count.
pub proof fn law_blanks_are_trimmed(before: Seq<char>, text: Seq<char>, after: Seq<char>)
    requires
        blank(before),
        blank(after),
        snug(text),
    ensures
        trim(before + text + after) == text,
{
    let s = before + text + after;
    let (a, b) = law_trimming_takes_off_blanks(s);
    let t = trim(s);
    if text.len() > 0 {
        let first = before.len() as int;
        let last = before.len() + text.len() - 1;
        assert(s[first] == text[0] && s[last] == text[text.len() - 1]);
        if a.len() > first {
            assert(is_white_space(a[first]));
        }
        if s.len() - b.len() <= last {
            assert(is_white_space(b[last - (s.len() - b.len())]));
        }
        if a.len() < first {
            assert(is_white_space(before[a.len() as int]));
            assert(s[a.len() as int] == t[0]);
        }
        if s.len() - b.len() > last + 1 {
            let k = s.len() - b.len() - 1;
            assert(s[k] == after[k - last - 1]);
            assert(s[k] == t[t.len() - 1]);
        }
        assert(a.len() == first && s.len() - b.len() == last + 1);
        assert forall|i: int| 0 <= i < text.len() implies t[i] == text[i] by {
            assert(s[first + i] == t[i]);
            assert(s[first + i] == text[i]);
        }
        assert(t =~= text);
    } else {
        if t.len() > 0 {
            let k = a.len() as int;
            assert(s[k] == t[0]);
            if k < before.len() {
                assert(is_white_space(before[k]));
            } else {
                assert(is_white_space(after[k - before.len()]));
            }
        }
        assert(t =~= text);
    }
}

/// Among the ASCII characters, a tab, the four that end a line or a page and the
/// space are white, and no character that prints is; behind them, the no-break
/// space and the ideographic space are.
pub proof fn law_white_space(c: char)
    ensures
        (c as int) < 0x80 ==> (is_white_space(c) <==> 9 <= c as int <= 13 || c as int == 32),
        c as int == 0xa0 || c as int == 0x3000 ==> is_white_space(c),
        c as int > 0x3000 ==> !is_white_space(c),
{
}

/// Lower case changes the 26 ASCII capitals, each into the letter that stands
/// 32 places behind it, and nothing else.
pub proof fn law_lower_case(s: Seq<char>, i: int)
    requires
        0 <= i < s.len(),
    ensures
        to_ascii_lowercase(s).len() == s.len(),
        65 <= s[i] as int <= 90 ==> to_ascii_lowercase(s)[i] as int == s[i] as int + 32,
        !(65 <= s[i] as int <= 90) ==> to_ascii_lowercase(s)[i] == s[i],
{
}

/// A text contains a pattern if and only if it reads: something, the pattern,
/// something.
pub proof fn law_contains(s: Seq<char>, pattern: Seq<char>, before: Seq<char>, after: Seq<char>)
    ensures
        contains(before + pattern + after, pattern),
        contains(s, pattern) ==> exists|a: Seq<char>, b: Seq<char>|
            s == #[trigger] (a + pattern + b),
{
    let whole = before + pattern + after;
    assert(whole.subrange(before.len() as int, (before.len() + pattern.len()) as int)
        =~= pattern);
    assert(stands_at(whole, pattern, before.len() as int));
    if contains(s, pattern) {
        let i = choose|i: int| stands_at(s, pattern, i);
        let a = s.take(i);
        let b = s.skip((i + pattern.len()) as int);
        assert(s =~= a + s.subrange(i, (i + pattern.len()) as int) + b);
        assert(s == a + pattern + b);
    }
}

/// Taking a character out goes part by part: it drops every such character and
/// keeps every other one in its place.
pub proof fn law_without(a: Seq<char>, b: Seq<char>, c: char, x: char)
    ensures
        without(a + b, c) == without(a, c) + without(b, c),
        without(seq![c], c).len() == 0,
        x != c ==> without(seq![x], c) == seq![x],
        !without(a, c).contains(c),
{
    Seq::filter_distributes_over_add(a, b, |y: char| y != c);
    reveal_with_fuel(Seq::filter, 2);
    assert(seq![c].drop_last() =~= Seq::empty());
    assert(seq![x].drop_last() =~= Seq::empty());
    broadcast use vstd::seq_lib::group_filter_ensures;
}

/// Parts are joined in their order, with the separator between neighbours and
/// nowhere else.
pub proof fn law_join(parts: Seq<Seq<char>>, part: Seq<char>, separator: Seq<char>)
    ensures
        join(Seq::empty(), separator).len() == 0,
        join(seq![part], separator) == part,
        parts.len() > 0 ==> join(parts.push(part), separator) == join(parts, separator) + separator
            + part,
{
    assert(parts.push(part).drop_last() =~= parts);
}

/// A text is cut at the first `c`: what precedes it has none, and nothing is
/// lost. One that has none is not cut.
pub proof fn law_cut(before: Seq<char>, after: Seq<char>, c: char)
    requires
        !before.contains(c),
    ensures
        cut(before + seq![c] + after, c) == (before, Some(after)),
        cut(before, c) == (before, None::<Seq<char>>),
        split_once(before + seq![c] + after, c) == Some((before, after)),
        split_once(before, c) is None,
        find(before + seq![c] + after, c) == Some(before.len() as int),
        find(before, c) is None,
{
    lemma_split_once_joined(before, c, after);
    lemma_find_none(before, c);
    let s = before + seq![c] + after;
    assert(s[before.len() as int] == c);
    assert forall|j: int| 0 <= j < before.len() implies s[j] != c by {
        assert(s[j] == before[j]);
        assert(before.contains(before[j]));
    }
    lemma_find_is(s, c, before.len() as int);
}

} // verus!
