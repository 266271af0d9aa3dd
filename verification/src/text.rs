//! Text operations on `str`, stated over sequences of characters.
use vstd::prelude::*;

verus! {

/// What an optional string holds.
pub open spec fn option_view(s: Option<String>) -> Option<Seq<char>> {
    match s {
        Some(s) => Some(s@),
        None => None,
    }
}

/// What the strings of a list hold.
pub open spec fn string_views(list: Seq<String>) -> Seq<Seq<char>> {
    list.map_values(|s: String| s@)
}

/// Appends one character to a string, as `String::push` documents.
pub assume_specification[ String::push ](s: &mut String, c: char)
    ensures
        final(s)@ == old(s)@.push(c),
;

/// The characters that Unicode gives the `White_Space` property.
pub open spec fn whitespace(c: char) -> bool {
    let u = c as u32;
    ||| 0x09 <= u <= 0x0d
    ||| u == 0x20
    ||| u == 0x85
    ||| u == 0xa0
    ||| u == 0x1680
    ||| 0x2000 <= u <= 0x200a
    ||| u == 0x2028
    ||| u == 0x2029
    ||| u == 0x202f
    ||| u == 0x205f
    ||| u == 0x3000
}

/// The characters of the Unicode general category Cc.
pub open spec fn control(c: char) -> bool {
    let u = c as u32;
    u <= 0x1f || 0x7f <= u <= 0x9f
}

/// Whether a character is white space.
pub fn is_whitespace(c: char) -> (r: bool)
    ensures
        r == whitespace(c),
{
    let u: u32 = c as u32;
    (0x09 <= u && u <= 0x0d) || u == 0x20 || u == 0x85 || u == 0xa0 || u == 0x1680
        || (0x2000 <= u && u <= 0x200a) || u == 0x2028 || u == 0x2029 || u == 0x202f
        || u == 0x205f || u == 0x3000
}

/// Whether a character is a control character.
pub fn is_control(c: char) -> (r: bool)
    ensures
        r == control(c),
{
    let u: u32 = c as u32;
    u <= 0x1f || (0x7f <= u && u <= 0x9f)
}

/// The characters of a string, in order.
pub fn chars_of(s: &str) -> (r: Vec<char>)
    ensures
        r@ == s@,
{
    let mut out: Vec<char> = Vec::new();
    for c in it: s.chars()
        invariant
            out@ == it.seq().take(it.index() as int),
            it.seq() == s@,
    {
        out.push(c);
    }
    out
}

/// Whether two strings hold the same characters.
pub fn str_eq(a: &str, b: &str) -> (r: bool)
    ensures
        r == (a@ == b@),
{
    let x = chars_of(a);
    let y = chars_of(b);
    if x.len() != y.len() {
        return false;
    }
    let mut i: usize = 0;
    while i < x.len()
        invariant
            x@ == a@,
            y@ == b@,
            x@.len() == y@.len(),
            i <= x@.len(),
            forall|j: int| 0 <= j < i ==> x@[j] == y@[j],
        decreases x@.len() - i,
    {
        if x[i] != y[i] {
            assert(a@[i as int] != b@[i as int]);
            return false;
        }
        i = i + 1;
    }
    assert(a@ =~= b@);
    true
}

/// Whether `s` begins with `prefix`.
pub fn starts_with(s: &str, prefix: &str) -> (r: bool)
    ensures
        r == prefix@.is_prefix_of(s@),
{
    let x = chars_of(s);
    let y = chars_of(prefix);
    if x.len() < y.len() {
        return false;
    }
    let mut i: usize = 0;
    while i < y.len()
        invariant
            x@ == s@,
            y@ == prefix@,
            y@.len() <= x@.len(),
            i <= y@.len(),
            forall|j: int| 0 <= j < i ==> x@[j] == y@[j],
        decreases y@.len() - i,
    {
        if x[i] != y[i] {
            assert(s@.subrange(0, y@.len() as int)[i as int] != prefix@[i as int]);
            return false;
        }
        i = i + 1;
    }
    assert(s@.subrange(0, y@.len() as int) =~= prefix@);
    true
}

/// What follows `prefix` in `s`, if `s` begins with `prefix`.
pub fn strip_prefix<'a>(s: &'a str, prefix: &str) -> (r: Option<&'a str>)
    ensures
        r is Some <==> prefix@.is_prefix_of(s@),
        r matches Some(rest) ==> rest@ == s@.skip(prefix@.len() as int),
{
    if !starts_with(s, prefix) {
        return None;
    }
    let n: usize = s.unicode_len();
    let k: usize = prefix.unicode_len();
    let rest = s.substring_char(k, n);
    assert(rest@ =~= s@.skip(prefix@.len() as int));
    Some(rest)
}

/// Whether `c` occurs in `s`.
pub fn contains_char(s: &str, c: char) -> (r: bool)
    ensures
        r == s@.contains(c),
{
    let x = chars_of(s);
    let mut i: usize = 0;
    while i < x.len()
        invariant
            x@ == s@,
            i <= x@.len(),
            forall|j: int| 0 <= j < i ==> x@[j] != c,
        decreases x@.len() - i,
    {
        if x[i] == c {
            assert(s@[i as int] == c);
            return true;
        }
        i = i + 1;
    }
    false
}

/// The pieces of `s` between the characters that `sep` picks out: one more
/// piece than there are such characters, and none of them in a piece.
pub open spec fn split_on(s: Seq<char>, sep: spec_fn(char) -> bool) -> Seq<Seq<char>>
    decreases s.len(),
{
    if s.len() == 0 {
        seq![Seq::empty()]
    } else {
        let before = split_on(s.drop_last(), sep);
        if sep(s.last()) {
            before.push(Seq::empty())
        } else {
            before.drop_last().push(before.last().push(s.last()))
        }
    }
}

/// What the strings of a list hold.
pub open spec fn views(list: Seq<&str>) -> Seq<Seq<char>> {
    list.map_values(|s: &str| s@)
}

/// There is always at least one piece.
pub proof fn lemma_split_nonempty(s: Seq<char>, sep: spec_fn(char) -> bool)
    ensures
        split_on(s, sep).len() > 0,
    decreases s.len(),
{
    if s.len() > 0 {
        lemma_split_nonempty(s.drop_last(), sep);
    }
}

/// The pieces of `s` between the occurrences of `sep`.
pub fn split_char<'a>(s: &'a str, sep: char) -> (r: Vec<&'a str>)
    ensures
        views(r@) == split_on(s@, |c: char| c == sep),
{
    let x = chars_of(s);
    let n: usize = s.unicode_len();
    let mut out: Vec<&'a str> = Vec::new();
    let mut start: usize = 0;
    let mut i: usize = 0;
    let ghost is_sep = |c: char| c == sep;
    proof {
        assert(s@.subrange(0, 0) =~= Seq::<char>::empty());
        assert(s@.take(0) =~= Seq::<char>::empty());
        assert(views(out@).push(s@.subrange(0, 0)) =~= seq![Seq::<char>::empty()]);
    }
    while i < n
        invariant
            x@ == s@,
            n == s@.len(),
            start <= i <= n,
            is_sep == (|c: char| c == sep),
            views(out@).push(s@.subrange(start as int, i as int)) == split_on(
                s@.take(i as int),
                is_sep,
            ),
        decreases n - i,
    {
        proof {
            let before = views(out@).push(s@.subrange(start as int, i as int));
            assert(s@.take(i + 1).drop_last() =~= s@.take(i as int));
            assert(s@.take(i + 1).last() == s@[i as int]);
            assert(before.drop_last() =~= views(out@));
            assert(s@.subrange(start as int, i as int).push(s@[i as int]) =~= s@.subrange(
                start as int,
                i + 1,
            ));
            assert(s@.subrange(i + 1, i + 1) =~= Seq::<char>::empty());
        }
        if x[i] == sep {
            let piece = s.substring_char(start, i);
            let ghost old_out = out@;
            out.push(piece);
            start = i + 1;
            assert(views(out@) =~= views(old_out).push(piece@));
        }
        i = i + 1;
    }
    assert(s@.take(n as int) =~= s@);
    let piece = s.substring_char(start, n);
    let ghost old_out = out@;
    out.push(piece);
    assert(views(out@) =~= views(old_out).push(piece@));
    out
}

/// `s` without the white space that it begins with.
pub open spec fn trim_start(s: Seq<char>) -> Seq<char>
    decreases s.len(),
{
    if s.len() > 0 && whitespace(s[0]) {
        trim_start(s.skip(1))
    } else {
        s
    }
}

/// `s` without the white space that it ends with.
pub open spec fn trim_end(s: Seq<char>) -> Seq<char>
    decreases s.len(),
{
    if s.len() > 0 && whitespace(s.last()) {
        trim_end(s.drop_last())
    } else {
        s
    }
}

/// `s` without the white space at its two ends.
pub open spec fn trimmed(s: Seq<char>) -> Seq<char> {
    trim_end(trim_start(s))
}

/// The part of `s` between the white space at its two ends.
pub fn trim<'a>(s: &'a str) -> (r: &'a str)
    ensures
        r@ == trimmed(s@),
{
    let x = chars_of(s);
    let n: usize = s.unicode_len();
    let mut i: usize = 0;
    assert(s@.skip(0) =~= s@);
    while i < n && is_whitespace(x[i])
        invariant
            x@ == s@,
            n == s@.len(),
            i <= n,
            trim_start(s@) == trim_start(s@.skip(i as int)),
        decreases n - i,
    {
        assert(s@.skip(i as int).skip(1) =~= s@.skip(i + 1));
        i = i + 1;
    }
    let mut j: usize = n;
    assert(s@.subrange(i as int, n as int) =~= s@.skip(i as int));
    while i < j && is_whitespace(x[j - 1])
        invariant
            x@ == s@,
            n == s@.len(),
            i <= j <= n,
            trim_end(s@.skip(i as int)) == trim_end(s@.subrange(i as int, j as int)),
        decreases j,
    {
        assert(s@.subrange(i as int, j as int).drop_last() =~= s@.subrange(i as int, j - 1));
        j = j - 1;
    }
    s.substring_char(i, j)
}

/// The words of `s`: its longest runs without white space.
pub open spec fn words(s: Seq<char>) -> Seq<Seq<char>> {
    split_on(s, |c: char| whitespace(c)).filter(|w: Seq<char>| w.len() > 0)
}

/// Whether `word` is one of the words of `s`.
pub fn has_word(s: &str, word: &str) -> (r: bool)
    ensures
        r == words(s@).contains(word@),
{
    let x = chars_of(s);
    let n: usize = s.unicode_len();
    let mut start: usize = 0;
    let mut i: usize = 0;
    let ghost is_sep = |c: char| whitespace(c);
    let ghost keep = |w: Seq<char>| w.len() > 0;
    let mut found = false;
    proof {
        assert(s@.subrange(0, 0) =~= Seq::<char>::empty());
        assert(s@.take(0) =~= Seq::<char>::empty());
    }
    while i < n
        invariant
            x@ == s@,
            n == s@.len(),
            start <= i <= n,
            is_sep == (|c: char| whitespace(c)),
            split_on(s@.take(i as int), is_sep).len() > 0,
            split_on(s@.take(i as int), is_sep).last() == s@.subrange(start as int, i as int),
            found == exists|k: int|
                0 <= k < split_on(s@.take(i as int), is_sep).len() - 1 && #[trigger] split_on(
                    s@.take(i as int),
                    is_sep,
                )[k].len() > 0 && split_on(s@.take(i as int), is_sep)[k] == word@,
        decreases n - i,
    {
        let ghost before = split_on(s@.take(i as int), is_sep);
        let ghost after = split_on(s@.take(i + 1), is_sep);
        proof {
            assert(s@.take(i + 1).drop_last() =~= s@.take(i as int));
            assert(s@.take(i + 1).last() == s@[i as int]);
            assert(s@.subrange(start as int, i as int).push(s@[i as int]) =~= s@.subrange(
                start as int,
                i + 1,
            ));
            assert(s@.subrange(i + 1, i + 1) =~= Seq::<char>::empty());
            assert(forall|k: int| 0 <= k < before.len() - 1 ==> after[k] == before[k]);
        }
        let ghost found_before = found;
        if is_whitespace(x[i]) {
            let piece = s.substring_char(start, i);
            let here = !piece.is_empty() && str_eq(piece, word);
            found = found || here;
            start = i + 1;
            proof {
                assert(after.len() == before.len() + 1);
                assert(after[before.len() - 1] == piece@);
                if found_before {
                    let k = choose|k: int|
                        0 <= k < before.len() - 1 && #[trigger] before[k].len() > 0 && before[k]
                            == word@;
                    assert(after[k] == word@);
                }
                if here {
                    assert(after[before.len() - 1] == word@);
                }
            }
        } else {
            proof {
                assert(after.len() == before.len());
                if found_before {
                    let k = choose|k: int|
                        0 <= k < before.len() - 1 && #[trigger] before[k].len() > 0 && before[k]
                            == word@;
                    assert(after[k] == word@);
                }
            }
        }
        i = i + 1;
    }
    let piece = s.substring_char(start, n);
    let here = !piece.is_empty() && str_eq(piece, word);
    let r = found || here;
    proof {
        assert(s@.take(n as int) =~= s@);
        let all = split_on(s@, is_sep);
        broadcast use vstd::seq_lib::group_filter_ensures;

        if words(s@).contains(word@) {
            all.lemma_filter_contains_rev(keep, word@);
            let k = choose|k: int| 0 <= k < all.len() && all[k] == word@;
            let m = choose|m: int| 0 <= m < words(s@).len() && words(s@)[m] == word@;
            assert(keep(words(s@)[m]));
            assert(all[k].len() > 0);
        }
        if r {
            let k = choose|k: int|
                0 <= k < all.len() && #[trigger] all[k].len() > 0 && all[k] == word@;
            assert(keep(all[k]));
        }
    }
    r
}

/// The position of the first `c` in `s`, or the length of `s` if there is none.
pub open spec fn position(s: Seq<char>, c: char) -> int
    decreases s.len(),
{
    if s.len() == 0 || s[0] == c {
        0
    } else {
        1 + position(s.skip(1), c)
    }
}

/// `position` is the first occurrence.
pub proof fn lemma_position(s: Seq<char>, c: char)
    ensures
        0 <= position(s, c) <= s.len(),
        position(s, c) < s.len() ==> s[position(s, c)] == c,
        !s.take(position(s, c)).contains(c),
        s.contains(c) <==> position(s, c) < s.len(),
    decreases s.len(),
{
    if s.len() > 0 && s[0] != c {
        let t = s.skip(1);
        lemma_position(t, c);
        let p = position(t, c);
        assert(forall|j: int| 0 <= j < p ==> t.take(p)[j] == s.take(p + 1)[j + 1]);
        assert(!s.take(p + 1).contains(c)) by {
            if s.take(p + 1).contains(c) {
                let j = choose|j: int| 0 <= j < p + 1 && #[trigger] s.take(p + 1)[j] == c;
                assert(j > 0);
                assert(t.take(p)[j - 1] == c);
                assert(t.take(p).contains(c));
            }
        }
        if s.contains(c) {
            let j = choose|j: int| 0 <= j < s.len() && s[j] == c;
            assert(t[j - 1] == c);
        }
        if t.contains(c) {
            let j = choose|j: int| 0 <= j < t.len() && t[j] == c;
            assert(s[j + 1] == c);
        }
    }
}

/// The position of the first `c` in `s` at or after `from`, counted from `from`.
fn position_from(x: &Vec<char>, from: usize, c: char) -> (r: usize)
    requires
        from <= x@.len(),
    ensures
        r == position(x@.skip(from as int), c),
        r <= x@.len() - from,
{
    let mut i: usize = from;
    while i < x.len() && x[i] != c
        invariant
            from <= i <= x@.len(),
            position(x@.skip(from as int), c) == i - from + position(x@.skip(i as int), c),
        decreases x@.len() - i,
    {
        assert(x@.skip(i as int).skip(1) =~= x@.skip(i + 1));
        i = i + 1;
    }
    i - from
}

/// The part of `s` before the first `c`, or all of `s` if there is none.
pub fn before_char<'a>(s: &'a str, c: char) -> (r: &'a str)
    ensures
        r@ == s@.take(position(s@, c)),
{
    let x = chars_of(s);
    assert(x@.skip(0) =~= x@);
    let p = position_from(&x, 0, c);
    let r = s.substring_char(0, p);
    assert(r@ =~= s@.take(p as int));
    r
}

/// The two parts of `s` around the first `c`, if there is one.
pub fn split_once<'a>(s: &'a str, c: char) -> (r: Option<(&'a str, &'a str)>)
    ensures
        r is Some <==> s@.contains(c),
        r matches Some((a, b)) ==> a@ == s@.take(position(s@, c)) && b@ == s@.skip(
            position(s@, c) + 1,
        ),
{
    let x = chars_of(s);
    let n: usize = s.unicode_len();
    assert(x@.skip(0) =~= x@);
    let p = position_from(&x, 0, c);
    proof {
        lemma_position(s@, c);
    }
    if p == n {
        return None;
    }
    let a = s.substring_char(0, p);
    let b = s.substring_char(p + 1, n);
    assert(a@ =~= s@.take(p as int));
    assert(b@ =~= s@.skip(p + 1));
    Some((a, b))
}

/// `c` with an ASCII capital letter made small.
pub open spec fn lower(c: char) -> char {
    if 'A' <= c <= 'Z' {
        ((c as u8) + 32) as char
    } else {
        c
    }
}

/// `s` with its ASCII capital letters made small.
pub open spec fn lowered(s: Seq<char>) -> Seq<char> {
    s.map_values(|c: char| lower(c))
}

fn lower_char(c: char) -> (r: char)
    ensures
        r == lower(c),
{
    if 'A' <= c && c <= 'Z' {
        ((c as u8) + 32) as char
    } else {
        c
    }
}

/// Whether two strings are equal up to the case of ASCII letters.
pub fn eq_ignore_ascii_case(a: &str, b: &str) -> (r: bool)
    ensures
        r == (lowered(a@) == lowered(b@)),
{
    let x = chars_of(a);
    let y = chars_of(b);
    if x.len() != y.len() {
        assert(lowered(a@).len() != lowered(b@).len());
        return false;
    }
    let mut i: usize = 0;
    while i < x.len()
        invariant
            x@ == a@,
            y@ == b@,
            x@.len() == y@.len(),
            i <= x@.len(),
            forall|j: int| 0 <= j < i ==> lower(x@[j]) == lower(y@[j]),
        decreases x@.len() - i,
    {
        if lower_char(x[i]) != lower_char(y[i]) {
            assert(lowered(a@)[i as int] != lowered(b@)[i as int]);
            return false;
        }
        i = i + 1;
    }
    assert(lowered(a@) =~= lowered(b@));
    true
}

/// `line` without one carriage return at its end.
pub open spec fn without_return(line: Seq<char>) -> Seq<char> {
    if line.len() > 0 && line.last() == '\r' {
        line.drop_last()
    } else {
        line
    }
}

/// The lines of `s`: each runs up to a line feed, which it does not hold, nor
/// the carriage return just before that line feed. What follows the last line
/// feed is a line as it stands, unless it is empty.
pub open spec fn lines(s: Seq<char>) -> Seq<Seq<char>>
    decreases s.len(),
{
    let p = position(s, '\n');
    if s.len() == 0 {
        seq![]
    } else if p >= s.len() {
        seq![s]
    } else {
        proof {
            lemma_position(s, '\n');
        }
        seq![without_return(s.take(p))] + lines(s.skip(p + 1))
    }
}

/// The lines of `s`.
pub fn lines_of<'a>(s: &'a str) -> (r: Vec<&'a str>)
    ensures
        views(r@) == lines(s@),
{
    let x = chars_of(s);
    let n: usize = s.unicode_len();
    let mut out: Vec<&'a str> = Vec::new();
    let mut start: usize = 0;
    assert(s@.skip(0) =~= s@);
    assert(views(out@) + lines(s@) =~= lines(s@));
    while start < n
        invariant
            x@ == s@,
            n == s@.len(),
            start <= n,
            views(out@) + lines(s@.skip(start as int)) == lines(s@),
        decreases n - start,
    {
        let ghost rest = s@.skip(start as int);
        let ghost done = views(out@);
        let p = position_from(&x, start, '\n');
        if p == n - start {
            let line = s.substring_char(start, n);
            assert(line@ =~= rest);
            out.push(line);
            start = n;
            proof {
                assert(views(out@) =~= done.push(rest));
                assert(s@.skip(n as int) =~= Seq::<char>::empty());
                assert(views(out@) + lines(s@.skip(n as int)) =~= done + lines(rest));
            }
        } else {
            let mut end: usize = start + p;
            if p > 0 && x[end - 1] == '\r' {
                end = end - 1;
            }
            let line = s.substring_char(start, end);
            assert(line@ =~= without_return(rest.take(p as int)));
            out.push(line);
            start = start + p + 1;
            proof {
                assert(views(out@) =~= done.push(line@));
                assert(rest.skip(p + 1) =~= s@.skip(start as int));
                assert(views(out@) + lines(s@.skip(start as int)) =~= done + lines(rest));
            }
        }
    }
    assert(s@.skip(n as int) =~= Seq::<char>::empty());
    assert(views(out@) + lines(s@.skip(n as int)) =~= views(out@));
    out
}

/// `s` followed by `t`.
pub fn concat(s: &str, t: &str) -> (r: String)
    ensures
        r@ == s@ + t@,
{
    let mut out = s.to_owned();
    out.append(t);
    out
}

/// Whether `s` holds `c` twice in a row.
pub open spec fn has_double(s: Seq<char>, c: char) -> bool {
    exists|i: int| 0 <= i < s.len() - 1 && s[i] == c && #[trigger] s[i + 1] == c
}

/// Whether `s` holds `c` twice in a row.
pub fn contains_double(s: &str, c: char) -> (r: bool)
    ensures
        r == has_double(s@, c),
{
    let x = chars_of(s);
    let mut i: usize = 1;
    while i < x.len()
        invariant
            x@ == s@,
            1 <= i,
            forall|j: int| 0 <= j < i - 1 && j < s@.len() - 1 ==> !(s@[j] == c && #[trigger] s@[j + 1]
                == c),
        decreases x@.len() - i,
    {
        if x[i - 1] == c && x[i] == c {
            assert(s@[(i - 1) + 1] == c);
            return true;
        }
        i = i + 1;
    }
    false
}

/// Whether `s[a..b]` holds no separator and has one, or an end of `s`, on either side.
pub open spec fn stands_between(s: Seq<char>, sep: spec_fn(char) -> bool, a: int, b: int) -> bool {
    &&& 0 <= a <= b <= s.len()
    &&& forall|i: int| a <= i < b ==> !sep(#[trigger] s[i])
    &&& a == 0 || sep(s[a - 1])
    &&& b == s.len() || sep(s[b])
}

/// Splitting around a separator splits what is before it and what is behind it.
pub proof fn lemma_split_at(x: Seq<char>, c: char, y: Seq<char>, sep: spec_fn(char) -> bool)
    requires
        sep(c),
    ensures
        split_on(x.push(c) + y, sep) == split_on(x, sep) + split_on(y, sep),
    decreases y.len(),
{
    let s = x.push(c) + y;
    lemma_split_nonempty(x, sep);
    lemma_split_nonempty(y, sep);
    if y.len() == 0 {
        assert(s =~= x.push(c));
        assert(s.drop_last() =~= x);
        assert(y =~= Seq::<char>::empty());
        assert(split_on(y, sep) =~= seq![Seq::<char>::empty()]);
        assert(split_on(s, sep) =~= split_on(x, sep) + split_on(y, sep));
    } else {
        let z = y.drop_last();
        assert(s.drop_last() =~= x.push(c) + z);
        assert(s.last() == y.last());
        lemma_split_nonempty(z, sep);
        lemma_split_at(x, c, z, sep);
        assert(split_on(s, sep) =~= split_on(x, sep) + split_on(y, sep));
    }
}

/// Text without a separator is one piece.
pub proof fn lemma_split_none(s: Seq<char>, sep: spec_fn(char) -> bool)
    requires
        forall|i: int| 0 <= i < s.len() ==> !sep(#[trigger] s[i]),
    ensures
        split_on(s, sep) == seq![s],
    decreases s.len(),
{
    if s.len() == 0 {
        assert(s =~= Seq::<char>::empty());
    } else {
        let t = s.drop_last();
        assert forall|i: int| 0 <= i < t.len() implies !sep(#[trigger] t[i]) by {
            assert(t[i] == s[i]);
        }
        lemma_split_none(t, sep);
        assert(!sep(s[s.len() - 1]));
        assert(t.push(s.last()) =~= s);
        assert(split_on(s, sep) =~= seq![s]);
    }
}

proof fn lemma_piece_stands(s: Seq<char>, sep: spec_fn(char) -> bool, i: int) -> (r: (int, int))
    requires
        0 <= i < split_on(s, sep).len(),
    ensures
        stands_between(s, sep, r.0, r.1),
        split_on(s, sep)[i] == s.subrange(r.0, r.1),
        i == split_on(s, sep).len() - 1 <==> r.1 == s.len(),
    decreases s.len(),
{
    if s.len() == 0 {
        assert(split_on(s, sep)[0] =~= s.subrange(0, 0));
        (0, 0)
    } else {
        let t = s.drop_last();
        let n = split_on(t, sep).len() as int;
        lemma_split_nonempty(t, sep);
        if sep(s.last()) && i == n {
            assert(s.subrange(s.len() as int, s.len() as int) =~= Seq::<char>::empty());
            (s.len() as int, s.len() as int)
        } else {
            let (a, b) = lemma_piece_stands(t, sep, i);
            assert forall|k: int| a <= k < b implies !sep(#[trigger] s[k]) by {
                assert(t[k] == s[k]);
            }
            assert(t.subrange(a, b) =~= s.subrange(a, b));
            if a > 0 {
                assert(t[a - 1] == s[a - 1]);
            }
            if b < t.len() {
                assert(t[b] == s[b]);
            }
            if !sep(s.last()) && i == n - 1 {
                assert(s.subrange(a, b).push(s.last()) =~= s.subrange(a, s.len() as int));
                (a, s.len() as int)
            } else {
                (a, b)
            }
        }
    }
}

/// What stands between two separators is one of the pieces.
pub proof fn lemma_standing_is_a_piece(
    s: Seq<char>,
    sep: spec_fn(char) -> bool,
    a: int,
    b: int,
)
    requires
        stands_between(s, sep, a, b),
    ensures
        split_on(s, sep).contains(s.subrange(a, b)),
{
    let p = s.subrange(a, b);
    assert forall|i: int| 0 <= i < p.len() implies !sep(#[trigger] p[i]) by {
        assert(p[i] == s[a + i]);
    }
    lemma_split_none(p, sep);
    let head = s.take(b);
    if a > 0 {
        assert(head =~= s.take(a - 1).push(s[a - 1]) + p);
        lemma_split_at(s.take(a - 1), s[a - 1], p, sep);
    } else {
        assert(head =~= p);
    }
    lemma_split_nonempty(head, sep);
    let n = split_on(head, sep).len() - 1;
    assert(split_on(head, sep)[n] == p);
    if b < s.len() {
        assert(s =~= head.push(s[b]) + s.skip(b + 1));
        lemma_split_at(head, s[b], s.skip(b + 1), sep);
        assert(split_on(s, sep)[n] == p);
    } else {
        assert(head =~= s);
    }
}

/// The pieces of a text are just what stands between its separators.
pub proof fn law_pieces_stand_between_separators(
    s: Seq<char>,
    sep: spec_fn(char) -> bool,
    p: Seq<char>,
)
    ensures
        split_on(s, sep).contains(p) <==> exists|a: int, b: int|
            #[trigger] stands_between(s, sep, a, b) && p == s.subrange(a, b),
{
    if split_on(s, sep).contains(p) {
        let i = choose|i: int| 0 <= i < split_on(s, sep).len() && split_on(s, sep)[i] == p;
        let (a, b) = lemma_piece_stands(s, sep, i);
        assert(stands_between(s, sep, a, b) && p == s.subrange(a, b));
    }
    if exists|a: int, b: int| #[trigger] stands_between(s, sep, a, b) && p == s.subrange(a, b) {
        let (a, b) = choose|a: int, b: int|
            #[trigger] stands_between(s, sep, a, b) && p == s.subrange(a, b);
        lemma_standing_is_a_piece(s, sep, a, b);
    }
}

/// There is one more piece than there are separators.
pub proof fn law_one_more_piece_than_separators(s: Seq<char>, sep: spec_fn(char) -> bool)
    ensures
        split_on(s, sep).len() == s.filter(sep).len() + 1,
    decreases s.len(),
{
    reveal(Seq::filter);
    if s.len() > 0 {
        lemma_split_nonempty(s.drop_last(), sep);
        law_one_more_piece_than_separators(s.drop_last(), sep);
    }
}

proof fn lemma_trim_start_of_padded(pad: Seq<char>, t: Seq<char>)
    requires
        forall|i: int| 0 <= i < pad.len() ==> whitespace(#[trigger] pad[i]),
    ensures
        trim_start(pad + t) == trim_start(t),
    decreases pad.len(),
{
    if pad.len() == 0 {
        assert(pad + t =~= t);
    } else {
        let rest = pad.skip(1);
        assert(whitespace(pad[0]));
        assert((pad + t).skip(1) =~= rest + t);
        assert forall|i: int| 0 <= i < rest.len() implies whitespace(#[trigger] rest[i]) by {
            assert(rest[i] == pad[i + 1]);
        }
        lemma_trim_start_of_padded(rest, t);
    }
}

proof fn lemma_trim_end_of_padded(t: Seq<char>, pad: Seq<char>)
    requires
        forall|i: int| 0 <= i < pad.len() ==> whitespace(#[trigger] pad[i]),
    ensures
        trim_end(t + pad) == trim_end(t),
    decreases pad.len(),
{
    if pad.len() == 0 {
        assert(t + pad =~= t);
    } else {
        let rest = pad.drop_last();
        assert(whitespace(pad[pad.len() - 1]));
        assert((t + pad).drop_last() =~= t + rest);
        assert forall|i: int| 0 <= i < rest.len() implies whitespace(#[trigger] rest[i]) by {
            assert(rest[i] == pad[i]);
        }
        lemma_trim_end_of_padded(t, rest);
    }
}

/// Trimming takes the white space off both ends and nothing else.
pub proof fn law_trimming_takes_off_white_space(l: Seq<char>, t: Seq<char>, r: Seq<char>)
    requires
        forall|i: int| 0 <= i < l.len() ==> whitespace(#[trigger] l[i]),
        forall|i: int| 0 <= i < r.len() ==> whitespace(#[trigger] r[i]),
        t.len() > 0 ==> !whitespace(t[0]) && !whitespace(t.last()),
    ensures
        trimmed(l + t + r) == t,
{
    assert(l + t + r =~= l + (t + r));
    lemma_trim_start_of_padded(l, t + r);
    if t.len() == 0 {
        assert(t + r =~= r);
        assert(r =~= r + Seq::<char>::empty());
        lemma_trim_start_of_padded(r, Seq::<char>::empty());
        assert(t =~= Seq::<char>::empty());
    } else {
        assert((t + r)[0] == t[0]);
        lemma_trim_end_of_padded(t, r);
    }
}

/// The white space that is taken off is that of Unicode, and nothing else is.
pub proof fn law_white_space_is_that_of_unicode(c: char)
    ensures
        whitespace(c) <==> c == ' ' || c == '\t' || c == '\n' || c == '\u{b}' || c == '\u{c}' || c
            == '\r' || c == '\u{85}' || c == '\u{a0}' || c == '\u{1680}' || ('\u{2000}' <= c <= '\u{200a}')
            || c == '\u{2028}' || c == '\u{2029}' || c == '\u{202f}' || c == '\u{205f}' || c
            == '\u{3000}',
        control(c) <==> c < ' ' || ('\u{7f}' <= c <= '\u{9f}'),
{
}

/// Whether `s[a..b]` holds no white space and has some, or an end of `s`, on either side.
pub open spec fn between_white_space(s: Seq<char>, a: int, b: int) -> bool {
    stands_between(s, |c: char| whitespace(c), a, b)
}

/// Whether `s[a..b]` holds no comma and has one, or an end of `s`, on either side.
pub open spec fn between_commas(s: Seq<char>, a: int, b: int) -> bool {
    stands_between(s, |c: char| c == ',', a, b)
}

/// The words of a text are what stands between its white space, as far as it is not
/// empty.
pub proof fn law_words_stand_between_white_space(s: Seq<char>, word: Seq<char>)
    ensures
        words(s).contains(word) <==> word.len() > 0 && exists|a: int, b: int|
            #[trigger] between_white_space(s, a, b) && word == s.subrange(a, b),
{
    let sep = |c: char| whitespace(c);
    let keep = |w: Seq<char>| w.len() > 0;
    let all = split_on(s, sep);
    law_pieces_stand_between_separators(s, sep, word);
    assert(forall|a: int, b: int|
        #[trigger] between_white_space(s, a, b) == stands_between(s, sep, a, b));
    if all.contains(word) {
        let (a, b) = choose|a: int, b: int|
            #[trigger] stands_between(s, sep, a, b) && word == s.subrange(a, b);
        assert(between_white_space(s, a, b));
    }
    broadcast use vstd::seq_lib::group_filter_ensures;

    if words(s).contains(word) {
        all.lemma_filter_contains_rev(keep, word);
        let m = choose|m: int| 0 <= m < words(s).len() && words(s)[m] == word;
        assert(keep(words(s)[m]));
    }
    if all.contains(word) && word.len() > 0 {
        let k = choose|k: int| 0 <= k < all.len() && all[k] == word;
        assert(keep(all[k]));
        assert(all.filter(keep).contains(all[k]));
    }
}

/// The pieces of a list are just what stands between its commas.
pub proof fn law_list_items_stand_between_commas(s: Seq<char>, item: Seq<char>)
    ensures
        split_on(s, |c: char| c == ',').contains(item) <==> exists|a: int, b: int|
            #[trigger] between_commas(s, a, b) && item == s.subrange(a, b),
{
    let sep = |c: char| c == ',';
    law_pieces_stand_between_separators(s, sep, item);
    assert(forall|a: int, b: int|
        #[trigger] between_commas(s, a, b) == stands_between(s, sep, a, b));
    if split_on(s, sep).contains(item) {
        let (a, b) = choose|a: int, b: int|
            #[trigger] stands_between(s, sep, a, b) && item == s.subrange(a, b);
        assert(between_commas(s, a, b));
    }
}

/// Two texts are equal up to case where they have one length and at each place either
/// the same character or the two forms of one ASCII letter.
pub proof fn law_case_is_that_of_ascii_letters(a: Seq<char>, b: Seq<char>)
    ensures
        lowered(a) == lowered(b) <==> a.len() == b.len() && forall|i: int|
            0 <= i < a.len() ==> {
                ||| #[trigger] a[i] == b[i]
                ||| 'A' <= a[i] <= 'Z' && b[i] as u32 == a[i] as u32 + 32
                ||| 'A' <= b[i] <= 'Z' && a[i] as u32 == b[i] as u32 + 32
            },
{
    if lowered(a) == lowered(b) {
        assert(lowered(a).len() == a.len() && lowered(b).len() == b.len());
        assert forall|i: int| 0 <= i < a.len() implies {
            ||| #[trigger] a[i] == b[i]
            ||| 'A' <= a[i] <= 'Z' && b[i] as u32 == a[i] as u32 + 32
            ||| 'A' <= b[i] <= 'Z' && a[i] as u32 == b[i] as u32 + 32
        } by {
            assert(lowered(a)[i] == lower(a[i]));
            assert(lowered(b)[i] == lower(b[i]));
        }
    } else if a.len() == b.len() && forall|i: int|
        0 <= i < a.len() ==> {
            ||| #[trigger] a[i] == b[i]
            ||| 'A' <= a[i] <= 'Z' && b[i] as u32 == a[i] as u32 + 32
            ||| 'A' <= b[i] <= 'Z' && a[i] as u32 == b[i] as u32 + 32
        } {
        assert forall|i: int| 0 <= i < a.len() implies lower(a[i]) == lower(b[i]) by {
            assert(a[i] == b[i] || a[i] != b[i]);
        }
        assert(lowered(a) =~= lowered(b));
    }
}

/// Putting the lines of a text, each with its line feed, back together gives the text,
/// but for carriage returns before line feeds: a text is one line, or a line, its line
/// feed and the lines of the rest.
pub proof fn law_lines_end_at_line_feeds(line: Seq<char>, rest: Seq<char>)
    requires
        !line.contains('\n'),
    ensures
        lines(line.push('\n') + rest) == seq![
            if line.len() > 0 && line.last() == '\r' {
                line.drop_last()
            } else {
                line
            },
        ] + lines(rest),
        lines(line) == (if line.len() == 0 {
            Seq::<Seq<char>>::empty()
        } else {
            seq![line]
        }),
{
    let s = line.push('\n') + rest;
    assert(s.take(line.len() as int) =~= line);
    lemma_position_is(s, '\n', line.len() as int);
    lemma_position(line, '\n');
    assert(s.take(line.len() as int) =~= line);
    assert(s.skip(line.len() as int + 1) =~= rest);
}

/// The first occurrence is where `position` says.
pub proof fn lemma_position_is(s: Seq<char>, c: char, at: int)
    requires
        0 <= at < s.len(),
        s[at] == c,
        !s.take(at).contains(c),
    ensures
        position(s, c) == at,
{
    lemma_position(s, c);
    let p = position(s, c);
    assert(s.contains(c));
    if p < at {
        assert(s.take(at)[p] == c);
    }
    if p > at {
        assert(s.take(p)[at] == c);
    }
}

} // verus!
