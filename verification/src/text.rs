//! Text helpers: comparing, searching, splitting, joining and numbering.
//!
//! A text is modelled as the sequence of its characters.
use vstd::prelude::*;

verus! {

/// `str::eq`: two texts are equal when they hold the same characters.
pub assume_specification[ <str as PartialEq>::eq ](s: &str, other: &str) -> (res: bool)
    ensures
        res == (s@ == other@),
;

/// `String::push` appends one character.
pub assume_specification[ String::push ](s: &mut String, c: char)
    ensures
        final(s)@ == old(s)@.push(c),
;

/// The texts held by a list of strings.
pub open spec fn texts(list: Seq<String>) -> Seq<Seq<char>> {
    Seq::new(list.len(), |i: int| list[i]@)
}

/// The text of an optional string.
pub open spec fn opt_text(s: Option<String>) -> Option<Seq<char>> {
    match s {
        Some(t) => Some(t@),
        None => None,
    }
}

/// The text of an optional string slice.
pub open spec fn opt_str(s: Option<&str>) -> Option<Seq<char>> {
    match s {
        Some(t) => Some(t@),
        None => None,
    }
}

/// Whether two texts are the same.
pub fn text_eq(a: &str, b: &str) -> (r: bool)
    ensures
        r == (a@ == b@),
{
    str::eq(a, b)
}

/// The characters of a text.
pub fn chars_of(s: &str) -> (v: Vec<char>)
    ensures
        v@ == s@,
{
    let mut out: Vec<char> = Vec::new();
    for c in it: s.chars()
        invariant
            it.seq() == s@,
            out@ == s@.take(it.index() as int),
    {
        out.push(c);
        assert(s@.take(it.index() + 1) =~= s@.take(it.index() as int).push(c));
    }
    assert(s@.take(s@.len() as int) =~= s@);
    out
}

/// The text made of the characters from `from` up to `to`.
pub fn text_of(v: &Vec<char>, from: usize, to: usize) -> (s: String)
    requires
        from <= to <= v@.len(),
    ensures
        s@ == v@.subrange(from as int, to as int),
{
    let mut out = String::new();
    let mut i: usize = from;
    while i < to
        invariant
            from <= i <= to <= v@.len(),
            out@ == v@.subrange(from as int, i as int),
        decreases to - i,
    {
        out.push(v[i]);
        assert(v@.subrange(from as int, i + 1) =~= v@.subrange(from as int, i as int).push(v@[i as int]));
        i = i + 1;
    }
    out
}

/// A copy of an optional text.
pub fn copy_opt(s: &Option<String>) -> (r: Option<String>)
    ensures
        opt_text(r) == opt_text(*s),
{
    match s {
        Some(t) => Some(t.clone()),
        None => None,
    }
}

/// A copy of a list of texts.
pub fn copy_list(list: &Vec<String>) -> (r: Vec<String>)
    ensures
        texts(r@) == texts(list@),
{
    let mut out: Vec<String> = Vec::new();
    let mut i: usize = 0;
    while i < list.len()
        invariant
            i <= list@.len(),
            out@.len() == i,
            forall|k: int| 0 <= k < i ==> out@[k]@ == list@[k]@,
        decreases list@.len() - i,
    {
        out.push(list[i].clone());
        i = i + 1;
    }
    assert(texts(out@) =~= texts(list@));
    out
}

// ---- searching ----

/// Whether `needle` stands in `hay` at position `at`.
pub open spec fn occurs_at(needle: Seq<char>, hay: Seq<char>, at: int) -> bool {
    &&& 0 <= at
    &&& at + needle.len() <= hay.len()
    &&& hay.subrange(at, at + needle.len()) == needle
}

/// Whether `needle` stands somewhere in `hay`.
pub open spec fn occurs_in(needle: Seq<char>, hay: Seq<char>) -> bool {
    exists|at: int| #[trigger] occurs_at(needle, hay, at)
}

/// Whether the characters of `hay` from `at` on begin with `needle`.
fn matches_at(hay: &Vec<char>, needle: &Vec<char>, at: usize) -> (r: bool)
    requires
        at + needle@.len() <= hay@.len(),
    ensures
        r == occurs_at(needle@, hay@, at as int),
{
    let total: usize = hay.len();
    let mut k: usize = 0;
    while k < needle.len()
        invariant
            k <= needle@.len(),
            total == hay@.len(),
            at + needle@.len() <= total,
            forall|j: int| 0 <= j < k ==> hay@[at + j] == needle@[j],
        decreases needle@.len() - k,
    {
        if hay[at + k] != needle[k] {
            assert(hay@.subrange(at as int, at + needle@.len())[k as int] != needle@[k as int]);
            return false;
        }
        k = k + 1;
    }
    assert(hay@.subrange(at as int, at + needle@.len()) =~= needle@);
    true
}

/// Whether `needle` stands somewhere in `hay`.
pub fn contains_text(hay: &str, needle: &str) -> (r: bool)
    ensures
        r == occurs_in(needle@, hay@),
{
    let h = chars_of(hay);
    let n = chars_of(needle);
    if n.len() > h.len() {
        assert forall|at: int| !#[trigger] occurs_at(needle@, hay@, at) by {}
        return false;
    }
    let last: usize = h.len() - n.len();
    let mut at: usize = 0;
    while at <= last
        invariant
            n@ == needle@,
            h@ == hay@,
            last == h@.len() - n@.len(),
            at <= last + 1,
            forall|j: int| 0 <= j < at ==> !#[trigger] occurs_at(needle@, hay@, j),
        decreases last + 1 - at,
    {
        if matches_at(&h, &n, at) {
            return true;
        }
        if at == last {
            assert forall|j: int| !#[trigger] occurs_at(needle@, hay@, j) by {}
            return false;
        }
        at = at + 1;
    }
    false
}

/// The first position from `from` on at which `needle` stands in `hay`.
pub open spec fn found_from(needle: Seq<char>, hay: Seq<char>, from: int) -> Option<int>
    decreases hay.len() + 1 - from,
{
    if from < 0 || from + needle.len() > hay.len() {
        None
    } else if occurs_at(needle, hay, from) {
        Some(from)
    } else {
        found_from(needle, hay, from + 1)
    }
}

/// The two parts of `s` around the first occurrence of `sep`.
pub open spec fn split_once(s: Seq<char>, sep: Seq<char>) -> Option<(Seq<char>, Seq<char>)> {
    match found_from(sep, s, 0) {
        Some(at) => Some((s.take(at), s.skip(at + sep.len()))),
        None => None,
    }
}

/// The first occurrence is the one that no other precedes.
pub proof fn lemma_found_first(needle: Seq<char>, hay: Seq<char>, from: int, at: int)
    requires
        0 <= from <= at,
        occurs_at(needle, hay, at),
        forall|k: int| from <= k < at ==> !#[trigger] occurs_at(needle, hay, k),
    ensures
        found_from(needle, hay, from) == Some(at),
    decreases at - from,
{
    if from < at {
        lemma_found_first(needle, hay, from + 1, at);
    }
}

/// The first occurrence is an occurrence.
pub proof fn lemma_found_occurs(needle: Seq<char>, hay: Seq<char>, from: int)
    ensures
        found_from(needle, hay, from) matches Some(at) ==> from <= at && occurs_at(
            needle,
            hay,
            at,
        ),
    decreases hay.len() + 1 - from,
{
    if from >= 0 && from + needle.len() <= hay.len() && !occurs_at(needle, hay, from) {
        lemma_found_occurs(needle, hay, from + 1);
    }
}

/// The two parts of a text and the separator between them make the text again.
pub proof fn lemma_split_joins(s: Seq<char>, sep: Seq<char>)
    ensures
        split_once(s, sep) matches Some(parts) ==> parts.0 + sep + parts.1 == s,
{
    lemma_found_occurs(sep, s, 0);
    if let Some(at) = found_from(sep, s, 0) {
        assert(s.take(at) + sep + s.skip(at + sep.len()) =~= s) by {
            assert(s.subrange(at, at + sep.len()) == sep);
        }
    }
}

/// Splits a text around the first occurrence of `sep`.
pub fn split_once_on(s: &str, sep: &str) -> (r: Option<(String, String)>)
    ensures
        match r {
            Some(parts) => split_once(s@, sep@) == Some((parts.0@, parts.1@)),
            None => split_once(s@, sep@) is None,
        },
{
    let h = chars_of(s);
    let n = chars_of(sep);
    if n.len() > h.len() {
        return None;
    }
    let total: usize = h.len();
    let last: usize = total - n.len();
    let mut at: usize = 0;
    loop
        invariant
            h@ == s@,
            n@ == sep@,
            total == h@.len(),
            last == h@.len() - n@.len(),
            at <= last,
            found_from(sep@, s@, 0) == found_from(sep@, s@, at as int),
        decreases last - at,
    {
        if matches_at(&h, &n, at) {
            let left = text_of(&h, 0, at);
            let right = text_of(&h, at + n.len(), total);
            return Some((left, right));
        }
        if at == last {
            assert(found_from(sep@, s@, at + 1) is None);
            return None;
        }
        at = at + 1;
    }
}

/// Whether `s` begins with `prefix`.
pub fn starts_with(s: &str, prefix: &str) -> (r: bool)
    ensures
        r == prefix@.is_prefix_of(s@),
{
    let h = chars_of(s);
    let n = chars_of(prefix);
    if n.len() > h.len() {
        return false;
    }
    let r = matches_at(&h, &n, 0);
    r
}

/// Whether the character `c` stands in `s`.
pub fn contains_char(s: &str, c: char) -> (r: bool)
    ensures
        r == s@.contains(c),
{
    let v = chars_of(s);
    let mut i: usize = 0;
    while i < v.len()
        invariant
            v@ == s@,
            i <= v@.len(),
            forall|j: int| 0 <= j < i ==> s@[j] != c,
        decreases v@.len() - i,
    {
        if v[i] == c {
            assert(s@[i as int] == c);
            return true;
        }
        i = i + 1;
    }
    false
}

/// Whether `list` holds the text `s`.
pub fn list_contains(list: &Vec<String>, s: &str) -> (r: bool)
    ensures
        r == texts(list@).contains(s@),
{
    let mut i: usize = 0;
    while i < list.len()
        invariant
            i <= list@.len(),
            forall|j: int| 0 <= j < i ==> texts(list@)[j] != s@,
        decreases list@.len() - i,
    {
        if text_eq(list[i].as_str(), s) {
            assert(texts(list@)[i as int] == s@);
            return true;
        }
        i = i + 1;
    }
    false
}

// ---- trimming ----

/// Whether a character has the Unicode property White_Space.
pub open spec fn whitespace(c: char) -> bool {
    ||| '\u{9}' <= c <= '\u{d}'
    ||| c == ' '
    ||| c == '\u{85}'
    ||| c == '\u{a0}'
    ||| c == '\u{1680}'
    ||| '\u{2000}' <= c <= '\u{200a}'
    ||| c == '\u{2028}'
    ||| c == '\u{2029}'
    ||| c == '\u{202f}'
    ||| c == '\u{205f}'
    ||| c == '\u{3000}'
}

/// Whether a character has the Unicode property White_Space.
pub fn is_whitespace(c: char) -> (r: bool)
    ensures
        r == whitespace(c),
{
    ('\u{9}' <= c && c <= '\u{d}') || c == ' ' || c == '\u{85}' || c == '\u{a0}' || c == '\u{1680}'
        || ('\u{2000}' <= c && c <= '\u{200a}') || c == '\u{2028}' || c == '\u{2029}'
        || c == '\u{202f}' || c == '\u{205f}' || c == '\u{3000}'
}

/// A text without its leading white space.
pub open spec fn trimmed_start(s: Seq<char>) -> Seq<char>
    decreases s.len(),
{
    if s.len() > 0 && whitespace(s.first()) {
        trimmed_start(s.drop_first())
    } else {
        s
    }
}

/// A text without its trailing white space.
pub open spec fn trimmed_end(s: Seq<char>) -> Seq<char>
    decreases s.len(),
{
    if s.len() > 0 && whitespace(s.last()) {
        trimmed_end(s.drop_last())
    } else {
        s
    }
}

/// A text without the white space at both of its ends.
pub open spec fn trimmed(s: Seq<char>) -> Seq<char> {
    trimmed_end(trimmed_start(s))
}

/// Nothing is left of a text exactly where all of it is white space.
pub proof fn lemma_trimmed_empty(s: Seq<char>)
    ensures
        trimmed(s).len() == 0 <==> forall|i: int| 0 <= i < s.len() ==> whitespace(#[trigger] s[i]),
    decreases s.len(),
{
    if s.len() > 0 {
        if whitespace(s.first()) {
            lemma_trimmed_empty(s.drop_first());
            assert forall|i: int| 0 <= i < s.len() && (forall|k: int|
                0 <= k < s.drop_first().len() ==> whitespace(
                    #[trigger] s.drop_first()[k],
                )) implies whitespace(#[trigger] s[i]) by {
                if i > 0 {
                    assert(s[i] == s.drop_first()[i - 1]);
                }
            }
        } else {
            lemma_trimmed_end_keeps(s);
        }
    }
}

/// Trimming the end keeps the first character that is not white space.
proof fn lemma_trimmed_end_keeps(s: Seq<char>)
    requires
        s.len() > 0,
        !whitespace(s.first()),
    ensures
        trimmed_end(s).len() > 0,
    decreases s.len(),
{
    if whitespace(s.last()) {
        assert(s.drop_last().first() == s.first());
        lemma_trimmed_end_keeps(s.drop_last());
    }
}

/// Removes the white space at both ends.
pub fn trim(s: &str) -> (r: String)
    ensures
        r@ == trimmed(s@),
{
    let v = chars_of(s);
    let mut from: usize = 0;
    assert(s@.skip(0) =~= s@);
    while from < v.len() && is_whitespace(v[from])
        invariant
            v@ == s@,
            from <= v@.len(),
            trimmed_start(s@) == trimmed_start(s@.skip(from as int)),
        decreases v@.len() - from,
    {
        assert(s@.skip(from as int).drop_first() =~= s@.skip(from + 1));
        from = from + 1;
    }
    let ghost rest = trimmed_start(s@);
    assert(rest == s@.skip(from as int));
    let mut to: usize = v.len();
    assert(s@.subrange(from as int, to as int) =~= rest);
    while to > from && is_whitespace(v[to - 1])
        invariant
            v@ == s@,
            from <= to <= v@.len(),
            trimmed_end(rest) == trimmed_end(s@.subrange(from as int, to as int)),
        decreases to,
    {
        assert(s@.subrange(from as int, to as int).drop_last() =~= s@.subrange(from as int, to - 1));
        to = to - 1;
    }
    text_of(&v, from, to)
}

// ---- joining and splitting ----

/// The texts of a list, one after the other, with `sep` between two of them.
pub open spec fn joined(list: Seq<Seq<char>>, sep: Seq<char>) -> Seq<char>
    decreases list.len(),
{
    if list.len() == 0 {
        Seq::empty()
    } else if list.len() == 1 {
        list[0]
    } else {
        joined(list.drop_last(), sep) + sep + list.last()
    }
}

/// Joins the texts of a list with `sep` between them.
pub fn join(list: &Vec<String>, sep: &str) -> (r: String)
    ensures
        r@ == joined(texts(list@), sep@),
{
    let mut out = String::new();
    let mut i: usize = 0;
    let ghost all = texts(list@);
    assert(all.take(0) =~= Seq::<Seq<char>>::empty());
    while i < list.len()
        invariant
            i <= list@.len(),
            all == texts(list@),
            out@ == joined(all.take(i as int), sep@),
        decreases list@.len() - i,
    {
        assert(all.take(i + 1).drop_last() =~= all.take(i as int));
        assert(all.take(i + 1).last() == list@[i as int]@);
        if i > 0 {
            out.append(sep);
        } else {
            assert(out@ =~= Seq::<char>::empty());
        }
        out.append(list[i].as_str());
        if i == 0 {
            assert(out@ =~= list@[0]@);
        }
        i = i + 1;
    }
    assert(all.take(i as int) =~= all);
    out
}

/// The pieces of `s` between the occurrences of `c`.
pub open spec fn split(s: Seq<char>, c: char) -> Seq<Seq<char>>
    decreases s.len(),
{
    if s.len() == 0 {
        seq![Seq::empty()]
    } else {
        let before = split(s.drop_last(), c);
        if s.last() == c {
            before.push(Seq::empty())
        } else {
            before.drop_last().push(before.last().push(s.last()))
        }
    }
}

/// A split text has at least one piece.
pub proof fn lemma_split_nonempty(s: Seq<char>, c: char)
    ensures
        split(s, c).len() >= 1,
    decreases s.len(),
{
    if s.len() > 0 {
        lemma_split_nonempty(s.drop_last(), c);
    }
}

/// Splits a text at every occurrence of `c`.
pub fn split_on(s: &str, c: char) -> (r: Vec<String>)
    ensures
        texts(r@) == split(s@, c),
        r@.len() >= 1,
{
    let v = chars_of(s);
    let mut out: Vec<String> = Vec::new();
    let mut cur = String::new();
    let mut i: usize = 0;
    assert(s@.take(0) =~= Seq::<char>::empty());
    assert(texts(out@).push(cur@) =~= split(s@.take(0), c));
    while i < v.len()
        invariant
            v@ == s@,
            i <= v@.len(),
            texts(out@).push(cur@) == split(s@.take(i as int), c),
        decreases v@.len() - i,
    {
        let ghost done = texts(out@);
        assert(s@.take(i + 1).drop_last() =~= s@.take(i as int));
        assert(done.push(cur@).drop_last() =~= done);
        if v[i] == c {
            let ghost piece = cur@;
            out.push(cur);
            assert(texts(out@) =~= done.push(piece));
            cur = String::new();
        } else {
            cur.push(v[i]);
        }
        i = i + 1;
    }
    let ghost done = texts(out@);
    let ghost piece = cur@;
    out.push(cur);
    assert(texts(out@) =~= done.push(piece));
    assert(s@.take(i as int) =~= s@);
    out
}

// ---- numbers ----

/// The decimal digit `d`.
pub open spec fn digit(d: int) -> char {
    if d == 0 {
        '0'
    } else if d == 1 {
        '1'
    } else if d == 2 {
        '2'
    } else if d == 3 {
        '3'
    } else if d == 4 {
        '4'
    } else if d == 5 {
        '5'
    } else if d == 6 {
        '6'
    } else if d == 7 {
        '7'
    } else if d == 8 {
        '8'
    } else {
        '9'
    }
}

/// The decimal digits of `n`, without leading zeros.
pub open spec fn digits(n: nat) -> Seq<char>
    decreases n,
{
    if n < 10 {
        seq![digit(n as int)]
    } else {
        digits(n / 10).push(digit((n % 10) as int))
    }
}

/// The decimal text of an integer.
pub open spec fn decimal(i: int) -> Seq<char> {
    if i < 0 {
        seq!['-'] + digits((-i) as nat)
    } else {
        digits(i as nat)
    }
}

fn digit_char(d: u64) -> (c: char)
    requires
        d < 10,
    ensures
        c == digit(d as int),
{
    if d == 0 {
        '0'
    } else if d == 1 {
        '1'
    } else if d == 2 {
        '2'
    } else if d == 3 {
        '3'
    } else if d == 4 {
        '4'
    } else if d == 5 {
        '5'
    } else if d == 6 {
        '6'
    } else if d == 7 {
        '7'
    } else if d == 8 {
        '8'
    } else {
        '9'
    }
}

/// The decimal text of an unsigned number.
pub fn nat_text(n: u64) -> (s: String)
    ensures
        s@ == digits(n as nat),
        s@ == decimal(n as int),
    decreases n,
{
    if n < 10 {
        let mut out = String::new();
        out.push(digit_char(n));
        assert(out@ =~= digits(n as nat));
        out
    } else {
        let mut out = nat_text(n / 10);
        out.push(digit_char(n % 10));
        out
    }
}

/// The decimal text of a signed number.
pub fn int_text(i: i64) -> (s: String)
    ensures
        s@ == decimal(i as int),
{
    if i < 0 {
        let mut out = String::new();
        out.push('-');
        let magnitude: u64 = if i == i64::MIN {
            9223372036854775808u64
        } else {
            (-i) as u64
        };
        let tail = nat_text(magnitude);
        out.append(tail.as_str());
        assert(out@ =~= decimal(i as int));
        out
    } else {
        nat_text(i as u64)
    }
}

/// Whether a character is an ASCII decimal digit.
pub open spec fn is_digit(c: char) -> bool {
    '0' <= c <= '9'
}

/// The number that a run of decimal digits stands for.
pub open spec fn digits_value(s: Seq<char>) -> nat
    decreases s.len(),
{
    if s.len() == 0 {
        0
    } else {
        10 * digits_value(s.drop_last()) + (s.last() as nat - '0' as nat) as nat
    }
}

/// Whether a text holds decimal digits only.
pub open spec fn all_digits(s: Seq<char>) -> bool {
    forall|i: int| 0 <= i < s.len() ==> is_digit(#[trigger] s[i])
}

/// A text without its sign.
pub open spec fn unsigned_part(s: Seq<char>) -> Seq<char> {
    if s.len() > 0 && (s[0] == '-' || s[0] == '+') {
        s.drop_first()
    } else {
        s
    }
}

/// The 64-bit integer that a text stands for: an optional sign, then at least one digit.
pub open spec fn parsed_i64(s: Seq<char>) -> Option<int> {
    let run = unsigned_part(s);
    let value = if s.len() > 0 && s[0] == '-' {
        -(digits_value(run) as int)
    } else {
        digits_value(run) as int
    };
    if run.len() > 0 && all_digits(run) && i64::MIN <= value <= i64::MAX {
        Some(value)
    } else {
        None
    }
}

/// The digits of a number stand for that number.
pub proof fn lemma_digits_value(n: nat)
    ensures
        digits(n).len() > 0,
        all_digits(digits(n)),
        digits_value(digits(n)) == n,
    decreases n,
{
    let s = digits(n);
    if n < 10 {
        assert(s.drop_last() =~= Seq::<char>::empty());
        assert(s.last() == digit(n as int));
        assert(digits_value(s.drop_last()) == 0);
    } else {
        lemma_digits_value(n / 10);
        assert(s.drop_last() =~= digits(n / 10));
        assert(s.last() == digit((n % 10) as int));
        assert forall|i: int| 0 <= i < s.len() implies is_digit(#[trigger] s[i]) by {
            if i < s.len() - 1 {
                assert(s[i] == digits(n / 10)[i]);
            }
        }
    }
}

/// The decimal text of a 64-bit integer is read back as that integer.
pub proof fn decimal_is_read_back(i: int)
    requires
        i64::MIN <= i <= i64::MAX,
    ensures
        parsed_i64(decimal(i)) == Some(i),
{
    if i < 0 {
        lemma_digits_value((-i) as nat);
        assert(decimal(i).drop_first() =~= digits((-i) as nat));
    } else {
        lemma_digits_value(i as nat);
        assert(is_digit(decimal(i)[0]));
    }
}

fn digit_number(c: char) -> (d: u64)
    requires
        is_digit(c),
    ensures
        d == c as nat - '0' as nat,
        d < 10,
{
    (c as u32 - '0' as u32) as u64
}

/// Reads a run of digits from `start` on: the number, where it is at most `limit`.
fn read_digits(v: &Vec<char>, start: usize, limit: u64) -> (r: Option<u64>)
    requires
        start <= v@.len(),
    ensures
        r is Some <==> all_digits(v@.skip(start as int)) && digits_value(v@.skip(start as int))
            <= limit,
        r is Some ==> r->0 == digits_value(v@.skip(start as int)),
{
    let ghost run = v@.skip(start as int);
    let mut acc: u64 = 0;
    let mut big = false;
    let mut i: usize = start;
    assert(run.take(0) =~= Seq::<char>::empty());
    while i < v.len()
        invariant
            start <= i <= v@.len(),
            run == v@.skip(start as int),
            forall|k: int| 0 <= k < i - start ==> is_digit(#[trigger] run[k]),
            !big ==> acc == digits_value(run.take(i - start)) && acc <= limit,
            big ==> digits_value(run.take(i - start)) > limit,
        decreases v@.len() - i,
    {
        let c = v[i];
        assert(run[i - start] == c);
        if !('0' <= c && c <= '9') {
            assert(!is_digit(run[i - start]));
            return None;
        }
        let ghost next = run.take(i + 1 - start);
        assert(next.drop_last() =~= run.take(i - start));
        assert(next.last() == c);
        let d: u64 = digit_number(c);
        assert(digits_value(next) == 10 * digits_value(run.take(i - start)) + d);
        if !big {
            let grown: u128 = acc as u128 * 10 + d as u128;
            if grown > limit as u128 {
                big = true;
            } else {
                acc = grown as u64;
            }
        }
        i = i + 1;
    }
    assert(run.take(i - start) =~= run);
    if big {
        None
    } else {
        Some(acc)
    }
}

/// Reads a 64-bit integer.
pub fn parse_i64(s: &str) -> (r: Option<i64>)
    ensures
        r is Some <==> parsed_i64(s@) is Some,
        r is Some ==> r->0 == parsed_i64(s@)->0,
{
    let v = chars_of(s);
    let negative = v.len() > 0 && v[0] == '-';
    let signed = negative || (v.len() > 0 && v[0] == '+');
    let start: usize = if signed {
        1
    } else {
        0
    };
    assert(unsigned_part(s@) =~= v@.skip(start as int));
    if start == v.len() {
        return None;
    }
    match read_digits(&v, start, 9223372036854775808) {
        None => None,
        Some(n) => {
            if negative {
                if n == 9223372036854775808 {
                    Some(i64::MIN)
                } else {
                    Some(-(n as i64))
                }
            } else if n == 9223372036854775808 {
                None
            } else {
                Some(n as i64)
            }
        },
    }
}

/// The size that a text stands for: an optional plus sign, then at least one digit.
pub open spec fn parsed_usize(s: Seq<char>) -> Option<usize> {
    let run = if s.len() > 0 && s[0] == '+' {
        s.drop_first()
    } else {
        s
    };
    if run.len() > 0 && all_digits(run) && digits_value(run) <= usize::MAX {
        Some(digits_value(run) as usize)
    } else {
        None
    }
}

/// Reads a size.
pub fn parse_usize(s: &str) -> (r: Option<usize>)
    ensures
        r == parsed_usize(s@),
{
    let v = chars_of(s);
    let start: usize = if v.len() > 0 && v[0] == '+' {
        1
    } else {
        0
    };
    assert(v@.skip(start as int) =~= if s@.len() > 0 && s@[0] == '+' {
        s@.drop_first()
    } else {
        s@
    });
    if start == v.len() {
        return None;
    }
    match read_digits(&v, start, usize::MAX as u64) {
        Some(n) => Some(n as usize),
        None => None,
    }
}

/// The text of a truth value.
pub open spec fn bool_word(b: bool) -> Seq<char> {
    if b {
        "true"@
    } else {
        "false"@
    }
}

/// The text of a truth value.
pub fn bool_text(b: bool) -> (s: String)
    ensures
        s@ == bool_word(b),
{
    if b {
        "true".to_string()
    } else {
        "false".to_string()
    }
}

/// A text is in another one exactly where that one has it between a beginning and an end.
pub proof fn occurrences_stand_between(needle: Seq<char>, hay: Seq<char>)
    ensures
        occurs_in(needle, hay) <==> exists|a: Seq<char>, b: Seq<char>|
            hay == #[trigger] (a + needle + b),
{
    if occurs_in(needle, hay) {
        let at = choose|at: int| #[trigger] occurs_at(needle, hay, at);
        let a = hay.take(at);
        let b = hay.skip(at + needle.len());
        assert(hay =~= a + needle + b) by {
            assert(hay.subrange(at, at + needle.len()) == needle);
        }
    }
    if exists|a: Seq<char>, b: Seq<char>| hay == #[trigger] (a + needle + b) {
        let (a, b) = choose|a: Seq<char>, b: Seq<char>| hay == #[trigger] (a + needle + b);
        let at = a.len() as int;
        assert(hay.subrange(at, at + needle.len()) =~= needle);
        assert(occurs_at(needle, hay, at));
    }
}

proof fn lemma_none_found(needle: Seq<char>, hay: Seq<char>, from: int)
    requires
        0 <= from,
        found_from(needle, hay, from) is None,
    ensures
        forall|k: int| from <= k ==> !#[trigger] occurs_at(needle, hay, k),
    decreases hay.len() + 1 - from,
{
    if from + needle.len() <= hay.len() {
        lemma_none_found(needle, hay, from + 1);
        assert forall|k: int| from <= k implies !#[trigger] occurs_at(needle, hay, k) by {
            if k > from {
                assert(from + 1 <= k);
            }
        }
    }
}

proof fn lemma_found_none_before(needle: Seq<char>, hay: Seq<char>, from: int)
    requires
        0 <= from,
        found_from(needle, hay, from) is Some,
    ensures
        forall|k: int|
            from <= k < found_from(needle, hay, from)->0 ==> !#[trigger] occurs_at(needle, hay, k),
    decreases hay.len() + 1 - from,
{
    if from + needle.len() <= hay.len() && !occurs_at(needle, hay, from) {
        lemma_found_none_before(needle, hay, from + 1);
        assert forall|k: int| from <= k < found_from(needle, hay, from)->0 implies
            !#[trigger] occurs_at(needle, hay, k) by {
            if k > from {
                assert(from + 1 <= k);
            }
        }
    }
}

/// A text is split once exactly where the separator is in it, and then at its first occurrence:
/// the parts with the separator between them are the text, and the separator stands nowhere
/// before the end of the first part.
pub proof fn texts_are_split_at_the_first_separator(s: Seq<char>, sep: Seq<char>)
    ensures
        split_once(s, sep) is Some <==> occurs_in(sep, s),
        split_once(s, sep) is Some ==> (split_once(s, sep)->0).0 + sep + (split_once(s, sep)->0).1
            == s,
        split_once(s, sep) is Some ==> forall|k: int|
            0 <= k < (split_once(s, sep)->0).0.len() ==> !#[trigger] occurs_at(sep, s, k),
{
    lemma_split_joins(s, sep);
    lemma_found_occurs(sep, s, 0);
    if split_once(s, sep) is Some {
        lemma_found_none_before(sep, s, 0);
        let at = found_from(sep, s, 0)->0;
        assert(occurs_at(sep, s, at));
        assert(s.take(at).len() == at);
    } else {
        lemma_none_found(sep, s, 0);
    }
}

proof fn lemma_trimmed_start(s: Seq<char>) -> (from: int)
    ensures
        0 <= from <= s.len(),
        trimmed_start(s) == s.skip(from),
        forall|i: int| 0 <= i < from ==> whitespace(#[trigger] s[i]),
        from < s.len() ==> !whitespace(s[from]),
    decreases s.len(),
{
    if s.len() > 0 && whitespace(s.first()) {
        let rest = s.drop_first();
        let n = lemma_trimmed_start(rest);
        assert(rest.skip(n) =~= s.skip(n + 1));
        assert forall|i: int| 0 <= i < n + 1 implies whitespace(#[trigger] s[i]) by {
            if i > 0 {
                assert(s[i] == rest[i - 1]);
            }
        }
        if n < rest.len() {
            assert(s[n + 1] == rest[n]);
        }
        n + 1
    } else {
        assert(s.skip(0) =~= s);
        0
    }
}

proof fn lemma_trimmed_end(s: Seq<char>) -> (to: int)
    ensures
        0 <= to <= s.len(),
        trimmed_end(s) == s.take(to),
        forall|i: int| to <= i < s.len() ==> whitespace(#[trigger] s[i]),
        to > 0 ==> !whitespace(s[to - 1]),
    decreases s.len(),
{
    if s.len() > 0 && whitespace(s.last()) {
        let rest = s.drop_last();
        let n = lemma_trimmed_end(rest);
        assert(rest.take(n) =~= s.take(n));
        assert forall|i: int| n <= i < s.len() implies whitespace(#[trigger] s[i]) by {
            if i < s.len() - 1 {
                assert(s[i] == rest[i]);
            }
        }
        if n > 0 {
            assert(s[n - 1] == rest[n - 1]);
        }
        n
    } else {
        assert(s.take(s.len() as int) =~= s);
        s.len() as int
    }
}

/// A trimmed text is what stands between the white space at both ends, and neither begins nor
/// ends with white space.
pub proof fn trimmed_text_stands_between_white_space(s: Seq<char>)
    ensures
        exists|from: int, to: int|
            0 <= from <= to <= s.len() && trimmed(s) == #[trigger] s.subrange(from, to) && (
            forall|i: int| 0 <= i < from ==> whitespace(#[trigger] s[i])) && (forall|i: int|
                to <= i < s.len() ==> whitespace(#[trigger] s[i])),
        trimmed(s).len() > 0 ==> !whitespace(trimmed(s).first()) && !whitespace(trimmed(s).last()),
{
    let from = lemma_trimmed_start(s);
    let rest = s.skip(from);
    let n = lemma_trimmed_end(rest);
    assert(trimmed(s) =~= s.subrange(from, from + n));
    assert forall|i: int| from + n <= i < s.len() implies whitespace(#[trigger] s[i]) by {
        assert(s[i] == rest[i - from]);
    }
    if trimmed(s).len() > 0 {
        assert(trimmed(s).first() == s[from]);
        assert(trimmed(s).last() == rest[n - 1]);
    }
}

/// Of the ASCII characters the blank and those from the tabulator to the carriage return are white
/// space.
pub proof fn ascii_white_space(c: char)
    requires
        c < '\u{80}',
    ensures
        whitespace(c) <==> c == ' ' || c == '\t' || c == '\n' || c == '\u{b}' || c == '\u{c}' || c
            == '\r',
{
}

/// The pieces of a text, joined again, are the text, and none of them holds the separator.
pub proof fn pieces_lie_between_separators(s: Seq<char>, c: char)
    ensures
        joined(split(s, c), seq![c]) == s,
        forall|i: int| 0 <= i < split(s, c).len() ==> !(#[trigger] split(s, c)[i]).contains(c),
    decreases s.len(),
{
    let pieces = split(s, c);
    if s.len() == 0 {
        assert(joined(pieces, seq![c]) =~= s);
    } else {
        let rest = s.drop_last();
        let before = split(rest, c);
        pieces_lie_between_separators(rest, c);
        lemma_split_nonempty(rest, c);
        assert(s =~= rest.push(s.last()));
        if s.last() == c {
            assert(pieces.drop_last() =~= before);
            assert(joined(pieces, seq![c]) =~= s);
            assert forall|i: int| 0 <= i < pieces.len() implies !(#[trigger] pieces[i]).contains(
                c,
            ) by {
                if i < before.len() {
                    assert(pieces[i] == before[i]);
                }
            }
        } else {
            let last = before.last();
            assert(pieces.drop_last() =~= before.drop_last());
            assert(pieces.last() == last.push(s.last()));
            assert(pieces.len() == before.len());
            if before.len() == 1 {
                assert(joined(before, seq![c]) == last);
                assert(joined(pieces, seq![c]) =~= s);
            } else {
                assert(joined(before, seq![c]) == joined(before.drop_last(), seq![c]) + seq![c]
                    + last);
                assert(joined(pieces, seq![c]) =~= joined(before, seq![c]).push(s.last()));
            }
            assert forall|i: int| 0 <= i < pieces.len() implies !(#[trigger] pieces[i]).contains(
                c,
            ) by {
                if i < before.len() - 1 {
                    assert(pieces[i] == before[i]);
                } else {
                    assert(!before[before.len() - 1].contains(c));
                    if pieces[i].contains(c) {
                        let k = choose|k: int|
                            0 <= k < pieces[i].len() && pieces[i][k] == c;
                        assert(k < last.len());
                        assert(last[k] == c);
                    }
                }
            }
        }
    }
}

/// Two joined lists are joined with the separator between them; a list of one text is that text.
pub proof fn lists_are_joined_with_separators(
    a: Seq<Seq<char>>,
    b: Seq<Seq<char>>,
    sep: Seq<char>,
)
    ensures
        joined(Seq::<Seq<char>>::empty(), sep).len() == 0,
        a.len() == 1 ==> joined(a, sep) == a[0],
        a.len() > 0 && b.len() > 0 ==> joined(a + b, sep) == joined(a, sep) + sep + joined(b, sep),
    decreases b.len(),
{
    if a.len() > 0 && b.len() == 1 {
        assert((a + b).drop_last() =~= a);
        assert((a + b).last() == b[0]);
    } else if a.len() > 0 && b.len() > 1 {
        lists_are_joined_with_separators(a, b.drop_last(), sep);
        assert((a + b).drop_last() =~= a + b.drop_last());
        assert((a + b).last() == b.last());
        assert(joined(a + b, sep) =~= joined(a, sep) + sep + joined(b, sep));
    }
}

/// A run of digits is read as the number that it stands for, as its opposite behind a minus sign,
/// where that has 64 bits; nothing but digits behind at most one sign is read.
pub proof fn numbers_are_read_with_their_sign(run: Seq<char>)
    requires
        run.len() > 0,
        forall|i: int| 0 <= i < run.len() ==> '0' <= #[trigger] run[i] <= '9',
    ensures
        digits_value(run) <= i64::MAX ==> parsed_i64(run) == Some(digits_value(run) as int),
        digits_value(run) > i64::MAX ==> parsed_i64(run) is None,
        parsed_i64(seq!['+'] + run) == parsed_i64(run),
        -digits_value(run) >= i64::MIN ==> parsed_i64(seq!['-'] + run) == Some(
            -(digits_value(run) as int),
        ),
        -digits_value(run) < i64::MIN ==> parsed_i64(seq!['-'] + run) is None,
        digits_value(run) <= usize::MAX ==> parsed_usize(run) is Some && parsed_usize(run)->0
            == digits_value(run),
        digits_value(run) > usize::MAX ==> parsed_usize(run) is None,
        parsed_usize(seq!['+'] + run) == parsed_usize(run),
        parsed_usize(seq!['-'] + run) is None,
{
    assert('0' <= run[0] <= '9');
    assert(all_digits(run));
    assert((seq!['+'] + run).drop_first() =~= run);
    assert((seq!['-'] + run).drop_first() =~= run);
    assert(!is_digit((seq!['-'] + run)[0]));
}

/// A text with a character that is neither a digit nor a sign in front is no number.
pub proof fn other_texts_are_no_numbers(s: Seq<char>, k: int)
    requires
        s.len() > 0 ==> 0 <= k < s.len() && !('0' <= s[k] <= '9') && (k > 0 || (s[0] != '-' && s[0]
            != '+')),
    ensures
        parsed_i64(s) is None,
        parsed_usize(s) is None,
{
    if s.len() > 0 {
        assert(!is_digit(s[k]));
        if s[0] == '-' || s[0] == '+' {
            assert(s.drop_first()[k - 1] == s[k]);
        }
        if s[0] == '-' {
            assert(!is_digit(s[0]));
        }
    }
}

/// The digits of a run count tens, the last one ones.
pub proof fn digits_count_tens(run: Seq<char>, d: int)
    requires
        0 <= d < 10,
    ensures
        digits_value(Seq::<char>::empty()) == 0,
        digits_value(run.push(digit(d))) == 10 * digits_value(run) + d,
        digit(d) as int == '0' as int + d,
{
    assert(run.push(digit(d)).drop_last() =~= run);
}

/// A decimal text has no leading zero, and a minus sign exactly where the number is below zero.
pub proof fn decimals_have_no_leading_zeros(i: int)
    ensures
        decimal(i).len() > 0,
        i < 0 ==> decimal(i) == seq!['-'] + decimal(-i),
        i > 0 ==> '1' <= decimal(i)[0] <= '9',
        i == 0 ==> decimal(i) == seq!['0'],
    decreases if i < 0 {
        -i
    } else {
        i
    },
{
    if i < 0 {
    } else if i >= 10 {
        decimals_have_no_leading_zeros(i / 10);
        assert(decimal(i)[0] == decimal(i / 10)[0]);
    }
}

} // verus!
