//! Text: numerals, white space, words and lines.

use vstd::prelude::*;

verus! {

/// The decimal digit of `d`.
pub open spec fn digit(d: nat) -> char {
    ('0' as u32 + d) as char
}

/// The decimal numeral of `n`, without leading zeros.
pub open spec fn dec(n: nat) -> Seq<char>
    decreases n,
{
    if n < 10 {
        seq![digit(n)]
    } else {
        dec(n / 10).push(digit(n % 10))
    }
}

/// The digit `d` as a string.
fn digit_text(d: u128) -> (r: &'static str)
    requires
        d < 10,
    ensures
        r@ == seq![digit(d as nat)],
{
    proof {
        reveal_strlit("0");
        reveal_strlit("1");
        reveal_strlit("2");
        reveal_strlit("3");
        reveal_strlit("4");
        reveal_strlit("5");
        reveal_strlit("6");
        reveal_strlit("7");
        reveal_strlit("8");
        reveal_strlit("9");
    }
    if d == 0 {
        "0"
    } else if d == 1 {
        "1"
    } else if d == 2 {
        "2"
    } else if d == 3 {
        "3"
    } else if d == 4 {
        "4"
    } else if d == 5 {
        "5"
    } else if d == 6 {
        "6"
    } else if d == 7 {
        "7"
    } else if d == 8 {
        "8"
    } else {
        "9"
    }
}

/// The decimal numeral of `n`.
pub fn decimal(n: u128) -> (r: String)
    ensures
        r@ == dec(n as nat),
    decreases n,
{
    if n < 10 {
        digit_text(n).to_string()
    } else {
        let mut t = decimal(n / 10);
        t.append(digit_text(n % 10));
        t
    }
}

/// A decimal digit.
pub open spec fn is_digit(c: char) -> bool {
    '0' <= c <= '9'
}

/// The number that a row of decimal digits denotes.
pub open spec fn digits_value(s: Seq<char>) -> nat
    decreases s.len(),
{
    if s.len() == 0 {
        0
    } else {
        10 * digits_value(s.drop_last()) + (s.last() as u32 - '0' as u32) as nat
    }
}

/// The digits of an unsigned numeral: what follows an optional plus sign.
pub open spec fn unsigned_digits(s: Seq<char>) -> Seq<char> {
    if s.len() > 0 && s[0] == '+' {
        s.skip(1)
    } else {
        s
    }
}

/// Reads an unsigned numeral of at most `max`: one or more digits, a plus sign
/// allowed in front.
pub open spec fn unsigned(s: Seq<char>, max: nat) -> Option<nat> {
    let t = unsigned_digits(s);
    if t.len() > 0 && (forall|i: int| 0 <= i < t.len() ==> is_digit(#[trigger] t[i]))
        && digits_value(t) <= max {
        Some(digits_value(t))
    } else {
        None
    }
}

/// The characters of a string.
pub fn characters(s: &str) -> (v: Vec<char>)
    ensures
        v@ == s@,
{
    let mut v: Vec<char> = Vec::new();
    for c in it: s.chars()
        invariant
            v@ == it.seq().take(it.index() as int),
            it.seq() == s@,
    {
        v.push(c);
    }
    v
}

/// Whether two strings are equal.
pub fn same(a: &str, b: &str) -> (r: bool)
    ensures
        r == (a@ == b@),
{
    a.to_owned() == b.to_owned()
}

/// A longer row of digits denotes no smaller number.
proof fn lemma_digits_grow(s: Seq<char>, i: int)
    requires
        0 <= i <= s.len(),
        forall|k: int| 0 <= k < s.len() ==> is_digit(#[trigger] s[k]),
    ensures
        digits_value(s.take(i)) <= digits_value(s),
    decreases s.len(),
{
    if i < s.len() {
        assert(s.drop_last().take(i) == s.take(i));
        lemma_digits_grow(s.drop_last(), i);
    } else {
        assert(s.take(i) == s);
    }
}

/// Reads an unsigned numeral of at most `max`.
pub fn parse_unsigned(s: &str, max: u64) -> (r: Option<u64>)
    requires
        max <= 0xffff_ffff,
    ensures
        match r {
            Some(n) => unsigned(s@, max as nat) == Some(n as nat),
            None => unsigned(s@, max as nat) is None,
        },
{
    let v = characters(s);
    let start: usize = if v.len() > 0 && v[0] == '+' {
        1
    } else {
        0
    };
    let ghost t = unsigned_digits(s@);
    assert(t == v@.skip(start as int));
    if v.len() == start {
        return None;
    }
    let mut n: u64 = 0;
    let mut i: usize = start;
    assert(t.take(0) == Seq::<char>::empty());
    while i < v.len()
        invariant
            start <= i <= v.len(),
            start <= 1,
            t == v@.skip(start as int),
            t == unsigned_digits(s@),
            max <= 0xffff_ffff,
            forall|k: int| 0 <= k < i - start ==> is_digit(#[trigger] t[k]),
            n == digits_value(t.take(i - start)),
            n <= max,
        decreases v.len() - i,
    {
        let c = v[i];
        assert(t[i - start] == c);
        if !('0' <= c && c <= '9') {
            return None;
        }
        let ghost u = t.take(i + 1 - start);
        assert(u.drop_last() == t.take(i - start));
        n = n * 10 + (c as u32 - '0' as u32) as u64;
        if n > max {
            proof {
                if forall|k: int| 0 <= k < t.len() ==> is_digit(#[trigger] t[k]) {
                    lemma_digits_grow(t, i + 1 - start);
                }
            }
            return None;
        }
        i = i + 1;
    }
    assert(t.take(i - start) == t);
    Some(n)
}

proof fn lemma_digit_value(d: nat)
    requires
        d < 10,
    ensures
        is_digit(digit(d)),
        digit(d) as u32 - '0' as u32 == d,
{
}

/// A numeral consists of digits and denotes its number.
pub proof fn lemma_dec_digits(n: nat)
    ensures
        dec(n).len() > 0,
        forall|i: int| 0 <= i < dec(n).len() ==> is_digit(#[trigger] dec(n)[i]),
        digits_value(dec(n)) == n,
    decreases n,
{
    if n < 10 {
        lemma_digit_value(n);
        assert(dec(n).drop_last() == Seq::<char>::empty());
        assert(digits_value(Seq::<char>::empty()) == 0);
    } else {
        lemma_dec_digits(n / 10);
        lemma_digit_value(n % 10);
        assert(dec(n).drop_last() == dec(n / 10));
    }
}

/// A number is read back from its numeral.
pub proof fn law_numeral_round_trip(n: nat, max: nat)
    requires
        n <= max,
    ensures
        unsigned(dec(n), max) == Some(n),
{
    lemma_dec_digits(n);
    assert(is_digit(dec(n)[0]));
}

/// White space, as Unicode defines the property White_Space.
pub open spec fn is_space(c: char) -> bool {
    let u = c as u32;
    ||| 0x9 <= u <= 0xd
    ||| u == 0x20
    ||| u == 0x85
    ||| u == 0xa0
    ||| u == 0x1680
    ||| 0x2000 <= u <= 0x200a
    ||| 0x2028 <= u <= 0x2029
    ||| u == 0x202f
    ||| u == 0x205f
    ||| u == 0x3000
}

fn space(c: char) -> (r: bool)
    ensures
        r == is_space(c),
{
    let u: u32 = c as u32;
    (0x9 <= u && u <= 0xd) || u == 0x20 || u == 0x85 || u == 0xa0 || u == 0x1680 || (0x2000 <= u && u
        <= 0x200a) || u == 0x2028 || u == 0x2029 || u == 0x202f || u == 0x205f || u == 0x3000
}

/// Where, from `i` on, the first character stands that is white space (`want`)
/// or is none (`!want`); the end where there is no such character.
pub open spec fn next_index(s: Seq<char>, i: int, want: bool) -> int
    decreases s.len() - i,
{
    if i < 0 || i >= s.len() || is_space(s[i]) == want {
        i
    } else {
        next_index(s, i + 1, want)
    }
}

fn find_next(v: &Vec<char>, i: usize, want: bool) -> (r: usize)
    requires
        i <= v.len(),
    ensures
        r == next_index(v@, i as int, want),
        i <= r <= v.len(),
    decreases v.len() - i,
{
    if i >= v.len() || space(v[i]) == want {
        i
    } else {
        find_next(v, i + 1, want)
    }
}

/// The string without the white space at its ends.
pub open spec fn trimmed(s: Seq<char>) -> Seq<char>
    decreases s.len(),
{
    if s.len() > 0 && is_space(s[0]) {
        trimmed(s.skip(1))
    } else if s.len() > 0 && is_space(s.last()) {
        trimmed(s.drop_last())
    } else {
        s
    }
}

/// Removes the white space at both ends.
pub fn trim(s: &str) -> (r: String)
    ensures
        r@ == trimmed(s@),
{
    let v = characters(s);
    let mut from: usize = 0;
    let mut to: usize = v.len();
    proof {
        assert(s@.subrange(0, s@.len() as int) == s@);
    }
    while from < to && space(v[from])
        invariant
            from <= to == v.len(),
            v@ == s@,
            trimmed(s@.subrange(from as int, to as int)) == trimmed(s@),
        decreases to - from,
    {
        proof {
            let u = s@.subrange(from as int, to as int);
            assert(u[0] == v[from as int]);
            assert(u.skip(1) == s@.subrange(from + 1, to as int));
        }
        from = from + 1;
    }
    while from < to && space(v[to - 1])
        invariant
            from <= to <= v.len(),
            v@ == s@,
            from < to ==> !is_space(v[from as int]),
            trimmed(s@.subrange(from as int, to as int)) == trimmed(s@),
        decreases to - from,
    {
        proof {
            let u = s@.subrange(from as int, to as int);
            assert(u[0] == v[from as int]);
            assert(u.last() == v[to - 1]);
            assert(u.drop_last() == s@.subrange(from as int, to - 1));
        }
        to = to - 1;
    }
    proof {
        let u = s@.subrange(from as int, to as int);
        if from < to {
            assert(u[0] == v[from as int]);
            assert(u.last() == v[to - 1]);
        }
    }
    s.substring_char(from, to).to_owned()
}

/// The second of the words that white space separates, if there is one.
pub open spec fn second_word(s: Seq<char>) -> Option<Seq<char>> {
    let a = next_index(s, 0, false);
    let b = next_index(s, a, true);
    let c = next_index(s, b, false);
    let d = next_index(s, c, true);
    if c < s.len() {
        Some(s.subrange(c, d))
    } else {
        None
    }
}

/// What stands before the first line feed.
pub open spec fn first_line(s: Seq<char>) -> Seq<char>
    decreases s.len(),
{
    if s.len() == 0 || s[0] == '\n' {
        Seq::empty()
    } else {
        seq![s[0]] + first_line(s.skip(1))
    }
}

/// The second word of the first line, if there is one.
pub fn second_word_of_first_line(s: &str) -> (r: Option<String>)
    ensures
        match r {
            Some(w) => second_word(first_line(s@)) == Some(w@),
            None => second_word(first_line(s@)) is None,
        },
{
    let v = characters(s);
    let mut line: Vec<char> = Vec::new();
    let mut i: usize = 0;
    proof {
        assert(s@.skip(0) == s@);
        assert(line@ + first_line(s@) == first_line(s@));
    }
    while i < v.len() && v[i] != '\n'
        invariant
            i <= v.len(),
            v@ == s@,
            line@ == s@.take(i as int),
            line@ + first_line(s@.skip(i as int)) == first_line(s@),
        decreases v.len() - i,
    {
        proof {
            let rest = s@.skip(i as int);
            assert(rest[0] == v[i as int]);
            assert(rest.skip(1) == s@.skip(i + 1));
            assert(line@.push(v[i as int]) + first_line(s@.skip(i + 1)) == line@ + (seq![rest[0]]
                + first_line(rest.skip(1))));
        }
        line.push(v[i]);
        i = i + 1;
    }
    proof {
        assert(i < v.len() ==> s@.skip(i as int)[0] == v[i as int]);
        assert(line@ + Seq::<char>::empty() == line@);
        assert(line@ == first_line(s@));
    }
    let a = find_next(&line, 0, false);
    let b = find_next(&line, a, true);
    let c = find_next(&line, b, false);
    let d = find_next(&line, c, true);
    if c < line.len() {
        assert(s@.subrange(c as int, d as int) == line@.subrange(c as int, d as int));
        Some(s.substring_char(c, d).to_owned())
    } else {
        None
    }
}

/// `needle` stands somewhere in `hay`.
pub open spec fn holds(hay: Seq<char>, needle: Seq<char>) -> bool {
    exists|i: int|
        0 <= i <= hay.len() - needle.len() && #[trigger] hay.subrange(i, i + needle.len())
            == needle
}

/// Whether `needle` stands somewhere in `hay`.
pub fn contains(hay: &str, needle: &str) -> (r: bool)
    ensures
        r == holds(hay@, needle@),
{
    let h = characters(hay);
    let n = characters(needle);
    if n.len() > h.len() {
        return false;
    }
    let mut i: usize = 0;
    while i <= h.len() - n.len()
        invariant
            h@ == hay@,
            n@ == needle@,
            n.len() <= h.len(),
            i <= h.len() - n.len() + 1,
            forall|k: int|
                0 <= k < i ==> #[trigger] hay@.subrange(k, k + needle@.len()) != needle@,
        decreases h.len() - n.len() + 1 - i,
    {
        let mut j: usize = 0;
        while j < n.len() && h[i + j] == n[j]
            invariant
                h@ == hay@,
                n@ == needle@,
                i + n.len() <= h.len(),
                j <= n.len(),
                forall|k: int| 0 <= k < j ==> hay@[i + k] == needle@[k],
            decreases n.len() - j,
        {
            j = j + 1;
        }
        if j == n.len() {
            assert(hay@.subrange(i as int, i + needle@.len()) == needle@);
            return true;
        }
        proof {
            let w = hay@.subrange(i as int, i + needle@.len());
            assert(w[j as int] == h[i + j]);
        }
        if i == h.len() - n.len() {
            return false;
        }
        i = i + 1;
    }
    false
}

/// The string, filled up with blanks at its end to `width` characters.
pub open spec fn padded(s: Seq<char>, width: nat) -> Seq<char>
    decreases width - s.len(),
{
    if s.len() >= width {
        s
    } else {
        padded(s.push(' '), width)
    }
}

/// Fills a string up with blanks at its end to `width` characters.
pub fn pad(s: String, width: usize) -> (r: String)
    ensures
        r@ == padded(s@, width as nat),
    decreases width - s@.len(),
{
    proof {
        reveal_strlit(" ");
    }
    if s.as_str().unicode_len() >= width {
        s
    } else {
        let mut t = s;
        t.append(" ");
        assert(t@ == s@.push(' '));
        pad(t, width)
    }
}

/// The contents of a string that may be missing.
pub open spec fn optional(t: Option<String>) -> Option<Seq<char>> {
    match t {
        Some(t) => Some(t@),
        None => None,
    }
}

/// The texts one after another, `sep` between them.
pub open spec fn joined(parts: Seq<Seq<char>>, sep: Seq<char>) -> Seq<char>
    decreases parts.len(),
{
    if parts.len() == 0 {
        Seq::empty()
    } else if parts.len() == 1 {
        parts[0]
    } else {
        joined(parts.drop_last(), sep) + sep + parts.last()
    }
}

/// The contents of the strings.
pub open spec fn contents(v: Seq<String>) -> Seq<Seq<char>> {
    v.map_values(|t: String| t@)
}

/// Writes the texts one after another, `sep` between them.
pub fn join(parts: &Vec<String>, sep: &str) -> (r: String)
    ensures
        r@ == joined(contents(parts@), sep@),
{
    let ghost all = contents(parts@);
    let mut t = String::new();
    let mut i: usize = 0;
    while i < parts.len()
        invariant
            i <= parts.len(),
            all == contents(parts@),
            t@ == joined(all.take(i as int), sep@),
        decreases parts.len() - i,
    {
        proof {
            let u = all.take(i + 1);
            assert(u.drop_last() == all.take(i as int));
            assert(u.last() == parts@[i as int]@);
            assert(Seq::<char>::empty() + parts@[i as int]@ == parts@[i as int]@);
        }
        if i > 0 {
            t.append(sep);
        }
        t.append(parts[i].as_str());
        i = i + 1;
    }
    assert(all.take(i as int) == all);
    t
}

/// What stands in one of two texts stands in both together.
pub proof fn lemma_holds_concat(a: Seq<char>, b: Seq<char>, needle: Seq<char>)
    requires
        holds(a, needle) || holds(b, needle),
    ensures
        holds(a + b, needle),
{
    let n = needle.len() as int;
    if holds(a, needle) {
        let i = choose|i: int|
            0 <= i <= a.len() - n && #[trigger] a.subrange(i, i + n) == needle;
        assert((a + b).subrange(i, i + n) == a.subrange(i, i + n));
    } else {
        let i = choose|i: int|
            0 <= i <= b.len() - n && #[trigger] b.subrange(i, i + n) == needle;
        let k = a.len() + i;
        assert((a + b).subrange(k, k + n) == b.subrange(i, i + n));
    }
}

/// A text stands in itself.
pub proof fn lemma_holds_itself(a: Seq<char>)
    ensures
        holds(a, a),
{
    assert(a.subrange(0, 0int + a.len()) == a);
}

/// The numeral of `n`, zeros before it up to `width` digits.
pub open spec fn zero_padded(n: nat, width: nat) -> Seq<char> {
    if dec(n).len() >= width {
        dec(n)
    } else {
        Seq::new((width - dec(n).len()) as nat, |i: int| '0') + dec(n)
    }
}

/// Writes the numeral of `n`, zeros before it up to `width` digits.
pub fn zero_pad(n: u128, width: usize) -> (r: String)
    ensures
        r@ == zero_padded(n as nat, width as nat),
{
    let t = decimal(n);
    let len = t.as_str().unicode_len();
    if len >= width {
        return t;
    }
    let mut r = String::new();
    let mut i: usize = len;
    while i < width
        invariant
            len <= i <= width,
            r@ == Seq::new((i - len) as nat, |i: int| '0'),
        decreases width - i,
    {
        proof {
            reveal_strlit("0");
            assert(r@ + "0"@ == Seq::new((i + 1 - len) as nat, |i: int| '0'));
        }
        r.append("0");
        i = i + 1;
    }
    r.append(t.as_str());
    r
}

/// Where the first line is at least `n` characters long, it starts with the first `n`
/// characters of the text, and it ends before a line feed.
pub proof fn lemma_first_line(s: Seq<char>, n: int)
    requires
        0 <= n <= s.len(),
        forall|i: int| 0 <= i < n ==> (#[trigger] s[i]) != '\n',
    ensures
        n <= first_line(s).len() <= s.len(),
        first_line(s) == s.take(first_line(s).len() as int),
        forall|i: int| 0 <= i < first_line(s).len() ==> (#[trigger] first_line(s)[i]) != '\n',
        first_line(s).len() < s.len() ==> s[first_line(s).len() as int] == '\n',
    decreases s.len(),
{
    if s.len() > 0 && s[0] != '\n' {
        let t = s.skip(1);
        let m = if n > 0 {
            n - 1
        } else {
            0
        };
        assert forall|i: int| 0 <= i < m implies (#[trigger] t[i]) != '\n' by {
            assert(t[i] == s[i + 1]);
        }
        lemma_first_line(t, m);
        let l = first_line(s);
        assert(l =~= s.take(l.len() as int)) by {
            assert forall|i: int| 0 <= i < l.len() implies l[i] == s[i] by {
                if i > 0 {
                    assert(l[i] == first_line(t)[i - 1]);
                    assert(first_line(t)[i - 1] == t[i - 1]);
                }
            }
        }
        assert forall|i: int| 0 <= i < l.len() implies (#[trigger] l[i]) != '\n' by {
            if i > 0 {
                assert(l[i] == first_line(t)[i - 1]);
            }
        }
    } else {
        assert(s.take(0) =~= Seq::<char>::empty());
    }
}

/// The next character of a kind is the one before which all are of the other.
pub proof fn lemma_next_index(s: Seq<char>, i: int, j: int, want: bool)
    requires
        0 <= i <= j <= s.len(),
        forall|k: int| i <= k < j ==> is_space(#[trigger] s[k]) != want,
        j == s.len() || is_space(s[j]) == want,
    ensures
        next_index(s, i, want) == j,
    decreases j - i,
{
    if i < j {
        lemma_next_index(s, i + 1, j, want);
    }
}

/// What stands before the first line feed is the first line, whatever comes behind it.
pub proof fn law_first_line_ends_at_line_feed(line: Seq<char>, rest: Seq<char>)
    requires
        forall|i: int| 0 <= i < line.len() ==> (#[trigger] line[i]) != '\n',
    ensures
        first_line(line) == line,
        first_line(line + seq!['\n'] + rest) == line,
{
    let s = line + seq!['\n'] + rest;
    lemma_first_line(line, line.len() as int);
    assert(line.take(line.len() as int) =~= line);
    assert forall|i: int| 0 <= i < line.len() implies (#[trigger] s[i]) != '\n' by {
        assert(s[i] == line[i]);
    }
    lemma_first_line(s, line.len() as int);
    let l = first_line(s);
    assert(s[line.len() as int] == '\n');
    if l.len() > line.len() {
        assert(l[line.len() as int] == s[line.len() as int]);
    }
    assert(l =~= line);
}

/// Of a line of words and blanks, the second word is what stands between the first
/// white space behind the first word and the next white space.
pub proof fn law_second_word(
    lead: Seq<char>,
    first: Seq<char>,
    gap: Seq<char>,
    second: Seq<char>,
    rest: Seq<char>,
)
    requires
        forall|i: int| 0 <= i < lead.len() ==> is_space(#[trigger] lead[i]),
        first.len() > 0,
        forall|i: int| 0 <= i < first.len() ==> !is_space(#[trigger] first[i]),
        gap.len() > 0,
        forall|i: int| 0 <= i < gap.len() ==> is_space(#[trigger] gap[i]),
        second.len() > 0,
        forall|i: int| 0 <= i < second.len() ==> !is_space(#[trigger] second[i]),
        rest.len() > 0 ==> is_space(rest[0]),
    ensures
        second_word(lead + first + gap + second + rest) == Some(second),
        second_word(lead + first + gap) is None,
        second_word(lead + first) is None,
        second_word(lead) is None,
{
    let s = lead + first + gap + second + rest;
    let a = lead.len() as int;
    let b = a + first.len();
    let c = b + gap.len();
    let d = c + second.len();
    assert forall|k: int| 0 <= k < d implies is_space(#[trigger] s[k]) == (k < a || b <= k < c) by {
        if k < a {
            assert(s[k] == lead[k]);
        } else if k < b {
            assert(s[k] == first[k - a]);
        } else if k < c {
            assert(s[k] == gap[k - b]);
        } else {
            assert(s[k] == second[k - c]);
        }
    }
    if rest.len() > 0 {
        assert(s[d] == rest[0]);
    }
    lemma_next_index(s, 0, a, false);
    lemma_next_index(s, a, b, true);
    lemma_next_index(s, b, c, false);
    lemma_next_index(s, c, d, true);
    assert(s.subrange(c, d) =~= second);
    let t = lead + first + gap;
    assert forall|k: int| 0 <= k < c implies #[trigger] t[k] == s[k] by {}
    lemma_next_index(t, 0, a, false);
    lemma_next_index(t, a, b, true);
    lemma_next_index(t, b, c, false);
    let u = lead + first;
    assert forall|k: int| 0 <= k < b implies #[trigger] u[k] == s[k] by {}
    lemma_next_index(u, 0, a, false);
    lemma_next_index(u, a, b, true);
    lemma_next_index(u, b, b, false);
    assert forall|k: int| 0 <= k < a implies #[trigger] lead[k] == s[k] by {}
    lemma_next_index(lead, 0, a, false);
    lemma_next_index(lead, a, a, true);
    lemma_next_index(lead, a, a, false);
}

/// Blanks, tabs and line ends are white space, the wide ones of Unicode included; no
/// printing character of ASCII is, and no Chinese one.
pub proof fn law_white_space(c: char)
    ensures
        c == ' ' || c == '\t' || c == '\n' || c == '\r' ==> is_space(c),
        33 <= c as u32 <= 126 ==> !is_space(c),
        is_digit(c) ==> !is_space(c),
        c as u32 == 0x85 || c as u32 == 0xa0 || c as u32 == 0x3000 ==> is_space(c),
        0x2000 <= c as u32 <= 0x200a || c as u32 == 0x2028 || c as u32 == 0x2029 ==> is_space(c),
        0x4e00 <= c as u32 <= 0x9fff ==> !is_space(c),
{
}

/// Only white space is removed, at the ends, and none is left there.
pub proof fn law_trimmed_of_white_space(lead: Seq<char>, s: Seq<char>, trail: Seq<char>)
    requires
        forall|i: int| 0 <= i < lead.len() ==> is_space(#[trigger] lead[i]),
        forall|i: int| 0 <= i < trail.len() ==> is_space(#[trigger] trail[i]),
        s.len() > 0 ==> !is_space(s[0]) && !is_space(s.last()),
    ensures
        trimmed(lead + s + trail) == s,
    decreases lead.len() + trail.len(),
{
    let t = lead + s + trail;
    if lead.len() > 0 {
        assert(t[0] == lead[0]);
        let l = lead.skip(1);
        assert(forall|i: int| 0 <= i < l.len() ==> l[i] == lead[i + 1]);
        assert(t.skip(1) =~= l + s + trail);
        law_trimmed_of_white_space(l, s, trail);
    } else if trail.len() > 0 {
        assert(t.last() == trail.last());
        assert(is_space(trail[trail.len() - 1]));
        if s.len() == 0 {
            let l = trail.skip(1);
            assert(t[0] == trail[0]);
            assert(forall|i: int| 0 <= i < l.len() ==> l[i] == trail[i + 1]);
            assert(t.skip(1) =~= lead + s + l);
            law_trimmed_of_white_space(lead, s, l);
        } else {
            assert(t[0] == s[0]);
            let l = trail.drop_last();
            assert(t.drop_last() =~= lead + s + l);
            law_trimmed_of_white_space(lead, s, l);
        }
    } else {
        assert(t =~= s);
    }
}

/// A numeral of one digit is that digit; any other is the numeral of all but the last
/// digit, and the last digit behind it. No numeral starts with a zero but that of 0.
pub proof fn law_numeral_is_positional(n: nat, d: nat)
    requires
        d < 10,
    ensures
        dec(d).len() == 1,
        dec(d)[0] as u32 == 48 + d,
        n > 0 ==> dec(10 * n + d) == dec(n) + dec(d),
        n > 0 ==> dec(n)[0] != '0',
    decreases n,
{
    if n > 0 {
        assert((10 * n + d) / 10 == n && (10 * n + d) % 10 == d);
        assert(dec(10 * n + d) =~= dec(n) + dec(d));
        if n >= 10 {
            law_numeral_is_positional(n / 10, n % 10);
            lemma_dec_digits(n / 10);
            assert(dec(n)[0] == dec(n / 10)[0]);
        }
    }
}

/// A numeral is read as its number where that is in range, with a plus sign or without
/// one; no text is that holds anything but digits behind the sign, or nothing.
pub proof fn law_numeral_read(n: nat, max: nat, s: Seq<char>)
    ensures
        unsigned(dec(n), max) == if n <= max {
            Some(n)
        } else {
            None
        },
        unsigned(seq!['+'] + dec(n), max) == unsigned(dec(n), max),
        unsigned(seq!['0'] + dec(n), max) == unsigned(dec(n), max),
        s.len() == 0 ==> unsigned(s, max) is None,
        (exists|i: int|
            0 < i < s.len() && !('0' <= #[trigger] s[i] <= '9')) ==> unsigned(s, max) is None,
        s.len() > 0 && s[0] != '+' && !('0' <= s[0] <= '9') ==> unsigned(s, max) is None,
        s == seq!['+'] ==> unsigned(s, max) is None,
{
    lemma_dec_digits(n);
    let d = dec(n);
    assert(is_digit(d[0]));
    assert((seq!['+'] + d).skip(1) =~= d);
    let z = seq!['0'] + d;
    lemma_leading_zero(d);
    assert forall|i: int| 0 <= i < z.len() implies is_digit(#[trigger] z[i]) by {
        if i > 0 {
            assert(z[i] == d[i - 1]);
        }
    }
    assert(z[0] == '0');
    if s.len() > 0 && s[0] == '+' {
        assert forall|i: int| 0 < i < s.len() implies unsigned_digits(s)[i - 1] == #[trigger] s[i] by {}
    }
    if exists|i: int| 0 < i < s.len() && !('0' <= #[trigger] s[i] <= '9') {
        let i = choose|i: int| 0 < i < s.len() && !('0' <= #[trigger] s[i] <= '9');
        let t = unsigned_digits(s);
        if s[0] == '+' {
            assert(!is_digit(t[i - 1]));
        } else {
            assert(!is_digit(t[i]));
        }
    }
    if s.len() > 0 && s[0] != '+' && !('0' <= s[0] <= '9') {
        assert(!is_digit(unsigned_digits(s)[0]));
    }
}

proof fn lemma_leading_zero(d: Seq<char>)
    ensures
        digits_value(seq!['0'] + d) == digits_value(d),
    decreases d.len(),
{
    let z = seq!['0'] + d;
    if d.len() == 0 {
        assert(z.drop_last() =~= Seq::<char>::empty());
        assert(digits_value(Seq::<char>::empty()) == 0);
        assert(z.last() == '0');
    } else {
        assert(z.drop_last() =~= seq!['0'] + d.drop_last());
        lemma_leading_zero(d.drop_last());
    }
}

/// One text stands in another exactly where, from some place on, the characters are
/// the same.
pub proof fn law_held_text(hay: Seq<char>, needle: Seq<char>)
    ensures
        holds(hay, needle) <==> exists|i: int|
            0 <= i <= hay.len() - needle.len() && (#[trigger] hay.skip(i)).take(
                needle.len() as int,
            ) == needle,
{
    let n = needle.len() as int;
    if holds(hay, needle) {
        let i = choose|i: int|
            0 <= i <= hay.len() - n && #[trigger] hay.subrange(i, i + n) == needle;
        assert(hay.skip(i).take(n) =~= hay.subrange(i, i + n));
    }
    if exists|i: int| 0 <= i <= hay.len() - n && (#[trigger] hay.skip(i)).take(n) == needle {
        let i = choose|i: int|
            0 <= i <= hay.len() - n && (#[trigger] hay.skip(i)).take(n) == needle;
        assert(hay.skip(i).take(n) =~= hay.subrange(i, i + n));
    }
}

/// Texts are joined with the separator between every two of them and nowhere else.
pub proof fn law_joined(parts: Seq<Seq<char>>, last: Seq<char>, sep: Seq<char>)
    ensures
        joined(Seq::empty(), sep) == Seq::<char>::empty(),
        joined(seq![last], sep) == last,
        parts.len() > 0 ==> joined(parts + seq![last], sep) == joined(parts, sep) + sep + last,
{
    if parts.len() > 0 {
        assert((parts + seq![last]).drop_last() =~= parts);
    }
}

/// A text is filled up with blanks behind it until it is as wide as asked for; a wider
/// one is left as it is.
pub proof fn law_padded(s: Seq<char>, width: nat)
    ensures
        padded(s, width).len() == if s.len() >= width {
            s.len()
        } else {
            width
        },
        padded(s, width).take(s.len() as int) == s,
        forall|i: int| s.len() <= i < padded(s, width).len() ==> (#[trigger] padded(s, width)[i])
            == ' ',
    decreases width - s.len(),
{
    if s.len() < width {
        let t = s.push(' ');
        law_padded(t, width);
        let p = padded(t, width);
        assert(p.take(s.len() as int) =~= s) by {
            assert forall|i: int| 0 <= i < s.len() implies p[i] == s[i] by {
                assert(p.take(t.len() as int)[i] == t[i]);
            }
        }
        assert(p[s.len() as int] == ' ') by {
            assert(p.take(t.len() as int)[s.len() as int] == t[s.len() as int]);
        }
    } else {
        assert(s.take(s.len() as int) =~= s);
    }
}

} // verus!
