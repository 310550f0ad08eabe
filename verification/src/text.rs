//! Text building and searching, stated over the characters of a string.
use vstd::prelude::*;

verus! {

/// The character of a hexadecimal digit.
pub open spec fn digit_char(d: int) -> char {
    if d < 10 {
        ('0' as u32 + d) as char
    } else {
        ('a' as u32 + (d - 10)) as char
    }
}

/// The decimal notation of a natural number, without leading zeros.
pub open spec fn decimal(n: nat) -> Seq<char>
    decreases n,
{
    if n < 10 {
        seq![digit_char(n as int)]
    } else {
        decimal(n / 10).push(digit_char((n % 10) as int))
    }
}

/// The decimal notation of an integer.
pub open spec fn decimal_int(n: int) -> Seq<char> {
    if n < 0 {
        seq!['-'] + decimal((-n) as nat)
    } else {
        decimal(n as nat)
    }
}

/// Two hexadecimal digits, lower case.
pub open spec fn hex_byte(b: u8) -> Seq<char> {
    seq![digit_char((b / 16) as int), digit_char((b % 16) as int)]
}

/// Whether a character counts as white space.
pub open spec fn is_space(c: char) -> bool {
    let n = c as u32;
    ||| 0x09 <= n <= 0x0d
    ||| n == 0x20
    ||| n == 0x85
    ||| n == 0xa0
    ||| n == 0x1680
    ||| 0x2000 <= n <= 0x200a
    ||| n == 0x2028
    ||| n == 0x2029
    ||| n == 0x202f
    ||| n == 0x205f
    ||| n == 0x3000
}

/// `s` without the white space in front.
pub open spec fn trim_start(s: Seq<char>) -> Seq<char>
    decreases s.len(),
{
    if s.len() > 0 && is_space(s[0]) {
        trim_start(s.skip(1))
    } else {
        s
    }
}

/// `s` without the white space at its end.
pub open spec fn trim_end(s: Seq<char>) -> Seq<char>
    decreases s.len(),
{
    if s.len() > 0 && is_space(s.last()) {
        trim_end(s.drop_last())
    } else {
        s
    }
}

/// `s` without the white space on either side.
pub open spec fn trimmed(s: Seq<char>) -> Seq<char> {
    trim_end(trim_start(s))
}

/// Whether `needle` occurs in `hay`.
pub open spec fn occurs(hay: Seq<char>, needle: Seq<char>) -> bool {
    exists|i: int| occurs_at(hay, needle, i)
}

/// Whether `needle` stands at `i` in `hay`.
pub open spec fn occurs_at(hay: Seq<char>, needle: Seq<char>, i: int) -> bool {
    0 <= i && i + needle.len() <= hay.len() && hay.subrange(i, i + needle.len()) == needle
}

/// `s` with every occurrence of `from`, found from left to right, replaced by `to`.
pub open spec fn replaced(s: Seq<char>, from: Seq<char>, to: Seq<char>) -> Seq<char>
    decreases s.len(),
{
    if from.len() == 0 || s.len() < from.len() {
        s
    } else if s.take(from.len() as int) == from {
        to + replaced(s.skip(from.len() as int), from, to)
    } else {
        s.take(1) + replaced(s.skip(1), from, to)
    }
}

/// The characters of each string.
pub open spec fn texts(v: Seq<String>) -> Seq<Seq<char>> {
    v.map_values(|s: String| s@)
}

/// The characters of a string.
pub fn chars_of(s: &str) -> (r: Vec<char>)
    ensures
        r@ == s@,
{
    let mut r: Vec<char> = Vec::new();
    for c in it: s.chars()
        invariant
            r@ == it.seq().take(it.index() as int),
            it.seq() == s@,
    {
        r.push(c);
        assert(r@ =~= it.seq().take(it.index() + 1));
    }
    assert(r@ =~= s@);
    r
}

/// Whether two strings are equal.
pub fn same_text(a: &str, b: &str) -> (r: bool)
    ensures
        r == (a@ == b@),
{
    let a = chars_of(a);
    let b = chars_of(b);
    if a.len() != b.len() {
        return false;
    }
    assert(a@.subrange(0, a@.len() as int) =~= a@);
    matches_at(&a, &b, 0)
}

/// Whether `needle` stands at `at` in `hay`.
fn matches_at(hay: &Vec<char>, needle: &Vec<char>, at: usize) -> (r: bool)
    requires
        at + needle@.len() <= hay@.len(),
    ensures
        r == occurs_at(hay@, needle@, at as int),
{
    let total: usize = hay.len();
    let mut i: usize = 0;
    while i < needle.len()
        invariant
            i <= needle@.len(),
            total == hay@.len(),
            at + needle@.len() <= total,
            forall|k: int| 0 <= k < i ==> hay@[at + k] == needle@[k],
        decreases needle@.len() - i,
    {
        if hay[at + i] != needle[i] {
            assert(hay@.subrange(at as int, at + needle@.len())[i as int] != needle@[i as int]);
            return false;
        }
        i = i + 1;
    }
    assert(hay@.subrange(at as int, at + needle@.len()) =~= needle@);
    true
}

/// Whether `s` begins with `prefix`.
pub fn starts_with(s: &str, prefix: &str) -> (r: bool)
    ensures
        r == occurs_at(s@, prefix@, 0),
{
    let s = chars_of(s);
    let p = chars_of(prefix);
    p.len() <= s.len() && matches_at(&s, &p, 0)
}

/// Whether `needle` occurs in `hay`.
pub fn contains(hay: &str, needle: &str) -> (r: bool)
    ensures
        r == occurs(hay@, needle@),
{
    let h = chars_of(hay);
    let n = chars_of(needle);
    if n.len() > h.len() {
        return false;
    }
    let last: usize = h.len() - n.len();
    let mut i: usize = 0;
    while i <= last
        invariant
            h@ == hay@,
            n@ == needle@,
            last + n@.len() == h@.len(),
            i <= last,
            forall|k: int| 0 <= k < i ==> !occurs_at(hay@, needle@, k),
        decreases last - i,
    {
        if matches_at(&h, &n, i) {
            return true;
        }
        if i == last {
            assert forall|k: int| !occurs_at(hay@, needle@, k) by {}
            return false;
        }
        i = i + 1;
    }
    false
}

/// Replaces every occurrence of `from` in `s` by `to`.
pub fn replace(s: &str, from: &str, to: &str) -> (r: String)
    requires
        from@.len() > 0,
    ensures
        r@ == replaced(s@, from@, to@),
{
    let c = chars_of(s);
    let f = chars_of(from);
    let mut r = String::new();
    let mut i: usize = 0;
    assert(s@.skip(0) =~= s@);
    assert(r@ + replaced(s@, from@, to@) =~= replaced(s@, from@, to@));
    while f.len() <= c.len() - i
        invariant
            c@ == s@,
            f@ == from@,
            from@.len() > 0,
            i <= s@.len(),
            r@ + replaced(s@.skip(i as int), from@, to@) == replaced(s@, from@, to@),
        decreases c@.len() - i,
    {
        let ghost before = r@;
        let ghost here = s@.skip(i as int);
        assert(here.take(from@.len() as int) =~= s@.subrange(i as int, i + from@.len()));
        if matches_at(&c, &f, i) {
            r.append(to);
            i = i + f.len();
            assert(here.skip(from@.len() as int) =~= s@.skip(i as int));
            assert(before + (to@ + replaced(s@.skip(i as int), from@, to@)) =~= r@ + replaced(
                s@.skip(i as int),
                from@,
                to@,
            ));
        } else {
            r.append(s.substring_char(i, i + 1));
            i = i + 1;
            assert(here.skip(1) =~= s@.skip(i as int));
            assert(here.take(1) =~= s@.subrange(i - 1, i as int));
            assert(before + (here.take(1) + replaced(s@.skip(i as int), from@, to@)) =~= r@
                + replaced(s@.skip(i as int), from@, to@));
        }
    }
    r.append(s.substring_char(i, c.len()));
    assert(s@.subrange(i as int, s@.len() as int) =~= s@.skip(i as int));
    r
}

/// Whether a character counts as white space.
pub fn space(c: char) -> (r: bool)
    ensures
        r == is_space(c),
{
    let n: u32 = c as u32;
    (0x09 <= n && n <= 0x0d) || n == 0x20 || n == 0x85 || n == 0xa0 || n == 0x1680 || (0x2000 <= n
        && n <= 0x200a) || n == 0x2028 || n == 0x2029 || n == 0x202f || n == 0x205f || n == 0x3000
}

/// Where the first character at or behind `from` stands that is no white space.
pub fn skip_spaces(c: &Vec<char>, from: usize, to: usize) -> (r: usize)
    requires
        from <= to <= c@.len(),
    ensures
        from <= r <= to,
        trim_start(c@.subrange(from as int, to as int)) == c@.subrange(r as int, to as int),
        r < to ==> !is_space(c@[r as int]),
{
    let mut r: usize = from;
    while r < to && space(c[r])
        invariant
            from <= r <= to <= c@.len(),
            trim_start(c@.subrange(from as int, to as int)) == trim_start(
                c@.subrange(r as int, to as int),
            ),
        decreases to - r,
    {
        assert(c@.subrange(r as int, to as int).skip(1) =~= c@.subrange(r + 1, to as int));
        r = r + 1;
    }
    r
}

/// `s` without the white space on either side.
pub fn trim(s: &str) -> (r: String)
    ensures
        r@ == trimmed(s@),
{
    let c = chars_of(s);
    assert(c@.subrange(0, c@.len() as int) =~= s@);
    let start = skip_spaces(&c, 0, c.len());
    let mut end: usize = c.len();
    while end > start && space(c[end - 1])
        invariant
            c@ == s@,
            start <= end <= c@.len(),
            trimmed(s@) == trim_end(c@.subrange(start as int, end as int)),
        decreases end - start,
    {
        assert(c@.subrange(start as int, end as int).drop_last() =~= c@.subrange(
            start as int,
            end - 1,
        ));
        end = end - 1;
    }
    s.substring_char(start, end).to_owned()
}

/// The one-character string of a hexadecimal digit.
fn digit(d: u8) -> (r: &'static str)
    requires
        d < 16,
    ensures
        r@ == seq![digit_char(d as int)],
{
    proof {
        reveal_strlit("0");
        reveal_strlit("1");
        reveal_strlit("2");
        reveal_strlit("3");
        reveal_strlit("4");
        reveal_strlit("5");
        reveal_strlit("6");
        reveal_strlit("7");
        reveal_strlit("8");
        reveal_strlit("9");
        reveal_strlit("a");
        reveal_strlit("b");
        reveal_strlit("c");
        reveal_strlit("d");
        reveal_strlit("e");
        reveal_strlit("f");
    }
    let r = match d {
        0 => "0",
        1 => "1",
        2 => "2",
        3 => "3",
        4 => "4",
        5 => "5",
        6 => "6",
        7 => "7",
        8 => "8",
        9 => "9",
        10 => "a",
        11 => "b",
        12 => "c",
        13 => "d",
        14 => "e",
        _ => "f",
    };
    assert(r@ =~= seq![digit_char(d as int)]);
    r
}

/// Appends the decimal notation of `n`.
pub fn push_decimal(s: &mut String, n: u64)
    ensures
        final(s)@ == old(s)@ + decimal(n as nat),
    decreases n,
{
    if n >= 10 {
        push_decimal(s, n / 10);
    }
    s.append(digit((n % 10) as u8));
    assert(s@ =~= old(s)@ + decimal(n as nat));
}

/// Appends the decimal notation of `n`, with its sign where it is negative.
pub fn push_decimal_i32(s: &mut String, n: i32)
    ensures
        final(s)@ == old(s)@ + decimal_int(n as int),
{
    if n < 0 {
        proof {
            reveal_strlit("-");
        }
        s.append("-");
        push_decimal(s, (-(n as i64)) as u64);
        assert("-"@ =~= seq!['-']);
        assert(s@ =~= old(s)@ + decimal_int(n as int));
    } else {
        push_decimal(s, n as u64);
    }
}

/// Appends the two hexadecimal digits of `b`.
pub fn push_hex(s: &mut String, b: u8)
    ensures
        final(s)@ == old(s)@ + hex_byte(b),
{
    s.append(digit(b / 16));
    s.append(digit(b % 16));
    assert(s@ =~= old(s)@ + hex_byte(b));
}

/// Whether a text is made of decimal digits, at least one.
pub open spec fn is_digits(s: Seq<char>) -> bool {
    s.len() > 0 && forall|i: int| 0 <= i < s.len() ==> '0' <= #[trigger] s[i] <= '9'
}

/// The number that a row of digits stands for.
pub open spec fn number(s: Seq<char>) -> int
    decreases s.len(),
{
    if s.len() == 0 {
        0
    } else {
        10 * number(s.drop_last()) + (s.last() as int - '0' as int)
    }
}

/// Whether a text is how the number `n` is written: digits without a leading zero, behind a minus
/// sign where it is negative.
pub open spec fn notes(s: Seq<char>, n: int) -> bool {
    if n < 0 {
        s.len() > 1 && s[0] == '-' && s[1] != '0' && is_digits(s.skip(1)) && number(s.skip(1)) == -n
    } else {
        is_digits(s) && number(s) == n && (s.len() > 1 ==> s[0] != '0')
    }
}

/// Whether a text sets `key` to the number `n`: the key stands in it, then the number, then `next`.
pub open spec fn sets(text: Seq<char>, key: Seq<char>, n: int, next: Seq<char>) -> bool {
    exists|v: Seq<char>| notes(v, n) && occurs(text, #[trigger] (key + v) + next)
}

/// The decimal notation of a natural number reads back as that number.
pub proof fn decimal_reads_back(n: nat)
    ensures
        notes(decimal(n), n as int),
    decreases n,
{
    assert(number(Seq::<char>::empty()) == 0);
    let d = decimal(n);
    assert('0' <= d.last() <= '9' && d.last() as int - '0' as int == n % 10);
    if n >= 10 {
        decimal_reads_back(n / 10);
        let front = decimal(n / 10);
        assert(d.drop_last() =~= front);
        assert forall|i: int| 0 <= i < d.len() implies '0' <= #[trigger] d[i] <= '9' by {
            if i < front.len() {
                assert(d[i] == front[i]);
            }
        }
        assert(d[0] == front[0]);
        if front.len() == 1 {
            assert(front.drop_last() =~= Seq::empty());
            assert(number(front) == front[0] as int - '0' as int);
        }
    } else {
        assert(d.drop_last() =~= Seq::empty());
    }
}

/// The decimal notation of an integer reads back as that integer.
pub proof fn decimal_int_reads_back(n: int)
    ensures
        notes(decimal_int(n), n),
{
    if n < 0 {
        decimal_reads_back((-n) as nat);
        let d = decimal((-n) as nat);
        assert(decimal_int(n).skip(1) =~= d);
        if d.len() == 1 {
            assert(number(Seq::<char>::empty()) == 0);
            assert(d.drop_last() =~= Seq::empty());
            assert(number(d) == d[0] as int - '0' as int);
        }
    } else {
        decimal_reads_back(n as nat);
    }
}

/// The value of a hexadecimal digit.
pub open spec fn hex_value(c: char) -> int {
    if c <= '9' {
        c as int - '0' as int
    } else {
        c as int - 'a' as int + 10
    }
}

/// Two hexadecimal digits read back as the byte that they were written for.
pub proof fn hex_reads_back(b: u8)
    ensures
        hex_byte(b).len() == 2,
        16 * hex_value(hex_byte(b)[0]) + hex_value(hex_byte(b)[1]) == b,
        forall|i: int|
            0 <= i < 2 ==> ('0' <= #[trigger] hex_byte(b)[i] <= '9' || 'a' <= hex_byte(b)[i] <= 'f'),
{
}

/// Whether a text holds nothing but white space.
pub open spec fn is_blank(s: Seq<char>) -> bool {
    forall|i: int| 0 <= i < s.len() ==> is_space(#[trigger] s[i])
}

proof fn lemma_trim_start_cuts(s: Seq<char>) -> (n: int)
    ensures
        0 <= n <= s.len(),
        is_blank(s.take(n)),
        trim_start(s) == s.skip(n),
        n < s.len() ==> !is_space(s[n]),
    decreases s.len(),
{
    if s.len() > 0 && is_space(s[0]) {
        let rest = s.skip(1);
        let n = lemma_trim_start_cuts(rest);
        assert(rest.skip(n) =~= s.skip(n + 1));
        assert forall|i: int| 0 <= i < n + 1 implies is_space(#[trigger] s.take(n + 1)[i]) by {
            if i > 0 {
                assert(rest.take(n)[i - 1] == s[i]);
            }
        }
        if n < rest.len() {
            assert(rest[n] == s[n + 1]);
        }
        n + 1
    } else {
        assert(s.skip(0) =~= s);
        0
    }
}

proof fn lemma_trim_end_cuts(s: Seq<char>) -> (n: int)
    ensures
        0 <= n <= s.len(),
        is_blank(s.skip(n)),
        trim_end(s) == s.take(n),
        n > 0 ==> !is_space(s[n - 1]),
    decreases s.len(),
{
    if s.len() > 0 && is_space(s.last()) {
        let front = s.drop_last();
        let n = lemma_trim_end_cuts(front);
        assert(front.take(n) =~= s.take(n));
        assert forall|i: int| 0 <= i < s.skip(n).len() implies is_space(#[trigger] s.skip(n)[i]) by {
            if i < front.len() - n {
                assert(front.skip(n)[i] == s[n + i]);
            }
        }
        if n > 0 {
            assert(front[n - 1] == s[n - 1]);
        }
        n
    } else {
        let n = s.len() as int;
        assert(s.take(n) =~= s);
        n
    }
}

/// Trimming cuts white space off at either side, all of it, and nothing else.
pub proof fn trimming_cuts_only_space(s: Seq<char>)
    ensures
        exists|front: Seq<char>, back: Seq<char>|
            is_blank(front) && is_blank(back) && s == #[trigger] ((front + trimmed(s)) + back),
        trimmed(s).len() > 0 ==> !is_space(trimmed(s)[0]) && !is_space(trimmed(s).last()),
{
    let i = lemma_trim_start_cuts(s);
    let mid = s.skip(i);
    let j = lemma_trim_end_cuts(mid);
    let front = s.take(i);
    let back = mid.skip(j);
    assert(s =~= (front + trimmed(s)) + back);
}

/// A text that neither starts nor ends in space is what is left of it when space was put around it.
pub proof fn space_around_is_cut(front: Seq<char>, s: Seq<char>, back: Seq<char>)
    requires
        is_blank(front),
        is_blank(back),
        s.len() > 0,
        !is_space(s[0]),
        !is_space(s.last()),
    ensures
        trimmed(front + s + back) == s,
{
    let whole = front + s + back;
    let i = lemma_trim_start_cuts(whole);
    if i < front.len() {
        assert(whole[i] == front[i]);
    }
    if i > front.len() {
        assert(whole.take(i)[front.len() as int] == s[0]);
    }
    let mid = whole.skip(i);
    assert(mid =~= s + back);
    let j = lemma_trim_end_cuts(mid);
    if j > s.len() {
        assert(mid[j - 1] == back[j - 1 - s.len()]);
    }
    if j < s.len() {
        assert(mid.skip(j)[s.len() - 1 - j] == s.last());
    }
    assert(mid.take(j) =~= s);
}

/// Among the characters of ASCII, white space is the space and the five control characters from tab
/// to carriage return.
pub proof fn ascii_space(c: char)
    requires
        c as u32 <= 0x7f,
    ensures
        is_space(c) <==> c == ' ' || ('\t' <= c <= '\r'),
{
}

/// A text in which nothing is to be replaced stays as it is.
pub proof fn nothing_to_replace(s: Seq<char>, from: Seq<char>, to: Seq<char>)
    requires
        !occurs(s, from),
    ensures
        replaced(s, from, to) == s,
    decreases s.len(),
{
    if from.len() > 0 && s.len() >= from.len() {
        assert(s.subrange(0, from.len() as int) =~= s.take(from.len() as int));
        assert(!occurs_at(s, from, 0));
        let rest = s.skip(1);
        assert(!occurs(rest, from)) by {
            if occurs(rest, from) {
                let i = choose|i: int| occurs_at(rest, from, i);
                assert(rest.subrange(i, i + from.len()) =~= s.subrange(i + 1, i + 1 + from.len()));
                assert(occurs_at(s, from, i + 1));
            }
        }
        nothing_to_replace(rest, from, to);
        assert(s.take(1) + rest =~= s);
    }
}

/// What stands before the first place where `from` occurs stays, there `to` takes its place, and what
/// stands behind it is treated alike.
pub proof fn replacing_goes_from_left_to_right(
    before: Seq<char>,
    from: Seq<char>,
    after: Seq<char>,
    to: Seq<char>,
)
    requires
        from.len() > 0,
        forall|i: int| 0 <= i < before.len() ==> !#[trigger] occurs_at(before + from + after, from, i),
    ensures
        replaced(before + from + after, from, to) == before + to + replaced(after, from, to),
    decreases before.len(),
{
    let s = before + from + after;
    if before.len() == 0 {
        assert(s.take(from.len() as int) =~= from);
        assert(s.skip(from.len() as int) =~= after);
        assert(before + to + replaced(after, from, to) =~= to + replaced(after, from, to));
    } else {
        let rest = before.skip(1);
        let tail = rest + from + after;
        assert(s.skip(1) =~= tail);
        assert(!occurs_at(s, from, 0));
        assert(s.subrange(0, from.len() as int) =~= s.take(from.len() as int));
        assert forall|i: int| 0 <= i < rest.len() implies !#[trigger] occurs_at(tail, from, i) by {
            assert(!occurs_at(s, from, i + 1));
            assert(s.subrange(i + 1, i + 1 + from.len()) =~= tail.subrange(i, i + from.len()));
        }
        replacing_goes_from_left_to_right(rest, from, after, to);
        assert(s.take(1) + (rest + to + replaced(after, from, to)) =~= before + to + replaced(
            after,
            from,
            to,
        ));
    }
}

/// What stands in a row occurs in it.
pub proof fn parts_occur(front: Seq<char>, part: Seq<char>, back: Seq<char>)
    ensures
        occurs(front + part + back, part),
{
    let s = front + part + back;
    let i = front.len() as int;
    assert(s.subrange(i, i + part.len()) =~= part);
    assert(occurs_at(s, part, i));
}

/// A text in which a key, a number and what follows stand in a row sets the key to the number.
pub proof fn parts_set(
    front: Seq<char>,
    key: Seq<char>,
    v: Seq<char>,
    n: int,
    next: Seq<char>,
    back: Seq<char>,
)
    requires
        notes(v, n),
    ensures
        sets(front + key + v + next + back, key, n, next),
{
    parts_occur(front, (key + v) + next, back);
    assert(front + ((key + v) + next) + back =~= front + key + v + next + back);
}

/// Whether a text ends in `key` and the number `n`.
pub open spec fn ends_in(text: Seq<char>, key: Seq<char>, n: int) -> bool {
    exists|front: Seq<char>, v: Seq<char>| notes(v, n) && text == #[trigger] ((front + key) + v)
}

} // verus!
