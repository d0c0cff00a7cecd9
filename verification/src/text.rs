//! Text: splitting, trimming, replacing, and numbers in decimal.
use vstd::prelude::*;

verus! {

/// What a list of strings says.
pub open spec fn texts(v: Seq<String>) -> Seq<Seq<char>> {
    v.map_values(|x: String| x@)
}

/// Whether a character is white space (the Unicode property `White_Space`).
pub open spec fn is_white(c: char) -> bool {
    let n = c as u32;
    ||| 0x09 <= n <= 0x0d
    ||| n == 0x20
    ||| n == 0x85
    ||| n == 0xa0
    ||| n == 0x1680
    ||| 0x2000 <= n <= 0x200a
    ||| n == 0x2028
    ||| n == 0x2029
    ||| n == 0x202f
    ||| n == 0x205f
    ||| n == 0x3000
}

fn white(c: char) -> (b: bool)
    ensures
        b == is_white(c),
{
    let n: u32 = c as u32;
    (0x09 <= n && n <= 0x0d) || n == 0x20 || n == 0x85 || n == 0xa0 || n == 0x1680 || (0x2000 <= n
        && n <= 0x200a) || n == 0x2028 || n == 0x2029 || n == 0x202f || n == 0x205f || n == 0x3000
}

pub open spec fn trim_front(s: Seq<char>) -> Seq<char>
    decreases s.len(),
{
    if s.len() > 0 && is_white(s[0]) {
        trim_front(s.skip(1))
    } else {
        s
    }
}

pub open spec fn trim_back(s: Seq<char>) -> Seq<char>
    decreases s.len(),
{
    if s.len() > 0 && is_white(s.last()) {
        trim_back(s.drop_last())
    } else {
        s
    }
}

/// A text without the white space around it.
pub open spec fn trimmed(s: Seq<char>) -> Seq<char> {
    trim_back(trim_front(s))
}

pub fn trim(s: &str) -> (r: String)
    ensures
        r@ == trimmed(s@),
{
    let n: usize = s.unicode_len();
    let mut i: usize = 0;
    assert(s@.skip(0) =~= s@);
    while i < n && white(s.get_char(i))
        invariant
            n == s@.len(),
            i <= n,
            trim_front(s@) == trim_front(s@.skip(i as int)),
        decreases n - i,
    {
        assert(s@.skip(i as int).skip(1) =~= s@.skip(i + 1));
        i = i + 1;
    }
    let ghost front = s@.skip(i as int);
    assert(trim_front(s@) == front);
    let mut j: usize = n;
    assert(s@.subrange(i as int, n as int) =~= front);
    while i < j && white(s.get_char(j - 1))
        invariant
            n == s@.len(),
            i <= j <= n,
            trim_back(front) == trim_back(s@.subrange(i as int, j as int)),
        decreases j,
    {
        assert(s@.subrange(i as int, j as int).drop_last() =~= s@.subrange(i as int, j - 1));
        j = j - 1;
    }
    assert(trim_back(front) == s@.subrange(i as int, j as int));
    s.substring_char(i, j).to_owned()
}

/// Where `c` first stands in a text; the text's length if it does not.
pub open spec fn index_of(s: Seq<char>, c: char) -> nat
    decreases s.len(),
{
    if s.len() == 0 || s[0] == c {
        0
    } else {
        1 + index_of(s.skip(1), c)
    }
}

proof fn lemma_index_of(s: Seq<char>, c: char, i: int)
    requires
        0 <= i <= s.len(),
        forall|j: int| 0 <= j < i ==> s[j] != c,
        i < s.len() ==> s[i] == c,
    ensures
        index_of(s, c) == i,
    decreases s.len(),
{
    if i > 0 {
        assert(s[0] != c);
        assert forall|j: int| 0 <= j < i - 1 implies s.skip(1)[j] != c by {
            assert(s.skip(1)[j] == s[j + 1]);
        }
        lemma_index_of(s.skip(1), c, i - 1);
    }
}

proof fn lemma_index_of_is_first(s: Seq<char>, c: char)
    ensures
        index_of(s, c) <= s.len(),
        forall|j: int| 0 <= j < index_of(s, c) ==> s[j] != c,
        index_of(s, c) < s.len() ==> s[index_of(s, c) as int] == c,
    decreases s.len(),
{
    if s.len() > 0 && s[0] != c {
        lemma_index_of_is_first(s.skip(1), c);
        assert forall|j: int| 0 <= j < index_of(s, c) implies s[j] != c by {
            if j > 0 {
                assert(s.skip(1)[j - 1] == s[j]);
            }
        }
    }
}

/// A text cut at every `c`.
pub open spec fn split(s: Seq<char>, c: char) -> Seq<Seq<char>>
    decreases s.len(),
{
    let i = index_of(s, c);
    if i < s.len() {
        seq![s.take(i as int)] + split(s.skip(i as int + 1), c)
    } else {
        seq![s]
    }
}

/// A text cut at `c` into at most `n` pieces: the last one may still hold a `c`.
pub open spec fn split_n(s: Seq<char>, c: char, n: nat) -> Seq<Seq<char>>
    decreases s.len(),
{
    let i = index_of(s, c);
    if i < s.len() && n > 1 {
        seq![s.take(i as int)] + split_n(s.skip(i as int + 1), c, (n - 1) as nat)
    } else {
        seq![s]
    }
}

proof fn lemma_split_n_of_enough(s: Seq<char>, c: char, n: nat)
    requires
        n > s.len(),
    ensures
        split_n(s, c, n) == split(s, c),
    decreases s.len(),
{
    let i = index_of(s, c);
    if i < s.len() {
        lemma_split_n_of_enough(s.skip(i as int + 1), c, (n - 1) as nat);
    }
}

proof fn lemma_split_n_step(s: Seq<char>, c: char, n: nat, start: int, i: int)
    requires
        0 <= start <= i < s.len(),
        n > 1,
        forall|j: int| start <= j < i ==> s[j] != c,
        s[i] == c,
    ensures
        split_n(s.skip(start), c, n) == seq![s.subrange(start, i)] + split_n(
            s.skip(i + 1),
            c,
            (n - 1) as nat,
        ),
{
    let t = s.skip(start);
    assert forall|j: int| 0 <= j < i - start implies t[j] != c by {
        assert(t[j] == s[start + j]);
    }
    assert(t[i - start] == s[i]);
    lemma_index_of(t, c, i - start);
    assert(t.take(i - start) =~= s.subrange(start, i));
    assert(t.skip(i - start + 1) =~= s.skip(i + 1));
}

/// Cuts a text at `c` into at most `n` pieces.
pub fn split_into(s: &str, c: char, n: usize) -> (v: Vec<String>)
    requires
        n > 0,
    ensures
        texts(v@) == split_n(s@, c, n as nat),
{
    let len: usize = s.unicode_len();
    let mut v: Vec<String> = Vec::new();
    let mut start: usize = 0;
    let mut i: usize = 0;
    assert(s@.skip(0) =~= s@);
    assert(texts(v@) + split_n(s@.skip(0), c, n as nat) =~= split_n(s@, c, n as nat));
    while i < len
        invariant
            n > 0,
            len == s@.len(),
            start <= i <= len,
            v@.len() < n,
            forall|j: int| start <= j < i && v@.len() + 1 < n ==> s@[j] != c,
            split_n(s@, c, n as nat) == texts(v@) + split_n(
                s@.skip(start as int),
                c,
                (n - v@.len()) as nat,
            ),
        decreases len - i,
    {
        if v.len() + 1 < n && s.get_char(i) == c {
            let ghost before = v@;
            proof {
                lemma_split_n_step(
                    s@,
                    c,
                    (n - v@.len()) as nat,
                    start as int,
                    i as int,
                );
            }
            v.push(s.substring_char(start, i).to_owned());
            start = i + 1;
            proof {
                let piece = v@.last()@;
                assert(texts(v@) =~= texts(before).push(piece));
                assert(texts(before) + (seq![piece] + split_n(
                    s@.skip(start as int),
                    c,
                    (n - v@.len()) as nat,
                )) =~= texts(v@) + split_n(s@.skip(start as int), c, (n - v@.len()) as nat));
            }
        }
        i = i + 1;
    }
    let ghost before = v@;
    let last = s.substring_char(start, len).to_owned();
    v.push(last);
    proof {
        let rest = s@.skip(start as int);
        assert(last@ =~= rest);
        if before.len() + 1 < n {
            assert forall|j: int| 0 <= j < rest.len() implies rest[j] != c by {
                assert(rest[j] == s@[start + j]);
            }
            lemma_index_of(rest, c, rest.len() as int);
        }
        assert(split_n(rest, c, (n - before.len()) as nat) =~= seq![rest]);
        assert(texts(v@) =~= texts(before) + seq![rest]);
    }
    v
}

/// Cuts a text at every `c`.
pub fn split_all(s: &str, c: char) -> (v: Vec<String>)
    requires
        s@.len() < usize::MAX,
    ensures
        texts(v@) == split(s@, c),
{
    let n: usize = s.unicode_len();
    proof {
        lemma_split_n_of_enough(s@, c, (n + 1) as nat);
    }
    split_into(s, c, n + 1)
}

/// Pieces with `c` between them.
pub open spec fn joined(pieces: Seq<Seq<char>>, c: char) -> Seq<char>
    decreases pieces.len(),
{
    if pieces.len() == 0 {
        Seq::empty()
    } else if pieces.len() == 1 {
        pieces[0]
    } else {
        pieces[0] + seq![c] + joined(pieces.skip(1), c)
    }
}

/// Cutting a text loses nothing: the pieces with the separator between them are the text, and no
/// piece holds the separator.
pub proof fn law_split_is_undone_by_joining(s: Seq<char>, c: char)
    ensures
        joined(split(s, c), c) == s,
        forall|k: int| 0 <= k < split(s, c).len() ==> !(#[trigger] split(s, c)[k]).contains(c),
    decreases s.len(),
{
    lemma_index_of_is_first(s, c);
    let i = index_of(s, c);
    if i < s.len() {
        let rest = s.skip(i as int + 1);
        law_split_is_undone_by_joining(rest, c);
        let p = split(s, c);
        assert(p.len() == 1 + split(rest, c).len());
        assert(split(rest, c).len() > 0);
        assert(p.skip(1) =~= split(rest, c));
        assert(s =~= s.take(i as int) + seq![c] + rest);
        assert forall|k: int| 0 <= k < p.len() implies !(#[trigger] p[k]).contains(c) by {
            if k > 0 {
                assert(p[k] == split(rest, c)[k - 1]);
            } else if p[0].contains(c) {
                let j = choose|j: int| 0 <= j < p[0].len() && p[0][j] == c;
                assert(s[j] == c);
            }
        }
    } else if s.contains(c) {
        let j = choose|j: int| 0 <= j < s.len() && s[j] == c;
        assert(s[j] != c);
    }
}

/// What stands before and behind a separator is cut on its own.
pub proof fn lemma_split_halves(a: Seq<char>, c: char, b: Seq<char>)
    ensures
        split(a + seq![c] + b, c) == split(a, c) + split(b, c),
    decreases a.len(),
{
    let s = a + seq![c] + b;
    lemma_index_of_is_first(a, c);
    let i = index_of(a, c);
    assert forall|j: int| 0 <= j < i implies s[j] != c by {
        assert(s[j] == a[j]);
    }
    lemma_index_of(s, c, i as int);
    assert(s.take(i as int) =~= a.take(i as int));
    if i < a.len() {
        let rest = a.skip(i as int + 1);
        lemma_split_halves(rest, c, b);
        assert(s.skip(i as int + 1) =~= rest + seq![c] + b);
        assert(seq![a.take(i as int)] + (split(rest, c) + split(b, c)) =~= seq![a.take(i as int)]
            + split(rest, c) + split(b, c));
    } else {
        assert(a.take(i as int) =~= a);
        assert(s.skip(i as int + 1) =~= b);
    }
}

/// Where `c` last stands in a text, if it does.
pub open spec fn last_index_of(s: Seq<char>, c: char) -> Option<nat>
    decreases s.len(),
{
    if s.len() == 0 {
        None
    } else if s.last() == c {
        Some((s.len() - 1) as nat)
    } else {
        last_index_of(s.drop_last(), c)
    }
}

/// What stands before and after the last `c`.
pub fn split_last(s: &str, c: char) -> (r: Option<(String, String)>)
    ensures
        match r {
            Some((before, after)) => last_index_of(s@, c) matches Some(i) && before@ == s@.take(
                i as int,
            ) && after@ == s@.skip(i as int + 1),
            None => last_index_of(s@, c) is None,
        },
{
    let len: usize = s.unicode_len();
    let mut i: usize = len;
    assert(s@.take(i as int) =~= s@);
    while i > 0
        invariant
            len == s@.len(),
            i <= len,
            last_index_of(s@, c) == last_index_of(s@.take(i as int), c),
        decreases i,
    {
        assert(s@.take(i as int).last() == s@[i - 1]);
        assert(s@.take(i as int).drop_last() =~= s@.take(i - 1));
        if s.get_char(i - 1) == c {
            let before = s.substring_char(0, i - 1).to_owned();
            let after = s.substring_char(i, len).to_owned();
            assert(before@ =~= s@.take(i - 1));
            assert(after@ =~= s@.skip(i as int));
            return Some((before, after));
        }
        i = i - 1;
    }
    None
}

pub open spec fn starts_with(s: Seq<char>, p: Seq<char>) -> bool {
    p.len() <= s.len() && s.take(p.len() as int) == p
}

/// Whether `p` stands in `s` at `at`.
pub fn stands_at(s: &str, p: &str, at: usize) -> (b: bool)
    requires
        at <= s@.len(),
    ensures
        b == starts_with(s@.skip(at as int), p@),
{
    let n: usize = s.unicode_len();
    let m: usize = p.unicode_len();
    let ghost t = s@.skip(at as int);
    if m > n - at {
        return false;
    }
    let mut i: usize = 0;
    while i < m
        invariant
            at <= n,
            n == s@.len(),
            m == p@.len(),
            m <= n - at,
            t == s@.skip(at as int),
            i <= m,
            forall|j: int| 0 <= j < i ==> t[j] == p@[j],
        decreases m - i,
    {
        if s.get_char(at + i) != p.get_char(i) {
            assert(t[i as int] != p@[i as int]);
            assert(t.take(m as int)[i as int] != p@[i as int]);
            return false;
        }
        i = i + 1;
    }
    assert(t.take(m as int) =~= p@);
    true
}

/// What follows a prefix.
pub fn after_prefix(s: &str, p: &str) -> (r: Option<String>)
    ensures
        match r {
            Some(rest) => starts_with(s@, p@) && rest@ == s@.skip(p@.len() as int),
            None => !starts_with(s@, p@),
        },
{
    assert(s@.skip(0) =~= s@);
    if stands_at(s, p, 0) {
        let rest = s.substring_char(p.unicode_len(), s.unicode_len()).to_owned();
        assert(rest@ =~= s@.skip(p@.len() as int));
        Some(rest)
    } else {
        None
    }
}

/// A text with `to` in place of every `from`, taken from the left.
pub open spec fn replaced(s: Seq<char>, from: Seq<char>, to: Seq<char>) -> Seq<char>
    recommends
        from.len() > 0,
    decreases s.len(),
{
    if from.len() == 0 || s.len() < from.len() {
        s
    } else if starts_with(s, from) {
        to + replaced(s.skip(from.len() as int), from, to)
    } else {
        seq![s[0]] + replaced(s.skip(1), from, to)
    }
}

/// Puts `to` in place of every `from`.
pub fn replace(s: &str, from: &str, to: &str) -> (r: String)
    requires
        from@.len() > 0,
    ensures
        r@ == replaced(s@, from@, to@),
{
    let n: usize = s.unicode_len();
    let m: usize = from.unicode_len();
    let mut r = String::new();
    let mut i: usize = 0;
    assert(s@.skip(0) =~= s@);
    assert(r@ + replaced(s@.skip(0), from@, to@) =~= replaced(s@, from@, to@));
    while m <= n - i
        invariant
            n == s@.len(),
            m == from@.len(),
            m > 0,
            i <= n,
            replaced(s@, from@, to@) == r@ + replaced(s@.skip(i as int), from@, to@),
        decreases n - i,
    {
        let ghost rest = s@.skip(i as int);
        let ghost done = r@;
        if stands_at(s, from, i) {
            assert(rest.skip(m as int) =~= s@.skip(i + m));
            r.append(to);
            i = i + m;
            assert(done + (to@ + replaced(s@.skip(i as int), from@, to@)) =~= r@ + replaced(
                s@.skip(i as int),
                from@,
                to@,
            ));
        } else {
            assert(rest.skip(1) =~= s@.skip(i + 1));
            r.append(s.substring_char(i, i + 1));
            assert(s@.subrange(i as int, i + 1) =~= seq![rest[0]]);
            i = i + 1;
            assert(done + (seq![rest[0]] + replaced(s@.skip(i as int), from@, to@)) =~= r@
                + replaced(s@.skip(i as int), from@, to@));
        }
    }
    r.append(s.substring_char(i, n));
    assert(s@.subrange(i as int, n as int) =~= s@.skip(i as int));
    r
}

/// The character of a decimal digit.
pub open spec fn digit(d: nat) -> char {
    if d == 0 {
        '0'
    } else if d == 1 {
        '1'
    } else if d == 2 {
        '2'
    } else if d == 3 {
        '3'
    } else if d == 4 {
        '4'
    } else if d == 5 {
        '5'
    } else if d == 6 {
        '6'
    } else if d == 7 {
        '7'
    } else if d == 8 {
        '8'
    } else {
        '9'
    }
}

/// A number in decimal.
pub open spec fn dec(n: nat) -> Seq<char>
    decreases n,
{
    if n < 10 {
        seq![digit(n)]
    } else {
        dec(n / 10).push(digit(n % 10))
    }
}

/// A number that may be negative, in decimal.
pub open spec fn dec_signed(n: int) -> Seq<char> {
    if n < 0 {
        seq!['-'] + dec((-n) as nat)
    } else {
        dec(n as nat)
    }
}

fn append_digit(s: &mut String, d: u128)
    requires
        d < 10,
    ensures
        final(s)@ == old(s)@.push(digit(d as nat)),
{
    let t: &str = if d == 0 {
        "0"
    } else if d == 1 {
        "1"
    } else if d == 2 {
        "2"
    } else if d == 3 {
        "3"
    } else if d == 4 {
        "4"
    } else if d == 5 {
        "5"
    } else if d == 6 {
        "6"
    } else if d == 7 {
        "7"
    } else if d == 8 {
        "8"
    } else {
        "9"
    };
    proof {
        reveal_strlit("0");
        reveal_strlit("1");
        reveal_strlit("2");
        reveal_strlit("3");
        reveal_strlit("4");
        reveal_strlit("5");
        reveal_strlit("6");
        reveal_strlit("7");
        reveal_strlit("8");
        reveal_strlit("9");
        assert(t@ =~= seq![digit(d as nat)]);
    }
    s.append(t);
    assert(s@ =~= old(s)@.push(digit(d as nat)));
}

/// Writes a number in decimal.
pub fn decimal(n: u128) -> (r: String)
    ensures
        r@ == dec(n as nat),
    decreases n,
{
    let mut s = if n < 10 {
        String::new()
    } else {
        decimal(n / 10)
    };
    append_digit(&mut s, n % 10);
    assert(s@ =~= dec(n as nat));
    s
}

/// Writes a number that may be negative in decimal.
pub fn decimal_signed(n: i128) -> (r: String)
    requires
        n > i128::MIN,
    ensures
        r@ == dec_signed(n as int),
{
    if n < 0 {
        proof {
            reveal_strlit("-");
        }
        let mut s = "-".to_owned();
        s.append(decimal((-n) as u128).as_str());
        assert(s@ =~= dec_signed(n as int));
        s
    } else {
        decimal(n as u128)
    }
}

/// The value of a decimal digit.
pub open spec fn digit_value(c: char) -> Option<nat> {
    let n = c as u32;
    if 48 <= n <= 57 {
        Some((n - 48) as nat)
    } else {
        None
    }
}

/// The value of a text of digits; `None` if a character is no digit.
pub open spec fn digits_value(s: Seq<char>) -> Option<nat>
    decreases s.len(),
{
    if s.len() == 0 {
        Some(0)
    } else {
        match (digits_value(s.drop_last()), digit_value(s.last())) {
            (Some(v), Some(d)) => Some(v * 10 + d),
            _ => None,
        }
    }
}

/// The number that a text says: digits, at least one, with or without a plus before them.
pub open spec fn number(s: Seq<char>) -> Option<nat> {
    let t = if s.len() > 0 && s[0] == '+' {
        s.skip(1)
    } else {
        s
    };
    if t.len() == 0 {
        None
    } else {
        digits_value(t)
    }
}

proof fn lemma_digits_value_grows(s: Seq<char>, i: int)
    requires
        0 <= i <= s.len(),
    ensures
        digits_value(s) matches Some(v) ==> digits_value(s.take(i)) matches Some(w) && w <= v,
    decreases s.len(),
{
    if i == s.len() {
        assert(s.take(i) =~= s);
    } else {
        lemma_digits_value_grows(s.drop_last(), i);
        assert(s.drop_last().take(i) =~= s.take(i));
    }
}

/// Reads a number that is at most `max`.
pub fn parse_number(s: &str, max: u64) -> (r: Option<u64>)
    ensures
        match r {
            Some(v) => number(s@) == Some(v as nat) && v <= max,
            None => number(s@) matches Some(v) ==> v > max,
        },
{
    let n: usize = s.unicode_len();
    let start: usize = if n > 0 && s.get_char(0) == '+' {
        1
    } else {
        0
    };
    if start == n {
        return None;
    }
    let ghost t = s@.skip(start as int);
    proof {
        if start == 0 {
            assert(t =~= s@);
        }
    }
    let mut v: u128 = 0;
    let mut i: usize = start;
    assert(t.take(0).len() == 0);
    while i < n
        invariant
            n == s@.len(),
            start <= i <= n,
            t == s@.skip(start as int),
            number(s@) == digits_value(t),
            digits_value(t.take(i - start)) == Some(v as nat),
            v <= max,
        decreases n - i,
    {
        let c = s.get_char(i) as u32;
        proof {
            assert(t.take(i + 1 - start).drop_last() =~= t.take(i - start));
            assert(t.take(i + 1 - start).last() == s@[i as int]);
            lemma_digits_value_grows(t, i + 1 - start);
        }
        if c < 48 || c > 57 {
            return None;
        }
        v = v * 10 + (c - 48) as u128;
        if v > max as u128 {
            return None;
        }
        i = i + 1;
    }
    assert(t.take(n - start) =~= t);
    Some(v as u64)
}

/// A number written in decimal reads back as itself.
pub proof fn law_decimal_reads_back(n: nat)
    ensures
        number(dec(n)) == Some(n),
{
    lemma_dec(n);
}

proof fn lemma_dec(n: nat)
    ensures
        dec(n).len() > 0,
        dec(n)[0] != '+',
        digits_value(dec(n)) == Some(n),
    decreases n,
{
    if n >= 10 {
        lemma_dec(n / 10);
        assert(dec(n).drop_last() =~= dec(n / 10));
        assert(dec(n)[0] == dec(n / 10)[0]);
    } else {
        assert(dec(n).drop_last() =~= Seq::<char>::empty());
        assert(digits_value(dec(n).drop_last()) == Some(0nat));
    }
}

/// A text without the white space around it has none at its ends, and what was taken off at either
/// end is white space alone.
pub proof fn law_trimming_takes_white_space_off(s: Seq<char>)
    ensures
        trimmed(s).len() > 0 ==> !is_white(trimmed(s)[0]) && !is_white(trimmed(s).last()),
        exists|a: int, b: int| #[trigger] cut_out(s, a, b, trimmed(s)),
{
    lemma_trim_front(s);
    let f = trim_front(s);
    lemma_trim_back(f);
    let a = s.len() - f.len();
    let t = trimmed(s);
    let b = a + t.len();
    if t.len() > 0 {
        assert(t[0] == f[0]);
    }
    assert(s.subrange(a, b) =~= t);
    assert forall|i: int| b <= i < s.len() implies is_white(#[trigger] s[i]) by {
        assert(f[i - a] == s[i]);
    }
    assert(cut_out(s, a, b, t));
}

/// `t` is what stands in `s` from `a` up to `b`, with nothing but white space around it.
pub open spec fn cut_out(s: Seq<char>, a: int, b: int, t: Seq<char>) -> bool {
    &&& 0 <= a <= b <= s.len()
    &&& t == s.subrange(a, b)
    &&& forall|i: int| 0 <= i < a ==> is_white(#[trigger] s[i])
    &&& forall|i: int| b <= i < s.len() ==> is_white(#[trigger] s[i])
}

proof fn lemma_trim_front(s: Seq<char>)
    ensures
        trim_front(s).len() <= s.len(),
        trim_front(s) == s.skip(s.len() - trim_front(s).len()),
        forall|i: int| 0 <= i < s.len() - trim_front(s).len() ==> is_white(#[trigger] s[i]),
        trim_front(s).len() > 0 ==> !is_white(trim_front(s)[0]),
    decreases s.len(),
{
    if s.len() > 0 && is_white(s[0]) {
        let r = s.skip(1);
        lemma_trim_front(r);
        let n = s.len() - trim_front(s).len();
        assert(r.skip(n - 1) =~= s.skip(n));
        assert forall|i: int| 0 <= i < n implies is_white(#[trigger] s[i]) by {
            if i > 0 {
                assert(r[i - 1] == s[i]);
            }
        }
    } else {
        assert(s.skip(0) =~= s);
    }
}

proof fn lemma_trim_back(s: Seq<char>)
    ensures
        trim_back(s).len() <= s.len(),
        trim_back(s) == s.take(trim_back(s).len() as int),
        forall|i: int| trim_back(s).len() <= i < s.len() ==> is_white(#[trigger] s[i]),
        trim_back(s).len() > 0 ==> !is_white(trim_back(s).last()),
    decreases s.len(),
{
    if s.len() > 0 && is_white(s.last()) {
        let r = s.drop_last();
        lemma_trim_back(r);
        let n = trim_back(s).len() as int;
        assert(r.take(n) =~= s.take(n));
        assert forall|i: int| n <= i < s.len() implies is_white(#[trigger] s[i]) by {
            if i < r.len() {
                assert(r[i] == s[i]);
            }
        }
    } else {
        assert(s.take(s.len() as int) =~= s);
    }
}

/// Cutting a text into at most some pieces loses nothing either: there are no more pieces than
/// asked for, they give the text back with the separator between them, and only the last one may
/// still hold it.
pub proof fn law_limited_split_is_undone_by_joining(s: Seq<char>, c: char, n: nat)
    requires
        n > 0,
    ensures
        0 < split_n(s, c, n).len() <= n,
        joined(split_n(s, c, n), c) == s,
        forall|k: int|
            0 <= k < split_n(s, c, n).len() - 1 ==> !(#[trigger] split_n(s, c, n)[k]).contains(c),
        split_n(s, c, n).len() < n ==> !split_n(s, c, n).last().contains(c),
    decreases s.len(),
{
    lemma_index_of_is_first(s, c);
    let i = index_of(s, c);
    let p = split_n(s, c, n);
    if i < s.len() && n > 1 {
        let rest = s.skip(i as int + 1);
        let q = split_n(rest, c, (n - 1) as nat);
        law_limited_split_is_undone_by_joining(rest, c, (n - 1) as nat);
        assert(p.skip(1) =~= q);
        assert(s =~= s.take(i as int) + seq![c] + rest);
        assert(p.last() == q.last());
        assert forall|k: int| 0 <= k < p.len() - 1 implies !(#[trigger] p[k]).contains(c) by {
            if k == 0 {
                assert(p[0] == s.take(i as int));
            } else {
                assert(p[k] == q[k - 1]);
            }
        }
    } else {
        assert(p =~= seq![s]);
        if n > 1 {
            assert(!s.contains(c));
        }
    }
}

/// The last place of a character is one where it stands, and none behind it is; there is none
/// exactly where the character does not stand in the text.
pub proof fn law_the_last_place_of_a_character(s: Seq<char>, c: char)
    ensures
        match last_index_of(s, c) {
            Some(i) => i < s.len() && s[i as int] == c && forall|j: int|
                i < j < s.len() ==> s[j] != c,
            None => !s.contains(c),
        },
    decreases s.len(),
{
    if s.len() > 0 && s.last() != c {
        let r = s.drop_last();
        law_the_last_place_of_a_character(r, c);
        match last_index_of(r, c) {
            Some(i) => {
                assert(r[i as int] == s[i as int]);
                assert forall|j: int| i < j < s.len() implies s[j] != c by {
                    if j < r.len() {
                        assert(r[j] == s[j]);
                    }
                }
            },
            None => {
                if s.contains(c) {
                    let j = choose|j: int| 0 <= j < s.len() && s[j] == c;
                    assert(r[j] == c);
                }
            },
        }
    }
}

/// What is replaced is every place where the one text stands, taken from the front without an
/// overlap: what stands before the first of them stays, the other text comes in its place, and what
/// stands behind is dealt with in the same way. A text in which it stands nowhere stays as it is.
pub proof fn law_replacing_goes_from_the_front(
    a: Seq<char>,
    from: Seq<char>,
    to: Seq<char>,
    b: Seq<char>,
)
    requires
        from.len() > 0,
    ensures
        (forall|i: int| 0 <= i < a.len() ==> !starts_with(#[trigger] (a + from + b).skip(i), from))
            ==> replaced(a + from + b, from, to) == a + to + replaced(b, from, to),
        (forall|i: int| 0 <= i < a.len() ==> !starts_with(#[trigger] a.skip(i), from)) ==> replaced(
            a,
            from,
            to,
        ) == a,
    decreases a.len(),
{
    let s = a + from + b;
    if forall|i: int| 0 <= i < a.len() ==> !starts_with(#[trigger] (a + from + b).skip(i), from) {
        if a.len() == 0 {
            assert(s =~= from + b);
            assert(s.take(from.len() as int) =~= from);
            assert(s.skip(from.len() as int) =~= b);
            assert(a + to + replaced(b, from, to) =~= to + replaced(b, from, to));
        } else {
            let r = a.skip(1);
            assert(s.skip(0) =~= s);
            assert(!starts_with(s.skip(0), from));
            assert(s.skip(1) =~= r + from + b);
            assert forall|i: int| 0 <= i < r.len() implies !starts_with(
                #[trigger] (r + from + b).skip(i),
                from,
            ) by {
                assert((r + from + b).skip(i) =~= s.skip(i + 1));
                assert(!starts_with(s.skip(i + 1), from));
            }
            law_replacing_goes_from_the_front(r, from, to, b);
            assert(seq![s[0]] + (r + to + replaced(b, from, to)) =~= a + to + replaced(b, from, to));
        }
    }
    if forall|i: int| 0 <= i < a.len() ==> !starts_with(#[trigger] a.skip(i), from) {
        if a.len() >= from.len() {
            let r = a.skip(1);
            assert(a.skip(0) =~= a);
            assert(!starts_with(a.skip(0), from));
            assert forall|i: int| 0 <= i < r.len() implies !starts_with(
                #[trigger] r.skip(i),
                from,
            ) by {
                assert(r.skip(i) =~= a.skip(i + 1));
                assert(!starts_with(a.skip(i + 1), from));
            }
            law_replacing_goes_from_the_front(r, from, to, b);
            assert(seq![a[0]] + r =~= a);
        }
    }
}

/// A text starts with another exactly where the other and something behind it make it up.
pub proof fn law_a_text_starts_with_its_front(a: Seq<char>, b: Seq<char>, p: Seq<char>)
    ensures
        starts_with(a + b, a),
        starts_with(b, p) ==> b == p + b.skip(p.len() as int),
{
    assert((a + b).take(a.len() as int) =~= a);
    if starts_with(b, p) {
        assert(b =~= b.take(p.len() as int) + b.skip(p.len() as int));
    }
}

/// Decimal numbers hold digits alone, and no two numbers are written alike; a negative one has a
/// minus before it.
pub proof fn law_decimal_holds_digits(n: int, m: int)
    ensures
        forall|i: int| 0 <= i < dec_signed(n).len() ==> {
            let c = #[trigger] dec_signed(n)[i];
            '0' <= c <= '9' || (c == '-' && i == 0 && n < 0)
        },
        n < 0 ==> dec_signed(n)[0] == '-' && dec_signed(n).skip(1) == dec((-n) as nat),
        n >= 0 ==> dec_signed(n) == dec(n as nat),
        dec_signed(n) == dec_signed(m) ==> n == m,
        dec_signed(n).len() > 0,
{
    let a = if n < 0 {
        -n
    } else {
        n
    };
    let b = if m < 0 {
        -m
    } else {
        m
    };
    lemma_dec(a as nat);
    lemma_dec(b as nat);
    lemma_dec_digits(a as nat);
    lemma_dec_digits(b as nat);
    if n < 0 {
        assert(dec_signed(n).skip(1) =~= dec(a as nat));
    }
    if m < 0 {
        assert(dec_signed(m).skip(1) =~= dec(b as nat));
    }
    assert forall|i: int| 0 <= i < dec_signed(n).len() implies ({
        let c = #[trigger] dec_signed(n)[i];
        '0' <= c <= '9' || (c == '-' && i == 0 && n < 0)
    }) by {
        if n < 0 {
            if i > 0 {
                assert(dec_signed(n)[i] == dec(a as nat)[i - 1]);
            }
        } else {
            assert(dec_signed(n)[i] == dec(a as nat)[i]);
        }
    }
    if dec_signed(n) == dec_signed(m) {
        if n < 0 {
            assert(dec_signed(m)[0] == '-');
            assert(m < 0) by {
                if m >= 0 {
                    assert('0' <= dec(b as nat)[0] <= '9');
                }
            }
        } else if m < 0 {
            assert('0' <= dec(a as nat)[0] <= '9');
        }
    }
}

proof fn lemma_dec_digits(n: nat)
    ensures
        forall|i: int| 0 <= i < dec(n).len() ==> '0' <= #[trigger] dec(n)[i] <= '9',
    decreases n,
{
    if n >= 10 {
        lemma_dec_digits(n / 10);
        let r = dec(n / 10);
        assert forall|i: int| 0 <= i < dec(n).len() implies '0' <= #[trigger] dec(n)[i] <= '9' by {
            if i < r.len() {
                assert(dec(n)[i] == r[i]);
            }
        }
    }
}

/// A plus before a number does not count, one digit more makes it ten times as large and adds the
/// digit, and a text with anything else in it is no number.
pub proof fn law_numbers_are_read_digit_by_digit(s: Seq<char>, c: char, d: nat)
    requires
        d < 10,
    ensures
        s.len() > 0 && s[0] != '+' ==> number(seq!['+'] + s) == number(s),
        number(s) matches Some(v) ==> number(s.push(digit(d))) == Some((v * 10 + d) as nat),
        s.len() > 0 && !('0' <= c <= '9') ==> number(s.push(c)) is None,
        number(Seq::empty()) is None,
        number(seq!['+']) is None,
{
    if s.len() > 0 && s[0] != '+' {
        assert((seq!['+'] + s).skip(1) =~= s);
    }
    let t = s.push(digit(d));
    if number(s) is Some {
        if s[0] == '+' {
            assert(t.skip(1).drop_last() =~= s.skip(1));
            assert(t.skip(1).last() == digit(d));
        } else {
            assert(t.drop_last() =~= s);
        }
    }
    if s.len() > 0 && !('0' <= c <= '9') {
        let u = s.push(c);
        if s[0] == '+' {
            assert(u.skip(1).last() == c);
        } else {
            assert(u.last() == c);
        }
    }
}

/// A text without the separator is one piece.
pub proof fn lemma_split_of_one(s: Seq<char>, c: char)
    requires
        !s.contains(c),
    ensures
        split(s, c) == seq![s],
{
    lemma_index_of_is_first(s, c);
    if index_of(s, c) < s.len() {
        assert(s.contains(s[index_of(s, c) as int]));
    }
}

/// A text without the separator is one piece, however many are asked for.
pub proof fn lemma_split_n_of_one(s: Seq<char>, c: char, n: nat)
    requires
        !s.contains(c),
    ensures
        split_n(s, c, n) == seq![s],
{
    lemma_index_of_is_first(s, c);
    if index_of(s, c) < s.len() {
        assert(s.contains(s[index_of(s, c) as int]));
    }
}

/// What stands before the first separator is the first piece.
pub proof fn lemma_split_n_front(a: Seq<char>, c: char, b: Seq<char>, n: nat)
    requires
        !a.contains(c),
        n > 1,
    ensures
        split_n(a + seq![c] + b, c, n) == seq![a] + split_n(b, c, (n - 1) as nat),
{
    let s = a + seq![c] + b;
    let i = a.len() as int;
    assert forall|j: int| 0 <= j < i implies s[j] != c by {
        assert(s[j] == a[j]);
    }
    lemma_index_of(s, c, i);
    assert(s.take(i) =~= a);
    assert(s.skip(i + 1) =~= b);
}

/// Of the characters of one byte exactly the blank, the tabs, the line ends and the form feed are
/// white space; of the others no letter and no digit is.
pub proof fn law_white_space_of_one_byte(c: char)
    ensures
        (c as u32) < 128 ==> (is_white(c) <==> c == ' ' || c == '\t' || c == '\n' || c == '\r' || c
            as u32 == 11 || c as u32 == 12),
        'a' <= c <= 'z' || 'A' <= c <= 'Z' || '0' <= c <= '9' ==> !is_white(c),
        is_white(c) ==> c as u32 <= 0x3000,
{
}

} // verus!
