//! Text handling: cutting, trimming and reading numbers out of strings.
//!
//! A string is modelled by the sequence of its characters.
use vstd::prelude::*;
use vstd::string::*;

verus! {

/// The position of the first `c` in `s`, or the length of `s` where there is none.
pub open spec fn first_index_of(s: Seq<char>, c: char) -> int
    decreases s.len(),
{
    if s.len() == 0 || s[0] == c {
        0
    } else {
        1 + first_index_of(s.skip(1), c)
    }
}

/// `s` cut at the first `c`, which neither side keeps.
pub open spec fn split_once(s: Seq<char>, c: char) -> Option<(Seq<char>, Seq<char>)> {
    let i = first_index_of(s, c);
    if i < s.len() {
        Some((s.take(i), s.skip(i + 1)))
    } else {
        None
    }
}

/// The pieces of `s` between the occurrences of `c`: always one more than there are of `c`.
pub open spec fn split_all(s: Seq<char>, c: char) -> Seq<Seq<char>>
    decreases s.len(),
{
    let i = first_index_of(s, c);
    if 0 <= i < s.len() {
        seq![s.take(i)] + split_all(s.skip(i + 1), c)
    } else {
        seq![s]
    }
}

/// The characters with the Unicode property `White_Space`.
pub open spec fn is_white_space(c: char) -> bool {
    let n = c as u32;
    ||| 0x9 <= n <= 0xd
    ||| n == 0x20
    ||| n == 0x85
    ||| n == 0xa0
    ||| n == 0x1680
    ||| 0x2000 <= n <= 0x200a
    ||| n == 0x2028
    ||| n == 0x2029
    ||| n == 0x202f
    ||| n == 0x205f
    ||| n == 0x3000
}

/// `s` without the white space it starts with.
pub open spec fn trim_start(s: Seq<char>) -> Seq<char>
    decreases s.len(),
{
    if s.len() > 0 && is_white_space(s[0]) {
        trim_start(s.skip(1))
    } else {
        s
    }
}

/// `s` without the white space it ends with.
pub open spec fn trim_end(s: Seq<char>) -> Seq<char>
    decreases s.len(),
{
    if s.len() > 0 && is_white_space(s.last()) {
        trim_end(s.drop_last())
    } else {
        s
    }
}

/// `s` without white space on either side.
pub open spec fn trimmed(s: Seq<char>) -> Seq<char> {
    trim_end(trim_start(s))
}

/// `s` without the run of `c` it ends with.
pub open spec fn trim_end_char(s: Seq<char>, c: char) -> Seq<char>
    decreases s.len(),
{
    if s.len() > 0 && s.last() == c {
        trim_end_char(s.drop_last(), c)
    } else {
        s
    }
}

/// What follows `prefix` in `s`, where `s` starts with it.
pub open spec fn after_prefix(s: Seq<char>, prefix: Seq<char>) -> Option<Seq<char>> {
    if prefix.is_prefix_of(s) {
        Some(s.skip(prefix.len() as int))
    } else {
        None
    }
}

/// What precedes `suffix` in `s`, where `s` ends with it.
pub open spec fn before_suffix(s: Seq<char>, suffix: Seq<char>) -> Option<Seq<char>> {
    if suffix.is_suffix_of(s) {
        Some(s.take(s.len() - suffix.len()))
    } else {
        None
    }
}

/// Whether `c` is one of `0` to `9`.
pub open spec fn is_digit(c: char) -> bool {
    '0' <= c <= '9'
}

/// The number that a run of decimal digits writes.
pub open spec fn digits_value(s: Seq<char>) -> nat
    decreases s.len(),
{
    if s.len() == 0 {
        0
    } else {
        digits_value(s.drop_last()) * 10 + (s.last() as u32 - '0' as u32) as nat
    }
}

/// The digits of a number as they are read: a leading `+` is allowed.
pub open spec fn unsigned_digits(s: Seq<char>) -> Seq<char> {
    if s.len() > 0 && s[0] == '+' {
        s.skip(1)
    } else {
        s
    }
}

/// The 64 bit number that `s` writes in decimal; there must be a digit, and nothing but digits
/// behind an optional `+`.
pub open spec fn unsigned_number(s: Seq<char>) -> Option<u64> {
    let d = unsigned_digits(s);
    if d.len() > 0 && (forall|i: int| 0 <= i < d.len() ==> is_digit(#[trigger] d[i]))
        && digits_value(d) <= u64::MAX {
        Some(digits_value(d) as u64)
    } else {
        None
    }
}

/// The views of a list of strings.
pub open spec fn texts(v: Seq<String>) -> Seq<Seq<char>> {
    v.map_values(|s: String| s@)
}

/// The view of an optional string.
pub open spec fn text_option(o: Option<String>) -> Option<Seq<char>> {
    match o {
        Some(s) => Some(s@),
        None => None,
    }
}

/// The view of optional bytes.
pub open spec fn bytes_option(o: Option<Vec<u8>>) -> Option<Seq<u8>> {
    match o {
        Some(b) => Some(b@),
        None => None,
    }
}

/// The view of a string or a complaint.
pub open spec fn text_result(r: Result<String, String>) -> Result<Seq<char>, Seq<char>> {
    match r {
        Ok(s) => Ok(s@),
        Err(e) => Err(e@),
    }
}

/// The view of bytes or a complaint.
pub open spec fn bytes_result(r: Result<Vec<u8>, String>) -> Result<Seq<u8>, Seq<char>> {
    match r {
        Ok(b) => Ok(b@),
        Err(e) => Err(e@),
    }
}

proof fn lemma_first_index_of(s: Seq<char>, c: char)
    ensures
        0 <= first_index_of(s, c) <= s.len(),
        forall|j: int| 0 <= j < first_index_of(s, c) ==> s[j] != c,
        first_index_of(s, c) < s.len() ==> s[first_index_of(s, c)] == c,
    decreases s.len(),
{
    if s.len() > 0 && s[0] != c {
        let t = s.skip(1);
        lemma_first_index_of(t, c);
        assert forall|j: int| 0 <= j < first_index_of(s, c) implies s[j] != c by {
            if j > 0 {
                assert(t[j - 1] == s[j]);
            }
        }
    }
}

proof fn lemma_first_index_is(s: Seq<char>, c: char, i: int)
    requires
        0 <= i <= s.len(),
        forall|j: int| 0 <= j < i ==> s[j] != c,
        i < s.len() ==> s[i] == c,
    ensures
        first_index_of(s, c) == i,
{
    lemma_first_index_of(s, c);
    let k = first_index_of(s, c);
    if k < i {
        assert(s[k] == c);
    }
}

/// The characters of `s`, one by one.
pub fn chars_of(s: &str) -> (v: Vec<char>)
    ensures
        v@ == s@,
{
    let mut v: Vec<char> = Vec::new();
    for c in it: s.chars()
        invariant
            v@ == it.seq().take(it.index() as int),
            it.seq() == s@,
    {
        v.push(c);
    }
    v
}

/// Whether two strings hold the same characters.
pub fn same_text(a: &str, b: &str) -> (r: bool)
    ensures
        r == (a@ == b@),
{
    a.to_owned() == b.to_owned()
}

fn find_char(v: &Vec<char>, c: char) -> (i: usize)
    ensures
        i == first_index_of(v@, c),
{
    let mut i: usize = 0;
    while i < v.len() && v[i] != c
        invariant
            i <= v.len(),
            forall|j: int| 0 <= j < i ==> v@[j] != c,
        decreases v.len() - i,
    {
        i += 1;
    }
    proof {
        lemma_first_index_is(v@, c, i as int);
    }
    i
}

/// Cuts `s` at the first `c`.
pub fn cut_once<'a>(s: &'a str, c: char) -> (r: Option<(&'a str, &'a str)>)
    ensures
        match r {
            Some((a, b)) => split_once(s@, c) == Some((a@, b@)),
            None => split_once(s@, c) is None,
        },
{
    let v = chars_of(s);
    let i = find_char(&v, c);
    proof {
        lemma_first_index_of(s@, c);
    }
    if i < v.len() {
        Some((s.substring_char(0, i), s.substring_char(i + 1, v.len())))
    } else {
        None
    }
}

/// The pieces of `s` between the occurrences of `c`.
pub fn cut_all(s: &str, c: char) -> (r: Vec<String>)
    ensures
        texts(r@) == split_all(s@, c),
{
    let mut out: Vec<String> = Vec::new();
    let mut rest: &str = s;
    assert(texts(out@) + split_all(rest@, c) =~= split_all(s@, c));
    loop
        invariant
            texts(out@) + split_all(rest@, c) == split_all(s@, c),
        decreases rest@.len(),
    {
        let ghost before = out@;
        match cut_once(rest, c) {
            Some((piece, tail)) => {
                proof {
                    lemma_first_index_of(rest@, c);
                }
                out.push(piece.to_owned());
                assert(texts(out@) =~= texts(before).push(piece@));
                assert(texts(out@) + split_all(tail@, c) =~= texts(before) + split_all(rest@, c));
                rest = tail;
            },
            None => {
                proof {
                    lemma_first_index_of(rest@, c);
                }
                out.push(rest.to_owned());
                assert(texts(out@) =~= texts(before) + split_all(rest@, c));
                return out;
            },
        }
    }
}

/// Whether `c` is white space.
pub fn white_space(c: char) -> (r: bool)
    ensures
        r == is_white_space(c),
{
    let n: u32 = c as u32;
    (0x9 <= n && n <= 0xd) || n == 0x20 || n == 0x85 || n == 0xa0 || n == 0x1680 || (0x2000 <= n
        && n <= 0x200a) || n == 0x2028 || n == 0x2029 || n == 0x202f || n == 0x205f || n == 0x3000
}

proof fn lemma_trim_start_is(s: Seq<char>, k: int)
    requires
        0 <= k <= s.len(),
        forall|j: int| 0 <= j < k ==> is_white_space(#[trigger] s[j]),
        k < s.len() ==> !is_white_space(s[k]),
    ensures
        trim_start(s) == s.skip(k),
    decreases k,
{
    if k > 0 {
        let t = s.skip(1);
        assert(is_white_space(s[0]));
        assert forall|j: int| 0 <= j < k - 1 implies is_white_space(#[trigger] t[j]) by {
            assert(t[j] == s[j + 1]);
        }
        lemma_trim_start_is(t, k - 1);
        assert(t.skip(k - 1) =~= s.skip(k));
    } else {
        assert(s.skip(0) =~= s);
    }
}

proof fn lemma_trim_end_is(s: Seq<char>, k: int)
    requires
        0 <= k <= s.len(),
        forall|j: int| k <= j < s.len() ==> is_white_space(#[trigger] s[j]),
        k > 0 ==> !is_white_space(s[k - 1]),
    ensures
        trim_end(s) == s.take(k),
    decreases s.len() - k,
{
    if k < s.len() {
        let t = s.drop_last();
        assert(is_white_space(s[s.len() - 1]));
        assert forall|j: int| k <= j < t.len() implies is_white_space(#[trigger] t[j]) by {
            assert(t[j] == s[j]);
        }
        lemma_trim_end_is(t, k);
        assert(t.take(k) =~= s.take(k));
    } else {
        assert(s.take(k) =~= s);
    }
}

/// `s` without white space on either side.
pub fn trim<'a>(s: &'a str) -> (r: &'a str)
    ensures
        r@ == trimmed(s@),
{
    let v = chars_of(s);
    let mut from: usize = 0;
    while from < v.len() && white_space(v[from])
        invariant
            from <= v.len(),
            forall|j: int| 0 <= j < from ==> is_white_space(#[trigger] v@[j]),
        decreases v.len() - from,
    {
        from += 1;
    }
    let mut to: usize = v.len();
    while to > from && white_space(v[to - 1])
        invariant
            from <= to <= v.len(),
            forall|j: int| to <= j < v.len() ==> is_white_space(#[trigger] v@[j]),
        decreases to,
    {
        to -= 1;
    }
    proof {
        lemma_trim_start_is(s@, from as int);
        let t = s@.skip(from as int);
        assert forall|j: int| to - from <= j < t.len() implies is_white_space(#[trigger] t[j]) by {
            assert(t[j] == s@[from + j]);
        }
        lemma_trim_end_is(t, to - from);
        assert(t.take(to - from) =~= s@.subrange(from as int, to as int));
    }
    s.substring_char(from, to)
}

proof fn lemma_trim_end_char_is(s: Seq<char>, c: char, k: int)
    requires
        0 <= k <= s.len(),
        forall|j: int| k <= j < s.len() ==> #[trigger] s[j] == c,
        k > 0 ==> s[k - 1] != c,
    ensures
        trim_end_char(s, c) == s.take(k),
    decreases s.len() - k,
{
    if k < s.len() {
        let t = s.drop_last();
        assert forall|j: int| k <= j < t.len() implies #[trigger] t[j] == c by {
            assert(t[j] == s[j]);
        }
        lemma_trim_end_char_is(t, c, k);
        assert(t.take(k) =~= s.take(k));
    } else {
        assert(s.take(k) =~= s);
    }
}

/// `s` without the run of `c` it ends with.
pub fn strip_trailing<'a>(s: &'a str, c: char) -> (r: &'a str)
    ensures
        r@ == trim_end_char(s@, c),
{
    let v = chars_of(s);
    let mut to: usize = v.len();
    while to > 0 && v[to - 1] == c
        invariant
            to <= v.len(),
            forall|j: int| to <= j < v.len() ==> #[trigger] v@[j] == c,
        decreases to,
    {
        to -= 1;
    }
    proof {
        lemma_trim_end_char_is(s@, c, to as int);
        assert(s@.take(to as int) =~= s@.subrange(0, to as int));
    }
    s.substring_char(0, to)
}

/// What follows `prefix` in `s`.
pub fn strip_prefix<'a>(s: &'a str, prefix: &str) -> (r: Option<&'a str>)
    ensures
        match r {
            Some(t) => after_prefix(s@, prefix@) == Some(t@),
            None => after_prefix(s@, prefix@) is None,
        },
{
    let n = s.unicode_len();
    let m = prefix.unicode_len();
    if m <= n && same_text(s.substring_char(0, m), prefix) {
        assert(s@.subrange(m as int, n as int) =~= s@.skip(m as int));
        Some(s.substring_char(m, n))
    } else {
        proof {
            if prefix@.is_prefix_of(s@) {
                assert(s@.subrange(0, m as int) =~= prefix@);
            }
        }
        None
    }
}

/// What precedes `suffix` in `s`.
pub fn strip_suffix<'a>(s: &'a str, suffix: &str) -> (r: Option<&'a str>)
    ensures
        match r {
            Some(t) => before_suffix(s@, suffix@) == Some(t@),
            None => before_suffix(s@, suffix@) is None,
        },
{
    let n = s.unicode_len();
    let m = suffix.unicode_len();
    if m <= n && same_text(s.substring_char(n - m, n), suffix) {
        assert(s@.subrange(0, n - m) =~= s@.take(n - m));
        Some(s.substring_char(0, n - m))
    } else {
        proof {
            if suffix@.is_suffix_of(s@) {
                assert(s@.subrange(n - m, n as int) =~= suffix@);
            }
        }
        None
    }
}

proof fn lemma_digits_value_prefix(s: Seq<char>, k: int)
    requires
        0 <= k <= s.len(),
    ensures
        digits_value(s.take(k)) <= digits_value(s),
    decreases s.len() - k,
{
    if k < s.len() {
        lemma_digits_value_prefix(s, k + 1);
        assert(s.take(k + 1).drop_last() =~= s.take(k));
    } else {
        assert(s.take(k) =~= s);
    }
}

/// The number that `s` writes in decimal, where it fits 64 bits.
pub fn parse_u64(s: &str) -> (r: Option<u64>)
    ensures
        r == unsigned_number(s@),
{
    let v = chars_of(s);
    let from: usize = if v.len() > 0 && v[0] == '+' { 1 } else { 0 };
    let ghost d = unsigned_digits(s@);
    assert(d =~= v@.skip(from as int));
    if from == v.len() {
        return None;
    }
    let mut total: u64 = 0;
    let mut i: usize = from;
    while i < v.len()
        invariant
            from <= i <= v.len(),
            d == v@.skip(from as int),
            d == unsigned_digits(s@),
            total == digits_value(d.take(i - from)),
            forall|j: int| 0 <= j < i - from ==> is_digit(#[trigger] d[j]),
        decreases v.len() - i,
    {
        let c = v[i];
        assert(d[i - from] == c);
        if c < '0' || c > '9' {
            return None;
        }
        let digit: u64 = (c as u32 - '0' as u32) as u64;
        assert(d.take(i - from + 1).drop_last() =~= d.take(i - from));
        proof {
            lemma_digits_value_prefix(d, i - from + 1);
        }
        let tens = match total.checked_mul(10) {
            Some(t) => t,
            None => { return None; },
        };
        total = match tens.checked_add(digit) {
            Some(t) => t,
            None => { return None; },
        };
        i += 1;
    }
    assert(d.take(d.len() as int) =~= d);
    Some(total)
}

/// Three texts, one behind the other.
pub fn join3(a: &str, b: &str, c: &str) -> (r: String)
    ensures
        r@ == a@ + b@ + c@,
{
    a.to_owned().concat(b).concat(c)
}

/// Five texts, one behind the other.
pub fn join5(a: &str, b: &str, c: &str, d: &str, e: &str) -> (r: String)
    ensures
        r@ == a@ + b@ + c@ + d@ + e@,
{
    a.to_owned().concat(b).concat(c).concat(d).concat(e)
}

/// The digit of a number below ten.
pub open spec fn digit(d: nat) -> char {
    (('0' as nat) + d) as char
}

/// A number in decimal digits, without leading zeros.
pub open spec fn decimal(n: nat) -> Seq<char>
    decreases n,
{
    if n < 10 {
        seq![digit(n)]
    } else {
        decimal(n / 10).push(digit(n % 10))
    }
}

fn digit_text(d: u64) -> (r: &'static str)
    requires
        d < 10,
    ensures
        r@ == seq![digit(d as nat)],
{
    proof {
        reveal_strlit("0");
        reveal_strlit("1");
        reveal_strlit("2");
        reveal_strlit("3");
        reveal_strlit("4");
        reveal_strlit("5");
        reveal_strlit("6");
        reveal_strlit("7");
        reveal_strlit("8");
        reveal_strlit("9");
    }
    let r = match d {
        0 => "0",
        1 => "1",
        2 => "2",
        3 => "3",
        4 => "4",
        5 => "5",
        6 => "6",
        7 => "7",
        8 => "8",
        _ => "9",
    };
    assert(r@ =~= seq![digit(d as nat)]);
    r
}

/// Writes a number in decimal digits.
pub fn decimal_text(n: u64) -> (r: String)
    ensures
        r@ == decimal(n as nat),
    decreases n,
{
    if n < 10 {
        digit_text(n).to_owned()
    } else {
        let front = decimal_text(n / 10);
        let r = front.concat(digit_text(n % 10));
        assert(r@ =~= decimal((n / 10) as nat).push(digit((n % 10) as nat)));
        r
    }
}

/// A text is cut at the first of the characters that it is cut at: what stands before it and what
/// stands behind it come back whole. Without such a character there is no cut.
pub proof fn cutting_once_undoes_joining(a: Seq<char>, c: char, b: Seq<char>)
    requires
        !a.contains(c),
    ensures
        split_once(a + seq![c] + b, c) == Some((a, b)),
        split_once(a, c) is None,
{
    let s = a + seq![c] + b;
    assert forall|j: int| 0 <= j < a.len() implies s[j] != c && a[j] != c by {
        assert(a.contains(a[j]));
    }
    lemma_first_index_is(s, c, a.len() as int);
    lemma_first_index_is(a, c, a.len() as int);
    assert(s.take(a.len() as int) =~= a);
    assert(s.skip(a.len() as int + 1) =~= b);
}

/// The pieces of a text are those that, with the character between them, make it up: the first
/// piece ends at the first of these characters, and the others are those of what follows.
pub proof fn cutting_all_undoes_joining(a: Seq<char>, c: char, b: Seq<char>)
    requires
        !a.contains(c),
    ensures
        split_all(a + seq![c] + b, c) == seq![a] + split_all(b, c),
        split_all(a, c) == seq![a],
{
    let s = a + seq![c] + b;
    cutting_once_undoes_joining(a, c, b);
    lemma_first_index_of(s, c);
    lemma_first_index_of(a, c);
}

/// Trimming takes the white space on both sides, all of it, and nothing else.
pub proof fn trimming_takes_the_white_space_around(
    front: Seq<char>,
    core: Seq<char>,
    back: Seq<char>,
)
    requires
        forall|i: int| 0 <= i < front.len() ==> is_white_space(#[trigger] front[i]),
        forall|i: int| 0 <= i < back.len() ==> is_white_space(#[trigger] back[i]),
        core.len() > 0 ==> !is_white_space(core[0]) && !is_white_space(core.last()),
    ensures
        trimmed(front + core + back) == core,
{
    let s = front + core + back;
    if core.len() > 0 {
        assert forall|j: int| 0 <= j < front.len() implies is_white_space(#[trigger] s[j]) by {
            assert(s[j] == front[j]);
        }
        lemma_trim_start_is(s, front.len() as int);
        let t = s.skip(front.len() as int);
        assert(t =~= core + back);
        assert forall|j: int| core.len() <= j < t.len() implies is_white_space(#[trigger] t[j]) by {
            assert(t[j] == back[j - core.len()]);
        }
        lemma_trim_end_is(t, core.len() as int);
        assert(t.take(core.len() as int) =~= core);
    } else {
        assert forall|j: int| 0 <= j < s.len() implies is_white_space(#[trigger] s[j]) by {
            if j < front.len() {
                assert(s[j] == front[j]);
            } else {
                assert(s[j] == back[j - front.len()]);
            }
        }
        lemma_trim_start_is(s, s.len() as int);
        assert(s.skip(s.len() as int) =~= core);
    }
}

/// Every text is what trimming leaves of it, with white space around.
pub proof fn trimming_leaves_a_core(s: Seq<char>)
    ensures
        exists|front: Seq<char>, back: Seq<char>|
            s == #[trigger] (front + trimmed(s) + back) && (forall|i: int|
                0 <= i < front.len() ==> is_white_space(#[trigger] front[i])) && (forall|i: int|
                0 <= i < back.len() ==> is_white_space(#[trigger] back[i])),
        trimmed(s).len() > 0 ==> !is_white_space(trimmed(s)[0]) && !is_white_space(trimmed(s).last()),
{
    let k = lemma_white_prefix(s);
    lemma_trim_start_is(s, k);
    let t = s.skip(k);
    let m = lemma_white_suffix(t);
    lemma_trim_end_is(t, m);
    let front = s.take(k);
    let back = t.skip(m);
    assert(s =~= front + trimmed(s) + back);
    assert forall|i: int| 0 <= i < back.len() implies is_white_space(#[trigger] back[i]) by {
        assert(back[i] == t[m + i]);
    }
    if m > 0 {
        assert(t[0] == s[k]);
        assert(trimmed(s)[0] == t[0]);
    }
}

proof fn lemma_white_prefix(s: Seq<char>) -> (k: int)
    ensures
        0 <= k <= s.len(),
        forall|j: int| 0 <= j < k ==> is_white_space(#[trigger] s[j]),
        k < s.len() ==> !is_white_space(s[k]),
    decreases s.len(),
{
    if s.len() > 0 && is_white_space(s[0]) {
        let t = s.skip(1);
        let k = lemma_white_prefix(t);
        assert forall|j: int| 0 <= j < k + 1 implies is_white_space(#[trigger] s[j]) by {
            if j > 0 {
                assert(s[j] == t[j - 1]);
            }
        }
        k + 1
    } else {
        0
    }
}

proof fn lemma_white_suffix(s: Seq<char>) -> (k: int)
    ensures
        0 <= k <= s.len(),
        forall|j: int| k <= j < s.len() ==> is_white_space(#[trigger] s[j]),
        k > 0 ==> !is_white_space(s[k - 1]),
    decreases s.len(),
{
    if s.len() > 0 && is_white_space(s.last()) {
        let t = s.drop_last();
        let k = lemma_white_suffix(t);
        assert forall|j: int| k <= j < s.len() implies is_white_space(#[trigger] s[j]) by {
            if j < t.len() {
                assert(s[j] == t[j]);
            }
        }
        k
    } else {
        s.len() as int
    }
}

/// Of a run of one character at the end of a text nothing stays, and all of what stands before it
/// does.
pub proof fn stripping_takes_the_run_at_the_end(core: Seq<char>, c: char, run: Seq<char>)
    requires
        forall|i: int| 0 <= i < run.len() ==> #[trigger] run[i] == c,
        core.len() > 0 ==> core.last() != c,
    ensures
        trim_end_char(core + run, c) == core,
{
    let s = core + run;
    assert forall|j: int| core.len() <= j < s.len() implies #[trigger] s[j] == c by {
        assert(s[j] == run[j - core.len()]);
    }
    lemma_trim_end_char_is(s, c, core.len() as int);
    assert(s.take(core.len() as int) =~= core);
}

/// A prefix is found where a text starts with it, and what follows it comes back whole; a suffix
/// likewise.
pub proof fn affixes_come_off_whole(a: Seq<char>, b: Seq<char>)
    ensures
        after_prefix(a + b, a) == Some(b),
        before_suffix(a + b, b) == Some(a),
        after_prefix(a, b) matches Some(rest) ==> a == b + rest,
        before_suffix(a, b) matches Some(rest) ==> a == rest + b,
{
    assert((a + b).skip(a.len() as int) =~= b);
    assert((a + b).take((a + b).len() - b.len()) =~= a);
    if b.is_prefix_of(a) {
        assert(a =~= b + a.skip(b.len() as int));
    }
    if b.is_suffix_of(a) {
        assert(a =~= a.take(a.len() - b.len()) + b);
    }
}

/// A number is written with the codes of its decimal digits, the last of them being what is left
/// behind the tens.
pub proof fn decimal_writes_digit_by_digit(n: nat, d: nat)
    requires
        d < 10,
    ensures
        decimal(d).len() == 1,
        decimal(d)[0] as nat == 48 + d,
        n > 0 ==> decimal(10 * n + d) == decimal(n) + decimal(d),
{
    if n > 0 {
        assert((10 * n + d) / 10 == n);
        assert((10 * n + d) % 10 == d);
        assert(decimal(10 * n + d) =~= decimal(n) + decimal(d));
    }
}

proof fn lemma_decimal(n: nat)
    ensures
        decimal(n).len() > 0,
        forall|i: int| 0 <= i < decimal(n).len() ==> is_digit(#[trigger] decimal(n)[i]),
        digits_value(decimal(n)) == n,
    decreases n,
{
    if n < 10 {
        assert(decimal(n).drop_last() =~= seq![]);
        reveal_with_fuel(digits_value, 2);
    } else {
        lemma_decimal(n / 10);
        assert(decimal(n).drop_last() =~= decimal(n / 10));
    }
}

/// A number that was written in decimal is read back, with or without a plus sign, where it fits 64
/// bits; a greater one is refused.
pub proof fn written_numbers_are_read_back(n: nat)
    ensures
        n <= u64::MAX ==> unsigned_number(decimal(n)) == Some(n as u64),
        n <= u64::MAX ==> unsigned_number(seq!['+'] + decimal(n)) == Some(n as u64),
        n > u64::MAX ==> unsigned_number(decimal(n)) is None,
{
    lemma_decimal(n);
    assert(is_digit(decimal(n)[0]));
    assert((seq!['+'] + decimal(n)).skip(1) =~= decimal(n));
}

/// Nothing but decimal digits, at least one, behind at most one plus sign is read as a number; and a
/// further digit makes ten times the number and the digit.
pub proof fn numbers_are_read_digit_by_digit(s: Seq<char>, c: char)
    ensures
        unsigned_number(s) is Some ==> s.len() > 0 && forall|i: int|
            0 <= i < s.len() ==> 48 <= #[trigger] s[i] as nat <= 57 || (i == 0 && s[0] == '+'
                && s.len() > 1),
        unsigned_number(s) is Some && 48 <= c as nat <= 57 && (unsigned_number(s)->0) * 10 + (c as nat
            - 48) <= u64::MAX ==> unsigned_number(s.push(c)) == Some(
            ((unsigned_number(s)->0) * 10 + (c as nat - 48)) as u64,
        ),
        unsigned_number(s) is Some && 48 <= c as nat <= 57 && (unsigned_number(s)->0) * 10 + (c as nat
            - 48) > u64::MAX ==> unsigned_number(s.push(c)) is None,
{
    if let Some(n) = unsigned_number(s) {
        let d = unsigned_digits(s);
        assert forall|i: int| 0 <= i < s.len() implies 48 <= #[trigger] s[i] as nat <= 57 || (i == 0
            && s[0] == '+' && s.len() > 1) by {
            if s[0] == '+' {
                if i > 0 {
                    assert(is_digit(d[i - 1]));
                }
            } else {
                assert(is_digit(d[i]));
            }
        }
        if 48 <= c as nat <= 57 {
            let e = unsigned_digits(s.push(c));
            assert(e =~= d.push(c));
            assert(e.drop_last() =~= d);
            assert forall|i: int| 0 <= i < e.len() implies is_digit(#[trigger] e[i]) by {
                if i < d.len() {
                    assert(is_digit(d[i]));
                }
            }
        }
    }
}

/// The model of strings and bytes that are listed, missing or refused is what they hold, whole.
pub proof fn texts_are_what_they_hold(v: Seq<String>, i: int, s: String, b: Vec<u8>)
    requires
        0 <= i < v.len(),
    ensures
        texts(v).len() == v.len(),
        texts(v)[i] == v[i]@,
        text_option(Some(s)) == Some(s@),
        text_option(None) is None,
        bytes_option(Some(b)) == Some(b@),
        bytes_option(None) is None,
        text_result(Ok(s)) == Ok::<Seq<char>, Seq<char>>(s@),
        text_result(Err(s)) == Err::<Seq<char>, Seq<char>>(s@),
        bytes_result(Ok(b)) == Ok::<Seq<u8>, Seq<char>>(b@),
        bytes_result(Err(s)) == Err::<Seq<u8>, Seq<char>>(s@),
{
}

} // verus!
