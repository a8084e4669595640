//! Plain text: comparing, trimming, padding, joining, and writing numbers.
use vstd::prelude::*;

verus! {

/// The decimal or hexadecimal digit for `d`.
pub open spec fn digit(d: nat) -> char {
    if d < 10 {
        (48 + d) as char
    } else {
        (87 + d) as char
    }
}

/// `n` written in base `base`, without leading zeros.
pub open spec fn digits(n: nat, base: nat) -> Seq<char>
    decreases n,
{
    if base < 2 || n < base {
        seq![digit(n)]
    } else {
        proof {
            assert(n / base < n) by (nonlinear_arith)
                requires
                    n >= base,
                    base >= 2,
            ;
        }
        digits(n / base, base).push(digit(n % base))
    }
}

/// `n` in decimal notation.
pub open spec fn decimal(n: nat) -> Seq<char> {
    digits(n, 10)
}

/// `n` in decimal notation, with a minus sign in front where it is negative.
pub open spec fn signed_decimal(n: int) -> Seq<char> {
    if n < 0 {
        seq!['-'] + decimal((-n) as nat)
    } else {
        decimal(n as nat)
    }
}

/// A truth value as a word.
pub open spec fn bool_word(b: bool) -> Seq<char> {
    if b {
        "true"@
    } else {
        "false"@
    }
}

/// `s`, followed by as many spaces as bring it to `width` characters.
pub open spec fn padded(s: Seq<char>, width: nat) -> Seq<char> {
    if s.len() < width {
        s + Seq::new((width - s.len()) as nat, |i: int| ' ')
    } else {
        s
    }
}

/// The texts of a list of strings.
pub open spec fn texts(list: Seq<String>) -> Seq<Seq<char>> {
    list.map_values(|s: String| s@)
}

/// The parts one after the other, with `sep` between two of them.
pub open spec fn joined(parts: Seq<Seq<char>>, sep: Seq<char>) -> Seq<char>
    decreases parts.len(),
{
    if parts.len() == 0 {
        seq![]
    } else if parts.len() == 1 {
        parts[0]
    } else {
        joined(parts.drop_last(), sep) + sep + parts.last()
    }
}

/// The characters with the Unicode property White_Space.
pub open spec fn is_white_space(c: char) -> bool {
    let u = c as u32;
    ||| 0x9 <= u <= 0xD
    ||| u == 0x20
    ||| u == 0x85
    ||| u == 0xA0
    ||| u == 0x1680
    ||| 0x2000 <= u <= 0x200A
    ||| u == 0x2028
    ||| u == 0x2029
    ||| u == 0x202F
    ||| u == 0x205F
    ||| u == 0x3000
}

/// `s` without the white space at its start.
pub open spec fn trimmed_start(s: Seq<char>) -> Seq<char>
    decreases s.len(),
{
    if s.len() > 0 && is_white_space(s[0]) {
        trimmed_start(s.drop_first())
    } else {
        s
    }
}

/// `s` without the white space at its end.
pub open spec fn trimmed_end(s: Seq<char>) -> Seq<char>
    decreases s.len(),
{
    if s.len() > 0 && is_white_space(s.last()) {
        trimmed_end(s.drop_last())
    } else {
        s
    }
}

/// `s` without the white space at either end.
pub open spec fn trimmed(s: Seq<char>) -> Seq<char> {
    trimmed_end(trimmed_start(s))
}

/// The texts of a list that grows by one string.
pub proof fn lemma_texts_push(list: Seq<String>, s: String)
    ensures
        texts(list.push(s)) == texts(list).push(s@),
{
    assert(texts(list.push(s)) =~= texts(list).push(s@));
}

/// Whether two texts are the same.
pub fn same_text(a: &str, b: &str) -> (same: bool)
    ensures
        same == (a@ == b@),
{
    a.to_owned() == b.to_owned()
}

/// The text after `prefix`, where `s` starts with it.
pub fn strip_prefix_text(s: &str, prefix: &str) -> (rest: Option<String>)
    ensures
        match rest {
            Some(r) => s@ == prefix@ + r@,
            None => !prefix@.is_prefix_of(s@),
        },
{
    let n = prefix.unicode_len();
    let len = s.unicode_len();
    if len < n {
        return None;
    }
    if same_text(s.substring_char(0, n), prefix) {
        let rest = s.substring_char(n, len).to_owned();
        assert(s@ =~= prefix@ + rest@);
        Some(rest)
    } else {
        None
    }
}

fn digit_text(d: u64) -> (s: &'static str)
    requires
        d < 16,
    ensures
        s@ == seq![digit(d as nat)],
{
    proof {
        reveal_strlit("0");
        reveal_strlit("1");
        reveal_strlit("2");
        reveal_strlit("3");
        reveal_strlit("4");
        reveal_strlit("5");
        reveal_strlit("6");
        reveal_strlit("7");
        reveal_strlit("8");
        reveal_strlit("9");
        reveal_strlit("a");
        reveal_strlit("b");
        reveal_strlit("c");
        reveal_strlit("d");
        reveal_strlit("e");
        reveal_strlit("f");
    }
    let s = if d == 0 {
        "0"
    } else if d == 1 {
        "1"
    } else if d == 2 {
        "2"
    } else if d == 3 {
        "3"
    } else if d == 4 {
        "4"
    } else if d == 5 {
        "5"
    } else if d == 6 {
        "6"
    } else if d == 7 {
        "7"
    } else if d == 8 {
        "8"
    } else if d == 9 {
        "9"
    } else if d == 10 {
        "a"
    } else if d == 11 {
        "b"
    } else if d == 12 {
        "c"
    } else if d == 13 {
        "d"
    } else if d == 14 {
        "e"
    } else {
        "f"
    };
    assert(s@ =~= seq![digit(d as nat)]);
    s
}

/// Writes `n` in the given base.
pub fn digits_text(n: u64, base: u64) -> (s: String)
    requires
        2 <= base <= 16,
    ensures
        s@ == digits(n as nat, base as nat),
    decreases n,
{
    if n < base {
        digit_text(n).to_owned()
    } else {
        assert(n / base < n) by (nonlinear_arith)
            requires
                n >= base,
                base >= 2,
        ;
        let mut s = digits_text(n / base, base);
        s.append(digit_text(n % base));
        assert(s@ =~= digits(n as nat, base as nat));
        s
    }
}

/// Writes `n` in decimal notation.
pub fn decimal_text(n: u64) -> (s: String)
    ensures
        s@ == decimal(n as nat),
{
    digits_text(n, 10)
}

/// Writes `n` in decimal notation, with its sign where it is negative.
pub fn signed_decimal_text(n: i32) -> (s: String)
    ensures
        s@ == signed_decimal(n as int),
{
    if n < 0 {
        proof {
            reveal_strlit("-");
        }
        let mut s = "-".to_owned();
        s.append(decimal_text((-(n as i64)) as u64).as_str());
        assert(s@ =~= signed_decimal(n as int));
        s
    } else {
        decimal_text(n as u64)
    }
}

/// The word for a truth value.
pub fn bool_text(b: bool) -> (s: &'static str)
    ensures
        s@ == bool_word(b),
{
    if b {
        "true"
    } else {
        "false"
    }
}

/// `s`, filled up with spaces to `width` characters.
pub fn pad_text(s: &str, width: usize) -> (r: String)
    ensures
        r@ == padded(s@, width as nat),
{
    proof {
        reveal_strlit(" ");
    }
    let mut r = s.to_owned();
    let mut n = s.unicode_len();
    while n < width
        invariant
            " "@ == seq![' '],
            s@.len() <= n,
            n <= width || n == s@.len(),
            r@ == s@ + Seq::new((n - s@.len()) as nat, |i: int| ' '),
        decreases width - n,
    {
        r.append(" ");
        n = n + 1;
        assert(r@ =~= s@ + Seq::new((n - s@.len()) as nat, |i: int| ' '));
    }
    assert(r@ =~= padded(s@, width as nat));
    r
}

/// The strings of a list one after the other, with `sep` between two of them.
pub fn join_texts(list: &Vec<String>, sep: &str) -> (r: String)
    ensures
        r@ == joined(texts(list@), sep@),
{
    let mut r = String::new();
    let mut i: usize = 0;
    let ghost parts = texts(list@);
    while i < list.len()
        invariant
            i <= list.len(),
            parts == texts(list@),
            r@ == joined(parts.take(i as int), sep@),
        decreases list.len() - i,
    {
        assert(parts.take(i + 1).drop_last() =~= parts.take(i as int));
        assert(parts.take(i + 1).last() == list@[i as int]@);
        if i > 0 {
            r.append(sep);
        }
        r.append(list[i].as_str());
        i = i + 1;
        assert(r@ =~= joined(parts.take(i as int), sep@));
    }
    assert(parts.take(list.len() as int) =~= parts);
    r
}

/// Whether a character is white space.
pub fn white_space(c: char) -> (r: bool)
    ensures
        r == is_white_space(c),
{
    let u = c as u32;
    (0x9 <= u && u <= 0xD) || u == 0x20 || u == 0x85 || u == 0xA0 || u == 0x1680 || (0x2000 <= u
        && u <= 0x200A) || u == 0x2028 || u == 0x2029 || u == 0x202F || u == 0x205F || u == 0x3000
}

/// `s` without the white space at either end.
pub fn trim_text(s: &str) -> (r: String)
    ensures
        r@ == trimmed(s@),
{
    let len = s.unicode_len();
    let mut from: usize = 0;
    assert(s@.skip(0) =~= s@);
    while from < len && white_space(s.get_char(from))
        invariant
            from <= len,
            len == s@.len(),
            trimmed_start(s@) == trimmed_start(s@.skip(from as int)),
        decreases len - from,
    {
        assert(s@.skip(from as int).drop_first() =~= s@.skip(from + 1));
        from = from + 1;
    }
    let ghost start = s@.skip(from as int);
    assert(trimmed_start(s@) == start);
    let mut to: usize = len;
    assert(start.take(to - from) =~= start);
    while from < to && white_space(s.get_char(to - 1))
        invariant
            from <= to <= len,
            len == s@.len(),
            start == s@.skip(from as int),
            trimmed_end(start) == trimmed_end(start.take(to - from)),
        decreases to,
    {
        assert(start.take(to - from).drop_last() =~= start.take(to - from - 1));
        to = to - 1;
    }
    assert(s@.subrange(from as int, to as int) =~= start.take(to - from));
    s.substring_char(from, to).to_owned()
}

/// Trimming is done in one pass: what is trimmed has no white space left to trim.
pub proof fn law_trim_is_idempotent(s: Seq<char>)
    ensures
        trimmed(trimmed(s)) == trimmed(s),
        trimmed(s).len() > 0 ==> !is_white_space(trimmed(s)[0]) && !is_white_space(
            trimmed(s).last(),
        ),
{
    let a = trimmed_start(s);
    lemma_trimmed_start(s);
    lemma_trimmed_end(a);
    assert(trimmed_start(trimmed(s)) == trimmed(s));
}

/// Trimming brings in no character.
pub proof fn lemma_trimming_adds_nothing(s: Seq<char>, c: char)
    requires
        !s.contains(c),
    ensures
        !trimmed(s).contains(c),
{
    lemma_trimmed_start_adds_nothing(s, c);
    let a = trimmed_start(s);
    lemma_trimmed_end(a);
    assert forall|i: int| 0 <= i < trimmed(s).len() implies trimmed(s)[i] != c by {
        assert(a.contains(a[i]));
    }
}

proof fn lemma_trimmed_start_adds_nothing(s: Seq<char>, c: char)
    requires
        !s.contains(c),
    ensures
        !trimmed_start(s).contains(c),
    decreases s.len(),
{
    if s.len() > 0 && is_white_space(s[0]) {
        let rest = s.drop_first();
        assert forall|i: int| 0 <= i < rest.len() implies rest[i] != c by {
            assert(s.contains(s[i + 1]));
        }
        lemma_trimmed_start_adds_nothing(rest, c);
    }
}

proof fn lemma_trimmed_start(s: Seq<char>)
    ensures
        trimmed_start(s).len() > 0 ==> !is_white_space(trimmed_start(s)[0]),
    decreases s.len(),
{
    if s.len() > 0 && is_white_space(s[0]) {
        lemma_trimmed_start(s.drop_first());
    }
}

proof fn lemma_trimmed_end(s: Seq<char>)
    ensures
        trimmed_end(s).is_prefix_of(s),
        trimmed_end(s).len() > 0 ==> !is_white_space(trimmed_end(s).last()),
        trimmed_end(trimmed_end(s)) == trimmed_end(s),
    decreases s.len(),
{
    if s.len() > 0 && is_white_space(s.last()) {
        lemma_trimmed_end(s.drop_last());
    }
}

/// The value of a digit.
pub open spec fn digit_value(c: char) -> int {
    if '0' <= c <= '9' {
        c as int - '0' as int
    } else {
        c as int - 'a' as int + 10
    }
}

/// The number that digits stand for.
pub open spec fn number_of(s: Seq<char>, base: int) -> int
    decreases s.len(),
{
    if s.len() == 0 {
        0
    } else {
        number_of(s.drop_last(), base) * base + digit_value(s.last())
    }
}

/// A number that is written can be read back: its digits are digits of the base, they stand
/// for the number, and none is wasted on a leading zero.
pub proof fn law_numbers_read_back(n: nat, base: nat)
    requires
        2 <= base <= 16,
    ensures
        number_of(digits(n, base), base as int) == n,
        digits(n, base).len() > 0,
        digits(n, base).len() > 1 ==> digits(n, base)[0] != '0',
        forall|i: int|
            0 <= i < digits(n, base).len() ==> {
                let c = #[trigger] digits(n, base)[i];
                &&& '0' <= c <= '9' || 'a' <= c <= 'f'
                &&& 0 <= digit_value(c) < base
            },
    decreases n,
{
    let s = digits(n, base);
    if n < base {
        reveal_with_fuel(number_of, 2);
        assert(s =~= seq![digit(n)]);
        assert(s.drop_last() =~= Seq::empty());
    } else {
        let q = n / base;
        let r = n % base;
        assert(0 < q < n && r < base && n == q * base + r) by (nonlinear_arith)
            requires
                n >= base,
                base >= 2,
                q == n / base,
                r == n % base,
        ;
        law_numbers_read_back(q, base);
        let init = digits(q, base);
        assert(s == init.push(digit(r)));
        assert(s.drop_last() =~= init);
        assert(s.last() == digit(r));
        assert(s[0] == init[0]);
        if init.len() == 1 {
            assert(init[0] != '0') by {
                reveal_with_fuel(number_of, 2);
                assert(init.drop_last() =~= Seq::empty());
                assert(number_of(init, base as int) == digit_value(init[0]));
            }
        }
        assert forall|i: int| 0 <= i < s.len() implies ({
            let c = #[trigger] s[i];
            &&& '0' <= c <= '9' || 'a' <= c <= 'f'
            &&& 0 <= digit_value(c) < base
        }) by {
            if i < init.len() {
                assert(s[i] == init[i]);
            }
        }
    }
}

/// Numbers are written in base ten; a negative one has a minus sign before its amount.
pub proof fn law_signs(n: int)
    ensures
        n >= 0 ==> signed_decimal(n) == digits(n as nat, 10),
        n >= 0 ==> decimal(n as nat) == digits(n as nat, 10),
        n < 0 ==> signed_decimal(n).len() > 0 && signed_decimal(n)[0] == '-',
        n < 0 ==> signed_decimal(n).skip(1) == digits((-n) as nat, 10),
{
    if n < 0 {
        assert(signed_decimal(n).skip(1) =~= digits((-n) as nat, 10));
    }
}

/// Padding adds spaces behind the text up to the width, and nothing where it is as wide.
pub proof fn law_padding(s: Seq<char>, width: nat)
    ensures
        padded(s, width).len() == if s.len() < width { width } else { s.len() },
        forall|i: int| 0 <= i < s.len() ==> #[trigger] padded(s, width)[i] == s[i],
        forall|i: int|
            s.len() <= i < padded(s, width).len() ==> #[trigger] padded(s, width)[i] == ' ',
{
}

/// The texts of a list are the texts of its strings, one for one; the words for truth values
/// are `true` and `false`.
pub proof fn law_texts_one_for_one(list: Seq<String>)
    ensures
        texts(list).len() == list.len(),
        forall|i: int| 0 <= i < list.len() ==> #[trigger] texts(list)[i] == list[i]@,
        bool_word(true) == "true"@,
        bool_word(false) == "false"@,
{
}

/// Joined texts: one text alone is itself, and between two lists stands one separator.
pub proof fn law_joining(a: Seq<Seq<char>>, b: Seq<Seq<char>>, sep: Seq<char>, part: Seq<char>)
    ensures
        joined(Seq::empty(), sep) == Seq::<char>::empty(),
        joined(seq![part], sep) == part,
        a.len() > 0 && b.len() > 0 ==> joined(a + b, sep) == joined(a, sep) + sep + joined(b, sep),
    decreases b.len(),
{
    if a.len() > 0 && b.len() > 0 {
        let all = a + b;
        let init = b.drop_last();
        assert(all.drop_last() =~= a + init);
        assert(all.last() == b.last());
        if b.len() == 1 {
            assert(a + init =~= a);
            assert(joined(b, sep) == b[0]);
        } else {
            law_joining(a, init, sep, part);
            assert(joined(all, sep) =~= joined(a, sep) + sep + joined(b, sep));
        }
    }
}

/// Trimming takes white space off both ends and nothing else: what is left is a stretch of
/// the text with white space alone before and behind it.
pub proof fn law_trim_takes_white_space_alone(s: Seq<char>)
    ensures
        exists|from: int, to: int|
            {
                &&& 0 <= from <= to <= s.len()
                &&& trimmed(s) == #[trigger] s.subrange(from, to)
                &&& forall|i: int| 0 <= i < from ==> is_white_space(#[trigger] s[i])
                &&& forall|i: int| to <= i < s.len() ==> is_white_space(#[trigger] s[i])
            },
{
    let a = trimmed_start(s);
    let from = lemma_start_is_skipped(s);
    let n = lemma_end_is_dropped(a);
    let to = from + n;
    assert(a.take(n) =~= s.subrange(from, to));
    assert forall|i: int| to <= i < s.len() implies is_white_space(#[trigger] s[i]) by {
        assert(a[i - from] == s[i]);
    }
}

proof fn lemma_start_is_skipped(s: Seq<char>) -> (from: int)
    ensures
        0 <= from <= s.len(),
        trimmed_start(s) == s.skip(from),
        forall|i: int| 0 <= i < from ==> is_white_space(#[trigger] s[i]),
    decreases s.len(),
{
    if s.len() > 0 && is_white_space(s[0]) {
        let tail = s.drop_first();
        let k = lemma_start_is_skipped(tail);
        assert(tail.skip(k) =~= s.skip(k + 1));
        assert forall|i: int| 0 <= i < k + 1 implies is_white_space(#[trigger] s[i]) by {
            if i > 0 {
                assert(tail[i - 1] == s[i]);
            }
        }
        k + 1
    } else {
        assert(s.skip(0) =~= s);
        0
    }
}

proof fn lemma_end_is_dropped(s: Seq<char>) -> (n: int)
    ensures
        0 <= n <= s.len(),
        trimmed_end(s) == s.take(n),
        forall|i: int| n <= i < s.len() ==> is_white_space(#[trigger] s[i]),
    decreases s.len(),
{
    if s.len() > 0 && is_white_space(s.last()) {
        let init = s.drop_last();
        let n = lemma_end_is_dropped(init);
        assert(init.take(n) =~= s.take(n));
        assert forall|i: int| n <= i < s.len() implies is_white_space(#[trigger] s[i]) by {
            if i < init.len() {
                assert(init[i] == s[i]);
            }
        }
        n
    } else {
        assert(s.take(s.len() as int) =~= s);
        s.len() as int
    }
}

} // verus!
