//! Text helpers: decimal rendering and reading of integers, and trimming,
//! splitting and joining of character sequences.
use vstd::prelude::*;
use vstd::string::{StrSliceExecFns, StringExecFns};

verus! {

/// The ASCII digit for `d < 10`.
pub open spec fn digit_char(d: nat) -> char {
    if d == 0 {
        '0'
    } else if d == 1 {
        '1'
    } else if d == 2 {
        '2'
    } else if d == 3 {
        '3'
    } else if d == 4 {
        '4'
    } else if d == 5 {
        '5'
    } else if d == 6 {
        '6'
    } else if d == 7 {
        '7'
    } else if d == 8 {
        '8'
    } else {
        '9'
    }
}

/// Decimal digits of `n`, without leading zeros.
pub open spec fn dec_nat(n: nat) -> Seq<char>
    decreases n,
{
    if n < 10 {
        seq![digit_char(n)]
    } else {
        dec_nat(n / 10).push(digit_char(n % 10))
    }
}

/// Decimal rendering of `n`, with a leading `-` when negative.
pub open spec fn dec_int(n: int) -> Seq<char> {
    if n < 0 {
        seq!['-'] + dec_nat((-n) as nat)
    } else {
        dec_nat(n as nat)
    }
}

/// `s` preceded by as many `0`s as make it `width` long.
pub open spec fn zero_pad(s: Seq<char>, width: nat) -> Seq<char> {
    if s.len() >= width {
        s
    } else {
        Seq::new((width - s.len()) as nat, |i: int| '0') + s
    }
}

/// The one-character string of a digit.
pub fn digit_str(d: u8) -> (res: &'static str)
    requires
        d < 10,
    ensures
        res@ == seq![digit_char(d as nat)],
{
    proof {
        reveal_strlit("0");
        reveal_strlit("1");
        reveal_strlit("2");
        reveal_strlit("3");
        reveal_strlit("4");
        reveal_strlit("5");
        reveal_strlit("6");
        reveal_strlit("7");
        reveal_strlit("8");
        reveal_strlit("9");
    }
    if d == 0 {
        "0"
    } else if d == 1 {
        "1"
    } else if d == 2 {
        "2"
    } else if d == 3 {
        "3"
    } else if d == 4 {
        "4"
    } else if d == 5 {
        "5"
    } else if d == 6 {
        "6"
    } else if d == 7 {
        "7"
    } else if d == 8 {
        "8"
    } else {
        "9"
    }
}

/// Decimal digits of `n`, most significant first.
pub fn decimal_digits(n: u128) -> (res: Vec<u8>)
    ensures
        res@.len() == dec_nat(n as nat).len(),
        forall|i: int| 0 <= i < res@.len() ==> res@[i] < 10,
        forall|i: int|
            0 <= i < res@.len() ==> digit_char(#[trigger] res@[i] as nat) == dec_nat(n as nat)[i],
    decreases n,
{
    if n < 10 {
        let mut v: Vec<u8> = Vec::new();
        v.push(n as u8);
        v
    } else {
        let mut v = decimal_digits(n / 10);
        let d = (n % 10) as u8;
        let ghost before = v@;
        v.push(d);
        proof {
            assert(dec_nat(n as nat) == dec_nat((n / 10) as nat).push(digit_char((n % 10) as nat)));
            assert forall|i: int| 0 <= i < v@.len() implies digit_char(#[trigger] v@[i] as nat)
                == dec_nat(n as nat)[i] by {
                if i < before.len() {
                    assert(v@[i] == before[i]);
                }
            }
        }
        v
    }
}

/// Appends the decimal digits of `n`.
pub fn push_decimal(s: &mut String, n: u128)
    ensures
        final(s)@ == old(s)@ + dec_nat(n as nat),
{
    let digits = decimal_digits(n);
    let ghost start = s@;
    let mut i: usize = 0;
    while i < digits.len()
        invariant
            i <= digits@.len(),
            digits@.len() == dec_nat(n as nat).len(),
            forall|j: int| 0 <= j < digits@.len() ==> digits@[j] < 10,
            forall|j: int|
                0 <= j < digits@.len() ==> digit_char(#[trigger] digits@[j] as nat) == dec_nat(
                    n as nat,
                )[j],
            s@ == start + dec_nat(n as nat).subrange(0, i as int),
        decreases digits@.len() - i,
    {
        let d = digits[i];
        s.append(digit_str(d));
        assert(dec_nat(n as nat).subrange(0, i + 1) =~= dec_nat(n as nat).subrange(
            0,
            i as int,
        ).push(digit_char(d as nat)));
        i = i + 1;
    }
    assert(dec_nat(n as nat).subrange(0, i as int) =~= dec_nat(n as nat));
}

/// Appends the decimal rendering of a signed `n`.
pub fn push_decimal_signed(s: &mut String, n: i128)
    ensures
        final(s)@ == old(s)@ + dec_int(n as int),
{
    if n < 0 {
        proof {
            reveal_strlit("-");
        }
        s.append("-");
        let m: u128 = if n == i128::MIN {
            0x8000_0000_0000_0000_0000_0000_0000_0000u128
        } else {
            (-n) as u128
        };
        let ghost mid = s@;
        push_decimal(s, m);
        assert(s@ =~= old(s)@ + dec_int(n as int));
    } else {
        push_decimal(s, n as u128);
    }
}

/// Appends the decimal digits of `n`, padded with leading zeros to `width`.
pub fn push_decimal_padded(s: &mut String, n: u128, width: usize)
    ensures
        final(s)@ == old(s)@ + zero_pad(dec_nat(n as nat), width as nat),
{
    let digits = decimal_digits(n);
    let ghost start = s@;
    let ghost d = dec_nat(n as nat);
    if digits.len() < width {
        let pad = width - digits.len();
        let mut k: usize = 0;
        proof {
            reveal_strlit("0");
        }
        while k < pad
            invariant
                k <= pad,
                s@ == start + Seq::new(k as nat, |i: int| '0'),
            decreases pad - k,
        {
            proof {
                reveal_strlit("0");
            }
            s.append("0");
            assert(Seq::new((k + 1) as nat, |i: int| '0') =~= Seq::new(k as nat, |i: int| '0').push(
                '0',
            ));
            k = k + 1;
        }
    }
    let ghost mid = s@;
    push_decimal(s, n);
    assert(s@ =~= start + zero_pad(d, width as nat));
}

/// Appends a literal.
pub fn push_str(s: &mut String, t: &str)
    ensures
        final(s)@ == old(s)@ + t@,
{
    s.append(t);
}

/// `char::is_whitespace`: the characters with the Unicode `White_Space`
/// property.
pub open spec fn is_ws(c: char) -> bool {
    ('\u{9}' <= c <= '\u{d}') || c == ' ' || c == '\u{85}' || c == '\u{a0}' || c == '\u{1680}'
        || ('\u{2000}' <= c <= '\u{200a}') || c == '\u{2028}' || c == '\u{2029}' || c
        == '\u{202f}' || c == '\u{205f}' || c == '\u{3000}'
}

/// True for a whitespace character.
pub fn is_whitespace(c: char) -> (res: bool)
    ensures
        res == is_ws(c),
{
    ('\u{9}' <= c && c <= '\u{d}') || c == ' ' || c == '\u{85}' || c == '\u{a0}' || c
        == '\u{1680}' || ('\u{2000}' <= c && c <= '\u{200a}') || c == '\u{2028}' || c
        == '\u{2029}' || c == '\u{202f}' || c == '\u{205f}' || c == '\u{3000}'
}

/// `s` without its leading whitespace.
pub open spec fn trim_start(s: Seq<char>) -> Seq<char>
    decreases s.len(),
{
    if s.len() > 0 && is_ws(s[0]) {
        trim_start(s.drop_first())
    } else {
        s
    }
}

/// `s` without its trailing whitespace.
pub open spec fn trim_end(s: Seq<char>) -> Seq<char>
    decreases s.len(),
{
    if s.len() > 0 && is_ws(s.last()) {
        trim_end(s.drop_last())
    } else {
        s
    }
}

/// `s` without leading and trailing whitespace, as `str::trim` leaves it.
pub open spec fn trim(s: Seq<char>) -> Seq<char> {
    trim_end(trim_start(s))
}

/// The bounds `(a, b)` of `s[a..b] == trim(s)`.
pub fn trim_bounds(s: &[char]) -> (res: (usize, usize))
    ensures
        res.0 <= res.1 <= s@.len(),
        s@.subrange(res.0 as int, res.1 as int) == trim(s@),
{
    let n = s.len();
    let mut a: usize = 0;
    assert(s@.subrange(0, n as int) =~= s@);
    while a < n && is_whitespace(s[a])
        invariant
            a <= n,
            n == s@.len(),
            trim_start(s@) == trim_start(s@.subrange(a as int, n as int)),
        decreases n - a,
    {
        assert(s@.subrange(a as int, n as int).drop_first() =~= s@.subrange(a + 1, n as int));
        a = a + 1;
    }
    assert(trim_start(s@) == s@.subrange(a as int, n as int));
    let mut b: usize = n;
    while b > a && is_whitespace(s[b - 1])
        invariant
            a <= b <= n,
            n == s@.len(),
            trim(s@) == trim_end(s@.subrange(a as int, b as int)),
        decreases b,
    {
        assert(s@.subrange(a as int, b as int).drop_last() =~= s@.subrange(a as int, b - 1));
        b = b - 1;
    }
    (a, b)
}

/// The pieces of `s` between the occurrences of `sep`, as `str::split` gives
/// them.
pub open spec fn split_on<T>(s: Seq<T>, sep: T) -> Seq<Seq<T>>
    decreases s.len(),
{
    if s.len() == 0 {
        seq![Seq::empty()]
    } else {
        let p = split_on(s.drop_last(), sep);
        if s.last() == sep {
            p.push(Seq::empty())
        } else {
            p.update(p.len() - 1, p.last().push(s.last()))
        }
    }
}

pub proof fn lemma_split_on_nonempty<T>(s: Seq<T>, sep: T)
    ensures
        split_on(s, sep).len() >= 1,
    decreases s.len(),
{
    if s.len() > 0 {
        lemma_split_on_nonempty(s.drop_last(), sep);
    }
}

/// The pieces of `s` between the occurrences of `sep`, as owned strings.
pub fn split_str(s: &str, sep: char) -> (res: Vec<String>)
    ensures
        res@.len() == split_on(s@, sep).len(),
        forall|j: int| 0 <= j < res@.len() ==> #[trigger] res@[j]@ == split_on(s@, sep)[j],
{
    let chars = crate::config::chars_of(s);
    let n = chars.len();
    let mut out: Vec<String> = Vec::new();
    let mut start: usize = 0;
    let mut i: usize = 0;
    let ghost mut raw: Seq<Seq<char>> = Seq::empty();
    assert(s@.subrange(0, 0) =~= Seq::<char>::empty());
    assert(split_on(s@.subrange(0, 0), sep) =~= raw.push(s@.subrange(0, 0)));
    while i < n
        invariant
            start <= i <= n,
            n == s@.len(),
            chars@ == s@,
            split_on(s@.subrange(0, i as int), sep) == raw.push(s@.subrange(start as int, i as int)),
            out@.len() == raw.len(),
            forall|j: int| 0 <= j < out@.len() ==> #[trigger] out@[j]@ == raw[j],
        decreases n - i,
    {
        let ghost prefix = s@.subrange(0, i + 1);
        assert(prefix.drop_last() =~= s@.subrange(0, i as int));
        assert(prefix.last() == s@[i as int]);
        if chars[i] == sep {
            let t = String::from_str(s.substring_char(start, i));
            let ghost old_raw = raw;
            out.push(t);
            proof {
                raw = raw.push(s@.subrange(start as int, i as int));
                assert(split_on(prefix, sep) == old_raw.push(s@.subrange(start as int, i as int)).push(
                    Seq::empty(),
                ));
            }
            start = i + 1;
            assert(s@.subrange(start as int, i + 1) =~= Seq::<char>::empty());
            assert(split_on(prefix, sep) =~= raw.push(s@.subrange(start as int, i + 1)));
        } else {
            assert(s@.subrange(start as int, i + 1) =~= s@.subrange(start as int, i as int).push(
                chars[i as int],
            ));
            assert(split_on(prefix, sep) =~= raw.push(s@.subrange(start as int, i + 1)));
        }
        i = i + 1;
    }
    let t = String::from_str(s.substring_char(start, n));
    out.push(t);
    proof {
        assert(s@.subrange(0, n as int) =~= s@);
        raw = raw.push(s@.subrange(start as int, n as int));
    }
    out
}

/// `s` without leading and trailing whitespace, as an owned string.
pub fn trim_string(s: &str) -> (res: String)
    ensures
        res@ == trim(s@),
{
    let chars = crate::config::chars_of(s);
    let (a, b) = trim_bounds(chars.as_slice());
    String::from_str(s.substring_char(a, b))
}

/// The pieces of `s` between commas, each trimmed, as owned strings.
pub fn split_commas_trimmed(s: &str) -> (res: Vec<String>)
    ensures
        res@.len() == split_on(s@, ',').len(),
        forall|j: int| 0 <= j < res@.len() ==> #[trigger] res@[j]@ == trim(split_on(s@, ',')[j]),
{
    let pieces = split_str(s, ',');
    let mut out: Vec<String> = Vec::new();
    let mut i: usize = 0;
    while i < pieces.len()
        invariant
            i <= pieces@.len(),
            pieces@.len() == split_on(s@, ',').len(),
            forall|j: int| 0 <= j < pieces@.len() ==> #[trigger] pieces@[j]@ == split_on(s@, ',')[j],
            out@.len() == i,
            forall|j: int| 0 <= j < i ==> #[trigger] out@[j]@ == trim(split_on(s@, ',')[j]),
        decreases pieces@.len() - i,
    {
        let t = trim_string(pieces[i].as_str());
        out.push(t);
        i = i + 1;
    }
    out
}

/// The part of `s` before the first `sep` and the part after it; `None`
/// when there is no `sep`.
pub open spec fn split_once(s: Seq<char>, sep: char) -> Option<(Seq<char>, Seq<char>)>
    decreases s.len(),
{
    if s.len() == 0 {
        None
    } else if s[0] == sep {
        Some((Seq::empty(), s.drop_first()))
    } else {
        match split_once(s.drop_first(), sep) {
            Some((a, b)) => Some((seq![s[0]] + a, b)),
            None => None,
        }
    }
}

proof fn lemma_split_once_at(s: Seq<char>, sep: char, i: int)
    requires
        0 <= i <= s.len(),
        forall|j: int| 0 <= j < i ==> s[j] != sep,
    ensures
        i < s.len() && s[i] == sep ==> split_once(s, sep) == Some((s.subrange(0, i), s.subrange(i + 1, s.len() as int))),
        i == s.len() ==> split_once(s, sep) is None,
    decreases i,
{
    if i > 0 {
        lemma_split_once_at(s.drop_first(), sep, i - 1);
        if i < s.len() {
            assert(seq![s[0]] + s.drop_first().subrange(0, i - 1) =~= s.subrange(0, i));
            assert(s.drop_first().subrange(i, s.len() - 1) =~= s.subrange(i + 1, s.len() as int));
        }
    } else {
        if s.len() > 0 {
            assert(s.subrange(0, 0) =~= Seq::<char>::empty());
            assert(s.drop_first() =~= s.subrange(1, s.len() as int));
        }
    }
}

/// Splits `s` at the first `sep`, as `str::split_once` does.
pub fn split_once_str(s: &str, sep: char) -> (res: Option<(String, String)>)
    ensures
        match split_once(s@, sep) {
            Some((a, b)) => res matches Some((x, y)) && x@ == a && y@ == b,
            None => res is None,
        },
{
    let chars = crate::config::chars_of(s);
    let n = chars.len();
    let mut i: usize = 0;
    while i < n && chars[i] != sep
        invariant
            i <= n,
            n == s@.len(),
            chars@ == s@,
            forall|j: int| 0 <= j < i ==> s@[j] != sep,
        decreases n - i,
    {
        i = i + 1;
    }
    proof {
        lemma_split_once_at(s@, sep, i as int);
    }
    if i < n {
        Some((String::from_str(s.substring_char(0, i)), String::from_str(s.substring_char(i + 1, n))))
    } else {
        None
    }
}

/// The pieces joined with `sep` between them, as `join` on a slice of
/// strings gives them.
pub open spec fn join_with(parts: Seq<Seq<char>>, sep: Seq<char>) -> Seq<char>
    decreases parts.len(),
{
    if parts.len() == 0 {
        Seq::empty()
    } else if parts.len() == 1 {
        parts[0]
    } else {
        join_with(parts.drop_last(), sep) + sep + parts.last()
    }
}

/// The strings joined with commas.
pub fn join_commas(parts: &[String]) -> (res: String)
    ensures
        res@ == join_with(parts@.map_values(|x: String| x@), ","@),
{
    let mut s = String::new();
    let mut i: usize = 0;
    while i < parts.len()
        invariant
            i <= parts@.len(),
            s@ == join_with(parts@.subrange(0, i as int).map_values(|x: String| x@), ","@),
        decreases parts@.len() - i,
    {
        let ghost before = parts@.subrange(0, i as int).map_values(|x: String| x@);
        let ghost after = parts@.subrange(0, i + 1).map_values(|x: String| x@);
        assert(after.drop_last() =~= before);
        if i > 0 {
            s.append(",");
        }
        s.append(parts[i].as_str());
        i = i + 1;
    }
    assert(parts@.subrange(0, i as int) =~= parts@);
    s
}

/// Decimal value of a sequence of digit characters.
pub open spec fn digits_value(s: Seq<char>) -> nat
    decreases s.len(),
{
    if s.len() == 0 {
        0
    } else {
        digits_value(s.drop_last()) * 10 + (s.last() as u32 - '0' as u32) as nat
    }
}

/// All characters of `s` are ASCII digits.
pub open spec fn all_digits(s: Seq<char>) -> bool {
    forall|i: int| 0 <= i < s.len() ==> '0' <= #[trigger] s[i] <= '9'
}

/// `u64::from_str`: an optional `+`, then at least one digit, with a value
/// that fits.
pub open spec fn spec_parse_u64(s: Seq<char>) -> Option<u64> {
    let body = if s.len() > 0 && s[0] == '+' {
        s.drop_first()
    } else {
        s
    };
    if body.len() > 0 && all_digits(body) && digits_value(body) <= u64::MAX {
        Some(digits_value(body) as u64)
    } else {
        None
    }
}

proof fn lemma_digits_value_grows(s: Seq<char>, k: int)
    requires
        0 <= k <= s.len(),
        all_digits(s),
    ensures
        digits_value(s.subrange(0, k)) <= digits_value(s),
    decreases s.len(),
{
    if k < s.len() {
        assert(s.drop_last() =~= s.subrange(0, s.len() - 1));
        assert(all_digits(s.drop_last()));
        lemma_digits_value_grows(s.drop_last(), k);
        assert(s.drop_last().subrange(0, k) =~= s.subrange(0, k));
    } else {
        assert(s.subrange(0, k) =~= s);
    }
}

/// Parses an unsigned decimal as `u64::from_str` does.
pub fn parse_u64(s: &[char]) -> (res: Option<u64>)
    ensures
        res == spec_parse_u64(s@),
{
    let n = s.len();
    let start: usize = if n > 0 && s[0] == '+' { 1 } else { 0 };
    let ghost body = if s@.len() > 0 && s@[0] == '+' {
        s@.drop_first()
    } else {
        s@
    };
    assert(body =~= s@.subrange(start as int, n as int));
    if start == n {
        return None;
    }
    let mut acc: u64 = 0;
    let mut i: usize = start;
    while i < n
        invariant
            start <= i <= n,
            n == s@.len(),
            body == s@.subrange(start as int, n as int),
            body == (if s@.len() > 0 && s@[0] == '+' {
                s@.drop_first()
            } else {
                s@
            }),
            all_digits(s@.subrange(start as int, i as int)),
            acc == digits_value(s@.subrange(start as int, i as int)),
        decreases n - i,
    {
        let c = s[i];
        assert(s@.subrange(start as int, i + 1).drop_last() =~= s@.subrange(start as int, i as int));
        if !('0' <= c && c <= '9') {
            assert(body[i - start] == c);
            assert(!all_digits(body));
            assert(spec_parse_u64(s@) is None);
            return None;
        }
        let d = (c as u32 - '0' as u32) as u64;
        assert(all_digits(s@.subrange(start as int, i + 1)));
        match acc.checked_mul(10) {
            Some(m) => match m.checked_add(d) {
                Some(v) => {
                    acc = v;
                },
                None => {
                    proof {
                        lemma_no_fit(s@, start as int, i + 1, n as int);
                        assert(spec_parse_u64(s@) is None);
                    }
                    return None;
                },
            },
            None => {
                proof {
                    lemma_no_fit(s@, start as int, i + 1, n as int);
                    assert(spec_parse_u64(s@) is None);
                }
                return None;
            },
        }
        i = i + 1;
    }
    Some(acc)
}

/// A digit prefix that is already too large for `u64` leaves the whole
/// number too large, or not all digits.
proof fn lemma_no_fit(s: Seq<char>, start: int, k: int, n: int)
    requires
        0 <= start < k <= n == s.len(),
        all_digits(s.subrange(start, k)),
        digits_value(s.subrange(start, k)) > u64::MAX,
    ensures
        !(all_digits(s.subrange(start, n)) && digits_value(s.subrange(start, n)) <= u64::MAX),
{
    if all_digits(s.subrange(start, n)) {
        lemma_digits_value_grows(s.subrange(start, n), k - start);
        assert(s.subrange(start, n).subrange(0, k - start) =~= s.subrange(start, k));
    }
}

/// Decimal digits read back give the number: `u64::from_str` of the
/// rendering of `n` is `n`.
pub proof fn lemma_parse_dec_nat(n: u64)
    ensures
        spec_parse_u64(dec_nat(n as nat)) == Some(n),
{
    lemma_dec_nat_digits(n as nat);
    let d = dec_nat(n as nat);
    assert(d[0] != '+');
}

/// The decimal rendering of `n` is a non-empty run of digits of value `n`.
pub proof fn lemma_dec_nat_digits(n: nat)
    ensures
        dec_nat(n).len() >= 1,
        all_digits(dec_nat(n)),
        digits_value(dec_nat(n)) == n,
    decreases n,
{
    lemma_digit_char_value(n % 10);
    if n < 10 {
        let d = dec_nat(n);
        assert(d.drop_last() =~= Seq::<char>::empty());
        assert(n % 10 == n);
        assert(digits_value(d) == digits_value(d.drop_last()) * 10 + (d.last() as u32 - '0' as u32) as nat);
    } else {
        lemma_dec_nat_digits(n / 10);
        let p = dec_nat(n / 10);
        let d = dec_nat(n);
        assert(d.drop_last() =~= p);
        assert(digits_value(d) == digits_value(p) * 10 + (d.last() as u32 - '0' as u32) as nat);
        assert(n == (n / 10) * 10 + n % 10);
        assert forall|i: int| 0 <= i < d.len() implies '0' <= #[trigger] d[i] <= '9' by {
            if i < p.len() {
                assert(d[i] == p[i]);
            }
        }
    }
}

proof fn lemma_digit_char_value(d: nat)
    requires
        d < 10,
    ensures
        '0' <= digit_char(d) <= '9',
        (digit_char(d) as u32 - '0' as u32) == d,
{
}

/// A sequence holding a character that is not whitespace does not trim to
/// nothing.
pub proof fn lemma_trim_keeps(s: Seq<char>, i: int)
    requires
        0 <= i < s.len(),
        !is_ws(s[i]),
    ensures
        trim(s).len() > 0,
{
    lemma_trim_start_keeps(s, i);
    let j = lemma_trim_start_keeps(s, i);
    lemma_trim_end_keeps(trim_start(s), j);
}

proof fn lemma_trim_start_keeps(s: Seq<char>, i: int) -> (j: int)
    requires
        0 <= i < s.len(),
        !is_ws(s[i]),
    ensures
        0 <= j < trim_start(s).len(),
        !is_ws(trim_start(s)[j]),
    decreases s.len(),
{
    if s.len() > 0 && is_ws(s[0]) {
        assert(i > 0);
        assert(s.drop_first()[i - 1] == s[i]);
        lemma_trim_start_keeps(s.drop_first(), i - 1)
    } else {
        i
    }
}

proof fn lemma_trim_end_keeps(s: Seq<char>, i: int)
    requires
        0 <= i < s.len(),
        !is_ws(s[i]),
    ensures
        trim_end(s).len() > 0,
    decreases s.len(),
{
    if s.len() > 0 && is_ws(s.last()) {
        assert(i < s.len() - 1);
        assert(s.drop_last()[i] == s[i]);
        lemma_trim_end_keeps(s.drop_last(), i);
    }
}

/// Splitting after appending a comma-free `y` behind a comma adds `y` as a
/// last piece.
proof fn lemma_split_append(a: Seq<char>, y: Seq<char>)
    requires
        forall|i: int| 0 <= i < y.len() ==> y[i] != ',',
    ensures
        split_on(a + seq![','] + y, ',') == split_on(a, ',').push(y),
    decreases y.len(),
{
    if y.len() == 0 {
        assert(y =~= Seq::<char>::empty());
        assert(a + seq![','] + y =~= a.push(','));
        assert(a.push(',').drop_last() =~= a);
        assert(split_on(a.push(','), ',') == split_on(a, ',').push(Seq::empty()));
    } else {
        let y0 = y.drop_last();
        lemma_split_append(a, y0);
        assert((a + seq![','] + y).drop_last() =~= a + seq![','] + y0);
        lemma_split_on_nonempty(a, ',');
        let p = split_on(a, ',');
        assert(y0.push(y.last()) =~= y);
        assert(split_on(a + seq![','] + y, ',') =~= p.push(y0).update(p.len() as int, y0.push(
            y.last(),
        )));
        assert(p.push(y0).update(p.len() as int, y) =~= p.push(y));
    }
}

/// Splitting a comma-free `y` gives `y` alone.
proof fn lemma_split_single(y: Seq<char>)
    requires
        forall|i: int| 0 <= i < y.len() ==> y[i] != ',',
    ensures
        split_on(y, ',') == seq![y],
    decreases y.len(),
{
    if y.len() == 0 {
        assert(y =~= Seq::<char>::empty());
    } else {
        let y0 = y.drop_last();
        lemma_split_single(y0);
        assert(y0.push(y.last()) =~= y);
        assert(seq![y0].update(0, y0.push(y.last())) =~= seq![y]);
    }
}

/// Joining comma-free pieces with commas and splitting on commas gives
/// the pieces back.
pub proof fn lemma_split_join(parts: Seq<Seq<char>>)
    requires
        parts.len() >= 1,
        forall|k: int, i: int| 0 <= k < parts.len() && 0 <= i < parts[k].len() ==> parts[k][i] != ',',
    ensures
        split_on(join_with(parts, ","@), ',') == parts,
    decreases parts.len(),
{
    reveal_strlit(",");
    if parts.len() == 1 {
        lemma_split_single(parts[0]);
        assert(seq![parts[0]] =~= parts);
    } else {
        let init = parts.drop_last();
        lemma_split_join(init);
        assert(","@ =~= seq![',']);
        lemma_split_append(join_with(init, ","@), parts.last());
        assert(init.push(parts.last()) =~= parts);
    }
}

} // verus!
