//! Small text tools: words of a command line, ASCII case folding, decimal
//! numbers in and out.

use vstd::prelude::*;

verus! {

// ---------------------------------------------------------------- case

/// The ASCII lower-case form of a character; others stay as they are.
pub open spec fn ascii_lower(c: char) -> char {
    if 'A' <= c && c <= 'Z' {
        ((c as u32) + 32) as char
    } else {
        c
    }
}

/// The ASCII lower-case form of a text.
pub open spec fn lower(t: Seq<char>) -> Seq<char> {
    t.map_values(|c: char| ascii_lower(c))
}

pub fn lower_char(c: char) -> (r: char)
    ensures
        r == ascii_lower(c),
{
    if 'A' <= c && c <= 'Z' {
        let v: u8 = c as u8;
        (v + 32) as char
    } else {
        c
    }
}

/// Whether a word is `kw` when ASCII case is ignored (`kw` being lower
/// case).
pub fn word_is(word: &Vec<char>, kw: &str) -> (r: bool)
    ensures
        r == (lower(word@) == kw@),
{
    let n = kw.unicode_len();
    if word.len() != n {
        return false;
    }
    let mut i: usize = 0;
    while i < n
        invariant
            i <= n,
            n == kw@.len(),
            n == word.len(),
            forall|k: int| 0 <= k < i ==> ascii_lower(word@[k]) == kw@[k],
        decreases n - i,
    {
        if lower_char(word[i]) != kw.get_char(i) {
            assert(lower(word@)[i as int] != kw@[i as int]);
            return false;
        }
        i += 1;
    }
    assert(lower(word@) =~= kw@);
    true
}

// ---------------------------------------------------------------- words

/// Unicode white space.
pub open spec fn is_space(c: char) -> bool {
    ||| '\t' <= c && c <= '\r'
    ||| c == ' '
    ||| c == '\u{85}'
    ||| c == '\u{A0}'
    ||| c == '\u{1680}'
    ||| '\u{2000}' <= c && c <= '\u{200A}'
    ||| c == '\u{2028}'
    ||| c == '\u{2029}'
    ||| c == '\u{202F}'
    ||| c == '\u{205F}'
    ||| c == '\u{3000}'
}

pub fn space_char(c: char) -> (r: bool)
    ensures
        r == is_space(c),
{
    ('\t' <= c && c <= '\r') || c == ' ' || c == '\u{85}' || c == '\u{A0}' || c == '\u{1680}' || (
    '\u{2000}' <= c && c <= '\u{200A}') || c == '\u{2028}' || c == '\u{2029}' || c == '\u{202F}' || c
        == '\u{205F}' || c == '\u{3000}'
}

/// The words of `s` following a word `cur` already begun: runs of
/// characters between white space.
pub open spec fn words_after(s: Seq<char>, cur: Seq<char>) -> Seq<Seq<char>>
    decreases s.len(),
{
    if s.len() == 0 {
        if cur.len() > 0 {
            seq![cur]
        } else {
            seq![]
        }
    } else if is_space(s[0]) {
        (if cur.len() > 0 {
            seq![cur]
        } else {
            seq![]
        }) + words_after(s.drop_first(), seq![])
    } else {
        words_after(s.drop_first(), cur.push(s[0]))
    }
}

/// The words of a text, in order.
pub open spec fn words(s: Seq<char>) -> Seq<Seq<char>> {
    words_after(s, seq![])
}

/// Split a text into its words.
pub fn split_words(s: &str) -> (r: Vec<Vec<char>>)
    ensures
        r@.map_values(|w: Vec<char>| w@) == words(s@),
{
    let n = s.unicode_len();
    let mut out: Vec<Vec<char>> = Vec::new();
    let mut cur: Vec<char> = Vec::new();
    let mut i: usize = 0;
    assert(s@.subrange(0, n as int) =~= s@);
    assert(cur@ =~= seq![]);
    assert(out@.map_values(|w: Vec<char>| w@) =~= seq![]);
    assert(seq![] + words_after(s@, seq![]) =~= words(s@));
    while i < n
        invariant
            i <= n,
            n == s@.len(),
            out@.map_values(|w: Vec<char>| w@) + words_after(s@.subrange(i as int, n as int), cur@) == words(
                s@,
            ),
        decreases n - i,
    {
        let c = s.get_char(i);
        let ghost rest = s@.subrange(i as int, n as int);
        assert(rest.drop_first() =~= s@.subrange(i + 1, n as int));
        assert(rest[0] == c);
        if space_char(c) {
            if cur.len() > 0 {
                let ghost prev = out@.map_values(|w: Vec<char>| w@);
                let word = cur;
                cur = Vec::new();
                out.push(word);
                assert(out@.map_values(|w: Vec<char>| w@) =~= prev.push(word@));
                assert(prev.push(word@) + words_after(s@.subrange(i + 1, n as int), seq![]) =~= prev + (
                seq![word@] + words_after(s@.subrange(i + 1, n as int), seq![])));
            } else {
                assert(cur@ =~= seq![]);
                assert(words_after(rest, cur@) =~= seq![] + words_after(s@.subrange(i + 1, n as int), seq![]));
            }
        } else {
            cur.push(c);
        }
        i += 1;
    }
    assert(s@.subrange(n as int, n as int) =~= seq![]);
    if cur.len() > 0 {
        let ghost prev = out@.map_values(|w: Vec<char>| w@);
        out.push(cur);
        assert(out@.map_values(|w: Vec<char>| w@) =~= prev + words_after(seq![], cur@));
    } else {
        assert(out@.map_values(|w: Vec<char>| w@) =~= out@.map_values(|w: Vec<char>| w@) + words_after(
            seq![],
            cur@,
        ));
    }
    out
}

// ---------------------------------------------------------------- numbers

/// The value of a digit character.
pub open spec fn digit_value(c: char) -> int {
    (c as u32) - ('0' as u32)
}

pub open spec fn is_digit(c: char) -> bool {
    '0' <= c && c <= '9'
}

/// The value of a run of decimal digits.
pub open spec fn digits_value(s: Seq<char>) -> int
    decreases s.len(),
{
    if s.len() == 0 {
        0
    } else {
        digits_value(s.drop_last()) * 10 + digit_value(s.last())
    }
}

/// Every character is a decimal digit.
pub open spec fn all_digits(s: Seq<char>) -> bool {
    forall|k: int| 0 <= k < s.len() ==> #[trigger] is_digit(s[k])
}

/// The text after a leading sign, if any.
pub open spec fn unsigned_part(s: Seq<char>) -> Seq<char> {
    if s.len() > 0 && (s[0] == '-' || s[0] == '+') {
        s.drop_first()
    } else {
        s
    }
}

/// The value a text denotes: its digits, negated after a minus sign.
pub open spec fn signed_value(s: Seq<char>) -> int {
    if s.len() > 0 && s[0] == '-' {
        -digits_value(unsigned_part(s))
    } else {
        digits_value(unsigned_part(s))
    }
}

/// The number a text denotes as an `i32`: an optional sign and at least one
/// digit, within range; `None` for anything else.
pub open spec fn parsed_i32(s: Seq<char>) -> Option<i32> {
    if unsigned_part(s).len() == 0 || !all_digits(unsigned_part(s)) || signed_value(s) < i32::MIN
        || signed_value(s) > i32::MAX {
        None
    } else {
        Some(signed_value(s) as i32)
    }
}

proof fn lemma_digits_value_grows(s: Seq<char>, k: int)
    requires
        0 <= k <= s.len(),
        forall|j: int| 0 <= j < s.len() ==> #[trigger] is_digit(s[j]),
    ensures
        0 <= digits_value(s.take(k)) <= digits_value(s),
    decreases s.len() - k,
{
    if k < s.len() {
        lemma_digits_value_grows(s, k + 1);
        assert(s.take(k + 1).drop_last() =~= s.take(k));
        assert(s.take(k + 1).last() == s[k]);
        assert(is_digit(s[k]));
        assert((s[k] as u32) >= ('0' as u32));
        assert forall|j: int| 0 <= j < s.take(k).len() implies #[trigger] is_digit(s.take(k)[j]) by {
            assert(s.take(k)[j] == s[j]);
        }
        lemma_digits_value_nonneg(s.take(k));
    } else {
        assert(s.take(k) =~= s);
        lemma_digits_value_nonneg(s);
    }
}

proof fn lemma_digits_value_nonneg(s: Seq<char>)
    requires
        forall|j: int| 0 <= j < s.len() ==> #[trigger] is_digit(s[j]),
    ensures
        digits_value(s) >= 0,
    decreases s.len(),
{
    if s.len() > 0 {
        assert forall|j: int| 0 <= j < s.drop_last().len() implies #[trigger] is_digit(s.drop_last()[j]) by {
            assert(s.drop_last()[j] == s[j]);
        }
        lemma_digits_value_nonneg(s.drop_last());
        assert(is_digit(s[s.len() - 1]));
        assert((s.last() as u32) >= ('0' as u32));
    }
}

/// The `i32` a word denotes, as `str::parse` reads it.
pub fn parse_i32(w: &Vec<char>) -> (r: Option<i32>)
    ensures
        r == parsed_i32(w@),
{
    let n = w.len();
    let neg = n > 0 && w[0] == '-';
    let start: usize = if n > 0 && (w[0] == '-' || w[0] == '+') {
        1
    } else {
        0
    };
    let ghost body = unsigned_part(w@);
    assert(body =~= w@.subrange(start as int, n as int));
    if start >= n {
        return None;
    }
    let mut acc: i64 = 0;
    let mut i: usize = start;
    while i < n
        invariant
            start <= i <= n,
            n == w.len(),
            start < n,
            body == w@.subrange(start as int, n as int),
            body == unsigned_part(w@),
            neg == (w@.len() > 0 && w@[0] == '-'),
            forall|j: int| 0 <= j < i - start ==> #[trigger] is_digit(body[j]),
            acc == digits_value(body.take(i - start)),
            0 <= acc <= 2147483648,
        decreases n - i,
    {
        let c = w[i];
        if !('0' <= c && c <= '9') {
            assert(!is_digit(body[i - start]));
            assert(!all_digits(body));
            return None;
        }
        let d: i64 = (c as u32 - '0' as u32) as i64;
        assert(body.take(i - start + 1).drop_last() =~= body.take(i - start));
        assert(body.take(i - start + 1).last() == c);
        let next = acc * 10 + d;
        if next > 2147483648 {
            proof {
                // the rest can only make the value larger
                let ghost m = i - start + 1;
                assert(digits_value(body.take(m)) == next);
                if all_digits(body) {
                    lemma_digits_value_grows(body, m);
                    assert(digits_value(body) > 2147483648);
                }
            }
            return None;
        }
        acc = next;
        i += 1;
    }
    assert(body.take(n - start) =~= body);
    let v: i64 = if neg {
        -acc
    } else {
        acc
    };
    if v < -2147483648 || v > 2147483647 {
        None
    } else {
        Some(v as i32)
    }
}

/// The decimal digits of a non-negative number.
pub open spec fn digits_of(n: nat) -> Seq<char>
    decreases n,
{
    if n < 10 {
        seq![(('0' as u32) + n) as char]
    } else {
        digits_of(n / 10).push((('0' as u32) + n % 10) as char)
    }
}

/// A number written in decimal, with a minus sign when negative.
pub open spec fn decimal(n: int) -> Seq<char> {
    if n < 0 {
        seq!['-'] + digits_of((-n) as nat)
    } else {
        digits_of(n as nat)
    }
}

proof fn lemma_digits_of(n: nat)
    ensures
        digits_of(n).len() >= 1,
        all_digits(digits_of(n)),
        digits_value(digits_of(n)) == n,
    decreases n,
{
    let c = (('0' as u32) + n % 10) as char;
    assert((c as u32) == 48 + n % 10);
    if n < 10 {
        assert(digits_of(n) =~= seq![c]);
        assert(seq![c].drop_last() =~= Seq::<char>::empty());
        assert(is_digit(seq![c][0]));
        assert(digits_value(Seq::<char>::empty()) == 0);
        assert(digit_value(c) == n);
        assert(digits_value(seq![c]) == digits_value(seq![c].drop_last()) * 10 + digit_value(c));
    } else {
        lemma_digits_of(n / 10);
        let s = digits_of(n / 10).push(c);
        assert(s.drop_last() =~= digits_of(n / 10));
        assert(s.last() == c);
        assert forall|k: int| 0 <= k < s.len() implies #[trigger] is_digit(s[k]) by {
            if k < s.len() - 1 {
                assert(s[k] == digits_of(n / 10)[k]);
                assert(is_digit(digits_of(n / 10)[k]));
            }
        }
        assert(n == (n / 10) * 10 + n % 10);
        assert(digit_value(c) == n % 10);
        assert(digits_value(s) == digits_value(s.drop_last()) * 10 + digit_value(s.last()));
    }
}

/// A number written by `decimal` reads back, through `parsed_i32`, as the
/// same number.
pub proof fn lemma_decimal_reads_back(n: i32)
    ensures
        parsed_i32(decimal(n as int)) == Some(n),
{
    let m: nat = if n < 0 {
        (-n) as nat
    } else {
        n as nat
    };
    lemma_digits_of(m);
    let d = digits_of(m);
    assert(is_digit(d[0]));
    if n < 0 {
        let t = seq!['-'] + d;
        assert(t[0] == '-');
        assert(t.drop_first() =~= d);
        assert(unsigned_part(t) == d);
    } else {
        assert(unsigned_part(d) == d);
    }
}

fn digit_text(d: u64) -> (r: &'static str)
    requires
        d < 10,
    ensures
        r@ == seq![(('0' as u32) + d) as char],
{
    proof {
        reveal_strlit("0");
        reveal_strlit("1");
        reveal_strlit("2");
        reveal_strlit("3");
        reveal_strlit("4");
        reveal_strlit("5");
        reveal_strlit("6");
        reveal_strlit("7");
        reveal_strlit("8");
        reveal_strlit("9");
    }
    match d {
        0 => "0",
        1 => "1",
        2 => "2",
        3 => "3",
        4 => "4",
        5 => "5",
        6 => "6",
        7 => "7",
        8 => "8",
        _ => "9",
    }
}

/// Append the decimal digits of `n` to `s`.
fn push_digits(s: &mut String, n: u64)
    ensures
        final(s)@ == old(s)@ + digits_of(n as nat),
    decreases n,
{
    if n < 10 {
        s.append(digit_text(n));
    } else {
        push_digits(s, n / 10);
        s.append(digit_text(n % 10));
    }
}

/// A number written in decimal.
pub fn decimal_text(n: i64) -> (r: String)
    requires
        n > i64::MIN,
    ensures
        r@ == decimal(n as int),
{
    let mut s = String::new();
    if n < 0 {
        proof {
            reveal_strlit("-");
        }
        s.append("-");
        push_digits(&mut s, (-n) as u64);
    } else {
        push_digits(&mut s, n as u64);
    }
    s
}

} // verus!
