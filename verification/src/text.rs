//! Strings as sequences of characters: their order, decimal numbers and substrings.
use vstd::prelude::*;
use vstd::string::*;

verus! {

/// The characters of each of a sequence of strings.
pub open spec fn texts_of(strings: Seq<String>) -> Seq<Seq<char>> {
    Seq::new(strings.len(), |i: int| strings[i]@)
}

/// The characters of an optional string.
pub open spec fn text_of(string: Option<String>) -> Option<Seq<char>> {
    match string {
        Some(s) => Some(s@),
        None => None,
    }
}

/// How one string stands to another.
#[derive(Debug, Clone, Copy, PartialEq, Eq, Structural)]
pub enum Side {
    Below,
    Same,
    Above,
}

/// The order in which strings are sorted: by the first character that differs, a proper prefix
/// first.
pub open spec fn key_lt(a: Seq<char>, b: Seq<char>) -> bool
    decreases a.len(),
{
    if b.len() == 0 {
        false
    } else if a.len() == 0 {
        true
    } else if a[0] != b[0] {
        a[0] < b[0]
    } else {
        key_lt(a.drop_first(), b.drop_first())
    }
}

/// No string is below itself.
pub proof fn lemma_key_lt_irreflexive(a: Seq<char>)
    ensures
        !key_lt(a, a),
    decreases a.len(),
{
    if a.len() > 0 {
        lemma_key_lt_irreflexive(a.drop_first());
    }
}

/// The order of strings is transitive.
pub proof fn lemma_key_lt_transitive(a: Seq<char>, b: Seq<char>, c: Seq<char>)
    requires
        key_lt(a, b),
        key_lt(b, c),
    ensures
        key_lt(a, c),
    decreases a.len(),
{
    if a.len() > 0 && b.len() > 0 && c.len() > 0 && a[0] == b[0] && b[0] == c[0] {
        lemma_key_lt_transitive(a.drop_first(), b.drop_first(), c.drop_first());
    }
}

/// Two strings neither of which is below the other are the same string.
pub proof fn lemma_key_lt_total(a: Seq<char>, b: Seq<char>)
    requires
        !key_lt(a, b),
        !key_lt(b, a),
    ensures
        a == b,
    decreases a.len(),
{
    if a.len() > 0 && b.len() > 0 {
        lemma_key_lt_total(a.drop_first(), b.drop_first());
        assert(a =~= seq![a[0]] + a.drop_first());
        assert(b =~= seq![b[0]] + b.drop_first());
    }
}

/// The characters of a string.
pub fn chars_of(s: &str) -> (r: Vec<char>)
    ensures
        r@ == s@,
{
    let mut r: Vec<char> = Vec::new();
    for c in it: s.chars()
        invariant
            r@ == it.seq().take(it.index()),
            it.seq() == s@,
    {
        r.push(c);
    }
    r
}

/// Tells on which side of `b` the string `a` sorts.
pub fn compare(a: &str, b: &str) -> (r: Side)
    ensures
        r == Side::Below <==> key_lt(a@, b@),
        r == Side::Same <==> a@ == b@,
        r == Side::Above <==> key_lt(b@, a@),
{
    let x: Vec<char> = chars_of(a);
    let y: Vec<char> = chars_of(b);
    let mut i: usize = 0;
    proof {
        lemma_key_lt_irreflexive(a@);
        assert(a@.skip(0) =~= a@);
        assert(b@.skip(0) =~= b@);
    }
    while i < x.len() && i < y.len() && x[i] == y[i]
        invariant
            i <= x.len(),
            i <= y.len(),
            x@ == a@,
            y@ == b@,
            a@.take(i as int) == b@.take(i as int),
            key_lt(a@, b@) == key_lt(a@.skip(i as int), b@.skip(i as int)),
            key_lt(b@, a@) == key_lt(b@.skip(i as int), a@.skip(i as int)),
        decreases x.len() - i,
    {
        proof {
            assert(a@.skip(i as int).drop_first() =~= a@.skip(i + 1));
            assert(b@.skip(i as int).drop_first() =~= b@.skip(i + 1));
            assert(a@.take(i + 1) =~= a@.take(i as int).push(a@[i as int]));
            assert(b@.take(i + 1) =~= b@.take(i as int).push(b@[i as int]));
        }
        i = i + 1;
    }
    if i == x.len() && i == y.len() {
        assert(a@ =~= a@.take(i as int));
        assert(b@ =~= b@.take(i as int));
        Side::Same
    } else if i == x.len() {
        Side::Below
    } else if i == y.len() {
        Side::Above
    } else if x[i] < y[i] {
        Side::Below
    } else {
        Side::Above
    }
}

/// The decimal digit `d`.
pub open spec fn digit(d: int) -> char {
    ('0' as int + d) as char
}

/// A number in decimal, without leading zeros.
pub open spec fn decimal(n: nat) -> Seq<char>
    decreases n,
{
    if n < 10 {
        seq![digit(n as int)]
    } else {
        decimal(n / 10).push(digit((n % 10) as int))
    }
}

/// A signed number in decimal.
pub open spec fn signed_decimal(i: int) -> Seq<char> {
    if i < 0 {
        seq!['-'] + decimal((-i) as nat)
    } else {
        decimal(i as nat)
    }
}

/// Whether `c` is a decimal digit.
pub open spec fn is_digit(c: char) -> bool {
    '0' <= c <= '9'
}

/// Whether every character of `s` is a decimal digit.
pub open spec fn all_digits(s: Seq<char>) -> bool {
    forall|i: int| 0 <= i < s.len() ==> is_digit(#[trigger] s[i])
}

/// The number that a sequence of decimal digits writes.
pub open spec fn number(s: Seq<char>) -> nat
    decreases s.len(),
{
    if s.len() == 0 {
        0
    } else {
        number(s.drop_last()) * 10 + (s.last() as int - '0' as int) as nat
    }
}

/// A string without the plus sign that may stand at its front.
pub open spec fn unsigned_part(s: Seq<char>) -> Seq<char> {
    if s.len() > 0 && s[0] == '+' {
        s.drop_first()
    } else {
        s
    }
}

/// The `u64` that a string writes: an optional plus sign and at least one digit, nothing else,
/// in the range of the type.
pub open spec fn parsed_u64(s: Seq<char>) -> Option<u64> {
    let body = unsigned_part(s);
    if body.len() > 0 && all_digits(body) && number(body) <= u64::MAX {
        Some(number(body) as u64)
    } else {
        None
    }
}

fn digit_text(d: u64) -> (r: &'static str)
    requires
        d < 10,
    ensures
        r@ == seq![digit(d as int)],
{
    proof {
        reveal_strlit("0");
        reveal_strlit("1");
        reveal_strlit("2");
        reveal_strlit("3");
        reveal_strlit("4");
        reveal_strlit("5");
        reveal_strlit("6");
        reveal_strlit("7");
        reveal_strlit("8");
        reveal_strlit("9");
    }
    match d {
        0 => "0",
        1 => "1",
        2 => "2",
        3 => "3",
        4 => "4",
        5 => "5",
        6 => "6",
        7 => "7",
        8 => "8",
        _ => "9",
    }
}

/// Writes a number in decimal.
pub fn render_u64(n: u64) -> (r: String)
    ensures
        r@ == decimal(n as nat),
    decreases n,
{
    if n < 10 {
        digit_text(n).to_owned()
    } else {
        let mut r: String = render_u64(n / 10);
        r.append(digit_text(n % 10));
        assert(r@ =~= decimal((n / 10) as nat).push(digit((n % 10) as int)));
        r
    }
}

/// Writes a signed number in decimal.
pub fn render_i64(i: i64) -> (r: String)
    ensures
        r@ == signed_decimal(i as int),
{
    if i < 0 {
        let magnitude: u64 = (-(i + 1)) as u64 + 1;
        let mut r: String = "-".to_owned();
        let tail: String = render_u64(magnitude);
        r.append(tail.as_str());
        proof {
            reveal_strlit("-");
            assert("-"@ =~= seq!['-']);
        }
        r
    } else {
        render_u64(i as u64)
    }
}

proof fn lemma_number_monotonic(s: Seq<char>, i: int)
    requires
        all_digits(s),
        0 <= i <= s.len(),
    ensures
        number(s.take(i)) <= number(s),
    decreases s.len() - i,
{
    if i < s.len() {
        lemma_number_monotonic(s, i + 1);
        assert(s.take(i + 1).drop_last() =~= s.take(i));
        assert(is_digit(s[i]));
    } else {
        assert(s.take(i) =~= s);
    }
}

/// Reads a `u64` from its decimal form.
pub fn parse_u64(text: &str) -> (r: Option<u64>)
    ensures
        r == parsed_u64(text@),
{
    let chars: Vec<char> = chars_of(text);
    let start: usize = if chars.len() > 0 && chars[0] == '+' { 1 } else { 0 };
    let ghost body = unsigned_part(text@);
    assert(body =~= chars@.skip(start as int));
    if start == chars.len() {
        return None;
    }
    let mut value: u64 = 0;
    let mut i: usize = start;
    assert(body.take(0) =~= Seq::<char>::empty());
    while i < chars.len()
        invariant
            start <= i <= chars.len(),
            body == unsigned_part(text@),
            body == chars@.skip(start as int),
            value == number(body.take(i - start)),
            all_digits(body.take(i - start)),
        decreases chars.len() - i,
    {
        let c: char = chars[i];
        assert(body[i - start] == c);
        if c < '0' || c > '9' {
            assert(!is_digit(body[i - start]));
            return None;
        }
        let d: u64 = (c as u32 - '0' as u32) as u64;
        let ghost next = body.take(i - start + 1);
        assert(next.drop_last() =~= body.take(i - start));
        assert(all_digits(next)) by {
            assert forall|j: int| 0 <= j < next.len() implies is_digit(#[trigger] next[j]) by {
                if j < i - start {
                    assert(next[j] == body.take(i - start)[j]);
                }
            }
        }
        assert(number(next) == value * 10 + d);
        if value > (u64::MAX - d) / 10 {
            proof {
                assert(value * 10 + d > u64::MAX);
                if all_digits(body) {
                    lemma_number_monotonic(body, i - start + 1);
                }
            }
            return None;
        }
        value = value * 10 + d;
        i = i + 1;
    }
    assert(body.take(i - start) =~= body);
    Some(value)
}

proof fn lemma_decimal_reads_back(n: nat)
    ensures
        decimal(n).len() > 0,
        all_digits(decimal(n)),
        number(decimal(n)) == n,
    decreases n,
{
    reveal_with_fuel(number, 2);
    if n >= 10 {
        lemma_decimal_reads_back(n / 10);
        assert(decimal(n).drop_last() =~= decimal(n / 10));
        assert forall|i: int| 0 <= i < decimal(n).len() implies is_digit(
            #[trigger] decimal(n)[i],
        ) by {
            if i < decimal(n / 10).len() {
                assert(decimal(n)[i] == decimal(n / 10)[i]);
            }
        }
    }
}

/// Reading a number back gives the number that was written.
pub proof fn law_decimal_round_trip(n: u64)
    ensures
        parsed_u64(decimal(n as nat)) == Some(n),
{
    lemma_decimal_reads_back(n as nat);
    assert(is_digit(decimal(n as nat)[0]));
}

/// Whether `needle` stands somewhere in `text`.
pub open spec fn holds_substring(text: Seq<char>, needle: Seq<char>) -> bool {
    exists|i: int|
        0 <= i && i + needle.len() <= text.len() && #[trigger] text.subrange(
            i,
            i + needle.len(),
        ) == needle
}

/// Tests whether `needle` stands somewhere in `text`.
pub fn contains(text: &str, needle: &str) -> (r: bool)
    ensures
        r == holds_substring(text@, needle@),
{
    let hay: Vec<char> = chars_of(text);
    let pin: Vec<char> = chars_of(needle);
    if pin.len() > hay.len() {
        return false;
    }
    let last: usize = hay.len() - pin.len();
    let mut i: usize = 0;
    loop
        invariant
            hay@ == text@,
            pin@ == needle@,
            last + pin.len() == hay.len(),
            i <= last,
            forall|k: int|
                0 <= k < i ==> #[trigger] text@.subrange(k, k + needle@.len()) != needle@,
        decreases last - i,
    {
        let mut j: usize = 0;
        while j < pin.len() && hay[i + j] == pin[j]
            invariant
                hay@ == text@,
                pin@ == needle@,
                last + pin.len() == hay.len(),
                i <= last,
                j <= pin.len(),
                forall|k: int| 0 <= k < j ==> text@[i + k] == #[trigger] needle@[k],
            decreases pin.len() - j,
        {
            j = j + 1;
        }
        if j == pin.len() {
            assert(text@.subrange(i as int, i + needle@.len()) =~= needle@);
            return true;
        }
        assert(text@.subrange(i as int, i + needle@.len())[j as int] != needle@[j as int]);
        if i == last {
            return false;
        }
        i = i + 1;
    }
}

/// Of two strings with a common start, the one whose next character is smaller comes first, and one
/// that ends there comes before both.
pub proof fn law_order_of_strings(
    start: Seq<char>,
    x: char,
    y: char,
    a: Seq<char>,
    b: Seq<char>,
)
    ensures
        key_lt(start, start + seq![x] + a),
        !key_lt(start + seq![x] + a, start),
        x < y ==> key_lt(start + seq![x] + a, start + seq![y] + b),
        x > y ==> !key_lt(start + seq![x] + a, start + seq![y] + b),
    decreases start.len(),
{
    let s = start + seq![x] + a;
    let t = start + seq![y] + b;
    if start.len() > 0 {
        let rest = start.drop_first();
        law_order_of_strings(rest, x, y, a, b);
        assert(s.drop_first() =~= rest + seq![x] + a);
        assert(t.drop_first() =~= rest + seq![y] + b);
    }
}

/// A string holds whatever it is put together from, and it can be taken apart around whatever it
/// holds.
pub proof fn law_substrings(text: Seq<char>, before: Seq<char>, needle: Seq<char>, after: Seq<char>)
    ensures
        holds_substring(before + needle + after, needle),
        holds_substring(text, needle) ==> exists|a: Seq<char>, b: Seq<char>|
            text == #[trigger] (a + needle + b),
{
    let whole = before + needle + after;
    let i = before.len() as int;
    assert(whole.subrange(i, i + needle.len()) =~= needle);
    if holds_substring(text, needle) {
        let k = choose|k: int|
            0 <= k && k + needle.len() <= text.len() && #[trigger] text.subrange(
                k,
                k + needle.len(),
            ) == needle;
        let a = text.take(k);
        let b = text.skip(k + needle.len());
        let found = text.subrange(k, k + needle.len());
        assert forall|j: int| 0 <= j < text.len() implies text[j] == (a + needle + b)[j] by {
            if k <= j < k + needle.len() {
                assert(found[j - k] == text[j]);
            }
        }
        assert(text =~= a + needle + b);
    }
}

/// A number below ten is one digit; a digit after the decimal form of a number makes ten times that
/// number and the digit.
pub proof fn law_decimal_digits(n: nat, d: nat)
    requires
        d < 10,
    ensures
        decimal(d) == seq![('0' as int + d) as char],
        n > 0 ==> decimal(10 * n + d) == decimal(n).push(('0' as int + d) as char),
{
    if n > 0 {
        assert((10 * n + d) / 10 == n && (10 * n + d) % 10 == d);
    }
}

/// A number that is not negative is written as such, a negative one as its opposite after a minus
/// sign, and no two numbers are written alike.
pub proof fn law_signed_decimal(i: int, j: int)
    ensures
        i >= 0 ==> signed_decimal(i) == decimal(i as nat),
        i > 0 ==> signed_decimal(-i) == seq!['-'] + decimal(i as nat),
        signed_decimal(i) == signed_decimal(j) ==> i == j,
{
    let a = if i < 0 {
        (-i) as nat
    } else {
        i as nat
    };
    let b = if j < 0 {
        (-j) as nat
    } else {
        j as nat
    };
    lemma_decimal_reads_back(a);
    lemma_decimal_reads_back(b);
    assert(is_digit(decimal(a)[0]));
    assert(is_digit(decimal(b)[0]));
    if signed_decimal(i) == signed_decimal(j) {
        if i < 0 {
            assert(signed_decimal(i)[0] == '-');
            assert(signed_decimal(i).drop_first() =~= decimal(a));
        }
        if j < 0 {
            assert(signed_decimal(j)[0] == '-');
            assert(signed_decimal(j).drop_first() =~= decimal(b));
        }
    }
}

/// What is read from a string grows digit by digit from nothing or a plus sign; one that holds
/// anything else, no digit, or too large a number is not read.
pub proof fn law_reading_digit_by_digit(s: Seq<char>, c: char)
    ensures
        parsed_u64(Seq::empty()) is None,
        parsed_u64(seq!['+']) is None,
        parsed_u64(s.push(c)) == if !('0' <= c <= '9') {
            None
        } else if s.len() == 0 || s == seq!['+'] {
            Some((c as int - '0' as int) as u64)
        } else {
            match parsed_u64(s) {
                Some(v) => if 10 * v + (c as int - '0' as int) <= u64::MAX {
                    Some((10 * v + (c as int - '0' as int)) as u64)
                } else {
                    None
                },
                None => None,
            }
        },
{
    let t = s.push(c);
    let body = unsigned_part(s);
    let more = unsigned_part(t);
    reveal_with_fuel(number, 2);
    assert(seq!['+'].drop_first() =~= Seq::empty());
    if s.len() == 0 && c == '+' {
        assert(t.drop_first() =~= Seq::empty());
    } else {
        assert(more =~= body.push(c));
        assert(more.drop_last() =~= body);
        assert(more.last() == c);
        if s == seq!['+'] || s.len() == 0 {
            assert(body =~= Seq::empty());
            assert(all_digits(more) <==> is_digit(c)) by {
                assert(more[0] == c);
            }
        } else {
            assert(body.len() > 0) by {
                if body.len() == 0 {
                    assert(s =~= seq!['+']);
                }
            }
            assert(all_digits(more) <==> all_digits(body) && is_digit(c)) by {
                if all_digits(more) {
                    assert forall|i: int| 0 <= i < body.len() implies is_digit(
                        #[trigger] body[i],
                    ) by {
                        assert(more[i] == body[i]);
                    }
                    assert(more[body.len() as int] == c);
                }
                if all_digits(body) && is_digit(c) {
                    assert forall|i: int| 0 <= i < more.len() implies is_digit(
                        #[trigger] more[i],
                    ) by {
                        if i < body.len() {
                            assert(more[i] == body[i]);
                        }
                    }
                }
            }
        }
    }
}

/// Strings and optional strings are taken character by character.
pub proof fn law_views_of_strings(strings: Seq<String>, i: int, string: String)
    requires
        0 <= i < strings.len(),
    ensures
        texts_of(strings).len() == strings.len(),
        texts_of(strings)[i] == strings[i]@,
        text_of(Some(string)) == Some(string@),
        text_of(None) is None,
{
}

} // verus!
