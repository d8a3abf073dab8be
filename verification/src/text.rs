//! Text primitives: comparison, concatenation, and decimal and hexadecimal
//! digits, each with an exact contract over sequences of characters.

use vstd::prelude::*;

verus! {

/// `str == str` of std: two strings are equal exactly when their characters are.
#[verifier::external_body]
pub(crate) fn same(a: &str, b: &str) -> (r: bool)
    ensures
        r == (a@ == b@),
{
    a == b
}

/// `String::push` of std: appends one character.
#[verifier::external_body]
pub(crate) fn push_char(s: &mut String, c: char)
    ensures
        final(s)@ == old(s)@.push(c),
{
    s.push(c)
}

pub(crate) fn cat2(a: &str, b: &str) -> (r: String)
    ensures
        r@ == a@ + b@,
{
    let mut r = a.to_owned();
    r.append(b);
    r
}

pub(crate) fn cat3(a: &str, b: &str, c: &str) -> (r: String)
    ensures
        r@ == a@ + b@ + c@,
{
    let mut r = cat2(a, b);
    r.append(c);
    r
}

pub(crate) fn cat4(a: &str, b: &str, c: &str, d: &str) -> (r: String)
    ensures
        r@ == a@ + b@ + c@ + d@,
{
    let mut r = cat3(a, b, c);
    r.append(d);
    r
}

pub(crate) fn cat5(a: &str, b: &str, c: &str, d: &str, e: &str) -> (r: String)
    ensures
        r@ == a@ + b@ + c@ + d@ + e@,
{
    let mut r = cat4(a, b, c, d);
    r.append(e);
    r
}

/// The characters of a string.
pub(crate) fn chars_of(s: &str) -> (r: Vec<char>)
    ensures
        r@ == s@,
{
    let mut r: Vec<char> = Vec::new();
    for c in it: s.chars()
        invariant
            r@ == it.seq().take(it.index() as int),
            it.seq() == s@,
    {
        r.push(c);
    }
    assert(r@ =~= s@);
    r
}

/// The string made of characters `from..to`.
pub(crate) fn string_of(cs: &Vec<char>, from: usize, to: usize) -> (r: String)
    requires
        from <= to <= cs@.len(),
    ensures
        r@ == cs@.subrange(from as int, to as int),
{
    let mut r = String::new();
    let mut i: usize = from;
    assert(r@ =~= cs@.subrange(from as int, from as int));
    while i < to
        invariant
            from <= i <= to <= cs@.len(),
            r@ == cs@.subrange(from as int, i as int),
        decreases to - i,
    {
        push_char(&mut r, cs[i]);
        assert(cs@.subrange(from as int, i as int).push(cs@[i as int]) =~= cs@.subrange(
            from as int,
            i + 1,
        ));
        i += 1;
    }
    r
}

// ------------------------------------------------------------------- order

/// Whether `a` stands before `b` in the order of code points.
pub open spec fn text_lt(a: Seq<char>, b: Seq<char>) -> bool
    decreases a.len(),
{
    if b.len() == 0 {
        false
    } else if a.len() == 0 {
        true
    } else if a[0] != b[0] {
        a[0] < b[0]
    } else {
        text_lt(a.drop_first(), b.drop_first())
    }
}

/// Of two different texts exactly one stands before the other, and none before
/// itself.
pub proof fn text_order_is_total(a: Seq<char>, b: Seq<char>)
    ensures
        !text_lt(a, a),
        a != b ==> (text_lt(a, b) <==> !text_lt(b, a)),
    decreases a.len() + b.len(),
{
    lemma_text_order_irreflexive(a);
    if a.len() > 0 {
        if b.len() > 0 && a[0] == b[0] {
            text_order_is_total(a.drop_first(), b.drop_first());
            if a.drop_first() == b.drop_first() {
                assert(a =~= seq![a[0]] + a.drop_first());
                assert(b =~= seq![b[0]] + b.drop_first());
            }
        }
    } else if b.len() == 0 {
        assert(a =~= b);
    }
}

proof fn lemma_text_order_irreflexive(a: Seq<char>)
    ensures
        !text_lt(a, a),
    decreases a.len(),
{
    if a.len() > 0 {
        lemma_text_order_irreflexive(a.drop_first());
    }
}

/// The order of texts is transitive.
pub proof fn text_order_is_transitive(a: Seq<char>, b: Seq<char>, c: Seq<char>)
    requires
        text_lt(a, b),
        text_lt(b, c),
    ensures
        text_lt(a, c),
    decreases a.len(),
{
    if a.len() > 0 && a[0] == b[0] && b[0] == c[0] {
        text_order_is_transitive(a.drop_first(), b.drop_first(), c.drop_first());
    }
}

/// Whether `a` stands before `b`.
pub(crate) fn text_less(a: &str, b: &str) -> (r: bool)
    ensures
        r == text_lt(a@, b@),
{
    let x = chars_of(a);
    let y = chars_of(b);
    let mut i: usize = 0;
    assert(x@.skip(0) =~= a@);
    assert(y@.skip(0) =~= b@);
    while i < x.len() && i < y.len() && x[i] == y[i]
        invariant
            i <= x@.len(),
            i <= y@.len(),
            text_lt(a@, b@) == text_lt(x@.skip(i as int), y@.skip(i as int)),
        decreases x@.len() - i,
    {
        assert(x@.skip(i as int).drop_first() =~= x@.skip(i + 1));
        assert(y@.skip(i as int).drop_first() =~= y@.skip(i + 1));
        i += 1;
    }
    if i == y.len() {
        false
    } else if i == x.len() {
        true
    } else {
        x[i] < y[i]
    }
}

/// Whether a text begins with another.
pub open spec fn has_prefix(s: Seq<char>, prefix: Seq<char>) -> bool {
    prefix.len() <= s.len() && s.take(prefix.len() as int) == prefix
}

pub(crate) fn starts_with(s: &str, prefix: &str) -> (r: bool)
    ensures
        r == has_prefix(s@, prefix@),
{
    let x = chars_of(s);
    let y = chars_of(prefix);
    if y.len() > x.len() {
        return false;
    }
    let mut i: usize = 0;
    while i < y.len()
        invariant
            x@ == s@,
            y@ == prefix@,
            i <= y@.len() <= x@.len(),
            forall|j: int| 0 <= j < i ==> x@[j] == y@[j],
        decreases y@.len() - i,
    {
        if x[i] != y[i] {
            assert(x@.take(y@.len() as int)[i as int] != y@[i as int]);
            return false;
        }
        i += 1;
    }
    assert(x@.take(y@.len() as int) =~= y@);
    true
}

// ------------------------------------------------------------------ decimal

/// The character of a decimal digit.
pub open spec fn digit(d: nat) -> char {
    if d == 0 {
        '0'
    } else if d == 1 {
        '1'
    } else if d == 2 {
        '2'
    } else if d == 3 {
        '3'
    } else if d == 4 {
        '4'
    } else if d == 5 {
        '5'
    } else if d == 6 {
        '6'
    } else if d == 7 {
        '7'
    } else if d == 8 {
        '8'
    } else {
        '9'
    }
}

/// The decimal digits of `n`, without leading zeros.
pub open spec fn decimal(n: nat) -> Seq<char>
    decreases n,
{
    if n < 10 {
        seq![digit(n)]
    } else {
        decimal(n / 10).push(digit(n % 10))
    }
}

fn digit_char(d: u64) -> (c: char)
    requires
        d < 10,
    ensures
        c == digit(d as nat),
{
    match d {
        0 => '0',
        1 => '1',
        2 => '2',
        3 => '3',
        4 => '4',
        5 => '5',
        6 => '6',
        7 => '7',
        8 => '8',
        _ => '9',
    }
}

/// A number in decimal.
pub(crate) fn decimal_text(n: u64) -> (r: String)
    ensures
        r@ == decimal(n as nat),
    decreases n,
{
    if n < 10 {
        let mut r = String::new();
        push_char(&mut r, digit_char(n));
        assert(r@ =~= seq![digit(n as nat)]);
        r
    } else {
        let mut r = decimal_text(n / 10);
        push_char(&mut r, digit_char(n % 10));
        r
    }
}

/// Numbers with the same decimal text are the same.
pub proof fn decimal_is_injective(a: nat, b: nat)
    requires
        decimal(a) == decimal(b),
    ensures
        a == b,
    decreases a,
{
    if a < 10 && b < 10 {
        assert(decimal(a) == seq![digit(a)]);
        assert(decimal(b) == seq![digit(b)]);
        assert(seq![digit(a)][0] == digit(a));
        assert(seq![digit(b)][0] == digit(b));
        lemma_digit_injective(a, b);
    } else if a < 10 {
        lemma_decimal_nonempty(b / 10);
        assert(decimal(a).len() == 1 && decimal(b).len() > 1);
    } else if b < 10 {
        lemma_decimal_nonempty(a / 10);
        assert(decimal(b).len() == 1 && decimal(a).len() > 1);
    } else {
        assert(decimal(a) == decimal(a / 10).push(digit(a % 10)));
        assert(decimal(b) == decimal(b / 10).push(digit(b % 10)));
        assert(decimal(a / 10).push(digit(a % 10)).last() == digit(a % 10));
        assert(decimal(b / 10).push(digit(b % 10)).last() == digit(b % 10));
        assert(decimal(a).drop_last() =~= decimal(a / 10));
        assert(decimal(b).drop_last() =~= decimal(b / 10));
        decimal_is_injective(a / 10, b / 10);
        lemma_digit_injective(a % 10, b % 10);
    }
}

proof fn lemma_digit_injective(a: nat, b: nat)
    requires
        a < 10,
        b < 10,
        digit(a) == digit(b),
    ensures
        a == b,
{
    lemma_digit_round_trip(a);
    lemma_digit_round_trip(b);
}

proof fn lemma_digit_round_trip(d: nat)
    requires
        d < 10,
    ensures
        digit_value(digit(d)) == Some(d),
{
}

proof fn lemma_decimal_nonempty(n: nat)
    ensures
        decimal(n).len() >= 1,
    decreases n,
{
    if n >= 10 {
        lemma_decimal_nonempty(n / 10);
    }
}

/// A signed number in decimal.
pub open spec fn signed_decimal(n: int) -> Seq<char> {
    if n < 0 {
        "-"@ + decimal((-n) as nat)
    } else {
        decimal(n as nat)
    }
}

pub(crate) fn signed_decimal_text(n: i64) -> (r: String)
    ensures
        r@ == signed_decimal(n as int),
{
    if n < 0 {
        let magnitude: u64 = if n == i64::MIN {
            9_223_372_036_854_775_808
        } else {
            (-n) as u64
        };
        let digits = decimal_text(magnitude);
        cat2("-", digits.as_str())
    } else {
        decimal_text(n as u64)
    }
}

/// The value of a decimal digit.
pub open spec fn digit_value(c: char) -> Option<nat> {
    if c == '0' {
        Some(0)
    } else if c == '1' {
        Some(1)
    } else if c == '2' {
        Some(2)
    } else if c == '3' {
        Some(3)
    } else if c == '4' {
        Some(4)
    } else if c == '5' {
        Some(5)
    } else if c == '6' {
        Some(6)
    } else if c == '7' {
        Some(7)
    } else if c == '8' {
        Some(8)
    } else if c == '9' {
        Some(9)
    } else {
        None
    }
}

fn digit_of(c: char) -> (r: Option<u64>)
    ensures
        match r {
            Some(d) => d < 10 && digit_value(c) == Some(d as nat),
            None => digit_value(c) is None,
        },
{
    match c {
        '0' => Some(0),
        '1' => Some(1),
        '2' => Some(2),
        '3' => Some(3),
        '4' => Some(4),
        '5' => Some(5),
        '6' => Some(6),
        '7' => Some(7),
        '8' => Some(8),
        '9' => Some(9),
        _ => None,
    }
}

/// The number that some decimal digits stand for.
pub open spec fn digits_value(s: Seq<char>) -> Option<nat>
    decreases s.len(),
{
    if s.len() == 0 {
        Some(0)
    } else {
        match (digits_value(s.drop_last()), digit_value(s.last())) {
            (Some(n), Some(d)) => Some(n * 10 + d),
            _ => None,
        }
    }
}

/// The number that a text stands for: decimal digits, at least one, after at most
/// one plus sign.
pub open spec fn number_of(s: Seq<char>) -> Option<nat> {
    let digits = if s.len() > 0 && s[0] == '+' {
        s.drop_first()
    } else {
        s
    };
    if digits.len() == 0 {
        None
    } else {
        digits_value(digits)
    }
}

/// A number no greater than `max`.
pub open spec fn number_up_to(s: Seq<char>, max: nat) -> Option<nat> {
    match number_of(s) {
        Some(n) => if n <= max {
            Some(n)
        } else {
            None
        },
        None => None,
    }
}

proof fn lemma_digits_too_big(s: Seq<char>, i: int, bound: nat)
    requires
        0 <= i <= s.len(),
        digits_value(s.take(i)) is None || digits_value(s.take(i))->0 > bound,
    ensures
        digits_value(s) is None || digits_value(s)->0 > bound,
    decreases s.len() - i,
{
    if i < s.len() {
        assert(s.take(i + 1).drop_last() =~= s.take(i));
        lemma_digits_too_big(s, i + 1, bound);
    } else {
        assert(s.take(i) =~= s);
    }
}

/// Parse a number no greater than `max`.
pub(crate) fn parse_up_to(s: &str, max: u64) -> (r: Option<u64>)
    ensures
        match r {
            Some(n) => number_up_to(s@, max as nat) == Some(n as nat),
            None => number_up_to(s@, max as nat) is None,
        },
{
    let cs = chars_of(s);
    let start: usize = if cs.len() > 0 && cs[0] == '+' {
        1
    } else {
        0
    };
    let ghost digits = s@.skip(start as int);
    proof {
        if start == 1 {
            assert(digits =~= s@.drop_first());
        } else {
            assert(digits =~= s@);
        }
    }
    if start == cs.len() {
        return None;
    }
    let mut i: usize = start;
    let mut n: u64 = 0;
    assert(digits.take(0) =~= Seq::empty());
    while i < cs.len()
        invariant
            start <= i <= cs@.len(),
            cs@ == s@,
            digits == s@.skip(start as int),
            digits_value(digits.take(i - start)) == Some(n as nat),
            n <= max,
            number_of(s@) == digits_value(digits),
        decreases cs@.len() - i,
    {
        let ghost k = i - start;
        assert(digits.take(k + 1).drop_last() =~= digits.take(k));
        assert(digits.take(k + 1).last() == cs@[i as int]);
        match digit_of(cs[i]) {
            Some(d) => {
                if n > (u64::MAX - d) / 10 || n * 10 + d > max {
                    proof {
                        lemma_digits_too_big(digits, k + 1, max as nat);
                    }
                    return None;
                }
                n = n * 10 + d;
            },
            None => {
                proof {
                    lemma_digits_too_big(digits, k + 1, max as nat);
                }
                return None;
            },
        }
        i += 1;
    }
    assert(digits.take(i - start) =~= digits);
    Some(n)
}

/// The decimal text of a number stands for that number.
pub proof fn decimal_is_parsed_back(n: nat)
    ensures
        number_of(decimal(n)) == Some(n),
{
    lemma_decimal_nonempty(n);
    lemma_decimal_digits(n);
    lemma_decimal_first(n);
}

proof fn lemma_decimal_digits(n: nat)
    ensures
        digits_value(decimal(n)) == Some(n),
    decreases n,
{
    if n < 10 {
        assert(decimal(n).drop_last() =~= Seq::empty());
        assert(digits_value(decimal(n).drop_last()) == Some(0nat));
    } else {
        lemma_decimal_digits(n / 10);
        assert(decimal(n).drop_last() =~= decimal(n / 10));
    }
}

proof fn lemma_decimal_first(n: nat)
    ensures
        decimal(n).len() >= 1,
        decimal(n)[0] != '+',
    decreases n,
{
    if n >= 10 {
        lemma_decimal_first(n / 10);
    }
}

// --------------------------------------------------------------- searching

/// Where the first character with a property stands: the length if there is none.
pub open spec fn position(s: Seq<char>, p: spec_fn(char) -> bool) -> int
    decreases s.len(),
{
    if s.len() == 0 || p(s[0]) {
        0
    } else {
        1 + position(s.drop_first(), p)
    }
}

/// Being a certain character.
pub open spec fn is_char(c: char) -> spec_fn(char) -> bool {
    |x: char| x == c
}

/// Being an ASCII letter.
pub open spec fn is_letter() -> spec_fn(char) -> bool {
    |c: char| 'a' <= c && c <= 'z' || 'A' <= c && c <= 'Z'
}

pub proof fn lemma_position(s: Seq<char>, p: spec_fn(char) -> bool, i: int)
    requires
        0 <= i <= s.len(),
        forall|j: int| 0 <= j < i ==> !p(#[trigger] s[j]),
        i < s.len() ==> p(s[i]),
    ensures
        position(s, p) == i,
    decreases i,
{
    if i > 0 {
        let rest = s.drop_first();
        assert forall|j: int| 0 <= j < i - 1 implies !p(#[trigger] rest[j]) by {
            assert(rest[j] == s[j + 1]);
        }
        assert(!p(s[0]));
        lemma_position(rest, p, i - 1);
    }
}

/// Where a character first stands: the length if it does not.
pub(crate) fn find_char(cs: &Vec<char>, c: char) -> (r: usize)
    ensures
        r == position(cs@, is_char(c)),
        r <= cs@.len(),
        r < cs@.len() ==> cs@[r as int] == c,
{
    let mut i: usize = 0;
    while i < cs.len() && cs[i] != c
        invariant
            i <= cs@.len(),
            forall|j: int| 0 <= j < i ==> cs@[j] != c,
        decreases cs@.len() - i,
    {
        i += 1;
    }
    proof {
        lemma_position(cs@, is_char(c), i as int);
    }
    i
}

pub(crate) fn find_letter(cs: &Vec<char>) -> (r: usize)
    ensures
        r == position(cs@, is_letter()),
        r <= cs@.len(),
{
    let mut i: usize = 0;
    while i < cs.len() && !('a' <= cs[i] && cs[i] <= 'z' || 'A' <= cs[i] && cs[i] <= 'Z')
        invariant
            i <= cs@.len(),
            forall|j: int| 0 <= j < i ==> !is_letter()(#[trigger] cs@[j]),
        decreases cs@.len() - i,
    {
        i += 1;
    }
    proof {
        lemma_position(cs@, is_letter(), i as int);
    }
    i
}

/// What stands before and after the first `c`.
pub open spec fn split_first(s: Seq<char>, c: char) -> Option<(Seq<char>, Seq<char>)> {
    let p = position(s, is_char(c));
    if p < s.len() {
        Some((s.take(p), s.skip(p + 1)))
    } else {
        None
    }
}

pub(crate) fn split_once(s: &str, c: char) -> (r: Option<(String, String)>)
    ensures
        match r {
            Some((a, b)) => split_first(s@, c) == Some((a@, b@)),
            None => split_first(s@, c) is None,
        },
{
    let cs = chars_of(s);
    let p: usize = find_char(&cs, c);
    if p < cs.len() {
        let n: usize = cs.len();
        let a = string_of(&cs, 0, p);
        let b = string_of(&cs, p + 1, n);
        assert(a@ =~= s@.take(p as int));
        assert(b@ =~= s@.skip(p + 1));
        Some((a, b))
    } else {
        None
    }
}

/// Where a character stands last: -1 if it does not.
pub open spec fn last_position(s: Seq<char>, c: char) -> int
    decreases s.len(),
{
    if s.len() == 0 {
        -1
    } else if s.last() == c {
        s.len() - 1
    } else {
        last_position(s.drop_last(), c)
    }
}

/// What stands before and after the last `c`.
pub open spec fn split_last(s: Seq<char>, c: char) -> Option<(Seq<char>, Seq<char>)> {
    let p = last_position(s, c);
    if p >= 0 {
        Some((s.take(p), s.skip(p + 1)))
    } else {
        None
    }
}

pub(crate) fn rsplit_once(s: &str, c: char) -> (r: Option<(String, String)>)
    ensures
        match r {
            Some((a, b)) => split_last(s@, c) == Some((a@, b@)),
            None => split_last(s@, c) is None,
        },
{
    let cs = chars_of(s);
    let n: usize = cs.len();
    let mut i: usize = n;
    assert(s@.take(n as int) =~= s@);
    while i > 0 && cs[i - 1] != c
        invariant
            i <= n == cs@.len(),
            cs@ == s@,
            last_position(s@, c) == last_position(s@.take(i as int), c),
        decreases i,
    {
        assert(s@.take(i as int).drop_last() =~= s@.take(i - 1));
        i -= 1;
    }
    if i > 0 {
        assert(last_position(s@.take(i as int), c) == i - 1);
        let a = string_of(&cs, 0, i - 1);
        let b = string_of(&cs, i, n);
        assert(a@ =~= s@.take(i - 1));
        assert(b@ =~= s@.skip(i as int));
        Some((a, b))
    } else {
        None
    }
}

/// What follows a prefix.
pub(crate) fn strip_prefix(s: &str, prefix: &str) -> (r: Option<String>)
    ensures
        match r {
            Some(rest) => has_prefix(s@, prefix@) && rest@ == s@.skip(prefix@.len() as int),
            None => !has_prefix(s@, prefix@),
        },
{
    if starts_with(s, prefix) {
        let cs = chars_of(s);
        let ps = chars_of(prefix);
        let n: usize = cs.len();
        let rest = string_of(&cs, ps.len(), n);
        assert(rest@ =~= s@.skip(prefix@.len() as int));
        Some(rest)
    } else {
        None
    }
}

/// Unicode white space.
pub open spec fn is_space(c: char) -> bool {
    '\u{9}' <= c && c <= '\u{d}' || c == ' ' || c == '\u{85}' || c == '\u{a0}' || c == '\u{1680}'
        || '\u{2000}' <= c && c <= '\u{200a}' || c == '\u{2028}' || c == '\u{2029}' || c
        == '\u{202f}' || c == '\u{205f}' || c == '\u{3000}'
}

fn space(c: char) -> (r: bool)
    ensures
        r == is_space(c),
{
    '\u{9}' <= c && c <= '\u{d}' || c == ' ' || c == '\u{85}' || c == '\u{a0}' || c == '\u{1680}'
        || '\u{2000}' <= c && c <= '\u{200a}' || c == '\u{2028}' || c == '\u{2029}' || c
        == '\u{202f}' || c == '\u{205f}' || c == '\u{3000}'
}

pub open spec fn trim_start(s: Seq<char>) -> Seq<char>
    decreases s.len(),
{
    if s.len() > 0 && is_space(s[0]) {
        trim_start(s.drop_first())
    } else {
        s
    }
}

pub open spec fn trim_end(s: Seq<char>) -> Seq<char>
    decreases s.len(),
{
    if s.len() > 0 && is_space(s.last()) {
        trim_end(s.drop_last())
    } else {
        s
    }
}

/// A text without the white space around it.
pub open spec fn trimmed(s: Seq<char>) -> Seq<char> {
    trim_end(trim_start(s))
}

pub(crate) fn trim(s: &str) -> (r: String)
    ensures
        r@ == trimmed(s@),
{
    let cs = chars_of(s);
    let n: usize = cs.len();
    let mut i: usize = 0;
    assert(s@.skip(0) =~= s@);
    while i < n && space(cs[i])
        invariant
            i <= n == cs@.len(),
            cs@ == s@,
            trim_start(s@) == trim_start(s@.skip(i as int)),
        decreases n - i,
    {
        assert(s@.skip(i as int).drop_first() =~= s@.skip(i + 1));
        i += 1;
    }
    let ghost tail = s@.skip(i as int);
    assert(trim_start(s@) == tail);
    let mut j: usize = n;
    assert(tail.take(j - i) =~= tail);
    while j > i && space(cs[j - 1])
        invariant
            i <= j <= n == cs@.len(),
            cs@ == s@,
            tail == s@.skip(i as int),
            trim_end(tail) == trim_end(tail.take(j - i)),
        decreases j - i,
    {
        assert(tail.take(j - i).drop_last() =~= tail.take(j - i - 1));
        assert(tail.take(j - i).last() == cs@[j - 1]);
        j -= 1;
    }
    let r = string_of(&cs, i, j);
    assert(r@ =~= tail.take(j - i));
    assert(trim_end(tail.take(j - i)) == tail.take(j - i)) by {
        if j > i {
            assert(tail.take(j - i).last() == cs@[j - 1]);
        }
    }
    r
}

// ------------------------------------------------------------- hexadecimal

/// The value of a hexadecimal digit of either case.
pub open spec fn hex_value(c: char) -> Option<nat> {
    match digit_value(c) {
        Some(d) => Some(d),
        None => if c == 'a' || c == 'A' {
            Some(10)
        } else if c == 'b' || c == 'B' {
            Some(11)
        } else if c == 'c' || c == 'C' {
            Some(12)
        } else if c == 'd' || c == 'D' {
            Some(13)
        } else if c == 'e' || c == 'E' {
            Some(14)
        } else if c == 'f' || c == 'F' {
            Some(15)
        } else {
            None
        },
    }
}

pub(crate) fn hex_of(c: char) -> (r: Option<u8>)
    ensures
        match r {
            Some(d) => d < 16 && hex_value(c) == Some(d as nat),
            None => hex_value(c) is None,
        },
{
    match digit_of(c) {
        Some(d) => Some(d as u8),
        None => match c {
            'a' | 'A' => Some(10),
            'b' | 'B' => Some(11),
            'c' | 'C' => Some(12),
            'd' | 'D' => Some(13),
            'e' | 'E' => Some(14),
            'f' | 'F' => Some(15),
            _ => None,
        },
    }
}

/// The lower-case character of a hexadecimal digit.
pub open spec fn hex_digit(d: nat) -> char {
    if d < 10 {
        digit(d)
    } else if d == 10 {
        'a'
    } else if d == 11 {
        'b'
    } else if d == 12 {
        'c'
    } else if d == 13 {
        'd'
    } else if d == 14 {
        'e'
    } else {
        'f'
    }
}

/// The last `width` hexadecimal digits of a number, leading zeros among them.
pub open spec fn hex(n: nat, width: nat) -> Seq<char>
    decreases width,
{
    if width == 0 {
        Seq::empty()
    } else {
        hex(n / 16, (width - 1) as nat).push(hex_digit(n % 16))
    }
}

pub(crate) fn hex_text(n: u64, width: u32) -> (r: String)
    ensures
        r@ == hex(n as nat, width as nat),
    decreases width,
{
    if width == 0 {
        let r = String::new();
        assert(r@ =~= Seq::empty());
        r
    } else {
        let mut r = hex_text(n / 16, width - 1);
        let d: u64 = n % 16;
        let c: char = if d < 10 {
            digit_char(d)
        } else if d == 10 {
            'a'
        } else if d == 11 {
            'b'
        } else if d == 12 {
            'c'
        } else if d == 13 {
            'd'
        } else if d == 14 {
            'e'
        } else {
            'f'
        };
        push_char(&mut r, c);
        r
    }
}

// ------------------------------------------------------------ lists of text

/// Texts as characters.
pub open spec fn texts(s: Seq<String>) -> Seq<Seq<char>> {
    s.map_values(|t: String| t@)
}

/// Texts one after another, with a separator between.
pub open spec fn joined(parts: Seq<Seq<char>>, sep: Seq<char>) -> Seq<char>
    decreases parts.len(),
{
    if parts.len() == 0 {
        Seq::empty()
    } else if parts.len() == 1 {
        parts[0]
    } else {
        joined(parts.drop_last(), sep) + sep + parts.last()
    }
}

pub(crate) fn join(parts: &Vec<String>, sep: &str) -> (r: String)
    ensures
        r@ == joined(texts(parts@), sep@),
{
    let mut out = String::new();
    let mut i: usize = 0;
    let ghost all = texts(parts@);
    while i < parts.len()
        invariant
            i <= parts@.len(),
            all == texts(parts@),
            out@ == joined(all.take(i as int), sep@),
        decreases parts@.len() - i,
    {
        assert(all.take(i + 1).drop_last() =~= all.take(i as int));
        assert(all.take(i + 1).last() == parts@[i as int]@);
        if i > 0 {
            out.append(sep);
        }
        out.append(parts[i].as_str());
        proof {
            if i == 0 {
                assert(out@ =~= parts@[0]@);
            }
        }
        i += 1;
    }
    assert(all.take(i as int) =~= all);
    out
}

/// The parts of a text between separators, without the empty ones.
pub open spec fn segments(s: Seq<char>, sep: char) -> Seq<Seq<char>>
    decreases s.len(),
{
    match split_first(s, sep) {
        None => if s.len() == 0 {
            Seq::empty()
        } else {
            seq![s]
        },
        Some((a, b)) => if s.len() <= b.len() {
            Seq::empty()
        } else if a.len() == 0 {
            segments(b, sep)
        } else {
            seq![a] + segments(b, sep)
        },
    }
}

proof fn lemma_position_bound(s: Seq<char>, p: spec_fn(char) -> bool)
    ensures
        0 <= position(s, p) <= s.len(),
    decreases s.len(),
{
    if s.len() > 0 {
        lemma_position_bound(s.drop_first(), p);
    }
}

pub(crate) fn split_segments(s: &str, sep: char) -> (r: Vec<String>)
    ensures
        texts(r@) == segments(s@, sep),
{
    let mut out: Vec<String> = Vec::new();
    let mut rest: String = s.to_owned();
    loop
        invariant
            texts(out@) + segments(rest@, sep) == segments(s@, sep),
        decreases rest@.len(),
    {
        proof {
            lemma_position_bound(rest@, is_char(sep));
        }
        let ghost before = texts(out@);
        match split_once(rest.as_str(), sep) {
            Some((a, b)) => {
                if a.as_str().unicode_len() > 0 {
                    let ghost head = a@;
                    out.push(a);
                    assert(texts(out@) =~= before + seq![head]);
                }
                assert(texts(out@) + segments(b@, sep) =~= before + segments(rest@, sep));
                rest = b;
            },
            None => {
                if rest.as_str().unicode_len() > 0 {
                    let ghost head = rest@;
                    out.push(rest);
                    assert(texts(out@) =~= before + seq![head]);
                }
                assert(texts(out@) =~= segments(s@, sep));
                return out;
            },
        }
    }
}

// ------------------------------------------------------------ words

/// Being white space.
pub open spec fn any_space() -> spec_fn(char) -> bool {
    |c: char| is_space(c)
}

fn find_space(cs: &Vec<char>, from: usize) -> (r: usize)
    requires
        from <= cs@.len(),
    ensures
        from <= r <= cs@.len(),
        r - from == position(cs@.skip(from as int), any_space()),
{
    let mut i: usize = from;
    let ghost tail = cs@.skip(from as int);
    while i < cs.len() && !space(cs[i])
        invariant
            from <= i <= cs@.len(),
            tail == cs@.skip(from as int),
            forall|j: int| 0 <= j < i - from ==> !is_space(#[trigger] tail[j]),
        decreases cs@.len() - i,
    {
        assert(tail[i - from] == cs@[i as int]);
        i += 1;
    }
    proof {
        if i < cs@.len() {
            assert(tail[i - from] == cs@[i as int]);
        }
        lemma_position(tail, any_space(), i - from);
    }
    i
}

/// A text cut at its first white space, which neither part keeps.
pub open spec fn split_at_space(s: Seq<char>) -> Option<(Seq<char>, Seq<char>)> {
    let p = position(s, any_space());
    if p < s.len() {
        Some((s.take(p), s.skip(p + 1)))
    } else {
        None
    }
}

pub(crate) fn split_space(s: &str) -> (r: Option<(String, String)>)
    ensures
        match r {
            Some((a, b)) => split_at_space(s@) == Some((a@, b@)),
            None => split_at_space(s@) is None,
        },
{
    let cs = chars_of(s);
    let n: usize = cs.len();
    let p: usize = find_space(&cs, 0);
    assert(s@.skip(0) =~= s@);
    if p < n {
        let a = string_of(&cs, 0, p);
        let b = string_of(&cs, p + 1, n);
        assert(a@ =~= s@.take(p as int));
        assert(b@ =~= s@.skip(p + 1));
        Some((a, b))
    } else {
        None
    }
}

/// The first word of a text, and what follows it.
pub open spec fn first_word(s: Seq<char>) -> Option<(Seq<char>, Seq<char>)> {
    let t = trim_start(s);
    if t.len() == 0 {
        None
    } else {
        let p = position(t, any_space());
        Some((t.take(p), t.skip(p)))
    }
}

pub(crate) fn next_word(s: &str) -> (r: Option<(String, String)>)
    ensures
        match r {
            Some((a, b)) => first_word(s@) == Some((a@, b@)),
            None => first_word(s@) is None,
        },
{
    let cs = chars_of(s);
    let n: usize = cs.len();
    let mut i: usize = 0;
    assert(s@.skip(0) =~= s@);
    while i < n && space(cs[i])
        invariant
            i <= n == cs@.len(),
            cs@ == s@,
            trim_start(s@) == trim_start(s@.skip(i as int)),
        decreases n - i,
    {
        assert(s@.skip(i as int).drop_first() =~= s@.skip(i + 1));
        i += 1;
    }
    let ghost tail = s@.skip(i as int);
    assert(trim_start(s@) == tail);
    if i == n {
        return None;
    }
    let p: usize = find_space(&cs, i);
    let a = string_of(&cs, i, p);
    let b = string_of(&cs, p, n);
    assert(a@ =~= tail.take(p - i));
    assert(b@ =~= tail.skip(p - i));
    Some((a, b))
}

pub(crate) fn trim_right(s: &str) -> (r: String)
    ensures
        r@ == trim_end(s@),
{
    let cs = chars_of(s);
    let mut j: usize = cs.len();
    assert(s@.take(j as int) =~= s@);
    while j > 0 && space(cs[j - 1])
        invariant
            j <= cs@.len(),
            cs@ == s@,
            trim_end(s@) == trim_end(s@.take(j as int)),
        decreases j,
    {
        assert(s@.take(j as int).drop_last() =~= s@.take(j - 1));
        assert(s@.take(j as int).last() == cs@[j - 1]);
        j -= 1;
    }
    let r = string_of(&cs, 0, j);
    assert(r@ =~= s@.take(j as int));
    assert(trim_end(s@.take(j as int)) == s@.take(j as int)) by {
        if j > 0 {
            assert(s@.take(j as int).last() == cs@[j - 1]);
        }
    }
    r
}

/// The lower case of an ASCII letter, or the character itself.
pub open spec fn lower(c: char) -> char {
    if 'A' <= c && c <= 'Z' {
        ((c as u8 + 32) as u8) as char
    } else {
        c
    }
}

/// A text with its ASCII letters in lower case.
pub open spec fn lowercase(s: Seq<char>) -> Seq<char> {
    s.map_values(|c: char| lower(c))
}

fn lower_char(c: char) -> (r: char)
    ensures
        r == lower(c),
{
    if 'A' <= c && c <= 'Z' {
        (c as u8 + 32) as char
    } else {
        c
    }
}

/// Whether two texts are equal but for the case of ASCII letters.
pub(crate) fn same_letters(a: &str, b: &str) -> (r: bool)
    ensures
        r == (lowercase(a@) == lowercase(b@)),
{
    let x = chars_of(a);
    let y = chars_of(b);
    if x.len() != y.len() {
        assert(lowercase(a@).len() != lowercase(b@).len());
        return false;
    }
    let mut i: usize = 0;
    while i < x.len()
        invariant
            i <= x@.len() == y@.len(),
            x@ == a@,
            y@ == b@,
            forall|j: int| 0 <= j < i ==> lower(#[trigger] a@[j]) == lower(b@[j]),
        decreases x@.len() - i,
    {
        if lower_char(x[i]) != lower_char(y[i]) {
            assert(lowercase(a@)[i as int] != lowercase(b@)[i as int]);
            return false;
        }
        i += 1;
    }
    assert(lowercase(a@) =~= lowercase(b@));
    true
}

/// A text up to a query or a fragment.
pub open spec fn ends_path() -> spec_fn(char) -> bool {
    |c: char| c == '?' || c == '#'
}

pub(crate) fn path_of(target: &str) -> (r: String)
    ensures
        r@ == target@.take(position(target@, ends_path())),
{
    let cs = chars_of(target);
    let mut i: usize = 0;
    while i < cs.len() && cs[i] != '?' && cs[i] != '#'
        invariant
            i <= cs@.len(),
            forall|j: int| 0 <= j < i ==> !(ends_path())(#[trigger] cs@[j]),
        decreases cs@.len() - i,
    {
        i += 1;
    }
    proof {
        lemma_position(cs@, ends_path(), i as int);
    }
    let r = string_of(&cs, 0, i);
    assert(r@ =~= target@.take(i as int));
    r
}

/// A text without the slashes at its end.
pub open spec fn without_slashes(s: Seq<char>) -> Seq<char>
    decreases s.len(),
{
    if s.len() > 0 && s.last() == '/' {
        without_slashes(s.drop_last())
    } else {
        s
    }
}

pub(crate) fn trim_slashes(s: &str) -> (r: String)
    ensures
        r@ == without_slashes(s@),
{
    let cs = chars_of(s);
    let mut j: usize = cs.len();
    assert(s@.take(j as int) =~= s@);
    while j > 0 && cs[j - 1] == '/'
        invariant
            j <= cs@.len(),
            cs@ == s@,
            without_slashes(s@) == without_slashes(s@.take(j as int)),
        decreases j,
    {
        assert(s@.take(j as int).drop_last() =~= s@.take(j - 1));
        j -= 1;
    }
    let r = string_of(&cs, 0, j);
    assert(r@ =~= s@.take(j as int));
    r
}

} // verus!
