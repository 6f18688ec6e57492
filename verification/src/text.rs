//! Plain text operations, stated over the characters or the UTF-8 bytes of a string.

use vstd::prelude::*;
use vstd::string::StringExecFns;
use vstd::utf8::encode_utf8;

verus! {

broadcast use vstd::string::group_string_axioms;

/// `String::push` of std: the character is added at the end, nothing else changes.
pub assume_specification[ String::push ](s: &mut String, c: char)
    ensures
        final(s)@ == old(s)@.push(c),
;

/// Whether a character has the Unicode general category `Cc`: the two blocks of
/// control codes of ISO 8859 together with `DEL`.
pub open spec fn is_control_char(c: char) -> bool {
    c as u32 <= 0x1f || 0x7f <= c as u32 <= 0x9f
}

/// `char::is_control` of std: true exactly for the control codes, the characters
/// of general category `Cc`.
pub assume_specification[ char::is_control ](c: char) -> (res: bool)
    ensures
        res == is_control_char(c),
;

/// Whether a character has the Unicode property `White_Space`.
pub open spec fn is_white_space(c: char) -> bool {
    let n = c as u32;
    ||| 0x09 <= n <= 0x0d
    ||| n == 0x20
    ||| n == 0x85
    ||| n == 0xa0
    ||| n == 0x1680
    ||| 0x2000 <= n <= 0x200a
    ||| n == 0x2028
    ||| n == 0x2029
    ||| n == 0x202f
    ||| n == 0x205f
    ||| n == 0x3000
}

/// `char::is_whitespace` of std: true exactly for the characters with the Unicode
/// property `White_Space`.
pub assume_specification[ char::is_whitespace ](c: char) -> (res: bool)
    ensures
        res == is_white_space(c),
;

/// The UTF-8 bytes of a text.
pub open spec fn bytes_of(text: Seq<char>) -> Seq<u8> {
    encode_utf8(text)
}

/// Two texts with the same UTF-8 bytes have the same characters.
pub proof fn lemma_same_bytes_same_text(a: Seq<char>, b: Seq<char>)
    requires
        bytes_of(a) == bytes_of(b),
    ensures
        a == b,
{
    vstd::utf8::encode_utf8_decode_utf8(a);
    vstd::utf8::encode_utf8_decode_utf8(b);
}

/// Whether two texts are equal.
pub fn same_text(a: &str, b: &str) -> (res: bool)
    ensures
        res == (a@ == b@),
{
    let x = a.as_bytes();
    let y = b.as_bytes();
    if x.len() != y.len() {
        return false;
    }
    for i in 0..x.len()
        invariant
            x@.len() == y@.len(),
            x@ == bytes_of(a@),
            y@ == bytes_of(b@),
            forall|j: int| 0 <= j < i ==> x@[j] == y@[j],
    {
        if x[i] != y[i] {
            return false;
        }
    }
    proof {
        assert(x@ =~= y@);
        lemma_same_bytes_same_text(a@, b@);
    }
    true
}

/// The characters of a text.
pub fn chars_of(s: &str) -> (res: Vec<char>)
    ensures
        res@ == s@,
{
    let mut res: Vec<char> = Vec::new();
    for c in it: s.chars()
        invariant
            it.seq() == s@,
            res@ == s@.take(it.index()),
    {
        res.push(c);
    }
    assert(s@.take(s@.len() as int) =~= s@);
    res
}

/// The text made of a run of characters.
pub fn text_of(chars: &[char]) -> (res: String)
    ensures
        res@ == chars@,
{
    let mut res = String::new();
    for i in 0..chars.len()
        invariant
            res@ == chars@.take(i as int),
    {
        res.push(chars[i]);
        assert(chars@.take(i as int).push(chars@[i as int]) =~= chars@.take(i + 1));
    }
    assert(chars@.take(chars@.len() as int) =~= chars@);
    res
}

/// What bytes say as UTF-8, with replacement characters for what is no UTF-8.
pub uninterp spec fn lossy_text(bytes: Seq<u8>) -> Seq<char>;

/// `String::from_utf8_lossy` of std: bytes that are UTF-8 are taken as they are; in others,
/// replacement characters stand for what is no UTF-8.
#[verifier::external_body]
pub(crate) fn from_utf8_lossy(bytes: &[u8]) -> (res: String)
    ensures
        res@ == lossy_text(bytes@),
        vstd::utf8::valid_utf8(bytes@) ==> bytes_of(res@) == bytes@,
{
    String::from_utf8_lossy(bytes).into_owned()
}

/// The digit for a number below ten.
pub open spec fn digit_char(d: int) -> char {
    if d == 0 {
        '0'
    } else if d == 1 {
        '1'
    } else if d == 2 {
        '2'
    } else if d == 3 {
        '3'
    } else if d == 4 {
        '4'
    } else if d == 5 {
        '5'
    } else if d == 6 {
        '6'
    } else if d == 7 {
        '7'
    } else if d == 8 {
        '8'
    } else {
        '9'
    }
}

/// A number in decimal notation, without leading zeros.
pub open spec fn decimal(n: nat) -> Seq<char>
    decreases n,
{
    if n < 10 {
        seq![digit_char(n as int)]
    } else {
        decimal(n / 10).push(digit_char(n as int % 10))
    }
}

fn digit(d: u64) -> (res: char)
    requires
        d < 10,
    ensures
        res == digit_char(d as int),
{
    match d {
        0 => '0',
        1 => '1',
        2 => '2',
        3 => '3',
        4 => '4',
        5 => '5',
        6 => '6',
        7 => '7',
        8 => '8',
        _ => '9',
    }
}

/// Writes a number in decimal notation.
pub fn decimal_text(n: u64) -> (res: String)
    ensures
        res@ == decimal(n as nat),
    decreases n,
{
    if n < 10 {
        let mut res = String::new();
        res.push(digit(n));
        assert(res@ =~= seq![digit_char(n as int)]);
        res
    } else {
        let mut res = decimal_text(n / 10);
        res.push(digit(n % 10));
        res
    }
}

/// Whether a character is a decimal digit.
pub open spec fn is_digit_char(c: char) -> bool {
    '0' <= c <= '9'
}

/// The number that a run of digits stands for.
pub open spec fn value_of(digits: Seq<char>) -> nat
    decreases digits.len(),
{
    if digits.len() == 0 {
        0
    } else {
        value_of(digits.drop_last()) * 10 + (digits.last() as u32 - '0' as u32) as nat
    }
}

/// The number that a text stands for: an optional plus sign, then digits and nothing else.
pub open spec fn number_of(text: Seq<char>) -> Option<nat> {
    if digits_of(text).len() > 0 && all_digits(digits_of(text)) {
        Some(value_of(digits_of(text)))
    } else {
        None
    }
}

/// What follows the optional plus sign of a number.
pub open spec fn digits_of(text: Seq<char>) -> Seq<char> {
    if text.len() > 0 && text[0] == '+' {
        text.skip(1)
    } else {
        text
    }
}

/// Whether a text is made of digits alone.
pub open spec fn all_digits(text: Seq<char>) -> bool {
    forall|i: int| 0 <= i < text.len() ==> is_digit_char(#[trigger] text[i])
}

proof fn lemma_value_grows(digits: Seq<char>, i: int)
    requires
        0 <= i <= digits.len(),
        all_digits(digits),
    ensures
        value_of(digits.take(i)) <= value_of(digits),
    decreases digits.len() - i,
{
    if i < digits.len() {
        lemma_value_grows(digits, i + 1);
        assert(digits.take(i + 1).drop_last() =~= digits.take(i));
    } else {
        assert(digits.take(i) =~= digits);
    }
}

/// Reads a number of at most `max`.
pub fn parse_number(text: &str, max: u64) -> (res: Option<u64>)
    ensures
        match res {
            Some(n) => number_of(text@) == Some(n as nat) && n <= max,
            None => match number_of(text@) {
                Some(n) => n > max,
                None => true,
            },
        },
{
    let chars = chars_of(text);
    let mut i: usize = 0;
    if chars.len() > 0 && chars[0] == '+' {
        i = 1;
    }
    let ghost from = i as int;
    let ghost digits = digits_of(text@);
    if i == chars.len() {
        return None;
    }
    let mut n: u64 = 0;
    assert(digits.take(0) =~= Seq::<char>::empty());
    while i < chars.len()
        invariant
            chars@ == text@,
            from == 0 || from == 1,
            from <= i <= chars@.len(),
            digits == digits_of(text@),
            from == 1 <==> (text@.len() > 0 && text@[0] == '+'),
            digits.len() == chars@.len() - from,
            digits.len() > 0,
            n <= max,
            n == value_of(digits.take(i - from)),
            forall|j: int| 0 <= j < i - from ==> is_digit_char(#[trigger] digits[j]),
        decreases chars@.len() - i,
    {
        let c = chars[i];
        assert(c == digits[i - from]);
        if !('0' <= c && c <= '9') {
            assert(!is_digit_char(digits[i - from]));
            assert(!all_digits(digits));
            return None;
        }
        let d: u64 = (c as u32 - '0' as u32) as u64;
        assert(digits.take(i + 1 - from).drop_last() =~= digits.take(i - from));
        let next: u128 = n as u128 * 10 + d as u128;
        if next > max as u128 {
            proof {
                if all_digits(digits) {
                    lemma_value_grows(digits, i + 1 - from);
                }
            }
            return None;
        }
        n = next as u64;
        i = i + 1;
    }
    assert(digits.take(digits.len() as int) =~= digits);
    Some(n)
}

/// Every number is read back from its decimal notation.
pub proof fn law_numbers_read_back(n: nat)
    ensures
        number_of(decimal(n)) == Some(n),
{
    lemma_decimal_digits(n);
}

/// The decimal notation of a number is made of digits, which stand for the number.
pub proof fn lemma_decimal_digits(n: nat)
    ensures
        decimal(n).len() > 0,
        all_digits(decimal(n)),
        decimal(n)[0] != '+',
        value_of(decimal(n)) == n,
    decreases n,
{
    let d = n as int % 10;
    assert(is_digit_char(digit_char(d)) && digit_char(d) as u32 - '0' as u32 == d);
    if n < 10 {
        assert(decimal(n).drop_last() =~= Seq::<char>::empty());
        assert(value_of(decimal(n).drop_last()) == 0);
        assert(decimal(n).last() == digit_char(d));
    } else {
        lemma_decimal_digits(n / 10);
        assert(decimal(n).drop_last() =~= decimal(n / 10));
    }
}

/// A text without the white space at its start.
pub open spec fn trimmed_start(text: Seq<char>) -> Seq<char>
    decreases text.len(),
{
    if text.len() > 0 && is_white_space(text[0]) {
        trimmed_start(text.drop_first())
    } else {
        text
    }
}

/// A text without the white space at its end.
pub open spec fn trimmed_end(text: Seq<char>) -> Seq<char>
    decreases text.len(),
{
    if text.len() > 0 && is_white_space(text.last()) {
        trimmed_end(text.drop_last())
    } else {
        text
    }
}

/// A text without the white space at its ends.
pub open spec fn trimmed(text: Seq<char>) -> Seq<char> {
    trimmed_end(trimmed_start(text))
}

/// What trimming leaves at the start is no white space.
proof fn lemma_trimmed_start(text: Seq<char>)
    ensures
        trimmed_start(text).len() > 0 ==> !is_white_space(trimmed_start(text)[0]),
    decreases text.len(),
{
    if text.len() > 0 && is_white_space(text[0]) {
        lemma_trimmed_start(text.drop_first());
    }
}

/// What trimming leaves at the end is no white space, and nothing before it is lost.
proof fn lemma_trimmed_end(text: Seq<char>)
    ensures
        trimmed_end(text).len() > 0 ==> !is_white_space(trimmed_end(text).last()),
        trimmed_end(text).len() <= text.len(),
        trimmed_end(text) == text.take(trimmed_end(text).len() as int),
    decreases text.len(),
{
    if text.len() > 0 && is_white_space(text.last()) {
        lemma_trimmed_end(text.drop_last());
        assert(text.drop_last().take(trimmed_end(text).len() as int) =~= text.take(
            trimmed_end(text).len() as int,
        ));
    } else {
        assert(text.take(text.len() as int) =~= text);
    }
}

/// A trimmed text stays as it is when it is trimmed again.
pub proof fn law_trimmed_stays(text: Seq<char>)
    ensures
        trimmed(trimmed(text)) == trimmed(text),
{
    lemma_trimmed_start(text);
    lemma_trimmed_end(trimmed_start(text));
}

/// Removes the white space at both ends of a text.
pub fn trim(text: &str) -> (res: String)
    ensures
        res@ == trimmed(text@),
{
    let chars = chars_of(text);
    let mut from: usize = 0;
    assert(text@.skip(0) =~= text@);
    while from < chars.len() && chars[from].is_whitespace()
        invariant
            chars@ == text@,
            from <= chars@.len(),
            trimmed_start(text@) == trimmed_start(text@.skip(from as int)),
        ensures
            from <= chars@.len(),
            trimmed_start(text@) == text@.skip(from as int),
        decreases chars@.len() - from,
    {
        assert(text@.skip(from as int).drop_first() =~= text@.skip(from + 1));
        from = from + 1;
    }
    let mut to: usize = chars.len();
    assert(text@.subrange(from as int, to as int) =~= text@.skip(from as int));
    while to > from && chars[to - 1].is_whitespace()
        invariant
            chars@ == text@,
            from <= to <= chars@.len(),
            trimmed(text@) == trimmed_end(text@.subrange(from as int, to as int)),
        ensures
            from <= to <= chars@.len(),
            trimmed(text@) == text@.subrange(from as int, to as int),
        decreases to,
    {
        assert(text@.subrange(from as int, to as int).drop_last() =~= text@.subrange(
            from as int,
            to - 1,
        ));
        to = to - 1;
    }
    let middle = vstd::slice::slice_subrange(chars.as_slice(), from, to);
    text_of(middle)
}

/// A text with `with` before, between and behind its characters.
pub open spec fn interspersed(text: Seq<char>, with: Seq<char>) -> Seq<char>
    decreases text.len(),
{
    if text.len() == 0 {
        with
    } else {
        with + seq![text[0]] + interspersed(text.drop_first(), with)
    }
}

/// A text with every occurrence of `find` replaced by `with`, taken from left to right
/// without overlaps. The empty text occurs before, between and behind all characters.
pub open spec fn replaced(text: Seq<char>, find: Seq<char>, with: Seq<char>) -> Seq<char>
    decreases text.len(),
{
    if find.len() == 0 {
        interspersed(text, with)
    } else if text.len() == 0 {
        text
    } else if find.is_prefix_of(text) {
        with + replaced(text.skip(find.len() as int), find, with)
    } else {
        seq![text[0]] + replaced(text.drop_first(), find, with)
    }
}

/// Whether `find` stands at position `at`.
fn stands_at(text: &Vec<char>, find: &Vec<char>, at: usize) -> (res: bool)
    requires
        at <= text@.len(),
    ensures
        res == find@.is_prefix_of(text@.skip(at as int)),
{
    if find.len() > text.len() - at {
        return false;
    }
    let ghost rest = text@.skip(at as int);
    for i in 0..find.len()
        invariant
            at + find.len() <= text.len(),
            rest == text@.skip(at as int),
            forall|j: int| 0 <= j < i ==> rest[j] == find@[j],
    {
        if text[at + i] != find[i] {
            assert(rest.subrange(0, find@.len() as int)[i as int] != find@[i as int]);
            return false;
        }
    }
    assert(rest.subrange(0, find@.len() as int) =~= find@);
    true
}

/// Replaces every occurrence of `find` in a text.
pub fn replace(text: &str, find: &str, with: &str) -> (res: String)
    ensures
        res@ == replaced(text@, find@, with@),
{
    let chars = chars_of(text);
    let pattern = chars_of(find);
    let mut res = String::new();
    let mut at: usize = 0;
    assert(text@.skip(0) =~= text@);
    if pattern.len() == 0 {
        while at < chars.len()
            invariant
                chars@ == text@,
                at <= chars@.len(),
                interspersed(text@, with@) == res@ + interspersed(text@.skip(at as int), with@),
            decreases chars@.len() - at,
        {
            let ghost before = res@;
            let ghost rest = interspersed(text@.skip(at + 1), with@);
            assert(text@.skip(at as int).drop_first() =~= text@.skip(at + 1));
            res.append(with);
            res.push(chars[at]);
            assert(before + (with@ + seq![text@[at as int]] + rest) =~= res@ + rest);
            at = at + 1;
        }
        let ghost before = res@;
        res.append(with);
        return res;
    }
    while at < chars.len()
        invariant
            chars@ == text@,
            pattern@ == find@,
            pattern@.len() > 0,
            at <= chars@.len(),
            replaced(text@, find@, with@) == res@ + replaced(text@.skip(at as int), find@, with@),
        decreases chars@.len() - at,
    {
        let ghost before = res@;
        let ghost rest = text@.skip(at as int);
        if stands_at(&chars, &pattern, at) {
            assert(rest.skip(find@.len() as int) =~= text@.skip(at + find@.len()));
            res.append(with);
            at = at + pattern.len();
            assert(before + (with@ + replaced(text@.skip(at as int), find@, with@)) =~= res@
                + replaced(text@.skip(at as int), find@, with@));
        } else {
            assert(rest.drop_first() =~= text@.skip(at + 1));
            res.push(chars[at]);
            at = at + 1;
            assert(before + (seq![rest[0]] + replaced(text@.skip(at as int), find@, with@))
                =~= res@ + replaced(text@.skip(at as int), find@, with@));
        }
    }
    res
}

/// Replacing something by itself changes nothing.
pub proof fn law_replacing_by_itself(text: Seq<char>, find: Seq<char>)
    ensures
        replaced(text, find, find) == text,
    decreases text.len(),
{
    if find.len() == 0 {
        if text.len() > 0 {
            law_replacing_by_itself(text.drop_first(), find);
        }
        assert(interspersed(text, find) =~= text);
    } else if text.len() > 0 {
        if find.is_prefix_of(text) {
            law_replacing_by_itself(text.skip(find.len() as int), find);
        } else {
            law_replacing_by_itself(text.drop_first(), find);
        }
        assert(replaced(text, find, find) =~= text);
    }
}

/// A number is read digit by digit: one more digit makes it ten times as large and adds the
/// digit. A plus sign before the first digit changes nothing, and any other character makes
/// it no number, as does having no digit.
pub proof fn law_digits_make_numbers(text: Seq<char>, c: char)
    ensures
        number_of(seq![]) is None,
        number_of(seq!['+']) is None,
        '0' <= c <= '9' ==> number_of(seq![c]) == Some((c as u32 - '0' as u32) as nat),
        '0' <= c <= '9' && number_of(text) is Some ==> number_of(text.push(c)) == Some(
            (number_of(text).unwrap() * 10 + (c as u32 - '0' as u32)) as nat,
        ),
        '0' <= c <= '9' && number_of(text) is None && text != seq!['+'] && text.len() > 0
            ==> number_of(text.push(c)) is None,
        !('0' <= c <= '9') ==> number_of(text.push(c)) is None,
        number_of(text) is Some && text[0] != '+' ==> number_of(seq!['+'] + text) == number_of(
            text,
        ),
        '0' <= c <= '9' ==> number_of(seq!['+', c]) == Some((c as u32 - '0' as u32) as nat),
{
    let longer = text.push(c);
    let digits = digits_of(text);
    assert(digits_of(seq!['+']) =~= seq![]);
    assert(seq![c].drop_last() =~= seq![]);
    assert(value_of(seq![c].drop_last()) == 0);
    if '0' <= c <= '9' {
        assert(digits_of(seq![c]) == seq![c]);
        assert(value_of(seq![c]) == (c as u32 - '0' as u32) as nat);
        assert(digits_of(seq!['+', c]) =~= seq![c]);
    }
    if text.len() > 0 {
        assert(digits_of(longer) =~= digits.push(c));
        assert(digits.push(c).drop_last() =~= digits);
        assert(digits.push(c).last() == c);
        assert(digits.push(c)[digits.len() as int] == c);
        if all_digits(digits) && is_digit_char(c) {
            assert(all_digits(digits.push(c)));
        }
        if all_digits(digits.push(c)) {
            assert forall|i: int| 0 <= i < digits.len() implies is_digit_char(
                #[trigger] digits[i],
            ) by {
                assert(digits.push(c)[i] == digits[i]);
            }
        }
        if digits.len() == 0 {
            assert(text =~= seq!['+']);
        }
        assert((seq!['+'] + text).skip(1) =~= text);
    } else {
        assert(longer =~= seq![c]);
        if c == '+' {
            assert(digits_of(longer) =~= seq![]);
        } else {
            assert(digits_of(longer)[0] == c);
        }
    }
}

/// A number below ten is written as its digit, a larger one as its tenth part and its last
/// digit.
pub proof fn law_decimal_digits(n: nat, d: nat)
    requires
        d < 10,
    ensures
        decimal(d) == seq![('0' as u32 + d) as char],
        n > 0 ==> decimal(10 * n + d) == decimal(n) + seq![('0' as u32 + d) as char],
{
    assert(digit_char(d as int) == ('0' as u32 + d) as char);
    if n > 0 {
        assert((10 * n + d) / 10 == n);
        assert((10 * n + d) % 10 == d);
        assert(decimal(n).push(digit_char(d as int)) =~= decimal(n) + seq![
            ('0' as u32 + d) as char,
        ]);
    }
}

/// Trimming takes the white space off both ends of a text and nothing else.
pub proof fn law_trim_takes_ends_off(before: Seq<char>, text: Seq<char>, behind: Seq<char>)
    requires
        forall|i: int| 0 <= i < before.len() ==> is_white_space(#[trigger] before[i]),
        forall|i: int| 0 <= i < behind.len() ==> is_white_space(#[trigger] behind[i]),
        text.len() > 0 ==> !is_white_space(text[0]) && !is_white_space(text.last()),
    ensures
        trimmed(before + text + behind) == text,
    decreases before.len() + behind.len(),
{
    let whole = before + text + behind;
    if before.len() > 0 {
        let rest = before.drop_first();
        assert forall|i: int| 0 <= i < rest.len() implies is_white_space(#[trigger] rest[i]) by {
            assert(rest[i] == before[i + 1]);
        }
        law_trim_takes_ends_off(rest, text, behind);
        assert(whole[0] == before[0]);
        assert(whole.drop_first() =~= rest + text + behind);
    } else if text.len() == 0 {
        lemma_all_white(whole);
    } else {
        assert(whole =~= text + behind);
        assert(whole[0] == text[0]);
        assert(trimmed_start(whole) == whole);
        lemma_trimmed_behind(text, behind);
    }
}

proof fn lemma_all_white(text: Seq<char>)
    requires
        forall|i: int| 0 <= i < text.len() ==> is_white_space(#[trigger] text[i]),
    ensures
        trimmed_start(text) == Seq::<char>::empty(),
    decreases text.len(),
{
    if text.len() > 0 {
        assert forall|i: int| 0 <= i < text.drop_first().len() implies is_white_space(
            #[trigger] text.drop_first()[i],
        ) by {
            assert(text.drop_first()[i] == text[i + 1]);
        }
        lemma_all_white(text.drop_first());
    } else {
        assert(text =~= seq![]);
    }
}

proof fn lemma_trimmed_behind(text: Seq<char>, behind: Seq<char>)
    requires
        forall|i: int| 0 <= i < behind.len() ==> is_white_space(#[trigger] behind[i]),
        text.len() > 0,
        !is_white_space(text.last()),
    ensures
        trimmed_end(text + behind) == text,
    decreases behind.len(),
{
    let whole = text + behind;
    if behind.len() > 0 {
        let rest = behind.drop_last();
        assert forall|i: int| 0 <= i < rest.len() implies is_white_space(#[trigger] rest[i]) by {
            assert(rest[i] == behind[i]);
        }
        lemma_trimmed_behind(text, rest);
        assert(whole.last() == behind[behind.len() - 1]);
        assert(whole.drop_last() =~= text + rest);
    } else {
        assert(whole =~= text);
    }
}

/// Whether `find` stands at position `at` of a text.
pub open spec fn occurs_at(text: Seq<char>, find: Seq<char>, at: int) -> bool {
    0 <= at && at + find.len() <= text.len() && text.subrange(at, at + find.len()) == find
}

/// Replacing leaves what stands before the first occurrence as it is, puts the new text in
/// the place of it, and goes on behind it. Where there is no occurrence, nothing changes.
pub proof fn law_replace_goes_by_occurrences(
    text: Seq<char>,
    find: Seq<char>,
    with: Seq<char>,
    at: int,
)
    requires
        find.len() > 0,
    ensures
        occurs_at(text, find, at) && (forall|i: int| 0 <= i < at ==> !occurs_at(text, find, i))
            ==> replaced(text, find, with) == text.take(at) + with + replaced(
            text.skip(at + find.len()),
            find,
            with,
        ),
        (forall|i: int| !occurs_at(text, find, i)) ==> replaced(text, find, with) == text,
    decreases text.len(),
{
    if text.len() > 0 {
        let rest = text.drop_first();
        assert(find.is_prefix_of(text) == occurs_at(text, find, 0)) by {
            if find.len() <= text.len() {
                assert(text.subrange(0, find.len() as int) == text.subrange(
                    0,
                    0 + find.len() as int,
                ));
            }
        }
        assert forall|i: int| 0 <= i implies occurs_at(rest, find, i) == occurs_at(
            text,
            find,
            i + 1,
        ) by {
            if i + find.len() <= rest.len() {
                assert(rest.subrange(i, i + find.len()) =~= text.subrange(
                    i + 1,
                    i + 1 + find.len(),
                ));
            }
        }
        if find.is_prefix_of(text) {
            if at == 0 {
                assert(replaced(text, find, with) =~= text.take(0) + with + replaced(
                    text.skip(find.len() as int),
                    find,
                    with,
                ));
            } else {
                assert(occurs_at(text, find, 0));
            }
        } else {
            law_replace_goes_by_occurrences(rest, find, with, at - 1);
            if at > 0 && occurs_at(text, find, at) && (forall|i: int|
                0 <= i < at ==> !occurs_at(text, find, i)) {
                assert(occurs_at(rest, find, at - 1));
                assert forall|i: int| 0 <= i < at - 1 implies !occurs_at(rest, find, i) by {
                    assert(!occurs_at(text, find, i + 1));
                }
                assert(rest.skip(at - 1 + find.len()) =~= text.skip(at + find.len()));
                assert(seq![text[0]] + (rest.take(at - 1) + with + replaced(
                    text.skip(at + find.len()),
                    find,
                    with,
                )) =~= text.take(at) + with + replaced(text.skip(at + find.len()), find, with));
            }
            if forall|i: int| !occurs_at(text, find, i) {
                assert forall|i: int| !occurs_at(rest, find, i) by {
                    if 0 <= i {
                        assert(!occurs_at(text, find, i + 1));
                    }
                }
                assert(seq![text[0]] + rest =~= text);
            }
        }
    } else {
        assert(!occurs_at(text, find, at));
    }
}

/// Replacing the empty text puts the new text before, between and behind all characters.
pub proof fn law_replacing_nothing_spreads(text: Seq<char>, c: char, with: Seq<char>)
    ensures
        replaced(seq![], seq![], with) == with,
        replaced(text.push(c), seq![], with) == replaced(text, seq![], with) + seq![c] + with,
    decreases text.len(),
{
    if text.len() == 0 {
        assert(text.push(c).drop_first() =~= seq![]);
        reveal_with_fuel(interspersed, 2);
        assert(text =~= seq![]);
    } else {
        law_replacing_nothing_spreads(text.drop_first(), c, with);
        assert(text.push(c).drop_first() =~= text.drop_first().push(c));
        assert(interspersed(text.push(c), with) =~= interspersed(text, with) + seq![c] + with);
    }
}

} // verus!
