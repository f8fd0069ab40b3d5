//! The persisted calibration setting: serialization and parsing of the
//! small settings file `{"offset_ms":<int>}`.
//!
//! Reading and writing the file itself (and locating the OS config
//! directory) is I/O and happens in the application; this module only turns
//! the offset into text and back.

use vstd::prelude::*;

verus! {

/// The JSON key of the offset, quotes included.
pub open spec fn offset_key() -> Seq<char> {
    seq!['"', 'o', 'f', 'f', 's', 'e', 't', '_', 'm', 's', '"']
}

/// The decimal digit character for `d < 10`.
pub open spec fn digit_char(d: nat) -> char {
    ((d + 48) as u32) as char
}

pub open spec fn is_ascii_digit(c: char) -> bool {
    '0' <= c <= '9'
}

/// The value of a decimal digit character.
pub open spec fn digit_value(c: char) -> nat {
    ((c as u32) - 48) as nat
}

/// Shortest decimal representation of `n`.
pub open spec fn decimal(n: nat) -> Seq<char>
    decreases n,
{
    if n < 10 {
        seq![digit_char(n)]
    } else {
        decimal(n / 10).push(digit_char(n % 10))
    }
}

/// Decimal representation of `x`, with a leading `-` when negative.
pub open spec fn signed_decimal(x: int) -> Seq<char> {
    if x < 0 {
        seq!['-'] + decimal((-x) as nat)
    } else {
        decimal(x as nat)
    }
}

/// The settings file holding `offset_ms`, newline-terminated.
pub open spec fn serialized_offset(offset_ms: i64) -> Seq<char> {
    seq!['{'] + offset_key() + seq![':'] + signed_decimal(offset_ms as int) + seq!['}', '\n']
}

/// Index of the first occurrence of `pattern` in `s`.
pub open spec fn find_seq(s: Seq<char>, pattern: Seq<char>) -> Option<int>
    decreases s.len(),
{
    if s.len() < pattern.len() || s.len() == 0 {
        None
    } else if s.take(pattern.len() as int) == pattern {
        Some(0)
    } else {
        match find_seq(s.drop_first(), pattern) {
            Some(i) => Some(i + 1),
            None => None,
        }
    }
}

/// Index of the first occurrence of `c` in `s`.
pub open spec fn find_char(s: Seq<char>, c: char) -> Option<int>
    decreases s.len(),
{
    if s.len() == 0 {
        None
    } else if s[0] == c {
        Some(0)
    } else {
        match find_char(s.drop_first(), c) {
            Some(i) => Some(i + 1),
            None => None,
        }
    }
}

/// Characters with the Unicode `White_Space` property (what `char::is_whitespace`
/// and `str::trim_start` go by).
pub open spec fn is_unicode_whitespace(c: char) -> bool {
    let u = c as u32;
    ||| 0x09 <= u <= 0x0d
    ||| u == 0x20
    ||| u == 0x85
    ||| u == 0xa0
    ||| u == 0x1680
    ||| 0x2000 <= u <= 0x200a
    ||| u == 0x2028
    ||| u == 0x2029
    ||| u == 0x202f
    ||| u == 0x205f
    ||| u == 0x3000
}

/// `s` without its leading whitespace.
pub open spec fn trim_start(s: Seq<char>) -> Seq<char>
    decreases s.len(),
{
    if s.len() > 0 && is_unicode_whitespace(s[0]) {
        trim_start(s.drop_first())
    } else {
        s
    }
}

/// Characters that may belong to the number: ASCII digits and `-`.
pub open spec fn is_number_char(c: char) -> bool {
    is_ascii_digit(c) || c == '-'
}

/// Length of the longest prefix of `s` made of digits and `-`.
pub open spec fn number_prefix_len(s: Seq<char>) -> nat
    decreases s.len(),
{
    if s.len() > 0 && is_number_char(s[0]) {
        1 + number_prefix_len(s.drop_first())
    } else {
        0
    }
}

pub open spec fn all_digits(s: Seq<char>) -> bool {
    forall|i: int| 0 <= i < s.len() ==> is_ascii_digit(#[trigger] s[i])
}

/// The number that a string of decimal digits denotes.
pub open spec fn digits_value(s: Seq<char>) -> nat
    decreases s.len(),
{
    if s.len() == 0 {
        0
    } else {
        digits_value(s.drop_last()) * 10 + digit_value(s.last())
    }
}

/// What `i64::from_str` gives for a string of digits and `-`: an optional
/// minus sign followed by at least one digit, within range.
pub open spec fn parse_i64(s: Seq<char>) -> Option<i64> {
    if s.len() > 0 && s[0] == '-' {
        let digits = s.drop_first();
        if digits.len() > 0 && all_digits(digits) && digits_value(digits) <= 0x8000_0000_0000_0000 {
            Some((-(digits_value(digits) as int)) as i64)
        } else {
            None
        }
    } else if s.len() > 0 && all_digits(s) && digits_value(s) <= i64::MAX {
        Some(digits_value(s) as i64)
    } else {
        None
    }
}

/// The offset held by settings-file `contents`: the integer after the first
/// `"offset_ms"` key and the next `:`, skipping leading whitespace; `None`
/// if there is no such key, colon, or integer in range.
pub open spec fn parsed_offset(contents: Seq<char>) -> Option<i64> {
    match find_seq(contents, offset_key()) {
        Some(k) => {
            let after_key = contents.skip(k + offset_key().len());
            match find_char(after_key, ':') {
                Some(c) => {
                    let value = trim_start(after_key.skip(c + 1));
                    parse_i64(value.take(number_prefix_len(value) as int))
                },
                None => None,
            }
        },
        None => None,
    }
}


/// The characters of `contents`, in order.
fn chars_of(contents: &str) -> (chars: Vec<char>)
    ensures
        chars@ == contents@,
{
    broadcast use vstd::string::group_string_axioms;

    let mut chars: Vec<char> = Vec::new();
    for c in it: contents.chars()
        invariant
            chars@ == it.seq().take(it.index() as int),
            it.seq() == contents@,
    {
        chars.push(c);
        assert(it.seq().take(it.index() + 1) == it.seq().take(it.index() as int).push(c));
    }
    chars
}

/// Appends `c` to `s` (`String::push`).
#[verifier::external_body]
fn push_char(s: &mut String, c: char)
    ensures
        final(s)@ == old(s)@.push(c),
{
    s.push(c);
}

/// Character `j` of the key `"offset_ms"` (quotes included).
fn key_char(j: usize) -> (c: char)
    requires
        j < 11,
    ensures
        c == offset_key()[j as int],
{
    match j {
        0 => '"',
        1 => 'o',
        2 => 'f',
        3 => 'f',
        4 => 's',
        5 => 'e',
        6 => 't',
        7 => '_',
        8 => 'm',
        9 => 's',
        _ => '"',
    }
}

/// The decimal digit character for `d`.
fn to_digit_char(d: u64) -> (c: char)
    requires
        d < 10,
    ensures
        c == digit_char(d as nat),
{
    match d {
        0 => '0',
        1 => '1',
        2 => '2',
        3 => '3',
        4 => '4',
        5 => '5',
        6 => '6',
        7 => '7',
        8 => '8',
        _ => '9',
    }
}

/// Shortest decimal representation of `n`.
fn decimal_chars(n: u64) -> (digits: Vec<char>)
    ensures
        digits@ == decimal(n as nat),
{
    let mut digits: Vec<char> = Vec::new();
    let mut m = n;
    while m >= 10
        invariant
            decimal(n as nat) == decimal(m as nat) + digits@,
        decreases m,
    {
        let d = to_digit_char(m % 10);
        digits.insert(0, d);
        assert(decimal(m as nat) == decimal((m / 10) as nat).push(d));
        assert(decimal((m / 10) as nat) + digits@ == decimal(m as nat) + digits@.drop_first());
        m = m / 10;
    }
    let d = to_digit_char(m);
    digits.insert(0, d);
    assert(decimal(m as nat) == seq![d]);
    assert(digits@ == seq![d] + digits@.drop_first());
    digits
}

/// The settings-file text for `offset_ms`: `{"offset_ms":<offset_ms>}`
/// followed by a newline.
pub fn serialize_offset_ms(offset_ms: i64) -> (text: String)
    ensures
        text@ == serialized_offset(offset_ms),
{
    let mut text = String::new();
    push_char(&mut text, '{');
    let mut j: usize = 0;
    while j < 11
        invariant
            j <= 11,
            text@ == seq!['{'] + offset_key().take(j as int),
        decreases 11 - j,
    {
        let c = key_char(j);
        push_char(&mut text, c);
        assert(offset_key().take(j + 1) == offset_key().take(j as int).push(c));
        j = j + 1;
    }
    assert(offset_key().take(11) == offset_key());
    push_char(&mut text, ':');
    let ghost head = text@;
    let magnitude: u64 = if offset_ms < 0 {
        push_char(&mut text, '-');
        (-(offset_ms as i128)) as u64
    } else {
        offset_ms as u64
    };
    let ghost signed_head = text@;
    let digits = decimal_chars(magnitude);
    let mut i: usize = 0;
    while i < digits.len()
        invariant
            i <= digits@.len(),
            text@ == signed_head + digits@.take(i as int),
        decreases digits@.len() - i,
    {
        push_char(&mut text, digits[i]);
        assert(digits@.take(i + 1) == digits@.take(i as int).push(digits@[i as int]));
        i = i + 1;
    }
    assert(digits@.take(digits@.len() as int) == digits@);
    assert(signed_head + digits@ == head + signed_decimal(offset_ms as int));
    push_char(&mut text, '}');
    push_char(&mut text, '\n');
    text
}

/// Whether `c` has the Unicode `White_Space` property.
fn is_whitespace(c: char) -> (ws: bool)
    ensures
        ws == is_unicode_whitespace(c),
{
    let u = c as u32;
    (0x09 <= u && u <= 0x0d) || u == 0x20 || u == 0x85 || u == 0xa0 || u == 0x1680 || (0x2000 <= u
        && u <= 0x200a) || u == 0x2028 || u == 0x2029 || u == 0x202f || u == 0x205f || u == 0x3000
}

/// Whether `c` is an ASCII digit.
fn is_digit(c: char) -> (digit: bool)
    ensures
        digit == is_ascii_digit(c),
{
    '0' <= c && c <= '9'
}

/// The integer that `chars[start..end]` denotes, as `i64::from_str` reads
/// a string of digits and `-`.
fn parse_i64_chars(chars: &Vec<char>, start: usize, end: usize) -> (value: Option<i64>)
    requires
        start <= end <= chars@.len(),
    ensures
        value == parse_i64(chars@.subrange(start as int, end as int)),
{
    let ghost token = chars@.subrange(start as int, end as int);
    let negative = start < end && chars[start] == '-';
    assert(token.len() > 0 ==> token[0] == chars@[start as int]);
    assert(negative <==> (token.len() > 0 && token[0] == '-'));
    let first = if negative {
        start + 1
    } else {
        start
    };
    let ghost digits = chars@.subrange(first as int, end as int);
    assert(negative ==> digits == token.drop_first());
    assert(!negative ==> digits == token);
    if first == end {
        assert(digits.len() == 0);
        return None;
    }
    let mut acc: u128 = 0;
    let mut over = false;
    let mut i: usize = first;
    while i < end
        invariant
            first <= i <= end <= chars@.len(),
            digits == chars@.subrange(first as int, end as int),
            token == chars@.subrange(start as int, end as int),
            negative <==> (token.len() > 0 && token[0] == '-'),
            negative ==> digits == token.drop_first(),
            !negative ==> digits == token,
            all_digits(digits.take(i - first)),
            !over ==> acc == digits_value(digits.take(i - first)) && acc <= 0x8000_0000_0000_0000u128,
            over ==> digits_value(digits.take(i - first)) > 0x8000_0000_0000_0000u128,
        decreases end - i,
    {
        let c = chars[i];
        assert(digits[i - first] == c);
        if !is_digit(c) {
            assert(!all_digits(digits));
            return None;
        }
        assert(digits.take(i - first + 1).drop_last() == digits.take(i - first));
        assert(digits.take(i - first + 1).last() == c);
        if !over {
            let v = acc * 10 + (c as u32 - 48) as u128;
            if v > 0x8000_0000_0000_0000u128 {
                over = true;
            } else {
                acc = v;
            }
        }
        i = i + 1;
    }
    assert(digits.take(end - first) == digits);
    if over {
        None
    } else if negative {
        Some((-(acc as i128)) as i64)
    } else if acc <= 0x7fff_ffff_ffff_ffffu128 {
        Some(acc as i64)
    } else {
        None
    }
}

/// Index of the first occurrence of the key in `chars`.
fn find_key(chars: &Vec<char>) -> (k: Option<usize>)
    ensures
        match k {
            Some(i) => find_seq(chars@, offset_key()) == Some(i as int) && i + 11 <= chars@.len(),
            None => find_seq(chars@, offset_key()) is None,
        },
{
    let len = chars.len();
    let mut k: usize = 0;
    assert(chars@.skip(0) == chars@);
    while 11 <= len - k
        invariant
            len == chars@.len(),
            k <= len,
            find_seq(chars@, offset_key()) == match find_seq(chars@.skip(k as int), offset_key()) {
                Some(i) => Some(i + k),
                None => None,
            },
        decreases len - k,
    {
        let mut j: usize = 0;
        let mut same = true;
        assert(chars@.subrange(k as int, k as int) == offset_key().take(0));
        while j < 11 && same
            invariant
                j <= 11,
                k + 11 <= len,
                len == chars@.len(),
                same == (chars@.subrange(k as int, k + j) == offset_key().take(j as int)),
            decreases 11 - j,
        {
            let c = key_char(j);
            if chars[k + j] != c {
                same = false;
                assert(chars@.subrange(k as int, k + j + 1)[j as int] != offset_key().take(
                    j + 1,
                )[j as int]);
            }
            assert(same ==> chars@.subrange(k as int, k + j + 1) == offset_key().take(j + 1));
            j = j + 1;
        }
        assert(chars@.skip(k as int).take(11) == chars@.subrange(k as int, k + 11));
        assert(offset_key().take(11) == offset_key());
        if same {
            assert(j == 11);
            return Some(k);
        }
        assert(chars@.subrange(k as int, k + j) != offset_key().take(j as int));
        assert(chars@.skip(k as int).take(11).take(j as int) == chars@.subrange(k as int, k + j));
        assert(chars@.skip(k as int).take(11) != offset_key());
        assert(chars@.skip(k as int).drop_first() == chars@.skip(k + 1));
        k = k + 1;
    }
    None
}

/// Index (at or after `from`) of the first `:` in `chars`, or `chars.len()`.
fn find_colon(chars: &Vec<char>, from: usize) -> (c: usize)
    requires
        from <= chars@.len(),
    ensures
        from <= c <= chars@.len(),
        c == chars@.len() ==> find_char(chars@.skip(from as int), ':') is None,
        c < chars@.len() ==> find_char(chars@.skip(from as int), ':') == Some(c - from),
{
    let len = chars.len();
    let mut c: usize = from;
    assert(chars@.skip(from as int) == chars@.skip(c as int));
    while c < len && chars[c] != ':'
        invariant
            from <= c <= len,
            len == chars@.len(),
            find_char(chars@.skip(from as int), ':') == match find_char(
                chars@.skip(c as int),
                ':',
            ) {
                Some(i) => Some(i + (c - from)),
                None => None,
            },
        decreases len - c,
    {
        assert(chars@.skip(c as int).drop_first() == chars@.skip(c + 1));
        c = c + 1;
    }
    c
}

/// Index of the first non-whitespace character at or after `from`.
fn skip_whitespace(chars: &Vec<char>, from: usize) -> (p: usize)
    requires
        from <= chars@.len(),
    ensures
        from <= p <= chars@.len(),
        trim_start(chars@.skip(from as int)) == chars@.skip(p as int),
{
    let len = chars.len();
    let mut p: usize = from;
    while p < len && is_whitespace(chars[p])
        invariant
            from <= p <= len,
            len == chars@.len(),
            trim_start(chars@.skip(from as int)) == trim_start(chars@.skip(p as int)),
        decreases len - p,
    {
        assert(chars@.skip(p as int).drop_first() == chars@.skip(p + 1));
        p = p + 1;
    }
    p
}

/// End of the run of digits and `-` that starts at `from`.
fn number_end(chars: &Vec<char>, from: usize) -> (e: usize)
    requires
        from <= chars@.len(),
    ensures
        from <= e <= chars@.len(),
        e - from == number_prefix_len(chars@.skip(from as int)),
{
    let len = chars.len();
    let mut e: usize = from;
    while e < len && (is_digit(chars[e]) || chars[e] == '-')
        invariant
            from <= e <= len,
            len == chars@.len(),
            number_prefix_len(chars@.skip(from as int)) == (e - from) + number_prefix_len(
                chars@.skip(e as int),
            ),
        decreases len - e,
    {
        assert(chars@.skip(e as int).drop_first() == chars@.skip(e + 1));
        e = e + 1;
    }
    e
}

/// Extracts the `offset_ms` integer from settings-file contents of the
/// shape `{"offset_ms": <int>}` (whitespace-tolerant). Not a general JSON
/// parser: it only handles this one known shape.
pub fn parse_offset_ms(contents: &str) -> (offset_ms: Option<i64>)
    ensures
        offset_ms == parsed_offset(contents@),
{
    let chars = chars_of(contents);
    let len = chars.len();
    match find_key(&chars) {
        None => None,
        Some(k) => {
            let ghost after_key = chars@.skip(k + 11);
            assert(offset_key().len() == 11);
            let c = find_colon(&chars, k + 11);
            if c == len {
                return None;
            }
            assert(after_key.skip(c - (k + 11) + 1) == chars@.skip(c + 1));
            let p = skip_whitespace(&chars, c + 1);
            let e = number_end(&chars, p);
            assert(chars@.skip(p as int).take(e - p) == chars@.subrange(p as int, e as int));
            parse_i64_chars(&chars, p, e)
        },
    }
}

/// The decimal representation of `n` is a non-empty string of digits that
/// denotes `n`.
proof fn lemma_decimal(n: nat)
    ensures
        decimal(n).len() > 0,
        all_digits(decimal(n)),
        digits_value(decimal(n)) == n,
    decreases n,
{
    assert(digit_value(digit_char(n % 10)) == n % 10);
    if n >= 10 {
        lemma_decimal(n / 10);
        let d = decimal(n);
        assert(d.drop_last() == decimal(n / 10));
        assert(d.last() == digit_char(n % 10));
        assert((n / 10) * 10 + n % 10 == n);
        assert(digits_value(d) == digits_value(d.drop_last()) * 10 + digit_value(d.last()));
        assert forall|i: int| 0 <= i < d.len() implies is_ascii_digit(#[trigger] d[i]) by {
            if i < d.len() - 1 {
                assert(d[i] == decimal(n / 10)[i]);
            }
        }
    } else {
        assert(decimal(n).drop_last().len() == 0);
        assert(digits_value(decimal(n)) == digits_value(decimal(n).drop_last()) * 10 + digit_value(
            decimal(n).last(),
        ));
    }
}

/// A prefix made only of digits and `-` is counted whole by
/// `number_prefix_len`.
proof fn lemma_number_prefix_len_append(a: Seq<char>, b: Seq<char>)
    requires
        forall|i: int| 0 <= i < a.len() ==> is_number_char(#[trigger] a[i]),
    ensures
        number_prefix_len(a + b) == a.len() + number_prefix_len(b),
    decreases a.len(),
{
    if a.len() > 0 {
        assert((a + b).drop_first() == a.drop_first() + b);
        lemma_number_prefix_len_append(a.drop_first(), b);
    } else {
        assert(a + b == b);
    }
}

/// Reading back what [`serialize_offset_ms`] wrote gives the same offset.
pub proof fn lemma_offset_round_trip(offset_ms: i64)
    ensures
        parsed_offset(serialized_offset(offset_ms)) == Some(offset_ms),
{
    let s = serialized_offset(offset_ms);
    let key = offset_key();
    let sd = signed_decimal(offset_ms as int);
    let magnitude: nat = if offset_ms < 0 {
        (-(offset_ms as int)) as nat
    } else {
        offset_ms as nat
    };
    lemma_decimal(magnitude);
    // The key is found right after the opening brace.
    assert(s.take(11)[0] != key[0]);
    assert(s.drop_first().take(11) == key);
    assert(find_seq(s.drop_first(), key) == Some(0int));
    assert(find_seq(s, key) == Some(1int));
    // The colon follows the key directly.
    let after_key = s.skip(12);
    assert(after_key == seq![':'] + sd + seq!['}', '\n']);
    assert(find_char(after_key, ':') == Some(0int));
    let value = after_key.skip(1);
    assert(value == sd + seq!['}', '\n']);
    // No leading whitespace to trim.
    assert(sd[0] == '-' || is_ascii_digit(sd[0])) by {
        if offset_ms >= 0 {
            assert(sd[0] == decimal(magnitude)[0]);
        }
    }
    assert(value[0] == sd[0]);
    assert(trim_start(value) == value);
    // The number is exactly the signed decimal.
    assert forall|i: int| 0 <= i < sd.len() implies is_number_char(#[trigger] sd[i]) by {
        if offset_ms < 0 && i > 0 {
            assert(sd[i] == decimal(magnitude)[i - 1]);
        }
    }
    lemma_number_prefix_len_append(sd, seq!['}', '\n']);
    assert(number_prefix_len(seq!['}', '\n']) == 0);
    assert(value.take(sd.len() as int) == sd);
    if offset_ms < 0 {
        assert(sd.drop_first() == decimal(magnitude));
    } else {
        assert(sd == decimal(magnitude));
        assert(sd[0] != '-');
    }
}

} // verus!
