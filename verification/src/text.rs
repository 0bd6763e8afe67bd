//! Verified text utilities: decimal printing and parsing, the JSON
//! number grammar, ASCII case folding, and path suffix extraction.

use vstd::prelude::*;

verus! {

/// Relies on std's `String::push`: appends one character at the end.
pub assume_specification [ String::push ](s: &mut String, c: char)
    ensures
        final(s)@ == old(s)@.push(c),
;

/// Whether `c` is a decimal digit.
pub open spec fn is_dec_digit(c: char) -> bool {
    '0' <= c && c <= '9'
}

/// The numeric value of a decimal digit.
pub open spec fn digit_val(c: char) -> int {
    c as int - '0' as int
}

/// The decimal digit character for a value between 0 and 9.
pub open spec fn dec_digit_char(d: int) -> char
    recommends
        0 <= d <= 9,
{
    if d == 0 {
        '0'
    } else if d == 1 {
        '1'
    } else if d == 2 {
        '2'
    } else if d == 3 {
        '3'
    } else if d == 4 {
        '4'
    } else if d == 5 {
        '5'
    } else if d == 6 {
        '6'
    } else if d == 7 {
        '7'
    } else if d == 8 {
        '8'
    } else {
        '9'
    }
}

/// The hexadecimal digit character for a value between 0 and 15,
/// with lower-case letters.
pub open spec fn hex_digit_char(d: int) -> char
    recommends
        0 <= d <= 15,
{
    if d < 10 {
        dec_digit_char(d)
    } else if d == 10 {
        'a'
    } else if d == 11 {
        'b'
    } else if d == 12 {
        'c'
    } else if d == 13 {
        'd'
    } else if d == 14 {
        'e'
    } else {
        'f'
    }
}

/// The decimal representation of a natural number, without sign.
pub open spec fn dec_str_nat(n: nat) -> Seq<char>
    decreases n,
{
    if n < 10 {
        seq![dec_digit_char(n as int)]
    } else {
        dec_str_nat(n / 10) + seq![dec_digit_char((n % 10) as int)]
    }
}

/// The decimal representation of an integer: a minus sign for negative
/// values, then the digits.
pub open spec fn dec_str_int(n: int) -> Seq<char> {
    if n < 0 {
        seq!['-'] + dec_str_nat((-n) as nat)
    } else {
        dec_str_nat(n as nat)
    }
}

/// The decimal digit character for a value between 0 and 9.
pub fn dec_digit_char_exec(d: u8) -> (c: char)
    requires
        d <= 9,
    ensures
        c == dec_digit_char(d as int),
{
    if d == 0 {
        '0'
    } else if d == 1 {
        '1'
    } else if d == 2 {
        '2'
    } else if d == 3 {
        '3'
    } else if d == 4 {
        '4'
    } else if d == 5 {
        '5'
    } else if d == 6 {
        '6'
    } else if d == 7 {
        '7'
    } else if d == 8 {
        '8'
    } else {
        '9'
    }
}

/// The hexadecimal digit character for a value between 0 and 15.
pub fn hex_digit_char_exec(d: u8) -> (c: char)
    requires
        d <= 15,
    ensures
        c == hex_digit_char(d as int),
{
    if d < 10 {
        dec_digit_char_exec(d)
    } else if d == 10 {
        'a'
    } else if d == 11 {
        'b'
    } else if d == 12 {
        'c'
    } else if d == 13 {
        'd'
    } else if d == 14 {
        'e'
    } else {
        'f'
    }
}

/// Writes the decimal digits of `n` onto `out`.
pub fn push_dec_u64(out: &mut String, n: u64)
    ensures
        final(out)@ == old(out)@ + dec_str_nat(n as nat),
    decreases n,
{
    if n < 10 {
        out.push(dec_digit_char_exec(n as u8));
    } else {
        push_dec_u64(out, n / 10);
        out.push(dec_digit_char_exec((n % 10) as u8));
        proof {
            assert(final(out)@ =~= old(out)@ + dec_str_nat(n as nat));
        }
    }
}

/// The decimal representation of an unsigned integer.
pub fn u64_to_dec(n: u64) -> (s: String)
    ensures
        s@ == dec_str_nat(n as nat),
{
    let mut s = String::new();
    push_dec_u64(&mut s, n);
    proof {
        assert(s@ =~= dec_str_nat(n as nat));
    }
    s
}

/// The decimal representation of a signed integer.
pub fn i64_to_dec(n: i64) -> (s: String)
    ensures
        s@ == dec_str_int(n as int),
{
    if n < 0 {
        let mag: u64 = if n == i64::MIN {
            9223372036854775808u64
        } else {
            (-n) as u64
        };
        proof {
            assert(mag as int == -(n as int));
        }
        let mut s = String::new();
        s.push('-');
        push_dec_u64(&mut s, mag);
        proof {
            assert(s@ =~= dec_str_int(n as int));
        }
        s
    } else {
        u64_to_dec(n as u64)
    }
}

/// The value of a string of decimal digits, most significant first.
pub open spec fn dec_val(s: Seq<char>) -> int
    decreases s.len(),
{
    if s.len() == 0 {
        0
    } else {
        dec_val(s.drop_last()) * 10 + digit_val(s.last())
    }
}

/// Every character of `s` is a decimal digit.
pub open spec fn all_dec_digits(s: Seq<char>) -> bool {
    forall|i: int| 0 <= i < s.len() ==> is_dec_digit(#[trigger] s[i])
}

/// A decimal integer literal: an optional sign, then at least one digit.
pub open spec fn is_dec_literal(s: Seq<char>) -> bool {
    let body = dec_literal_body(s);
    body.len() > 0 && all_dec_digits(body)
}

/// The digits of a decimal literal, with any leading sign removed.
pub open spec fn dec_literal_body(s: Seq<char>) -> Seq<char> {
    if s.len() > 0 && (s[0] == '-' || s[0] == '+') {
        s.drop_first()
    } else {
        s
    }
}

/// The signed value of a decimal literal.
pub open spec fn dec_literal_val(s: Seq<char>) -> int {
    if s.len() > 0 && s[0] == '-' {
        -dec_val(dec_literal_body(s))
    } else {
        dec_val(dec_literal_body(s))
    }
}

/// The value of a digit string is never negative.
proof fn lemma_dec_val_nonneg(s: Seq<char>)
    requires
        all_dec_digits(s),
    ensures
        dec_val(s) >= 0,
    decreases s.len(),
{
    if s.len() > 0 {
        assert(all_dec_digits(s.drop_last())) by {
            assert(forall|i: int|
                0 <= i < s.drop_last().len() ==> s.drop_last()[i] == s[i]);
        }
        lemma_dec_val_nonneg(s.drop_last());
        assert(digit_val(s.last()) >= 0);
    }
}

/// Extending a digit string multiplies its value by at least one.
proof fn lemma_dec_val_take_monotone(s: Seq<char>, i: int)
    requires
        all_dec_digits(s),
        0 <= i <= s.len(),
    ensures
        dec_val(s) >= dec_val(s.take(i)),
    decreases s.len() - i,
{
    if i < s.len() {
        lemma_dec_val_take_monotone(s, i + 1);
        assert(s.take(i + 1).drop_last() =~= s.take(i));
        assert(s.take(i + 1).last() == s[i]);
        assert(all_dec_digits(s.take(i))) by {
            assert(forall|j: int| 0 <= j < i ==> s.take(i)[j] == s[j]);
        }
        lemma_dec_val_nonneg(s.take(i));
        assert(dec_val(s.take(i + 1)) == dec_val(s.take(i)) * 10 + digit_val(s[i]));
        assert(dec_val(s.take(i)) * 10 >= dec_val(s.take(i))) by (nonlinear_arith)
            requires
                dec_val(s.take(i)) >= 0,
        ;
    } else {
        assert(s.take(i) =~= s);
    }
}

/// Parses the digits of `s` from position `start` to the end, as long as
/// the value stays within `limit`. Yields the value exactly when every
/// remaining character is a digit, there is at least one, and the value
/// is at most `limit`.
fn parse_digits(s: &str, start: usize, limit: u64) -> (r: Option<u64>)
    requires
        start <= s@.len(),
    ensures
        r matches Some(m) ==> {
            &&& all_dec_digits(s@.skip(start as int))
            &&& s@.len() - start >= 1
            &&& m as int == dec_val(s@.skip(start as int))
            &&& m <= limit
        },
        r is None ==> !(all_dec_digits(s@.skip(start as int)) && s@.len() - start >= 1 && dec_val(
            s@.skip(start as int),
        ) <= limit),
{
    let ghost body = s@.skip(start as int);
    let n = s.unicode_len();
    if start == n {
        return None;
    }
    let mut acc: u64 = 0;
    let mut i: usize = start;
    while i < n
        invariant
            start <= i <= n,
            n == s@.len(),
            start < n,
            body == s@.skip(start as int),
            acc as int == dec_val(body.take(i - start as int)),
            acc <= limit,
            all_dec_digits(body.take(i - start as int)),
        decreases n - i,
    {
        let c = s.get_char(i);
        proof {
            assert(body[i - start as int] == s@[i as int]);
        }
        if !(c >= '0' && c <= '9') {
            proof {
                assert(!is_dec_digit(body[i - start as int]));
            }
            return None;
        }
        let d: u64 = (c as u32 as u64) - 48;
        proof {
            assert(d as int == digit_val(c));
            assert(body.take(i + 1 - start as int).drop_last() =~= body.take(i - start as int));
            assert(body.take(i + 1 - start as int).last() == body[i - start as int]);
        }
        if acc > limit / 10 || (acc == limit / 10 && d > limit % 10) {
            proof {
                assert(acc as int * 10 + d as int > limit as int) by (nonlinear_arith)
                    requires
                        acc as int >= 0,
                        d as int >= 0,
                        d < 10,
                        limit as int >= 0,
                        acc as int > limit as int / 10 || (acc as int == limit as int / 10
                            && d as int > limit as int % 10),
                ;
                assert(dec_val(body.take(i + 1 - start as int)) > limit as int);
                lemma_dec_val_take_monotone_partial(body, i + 1 - start as int);
            }
            return None;
        }
        acc = acc * 10 + d;
        i = i + 1;
    }
    proof {
        assert(body.take(n - start as int) =~= body);
    }
    Some(acc)
}

/// If a prefix of the digits read so far already exceeds the bound, the
/// whole string's value exceeds it — unless a later character is not a
/// digit, in which case the string is no digit string at all.
proof fn lemma_dec_val_take_monotone_partial(s: Seq<char>, i: int)
    requires
        0 <= i <= s.len(),
        all_dec_digits(s.take(i)),
    ensures
        all_dec_digits(s) ==> dec_val(s) >= dec_val(s.take(i)),
{
    if all_dec_digits(s) {
        lemma_dec_val_take_monotone(s, i);
    }
}

/// Parses a decimal integer: an optional sign, then digits. Yields the
/// value exactly when the text is a decimal literal whose value fits in
/// a signed 64-bit integer.
pub fn parse_i64(s: &str) -> (r: Option<i64>)
    ensures
        r matches Some(v) ==> is_dec_literal(s@) && v as int == dec_literal_val(s@),
        r is None ==> !(is_dec_literal(s@) && i64::MIN <= dec_literal_val(s@) <= i64::MAX),
{
    let n = s.unicode_len();
    if n == 0 {
        return None;
    }
    let first = s.get_char(0);
    let neg = first == '-';
    let signed = neg || first == '+';
    let start: usize = if signed {
        1
    } else {
        0
    };
    proof {
        if signed {
            assert(dec_literal_body(s@) =~= s@.skip(1));
        } else {
            assert(dec_literal_body(s@) =~= s@.skip(0));
        }
    }
    let limit: u64 = if neg {
        9223372036854775808u64
    } else {
        9223372036854775807u64
    };
    match parse_digits(s, start, limit) {
        Some(m) => {
            if neg {
                if m == 9223372036854775808u64 {
                    Some(i64::MIN)
                } else {
                    Some(-(m as i64))
                }
            } else {
                Some(m as i64)
            }
        },
        None => {
            proof {
                lemma_dec_val_nonneg_if(dec_literal_body(s@));
            }
            None
        },
    }
}

/// A digit string's value is never negative (conditional form).
proof fn lemma_dec_val_nonneg_if(s: Seq<char>)
    ensures
        all_dec_digits(s) ==> dec_val(s) >= 0,
{
    if all_dec_digits(s) {
        lemma_dec_val_nonneg(s);
    }
}

/// Parses an unsigned 16-bit decimal integer: an optional plus sign,
/// then digits.
pub fn parse_u16(s: &str) -> (r: Option<u16>)
    ensures
        r matches Some(v) ==> is_dec_literal(s@) && s@[0] != '-' && v as int == dec_literal_val(
            s@,
        ),
        r is None ==> !(is_dec_literal(s@) && s@.len() > 0 && s@[0] != '-' && 0
            <= dec_literal_val(s@) <= u16::MAX),
{
    let n = s.unicode_len();
    if n == 0 {
        return None;
    }
    let first = s.get_char(0);
    if first == '-' {
        return None;
    }
    let start: usize = if first == '+' {
        1
    } else {
        0
    };
    proof {
        if first == '+' {
            assert(dec_literal_body(s@) =~= s@.skip(1));
        } else {
            assert(dec_literal_body(s@) =~= s@.skip(0));
        }
    }
    match parse_digits(s, start, 65535) {
        Some(m) => Some(m as u16),
        None => {
            proof {
                lemma_dec_val_nonneg_if(dec_literal_body(s@));
            }
            None
        },
    }
}

/// Whether `c` is a digit between 1 and 9.
pub open spec fn is_nonzero_digit(c: char) -> bool {
    '1' <= c && c <= '9'
}

/// The first position at or after `i` whose character is not a digit;
/// the length of `s` when digits run to the end.
pub open spec fn digits_run_end(s: Seq<char>, i: int) -> int
    recommends
        0 <= i <= s.len(),
    decreases s.len() - i,
{
    if i < s.len() && is_dec_digit(s[i]) {
        digits_run_end(s, i + 1)
    } else {
        i
    }
}

/// Where the integer part of a JSON number ends: an optional minus
/// sign, then either a lone `0` or a nonzero digit followed by digits.
/// A malformed integer part yields a negative position.
pub open spec fn int_part_end(s: Seq<char>) -> int {
    let i: int = if s.len() > 0 && s[0] == '-' {
        1
    } else {
        0
    };
    if i < s.len() && s[i] == '0' {
        i + 1
    } else if i < s.len() && is_nonzero_digit(s[i]) {
        digits_run_end(s, i + 1)
    } else {
        -1
    }
}

/// Where the fraction part ends, starting at `i`: nothing, or a dot
/// followed by at least one digit. A malformed fraction yields a
/// negative position.
pub open spec fn frac_part_end(s: Seq<char>, i: int) -> int
    recommends
        0 <= i <= s.len(),
{
    if i < s.len() && s[i] == '.' {
        if i + 1 < s.len() && is_dec_digit(s[i + 1]) {
            digits_run_end(s, i + 1)
        } else {
            -1
        }
    } else {
        i
    }
}

/// Where the exponent part ends, starting at `i`: nothing, or `e`/`E`,
/// an optional sign, and at least one digit. A malformed exponent
/// yields a negative position.
pub open spec fn exp_part_end(s: Seq<char>, i: int) -> int
    recommends
        0 <= i <= s.len(),
{
    if i < s.len() && (s[i] == 'e' || s[i] == 'E') {
        let j: int = if i + 1 < s.len() && (s[i + 1] == '+' || s[i + 1] == '-') {
            i + 2
        } else {
            i + 1
        };
        if j < s.len() && is_dec_digit(s[j]) {
            digits_run_end(s, j)
        } else {
            -1
        }
    } else {
        i
    }
}

/// The JSON number grammar: an optional minus sign, an integer part
/// with no leading zero, an optional fraction, and an optional exponent,
/// with nothing left over.
pub open spec fn is_json_number(s: Seq<char>) -> bool {
    let ie = int_part_end(s);
    ie >= 0 && {
        let fe = frac_part_end(s, ie);
        fe >= 0 && {
            let ee = exp_part_end(s, fe);
            ee == s.len()
        }
    }
}

/// The end of a digit run never lies before its start, nor past the end.
proof fn lemma_digits_run_end_bounds(s: Seq<char>, i: int)
    requires
        0 <= i <= s.len(),
    ensures
        i <= digits_run_end(s, i) <= s.len(),
    decreases s.len() - i,
{
    if i < s.len() && is_dec_digit(s[i]) {
        lemma_digits_run_end_bounds(s, i + 1);
    }
}

/// Scans a digit run: the first position at or after `from` whose
/// character is not a digit.
fn scan_digits(s: &str, from: usize) -> (r: usize)
    requires
        from <= s@.len(),
    ensures
        from <= r <= s@.len(),
        r as int == digits_run_end(s@, from as int),
{
    let n = s.unicode_len();
    let mut i: usize = from;
    while i < n
        invariant
            from <= i <= n,
            n == s@.len(),
            digits_run_end(s@, from as int) == digits_run_end(s@, i as int),
        decreases n - i,
    {
        let c = s.get_char(i);
        if !(c >= '0' && c <= '9') {
            return i;
        }
        i = i + 1;
    }
    n
}

/// Recognizes a JSON number literal.
pub fn is_json_number_exec(s: &str) -> (r: bool)
    ensures
        r == is_json_number(s@),
{
    let n = s.unicode_len();
    let mut i: usize = 0;
    if n > 0 && s.get_char(0) == '-' {
        i = 1;
    }
    if i < n && s.get_char(i) == '0' {
        i = i + 1;
    } else if i < n && s.get_char(i) >= '1' && s.get_char(i) <= '9' {
        proof {
            lemma_digits_run_end_bounds(s@, i + 1);
        }
        i = scan_digits(s, i + 1);
    } else {
        proof {
            assert(int_part_end(s@) == -1);
        }
        return false;
    }
    proof {
        assert(i as int == int_part_end(s@));
    }
    let ghost ie = i as int;
    if i < n && s.get_char(i) == '.' {
        if i + 1 < n {
            let d = s.get_char(i + 1);
            if d >= '0' && d <= '9' {
                proof {
                    lemma_digits_run_end_bounds(s@, i + 1);
                }
                i = scan_digits(s, i + 1);
            } else {
                proof {
                    assert(frac_part_end(s@, ie) == -1);
                }
                return false;
            }
        } else {
            proof {
                assert(frac_part_end(s@, ie) == -1);
            }
            return false;
        }
    }
    proof {
        assert(i as int == frac_part_end(s@, ie));
    }
    let ghost fe = i as int;
    if i < n {
        let e = s.get_char(i);
        if e == 'e' || e == 'E' {
            let mut j: usize = i + 1;
            if j < n {
                let sg = s.get_char(j);
                if sg == '+' || sg == '-' {
                    j = j + 1;
                }
            }
            if j < n {
                let d = s.get_char(j);
                if d >= '0' && d <= '9' {
                    proof {
                        lemma_digits_run_end_bounds(s@, j as int);
                    }
                    i = scan_digits(s, j);
                } else {
                    proof {
                        assert(exp_part_end(s@, fe) == -1);
                    }
                    return false;
                }
            } else {
                proof {
                    assert(exp_part_end(s@, fe) == -1);
                }
                return false;
            }
        }
    }
    proof {
        assert(i as int == exp_part_end(s@, fe));
    }
    i == n
}

/// The ASCII-lower-case fold of one character: letters `A` to `Z` map to
/// their lower-case forms, everything else is unchanged.
pub open spec fn lower_char(c: char) -> char {
    if 'A' <= c && c <= 'Z' {
        ((c as u8) + 32) as char
    } else {
        c
    }
}

/// The ASCII-lower-case fold of a string.
pub open spec fn lower_chars(s: Seq<char>) -> Seq<char> {
    s.map_values(|c: char| lower_char(c))
}

/// Folds a string to ASCII lower case.
pub fn ascii_lowercase(s: &str) -> (r: String)
    ensures
        r@ == lower_chars(s@),
{
    let n = s.unicode_len();
    let mut out = String::new();
    let mut i: usize = 0;
    while i < n
        invariant
            i <= n,
            n == s@.len(),
            out@ == lower_chars(s@.take(i as int)),
        decreases n - i,
    {
        let c = s.get_char(i);
        let lc: char = if c >= 'A' && c <= 'Z' {
            ((c as u8) + 32) as char
        } else {
            c
        };
        out.push(lc);
        proof {
            assert(lower_chars(s@.take(i + 1)) =~= lower_chars(s@.take(i as int)).push(
                lower_char(s@[i as int]),
            ));
        }
        i = i + 1;
    }
    proof {
        assert(s@.take(n as int) =~= s@);
    }
    out
}

/// The suffix of `s` after its last `/`; the whole of `s` when it has
/// no `/` at all.
pub open spec fn after_last_slash(s: Seq<char>) -> Seq<char>
    decreases s.len(),
{
    if s.len() == 0 {
        s
    } else if s.last() == '/' {
        Seq::empty()
    } else {
        after_last_slash(s.drop_last()) + seq![s.last()]
    }
}

/// The name under which the binary was invoked: the final component of
/// the path in its first argument, which selects the configuration root.
pub fn format_cmd_name(cmd_name: &String) -> (r: String)
    ensures
        r@ == after_last_slash(cmd_name@),
{
    let s = cmd_name.as_str();
    let n = s.unicode_len();
    let mut cut: usize = 0;
    let mut i: usize = 0;
    while i < n
        invariant
            i <= n,
            cut <= i,
            n == s@.len(),
            s@ == cmd_name@,
            after_last_slash(cmd_name@.take(i as int)) == cmd_name@.take(i as int).skip(
                cut as int,
            ),
        decreases n - i,
    {
        let c = s.get_char(i);
        proof {
            assert(cmd_name@.take(i + 1).drop_last() =~= cmd_name@.take(i as int));
            assert(cmd_name@.take(i + 1).last() == cmd_name@[i as int]);
        }
        if c == '/' {
            cut = i + 1;
            proof {
                assert(after_last_slash(cmd_name@.take(i + 1)) =~= cmd_name@.take(i + 1).skip(
                    i + 1,
                ));
            }
        } else {
            proof {
                assert(after_last_slash(cmd_name@.take(i + 1)) =~= cmd_name@.take(i + 1).skip(
                    cut as int,
                ));
            }
        }
        i = i + 1;
    }
    proof {
        assert(cmd_name@.take(n as int) =~= cmd_name@);
    }
    let mut out = String::new();
    let mut j: usize = cut;
    while j < n
        invariant
            cut <= j <= n,
            n == s@.len(),
            s@ == cmd_name@,
            out@ == cmd_name@.skip(cut as int).take(j - cut as int),
        decreases n - j,
    {
        out.push(s.get_char(j));
        proof {
            assert(cmd_name@.skip(cut as int).take(j + 1 - cut as int) =~= cmd_name@.skip(
                cut as int,
            ).take(j - cut as int).push(cmd_name@[j as int]));
        }
        j = j + 1;
    }
    proof {
        assert(cmd_name@.skip(cut as int).take(n - cut as int) =~= cmd_name@.skip(cut as int));
        assert(after_last_slash(cmd_name@) == cmd_name@.skip(cut as int));
    }
    out
}

} // verus!
