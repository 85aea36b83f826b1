//! Turn-request text handling: stripping the leading bot mention and parsing
//! the two numeric arguments of a turn.
//!
//! A turn command is exactly two whitespace-separated numeric tokens: the
//! horizontal offset in `[-1, 1]` and the rotation in degrees in
//! `[-180, 180]`. Numbers are plain decimals with an optional sign and an
//! optional fraction; values are held in thousandths (milli-units), further
//! fractional digits are truncated.

use vstd::prelude::*;

verus! {

/// Largest offset a turn accepts, in milli-units (the offset lies in
/// `[-1, 1]`).
pub const OFFSET_CAP_MILLI: i64 = 1_000;

/// Largest rotation a turn accepts, in milli-degrees (the rotation lies in
/// `[-180, 180]` degrees).
pub const ROTATION_CAP_MILLI: i64 = 180_000;

/// A parsed turn command: offset in milli-units, rotation in milli-degrees.
#[derive(Clone, Copy, PartialEq, Eq, Structural, Debug)]
pub struct TurnInput {
    pub offset_milli: i64,
    pub rotation_millideg: i64,
}

/// Why a turn command was rejected.
#[derive(Clone, Copy, PartialEq, Eq, Structural, Debug)]
pub enum InputError {
    /// Not exactly two whitespace-separated tokens.
    WrongArity,
    /// A token is not a plain decimal number.
    BadNumber,
    /// A number lies outside the range the turn accepts.
    OutOfRange,
}

pub open spec fn is_space(c: u8) -> bool {
    c == 32 || c == 9 || c == 10 || c == 13
}

pub open spec fn is_digit(c: u8) -> bool {
    48 <= c <= 57
}

/// Length of the leading run of non-space bytes.
pub open spec fn token_len(s: Seq<u8>) -> nat
    decreases s.len(),
{
    if s.len() == 0 || is_space(s[0]) {
        0
    } else {
        (1 + token_len(s.drop_first())) as nat
    }
}

/// The whitespace-separated tokens of a byte string, in order.
pub open spec fn tokens_of(s: Seq<u8>) -> Seq<Seq<u8>>
    decreases s.len(),
    via tokens_of_decreases
{
    if s.len() == 0 {
        Seq::empty()
    } else if is_space(s[0]) {
        tokens_of(s.drop_first())
    } else {
        seq![s.take(token_len(s) as int)] + tokens_of(s.skip(token_len(s) as int))
    }
}

#[via_fn]
proof fn tokens_of_decreases(s: Seq<u8>) {
    if s.len() > 0 && !is_space(s[0]) {
        lemma_token_len_bounds(s);
        assert(token_len(s) == 1 + token_len(s.drop_first()));
    }
}

/// Length of the leading run of decimal digits.
pub open spec fn digit_run(s: Seq<u8>) -> nat
    decreases s.len(),
{
    if s.len() == 0 || !is_digit(s[0]) {
        0
    } else {
        (1 + digit_run(s.drop_first())) as nat
    }
}

/// Value of a string of decimal digits.
pub open spec fn digits_val(s: Seq<u8>) -> int
    decreases s.len(),
{
    if s.len() == 0 {
        0
    } else {
        digits_val(s.drop_last()) * 10 + (s.last() - 48)
    }
}

/// The token's digits-and-dot body, after any sign.
pub open spec fn number_body(t: Seq<u8>) -> Seq<u8> {
    if t.len() >= 1 && (t[0] == 43 || t[0] == 45) {
        t.drop_first()
    } else {
        t
    }
}

pub open spec fn number_sign(t: Seq<u8>) -> int {
    if t.len() >= 1 && t[0] == 45 {
        -1
    } else {
        1
    }
}

/// Whether a sign-stripped body is a plain decimal: a digit run, optionally
/// followed by a dot and a digit run, with at least one digit in all.
pub open spec fn valid_body(b: Seq<u8>) -> bool {
    let d1 = digit_run(b) as int;
    if d1 == b.len() {
        b.len() >= 1
    } else {
        &&& b[d1] == 46
        &&& digit_run(b.skip(d1 + 1)) == b.len() - d1 - 1
        &&& b.len() >= 2
    }
}

/// Whether a token is a plain decimal number with an optional sign.
pub open spec fn valid_number(t: Seq<u8>) -> bool {
    valid_body(number_body(t))
}

/// The integer-part digits of a valid body.
pub open spec fn int_digits(b: Seq<u8>) -> Seq<u8> {
    b.take(digit_run(b) as int)
}

/// The fraction digits of a valid body; empty without a dot.
pub open spec fn frac_digits(b: Seq<u8>) -> Seq<u8> {
    if digit_run(b) == b.len() {
        Seq::empty()
    } else {
        b.skip(digit_run(b) as int + 1)
    }
}

/// Value of up to three fraction digits, in thousandths; further digits are
/// truncated.
pub open spec fn frac3_val(f: Seq<u8>) -> int {
    (if f.len() >= 1 {
        (f[0] - 48) * 100
    } else {
        0
    }) + (if f.len() >= 2 {
        (f[1] - 48) * 10
    } else {
        0
    }) + (if f.len() >= 3 {
        f[2] - 48
    } else {
        0
    })
}

/// Value of a valid number token, in thousandths of its unit.
pub open spec fn number_milli(t: Seq<u8>) -> int {
    number_sign(t) * (digits_val(int_digits(number_body(t))) * 1000 + frac3_val(
        frac_digits(number_body(t)),
    ))
}

/// Length of the `<@...>` mention prefix: `<@`, one or more digits or upper
/// case letters, `>`; zero when the text does not start with a mention.
pub open spec fn mention_prefix_len(s: Seq<u8>) -> int {
    if s.len() >= 2 && s[0] == 60 && s[1] == 64 {
        let run = id_run(s, 2);
        if run >= 1 && 2 + run < s.len() && s[2 + run] == 62 {
            2 + run + 1
        } else {
            0
        }
    } else {
        0
    }
}

pub open spec fn is_id_byte(c: u8) -> bool {
    is_digit(c) || (65 <= c <= 90)
}

/// Length of the run of mention-id bytes from position `i`.
pub open spec fn id_run(s: Seq<u8>, i: int) -> int
    decreases s.len() - i,
{
    if 0 <= i < s.len() && is_id_byte(s[i]) {
        1 + id_run(s, i + 1)
    } else {
        0
    }
}

proof fn lemma_id_run_bounds(s: Seq<u8>, i: int)
    requires
        0 <= i <= s.len(),
    ensures
        0 <= id_run(s, i) <= s.len() - i,
    decreases s.len() - i,
{
    if i < s.len() && is_id_byte(s[i]) {
        lemma_id_run_bounds(s, i + 1);
    }
}

/// How many leading bytes of the text form a `<@...>` mention of the bot;
/// zero when there is none. The caller strips that prefix before parsing a
/// turn command.
pub fn strip_mention_prefix(text: &[u8]) -> (n: usize)
    ensures
        n == mention_prefix_len(text@),
        n <= text@.len(),
{
    proof {
        lemma_id_run_bounds(text@, if text@.len() >= 2 {
            2
        } else {
            0
        });
    }
    if text.len() < 2 || text[0] != 60 || text[1] != 64 {
        return 0;
    }
    let len = text.len();
    let mut i: usize = 2;
    while i < len && is_id_byte_exec(text[i])
        invariant
            2 <= i <= len,
            len == text@.len(),
            forall|j: int| 2 <= j < i ==> is_id_byte(text@[j]),
            id_run(text@, 2) == id_run(text@, i as int) + i - 2,
        decreases len - i,
    {
        proof {
            assert(id_run(text@, i as int) == 1 + id_run(text@, i as int + 1));
        }
        i = i + 1;
    }
    proof {
        assert(id_run(text@, i as int) == 0);
        assert(id_run(text@, 2) == i - 2);
    }
    if i > 2 && i < len && text[i] == 62 {
        i + 1
    } else {
        0
    }
}

fn is_id_byte_exec(c: u8) -> (r: bool)
    ensures
        r == is_id_byte(c),
{
    (48 <= c && c <= 57) || (65 <= c && c <= 90)
}

fn is_space_exec(c: u8) -> (r: bool)
    ensures
        r == is_space(c),
{
    c == 32 || c == 9 || c == 10 || c == 13
}

fn is_digit_exec(c: u8) -> (r: bool)
    ensures
        r == is_digit(c),
{
    48 <= c && c <= 57
}

/// Tokens of a suffix are unchanged by skipping one leading space.
proof fn lemma_tokens_skip_space(s: Seq<u8>, i: int)
    requires
        0 <= i < s.len(),
        is_space(s[i]),
    ensures
        tokens_of(s.skip(i)) == tokens_of(s.skip(i + 1)),
{
    assert(s.skip(i).drop_first() =~= s.skip(i + 1));
}

/// At a non-space byte, the tokens of the suffix are the leading token
/// followed by the tokens after it.
proof fn lemma_tokens_at_token(s: Seq<u8>, i: int)
    requires
        0 <= i < s.len(),
        !is_space(s[i]),
    ensures
        tokens_of(s.skip(i)) == seq![s.skip(i).take(token_len(s.skip(i)) as int)] + tokens_of(
            s.skip(i + token_len(s.skip(i)) as int),
        ),
        token_len(s.skip(i)) >= 1,
    decreases s.len() - i,
{
    let sk = s.skip(i);
    assert(sk[0] == s[i]);
    lemma_token_len_bounds(sk);
    assert(s.skip(i + token_len(s.skip(i)) as int) =~= sk.skip(token_len(sk) as int));
}

proof fn lemma_token_len_bounds(s: Seq<u8>)
    ensures
        0 <= token_len(s) <= s.len(),
    decreases s.len(),
{
    if s.len() > 0 && !is_space(s[0]) {
        lemma_token_len_bounds(s.drop_first());
    }
}

/// A maximal run of non-space bytes is the leading token.
proof fn lemma_token_run(s: Seq<u8>, k: int)
    requires
        0 <= k <= s.len(),
        forall|j: int| 0 <= j < k ==> !is_space(s[j]),
        k == s.len() || is_space(s[k]),
    ensures
        token_len(s) == k,
    decreases k,
{
    if k > 0 {
        lemma_token_run(s.drop_first(), k - 1);
    }
}

/// A maximal run of digits is the leading digit run.
proof fn lemma_digit_run(s: Seq<u8>, k: int)
    requires
        0 <= k <= s.len(),
        forall|j: int| 0 <= j < k ==> is_digit(s[j]),
        k == s.len() || !is_digit(s[k]),
    ensures
        digit_run(s) == k,
    decreases k,
{
    if k > 0 {
        lemma_digit_run(s.drop_first(), k - 1);
    }
}

/// Reading one more digit multiplies the value by ten and adds the digit.
proof fn lemma_digits_val_step(s: Seq<u8>, j: int)
    requires
        0 <= j < s.len(),
    ensures
        digits_val(s.take(j + 1)) == digits_val(s.take(j)) * 10 + (s[j] - 48),
{
    assert(s.take(j + 1).drop_last() =~= s.take(j));
    assert(s.take(j + 1).last() == s[j]);
}

/// A digit string's value is never negative and never shrinks as digits are
/// appended.
proof fn lemma_digits_val_grows(s: Seq<u8>, j: int, k: int)
    requires
        0 <= j <= k <= s.len(),
        forall|m: int| 0 <= m < s.len() ==> is_digit(s[m]),
    ensures
        0 <= digits_val(s.take(j)),
        digits_val(s.take(j)) <= digits_val(s.take(k)),
    decreases k,
{
    if j == k {
        if j > 0 {
            lemma_digits_val_grows(s, j - 1, j - 1);
            lemma_digits_val_step(s, j - 1);
        }
    } else {
        lemma_digits_val_grows(s, j, k - 1);
        lemma_digits_val_step(s, k - 1);
        assert(digits_val(s.take(k - 1)) * 10 >= digits_val(s.take(k - 1))) by (nonlinear_arith)
            requires
                digits_val(s.take(k - 1)) >= 0,
        ;
    }
}

/// Parse one token as a plain decimal, in thousandths, refusing values whose
/// magnitude exceeds `cap`.
pub fn parse_number_milli(t: &[u8], cap: i64) -> (r: Result<i64, InputError>)
    requires
        1000 <= cap <= 1_000_000,
    ensures
        valid_number(t@) && -cap <= number_milli(t@) <= cap ==> r == Ok::<i64, InputError>(
            number_milli(t@) as i64,
        ),
        !valid_number(t@) ==> r == Err::<i64, InputError>(InputError::BadNumber),
        valid_number(t@) && !(-cap <= number_milli(t@) <= cap) ==> r == Err::<i64, InputError>(
            InputError::OutOfRange,
        ),
{
    let len = t.len();
    let mut pos: usize = 0;
    let mut negative: bool = false;
    if len >= 1 && (t[0] == 43 || t[0] == 45) {
        negative = t[0] == 45;
        pos = 1;
    }
    let ghost b = number_body(t@);
    let body_start = pos;
    proof {
        assert(b =~= t@.skip(body_start as int));
    }
    // scan the integer digits, saturating once the value is surely too large
    let mut int_val: i64 = 0;
    let mut too_big: bool = false;
    while pos < len && is_digit_exec(t[pos])
        invariant
            body_start <= pos <= len,
            len == t@.len(),
            b == t@.skip(body_start as int),
            body_start <= 1,
            0 <= int_val <= 100_009,
            !too_big ==> int_val == digits_val(b.take(pos - body_start)),
            too_big ==> digits_val(b.take(pos - body_start)) > 10_000,
            forall|j: int| 0 <= j < pos - body_start ==> is_digit(#[trigger] b[j]),
        decreases len - pos,
    {
        let d = t[pos] - 48;
        proof {
            assert(b[pos - body_start] == t@[pos as int]);
            lemma_digits_val_step(b, pos - body_start);
        }
        if too_big || int_val > 10_000 {
            proof {
                let prev = digits_val(b.take(pos - body_start));
                assert(prev > 10_000 ==> prev * 10 > 100_000) by (nonlinear_arith);
                assert(digits_val(b.take(pos - body_start + 1)) == prev * 10 + (b[pos
                    - body_start] - 48));
            }
            too_big = true;
        } else {
            int_val = int_val * 10 + (d as i64);
        }
        pos = pos + 1;
    }
    let int_digit_count = pos - body_start;
    proof {
        lemma_digit_run(b, int_digit_count as int);
        assert(digit_run(b) == int_digit_count);
    }
    // optional dot and fraction digits
    let mut frac_val: i64 = 0;
    let mut frac_count: usize = 0;
    let mut has_dot: bool = false;
    let mut frac_start: usize = pos;
    if pos < len && t[pos] == 46 {
        has_dot = true;
        pos = pos + 1;
        frac_start = pos;
        while pos < len && is_digit_exec(t[pos])
            invariant
                frac_start <= pos <= len,
                len == t@.len(),
                frac_start >= 1,
                forall|j: int| frac_start <= j < pos ==> is_digit(#[trigger] t@[j]),
                frac_count == if pos - frac_start < 3 {
                    pos - frac_start
                } else {
                    3
                },
                0 <= frac_val <= 999,
                frac_val == frac3_val(t@.subrange(frac_start as int, pos as int)),
            decreases len - pos,
        {
            proof {
                assert(t@.subrange(frac_start as int, pos as int + 1) =~= t@.subrange(
                    frac_start as int,
                    pos as int,
                ).push(t@[pos as int]));
            }
            let d = t[pos] - 48;
            if frac_count == 0 {
                frac_val = (d as i64) * 100;
            } else if frac_count == 1 {
                frac_val = frac_val + (d as i64) * 10;
            } else if frac_count == 2 {
                frac_val = frac_val + (d as i64);
            }
            if frac_count < 3 {
                frac_count = frac_count + 1;
            }
            pos = pos + 1;
        }
    }
    let ghost frac_seq = t@.subrange(frac_start as int, pos as int);
    proof {
        if has_dot {
            // the fraction digits scanned are the leading digit run after the dot
            assert(b.skip(int_digit_count as int + 1) =~= t@.skip(frac_start as int));
            assert(forall|j: int| 0 <= j < pos - frac_start ==> is_digit(
                #[trigger] t@.skip(frac_start as int)[j],
            ));
            lemma_digit_run(t@.skip(frac_start as int), pos - frac_start);
            assert(frac_seq =~= t@.skip(frac_start as int).take(pos - frac_start));
        }
    }
    // the token must be exhausted and hold at least one digit
    if pos < len {
        proof {
            if has_dot {
                assert(digit_run(b.skip(int_digit_count as int + 1)) == pos - frac_start);
                assert(pos - frac_start < b.len() - int_digit_count - 1);
            } else {
                assert(b[int_digit_count as int] == t@[pos as int]);
                assert(!is_digit(t@[pos as int]) && t@[pos as int] != 46);
            }
            assert(!valid_body(b));
        }
        return Err(InputError::BadNumber);
    }
    if int_digit_count == 0 && (!has_dot || frac_count == 0) {
        proof {
            if !has_dot {
                assert(b.len() == 0);
            } else {
                assert(b.len() == 1 && b[0] == 46);
                assert(digit_run(b) == 0);
            }
            assert(!valid_body(b));
        }
        return Err(InputError::BadNumber);
    }
    proof {
        // the token has the shape of a valid number
        if has_dot {
            assert(b[int_digit_count as int] == 46);
            assert(digit_run(b.skip(int_digit_count as int + 1)) == b.len() - int_digit_count
                - 1);
        }
        assert(valid_body(b));
        assert(int_digits(b) =~= b.take(int_digit_count as int));
        if has_dot {
            assert(frac_digits(b) =~= frac_seq);
        } else {
            assert(frac_digits(b) =~= Seq::<u8>::empty());
            assert(frac_seq =~= Seq::<u8>::empty());
        }
        assert(frac_val == frac3_val(frac_digits(b)));
        assert(number_sign(t@) == if negative {
            -1int
        } else {
            1int
        });
    }
    if too_big {
        proof {
            let iv = digits_val(int_digits(b));
            assert(iv > 10_000);
            assert(frac3_val(frac_digits(b)) >= 0);
            assert(number_milli(t@) > cap || number_milli(t@) < -cap);
        }
        return Err(InputError::OutOfRange);
    }
    let magnitude: i64 = int_val * 1000 + frac_val;
    proof {
        assert(magnitude == digits_val(int_digits(b)) * 1000 + frac3_val(frac_digits(b)));
    }
    let value: i64 = if negative {
        -magnitude
    } else {
        magnitude
    };
    if value < -cap || cap < value {
        return Err(InputError::OutOfRange);
    }
    Ok(value)
}

/// Parse a turn command: exactly two whitespace-separated plain decimal
/// tokens, the offset in `[-1, 1]` and the rotation in `[-180, 180]`
/// degrees, yielding milli-units. Reports the first applicable error: wrong
/// token count, a malformed number, or a number out of range.
pub fn parse_turn_command(text: &[u8]) -> (r: Result<TurnInput, InputError>)
    ensures
        tokens_of(text@).len() != 2 ==> r == Err::<TurnInput, InputError>(InputError::WrongArity),
        tokens_of(text@).len() == 2 ==> {
            let t0 = tokens_of(text@)[0];
            let t1 = tokens_of(text@)[1];
            if !valid_number(t0) || !valid_number(t1) {
                r == Err::<TurnInput, InputError>(InputError::BadNumber)
            } else if !(-OFFSET_CAP_MILLI <= number_milli(t0) <= OFFSET_CAP_MILLI) || !(
            -ROTATION_CAP_MILLI <= number_milli(t1) <= ROTATION_CAP_MILLI) {
                r == Err::<TurnInput, InputError>(InputError::OutOfRange)
            } else {
                r == Ok::<TurnInput, InputError>(
                    TurnInput {
                        offset_milli: number_milli(t0) as i64,
                        rotation_millideg: number_milli(t1) as i64,
                    },
                )
            }
        },
{
    let len = text.len();
    proof {
        assert(text@.skip(0) =~= text@);
    }
    let start0 = skip_spaces(text, 0);
    if start0 == len {
        proof {
            assert(text@.skip(len as int) =~= Seq::<u8>::empty());
        }
        return Err(InputError::WrongArity);
    }
    let end0 = scan_token(text, start0);
    let start1 = skip_spaces(text, end0);
    if start1 == len {
        proof {
            lemma_tokens_at_token(text@, start0 as int);
            assert(text@.skip(len as int) =~= Seq::<u8>::empty());
            assert(tokens_of(text@).len() == 1);
        }
        return Err(InputError::WrongArity);
    }
    let end1 = scan_token(text, start1);
    let start2 = skip_spaces(text, end1);
    proof {
        lemma_tokens_at_token(text@, start0 as int);
        lemma_tokens_at_token(text@, start1 as int);
    }
    if start2 < len {
        proof {
            lemma_tokens_at_token(text@, start2 as int);
            assert(tokens_of(text@).len() >= 3);
        }
        return Err(InputError::WrongArity);
    }
    proof {
        assert(text@.skip(len as int) =~= Seq::<u8>::empty());
        assert(text@.skip(start0 as int).take(end0 - start0) =~= text@.subrange(
            start0 as int,
            end0 as int,
        ));
        assert(text@.skip(start1 as int).take(end1 - start1) =~= text@.subrange(
            start1 as int,
            end1 as int,
        ));
        assert(tokens_of(text@) =~= seq![
            text@.subrange(start0 as int, end0 as int),
            text@.subrange(start1 as int, end1 as int),
        ]);
    }
    let tok0 = slice_range(text, start0, end0);
    let tok1 = slice_range(text, start1, end1);
    let v0 = match parse_number_milli(tok0, OFFSET_CAP_MILLI) {
        Ok(v) => v,
        Err(e) => {
            if matches!(e, InputError::BadNumber) {
                return Err(InputError::BadNumber);
            }
            // an out-of-range offset still reports a malformed second token
            // first, as the numbers are checked for shape before range
            match parse_number_milli(tok1, ROTATION_CAP_MILLI) {
                Err(InputError::BadNumber) => {
                    return Err(InputError::BadNumber);
                },
                _ => {
                    return Err(InputError::OutOfRange);
                },
            }
        },
    };
    let v1 = match parse_number_milli(tok1, ROTATION_CAP_MILLI) {
        Ok(v) => v,
        Err(e) => {
            return Err(e);
        },
    };
    Ok(TurnInput { offset_milli: v0, rotation_millideg: v1 })
}

/// First non-space position at or after `from`.
fn skip_spaces(text: &[u8], from: usize) -> (r: usize)
    requires
        from <= text@.len(),
    ensures
        from <= r <= text@.len(),
        tokens_of(text@.skip(r as int)) == tokens_of(text@.skip(from as int)),
        r < text@.len() ==> !is_space(text@[r as int]),
        forall|j: int| from <= j < r ==> is_space(#[trigger] text@[j]),
    decreases text@.len() - from,
{
    let len = text.len();
    let mut i = from;
    while i < len && is_space_exec(text[i])
        invariant
            from <= i <= len,
            len == text@.len(),
            tokens_of(text@.skip(i as int)) == tokens_of(text@.skip(from as int)),
            forall|j: int| from <= j < i ==> is_space(#[trigger] text@[j]),
        decreases len - i,
    {
        proof {
            lemma_tokens_skip_space(text@, i as int);
        }
        i = i + 1;
    }
    i
}

/// End of the token starting at the non-space position `from`.
fn scan_token(text: &[u8], from: usize) -> (r: usize)
    requires
        from < text@.len(),
        !is_space(text@[from as int]),
    ensures
        from < r <= text@.len(),
        r - from == token_len(text@.skip(from as int)),
        r < text@.len() ==> is_space(text@[r as int]),
        forall|j: int| from <= j < r ==> !is_space(#[trigger] text@[j]),
    decreases text@.len() - from,
{
    let len = text.len();
    let mut i = from;
    while i < len && !is_space_exec(text[i])
        invariant
            from <= i <= len,
            len == text@.len(),
            forall|j: int| from <= j < i ==> !is_space(#[trigger] text@[j]),
        decreases len - i,
    {
        i = i + 1;
    }
    proof {
        let sk = text@.skip(from as int);
        assert(forall|j: int| 0 <= j < i - from ==> !is_space(#[trigger] sk[j]));
        lemma_token_run(sk, i - from);
    }
    i
}

/// The bytes of `text` from `from` (inclusive) to `to` (exclusive).
fn slice_range<'a>(text: &'a [u8], from: usize, to: usize) -> (r: &'a [u8])
    requires
        from <= to <= text@.len(),
    ensures
        r@ == text@.subrange(from as int, to as int),
{
    let r = &text[from..to];
    proof {
        assert(r@ =~= text@.subrange(from as int, to as int));
    }
    r
}

} // verus!
