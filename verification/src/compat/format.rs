//! Formatted text for the log: a small `printf`.
//!
//! A format is copied character by character. A `%` starts a conversion:
//! digits, `-`, `l` and spaces behind it are skipped, and the next
//! character says what to convert. `d` prints the next argument as a signed
//! decimal number, `u` as an unsigned one, `p` as `0x` and a hexadecimal
//! number, `x` and `X` as a hexadecimal number of at least two places, `s`
//! as text. Any other character prints `<UNKNOWN`, the character and `>`,
//! and takes no argument. A conversion is printed when the character behind
//! it is reached: one that ends the format prints nothing.

use vstd::prelude::*;
use crate::compat::common::{char_byte, text_bytes, STRBUF_SIZE};

verus! {

/// One argument of a formatted text.
pub struct VaArg {
    /// The argument as a 32-bit word.
    pub word: u32,
    /// The text that the argument points to, where it is a text.
    pub text: String,
}

/// Whether `c` is a numeric character by the Unicode tables: what
/// `char::is_numeric` returns for it.
pub uninterp spec fn char_is_numeric(c: char) -> bool;

/// Whether `c` is one of the ASCII digits `0` to `9`.
pub open spec fn is_ascii_digit(c: char) -> bool {
    48 <= c as u32 <= 57
}

/// Whether `c` counts as numeric: among the ASCII characters the digits
/// `0` to `9` do, and no others; beyond them the Unicode tables decide.
pub open spec fn is_numeric_char(c: char) -> bool {
    if (c as u32) < 128 {
        is_ascii_digit(c)
    } else {
        char_is_numeric(c)
    }
}

/// `char::is_numeric` of the standard library: whether `c` is in one of
/// Unicode's general categories for numbers, the decimal digits, the
/// letter-like numbers and the other numbers. The contract gives the
/// result its name, and says what those categories hold of the ASCII
/// characters: the digits `0` to `9` and nothing else.
#[verifier::external_body]
fn is_numeric(c: char) -> (numeric: bool)
    ensures
        numeric == char_is_numeric(c),
        (c as u32) < 128 ==> numeric == is_ascii_digit(c),
{
    c.is_numeric()
}

/// A character between `%` and the conversion's character that is skipped.
/// `numeric` says whether the character is numeric.
pub open spec fn skips(c: char, numeric: bool) -> bool {
    numeric || c == '-' || c == 'l' || c == ' '
}

/// Whether `c`, which is numeric or not as `numeric` says, is skipped
/// between `%` and the conversion's character.
pub fn is_skipped(c: char, numeric: bool) -> (skipped: bool)
    ensures
        skipped == skips(c, numeric),
{
    numeric || c == '-' || c == 'l' || c == ' '
}

/// The character for the digit `d`, `0` to `9` and then `a` to `f`.
pub open spec fn digit_byte(d: nat) -> u8 {
    if d < 10 {
        (48 + d) as u8
    } else {
        (87 + d) as u8
    }
}

/// The number `n` written to the base `base`, without leading zeros.
pub open spec fn digits(n: nat, base: nat) -> Seq<u8>
    decreases n,
{
    if base < 2 || n < base {
        seq![digit_byte(n)]
    } else {
        proof {
            assert(n / base < n) by (nonlinear_arith)
                requires
                    base >= 2,
                    n >= base,
            ;
        }
        digits(n / base, base).push(digit_byte(n % base))
    }
}

/// The number `v` written in decimal, with a minus sign if it is negative.
pub open spec fn signed_decimal(v: int) -> Seq<u8> {
    if v < 0 {
        seq![45u8] + digits((-v) as nat, 10)
    } else {
        digits(v as nat, 10)
    }
}

/// The number `n` written in hexadecimal, with a space in front if it has
/// one place only.
pub open spec fn padded_hex(n: nat) -> Seq<u8> {
    if n < 16 {
        seq![32u8] + digits(n, 16)
    } else {
        digits(n, 16)
    }
}

/// `0x` and the number `n` written in hexadecimal.
pub open spec fn pointer_hex(n: nat) -> Seq<u8> {
    seq![48u8, 120u8] + digits(n, 16)
}

/// The text that stands for a character that is no conversion.
pub open spec fn unknown_conversion(conversion: char) -> Seq<u8> {
    seq![60u8, 85u8, 78u8, 75u8, 78u8, 79u8, 87u8, 78u8, char_byte(conversion), 62u8]
}

/// The word of argument `k`; zero where there is no such argument.
pub open spec fn arg_word(args: Seq<VaArg>, k: int) -> u32 {
    if 0 <= k < args.len() {
        args[k].word
    } else {
        0
    }
}

/// The text of argument `k`; empty where there is no such argument.
pub open spec fn arg_text(args: Seq<VaArg>, k: int) -> Seq<char> {
    if 0 <= k < args.len() {
        args[k].text@
    } else {
        Seq::empty()
    }
}

/// Whether the conversion takes an argument.
pub open spec fn takes_argument(conversion: char) -> bool {
    conversion == 'd' || conversion == 'u' || conversion == 'p' || conversion == 'X' || conversion
        == 'x' || conversion == 's'
}

/// What the conversion prints for argument `k`.
pub open spec fn converted(conversion: char, args: Seq<VaArg>, k: int) -> Seq<u8> {
    if conversion == 'd' {
        signed_decimal((arg_word(args, k) as i32) as int)
    } else if conversion == 'u' {
        digits(arg_word(args, k) as nat, 10)
    } else if conversion == 'p' {
        pointer_hex(arg_word(args, k) as nat)
    } else if conversion == 'X' || conversion == 'x' {
        padded_hex(arg_word(args, k) as nat)
    } else if conversion == 's' {
        text_bytes(arg_text(args, k))
    } else {
        unknown_conversion(conversion)
    }
}

/// Position of the first character at or after `from` that is not
/// skipped, or the format's length if there is none.
pub open spec fn conversion_index(format: Seq<char>, from: int) -> int
    decreases format.len() - from,
{
    if from < 0 || from >= format.len() || !skips(format[from], is_numeric_char(format[from])) {
        from
    } else {
        conversion_index(format, from + 1)
    }
}

/// The text that the format prints from position `from` on, with `k` the
/// next argument.
pub open spec fn formatted_from(format: Seq<char>, from: int, args: Seq<VaArg>, k: int) -> Seq<u8>
    decreases format.len() - from,
{
    if from < 0 || from >= format.len() {
        Seq::empty()
    } else if format[from] != '%' {
        seq![char_byte(format[from])] + formatted_from(format, from + 1, args, k)
    } else {
        let at = conversion_index(format, from + 1);
        if at <= from || at + 1 >= format.len() {
            Seq::empty()
        } else {
            converted(format[at], args, k) + formatted_from(
                format,
                at + 1,
                args,
                if takes_argument(format[at]) {
                    k + 1
                } else {
                    k
                },
            )
        }
    }
}

/// The conversions from position `from` on that are printed and take an
/// argument, in the order in which they take their arguments.
pub open spec fn argument_conversions_from(format: Seq<char>, from: int) -> Seq<char>
    decreases format.len() - from,
{
    if from < 0 || from >= format.len() {
        Seq::empty()
    } else if format[from] != '%' {
        argument_conversions_from(format, from + 1)
    } else {
        let at = conversion_index(format, from + 1);
        if at <= from || at + 1 >= format.len() {
            Seq::empty()
        } else if takes_argument(format[at]) {
            seq![format[at]] + argument_conversions_from(format, at + 1)
        } else {
            argument_conversions_from(format, at + 1)
        }
    }
}

/// The text that `format` prints with the arguments `args`.
pub open spec fn formatted(format: Seq<char>, args: Seq<VaArg>) -> Seq<u8> {
    formatted_from(format, 0, args, 0)
}

/// The conversion's character is found at or after the place where the
/// search for it starts.
pub proof fn lemma_conversion_index(format: Seq<char>, from: int)
    requires
        0 <= from <= format.len(),
    ensures
        from <= conversion_index(format, from) <= format.len(),
        forall|i: int|
            from <= i < conversion_index(format, from) ==> skips(
                #[trigger] format[i],
                is_numeric_char(format[i]),
            ),
        conversion_index(format, from) < format.len() ==> !skips(
            format[conversion_index(format, from)],
            is_numeric_char(format[conversion_index(format, from)]),
        ),
    decreases format.len() - from,
{
    if from < format.len() && skips(format[from], is_numeric_char(format[from])) {
        lemma_conversion_index(format, from + 1);
    }
}

/// Appends the number `n` written to the base `base`, ten or sixteen.
pub fn push_digits(out: &mut Vec<u8>, n: u32, base: u32)
    requires
        base == 10 || base == 16,
    ensures
        final(out)@ == old(out)@ + digits(n as nat, base as nat),
    decreases n,
{
    if n >= base {
        push_digits(out, n / base, base);
    }
    let d = n % base;
    let byte: u8 = if d < 10 {
        (48 + d) as u8
    } else {
        (87 + d) as u8
    };
    out.push(byte);
    proof {
        if n >= base {
            assert(out@ =~= old(out)@ + digits((n / base) as nat, base as nat).push(byte));
        } else {
            assert(out@ =~= old(out)@ + seq![byte]);
        }
    }
}

/// Appends what the conversion prints for argument `k`.
fn push_converted(out: &mut Vec<u8>, conversion: char, args: &[VaArg], k: usize)
    ensures
        final(out)@ == old(out)@ + converted(conversion, args@, k as int),
{
    let word: u32 = if k < args.len() {
        args[k].word
    } else {
        0
    };
    if conversion == 'd' {
        let v: i32 = #[verifier::truncate]
        (word as i32);
        if v < 0 {
            out.push(45u8);
            let magnitude: u32 = (-(v as i64)) as u32;
            push_digits(out, magnitude, 10);
            assert(out@ =~= old(out)@ + (seq![45u8] + digits((-v) as nat, 10)));
        } else {
            push_digits(out, v as u32, 10);
        }
    } else if conversion == 'u' {
        push_digits(out, word, 10);
    } else if conversion == 'p' {
        out.push(48u8);
        out.push(120u8);
        push_digits(out, word, 16);
        assert(out@ =~= old(out)@ + (seq![48u8, 120u8] + digits(word as nat, 16)));
    } else if conversion == 'X' || conversion == 'x' {
        if word < 16 {
            out.push(32u8);
            push_digits(out, word, 16);
            assert(out@ =~= old(out)@ + (seq![32u8] + digits(word as nat, 16)));
        } else {
            push_digits(out, word, 16);
        }
    } else if conversion == 's' {
        if k < args.len() {
            let text = args[k].text.as_str();
            let count = text.unicode_len();
            let mut i: usize = 0;
            while i < count
                invariant
                    i <= count,
                    count == text@.len(),
                    out@ == old(out)@ + text_bytes(text@).take(i as int),
                decreases count - i,
            {
                let c = text.get_char(i);
                out.push(
                    #[verifier::truncate]
                    (c as u8),
                );
                i = i + 1;
                assert(out@ =~= old(out)@ + text_bytes(text@).take(i as int));
            }
            assert(text_bytes(text@).take(count as int) =~= text_bytes(text@));
        } else {
            assert(text_bytes(Seq::<char>::empty()) =~= Seq::<u8>::empty());
            assert(out@ =~= old(out)@ + Seq::<u8>::empty());
        }
    } else {
        out.push(60u8);
        out.push(85u8);
        out.push(78u8);
        out.push(75u8);
        out.push(78u8);
        out.push(79u8);
        out.push(87u8);
        out.push(78u8);
        out.push(
            #[verifier::truncate]
            (conversion as u8),
        );
        out.push(62u8);
        assert(out@ =~= old(out)@ + unknown_conversion(conversion));
    }
}

/// The text that `format` prints with the arguments `args`. Where the
/// format asks for more arguments than there are, the missing ones count as
/// the word zero and the empty text.
pub fn format_text(format: &str, args: &[VaArg]) -> (text: Vec<u8>)
    ensures
        text@ == formatted(format@, args@),
{
    let len = format.unicode_len();
    let mut out: Vec<u8> = Vec::new();
    let mut i: usize = 0;
    let mut k: usize = 0;
    assert(Seq::<u8>::empty() + formatted(format@, args@) =~= formatted(format@, args@));
    while i < len
        invariant
            i <= len,
            len == format@.len(),
            k <= i,
            formatted(format@, args@) == out@ + formatted_from(
                format@,
                i as int,
                args@,
                k as int,
            ),
        decreases len - i,
    {
        let ghost before = out@;
        let ghost rest = formatted_from(format@, i as int, args@, k as int);
        let c = format.get_char(i);
        if c != '%' {
            out.push(
                #[verifier::truncate]
                (c as u8),
            );
            i = i + 1;
            assert(out@ + formatted_from(format@, i as int, args@, k as int) =~= before + rest);
        } else {
            let mut at: usize = i + 1;
            while at < len && is_skipped(format.get_char(at), is_numeric(format.get_char(at)))
                invariant
                    i < at <= len,
                    len == format@.len(),
                    conversion_index(format@, i + 1) == conversion_index(format@, at as int),
                decreases len - at,
            {
                at = at + 1;
            }
            proof {
                lemma_conversion_index(format@, i + 1);
            }
            if at >= len || at + 1 >= len {
                assert(before + rest =~= before);
                return out;
            } else {
                let conversion = format.get_char(at);
                push_converted(&mut out, conversion, args, k);
                if conversion == 'd' || conversion == 'u' || conversion == 'p' || conversion == 'X'
                    || conversion == 'x' || conversion == 's' {
                    k = k + 1;
                }
                i = at + 1;
                assert(out@ + formatted_from(format@, i as int, args@, k as int) =~= before + rest);
            }
        }
    }
    assert(out@ + Seq::<u8>::empty() =~= out@);
    out
}

/// The conversions of `format` that are printed and take an argument, in
/// the order in which they take their arguments: what a caller has to
/// fetch before it can have the format printed.
pub fn argument_conversions(format: &str) -> (conversions: Vec<char>)
    ensures
        conversions@ == argument_conversions_from(format@, 0),
{
    let len = format.unicode_len();
    let mut out: Vec<char> = Vec::new();
    let mut i: usize = 0;
    assert(Seq::<char>::empty() + argument_conversions_from(format@, 0)
        =~= argument_conversions_from(format@, 0));
    while i < len
        invariant
            i <= len,
            len == format@.len(),
            argument_conversions_from(format@, 0) == out@ + argument_conversions_from(
                format@,
                i as int,
            ),
        decreases len - i,
    {
        let ghost before = out@;
        let ghost rest = argument_conversions_from(format@, i as int);
        let c = format.get_char(i);
        if c != '%' {
            i = i + 1;
        } else {
            let mut at: usize = i + 1;
            while at < len && is_skipped(format.get_char(at), is_numeric(format.get_char(at)))
                invariant
                    i < at <= len,
                    len == format@.len(),
                    conversion_index(format@, i + 1) == conversion_index(format@, at as int),
                decreases len - at,
            {
                at = at + 1;
            }
            proof {
                lemma_conversion_index(format@, i + 1);
            }
            if at >= len || at + 1 >= len {
                assert(before + rest =~= before);
                return out;
            } else {
                let conversion = format.get_char(at);
                if conversion == 'd' || conversion == 'u' || conversion == 'p' || conversion == 'X'
                    || conversion == 'x' || conversion == 's' {
                    out.push(conversion);
                }
                i = at + 1;
                assert(out@ + argument_conversions_from(format@, i as int) =~= before + rest);
            }
        }
    }
    assert(out@ + Seq::<char>::empty() =~= out@);
    out
}

/// Number of bytes that hold `text` in memory.
pub open spec fn byte_len(text: Seq<char>) -> nat {
    vstd::utf8::encode_utf8(text).len()
}

/// Every argument that a conversion prints as text fits a text buffer.
/// `conversions` are the conversions that take the arguments, in order.
pub open spec fn texts_fit(conversions: Seq<char>, args: Seq<VaArg>) -> bool {
    forall|k: int|
        0 <= k < conversions.len() && k < args.len() && conversions[k] == 's' ==> byte_len(
            (#[trigger] args[k]).text@,
        ) <= STRBUF_SIZE
}

/// The format, every text that it prints and the text that comes out fit
/// the text buffers through which they go, of [`STRBUF_SIZE`] bytes each.
pub open spec fn fits_text_buffers(format: Seq<char>, args: Seq<VaArg>) -> bool {
    &&& byte_len(format) <= STRBUF_SIZE
    &&& texts_fit(argument_conversions_from(format, 0), args)
    &&& formatted(format, args).len() <= STRBUF_SIZE
}

/// Whether every argument that `format` prints as text fits a text buffer.
fn check_texts(format: &str, args: &[VaArg]) -> (fit: bool)
    ensures
        fit == texts_fit(argument_conversions_from(format@, 0), args@),
{
    let conversions = argument_conversions(format);
    let mut k: usize = 0;
    while k < conversions.len() && k < args.len()
        invariant
            k <= conversions.len(),
            k <= args.len(),
            conversions@ == argument_conversions_from(format@, 0),
            forall|j: int|
                0 <= j < k && conversions@[j] == 's' ==> byte_len((#[trigger] args@[j]).text@)
                    <= STRBUF_SIZE,
        decreases conversions.len() - k,
    {
        if conversions[k] == 's' && args[k].text.as_str().as_bytes().len() > STRBUF_SIZE {
            return false;
        }
        k = k + 1;
    }
    true
}

/// Prints `format` with the arguments `args` into `dst`, with a NUL byte
/// behind the text, and returns the text's length. The size `n` is
/// accepted and not used.
///
/// Nothing is written, and nothing returned, where the format, a text that
/// it prints or the text that comes out has more than [`STRBUF_SIZE`]
/// bytes, or `dst` has no room for the text and the NUL byte.
pub fn vsnprintf(dst: &mut Vec<u8>, n: u32, format: &str, args: &[VaArg]) -> (written: Option<
    usize,
>)
    ensures
        final(dst).len() == old(dst).len(),
        (written is Some) == (fits_text_buffers(format@, args@) && formatted(format@, args@).len()
            < old(dst).len()),
        written is None ==> final(dst)@ == old(dst)@,
        written matches Some(len) ==> len == formatted(format@, args@).len() && final(dst)@
            == formatted(format@, args@).push(0u8) + old(dst)@.skip(len + 1),
{
    if format.as_bytes().len() > STRBUF_SIZE || !check_texts(format, args) {
        return None;
    }
    let text = format_text(format, args);
    if text.len() > STRBUF_SIZE || text.len() >= dst.len() {
        return None;
    }
    let mut idx: usize = 0;
    while idx < text.len()
        invariant
            idx <= text.len(),
            text.len() < dst.len(),
            dst.len() == old(dst).len(),
            dst@ == text@.take(idx as int) + old(dst)@.skip(idx as int),
        decreases text.len() - idx,
    {
        dst.set(idx, text[idx]);
        idx = idx + 1;
        assert(dst@ =~= text@.take(idx as int) + old(dst)@.skip(idx as int));
    }
    dst.set(idx, 0u8);
    assert(dst@ =~= text@.push(0u8) + old(dst)@.skip(idx + 1));
    Some(idx)
}

} // verus!
