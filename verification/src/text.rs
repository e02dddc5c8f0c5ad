//! Text in byte buffers: padding with zero bytes, UTF-8, and hexadecimal
//! numbers.

use vstd::prelude::*;
use vstd::utf8::{decode_utf8, encode_utf8, encode_utf8_decode_utf8, valid_utf8};

verus! {

/// `String::from_utf8` of std: a string that holds `bytes`, if they are
/// well-formed UTF-8, and nothing otherwise.
#[verifier::external_body]
fn string_from_utf8(bytes: &[u8]) -> (r: Option<String>)
    ensures
        r is Some <==> valid_utf8(bytes@),
        r matches Some(s) ==> encode_utf8(s@) == bytes@,
{
    String::from_utf8(bytes.to_vec()).ok()
}

/// The text that `bytes` encode in UTF-8, or nothing if they are not
/// well-formed.
pub fn text_of_utf8(bytes: &[u8]) -> (r: Option<String>)
    ensures
        r is Some <==> valid_utf8(bytes@),
        r matches Some(s) ==> s@ == decode_utf8(bytes@),
{
    let r: Option<String> = string_from_utf8(bytes);
    proof {
        if r is Some {
            encode_utf8_decode_utf8(r->Some_0@);
        }
    }
    r
}

/// The characters that the decoder of the `utf8_decode` crate reads from
/// `bytes`, or nothing where it reports an error. The decoder is more
/// lenient than UTF-8 proper, so this is not `decode_utf8`.
pub uninterp spec fn lenient_utf8(bytes: Seq<u8>) -> Option<Seq<char>>;

/// `utf8_decode::Decoder` run over `bytes` to the end: the characters it
/// yields, or nothing if it yields an error.
#[verifier::external_body]
pub(crate) fn decode_lenient(bytes: &[u8]) -> (r: Option<String>)
    ensures
        match r {
            Some(s) => lenient_utf8(bytes@) == Some(s@),
            None => lenient_utf8(bytes@) is None,
        },
{
    utf8_decode::Decoder::new(bytes.iter().cloned()).collect::<Result<String, _>>().ok()
}

/// How many bytes of `bytes` are left when the bytes `pad` at its end are
/// dropped.
pub open spec fn spec_trimmed_end(bytes: Seq<u8>, pad: u8) -> int
    decreases bytes.len(),
{
    if bytes.len() == 0 {
        0
    } else if bytes.last() == pad {
        spec_trimmed_end(bytes.drop_last(), pad)
    } else {
        bytes.len() as int
    }
}

/// How many bytes `pad` stand at the start of `bytes`.
pub open spec fn spec_leading(bytes: Seq<u8>, pad: u8) -> int
    decreases bytes.len(),
{
    if bytes.len() == 0 {
        0
    } else if bytes[0] == pad {
        1 + spec_leading(bytes.skip(1), pad)
    } else {
        0
    }
}

/// `bytes` without the bytes `pad` at its end.
pub open spec fn spec_trim_end(bytes: Seq<u8>, pad: u8) -> Seq<u8> {
    bytes.take(spec_trimmed_end(bytes, pad))
}

/// `bytes` without the bytes `pad` at its start and at its end.
pub open spec fn spec_trim(bytes: Seq<u8>, pad: u8) -> Seq<u8> {
    let kept = spec_trim_end(bytes, pad);
    kept.skip(spec_leading(kept, pad))
}

/// `bytes` without the zero bytes at its end.
pub open spec fn spec_trim_end_nul(bytes: Seq<u8>) -> Seq<u8> {
    spec_trim_end(bytes, 0)
}

/// `bytes` without the zero bytes at its start and at its end.
pub open spec fn spec_trim_nul(bytes: Seq<u8>) -> Seq<u8> {
    spec_trim(bytes, 0)
}

/// What is left of `bytes` when the bytes `pad` at its end are dropped
/// lies within `bytes`, ends with another byte, and is followed by `pad`
/// only.
pub proof fn lemma_trimmed_end_bounds(bytes: Seq<u8>, pad: u8)
    ensures
        0 <= spec_trimmed_end(bytes, pad) <= bytes.len(),
        spec_trimmed_end(bytes, pad) > 0 ==> bytes[spec_trimmed_end(bytes, pad) - 1] != pad,
        forall|k: int| spec_trimmed_end(bytes, pad) <= k < bytes.len() ==> bytes[k] == pad,
    decreases bytes.len(),
{
    if bytes.len() > 0 && bytes.last() == pad {
        lemma_trimmed_end_bounds(bytes.drop_last(), pad);
        assert forall|k: int| spec_trimmed_end(bytes, pad) <= k < bytes.len() implies bytes[k]
            == pad by {
            if k < bytes.len() - 1 {
                assert(bytes.drop_last()[k] == bytes[k]);
            }
        }
    }
}

/// The bytes `pad` at the start of `bytes` lie within `bytes` and are
/// followed by another byte, if by any.
pub proof fn lemma_leading_bounds(bytes: Seq<u8>, pad: u8)
    ensures
        0 <= spec_leading(bytes, pad) <= bytes.len(),
        spec_leading(bytes, pad) < bytes.len() ==> bytes[spec_leading(bytes, pad)] != pad,
        forall|k: int| 0 <= k < spec_leading(bytes, pad) ==> bytes[k] == pad,
    decreases bytes.len(),
{
    if bytes.len() > 0 && bytes[0] == pad {
        lemma_leading_bounds(bytes.skip(1), pad);
        assert forall|k: int| 0 <= k < spec_leading(bytes, pad) implies bytes[k] == pad by {
            if k > 0 {
                assert(bytes.skip(1)[k - 1] == bytes[k]);
            }
        }
    }
}

proof fn lemma_trimmed_end_is(bytes: Seq<u8>, pad: u8, end: int)
    requires
        0 <= end <= bytes.len(),
        end > 0 ==> bytes[end - 1] != pad,
        forall|k: int| end <= k < bytes.len() ==> bytes[k] == pad,
    ensures
        spec_trimmed_end(bytes, pad) == end,
    decreases bytes.len(),
{
    if bytes.len() > end {
        lemma_trimmed_end_is(bytes.drop_last(), pad, end);
    }
}

proof fn lemma_leading_is(bytes: Seq<u8>, pad: u8, start: int)
    requires
        0 <= start <= bytes.len(),
        start < bytes.len() ==> bytes[start] != pad,
        forall|k: int| 0 <= k < start ==> bytes[k] == pad,
    ensures
        spec_leading(bytes, pad) == start,
    decreases bytes.len(),
{
    if start > 0 {
        assert(bytes[0] == pad);
        assert forall|k: int| 0 <= k < start - 1 implies bytes.skip(1)[k] == pad by {
            assert(bytes.skip(1)[k] == bytes[k + 1]);
        }
        lemma_leading_is(bytes.skip(1), pad, start - 1);
    }
}

/// Drops the bytes `pad` at the end of `bytes`.
pub fn trim_end(bytes: &[u8], pad: u8) -> (kept: &[u8])
    ensures
        kept@ == spec_trim_end(bytes@, pad),
{
    let mut end: usize = bytes.len();
    while end > 0 && bytes[end - 1] == pad
        invariant
            end <= bytes.len(),
            forall|k: int| end <= k < bytes.len() ==> bytes@[k] == pad,
        decreases end,
    {
        end = end - 1;
    }
    proof {
        lemma_trimmed_end_is(bytes@, pad, end as int);
    }
    vstd::slice::slice_subrange(bytes, 0, end)
}

/// Drops the bytes `pad` at the start and at the end of `bytes`.
pub fn trim(bytes: &[u8], pad: u8) -> (kept: &[u8])
    ensures
        kept@ == spec_trim(bytes@, pad),
{
    let tail: &[u8] = trim_end(bytes, pad);
    let mut start: usize = 0;
    while start < tail.len() && tail[start] == pad
        invariant
            start <= tail.len(),
            forall|k: int| 0 <= k < start ==> tail@[k] == pad,
        decreases tail.len() - start,
    {
        start = start + 1;
    }
    proof {
        lemma_leading_is(tail@, pad, start as int);
    }
    vstd::slice::slice_subrange(tail, start, tail.len())
}

/// Drops the zero bytes at the end of `bytes`.
pub fn trim_end_nul(bytes: &[u8]) -> (kept: &[u8])
    ensures
        kept@ == spec_trim_end_nul(bytes@),
{
    trim_end(bytes, 0)
}

/// Drops the zero bytes at the start and at the end of `bytes`.
pub fn trim_nul(bytes: &[u8]) -> (kept: &[u8])
    ensures
        kept@ == spec_trim_nul(bytes@),
{
    trim(bytes, 0)
}

/// `text` without the `0x` that starts it, as often as it starts with one.
pub open spec fn spec_strip_0x(text: Seq<u8>) -> Seq<u8>
    decreases text.len(),
{
    if text.len() >= 2 && text[0] == 0x30 && text[1] == 0x78 {
        spec_strip_0x(text.skip(2))
    } else {
        text
    }
}

/// The value of a digit: `0` to `9` count 0 to 9, and the letters from `a`
/// on, small or capital, count from 10 on.
pub open spec fn spec_digit(byte: u8) -> Option<int> {
    if 0x30 <= byte <= 0x39 {
        Some(byte - 0x30)
    } else if 0x61 <= byte <= 0x7A {
        Some(byte - 0x61 + 10)
    } else if 0x41 <= byte <= 0x5A {
        Some(byte - 0x41 + 10)
    } else {
        None
    }
}

/// The number that `digits` write to the base `radix`, or nothing if one of
/// them is no digit of that base. No digits write zero.
pub open spec fn spec_digits_value(digits: Seq<u8>, radix: int) -> Option<int>
    decreases digits.len(),
{
    if digits.len() == 0 {
        Some(0)
    } else {
        match (spec_digits_value(digits.drop_last(), radix), spec_digit(digits.last())) {
            (Some(high), Some(low)) => if low < radix {
                Some(high * radix + low)
            } else {
                None
            },
            _ => None,
        }
    }
}

/// The number that `digits` writes to the base `radix`: at least one digit
/// of that base and nothing else, for a value that fits 64 bits. Nothing
/// otherwise.
pub open spec fn spec_number(digits: Seq<u8>, radix: int) -> Option<u64> {
    if digits.len() == 0 {
        None
    } else {
        match spec_digits_value(digits, radix) {
            Some(value) => if value <= u64::MAX {
                Some(value as u64)
            } else {
                None
            },
            None => None,
        }
    }
}

/// The number that `digits` writes in hexadecimal.
pub open spec fn spec_hex_number(digits: Seq<u8>) -> Option<u64> {
    spec_number(digits, 16)
}

/// The number that `digits` writes in decimal.
pub open spec fn spec_decimal_number(digits: Seq<u8>) -> Option<u64> {
    spec_number(digits, 10)
}

/// `text` without the plus sign that may start it.
pub open spec fn spec_strip_plus(text: Seq<u8>) -> Seq<u8> {
    if text.len() > 0 && text[0] == 0x2B {
        text.skip(1)
    } else {
        text
    }
}

/// The address that `text` writes in hexadecimal: any number of `0x` in
/// front, then an optional plus sign, then a hexadecimal number. Nothing
/// otherwise.
pub open spec fn spec_parse_hex(text: Seq<u8>) -> Option<u64> {
    spec_hex_number(spec_strip_plus(spec_strip_0x(text)))
}

/// The value of a digit.
pub fn digit(byte: u8) -> (value: Option<u8>)
    ensures
        match value {
            Some(v) => spec_digit(byte) == Some(v as int),
            None => spec_digit(byte) is None,
        },
{
    if 0x30 <= byte && byte <= 0x39 {
        Some(byte - 0x30)
    } else if 0x61 <= byte && byte <= 0x7A {
        Some(byte - 0x61 + 10)
    } else if 0x41 <= byte && byte <= 0x5A {
        Some(byte - 0x41 + 10)
    } else {
        None
    }
}

/// The value of digits never shrinks as digits are added, and a text with
/// a bad digit has no value however it goes on.
proof fn lemma_digits_value_prefix(digits: Seq<u8>, radix: int, shorter: int)
    requires
        radix >= 1,
        0 <= shorter <= digits.len(),
    ensures
        spec_digits_value(digits.take(shorter), radix) is None ==> spec_digits_value(
            digits,
            radix,
        ) is None,
        spec_digits_value(digits, radix) matches Some(v) ==> spec_digits_value(
            digits.take(shorter),
            radix,
        ) matches Some(w) && 0 <= w <= v,
    decreases digits.len() - shorter,
{
    if shorter == digits.len() {
        assert(digits.take(shorter) =~= digits);
        lemma_digits_value_nonnegative(digits, radix);
    } else {
        lemma_digits_value_prefix(digits.drop_last(), radix, shorter);
        assert(digits.drop_last().take(shorter) =~= digits.take(shorter));
        lemma_digits_value_nonnegative(digits.drop_last(), radix);
        if spec_digits_value(digits, radix) is Some {
            let high = spec_digits_value(digits.drop_last(), radix)->Some_0;
            assert(high * radix >= high) by (nonlinear_arith)
                requires
                    high >= 0,
                    radix >= 1,
            ;
        }
    }
}

proof fn lemma_digits_value_nonnegative(digits: Seq<u8>, radix: int)
    requires
        radix >= 1,
    ensures
        spec_digits_value(digits, radix) matches Some(v) ==> v >= 0,
    decreases digits.len(),
{
    if digits.len() > 0 {
        lemma_digits_value_nonnegative(digits.drop_last(), radix);
        if spec_digits_value(digits, radix) is Some {
            let high = spec_digits_value(digits.drop_last(), radix)->Some_0;
            assert(high * radix >= 0) by (nonlinear_arith)
                requires
                    high >= 0,
                    radix >= 1,
            ;
        }
    }
}

/// Parses a number written to the base `radix`: digits only.
fn number(digits: &[u8], radix: u8) -> (value: Option<u64>)
    requires
        2 <= radix <= 36,
    ensures
        value == spec_number(digits@, radix as int),
{
    if digits.len() == 0 {
        return None;
    }
    let mut value: u64 = 0;
    let mut i: usize = 0;
    while i < digits.len()
        invariant
            2 <= radix <= 36,
            i <= digits.len(),
            digits@.len() > 0,
            spec_digits_value(digits@.take(i as int), radix as int) == Some(value as int),
        decreases digits.len() - i,
    {
        proof {
            let longer = digits@.take(i + 1);
            assert(longer.drop_last() =~= digits@.take(i as int));
            assert(longer.last() == digits@[i as int]);
            lemma_digits_value_prefix(digits@, radix as int, i + 1);
            assert(spec_digits_value(longer, radix as int) == match spec_digit(
                digits@[i as int],
            ) {
                Some(low) => if low < radix {
                    Some(value * radix + low)
                } else {
                    None
                },
                None => None,
            });
        }
        let low: u8 = match digit(digits[i]) {
            None => {
                return None;
            },
            Some(low) => low,
        };
        if low >= radix {
            return None;
        }
        if value > (u64::MAX - low as u64) / (radix as u64) {
            proof {
                let v = value as int;
                let r = radix as int;
                let l = low as int;
                assert(v * r + l > u64::MAX) by (nonlinear_arith)
                    requires
                        v > (u64::MAX - l) / r,
                        r >= 2,
                        0 <= l <= u64::MAX,
                ;
            }
            return None;
        }
        proof {
            let v = value as int;
            let r = radix as int;
            let l = low as int;
            assert(v * r + l <= u64::MAX) by (nonlinear_arith)
                requires
                    0 <= v <= (u64::MAX - l) / r,
                    r >= 2,
                    0 <= l <= u64::MAX,
            ;
        }
        value = value * (radix as u64) + low as u64;
        i = i + 1;
    }
    assert(digits@.take(digits.len() as int) =~= digits@);
    Some(value)
}

/// Parses a hexadecimal number: digits only.
pub fn hex_number(digits: &[u8]) -> (value: Option<u64>)
    ensures
        value == spec_hex_number(digits@),
{
    number(digits, 16)
}

/// Parses a decimal number: digits only.
pub fn decimal_number(digits: &[u8]) -> (value: Option<u64>)
    ensures
        value == spec_decimal_number(digits@),
{
    number(digits, 10)
}

/// Parses an address written in hexadecimal, with or without `0x` in front.
pub fn parse_hex(text: &[u8]) -> (value: Option<u64>)
    ensures
        value == spec_parse_hex(text@),
{
    let mut start: usize = 0;
    assert(text@.skip(0) =~= text@);
    while text.len() - start >= 2 && text[start] == 0x30 && text[start + 1] == 0x78
        invariant
            start <= text.len(),
            spec_strip_0x(text@.skip(start as int)) == spec_strip_0x(text@),
        decreases text.len() - start,
    {
        proof {
            assert(text@.skip(start as int).skip(2) =~= text@.skip(start + 2));
        }
        start = start + 2;
    }
    if start < text.len() && text[start] == 0x2B {
        start = start + 1;
    }
    assert(spec_strip_plus(spec_strip_0x(text@)) =~= text@.skip(start as int));
    hex_number(vstd::slice::slice_subrange(text, start, text.len()))
}

/// The index of the first byte `mark` in `text`, or the length of `text` if
/// it holds none.
pub open spec fn spec_first(text: Seq<u8>, mark: u8) -> int
    decreases text.len(),
{
    if text.len() == 0 {
        0
    } else if text[0] == mark {
        0
    } else {
        1 + spec_first(text.skip(1), mark)
    }
}

/// The first byte `mark` lies within `text` or at its end.
pub proof fn lemma_first_bounds(text: Seq<u8>, mark: u8)
    ensures
        0 <= spec_first(text, mark) <= text.len(),
    decreases text.len(),
{
    if text.len() > 0 && text[0] != mark {
        lemma_first_bounds(text.skip(1), mark);
    }
}

proof fn lemma_first_is(text: Seq<u8>, mark: u8, at: int)
    requires
        0 <= at <= text.len(),
        at < text.len() ==> text[at] == mark,
        forall|k: int| 0 <= k < at ==> text[k] != mark,
    ensures
        spec_first(text, mark) == at,
    decreases text.len(),
{
    if at > 0 {
        assert(text[0] != mark);
        assert forall|k: int| 0 <= k < at - 1 implies text.skip(1)[k] != mark by {
            assert(text.skip(1)[k] == text[k + 1]);
        }
        lemma_first_is(text.skip(1), mark, at - 1);
    }
}

/// Finds the first byte `mark` in `text`.
pub fn first(text: &[u8], mark: u8) -> (at: usize)
    ensures
        at == spec_first(text@, mark),
        at <= text@.len(),
{
    let mut at: usize = 0;
    while at < text.len() && text[at] != mark
        invariant
            at <= text.len(),
            forall|k: int| 0 <= k < at ==> text@[k] != mark,
        decreases text.len() - at,
    {
        at = at + 1;
    }
    proof {
        lemma_first_is(text@, mark, at as int);
    }
    at
}

/// The items of a list written with commas between them: each without the
/// spaces round it, and none that is empty.
pub open spec fn spec_list_items(text: Seq<u8>) -> Seq<Seq<u8>>
    decreases text.len(),
{
    let comma = spec_first(text, 0x2C);
    let item = spec_trim(text.take(comma), 0x20);
    let rest = if 0 <= comma < text.len() {
        spec_list_items(text.skip(comma + 1))
    } else {
        Seq::empty()
    };
    if item.len() > 0 {
        seq![item] + rest
    } else {
        rest
    }
}

/// The items held by `items`, as sequences.
pub open spec fn items_view(items: Seq<Vec<u8>>) -> Seq<Seq<u8>> {
    Seq::new(items.len(), |i: int| items[i]@)
}

/// Splits a list written with commas between its items.
pub fn list_items(text: &[u8]) -> (items: Vec<Vec<u8>>)
    ensures
        items_view(items@) == spec_list_items(text@),
{
    let mut items: Vec<Vec<u8>> = Vec::new();
    let mut start: usize = 0;
    assert(text@.skip(0) =~= text@);
    loop
        invariant_except_break
            items_view(items@) + spec_list_items(text@.skip(start as int)) == spec_list_items(
                text@,
            ),
        invariant
            start <= text.len(),
        ensures
            items_view(items@) == spec_list_items(text@),
        decreases text.len() - start,
    {
        let rest: &[u8] = vstd::slice::slice_subrange(text, start, text.len());
        let comma: usize = first(rest, 0x2C);
        let item: &[u8] = trim(vstd::slice::slice_subrange(rest, 0, comma), 0x20);
        let ghost before = items_view(items@);
        let ghost tail = if comma < rest@.len() {
            spec_list_items(rest@.skip(comma + 1))
        } else {
            Seq::<Seq<u8>>::empty()
        };
        if item.len() > 0 {
            items.push(vstd::slice::slice_to_vec(item));
            assert(items_view(items@) =~= before + seq![item@]);
            assert(before + (seq![item@] + tail) =~= items_view(items@) + tail);
        }
        assert(items_view(items@) + tail == spec_list_items(text@));
        if comma >= rest.len() {
            assert(items_view(items@) + tail =~= items_view(items@));
            break;
        }
        proof {
            assert(rest@.skip(comma + 1) =~= text@.skip(start + comma + 1));
        }
        start = start + comma + 1;
    }
    items
}

/// The version that `text` writes: a decimal number, or two with a dot
/// between them, each of which fits 32 bits. One number alone is a major
/// version with minor version zero.
pub open spec fn spec_parse_version(text: Seq<u8>) -> Option<(u32, u32)> {
    let dot = spec_first(text, 0x2E);
    match spec_decimal_number(text.take(dot)) {
        None => None,
        Some(major) => if major > u32::MAX {
            None
        } else if dot >= text.len() {
            Some((major as u32, 0u32))
        } else {
            match spec_decimal_number(text.skip(dot + 1)) {
                None => None,
                Some(minor) => if minor > u32::MAX {
                    None
                } else {
                    Some((major as u32, minor as u32))
                },
            }
        },
    }
}

/// Parses a version: `major` or `major.minor`.
pub fn parse_version(text: &[u8]) -> (version: Option<(u32, u32)>)
    ensures
        version == spec_parse_version(text@),
{
    let dot: usize = first(text, 0x2E);
    let major: u64 = match decimal_number(vstd::slice::slice_subrange(text, 0, dot)) {
        None => {
            return None;
        },
        Some(major) => major,
    };
    if major > 0xFFFF_FFFF {
        return None;
    }
    if dot >= text.len() {
        return Some((major as u32, 0));
    }
    let minor: u64 = match decimal_number(
        vstd::slice::slice_subrange(text, dot + 1, text.len()),
    ) {
        None => {
            return None;
        },
        Some(minor) => minor,
    };
    if minor > 0xFFFF_FFFF {
        return None;
    }
    Some((major as u32, minor as u32))
}

} // verus!
