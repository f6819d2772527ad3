//! Hex escape processing for ZPL `^FH` field data.
//!
//! When `^FH` is active, indicator-prefixed hex pairs (`_XX` by default) in
//! field data stand for literal byte values: `_1A` is byte `0x1A`. The
//! indicator defaults to `_` and can be changed by `^FH`'s argument.

use crate::text::{append_str, decimal, owned, push_char, usize_to_decimal};
use vstd::prelude::*;
use vstd::string::*;

verus! {

broadcast use vstd::seq::group_seq_axioms;

/// A hex escape problem at a byte offset of the field data.
#[derive(Debug, Clone, PartialEq, Eq)]
pub struct HexEscapeError {
    /// Byte offset of the indicator character within the content string.
    pub offset: usize,
    /// Human-readable description of the error.
    pub message: String,
}

/// An ASCII hex digit: `0-9`, `A-F` or `a-f`.
pub open spec fn is_hex_digit(b: u8) -> bool {
    (48 <= b <= 57) || (65 <= b <= 70) || (97 <= b <= 102)
}

/// The value (0-15) of an ASCII hex digit.
pub open spec fn hex_value(b: u8) -> int {
    if b <= 57 {
        b - 48
    } else if b <= 70 {
        b - 55
    } else {
        b - 87
    }
}

/// Message for an indicator followed by two bytes that are not both hex digits.
pub open spec fn invalid_message(ind: u8, h1: u8, h2: u8) -> Seq<char> {
    "Invalid hex escape sequence "@ + seq![ind as char, h1 as char, h2 as char]
        + " (expected two hex digits 0-9, A-F after '"@ + seq![ind as char] + "')"@
}

/// Message for an indicator too close to the end of the input.
pub open spec fn incomplete_message(offset: nat, ind: u8) -> Seq<char> {
    "Incomplete hex escape sequence at offset "@ + decimal(offset) + " (expected '"@ + seq![
        ind as char,
    ] + "XX' but input ends)"@
}

/// The errors (offset and message) that a left-to-right scan of `b` from
/// position `i` reports: an indicator followed by two bytes consumes all
/// three and is an error unless both are hex digits; an indicator with fewer
/// than two bytes after it is an error and ends the scan.
pub open spec fn scan_errors(b: Seq<u8>, ind: u8, i: int) -> Seq<(int, Seq<char>)>
    decreases b.len() - i,
{
    if i < 0 || i >= b.len() {
        seq![]
    } else if b[i] == ind {
        if i + 2 < b.len() {
            let rest = scan_errors(b, ind, i + 3);
            if is_hex_digit(b[i + 1]) && is_hex_digit(b[i + 2]) {
                rest
            } else {
                seq![(i, invalid_message(ind, b[i + 1], b[i + 2]))] + rest
            }
        } else {
            seq![(i, incomplete_message(i as nat, ind))]
        }
    } else {
        scan_errors(b, ind, i + 1)
    }
}

/// The bytes that decoding `b` from position `i` produces: valid escapes
/// become their byte, invalid ones are copied through raw, and an
/// incomplete escape copies the rest of the input.
pub open spec fn decode_from(b: Seq<u8>, ind: u8, i: int) -> Seq<u8>
    decreases b.len() - i,
{
    if i < 0 || i >= b.len() {
        seq![]
    } else if b[i] == ind {
        if i + 2 < b.len() {
            let rest = decode_from(b, ind, i + 3);
            if is_hex_digit(b[i + 1]) && is_hex_digit(b[i + 2]) {
                seq![(hex_value(b[i + 1]) * 16 + hex_value(b[i + 2])) as u8] + rest
            } else {
                seq![b[i], b[i + 1], b[i + 2]] + rest
            }
        } else {
            b.subrange(i, b.len() as int)
        }
    } else {
        seq![b[i]] + decode_from(b, ind, i + 1)
    }
}

/// The abstract view of a list of errors: offsets and messages.
pub open spec fn errors_view(v: Seq<HexEscapeError>) -> Seq<(int, Seq<char>)> {
    v.map_values(|e: HexEscapeError| (e.offset as int, e.message@))
}

/// The errors reported for `content` with indicator `ind`.
pub open spec fn spec_hex_errors(content: &str, ind: u8) -> Seq<(int, Seq<char>)> {
    scan_errors(content.spec_bytes(), ind, 0)
}

/// The bytes decoded from `content` with indicator `ind`.
pub open spec fn spec_decoded(content: &str, ind: u8) -> Seq<u8> {
    decode_from(content.spec_bytes(), ind, 0)
}

fn is_hex_digit_byte(b: u8) -> (r: bool)
    ensures
        r == is_hex_digit(b),
{
    (48 <= b && b <= 57) || (65 <= b && b <= 70) || (97 <= b && b <= 102)
}

/// Converts a single ASCII hex digit to its value (0-15).
fn hex_digit_value(b: u8) -> (r: u8)
    requires
        is_hex_digit(b),
    ensures
        r as int == hex_value(b),
        r < 16,
{
    if b <= 57 {
        b - 48
    } else if b <= 70 {
        b - 55
    } else {
        b - 87
    }
}

/// Converts two ASCII hex digits to the byte they spell (high digit first).
fn hex_pair_to_byte(h1: u8, h2: u8) -> (r: u8)
    requires
        is_hex_digit(h1),
        is_hex_digit(h2),
    ensures
        r as int == hex_value(h1) * 16 + hex_value(h2),
{
    let a = hex_digit_value(h1);
    let b = hex_digit_value(h2);
    a * 16 + b
}

fn make_invalid_message(ind: u8, h1: u8, h2: u8) -> (r: String)
    ensures
        r@ == invalid_message(ind, h1, h2),
{
    let mut s = owned("Invalid hex escape sequence ");
    push_char(&mut s, ind as char);
    push_char(&mut s, h1 as char);
    push_char(&mut s, h2 as char);
    append_str(&mut s, " (expected two hex digits 0-9, A-F after '");
    push_char(&mut s, ind as char);
    append_str(&mut s, "')");
    proof {
        assert(s@ =~= invalid_message(ind, h1, h2));
    }
    s
}

fn make_incomplete_message(offset: usize, ind: u8) -> (r: String)
    ensures
        r@ == incomplete_message(offset as nat, ind),
{
    let mut s = owned("Incomplete hex escape sequence at offset ");
    let d = usize_to_decimal(offset);
    append_str(&mut s, d.as_str());
    append_str(&mut s, " (expected '");
    push_char(&mut s, ind as char);
    append_str(&mut s, "XX' but input ends)");
    proof {
        assert(s@ =~= incomplete_message(offset as nat, ind));
    }
    s
}

/// Validates the hex escape sequences in field data.
///
/// Scans `content` for `indicator` followed by two hex digits and returns
/// one error per invalid or incomplete sequence, in order of offset.
pub fn validate_hex_escapes(content: &str, indicator: u8) -> (errors: Vec<HexEscapeError>)
    ensures
        errors_view(errors@) == spec_hex_errors(content, indicator),
{
    let mut errors: Vec<HexEscapeError> = Vec::new();
    let bytes = content.as_bytes();
    let ghost b = bytes@;
    let mut i: usize = 0;
    while i < bytes.len()
        invariant
            b == bytes@,
            b == content.spec_bytes(),
            i <= bytes.len() + 2,
            errors_view(errors@) + scan_errors(b, indicator, i as int) == scan_errors(
                b,
                indicator,
                0,
            ),
        decreases bytes.len() + 3 - i,
    {
        if bytes[i] == indicator {
            if bytes.len() - i > 2 {
                let h1 = bytes[i + 1];
                let h2 = bytes[i + 2];
                let ghost before = errors_view(errors@);
                if !is_hex_digit_byte(h1) || !is_hex_digit_byte(h2) {
                    let message = make_invalid_message(indicator, h1, h2);
                    errors.push(HexEscapeError { offset: i, message });
                    assert(errors_view(errors@) =~= before + seq![
                        (i as int, invalid_message(indicator, h1, h2)),
                    ]);
                }
                i = i + 3;
            } else {
                let message = make_incomplete_message(i, indicator);
                let ghost before = errors_view(errors@);
                errors.push(HexEscapeError { offset: i, message });
                assert(errors_view(errors@) =~= before + seq![
                    (i as int, incomplete_message(i as nat, indicator)),
                ]);
                assert(errors_view(errors@) =~= scan_errors(b, indicator, 0));
                return errors;
            }
        } else {
            i = i + 1;
        }
    }
    assert(scan_errors(b, indicator, i as int) =~= Seq::<(int, Seq<char>)>::empty());
    assert(errors_view(errors@) =~= scan_errors(b, indicator, 0));
    errors
}

/// Decodes the hex escape sequences in field data.
///
/// Returns `Ok` with the decoded bytes when every sequence is valid, and
/// `Err` with all errors otherwise (the same list [`validate_hex_escapes`]
/// reports).
pub fn decode_hex_escapes(content: &str, indicator: u8) -> (r: Result<Vec<u8>, Vec<HexEscapeError>>)
    ensures
        match r {
            Ok(out) => spec_hex_errors(content, indicator).len() == 0 && out@ == spec_decoded(
                content,
                indicator,
            ),
            Err(errs) => spec_hex_errors(content, indicator).len() > 0 && errors_view(errs@)
                == spec_hex_errors(content, indicator),
        },
{
    let mut output: Vec<u8> = Vec::new();
    let mut errors: Vec<HexEscapeError> = Vec::new();
    let bytes = content.as_bytes();
    let ghost b = bytes@;
    let mut i: usize = 0;
    while i < bytes.len()
        invariant
            b == bytes@,
            b == content.spec_bytes(),
            i <= bytes.len() + 2,
            errors_view(errors@) + scan_errors(b, indicator, i as int) == scan_errors(
                b,
                indicator,
                0,
            ),
            output@ + decode_from(b, indicator, i as int) == decode_from(b, indicator, 0),
        decreases bytes.len() + 3 - i,
    {
        let ghost out_before = output@;
        if bytes[i] == indicator {
            if bytes.len() - i > 2 {
                let h1 = bytes[i + 1];
                let h2 = bytes[i + 2];
                let ghost before = errors_view(errors@);
                if is_hex_digit_byte(h1) && is_hex_digit_byte(h2) {
                    let byte = hex_pair_to_byte(h1, h2);
                    output.push(byte);
                } else {
                    let message = make_invalid_message(indicator, h1, h2);
                    errors.push(HexEscapeError { offset: i, message });
                    assert(errors_view(errors@) =~= before + seq![
                        (i as int, invalid_message(indicator, h1, h2)),
                    ]);
                    output.push(bytes[i]);
                    output.push(h1);
                    output.push(h2);
                }
                assert(output@ + decode_from(b, indicator, i + 3) =~= decode_from(b, indicator, 0));
                i = i + 3;
            } else {
                let message = make_incomplete_message(i, indicator);
                let ghost before = errors_view(errors@);
                errors.push(HexEscapeError { offset: i, message });
                assert(errors_view(errors@) =~= before + seq![
                    (i as int, incomplete_message(i as nat, indicator)),
                ]);
                let ghost start = i as int;
                while i < bytes.len()
                    invariant
                        b == bytes@,
                        0 <= start <= i <= bytes.len(),
                        output@ == out_before + b.subrange(start, i as int),
                    decreases bytes.len() - i,
                {
                    let ghost prev = output@;
                    output.push(bytes[i]);
                    assert(b.subrange(start, i + 1) =~= b.subrange(start, i as int).push(b[i as int]));
                    assert(output@ =~= prev.push(b[i as int]));
                    i = i + 1;
                    assert(output@ =~= out_before + b.subrange(start, i as int));
                }
                assert(errors_view(errors@) =~= scan_errors(b, indicator, 0));
                return Err(errors);
            }
        } else {
            output.push(bytes[i]);
            assert(output@ + decode_from(b, indicator, i + 1) =~= decode_from(b, indicator, 0));
            i = i + 1;
        }
    }
    assert(scan_errors(b, indicator, i as int) =~= Seq::<(int, Seq<char>)>::empty());
    assert(decode_from(b, indicator, i as int) =~= Seq::<u8>::empty());
    assert(errors_view(errors@) =~= scan_errors(b, indicator, 0));
    assert(output@ =~= decode_from(b, indicator, 0));
    if errors.len() == 0 {
        Ok(output)
    } else {
        Err(errors)
    }
}

/// The uppercase ASCII hex digit for a value below sixteen.
pub open spec fn hex_digit_char(v: int) -> u8 {
    if v < 10 {
        (48 + v) as u8
    } else {
        (55 + v) as u8
    }
}

/// The lowercase ASCII hex digit for a value below sixteen.
pub open spec fn hex_digit_char_lower(v: int) -> u8 {
    if v < 10 {
        (48 + v) as u8
    } else {
        (87 + v) as u8
    }
}

/// The hex digit for a value below sixteen, lowercase when `lower` is set.
pub open spec fn hex_digit_in(v: int, lower: bool) -> u8 {
    if lower {
        hex_digit_char_lower(v)
    } else {
        hex_digit_char(v)
    }
}

/// Every byte of `data` written as `indicator` followed by two hex digits,
/// lowercase when `lower` is set.
pub open spec fn escape_all_in(data: Seq<u8>, ind: u8, lower: bool) -> Seq<u8> {
    Seq::new(
        (3 * data.len()) as nat,
        |p: int|
            if p % 3 == 0 {
                ind
            } else if p % 3 == 1 {
                hex_digit_in((data[p / 3] / 16) as int, lower)
            } else {
                hex_digit_in((data[p / 3] % 16) as int, lower)
            },
    )
}

/// Every byte of `data` written as `indicator` followed by two uppercase hex digits.
pub open spec fn escape_all(data: Seq<u8>, ind: u8) -> Seq<u8> {
    escape_all_in(data, ind, false)
}

/// Decoding succeeds exactly when validation reports nothing, and a failed
/// decode reports the same errors as validation: both scan the same way.
pub proof fn law_decode_fails_iff_validation_reports(content: &str, ind: u8)
    ensures
        spec_hex_errors(content, ind).len() == 0 <==> scan_errors(content.spec_bytes(), ind, 0)
            =~= Seq::<(int, Seq<char>)>::empty(),
{
}

/// Content without the indicator byte has no errors and decodes to itself.
pub proof fn law_plain_content_decodes_to_itself(content: &str, ind: u8)
    requires
        forall|k: int| 0 <= k < content.spec_bytes().len() ==> content.spec_bytes()[k] != ind,
    ensures
        spec_hex_errors(content, ind).len() == 0,
        spec_decoded(content, ind) == content.spec_bytes(),
{
    let b = content.spec_bytes();
    lemma_plain_suffix(b, ind, 0);
    assert(b.subrange(0, b.len() as int) =~= b);
}

proof fn lemma_plain_suffix(b: Seq<u8>, ind: u8, i: int)
    requires
        0 <= i <= b.len(),
        forall|k: int| 0 <= k < b.len() ==> b[k] != ind,
    ensures
        scan_errors(b, ind, i).len() == 0,
        decode_from(b, ind, i) =~= b.subrange(i, b.len() as int),
    decreases b.len() - i,
{
    if i < b.len() {
        lemma_plain_suffix(b, ind, i + 1);
        assert(b.subrange(i, b.len() as int) =~= seq![b[i]] + b.subrange(i + 1, b.len() as int));
    }
}

/// Escaping every byte as an indicator plus two hex digits and then decoding
/// gives back the original bytes, with no errors.
pub proof fn law_escape_then_decode_roundtrip(data: Seq<u8>, ind: u8)
    ensures
        scan_errors(escape_all(data, ind), ind, 0).len() == 0,
        decode_from(escape_all(data, ind), ind, 0) =~= data,
{
    lemma_escaped_suffix(data, ind, false, 0);
    assert(data.skip(0) =~= data);
}

/// Writing every byte as the indicator and two lowercase hex digits and
/// decoding the result gives the bytes back, with no error.
pub proof fn law_escape_lower_then_decode_roundtrip(data: Seq<u8>, ind: u8)
    ensures
        scan_errors(escape_all_in(data, ind, true), ind, 0).len() == 0,
        decode_from(escape_all_in(data, ind, true), ind, 0) =~= data,
{
    lemma_escaped_suffix(data, ind, true, 0);
    assert(data.skip(0) =~= data);
}

proof fn lemma_hex_digit_in(v: int, lower: bool)
    requires
        0 <= v < 16,
    ensures
        is_hex_digit(hex_digit_in(v, lower)),
        hex_value(hex_digit_in(v, lower)) == v,
{
}

proof fn lemma_escaped_suffix(data: Seq<u8>, ind: u8, lower: bool, k: int)
    requires
        0 <= k <= data.len(),
    ensures
        scan_errors(escape_all_in(data, ind, lower), ind, 3 * k).len() == 0,
        decode_from(escape_all_in(data, ind, lower), ind, 3 * k) =~= data.skip(k),
    decreases data.len() - k,
{
    let e = escape_all_in(data, ind, lower);
    if k < data.len() {
        lemma_escaped_suffix(data, ind, lower, k + 1);
        assert((3 * k) % 3 == 0 && (3 * k + 1) % 3 == 1 && (3 * k + 2) % 3 == 2) by (nonlinear_arith);
        assert((3 * k + 1) / 3 == k && (3 * k + 2) / 3 == k) by (nonlinear_arith);
        assert(3 * (k + 1) == 3 * k + 3);
        let hi = data[k] / 16;
        let lo = data[k] % 16;
        lemma_hex_digit_in(hi as int, lower);
        lemma_hex_digit_in(lo as int, lower);
        assert(e[3 * k] == ind);
        assert(e[3 * k + 1] == hex_digit_in(hi as int, lower));
        assert(e[3 * k + 2] == hex_digit_in(lo as int, lower));
        assert((hi * 16 + lo) as u8 == data[k]);
        assert(data.skip(k) =~= seq![data[k]] + data.skip(k + 1));
    } else {
        assert(3 * k == e.len());
    }
}

} // verus!
